//! Keyboard configuration daemon core.

pub mod clackctl;
pub mod color;
pub mod config;
pub mod engine;
pub mod hal;
pub mod hotplug;
pub mod input;
pub mod ipc;
pub mod sorted;
pub mod text;
