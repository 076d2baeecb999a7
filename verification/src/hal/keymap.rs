//! Keymap addresses.

use vstd::prelude::*;

use crate::sorted::{Key, SortedMap};
use crate::text::Sign;

verus! {

/// The address of one key on one layer.
#[derive(Clone, Copy, PartialEq, Eq, Structural, Debug)]
pub struct Slot {
    pub layer: u8,
    pub row: u8,
    pub col: u8,
}

impl Key for Slot {
    type Model = (u8, u8, u8);

    open spec fn model(&self) -> (u8, u8, u8) {
        (self.layer, self.row, self.col)
    }

    open spec fn precedes(a: (u8, u8, u8), b: (u8, u8, u8)) -> bool {
        a.0 < b.0 || (a.0 == b.0 && (a.1 < b.1 || (a.1 == b.1 && a.2 < b.2)))
    }

    proof fn strict_order(a: (u8, u8, u8), b: (u8, u8, u8), c: (u8, u8, u8)) {
    }

    fn sign(&self, other: &Slot) -> (s: Sign) {
        if self.layer < other.layer {
            Sign::Less
        } else if self.layer > other.layer {
            Sign::More
        } else if self.row < other.row {
            Sign::Less
        } else if self.row > other.row {
            Sign::More
        } else if self.col < other.col {
            Sign::Less
        } else if self.col > other.col {
            Sign::More
        } else {
            Sign::Same
        }
    }
}

/// Keycodes by address.
pub type Keymap = SortedMap<Slot, u16>;

} // verus!
