use clackd::hal::legacy::{
    shadow_file_name, CacheStatus, KeymapEntry, LightingState, SaveRequest, ShadowFile, ShadowState,
};

fn persisted(path: &str) -> ShadowState {
    ShadowState::load(Some(path.to_owned()), None)
}

#[test]
fn ephemeral_starts_empty_and_confirmed() {
    let s = ShadowState::ephemeral();
    assert_eq!(s.key_count(), 0);
    assert!(!s.is_dirty());
    assert_eq!(s.status(), CacheStatus::Confirmed);
}

#[test]
fn set_keycode_marks_dirty_and_pending() {
    let mut s = ShadowState::ephemeral();
    s.set_keycode(0, 0, 0, 0x0004);
    assert!(s.is_dirty());
    assert_eq!(s.status(), CacheStatus::Pending);
    assert_eq!(s.get_keycode(0, 0, 0), 0x0004);
}

#[test]
fn get_keycode_returns_zero_for_unset() {
    let s = ShadowState::ephemeral();
    assert_eq!(s.get_keycode(0, 5, 5), 0);
}

#[test]
fn dirty_layers_deduplicates() {
    let mut s = ShadowState::ephemeral();
    s.set_keycode(0, 0, 0, 4);
    s.set_keycode(0, 1, 1, 5);
    s.set_keycode(1, 0, 0, 6);
    assert_eq!(s.dirty_layers(), vec![0, 1]);
}

#[test]
fn prepare_and_confirm_clears_dirty() {
    let mut s = ShadowState::ephemeral();
    s.set_keycode(0, 0, 0, 0x0004);
    s.prepare_commit();
    assert_eq!(s.status(), CacheStatus::Pending);
    s.confirm_commit();
    assert!(!s.is_dirty());
    assert_eq!(s.status(), CacheStatus::Confirmed);
    // Keymap preserved.
    assert_eq!(s.get_keycode(0, 0, 0), 0x0004);
}

#[test]
fn rollback_restores_last_committed_state() {
    let mut s = ShadowState::ephemeral();
    // Commit 0x0004 as the known-good state.
    s.set_keycode(0, 0, 0, 0x0004);
    s.prepare_commit();
    s.confirm_commit();

    // Change to a new value and attempt to commit (but it fails).
    s.set_keycode(0, 0, 0, 0x0005);
    assert_eq!(s.get_keycode(0, 0, 0), 0x0005);

    s.prepare_commit();
    s.rollback();

    // Rollback restores to the last successfully committed state (0x0004),
    // not the pending value (0x0005).
    assert_eq!(s.get_keycode(0, 0, 0), 0x0004);
    assert_eq!(s.status(), CacheStatus::Failed);
    assert!(!s.is_dirty());
}

#[test]
fn rollback_with_no_prior_commit_clears_everything() {
    let mut s = ShadowState::ephemeral();
    // Set a value without ever committing.
    s.set_keycode(0, 0, 0, 0x0005);
    s.prepare_commit();
    s.rollback();

    // With no prior commit, confirmed is empty, so rollback clears.
    assert_eq!(s.get_keycode(0, 0, 0), 0);
    assert_eq!(s.status(), CacheStatus::Failed);
}

#[test]
fn save_and_load_round_trip() {
    let mut s = persisted("/data/test_device.json");
    s.set_keycode(0, 0, 0, 0x0004);
    s.set_keycode(1, 2, 3, 0x0042);
    s.prepare_commit();
    let SaveRequest { path, file: sf } = s.confirm_commit().unwrap(); // saves
    assert_eq!(path, "/data/test_device.json");
    assert_eq!(sf.version, 1);
    assert_eq!(sf.keymap.len(), 2);
    assert!(sf.keymap.iter().any(|e| e.layer == 0
        && e.row == 0
        && e.col == 0
        && e.keycode == 0x0004));
    assert!(sf.keymap.iter().any(|e| e.layer == 1
        && e.row == 2
        && e.col == 3
        && e.keycode == 0x0042));

    // Read back.
    let again = ShadowState::load(Some(path), Some(sf));
    assert_eq!(again.get_keycode(0, 0, 0), 0x0004);
    assert_eq!(again.get_keycode(1, 2, 3), 0x0042);
    assert_eq!(again.key_count(), 2);
    assert!(!again.is_dirty());
    assert_eq!(again.status(), CacheStatus::Confirmed);
}

#[test]
fn load_from_existing_json() {
    let file = ShadowFile {
        version: 1,
        keymap: vec![KeymapEntry { layer: 0, row: 1, col: 2, keycode: 99 }],
        lighting: Some(LightingState {
            mode: 5,
            r: 128,
            g: 64,
            b: 32,
            brightness: 8,
            speed: 3,
            direction: 1,
            random: true,
        }),
    };
    let s = ShadowState::load(Some("/data/existing.json".to_owned()), Some(file));

    assert_eq!(s.get_keycode(0, 1, 2), 99);
    assert_eq!(s.lighting().mode, 5);
    assert_eq!(s.lighting().r, 128);
    assert!(s.lighting().random);
}

#[test]
fn layer_entries_filters_correctly() {
    let mut s = ShadowState::ephemeral();
    s.set_keycode(0, 0, 0, 4);
    s.set_keycode(0, 1, 1, 5);
    s.set_keycode(1, 0, 0, 6);

    let l0: Vec<_> = s.layer_entries(0);
    assert_eq!(l0.len(), 2);
    let l1: Vec<_> = s.layer_entries(1);
    assert_eq!(l1.len(), 1);
    assert_eq!(l1[0], (0, 0, 6));
}

#[test]
fn ephemeral_states_are_not_saved() {
    let mut s = ShadowState::ephemeral();
    s.set_keycode(0, 0, 0, 4);
    s.prepare_commit();
    assert!(s.confirm_commit().is_none());
    assert!(s.persist_lighting().is_none());
}

#[test]
fn lighting_is_saved_beside_the_confirmed_keymap() {
    let mut s = persisted("/data/x.json");
    s.set_keycode(0, 0, 0, 4);
    s.prepare_commit();
    s.confirm_commit();
    s.set_keycode(0, 0, 1, 5);
    let lighting = LightingState { mode: 9, ..LightingState::default() };
    s.set_lighting(lighting);
    let saved = s.persist_lighting().unwrap();
    assert_eq!(saved.file.keymap, vec![KeymapEntry { layer: 0, row: 0, col: 0, keycode: 4 }]);
    assert_eq!(saved.file.lighting, Some(lighting));
}

#[test]
fn files_are_named_after_the_device() {
    assert_eq!(shadow_file_name("046d_g915"), "046d_g915.json");
}
