use rologlyphex::keymap::KeyMap;
use rologlyphex::xtype::{
    classify_keycode, keysym_row, pick_scratch, scan_order, unicode_to_keysym, KeycodeClass,
    KeysymCache, ScratchIndex, SlotError, NO_SYMBOL,
};

#[test]
fn keysyms_of_characters() {
    assert_eq!(unicode_to_keysym('a'), 0x61);
    assert_eq!(unicode_to_keysym('é'), 0xE9);
    assert_eq!(unicode_to_keysym('→'), 0x0100_2192);
    assert_eq!(unicode_to_keysym('🔥'), 0x0101_F525);
    assert_eq!(unicode_to_keysym('\n'), 0x0100_000A);
}

#[test]
fn keycode_classes() {
    assert_eq!(classify_keycode(&vec![0, 0, 0]), KeycodeClass::Free);
    assert_eq!(classify_keycode(&vec![0x0100_2192, 0]), KeycodeClass::Reclaim(0x0100_2192));
    assert_eq!(classify_keycode(&vec![0x61, 0x41]), KeycodeClass::Other);
    assert_eq!(classify_keycode(&vec![0, 0x61]), KeycodeClass::Other);
    assert_eq!(classify_keycode(&vec![]), KeycodeClass::Free);
}

#[test]
fn cached_characters_skip_remapping() {
    let mut c = KeysymCache::new();
    c.note_scanned(250, KeycodeClass::Free);
    c.note_scanned(251, KeycodeClass::Free);
    c.note_scanned(200, KeycodeClass::Reclaim(0x0100_2192));
    assert_eq!(c.counts(), (2, 1));
    assert_eq!(c.lookup(0x0100_2192), Some(200));
    let k = unicode_to_keysym('🔥');
    assert_eq!(c.lookup(k), None);
    assert_eq!(c.take_slot(k), Ok((251, true)));
    c.commit(k, 251, true);
    assert_eq!(c.counts(), (1, 2));
    assert_eq!(c.lookup(k), Some(251));
}

#[test]
fn least_recently_used_is_evicted_when_nothing_is_free() {
    let mut c = KeysymCache::new();
    assert_eq!(c.take_slot(5), Err(SlotError::NoKeycodes { keysym: 5 }));
    c.note_scanned(10, KeycodeClass::Reclaim(100));
    c.note_scanned(11, KeycodeClass::Reclaim(101));
    assert_eq!(c.lookup(100), Some(10)); // 101 is now the least recently used
    assert_eq!(c.take_slot(102), Ok((11, false)));
    c.commit(102, 11, false);
    assert_eq!(c.lookup(101), None);
    assert_eq!(c.lookup(102), Some(11));
    assert_eq!(c.counts(), (0, 2));
}

#[test]
fn scratch_keycodes_prefer_free_ones() {
    let scanned = vec![
        (255, KeycodeClass::Other),
        (254, KeycodeClass::Reclaim(0x0100_2192)),
        (253, KeycodeClass::Free),
        (252, KeycodeClass::Free),
    ];
    assert_eq!(pick_scratch(&scanned, 3), Ok(vec![253, 252, 254]));
    assert_eq!(pick_scratch(&scanned, 1), Ok(vec![253]));
    assert_eq!(pick_scratch(&scanned, 4), Err(3));
    assert_eq!(scan_order(8, 12, &vec![11]), vec![12, 10, 9]);
    assert_eq!(scan_order(8, 8, &vec![]), Vec::<u8>::new());
    assert_eq!(keysym_row(0x61, 3), vec![0x61, NO_SYMBOL, NO_SYMBOL]);
}

#[test]
fn a_layer_is_written_in_one_batch() {
    let keys = vec!["SL1".to_string(), "SL2".to_string(), "G1".to_string()];
    let idx = ScratchIndex::assign(&keys, &vec![12, 10]);
    assert_eq!(idx.keycode_of("SL1"), Some(12));
    assert_eq!(idx.keycode_of("SL2"), Some(10));
    assert_eq!(idx.keycode_of("G1"), None); // ran out of scratch keycodes
    assert_eq!(idx.range(), Some((10, 12)));
    let mut glyphs: KeyMap<char> = KeyMap::new();
    glyphs.insert("SL1".to_string(), '→');
    // rows 10, 11, 12 with two levels each; row 11 is a real key and is kept
    let existing = vec![1, 2, 0x61, 0x41, 5, 6];
    let out = idx.layer_keysyms(&glyphs, 10, 2, &existing);
    assert_eq!(out, vec![NO_SYMBOL, NO_SYMBOL, 0x61, 0x41, 0x0100_2192, NO_SYMBOL]);
    assert_eq!(ScratchIndex::assign(&Vec::new(), &vec![1]).range(), None);
}
