use rologlyphex::keymap::KeyMap;
use rologlyphex::xgrab::{
    evdev_fkey_keycode, grab_table, keycode_for, needs_focus_check, route, Action, Delivery,
    GrabState, GrabStep, RemapMode,
};

#[test]
fn knob_walks_the_ring_and_wraps() {
    let mut g = GrabState::new(3);
    assert_eq!(g.active(), 0);
    assert_eq!(g.on_key(Some(&Action::NavPrev), true, RemapMode::Lazy), GrabStep::Navigated { layer: 2 });
    assert_eq!(g.on_key(Some(&Action::NavNext), true, RemapMode::Lazy), GrabStep::Navigated { layer: 0 });
    assert_eq!(g.on_key(Some(&Action::NavNext), true, RemapMode::Lazy), GrabStep::Navigated { layer: 1 });
    // navigation acts on press only
    assert_eq!(g.on_key(Some(&Action::NavNext), false, RemapMode::Lazy), GrabStep::Ignore);
    assert_eq!(g.on_key(None, true, RemapMode::Lazy), GrabStep::Ignore);
    assert_eq!(g.active(), 1);
}

#[test]
fn typing_remaps_once_per_layer_change() {
    let mut g = GrabState::new(2);
    let key = Action::Type("SL1".to_string());
    // typing acts on release only
    assert_eq!(g.on_key(Some(&key), true, RemapMode::Lazy), GrabStep::Ignore);
    assert_eq!(
        g.on_key(Some(&key), false, RemapMode::Lazy),
        GrabStep::Type { layer: 0, logical: "SL1".to_string(), remap: true, show_wait: true }
    );
    assert_eq!(
        g.on_key(Some(&key), false, RemapMode::Lazy),
        GrabStep::Type { layer: 0, logical: "SL1".to_string(), remap: false, show_wait: false }
    );
    g.on_key(Some(&Action::NavNext), true, RemapMode::Debounce);
    assert_eq!(g.poll_timeout(RemapMode::Debounce, 160), 160);
    assert_eq!(g.poll_timeout(RemapMode::Lazy, 160), -1);
    assert!(!g.on_idle(false));
    assert!(g.on_idle(true));
    assert_eq!(g.poll_timeout(RemapMode::Debounce, 160), -1);
    assert_eq!(
        g.on_key(Some(&key), false, RemapMode::Debounce),
        GrabStep::Type { layer: 1, logical: "SL1".to_string(), remap: false, show_wait: false }
    );
}

#[test]
fn only_non_bmp_into_awt_takes_the_clipboard() {
    assert_eq!(route(Some('🔥'), true), Delivery::Clipboard('🔥'));
    assert_eq!(route(Some('🔥'), false), Delivery::Press);
    assert_eq!(route(Some('✅'), true), Delivery::Press);
    assert_eq!(route(None, true), Delivery::Press);
    assert!(needs_focus_check(Some('🔥')));
    assert!(!needs_focus_check(Some('→')));
    assert!(!needs_focus_check(None));
}

#[test]
fn evdev_keycodes_for_function_keys() {
    assert_eq!(evdev_fkey_keycode("F13"), Some(191));
    assert_eq!(evdev_fkey_keycode("f24"), Some(202));
    assert_eq!(evdev_fkey_keycode("F19"), Some(197));
    assert_eq!(evdev_fkey_keycode("F12"), None);
    assert_eq!(evdev_fkey_keycode("F25"), None);
    assert_eq!(evdev_fkey_keycode("G13"), None);
    assert_eq!(evdev_fkey_keycode("F"), None);
    assert_eq!(keycode_for(194, "F16"), Some(194));
    assert_eq!(keycode_for(0, "F20"), Some(198));
    assert_eq!(keycode_for(0, "KNOB"), None);
}

#[test]
fn grab_table_keeps_the_last_binding_per_keycode() {
    let entries = vec![
        ("F16".to_string(), Action::NavPrev),
        ("F18".to_string(), Action::NavNext),
        ("F13".to_string(), Action::Type("SL1".to_string())),
        ("F14".to_string(), Action::Type("SL2".to_string())),
    ];
    let keycodes = vec![Some(194), Some(196), None, Some(196)];
    let table = grab_table(&entries, &keycodes);
    assert_eq!(table.len(), 2);
    assert_eq!(table.get(&194), Some(&Action::NavPrev));
    assert_eq!(table.get(&196), Some(&Action::Type("SL2".to_string())));
    let _unused: KeyMap<u8> = KeyMap::new();
}

#[test]
fn a_full_turn_of_the_knob_returns_to_the_start() {
    let mut g = GrabState::new(4);
    for _ in 0..4 {
        g.on_key(Some(&Action::NavNext), true, RemapMode::Lazy);
    }
    assert_eq!(g.active(), 0);
    assert_eq!(g.on_key(Some(&Action::NavPrev), true, RemapMode::Lazy), GrabStep::Navigated { layer: 3 });
    for _ in 0..3 {
        g.on_key(Some(&Action::NavPrev), true, RemapMode::Lazy);
    }
    assert_eq!(g.active(), 0);
    // debounce: a typing release before the knob settles remaps without the indicator
    let key = Action::Type("SL1".to_string());
    assert_eq!(
        g.on_key(Some(&key), false, RemapMode::Debounce),
        GrabStep::Type { layer: 0, logical: "SL1".to_string(), remap: true, show_wait: false }
    );
    assert!(!g.on_idle(true));
}
