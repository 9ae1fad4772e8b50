use rologlyphex::clipserve::{
    clipboard_content, external_owner, paste_command, Atoms, ClipState, ClipboardServer, Cmd,
    SelectionAnswer, TickStep, GRACE_MS, HARD_CAP_MS,
};
use std::sync::mpsc;

const ATOMS: Atoms = Atoms { targets: 300, utf8: 301, string: 31 };

fn served(a: &SelectionAnswer) -> Option<(u64, Vec<u8>)> {
    match a {
        SelectionAnswer::Data { property, bytes } => Some((*property, bytes.clone())),
        _ => None,
    }
}

#[test]
fn paste_queues_the_utf8_bytes() {
    let (tx, rx) = mpsc::channel();
    let server = ClipboardServer::new(tx);
    server.paste("🔥");
    match rx.recv().unwrap() {
        Cmd::Paste(bytes) => assert_eq!(bytes, vec![0xF0, 0x9F, 0x94, 0xA5]),
    }
    match paste_command("a→") {
        Cmd::Paste(bytes) => assert_eq!(bytes, "a→".as_bytes().to_vec()),
    }
    // a vanished owner thread is ignored
    drop(rx);
    server.paste("x");
}

#[test]
fn paste_is_served_then_prior_content_restored() {
    let mut st = ClipState::new();
    assert!(st.is_idle());
    assert!(st.needs_fetch());
    let prior = clipboard_content(b"prior".to_vec());
    assert!(st.begin_paste("🔥".as_bytes().to_vec(), prior, true, 1000));
    assert!(!st.is_idle());
    // TARGETS, then the data (property None -> stored under the target)
    assert!(matches!(st.on_selection_request(ATOMS.targets, 77, ATOMS, 1010), SelectionAnswer::Targets { property: 77 }));
    assert_eq!(st.tick(1400), TickStep::Wait); // targets alone do not start the grace
    let a = st.on_selection_request(ATOMS.utf8, 0, ATOMS, 1020);
    assert_eq!(served(&a), Some((ATOMS.utf8, "🔥".as_bytes().to_vec())));
    assert_eq!(st.tick(1020 + GRACE_MS - 1), TickStep::Wait);
    assert_eq!(st.tick(1020 + GRACE_MS), TickStep::Restored { consumed: true });
    let b = st.on_selection_request(ATOMS.string, 55, ATOMS, 2000);
    assert_eq!(served(&b), Some((55, b"prior".to_vec())));
    assert!(!st.needs_fetch()); // still owning: the prior stays saved
}

#[test]
fn consecutive_pastes_restore_the_first_prior() {
    let mut st = ClipState::new();
    st.begin_paste(b"1".to_vec(), Some(b"orig".to_vec()), true, 0);
    assert!(!st.needs_fetch());
    st.begin_paste(b"2".to_vec(), None, true, 10);
    assert_eq!(st.tick(10 + HARD_CAP_MS), TickStep::Restored { consumed: false });
    let a = st.on_selection_request(ATOMS.utf8, 9, ATOMS, 5000);
    assert_eq!(served(&a), Some((9, b"orig".to_vec())));
}

#[test]
fn nothing_to_restore_gives_the_clipboard_up() {
    let mut st = ClipState::new();
    assert!(st.begin_paste(b"x".to_vec(), clipboard_content(Vec::new()), true, 0));
    assert_eq!(st.tick(HARD_CAP_MS - 1), TickStep::Wait);
    assert_eq!(st.tick(HARD_CAP_MS), TickStep::Released { consumed: false });
    assert!(st.is_idle());
    assert!(matches!(st.on_selection_request(ATOMS.utf8, 1, ATOMS, 2000), SelectionAnswer::Refuse));
}

#[test]
fn failed_claim_and_selection_clear() {
    let mut st = ClipState::new();
    assert!(!st.begin_paste(b"x".to_vec(), Some(b"p".to_vec()), false, 0));
    assert!(st.is_idle());
    assert!(matches!(st.on_selection_request(ATOMS.utf8, 1, ATOMS, 1), SelectionAnswer::Refuse));
    st.begin_paste(b"y".to_vec(), Some(b"p".to_vec()), true, 5);
    st.on_selection_clear();
    assert!(st.is_idle());
    assert!(st.needs_fetch());
    assert_eq!(st.tick(10_000), TickStep::Wait);
    // unknown targets are refused while serving
    st.begin_paste(b"z".to_vec(), None, true, 20);
    assert!(matches!(st.on_selection_request(999, 1, ATOMS, 21), SelectionAnswer::Refuse));
}

#[test]
fn fetch_only_from_another_owner() {
    assert!(external_owner(0x1200004, 0x3000001));
    assert!(!external_owner(0, 0x3000001));
    assert!(!external_owner(0x3000001, 0x3000001));
    assert_eq!(clipboard_content(Vec::new()), None);
    assert_eq!(clipboard_content(b"a".to_vec()), Some(b"a".to_vec()));
}
