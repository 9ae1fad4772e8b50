use rologlyphex::ipc::{handle_layout_event, layer_listen_message, take_lines, IPC_MESSAGE_SIZE};

#[test]
fn listen_request_matches_keyds_struct() {
    let m = layer_listen_message();
    assert_eq!(m.len(), IPC_MESSAGE_SIZE);
    assert_eq!(m.len(), 4112);
    assert_eq!(&m[..4], &[6, 0, 0, 0]);
    assert!(m[4..].iter().all(|&b| b == 0));
}

#[test]
fn lines_are_framed_across_reads() {
    let mut pending = b"/ma".to_vec();
    assert!(take_lines(&mut pending).is_empty());
    assert_eq!(pending, b"/ma".to_vec());
    pending.extend_from_slice(b"in\n\n/symbols\n/pa");
    let lines = take_lines(&mut pending);
    assert_eq!(lines, vec![b"/main".to_vec(), b"/symbols".to_vec()]);
    assert_eq!(pending, b"/pa".to_vec());
}

#[test]
fn layout_events() {
    let e = handle_layout_event("/main").unwrap();
    assert_eq!(e.layout, "main");
    assert!(e.reload);
    let f = handle_layout_event("/ symbols \r").unwrap();
    assert_eq!(f.layout, "symbols");
    assert!(!f.reload);
    assert!(handle_layout_event("main").is_none());
    assert!(handle_layout_event("").is_none());
}
