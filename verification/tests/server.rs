use rologlyphex::server::{parse_request, Request, MAX_MESSAGE_SIZE};
use rologlyphex::socket::Command;

#[test]
fn requests_are_classified() {
    assert_eq!(parse_request(&Vec::new()), Request::Empty);
    assert_eq!(parse_request(&b"  \n".to_vec()), Request::Empty);
    assert_eq!(parse_request(&b"show\n".to_vec()), Request::Show);
    assert_eq!(parse_request(&"type →\n".as_bytes().to_vec()), Request::Type { ch: '→', extra: false });
    assert_eq!(parse_request(&b"type xyz".to_vec()), Request::Type { ch: 'x', extra: true });
    assert_eq!(parse_request(&b"hello".to_vec()), Request::Unknown("hello".to_string()));
    assert_eq!(parse_request(&vec![0xff, 0xfe]), Request::InvalidUtf8);
    // a multi-byte character cut by the read limit is not UTF-8
    assert_eq!(parse_request(&vec![b't', 0xf0, 0x9f]), Request::InvalidUtf8);
    // "type " alone trims to "type", which is no command
    assert_eq!(parse_request(&b"type ".to_vec()), Request::Unknown("type".to_string()));
    assert_eq!(MAX_MESSAGE_SIZE, 16);
}

#[test]
fn server_reads_what_the_client_encodes() {
    for c in ['a', '→', '🔥'] {
        let bytes = Command::Type(c).encode().into_bytes();
        assert_eq!(parse_request(&bytes), Request::Type { ch: c, extra: false });
    }
    assert_eq!(parse_request(&Command::Show.encode().into_bytes()), Request::Show);
}
