use rologlyphex::socket::{join_path, socket_path, Command, SOCKET_NAME};

#[test]
fn commands_encode_as_lines() {
    assert_eq!(Command::Type('→').encode(), "type →\n");
    assert_eq!(Command::Show.encode(), "show\n");
}

#[test]
fn commands_decode_after_trimming() {
    assert_eq!(Command::decode("show"), Some(Command::Show));
    assert_eq!(Command::decode("  show\n"), Some(Command::Show));
    assert_eq!(Command::decode("type 🔥\n"), Some(Command::Type('🔥')));
    assert_eq!(Command::decode("type abc"), Some(Command::Type('a')));
    assert_eq!(Command::decode("type "), None);
    assert_eq!(Command::decode("typo x"), None);
    assert_eq!(Command::decode(""), None);
}

#[test]
fn decode_inverts_encode() {
    for c in ['a', '→', '🔥', 'é'] {
        assert_eq!(Command::decode(&Command::Type(c).encode()), Some(Command::Type(c)));
    }
    assert_eq!(Command::decode(&Command::Show.encode()), Some(Command::Show));
    // white space is trimmed away with the newline
    assert_eq!(Command::decode(&Command::Type(' ').encode()), None);
}

#[test]
fn socket_path_prefers_the_runtime_dir() {
    assert_eq!(socket_path(&Some("/run/user/1000".to_string()), 0), "/run/user/1000/rologlyphex.sock");
    assert_eq!(socket_path(&None, 1000), "/run/user/1000/rologlyphex.sock");
    assert_eq!(socket_path(&None, 0), "/run/user/0/rologlyphex.sock");
    assert_eq!(socket_path(&Some(String::new()), 7), SOCKET_NAME);
}

#[test]
fn path_join_adds_one_separator() {
    assert_eq!(join_path("/tmp", "x"), "/tmp/x");
    assert_eq!(join_path("/tmp/", "x"), "/tmp/x");
    assert_eq!(join_path("", "x"), "x");
}
