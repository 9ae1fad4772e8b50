//! What the socket server makes of one client connection's bytes.
//!
//! Accepting connections, reading at most [`MAX_MESSAGE_SIZE`] bytes and acting on the
//! request (typing, raising the overlay, logging) happen outside the library.

use vstd::prelude::*;
use vstd::utf8::{valid_utf8, decode_utf8};
use vstd::utf8::{encode_utf8, encode_utf8_valid_utf8, encode_utf8_decode_utf8};
use crate::text::{utf8_text, chars_of, trim, trim_chars, string_of, str_eq, has_prefix, starts_with, white_space};
use crate::socket::{Command, encoded, lemma_trim_drops_final_newline};

verus! {

/// Most bytes read from one client connection: a single character is at most four
/// bytes of UTF-8, so sixteen is generous.
pub const MAX_MESSAGE_SIZE: usize = 16;

/// What a connection asked for.
#[derive(Clone, Debug, PartialEq, Eq)]
pub enum Request {
    /// Nothing was sent, or only white space: ignored.
    Empty,
    /// The bytes are not UTF-8 (warned about).
    InvalidUtf8,
    /// Re-show the overlay.
    Show,
    /// Type `ch`; `extra` when more characters followed it (those are dropped with a
    /// warning).
    Type { ch: char, extra: bool },
    /// `type ` with nothing after it (warned about).
    TypeMissing,
    /// Anything else; the trimmed text, for the warning.
    Unknown(String),
}

/// The request, as (kind, character, extra, text): kind 0 empty, 1 invalid UTF-8,
/// 2 show, 3 type, 4 type without a character, 5 unknown.
pub open spec fn request_view(r: Request) -> (int, char, bool, Seq<char>) {
    match r {
        Request::Empty => (0, ' ', false, Seq::empty()),
        Request::InvalidUtf8 => (1, ' ', false, Seq::empty()),
        Request::Show => (2, ' ', false, Seq::empty()),
        Request::Type { ch, extra } => (3, ch, extra, Seq::empty()),
        Request::TypeMissing => (4, ' ', false, Seq::empty()),
        Request::Unknown(t) => (5, ' ', false, t@),
    }
}

/// What the server makes of `bytes`: nothing sent is empty; otherwise the bytes must
/// be UTF-8, and the trimmed text is empty, `show`, `type ` followed by a character
/// (more characters are flagged), or unknown.
pub open spec fn request_of(bytes: Seq<u8>) -> (int, char, bool, Seq<char>) {
    if bytes.len() == 0 {
        (0, ' ', false, Seq::empty())
    } else if !valid_utf8(bytes) {
        (1, ' ', false, Seq::empty())
    } else {
        let t = trim(decode_utf8(bytes));
        if t.len() == 0 {
            (0, ' ', false, Seq::empty())
        } else if t == "show"@ {
            (2, ' ', false, Seq::empty())
        } else if has_prefix(t, "type "@) {
            if t.len() > 5 {
                (3, t[5], t.len() > 6, Seq::empty())
            } else {
                (4, ' ', false, Seq::empty())
            }
        } else {
            (5, ' ', false, t)
        }
    }
}

/// Classifies what one connection sent, see [`request_of`].
pub fn parse_request(bytes: &Vec<u8>) -> (r: Request)
    ensures
        request_view(r) == request_of(bytes@),
{
    proof {
        reveal_strlit("type ");
    }
    if bytes.len() == 0 {
        return Request::Empty;
    }
    let s = match utf8_text(bytes) {
        Some(s) => s,
        None => return Request::InvalidUtf8,
    };
    let t = trim_chars(&chars_of(s.as_str()));
    if t.len() == 0 {
        return Request::Empty;
    }
    let text = string_of(&t, 0, t.len());
    assert(text@ =~= t@);
    if str_eq(text.as_str(), "show") {
        return Request::Show;
    }
    let prefix = chars_of("type ");
    if starts_with(&t, &prefix) {
        if t.len() > 5 {
            Request::Type { ch: t[5], extra: t.len() > 6 }
        } else {
            Request::TypeMissing
        }
    } else {
        Request::Unknown(text)
    }
}

/// What a client encodes is what the server reads: `show` is a show request, and
/// `type <ch>` types `ch` with nothing extra, for every character that is not white
/// space.
pub proof fn law_server_reads_encoded_commands(c: Command)
    requires
        c matches Command::Type(ch) ==> !white_space(ch),
    ensures
        request_of(encode_utf8(encoded(c))) == (match c {
            Command::Type(ch) => (3int, ch, false, Seq::<char>::empty()),
            Command::Show => (2int, ' ', false, Seq::<char>::empty()),
        }),
{
    reveal_strlit("type ");
    reveal_strlit("show\n");
    reveal_strlit("show");
    let chars = encoded(c);
    encode_utf8_valid_utf8(chars);
    encode_utf8_decode_utf8(chars);
    let bytes = encode_utf8(chars);
    if bytes.len() == 0 {
        assert(decode_utf8(bytes) =~= Seq::<char>::empty());
        assert(chars.len() > 0);
    }
    match c {
        Command::Type(ch) => {
            let body = "type "@.push(ch);
            assert(chars =~= body.push('\n'));
            lemma_trim_drops_final_newline(body);
            assert(body.subrange(0, 5) =~= "type "@);
            assert(body != "show"@) by {
                if body == "show"@ {
                    assert(body.len() == 6);
                }
            }
        },
        Command::Show => {
            let body = "show"@;
            assert(chars =~= body.push('\n'));
            lemma_trim_drops_final_newline(body);
        },
    }
}

} // verus!
