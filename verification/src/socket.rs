//! The daemon's control socket: where it lives and the commands sent over it.
//!
//! Reading the environment, the user id and the file system happens outside the
//! library, which is handed the values it decides on.

use vstd::prelude::*;
use crate::config::opt_view;
use crate::text::{chars_of, trim, trim_chars, string_of, str_eq, push_char, has_prefix, starts_with, white_space, leading_ws, trailing_ws};

verus! {

/// File name of the daemon socket.
pub const SOCKET_NAME: &'static str = "rologlyphex.sock";

/// Typed socket commands, shared by the client (encode) and the server (decode).
#[derive(Clone, Copy, PartialEq, Eq, Structural, Debug)]
pub enum Command {
    Type(char),
    Show,
}

/// The wire form of a command: `type <ch>` or `show`, newline-terminated.
pub open spec fn encoded(c: Command) -> Seq<char> {
    match c {
        Command::Type(ch) => "type "@ + seq![ch, '\n'],
        Command::Show => "show\n"@,
    }
}

/// The command a received text denotes: after trimming white space, `show`, or
/// `type ` followed by at least one character (the first is taken).
pub open spec fn decoded(s: Seq<char>) -> Option<Command> {
    let t = trim(s);
    if t == "show"@ {
        Some(Command::Show)
    } else if has_prefix(t, "type "@) && t.len() > 5 {
        Some(Command::Type(t[5]))
    } else {
        None
    }
}

impl Command {
    /// The wire form, see [`encoded`].
    pub fn encode(&self) -> (r: String)
        ensures
            r@ == encoded(*self),
    {
        match self {
            Command::Type(ch) => {
                let mut s = String::from_str("type ");
                push_char(&mut s, *ch);
                push_char(&mut s, '\n');
                assert(s@ =~= "type "@ + seq![*ch, '\n']);
                s
            },
            Command::Show => String::from_str("show\n"),
        }
    }

    /// Reads a command off the wire, see [`decoded`].
    pub fn decode(s: &str) -> (r: Option<Command>)
        ensures
            r == decoded(s@),
    {
        proof {
            reveal_strlit("type ");
        }
        let t = trim_chars(&chars_of(s));
        let text = string_of(&t, 0, t.len());
        assert(text@ =~= t@);
        if str_eq(text.as_str(), "show") {
            return Some(Command::Show);
        }
        let prefix = chars_of("type ");
        if starts_with(&t, &prefix) && t.len() > 5 {
            Some(Command::Type(t[5]))
        } else {
            None
        }
    }
}

pub(crate) proof fn lemma_trim_drops_final_newline(body: Seq<char>)
    requires
        body.len() > 0,
        !white_space(body[0]),
        !white_space(body.last()),
    ensures
        trim(body.push('\n')) == body,
{
    let s = body.push('\n');
    assert(s[0] == body[0]);
    assert(leading_ws(s) == 0);
    assert(s.drop_last() =~= body);
    assert(trailing_ws(body) == 0);
    assert(trailing_ws(s) == 1);
    assert(s.subrange(0, s.len() - 1) =~= body);
}

/// Decoding what was encoded gives the command back, for every character that is not
/// white space (a white-space character is trimmed away with the newline).
pub proof fn law_decode_inverts_encode(c: Command)
    requires
        c matches Command::Type(ch) ==> !white_space(ch),
    ensures
        decoded(encoded(c)) == Some(c),
{
    reveal_strlit("type ");
    reveal_strlit("show\n");
    reveal_strlit("show");
    match c {
        Command::Type(ch) => {
            let body = "type "@.push(ch);
            assert(encoded(c) =~= body.push('\n'));
            lemma_trim_drops_final_newline(body);
            assert(body.subrange(0, 5) =~= "type "@);
            assert(body != "show"@) by {
                if body == "show"@ {
                    assert(body.len() == 6);
                }
            }
        },
        Command::Show => {
            let body = "show"@;
            assert(encoded(c) =~= body.push('\n'));
            lemma_trim_drops_final_newline(body);
        },
    }
}

/// `base` joined with the relative component `comp` as `PathBuf::join` does it: a
/// separator is added unless `base` is empty or already ends with one.
pub open spec fn joined(base: Seq<char>, comp: Seq<char>) -> Seq<char> {
    if base.len() == 0 || base.last() == '/' {
        base + comp
    } else {
        base + seq!['/'] + comp
    }
}

/// [`joined`], on strings.
pub fn join_path(base: &str, comp: &str) -> (r: String)
    ensures
        r@ == joined(base@, comp@),
{
    let b = chars_of(base);
    let c = chars_of(comp);
    let mut out = string_of(&b, 0, b.len());
    assert(out@ =~= base@);
    if b.len() > 0 && b[b.len() - 1] != '/' {
        push_char(&mut out, '/');
    }
    let mut i: usize = 0;
    let ghost start = out@;
    while i < c.len()
        invariant
            c@ == comp@,
            i <= c@.len(),
            out@ == start + comp@.subrange(0, i as int),
        decreases c@.len() - i,
    {
        push_char(&mut out, c[i]);
        i += 1;
        assert(out@ =~= start + comp@.subrange(0, i as int));
    }
    assert(comp@.subrange(0, comp@.len() as int) =~= comp@);
    assert(out@ =~= joined(base@, comp@));
    out
}

/// The decimal digits of `n`, most significant first, without leading zeros.
pub open spec fn decimal(n: nat) -> Seq<char>
    decreases n,
{
    if n < 10 {
        seq![(48 + n) as char]
    } else {
        decimal(n / 10).push((48 + n % 10) as char)
    }
}

fn push_decimal(s: &mut String, n: u32)
    ensures
        final(s)@ == old(s)@ + decimal(n as nat),
    decreases n,
{
    if n >= 10 {
        push_decimal(s, n / 10);
    }
    let d = (48 + n % 10) as u8;
    push_char(s, d as char);
    proof {
        if n >= 10 {
            assert(final(s)@ =~= old(s)@ + decimal(n as nat));
        } else {
            assert(final(s)@ =~= old(s)@ + decimal(n as nat));
        }
    }
}

/// The daemon socket's path: in the runtime directory when one is given
/// (`$XDG_RUNTIME_DIR`), else in `/run/user/<uid>`.
pub open spec fn socket_path_for(runtime_dir: Option<Seq<char>>, uid: nat) -> Seq<char> {
    match runtime_dir {
        Some(d) => joined(d, SOCKET_NAME@),
        None => "/run/user/"@ + decimal(uid) + seq!['/'] + SOCKET_NAME@,
    }
}

/// The daemon socket's path, see [`socket_path_for`].
pub fn socket_path(runtime_dir: &Option<String>, uid: u32) -> (r: String)
    ensures
        r@ == socket_path_for(opt_view(*runtime_dir), uid as nat),
{
    match runtime_dir {
        Some(d) => join_path(d.as_str(), SOCKET_NAME),
        None => {
            let mut s = String::from_str("/run/user/");
            push_decimal(&mut s, uid);
            push_char(&mut s, '/');
            let ghost before = s@;
            s.append(SOCKET_NAME);
            assert(s@ =~= "/run/user/"@ + decimal(uid as nat) + seq!['/'] + SOCKET_NAME@);
            s
        },
    }
}

} // verus!
