//! The keyd IPC subscription: the listen request, the framing of keyd's
//! newline-terminated layout events, and what one event means.
//!
//! The socket connection, reconnects and the shared-state updates happen outside the
//! library.

use vstd::prelude::*;
use crate::text::{chars_of, trim, trim_chars, string_of, str_eq};

verus! {

/// Size of the data field of keyd's `struct ipc_message`.
pub const MAX_IPC_MESSAGE_SIZE: usize = 4096;

/// keyd's message type asking to be told of layer changes.
pub const IPC_LAYER_LISTEN: i32 = 6;

/// Size of keyd's `struct ipc_message` on x86_64: `int type`, `uint32_t timeout`,
/// `char data[4096]`, `size_t sz`.
pub const IPC_MESSAGE_SIZE: usize = 4112;

/// The bytes of the listen request: type [`IPC_LAYER_LISTEN`] (little-endian), then
/// zero timeout, zero data and zero size.
pub open spec fn layer_listen_bytes() -> Seq<u8> {
    seq![6u8, 0u8, 0u8, 0u8] + Seq::new(4108, |i: int| 0u8)
}

/// The listen request, see [`layer_listen_bytes`].
pub fn layer_listen_message() -> (r: Vec<u8>)
    ensures
        r@ == layer_listen_bytes(),
        r@.len() == IPC_MESSAGE_SIZE,
{
    let mut v: Vec<u8> = Vec::new();
    v.push(6u8);
    v.push(0u8);
    v.push(0u8);
    v.push(0u8);
    let mut i: usize = 0;
    while i < 4108
        invariant
            i <= 4108,
            v@ == seq![6u8, 0u8, 0u8, 0u8] + Seq::new(i as nat, |k: int| 0u8),
        decreases 4108 - i,
    {
        v.push(0u8);
        i += 1;
        assert(v@ =~= seq![6u8, 0u8, 0u8, 0u8] + Seq::new(i as nat, |k: int| 0u8));
    }
    v
}

/// Whether `i` is the first newline in `buf`.
pub open spec fn is_first_newline(buf: Seq<u8>, i: int) -> bool {
    &&& 0 <= i < buf.len()
    &&& buf[i] == 10
    &&& forall|j: int| 0 <= j < i ==> #[trigger] buf[j] != 10
}

/// The first newline in `buf`, if any.
pub open spec fn first_newline(buf: Seq<u8>) -> Option<int> {
    if exists|i: int| is_first_newline(buf, i) {
        Some(choose|i: int| is_first_newline(buf, i))
    } else {
        None
    }
}

/// The complete lines of `buf` without their newlines, empty lines dropped, and what
/// follows the last newline.
pub open spec fn split_lines(buf: Seq<u8>) -> (Seq<Seq<u8>>, Seq<u8>)
    decreases buf.len(),
{
    match first_newline(buf) {
        Some(i) => if 0 <= i < buf.len() {
            let rest = split_lines(buf.subrange(i + 1, buf.len() as int));
            let line = buf.subrange(0, i);
            (if line.len() == 0 { rest.0 } else { seq![line] + rest.0 }, rest.1)
        } else {
            (Seq::empty(), buf)
        },
        None => (Seq::empty(), buf),
    }
}

/// The contents of each buffer.
pub open spec fn byte_views(v: Seq<Vec<u8>>) -> Seq<Seq<u8>> {
    v.map_values(|l: Vec<u8>| l@)
}

proof fn lemma_first_newline_at(buf: Seq<u8>, i: int)
    requires
        is_first_newline(buf, i),
    ensures
        first_newline(buf) == Some(i),
{
    let k = choose|k: int| is_first_newline(buf, k);
    assert(is_first_newline(buf, k));
    if k < i {
        assert(buf[k] != 10);
    } else if i < k {
        assert(buf[i] != 10);
    }
}

fn copy_range(v: &Vec<u8>, from: usize, to: usize) -> (r: Vec<u8>)
    requires
        from <= to <= v@.len(),
    ensures
        r@ == v@.subrange(from as int, to as int),
{
    let mut r: Vec<u8> = Vec::new();
    let mut i = from;
    while i < to
        invariant
            from <= i <= to <= v@.len(),
            r@ == v@.subrange(from as int, i as int),
        decreases to - i,
    {
        r.push(v[i]);
        i += 1;
        assert(r@ =~= v@.subrange(from as int, i as int));
    }
    r
}

/// Takes the complete lines out of `pending` (see [`split_lines`]), leaving the
/// incomplete tail for the next read.
pub fn take_lines(pending: &mut Vec<u8>) -> (lines: Vec<Vec<u8>>)
    ensures
        (byte_views(lines@), final(pending)@) == split_lines(old(pending)@),
{
    let buf = copy_range(pending, 0, pending.len());
    assert(buf@ =~= old(pending)@);
    let n = buf.len();
    let mut lines: Vec<Vec<u8>> = Vec::new();
    let mut start: usize = 0;
    let mut i: usize = 0;
    assert(buf@.subrange(0, n as int) =~= buf@);
    assert(byte_views(lines@) =~= Seq::<Seq<u8>>::empty());
    while i < n
        invariant
            n == buf@.len(),
            start <= i <= n,
            forall|j: int| start <= j < i ==> #[trigger] buf@[j] != 10,
            split_lines(buf@) == (
                byte_views(lines@) + split_lines(buf@.subrange(start as int, n as int)).0,
                split_lines(buf@.subrange(start as int, n as int)).1,
            ),
        decreases n - i,
    {
        if buf[i] == 10 {
            let ghost sub = buf@.subrange(start as int, n as int);
            let ghost k = i - start;
            proof {
                assert forall|j: int| 0 <= j < k implies #[trigger] sub[j] != 10 by {
                    assert(sub[j] == buf@[start + j]);
                }
                assert(sub[k] == buf@[i as int]);
                lemma_first_newline_at(sub, k);
                assert(sub.subrange(k + 1, sub.len() as int) =~= buf@.subrange(i + 1, n as int));
                assert(sub.subrange(0, k) =~= buf@.subrange(start as int, i as int));
            }
            let line = copy_range(&buf, start, i);
            let ghost before = byte_views(lines@);
            if line.len() > 0 {
                lines.push(line);
                proof {
                    assert(byte_views(lines@) =~= before.push(line@));
                    let rest = split_lines(buf@.subrange(i + 1, n as int));
                    assert(before.push(line@) + rest.0 =~= before + (seq![line@] + rest.0));
                }
            }
            start = i + 1;
        }
        i += 1;
    }
    proof {
        let sub = buf@.subrange(start as int, n as int);
        assert forall|k: int| !is_first_newline(sub, k) by {
            if 0 <= k < sub.len() {
                assert(sub[k] == buf@[start + k]);
            }
        }
        assert(byte_views(lines@) + Seq::<Seq<u8>>::empty() =~= byte_views(lines@));
    }
    *pending = copy_range(&buf, start, n);
    lines
}

proof fn lemma_some_first_newline(buf: Seq<u8>, i: int)
    requires
        0 <= i < buf.len(),
        buf[i] == 10,
    ensures
        exists|j: int| is_first_newline(buf, j),
    decreases i,
{
    if forall|m: int| 0 <= m < i ==> #[trigger] buf[m] != 10 {
        assert(is_first_newline(buf, i));
    } else {
        let m = choose|m: int| 0 <= m < i && #[trigger] buf[m] == 10;
        lemma_some_first_newline(buf, m);
    }
}

/// Framing splits cleanly: every line taken is non-empty and holds
/// no newline, and the tail left for the next read holds no newline either.
pub proof fn law_lines_are_clean(buf: Seq<u8>)
    ensures
        forall|i: int| 0 <= i < split_lines(buf).1.len() ==> #[trigger] split_lines(buf).1[i] != 10,
        forall|k: int| 0 <= k < split_lines(buf).0.len() ==> (#[trigger] split_lines(buf).0[k]).len() > 0,
        forall|k: int, i: int|
            0 <= k < split_lines(buf).0.len() && 0 <= i < split_lines(buf).0[k].len() ==> #[trigger] split_lines(buf).0[k][i] != 10,
    decreases buf.len(),
{
    match first_newline(buf) {
        Some(n) => {
            let n = choose|i: int| is_first_newline(buf, i);
            assert(is_first_newline(buf, n));
            let rest = buf.subrange(n + 1, buf.len() as int);
            law_lines_are_clean(rest);
            let line = buf.subrange(0, n);
            let r = split_lines(rest);
            assert forall|i: int| 0 <= i < line.len() implies #[trigger] line[i] != 10 by {
                assert(line[i] == buf[i]);
            }
            if line.len() > 0 {
                let out = seq![line] + r.0;
                assert forall|k: int, i: int| 0 <= k < out.len() && 0 <= i < out[k].len() implies #[trigger] out[k][i] != 10 by {
                    if k > 0 {
                        assert(out[k] == r.0[k - 1]);
                    }
                }
                assert forall|k: int| 0 <= k < out.len() implies (#[trigger] out[k]).len() > 0 by {
                    if k > 0 {
                        assert(out[k] == r.0[k - 1]);
                    }
                }
            }
        },
        None => {
            assert forall|i: int| 0 <= i < buf.len() implies #[trigger] buf[i] != 10 by {
                if buf[i] == 10 {
                    lemma_some_first_newline(buf, i);
                }
            }
        },
    }
}

/// What one keyd event line means: a line `/<layout>` names the new layout (trimmed);
/// the `main` layout also signals that keyd has (re)loaded its configuration, which
/// is the moment to re-parse it.
pub open spec fn layout_event(line: Seq<char>) -> Option<(Seq<char>, bool)> {
    if line.len() > 0 && line[0] == '/' {
        let name = trim(line.drop_first());
        Some((name, name == "main"@))
    } else {
        None
    }
}

/// A layout change reported by keyd.
#[derive(Clone, Debug)]
pub struct LayoutEvent {
    /// The new layout.
    pub layout: String,
    /// Whether keyd has just (re)loaded its configuration.
    pub reload: bool,
}

/// Reads one keyd event line, see [`layout_event`].
pub fn handle_layout_event(line: &str) -> (r: Option<LayoutEvent>)
    ensures
        match r {
            Some(e) => layout_event(line@) == Some((e.layout@, e.reload)),
            None => layout_event(line@) is None,
        },
{
    let v = chars_of(line);
    if v.len() == 0 || v[0] != '/' {
        return None;
    }
    let rest = string_of(&v, 1, v.len());
    assert(rest@ =~= line@.drop_first());
    let t = trim_chars(&chars_of(rest.as_str()));
    let name = string_of(&t, 0, t.len());
    assert(name@ =~= trim(line@.drop_first()));
    let reload = str_eq(name.as_str(), "main");
    Some(LayoutEvent { layout: name, reload })
}

} // verus!
