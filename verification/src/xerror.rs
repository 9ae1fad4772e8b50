//! Names of X protocol errors, for the non-fatal X error handler's log line.
//!
//! The handlers themselves (process-global Xlib callbacks) live outside the library.

use vstd::prelude::*;

verus! {

/// The name the daemon logs for X protocol error `code`: codes 1–11 and 13 carry the
/// core protocol's names, 17 is logged as BadLength and 18 as BadImplementation, and
/// every other code as "X error".
pub open spec fn x_error_name(code: u8) -> Seq<char> {
    if code == 1 { "BadRequest"@ }
    else if code == 2 { "BadValue"@ }
    else if code == 3 { "BadWindow"@ }
    else if code == 4 { "BadPixmap"@ }
    else if code == 5 { "BadAtom"@ }
    else if code == 6 { "BadCursor"@ }
    else if code == 7 { "BadFont"@ }
    else if code == 8 { "BadMatch"@ }
    else if code == 9 { "BadDrawable"@ }
    else if code == 10 { "BadAccess"@ }
    else if code == 11 { "BadAlloc"@ }
    else if code == 13 { "BadGC"@ }
    else if code == 17 { "BadLength"@ }
    else if code == 18 { "BadImplementation"@ }
    else { "X error"@ }
}

/// The name of X protocol error `code`, see [`x_error_name`].
pub fn error_code_name(code: u8) -> (r: &'static str)
    ensures
        r@ == x_error_name(code),
{
    match code {
        1 => "BadRequest",
        2 => "BadValue",
        3 => "BadWindow",
        4 => "BadPixmap",
        5 => "BadAtom",
        6 => "BadCursor",
        7 => "BadFont",
        8 => "BadMatch",
        9 => "BadDrawable",
        10 => "BadAccess",
        11 => "BadAlloc",
        13 => "BadGC",
        17 => "BadLength",
        18 => "BadImplementation",
        _ => "X error",
    }
}

} // verus!
