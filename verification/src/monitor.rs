//! Overlay placement: which monitor the overlay goes to, which corner it hugs, and
//! where the "Please Wait" window is centered.
//!
//! Monitor enumeration (GDK) happens outside the library; it hands over what it saw,
//! one entry per position in GDK's monitor list (`None` where an entry was not a
//! monitor), and gets back the geometry to use.

use vstd::prelude::*;
use crate::config::opt_view;
use crate::text::{chars_of, trim, trim_chars, string_of, to_lower, lowercase, str_eq, parse_u32, unsigned_literal};

verus! {

/// Inset of the overlay from the monitor edge, in pixels.
pub const WINDOW_MARGIN: i32 = 20;

/// A monitor's rectangle in desktop coordinates.
#[derive(Clone, Copy, PartialEq, Eq, Structural, Debug)]
pub struct MonitorGeometry {
    pub x: i32,
    pub y: i32,
    pub width: i32,
    pub height: i32,
}

impl MonitorGeometry {
    /// The 1920×1080 screen at the origin assumed when no monitor can be found.
    pub fn fallback() -> (r: Self)
        ensures
            r == (MonitorGeometry { x: 0, y: 0, width: 1920, height: 1080 }),
    {
        MonitorGeometry { x: 0, y: 0, width: 1920, height: 1080 }
    }
}

/// Which corner of the target monitor the overlay aligns to.
#[derive(Clone, Copy, PartialEq, Eq, Structural, Debug)]
pub enum Corner {
    TopLeft,
    TopRight,
    BottomLeft,
    BottomRight,
}

/// Horizontal alignment of the overlay's app header.
#[derive(Clone, Copy, PartialEq, Eq, Structural, Debug)]
pub enum HeaderAlign {
    Start,
    End,
}

/// `s` with every `_` spelled `-`.
pub open spec fn dashed(s: Seq<char>) -> Seq<char> {
    s.map_values(|c: char| if c == '_' { '-' } else { c })
}

/// The corner a lower-case, dash-separated name denotes.
pub open spec fn corner_named(s: Seq<char>) -> Option<Corner> {
    if s == "top-left"@ || s == "tl"@ {
        Some(Corner::TopLeft)
    } else if s == "top-right"@ || s == "tr"@ {
        Some(Corner::TopRight)
    } else if s == "bottom-left"@ || s == "bl"@ {
        Some(Corner::BottomLeft)
    } else if s == "bottom-right"@ || s == "br"@ {
        Some(Corner::BottomRight)
    } else {
        None
    }
}

/// Whether `v` fits in an `i32`.
pub open spec fn fits(v: int) -> bool {
    i32::MIN <= v <= i32::MAX
}

/// Whether computing the overlay's four candidate edges on `mon` stays within `i32`.
pub open spec fn placement_fits(mon: MonitorGeometry, win_w: i32, win_h: i32) -> bool {
    &&& fits(mon.x + WINDOW_MARGIN)
    &&& fits(mon.x + mon.width)
    &&& fits(mon.x + mon.width - win_w)
    &&& fits(mon.x + mon.width - win_w - WINDOW_MARGIN)
    &&& fits(mon.y + WINDOW_MARGIN)
    &&& fits(mon.y + mon.height)
    &&& fits(mon.y + mon.height - win_h)
    &&& fits(mon.y + mon.height - win_h - WINDOW_MARGIN)
}

impl Corner {
    /// The corner named by a lower-case value: `_` counts as `-`, and each corner has a
    /// long (`top-left`) and a short (`tl`) name.
    pub fn from_name(name: &str) -> (r: Option<Corner>)
        ensures
            r == corner_named(dashed(name@)),
    {
        let v = chars_of(name);
        let mut d: Vec<char> = Vec::new();
        let mut i: usize = 0;
        while i < v.len()
            invariant
                v@ == name@,
                i <= v@.len(),
                d@ == dashed(v@.subrange(0, i as int)),
            decreases v@.len() - i,
        {
            let c = v[i];
            d.push(if c == '_' { '-' } else { c });
            i += 1;
            assert(d@ =~= dashed(v@.subrange(0, i as int)));
        }
        assert(v@.subrange(0, v@.len() as int) =~= v@);
        let s = string_of(&d, 0, d.len());
        assert(s@ =~= dashed(name@));
        if str_eq(s.as_str(), "top-left") || str_eq(s.as_str(), "tl") {
            Some(Corner::TopLeft)
        } else if str_eq(s.as_str(), "top-right") || str_eq(s.as_str(), "tr") {
            Some(Corner::TopRight)
        } else if str_eq(s.as_str(), "bottom-left") || str_eq(s.as_str(), "bl") {
            Some(Corner::BottomLeft)
        } else if str_eq(s.as_str(), "bottom-right") || str_eq(s.as_str(), "br") {
            Some(Corner::BottomRight)
        } else {
            None
        }
    }

    /// Parses a config or command-line value: surrounding white space is ignored, case
    /// does not matter (Unicode lower-casing), and `_` counts as `-`; see
    /// [`from_name`](Self::from_name). None for anything else, so the caller can warn
    /// and default.
    pub fn parse(s: &str) -> (r: Option<Corner>)
        ensures
            r == corner_named(dashed(lowercase(trim(s@)))),
    {
        let t = trim_chars(&chars_of(s));
        let trimmed = string_of(&t, 0, t.len());
        assert(trimmed@ =~= trim(s@));
        let lower = to_lower(trimmed.as_str());
        Corner::from_name(lower.as_str())
    }

    /// True for the top corners (the header sits at the top), false for the bottom ones.
    pub fn is_top(&self) -> (r: bool)
        ensures
            r == (*self == Corner::TopLeft || *self == Corner::TopRight),
    {
        match self {
            Corner::TopLeft | Corner::TopRight => true,
            _ => false,
        }
    }

    /// The header's horizontal alignment: the corner's side.
    pub fn header_halign(&self) -> (r: HeaderAlign)
        ensures
            r == (if *self == Corner::TopLeft || *self == Corner::BottomLeft { HeaderAlign::Start } else { HeaderAlign::End }),
    {
        match self {
            Corner::TopLeft | Corner::BottomLeft => HeaderAlign::Start,
            Corner::TopRight | Corner::BottomRight => HeaderAlign::End,
        }
    }

    /// Top-left pixel for a `win_w`×`win_h` overlay in this corner of `mon`, inset by
    /// [`WINDOW_MARGIN`] from both edges of the corner.
    pub fn position(&self, mon: &MonitorGeometry, win_w: i32, win_h: i32) -> (r: (i32, i32))
        requires
            placement_fits(*mon, win_w, win_h),
        ensures
            r.0 == (if *self == Corner::TopLeft || *self == Corner::BottomLeft {
                mon.x + WINDOW_MARGIN
            } else {
                mon.x + mon.width - win_w - WINDOW_MARGIN
            }),
            r.1 == (if *self == Corner::TopLeft || *self == Corner::TopRight {
                mon.y + WINDOW_MARGIN
            } else {
                mon.y + mon.height - win_h - WINDOW_MARGIN
            }),
    {
        let left = mon.x + WINDOW_MARGIN;
        let right = mon.x + mon.width - win_w - WINDOW_MARGIN;
        let top = mon.y + WINDOW_MARGIN;
        let bottom = mon.y + mon.height - win_h - WINDOW_MARGIN;
        match self {
            Corner::TopLeft => (left, top),
            Corner::TopRight => (right, top),
            Corner::BottomLeft => (left, bottom),
            Corner::BottomRight => (right, bottom),
        }
    }
}

/// Whether [`Corner::position`] can place a `win_w`×`win_h` overlay on `mon` without
/// leaving `i32`.
pub fn placement_in_range(mon: &MonitorGeometry, win_w: i32, win_h: i32) -> (r: bool)
    ensures
        r == placement_fits(*mon, win_w, win_h),
{
    let x = mon.x as i64;
    let y = mon.y as i64;
    let lo = i32::MIN as i64;
    let hi = i32::MAX as i64;
    let m = WINDOW_MARGIN as i64;
    let a = x + m;
    let b = x + mon.width as i64;
    let c = b - win_w as i64;
    let d = c - m;
    let e = y + m;
    let f = y + mon.height as i64;
    let g = f - win_h as i64;
    let h = g - m;
    lo <= a && a <= hi && lo <= b && b <= hi && lo <= c && c <= hi && lo <= d && d <= hi
        && lo <= e && e <= hi && lo <= f && f <= hi && lo <= g && g <= hi && lo <= h && h <= hi
}

/// What the overlay knows of one connected monitor.
#[derive(Clone, Debug)]
pub struct MonitorInfo {
    /// Connector name, e.g. "DP-1".
    pub connector: Option<String>,
    /// Model name.
    pub model: Option<String>,
    pub geometry: MonitorGeometry,
}

/// The ASCII lower-case code of `c` (other characters keep their code).
pub open spec fn ascii_lower(c: char) -> int {
    if 65 <= (c as u32) <= 90 { (c as u32) + 32 } else { c as u32 as int }
}

/// `str::eq_ignore_ascii_case`: equal up to ASCII case.
pub open spec fn eq_ignore_ascii_case(a: Seq<char>, b: Seq<char>) -> bool {
    a.len() == b.len() && forall|i: int| 0 <= i < a.len() ==> ascii_lower(#[trigger] a[i]) == ascii_lower(b[i])
}

fn lower_code(c: char) -> (r: u32)
    ensures
        r == ascii_lower(c),
{
    let u = c as u32;
    if 65 <= u && u <= 90 { u + 32 } else { u }
}

/// Whether `a` and `b` are equal up to ASCII case.
pub fn eq_ignore_case(a: &str, b: &str) -> (r: bool)
    ensures
        r == eq_ignore_ascii_case(a@, b@),
{
    let va = chars_of(a);
    let vb = chars_of(b);
    if va.len() != vb.len() {
        return false;
    }
    let mut i: usize = 0;
    while i < va.len()
        invariant
            va@ == a@,
            vb@ == b@,
            va@.len() == vb@.len(),
            i <= va@.len(),
            forall|k: int| 0 <= k < i ==> ascii_lower(#[trigger] a@[k]) == ascii_lower(b@[k]),
        decreases va@.len() - i,
    {
        if lower_code(va[i]) != lower_code(vb[i]) {
            return false;
        }
        i += 1;
    }
    true
}

/// The monitor preference that is looked for: the trimmed value, unless it is empty.
pub open spec fn wanted(pref: Option<Seq<char>>) -> Option<Seq<char>> {
    match pref {
        Some(p) => if trim(p).len() > 0 { Some(trim(p)) } else { None },
        None => None,
    }
}

/// Whether entry `m` is a monitor whose connector (or, with `by_model`, model) name
/// equals `want` up to ASCII case.
pub open spec fn name_matches(m: Option<MonitorInfo>, want: Seq<char>, by_model: bool) -> bool {
    match m {
        Some(info) => {
            let name = if by_model { info.model } else { info.connector };
            match name {
                Some(n) => eq_ignore_ascii_case(n@, want),
                None => false,
            }
        },
        None => false,
    }
}

/// Whether entry `i` is the first that matches `want` by connector (or model).
pub open spec fn first_match(ms: Seq<Option<MonitorInfo>>, want: Seq<char>, by_model: bool, i: int) -> bool {
    &&& 0 <= i < ms.len()
    &&& name_matches(ms[i], want, by_model)
    &&& forall|j: int| 0 <= j < i ==> !name_matches(#[trigger] ms[j], want, by_model)
}

/// The first entry that matches `want` by connector (or model), if any.
pub open spec fn match_index(ms: Seq<Option<MonitorInfo>>, want: Seq<char>, by_model: bool) -> Option<int> {
    if exists|i: int| first_match(ms, want, by_model, i) {
        Some(choose|i: int| first_match(ms, want, by_model, i))
    } else {
        None
    }
}

/// The entry `want` selects as a decimal index into the monitor list, if it is one.
pub open spec fn numeric_index(ms: Seq<Option<MonitorInfo>>, want: Seq<char>) -> Option<int> {
    match unsigned_literal(want) {
        Some(v) => if 0 <= v <= u32::MAX && v < ms.len() && ms[v] is Some { Some(v) } else { None },
        None => None,
    }
}

/// Right edge of a monitor.
pub open spec fn right_edge(m: Option<MonitorInfo>) -> int {
    match m {
        Some(info) => info.geometry.x + info.geometry.width,
        None => 0,
    }
}

/// Whether entry `i` is the rightmost monitor: the first of those with the greatest
/// right edge (an edge must exceed `i32::MIN` to count).
pub open spec fn is_rightmost(ms: Seq<Option<MonitorInfo>>, i: int) -> bool {
    &&& 0 <= i < ms.len()
    &&& ms[i] is Some
    &&& right_edge(ms[i]) > i32::MIN
    &&& forall|j: int| 0 <= j < i && (#[trigger] ms[j]) is Some ==> right_edge(ms[j]) < right_edge(ms[i])
    &&& forall|j: int| i < j < ms.len() && (#[trigger] ms[j]) is Some ==> right_edge(ms[j]) <= right_edge(ms[i])
}

/// The rightmost monitor, if any.
pub open spec fn rightmost_index(ms: Seq<Option<MonitorInfo>>) -> Option<int> {
    if exists|i: int| is_rightmost(ms, i) {
        Some(choose|i: int| is_rightmost(ms, i))
    } else {
        None
    }
}

/// How the target monitor was chosen.
#[derive(Clone, Copy, PartialEq, Eq, Structural, Debug)]
pub enum SelectedBy {
    Connector,
    Model,
    Index,
    Rightmost,
    /// No monitor at all: the 1920×1080 fallback.
    Fallback,
}

/// The chosen monitor: its geometry, how it was chosen, its position in the list (none
/// for the fallback), and whether a preference was given that matched nothing.
#[derive(Clone, Copy, Debug)]
pub struct MonitorChoice {
    pub geometry: MonitorGeometry,
    pub by: SelectedBy,
    pub index: Option<usize>,
    pub pref_missed: bool,
}

/// How `pref` selects among `ms`: by connector name, then model name, then numeric
/// index, else the rightmost monitor (else the fallback); the flag tells whether a
/// non-empty preference matched nothing.
pub open spec fn selection(ms: Seq<Option<MonitorInfo>>, pref: Option<Seq<char>>) -> (SelectedBy, Option<int>, bool) {
    let fall_back = match rightmost_index(ms) {
        Some(i) => (SelectedBy::Rightmost, Some(i), wanted(pref) is Some),
        None => (SelectedBy::Fallback, None::<int>, wanted(pref) is Some),
    };
    match wanted(pref) {
        Some(w) => {
            if match_index(ms, w, false) is Some {
                (SelectedBy::Connector, match_index(ms, w, false), false)
            } else if match_index(ms, w, true) is Some {
                (SelectedBy::Model, match_index(ms, w, true), false)
            } else if numeric_index(ms, w) is Some {
                (SelectedBy::Index, numeric_index(ms, w), false)
            } else {
                fall_back
            }
        },
        None => fall_back,
    }
}

proof fn lemma_first_match_unique(ms: Seq<Option<MonitorInfo>>, want: Seq<char>, by_model: bool, i: int)
    requires
        first_match(ms, want, by_model, i),
    ensures
        match_index(ms, want, by_model) == Some(i),
{
    let k = choose|k: int| first_match(ms, want, by_model, k);
    assert(first_match(ms, want, by_model, k));
    if k < i {
        assert(!name_matches(ms[k], want, by_model));
    } else if i < k {
        assert(!name_matches(ms[i], want, by_model));
    }
}

proof fn lemma_rightmost_unique(ms: Seq<Option<MonitorInfo>>, i: int)
    requires
        is_rightmost(ms, i),
    ensures
        rightmost_index(ms) == Some(i),
{
    let k = choose|k: int| is_rightmost(ms, k);
    assert(is_rightmost(ms, k));
    if k < i {
        assert(ms[k] is Some);
    } else if i < k {
        assert(ms[i] is Some);
    }
}

/// The first entry matching `want` by connector (or model), scanning in order.
fn find_by_name(ms: &Vec<Option<MonitorInfo>>, want: &str, by_model: bool) -> (r: Option<usize>)
    ensures
        match r {
            Some(i) => match_index(ms@, want@, by_model) == Some(i as int),
            None => match_index(ms@, want@, by_model) is None,
        },
{
    let mut i: usize = 0;
    while i < ms.len()
        invariant
            i <= ms@.len(),
            forall|j: int| 0 <= j < i ==> !name_matches(#[trigger] ms@[j], want@, by_model),
        decreases ms@.len() - i,
    {
        let hit = match &ms[i] {
            Some(info) => {
                let name = if by_model { &info.model } else { &info.connector };
                match name {
                    Some(n) => eq_ignore_case(n.as_str(), want),
                    None => false,
                }
            },
            None => false,
        };
        if hit {
            proof {
                lemma_first_match_unique(ms@, want@, by_model, i as int);
            }
            return Some(i);
        }
        i += 1;
    }
    proof {
        assert forall|k: int| !first_match(ms@, want@, by_model, k) by {
            if 0 <= k < ms@.len() {
                assert(!name_matches(ms@[k], want@, by_model));
            }
        }
    }
    None
}

/// The rightmost monitor, scanning in order.
fn find_rightmost(ms: &Vec<Option<MonitorInfo>>) -> (r: Option<usize>)
    requires
        forall|i: int| 0 <= i < ms@.len() && (#[trigger] ms@[i]) is Some ==> fits(right_edge(ms@[i])),
    ensures
        match r {
            Some(i) => rightmost_index(ms@) == Some(i as int),
            None => rightmost_index(ms@) is None,
        },
{
    let mut best: Option<usize> = None;
    let mut max_x: i32 = i32::MIN;
    let mut i: usize = 0;
    while i < ms.len()
        invariant
            i <= ms@.len(),
            forall|k: int| 0 <= k < ms@.len() && (#[trigger] ms@[k]) is Some ==> fits(right_edge(ms@[k])),
            forall|j: int| 0 <= j < i && (#[trigger] ms@[j]) is Some ==> right_edge(ms@[j]) <= max_x,
            match best {
                Some(b) => {
                    &&& b < i
                    &&& ms@[b as int] is Some
                    &&& right_edge(ms@[b as int]) == max_x
                    &&& max_x > i32::MIN
                    &&& forall|j: int| 0 <= j < b && (#[trigger] ms@[j]) is Some ==> right_edge(ms@[j]) < max_x
                },
                None => max_x == i32::MIN,
            },
        decreases ms@.len() - i,
    {
        match &ms[i] {
            Some(info) => {
                let x_end = info.geometry.x + info.geometry.width;
                if x_end > max_x {
                    max_x = x_end;
                    best = Some(i);
                }
            },
            None => {},
        }
        i += 1;
    }
    match best {
        Some(b) => {
            proof {
                lemma_rightmost_unique(ms@, b as int);
            }
            Some(b)
        },
        None => {
            proof {
                assert forall|k: int| !is_rightmost(ms@, k) by {
                    if 0 <= k < ms@.len() && ms@[k] is Some {
                        assert(right_edge(ms@[k]) <= max_x);
                    }
                }
            }
            None
        },
    }
}

/// Selects the target monitor. A preference is trimmed; when non-empty it is matched,
/// ignoring ASCII case and in this order, against the connector name (e.g. "DP-1"),
/// then the model name, then read as a decimal index into the monitor list. Without a
/// preference, or when it matches nothing, the rightmost monitor (greatest
/// `x + width`, the first such) is used, and the 1920×1080 fallback when there is no
/// monitor at all.
pub fn select_monitor(monitors: &Vec<Option<MonitorInfo>>, pref: &Option<String>) -> (r: MonitorChoice)
    requires
        forall|i: int| 0 <= i < monitors@.len() && (#[trigger] monitors@[i]) is Some ==> fits(right_edge(monitors@[i])),
    ensures
        (r.by, match r.index { Some(i) => Some(i as int), None => None::<int> }, r.pref_missed)
            == selection(monitors@, opt_view(*pref)),
        r.geometry == (match r.index {
            Some(i) => monitors@[i as int]->Some_0.geometry,
            None => MonitorGeometry { x: 0, y: 0, width: 1920, height: 1080 },
        }),
{
    let mut missed = false;
    match pref {
        Some(p) => {
            let t = trim_chars(&chars_of(p.as_str()));
            if t.len() > 0 {
                let want = string_of(&t, 0, t.len());
                assert(want@ =~= trim(p@));
                missed = true;
                match find_by_name(monitors, want.as_str(), false) {
                    Some(i) => {
                        let g = match &monitors[i] {
                            Some(info) => info.geometry,
                            None => MonitorGeometry::fallback(),
                        };
                        return MonitorChoice { geometry: g, by: SelectedBy::Connector, index: Some(i), pref_missed: false };
                    },
                    None => {},
                }
                match find_by_name(monitors, want.as_str(), true) {
                    Some(i) => {
                        let g = match &monitors[i] {
                            Some(info) => info.geometry,
                            None => MonitorGeometry::fallback(),
                        };
                        return MonitorChoice { geometry: g, by: SelectedBy::Model, index: Some(i), pref_missed: false };
                    },
                    None => {},
                }
                match parse_u32(want.as_str()) {
                    Some(idx) => {
                        if (idx as usize) < monitors.len() {
                            match &monitors[idx as usize] {
                                Some(info) => {
                                    return MonitorChoice {
                                        geometry: info.geometry,
                                        by: SelectedBy::Index,
                                        index: Some(idx as usize),
                                        pref_missed: false,
                                    };
                                },
                                None => {},
                            }
                        }
                    },
                    None => {},
                }
            }
        },
        None => {},
    }
    match find_rightmost(monitors) {
        Some(i) => {
            let g = match &monitors[i] {
                Some(info) => info.geometry,
                None => MonitorGeometry::fallback(),
            };
            MonitorChoice { geometry: g, by: SelectedBy::Rightmost, index: Some(i), pref_missed: missed }
        },
        None => MonitorChoice { geometry: MonitorGeometry::fallback(), by: SelectedBy::Fallback, index: None, pref_missed: missed },
    }
}

/// Rust's `a / 2` on integers: the quotient rounded toward zero.
pub open spec fn half_toward_zero(a: int) -> int {
    if a >= 0 { a / 2 } else { -((-a) / 2) }
}

/// The start that centers a `size`-long box on `lo ..= hi`, as the `i32` computation
/// `lo + ((hi - lo) - size) / 2` gives it; None where that computation leaves `i32`.
pub open spec fn centered(lo: int, hi: int, size: int) -> Option<int> {
    let span = hi - lo;
    let d = span - size;
    let c = lo + half_toward_zero(d);
    if fits(span) && fits(d) && fits(c) { Some(c) } else { None }
}

/// The bounding box (min x, min y, max right edge, max bottom edge) of `ms`, starting
/// from the empty box (`i32::MAX`, `i32::MAX`, `i32::MIN`, `i32::MIN`).
pub open spec fn bounding_box(ms: Seq<MonitorGeometry>) -> (int, int, int, int)
    decreases ms.len(),
{
    if ms.len() == 0 {
        (i32::MAX as int, i32::MAX as int, i32::MIN as int, i32::MIN as int)
    } else {
        let b = bounding_box(ms.drop_last());
        let g = ms.last();
        (
            if g.x < b.0 { g.x as int } else { b.0 },
            if g.y < b.1 { g.y as int } else { b.1 },
            if g.x + g.width > b.2 { g.x + g.width } else { b.2 },
            if g.y + g.height > b.3 { g.y + g.height } else { b.3 },
        )
    }
}

/// Whether every monitor's right and bottom edges fit in `i32`.
pub open spec fn edges_fit(ms: Seq<MonitorGeometry>) -> bool {
    forall|i: int| 0 <= i < ms.len() ==> fits((#[trigger] ms[i]).x + ms[i].width) && fits(ms[i].y + ms[i].height)
}

/// Both coordinates, when both were computed.
pub open spec fn both(x: Option<int>, y: Option<int>) -> Option<(i32, i32)> {
    match (x, y) {
        (Some(a), Some(b)) => Some((a as i32, b as i32)),
        _ => None,
    }
}

/// Where a `w`×`h` box centered on the union of `ms` starts (on the fallback screen
/// when there is no monitor); None where the `i32` computation would overflow.
pub open spec fn center_across(ms: Seq<MonitorGeometry>, w: i32, h: i32) -> Option<(i32, i32)> {
    if ms.len() == 0 {
        both(centered(0, 1920, w as int), centered(0, 1080, h as int))
    } else if !edges_fit(ms) {
        None
    } else {
        let b = bounding_box(ms);
        both(centered(b.0, b.2, w as int), centered(b.1, b.3, h as int))
    }
}

proof fn lemma_bounding_box(ms: Seq<MonitorGeometry>)
    ensures
        forall|i: int| 0 <= i < ms.len() ==> {
            &&& bounding_box(ms).0 <= (#[trigger] ms[i]).x
            &&& bounding_box(ms).1 <= ms[i].y
            &&& ms[i].x + ms[i].width <= bounding_box(ms).2
            &&& ms[i].y + ms[i].height <= bounding_box(ms).3
        },
        ms.len() > 0 ==> exists|i: int| 0 <= i < ms.len() && bounding_box(ms).0 == (#[trigger] ms[i]).x,
        ms.len() > 0 ==> exists|i: int| 0 <= i < ms.len() && bounding_box(ms).1 == (#[trigger] ms[i]).y,
        ms.len() > 0 && edges_fit(ms) ==> exists|i: int| 0 <= i < ms.len() && bounding_box(ms).2 == (#[trigger] ms[i]).x + ms[i].width,
        ms.len() > 0 && edges_fit(ms) ==> exists|i: int| 0 <= i < ms.len() && bounding_box(ms).3 == (#[trigger] ms[i]).y + ms[i].height,
    decreases ms.len(),
{
    if ms.len() > 0 {
        let p = ms.drop_last();
        lemma_bounding_box(p);
        let n = ms.len() - 1;
        let b = bounding_box(ms);
        let bp = bounding_box(p);
        let g = ms[n];
        assert(ms.last() == g);
        assert forall|i: int| 0 <= i < ms.len() implies {
            &&& b.0 <= (#[trigger] ms[i]).x
            &&& b.1 <= ms[i].y
            &&& ms[i].x + ms[i].width <= b.2
            &&& ms[i].y + ms[i].height <= b.3
        } by {
            if i < n {
                assert(ms[i] == p[i]);
            }
        }
        if n == 0 {
            assert(b.0 == g.x && b.1 == g.y);
            assert(ms[0] == g);
            if edges_fit(ms) {
                assert(fits(ms[0].x + ms[0].width) && fits(ms[0].y + ms[0].height));
                assert(b.2 == g.x + g.width && b.3 == g.y + g.height);
            }
        } else {
            let i0 = choose|i: int| 0 <= i < p.len() && bp.0 == (#[trigger] p[i]).x;
            let i1 = choose|i: int| 0 <= i < p.len() && bp.1 == (#[trigger] p[i]).y;
            assert(ms[i0] == p[i0] && ms[i1] == p[i1]);
            assert(ms[n] == g);
            if edges_fit(ms) {
                assert forall|i: int| 0 <= i < p.len() implies fits((#[trigger] p[i]).x + p[i].width) && fits(p[i].y + p[i].height) by {
                    assert(p[i] == ms[i]);
                }
                let i2 = choose|i: int| 0 <= i < p.len() && bp.2 == (#[trigger] p[i]).x + p[i].width;
                let i3 = choose|i: int| 0 <= i < p.len() && bp.3 == (#[trigger] p[i]).y + p[i].height;
                assert(ms[i2] == p[i2] && ms[i3] == p[i3]);
            }
        }
    }
}

/// The "Please Wait" window is centered on the union of all monitors: the bounding box
/// reaches from the leftmost left edge and the topmost top edge to the rightmost right
/// edge and the lowest bottom edge, each edge being some monitor's edge; and a centered
/// start leaves equal room on both sides (up to the pixel lost by rounding toward zero).
pub proof fn law_centered_on_the_union(ms: Seq<MonitorGeometry>, lo: int, hi: int, size: int)
    ensures
        forall|i: int| 0 <= i < ms.len() ==> {
            &&& bounding_box(ms).0 <= (#[trigger] ms[i]).x
            &&& bounding_box(ms).1 <= ms[i].y
            &&& ms[i].x + ms[i].width <= bounding_box(ms).2
            &&& ms[i].y + ms[i].height <= bounding_box(ms).3
        },
        ms.len() > 0 ==> exists|i: int| 0 <= i < ms.len() && bounding_box(ms).0 == (#[trigger] ms[i]).x,
        ms.len() > 0 ==> exists|i: int| 0 <= i < ms.len() && bounding_box(ms).1 == (#[trigger] ms[i]).y,
        ms.len() > 0 && edges_fit(ms) ==> exists|i: int| 0 <= i < ms.len() && bounding_box(ms).2 == (#[trigger] ms[i]).x + ms[i].width,
        ms.len() > 0 && edges_fit(ms) ==> exists|i: int| 0 <= i < ms.len() && bounding_box(ms).3 == (#[trigger] ms[i]).y + ms[i].height,
        centered(lo, hi, size) matches Some(c) ==> {
            let before = c - lo;
            let after = hi - (c + size);
            -1 <= before - after <= 1
        },
{
    lemma_bounding_box(ms);
}

fn centered_exec(lo: i64, hi: i64, size: i32) -> (r: Option<i32>)
    requires
        fits(lo as int),
        fits(hi as int),
    ensures
        match r {
            Some(c) => centered(lo as int, hi as int, size as int) == Some(c as int),
            None => centered(lo as int, hi as int, size as int) is None,
        },
{
    let lo32 = i32::MIN as i64;
    let hi32 = i32::MAX as i64;
    let span = hi - lo;
    let d = span - size as i64;
    let half = if d >= 0 { d / 2 } else { -((-d) / 2) };
    let c = lo + half;
    if lo32 <= span && span <= hi32 && lo32 <= d && d <= hi32 && lo32 <= c && c <= hi32 {
        Some(c as i32)
    } else {
        None
    }
}

/// Top-left position that centers a `w`×`h` box across the union bounding box of all
/// monitors; the 1920×1080 fallback screen when the list is empty, and the origin when
/// there is no display at all (`None`). The result is None exactly where the `i32`
/// arithmetic would overflow.
pub fn desktop_center(monitors: &Option<Vec<MonitorGeometry>>, w: i32, h: i32) -> (r: Option<(i32, i32)>)
    ensures
        r == (match *monitors {
            None => Some((0i32, 0i32)),
            Some(ms) => center_across(ms@, w, h),
        }),
{
    let ms = match monitors {
        None => return Some((0, 0)),
        Some(ms) => ms,
    };
    if ms.len() == 0 {
        let fb = MonitorGeometry::fallback();
        let cx = centered_exec(fb.x as i64, (fb.x + fb.width) as i64, w);
        let cy = centered_exec(fb.y as i64, (fb.y + fb.height) as i64, h);
        return match (cx, cy) {
            (Some(a), Some(b)) => Some((a, b)),
            _ => None,
        };
    }
    let lo32 = i32::MIN as i64;
    let hi32 = i32::MAX as i64;
    let mut min_x: i64 = i32::MAX as i64;
    let mut min_y: i64 = i32::MAX as i64;
    let mut max_x: i64 = i32::MIN as i64;
    let mut max_y: i64 = i32::MIN as i64;
    let mut i: usize = 0;
    while i < ms.len()
        invariant
            i <= ms@.len(),
            edges_fit(ms@.subrange(0, i as int)),
            (min_x as int, min_y as int, max_x as int, max_y as int) == bounding_box(ms@.subrange(0, i as int)),
            fits(min_x as int),
            fits(min_y as int),
            fits(max_x as int),
            fits(max_y as int),
            lo32 == i32::MIN,
            hi32 == i32::MAX,
            *monitors == Some(*ms),
        decreases ms@.len() - i,
    {
        let g = ms[i];
        let right = g.x as i64 + g.width as i64;
        let bottom = g.y as i64 + g.height as i64;
        if right < lo32 || right > hi32 || bottom < lo32 || bottom > hi32 {
            proof {
                assert(!fits(ms@[i as int].x + ms@[i as int].width) || !fits(ms@[i as int].y + ms@[i as int].height));
                assert(!edges_fit(ms@));
            }
            return None;
        }
        if (g.x as i64) < min_x {
            min_x = g.x as i64;
        }
        if (g.y as i64) < min_y {
            min_y = g.y as i64;
        }
        if right > max_x {
            max_x = right;
        }
        if bottom > max_y {
            max_y = bottom;
        }
        proof {
            let s = ms@.subrange(0, i + 1);
            assert(s.drop_last() =~= ms@.subrange(0, i as int));
            assert(s.last() == ms@[i as int]);
            assert forall|k: int| 0 <= k < s.len() implies fits((#[trigger] s[k]).x + s[k].width) && fits(s[k].y + s[k].height) by {
                if k < i {
                    assert(s[k] == ms@.subrange(0, i as int)[k]);
                }
            }
        }
        i += 1;
    }
    assert(ms@.subrange(0, ms@.len() as int) =~= ms@);
    let cx = centered_exec(min_x, max_x, w);
    let cy = centered_exec(min_y, max_y, h);
    match (cx, cy) {
        (Some(a), Some(b)) => Some((a, b)),
        _ => None,
    }
}

} // verus!
