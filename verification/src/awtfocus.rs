//! Focus-gated detection of Java/AWT windows for the non-BMP clipboard path.
//!
//! Java/AWT truncates non-BMP keysyms, so emoji typed through the keysym path come
//! out wrong there; the clipboard paste path is unaffected. The daemon decides per
//! keystroke whether the focused top-level window belongs to one of those apps by
//! matching its WM_CLASS (res_name or res_class) against a whitelist of anchored
//! globs. Reading the focused window and its class hint is X11 I/O and happens
//! outside this module; the decision over the strings read happens here.

use vstd::prelude::*;
use crate::text::chars_of;

verus! {

/// Anchored glob semantics: `*` matches any run of characters (including the empty
/// run), every other pattern character matches exactly itself, and the pattern must
/// cover the whole text.
pub open spec fn glob(p: Seq<char>, t: Seq<char>) -> bool
    decreases p.len() + t.len(),
{
    if p.len() == 0 {
        t.len() == 0
    } else if p[0] == '*' {
        glob(p.drop_first(), t) || (t.len() > 0 && glob(p, t.drop_first()))
    } else {
        t.len() > 0 && p[0] == t[0] && glob(p.drop_first(), t.drop_first())
    }
}

/// Whether suffix `i..` of the pattern matches suffix `j..` of the text.
spec fn at(p: Seq<char>, t: Seq<char>, i: int, j: int) -> bool {
    glob(p.skip(i), t.skip(j))
}

proof fn lemma_unfold(p: Seq<char>, t: Seq<char>, i: int, j: int)
    requires
        0 <= i <= p.len(),
        0 <= j <= t.len(),
    ensures
        at(p, t, i, j) == (if i == p.len() {
            j == t.len()
        } else if p[i] == '*' {
            at(p, t, i + 1, j) || (j < t.len() && at(p, t, i, j + 1))
        } else {
            j < t.len() && p[i] == t[j] && at(p, t, i + 1, j + 1)
        }),
{
    let ps = p.skip(i);
    let ts = t.skip(j);
    if i < p.len() {
        assert(ps.drop_first() =~= p.skip(i + 1));
        assert(ps[0] == p[i]);
    }
    if j < t.len() {
        assert(ts.drop_first() =~= t.skip(j + 1));
        assert(ts[0] == t[j]);
    }
}

/// Pattern characters `from..to` hold no `*` and spell text `start..start + (to - from)`.
spec fn literal_run(p: Seq<char>, t: Seq<char>, from: int, to: int, start: int) -> bool {
    &&& 0 <= from <= to <= p.len()
    &&& 0 <= start && start + (to - from) <= t.len()
    &&& forall|k: int| from <= k < to ==> p[k] != '*' && #[trigger] p[k] == t[start + (k - from)]
}

/// Walking a literal run that the text spells out changes nothing.
proof fn lemma_literal_run(p: Seq<char>, t: Seq<char>, from: int, to: int, start: int)
    requires
        literal_run(p, t, from, to, start),
    ensures
        at(p, t, from, start) == at(p, t, to, start + (to - from)),
    decreases to - from,
{
    if from < to {
        lemma_unfold(p, t, from, start);
        assert(p[from] != '*' && p[from] == t[start]);
        assert(literal_run(p, t, from + 1, to, start + 1));
        lemma_literal_run(p, t, from + 1, to, start + 1);
    }
}

/// A match starting at a `*` followed by the literal run `s+1..pi` places that run
/// somewhere at or after `x`, and the rest of the pattern matches from after it.
proof fn lemma_star_then_literals(p: Seq<char>, t: Seq<char>, s: int, pi: int, x: int)
    requires
        0 <= s < pi <= p.len(),
        p[s] == '*',
        forall|k: int| s < k < pi ==> #[trigger] p[k] != '*',
        0 <= x <= t.len(),
        at(p, t, s, x),
    ensures
        exists|y: int| x + (pi - s - 1) <= y <= t.len() && at(p, t, pi, y),
    decreases t.len() - x,
{
    lemma_unfold(p, t, s, x);
    if at(p, t, s + 1, x) {
        lemma_literal_walk(p, t, s + 1, pi, x);
    } else {
        lemma_star_then_literals(p, t, s, pi, x + 1);
        let y = choose|y: int| x + 1 + (pi - s - 1) <= y <= t.len() && at(p, t, pi, y);
        assert(x + (pi - s - 1) <= y);
    }
}

/// A match through a literal run consumes exactly the run's length of text.
proof fn lemma_literal_walk(p: Seq<char>, t: Seq<char>, k: int, pi: int, x: int)
    requires
        0 <= k <= pi <= p.len(),
        forall|q: int| k <= q < pi ==> #[trigger] p[q] != '*',
        0 <= x <= t.len(),
        at(p, t, k, x),
    ensures
        x + (pi - k) <= t.len(),
        at(p, t, pi, x + (pi - k)),
    decreases pi - k,
{
    if k < pi {
        lemma_unfold(p, t, k, x);
        assert(p[k] != '*');
        lemma_literal_walk(p, t, k + 1, pi, x + 1);
    }
}

/// A `*` that matches from some text position also matches from any earlier one.
proof fn lemma_star_absorbs(p: Seq<char>, t: Seq<char>, i: int, x: int, y: int)
    requires
        0 <= i < p.len(),
        p[i] == '*',
        0 <= x <= y <= t.len(),
        at(p, t, i, y),
    ensures
        at(p, t, i, x),
    decreases y - x,
{
    if x < y {
        lemma_star_absorbs(p, t, i, x + 1, y);
        lemma_unfold(p, t, i, x);
    }
}

/// No `*` anywhere in the sequence.
pub open spec fn star_free(w: Seq<char>) -> bool {
    forall|k: int| 0 <= k < w.len() ==> #[trigger] w[k] != '*'
}

/// A pattern without `*` matches exactly one text: itself (anchored at both ends,
/// case-sensitive).
pub proof fn law_literal_pattern_matches_only_itself(p: Seq<char>, t: Seq<char>)
    requires
        star_free(p),
    ensures
        glob(p, t) <==> p == t,
    decreases p.len(),
{
    if p.len() > 0 {
        assert(p[0] != '*');
        let q = p.drop_first();
        assert(star_free(q)) by {
            assert forall|k: int| 0 <= k < q.len() implies #[trigger] q[k] != '*' by {
                assert(q[k] == p[k + 1]);
            }
        }
        if t.len() > 0 {
            law_literal_pattern_matches_only_itself(q, t.drop_first());
            if p[0] == t[0] && q == t.drop_first() {
                assert forall|k: int| 0 <= k < p.len() implies p[k] == t[k] by {
                    if k > 0 {
                        assert(p[k] == q[k - 1]);
                        assert(t[k] == t.drop_first()[k - 1]);
                    }
                }
                assert(p =~= t);
            }
            if p == t {
                assert(q =~= t.drop_first());
            }
        }
    } else {
        if t.len() == 0 {
            assert(p =~= t);
        }
    }
}

/// A bare `*` matches every text, the empty one included.
pub proof fn law_bare_star_matches_everything(t: Seq<char>)
    ensures
        glob(seq!['*'], t),
    decreases t.len(),
{
    let p = seq!['*'];
    assert(p.drop_first() =~= Seq::<char>::empty());
    if t.len() > 0 {
        law_bare_star_matches_everything(t.drop_first());
    } else {
        assert(glob(p.drop_first(), t));
    }
}

/// A literal followed by a trailing `*` is a prefix test.
pub proof fn law_trailing_star_is_prefix(w: Seq<char>, t: Seq<char>)
    requires
        star_free(w),
    ensures
        glob(w.push('*'), t) <==> (w.len() <= t.len() && t.subrange(0, w.len() as int) == w),
    decreases w.len(),
{
    let p = w.push('*');
    if w.len() == 0 {
        assert(p =~= seq!['*']);
        law_bare_star_matches_everything(t);
        assert(t.subrange(0, 0) =~= w);
    } else {
        assert(p[0] == w[0]);
        assert(w[0] != '*');
        let q = w.drop_first();
        assert(p.drop_first() =~= q.push('*'));
        assert(star_free(q)) by {
            assert forall|k: int| 0 <= k < q.len() implies #[trigger] q[k] != '*' by {
                assert(q[k] == w[k + 1]);
            }
        }
        if t.len() > 0 {
            let u = t.drop_first();
            law_trailing_star_is_prefix(q, u);
            if w.len() <= t.len() {
                assert(u.subrange(0, q.len() as int) =~= t.subrange(1, w.len() as int));
                if t.subrange(0, w.len() as int) == w {
                    assert(t[0] == t.subrange(0, w.len() as int)[0]);
                    assert(u.subrange(0, q.len() as int) =~= q);
                }
                if t[0] == w[0] && u.subrange(0, q.len() as int) == q {
                    assert forall|k: int| 0 <= k < w.len() implies t.subrange(0, w.len() as int)[k] == w[k] by {
                        if k > 0 {
                            assert(w[k] == q[k - 1]);
                            assert(q[k - 1] == u.subrange(0, q.len() as int)[k - 1]);
                        }
                    }
                    assert(t.subrange(0, w.len() as int) =~= w);
                }
            }
        }
    }
}

/// A leading `*` followed by a literal is a suffix test.
pub proof fn law_leading_star_is_suffix(w: Seq<char>, t: Seq<char>)
    requires
        star_free(w),
    ensures
        glob(seq!['*'] + w, t) <==> (w.len() <= t.len() && t.skip(t.len() - w.len()) == w),
    decreases t.len(),
{
    let p = seq!['*'] + w;
    assert(p[0] == '*');
    assert(p.drop_first() =~= w);
    law_literal_pattern_matches_only_itself(w, t);
    if t.len() > 0 {
        let u = t.drop_first();
        law_leading_star_is_suffix(w, u);
        if w.len() <= u.len() {
            assert(u.skip(u.len() - w.len()) =~= t.skip(t.len() - w.len()));
        }
        if w.len() == t.len() {
            assert(t.skip(0) =~= t);
        }
    } else {
        if w.len() == 0 {
            assert(t.skip(0) =~= w);
        }
    }
}

/// Anchored glob match. The pattern must match the WHOLE `text` (both ends anchored); `*`
/// is the only wildcard and matches any run including empty; every other character is
/// literal. So `jetbrains-*` matches `jetbrains-pycharm` but not `not-jetbrains-foo`, and
/// `SmartGit` matches only `SmartGit` exactly — never a class that merely contains it.
pub fn glob_match(pattern: &str, text: &str) -> (r: bool)
    ensures
        r == glob(pattern@, text@),
{
    let p = chars_of(pattern);
    let t = chars_of(text);
    let ghost ps = p@;
    let ghost ts = t@;
    let m = p.len();
    let n = t.len();
    let mut pi: usize = 0;
    let mut ti: usize = 0;
    // Backtracking point for the most recent '*': where it sits in `p`, and how far it
    // has tentatively been allowed to consume in `t`.
    let mut star: Option<usize> = None;
    let mut star_match: usize = 0;
    proof {
        assert(ps.skip(0) =~= ps);
        assert(ts.skip(0) =~= ts);
    }
    while ti < n
        invariant
            ps == pattern@,
            ts == text@,
            m == ps.len(),
            n == ts.len(),
            p@ == ps,
            t@ == ts,
            pi <= m,
            ti <= n,
            star_match <= ti,
            star is None ==> at(ps, ts, pi as int, ti as int) == glob(ps, ts),
            star matches Some(s) ==> {
                &&& s < pi
                &&& ps[s as int] == '*'
                &&& pi - s - 1 == ti - star_match
                &&& literal_run(ps, ts, s + 1, pi as int, star_match as int)
                &&& at(ps, ts, s as int, star_match as int) == glob(ps, ts)
            },
        decreases n - star_match, (m - pi) + (n - ti),
    {
        if pi < m && p[pi] == '*' {
            proof {
                if let Some(s) = star {
                    let s = s as int;
                    lemma_unfold(ps, ts, s, star_match as int);
                    lemma_literal_run(ps, ts, s + 1, pi as int, star_match as int);
                    if star_match < n && at(ps, ts, s, star_match + 1) {
                        assert forall|k: int| s < k < pi implies #[trigger] ps[k] != '*' by {
                            assert(ps[k] == ts[star_match + (k - (s + 1))]);
                        }
                        lemma_star_then_literals(ps, ts, s, pi as int, star_match + 1);
                        let y = choose|y: int|
                            star_match + 1 + (pi - s - 1) <= y <= ts.len() && at(ps, ts, pi as int, y);
                        lemma_star_absorbs(ps, ts, pi as int, ti as int, y);
                    }
                }
            }
            star = Some(pi);
            star_match = ti;
            pi += 1;
        } else if pi < m && p[pi] == t[ti] {
            proof {
                lemma_unfold(ps, ts, pi as int, ti as int);
            }
            pi += 1;
            ti += 1;
        } else if let Some(s) = star {
            proof {
                let s = s as int;
                lemma_unfold(ps, ts, s, star_match as int);
                lemma_literal_run(ps, ts, s + 1, pi as int, star_match as int);
                lemma_unfold(ps, ts, pi as int, ti as int);
            }
            // Mismatch: let the last '*' swallow one more character and retry.
            pi = s + 1;
            star_match += 1;
            ti = star_match;
        } else {
            proof {
                lemma_unfold(ps, ts, pi as int, ti as int);
            }
            return false;
        }
    }
    proof {
        if let Some(s) = star {
            let s = s as int;
            lemma_unfold(ps, ts, s, star_match as int);
            lemma_literal_run(ps, ts, s + 1, pi as int, star_match as int);
            if star_match < n && at(ps, ts, s, star_match + 1) {
                assert forall|k: int| s < k < pi implies #[trigger] ps[k] != '*' by {
                    assert(ps[k] == ts[star_match + (k - (s + 1))]);
                }
                lemma_star_then_literals(ps, ts, s, pi as int, star_match + 1);
            }
        }
        assert(at(ps, ts, pi as int, n as int) == glob(ps, ts));
    }
    // Trailing '*'s in the pattern can match the empty remainder.
    while pi < m && p[pi] == '*'
        invariant
            m == ps.len(),
            n == ts.len(),
            p@ == ps,
            pi <= m,
            at(ps, ts, pi as int, n as int) == glob(ps, ts),
        decreases m - pi,
    {
        proof {
            lemma_unfold(ps, ts, pi as int, n as int);
        }
        pi += 1;
    }
    proof {
        lemma_unfold(ps, ts, pi as int, n as int);
    }
    pi == m
}

/// Whether one of `patterns` matches the class hint's res_name or its res_class.
pub open spec fn class_whitelisted(
    patterns: Seq<Seq<char>>,
    res_name: Option<Seq<char>>,
    res_class: Option<Seq<char>>,
) -> bool {
    exists|i: int|
        0 <= i < patterns.len() && {
            ||| (res_name matches Some(n) && glob(#[trigger] patterns[i], n))
            ||| (res_class matches Some(c) && glob(patterns[i], c))
        }
}

/// Classifies the focused window's WM_CLASS against a whitelist of anchored globs.
pub struct AwtDetector {
    patterns: Vec<String>,
}

impl AwtDetector {
    /// The whitelist, as character sequences.
    pub closed spec fn patterns(&self) -> Seq<Seq<char>> {
        self.patterns@.map_values(|s: String| s@)
    }

    /// A detector for the given WM_CLASS globs.
    pub fn new(patterns: Vec<String>) -> (r: Self)
        ensures
            r.patterns() == patterns@.map_values(|s: String| s@),
    {
        AwtDetector { patterns }
    }

    /// No patterns configured -> the clipboard path is disabled entirely.
    pub fn is_enabled(&self) -> (r: bool)
        ensures
            r == (self.patterns().len() > 0),
    {
        self.patterns.len() > 0
    }

    /// True if the class hint's res_name OR res_class matches any whitelist glob.
    pub fn class_matches(&self, res_name: &Option<String>, res_class: &Option<String>) -> (r: bool)
        ensures
            r == class_whitelisted(
                self.patterns(),
                match res_name { Some(n) => Some(n@), None => None },
                match res_class { Some(c) => Some(c@), None => None },
            ),
    {
        let ghost pats = self.patterns();
        let ghost name = match res_name { Some(n) => Some(n@), None => None::<Seq<char>> };
        let ghost class = match res_class { Some(c) => Some(c@), None => None::<Seq<char>> };
        let mut i: usize = 0;
        while i < self.patterns.len()
            invariant
                pats == self.patterns(),
                pats.len() == self.patterns@.len(),
                i <= self.patterns@.len(),
                name == (match res_name { Some(n) => Some(n@), None => None::<Seq<char>> }),
                class == (match res_class { Some(c) => Some(c@), None => None::<Seq<char>> }),
                forall|k: int| 0 <= k < i ==> !{
                    ||| (name matches Some(n) && glob(#[trigger] pats[k], n))
                    ||| (class matches Some(c) && glob(pats[k], c))
                },
            decreases self.patterns@.len() - i,
        {
            let p = self.patterns[i].as_str();
            assert(pats[i as int] == p@);
            let by_name = match res_name {
                Some(n) => glob_match(p, n.as_str()),
                None => false,
            };
            let by_class = match res_class {
                Some(c) => glob_match(p, c.as_str()),
                None => false,
            };
            if by_name || by_class {
                return true;
            }
            i += 1;
        }
        false
    }

    /// The managed top-level window to classify, from the `_NET_ACTIVE_WINDOW` read
    /// (`active`: the window it holds, None when the read failed or was empty): a
    /// non-zero window is used; otherwise None, and the input focus is asked for instead.
    pub fn active_window(active: Option<u64>) -> (r: Option<u64>)
        ensures
            r == (match active {
                Some(w) => if w != 0 { Some(w) } else { None::<u64> },
                None => None::<u64>,
            }),
    {
        match active {
            Some(w) => if w != 0 { Some(w) } else { None },
            None => None,
        }
    }

    /// The decision for the focused window: `focused` is the focused top-level window
    /// id (0 when there is none) and `hint` its WM_CLASS hint, if it has one. Only an
    /// enabled whitelist on a real window whose class matches routes to the clipboard.
    pub fn focused_is_awt(&self, focused: u64, hint: &Option<(Option<String>, Option<String>)>) -> (r: bool)
        ensures
            r == (self.patterns().len() > 0 && focused != 0 && match hint {
                Some((n, c)) => class_whitelisted(
                    self.patterns(),
                    match n { Some(x) => Some(x@), None => None },
                    match c { Some(x) => Some(x@), None => None },
                ),
                None => false,
            }),
    {
        if self.patterns.len() == 0 {
            return false;
        }
        if focused == 0 {
            return false;
        }
        match hint {
            Some((n, c)) => self.class_matches(n, c),
            None => false,
        }
    }
}

} // verus!
