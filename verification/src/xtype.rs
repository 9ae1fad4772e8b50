//! The typists' keycode bookkeeping.
//!
//! Characters are typed by binding their keysym to a keycode and firing that keycode
//! via XTest. Two typists share the scheme: the socket server's per-glyph typist, which
//! keeps a keysym -> keycode cache with least-recently-used eviction when no free
//! keycode is left, and the key-grab thread's batch typist, which gives every logical
//! button a stable scratch keycode and rewrites the whole set in one keymap change per
//! layer. The X calls (reading and changing the keyboard mapping, XTest) happen outside
//! the library; the decisions over what they return happen here.

use vstd::prelude::*;
use std::collections::HashMap;
use crate::keymap::KeyMap;

verus! {

broadcast use vstd::std_specs::hash::group_hash_axioms;

/// The X `NoSymbol` keysym.
pub const NO_SYMBOL: u64 = 0;

/// The keysym of a character: Latin-1 printable characters are their own keysym,
/// everything else is `0x01000000 + codepoint`.
pub open spec fn keysym_of(c: char) -> u64 {
    let cp = c as u32;
    if 0x20 <= cp <= 0xFF {
        cp as u64
    } else {
        (0x01000000 + cp) as u64
    }
}

/// The keysym of a character (see [`keysym_of`]).
pub fn unicode_to_keysym(ch: char) -> (r: u64)
    ensures
        r == keysym_of(ch),
{
    let cp = ch as u32;
    if cp >= 0x20 && cp <= 0xFF {
        cp as u64
    } else {
        0x01000000 + cp as u64
    }
}

/// Whether a keysym is a Unicode keysym (`U+0000` … `U+10FFFF`), the kind this daemon binds.
pub open spec fn is_unicode_keysym(k: u64) -> bool {
    0x01000000 <= k <= 0x0110FFFF
}

/// What a keycode's current mapping makes of it for the typists.
#[derive(Clone, Copy, Debug, PartialEq, Eq, Structural)]
pub enum KeycodeClass {
    /// Every level is `NoSymbol`: unused, free to bind.
    Free,
    /// Its first keysym is a Unicode keysym: bound by this daemon in an earlier run and
    /// reclaimable.
    Reclaim(u64),
    /// A real key; never touched.
    Other,
}

/// The class of a keycode whose mapping (one keysym per level) is `syms`.
pub open spec fn class_of(syms: Seq<u64>) -> KeycodeClass {
    if forall|i: int| 0 <= i < syms.len() ==> syms[i] == NO_SYMBOL {
        KeycodeClass::Free
    } else if is_unicode_keysym(syms[0]) {
        KeycodeClass::Reclaim(syms[0])
    } else {
        KeycodeClass::Other
    }
}

/// Classifies a keycode from its mapping (see [`class_of`]).
pub fn classify_keycode(syms: &Vec<u64>) -> (r: KeycodeClass)
    ensures
        r == class_of(syms@),
{
    let mut i: usize = 0;
    while i < syms.len()
        invariant
            i <= syms@.len(),
            forall|j: int| 0 <= j < i ==> syms@[j] == NO_SYMBOL,
        decreases syms@.len() - i,
    {
        if syms[i] != NO_SYMBOL {
            let first = syms[0];
            if first >= 0x01000000 && first <= 0x0110FFFF {
                return KeycodeClass::Reclaim(first);
            }
            return KeycodeClass::Other;
        }
        i += 1;
    }
    KeycodeClass::Free
}

/// `lru` after `k` is used: its first occurrence moves to the back (most recently used).
pub open spec fn touched(lru: Seq<u64>, k: u64) -> Seq<u64> {
    match lru.index_of_first(k) {
        Some(p) => lru.remove(p).push(k),
        None => lru,
    }
}

/// Why no keycode could be found to bind a new keysym.
#[derive(Clone, Copy, Debug, PartialEq, Eq, Structural)]
pub enum SlotError {
    /// No free keycode and nothing cached to evict.
    NoKeycodes { keysym: u64 },
    /// The least recently used keysym had no cached keycode.
    EvictionMiss { evicted: u64 },
}

/// The per-glyph typist's bookkeeping: keysym -> keycode cache, free keycodes (the
/// last one is used first), and least-recently-used order of the cached keysyms
/// (front = evict first).
pub struct KeysymCache {
    cache: HashMap<u64, u8>,
    free_keycodes: Vec<u8>,
    lru_order: Vec<u64>,
}

impl KeysymCache {
    /// The cache: keysym -> keycode.
    pub closed spec fn cached(&self) -> Map<u64, u8> {
        self.cache@
    }

    /// The free keycodes; the last one is used first.
    pub closed spec fn free(&self) -> Seq<u8> {
        self.free_keycodes@
    }

    /// Cached keysyms from least to most recently used.
    pub closed spec fn lru(&self) -> Seq<u64> {
        self.lru_order@
    }

    /// Nothing cached, nothing free.
    pub fn new() -> (r: Self)
        ensures
            r.cached() == Map::<u64, u8>::empty(),
            r.free() == Seq::<u8>::empty(),
            r.lru() == Seq::<u64>::empty(),
    {
        KeysymCache { cache: HashMap::new(), free_keycodes: Vec::new(), lru_order: Vec::new() }
    }

    /// Records one scanned keycode: a free one joins the free pool; one holding a
    /// Unicode keysym from an earlier run is pre-cached (most recently used).
    pub fn note_scanned(&mut self, kc: u8, class: KeycodeClass)
        ensures
            match class {
                KeycodeClass::Free => {
                    &&& final(self).free() == old(self).free().push(kc)
                    &&& final(self).cached() == old(self).cached()
                    &&& final(self).lru() == old(self).lru()
                },
                KeycodeClass::Reclaim(sym) => {
                    &&& final(self).free() == old(self).free()
                    &&& final(self).cached() == old(self).cached().insert(sym, kc)
                    &&& final(self).lru() == old(self).lru().push(sym)
                },
                KeycodeClass::Other => {
                    &&& final(self).free() == old(self).free()
                    &&& final(self).cached() == old(self).cached()
                    &&& final(self).lru() == old(self).lru()
                },
            },
    {
        match class {
            KeycodeClass::Free => {
                self.free_keycodes.push(kc);
            },
            KeycodeClass::Reclaim(sym) => {
                self.cache.insert(sym, kc);
                self.lru_order.push(sym);
            },
            KeycodeClass::Other => {},
        }
    }

    /// The cached keycode for `keysym`, if any; a hit makes it the most recently used.
    pub fn lookup(&mut self, keysym: u64) -> (r: Option<u8>)
        ensures
            final(self).free() == old(self).free(),
            final(self).cached() == old(self).cached(),
            match r {
                Some(kc) => {
                    &&& old(self).cached().contains_key(keysym)
                    &&& kc == old(self).cached()[keysym]
                    &&& final(self).lru() == touched(old(self).lru(), keysym)
                },
                None => {
                    &&& !old(self).cached().contains_key(keysym)
                    &&& final(self).lru() == old(self).lru()
                },
            },
    {
        let kc = match self.cache.get(&keysym) {
            Some(k) => *k,
            None => {
                return None;
            },
        };
        let mut p: usize = 0;
        while p < self.lru_order.len()
            invariant
                p <= self.lru_order@.len(),
                self.lru_order@ == old(self).lru_order@,
                self.cache@ == old(self).cache@,
                self.free_keycodes@ == old(self).free_keycodes@,
                self.cache@.contains_key(keysym),
                kc == self.cache@[keysym],
                forall|j: int| 0 <= j < p ==> self.lru_order@[j] != keysym,
            decreases self.lru_order@.len() - p,
        {
            if self.lru_order[p] == keysym {
                proof {
                    self.lru_order@.index_of_first_ensures(keysym);
                    assert(self.lru_order@.contains(keysym));
                    let q = self.lru_order@.index_of_first(keysym).unwrap();
                    assert(q == p as int);
                }
                self.lru_order.remove(p);
                self.lru_order.push(keysym);
                return Some(kc);
            }
            p += 1;
        }
        proof {
            self.lru_order@.index_of_first_ensures(keysym);
        }
        Some(kc)
    }

    /// Picks the keycode to bind `keysym` to: the last free keycode (kept in the pool
    /// until [`commit`](Self::commit)), or else the least recently used cached keysym's
    /// keycode, whose cache entry is evicted now. The flag says whether a free keycode
    /// was picked.
    pub fn take_slot(&mut self, keysym: u64) -> (r: Result<(u8, bool), SlotError>)
        ensures
            final(self).free() == old(self).free(),
            old(self).free().len() > 0 ==> {
                &&& r == Ok::<(u8, bool), SlotError>((old(self).free().last(), true))
                &&& final(self).cached() == old(self).cached()
                &&& final(self).lru() == old(self).lru()
            },
            old(self).free().len() == 0 && old(self).lru().len() == 0 ==> {
                &&& r == Err::<(u8, bool), SlotError>(SlotError::NoKeycodes { keysym })
                &&& final(self).cached() == old(self).cached()
                &&& final(self).lru() == old(self).lru()
            },
            old(self).free().len() == 0 && old(self).lru().len() > 0 ==> {
                let ev = old(self).lru()[0];
                &&& final(self).lru() == old(self).lru().drop_first()
                &&& final(self).cached() == old(self).cached().remove(ev)
                &&& r == (if old(self).cached().contains_key(ev) {
                    Ok::<(u8, bool), SlotError>((old(self).cached()[ev], false))
                } else {
                    Err::<(u8, bool), SlotError>(SlotError::EvictionMiss { evicted: ev })
                })
            },
    {
        let n = self.free_keycodes.len();
        if n > 0 {
            return Ok((self.free_keycodes[n - 1], true));
        }
        if self.lru_order.len() == 0 {
            return Err(SlotError::NoKeycodes { keysym });
        }
        let evicted = self.lru_order.remove(0);
        assert(self.lru_order@ =~= old(self).lru_order@.drop_first());
        match self.cache.remove(&evicted) {
            Some(kc) => Ok((kc, false)),
            None => Err(SlotError::EvictionMiss { evicted }),
        }
    }

    /// Records that `keysym` is now bound to `kc` (most recently used); when the keycode
    /// came from the free pool it leaves the pool.
    pub fn commit(&mut self, keysym: u64, kc: u8, consumed_free: bool)
        ensures
            final(self).cached() == old(self).cached().insert(keysym, kc),
            final(self).lru() == old(self).lru().push(keysym),
            final(self).free() == (if consumed_free && old(self).free().len() > 0 {
                old(self).free().drop_last()
            } else {
                old(self).free()
            }),
    {
        self.cache.insert(keysym, kc);
        self.lru_order.push(keysym);
        if consumed_free {
            let _ = self.free_keycodes.pop();
            proof {
                if old(self).free_keycodes@.len() > 0 {
                    assert(self.free_keycodes@ =~= old(self).free_keycodes@.drop_last());
                }
            }
        }
    }

    /// Number of free keycodes and of cached keysyms.
    pub fn counts(&self) -> (r: (usize, usize))
        ensures
            r.0 == self.free().len(),
            r.1 == self.lru().len(),
    {
        (self.free_keycodes.len(), self.lru_order.len())
    }
}

/// A character typed once is bound for good: after its keysym is committed to a
/// keycode, looking the keysym up finds that keycode (no second remap), and using a
/// cached keysym keeps every cached keysym in the LRU order while making it the most
/// recently used.
pub proof fn law_committed_keysym_is_found(cached: Map<u64, u8>, lru: Seq<u64>, k: u64, kc: u8)
    ensures
        cached.insert(k, kc).contains_key(k),
        cached.insert(k, kc)[k] == kc,
        lru.push(k).contains(k),
        lru.contains(k) ==> touched(lru, k).len() == lru.len() && touched(lru, k).last() == k,
        forall|x: u64| #[trigger] touched(lru, k).contains(x) <==> lru.contains(x),
{
    assert(lru.push(k)[lru.len() as int] == k);
    lru.index_of_first_ensures(k);
    match lru.index_of_first(k) {
        Some(p) => {
            let t = touched(lru, k);
            assert forall|x: u64| #[trigger] t.contains(x) <==> lru.contains(x) by {
                if t.contains(x) {
                    let j = choose|j: int| 0 <= j < t.len() && t[j] == x;
                    if j == t.len() - 1 {
                        assert(lru[p] == x);
                    } else if j < p {
                        assert(lru[j] == x);
                    } else {
                        assert(lru[j + 1] == x);
                    }
                }
                if lru.contains(x) {
                    let j = choose|j: int| 0 <= j < lru.len() && lru[j] == x;
                    if j == p {
                        assert(t[t.len() - 1] == x);
                    } else if j < p {
                        assert(t[j] == x);
                    } else {
                        assert(t[j - 1] == x);
                    }
                }
            }
        },
        None => {},
    }
}

/// The mapping row that binds `keysym` to a keycode with `width` levels: the keysym at
/// the first level, `NoSymbol` at every other (so Shift and friends cannot yield a
/// different glyph).
pub fn keysym_row(keysym: u64, width: usize) -> (r: Vec<u64>)
    requires
        width > 0,
    ensures
        r@.len() == width,
        r@[0] == keysym,
        forall|i: int| 1 <= i < width ==> r@[i] == NO_SYMBOL,
{
    let mut r: Vec<u64> = Vec::new();
    r.push(keysym);
    let mut i: usize = 1;
    while i < width
        invariant
            1 <= i <= width,
            r@.len() == i,
            r@[0] == keysym,
            forall|k: int| 1 <= k < i ==> r@[k] == NO_SYMBOL,
        decreases width - i,
    {
        r.push(NO_SYMBOL);
        i += 1;
    }
    r
}

/// The keycodes the batch typist examines for scratch use, high to low: every keycode
/// above `min_kc` (the lowest keycode, which XTest silently swallows) up to `max_kc`,
/// except the `exclude`d ones (the grabbed keys).
pub fn scan_order(min_kc: u8, max_kc: u8, exclude: &Vec<u8>) -> (r: Vec<u8>)
    ensures
        forall|i: int, j: int| 0 <= i < j < r@.len() ==> r@[i] > r@[j],
        forall|i: int| 0 <= i < r@.len() ==> min_kc < #[trigger] r@[i] <= max_kc && !exclude@.contains(r@[i]),
        forall|k: u8| min_kc < k <= max_kc && !exclude@.contains(k) ==> #[trigger] r@.contains(k),
{
    let mut r: Vec<u8> = Vec::new();
    if max_kc <= min_kc {
        return r;
    }
    let mut kc: u8 = max_kc;
    while kc > min_kc
        invariant
            min_kc <= kc <= max_kc,
            forall|i: int, j: int| 0 <= i < j < r@.len() ==> r@[i] > r@[j],
            forall|i: int| 0 <= i < r@.len() ==> kc < #[trigger] r@[i] <= max_kc && !exclude@.contains(r@[i]),
            forall|k: u8| kc < k <= max_kc && !exclude@.contains(k) ==> #[trigger] r@.contains(k),
        decreases kc,
    {
        let mut excluded = false;
        let mut e: usize = 0;
        while e < exclude.len()
            invariant
                e <= exclude@.len(),
                excluded == (exists|x: int| 0 <= x < e && exclude@[x] == kc),
            decreases exclude@.len() - e,
        {
            if exclude[e] == kc {
                excluded = true;
            }
            e += 1;
        }
        let ghost before = r@;
        if !excluded {
            r.push(kc);
            proof {
                assert forall|k: u8| kc - 1 < k <= max_kc && !exclude@.contains(k) implies #[trigger] r@.contains(k) by {
                    if k == kc {
                        assert(r@[r@.len() - 1] == kc);
                    } else {
                        assert(before.contains(k));
                        let x = choose|x: int| 0 <= x < before.len() && before[x] == k;
                        assert(r@[x] == k);
                    }
                }
            }
        } else {
            proof {
                assert(exclude@.contains(kc));
            }
        }
        kc -= 1;
    }
    r
}

/// Scratch keycodes for the batch typist, from keycodes scanned high to low (each with
/// its class): the free ones first, then the reclaimable ones, each in scan order.
pub open spec fn scratch_candidates(scanned: Seq<(u8, KeycodeClass)>) -> Seq<u8> {
    scanned.filter(|e: (u8, KeycodeClass)| e.1 == KeycodeClass::Free).map_values(|e: (u8, KeycodeClass)| e.0)
        + scanned.filter(|e: (u8, KeycodeClass)| e.1 is Reclaim).map_values(|e: (u8, KeycodeClass)| e.0)
}

/// Picks `needed` scratch keycodes (see [`scratch_candidates`]); when fewer are
/// available, reports how many there are.
pub fn pick_scratch(scanned: &Vec<(u8, KeycodeClass)>, needed: usize) -> (r: Result<Vec<u8>, usize>)
    ensures
        match r {
            Ok(v) => scratch_candidates(scanned@).len() >= needed
                && v@ == scratch_candidates(scanned@).take(needed as int),
            Err(n) => scratch_candidates(scanned@).len() < needed && n == scratch_candidates(scanned@).len(),
        },
{
    let ghost s = scanned@;
    let ghost is_free = |e: (u8, KeycodeClass)| e.1 == KeycodeClass::Free;
    let ghost is_reclaim = |e: (u8, KeycodeClass)| e.1 is Reclaim;
    let ghost key = |e: (u8, KeycodeClass)| e.0;
    let mut free: Vec<u8> = Vec::new();
    let mut reclaim: Vec<u8> = Vec::new();
    let mut i: usize = 0;
    assert(s.take(0).filter(is_free) =~= Seq::<(u8, KeycodeClass)>::empty());
    assert(s.take(0).filter(is_reclaim) =~= Seq::<(u8, KeycodeClass)>::empty());
    while i < scanned.len()
        invariant
            s == scanned@,
            is_free == (|e: (u8, KeycodeClass)| e.1 == KeycodeClass::Free),
            is_reclaim == (|e: (u8, KeycodeClass)| e.1 is Reclaim),
            key == (|e: (u8, KeycodeClass)| e.0),
            i <= s.len(),
            free@ == s.take(i as int).filter(is_free).map_values(key),
            reclaim@ == s.take(i as int).filter(is_reclaim).map_values(key),
        decreases s.len() - i,
    {
        let entry = scanned[i];
        let kc = entry.0;
        let class = entry.1;
        let ghost e = s[i as int];
        assert(entry == e);
        proof {
            assert(s.take(i + 1).drop_last() =~= s.take(i as int));
            assert(s.take(i + 1).last() == e);
            reveal_with_fuel(Seq::filter, 1);
            assert(s.take(i + 1).filter(is_free) == (if is_free(e) {
                s.take(i as int).filter(is_free).push(e)
            } else {
                s.take(i as int).filter(is_free)
            }));
            assert(s.take(i + 1).filter(is_reclaim) == (if is_reclaim(e) {
                s.take(i as int).filter(is_reclaim).push(e)
            } else {
                s.take(i as int).filter(is_reclaim)
            }));
        }
        match class {
            KeycodeClass::Free => {
                assert(is_free(e) && !is_reclaim(e));
                free.push(kc);
            },
            KeycodeClass::Reclaim(_) => {
                assert(!is_free(e) && is_reclaim(e));
                reclaim.push(kc);
            },
            KeycodeClass::Other => {
                assert(!is_free(e) && !is_reclaim(e));
            },
        }
        proof {
            assert(key(e) == kc);
            assert(free@ =~= s.take(i + 1).filter(is_free).map_values(key));
            assert(reclaim@ =~= s.take(i + 1).filter(is_reclaim).map_values(key));
        }
        i += 1;
    }
    assert(s.take(s.len() as int) =~= s);
    let ghost all = free@ + reclaim@;
    assert(all =~= scratch_candidates(s));
    if free.len() < needed && reclaim.len() < needed - free.len() {
        return Err(free.len() + reclaim.len());
    }
    let mut out: Vec<u8> = Vec::new();
    let mut j: usize = 0;
    while j < needed
        invariant
            all == free@ + reclaim@,
            needed <= all.len(),
            j <= needed,
            out@ == all.take(j as int),
        decreases needed - j,
    {
        let kc = if j < free.len() { free[j] } else { reclaim[j - free.len()] };
        out.push(kc);
        j += 1;
        assert(out@ =~= all.take(j as int));
    }
    Ok(out)
}

/// The scratch assignment: the `i`-th logical key gets the `i`-th scratch keycode (as
/// far as both go); a repeated key keeps its last keycode.
pub open spec fn zipped_index(keys: Seq<Seq<char>>, scratch: Seq<u8>) -> Map<Seq<char>, u8>
    decreases keys.len(),
{
    if keys.len() == 0 {
        Map::empty()
    } else {
        let prev = zipped_index(keys.drop_last(), scratch);
        let i = keys.len() - 1;
        if i < scratch.len() {
            prev.insert(keys[i], scratch[i])
        } else {
            prev
        }
    }
}

/// Row `row` of a keysym table `w` levels wide, rewritten: `keysym` at the first level
/// and `NoSymbol` at the higher ones (so Shift and the like cannot yield another glyph).
pub open spec fn row_written(syms: Seq<u64>, row: int, w: int, keysym: u64) -> Seq<u64> {
    Seq::new(syms.len(), |k: int| if row * w <= k < row * w + w {
        if k == row * w { keysym } else { NO_SYMBOL }
    } else {
        syms[k]
    })
}

/// The batch typist's assignment: logical key name -> its dedicated scratch keycode.
pub struct ScratchIndex {
    index: KeyMap<u8>,
}

impl ScratchIndex {
    /// Logical key name -> scratch keycode.
    pub closed spec fn view(&self) -> Map<Seq<char>, u8> {
        self.index.view()
    }

    /// The logical keys, in assignment order.
    pub closed spec fn keys(&self) -> Seq<Seq<char>> {
        self.index.key_seq()
    }

    /// The keysym table for the keycodes `min ..` (`w` levels each) after every scratch
    /// row of the first `n` assigned keys is rewritten for `glyphs`: the glyph's keysym
    /// for a bound key, `NoSymbol` for an unbound one.
    pub open spec fn rows_written(&self, syms: Seq<u64>, glyphs: Map<Seq<char>, char>, min: int, w: int, n: int) -> Seq<u64>
        decreases n,
    {
        if n <= 0 {
            syms
        } else {
            let k = self.keys()[n - 1];
            let prev = self.rows_written(syms, glyphs, min, w, n - 1);
            row_written(
                prev,
                self.view()[k] - min,
                w,
                if glyphs.contains_key(k) { keysym_of(glyphs[k]) } else { NO_SYMBOL },
            )
        }
    }

    /// Assigns each logical key a scratch keycode (see [`zipped_index`]).
    pub fn assign(logical_keys: &Vec<String>, scratch: &Vec<u8>) -> (r: Self)
        ensures
            r.view() == zipped_index(crate::layers::strs(logical_keys@), scratch@),
    {
        let ghost ks = crate::layers::strs(logical_keys@);
        let mut index: KeyMap<u8> = KeyMap::new();
        let mut i: usize = 0;
        assert(index.view() =~= zipped_index(ks.take(0), scratch@));
        while i < logical_keys.len()
            invariant
                ks == crate::layers::strs(logical_keys@),
                i <= logical_keys@.len(),
                index.view() == zipped_index(ks.take(i as int), scratch@),
            decreases logical_keys@.len() - i,
        {
            assert(ks.take(i + 1).drop_last() =~= ks.take(i as int));
            assert(ks.take(i + 1)[i as int] == logical_keys@[i as int]@);
            if i < scratch.len() {
                index.insert(logical_keys[i].clone(), scratch[i]);
            }
            i += 1;
        }
        assert(ks.take(ks.len() as int) =~= ks);
        ScratchIndex { index }
    }

    /// The scratch keycode bound to `logical`, if it has one.
    pub fn keycode_of(&self, logical: &str) -> (r: Option<u8>)
        ensures
            r == (if self.view().contains_key(logical@) { Some(self.view()[logical@]) } else { None::<u8> }),
    {
        match self.index.get(logical) {
            Some(kc) => Some(*kc),
            None => None,
        }
    }

    /// The lowest and highest scratch keycodes, if any key is assigned.
    pub fn range(&self) -> (r: Option<(u8, u8)>)
        ensures
            match r {
                Some((lo, hi)) => {
                    &&& self.keys().len() > 0
                    &&& lo <= hi
                    &&& forall|i: int| 0 <= i < self.keys().len() ==> lo <= #[trigger] self.view()[self.keys()[i]] <= hi
                    &&& exists|i: int| 0 <= i < self.keys().len() && #[trigger] self.view()[self.keys()[i]] == lo
                    &&& exists|i: int| 0 <= i < self.keys().len() && #[trigger] self.view()[self.keys()[i]] == hi
                },
                None => self.keys().len() == 0,
            },
    {
        let n = self.index.len();
        if n == 0 {
            return None;
        }
        let mut lo = *self.index.value_at(0);
        let mut hi = lo;
        assert(self.view()[self.keys()[0]] == lo);
        let mut i: usize = 1;
        while i < n
            invariant
                n == self.keys().len(),
                1 <= i <= n,
                lo <= hi,
                forall|j: int| 0 <= j < i ==> lo <= #[trigger] self.view()[self.keys()[j]] <= hi,
                exists|j: int| 0 <= j < i && #[trigger] self.view()[self.keys()[j]] == lo,
                exists|j: int| 0 <= j < i && #[trigger] self.view()[self.keys()[j]] == hi,
            decreases n - i,
        {
            let v = *self.index.value_at(i);
            assert(self.view()[self.keys()[i as int]] == v);
            if v < lo {
                lo = v;
            }
            if v > hi {
                hi = v;
            }
            i += 1;
        }
        Some((lo, hi))
    }

    /// The keysym table for keycodes `min ..= min + existing.len() / width - 1`, as read
    /// from the server (`width` keysyms per keycode), with every scratch row rewritten
    /// for the layer `glyphs` in a single batch (see [`rows_written`](Self::rows_written)).
    /// Non-scratch keycodes in the range keep their keysyms exactly.
    pub fn layer_keysyms(&self, glyphs: &KeyMap<char>, min: u8, width: usize, existing: &Vec<u64>) -> (r: Vec<u64>)
        requires
            width > 0,
            forall|i: int| 0 <= i < self.keys().len() ==> {
                let kc = #[trigger] self.view()[self.keys()[i]];
                min <= kc && (kc - min + 1) * width <= existing@.len()
            },
        ensures
            r@ == self.rows_written(existing@, glyphs.view(), min as int, width as int, self.keys().len() as int),
    {
        let mut syms = existing.clone();
        assert(syms@ =~= existing@);
        let total: usize = existing.len();
        let n = self.index.len();
        let mut i: usize = 0;
        while i < n
            invariant
                n == self.keys().len(),
                width > 0,
                i <= n,
                total == existing@.len(),
                syms@.len() == existing@.len(),
                forall|j: int| 0 <= j < self.keys().len() ==> {
                    let kc = #[trigger] self.view()[self.keys()[j]];
                    min <= kc && (kc - min + 1) * width <= existing@.len()
                },
                syms@ == self.rows_written(existing@, glyphs.view(), min as int, width as int, i as int),
            decreases n - i,
        {
            let logical = self.index.key_at(i);
            let kc = *self.index.value_at(i);
            let keysym = match glyphs.get(logical.as_str()) {
                Some(ch) => unicode_to_keysym(*ch),
                None => NO_SYMBOL,
            };
            let ghost before = syms@;
            let ghost row = kc - min;
            assert(kc == self.view()[self.keys()[i as int]]);
            assert((kc - min + 1) * width <= existing@.len());
            assert(row * width + width <= existing@.len()) by (nonlinear_arith)
                requires
                    (row + 1) * width <= existing@.len(),
            ;
            assert(0 <= row * width) by (nonlinear_arith)
                requires
                    0 <= row,
                    width > 0,
            ;
            let r = (kc - min) as usize;
            assert(r == row);
            assert(r * width + width <= total);
            let base = r * width;
            syms.set(base, keysym);
            let mut level: usize = 1;
            while level < width
                invariant
                    width > 0,
                    1 <= level <= width,
                    base + width <= syms@.len(),
                    syms@.len() == before.len(),
                    syms@.len() == total,
                    forall|k: int| 0 <= k < syms@.len() ==> #[trigger] syms@[k] == (
                        if base <= k < base + level {
                            if k == base { keysym } else { NO_SYMBOL }
                        } else {
                            before[k]
                        }),
                decreases width - level,
            {
                syms.set(base + level, NO_SYMBOL);
                level += 1;
            }
            proof {
                assert(syms@ =~= row_written(before, row, width as int, keysym));
            }
            i += 1;
        }
        syms
    }
}

} // verus!
