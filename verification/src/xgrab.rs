//! Key-grab input decisions: the layer-ring state machine, when the keymap is remapped,
//! and how a typed glyph is delivered.
//!
//! The grab thread itself (XGrabKey, the X event loop, XTest injection) lives outside
//! the library; it feeds each grabbed key event to [`GrabState::on_key`] and performs
//! the step it returns.

use vstd::prelude::*;
use crate::layers::LayersConfig;
use crate::text::{chars_of, string_of, parse_u32};
use std::collections::HashMap;

verus! {

/// When the keymap remap for a newly-entered layer happens.
#[derive(Clone, Copy, PartialEq, Eq, Structural, Debug)]
pub enum RemapMode {
    /// Remap during the idle gap after the knob settles; no indicator.
    Debounce,
    /// Remap on the first keypress in the layer, showing a "Please Wait" overlay.
    Lazy,
}

/// What a grabbed key does.
#[derive(Debug, PartialEq, Eq)]
pub enum Action {
    NavPrev,
    NavNext,
    /// Type the glyph bound to this logical key in the active layer.
    Type(String),
}

impl Clone for Action {
    fn clone(&self) -> (r: Self)
        ensures
            r == *self,
    {
        match self {
            Action::NavPrev => Action::NavPrev,
            Action::NavNext => Action::NavNext,
            Action::Type(l) => Action::Type(l.clone()),
        }
    }
}

/// The index after `i` on a ring of `n` layers.
pub open spec fn next_index(i: int, n: int) -> int {
    (i + 1) % n
}

/// The index before `i` on a ring of `n` layers.
pub open spec fn prev_index(i: int, n: int) -> int {
    (i + n - 1) % n
}

/// What a grabbed key event is, as far as the layer ring cares.
#[derive(Clone, Copy, Debug, PartialEq, Eq, Structural)]
pub enum KeyRole {
    Prev,
    Next,
    Type,
    Other,
}

/// The role of a key bound to `action` (or not grabbed at all).
pub open spec fn role_of(action: Option<&Action>) -> KeyRole {
    match action {
        Some(Action::NavPrev) => KeyRole::Prev,
        Some(Action::NavNext) => KeyRole::Next,
        Some(Action::Type(_)) => KeyRole::Type,
        None => KeyRole::Other,
    }
}

/// The layer ring as the grab loop sees it.
pub struct RingModel {
    pub len: int,
    pub index: int,
    pub remap_due: bool,
}

/// The ring after one key event: navigation acts on press and marks a remap as due;
/// typing acts on release and settles any due remap; everything else changes nothing.
pub open spec fn ring_after(m: RingModel, role: KeyRole, press: bool) -> RingModel {
    match role {
        KeyRole::Prev => if press {
            RingModel { len: m.len, index: prev_index(m.index, m.len), remap_due: true }
        } else {
            m
        },
        KeyRole::Next => if press {
            RingModel { len: m.len, index: next_index(m.index, m.len), remap_due: true }
        } else {
            m
        },
        KeyRole::Type => if press {
            m
        } else {
            RingModel { len: m.len, index: m.index, remap_due: false }
        },
        KeyRole::Other => m,
    }
}

/// Whether a key event remaps the keymap before it types.
pub open spec fn remaps_on(m: RingModel, role: KeyRole, press: bool) -> bool {
    role == KeyRole::Type && !press && m.remap_due
}

/// Whether a key event that remaps raises the "Please Wait" indicator around the remap:
/// only in lazy mode.
pub open spec fn shows_wait(m: RingModel, role: KeyRole, press: bool, mode: RemapMode) -> bool {
    remaps_on(m, role, press) && mode == RemapMode::Lazy
}

/// How long the grab loop waits for the next X event: `settle_ms` while a remap is due
/// in debounce mode, else indefinitely (-1).
pub open spec fn wait_timeout(m: RingModel, mode: RemapMode, settle_ms: i32) -> i32 {
    if m.remap_due && mode == RemapMode::Debounce { settle_ms } else { -1i32 }
}

/// Whether the end of a wait remaps: it timed out (no X input) with a remap due.
pub open spec fn idle_remaps(m: RingModel, timed_out: bool) -> bool {
    timed_out && m.remap_due
}

/// The ring after a wait ends; a remap done in the idle gap settles the due remap.
pub open spec fn after_idle(m: RingModel, timed_out: bool) -> RingModel {
    RingModel { len: m.len, index: m.index, remap_due: m.remap_due && !timed_out }
}

/// What the grab loop does for one key event.
#[derive(Clone, Debug, PartialEq, Eq)]
pub enum GrabStep {
    /// Not a grabbed key, or the wrong edge for its action.
    Ignore,
    /// The ring moved; publish layer `layer` (an index into the ring). No remap.
    Navigated { layer: usize },
    /// Type `logical` in layer `layer`; first remap the keymap for that layer when
    /// `remap` holds, raising the "Please Wait" indicator around it when `show_wait` holds.
    Type { layer: usize, logical: String, remap: bool, show_wait: bool },
}

/// The grab thread's layer-ring state: the active layer and whether the keymap still
/// has to be remapped for it.
pub struct GrabState {
    ring_len: usize,
    idx: usize,
    pending_remap: bool,
}

impl GrabState {
    #[verifier::type_invariant]
    spec fn ring_ok(&self) -> bool {
        self.idx < self.ring_len
    }

    /// Number of layers on the ring.
    pub closed spec fn len(&self) -> nat {
        self.ring_len as nat
    }

    /// The active layer (an index into the ring).
    pub closed spec fn index(&self) -> nat {
        self.idx as nat
    }

    /// Whether the keymap still has to be remapped for the active layer.
    pub closed spec fn remap_due(&self) -> bool {
        self.pending_remap
    }

    /// The ring as a model.
    pub open spec fn model(&self) -> RingModel {
        RingModel { len: self.len() as int, index: self.index() as int, remap_due: self.remap_due() }
    }

    /// The ring starts at its first layer with a remap due.
    pub fn new(ring_len: usize) -> (r: Self)
        requires
            ring_len > 0,
        ensures
            r.len() == ring_len,
            r.index() == 0,
            r.remap_due(),
    {
        GrabState { ring_len, idx: 0, pending_remap: true }
    }

    /// The active layer.
    pub fn active(&self) -> (r: usize)
        ensures
            r == self.index(),
            r < self.len(),
    {
        proof {
            use_type_invariant(self);
        }
        self.idx
    }

    /// One grabbed key event: `action` is what the key is bound to (None for a key that
    /// is not grabbed), `press` tells a KeyPress from a KeyRelease. Navigation acts on
    /// press and only marks a remap as due; typing acts on release (the active grab
    /// would swallow an injection on press) and remaps first when one is due, in lazy
    /// mode behind the "Please Wait" indicator.
    pub fn on_key(&mut self, action: Option<&Action>, press: bool, mode: RemapMode) -> (r: GrabStep)
        ensures
            final(self).len() == old(self).len(),
            final(self).index() < final(self).len(),
            final(self).model() == ring_after(old(self).model(), role_of(action), press),
            (r matches GrabStep::Type { remap, .. } && remap) == remaps_on(old(self).model(), role_of(action), press),
            (r matches GrabStep::Type { show_wait, .. } && show_wait) == shows_wait(old(self).model(), role_of(action), press, mode),
            match (action, press) {
                (Some(Action::NavPrev), true) => {
                    &&& final(self).index() == prev_index(old(self).index() as int, old(self).len() as int)
                    &&& final(self).remap_due()
                    &&& r == GrabStep::Navigated { layer: final(self).index() as usize }
                },
                (Some(Action::NavNext), true) => {
                    &&& final(self).index() == next_index(old(self).index() as int, old(self).len() as int)
                    &&& final(self).remap_due()
                    &&& r == GrabStep::Navigated { layer: final(self).index() as usize }
                },
                (Some(Action::Type(logical)), false) => {
                    &&& final(self).index() == old(self).index()
                    &&& !final(self).remap_due()
                    &&& r matches GrabStep::Type { layer, logical: l, remap, show_wait }
                    &&& layer == old(self).index()
                    &&& l@ == logical@
                    &&& remap == old(self).remap_due()
                    &&& show_wait == (old(self).remap_due() && mode == RemapMode::Lazy)
                },
                _ => {
                    &&& final(self).index() == old(self).index()
                    &&& final(self).remap_due() == old(self).remap_due()
                    &&& r == GrabStep::Ignore
                },
            },
    {
        proof {
            use_type_invariant(&*self);
        }
        let n = self.ring_len;
        let cur = self.idx;
        match action {
            Some(Action::NavPrev) => {
                if !press {
                    return GrabStep::Ignore;
                }
                let i = if cur == 0 { n - 1 } else { cur - 1 };
                assert(i == prev_index(cur as int, n as int)) by (nonlinear_arith)
                    requires
                        cur < n,
                        i == (if cur == 0 { n - 1 } else { cur - 1 }),
                ;
                self.idx = i;
                self.pending_remap = true;
                GrabStep::Navigated { layer: i }
            },
            Some(Action::NavNext) => {
                if !press {
                    return GrabStep::Ignore;
                }
                let i = if cur + 1 == n { 0 } else { cur + 1 };
                assert(i == next_index(cur as int, n as int)) by (nonlinear_arith)
                    requires
                        cur < n,
                        i == (if cur + 1 == n { 0 } else { cur + 1 }),
                ;
                self.idx = i;
                self.pending_remap = true;
                GrabStep::Navigated { layer: i }
            },
            Some(Action::Type(logical)) => {
                if press {
                    return GrabStep::Ignore;
                }
                let remap = self.pending_remap;
                self.pending_remap = false;
                GrabStep::Type {
                    layer: cur,
                    logical: logical.clone(),
                    remap,
                    show_wait: remap && mode == RemapMode::Lazy,
                }
            },
            None => GrabStep::Ignore,
        }
    }

    /// How long the loop waits for the next X event: in debounce mode with a remap due,
    /// only `settle_ms` (so the remap can run in the idle gap once the knob stops);
    /// otherwise indefinitely (-1).
    pub fn poll_timeout(&self, mode: RemapMode, settle_ms: i32) -> (r: i32)
        ensures
            r == (if self.remap_due() && mode == RemapMode::Debounce { settle_ms } else { -1i32 }),
            r == wait_timeout(self.model(), mode, settle_ms),
    {
        if self.pending_remap && mode == RemapMode::Debounce {
            settle_ms
        } else {
            -1
        }
    }

    /// The wait ended; `timed_out` says it ended with no event. Returns whether to remap
    /// for the active layer now (the knob settled with a remap due).
    pub fn on_idle(&mut self, timed_out: bool) -> (r: bool)
        ensures
            r == (timed_out && old(self).remap_due()),
            r == idle_remaps(old(self).model(), timed_out),
            final(self).model() == after_idle(old(self).model(), timed_out),
            final(self).len() == old(self).len(),
            final(self).index() == old(self).index(),
            final(self).remap_due() == (old(self).remap_due() && !timed_out),
    {
        proof {
            use_type_invariant(&*self);
        }
        if timed_out && self.pending_remap {
            self.pending_remap = false;
            true
        } else {
            false
        }
    }
}

/// Whether a glyph lies outside the Basic Multilingual Plane (U+10000 and up).
pub open spec fn is_non_bmp(c: char) -> bool {
    (c as u32) > 0xFFFF
}

/// How a typed glyph reaches the focused window.
#[derive(Clone, Copy, Debug, PartialEq, Eq, Structural)]
pub enum Delivery {
    /// Paste the glyph through the clipboard (non-BMP glyph into a Java/AWT window).
    Clipboard(char),
    /// Fire the key's scratch keycode (the keysym path).
    Press,
}

/// The delivery the grab loop chooses for a bound glyph (or an unbound key).
pub open spec fn delivery_for(glyph: Option<char>, awt_focused: bool) -> Delivery {
    match glyph {
        Some(c) => if is_non_bmp(c) && awt_focused { Delivery::Clipboard(c) } else { Delivery::Press },
        None => Delivery::Press,
    }
}

/// Whether the focused window has to be classified at all: only a non-BMP glyph can
/// take the clipboard path.
pub fn needs_focus_check(glyph: Option<char>) -> (r: bool)
    ensures
        r == (glyph matches Some(c) && is_non_bmp(c)),
{
    match glyph {
        Some(c) => (c as u32) > 0xFFFF,
        None => false,
    }
}

/// Route non-BMP glyphs through the clipboard ONLY when an AWT window is focused (its
/// keysym path truncates them); everything else takes the keysym path.
pub fn route(glyph: Option<char>, awt_focused: bool) -> (r: Delivery)
    ensures
        r == delivery_for(glyph, awt_focused),
{
    match glyph {
        Some(c) => if (c as u32) > 0xFFFF && awt_focused { Delivery::Clipboard(c) } else { Delivery::Press },
        None => Delivery::Press,
    }
}

/// Entry `e` registers physical key `k` to type logical key `l`.
pub open spec fn types_key(e: (String, Action), k: Seq<char>, l: Seq<char>) -> bool {
    e.0@ == k && (e.1 matches Action::Type(x) && x@ == l)
}

/// The keys the grab thread registers, in order: the two raw navigation keys, then
/// every aliased typeable key with its logical name.
pub fn grab_actions(cfg: &LayersConfig) -> (r: Vec<(String, Action)>)
    ensures
        r@.len() == 2 + cfg.phys_to_logical.key_seq().len(),
        r@[0].0@ == cfg@.nav_prev && r@[0].1 is NavPrev,
        r@[1].0@ == cfg@.nav_next && r@[1].1 is NavNext,
        forall|i: int| 0 <= i < cfg.phys_to_logical.key_seq().len() ==> #[trigger] types_key(
            r@[i + 2],
            cfg.phys_to_logical.key_seq()[i],
            cfg@.phys_to_logical[cfg.phys_to_logical.key_seq()[i]],
        ),
{
    let mut out: Vec<(String, Action)> = Vec::new();
    out.push((cfg.nav_prev.clone(), Action::NavPrev));
    out.push((cfg.nav_next.clone(), Action::NavNext));
    let mut i: usize = 0;
    while i < cfg.phys_to_logical.len()
        invariant
            i <= cfg.phys_to_logical.key_seq().len(),
            out@.len() == 2 + i,
            out@[0].0@ == cfg@.nav_prev && out@[0].1 is NavPrev,
            out@[1].0@ == cfg@.nav_next && out@[1].1 is NavNext,
            forall|j: int| 0 <= j < i ==> #[trigger] types_key(
                out@[j + 2],
                cfg.phys_to_logical.key_seq()[j],
                cfg@.phys_to_logical[cfg.phys_to_logical.key_seq()[j]],
            ),
        decreases cfg.phys_to_logical.key_seq().len() - i,
    {
        let fkey = cfg.phys_to_logical.key_at(i);
        let logical = cfg.phys_to_logical.value_at(i);
        let ghost k = cfg.phys_to_logical.key_seq()[i as int];
        assert(cfg@.phys_to_logical[k] == logical@);
        let ghost before = out@;
        out.push((fkey.clone(), Action::Type(logical.clone())));
        assert(types_key(out@[i + 2], k, cfg@.phys_to_logical[k]));
        assert forall|j: int| 0 <= j < i + 1 implies #[trigger] types_key(
            out@[j + 2],
            cfg.phys_to_logical.key_seq()[j],
            cfg@.phys_to_logical[cfg.phys_to_logical.key_seq()[j]],
        ) by {
            if j < i {
                assert(out@[j + 2] == before[j + 2]);
            }
        }
        i += 1;
    }
    out
}

/// Deterministic X keycode for a function key F13–F24 (either case of `F`), derived
/// from the Linux evdev keycodes (`KEY_F13` = 183 … `KEY_F24` = 194) plus the standard
/// XKB offset of 8 (→ 191 … 202).
pub open spec fn evdev_keycode_of(fkey: Seq<char>) -> Option<u8> {
    if fkey.len() > 0 && (fkey[0] == 'F' || fkey[0] == 'f') {
        match crate::text::unsigned_literal(fkey.drop_first()) {
            Some(n) => if 13 <= n <= 24 { Some((183 + (n - 13) + 8) as u8) } else { None },
            None => None,
        }
    } else {
        None
    }
}

/// Deterministic X keycode for a function key F13–F24 (see [`evdev_keycode_of`]); the
/// grab thread's fallback when the keysym is absent from the X keymap.
pub fn evdev_fkey_keycode(fkey: &str) -> (r: Option<u8>)
    ensures
        r == evdev_keycode_of(fkey@),
{
    let chars = chars_of(fkey);
    if chars.len() == 0 || !(chars[0] == 'F' || chars[0] == 'f') {
        return None;
    }
    let digits = string_of(&chars, 1, chars.len());
    assert(digits@ =~= fkey@.drop_first());
    assert(chars@[0] == fkey@[0]);
    match parse_u32(digits.as_str()) {
        Some(n) => {
            assert(crate::text::unsigned_literal(fkey@.drop_first()) == Some(n as int));
            if 13 <= n && n <= 24 {
                let kc: u8 = (183 + (n - 13) + 8) as u8;
                assert(kc == (183 + (n as int - 13) + 8) as u8);
                Some(kc)
            } else {
                None
            }
        },
        None => None,
    }
}

/// The keycode to grab for function key `fkey`: the one the X keymap gives it
/// (`keymap_keycode`; 0 when its keysym is unknown or not in the keymap), else the
/// evdev-derived one (see [`evdev_keycode_of`]).
pub fn keycode_for(keymap_keycode: u8, fkey: &str) -> (r: Option<u8>)
    ensures
        r == (if keymap_keycode != 0 { Some(keymap_keycode) } else { evdev_keycode_of(fkey@) }),
{
    if keymap_keycode != 0 {
        Some(keymap_keycode)
    } else {
        evdev_fkey_keycode(fkey)
    }
}

/// The grab table after registering the first `n` entries with their keycodes: an
/// entry without a keycode is skipped, and a later entry for the same keycode replaces
/// an earlier one.
pub open spec fn grab_bindings(entries: Seq<(String, Action)>, keycodes: Seq<Option<u8>>, n: int) -> Map<u8, Action>
    decreases n,
{
    if n <= 0 {
        Map::empty()
    } else {
        let before = grab_bindings(entries, keycodes, n - 1);
        match keycodes[n - 1] {
            Some(kc) => before.insert(kc, entries[n - 1].1),
            None => before,
        }
    }
}

/// The keycode -> action table the grab thread grabs and dispatches on, from the
/// registered keys and the keycode each resolved to (see [`grab_bindings`]).
pub fn grab_table(entries: &Vec<(String, Action)>, keycodes: &Vec<Option<u8>>) -> (r: HashMap<u8, Action>)
    requires
        entries@.len() == keycodes@.len(),
    ensures
        r@ == grab_bindings(entries@, keycodes@, entries@.len() as int),
{
    broadcast use vstd::std_specs::hash::group_hash_axioms;
    let mut table: HashMap<u8, Action> = HashMap::new();
    let mut i: usize = 0;
    while i < entries.len()
        invariant
            entries@.len() == keycodes@.len(),
            i <= entries@.len(),
            table@ == grab_bindings(entries@, keycodes@, i as int),
        decreases entries@.len() - i,
    {
        match keycodes[i] {
            Some(kc) => {
                table.insert(kc, entries[i].1.clone());
            },
            None => {},
        }
        i += 1;
    }
    table
}

/// Stepping the ring forward and then back (or back and then forward) returns to the
/// same layer, and the ring wraps at both ends.
pub proof fn law_ring_steps_are_inverse(i: int, n: int)
    requires
        0 <= i < n,
    ensures
        0 <= next_index(i, n) < n,
        0 <= prev_index(i, n) < n,
        prev_index(next_index(i, n), n) == i,
        next_index(prev_index(i, n), n) == i,
        next_index(n - 1, n) == 0,
        prev_index(0, n) == n - 1,
{
    assert(0 <= next_index(i, n) < n) by (nonlinear_arith) requires 0 <= i < n;
    assert(0 <= prev_index(i, n) < n) by (nonlinear_arith) requires 0 <= i < n;
    assert(prev_index(next_index(i, n), n) == i) by (nonlinear_arith) requires 0 <= i < n;
    assert(next_index(prev_index(i, n), n) == i) by (nonlinear_arith) requires 0 <= i < n;
    assert(next_index(n - 1, n) == 0) by (nonlinear_arith) requires 0 < n;
    assert(prev_index(0, n) == n - 1) by (nonlinear_arith) requires 0 < n;
}

/// The ring after `k` presses of the same navigation key.
pub open spec fn presses(m: RingModel, role: KeyRole, k: nat) -> RingModel
    decreases k,
{
    if k == 0 {
        m
    } else {
        ring_after(presses(m, role, (k - 1) as nat), role, true)
    }
}

proof fn lemma_presses(m: RingModel, k: nat)
    requires
        m.len > 0,
        0 <= m.index < m.len,
    ensures
        presses(m, KeyRole::Next, k).index == (m.index + k) % m.len,
        presses(m, KeyRole::Prev, k).index == (m.index - k) % m.len,
        presses(m, KeyRole::Next, k).len == m.len,
        presses(m, KeyRole::Prev, k).len == m.len,
    decreases k,
{
    let n = m.len;
    let i = m.index;
    if k == 0 {
        vstd::arithmetic::div_mod::lemma_small_mod(i as nat, n as nat);
    } else {
        let k1 = (k - 1) as nat;
        lemma_presses(m, k1);
        vstd::arithmetic::div_mod::lemma_add_mod_noop_right(1, i + k1, n);
        vstd::arithmetic::div_mod::lemma_add_mod_noop_right(n - 1, i - k1, n);
        vstd::arithmetic::div_mod::lemma_mod_add_multiples_vanish(i - k1 - 1, n);
        assert(presses(m, KeyRole::Next, k).index == next_index(presses(m, KeyRole::Next, k1).index, n));
        assert(presses(m, KeyRole::Prev, k).index == prev_index(presses(m, KeyRole::Prev, k1).index, n));
    }
}

/// The knob walks the ring one layer per press and wraps: `k` presses of next move the
/// active layer `k` places forward, `k` presses of previous `k` places back (modulo the
/// ring length); so a full turn of `len` presses either way comes back to the layer it
/// started on, and one previous press from the first layer lands on the last one.
pub proof fn law_knob_walks_the_ring(m: RingModel, k: nat)
    requires
        m.len > 0,
        0 <= m.index < m.len,
    ensures
        presses(m, KeyRole::Next, k).index == (m.index + k) % m.len,
        presses(m, KeyRole::Prev, k).index == (m.index - k) % m.len,
        presses(m, KeyRole::Next, m.len as nat).index == m.index,
        presses(m, KeyRole::Prev, m.len as nat).index == m.index,
        m.index == 0 ==> presses(m, KeyRole::Prev, 1).index == m.len - 1,
        presses(m, KeyRole::Next, k).len == m.len,
        presses(m, KeyRole::Prev, k).len == m.len,
{
    let n = m.len;
    let i = m.index;
    lemma_presses(m, k);
    lemma_presses(m, n as nat);
    lemma_presses(m, 1);
    vstd::arithmetic::div_mod::lemma_mod_add_multiples_vanish(i, n);
    vstd::arithmetic::div_mod::lemma_mod_sub_multiples_vanish(i, n);
    vstd::arithmetic::div_mod::lemma_small_mod(i as nat, n as nat);
    if i == 0 {
        vstd::arithmetic::div_mod::lemma_mod_add_multiples_vanish(-1, n);
        vstd::arithmetic::div_mod::lemma_small_mod((n - 1) as nat, n as nat);
    }
}

/// The keymap is remapped per layer change, never per keypress and never on
/// navigation: navigation never remaps; after a typing release no further typing
/// release remaps until the ring moves again; and after the ring moves, the next
/// typing release does remap.
pub proof fn law_remap_once_per_layer_change(m: RingModel, press: bool)
    ensures
        !remaps_on(m, KeyRole::Prev, press),
        !remaps_on(m, KeyRole::Next, press),
        !remaps_on(ring_after(m, KeyRole::Type, false), KeyRole::Type, false),
        remaps_on(ring_after(m, KeyRole::Next, true), KeyRole::Type, false),
        remaps_on(ring_after(m, KeyRole::Prev, true), KeyRole::Type, false),
        ring_after(m, KeyRole::Type, false).index == m.index,
{
}

/// The keymap is remapped exactly once after entering a layer, before anything is
/// typed in it. Entering a layer (a navigation press either way) marks the remap as
/// due and never remaps itself; key presses of typing keys and keys that are not
/// grabbed neither remap nor settle it. In lazy mode the loop waits without a timeout
/// and the first typing release remaps, behind the "Please Wait" indicator. In
/// debounce mode the loop waits `settle_ms`: if that passes without input the idle gap
/// remaps, and the next typing release does not; if a typing release comes first it
/// remaps (without the indicator) and the idle gap then does not. After the remap no
/// typing release remaps until the ring moves again.
pub proof fn law_remap_timing(m: RingModel, nav: KeyRole, mode: RemapMode, settle_ms: i32, press: bool)
    requires
        nav == KeyRole::Next || nav == KeyRole::Prev,
    ensures
        ({
            let e = ring_after(m, nav, true);
            let typed = ring_after(e, KeyRole::Type, false);
            let idled = after_idle(e, true);
            &&& e.remap_due
            &&& !remaps_on(m, nav, press)
            &&& !remaps_on(e, KeyRole::Type, true) && ring_after(e, KeyRole::Type, true) == e
            &&& !remaps_on(e, KeyRole::Other, press) && ring_after(e, KeyRole::Other, press) == e
            &&& remaps_on(e, KeyRole::Type, false)
            &&& !remaps_on(typed, KeyRole::Type, false)
            &&& !idle_remaps(typed, true)
            &&& (mode == RemapMode::Lazy ==> {
                &&& wait_timeout(e, mode, settle_ms) == -1
                &&& shows_wait(e, KeyRole::Type, false, mode)
            })
            &&& (mode == RemapMode::Debounce ==> {
                &&& wait_timeout(e, mode, settle_ms) == settle_ms
                &&& !idle_remaps(e, false) && after_idle(e, false) == e
                &&& idle_remaps(e, true)
                &&& !remaps_on(idled, KeyRole::Type, false)
                &&& wait_timeout(idled, mode, settle_ms) == -1
                &&& !shows_wait(e, KeyRole::Type, false, mode)
                &&& wait_timeout(typed, mode, settle_ms) == -1
            })
        }),
{
}

/// Only a non-BMP glyph ever takes the clipboard path, and only while a whitelisted
/// window has focus; unbound keys and BMP glyphs always take the keysym path.
pub proof fn law_clipboard_only_for_non_bmp_into_awt(glyph: Option<char>, awt_focused: bool)
    ensures
        delivery_for(glyph, awt_focused) matches Delivery::Clipboard(c) ==> glyph == Some(c)
            && is_non_bmp(c) && awt_focused,
        !awt_focused ==> delivery_for(glyph, awt_focused) == Delivery::Press,
{
}

} // verus!
