//! The clipboard owner's paste/restore protocol for glyphs that the keysym path cannot
//! deliver (non-BMP characters into Java/AWT windows).
//!
//! A paste saves the user's CLIPBOARD once (only while we do not already own it, so
//! consecutive pastes keep restoring the original prior content), claims ownership with
//! the glyph as payload and synthesizes Ctrl+V. The glyph is served until the
//! consumer's data request has been answered and a short grace has passed (or a
//! backstop fires when nobody asks); then the payload swaps back to the saved content,
//! which is served until someone else takes the selection.
//!
//! The owner thread (Xlib display, hidden window, event polling, XTest) lives outside
//! the library: it reports each event to [`ClipState`] and performs what comes back.
//! Times are milliseconds on a monotonic clock of the caller's choosing.

use vstd::prelude::*;
use std::sync::mpsc::Sender;

verus! {

/// Grace held after the paste's data request is answered before the restore.
pub const GRACE_MS: u64 = 250;

/// Backstop when the consumer never requests the data at all.
pub const HARD_CAP_MS: u64 = 1500;

/// What the owner thread is asked to do.
pub enum Cmd {
    /// Deliver these UTF-8 bytes by clipboard paste.
    Paste(Vec<u8>),
}

#[verifier::external_type_specification]
#[verifier::external_body]
#[verifier::reject_recursive_types(T)]
pub struct ExSender<T>(Sender<T>);

/// `Sender::send`: queues `cmd` for the owner thread. It fails only when the receiving
/// thread is gone, which nothing here can observe, so no outcome is promised.
#[verifier::external_body]
fn send_command(tx: &Sender<Cmd>, cmd: Cmd) -> (queued: bool)
{
    tx.send(cmd).is_ok()
}

/// The message that asks the owner thread to paste `text`: its UTF-8 bytes.
pub fn paste_command(text: &str) -> (c: Cmd)
    ensures
        c matches Cmd::Paste(bytes) && bytes@ == vstd::utf8::encode_utf8(text@),
{
    Cmd::Paste(text.as_bytes_vec())
}

/// Handle to the clipboard-owner thread; sending never blocks.
pub struct ClipboardServer {
    tx: Sender<Cmd>,
}

impl ClipboardServer {
    /// The channel end this handle sends on.
    pub closed spec fn sender(&self) -> Sender<Cmd> {
        self.tx
    }

    /// A handle that sends to the owner thread listening on the other end of `tx`.
    pub fn new(tx: Sender<Cmd>) -> (r: Self)
        ensures
            r.sender() == tx,
    {
        ClipboardServer { tx }
    }

    /// Queues `text` (see [`paste_command`]) for delivery via the clipboard. The owner
    /// thread does the claim, Ctrl+V, serving and restore; a vanished thread is ignored.
    pub fn paste(&self, text: &str) {
        let _ = send_command(&self.tx, paste_command(text));
    }
}

/// The byte contents of an optional buffer.
pub open spec fn opt_bytes(o: Option<Vec<u8>>) -> Option<Seq<u8>> {
    match o {
        Some(v) => Some(v@),
        None => None,
    }
}

/// The owner's state as a model.
pub struct ClipModel {
    /// What requestors are served (None: nothing, requests are refused).
    pub payload: Option<Seq<u8>>,
    /// The user's prior clipboard, restored once the pasted glyph is consumed.
    pub saved: Option<Seq<u8>>,
    /// Whether we own CLIPBOARD.
    pub owns: bool,
    /// When the paste in flight was claimed.
    pub deliver_start: Option<u64>,
    /// When the paste's data request was answered.
    pub data_served_at: Option<u64>,
}

/// Milliseconds from `since` to `now`, zero when the clock reads earlier.
pub open spec fn elapsed(since: u64, now: u64) -> int {
    if now >= since { now - since } else { 0 }
}

/// After a paste of `emoji`: `fetched` is the prior clipboard as read from its owner
/// (only consulted when we did not own CLIPBOARD already), `claimed` whether the
/// ownership claim succeeded, `now` the time of the claim.
pub open spec fn after_paste(m: ClipModel, emoji: Seq<u8>, fetched: Option<Seq<u8>>, claimed: bool, now: u64) -> ClipModel {
    let saved = if m.owns { m.saved } else { fetched };
    if claimed {
        ClipModel { payload: Some(emoji), saved, owns: true, deliver_start: Some(now), data_served_at: None }
    } else {
        ClipModel { payload: None, saved, ..m }
    }
}

/// After a SelectionRequest at `now`; `is_data` when it asked for content rather than
/// the list of targets.
pub open spec fn after_request(m: ClipModel, is_data: bool, now: u64) -> ClipModel {
    if m.deliver_start is Some && is_data {
        ClipModel { data_served_at: Some(now), ..m }
    } else {
        m
    }
}

/// After SelectionClear: someone else owns CLIPBOARD now; nothing is served or kept.
pub open spec fn after_clear(m: ClipModel) -> ClipModel {
    ClipModel { payload: None, saved: None, owns: false, deliver_start: None, data_served_at: None }
}

/// Whether the paste in flight is done at `now`: its data was served at least
/// [`GRACE_MS`] ago, or, with no data request, it was claimed at least [`HARD_CAP_MS`] ago.
pub open spec fn restore_due(m: ClipModel, now: u64) -> bool {
    match m.deliver_start {
        None => false,
        Some(start) => match m.data_served_at {
            Some(t) => elapsed(t, now) >= GRACE_MS,
            None => elapsed(start, now) >= HARD_CAP_MS,
        },
    }
}

/// After a timer tick at `now`: once the paste is done, the saved content is served
/// again (ownership kept), or ownership is given up when there is nothing to restore.
pub open spec fn after_tick(m: ClipModel, now: u64) -> ClipModel {
    if !restore_due(m, now) {
        m
    } else {
        ClipModel {
            payload: m.saved,
            saved: m.saved,
            owns: if m.saved is Some { m.owns } else { false },
            deliver_start: None,
            data_served_at: None,
        }
    }
}

/// What a timer tick asks the owner thread to do.
#[derive(Clone, Copy, PartialEq, Eq, Structural, Debug)]
pub enum TickStep {
    /// Nothing yet.
    Wait,
    /// The saved content is served again; `consumed` tells whether the paste's data
    /// was requested before the restore.
    Restored { consumed: bool },
    /// Nothing to restore: give up ownership (the clipboard becomes empty).
    Released { consumed: bool },
}

/// The atoms that a selection request is judged by.
#[derive(Clone, Copy)]
pub struct Atoms {
    pub targets: u64,
    pub utf8: u64,
    pub string: u64,
}

/// How to answer a SelectionRequest.
pub enum SelectionAnswer {
    /// Reply with property None.
    Refuse,
    /// Store the supported targets (UTF8_STRING, STRING, TARGETS) in `property`.
    Targets { property: u64 },
    /// Store `bytes` in `property`, typed as the requested target.
    Data { property: u64, bytes: Vec<u8> },
}

/// The answer to a request for `target` into `property` when `payload` is served.
/// A property of None (0) means "store under the target atom".
pub open spec fn answer_for(payload: Option<Seq<u8>>, target: u64, property: u64, atoms: Atoms) -> (int, Option<Seq<u8>>, u64) {
    let prop = if property == 0 { target } else { property };
    match payload {
        None => (0, None, 0),
        Some(p) => if target == atoms.targets {
            (1, None, prop)
        } else if target == atoms.utf8 || target == atoms.string {
            (2, Some(p), prop)
        } else {
            (0, None, 0)
        },
    }
}

/// The answer as (kind, bytes, property): kind 0 refuses, 1 lists targets, 2 serves data.
pub open spec fn answer_view(a: SelectionAnswer) -> (int, Option<Seq<u8>>, u64) {
    match a {
        SelectionAnswer::Refuse => (0, None, 0),
        SelectionAnswer::Targets { property } => (1, None, property),
        SelectionAnswer::Data { property, bytes } => (2, Some(bytes@), property),
    }
}

/// Whether the current CLIPBOARD owner `owner` is someone to fetch from: there is one
/// (not None) and it is not our own window.
pub fn external_owner(owner: u64, own_window: u64) -> (r: bool)
    ensures
        r == (owner != 0 && owner != own_window),
{
    owner != 0 && owner != own_window
}

/// The prior clipboard read from its owner: nothing when it was empty.
pub fn clipboard_content(bytes: Vec<u8>) -> (r: Option<Vec<u8>>)
    ensures
        opt_bytes(r) == (if bytes@.len() == 0 { None } else { Some(bytes@) }),
{
    if bytes.len() == 0 {
        None
    } else {
        Some(bytes)
    }
}

fn copy_bytes(o: &Option<Vec<u8>>) -> (r: Option<Vec<u8>>)
    ensures
        opt_bytes(r) == opt_bytes(*o),
{
    match o {
        Some(v) => {
            let c = v.clone();
            assert(c@ =~= v@);
            Some(c)
        },
        None => None,
    }
}

/// The clipboard owner's bookkeeping.
pub struct ClipState {
    payload: Option<Vec<u8>>,
    saved: Option<Vec<u8>>,
    owns: bool,
    deliver_start: Option<u64>,
    data_served_at: Option<u64>,
}

impl View for ClipState {
    type V = ClipModel;

    closed spec fn view(&self) -> ClipModel {
        ClipModel {
            payload: opt_bytes(self.payload),
            saved: opt_bytes(self.saved),
            owns: self.owns,
            deliver_start: self.deliver_start,
            data_served_at: self.data_served_at,
        }
    }
}

impl ClipState {
    /// Not owning anything, nothing saved, no paste in flight.
    pub fn new() -> (r: Self)
        ensures
            r@ == (ClipModel { payload: None, saved: None, owns: false, deliver_start: None, data_served_at: None }),
    {
        ClipState { payload: None, saved: None, owns: false, deliver_start: None, data_served_at: None }
    }

    /// Whether the owner thread may block on its command channel: it owns nothing and
    /// no paste is in flight, so no selection request can arrive.
    pub fn is_idle(&self) -> (r: bool)
        ensures
            r == (!self@.owns && self@.deliver_start is None),
    {
        !self.owns && self.deliver_start.is_none()
    }

    /// Whether a paste must first fetch the prior clipboard: only while we do not own
    /// it (what we own is our own payload or an already saved prior).
    pub fn needs_fetch(&self) -> (r: bool)
        ensures
            r == !self@.owns,
    {
        !self.owns
    }

    /// A paste of `emoji`, after the owner thread fetched the prior clipboard when
    /// [`needs_fetch`](Self::needs_fetch) asked for it (`fetched`) and tried to claim
    /// CLIPBOARD (`claimed`) at `now`. Returns whether to synthesize Ctrl+V.
    pub fn begin_paste(&mut self, emoji: Vec<u8>, fetched: Option<Vec<u8>>, claimed: bool, now: u64) -> (ctrl_v: bool)
        ensures
            final(self)@ == after_paste(old(self)@, emoji@, opt_bytes(fetched), claimed, now),
            ctrl_v == claimed,
    {
        if !self.owns {
            self.saved = fetched;
        }
        if !claimed {
            self.payload = None;
            return false;
        }
        self.payload = Some(emoji);
        self.owns = true;
        self.deliver_start = Some(now);
        self.data_served_at = None;
        true
    }

    /// A SelectionRequest for `target` into `property` at `now`: the answer to send,
    /// judged from what is served; a data request during a paste starts the grace.
    pub fn on_selection_request(&mut self, target: u64, property: u64, atoms: Atoms, now: u64) -> (a: SelectionAnswer)
        ensures
            answer_view(a) == answer_for(old(self)@.payload, target, property, atoms),
            final(self)@ == after_request(old(self)@, target != atoms.targets, now),
    {
        let answer = match &self.payload {
            None => SelectionAnswer::Refuse,
            Some(p) => {
                let prop = if property == 0 { target } else { property };
                if target == atoms.targets {
                    SelectionAnswer::Targets { property: prop }
                } else if target == atoms.utf8 || target == atoms.string {
                    let bytes = p.clone();
                    assert(bytes@ =~= p@);
                    SelectionAnswer::Data { property: prop, bytes }
                } else {
                    SelectionAnswer::Refuse
                }
            },
        };
        if self.deliver_start.is_some() && target != atoms.targets {
            self.data_served_at = Some(now);
        }
        answer
    }

    /// SelectionClear: the user (or another application) took CLIPBOARD. Stop serving
    /// and forget the saved content; it is no longer "prior".
    pub fn on_selection_clear(&mut self)
        ensures
            final(self)@ == after_clear(old(self)@),
    {
        self.owns = false;
        self.payload = None;
        self.saved = None;
        self.deliver_start = None;
        self.data_served_at = None;
    }

    /// A timer tick at `now`: restores the saved content once the paste is done.
    pub fn tick(&mut self, now: u64) -> (step: TickStep)
        ensures
            final(self)@ == after_tick(old(self)@, now),
            step == (if !restore_due(old(self)@, now) {
                TickStep::Wait
            } else if old(self)@.saved is Some {
                TickStep::Restored { consumed: old(self)@.data_served_at is Some }
            } else {
                TickStep::Released { consumed: old(self)@.data_served_at is Some }
            }),
    {
        let start = match self.deliver_start {
            None => return TickStep::Wait,
            Some(s) => s,
        };
        let done = match self.data_served_at {
            Some(t) => now >= t && now - t >= GRACE_MS,
            None => now >= start && now - start >= HARD_CAP_MS,
        };
        if !done {
            return TickStep::Wait;
        }
        let consumed = self.data_served_at.is_some();
        self.deliver_start = None;
        self.data_served_at = None;
        self.payload = copy_bytes(&self.saved);
        if self.payload.is_none() {
            self.owns = false;
            TickStep::Released { consumed }
        } else {
            TickStep::Restored { consumed }
        }
    }
}

/// A paste into a clipboard we did not own, whose data is requested at `t1` and
/// followed by a tick at `t2` at least the grace later, leaves the user's prior
/// content served again (or, with no prior content, gives ownership up).
pub proof fn law_paste_restores_prior(m: ClipModel, emoji: Seq<u8>, prior: Option<Seq<u8>>, now: u64, t1: u64, t2: u64)
    requires
        !m.owns,
        now <= t1,
        t1 + GRACE_MS <= t2,
    ensures
        ({
            let m1 = after_paste(m, emoji, prior, true, now);
            let m2 = after_request(m1, true, t1);
            let m3 = after_tick(m2, t2);
            &&& m1.payload == Some(emoji)
            &&& m1.owns
            &&& m3.payload == prior
            &&& m3.saved == prior
            &&& m3.owns == (prior is Some)
            &&& m3.deliver_start is None
        }),
{
}

/// While a claimed paste has not had its data requested, ticks before the backstop
/// change nothing: the glyph stays on the clipboard.
pub proof fn law_paste_held_until_backstop(m: ClipModel, emoji: Seq<u8>, fetched: Option<Seq<u8>>, now: u64, t: u64)
    requires
        now <= t,
        t < now + HARD_CAP_MS,
    ensures
        after_tick(after_paste(m, emoji, fetched, true, now), t) == after_paste(m, emoji, fetched, true, now),
{
}

/// A second paste while we still own CLIPBOARD keeps the prior content saved by the
/// first, so it too restores to the user's original clipboard.
pub proof fn law_consecutive_pastes_keep_first_prior(
    m: ClipModel,
    e1: Seq<u8>,
    prior: Option<Seq<u8>>,
    n1: u64,
    e2: Seq<u8>,
    fetched2: Option<Seq<u8>>,
    claimed2: bool,
    n2: u64,
)
    requires
        !m.owns,
    ensures
        after_paste(after_paste(m, e1, prior, true, n1), e2, fetched2, claimed2, n2).saved == prior,
{
}

/// Once someone else takes CLIPBOARD nothing is served or kept, and the next paste
/// saves the then-current clipboard afresh.
pub proof fn law_clear_forgets_prior(m: ClipModel, emoji: Seq<u8>, fetched: Option<Seq<u8>>, claimed: bool, now: u64)
    ensures
        after_clear(m).payload is None,
        after_clear(m).saved is None,
        !after_clear(m).owns,
        after_paste(after_clear(m), emoji, fetched, claimed, now).saved == fetched,
{
}

/// With nothing to serve, every selection request is refused.
pub proof fn law_nothing_served_refuses(target: u64, property: u64, atoms: Atoms)
    ensures
        answer_for(None, target, property, atoms).0 == 0,
{
}

} // verus!
