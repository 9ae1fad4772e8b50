//! Overlay decisions: the corner to use, the title's font size, the dismiss timer, and
//! the GTK poll loop that shows the overlay and the "Please Wait" window.
//!
//! The GTK windows, widgets, CSS and timers live outside the library; they ask these
//! functions what to do.

use vstd::prelude::*;
use crate::monitor::{Corner, corner_named, dashed};
use crate::text::{lowercase, trim, str_eq};
use crate::config::opt_view;

verus! {

/// Horizontal content margin of the overlay (16 px on each side).
pub const CONTENT_MARGINS: i32 = 32;

/// The corner a `corner` setting selects: the parsed corner, else top-right; the flag
/// tells that a value was given but not recognized (warned about).
pub open spec fn corner_choice(pref: Option<Seq<char>>) -> (Corner, bool) {
    match pref {
        None => (Corner::TopRight, false),
        Some(p) => match corner_named(dashed(lowercase(trim(p)))) {
            Some(c) => (c, false),
            None => (Corner::TopRight, true),
        },
    }
}

/// Resolves the corner preference, see [`corner_choice`].
pub fn resolve_corner(pref: &Option<String>) -> (r: (Corner, bool))
    ensures
        r == corner_choice(opt_view(*pref)),
{
    match pref {
        None => (Corner::TopRight, false),
        Some(p) => match Corner::parse(p.as_str()) {
            Some(c) => (c, false),
            None => (Corner::TopRight, true),
        },
    }
}

/// Whether the layer title, `natural` pixels wide at the full 72 px font, overflows a
/// `window_width` overlay and so is shown at the 2/3-size (48 px) font.
pub fn title_needs_small_font(natural: i32, window_width: i32) -> (r: bool)
    requires
        window_width >= i32::MIN + CONTENT_MARGINS,
    ensures
        r == (natural > window_width - CONTENT_MARGINS),
{
    natural > window_width - CONTENT_MARGINS
}

/// The overlay's auto-dismiss timer. Each show arms a new generation; a timer that
/// fires hides the overlay only if no later show re-armed it.
pub struct DismissTimer {
    generation: u64,
}

impl DismissTimer {
    /// The generation of the latest arming.
    pub closed spec fn current(&self) -> u64 {
        self.generation
    }

    /// No timer armed yet.
    pub fn new() -> (r: Self)
        ensures
            r.current() == 0,
    {
        DismissTimer { generation: 0 }
    }

    /// The latest generation.
    pub fn generation(&self) -> (r: u64)
        ensures
            r == self.current(),
    {
        self.generation
    }

    /// Arms a new timer; returns its generation.
    pub fn arm(&mut self) -> (g: u64)
        requires
            old(self).current() < u64::MAX,
        ensures
            g == armed(old(self).current()),
            final(self).current() == g,
    {
        self.generation = self.generation + 1;
        self.generation
    }

    /// Whether the timer of generation `g`, firing now, hides the overlay.
    pub fn fires(&self, g: u64) -> (r: bool)
        ensures
            r == (g == self.current()),
    {
        self.generation == g
    }
}

/// The generation an arming of a timer at generation `c` hands out.
pub open spec fn armed(c: u64) -> int {
    c + 1
}

/// Re-arming the dismiss timer cancels the earlier one: of two armings in a row, the
/// first timer no longer hides the overlay and the second one does.
pub proof fn law_rearm_cancels_earlier(c: u64)
    requires
        c + 2 <= u64::MAX,
    ensures
        armed(c) != armed((c + 1) as u64),
        armed((c + 1) as u64) == c + 2,
{
}

/// The GTK poll loop's state as a model.
pub struct PollModel {
    /// The layer the overlay last showed (initially the ring's first layer).
    pub last_layout: Seq<char>,
    /// Whether the "Please Wait" window is shown.
    pub wait_shown: bool,
}

/// What one poll asks of the "Please Wait" window.
#[derive(Clone, Copy, PartialEq, Eq, Structural, Debug)]
pub enum WaitChange {
    Keep,
    Show,
    Hide,
}

/// One poll with the published `layout`, the `wait` flag of the grab thread and
/// whether a show was requested over the socket: the "Please Wait" window follows the
/// flag's edges; the overlay is shown when the layer changed, else re-shown on request.
/// Returns the new state, the change of the "Please Wait" window and the layer to show.
pub open spec fn poll_step(m: PollModel, show_requested: bool, wait: bool, layout: Seq<char>)
    -> (PollModel, WaitChange, Option<Seq<char>>)
{
    let (wait_shown, change) = if wait && !m.wait_shown {
        (true, WaitChange::Show)
    } else if !wait && m.wait_shown {
        (false, WaitChange::Hide)
    } else {
        (m.wait_shown, WaitChange::Keep)
    };
    if layout != m.last_layout {
        (PollModel { last_layout: layout, wait_shown }, change, Some(layout))
    } else if show_requested {
        (PollModel { last_layout: m.last_layout, wait_shown }, change, Some(m.last_layout))
    } else {
        (PollModel { last_layout: m.last_layout, wait_shown }, change, None)
    }
}

/// What one poll asks of the windows.
pub struct PollActions {
    pub wait: WaitChange,
    /// The layer to show the overlay for, if any.
    pub show_layout: Option<String>,
}

/// The GTK poll loop's state.
pub struct PollState {
    last_layout: String,
    wait_shown: bool,
}

impl View for PollState {
    type V = PollModel;

    closed spec fn view(&self) -> PollModel {
        PollModel { last_layout: self.last_layout@, wait_shown: self.wait_shown }
    }
}

impl PollState {
    /// Starts on the published initial layer, so nothing shows until the user navigates.
    pub fn new(initial_layer: &str) -> (r: Self)
        ensures
            r@ == (PollModel { last_layout: initial_layer@, wait_shown: false }),
    {
        PollState { last_layout: String::from_str(initial_layer), wait_shown: false }
    }

    /// One poll, see [`poll_step`].
    pub fn poll(&mut self, show_requested: bool, wait: bool, layout: &str) -> (r: PollActions)
        ensures
            (final(self)@, r.wait, opt_view(r.show_layout)) == poll_step(old(self)@, show_requested, wait, layout@),
    {
        let change = if wait && !self.wait_shown {
            self.wait_shown = true;
            WaitChange::Show
        } else if !wait && self.wait_shown {
            self.wait_shown = false;
            WaitChange::Hide
        } else {
            WaitChange::Keep
        };
        if !str_eq(layout, self.last_layout.as_str()) {
            self.last_layout = String::from_str(layout);
            PollActions { wait: change, show_layout: Some(String::from_str(layout)) }
        } else if show_requested {
            PollActions { wait: change, show_layout: Some(self.last_layout.clone()) }
        } else {
            PollActions { wait: change, show_layout: None }
        }
    }
}

/// The overlay shows only when something asks for it: with the layer unchanged and no
/// show requested, a poll shows nothing; a changed layer is always shown and becomes
/// the layer that a later request re-shows.
pub proof fn law_overlay_shows_only_on_change_or_request(m: PollModel, wait: bool, layout: Seq<char>)
    ensures
        poll_step(m, false, wait, m.last_layout).2 is None,
        layout != m.last_layout ==> poll_step(m, false, wait, layout).2 == Some(layout),
        poll_step(poll_step(m, false, wait, layout).0, true, wait, layout).2 == Some(layout),
{
}

/// The "Please Wait" window is shown once per raised flag and hidden once per lowered
/// flag: a steady flag changes nothing on later polls.
pub proof fn law_wait_window_follows_flag_edges(m: PollModel, show: bool, wait: bool, layout: Seq<char>)
    ensures
        poll_step(m, show, wait, layout).0.wait_shown == wait,
        poll_step(poll_step(m, show, wait, layout).0, show, wait, layout).1 == WaitChange::Keep,
{
}

} // verus!
