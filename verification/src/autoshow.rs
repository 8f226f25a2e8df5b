//! The auto-show mode's bookkeeping: what niri's focus was last pointed at, and
//! what is waiting to be sent. Plain state and plain rules, so they can be unit
//! tested on their own.

use vstd::prelude::*;

verus! {

/// What a focus points at: the selected window, or the selected workspace when it
/// holds no windows.
#[derive(Clone, Copy, PartialEq, Eq, Debug, Structural)]
pub enum Target {
    Window(u64),
    Workspace(u64),
}

/// The target for a selection: its window if it has one, else its workspace.
pub fn target_for(win_id: Option<u64>, ws_id: Option<u64>) -> (r: Option<Target>)
    ensures
        r == (match (win_id, ws_id) {
            (Some(id), _) => Some(Target::Window(id)),
            (None, Some(id)) => Some(Target::Workspace(id)),
            (None, None) => None::<Target>,
        }),
{
    match (win_id, ws_id) {
        (Some(id), _) => Some(Target::Window(id)),
        (None, Some(id)) => Some(Target::Workspace(id)),
        (None, None) => None,
    }
}

/// The four facts the mode keeps: whether it is on, where niri's focus is
/// believed to be, the target waiting for the debounce, and whether a debounce
/// timer is in flight.
pub struct AutoShowState {
    pub on: bool,
    pub last_sent: Option<Target>,
    pub pending: Option<Target>,
    pub scheduled: bool,
}

/// The state a fresh mode starts in: off, nothing sent, nothing waiting, no
/// timer.
pub open spec fn initial_state() -> AutoShowState {
    AutoShowState { on: false, last_sent: None, pending: None, scheduled: false }
}

/// The state after arming the mode, seeded with niri's current focus.
pub open spec fn enabled(s: AutoShowState, focused: Option<Target>) -> AutoShowState {
    AutoShowState { on: true, last_sent: focused, pending: None, scheduled: s.scheduled }
}

/// The state after disarming the mode. The timer flag is left alone: it tracks
/// the timer itself, which may still be running.
pub open spec fn disabled(s: AutoShowState) -> AutoShowState {
    AutoShowState { on: false, last_sent: None, pending: None, scheduled: s.scheduled }
}

/// The state after offering `t`, and whether the caller should start a timer.
/// The mode flipped: off when it was on, armed with `focused` when it was off.
pub open spec fn toggled(s: AutoShowState, focused: Option<Target>) -> AutoShowState {
    if s.on {
        disabled(s)
    } else {
        enabled(s, focused)
    }
}

pub open spec fn queued(s: AutoShowState, t: Target) -> (AutoShowState, bool) {
    if !s.on {
        (s, false)
    } else if Some(t) == s.last_sent {
        (AutoShowState { pending: None, ..s }, false)
    } else if s.scheduled {
        (AutoShowState { pending: Some(t), ..s }, false)
    } else {
        (AutoShowState { pending: Some(t), scheduled: true, ..s }, true)
    }
}

/// The state after the timer fires, and the target to focus now, if any.
pub open spec fn due(s: AutoShowState) -> (AutoShowState, Option<Target>) {
    match s.pending {
        None => (AutoShowState { scheduled: false, ..s }, None),
        Some(t) => if Some(t) == s.last_sent {
            (AutoShowState { scheduled: false, pending: None, ..s }, None)
        } else {
            (AutoShowState { scheduled: false, pending: None, last_sent: Some(t), ..s }, Some(t))
        },
    }
}

/// The state after recording a target that something else focused.
pub open spec fn recorded(s: AutoShowState, t: Target) -> AutoShowState {
    if s.on {
        AutoShowState { last_sent: Some(t), ..s }
    } else {
        s
    }
}

/// What every reachable state keeps: while the mode is off, nothing is believed
/// sent and nothing waits.
pub open spec fn consistent(s: AutoShowState) -> bool {
    !s.on ==> s.last_sent is None && s.pending is None
}

/// Tracks the mode and debounces the focus calls it makes.
///
/// `last_sent` is where niri's focus is believed to be, so a selection that
/// returns there costs nothing. `pending` is a target that differs from it and is
/// waiting for the debounce to elapse; `scheduled` says a timer is in flight, so
/// navigating repeatedly arms only one. `scheduled` tracks the timer itself and so
/// outlives a disable, which keeps a re-enable from arming a second one.
pub struct AutoShow {
    on: bool,
    last_sent: Option<Target>,
    pending: Option<Target>,
    scheduled: bool,
}

impl View for AutoShow {
    type V = AutoShowState;

    closed spec fn view(&self) -> AutoShowState {
        AutoShowState {
            on: self.on,
            last_sent: self.last_sent,
            pending: self.pending,
            scheduled: self.scheduled,
        }
    }
}

impl Default for AutoShow {
    fn default() -> (r: Self)
        ensures
            r@ == initial_state(),
    {
        AutoShow { on: false, last_sent: None, pending: None, scheduled: false }
    }
}

impl AutoShow {
    pub fn is_on(&self) -> (r: bool)
        ensures
            r == self@.on,
    {
        self.on
    }

    /// Arm the mode, seeded with niri's current focus. Seeding is what makes the
    /// mode's promise "niri's focus equals the selection": a target niri already
    /// holds is left alone, so navigating away and back is free.
    pub fn enable(&mut self, focused: Option<Target>)
        ensures
            final(self)@ == enabled(old(self)@, focused),
    {
        self.on = true;
        self.last_sent = focused;
        self.pending = None;
    }

    /// Disarm the mode and drop anything waiting. A timer that is already running
    /// finds nothing to send.
    pub fn disable(&mut self)
        ensures
            final(self)@ == disabled(old(self)@),
    {
        self.on = false;
        self.last_sent = None;
        self.pending = None;
    }

    /// Flip the mode: disarm it when it is on, or arm it seeded with `focused`
    /// when it is off. Returns whether the mode is now on. `focused` is read
    /// only when the mode is armed, so a caller may pass `None` when it is on.
    pub fn toggle(&mut self, focused: Option<Target>) -> (now_on: bool)
        ensures
            final(self)@ == toggled(old(self)@, focused),
            now_on == !old(self)@.on,
            now_on == final(self)@.on,
    {
        if self.on {
            self.disable();
            false
        } else {
            self.enable(focused);
            true
        }
    }

    /// Offer the selection's target. Returns true when the caller should start a
    /// debounce timer; a target niri is already focused on is dropped, and so is
    /// a target that arrives while a timer is running (it replaces the pending
    /// one, so the latest selection wins).
    pub fn queue(&mut self, target: Target) -> (start_timer: bool)
        ensures
            (final(self)@, start_timer) == queued(old(self)@, target),
    {
        if !self.on {
            return false;
        }
        if Some(target) == self.last_sent {
            self.pending = None;
            return false;
        }
        self.pending = Some(target);
        if self.scheduled {
            return false;
        }
        self.scheduled = true;
        true
    }

    /// The target to focus now, recorded as sent. Recording happens whether or
    /// not the focus call then succeeds: a window that died during the debounce
    /// is not worth retrying.
    pub fn take_due(&mut self) -> (r: Option<Target>)
        ensures
            (final(self)@, r) == due(old(self)@),
    {
        self.scheduled = false;
        let target = match self.pending.take() {
            Some(t) => t,
            None => return None,
        };
        if Some(target) == self.last_sent {
            return None;
        }
        self.last_sent = Some(target);
        Some(target)
    }

    /// Record a target that something else focused, so the guard keeps matching
    /// niri. Without this a target focused by hand looks unfocused, and the next
    /// navigation back to it would be dropped as redundant.
    pub fn record_sent(&mut self, target: Target)
        ensures
            final(self)@ == recorded(old(self)@, target),
    {
        if self.on {
            self.last_sent = Some(target);
        }
    }
}

/// Every operation keeps the mode consistent: while it is off, nothing is
/// believed sent and nothing is waiting, starting from a fresh mode.
pub proof fn lemma_operations_keep_consistency(s: AutoShowState, t: Target, f: Option<Target>)
    requires
        consistent(s),
    ensures
        consistent(initial_state()),
        consistent(enabled(s, f)),
        consistent(disabled(s)),
        consistent(toggled(s, f)),
        consistent(queued(s, t).0),
        consistent(due(s).0),
        consistent(recorded(s, t)),
{
}

/// While the mode is off, offering a target starts no timer and changes
/// nothing, and a firing timer sends nothing.
pub proof fn lemma_off_mode_sends_nothing(s: AutoShowState, t: Target)
    requires
        consistent(s),
        !s.on,
    ensures
        queued(s, t) == (s, false),
        due(s).1 is None,
{
}

/// Enabling sends nothing by itself: a timer firing right after it has nothing
/// to focus.
pub proof fn lemma_enabling_sends_nothing(s: AutoShowState, f: Option<Target>)
    ensures
        due(enabled(s, f)).1 is None,
{
}

/// A target niri already holds is left alone: offering it starts no timer, and
/// the timer sends nothing afterwards.
pub proof fn lemma_focused_target_is_not_resent(s: AutoShowState, t: Target)
    requires
        consistent(s),
        s.last_sent == Some(t),
    ensures
        !queued(s, t).1,
        due(queued(s, t).0).1 is None,
{
}

/// A target is sent at most once: after the timer hands it out, the next
/// firing sends nothing, and offering the same target again starts no timer.
pub proof fn lemma_sent_once(s: AutoShowState, t: Target)
    requires
        due(s).1 == Some(t),
    ensures
        due(due(s).0).1 is None,
        !queued(due(s).0, t).1,
        due(s).0.last_sent == Some(t),
{
}

/// A burst of offers arms one timer: once a timer is armed, further offers
/// start none until it fires, and the last offer is what it sends.
pub proof fn lemma_burst_arms_one_timer(s: AutoShowState, t: Target, u: Target)
    requires
        queued(s, t).1,
        Some(u) != s.last_sent,
    ensures
        !queued(queued(s, t).0, u).1,
        due(queued(queued(s, t).0, u).0).1 == Some(u),
{
}

/// Navigating away and back to the focused target before the timer fires
/// sends nothing.
pub proof fn lemma_away_and_back_sends_nothing(s: AutoShowState, away: Target, back: Target)
    requires
        s.on,
        s.last_sent == Some(back),
    ensures
        due(queued(queued(s, away).0, back).0).1 is None,
{
}

/// Disabling drops whatever was waiting: the timer then sends nothing.
pub proof fn lemma_disable_drops_pending(s: AutoShowState)
    ensures
        due(disabled(s)).1 is None,
{
}

/// Recording a focus made elsewhere cancels a pending send of that target.
pub proof fn lemma_recorded_focus_cancels_pending(s: AutoShowState, t: Target)
    requires
        s.on,
        s.pending == Some(t),
    ensures
        due(recorded(s, t)).1 is None,
{
}

/// After a timer fires, the next new target arms a timer again.
pub proof fn lemma_timer_rearms_after_firing(s: AutoShowState, t: Target)
    requires
        s.on,
        Some(t) != due(s).0.last_sent,
    ensures
        queued(due(s).0, t).1,
{
}

/// The timer flag outlives a disable: re-enabling while a timer is in flight
/// never arms a second one.
pub proof fn lemma_reenable_keeps_timer(s: AutoShowState, f: Option<Target>, t: Target)
    requires
        s.scheduled,
    ensures
        !queued(enabled(disabled(s), f), t).1,
{
}

} // verus!
