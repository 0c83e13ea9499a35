use vstd::prelude::*;

use crate::config::{ColorConfig, ColorProfiles};
use crate::error::{Error, ErrorKind, Result};
use crate::request::{decode, spec_decode, Request, RequestView};

verus! {

/// What the validator makes of one frame payload.
pub enum Verdict {
    /// The request may go on to the dispatcher.
    Accepted(RequestView),
    /// The payload encodes no request.
    Malformed,
    /// A `Show` request named a profile that is not configured.
    UnknownProfile(Seq<char>),
    /// A `Show` request carried a value above 100.
    OutOfRange,
}

/// The verdict on `payload` given the configured profiles: an unknown
/// profile is reported before a value out of range.
pub open spec fn spec_validate(profiles: Map<Seq<char>, ColorConfig>, payload: Seq<u8>) -> Verdict {
    match spec_decode(payload) {
        None => Verdict::Malformed,
        Some(RequestView::Show { profile, value }) => {
            if !profiles.contains_key(profile) {
                Verdict::UnknownProfile(profile)
            } else if value > 100 {
                Verdict::OutOfRange
            } else {
                Verdict::Accepted(RequestView::Show { profile, value })
            }
        },
        Some(r) => Verdict::Accepted(r),
    }
}

/// The verdict that a result of `validate_request` stands for; `None` for
/// an error of a kind that validation does not give.
pub open spec fn verdict_of(r: Result<Request>) -> Option<Verdict> {
    match r {
        Ok(request) => Some(Verdict::Accepted(request@)),
        Err(e) => match e.kind {
            ErrorKind::Malformed => Some(Verdict::Malformed),
            ErrorKind::UnknownProfile(name) => Some(Verdict::UnknownProfile(name@)),
            ErrorKind::OutOfRange => Some(Verdict::OutOfRange),
            _ => None,
        },
    }
}

/// The context and description that validation gives each kind of error.
pub open spec fn validation_texts(e: Error) -> bool {
    match e.kind {
        ErrorKind::Malformed => e.context@ == "deserializing request"@ && e.description@
            == "payload does not encode a request"@,
        ErrorKind::UnknownProfile(name) => e.context@ == "processing request"@ && e.description@
            == "Color profile `"@ + name@ + "` not found."@,
        ErrorKind::OutOfRange => e.context@ == "processing request"@ && e.description@
            == "Expected `value` in [0, 100]."@,
        _ => false,
    }
}

/// Decodes a frame payload and checks it against the configured profiles.
pub fn validate_request(color_configs: &ColorProfiles, buffer: &[u8]) -> (r: Result<Request>)
    ensures
        verdict_of(r) == Some(spec_validate(color_configs@, buffer@)),
        r is Err ==> validation_texts(r->Err_0),
{
    match decode(buffer) {
        None => Err(Error::malformed()),
        Some(request) => {
            if let Request::Show { profile, value } = &request {
                if !color_configs.contains(profile) {
                    return Err(Error::unknown_profile(profile));
                }
                if *value > 100 {
                    return Err(Error::out_of_range());
                }
            }
            Ok(request)
        },
    }
}

/// The state of the bar as the dispatcher drives it.
#[derive(Debug, Clone, PartialEq, Eq)]
pub enum BarState {
    /// The bar is hidden.
    Idle,
    /// The bar is shown at `value` in the colors of `profile`.
    Showing { profile: String, value: u8 },
    /// A `Stop` was received; the dispatch loop is over.
    Stopped,
}

pub enum StateView {
    Idle,
    Showing { profile: Seq<char>, value: u8 },
    Stopped,
}

impl View for BarState {
    type V = StateView;

    open spec fn view(&self) -> StateView {
        match self {
            BarState::Idle => StateView::Idle,
            BarState::Showing { profile, value } => StateView::Showing {
                profile: profile@,
                value: *value,
            },
            BarState::Stopped => StateView::Stopped,
        }
    }
}

/// What the dispatcher wakes up to.
#[derive(Debug, Clone, PartialEq, Eq)]
pub enum Event {
    /// A validated request from some connection.
    Request(Request),
    /// The auto-hide timeout passed with no request.
    Timeout,
}

pub enum EventView {
    Request(RequestView),
    Timeout,
}

impl View for Event {
    type V = EventView;

    open spec fn view(&self) -> EventView {
        match self {
            Event::Request(r) => EventView::Request(r@),
            Event::Timeout => EventView::Timeout,
        }
    }
}

/// The one renderer call, if any, that the dispatcher makes for an event.
#[derive(Debug, Clone, Copy, PartialEq, Eq, Structural)]
pub enum Action {
    /// Paint the bar at `value` in `colors`.
    Paint { value: u8, colors: ColorConfig },
    /// Clear the bar.
    Clear,
    /// No renderer call.
    Nothing,
    /// No renderer call; the dispatch loop ends.
    Exit,
}

/// The next state and the renderer call for event `e` in state `s`.
///
/// `Stopped` is terminal. A `Show` of a configured profile with a value in
/// `[0, 100]` shows the bar; any other `Show` is ignored. `Hide` and the
/// timeout clear a shown bar and change nothing on a hidden one. `Stop` ends
/// the loop. `Empty` changes nothing.
pub open spec fn transition(
    s: StateView,
    e: EventView,
    profiles: Map<Seq<char>, ColorConfig>,
) -> (StateView, Action) {
    match s {
        StateView::Stopped => (StateView::Stopped, Action::Nothing),
        _ => match e {
            EventView::Timeout | EventView::Request(RequestView::Hide) => match s {
                StateView::Showing { .. } => (StateView::Idle, Action::Clear),
                _ => (s, Action::Nothing),
            },
            EventView::Request(RequestView::Show { profile, value }) => {
                if profiles.contains_key(profile) && value <= 100 {
                    (
                        StateView::Showing { profile, value },
                        Action::Paint { value, colors: profiles[profile] },
                    )
                } else {
                    (s, Action::Nothing)
                }
            },
            EventView::Request(RequestView::Stop) => (StateView::Stopped, Action::Exit),
            EventView::Request(RequestView::Empty) => (s, Action::Nothing),
        },
    }
}

/// How long the dispatcher waits for a request before the auto-hide
/// timeout passes: only while the bar is shown, and never when the
/// configured timeout is zero (`None`: wait with no limit).
pub open spec fn spec_wait(s: StateView, timeout_ms: u64) -> Option<u64> {
    match s {
        StateView::Showing { .. } => if timeout_ms != 0 {
            Some(timeout_ms)
        } else {
            None
        },
        _ => None,
    }
}

/// The single consumer of validated requests and the only caller of the
/// renderer.
pub struct Dispatcher {
    state: BarState,
    timeout_ms: u64,
    profiles: ColorProfiles,
}

pub struct DispatcherView {
    pub state: StateView,
    pub timeout_ms: u64,
    pub profiles: Map<Seq<char>, ColorConfig>,
}

impl View for Dispatcher {
    type V = DispatcherView;

    closed spec fn view(&self) -> DispatcherView {
        DispatcherView { state: self.state@, timeout_ms: self.timeout_ms, profiles: self.profiles@ }
    }
}

impl Dispatcher {
    /// A dispatcher with the bar hidden, auto-hiding after `timeout_ms`
    /// milliseconds (never, when zero), painting with `profiles`.
    pub fn new(timeout_ms: u64, profiles: ColorProfiles) -> (r: Self)
        ensures
            r@.state == StateView::Idle,
            r@.timeout_ms == timeout_ms,
            r@.profiles == profiles@,
    {
        Dispatcher { state: BarState::Idle, timeout_ms, profiles }
    }

    pub fn state(&self) -> (r: &BarState)
        ensures
            r@ == self@.state,
    {
        &self.state
    }

    /// True once a `Stop` was received.
    pub fn is_stopped(&self) -> (r: bool)
        ensures
            r == (self@.state == StateView::Stopped),
    {
        match self.state {
            BarState::Stopped => true,
            _ => false,
        }
    }

    /// How long to wait for the next request; `None` to wait with no limit.
    pub fn wait_limit(&self) -> (r: Option<u64>)
        ensures
            r == spec_wait(self@.state, self@.timeout_ms),
    {
        match self.state {
            BarState::Showing { .. } => if self.timeout_ms != 0 {
                Some(self.timeout_ms)
            } else {
                None
            },
            _ => None,
        }
    }

    /// Takes one event and returns the renderer call to make for it.
    pub fn handle(&mut self, event: Event) -> (r: Action)
        ensures
            (final(self)@.state, r) == transition(old(self)@.state, event@, old(self)@.profiles),
            final(self)@.timeout_ms == old(self)@.timeout_ms,
            final(self)@.profiles == old(self)@.profiles,
    {
        if let BarState::Stopped = self.state {
            return Action::Nothing;
        }
        match event {
            Event::Timeout | Event::Request(Request::Hide) => {
                if let BarState::Showing { .. } = self.state {
                    self.state = BarState::Idle;
                    Action::Clear
                } else {
                    Action::Nothing
                }
            },
            Event::Request(Request::Show { profile, value }) => {
                if value > 100 {
                    return Action::Nothing;
                }
                match self.profiles.get(&profile) {
                    Some(colors) => {
                        self.state = BarState::Showing { profile, value };
                        Action::Paint { value, colors }
                    },
                    None => Action::Nothing,
                }
            },
            Event::Request(Request::Stop) => {
                self.state = BarState::Stopped;
                Action::Exit
            },
            Event::Request(Request::Empty) => Action::Nothing,
        }
    }
}

/// The state machine on a shown request: from `Idle`, a `Show` of a
/// configured profile with a value in range shows the bar with exactly one
/// paint, and the auto-hide timer is armed with the configured timeout
/// (unless it is zero); when the timeout passes with no request, the bar goes
/// back to `Idle` with exactly one clear and the timer is no longer armed;
/// and a `Stop` in any state not yet stopped ends the loop.
pub proof fn lemma_show_then_auto_hide(
    profiles: Map<Seq<char>, ColorConfig>,
    profile: Seq<char>,
    value: u8,
    timeout_ms: u64,
    s: StateView,
)
    requires
        profiles.contains_key(profile),
        value <= 100,
        s != StateView::Stopped,
    ensures
        transition(StateView::Idle, EventView::Request(RequestView::Show { profile, value }), profiles)
            == (StateView::Showing { profile, value }, Action::Paint {
            value,
            colors: profiles[profile],
        }),
        spec_wait(StateView::Showing { profile, value }, timeout_ms) == (if timeout_ms != 0 {
            Some(timeout_ms)
        } else {
            None
        }),
        transition(StateView::Showing { profile, value }, EventView::Timeout, profiles) == (
            StateView::Idle,
            Action::Clear,
        ),
        spec_wait(StateView::Idle, timeout_ms) == None::<u64>,
        transition(s, EventView::Request(RequestView::Stop), profiles) == (
            StateView::Stopped,
            Action::Exit,
        ),
{
}

/// Idempotence of `Hide`: after one `Hide` the bar is idle, and a further
/// `Hide` leaves it idle with no renderer call, however many follow.
pub proof fn lemma_hide_idempotent(profiles: Map<Seq<char>, ColorConfig>, s: StateView)
    requires
        s != StateView::Stopped,
    ensures
        transition(s, EventView::Request(RequestView::Hide), profiles).0 == StateView::Idle,
        transition(StateView::Idle, EventView::Request(RequestView::Hide), profiles) == (
            StateView::Idle,
            Action::Nothing,
        ),
{
}

/// `Empty` is a no-op in every state, and `Stopped` ignores every event.
pub proof fn lemma_empty_and_stopped(
    profiles: Map<Seq<char>, ColorConfig>,
    s: StateView,
    e: EventView,
)
    ensures
        transition(s, EventView::Request(RequestView::Empty), profiles) == (s, Action::Nothing),
        transition(StateView::Stopped, e, profiles) == (StateView::Stopped, Action::Nothing),
{
}

} // verus!
