//! The dashboard's state machine: one small state record, an update function
//! over the four user edits and the two fetch outcomes, and the effect each
//! step demands from the caller (re-fetch now, re-arm or cancel the
//! auto-refresh timer). The caller performs the effects; every decision is
//! made here.

use vstd::prelude::*;
use vstd::string::StringExecFns;
use crate::interval::is_uint_string;
use crate::interval::parse_u32;
use crate::interval::uint_value;
use crate::server::Server;

verus! {

/// The whole in-memory state of the dashboard, lost on reload.
#[derive(Clone)]
pub struct AppState {
    /// Full server list, replaced wholesale on each successful fetch.
    pub servers: Vec<Server>,
    /// Search query, matched against names and map labels.
    pub search_query: String,
    /// Refresh interval in seconds.
    pub refresh_interval: u32,
    /// Whether a repeating timer re-triggers fetches.
    pub auto_refresh: bool,
    /// API version string, sent as one path segment of the fetch URL.
    pub version: String,
}

/// One input to the state machine: a user edit or the outcome of a fetch.
pub enum Event {
    /// The search box changed.
    SearchEdited(String),
    /// The interval field changed; the text is yet to be parsed.
    IntervalEdited(String),
    /// The version field changed.
    VersionEdited(String),
    /// The auto-refresh checkbox changed.
    AutoRefreshToggled(bool),
    /// A fetch resolved and its payload parsed into a server list.
    FetchSucceeded(Vec<Server>),
    /// A fetch failed: transport error or malformed payload. Swallowed.
    FetchFailed,
}

/// What the caller must do after a step. `Refresh` re-enters the poller:
/// cancel any armed timer, fetch once immediately with the new state's
/// version, and, when `repeat_every` is `Some(p)`, arm a repeating timer
/// that fetches every `p` seconds until the next `Refresh` or teardown.
#[derive(Clone, Copy, Debug, PartialEq, Eq)]
pub enum Effect {
    /// Leave any armed timer as it is; no fetch.
    Keep,
    /// Cancel the armed timer, fetch now, re-arm if `repeat_every` is set.
    Refresh { repeat_every: Option<u32> },
}

/// The state after an event. The interval edit keeps the prior value unless
/// the text parses as an unsigned integer that fits; every other edit writes
/// unconditionally; a failed fetch changes nothing.
pub open spec fn step_state(s: AppState, e: Event) -> AppState {
    match e {
        Event::SearchEdited(q) => AppState { search_query: q, ..s },
        Event::IntervalEdited(t) => if is_uint_string(t@) && uint_value(t@) <= u32::MAX {
            AppState { refresh_interval: uint_value(t@) as u32, ..s }
        } else {
            s
        },
        Event::VersionEdited(v) => AppState { version: v, ..s },
        Event::AutoRefreshToggled(b) => AppState { auto_refresh: b, ..s },
        Event::FetchSucceeded(list) => AppState { servers: list, ..s },
        Event::FetchFailed => s,
    }
}

/// The polling dependencies: a change to any of them tears the previous
/// timer down and re-enters the poller.
pub open spec fn poll_deps(s: AppState) -> (u32, bool, Seq<char>) {
    (s.refresh_interval, s.auto_refresh, s.version@)
}

/// The effect of (re-)entering the poller in state `s`: one immediate
/// fetch, plus a repeating timer at the configured interval when
/// auto-refresh is on.
pub open spec fn refresh_effect(s: AppState) -> Effect {
    Effect::Refresh {
        repeat_every: if s.auto_refresh {
            Some(s.refresh_interval)
        } else {
            None
        },
    }
}

/// The effect of an event: the poller is re-entered exactly when the event
/// changed one of the polling dependencies.
pub open spec fn step_effect(s: AppState, e: Event) -> Effect {
    if poll_deps(step_state(s, e)) != poll_deps(s) {
        refresh_effect(step_state(s, e))
    } else {
        Effect::Keep
    }
}

/// Apply one event: the new state, and what the caller must now do.
pub fn update(state: AppState, event: Event) -> (r: (AppState, Effect))
    ensures
        r.0 == step_state(state, event),
        r.1 == step_effect(state, event),
{
    match event {
        Event::SearchEdited(q) => {
            let s2 = AppState { search_query: q, ..state };
            (s2, Effect::Keep)
        },
        Event::IntervalEdited(t) => {
            match parse_u32(t.as_str()) {
                Some(v) => {
                    let changed = v != state.refresh_interval;
                    let auto = state.auto_refresh;
                    let s2 = AppState { refresh_interval: v, ..state };
                    let eff = if changed {
                        Effect::Refresh {
                            repeat_every: if auto {
                                Some(v)
                            } else {
                                None
                            },
                        }
                    } else {
                        Effect::Keep
                    };
                    (s2, eff)
                },
                None => (state, Effect::Keep),
            }
        },
        Event::VersionEdited(v) => {
            let changed = !v.eq(&state.version);
            let s2 = AppState { version: v, ..state };
            let eff = if changed {
                Effect::Refresh {
                    repeat_every: if s2.auto_refresh {
                        Some(s2.refresh_interval)
                    } else {
                        None
                    },
                }
            } else {
                Effect::Keep
            };
            (s2, eff)
        },
        Event::AutoRefreshToggled(b) => {
            let changed = b != state.auto_refresh;
            let s2 = AppState { auto_refresh: b, ..state };
            let eff = if changed {
                Effect::Refresh {
                    repeat_every: if b {
                        Some(s2.refresh_interval)
                    } else {
                        None
                    },
                }
            } else {
                Effect::Keep
            };
            (s2, eff)
        },
        Event::FetchSucceeded(list) => {
            let s2 = AppState { servers: list, ..state };
            (s2, Effect::Keep)
        },
        Event::FetchFailed => (state, Effect::Keep),
    }
}

/// The effect of bringing the view up: the poller is entered fresh.
pub fn mount_effect(state: &AppState) -> (e: Effect)
    ensures
        e == refresh_effect(*state),
{
    Effect::Refresh {
        repeat_every: if state.auto_refresh {
            Some(state.refresh_interval)
        } else {
            None
        },
    }
}

/// The state the dashboard starts in: no servers, an empty query, a
/// 60-second interval, auto-refresh off, and the pinned default version.
pub fn initial_state() -> (s: AppState)
    ensures
        s.servers@ == Seq::<Server>::empty(),
        s.search_query@ == Seq::<char>::empty(),
        s.refresh_interval == 60,
        s.auto_refresh == false,
        s.version@ == "1.0.24"@,
{
    AppState {
        servers: Vec::new(),
        search_query: String::new(),
        refresh_interval: 60,
        auto_refresh: false,
        version: "1.0.24".to_owned(),
    }
}

/// The directory URL fetched for a version: fixed host and route, the
/// version as one path segment.
pub open spec fn url_of(version: Seq<char>) -> Seq<char> {
    "https://prod-crossplay-pavlov-ms.vankrupt.net/servers/v2/list/"@ + version
        + "/steam/0/0/0/all"@
}

/// Build the URL the fetcher GETs for a version string.
pub fn server_list_url(version: &str) -> (r: String)
    ensures
        r@ == url_of(version@),
{
    let mut u = "https://prod-crossplay-pavlov-ms.vankrupt.net/servers/v2/list/".to_owned();
    u.append(version);
    u.append("/steam/0/0/0/all");
    u
}

/// The repeating timer that is armed once an effect has been performed,
/// given the timer armed before it: `Keep` leaves it alone, `Refresh`
/// replaces it with its own (or with none).
pub open spec fn timer_after(armed: Option<u32>, e: Effect) -> Option<u32> {
    match e {
        Effect::Keep => armed,
        Effect::Refresh { repeat_every } => repeat_every,
    }
}

/// Law: with auto-refresh off and the interval at 10, toggling auto-refresh
/// on re-enters the poller with one immediate fetch and a repeating
/// ten-second timer, and changes nothing else in the state. While it is on,
/// a completed fetch keeps the timer as it is, so exactly the timer's
/// ten-second firings re-fetch. Toggling back off re-enters the poller a
/// last time with no timer: every scheduled fetch is cancelled.
pub proof fn lemma_auto_refresh_toggle(s: AppState, list: Vec<Server>)
    requires
        !s.auto_refresh,
        s.refresh_interval == 10,
    ensures
        step_effect(s, Event::AutoRefreshToggled(true)) == (Effect::Refresh {
            repeat_every: Some(10u32),
        }),
        step_state(s, Event::AutoRefreshToggled(true)) == (AppState { auto_refresh: true, ..s }),
        step_effect(step_state(s, Event::AutoRefreshToggled(true)), Event::FetchSucceeded(list))
            == Effect::Keep,
        step_effect(step_state(s, Event::AutoRefreshToggled(true)), Event::AutoRefreshToggled(false))
            == (Effect::Refresh { repeat_every: None }),
        step_state(step_state(s, Event::AutoRefreshToggled(true)), Event::AutoRefreshToggled(false))
            == s,
        forall|armed: Option<u32>|
            timer_after(armed, step_effect(s, Event::AutoRefreshToggled(true))) == Some(10u32),
        forall|armed: Option<u32>|
            #[trigger] timer_after(
                armed,
                step_effect(step_state(s, Event::AutoRefreshToggled(true)), Event::FetchSucceeded(list)),
            ) == armed,
        forall|armed: Option<u32>|
            timer_after(
                armed,
                step_effect(
                    step_state(s, Event::AutoRefreshToggled(true)),
                    Event::AutoRefreshToggled(false),
                ),
            ) == None::<u32>,
{
}

} // verus!
