//! The cache-backed retriever, as a state machine of decisions.
//!
//! One retrieval reads the cache first, and only on a miss sends the
//! network request — after an unconditional delay when the account tier is
//! rate limited. A fresh payload is persisted to the cache before the
//! retrieval counts as done; every failure is classified by
//! [`FetchError`]. The driver performs each [`FetchAction`] (the cache
//! read, the delay, the send, the decode, the persist) and feeds the
//! outcome back as a [`FetchEvent`]; every decision in between is made
//! here, by [`fetch_step`], whose result is pinned to the transition table
//! [`spec_fetch_step`].
//!
//! The laws at the end speak over whole event traces: a retrieval that
//! finds a cache entry never sends a request, and a rate-limited retrieval
//! never sends one before it has waited out a delay.

use vstd::prelude::*;

verus! {

/// Seconds a rate-limited retrieval waits before each send.
pub const RATE_LIMIT_DELAY_SECS: u64 = 2;

/// Why one retrieval failed.
#[derive(Clone, Copy, Debug, PartialEq, Eq, Structural)]
pub enum FetchError {
    /// A cache entry exists but could not be read or decoded.
    CacheReadFailed,
    /// The request could not be sent or no response arrived.
    TransportFailed,
    /// The response carried a non-success status.
    RequestFailed { status: u16 },
    /// The response body could not be decoded.
    DecodeFailed,
    /// The fresh payload could not be persisted to the cache.
    CachePersistFailed,
}

/// Where one retrieval stands.
#[derive(Clone, Copy, Debug, PartialEq, Eq, Structural)]
pub enum FetchState {
    /// Waiting for the outcome of the cache read.
    AwaitCache,
    /// Cache miss on a rate-limited tier: waiting out the delay.
    AwaitDelay,
    /// Request sent: waiting for the response status.
    AwaitResponse,
    /// Success status received: waiting for the body to decode.
    AwaitBody,
    /// Fresh payload decoded: waiting for the cache write.
    AwaitPersist,
    /// The payload is available to the caller.
    Done,
    /// The retrieval failed; nothing further happens.
    Failed(FetchError),
}

/// What the driver observed while performing the last action.
#[derive(Clone, Copy, Debug, PartialEq, Eq, Structural)]
pub enum FetchEvent {
    /// No cache entry exists for the key.
    CacheMissing,
    /// A cache entry was read and decoded.
    CacheDecoded,
    /// A cache entry exists but could not be read or decoded.
    CacheUnreadable,
    /// The rate-limit delay elapsed.
    Delayed,
    /// The request could not be sent.
    SendFailed,
    /// A response arrived with this status code.
    Response { status: u16 },
    /// The response body decoded.
    BodyDecoded,
    /// The response body did not decode.
    BodyUndecodable,
    /// The payload was written to the cache.
    Persisted,
    /// The payload could not be written to the cache.
    PersistFailed,
}

/// What the driver must do next.
#[derive(Clone, Copy, Debug, PartialEq, Eq, Structural)]
pub enum FetchAction {
    /// Read and decode the cache entry for the key.
    ReadCache,
    /// Wait this many seconds before sending.
    Delay { seconds: u64 },
    /// Send the request.
    Send,
    /// Decode the response body.
    DecodeBody,
    /// Write the decoded payload to the cache.
    Persist,
    /// Finish with the cached payload; no request is sent.
    UseCached,
    /// Finish with the freshly fetched payload.
    Finish,
    /// Nothing: the retrieval is over or the event was out of turn.
    Idle,
}

/// A status is a success exactly when it lies in the 2xx range.
pub open spec fn is_success_status(status: u16) -> bool {
    200 <= status < 300
}

/// The transition table: from the tier, the state and the observed event
/// to the next state and the next action.
pub open spec fn spec_fetch_step(rate_limited: bool, state: FetchState, event: FetchEvent) -> (
    FetchState,
    FetchAction,
) {
    match (state, event) {
        (FetchState::AwaitCache, FetchEvent::CacheDecoded) => (
            FetchState::Done,
            FetchAction::UseCached,
        ),
        (FetchState::AwaitCache, FetchEvent::CacheMissing) => {
            if rate_limited {
                (
                    FetchState::AwaitDelay,
                    FetchAction::Delay { seconds: RATE_LIMIT_DELAY_SECS },
                )
            } else {
                (FetchState::AwaitResponse, FetchAction::Send)
            }
        },
        (FetchState::AwaitCache, FetchEvent::CacheUnreadable) => (
            FetchState::Failed(FetchError::CacheReadFailed),
            FetchAction::Idle,
        ),
        (FetchState::AwaitDelay, FetchEvent::Delayed) => (
            FetchState::AwaitResponse,
            FetchAction::Send,
        ),
        (FetchState::AwaitResponse, FetchEvent::SendFailed) => (
            FetchState::Failed(FetchError::TransportFailed),
            FetchAction::Idle,
        ),
        (FetchState::AwaitResponse, FetchEvent::Response { status }) => {
            if is_success_status(status) {
                (FetchState::AwaitBody, FetchAction::DecodeBody)
            } else {
                (FetchState::Failed(FetchError::RequestFailed { status }), FetchAction::Idle)
            }
        },
        (FetchState::AwaitBody, FetchEvent::BodyDecoded) => (
            FetchState::AwaitPersist,
            FetchAction::Persist,
        ),
        (FetchState::AwaitBody, FetchEvent::BodyUndecodable) => (
            FetchState::Failed(FetchError::DecodeFailed),
            FetchAction::Idle,
        ),
        (FetchState::AwaitPersist, FetchEvent::Persisted) => (FetchState::Done, FetchAction::Finish),
        (FetchState::AwaitPersist, FetchEvent::PersistFailed) => (
            FetchState::Failed(FetchError::CachePersistFailed),
            FetchAction::Idle,
        ),
        (s, _) => (s, FetchAction::Idle),
    }
}

/// A retrieval begins by reading the cache.
pub fn fetch_start() -> (r: (FetchState, FetchAction))
    ensures
        r == (FetchState::AwaitCache, FetchAction::ReadCache),
{
    (FetchState::AwaitCache, FetchAction::ReadCache)
}

/// Take one step: exactly the transition of [`spec_fetch_step`].
pub fn fetch_step(rate_limited: bool, state: FetchState, event: FetchEvent) -> (r: (
    FetchState,
    FetchAction,
))
    ensures
        r == spec_fetch_step(rate_limited, state, event),
{
    match (state, event) {
        (FetchState::AwaitCache, FetchEvent::CacheDecoded) => (
            FetchState::Done,
            FetchAction::UseCached,
        ),
        (FetchState::AwaitCache, FetchEvent::CacheMissing) => {
            if rate_limited {
                (
                    FetchState::AwaitDelay,
                    FetchAction::Delay { seconds: RATE_LIMIT_DELAY_SECS },
                )
            } else {
                (FetchState::AwaitResponse, FetchAction::Send)
            }
        },
        (FetchState::AwaitCache, FetchEvent::CacheUnreadable) => (
            FetchState::Failed(FetchError::CacheReadFailed),
            FetchAction::Idle,
        ),
        (FetchState::AwaitDelay, FetchEvent::Delayed) => (
            FetchState::AwaitResponse,
            FetchAction::Send,
        ),
        (FetchState::AwaitResponse, FetchEvent::SendFailed) => (
            FetchState::Failed(FetchError::TransportFailed),
            FetchAction::Idle,
        ),
        (FetchState::AwaitResponse, FetchEvent::Response { status }) => {
            if 200 <= status && status < 300 {
                (FetchState::AwaitBody, FetchAction::DecodeBody)
            } else {
                (FetchState::Failed(FetchError::RequestFailed { status }), FetchAction::Idle)
            }
        },
        (FetchState::AwaitBody, FetchEvent::BodyDecoded) => (
            FetchState::AwaitPersist,
            FetchAction::Persist,
        ),
        (FetchState::AwaitBody, FetchEvent::BodyUndecodable) => (
            FetchState::Failed(FetchError::DecodeFailed),
            FetchAction::Idle,
        ),
        (FetchState::AwaitPersist, FetchEvent::Persisted) => (FetchState::Done, FetchAction::Finish),
        (FetchState::AwaitPersist, FetchEvent::PersistFailed) => (
            FetchState::Failed(FetchError::CachePersistFailed),
            FetchAction::Idle,
        ),
        (s, _) => (s, FetchAction::Idle),
    }
}

/// The state after driving the machine through a whole event trace.
pub open spec fn run_state(rate_limited: bool, state: FetchState, events: Seq<FetchEvent>) -> FetchState
    decreases events.len(),
{
    if events.len() == 0 {
        state
    } else {
        run_state(rate_limited, spec_fetch_step(rate_limited, state, events[0]).0, events.drop_first())
    }
}

/// The actions issued while driving the machine through an event trace.
pub open spec fn run_actions(rate_limited: bool, state: FetchState, events: Seq<FetchEvent>) -> Seq<
    FetchAction,
>
    decreases events.len(),
{
    if events.len() == 0 {
        Seq::empty()
    } else {
        seq![spec_fetch_step(rate_limited, state, events[0]).1] + run_actions(
            rate_limited,
            spec_fetch_step(rate_limited, state, events[0]).0,
            events.drop_first(),
        )
    }
}

/// A finished or failed retrieval issues no further action.
proof fn lemma_terminal_idle(rate_limited: bool, state: FetchState, events: Seq<FetchEvent>)
    requires
        state is Done || state is Failed,
    ensures
        forall|k: int|
            0 <= k < run_actions(rate_limited, state, events).len() ==> run_actions(
                rate_limited,
                state,
                events,
            )[k] == FetchAction::Idle,
    decreases events.len(),
{
    if events.len() > 0 {
        lemma_terminal_idle(rate_limited, state, events.drop_first());
    }
}

/// Law (cache precedence): a retrieval whose cache read finds a decodable
/// entry finishes with the cached payload and never sends a request,
/// whatever events follow.
pub proof fn lemma_cache_hit_sends_nothing(rate_limited: bool, events: Seq<FetchEvent>)
    requires
        events.len() >= 1,
        events[0] == FetchEvent::CacheDecoded,
    ensures
        run_actions(rate_limited, FetchState::AwaitCache, events)[0] == FetchAction::UseCached,
        run_state(rate_limited, FetchState::AwaitCache, events) == FetchState::Done,
        forall|k: int|
            0 <= k < run_actions(rate_limited, FetchState::AwaitCache, events).len()
                ==> run_actions(rate_limited, FetchState::AwaitCache, events)[k]
                != FetchAction::Send,
{
    let rest = events.drop_first();
    lemma_terminal_idle(rate_limited, FetchState::Done, rest);
    lemma_terminal_stays(rate_limited, FetchState::Done, rest);
    let acts = run_actions(rate_limited, FetchState::AwaitCache, events);
    assert forall|k: int| 0 <= k < acts.len() implies acts[k] != FetchAction::Send by {
        if k > 0 {
            assert(acts[k] == run_actions(rate_limited, FetchState::Done, rest)[k - 1]);
        }
    }
}

/// A finished or failed retrieval stays where it is.
proof fn lemma_terminal_stays(rate_limited: bool, state: FetchState, events: Seq<FetchEvent>)
    requires
        state is Done || state is Failed,
    ensures
        run_state(rate_limited, state, events) == state,
    decreases events.len(),
{
    if events.len() > 0 {
        lemma_terminal_stays(rate_limited, state, events.drop_first());
    }
}

/// Law (rate limit): on a rate-limited tier, from any state other than the
/// waited delay itself, every send in the trace is preceded by a full
/// delay of [`RATE_LIMIT_DELAY_SECS`] seconds.
pub proof fn lemma_rate_limited_delays_before_send(state: FetchState, events: Seq<FetchEvent>)
    requires
        !(state is AwaitDelay),
    ensures
        forall|k: int|
            0 <= k < run_actions(true, state, events).len() && run_actions(true, state, events)[k]
                == FetchAction::Send ==> exists|j: int|
                0 <= j < k && run_actions(true, state, events)[j] == (FetchAction::Delay {
                    seconds: RATE_LIMIT_DELAY_SECS,
                }),
    decreases events.len(),
{
    if events.len() > 0 {
        let (next, act) = spec_fetch_step(true, state, events[0]);
        let rest = events.drop_first();
        let acts = run_actions(true, state, events);
        assert(act != FetchAction::Send);
        if next is AwaitDelay {
            assert(act == (FetchAction::Delay { seconds: RATE_LIMIT_DELAY_SECS }));
            assert forall|k: int|
                0 <= k < acts.len() && acts[k] == FetchAction::Send implies exists|j: int|
                0 <= j < k && acts[j] == (FetchAction::Delay {
                    seconds: RATE_LIMIT_DELAY_SECS,
                }) by {
                assert(acts[0] == act);
            }
        } else {
            lemma_rate_limited_delays_before_send(next, rest);
            assert forall|k: int|
                0 <= k < acts.len() && acts[k] == FetchAction::Send implies exists|j: int|
                0 <= j < k && acts[j] == (FetchAction::Delay {
                    seconds: RATE_LIMIT_DELAY_SECS,
                }) by {
                assert(k > 0);
                assert(acts[k] == run_actions(true, next, rest)[k - 1]);
                let j0 = choose|j0: int|
                    0 <= j0 < k - 1 && run_actions(true, next, rest)[j0] == (FetchAction::Delay {
                        seconds: RATE_LIMIT_DELAY_SECS,
                    });
                assert(acts[j0 + 1] == run_actions(true, next, rest)[j0]);
            }
        }
    }
}

} // verus!
