//! The quota tracker: one fixed window of requests per client identity.

use crate::clock::Clock;
use vstd::hash_map::StringHashMap;
use vstd::prelude::*;

verus! {

/// The length of a quota window: sixty seconds, in nanoseconds.
pub const TIMEOUT_NANOS: u64 = 60_000_000_000;

/// The mathematical state of one client's quota window.
pub struct Window {
    /// The time of the request that opened the window.
    pub start: nat,
    /// The requests admitted since `start`.
    pub count: nat,
}

impl Window {
    /// The time that has passed at `now` since the window was opened; zero
    /// where `now` lies before its start.
    pub open spec fn elapsed(self, now: nat) -> nat {
        if now >= self.start {
            (now - self.start) as nat
        } else {
            0
        }
    }

    /// Whether the window has run out at `now`.
    pub open spec fn expired(self, now: nat) -> bool {
        self.elapsed(now) >= TIMEOUT_NANOS
    }

    /// Whether a request at `now` is admitted under `limit`.
    pub open spec fn admits(self, limit: nat, now: nat) -> bool {
        self.expired(now) || self.count < limit
    }

    /// The time that is left at `now` until the window runs out.
    pub open spec fn retry_after(self, now: nat) -> nat {
        (TIMEOUT_NANOS - self.elapsed(now)) as nat
    }

    /// The window after a request at `now` has been evaluated under `limit`.
    pub open spec fn after(self, limit: nat, now: nat) -> Window {
        if self.expired(now) {
            Window { start: now, count: 1 }
        } else if self.count < limit {
            Window { start: self.start, count: self.count + 1 }
        } else {
            self
        }
    }
}

/// The mathematical state of a quota tracker: its limit and the window of
/// every identity it has seen.
pub struct Tracker {
    /// The requests that one identity may make in one window.
    pub limit: nat,
    /// The window of each identity that has made a request.
    pub windows: Map<Seq<char>, Window>,
}

impl Tracker {
    /// A tracker that has seen no request.
    pub open spec fn fresh(limit: nat) -> Tracker {
        Tracker { limit, windows: Map::empty() }
    }

    /// The window that a request of `identity` at `now` is evaluated in: the
    /// one on record, or an empty one opened at `now`.
    pub open spec fn window(self, identity: Seq<char>, now: nat) -> Window {
        if self.windows.contains_key(identity) {
            self.windows[identity]
        } else {
            Window { start: now, count: 0 }
        }
    }

    /// Whether a request of `identity` at `now` is admitted.
    pub open spec fn admits(self, identity: Seq<char>, now: nat) -> bool {
        self.window(identity, now).admits(self.limit, now)
    }

    /// The time after which a request of `identity` that is rejected at
    /// `now` should be tried again.
    pub open spec fn retry_after(self, identity: Seq<char>, now: nat) -> nat {
        self.window(identity, now).retry_after(now)
    }

    /// The answer to a request of `identity` at `now`: admitted, or rejected
    /// with the time to wait.
    pub open spec fn verdict(self, identity: Seq<char>, now: nat) -> Result<(), LimitError> {
        if self.admits(identity, now) {
            Ok(())
        } else {
            Err(LimitError::Timeout(self.retry_after(identity, now) as u64))
        }
    }

    /// The tracker after a request of `identity` at `now` has been
    /// evaluated, whether it was admitted or not.
    pub open spec fn after(self, identity: Seq<char>, now: nat) -> Tracker {
        Tracker {
            limit: self.limit,
            windows: self.windows.insert(
                identity,
                self.window(identity, now).after(self.limit, now),
            ),
        }
    }

    /// Whether no window counts more requests than the limit admits, or
    /// than the one request that opened it.
    pub open spec fn within_limit(self) -> bool {
        forall|identity: Seq<char>| #[trigger]
            self.windows.contains_key(identity) ==> self.windows[identity].count <= self.limit
                || self.windows[identity].count <= 1
    }

    /// The tracker after `identity` has made one request at each of
    /// `times`, in that order.
    pub open spec fn after_each(self, identity: Seq<char>, times: Seq<nat>) -> Tracker
        decreases times.len(),
    {
        if times.len() == 0 {
            self
        } else {
            self.after_each(identity, times.drop_last()).after(identity, times.last())
        }
    }
}

/// The quota window of one client, as the tracker stores it.
#[derive(Clone, Copy, Debug)]
pub struct LimitWindow {
    /// The time of the first request in this window, in nanoseconds on the
    /// tracker's clock. The count is valid for sixty seconds from here.
    pub first_request: u64,
    /// The requests admitted since `first_request`.
    pub request_count: usize,
}

impl View for LimitWindow {
    type V = Window;

    open spec fn view(&self) -> Window {
        Window { start: self.first_request as nat, count: self.request_count as nat }
    }
}

impl LimitWindow {
    /// An empty window opened at `now`.
    pub fn new(now: u64) -> (window: LimitWindow)
        ensures
            window@ == (Window { start: now as nat, count: 0 }),
    {
        LimitWindow { first_request: now, request_count: 0 }
    }
}

/// Why a request was not admitted.
#[derive(Clone, Copy, Debug, PartialEq, Eq, Structural)]
pub enum LimitError {
    /// The client has used up its quota. The value is the time in
    /// nanoseconds after which the next request can be made.
    Timeout(u64),
}

/// A quota tracker: admits up to `limit` requests of each identity in each
/// window of sixty seconds.
pub struct Limiter {
    /// How many requests are allowed in one window.
    limit: usize,
    limit_windows: StringHashMap<LimitWindow>,
    clock: Clock,
}

impl View for Limiter {
    type V = Tracker;

    closed spec fn view(&self) -> Tracker {
        Tracker {
            limit: self.limit as nat,
            windows: self.limit_windows@.map_values(|w: LimitWindow| w@),
        }
    }
}

impl Limiter {
    /// The latest time that the tracker has read from its clock; zero as
    /// long as it has read none.
    pub closed spec fn latest(&self) -> u64 {
        self.clock.latest()
    }

    /// A tracker with the given limit of requests per window, which has seen
    /// no request and read no time.
    pub fn new(limit: usize) -> (limiter: Limiter)
        ensures
            limiter@ == Tracker::fresh(limit as nat),
            limiter.latest() == 0,
    {
        let limiter = Limiter { limit, limit_windows: StringHashMap::new(), clock: Clock::new() };
        assert(limiter@.windows =~= Map::empty());
        limiter
    }

    /// Counts a request of the client with the given token at the time `now`
    /// and decides whether to allow it. Returns an error if the client is
    /// rate limited, with the time after which it should try again.
    pub fn validate_request_at(&mut self, authorization_token: String, now: u64) -> (result: Result<
        (),
        LimitError,
    >)
        ensures
            result == old(self)@.verdict(authorization_token@, now as nat),
            final(self)@ == old(self)@.after(authorization_token@, now as nat),
            final(self).latest() == old(self).latest(),
    {
        let window = match self.limit_windows.get(authorization_token.as_str()) {
            Some(known) => *known,
            None => LimitWindow::new(now),
        };
        assert(window@ == old(self)@.window(authorization_token@, now as nat));
        let elapsed: u64 = if now >= window.first_request {
            now - window.first_request
        } else {
            0
        };
        let (next, result) = if elapsed >= TIMEOUT_NANOS {
            (LimitWindow { first_request: now, request_count: 1 }, Ok(()))
        } else if window.request_count < self.limit {
            (
                LimitWindow {
                    first_request: window.first_request,
                    request_count: window.request_count + 1,
                },
                Ok(()),
            )
        } else {
            (window, Err(LimitError::Timeout(TIMEOUT_NANOS - elapsed)))
        };
        self.limit_windows.insert(authorization_token, next);
        assert(self@.windows =~= old(self)@.after(authorization_token@, now as nat).windows);
        result
    }

    /// Counts a request of the client with the given token at the present
    /// time, read from the tracker's clock, and decides whether to allow it.
    /// The time is no less than the one that the tracker read before.
    pub fn validate_request(&mut self, authorization_token: String) -> (result: Result<
        (),
        LimitError,
    >)
        ensures
            old(self).latest() <= final(self).latest(),
            result == old(self)@.verdict(authorization_token@, final(self).latest() as nat),
            final(self)@ == old(self)@.after(authorization_token@, final(self).latest() as nat),
    {
        let now: u64 = self.clock.now();
        assert(self@ == old(self)@);
        self.validate_request_at(authorization_token, now)
    }
}

/// Once the first `done` of `times` have been answered, all of them admitted
/// in the window that the first one opened, that window is on record with
/// `done` requests counted.
proof fn lemma_window_fills(tracker: Tracker, identity: Seq<char>, times: Seq<nat>, done: int)
    requires
        1 <= done <= times.len(),
        done <= tracker.limit,
        forall|i: int|
            0 <= i < times.len() ==> times[0] <= #[trigger] times[i] < times[0] + TIMEOUT_NANOS,
        !tracker.windows.contains_key(identity) || tracker.windows[identity].expired(times[0]),
    ensures
        tracker.after_each(identity, times.take(done)).limit == tracker.limit,
        tracker.after_each(identity, times.take(done)).windows.contains_key(identity),
        tracker.after_each(identity, times.take(done)).windows[identity] == (Window {
            start: times[0],
            count: done as nat,
        }),
    decreases done,
{
    let answered = times.take(done);
    assert(answered.drop_last() == times.take(done - 1));
    assert(answered.last() == times[done - 1]);
    if done == 1 {
        assert(tracker.after_each(identity, times.take(0)) == tracker);
    } else {
        lemma_window_fills(tracker, identity, times, done - 1);
    }
}

/// A client that opens a window and makes `limit + 1` requests in it has the
/// first `limit` admitted, and the last one rejected with the time that is
/// left of the window, which is more than nothing. The window is opened by
/// the first request of an identity, or by the first one after its last
/// window has run out.
pub proof fn lemma_limit_admitted_then_rejected(
    tracker: Tracker,
    identity: Seq<char>,
    times: Seq<nat>,
)
    requires
        times.len() == tracker.limit + 1,
        forall|i: int|
            0 <= i < times.len() ==> times[0] <= #[trigger] times[i] < times[0] + TIMEOUT_NANOS,
        !tracker.windows.contains_key(identity) || (tracker.limit > 0
            && tracker.windows[identity].expired(times[0])),
    ensures
        forall|k: int|
            0 <= k < tracker.limit ==> (#[trigger] tracker.after_each(
                identity,
                times.take(k),
            )).verdict(identity, times[k]) is Ok,
        tracker.after_each(identity, times.take(tracker.limit as int)).verdict(
            identity,
            times[tracker.limit as int],
        ) == Err::<(), LimitError>(
            LimitError::Timeout((TIMEOUT_NANOS - (times[tracker.limit as int] - times[0])) as u64),
        ),
        TIMEOUT_NANOS - (times[tracker.limit as int] - times[0]) > 0,
{
    assert(tracker.after_each(identity, times.take(0)) == tracker);
    assert forall|k: int| 0 <= k < tracker.limit implies (#[trigger] tracker.after_each(
        identity,
        times.take(k),
    )).verdict(identity, times[k]) is Ok by {
        if k > 0 {
            lemma_window_fills(tracker, identity, times, k);
        }
    }
    if tracker.limit > 0 {
        lemma_window_fills(tracker, identity, times, tracker.limit as int);
    }
}

/// A rejection leaves the window as it was. While the window lasts, the
/// client stays rejected, and the time it is told to wait is more than
/// nothing and does not grow as time passes. Once the window has run out,
/// the next request is admitted and opens a window in which it is the only
/// request. A client that waits as long as it was told to is admitted.
pub proof fn lemma_retry_shrinks_until_reset(
    tracker: Tracker,
    identity: Seq<char>,
    earlier: nat,
    later: nat,
)
    requires
        earlier <= later,
        tracker.verdict(identity, earlier) is Err,
    ensures
        ({
            let window = tracker.window(identity, earlier);
            let wait = tracker.retry_after(identity, earlier);
            let rejected = tracker.after(identity, earlier);
            &&& tracker.verdict(identity, earlier) == Err::<(), LimitError>(
                LimitError::Timeout(wait as u64),
            )
            &&& 0 < wait <= TIMEOUT_NANOS
            &&& rejected.window(identity, later) == window
            &&& later < window.start + TIMEOUT_NANOS ==> {
                &&& rejected.verdict(identity, later) == Err::<(), LimitError>(
                    LimitError::Timeout(rejected.retry_after(identity, later) as u64),
                )
                &&& 0 < rejected.retry_after(identity, later) <= wait
            }
            &&& later >= window.start + TIMEOUT_NANOS ==> {
                &&& rejected.verdict(identity, later) is Ok
                &&& rejected.after(identity, later).window(identity, later) == (Window {
                    start: later,
                    count: 1,
                })
            }
            &&& window.start <= earlier ==> rejected.verdict(identity, earlier + wait) is Ok
        }),
{
}

/// No request takes a window past the limit: a tracker that has seen no
/// request counts within its limit, and so does every tracker after it.
pub proof fn lemma_counts_stay_within_limit(tracker: Tracker, identity: Seq<char>, now: nat)
    ensures
        Tracker::fresh(tracker.limit).within_limit(),
        tracker.within_limit() ==> tracker.after(identity, now).within_limit(),
{
}

/// The requests of one identity change nothing for another: its window, and
/// so the answer to its next request, are what they were.
pub proof fn lemma_identities_isolated(
    tracker: Tracker,
    other: Seq<char>,
    times: Seq<nat>,
    identity: Seq<char>,
    now: nat,
)
    requires
        other != identity,
    ensures
        tracker.after_each(other, times).limit == tracker.limit,
        tracker.after_each(other, times).window(identity, now) == tracker.window(identity, now),
        tracker.after_each(other, times).verdict(identity, now) == tracker.verdict(identity, now),
    decreases times.len(),
{
    if times.len() > 0 {
        lemma_identities_isolated(tracker, other, times.drop_last(), identity, now);
    }
}

} // verus!
