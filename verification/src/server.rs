//! The request gateway: one quota tracker per logical route.

use crate::clock::Clock;
use crate::limiter::{
    lemma_identities_isolated, lemma_limit_admitted_then_rejected, LimitError, Limiter, Tracker,
    Window, TIMEOUT_NANOS,
};
use std::collections::HashMap;
use vstd::prelude::*;

verus! {

broadcast use vstd::std_specs::hash::group_hash_axioms;

/// The routes that the gateway serves.
#[derive(Clone, Copy, Debug, PartialEq, Eq, Structural, Hash)]
pub enum Route {
    /// `POST /vault`
    Vault,
    /// `GET /vault/items`
    Items,
    /// `PUT /vault/items/{id}`. The id is carried along; all items share
    /// one quota.
    Id(usize),
}

impl Route {
    /// The number of requests for this route that one client may make in
    /// one window.
    pub open spec fn spec_request_limit(&self) -> usize {
        match self {
            Route::Vault => 3,
            Route::Items => 1200,
            Route::Id(_) => 60,
        }
    }

    /// The number of requests for this route that one client may make in
    /// one window.
    #[verifier::when_used_as_spec(spec_request_limit)]
    pub fn request_limit(&self) -> (limit: usize)
        ensures
            limit == self.spec_request_limit(),
    {
        match self {
            Route::Vault => 3,
            Route::Items => 1200,
            Route::Id(_) => 60,
        }
    }

    /// The key under which the gateway keeps the tracker of this route.
    pub open spec fn spec_slot(&self) -> u8 {
        match self {
            Route::Vault => 0,
            Route::Items => 1,
            Route::Id(_) => 2,
        }
    }

    /// The key under which the gateway keeps the tracker of this route. Two
    /// routes have the same key if and only if they share a quota.
    #[verifier::when_used_as_spec(spec_slot)]
    pub fn slot(&self) -> (slot: u8)
        ensures
            slot == self.spec_slot(),
    {
        match self {
            Route::Vault => 0,
            Route::Items => 1,
            Route::Id(_) => 2,
        }
    }
}

/// The mathematical state of the gateway: the windows of every identity,
/// route by route. A route that has seen no request has no windows.
pub struct Gateway {
    /// The windows of `POST /vault`.
    pub vault: Map<Seq<char>, Window>,
    /// The windows of `GET /vault/items`.
    pub items: Map<Seq<char>, Window>,
    /// The windows of `PUT /vault/items/{id}`, whatever the id.
    pub item: Map<Seq<char>, Window>,
}

impl Gateway {
    /// A gateway that has seen no request.
    pub open spec fn fresh() -> Gateway {
        Gateway { vault: Map::empty(), items: Map::empty(), item: Map::empty() }
    }

    /// The state of the tracker that answers for `route`: the limit of the
    /// route and the windows on record for it.
    pub open spec fn tracker(self, route: Route) -> Tracker {
        Tracker {
            limit: route.spec_request_limit() as nat,
            windows: match route {
                Route::Vault => self.vault,
                Route::Items => self.items,
                Route::Id(_) => self.item,
            },
        }
    }

    /// The gateway with the windows of `route` replaced.
    pub open spec fn with_windows(self, route: Route, windows: Map<Seq<char>, Window>) -> Gateway {
        match route {
            Route::Vault => Gateway { vault: windows, ..self },
            Route::Items => Gateway { items: windows, ..self },
            Route::Id(_) => Gateway { item: windows, ..self },
        }
    }

    /// The answer to a request of `identity` for `route` at `now`: that of
    /// the route's tracker.
    pub open spec fn verdict(self, route: Route, identity: Seq<char>, now: nat) -> Result<
        (),
        LimitError,
    > {
        self.tracker(route).verdict(identity, now)
    }

    /// The gateway after a request of `identity` for `route` at `now` has
    /// been evaluated, whether it was admitted or not.
    pub open spec fn after(self, route: Route, identity: Seq<char>, now: nat) -> Gateway {
        self.with_windows(route, self.tracker(route).after(identity, now).windows)
    }

    /// The gateway after `identity` has made one request for `route` at each
    /// of `times`, in that order.
    pub open spec fn after_each(self, route: Route, identity: Seq<char>, times: Seq<nat>) -> Gateway
        decreases times.len(),
    {
        if times.len() == 0 {
            self
        } else {
            self.after_each(route, identity, times.drop_last()).after(route, identity, times.last())
        }
    }
}

/// The trackers of a gateway, each under the key of its route. A tracker
/// is made with the limit of its route when the route is first asked for.
struct Trackers {
    limiters: HashMap<u8, Limiter>,
}

impl Trackers {
    /// Every tracker on record carries the limit of the route it is kept
    /// for.
    #[verifier::type_invariant]
    spec fn limits_match(self) -> bool {
        forall|route: Route| #[trigger]
            self.limiters@.contains_key(route.spec_slot()) ==> self.limiters@[route.spec_slot()]@.limit
                == route.spec_request_limit()
    }

    /// The windows that are on record for `route`.
    spec fn windows_of(self, route: Route) -> Map<Seq<char>, Window> {
        if self.limiters@.contains_key(route.spec_slot()) {
            self.limiters@[route.spec_slot()]@.windows
        } else {
            Map::empty()
        }
    }

    /// The windows on record, route by route.
    spec fn gateway(self) -> Gateway {
        Gateway {
            vault: self.windows_of(Route::Vault),
            items: self.windows_of(Route::Items),
            item: self.windows_of(Route::Id(0)),
        }
    }

    /// No tracker yet.
    fn new() -> (trackers: Trackers)
        ensures
            trackers.gateway() == Gateway::fresh(),
    {
        Trackers { limiters: HashMap::new() }
    }

    /// Lets the tracker of `request` answer a request of the client with
    /// the given token at the time `now`.
    fn evaluate(&mut self, request: Route, authorization_token: String, now: u64) -> (result: Result<
        (),
        LimitError,
    >)
        ensures
            result == old(self).gateway().verdict(request, authorization_token@, now as nat),
            final(self).gateway() == old(self).gateway().after(
                request,
                authorization_token@,
                now as nat,
            ),
    {
        proof {
            use_type_invariant(&*self);
        }
        let slot: u8 = request.slot();
        // The map leaves its place while the tracker is at work, and comes
        // back with the tracker in it.
        let mut limiters: HashMap<u8, Limiter> = HashMap::new();
        core::mem::swap(&mut self.limiters, &mut limiters);
        let mut limiter = match limiters.remove(&slot) {
            Some(known) => known,
            None => Limiter::new(request.request_limit()),
        };
        assert(limiter@ == old(self).gateway().tracker(request));
        let result = limiter.validate_request_at(authorization_token, now);
        limiters.insert(slot, limiter);
        core::mem::swap(&mut self.limiters, &mut limiters);
        result
    }
}

/// The gateway: resolves the tracker of a route, creating it on first use,
/// and lets it decide.
pub struct Server {
    trackers: Trackers,
    clock: Clock,
}

impl View for Server {
    type V = Gateway;

    closed spec fn view(&self) -> Gateway {
        self.trackers.gateway()
    }
}

impl Server {
    /// The latest time that the gateway has read from its clock; zero as
    /// long as it has read none.
    pub closed spec fn latest(&self) -> u64 {
        self.clock.latest()
    }

    /// A gateway that has seen no request and read no time.
    pub fn new() -> (server: Server)
        ensures
            server@ == Gateway::fresh(),
            server.latest() == 0,
    {
        Server { trackers: Trackers::new(), clock: Clock::new() }
    }

    /// Answers a request of the client with the given token for `request`
    /// at the time `now`: `Ok(())` if the request is admitted, or the error
    /// of the route's tracker if the client is rate limited. The tracker is
    /// made with the route's limit when the route is first asked for. The
    /// clock is not read.
    pub fn handle_request_at(
        &mut self,
        request: Route,
        authorization_token: String,
        now: u64,
    ) -> (result: Result<(), LimitError>)
        ensures
            result == old(self)@.verdict(request, authorization_token@, now as nat),
            final(self)@ == old(self)@.after(request, authorization_token@, now as nat),
            final(self).latest() == old(self).latest(),
    {
        self.trackers.evaluate(request, authorization_token, now)
    }

    /// Answers a request of the client with the given token for `request`
    /// at the present time, read from the gateway's clock. The time is no
    /// less than the one that the gateway read before.
    pub fn handle_request(&mut self, request: Route, authorization_token: String) -> (result: Result<
        (),
        LimitError,
    >)
        ensures
            old(self).latest() <= final(self).latest(),
            result == old(self)@.verdict(
                request,
                authorization_token@,
                final(self).latest() as nat,
            ),
            final(self)@ == old(self)@.after(
                request,
                authorization_token@,
                final(self).latest() as nat,
            ),
    {
        let now: u64 = self.clock.now();
        self.handle_request_at(request, authorization_token, now)
    }
}

/// What the gateway does to the tracker of a route is what that tracker
/// does by itself, and the trackers of the routes that do not share its
/// quota stay as they are.
pub proof fn lemma_gateway_delegates(
    gateway: Gateway,
    route: Route,
    identity: Seq<char>,
    times: Seq<nat>,
    other: Route,
)
    ensures
        gateway.after_each(route, identity, times).tracker(route) == gateway.tracker(
            route,
        ).after_each(identity, times),
        other.spec_slot() != route.spec_slot() ==> gateway.after_each(
            route,
            identity,
            times,
        ).tracker(other) == gateway.tracker(other),
    decreases times.len(),
{
    if times.len() > 0 {
        lemma_gateway_delegates(gateway, route, identity, times.drop_last(), other);
    }
}

/// Whatever the route, a client that opens a window and makes one request
/// more than the route's limit in it has all but the last admitted, and the
/// last one rejected with the time that is left of the window, which is
/// more than nothing. The window is opened by the first request of an
/// identity for the route, or by the first one after its last window has
/// run out.
pub proof fn lemma_route_limit_admitted_then_rejected(
    gateway: Gateway,
    route: Route,
    identity: Seq<char>,
    times: Seq<nat>,
)
    requires
        times.len() == route.spec_request_limit() + 1,
        forall|i: int|
            0 <= i < times.len() ==> times[0] <= #[trigger] times[i] < times[0] + TIMEOUT_NANOS,
        !gateway.tracker(route).windows.contains_key(identity) || gateway.tracker(
            route,
        ).windows[identity].expired(times[0]),
    ensures
        forall|k: int|
            0 <= k < route.spec_request_limit() ==> (#[trigger] gateway.after_each(
                route,
                identity,
                times.take(k),
            )).verdict(route, identity, times[k]) is Ok,
        gateway.after_each(route, identity, times.take(route.spec_request_limit() as int)).verdict(
            route,
            identity,
            times[route.spec_request_limit() as int],
        ) == Err::<(), LimitError>(
            LimitError::Timeout(
                (TIMEOUT_NANOS - (times[route.spec_request_limit() as int] - times[0])) as u64,
            ),
        ),
        TIMEOUT_NANOS - (times[route.spec_request_limit() as int] - times[0]) > 0,
{
    let tracker = gateway.tracker(route);
    lemma_limit_admitted_then_rejected(tracker, identity, times);
    assert forall|k: int| 0 <= k < route.spec_request_limit() implies (#[trigger] gateway.after_each(
        route,
        identity,
        times.take(k),
    )).verdict(route, identity, times[k]) is Ok by {
        lemma_gateway_delegates(gateway, route, identity, times.take(k), route);
        assert(tracker.after_each(identity, times.take(k)).verdict(identity, times[k]) is Ok);
    }
    lemma_gateway_delegates(
        gateway,
        route,
        identity,
        times.take(route.spec_request_limit() as int),
        route,
    );
}

/// Under one route, the requests of one identity change nothing for
/// another: the answer to its next request is what it was.
pub proof fn lemma_route_identities_isolated(
    gateway: Gateway,
    route: Route,
    other: Seq<char>,
    times: Seq<nat>,
    identity: Seq<char>,
    now: nat,
)
    requires
        other != identity,
    ensures
        gateway.after_each(route, other, times).verdict(route, identity, now) == gateway.verdict(
            route,
            identity,
            now,
        ),
{
    lemma_gateway_delegates(gateway, route, other, times, route);
    lemma_identities_isolated(gateway.tracker(route), other, times, identity, now);
}

/// The requests for one route change nothing for a route with another
/// quota: whatever a client has used up there, the windows here, and so the
/// answer to the next request here, are what they were.
pub proof fn lemma_routes_isolated(
    gateway: Gateway,
    busy: Route,
    other: Seq<char>,
    times: Seq<nat>,
    route: Route,
    identity: Seq<char>,
    now: nat,
)
    requires
        busy.spec_slot() != route.spec_slot(),
    ensures
        gateway.after_each(busy, other, times).tracker(route) == gateway.tracker(route),
        gateway.after_each(busy, other, times).verdict(route, identity, now) == gateway.verdict(
            route,
            identity,
            now,
        ),
{
    lemma_gateway_delegates(gateway, busy, other, times, route);
}

} // verus!
