//! A sliding-window rate limiter keyed by client identity. For each identity
//! it stores the instants of the requests it admitted; an instant leaves the
//! log once it is a full window old, and a request is admitted while fewer
//! than `max_requests` instants remain.
//!
//! Instants are counted in nanoseconds from the moment the limiter was made.

use std::time::Instant;
use vstd::hash_map::StringHashMap;
use vstd::prelude::*;

verus! {

/// `std::time::Instant`, a measurement of a monotonically nondecreasing clock.
#[verifier::external_type_specification]
#[verifier::external_body]
pub struct ExInstant(Instant);

/// `Instant::now`: the current instant. Nothing is claimed of it.
#[verifier::external_body]
fn clock_origin() -> (origin: Instant) {
    Instant::now()
}

/// `Instant::elapsed`: the time that has passed since `origin`, turned into
/// whole nanoseconds by `Duration::as_nanos`. The result depends on the
/// clock; nothing is claimed of it.
#[verifier::external_body]
fn nanos_since(origin: &Instant) -> (elapsed: u128) {
    origin.elapsed().as_nanos()
}

/// How long ago `then` is at `now`. An instant that lies ahead of `now` has
/// age zero.
pub open spec fn age(now: nat, then: nat) -> nat {
    if now >= then {
        (now - then) as nat
    } else {
        0
    }
}

/// The test that an instant is younger than `window` at `now`.
pub open spec fn in_window(now: nat, window: nat) -> spec_fn(nat) -> bool {
    |then: nat| age(now, then) < window
}

/// What remains of `log` at `now`: the instants younger than `window`, in
/// their order. An instant exactly `window` old has expired.
pub open spec fn live(log: Seq<nat>, now: nat, window: nat) -> Seq<nat> {
    log.filter(in_window(now, window))
}

/// The instants of a stored log as natural numbers.
pub open spec fn stamps(log: Seq<u128>) -> Seq<nat> {
    Seq::new(log.len(), |i: int| log[i] as nat)
}

/// The state of a rate limiter: its two settings and, for each identity seen
/// so far, the log of its admitted requests.
pub struct LimiterView {
    pub max_requests: nat,
    pub window: nat,
    pub logs: Map<Seq<char>, Seq<nat>>,
}

impl LimiterView {
    /// The log of `identity`; empty for an identity not seen so far.
    pub open spec fn log(self, identity: Seq<char>) -> Seq<nat> {
        if self.logs.contains_key(identity) {
            self.logs[identity]
        } else {
            Seq::empty()
        }
    }

    /// Whether a request of `identity` at `now` is admitted: fewer than
    /// `max_requests` instants of its log are still within the window.
    pub open spec fn admits(self, identity: Seq<char>, now: nat) -> bool {
        live(self.log(identity), now, self.window).len() < self.max_requests
    }

    /// The state after a request of `identity` at `now`: the expired instants
    /// have left its log, and `now` has joined it if the request was admitted.
    /// The logs of other identities are untouched.
    pub open spec fn after(self, identity: Seq<char>, now: nat) -> LimiterView {
        let kept = live(self.log(identity), now, self.window);
        LimiterView {
            max_requests: self.max_requests,
            window: self.window,
            logs: self.logs.insert(
                identity,
                if self.admits(identity, now) {
                    kept.push(now)
                } else {
                    kept
                },
            ),
        }
    }

    /// No log holds more than `max_requests` instants.
    pub open spec fn wf(self) -> bool {
        forall|identity: Seq<char>| #[trigger]
            self.logs.contains_key(identity) ==> self.logs[identity].len() <= self.max_requests
    }
}

/// The rate limiter.
pub struct RateLimiter {
    requests: StringHashMap<Vec<u128>>,
    max_requests: usize,
    window: u128,
    origin: Instant,
}

impl View for RateLimiter {
    type V = LimiterView;

    closed spec fn view(&self) -> LimiterView {
        LimiterView {
            max_requests: self.max_requests as nat,
            window: self.window as nat,
            logs: Map::new(
                |identity: Seq<char>| self.requests@.contains_key(identity),
                |identity: Seq<char>| stamps(self.requests@[identity]@),
            ),
        }
    }
}

/// The instants of `stored` that are younger than `window` at `now`, in
/// their order.
fn still_live(stored: &Vec<u128>, now: u128, window: u128) -> (kept: Vec<u128>)
    ensures
        stamps(kept@) == live(stamps(stored@), now as nat, window as nat),
{
    let ghost young = in_window(now as nat, window as nat);
    let mut kept: Vec<u128> = Vec::new();
    let mut i: usize = 0;
    proof {
        reveal(Seq::filter);
    }
    while i < stored.len()
        invariant
            i <= stored.len(),
            young == in_window(now as nat, window as nat),
            stamps(kept@) == stamps(stored@.take(i as int)).filter(young),
        decreases stored.len() - i,
    {
        let then: u128 = stored[i];
        let elapsed: u128 = if now >= then {
            now - then
        } else {
            0
        };
        proof {
            let prefix = stamps(stored@.take(i as int));
            assert(stamps(stored@.take(i + 1)) =~= prefix.push(then as nat));
            prefix.lemma_filter_push(then as nat, young);
        }
        if elapsed < window {
            kept.push(then);
        }
        i = i + 1;
    }
    assert(stored@.take(i as int) =~= stored@);
    kept
}

impl RateLimiter {
    /// Every limiter that exists keeps each log within `max_requests`.
    #[verifier::type_invariant]
    spec fn well_formed(&self) -> bool {
        self@.wf()
    }

    /// A limiter that admits at most `max_requests` requests of one identity
    /// within any `window_nanos` nanoseconds. No identity has been seen yet.
    pub fn new(max_requests: usize, window_nanos: u128) -> (limiter: RateLimiter)
        ensures
            limiter@ == (LimiterView {
                max_requests: max_requests as nat,
                window: window_nanos as nat,
                logs: Map::empty(),
            }),
    {
        let limiter = RateLimiter {
            requests: StringHashMap::new(),
            max_requests,
            window: window_nanos,
            origin: clock_origin(),
        };
        assert(limiter@.logs =~= Map::<Seq<char>, Seq<nat>>::empty());
        limiter
    }

    /// The most requests of one identity that a window may hold.
    pub fn max_requests(&self) -> (max: usize)
        ensures
            max == self@.max_requests,
    {
        self.max_requests
    }

    /// The length of the window in nanoseconds.
    pub fn window_nanos(&self) -> (window: u128)
        ensures
            window == self@.window,
    {
        self.window
    }

    /// The stored log of `identity`.
    pub fn recorded(&self, identity: &str) -> (log: Vec<u128>)
        ensures
            stamps(log@) == self@.log(identity@),
    {
        let mut log: Vec<u128> = Vec::new();
        match self.requests.get(identity) {
            Some(stored) => {
                let mut i: usize = 0;
                while i < stored.len()
                    invariant
                        i <= stored.len(),
                        log@ == stored@.take(i as int),
                    decreases stored.len() - i,
                {
                    log.push(stored[i]);
                    i = i + 1;
                }
            },
            None => {},
        }
        log
    }

    /// Decides on a request of `identity` at the instant `now` and records
    /// it if it is admitted. Returns `true` when the request is rejected.
    pub fn check_and_record(&mut self, identity: &str, now: u128) -> (limited: bool)
        ensures
            final(self)@ == old(self)@.after(identity@, now as nat),
            limited == !old(self)@.admits(identity@, now as nat),
            final(self)@.wf(),
            limited ==> final(self)@.log(identity@) == old(self)@.log(identity@),
    {
        proof {
            use_type_invariant(&*self);
        }
        let ghost before = self@;
        let ghost old_log = before.log(identity@);
        let ghost young = in_window(now as nat, self.window as nat);
        let mut requests: StringHashMap<Vec<u128>> = StringHashMap::new();
        core::mem::swap(&mut requests, &mut self.requests);
        let mut kept = match requests.get(identity) {
            Some(stored) => still_live(stored, now, self.window),
            None => {
                proof {
                    reveal(Seq::filter);
                }
                Vec::new()
            },
        };
        assert(stamps(kept@) == old_log.filter(young));
        proof {
            old_log.lemma_filter_len(young);
        }
        let limited = kept.len() >= self.max_requests;
        if limited {
            proof {
                lemma_filter_of_full_length(old_log, young);
            }
        } else {
            let ghost shorter = kept@;
            kept.push(now);
            assert(stamps(kept@) =~= stamps(shorter).push(now as nat));
        }
        let ghost new_log = stamps(kept@);
        requests.insert(identity.to_owned(), kept);
        assert forall|other: Seq<char>| #[trigger] requests@.contains_key(other) implies stamps(
            requests@[other]@,
        ).len() <= self.max_requests by {
            if other != identity@ {
                assert(before.logs.contains_key(other));
            }
        }
        self.requests = requests;
        assert(self@.logs =~= before.logs.insert(identity@, new_log));
        limited
    }

    /// Decides on a request of `ip` at the current instant and records it if
    /// it is admitted. Returns `true` when the request is rejected. A
    /// rejected request leaves the log of `ip` as it was.
    pub fn is_rate_limited(&mut self, ip: &str) -> (limited: bool)
        ensures
            exists|now: nat|
                final(self)@ == #[trigger] old(self)@.after(ip@, now) && limited == !old(
                    self,
                )@.admits(ip@, now),
            final(self)@.wf(),
            limited ==> final(self)@.log(ip@) == old(self)@.log(ip@),
    {
        let now = nanos_since(&self.origin);
        self.check_and_record(ip, now)
    }
}

/// A filter that removes nothing from a sequence leaves it as it is.
proof fn lemma_filter_of_full_length<A>(s: Seq<A>, pred: spec_fn(A) -> bool)
    requires
        s.filter(pred).len() >= s.len(),
    ensures
        s.filter(pred) == s,
    decreases s.len(),
{
    reveal(Seq::filter);
    if s.len() > 0 {
        s.drop_last().lemma_filter_len(pred);
        lemma_filter_of_full_length(s.drop_last(), pred);
    }
}

/// A filter that every element passes leaves the sequence as it is.
proof fn lemma_filter_keeps_all<A>(s: Seq<A>, pred: spec_fn(A) -> bool)
    requires
        forall|i: int| 0 <= i < s.len() ==> pred(#[trigger] s[i]),
    ensures
        s.filter(pred) == s,
    decreases s.len(),
{
    reveal(Seq::filter);
    if s.len() > 0 {
        lemma_filter_keeps_all(s.drop_last(), pred);
    }
}

/// A filter that removes an element makes the sequence shorter.
proof fn lemma_filter_drops<A>(s: Seq<A>, pred: spec_fn(A) -> bool, i: int)
    requires
        0 <= i < s.len(),
        !pred(s[i]),
    ensures
        s.filter(pred).len() < s.len(),
    decreases s.len(),
{
    reveal(Seq::filter);
    s.drop_last().lemma_filter_len(pred);
    if i < s.len() - 1 {
        lemma_filter_drops(s.drop_last(), pred, i);
    }
}

/// Filtering by a weaker test first does not change what a stronger test
/// keeps, and the stronger test keeps no more than the weaker.
proof fn lemma_filter_twice<A>(s: Seq<A>, weak: spec_fn(A) -> bool, strong: spec_fn(A) -> bool)
    requires
        forall|a: A| #[trigger] strong(a) ==> weak(a),
    ensures
        s.filter(weak).filter(strong) == s.filter(strong),
        s.filter(strong).len() <= s.filter(weak).len(),
    decreases s.len(),
{
    reveal(Seq::filter);
    if s.len() > 0 {
        lemma_filter_twice(s.drop_last(), weak, strong);
        if weak(s.last()) {
            s.drop_last().filter(weak).lemma_filter_push(s.last(), strong);
        }
    }
    s.filter(weak).lemma_filter_len(strong);
}

/// The state after requests of `identity` at the instants `times`, in order.
pub open spec fn replay(state: LimiterView, identity: Seq<char>, times: Seq<nat>) -> LimiterView
    decreases times.len(),
{
    if times.len() == 0 {
        state
    } else {
        replay(state, identity, times.drop_last()).after(identity, times.last())
    }
}

/// How many of the requests of `identity` at the instants `times`, made in
/// order from `state`, are admitted.
pub open spec fn admitted_count(state: LimiterView, identity: Seq<char>, times: Seq<nat>) -> nat
    decreases times.len(),
{
    if times.len() == 0 {
        0
    } else {
        let earlier = admitted_count(state, identity, times.drop_last());
        if replay(state, identity, times.drop_last()).admits(identity, times.last()) {
            earlier + 1
        } else {
            earlier
        }
    }
}

/// All of `times` lie in one interval shorter than `span`: no two of them
/// are `span` or more apart.
pub open spec fn within_span(times: Seq<nat>, span: nat) -> bool {
    forall|i: int, j: int|
        0 <= i < times.len() && 0 <= j < times.len() ==> #[trigger] times[i] - #[trigger] times[j]
            < span
}

/// The test that an instant is younger than `window` at each of `times`.
pub open spec fn in_every_window(times: Seq<nat>, window: nat) -> spec_fn(nat) -> bool {
    |then: nat| forall|i: int| 0 <= i < times.len() ==> age(#[trigger] times[i], then) < window
}

/// A request changes the log of no other identity, and leaves the settings
/// as they are.
pub proof fn lemma_other_logs_untouched(
    state: LimiterView,
    identity: Seq<char>,
    now: nat,
    other: Seq<char>,
)
    requires
        other != identity,
    ensures
        state.after(identity, now).log(other) == state.log(other),
        state.after(identity, now).max_requests == state.max_requests,
        state.after(identity, now).window == state.window,
{
}

/// No request makes a log longer than `max_requests`.
pub proof fn lemma_after_preserves_wf(state: LimiterView, identity: Seq<char>, now: nat)
    requires
        state.wf(),
    ensures
        state.after(identity, now).wf(),
{
    state.log(identity).lemma_filter_len(in_window(now, state.window));
    let next = state.after(identity, now);
    assert forall|other: Seq<char>| #[trigger] next.logs.contains_key(other) implies next.logs[other].len()
        <= next.max_requests by {
        if other != identity {
            assert(state.logs.contains_key(other));
        }
    }
}

/// A rejected request is not counted: it leaves every log, and so the length
/// of every log, as it was.
pub proof fn lemma_rejection_keeps_logs(state: LimiterView, identity: Seq<char>, now: nat)
    requires
        state.wf(),
        !state.admits(identity, now),
    ensures
        forall|other: Seq<char>| #[trigger]
            state.after(identity, now).log(other) == state.log(other),
        state.after(identity, now).log(identity).len() == state.log(identity).len(),
{
    lemma_filter_of_full_length(state.log(identity), in_window(now, state.window));
}

/// The first request of an identity is admitted whenever the limit is not
/// zero.
pub proof fn lemma_first_request_admitted(state: LimiterView, identity: Seq<char>, now: nat)
    requires
        state.log(identity).len() == 0,
        state.max_requests >= 1,
    ensures
        state.admits(identity, now),
{
    reveal(Seq::filter);
}

/// While the requests of an identity lie in one interval shorter than the
/// window, every admitted one of them stays in its log: the log holds at
/// least as many instants that are young at each of `all` as requests were
/// admitted.
proof fn lemma_admitted_stay(
    state: LimiterView,
    identity: Seq<char>,
    times: Seq<nat>,
    all: Seq<nat>,
)
    requires
        within_span(all, state.window),
        times.len() <= all.len(),
        forall|k: int| 0 <= k < times.len() ==> times[k] == all[k],
    ensures
        replay(state, identity, times).max_requests == state.max_requests,
        replay(state, identity, times).window == state.window,
        replay(state, identity, times).log(identity).filter(
            in_every_window(all, state.window),
        ).len() >= admitted_count(state, identity, times),
    decreases times.len(),
{
    let throughout = in_every_window(all, state.window);
    if times.len() > 0 {
        let earlier = times.drop_last();
        let now = times.last();
        let last = times.len() - 1;
        lemma_admitted_stay(state, identity, earlier, all);
        let before = replay(state, identity, earlier);
        let at_now = in_window(now, state.window);
        assert forall|then: nat| #[trigger] throughout(then) implies at_now(then) by {
            assert(age(all[last], then) < state.window);
        }
        lemma_filter_twice(before.log(identity), at_now, throughout);
        if before.admits(identity, now) {
            assert forall|i: int| 0 <= i < all.len() implies age(#[trigger] all[i], now)
                < state.window by {
                assert(all[i] - all[last] < state.window);
                assert(all[i] - all[i] < state.window);
            }
            live(before.log(identity), now, state.window).lemma_filter_push(now, throughout);
        }
    }
}

/// Once `max_requests` requests of an identity have been admitted within an
/// interval shorter than the window, every further request of that identity
/// within the same interval is rejected.
pub proof fn lemma_window_bound(
    state: LimiterView,
    identity: Seq<char>,
    times: Seq<nat>,
    next: nat,
)
    requires
        within_span(times.push(next), state.window),
        admitted_count(state, identity, times) >= state.max_requests,
    ensures
        !replay(state, identity, times).admits(identity, next),
{
    let all = times.push(next);
    let throughout = in_every_window(all, state.window);
    let at_next = in_window(next, state.window);
    lemma_admitted_stay(state, identity, times, all);
    assert forall|then: nat| #[trigger] throughout(then) implies at_next(then) by {
        assert(age(all[times.len() as int], then) < state.window);
    }
    lemma_filter_twice(replay(state, identity, times).log(identity), at_next, throughout);
}

/// A request is admitted again once a stored instant of its identity is a
/// full window old: that instant has expired and has made room.
pub proof fn lemma_admitted_after_window(
    state: LimiterView,
    identity: Seq<char>,
    now: nat,
    i: int,
)
    requires
        state.wf(),
        0 <= i < state.log(identity).len(),
        age(now, state.log(identity)[i]) >= state.window,
    ensures
        state.admits(identity, now),
{
    lemma_filter_drops(state.log(identity), in_window(now, state.window), i);
}

/// Requests of an identity with an empty log, no more of them than the limit
/// and all within an interval shorter than the window, are all admitted, and
/// the log then holds exactly their instants.
pub proof fn lemma_fresh_requests_admitted(
    state: LimiterView,
    identity: Seq<char>,
    times: Seq<nat>,
)
    requires
        state.log(identity).len() == 0,
        times.len() <= state.max_requests,
        within_span(times, state.window),
    ensures
        admitted_count(state, identity, times) == times.len(),
        replay(state, identity, times).log(identity) == times,
        replay(state, identity, times).max_requests == state.max_requests,
        replay(state, identity, times).window == state.window,
        state.wf() ==> replay(state, identity, times).wf(),
    decreases times.len(),
{
    if times.len() > 0 {
        let earlier = times.drop_last();
        let now = times.last();
        let last = times.len() - 1;
        assert forall|i: int, j: int|
            0 <= i < earlier.len() && 0 <= j < earlier.len() implies #[trigger] earlier[i]
            - #[trigger] earlier[j] < state.window by {
            assert(times[i] - times[j] < state.window);
        }
        lemma_fresh_requests_admitted(state, identity, earlier);
        let at_now = in_window(now, state.window);
        assert forall|i: int| 0 <= i < earlier.len() implies at_now(#[trigger] earlier[i]) by {
            assert(times[last] - times[i] < state.window);
            assert(times[i] - times[i] < state.window);
        }
        lemma_filter_keeps_all(earlier, at_now);
        if state.wf() {
            lemma_after_preserves_wf(replay(state, identity, earlier), identity, now);
        }
    }
}

/// The sliding-window bound. From an empty log, `max_requests` requests of
/// an identity within an interval shorter than the window are all admitted;
/// one more request in that interval is rejected; and once the oldest of
/// them is a full window old, a request is admitted again.
pub proof fn lemma_sliding_window(
    state: LimiterView,
    identity: Seq<char>,
    times: Seq<nat>,
    next: nat,
    later: nat,
)
    requires
        state.wf(),
        state.log(identity).len() == 0,
        times.len() == state.max_requests,
        state.max_requests >= 1,
        within_span(times.push(next), state.window),
        later >= times[0] + state.window,
    ensures
        admitted_count(state, identity, times) == state.max_requests,
        !replay(state, identity, times).admits(identity, next),
        replay(state, identity, times).after(identity, next).admits(identity, later),
{
    let all = times.push(next);
    assert forall|i: int, j: int|
        0 <= i < times.len() && 0 <= j < times.len() implies #[trigger] times[i]
        - #[trigger] times[j] < state.window by {
        assert(all[i] - all[j] < state.window);
    }
    lemma_fresh_requests_admitted(state, identity, times);
    lemma_window_bound(state, identity, times, next);
    let full = replay(state, identity, times);
    lemma_rejection_keeps_logs(full, identity, next);
    lemma_after_preserves_wf(full, identity, next);
    lemma_admitted_after_window(full.after(identity, next), identity, later, 0);
}

} // verus!
