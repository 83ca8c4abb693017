//! Per-backend outlier ejection for the federated fan-out.
//!
//! Recent failures of each backend are kept in a sliding window. When they
//! reach the threshold, the backend is ejected from fan-outs for a fixed
//! cooldown. Only timeouts, connection errors and 5xx responses count: 4xx
//! responses are errors of the user or of the credentials.
//!
//! Times are nanoseconds of one monotonic clock, which the caller reads.
use std::collections::{HashMap, VecDeque};

use vstd::prelude::*;

verus! {

/// Default per-backend timeout for federation calls, in nanoseconds.
pub const DEFAULT_BACKEND_TIMEOUT: u64 = 3_000_000_000;

/// Sliding window over which failures are counted, in nanoseconds.
pub const FAILURE_WINDOW: u64 = 30_000_000_000;

/// Failures within the window required to trigger ejection.
pub const FAILURE_THRESHOLD: usize = 5;

/// How long a backend stays ejected before it is tried again, in nanoseconds.
pub const EJECTION_DURATION: u64 = 30_000_000_000;

/// How a call to a backend ended, where it gave no usable answer.
#[derive(Debug, Clone, Copy, PartialEq, Eq, Structural)]
pub enum CallFailure {
    Timeout,
    Network,
    Status(u16),
}

/// Whether a failure tells of the backend's health.
pub open spec fn tells_of_health(f: CallFailure) -> bool {
    match f {
        CallFailure::Timeout => true,
        CallFailure::Network => true,
        CallFailure::Status(code) => 500 <= code <= 599,
    }
}

/// Whether a failed call counts toward ejection.
pub fn counts_toward_ejection(f: CallFailure) -> (r: bool)
    ensures
        r == tells_of_health(f),
{
    match f {
        CallFailure::Timeout => true,
        CallFailure::Network => true,
        CallFailure::Status(code) => 500 <= code && code <= 599,
    }
}

/// The recorded failures of one backend, oldest first, and the end of its
/// ejection.
#[derive(Debug)]
pub struct BackendState {
    failures: VecDeque<u64>,
    ejected_until: Option<u64>,
}

/// The data in a [`BackendState`].
#[verifier::ext_equal]
pub struct StateView {
    pub failures: Seq<u64>,
    pub ejected_until: Option<u64>,
}

impl View for BackendState {
    type V = StateView;

    closed spec fn view(&self) -> StateView {
        StateView { failures: self.failures@, ejected_until: self.ejected_until }
    }
}

/// A backend of which nothing is known.
pub open spec fn fresh() -> StateView {
    StateView { failures: Seq::empty(), ejected_until: None }
}

/// The failures that remain at a time: those at the front that have left the
/// window are dropped.
pub open spec fn pruned(failures: Seq<u64>, now: u64) -> Seq<u64>
    decreases failures.len(),
{
    if failures.len() > 0 && failures[0] + FAILURE_WINDOW < now {
        pruned(failures.drop_first(), now)
    } else {
        failures
    }
}

/// Whether the backend is ejected at a time.
pub open spec fn ejected_at(s: StateView, now: u64) -> bool {
    match s.ejected_until {
        Some(until) => now < until,
        None => false,
    }
}

/// The state after it was asked for at a time: an ejection that is over is
/// forgotten.
pub open spec fn noticed(s: StateView, now: u64) -> StateView {
    if ejected_at(s, now) {
        s
    } else {
        StateView { ejected_until: None, ..s }
    }
}

/// The state after a failure. An ejection that is over does not keep a backend
/// from being ejected anew; one that lasts is not extended.
pub open spec fn with_failure(s: StateView, now: u64) -> StateView {
    let failures = pruned(s.failures, now).push(now);
    let ejected_until = noticed(s, now).ejected_until;
    StateView {
        failures,
        ejected_until: if ejected_until is None && failures.len() >= FAILURE_THRESHOLD {
            Some((now + EJECTION_DURATION) as u64)
        } else {
            ejected_until
        },
    }
}

impl BackendState {
    /// Nothing recorded.
    fn new() -> (r: Self)
        ensures
            r@ == fresh(),
    {
        BackendState { failures: VecDeque::new(), ejected_until: None }
    }

    /// Drops the failures that have left the window.
    fn prune(&mut self, now: u64)
        ensures
            final(self)@ == (StateView {
                failures: pruned(old(self)@.failures, now),
                ..old(self)@
            }),
    {
        let ghost before = self@;
        while self.failures.len() > 0 && now > FAILURE_WINDOW && self.failures[0] < now
            - FAILURE_WINDOW
            invariant
                pruned(self@.failures, now) == pruned(before.failures, now),
                self@.ejected_until == before.ejected_until,
            ensures
                self@.failures == pruned(before.failures, now),
                self@.ejected_until == before.ejected_until,
            decreases self.failures.len(),
        {
            let ghost at = self@.failures;
            let _ = self.failures.pop_front();
            assert(self@.failures =~= at.drop_first());
        }
    }

    /// Whether the backend is ejected; an ejection that is over is forgotten.
    fn is_ejected(&mut self, now: u64) -> (r: bool)
        ensures
            r == ejected_at(old(self)@, now),
            final(self)@ == noticed(old(self)@, now),
    {
        match self.ejected_until {
            Some(until) => {
                if now < until {
                    true
                } else {
                    self.ejected_until = None;
                    false
                }
            },
            None => false,
        }
    }

    /// Records a failure.
    fn record_failure(&mut self, now: u64)
        requires
            now + EJECTION_DURATION <= u64::MAX,
        ensures
            final(self)@ == with_failure(old(self)@, now),
    {
        self.prune(now);
        self.failures.push_back(now);
        if self.is_ejected(now) {
            return ;
        }
        if self.failures.len() >= FAILURE_THRESHOLD {
            self.ejected_until = Some(now + EJECTION_DURATION);
        }
    }
}

/// Ejection state of every backend, keyed by server id.
#[derive(Debug)]
pub struct BackendHealth {
    inner: HashMap<i64, BackendState>,
}

impl BackendHealth {
    /// What is known of a backend.
    pub closed spec fn state_of(self, server_id: i64) -> StateView {
        if self.inner@.contains_key(server_id) {
            self.inner@[server_id]@
        } else {
            fresh()
        }
    }

    /// Nothing is known of any backend.
    pub fn new() -> (r: Self)
        ensures
            forall|id: i64| #[trigger] r.state_of(id) == fresh(),
    {
        broadcast use vstd::std_specs::hash::group_hash_axioms;

        BackendHealth { inner: HashMap::new() }
    }

    /// Whether `server_id` is currently ejected and should be skipped.
    pub fn is_ejected(&mut self, server_id: i64, now: u64) -> (r: bool)
        ensures
            r == ejected_at(old(self).state_of(server_id), now),
            final(self).state_of(server_id) == noticed(old(self).state_of(server_id), now),
            forall|id: i64|
                id != server_id ==> #[trigger] final(self).state_of(id) == old(self).state_of(id),
    {
        broadcast use vstd::std_specs::hash::group_hash_axioms;

        let entry = self.inner.entry(server_id).or_insert(BackendState::new());
        entry.is_ejected(now)
    }

    /// Records a successful call: pulls the backend out of ejection and
    /// forgets its failures.
    pub fn record_success(&mut self, server_id: i64)
        ensures
            final(self).state_of(server_id) == fresh(),
            forall|id: i64|
                id != server_id ==> #[trigger] final(self).state_of(id) == old(self).state_of(id),
    {
        broadcast use vstd::std_specs::hash::group_hash_axioms;

        let entry = self.inner.entry(server_id).or_insert(BackendState::new());
        entry.ejected_until = None;
        entry.failures.clear();
    }

    /// Records a failed call. Triggers ejection if the threshold within the
    /// window is reached.
    pub fn record_failure(&mut self, server_id: i64, now: u64)
        requires
            now + EJECTION_DURATION <= u64::MAX,
        ensures
            final(self).state_of(server_id) == with_failure(old(self).state_of(server_id), now),
            forall|id: i64|
                id != server_id ==> #[trigger] final(self).state_of(id) == old(self).state_of(id),
    {
        broadcast use vstd::std_specs::hash::group_hash_axioms;

        let entry = self.inner.entry(server_id).or_insert(BackendState::new());
        entry.record_failure(now);
    }

    /// The currently ejected backends, each once, in no particular order.
    pub fn ejected_ids(&self, now: u64) -> (r: Vec<i64>)
        ensures
            r@.no_duplicates(),
            forall|id: i64| r@.contains(id) <==> ejected_at(#[trigger] self.state_of(id), now),
    {
        broadcast use vstd::std_specs::hash::group_hash_axioms;

        let mut out: Vec<i64> = Vec::new();
        let inner = &self.inner;
        for pair in it: inner.iter()
            invariant
                *inner == self.inner,
                it.seq().no_duplicates(),
                forall|i: int|
                    0 <= i < it.seq().len() ==> inner@.contains_key(*(#[trigger] it.seq()[i]).0)
                        && inner@[*it.seq()[i].0] == *it.seq()[i].1,
                forall|k: i64| #[trigger]
                    inner@.contains_key(k) ==> it.seq().contains((&k, &inner@[k])),
                out@.no_duplicates(),
                forall|id: i64|
                    out@.contains(id) <==> exists|j: int|
                        0 <= j < it.index() && *(#[trigger] it.seq()[j]).0 == id && ejected_at(
                            it.seq()[j].1@,
                            now,
                        ),
        {
            let (id, state) = pair;
            let ghost before = out@;
            assert(it.seq()[it.index()] == (id, state));
            if let Some(until) = state.ejected_until {
                if now < until {
                    assert(!before.contains(*id));
                    out.push(*id);
                    assert(out@[before.len() as int] == *id);
                }
            }
            assert forall|i: i64| out@.contains(i) <==> exists|j: int|
                0 <= j < it.index() + 1 && *(#[trigger] it.seq()[j]).0 == i && ejected_at(
                    it.seq()[j].1@,
                    now,
                ) by {
                if out@.contains(i) {
                    let at = choose|at: int| 0 <= at < out@.len() && out@[at] == i;
                    if at < before.len() {
                        assert(before[at] == i);
                        assert(before.contains(i));
                    }
                }
                if before.contains(i) {
                    let at = choose|at: int| 0 <= at < before.len() && before[at] == i;
                    assert(out@[at] == i);
                }
            }
        }
        out
    }
}

/// What the revival probe does about an ejected backend.
#[derive(Debug, Clone, Copy, PartialEq, Eq, Structural)]
pub enum Revival {
    /// The server is not configured any more: record a success to drop it.
    Forget,
    /// Ask the server at this place for its public system info, and record a
    /// success if it answers.
    Probe(usize),
}

/// What to do about an ejected backend, given the ids of the servers: the
/// first server with the id is probed.
pub fn revive(id: i64, servers: &Vec<i64>) -> (r: Revival)
    ensures
        match r {
            Revival::Forget => !servers@.contains(id),
            Revival::Probe(at) => at < servers.len() && servers[at as int] == id && (forall|j: int|
                0 <= j < at ==> servers[j] != id),
        },
{
    for i in 0..servers.len()
        invariant
            forall|j: int| 0 <= j < i ==> servers[j] != id,
    {
        if servers[i] == id {
            return Revival::Probe(i);
        }
    }
    Revival::Forget
}

impl BackendHealth {
    /// Takes how the probe of an ejected backend went: one that answered is
    /// readmitted, one that is not configured any more is forgotten, and any
    /// other stays as it is.
    pub fn probed(&mut self, id: i64, revival: Revival, answered: bool)
        ensures
            final(self).state_of(id) == (if revival == Revival::Forget || answered {
                fresh()
            } else {
                old(self).state_of(id)
            }),
            forall|other: i64|
                other != id ==> #[trigger] final(self).state_of(other) == old(self).state_of(other),
    {
        match revival {
            Revival::Forget => self.record_success(id),
            Revival::Probe(_) => {
                if answered {
                    self.record_success(id);
                }
            },
        }
    }
}

/// The state after failures at these times.
pub open spec fn after_failures(s: StateView, times: Seq<u64>) -> StateView
    decreases times.len(),
{
    if times.len() == 0 {
        s
    } else {
        with_failure(after_failures(s, times.drop_last()), times.last())
    }
}

/// Whether times do not go back.
pub open spec fn in_time_order(times: Seq<u64>) -> bool {
    forall|i: int, j: int| 0 <= i <= j < times.len() ==> times[i] <= times[j]
}

/// A backend of which nothing is known is not ejected, at any time.
pub proof fn fresh_is_not_ejected(now: u64)
    ensures
        !ejected_at(fresh(), now),
{
}

proof fn pruned_is_no_longer(failures: Seq<u64>, now: u64)
    ensures
        pruned(failures, now).len() <= failures.len(),
    decreases failures.len(),
{
    if failures.len() > 0 && failures[0] + FAILURE_WINDOW < now {
        pruned_is_no_longer(failures.drop_first(), now);
    }
}

/// Fewer failures than the threshold never eject a backend.
pub proof fn few_failures_do_not_eject(times: Seq<u64>, now: u64)
    requires
        times.len() < FAILURE_THRESHOLD,
    ensures
        !ejected_at(after_failures(fresh(), times), now),
        after_failures(fresh(), times).ejected_until is None,
        after_failures(fresh(), times).failures.len() <= times.len(),
    decreases times.len(),
{
    if times.len() > 0 {
        few_failures_do_not_eject(times.drop_last(), now);
        pruned_is_no_longer(after_failures(fresh(), times.drop_last()).failures, times.last());
    }
}

/// While failures fit in one window, all of them are kept.
proof fn failures_within_a_window_are_kept(times: Seq<u64>)
    requires
        in_time_order(times),
        times.len() > 0 ==> times.last() - times[0] <= FAILURE_WINDOW,
    ensures
        after_failures(fresh(), times).failures == times,
    decreases times.len(),
{
    if times.len() > 0 {
        let before = times.drop_last();
        failures_within_a_window_are_kept(before);
        assert(pruned(before, times.last()) == before);
        assert(before.push(times.last()) =~= times);
    } else {
        assert(after_failures(fresh(), times).failures =~= times);
    }
}

/// As many failures as the threshold within one window eject a fresh backend,
/// from the last of them until the cooldown is over.
pub proof fn threshold_failures_eject(times: Seq<u64>, now: u64)
    requires
        times.len() == FAILURE_THRESHOLD,
        in_time_order(times),
        times.last() - times[0] <= FAILURE_WINDOW,
        times.last() + EJECTION_DURATION <= u64::MAX,
    ensures
        ejected_at(after_failures(fresh(), times), now) <==> now < times.last() + EJECTION_DURATION,
{
    failures_within_a_window_are_kept(times);
    failures_within_a_window_are_kept(times.drop_last());
    few_failures_do_not_eject(times.drop_last(), now);
}

/// Whatever came before, a failure that makes up the threshold within the
/// window leaves the backend ejected, also where an earlier ejection is over.
pub proof fn reaching_the_threshold_ejects(s: StateView, now: u64)
    requires
        pruned(s.failures, now).len() + 1 >= FAILURE_THRESHOLD,
        now + EJECTION_DURATION <= u64::MAX,
    ensures
        ejected_at(with_failure(s, now), now),
{
}

/// What is counted at a time is what lies within the window: older failures
/// are dropped, and no others.
pub proof fn old_failures_are_not_counted(failures: Seq<u64>, now: u64)
    requires
        in_time_order(failures),
    ensures
        forall|i: int|
            0 <= i < pruned(failures, now).len() ==> #[trigger] pruned(failures, now)[i]
                + FAILURE_WINDOW >= now,
        forall|i: int|
            0 <= i < failures.len() && failures[i] + FAILURE_WINDOW >= now ==> pruned(
                failures,
                now,
            ).contains(#[trigger] failures[i]),
    decreases failures.len(),
{
    if failures.len() > 0 && failures[0] + FAILURE_WINDOW < now {
        let rest = failures.drop_first();
        old_failures_are_not_counted(rest, now);
        assert forall|i: int|
            0 <= i < failures.len() && failures[i] + FAILURE_WINDOW >= now implies pruned(
            failures,
            now,
        ).contains(#[trigger] failures[i]) by {
            assert(rest[i - 1] == failures[i]);
        }
        assert(pruned(failures, now) == pruned(rest, now));
    } else {
        assert(pruned(failures, now) == failures);
        assert forall|i: int| 0 <= i < failures.len() implies #[trigger] failures[i]
            + FAILURE_WINDOW >= now by {
            assert(failures[0] <= failures[i]);
        }
    }
}

/// An ejection is forgotten once its cooldown is over: asking then finds the
/// backend not ejected and changes nothing for later times.
pub proof fn ejection_ends(s: StateView, until: u64, now: u64, later: u64)
    requires
        s.ejected_until == Some(until),
        now >= until,
    ensures
        !ejected_at(s, now),
        noticed(s, now).ejected_until is None,
        !ejected_at(noticed(s, now), later),
{
}

/// A failure counts against a backend where the backend gave no answer in time
/// or could not be reached, or answered with a status from 500 up to 599; every
/// other status leaves its health alone.
pub proof fn server_errors_tell_of_health(code: u16)
    ensures
        tells_of_health(CallFailure::Timeout),
        tells_of_health(CallFailure::Network),
        tells_of_health(CallFailure::Status(code)) <==> code / 100 == 5,
{
}

/// The failures that are dropped are those at the front that are older than half
/// a minute; from the first that is not on, all remain.
pub proof fn only_old_failures_at_the_front_are_dropped(failures: Seq<u64>, now: u64)
    ensures
        ({
            let dropped = failures.len() - pruned(failures, now).len();
            &&& 0 <= dropped
            &&& pruned(failures, now) == failures.skip(dropped)
            &&& forall|i: int|
                0 <= i < dropped ==> #[trigger] failures[i] + 30_000_000_000 < now
            &&& dropped < failures.len() ==> failures[dropped] + 30_000_000_000 >= now
        }),
    decreases failures.len(),
{
    if failures.len() > 0 && failures[0] + FAILURE_WINDOW < now {
        let rest = failures.drop_first();
        only_old_failures_at_the_front_are_dropped(rest, now);
        let dropped = rest.len() - pruned(rest, now).len();
        assert(rest.skip(dropped) =~= failures.skip(dropped + 1));
        assert forall|i: int| 0 <= i < dropped + 1 implies #[trigger] failures[i] + 30_000_000_000
            < now by {
            if i > 0 {
                assert(rest[i - 1] == failures[i]);
            }
        }
        if dropped < rest.len() {
            assert(rest[dropped] == failures[dropped + 1]);
        }
    } else {
        assert(failures.skip(0) =~= failures);
    }
}

/// A failure is added to those that remain, and nothing else of them changes.
/// While an ejection lasts it is neither lifted nor extended; otherwise the
/// backend is ejected, for half a minute from now on, exactly where the failures
/// that remain are five or more.
pub proof fn five_recent_failures_eject_for_half_a_minute(s: StateView, now: u64)
    requires
        now + 30_000_000_000 <= u64::MAX,
    ensures
        ({
            let after = with_failure(s, now);
            &&& after.failures == pruned(s.failures, now).push(now)
            &&& ejected_at(s, now) ==> after.ejected_until == s.ejected_until
            &&& !ejected_at(s, now) ==> after.ejected_until == if after.failures.len() >= 5 {
                Some((now + 30_000_000_000) as u64)
            } else {
                None
            }
        }),
{
}

/// A backend is ejected from the time on that its state holds an end for it, up
/// to that end and not beyond; asking changes nothing but an ejection that is
/// over.
pub proof fn ejections_last_until_their_end(s: StateView, now: u64)
    ensures
        ejected_at(s, now) <==> s.ejected_until is Some && now < s.ejected_until->0,
        noticed(s, now).failures == s.failures,
        ejected_at(s, now) ==> noticed(s, now) == s,
        !ejected_at(s, now) ==> noticed(s, now).ejected_until is None,
        forall|later: u64|
            now <= later ==> #[trigger] ejected_at(noticed(s, now), later) == ejected_at(s, later),
{
}

/// The limits in nanoseconds: three seconds for a call, half a minute for the
/// window and for an ejection, and five failures.
pub proof fn limits_are_in_nanoseconds()
    ensures
        DEFAULT_BACKEND_TIMEOUT == 3 * 1_000_000_000,
        FAILURE_WINDOW == 30 * 1_000_000_000,
        EJECTION_DURATION == 30 * 1_000_000_000,
        FAILURE_THRESHOLD == 5,
{
}

}
