//! Monitoring: component health checks, operation profiles and query
//! statistics.

use crate::error::Error;
use crate::str_map::StrMap;
use crate::time::{unix_millis, unix_seconds, duration_nanos, instant_elapsed, instant_now, max_span_nanos, span_div, span_divide, span_nanos};
use std::collections::VecDeque;
use std::sync::atomic::AtomicU64;
use std::sync::Arc;
use std::time::{Duration, Instant};
use vstd::prelude::*;

verus! {

/// Whole milliseconds in `d`.
///
/// Calls `Duration::as_millis`: the total number of whole milliseconds, which
/// is the whole nanoseconds (`span_nanos`, what `Duration::as_nanos` gives)
/// divided by 10^6, at most about 1.8e22.
#[verifier::external_body]
fn duration_millis(d: &Duration) -> (ms: u128)
    ensures
        ms == span_nanos(*d) / 1_000_000,
        ms <= 18446744073709551615000u128 + 999,
{
    d.as_millis()
}

/// The `Debug` rendering of a string: quoted, with escapes.
pub uninterp spec fn debug_quoted(s: Seq<char>) -> Seq<char>;

/// Formats `s` with `{:?}` (`<str as Debug>::fmt`); the text is named
/// `debug_quoted`, a function of `s` alone.
#[verifier::external_body]
fn debug_text(s: &str) -> (r: String)
    ensures
        r@ == debug_quoted(s@),
{
    format!("{:?}", s)
}

/// Metric type enumeration
#[derive(Debug, Clone, Copy, PartialEq, Eq, Hash, Structural)]
pub enum MetricType {
    /// Counter metric (monotonically increasing)
    Counter,
    /// Gauge metric (can go up or down)
    Gauge,
    /// Histogram metric (distribution of values)
    Histogram,
    /// Summary metric (quantiles and counts)
    Summary,
}

/// Health status
#[derive(Debug, Clone, Copy, PartialEq, Eq, Structural)]
pub enum HealthStatus {
    /// System is healthy
    Healthy,
    /// System is degraded
    Degraded,
    /// System is unhealthy
    Unhealthy,
    /// System status is unknown
    Unknown,
}

/// Health check trait
pub trait HealthCheck {
    /// Whether `r` is an answer this check can give; a check that says
    /// nothing of its answers can give any.
    open spec fn gives(&self, r: Result<HealthStatus, Error>) -> bool {
        true
    }

    /// Check the health of a component
    fn check(&self) -> (r: Result<HealthStatus, Error>)
        ensures
            self.gives(r),
    ;

    /// Get the name of the health check
    fn name(&self) -> &str;
}

/// Database health check
pub struct DatabaseHealthCheck {
    connected: Arc<AtomicU64>,
}

impl DatabaseHealthCheck {
    pub fn new(connected: Arc<AtomicU64>) -> (c: Self)
        ensures
            c.flag() == connected,
    {
        DatabaseHealthCheck { connected }
    }

    /// The connection flag being watched.
    pub closed spec fn flag(&self) -> Arc<AtomicU64> {
        self.connected
    }
}

/// Health reported for a connection flag: connected exactly when it is 1.
pub fn connection_status(flag: u64) -> (s: HealthStatus)
    ensures
        s == if flag == 1 { HealthStatus::Healthy } else { HealthStatus::Unhealthy },
{
    if flag == 1 {
        HealthStatus::Healthy
    } else {
        HealthStatus::Unhealthy
    }
}

impl HealthCheck for DatabaseHealthCheck {
    /// The flag reads 1 (healthy) or anything else (unhealthy); reading it
    /// never fails.
    open spec fn gives(&self, r: Result<HealthStatus, Error>) -> bool {
        r matches Ok(s) && (s == HealthStatus::Healthy || s == HealthStatus::Unhealthy)
    }

    /// Reads the connection flag: healthy when it is 1, unhealthy otherwise.
    fn check(&self) -> (r: Result<HealthStatus, Error>) {
        let flag = self.connected.load(std::sync::atomic::Ordering::SeqCst);
        Ok(connection_status(flag))
    }

    fn name(&self) -> &str {
        "database"
    }
}

/// One step of combining check results: an unhealthy result settles the
/// outcome, a degraded or unknown one overrides a healthy outcome so far,
/// and a failed check makes it unknown.
pub open spec fn health_step(acc: HealthStatus, r: Result<HealthStatus, Error>) -> HealthStatus {
    match r {
        Ok(HealthStatus::Unhealthy) => HealthStatus::Unhealthy,
        Ok(HealthStatus::Degraded) => if acc == HealthStatus::Healthy { HealthStatus::Degraded } else { acc },
        Ok(HealthStatus::Healthy) => acc,
        Ok(HealthStatus::Unknown) => if acc == HealthStatus::Healthy { HealthStatus::Unknown } else { acc },
        Err(_) => HealthStatus::Unknown,
    }
}

/// Overall health from check results in order, starting from `acc`:
/// combine each result, and stop with unhealthy at the first unhealthy one.
pub open spec fn health_from(acc: HealthStatus, rs: Seq<Result<HealthStatus, Error>>) -> HealthStatus
    decreases rs.len(),
{
    if rs.len() == 0 {
        acc
    } else if rs[0] == Ok::<HealthStatus, Error>(HealthStatus::Unhealthy) {
        HealthStatus::Unhealthy
    } else {
        health_from(health_step(acc, rs[0]), rs.subrange(1, rs.len() as int))
    }
}

/// Some result in `rs` reports unhealthy.
pub open spec fn unhealthy_seen(rs: Seq<Result<HealthStatus, Error>>) -> bool {
    exists|i: int| 0 <= i < rs.len() && rs[i] == Ok::<HealthStatus, Error>(HealthStatus::Unhealthy)
}

proof fn lemma_health_push(acc: HealthStatus, rs: Seq<Result<HealthStatus, Error>>, r: Result<HealthStatus, Error>)
    requires
        !unhealthy_seen(rs),
    ensures
        health_from(acc, rs.push(r)) == if r == Ok::<HealthStatus, Error>(HealthStatus::Unhealthy) {
            HealthStatus::Unhealthy
        } else {
            health_step(health_from(acc, rs), r)
        },
    decreases rs.len(),
{
    let t = rs.push(r);
    if rs.len() == 0 {
        assert(t.subrange(1, t.len() as int) =~= Seq::<Result<HealthStatus, Error>>::empty());
        assert(t[0] == r);
        assert(health_from(health_step(acc, r), Seq::<Result<HealthStatus, Error>>::empty()) == health_step(acc, r));
    } else {
        assert(rs[0] != Ok::<HealthStatus, Error>(HealthStatus::Unhealthy));
        assert(t[0] == rs[0]);
        let rest = rs.subrange(1, rs.len() as int);
        assert(t.subrange(1, t.len() as int) =~= rest.push(r));
        assert(!unhealthy_seen(rest)) by {
            if unhealthy_seen(rest) {
                let k = choose|k: int| 0 <= k < rest.len() && rest[k] == Ok::<HealthStatus, Error>(HealthStatus::Unhealthy);
                assert(rs[k + 1] == rest[k]);
            }
        }
        lemma_health_push(health_step(acc, rs[0]), rest, r);
        assert(health_from(acc, rs) == health_from(health_step(acc, rs[0]), rest));
        assert(health_from(acc, t) == health_from(health_step(acc, t[0]), t.subrange(1, t.len() as int)));
    }
}

fn combine(acc: HealthStatus, r: &Result<HealthStatus, Error>) -> (s: HealthStatus)
    ensures
        s == health_step(acc, *r),
{
    match r {
        Ok(HealthStatus::Unhealthy) => HealthStatus::Unhealthy,
        Ok(HealthStatus::Degraded) => if acc == HealthStatus::Healthy { HealthStatus::Degraded } else { acc },
        Ok(HealthStatus::Healthy) => acc,
        Ok(HealthStatus::Unknown) => if acc == HealthStatus::Healthy { HealthStatus::Unknown } else { acc },
        Err(_) => HealthStatus::Unknown,
    }
}

} // verus!

verus! {

/// Overall health of a list of check results: the fold that `check_health`
/// applies, stopping at the first unhealthy result.
pub fn aggregate_health(results: &[Result<HealthStatus, Error>]) -> (s: HealthStatus)
    ensures
        s == health_from(HealthStatus::Healthy, results@),
{
    let mut acc = HealthStatus::Healthy;
    let mut i: usize = 0;
    while i < results.len()
        invariant
            i <= results@.len(),
            !unhealthy_seen(results@.subrange(0, i as int)),
            acc == health_from(HealthStatus::Healthy, results@.subrange(0, i as int)),
        decreases results@.len() - i,
    {
        let r = &results[i];
        proof {
            let pre = results@.subrange(0, i as int);
            assert(results@.subrange(0, i as int + 1) =~= pre.push(*r));
            lemma_health_push(HealthStatus::Healthy, pre, *r);
        }
        let unhealthy = match r {
            Ok(HealthStatus::Unhealthy) => true,
            _ => false,
        };
        if unhealthy {
            proof {
                lemma_health_prefix_unhealthy(results@, i as int + 1);
            }
            return HealthStatus::Unhealthy;
        }
        acc = combine(acc, r);
        proof {
            let pre = results@.subrange(0, i as int);
            let pre1 = results@.subrange(0, i as int + 1);
            assert forall|k: int| 0 <= k < i + 1 implies #[trigger] pre1[k] != Ok::<HealthStatus, Error>(HealthStatus::Unhealthy) by {
                if k < i {
                    assert(pre1[k] == pre[k]);
                }
            }
        }
        i = i + 1;
    }
    proof {
        assert(results@.subrange(0, results@.len() as int) =~= results@);
    }
    acc
}

/// Once an unhealthy result is met, later results do not matter.
proof fn lemma_health_prefix_unhealthy(rs: Seq<Result<HealthStatus, Error>>, n: int)
    requires
        0 < n <= rs.len(),
        rs[n - 1] == Ok::<HealthStatus, Error>(HealthStatus::Unhealthy),
        health_from(HealthStatus::Healthy, rs.subrange(0, n)) == HealthStatus::Unhealthy,
        !unhealthy_seen(rs.subrange(0, n - 1)),
    ensures
        health_from(HealthStatus::Healthy, rs) == HealthStatus::Unhealthy,
{
    lemma_health_extend(HealthStatus::Healthy, rs, n);
}

proof fn lemma_health_extend(acc: HealthStatus, rs: Seq<Result<HealthStatus, Error>>, n: int)
    requires
        0 < n <= rs.len(),
        rs[n - 1] == Ok::<HealthStatus, Error>(HealthStatus::Unhealthy),
        !unhealthy_seen(rs.subrange(0, n - 1)),
    ensures
        health_from(acc, rs) == HealthStatus::Unhealthy,
    decreases n,
{
    if rs[0] == Ok::<HealthStatus, Error>(HealthStatus::Unhealthy) {
    } else {
        assert(n > 1) by {
            if n == 1 {
                assert(rs[0] == rs[n - 1]);
            }
        }
        let rest = rs.subrange(1, rs.len() as int);
        assert(rest[n - 2] == rs[n - 1]);
        assert(!unhealthy_seen(rest.subrange(0, n - 2))) by {
            if unhealthy_seen(rest.subrange(0, n - 2)) {
                let pre = rest.subrange(0, n - 2);
                let k = choose|k: int| 0 <= k < pre.len() && #[trigger] pre[k] == Ok::<HealthStatus, Error>(HealthStatus::Unhealthy);
                assert(rs.subrange(0, n - 1)[k + 1] == rs[k + 1]);
            }
        }
        lemma_health_extend(health_step(acc, rs[0]), rest, n - 1);
    }
}

/// A check is due once the time passed since the last one reaches the interval.
pub open spec fn due_after(passed_nanos: int, interval_nanos: int) -> bool {
    passed_nanos >= interval_nanos
}

/// Whether a check is due once `passed_nanos` have passed since the last
/// one, with checks every `interval_nanos`.
pub fn check_due(passed_nanos: u128, interval_nanos: u128) -> (d: bool)
    ensures
        d == due_after(passed_nanos as int, interval_nanos as int),
{
    passed_nanos >= interval_nanos
}

/// System health monitor
pub struct HealthMonitor {
    status: HealthStatus,
    checks: Vec<Box<dyn HealthCheck>>,
    last_check: Option<Instant>,
    check_interval_nanos: u128,
}

impl HealthMonitor {
    /// Status recorded by the last run of the checks (`Unknown` before any).
    pub closed spec fn status_view(&self) -> HealthStatus {
        self.status
    }

    /// Number of registered checks.
    pub closed spec fn check_count(&self) -> nat {
        self.checks@.len()
    }

    /// Whether `r` is an answer the `i`-th registered check can give.
    pub closed spec fn gives_at(&self, i: int, r: Result<HealthStatus, Error>) -> bool {
        self.checks@[i].gives(r)
    }

    /// Whether the checks have run at least once.
    pub closed spec fn checked(&self) -> bool {
        self.last_check is Some
    }

    /// Create a new health monitor
    pub fn new(check_interval: Duration) -> (m: Self)
        ensures
            m.status_view() == HealthStatus::Unknown,
            m.check_count() == 0,
            !m.checked(),
            m.interval_nanos() == span_nanos(check_interval),
    {
        let nanos = duration_nanos(&check_interval);
        HealthMonitor { status: HealthStatus::Unknown, checks: Vec::new(), last_check: None, check_interval_nanos: nanos }
    }

    /// Add a health check
    pub fn add_check(&mut self, check: Box<dyn HealthCheck>)
        ensures
            final(self).status_view() == old(self).status_view(),
            final(self).checked() == old(self).checked(),
            final(self).interval_nanos() == old(self).interval_nanos(),
    {
        self.checks.push(check);
    }

    /// Run the health checks in order, stopping at the first unhealthy one,
    /// and record the overall status.
    pub fn check_health(&mut self) -> (r: Result<HealthStatus, Error>)
        ensures
            r is Ok,
            r matches Ok(s) && s == final(self).status_view(),
            final(self).checked(),
            final(self).check_count() == old(self).check_count(),
            final(self).interval_nanos() == old(self).interval_nanos(),
            exists|rs: Seq<Result<HealthStatus, Error>>| {
                &&& rs.len() <= old(self).check_count()
                &&& (rs.len() < old(self).check_count() ==> rs.len() > 0
                    && rs.last() == Ok::<HealthStatus, Error>(HealthStatus::Unhealthy))
                &&& forall|i: int| 0 <= i < rs.len() ==> #[trigger] old(self).gives_at(i, rs[i])
                &&& final(self).status_view() == health_from(HealthStatus::Healthy, rs)
            },
    {
        let mut overall = HealthStatus::Healthy;
        let ghost mut seen: Seq<Result<HealthStatus, Error>> = Seq::empty();
        let mut i: usize = 0;
        let n = self.checks.len();
        let mut stopped = false;
        while i < n && !stopped
            invariant
                n == self.checks@.len(),
                i <= n,
                !stopped ==> seen.len() == i && !unhealthy_seen(seen),
                stopped ==> seen.len() == i + 1 && i < n && seen.last() == Ok::<HealthStatus, Error>(HealthStatus::Unhealthy),
                overall == health_from(HealthStatus::Healthy, seen),
                forall|k: int| 0 <= k < seen.len() ==> #[trigger] self.gives_at(k, seen[k]),
            decreases n - i, (if stopped { 0int } else { 1int }),
        {
            let r = self.checks[i].check();
            proof {
                lemma_health_push(HealthStatus::Healthy, seen, r);
            }
            let unhealthy = match &r {
                Ok(HealthStatus::Unhealthy) => true,
                _ => false,
            };
            if unhealthy {
                proof {
                    seen = seen.push(r);
                }
                overall = HealthStatus::Unhealthy;
                stopped = true;
            } else {
                overall = combine(overall, &r);
                proof {
                    let old_seen = seen;
                    seen = seen.push(r);
                    assert forall|k: int| 0 <= k < seen.len() implies #[trigger] seen[k] != Ok::<HealthStatus, Error>(HealthStatus::Unhealthy) by {
                        if k < old_seen.len() {
                            assert(seen[k] == old_seen[k]);
                        }
                    }
                }
                i = i + 1;
            }
        }
        self.status = overall;
        self.last_check = Some(instant_now());
        proof {
            assert(seen.len() <= n);
            assert(seen.len() < n ==> seen.len() > 0 && seen.last() == Ok::<HealthStatus, Error>(HealthStatus::Unhealthy));
            assert(self.status_view() == health_from(HealthStatus::Healthy, seen));
        }
        Ok(overall)
    }

    /// Get current health status
    pub fn get_status(&self) -> (s: HealthStatus)
        ensures
            s == self.status_view(),
    {
        self.status
    }

    /// Get last check time
    pub fn get_last_check(&self) -> (r: Option<Instant>)
        ensures
            r is Some == self.checked(),
    {
        match &self.last_check {
            Some(t) => Some(*t),
            None => None,
        }
    }

    /// The interval between checks, in nanoseconds.
    pub closed spec fn interval_nanos(&self) -> u128 {
        self.check_interval_nanos
    }

    /// Check if health check is due: always before the first run, afterwards
    /// once the check interval has passed since the last run. The time
    /// passed is read from the monotonic clock.
    pub fn is_check_due(&self) -> (due: bool)
        ensures
            !self.checked() ==> due,
            self.checked() ==> exists|passed: int| 0 <= passed <= max_span_nanos()
                && due == due_after(passed, self.interval_nanos() as int),
    {
        match &self.last_check {
            Some(t) => {
                let elapsed = instant_elapsed(t);
                let passed = duration_nanos(&elapsed);
                let due = check_due(passed, self.check_interval_nanos);
                proof {
                    assert(0 <= passed as int <= max_span_nanos() && due == due_after(passed as int, self.interval_nanos() as int));
                }
                due
            },
            None => true,
        }
    }
}

} // verus!

verus! {

/// Profile data
#[derive(Debug, Clone)]
pub struct ProfileData {
    /// Total execution time, in nanoseconds
    pub total_time_nanos: u128,
    /// Number of executions
    pub execution_count: u64,
    /// Average execution time, in nanoseconds
    pub average_time_nanos: u128,
    /// Minimum execution time, in nanoseconds
    pub min_time_nanos: u128,
    /// Maximum execution time, in nanoseconds
    pub max_time_nanos: u128,
    /// Last execution time
    pub last_execution: Option<Instant>,
}

/// Whether `p` records one more execution of `d` nanoseconds than `prev`
/// (the last-execution instant aside): totals and count grow, the average
/// is the total divided as `Duration / u32` divides, and the extremes take
/// `d` in when it is the first or beyond them.
pub open spec fn profile_advanced(prev: ProfileData, d: int, p: ProfileData) -> bool {
    &&& p.total_time_nanos == prev.total_time_nanos + d
    &&& p.execution_count == prev.execution_count + 1
    &&& p.average_time_nanos == span_div(p.total_time_nanos as int, (p.execution_count as int) % 0x1_0000_0000)
    &&& p.min_time_nanos == if p.execution_count == 1 || d < prev.min_time_nanos { d } else { prev.min_time_nanos as int }
    &&& p.max_time_nanos == if p.execution_count == 1 || d > prev.max_time_nanos { d } else { prev.max_time_nanos as int }
    &&& p.last_execution is Some
}

/// A profile with no executions.
pub open spec fn empty_profile(p: ProfileData) -> bool {
    &&& p.total_time_nanos == 0
    &&& p.execution_count == 0
    &&& p.average_time_nanos == 0
    &&& p.min_time_nanos == 0
    &&& p.max_time_nanos == 0
    &&& p.last_execution is None
}

/// Whether a further execution of `d` nanoseconds can be added to `p`
/// without exceeding what a `Duration` or the counter holds.
pub open spec fn profile_has_room(p: ProfileData, d: int) -> bool {
    &&& p.total_time_nanos + d <= max_span_nanos()
    &&& p.execution_count + 1 <= u64::MAX
    &&& (p.execution_count + 1) % 0x1_0000_0000 != 0
}

/// Ending the timing of `name`, which took `d` nanoseconds, turned profiles
/// `before` into `after`: the profile advanced by `d` when it had room for
/// it, and nothing changed otherwise.
pub open spec fn profile_ended(
    before: Map<Seq<char>, ProfileData>,
    after: Map<Seq<char>, ProfileData>,
    name: Seq<char>,
    d: int,
) -> bool {
    &&& 0 <= d <= max_span_nanos()
    &&& if profile_has_room(before[name], d) {
        after.contains_key(name) && profile_advanced(before[name], d, after[name])
    } else {
        after == before
    }
}

fn copy_profile(p: &ProfileData) -> (r: ProfileData)
    ensures
        r.total_time_nanos == p.total_time_nanos,
        r.execution_count == p.execution_count,
        r.average_time_nanos == p.average_time_nanos,
        r.min_time_nanos == p.min_time_nanos,
        r.max_time_nanos == p.max_time_nanos,
        r.last_execution is Some == p.last_execution is Some,
{
    ProfileData {
        total_time_nanos: p.total_time_nanos,
        execution_count: p.execution_count,
        average_time_nanos: p.average_time_nanos,
        min_time_nanos: p.min_time_nanos,
        max_time_nanos: p.max_time_nanos,
        last_execution: match &p.last_execution {
            Some(t) => Some(*t),
            None => None,
        },
    }
}

/// Performance profiler
pub struct PerformanceProfiler {
    profiles: StrMap<ProfileData>,
    active_profiles: StrMap<Instant>,
}

impl PerformanceProfiler {
    /// Profiles by name.
    pub closed spec fn profiles_view(&self) -> Map<Seq<char>, ProfileData> {
        self.profiles.map()
    }

    /// Names being timed.
    pub closed spec fn active(&self) -> Set<Seq<char>> {
        self.active_profiles.map().dom()
    }

    /// Create a new performance profiler
    pub fn new() -> (p: Self)
        ensures
            p.profiles_view() == Map::<Seq<char>, ProfileData>::empty(),
            p.active() == Set::<Seq<char>>::empty(),
    {
        let p = PerformanceProfiler { profiles: StrMap::new(), active_profiles: StrMap::new() };
        proof {
            assert(p.active() =~= Set::<Seq<char>>::empty());
        }
        p
    }

    /// Start profiling a function
    pub fn start_profile(&mut self, name: &str)
        ensures
            final(self).profiles_view() == old(self).profiles_view(),
            final(self).active() == old(self).active().insert(name@),
    {
        let now = instant_now();
        self.active_profiles.insert(String::from_str(name), now);
    }

    /// End profiling a function: the time since its start is recorded. Nothing
    /// happens for a name that is not being timed, nor when the profile has no
    /// room for another execution.
    pub fn end_profile(&mut self, name: &str)
        ensures
            final(self).active() == old(self).active().remove(name@),
            !old(self).active().contains(name@) ==> final(self).profiles_view() == old(self).profiles_view(),
            old(self).active().contains(name@) && old(self).profiles_view().contains_key(name@) ==> exists|d: int|
                #[trigger] profile_ended(old(self).profiles_view(), final(self).profiles_view(), name@, d),
            old(self).active().contains(name@) && !old(self).profiles_view().contains_key(name@) ==> final(self).profiles_view().contains_key(name@)
                && exists|d: int, z: ProfileData|
                0 <= d <= max_span_nanos() && empty_profile(z) && profile_advanced(z, d, final(self).profiles_view()[name@]),
            forall|k: Seq<char>| k != name@ ==> #[trigger] final(self).profiles_view().contains_key(k)
                == old(self).profiles_view().contains_key(k),
            forall|k: Seq<char>| k != name@ && old(self).profiles_view().contains_key(k)
                ==> #[trigger] final(self).profiles_view()[k] == old(self).profiles_view()[k],
    {
        match self.active_profiles.remove(name) {
            Some(start_time) => {
                proof {
                    assert(self.active() =~= old(self).active().remove(name@));
                }
                let elapsed = instant_elapsed(&start_time);
                let d = duration_nanos(&elapsed);
                let room = match self.profiles.get(name) {
                    Some(p) => p.total_time_nanos <= 18446744073709551615999999999u128 - d
                        && p.execution_count < 0xffff_ffff_ffff_ffff
                        && (p.execution_count + 1) % 0x1_0000_0000 != 0,
                    None => true,
                };
                if room {
                    self.record_profile(name, d);
                    proof {
                        let dd = d as int;
                        if old(self).profiles_view().contains_key(name@) {
                            assert(profile_has_room(old(self).profiles_view()[name@], dd));
                            assert(profile_ended(old(self).profiles_view(), self.profiles_view(), name@, dd));
                        } else {
                            let z = choose|z: ProfileData| empty_profile(z)
                                && profile_advanced(z, dd, #[trigger] self.profiles_view()[name@]);
                            assert(empty_profile(z) && profile_advanced(z, dd, self.profiles_view()[name@]));
                        }
                    }
                } else {
                    proof {
                        let dd = d as int;
                        assert(!profile_has_room(old(self).profiles_view()[name@], dd));
                        assert(self.profiles_view() =~= old(self).profiles_view());
                        assert(profile_ended(old(self).profiles_view(), self.profiles_view(), name@, dd));
                    }
                }
            },
            None => {
                proof {
                    assert(self.active() =~= old(self).active().remove(name@));
                }
            },
        }
    }

    /// Record profile data: one more execution of `duration_nanos` nanoseconds.
    pub fn record_profile(&mut self, name: &str, duration_nanos: u128)
        requires
            duration_nanos <= max_span_nanos(),
            old(self).profiles_view().contains_key(name@) ==> profile_has_room(old(self).profiles_view()[name@], duration_nanos as int),
        ensures
            final(self).active() == old(self).active(),
            final(self).profiles_view().contains_key(name@),
            old(self).profiles_view().contains_key(name@) ==> profile_advanced(old(self).profiles_view()[name@], duration_nanos as int, final(self).profiles_view()[name@]),
            !old(self).profiles_view().contains_key(name@) ==> exists|z: ProfileData| empty_profile(z)
                && profile_advanced(z, duration_nanos as int, #[trigger] final(self).profiles_view()[name@]),
            forall|k: Seq<char>| k != name@ ==> #[trigger] final(self).profiles_view().contains_key(k)
                == old(self).profiles_view().contains_key(k),
            forall|k: Seq<char>| k != name@ && old(self).profiles_view().contains_key(k)
                ==> #[trigger] final(self).profiles_view()[k] == old(self).profiles_view()[k],
    {
        let prev = match self.profiles.get(name) {
            Some(p) => copy_profile(p),
            None => ProfileData {
                total_time_nanos: 0,
                execution_count: 0,
                average_time_nanos: 0,
                min_time_nanos: 0,
                max_time_nanos: 0,
                last_execution: None,
            },
        };
        let total = prev.total_time_nanos + duration_nanos;
        let count = prev.execution_count + 1;
        let divisor = (count % 0x1_0000_0000) as u32;
        let average = span_divide(total, divisor);
        let min_time = if count == 1 || duration_nanos < prev.min_time_nanos { duration_nanos } else { prev.min_time_nanos };
        let max_time = if count == 1 || duration_nanos > prev.max_time_nanos { duration_nanos } else { prev.max_time_nanos };
        let updated = ProfileData {
            total_time_nanos: total,
            execution_count: count,
            average_time_nanos: average,
            min_time_nanos: min_time,
            max_time_nanos: max_time,
            last_execution: Some(instant_now()),
        };
        let ghost u = updated;
        self.profiles.insert(String::from_str(name), updated);
        proof {
            if !old(self).profiles_view().contains_key(name@) {
                assert(empty_profile(prev));
                assert(profile_advanced(prev, duration_nanos as int, self.profiles_view()[name@]));
            }
        }
    }

    /// Get profile data (the last-execution instant included).
    pub fn get_profile(&self, name: &str) -> (r: Option<ProfileData>)
        ensures
            match r {
                Some(p) => self.profiles_view().contains_key(name@)
                    && p.total_time_nanos == self.profiles_view()[name@].total_time_nanos
                    && p.execution_count == self.profiles_view()[name@].execution_count
                    && p.average_time_nanos == self.profiles_view()[name@].average_time_nanos
                    && p.min_time_nanos == self.profiles_view()[name@].min_time_nanos
                    && p.max_time_nanos == self.profiles_view()[name@].max_time_nanos,
                None => !self.profiles_view().contains_key(name@),
            },
    {
        match self.profiles.get(name) {
            Some(p) => Some(copy_profile(p)),
            None => None,
        }
    }

    /// Get all profiles, by name in order of first recording.
    pub fn get_all_profiles(&self) -> (r: Vec<(String, ProfileData)>)
        ensures
            r@.len() == self.profiles_view().dom().len(),
            forall|i: int| 0 <= i < r@.len() ==> {
                let (k, p) = #[trigger] r@[i];
                &&& self.profiles_view().contains_key(k@)
                &&& p.execution_count == self.profiles_view()[k@].execution_count
                &&& p.total_time_nanos == self.profiles_view()[k@].total_time_nanos
            },
            forall|k: Seq<char>| #[trigger] self.profiles_view().contains_key(k) ==> exists|i: int| 0 <= i < r@.len() && r@[i].0@ == k,
    {
        let n = self.profiles.len();
        let ghost ks = self.profiles.key_seq();
        let mut out: Vec<(String, ProfileData)> = Vec::new();
        let mut i: usize = 0;
        while i < n
            invariant
                n == ks.len(),
                ks == self.profiles.key_seq(),
                forall|k: Seq<char>| #[trigger] self.profiles_view().contains_key(k) <==> ks.contains(k),
                i <= n,
                out@.len() == i,
                forall|j: int| 0 <= j < i ==> (#[trigger] out@[j]).0@ == ks[j],
                forall|j: int| 0 <= j < out@.len() ==> {
                    let (k, p) = #[trigger] out@[j];
                    &&& self.profiles_view().contains_key(k@)
                    &&& p.execution_count == self.profiles_view()[k@].execution_count
                    &&& p.total_time_nanos == self.profiles_view()[k@].total_time_nanos
                },
            decreases n - i,
        {
            let (k, p) = self.profiles.entry_at(i);
            out.push((k.clone(), copy_profile(p)));
            i = i + 1;
        }
        proof {
            assert forall|k: Seq<char>| #[trigger] self.profiles_view().contains_key(k) implies exists|j: int| 0 <= j < out@.len() && out@[j].0@ == k by {
                let j = choose|j: int| 0 <= j < ks.len() && ks[j] == k;
                assert(out@[j].0@ == ks[j]);
            }
        }
        out
    }

    /// Clear all profiles
    pub fn clear_profiles(&mut self)
        ensures
            final(self).profiles_view() == Map::<Seq<char>, ProfileData>::empty(),
            final(self).active() == Set::<Seq<char>>::empty(),
    {
        self.profiles.clear();
        self.active_profiles.clear();
        proof {
            assert(self.active() =~= Set::<Seq<char>>::empty());
        }
    }
}

/// Query execution statistics
pub struct QueryStats {
    /// Total queries executed
    pub total_queries: u64,
    /// Successful queries
    pub successful_queries: u64,
    /// Failed queries
    pub failed_queries: u64,
    /// Total execution time, in milliseconds
    pub total_execution_time: u64,
    /// Average execution time, in milliseconds
    pub average_execution_time: u64,
    /// Last query time, in seconds since the Unix epoch
    pub last_query_time: u64,
}

impl QueryStats {
    /// Create new query statistics
    pub fn new() -> (s: Self)
        ensures
            s.total_queries == 0,
            s.successful_queries == 0,
            s.failed_queries == 0,
            s.total_execution_time == 0,
            s.average_execution_time == 0,
            s.last_query_time == 0,
    {
        QueryStats {
            total_queries: 0,
            successful_queries: 0,
            failed_queries: 0,
            total_execution_time: 0,
            average_execution_time: 0,
            last_query_time: 0,
        }
    }

    /// Record a query execution; counters wrap around as atomic counters do.
    pub fn record_query(&mut self, success: bool, execution_time: Duration)
        ensures
            final(self).total_queries == (old(self).total_queries + 1) % 0x1_0000_0000_0000_0000,
            success ==> final(self).successful_queries == (old(self).successful_queries + 1) % 0x1_0000_0000_0000_0000
                && final(self).failed_queries == old(self).failed_queries,
            !success ==> final(self).failed_queries == (old(self).failed_queries + 1) % 0x1_0000_0000_0000_0000
                && final(self).successful_queries == old(self).successful_queries,
            final(self).total_execution_time == (old(self).total_execution_time + (span_nanos(execution_time) / 1_000_000)
                % 0x1_0000_0000_0000_0000) % 0x1_0000_0000_0000_0000,
            final(self).average_execution_time as int == final(self).total_execution_time as int
                / (if final(self).total_queries == 0 { 1int } else { final(self).total_queries as int }),
    {
        self.total_queries = self.total_queries.wrapping_add(1);
        if success {
            self.successful_queries = self.successful_queries.wrapping_add(1);
        } else {
            self.failed_queries = self.failed_queries.wrapping_add(1);
        }
        let millis = duration_millis(&execution_time);
        let time_ms = (millis % 0x1_0000_0000_0000_0000) as u64;
        self.total_execution_time = self.total_execution_time.wrapping_add(time_ms);
        let total = self.total_queries;
        let divisor = if total == 0 { 1 } else { total };
        self.average_execution_time = self.total_execution_time / divisor;
        match unix_seconds() {
            Some(secs) => {
                self.last_query_time = secs;
            },
            None => {},
        }
    }
}

} // verus!

verus! {

/// Metric value; floating-point quantities are held as the bits of an `f64`.
#[derive(Debug, Clone)]
pub enum MetricValue {
    /// Counter value
    Counter(u64),
    /// Gauge value (bits of an `f64`)
    Gauge(u64),
    /// Histogram value with count, sum and (bucket bound, count) pairs
    Histogram { count: u64, sum_bits: u64, buckets: Vec<(u64, u64)> },
    /// Summary value with count, sum and (quantile, value) pairs
    Summary { count: u64, sum_bits: u64, quantiles: Vec<(u64, u64)> },
}

/// A metric value with its lists as sequences.
pub enum ValueView {
    Counter(u64),
    Gauge(u64),
    Histogram { count: u64, sum_bits: u64, buckets: Seq<(u64, u64)> },
    Summary { count: u64, sum_bits: u64, quantiles: Seq<(u64, u64)> },
}

/// The view of a metric value.
pub open spec fn value_view(v: MetricValue) -> ValueView {
    match v {
        MetricValue::Counter(c) => ValueView::Counter(c),
        MetricValue::Gauge(g) => ValueView::Gauge(g),
        MetricValue::Histogram { count, sum_bits, buckets } => ValueView::Histogram { count, sum_bits, buckets: buckets@ },
        MetricValue::Summary { count, sum_bits, quantiles } => ValueView::Summary { count, sum_bits, quantiles: quantiles@ },
    }
}

/// Metric sample
#[derive(Debug)]
pub struct MetricSample {
    /// Metric name
    pub name: String,
    /// Metric labels
    pub labels: StrMap<String>,
    /// Metric value
    pub value: MetricValue,
    /// Timestamp, milliseconds since the Unix epoch
    pub timestamp: u64,
}

/// A sample as texts and sequences.
pub struct SampleView {
    pub name: Seq<char>,
    pub labels: Map<Seq<char>, Seq<char>>,
    pub label_order: Seq<Seq<char>>,
    pub value: ValueView,
    pub timestamp: u64,
}

/// Labels as texts.
pub open spec fn labels_view(m: StrMap<String>) -> Map<Seq<char>, Seq<char>> {
    m.map().map_values(|s: String| s@)
}

/// The view of a sample.
pub open spec fn sample_view(s: MetricSample) -> SampleView {
    SampleView {
        name: s.name@,
        labels: labels_view(s.labels),
        label_order: s.labels.key_seq(),
        value: value_view(s.value),
        timestamp: s.timestamp,
    }
}

/// Samples as views.
pub open spec fn samples_view(s: Seq<MetricSample>) -> Seq<SampleView> {
    s.map_values(|x: MetricSample| sample_view(x))
}

/// The `"key": "value"` entries of the first `n` labels, comma separated.
pub open spec fn label_entries(order: Seq<Seq<char>>, labels: Map<Seq<char>, Seq<char>>, n: int) -> Seq<char>
    decreases n,
{
    if n <= 0 {
        Seq::empty()
    } else {
        let entry = debug_quoted(order[n - 1]) + ": "@ + debug_quoted(labels[order[n - 1]]);
        if n == 1 {
            entry
        } else {
            label_entries(order, labels, n - 1) + ", "@ + entry
        }
    }
}

/// The key a sample is kept under: its name, then its labels rendered as a
/// map with `{:?}`.
pub open spec fn metric_key(s: SampleView) -> Seq<char> {
    s.name + "{"@ + label_entries(s.label_order, s.labels, s.label_order.len() as int) + "}"@
}

/// Each quantile paired with the value.
pub open spec fn paired_with(qs: Seq<u64>, v: u64) -> Seq<(u64, u64)> {
    qs.map_values(|q: u64| (q, v))
}

/// The latest `max` items of `s` (all of them when there are fewer).
pub open spec fn latest<A>(s: Seq<A>, max: nat) -> Seq<A> {
    if s.len() > max {
        s.subrange(s.len() - max, s.len() as int)
    } else {
        s
    }
}

fn copy_pairs(v: &Vec<(u64, u64)>) -> (r: Vec<(u64, u64)>)
    ensures
        r@ == v@,
{
    let mut out: Vec<(u64, u64)> = Vec::new();
    let mut i: usize = 0;
    while i < v.len()
        invariant
            i <= v@.len(),
            out@ =~= v@.take(i as int),
        decreases v@.len() - i,
    {
        out.push(v[i]);
        proof {
            assert(v@.take(i as int + 1) =~= v@.take(i as int).push(v@[i as int]));
        }
        i = i + 1;
    }
    proof {
        assert(v@.take(i as int) =~= v@);
    }
    out
}

impl MetricValue {
    /// A copy of the value.
    pub fn copy(&self) -> (r: Self)
        ensures
            value_view(r) == value_view(*self),
    {
        match self {
            MetricValue::Counter(c) => MetricValue::Counter(*c),
            MetricValue::Gauge(g) => MetricValue::Gauge(*g),
            MetricValue::Histogram { count, sum_bits, buckets } => MetricValue::Histogram {
                count: *count,
                sum_bits: *sum_bits,
                buckets: copy_pairs(buckets),
            },
            MetricValue::Summary { count, sum_bits, quantiles } => MetricValue::Summary {
                count: *count,
                sum_bits: *sum_bits,
                quantiles: copy_pairs(quantiles),
            },
        }
    }
}

impl MetricSample {
    /// A copy of the sample.
    pub fn copy(&self) -> (r: Self)
        ensures
            sample_view(r) == sample_view(*self),
    {
        MetricSample {
            name: self.name.clone(),
            labels: self.labels.copy(),
            value: self.value.copy(),
            timestamp: self.timestamp,
        }
    }
}

fn sample_key(sample: &MetricSample) -> (k: String)
    ensures
        k@ == metric_key(sample_view(*sample)),
{
    let ghost sv = sample_view(*sample);
    let n = sample.labels.len();
    let mut key = sample.name.clone();
    key.append("{");
    let ghost head = key@;
    let mut i: usize = 0;
    while i < n
        invariant
            i <= n,
            n == sv.label_order.len(),
            sv == sample_view(*sample),
            key@ == head + label_entries(sv.label_order, sv.labels, i as int),
        decreases n - i,
    {
        let (k, v) = sample.labels.entry_at(i);
        if i > 0 {
            key.append(", ");
        }
        let kt = debug_text(k.as_str());
        let vt = debug_text(v.as_str());
        key.append(kt.as_str());
        key.append(": ");
        key.append(vt.as_str());
        proof {
            assert(sv.labels[k@] == v@);
            assert(key@ =~= head + label_entries(sv.label_order, sv.labels, i as int + 1));
        }
        i = i + 1;
    }
    key.append("}");
    key
}

/// Metric collector: the latest sample under each key, and a history of
/// the latest samples, at most `max_history_size` of them.
pub struct MetricCollector {
    metrics: StrMap<MetricSample>,
    history: VecDeque<MetricSample>,
    max_history_size: usize,
    start_time: Instant,
}

impl MetricCollector {
    /// The latest sample under each key.
    pub closed spec fn metrics_view(&self) -> Map<Seq<char>, SampleView> {
        self.metrics.map().map_values(|s: MetricSample| sample_view(s))
    }

    /// Keys in the order they were first recorded.
    pub closed spec fn key_order(&self) -> Seq<Seq<char>> {
        self.metrics.key_seq()
    }

    /// The samples kept in the history, oldest first.
    pub closed spec fn history_view(&self) -> Seq<SampleView> {
        samples_view(self.history@)
    }

    /// How many samples the history keeps.
    pub closed spec fn max_history(&self) -> nat {
        self.max_history_size as nat
    }

    /// The collector after `s` is recorded: the sample kept under its key,
    /// and appended to the history, which keeps only its latest samples.
    pub open spec fn records(&self, before: Self, s: SampleView) -> bool {
        &&& self.metrics_view() == before.metrics_view().insert(metric_key(s), s)
        &&& self.history_view() == latest(before.history_view().push(s), before.max_history())
        &&& self.max_history() == before.max_history()
    }

    /// Create a new metric collector
    pub fn new(max_history_size: usize) -> (c: Self)
        ensures
            c.metrics_view() == Map::<Seq<char>, SampleView>::empty(),
            c.history_view() == Seq::<SampleView>::empty(),
            c.max_history() == max_history_size,
    {
        let c = MetricCollector {
            metrics: StrMap::new(),
            history: VecDeque::new(),
            max_history_size,
            start_time: instant_now(),
        };
        proof {
            assert(c.metrics_view() =~= Map::<Seq<char>, SampleView>::empty());
            assert(c.history_view() =~= Seq::<SampleView>::empty());
        }
        c
    }

    /// Current time in milliseconds since the Unix epoch (0 for a clock set
    /// before the epoch).
    fn current_timestamp(&self) -> u64 {
        match unix_millis() {
            Some(ms) => (ms % 0x1_0000_0000_0000_0000) as u64,
            None => 0,
        }
    }

    /// Record a metric sample
    pub fn record_sample(&mut self, sample: MetricSample)
        ensures
            final(self).records(*old(self), sample_view(sample)),
    {
        let ghost sv = sample_view(sample);
        let key = sample_key(&sample);
        let kept = sample.copy();
        let ghost m0 = self.metrics.map();
        self.metrics.insert(key, kept);
        proof {
            assert(self.metrics_view() =~= m0.map_values(|s: MetricSample| sample_view(s)).insert(metric_key(sv), sv));
        }
        let ghost h0 = self.history@;
        self.history.push_back(sample);
        let ghost full = samples_view(h0.push(sample));
        proof {
            assert(samples_view(self.history@) =~= full);
        }
        let ghost mut dropped: int = 0;
        while self.history.len() > self.max_history_size
            invariant
                0 <= dropped <= full.len(),
                samples_view(self.history@) =~= full.subrange(dropped, full.len() as int),
                self.max_history_size == old(self).max_history_size,
                self.metrics_view() == old(self).metrics_view().insert(metric_key(sv), sv),
                full.len() > self.max_history_size ==> dropped <= full.len() - self.max_history_size,
                full.len() <= self.max_history_size ==> dropped == 0,
            decreases self.history@.len(),
        {
            let ghost before = self.history@;
            proof {
                assert(samples_view(before).len() == before.len());
                assert(before.len() == full.len() - dropped);
            }
            let popped = self.history.pop_front();
            proof {
                assert(popped is Some);
                assert(samples_view(self.history@) =~= samples_view(before).subrange(1, before.len() as int));
                assert(full.subrange(dropped, full.len() as int).subrange(1, before.len() as int) =~= full.subrange(
                    dropped + 1,
                    full.len() as int,
                ));
                dropped = dropped + 1;
            }
        }
        proof {
            assert(full =~= samples_view(old(self).history@).push(sv));
            if full.len() > self.max_history_size {
                assert(dropped == full.len() - self.max_history_size);
            }
            assert(samples_view(self.history@) =~= latest(full, self.max_history_size as nat));
        }
    }

    /// Record a counter metric
    pub fn record_counter(&mut self, name: &str, value: u64, labels: StrMap<String>)
        ensures
            exists|t: u64| #[trigger] final(self).records(
                *old(self),
                SampleView {
                    name: name@,
                    labels: labels_view(labels),
                    label_order: labels.key_seq(),
                    value: ValueView::Counter(value),
                    timestamp: t,
                },
            ),
    {
        let sample = MetricSample {
            name: String::from_str(name),
            labels,
            value: MetricValue::Counter(value),
            timestamp: self.current_timestamp(),
        };
        self.record_sample(sample);
    }

    /// Record a gauge metric (`value` holds the bits of an `f64`)
    pub fn record_gauge(&mut self, name: &str, value: u64, labels: StrMap<String>)
        ensures
            exists|t: u64| #[trigger] final(self).records(
                *old(self),
                SampleView {
                    name: name@,
                    labels: labels_view(labels),
                    label_order: labels.key_seq(),
                    value: ValueView::Gauge(value),
                    timestamp: t,
                },
            ),
    {
        let sample = MetricSample {
            name: String::from_str(name),
            labels,
            value: MetricValue::Gauge(value),
            timestamp: self.current_timestamp(),
        };
        self.record_sample(sample);
    }

    /// Record a histogram metric: a count of one under each bucket bound that
    /// `at_most` says the value does not exceed, and none under the others.
    /// Values and bounds hold the bits of `f64`s; `at_most(v, b)` compares them.
    pub fn record_histogram<F: Fn(u64, u64) -> bool>(
        &mut self,
        name: &str,
        value: u64,
        buckets: Vec<u64>,
        labels: StrMap<String>,
        at_most: F,
    )
        requires
            forall|v: u64, b: u64| #[trigger] at_most.requires((v, b)),
        ensures
            exists|t: u64, counted: Seq<(u64, u64)>| #[trigger] final(self).records(
                *old(self),
                SampleView {
                    name: name@,
                    labels: labels_view(labels),
                    label_order: labels.key_seq(),
                    value: ValueView::Histogram { count: 1, sum_bits: value, buckets: counted },
                    timestamp: t,
                },
            ) && counted.len() == buckets@.len() && forall|i: int| 0 <= i < buckets@.len() ==> {
                &&& (#[trigger] counted[i]).0 == buckets@[i]
                &&& (counted[i].1 == 1 && at_most.ensures((value, buckets@[i]), true))
                    || (counted[i].1 == 0 && at_most.ensures((value, buckets@[i]), false))
            },
    {
        let mut counted: Vec<(u64, u64)> = Vec::new();
        let mut i: usize = 0;
        while i < buckets.len()
            invariant
                i <= buckets@.len(),
                counted@.len() == i,
                forall|v: u64, b: u64| #[trigger] at_most.requires((v, b)),
                forall|j: int| 0 <= j < i ==> {
                    &&& (#[trigger] counted@[j]).0 == buckets@[j]
                    &&& (counted@[j].1 == 1 && at_most.ensures((value, buckets@[j]), true))
                        || (counted@[j].1 == 0 && at_most.ensures((value, buckets@[j]), false))
                },
            decreases buckets@.len() - i,
        {
            let bound = buckets[i];
            let hit = at_most(value, bound);
            if hit {
                counted.push((bound, 1));
            } else {
                counted.push((bound, 0));
            }
            i = i + 1;
        }
        let ghost pairs = counted@;
        let sample = MetricSample {
            name: String::from_str(name),
            labels,
            value: MetricValue::Histogram { count: 1, sum_bits: value, buckets: counted },
            timestamp: self.current_timestamp(),
        };
        self.record_sample(sample);
        proof {
            assert(value_view(sample.value) == (ValueView::Histogram { count: 1, sum_bits: value, buckets: pairs }));
        }
    }

    /// Record a summary metric: each quantile paired with the value (all
    /// bits of `f64`s).
    pub fn record_summary(&mut self, name: &str, value: u64, quantiles: Vec<u64>, labels: StrMap<String>)
        ensures
            exists|t: u64| #[trigger] final(self).records(
                *old(self),
                SampleView {
                    name: name@,
                    labels: labels_view(labels),
                    label_order: labels.key_seq(),
                    value: ValueView::Summary {
                        count: 1,
                        sum_bits: value,
                        quantiles: paired_with(quantiles@, value),
                    },
                    timestamp: t,
                },
            ),
    {
        let mut pairs: Vec<(u64, u64)> = Vec::new();
        let mut i: usize = 0;
        while i < quantiles.len()
            invariant
                i <= quantiles@.len(),
                pairs@ =~= paired_with(quantiles@.take(i as int), value),
            decreases quantiles@.len() - i,
        {
            pairs.push((quantiles[i], value));
            proof {
                assert(quantiles@.take(i as int + 1) =~= quantiles@.take(i as int).push(quantiles@[i as int]));
            }
            i = i + 1;
        }
        proof {
            assert(quantiles@.take(i as int) =~= quantiles@);
        }
        let sample = MetricSample {
            name: String::from_str(name),
            labels,
            value: MetricValue::Summary { count: 1, sum_bits: value, quantiles: pairs },
            timestamp: self.current_timestamp(),
        };
        self.record_sample(sample);
    }

    /// Get all current metrics: each key with its latest sample, in the order
    /// the keys were first recorded.
    pub fn get_metrics(&self) -> (r: Vec<(String, MetricSample)>)
        ensures
            r@.len() == self.key_order().len(),
            forall|i: int| 0 <= i < r@.len() ==> {
                &&& (#[trigger] r@[i]).0@ == self.key_order()[i]
                &&& sample_view(r@[i].1) == self.metrics_view()[self.key_order()[i]]
            },
    {
        let n = self.metrics.len();
        let mut out: Vec<(String, MetricSample)> = Vec::new();
        let mut i: usize = 0;
        while i < n
            invariant
                i <= n,
                n == self.metrics.key_seq().len(),
                out@.len() == i,
                forall|j: int| 0 <= j < i ==> {
                    &&& (#[trigger] out@[j]).0@ == self.key_order()[j]
                    &&& sample_view(out@[j].1) == self.metrics_view()[self.key_order()[j]]
                },
            decreases n - i,
        {
            let (k, s) = self.metrics.entry_at(i);
            out.push((k.clone(), s.copy()));
            i = i + 1;
        }
        out
    }

    /// Get metric history, oldest first
    pub fn get_history(&self) -> (r: Vec<MetricSample>)
        ensures
            samples_view(r@) == self.history_view(),
    {
        let mut out: Vec<MetricSample> = Vec::new();
        let mut i: usize = 0;
        while i < self.history.len()
            invariant
                i <= self.history@.len(),
                samples_view(out@) =~= samples_view(self.history@).take(i as int),
            decreases self.history@.len() - i,
        {
            out.push(self.history[i].copy());
            proof {
                assert(samples_view(self.history@).take(i as int + 1) =~= samples_view(self.history@).take(i as int).push(
                    sample_view(self.history@[i as int]),
                ));
            }
            i = i + 1;
        }
        proof {
            assert(samples_view(self.history@).take(i as int) =~= samples_view(self.history@));
        }
        out
    }

    /// Get the current metrics named `name`, in key order.
    pub fn get_metrics_by_name(&self, name: &str) -> (r: Vec<MetricSample>)
        ensures
            samples_view(r@) == self.key_order().filter(|k: Seq<char>| self.metrics_view()[k].name == name@).map_values(
                |k: Seq<char>| self.metrics_view()[k],
            ),
    {
        let n = self.metrics.len();
        let ghost ks = self.key_order();
        let ghost pick = |k: Seq<char>| self.metrics_view()[k].name == name@;
        let ghost shown = |k: Seq<char>| self.metrics_view()[k];
        let mut out: Vec<MetricSample> = Vec::new();
        let mut i: usize = 0;
        while i < n
            invariant
                i <= n,
                n == ks.len(),
                ks == self.key_order(),
                pick == (|k: Seq<char>| self.metrics_view()[k].name == name@),
                shown == (|k: Seq<char>| self.metrics_view()[k]),
                samples_view(out@) =~= ks.take(i as int).filter(pick).map_values(shown),
            decreases n - i,
        {
            let (k, s) = self.metrics.entry_at(i);
            proof {
                assert(ks.take(i as int + 1).drop_last() =~= ks.take(i as int));
                assert(ks.take(i as int + 1).last() == k@);
                reveal(Seq::filter);
                assert(self.metrics.map().contains_key(k@));
                assert(self.metrics_view()[k@] == sample_view(*s));
                assert(pick(k@) == (s.name@ == name@));
                assert(shown(k@) == sample_view(*s));
            }
            let ghost before = out@;
            if str_equal(&s.name, name) {
                out.push(s.copy());
                proof {
                    assert(samples_view(out@) =~= samples_view(before).push(sample_view(*s)));
                    assert(ks.take(i as int + 1).filter(pick) == ks.take(i as int).filter(pick).push(k@));
                    assert(ks.take(i as int + 1).filter(pick).map_values(shown) =~= ks.take(i as int).filter(pick).map_values(
                        shown,
                    ).push(shown(k@)));
                }
            } else {
                proof {
                    assert(ks.take(i as int + 1).filter(pick) == ks.take(i as int).filter(pick));
                }
            }
            i = i + 1;
        }
        proof {
            assert(ks.take(i as int) =~= ks);
        }
        out
    }

    /// Clear all metrics
    pub fn clear_metrics(&mut self)
        ensures
            final(self).metrics_view() == Map::<Seq<char>, SampleView>::empty(),
            final(self).history_view() == Seq::<SampleView>::empty(),
            final(self).max_history() == old(self).max_history(),
    {
        self.metrics.clear();
        self.history.clear();
        proof {
            assert(self.metrics_view() =~= Map::<Seq<char>, SampleView>::empty());
            assert(self.history_view() =~= Seq::<SampleView>::empty());
        }
    }
}

fn str_equal(a: &String, b: &str) -> (r: bool)
    ensures
        r == (a@ == b@),
{
    let t = String::from_str(b);
    a.eq(&t)
}

} // verus!
