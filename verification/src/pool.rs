use vstd::prelude::*;
use vstd::std_specs::iter::IteratorSpec;

use crate::addr::SocketAddress;

verus! {

/// Errors of the connection pool.
#[derive(Debug, Clone, PartialEq, Eq)]
pub enum PoolError {
    PoolFull,
    ConnectionTimeout,
    ConnectionFailed(String),
    InvalidState,
}

/// Connection states for lifecycle management
#[derive(Debug, Clone, Copy, PartialEq, Eq, Structural)]
pub enum ConnectionState {
    Active,
    Idle,
    Checking,
    Failed,
}

/// Connection metrics for health and performance monitoring. Times are
/// readings of a monotonic clock in nanoseconds; durations are nanoseconds.
#[derive(Debug, Clone)]
pub struct ConnectionMetrics {
    pub created_at: u64,
    pub last_used: u64,
    pub error_count: u32,
    pub total_requests: u64,
    pub avg_response_time: u64,
    pub last_error: Option<String>,
}

/// The metrics of a connection opened at `now` that has served nothing yet.
pub open spec fn fresh_metrics(now: u64) -> ConnectionMetrics {
    ConnectionMetrics {
        created_at: now,
        last_used: now,
        error_count: 0,
        total_requests: 0,
        avg_response_time: 0,
        last_error: None,
    }
}

/// The mean response time after one more request that took `duration`, from
/// the mean `avg` over `count` earlier requests; the quotient is rounded down
/// and kept to its low 64 bits, as a `Duration` built from nanoseconds keeps it.
pub open spec fn next_average(avg: u64, count: u64, duration: u128) -> u64 {
    ((avg * count + duration) / (count + 1)) as u64
}

impl ConnectionMetrics {
    pub fn new(now: u64) -> (r: Self)
        ensures
            r == fresh_metrics(now),
            r.avg_response_time == average_of_run(Seq::empty()),
    {
        ConnectionMetrics {
            created_at: now,
            last_used: now,
            error_count: 0,
            total_requests: 0,
            avg_response_time: 0,
            last_error: None,
        }
    }

    /// Records a request that took `duration` nanoseconds and ended at `now`.
    pub fn record_request(&mut self, duration: u128, now: u64)
        requires
            old(self).total_requests < u64::MAX,
            old(self).avg_response_time * old(self).total_requests + duration <= u128::MAX,
        ensures
            final(self).total_requests == old(self).total_requests + 1,
            final(self).last_used == now,
            final(self).avg_response_time == next_average(
                old(self).avg_response_time,
                old(self).total_requests,
                duration,
            ),
            final(self).created_at == old(self).created_at,
            final(self).error_count == old(self).error_count,
            final(self).last_error == old(self).last_error,
            forall|ds: Seq<u128>|
                old(self).avg_response_time == average_of_run(ds) && ds.len() == old(self).total_requests
                    ==> final(self).avg_response_time == #[trigger] average_of_run(ds.push(duration)),
    {
        proof {
            assert forall|ds: Seq<u128>|
                old(self).avg_response_time == average_of_run(ds) && ds.len() == old(self).total_requests
                    implies next_average(old(self).avg_response_time, old(self).total_requests, duration)
                    == #[trigger] average_of_run(ds.push(duration)) by {
                lemma_run_step(ds, duration);
            }
        }
        let count = self.total_requests;
        self.total_requests = count + 1;
        self.last_used = now;
        let avg = self.avg_response_time as u128;
        assert(avg * (count as u128) <= u64::MAX * u64::MAX) by (nonlinear_arith)
            requires
                avg <= u64::MAX,
                count <= u64::MAX,
        ;
        let total = avg * (count as u128) + duration;
        let mean = total / ((count as u128) + 1);
        self.avg_response_time = #[verifier::truncate] (mean as u64);
    }

    pub fn record_error(&mut self, error: String)
        requires
            old(self).error_count < u32::MAX,
        ensures
            final(self).error_count == old(self).error_count + 1,
            final(self).last_error == Some(error),
            final(self).created_at == old(self).created_at,
            final(self).last_used == old(self).last_used,
            final(self).total_requests == old(self).total_requests,
            final(self).avg_response_time == old(self).avg_response_time,
    {
        self.error_count = self.error_count + 1;
        self.last_error = Some(error);
    }
}

/// The running mean of response times stays within any range that holds
/// every recorded response time: recording a duration in `[lo, hi]` into a
/// mean that lies in `[lo, hi]` (or that covers no request yet) gives a mean
/// in `[lo, hi]`.
pub proof fn lemma_average_stays_in_range(avg: u64, count: u64, duration: u128, lo: int, hi: int)
    requires
        lo <= duration <= hi,
        hi <= u64::MAX,
        count == 0 || lo <= avg <= hi,
        count < u64::MAX,
    ensures
        lo <= next_average(avg, count, duration) <= hi,
{
    let n = count as int;
    let sum = avg * n + duration;
    if count == 0 {
        assert(sum == duration);
    } else {
        assert(avg * n + duration <= hi * n + hi) by (nonlinear_arith)
            requires
                avg <= hi,
                duration <= hi,
                n >= 0,
        ;
        assert(lo * n + lo <= avg * n + duration) by (nonlinear_arith)
            requires
                lo <= avg,
                lo <= duration,
                n >= 0,
        ;
    }
    assert(lo * (n + 1) <= sum <= hi * (n + 1)) by (nonlinear_arith)
        requires
            count == 0 ==> sum == duration,
            count != 0 ==> avg * n + duration <= hi * n + hi,
            count != 0 ==> lo * n + lo <= avg * n + duration,
            lo <= duration <= hi,
            sum == avg * n + duration,
            n == count,
    ;
    assert(lo <= sum / (n + 1) <= hi) by (nonlinear_arith)
        requires
            lo * (n + 1) <= sum <= hi * (n + 1),
            n >= 0,
    ;
}

/// The mean response time of fresh metrics after recording the durations
/// `ds` in order.
pub open spec fn average_of_run(ds: Seq<u128>) -> u64
    decreases ds.len(),
{
    if ds.len() == 0 {
        0
    } else {
        next_average(average_of_run(ds.drop_last()), (ds.len() - 1) as u64, ds.last())
    }
}

/// The sum of the durations `ds`.
pub open spec fn total_of(ds: Seq<u128>) -> int
    decreases ds.len(),
{
    if ds.len() == 0 {
        0
    } else {
        total_of(ds.drop_last()) + ds.last()
    }
}

/// Recording one more duration on metrics whose mean is the run average of
/// `ds` over `ds.len()` requests gives the run average of the longer run.
pub proof fn lemma_run_step(ds: Seq<u128>, d: u128)
    ensures
        average_of_run(ds.push(d)) == next_average(average_of_run(ds), ds.len() as u64, d),
{
    assert(ds.push(d).drop_last() =~= ds);
}

/// Over any run of requests, the mean response time lies within every
/// range that holds all recorded durations, and never exceeds the true mean.
pub proof fn lemma_average_of_run(ds: Seq<u128>, lo: int, hi: int)
    requires
        0 < ds.len() < u64::MAX,
        hi <= u64::MAX,
        forall|i: int| 0 <= i < ds.len() ==> lo <= #[trigger] ds[i] <= hi,
    ensures
        lo <= average_of_run(ds) <= hi,
        average_of_run(ds) * ds.len() <= total_of(ds),
    decreases ds.len(),
{
    let init = ds.drop_last();
    let d = ds.last();
    let n = init.len() as int;
    let a = average_of_run(init);
    assert(lo <= d <= hi);
    if n == 0 {
        assert(init.len() == 0);
        assert(average_of_run(init) == 0);
        assert(a * n + d == d) by (nonlinear_arith)
            requires
                n == 0,
        ;
        assert(next_average(a, 0, d) == d);
        assert(average_of_run(ds) == d);
        assert(total_of(init) == 0);
        assert(total_of(ds) == d);
        let avg = average_of_run(ds) as int;
        let len = ds.len() as int;
        assert(avg * len <= total_of(ds)) by (nonlinear_arith)
            requires
                avg == d,
                len == 1,
                total_of(ds) == d,
        ;
    } else {
        assert forall|i: int| 0 <= i < init.len() implies lo <= #[trigger] init[i] <= hi by {
            assert(init[i] == ds[i]);
        }
        lemma_average_of_run(init, lo, hi);
        lemma_average_stays_in_range(a, n as u64, d, lo, hi);
        let q = (a * n + d) / (n + 1);
        assert(q * (n + 1) <= a * n + d) by (nonlinear_arith)
            requires
                q == (a * n + d) / (n + 1),
                n >= 0,
                a * n + d >= 0,
        ;
        assert(a * n + d <= hi * (n + 1)) by (nonlinear_arith)
            requires
                a <= hi,
                d <= hi,
                n >= 0,
        ;
        assert(q <= hi) by (nonlinear_arith)
            requires
                q == (a * n + d) / (n + 1),
                a * n + d <= hi * (n + 1),
                n >= 0,
        ;
        assert(average_of_run(ds) == q);
        assert(total_of(ds) == total_of(init) + d);
        assert(q * ds.len() <= total_of(ds)) by (nonlinear_arith)
            requires
                q * (n + 1) <= a * n + d,
                a * n <= total_of(init),
                total_of(ds) == total_of(init) + d,
                ds.len() == n + 1,
        ;
    }
}

/// A lowercase hexadecimal digit.
pub open spec fn is_lower_hex(c: char) -> bool {
    ('0' <= c <= '9') || ('a' <= c <= 'f')
}

/// The hyphenated lowercase text of a version-4 UUID:
/// `xxxxxxxx-xxxx-4xxx-yxxx-xxxxxxxxxxxx` with `y` one of `8`, `9`, `a`, `b`.
pub open spec fn is_uuid_v4_text(s: Seq<char>) -> bool {
    &&& s.len() == 36
    &&& forall|i: int|
        0 <= i < 36 ==> if i == 8 || i == 13 || i == 18 || i == 23 {
            s[i] == '-'
        } else {
            is_lower_hex(#[trigger] s[i])
        }
    &&& s[14] == '4'
    &&& (s[19] == '8' || s[19] == '9' || s[19] == 'a' || s[19] == 'b')
}

/// A fresh random connection id: `uuid::Uuid::new_v4()` rendered by its
/// `Display` impl, which writes the hyphenated lowercase form. The value is
/// random, so only its shape is stated; `new_v4` panics when the operating
/// system cannot supply random bytes.
#[verifier::external_body]
fn new_connection_id() -> (r: String)
    ensures
        is_uuid_v4_text(r@),
{
    uuid::Uuid::new_v4().to_string()
}

/// A pooled connection, by what the pool decides on: its id, lifecycle
/// state, metrics and target. The socket itself is held by the caller.
#[derive(Debug)]
pub struct PooledConnection {
    pub id: String,
    pub state: ConnectionState,
    pub metrics: ConnectionMetrics,
    pub target: SocketAddress,
}

/// The connection that `PooledConnection::new` makes with id `id`.
pub open spec fn fresh_connection(id: String, target: SocketAddress, now: u64) -> PooledConnection {
    PooledConnection { id, state: ConnectionState::Active, metrics: fresh_metrics(now), target }
}

/// A connection after a health probe: idle when the probe succeeded, failed
/// with the probe's error recorded otherwise.
pub open spec fn after_probe(c: PooledConnection, probe: Result<usize, String>) -> PooledConnection {
    match probe {
        Ok(_) => PooledConnection { state: ConnectionState::Idle, ..c },
        Err(e) => PooledConnection {
            state: ConnectionState::Failed,
            metrics: ConnectionMetrics {
                error_count: (c.metrics.error_count + 1) as u32,
                last_error: Some(e),
                ..c.metrics
            },
            ..c
        },
    }
}

impl PooledConnection {
    /// A new active connection to `target`, opened at `now`, under a fresh
    /// random id.
    pub fn new(target: SocketAddress, now: u64) -> (r: Self)
        ensures
            r == fresh_connection(r.id, target, now),
            is_uuid_v4_text(r.id@),
    {
        PooledConnection {
            id: new_connection_id(),
            state: ConnectionState::Active,
            metrics: ConnectionMetrics::new(now),
            target,
        }
    }

    pub fn mark_used(&mut self, now: u64)
        ensures
            final(self).state == ConnectionState::Active,
            final(self).metrics == (ConnectionMetrics { last_used: now, ..old(self).metrics }),
            final(self).id == old(self).id,
            final(self).target == old(self).target,
    {
        self.metrics.last_used = now;
        self.state = ConnectionState::Active;
    }

    pub fn mark_idle(&mut self)
        ensures
            *final(self) == (PooledConnection { state: ConnectionState::Idle, ..*old(self) }),
    {
        self.state = ConnectionState::Idle;
    }

    pub fn mark_failed(&mut self, error: String)
        requires
            old(self).metrics.error_count < u32::MAX,
        ensures
            *final(self) == after_probe(*old(self), Err(error)),
    {
        self.state = ConnectionState::Failed;
        self.metrics.record_error(error);
    }

    /// Applies the outcome of a write probe on the connection's socket:
    /// returns whether the connection is healthy.
    pub fn check_health(&mut self, probe: Result<usize, String>) -> (r: bool)
        requires
            probe is Err ==> old(self).metrics.error_count < u32::MAX,
        ensures
            r == probe is Ok,
            *final(self) == after_probe(*old(self), probe),
    {
        self.state = ConnectionState::Checking;
        match probe {
            Ok(_) => {
                self.state = ConnectionState::Idle;
                true
            },
            Err(e) => {
                self.mark_failed(e);
                false
            },
        }
    }
}

/// Pool configuration; the times are nanoseconds.
#[derive(Debug, Clone, Copy, PartialEq, Eq, Structural)]
pub struct PoolConfig {
    pub max_size: usize,
    pub max_idle_time: u128,
    pub health_check_interval: u128,
    pub connection_timeout: u128,
}

/// Fifty connections, a minute of idleness, health checks every thirty
/// seconds, five seconds to connect.
pub open spec fn default_pool_config() -> PoolConfig {
    PoolConfig {
        max_size: 50,
        max_idle_time: 60_000_000_000,
        health_check_interval: 30_000_000_000,
        connection_timeout: 5_000_000_000,
    }
}

impl Default for PoolConfig {
    fn default() -> (r: Self)
        ensures
            r == default_pool_config(),
    {
        PoolConfig {
            max_size: 50,
            max_idle_time: 60_000_000_000,
            health_check_interval: 30_000_000_000,
            connection_timeout: 5_000_000_000,
        }
    }
}

/// Counts of the pool's connections, in total and by state.
#[derive(Debug, Clone, Copy, PartialEq, Eq, Structural)]
pub struct PoolMetrics {
    pub total_connections: usize,
    pub active_connections: usize,
    pub idle_connections: usize,
    pub failed_connections: usize,
    pub checking_connections: usize,
}

impl Default for PoolMetrics {
    fn default() -> (r: Self)
        ensures
            r == (PoolMetrics {
                total_connections: 0,
                active_connections: 0,
                idle_connections: 0,
                failed_connections: 0,
                checking_connections: 0,
            }),
    {
        PoolMetrics {
            total_connections: 0,
            active_connections: 0,
            idle_connections: 0,
            failed_connections: 0,
            checking_connections: 0,
        }
    }
}

/// What `ConnectionPool::get_connection` asks of its caller.
#[derive(Debug, Clone, PartialEq, Eq)]
pub enum ConnectionPlan {
    /// Use the pooled connection with this id.
    Reuse(String),
    /// Open a new connection to the target and register it.
    Connect,
}

/// No two connections share an id.
pub open spec fn ids_distinct(s: Seq<PooledConnection>) -> bool {
    forall|i: int, j: int|
        0 <= i < s.len() && 0 <= j < s.len() && i != j ==> #[trigger] s[i].id@ != #[trigger] s[j].id@
}

/// No connection is caught in the middle of a health check: a pool applies
/// each probe's outcome at once.
pub open spec fn no_checking(s: Seq<PooledConnection>) -> bool {
    forall|k: int| 0 <= k < s.len() ==> #[trigger] s[k].state != ConnectionState::Checking
}

/// The position of the first connection in `s` to `target` in state `state`.
pub open spec fn first_in_state(s: Seq<PooledConnection>, target: SocketAddress, state: ConnectionState) -> Option<nat>
    decreases s.len(),
{
    if s.len() == 0 {
        None
    } else if s[0].target == target && s[0].state == state {
        Some(0)
    } else {
        match first_in_state(s.drop_first(), target, state) {
            Some(i) => Some(i + 1),
            None => None,
        }
    }
}

/// The connection that a request for `target` reuses: the first idle one to
/// `target`, else the first active one to `target`.
pub open spec fn reusable_connection(s: Seq<PooledConnection>, target: SocketAddress) -> Option<nat> {
    match first_in_state(s, target, ConnectionState::Idle) {
        Some(i) => Some(i),
        None => first_in_state(s, target, ConnectionState::Active),
    }
}

/// The position of the connection with id `id`.
pub open spec fn position_of_id(s: Seq<PooledConnection>, id: Seq<char>) -> Option<nat>
    decreases s.len(),
{
    if s.len() == 0 {
        None
    } else if s[0].id@ == id {
        Some(0)
    } else {
        match position_of_id(s.drop_first(), id) {
            Some(i) => Some(i + 1),
            None => None,
        }
    }
}

/// `s` with `c` stored under its id: in place of the connection that had
/// that id, or at the end.
pub open spec fn with_connection(s: Seq<PooledConnection>, c: PooledConnection) -> Seq<PooledConnection> {
    match position_of_id(s, c.id@) {
        Some(i) => s.update(i as int, c),
        None => s.push(c),
    }
}

/// The time from `since` to `now`, zero when `now` is earlier.
pub open spec fn elapsed(now: u64, since: u64) -> nat {
    if now >= since {
        (now - since) as nat
    } else {
        0
    }
}

/// A connection that cleanup removes: unused for longer than `max_idle`, or failed.
pub open spec fn is_expired(c: PooledConnection, now: u64, max_idle: u128) -> bool {
    elapsed(now, c.metrics.last_used) > max_idle || c.state == ConnectionState::Failed
}

/// The connections of `s` that cleanup keeps, in their order.
pub open spec fn live_connections(s: Seq<PooledConnection>, now: u64, max_idle: u128) -> Seq<PooledConnection>
    decreases s.len(),
{
    if s.len() == 0 {
        s
    } else {
        let rest = live_connections(s.drop_last(), now, max_idle);
        if is_expired(s.last(), now, max_idle) {
            rest
        } else {
            rest.push(s.last())
        }
    }
}

/// How many connections of `s` are in state `state`.
pub open spec fn count_in_state(s: Seq<PooledConnection>, state: ConnectionState) -> nat
    decreases s.len(),
{
    if s.len() == 0 {
        0
    } else {
        count_in_state(s.drop_last(), state) + if s.last().state == state {
            1nat
        } else {
            0nat
        }
    }
}

/// The ids of the connections that a health-check round probes: those not active.
pub open spec fn ids_to_check(s: Seq<PooledConnection>) -> Seq<Seq<char>>
    decreases s.len(),
{
    if s.len() == 0 {
        Seq::empty()
    } else {
        let rest = ids_to_check(s.drop_last());
        if s.last().state != ConnectionState::Active {
            rest.push(s.last().id@)
        } else {
            rest
        }
    }
}

/// Whether a probe's outcome can be recorded on `c`: a failed probe adds an
/// error, which a connection whose error count is at its limit cannot take.
pub open spec fn probe_recordable(c: PooledConnection, probe: Result<usize, String>) -> bool {
    probe is Ok || c.metrics.error_count < u32::MAX
}

/// `s` after recording the probe of the connection with id `id`; a missing
/// connection, or one that cannot take the outcome, is left as it is.
pub open spec fn apply_probe(s: Seq<PooledConnection>, id: Seq<char>, probe: Result<usize, String>) -> Seq<PooledConnection> {
    match position_of_id(s, id) {
        Some(i) => if probe_recordable(s[i as int], probe) {
            s.update(i as int, after_probe(s[i as int], probe))
        } else {
            s
        },
        None => s,
    }
}

/// `s` after recording a round of probes, in order.
pub open spec fn after_round(s: Seq<PooledConnection>, probes: Seq<(String, Result<usize, String>)>) -> Seq<PooledConnection>
    decreases probes.len(),
{
    if probes.len() == 0 {
        s
    } else {
        apply_probe(after_round(s, probes.drop_last()), probes.last().0@, probes.last().1)
    }
}

proof fn lemma_first_in_state(s: Seq<PooledConnection>, target: SocketAddress, state: ConnectionState, i: int)
    requires
        0 <= i <= s.len(),
        forall|k: int| 0 <= k < i ==> !(s[k].target == target && s[k].state == state),
    ensures
        i < s.len() && s[i].target == target && s[i].state == state ==> first_in_state(s, target, state) == Some(i as nat),
        i == s.len() ==> first_in_state(s, target, state) is None,
    decreases i,
{
    if i > 0 {
        lemma_first_in_state(s.drop_first(), target, state, i - 1);
    }
}

proof fn lemma_first_in_state_found(s: Seq<PooledConnection>, target: SocketAddress, state: ConnectionState)
    ensures
        first_in_state(s, target, state) matches Some(i) ==> i < s.len() && s[i as int].target == target
            && s[i as int].state == state,
    decreases s.len(),
{
    if s.len() > 0 {
        lemma_first_in_state_found(s.drop_first(), target, state);
    }
}

proof fn lemma_position_of_id(s: Seq<PooledConnection>, id: Seq<char>, i: int)
    requires
        0 <= i <= s.len(),
        forall|k: int| 0 <= k < i ==> s[k].id@ != id,
    ensures
        i < s.len() && s[i].id@ == id ==> position_of_id(s, id) == Some(i as nat),
        i == s.len() ==> position_of_id(s, id) is None,
    decreases i,
{
    if i > 0 {
        lemma_position_of_id(s.drop_first(), id, i - 1);
    }
}

proof fn lemma_position_of_id_found(s: Seq<PooledConnection>, id: Seq<char>)
    ensures
        position_of_id(s, id) matches Some(i) ==> i < s.len() && s[i as int].id@ == id,
        position_of_id(s, id) is None ==> forall|k: int| 0 <= k < s.len() ==> s[k].id@ != id,
    decreases s.len(),
{
    if s.len() > 0 {
        lemma_position_of_id_found(s.drop_first(), id);
        if position_of_id(s, id) is None {
            assert forall|k: int| 0 <= k < s.len() implies s[k].id@ != id by {
                if k > 0 {
                    assert(s[k] == s.drop_first()[k - 1]);
                }
            }
        }
    }
}

/// Main connection pool: the pooled connections in the order they were
/// registered, under distinct ids, never more than the configured maximum.
pub struct ConnectionPool {
    connections: Vec<PooledConnection>,
    config: PoolConfig,
}

impl ConnectionPool {
    #[verifier::type_invariant]
    spec fn wf(self) -> bool {
        &&& ids_distinct(self.connections@)
        &&& self.connections@.len() <= self.config.max_size
        &&& no_checking(self.connections@)
    }

    /// The pooled connections, in pool order.
    pub closed spec fn conns(&self) -> Seq<PooledConnection> {
        self.connections@
    }

    pub closed spec fn cfg(&self) -> PoolConfig {
        self.config
    }

    pub fn new(config: PoolConfig) -> (r: Self)
        ensures
            ids_distinct(r.conns()),
            no_checking(r.conns()),
            r.conns() == Seq::<PooledConnection>::empty(),
            r.cfg() == config,
    {
        ConnectionPool { connections: Vec::new(), config }
    }

    pub fn config(&self) -> (r: PoolConfig)
        ensures
            r == self.cfg(),
    {
        self.config
    }

    pub fn len(&self) -> (r: usize)
        ensures
            r == self.conns().len(),
    {
        self.connections.len()
    }

    fn first_in_state_exec(&self, target: &SocketAddress, state: ConnectionState) -> (r: Option<usize>)
        ensures
            r matches Some(i) ==> first_in_state(self.conns(), *target, state) == Some(i as nat)
                && i < self.conns().len() && self.conns()[i as int].target == *target
                && self.conns()[i as int].state == state,
            r is None ==> first_in_state(self.conns(), *target, state) is None,
    {
        let mut i: usize = 0;
        while i < self.connections.len()
            invariant
                i <= self.connections@.len(),
                forall|k: int|
                    0 <= k < i ==> !(self.connections@[k].target == *target
                        && self.connections@[k].state == state),
            decreases self.connections@.len() - i,
        {
            if self.connections[i].target == *target && self.connections[i].state == state {
                proof {
                    lemma_first_in_state(self.connections@, *target, state, i as int);
                }
                return Some(i);
            }
            i = i + 1;
        }
        proof {
            lemma_first_in_state(self.connections@, *target, state, i as int);
        }
        None
    }

    fn position_of(&self, id: &String) -> (r: Option<usize>)
        ensures
            r matches Some(i) ==> position_of_id(self.conns(), id@) == Some(i as nat)
                && i < self.conns().len() && self.conns()[i as int].id@ == id@,
            r is None ==> position_of_id(self.conns(), id@) is None,
    {
        let mut i: usize = 0;
        while i < self.connections.len()
            invariant
                i <= self.connections@.len(),
                forall|k: int| 0 <= k < i ==> self.connections@[k].id@ != id@,
            decreases self.connections@.len() - i,
        {
            if self.connections[i].id == *id {
                proof {
                    lemma_position_of_id(self.connections@, id@, i as int);
                }
                return Some(i);
            }
            i = i + 1;
        }
        proof {
            lemma_position_of_id(self.connections@, id@, i as int);
        }
        None
    }

    /// The pooled connection with id `conn_id`.
    pub fn find(&self, conn_id: &str) -> (r: Option<&PooledConnection>)
        ensures
            match position_of_id(self.conns(), conn_id@) {
                Some(i) => r == Some(&self.conns()[i as int]),
                None => r is None,
            },
    {
        let key = conn_id.to_owned();
        match self.position_of(&key) {
            Some(i) => Some(&self.connections[i]),
            None => None,
        }
    }

    /// The target of the pooled connection `conn_id`, to which the caller
    /// opens a stream; `InvalidState` when the pool holds no such connection.
    pub fn connection_target(&self, conn_id: &str) -> (r: Result<SocketAddress, PoolError>)
        ensures
            match position_of_id(self.conns(), conn_id@) {
                Some(i) => r == Ok::<SocketAddress, PoolError>(self.conns()[i as int].target),
                None => r == Err::<SocketAddress, PoolError>(PoolError::InvalidState),
            },
    {
        match self.find(conn_id) {
            Some(c) => Ok(c.target),
            None => Err(PoolError::InvalidState),
        }
    }

    /// The id of the first idle connection to `target`.
    pub fn find_idle_connection(&self, target: &SocketAddress) -> (r: Option<String>)
        ensures
            match first_in_state(self.conns(), *target, ConnectionState::Idle) {
                Some(i) => r == Some(self.conns()[i as int].id),
                None => r is None,
            },
    {
        proof {
            lemma_first_in_state_found(self.connections@, *target, ConnectionState::Idle);
        }
        match self.first_in_state_exec(target, ConnectionState::Idle) {
            Some(i) => Some(self.connections[i].id.clone()),
            None => None,
        }
    }

    /// Decides how a request for `target` at time `now` is served: by a
    /// pooled connection to `target` (an idle one first, else an active
    /// one), or by a new connection that the caller opens and registers. A
    /// full pool drops its expired connections first, and is reported full
    /// when that frees no room.
    pub fn get_connection(&mut self, target: SocketAddress, now: u64) -> (r: Result<ConnectionPlan, PoolError>)
        ensures
            ids_distinct(final(self).conns()),
            no_checking(final(self).conns()),
            final(self).conns().len() <= final(self).cfg().max_size,
            final(self).cfg() == old(self).cfg(),
            match reusable_connection(old(self).conns(), target) {
                Some(i) => r == Ok::<ConnectionPlan, PoolError>(ConnectionPlan::Reuse(old(self).conns()[i as int].id))
                    && final(self).conns() == old(self).conns(),
                None => if old(self).conns().len() < old(self).cfg().max_size {
                    r == Ok::<ConnectionPlan, PoolError>(ConnectionPlan::Connect)
                        && final(self).conns() == old(self).conns()
                } else {
                    &&& final(self).conns() == live_connections(old(self).conns(), now, old(self).cfg().max_idle_time)
                    &&& r == if final(self).conns().len() < old(self).cfg().max_size {
                        Ok::<ConnectionPlan, PoolError>(ConnectionPlan::Connect)
                    } else {
                        Err::<ConnectionPlan, PoolError>(PoolError::PoolFull)
                    }
                },
            },
    {
        proof {
            use_type_invariant(&*self);
            lemma_first_in_state_found(self.connections@, target, ConnectionState::Idle);
            lemma_first_in_state_found(self.connections@, target, ConnectionState::Active);
        }
        let found = match self.first_in_state_exec(&target, ConnectionState::Idle) {
            Some(i) => Some(i),
            None => self.first_in_state_exec(&target, ConnectionState::Active),
        };
        if let Some(i) = found {
            return Ok(ConnectionPlan::Reuse(self.connections[i].id.clone()));
        }
        if self.connections.len() < self.config.max_size {
            return Ok(ConnectionPlan::Connect);
        }
        let _ = self.cleanup_expired(now);
        if self.connections.len() < self.config.max_size {
            Ok(ConnectionPlan::Connect)
        } else {
            Err(PoolError::PoolFull)
        }
    }

    /// Whether the pool has room for one more connection.
    pub fn has_room(&self) -> (r: bool)
        ensures
            r == (self.conns().len() < self.cfg().max_size),
    {
        self.connections.len() < self.config.max_size
    }

    /// Adds a new active connection to `target`, opened at `now`, under a
    /// fresh random id, and returns that id. The pool must have room.
    pub fn register_connection(&mut self, target: SocketAddress, now: u64) -> (r: String)
        requires
            old(self).conns().len() < old(self).cfg().max_size,
        ensures
            final(self).conns().len() <= final(self).cfg().max_size,
            ids_distinct(final(self).conns()),
            no_checking(final(self).conns()),
            final(self).cfg() == old(self).cfg(),
            final(self).conns() == with_connection(old(self).conns(), fresh_connection(r, target, now)),
            is_uuid_v4_text(r@),
    {
        proof {
            use_type_invariant(&*self);
        }
        let conn = PooledConnection::new(target, now);
        let id = conn.id.clone();
        let ghost c = conn;
        proof {
            lemma_position_of_id_found(self.connections@, c.id@);
        }
        let found = self.position_of(&id);
        let mut conns: Vec<PooledConnection> = Vec::new();
        std::mem::swap(&mut conns, &mut self.connections);
        match found {
            Some(i) => {
                assert(ids_distinct(conns@.update(i as int, c)));
                conns.set(i, conn);
            },
            None => {
                assert(ids_distinct(conns@.push(c)));
                conns.push(conn);
            },
        }
        self.connections = conns;
        id
    }

    /// Drops the connections that have been unused for longer than the
    /// configured idle time, and the failed ones.
    pub fn cleanup_expired(&mut self, now: u64) -> (r: Result<(), PoolError>)
        ensures
            final(self).conns().len() <= final(self).cfg().max_size,
            ids_distinct(final(self).conns()),
            no_checking(final(self).conns()),
            r is Ok,
            final(self).cfg() == old(self).cfg(),
            final(self).conns() == live_connections(old(self).conns(), now, old(self).cfg().max_idle_time),
    {
        proof {
            use_type_invariant(&*self);
        }
        let max_idle = self.config.max_idle_time;
        let max_size = self.config.max_size;
        let mut old_conns: Vec<PooledConnection> = Vec::new();
        std::mem::swap(&mut old_conns, &mut self.connections);
        let ghost all = old_conns@;
        let mut kept: Vec<PooledConnection> = Vec::new();
        for c in it: old_conns.into_iter()
            invariant
                it.seq() == all,
                ids_distinct(all),
                kept@ == live_connections(all.take(it.index() as int), now, max_idle),
                forall|k: int|
                    0 <= k < kept@.len() ==> exists|j: int|
                        0 <= j < it.index() && #[trigger] kept@[k] == all[j],
                ids_distinct(kept@),
                kept@.len() <= it.index(),
                all.len() <= max_size,
                no_checking(all),
                no_checking(kept@),
        {
            let ghost i = it.index() as int;
            assert(all.take(i + 1).drop_last() =~= all.take(i));
            let idle_for: u64 = if now >= c.metrics.last_used {
                now - c.metrics.last_used
            } else {
                0
            };
            if !((idle_for as u128) > max_idle || c.state == ConnectionState::Failed) {
                proof {
                    assert forall|k: int| 0 <= k < kept@.len() implies kept@[k].id@ != c.id@ by {
                        let j = choose|j: int| 0 <= j < i && #[trigger] kept@[k] == all[j];
                        assert(all[j].id@ != all[i].id@);
                    }
                }
                kept.push(c);
            }
        }
        assert(all.take(all.len() as int) =~= all);
        self.connections = kept;
        Ok(())
    }

    /// The ids of the connections that a health-check round probes: the
    /// ones that are not active, in pool order.
    pub fn connections_to_check(&self) -> (r: Vec<String>)
        ensures
            r@.map_values(|s: String| s@) == ids_to_check(self.conns()),
    {
        let mut out: Vec<String> = Vec::new();
        let mut i: usize = 0;
        while i < self.connections.len()
            invariant
                i <= self.connections@.len(),
                out@.map_values(|s: String| s@) == ids_to_check(self.connections@.take(i as int)),
            decreases self.connections@.len() - i,
        {
            assert(self.connections@.take(i + 1).drop_last() =~= self.connections@.take(i as int));
            if self.connections[i].state != ConnectionState::Active {
                let id = self.connections[i].id.clone();
                out.push(id);
                assert(out@.map_values(|s: String| s@) =~= ids_to_check(self.connections@.take(i as int)).push(id@));
            }
            i = i + 1;
        }
        assert(self.connections@.take(self.connections@.len() as int) =~= self.connections@);
        out
    }

    /// Applies the outcome of a health probe to connection `conn_id`: it
    /// turns idle when the probe succeeded and failed otherwise. Returns
    /// whether it is healthy, or `None` when the pool holds no such connection.
    pub fn record_health_check(&mut self, conn_id: &str, probe: Result<usize, String>) -> (r: Option<bool>)
        requires
            probe is Err ==> (position_of_id(old(self).conns(), conn_id@) matches Some(i)
                ==> old(self).conns()[i as int].metrics.error_count < u32::MAX),
        ensures
            ids_distinct(final(self).conns()),
            no_checking(final(self).conns()),
            final(self).conns().len() <= final(self).cfg().max_size,
            final(self).cfg() == old(self).cfg(),
            match position_of_id(old(self).conns(), conn_id@) {
                Some(i) => r == Some(probe is Ok) && final(self).conns() == old(self).conns().update(
                    i as int,
                    after_probe(old(self).conns()[i as int], probe),
                ),
                None => r is None && final(self).conns() == old(self).conns(),
            },
    {
        proof {
            use_type_invariant(&*self);
            lemma_position_of_id_found(self.connections@, conn_id@);
        }
        let key = conn_id.to_owned();
        match self.position_of(&key) {
            None => None,
            Some(i) => {
                let mut conns: Vec<PooledConnection> = Vec::new();
                std::mem::swap(&mut conns, &mut self.connections);
                let ghost before = conns@;
                let healthy = conns[i].check_health(probe);
                assert(ids_distinct(conns@)) by {
                    assert forall|a: int, b: int|
                        0 <= a < conns@.len() && 0 <= b < conns@.len() && a != b implies
                        #[trigger] conns@[a].id@ != #[trigger] conns@[b].id@ by {
                        assert(conns@[a].id == before[a].id);
                        assert(conns@[b].id == before[b].id);
                    }
                }
                self.connections = conns;
                Some(healthy)
            },
        }
    }

    /// Records a round of health probes, each the outcome of probing the
    /// connection with the paired id, in order. A probe of a connection that
    /// the pool no longer holds, or a failed probe of a connection whose
    /// error count is at its limit, changes nothing.
    pub fn check_all_connections(&mut self, probes: Vec<(String, Result<usize, String>)>)
        ensures
            ids_distinct(final(self).conns()),
            no_checking(final(self).conns()),
            final(self).conns().len() <= final(self).cfg().max_size,
            final(self).cfg() == old(self).cfg(),
            final(self).conns() == after_round(old(self).conns(), probes@),
    {
        proof {
            use_type_invariant(&*self);
        }
        let ghost start = self.conns();
        let ghost cfg = self.cfg();
        let ghost all = probes@;
        for p in it: probes.into_iter()
            invariant
                it.seq() == all,
                self.conns() == after_round(start, all.take(it.index() as int)),
                self.cfg() == cfg,
                ids_distinct(self.conns()),
                no_checking(self.conns()),
                self.conns().len() <= self.cfg().max_size,
        {
            let ghost i = it.index() as int;
            assert(all.take(i + 1).drop_last() =~= all.take(i));
            assert(all.take(i + 1).last() == p);
            let (id, probe) = p;
            proof {
                lemma_position_of_id_found(self.conns(), id@);
            }
            let recordable = match self.find(id.as_str()) {
                Some(c) => probe.is_ok() || c.metrics.error_count < u32::MAX,
                None => false,
            };
            if recordable {
                let _ = self.record_health_check(id.as_str(), probe);
            }
        }
        assert(all.take(all.len() as int) =~= all);
    }

    /// Counts the pool's connections, in total and by state.
    pub fn get_metrics(&self) -> (r: PoolMetrics)
        ensures
            r.total_connections == self.conns().len(),
            r.active_connections == count_in_state(self.conns(), ConnectionState::Active),
            r.idle_connections == count_in_state(self.conns(), ConnectionState::Idle),
            r.failed_connections == count_in_state(self.conns(), ConnectionState::Failed),
            r.checking_connections == count_in_state(self.conns(), ConnectionState::Checking),
    {
        let mut m = PoolMetrics::default();
        let mut i: usize = 0;
        while i < self.connections.len()
            invariant
                i <= self.connections@.len(),
                m.total_connections == 0,
                m.active_connections == count_in_state(self.connections@.take(i as int), ConnectionState::Active),
                m.idle_connections == count_in_state(self.connections@.take(i as int), ConnectionState::Idle),
                m.failed_connections == count_in_state(self.connections@.take(i as int), ConnectionState::Failed),
                m.checking_connections == count_in_state(self.connections@.take(i as int), ConnectionState::Checking),
                m.active_connections + m.idle_connections + m.failed_connections + m.checking_connections == i,
            decreases self.connections@.len() - i,
        {
            assert(self.connections@.take(i + 1).drop_last() =~= self.connections@.take(i as int));
            match self.connections[i].state {
                ConnectionState::Active => m.active_connections = m.active_connections + 1,
                ConnectionState::Idle => m.idle_connections = m.idle_connections + 1,
                ConnectionState::Failed => m.failed_connections = m.failed_connections + 1,
                ConnectionState::Checking => m.checking_connections = m.checking_connections + 1,
            }
            i = i + 1;
        }
        assert(self.connections@.take(self.connections@.len() as int) =~= self.connections@);
        m.total_connections = self.connections.len();
        m
    }
}

/// A connection that the pool hands out for `target` is one to `target`
/// that is idle or active.
pub proof fn lemma_reused_connection_fits(s: Seq<PooledConnection>, target: SocketAddress)
    ensures
        reusable_connection(s, target) matches Some(i) ==> i < s.len() && s[i as int].target == target
            && (s[i as int].state == ConnectionState::Idle || s[i as int].state == ConnectionState::Active),
{
    lemma_first_in_state_found(s, target, ConnectionState::Idle);
    lemma_first_in_state_found(s, target, ConnectionState::Active);
}

/// A connection that was just registered is reused: the next request for
/// its target gets a pooled connection instead of a new one.
pub proof fn lemma_registered_connection_is_reused(s: Seq<PooledConnection>, c: PooledConnection)
    requires
        c.state == ConnectionState::Active,
    ensures
        reusable_connection(with_connection(s, c), c.target) is Some,
{
    let t = with_connection(s, c);
    lemma_position_of_id_found(s, c.id@);
    let p: int = match position_of_id(s, c.id@) {
        Some(i) => i as int,
        None => s.len() as int,
    };
    assert(0 <= p < t.len() && t[p] == c);
    if first_in_state(t, c.target, ConnectionState::Idle) is None {
        lemma_first_in_state_exists(t, c.target, ConnectionState::Active, p);
    }
}

proof fn lemma_first_in_state_exists(s: Seq<PooledConnection>, target: SocketAddress, state: ConnectionState, p: int)
    requires
        0 <= p < s.len(),
        s[p].target == target,
        s[p].state == state,
    ensures
        first_in_state(s, target, state) is Some,
    decreases p,
{
    if !(s[0].target == target && s[0].state == state) {
        lemma_first_in_state_exists(s.drop_first(), target, state, p - 1);
    }
}

/// Every connection is counted in exactly one state.
pub proof fn lemma_state_counts_sum(s: Seq<PooledConnection>)
    ensures
        count_in_state(s, ConnectionState::Active) + count_in_state(s, ConnectionState::Idle)
            + count_in_state(s, ConnectionState::Failed) + count_in_state(s, ConnectionState::Checking)
            == s.len(),
    decreases s.len(),
{
    if s.len() > 0 {
        lemma_state_counts_sum(s.drop_last());
    }
}

/// Cleanup keeps exactly the connections that have not expired: none of
/// the kept ones is failed or idle for too long, and every other one stays.
pub proof fn lemma_cleanup_keeps_exactly_live(s: Seq<PooledConnection>, now: u64, max_idle: u128)
    ensures
        forall|k: int|
            0 <= k < live_connections(s, now, max_idle).len() ==> !is_expired(
                #[trigger] live_connections(s, now, max_idle)[k],
                now,
                max_idle,
            ) && s.contains(live_connections(s, now, max_idle)[k]),
        forall|j: int|
            0 <= j < s.len() && !is_expired(#[trigger] s[j], now, max_idle) ==> live_connections(
                s,
                now,
                max_idle,
            ).contains(s[j]),
    decreases s.len(),
{
    if s.len() > 0 {
        let init = s.drop_last();
        lemma_cleanup_keeps_exactly_live(init, now, max_idle);
        let rest = live_connections(init, now, max_idle);
        let live = live_connections(s, now, max_idle);
        assert forall|k: int| 0 <= k < live.len() implies !is_expired(#[trigger] live[k], now, max_idle)
            && s.contains(live[k]) by {
            if k < rest.len() {
                assert(live[k] == rest[k]);
                let j = choose|j: int| 0 <= j < init.len() && init[j] == rest[k];
                assert(s[j] == init[j]);
            } else {
                assert(s[s.len() - 1] == s.last());
            }
        }
        assert forall|j: int| 0 <= j < s.len() && !is_expired(#[trigger] s[j], now, max_idle) implies live.contains(s[j]) by {
            if j < s.len() - 1 {
                assert(init[j] == s[j]);
                let k = choose|k: int| 0 <= k < rest.len() && rest[k] == init[j];
                assert(live[k] == rest[k]);
            } else {
                assert(live[live.len() - 1] == s.last());
            }
        }
    }
}

proof fn lemma_ids_to_check_listed(s: Seq<PooledConnection>)
    ensures
        forall|x: Seq<char>|
            #[trigger] ids_to_check(s).contains(x) ==> exists|j: int|
                0 <= j < s.len() && s[j].state != ConnectionState::Active && s[j].id@ == x,
    decreases s.len(),
{
    if s.len() > 0 {
        let init = s.drop_last();
        lemma_ids_to_check_listed(init);
        assert forall|x: Seq<char>| #[trigger] ids_to_check(s).contains(x) implies exists|j: int|
            0 <= j < s.len() && s[j].state != ConnectionState::Active && s[j].id@ == x by {
            let rest = ids_to_check(init);
            if rest.contains(x) {
                let j = choose|j: int|
                    0 <= j < init.len() && init[j].state != ConnectionState::Active && init[j].id@ == x;
                assert(s[j] == init[j]);
            } else {
                let q = choose|q: int| 0 <= q < ids_to_check(s).len() && ids_to_check(s)[q] == x;
                if s.last().state != ConnectionState::Active {
                    if q < rest.len() {
                        assert(rest[q] == x);
                        assert(rest.contains(x));
                    }
                    assert(s[s.len() - 1] == s.last());
                } else {
                    assert(rest[q] == x);
                    assert(rest.contains(x));
                }
            }
        }
    }
}

proof fn lemma_round_shape(s: Seq<PooledConnection>, probes: Seq<(String, Result<usize, String>)>)
    requires
        no_checking(s),
    ensures
        after_round(s, probes).len() == s.len(),
        no_checking(after_round(s, probes)),
        forall|k: int| 0 <= k < s.len() ==> #[trigger] after_round(s, probes)[k].id == s[k].id,
        forall|k: int|
            0 <= k < s.len() && s[k].state != ConnectionState::Active ==> (
            #[trigger] after_round(s, probes)[k].state == ConnectionState::Idle
                || after_round(s, probes)[k].state == ConnectionState::Failed),
        forall|k: int|
            0 <= k < s.len() && s[k].state == ConnectionState::Active && (forall|q: int|
                0 <= q < probes.len() ==> (#[trigger] probes[q]).0@ != s[k].id@) ==> #[trigger] after_round(
                s,
                probes,
            )[k] == s[k],
    decreases probes.len(),
{
    if probes.len() > 0 {
        let init = probes.drop_last();
        lemma_round_shape(s, init);
        let t0 = after_round(s, init);
        let id = probes.last().0@;
        let p = probes.last().1;
        let t = after_round(s, probes);
        lemma_position_of_id_found(t0, id);
        assert forall|k: int|
            0 <= k < s.len() && s[k].state == ConnectionState::Active && (forall|q: int|
                0 <= q < probes.len() ==> (#[trigger] probes[q]).0@ != s[k].id@) implies #[trigger] t[k]
            == s[k] by {
            assert forall|q: int| 0 <= q < init.len() implies (#[trigger] init[q]).0@ != s[k].id@ by {
                assert(init[q] == probes[q]);
            }
            assert(t0[k] == s[k]);
            assert(probes[probes.len() - 1] == probes.last());
            assert(t0[k].id@ != id);
        }
        assert forall|k: int| 0 <= k < t.len() implies #[trigger] t[k].state != ConnectionState::Checking by {
            assert(t0[k].state != ConnectionState::Checking);
        }
        assert forall|k: int| 0 <= k < s.len() implies #[trigger] t[k].id == s[k].id by {
            assert(t0[k].id == s[k].id);
        }
        assert forall|k: int| 0 <= k < s.len() && s[k].state != ConnectionState::Active implies (
            #[trigger] t[k].state == ConnectionState::Idle || t[k].state == ConnectionState::Failed) by {
            assert(t0[k].state == ConnectionState::Idle || t0[k].state == ConnectionState::Failed);
        }
    } else {
        assert forall|k: int| 0 <= k < s.len() && s[k].state != ConnectionState::Active implies (
            #[trigger] after_round(s, probes)[k].state == ConnectionState::Idle
                || after_round(s, probes)[k].state == ConnectionState::Failed) by {
            assert(s[k].state != ConnectionState::Checking);
        }
    }
}

/// A health-check round that probes exactly the connections listed by
/// `ids_to_check` leaves every listed connection idle or failed, every
/// active connection as it was, and no connection in the middle of a check.
pub proof fn lemma_health_round(s: Seq<PooledConnection>, probes: Seq<(String, Result<usize, String>)>)
    requires
        ids_distinct(s),
        no_checking(s),
        probes.map_values(|p: (String, Result<usize, String>)| p.0@) == ids_to_check(s),
    ensures
        after_round(s, probes).len() == s.len(),
        no_checking(after_round(s, probes)),
        forall|k: int|
            0 <= k < s.len() && s[k].state == ConnectionState::Active ==> #[trigger] after_round(
                s,
                probes,
            )[k] == s[k],
        forall|k: int|
            0 <= k < s.len() && s[k].state != ConnectionState::Active ==> (
            #[trigger] after_round(s, probes)[k].state == ConnectionState::Idle
                || after_round(s, probes)[k].state == ConnectionState::Failed),
{
    lemma_round_shape(s, probes);
    lemma_ids_to_check_listed(s);
    let listed = ids_to_check(s);
    assert forall|k: int| 0 <= k < s.len() && s[k].state == ConnectionState::Active implies #[trigger] after_round(
        s,
        probes,
    )[k] == s[k] by {
        assert forall|q: int| 0 <= q < probes.len() implies (#[trigger] probes[q]).0@ != s[k].id@ by {
            let f = |p: (String, Result<usize, String>)| p.0@;
            assert(probes.map_values(f)[q] == probes[q].0@);
            assert(listed[q] == probes[q].0@);
            assert(listed.contains(probes[q].0@));
            let j = choose|j: int|
                0 <= j < s.len() && s[j].state != ConnectionState::Active && s[j].id@ == probes[q].0@;
            assert(j != k);
        }
    }
}

/// Cleanup keeps a connection exactly when it has not failed and has been
/// unused for at most the idle limit (a clock reading earlier than its last
/// use counting as no time), whatever its other state: an idle connection
/// used recently stays, and every kept connection was in the pool.
pub proof fn lemma_cleanup_rule(s: Seq<PooledConnection>, now: u64, max_idle: u128)
    ensures
        forall|j: int|
            0 <= j < s.len() && s[j].state != ConnectionState::Failed && (now < s[j].metrics.last_used
                || now - s[j].metrics.last_used <= max_idle) ==> live_connections(s, now, max_idle).contains(
                #[trigger] s[j],
            ),
        forall|k: int|
            0 <= k < live_connections(s, now, max_idle).len() ==> {
                let c = #[trigger] live_connections(s, now, max_idle)[k];
                &&& c.state != ConnectionState::Failed
                &&& (now < c.metrics.last_used || now - c.metrics.last_used <= max_idle)
                &&& s.contains(c)
            },
{
    lemma_cleanup_keeps_exactly_live(s, now, max_idle);
}

/// Registering a connection adds it and keeps every connection held before
/// under another id; under an id the pool does not hold yet, the pool grows
/// by exactly one, and it never grows by more.
pub proof fn lemma_registration_adds(s: Seq<PooledConnection>, c: PooledConnection)
    ensures
        with_connection(s, c).contains(c),
        forall|k: int|
            0 <= k < s.len() && s[k].id@ != c.id@ ==> with_connection(s, c).contains(#[trigger] s[k]),
        (forall|k: int| 0 <= k < s.len() ==> s[k].id@ != c.id@) ==> with_connection(s, c).len()
            == s.len() + 1,
        with_connection(s, c).len() <= s.len() + 1,
{
    lemma_position_of_id_found(s, c.id@);
    let t = with_connection(s, c);
    match position_of_id(s, c.id@) {
        Some(i) => {
            assert(t[i as int] == c);
            assert forall|k: int| 0 <= k < s.len() && s[k].id@ != c.id@ implies t.contains(#[trigger] s[k]) by {
                assert(k != i);
                assert(t[k] == s[k]);
            }
        },
        None => {
            assert(t[s.len() as int] == c);
            assert forall|k: int| 0 <= k < s.len() && s[k].id@ != c.id@ implies t.contains(#[trigger] s[k]) by {
                assert(t[k] == s[k]);
            }
        },
    }
}

/// The connection reused for `target` goes to `target`; it is idle
/// whenever an idle connection to `target` exists, and some connection is
/// reused whenever one to `target` is idle or active.
pub proof fn lemma_reuse_prefers_idle(s: Seq<PooledConnection>, target: SocketAddress)
    ensures
        reusable_connection(s, target) matches Some(i) ==> 0 <= i < s.len() && s[i as int].target == target,
        (exists|k: int| 0 <= k < s.len() && s[k].target == target && s[k].state == ConnectionState::Idle)
            ==> (reusable_connection(s, target) matches Some(i) && s[i as int].state == ConnectionState::Idle),
        (exists|k: int|
            0 <= k < s.len() && s[k].target == target && (s[k].state == ConnectionState::Idle
                || s[k].state == ConnectionState::Active)) ==> reusable_connection(s, target) is Some,
        (forall|k: int|
            0 <= k < s.len() && s[k].target == target ==> s[k].state != ConnectionState::Idle
                && s[k].state != ConnectionState::Active) ==> reusable_connection(s, target) is None,
{
    lemma_first_in_state_found(s, target, ConnectionState::Idle);
    lemma_first_in_state_found(s, target, ConnectionState::Active);
    if exists|k: int| 0 <= k < s.len() && s[k].target == target && s[k].state == ConnectionState::Idle {
        let k = choose|k: int| 0 <= k < s.len() && s[k].target == target && s[k].state == ConnectionState::Idle;
        lemma_first_in_state_exists(s, target, ConnectionState::Idle, k);
    }
    if exists|k: int|
        0 <= k < s.len() && s[k].target == target && (s[k].state == ConnectionState::Idle || s[k].state
            == ConnectionState::Active) {
        let k = choose|k: int|
            0 <= k < s.len() && s[k].target == target && (s[k].state == ConnectionState::Idle
                || s[k].state == ConnectionState::Active);
        lemma_first_in_state_exists(s, target, s[k].state, k);
    }
}

/// A lookup by id finds the connection with that id, and finds none only
/// when no connection has it.
pub proof fn lemma_lookup_by_id(s: Seq<PooledConnection>, id: Seq<char>)
    ensures
        position_of_id(s, id) matches Some(i) ==> 0 <= i < s.len() && s[i as int].id@ == id,
        position_of_id(s, id) is None <==> forall|k: int| 0 <= k < s.len() ==> s[k].id@ != id,
{
    lemma_position_of_id_found(s, id);
}

/// A health-check round probes exactly the connections that are not
/// active: every such connection's id is listed, and every listed id is
/// that of such a connection.
pub proof fn lemma_ids_to_check_exact(s: Seq<PooledConnection>)
    ensures
        forall|k: int|
            0 <= k < s.len() && s[k].state != ConnectionState::Active ==> ids_to_check(s).contains(
                #[trigger] s[k].id@,
            ),
        forall|x: Seq<char>|
            #[trigger] ids_to_check(s).contains(x) ==> exists|j: int|
                0 <= j < s.len() && s[j].state != ConnectionState::Active && s[j].id@ == x,
    decreases s.len(),
{
    lemma_ids_to_check_listed(s);
    if s.len() > 0 {
        let init = s.drop_last();
        lemma_ids_to_check_exact(init);
        let rest = ids_to_check(init);
        assert forall|k: int| 0 <= k < s.len() && s[k].state != ConnectionState::Active implies ids_to_check(
            s,
        ).contains(#[trigger] s[k].id@) by {
            if k < s.len() - 1 {
                assert(init[k] == s[k]);
                let q = choose|q: int| 0 <= q < rest.len() && rest[q] == init[k].id@;
                if s.last().state != ConnectionState::Active {
                    assert(ids_to_check(s)[q] == rest[q]);
                } else {
                    assert(ids_to_check(s)[q] == rest[q]);
                }
            } else {
                assert(s[k] == s.last());
                assert(ids_to_check(s)[rest.len() as int] == s.last().id@);
            }
        }
    }
}

/// The count of a state is the number of connections in that state.
pub proof fn lemma_count_is_number_in_state(s: Seq<PooledConnection>, state: ConnectionState)
    ensures
        count_in_state(s, state) == s.filter(|c: PooledConnection| c.state == state).len(),
    decreases s.len(),
{
    reveal(Seq::filter);
    if s.len() > 0 {
        lemma_count_is_number_in_state(s.drop_last(), state);
    }
}

/// A successful probe leaves a connection idle and otherwise as it was; a
/// failed one leaves it failed with one more error, recorded as the last,
/// and otherwise as it was.
pub proof fn lemma_probe_outcome(c: PooledConnection, probe: Result<usize, String>)
    requires
        probe is Err ==> c.metrics.error_count < u32::MAX,
    ensures
        after_probe(c, probe).id == c.id,
        after_probe(c, probe).target == c.target,
        after_probe(c, probe).metrics.created_at == c.metrics.created_at,
        after_probe(c, probe).metrics.last_used == c.metrics.last_used,
        after_probe(c, probe).metrics.total_requests == c.metrics.total_requests,
        after_probe(c, probe).metrics.avg_response_time == c.metrics.avg_response_time,
        probe is Ok ==> after_probe(c, probe).state == ConnectionState::Idle
            && after_probe(c, probe).metrics == c.metrics,
        probe matches Err(e) ==> after_probe(c, probe).state == ConnectionState::Failed
            && after_probe(c, probe).metrics.error_count == c.metrics.error_count + 1
            && after_probe(c, probe).metrics.last_error == Some(e),
{
}

} // verus!
