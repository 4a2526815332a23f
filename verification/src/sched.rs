//! Integer-only request admission, firewall, and priority scheduler:
//! additions, comparisons, shifts and min/max only. The per-IP state
//! lives in a hashbrown table; a handful of global counters sit beside it.
use vstd::prelude::*;
use vstd::arithmetic::power2::{pow2, lemma2_to64, lemma_pow2_unfold};
use std::sync::Arc;

verus! {

/// Fixed-point shift of the demand estimate (units of 1/8).
pub const EMA_SHIFT: u32 = 3;
/// Default per-IP demand limit before the firewall throttles.
pub const DEFAULT_D_LIMIT: i32 = 64;
/// Weight defaults (powers of two: the score is shifts and adds).
pub const W_DIV: i32 = 64;
pub const W_DEM: i32 = 8;
pub const W_EXC: i32 = 32;
pub const W_WAIT: i32 = 1;
pub const W_Q: i32 = 4;
pub const W_C: i32 = 4;

/// Per-IP integer state.
#[derive(Clone, Copy, Debug)]
pub struct IpState {
    /// Demand estimate, fixed point ×8: `d += n - (d >> 3)`.
    pub demand: u32,
    /// Requests queued or running for this IP.
    pub queued: u32,
    /// Live connections from this IP.
    pub conns: u32,
    /// Whitelisted: bypasses the firewall.
    pub exception: bool,
    /// Wait ticks of the oldest queued item.
    pub wait_ticks: u32,
    /// Requests in the current window (rolling decay).
    pub recent: u32,
    /// Incomplete handshakes.
    pub syns: u32,
    /// Malformed requests / protocol errors.
    pub errs: u32,
    /// Armed once a firewall feature crosses its low-water mark.
    pub hot: bool,
}

pub open spec fn zero_ip() -> IpState {
    IpState {
        demand: 0,
        queued: 0,
        conns: 0,
        exception: false,
        wait_ticks: 0,
        recent: 0,
        syns: 0,
        errs: 0,
        hot: false,
    }
}

impl Default for IpState {
    fn default() -> (r: IpState)
        ensures
            r == zero_ip(),
    {
        IpState {
            demand: 0,
            queued: 0,
            conns: 0,
            exception: false,
            wait_ticks: 0,
            recent: 0,
            syns: 0,
            errs: 0,
            hot: false,
        }
    }
}

/// One step of the demand average: `d + n - (d >> 3)`, wrapping.
pub open spec fn ema_step(d: u32, n: u32) -> u32 {
    d.wrapping_add(n).wrapping_sub(d >> EMA_SHIFT)
}

impl IpState {
    /// The integer average `D += n - (D >> 3)`, in fixed point with
    /// three fractional bits.
    pub fn demand_update(&mut self, n: u32)
        ensures
            *final(self) == (IpState { demand: ema_step(old(self).demand, n), ..*old(self) }),
    {
        self.demand = self.demand.wrapping_add(n).wrapping_sub(self.demand >> EMA_SHIFT);
    }
}

/// Optional adaptive firewall over a quantized feature vector.
pub trait BnnFirewall {
    fn predict(&self, features: &[i16; 8]) -> bool;
}

/// The average step is `d + n - d/8`, wrapped once past `u32::MAX`.
proof fn lemma_ema_value(d: u32, n: u32)
    ensures
        d + n - d / 8 >= 0,
        d + n - d / 8 <= u32::MAX ==> ema_step(d, n) == d + n - d / 8,
        d + n - d / 8 > u32::MAX ==> ema_step(d, n) == d + n - d / 8 - 0x1_0000_0000,
{
    assert(d >> 3u32 == d / 8) by (bit_vector);
}

/// Law: the band `[8n, 8n+7]` of the demand average is invariant and
/// attracting. A demand at most `8n + 7` stays so; without wraparound,
/// one at least `8n` stays so, one above the band falls (without leaving
/// the band's floor), and one below it rises (without passing its ceiling).
pub proof fn law_ema_band(d: u32, n: u32)
    ensures
        d <= 8 * n + 7 ==> ema_step(d, n) <= 8 * n + 7,
        d + n <= u32::MAX && d >= 8 * n ==> ema_step(d, n) >= 8 * n,
        d + n <= u32::MAX && d > 8 * n + 7 ==> 8 * n <= ema_step(d, n) < d,
        d + n <= u32::MAX && d < 8 * n ==> d < ema_step(d, n) <= 8 * n + 7,
{
    lemma_ema_value(d, n);
    let q = d / 8;
    assert(d == 8 * q + d % 8);
    if d <= 8 * n + 7 {
        assert(q <= n);
    }
    if d < 8 * n {
        assert(q < n);
    }
    if d >= 8 * n {
        assert(q >= n);
    }
}

/// `k` demand updates of `n` each, one after another.
pub open spec fn ema_iter(d: u32, n: u32, k: nat) -> u32
    decreases k,
{
    if k == 0 {
        d
    } else {
        ema_iter(ema_step(d, n), n, (k - 1) as nat)
    }
}

/// How far a demand lies above the band `[8, 15]` of a rate of one.
spec fn excess(d: u32) -> int {
    if d > 15 {
        d - 15
    } else {
        0
    }
}

proof fn lemma_ema_iter_split(d: u32, n: u32, a: nat, b: nat)
    ensures
        ema_iter(d, n, a + b) == ema_iter(ema_iter(d, n, a), n, b),
    decreases a,
{
    if a > 0 {
        lemma_ema_iter_split(ema_step(d, n), n, (a - 1) as nat, b);
        assert((a + b - 1) as nat == (a - 1) as nat + b);
    }
}

/// One update by one request from a demand of at least 8: the demand
/// stays at least 8, does not grow, and its excess over 15 shrinks to at
/// most seven eighths.
proof fn lemma_ema_one(d: u32)
    requires
        d >= 8,
    ensures
        8 <= ema_step(d, 1) <= d,
        8 * excess(ema_step(d, 1)) <= 7 * excess(d),
{
    lemma_ema_value(d, 1);
    let q = d / 8;
    assert(d == 8 * q + d % 8);
    assert(q >= 1);
}

/// Six updates by one request each at least halve the excess over 15.
proof fn lemma_ema_six(d: u32)
    requires
        d >= 8,
    ensures
        8 <= ema_iter(d, 1, 6) <= d,
        2 * excess(ema_iter(d, 1, 6)) <= excess(d),
{
    let d1 = ema_step(d, 1);
    let d2 = ema_step(d1, 1);
    let d3 = ema_step(d2, 1);
    let d4 = ema_step(d3, 1);
    let d5 = ema_step(d4, 1);
    let d6 = ema_step(d5, 1);
    lemma_ema_one(d);
    lemma_ema_one(d1);
    lemma_ema_one(d2);
    lemma_ema_one(d3);
    lemma_ema_one(d4);
    lemma_ema_one(d5);
    assert(64 * excess(d2) <= 49 * excess(d));
    assert(512 * excess(d3) <= 343 * excess(d));
    assert(4096 * excess(d4) <= 2401 * excess(d));
    assert(32768 * excess(d5) <= 16807 * excess(d));
    assert(262144 * excess(d6) <= 117649 * excess(d));
    reveal_with_fuel(ema_iter, 7);
    assert(ema_iter(d, 1, 6) == d6);
}

/// From a demand of at least 8 whose excess is below `2^j`, `6 j`
/// updates by one request each end in the band `[8, 15]`.
proof fn lemma_ema_halvings(d: u32, j: nat)
    requires
        d >= 8,
        excess(d) < pow2(j),
    ensures
        8 <= ema_iter(d, 1, 6 * j) <= 15,
    decreases j,
{
    if j == 0 {
        lemma2_to64();
    } else {
        lemma_pow2_unfold(j);
        lemma_ema_six(d);
        let d6 = ema_iter(d, 1, 6);
        let rest = (6 * (j - 1)) as nat;
        lemma_ema_halvings(d6, (j - 1) as nat);
        lemma_ema_iter_split(d, 1, 6, rest);
        assert(6 + rest == 6 * j);
    }
}

/// The band `[8, 15]` holds under any number of updates by one request.
proof fn lemma_ema_band_stays(d: u32, k: nat)
    requires
        8 <= d <= 15,
    ensures
        8 <= ema_iter(d, 1, k) <= 15,
    decreases k,
{
    if k > 0 {
        law_ema_band(d, 1);
        lemma_ema_band_stays(ema_step(d, 1), (k - 1) as nat);
    }
}

/// Below 8 each update by one request climbs, so `8 - d` of them reach
/// the band.
proof fn lemma_ema_climbs(d: u32, k: nat)
    requires
        d < 8,
        k + d >= 8,
    ensures
        8 <= ema_iter(d, 1, k) <= 15,
    decreases k,
{
    law_ema_band(d, 1);
    let d1 = ema_step(d, 1);
    if d1 >= 8 {
        lemma_ema_band_stays(d1, (k - 1) as nat);
    } else {
        lemma_ema_climbs(d1, (k - 1) as nat);
    }
}

/// Law: from any demand, 256 updates by one request each bring the
/// average into the band `[8, 15]` of a rate of one.
pub proof fn law_ema_settles(d: u32)
    ensures
        8 <= ema_iter(d, 1, 256) <= 15,
{
    if d < 8 {
        lemma_ema_climbs(d, 256);
    } else {
        lemma2_to64();
        lemma_ema_halvings(d, 32);
        lemma_ema_iter_split(d, 1, 192, 64);
        lemma_ema_band_stays(ema_iter(d, 1, 192), 64);
    }
}

/// Which scheduling theory the weights express.
#[derive(Clone, Copy, Debug, PartialEq, Eq, Structural)]
pub enum RuleMode {
    /// First come, first served: only wait time counts.
    Anarchy,
    /// Strong IP-diversity bonus, low demand preferred.
    MaxAvail,
    /// Weighted fair queuing: priority against demand.
    Fair,
    /// User-supplied weights.
    Custom,
}

impl Default for RuleMode {
    fn default() -> (r: RuleMode)
        ensures
            r == RuleMode::Fair,
    {
        RuleMode::Fair
    }
}

/// Integer weights of the admission and priority scores.
#[derive(Clone, Copy, Debug, PartialEq, Eq, Structural)]
pub struct Weights {
    pub div: i32,
    pub dem: i32,
    pub exc: i32,
    pub wait: i32,
    pub qpen: i32,
    pub cpen: i32,
}

pub open spec fn default_weights() -> Weights {
    Weights { div: W_DIV, dem: W_DEM, exc: W_EXC, wait: W_WAIT, qpen: W_Q, cpen: W_C }
}

impl Default for Weights {
    fn default() -> (r: Weights)
        ensures
            r == default_weights(),
    {
        Weights { div: W_DIV, dem: W_DEM, exc: W_EXC, wait: W_WAIT, qpen: W_Q, cpen: W_C }
    }
}

/// The weights of each rule mode.
pub open spec fn weights_for(mode: RuleMode, custom: Weights) -> Weights {
    match mode {
        RuleMode::Anarchy => Weights { div: 0, dem: 0, exc: 0, wait: 1, qpen: 0, cpen: 0 },
        RuleMode::MaxAvail => Weights { div: 1024, dem: 8, exc: 32, wait: 1, qpen: 4, cpen: 4 },
        RuleMode::Fair => default_weights(),
        RuleMode::Custom => custom,
    }
}

impl Weights {
    pub fn for_mode(mode: RuleMode, custom: Weights) -> (r: Weights)
        ensures
            r == weights_for(mode, custom),
    {
        match mode {
            RuleMode::Anarchy => Weights { div: 0, dem: 0, exc: 0, wait: 1, qpen: 0, cpen: 0 },
            RuleMode::MaxAvail => Weights { div: 1024, dem: 8, exc: 32, wait: 1, qpen: 4, cpen: 4 },
            RuleMode::Fair => Weights::default(),
            RuleMode::Custom => custom,
        }
    }
}

/// Global integer limits.
#[derive(Clone, Copy, Debug, PartialEq, Eq, Structural)]
pub struct Limits {
    /// Max total live connections.
    pub c_max: u32,
    /// Max live connections per IP.
    pub c_per_ip: u32,
    /// Max requests in flight.
    pub q_max: u32,
    /// Max in-flight requests per IP.
    pub q_per_ip: u32,
    /// Max backlogged items.
    pub b_max: u32,
    /// Max request header bytes.
    pub h_max: u32,
    /// Max request body bytes.
    pub s_max: u64,
    /// Max concurrent H2/H3 streams.
    pub str_max: u32,
    /// Firewall demand threshold.
    pub d_limit: i32,
}

pub open spec fn default_limits() -> Limits {
    Limits {
        c_max: 4096,
        c_per_ip: 1024,
        q_max: 16_384,
        q_per_ip: 4096,
        b_max: 8192,
        h_max: 65_536,
        s_max: 10485760u64,
        str_max: 4096,
        d_limit: DEFAULT_D_LIMIT,
    }
}

impl Default for Limits {
    fn default() -> (r: Limits)
        ensures
            r == default_limits(),
    {
        Limits {
            c_max: 4096,
            c_per_ip: 1024,
            q_max: 16_384,
            q_per_ip: 4096,
            b_max: 8192,
            h_max: 65_536,
            s_max: 10485760,
            str_max: 4096,
            d_limit: DEFAULT_D_LIMIT,
        }
    }
}

/// One shard's limits: the global queue, connection and backlog
/// ceilings divided across `n` shards (at least 1 each).
pub open spec fn shard_limits_spec(n: usize, limits: Limits) -> Limits {
    let k = (if n == 0 { 1 } else { n }) as u32;
    Limits {
        q_max: if limits.q_max / k == 0 { 1 } else { limits.q_max / k },
        c_max: if limits.c_max / k == 0 { 1 } else { limits.c_max / k },
        b_max: if limits.b_max / k == 0 { 1 } else { limits.b_max / k },
        ..limits
    }
}

pub fn shard_limits(n: usize, limits: Limits) -> (r: Limits)
    requires
        (if n == 0 { 1 } else { n }) as u32 != 0,
    ensures
        r == shard_limits_spec(n, limits),
{
    let k = (if n == 0 { 1 } else { n }) as u32;
    let q = limits.q_max / k;
    let c = limits.c_max / k;
    let b = limits.b_max / k;
    Limits {
        q_max: if q == 0 { 1 } else { q },
        c_max: if c == 0 { 1 } else { c },
        b_max: if b == 0 { 1 } else { b },
        ..limits
    }
}

/// FNV-1a over the address octets: the key of an IP in the table.
pub open spec fn fnv_from(octets: Seq<u8>, i: int, h: u32) -> u32
    decreases octets.len() - i,
{
    if i < 0 || i >= octets.len() {
        h
    } else {
        fnv_from(octets, i + 1, (h ^ (octets[i] as u32)).wrapping_mul(0x0100_0193))
    }
}

pub open spec fn ip_key_spec(octets: Seq<u8>) -> u32 {
    fnv_from(octets, 0, 0x811c_9dc5)
}

pub fn ip_key_octets(octets: &[u8]) -> (r: u32)
    ensures
        r == ip_key_spec(octets@),
{
    let mut h: u32 = 0x811c_9dc5;
    let mut i: usize = 0;
    while i < octets.len()
        invariant
            i <= octets.len(),
            ip_key_spec(octets@) == fnv_from(octets@, i as int, h),
        decreases octets.len() - i,
    {
        h = h ^ (octets[i] as u32);
        h = h.wrapping_mul(0x0100_0193);
        i = i + 1;
    }
    h
}

/// The per-IP table: a hashbrown map from IP key to state, held opaque
/// and reached only through the wrappers below (hashbrown's map names an
/// `Allocator` bound that is private to that crate, so the map type
/// itself cannot be declared here).
#[verifier::external_body]
pub struct IpTable {
    map: hashbrown::HashMap<u32, IpState>,
}

/// What the per-IP table holds.
pub uninterp spec fn table_map(t: IpTable) -> Map<u32, IpState>;

/// `hashbrown::HashMap::with_capacity`: claims the new table is empty.
#[verifier::external_body]
fn table_with_capacity(cap: usize) -> (r: IpTable)
    ensures
        table_map(r).dom() == Set::<u32>::empty(),
{
    IpTable { map: hashbrown::HashMap::with_capacity(cap) }
}

/// `hashbrown::HashMap::get`, copied: claims the state under the key when
/// the table holds the key, and `None` when it does not.
#[verifier::external_body]
fn table_get(t: &IpTable, key: u32) -> (r: Option<IpState>)
    ensures
        match r {
            Some(s) => table_map(*t).contains_key(key) && s == table_map(*t)[key],
            None => !table_map(*t).contains_key(key),
        },
{
    t.map.get(&key).copied()
}

/// `hashbrown::HashMap::insert`: claims the key now maps to the state and
/// every other entry is as it was.
#[verifier::external_body]
fn table_insert(t: &mut IpTable, key: u32, st: IpState)
    ensures
        table_map(*final(t)) == table_map(*old(t)).insert(key, st),
{
    t.map.insert(key, st);
}

/// `hashbrown::HashMap::keys`, collected: claims each key of the table
/// once and nothing else; the order (the table's own) is left unsaid.
#[verifier::external_body]
fn table_keys(t: &IpTable) -> (r: Vec<u32>)
    ensures
        r@.no_duplicates(),
        forall|k: u32| r@.contains(k) <==> table_map(*t).contains_key(k),
{
    t.map.keys().copied().collect()
}

/// Outcome of an admission.
#[derive(Clone, Copy, Debug, PartialEq, Eq, Structural)]
pub enum Admission {
    /// Accepted; a guard decrements on completion.
    Accepted,
    /// Over a per-IP or global bound; parked in the backlog.
    Backlogged,
    /// Firewall or capacity rejected.
    Rejected,
}

/// The scheduler: mode, weights, limits, the per-IP table and the global counters.
pub struct Sched {
    pub rule: RuleMode,
    pub custom: Weights,
    pub limits: Limits,
    pub bnn: Option<Arc<dyn BnnFirewall>>,
    pub ips: IpTable,
    /// Requests in flight.
    pub q_total: u32,
    /// Live connections.
    pub c_total: u32,
    /// Backlog length.
    pub backlog: u32,
    /// Tick counter.
    pub tick: u32,
}

/// The scheduler's mutable state: the per-IP table and the counters.
pub struct SchedState {
    pub table: Map<u32, IpState>,
    pub q_total: u32,
    pub c_total: u32,
    pub backlog: u32,
}

impl View for Sched {
    type V = SchedState;

    closed spec fn view(&self) -> SchedState {
        SchedState { table: table_map(self.ips), q_total: self.q_total, c_total: self.c_total, backlog: self.backlog }
    }
}

/// The state of an IP: its entry, or the zero state when it has none.
pub open spec fn ip_state(t: Map<u32, IpState>, key: u32) -> IpState {
    if t.contains_key(key) {
        t[key]
    } else {
        zero_ip()
    }
}

/// The firewall's demand threshold, fixed point (`d_limit << 3`).
pub open spec fn demand_threshold(d_limit: i32) -> i32 {
    d_limit.wrapping_mul(8)
}

/// An IP touched by a request: demand updated with 1, the rolling
/// window decayed by 1/16 and bumped, the wait aged; armed once any
/// feature reaches its low-water mark.
pub open spec fn touched(st: IpState, d_limit: i32) -> IpState {
    let d = ema_step(st.demand, 1);
    let r = st.recent.wrapping_sub(st.recent >> 4u32).saturating_add(1);
    let w = st.wait_ticks.saturating_add(1);
    let arm = (d as i32) >= demand_threshold(d_limit) || r >= 1024 || st.syns >= 256 || st.errs >= 64;
    IpState { demand: d, recent: r, wait_ticks: w, hot: st.hot || arm, ..st }
}

/// The armed firewall refuses an IP that is not an exception and has a
/// feature over its threshold.
pub open spec fn firewall_blocks(st: IpState, d_limit: i32) -> bool {
    st.hot && !st.exception && ((st.demand as i32) > demand_threshold(d_limit) || st.recent > 1024 || st.syns > 256
        || st.errs > 64)
}

/// Park in the backlog while there is room, else refuse.
pub open spec fn backlog_or_reject(s: SchedState, lim: Limits, t: Map<u32, IpState>) -> (SchedState, Admission) {
    if s.backlog < lim.b_max {
        (SchedState { table: t, backlog: (s.backlog + 1) as u32, ..s }, Admission::Backlogged)
    } else {
        (SchedState { table: t, ..s }, Admission::Rejected)
    }
}

/// Admission: the global queue bound first (the table untouched), then
/// the IP is touched, then its queue bound, then the firewall; an
/// accepted request counts in its IP's queue and the global one.
pub open spec fn admit_next(s: SchedState, lim: Limits, key: u32) -> (SchedState, Admission) {
    if s.q_total >= lim.q_max {
        backlog_or_reject(s, lim, s.table)
    } else {
        let st = touched(ip_state(s.table, key), lim.d_limit);
        let t = s.table.insert(key, st);
        if st.queued >= lim.q_per_ip {
            backlog_or_reject(s, lim, t)
        } else if firewall_blocks(st, lim.d_limit) {
            (SchedState { table: t, ..s }, Admission::Rejected)
        } else {
            (
                SchedState {
                    table: s.table.insert(key, IpState { queued: (st.queued + 1) as u32, ..st }),
                    q_total: (s.q_total + 1) as u32,
                    ..s
                },
                Admission::Accepted,
            )
        }
    }
}

/// A connection is admitted under the per-IP and global ceilings; the IP
/// gets an entry either way.
pub open spec fn conn_next(s: SchedState, lim: Limits, key: u32) -> (SchedState, bool) {
    let st = ip_state(s.table, key);
    if st.conns >= lim.c_per_ip || s.c_total >= lim.c_max {
        (SchedState { table: s.table.insert(key, st), ..s }, false)
    } else {
        (
            SchedState {
                table: s.table.insert(key, IpState { conns: (st.conns + 1) as u32, ..st }),
                c_total: (s.c_total + 1) as u32,
                ..s
            },
            true,
        )
    }
}

pub open spec fn release_conn_next(s: SchedState, key: u32) -> SchedState {
    let t = if s.table.contains_key(key) {
        s.table.insert(key, IpState { conns: s.table[key].conns.saturating_sub(1), ..s.table[key] })
    } else {
        s.table
    };
    SchedState { table: t, c_total: s.c_total.saturating_sub(1), ..s }
}

pub open spec fn release_request_next(s: SchedState, key: u32) -> SchedState {
    let t = if s.table.contains_key(key) {
        s.table.insert(key, IpState { queued: s.table[key].queued.saturating_sub(1), ..s.table[key] })
    } else {
        s.table
    };
    SchedState { table: t, q_total: s.q_total.saturating_sub(1), ..s }
}

/// Periodic decay: demand by 7/8, the rolling window by 15/16.
pub open spec fn decayed(st: IpState) -> IpState {
    IpState { demand: st.demand.wrapping_mul(7) >> 3u32, recent: st.recent.wrapping_mul(15) >> 4u32, ..st }
}

impl Sched {
    pub fn new(rule: RuleMode, custom: Weights, limits: Limits) -> (r: Sched)
        ensures
            r.rule == rule,
            r.custom == custom,
            r.limits == limits,
            r.bnn is None,
            r.tick == 0,
            r@.table.dom() == Set::<u32>::empty(),
            r@.q_total == 0,
            r@.c_total == 0,
            r@.backlog == 0,
    {
        Sched {
            rule,
            custom,
            limits,
            bnn: None,
            ips: table_with_capacity(64),
            q_total: 0,
            c_total: 0,
            backlog: 0,
            tick: 0,
        }
    }

    /// Admit a request from the IP with this key.
    pub fn admit_request(&mut self, key: u32) -> (r: Admission)
        ensures
            (final(self)@, r) == admit_next(old(self)@, old(self).limits, key),
            final(self).rule == old(self).rule,
            final(self).custom == old(self).custom,
            final(self).limits == old(self).limits,
            final(self).bnn == old(self).bnn,
            final(self).tick == old(self).tick,
    {
        if self.q_total >= self.limits.q_max {
            if self.backlog < self.limits.b_max {
                self.backlog = self.backlog + 1;
                return Admission::Backlogged;
            }
            return Admission::Rejected;
        }
        let mut ip = match table_get(&self.ips, key) {
            Some(st) => st,
            None => IpState::default(),
        };
        ip.demand_update(1);
        ip.recent = ip.recent.wrapping_sub(ip.recent >> 4);
        ip.recent = ip.recent.saturating_add(1);
        ip.wait_ticks = ip.wait_ticks.saturating_add(1);
        let threshold = self.limits.d_limit.wrapping_mul(8);
        if ip.demand as i32 >= threshold || ip.recent >= 1024 || ip.syns >= 256 || ip.errs >= 64 {
            ip.hot = true;
        }
        if ip.queued >= self.limits.q_per_ip {
            table_insert(&mut self.ips, key, ip);
            if self.backlog < self.limits.b_max {
                self.backlog = self.backlog + 1;
                return Admission::Backlogged;
            }
            return Admission::Rejected;
        }
        if ip.hot && !ip.exception && (ip.demand as i32 > threshold || ip.recent > 1024 || ip.syns > 256
            || ip.errs > 64) {
            table_insert(&mut self.ips, key, ip);
            return Admission::Rejected;
        }
        ip.queued = ip.queued + 1;
        table_insert(&mut self.ips, key, ip);
        self.q_total = self.q_total + 1;
        Admission::Accepted
    }

    /// Admit a connection from the IP with this key.
    pub fn admit_conn(&mut self, key: u32) -> (r: bool)
        ensures
            (final(self)@, r) == conn_next(old(self)@, old(self).limits, key),
            final(self).rule == old(self).rule,
            final(self).custom == old(self).custom,
            final(self).limits == old(self).limits,
            final(self).bnn == old(self).bnn,
            final(self).tick == old(self).tick,
    {
        let mut ip = match table_get(&self.ips, key) {
            Some(st) => st,
            None => IpState::default(),
        };
        if ip.conns >= self.limits.c_per_ip || self.c_total >= self.limits.c_max {
            table_insert(&mut self.ips, key, ip);
            return false;
        }
        ip.conns = ip.conns + 1;
        table_insert(&mut self.ips, key, ip);
        self.c_total = self.c_total + 1;
        true
    }

    /// Connection teardown.
    pub fn release_conn(&mut self, key: u32)
        ensures
            final(self)@ == release_conn_next(old(self)@, key),
            final(self).rule == old(self).rule,
            final(self).custom == old(self).custom,
            final(self).limits == old(self).limits,
            final(self).bnn == old(self).bnn,
            final(self).tick == old(self).tick,
    {
        match table_get(&self.ips, key) {
            Some(st) => {
                let mut ip = st;
                ip.conns = ip.conns.saturating_sub(1);
                table_insert(&mut self.ips, key, ip);
            },
            None => {},
        }
        self.c_total = self.c_total.saturating_sub(1);
    }

    /// Request completion: the IP's and the global queues shrink by one.
    pub fn release_request(&mut self, key: u32)
        ensures
            final(self)@ == release_request_next(old(self)@, key),
            final(self).rule == old(self).rule,
            final(self).custom == old(self).custom,
            final(self).limits == old(self).limits,
            final(self).bnn == old(self).bnn,
            final(self).tick == old(self).tick,
    {
        match table_get(&self.ips, key) {
            Some(st) => {
                let mut ip = st;
                ip.queued = ip.queued.saturating_sub(1);
                table_insert(&mut self.ips, key, ip);
            },
            None => {},
        }
        self.q_total = self.q_total.saturating_sub(1);
    }

    /// Periodic decay of every IP.
    pub fn tick_decay(&mut self)
        ensures
            final(self)@ == decay_next(old(self)@),
            final(self)@.table.dom() == old(self)@.table.dom(),
            forall|k: u32| #[trigger] old(self)@.table.contains_key(k) ==> final(self)@.table[k] == decayed(old(self)@.table[k]),
            final(self)@.q_total == old(self)@.q_total,
            final(self)@.c_total == old(self)@.c_total,
            final(self)@.backlog == old(self)@.backlog,
            final(self).rule == old(self).rule,
            final(self).custom == old(self).custom,
            final(self).limits == old(self).limits,
            final(self).bnn == old(self).bnn,
            final(self).tick == old(self).tick,
    {
        let keys = table_keys(&self.ips);
        let ghost orig = table_map(self.ips);
        let mut i: usize = 0;
        while i < keys.len()
            invariant
                i <= keys.len(),
                keys@.no_duplicates(),
                forall|k: u32| keys@.contains(k) <==> orig.contains_key(k),
                table_map(self.ips).dom() == orig.dom(),
                forall|k: u32| #[trigger] orig.contains_key(k) ==> table_map(self.ips)[k] == if keys@.take(i as int).contains(k) {
                    decayed(orig[k])
                } else {
                    orig[k]
                },
                self.q_total == old(self).q_total,
                self.c_total == old(self).c_total,
                self.backlog == old(self).backlog,
                self.rule == old(self).rule,
                self.custom == old(self).custom,
                self.limits == old(self).limits,
                self.bnn == old(self).bnn,
                self.tick == old(self).tick,
            decreases keys.len() - i,
        {
            let k = keys[i];
            assert(keys@.contains(k));
            assert(!keys@.take(i as int).contains(k)) by {
                if keys@.take(i as int).contains(k) {
                    let j = choose|j: int| 0 <= j < i && keys@.take(i as int)[j] == k;
                    assert(keys@[j] == keys@[i as int]);
                }
            }
            let ghost before = table_map(self.ips);
            match table_get(&self.ips, k) {
                Some(st) => {
                    let mut ip = st;
                    ip.demand = ip.demand.wrapping_mul(7) >> 3;
                    ip.recent = ip.recent.wrapping_mul(15) >> 4;
                    table_insert(&mut self.ips, k, ip);
                    assert(st == orig[k]);
                },
                None => {
                    assert(orig.contains_key(k));
                    assert(before.dom().contains(k));
                },
            }
            let ghost t1 = keys@.take(i + 1);
            assert(t1 =~= keys@.take(i as int).push(k));
            assert forall|k2: u32| #[trigger] orig.contains_key(k2) implies table_map(self.ips)[k2] == if t1.contains(k2) {
                decayed(orig[k2])
            } else {
                orig[k2]
            } by {
                if k2 != k {
                    assert(t1.contains(k2) == keys@.take(i as int).contains(k2)) by {
                        if t1.contains(k2) {
                            let j = choose|j: int| 0 <= j < t1.len() && t1[j] == k2;
                            assert(j < i);
                            assert(keys@.take(i as int)[j] == k2);
                        }
                        if keys@.take(i as int).contains(k2) {
                            let j = choose|j: int| 0 <= j < i && keys@.take(i as int)[j] == k2;
                            assert(t1[j] == k2);
                        }
                    }
                } else {
                    assert(t1[i as int] == k);
                }
            }
            i = i + 1;
        }
        assert(keys@.take(keys.len() as int) =~= keys@);
        assert(table_map(self.ips).dom() =~= orig.dom());
        assert(table_map(self.ips) =~= decay_next(old(self)@).table);
    }

    /// The state of an IP, the zero state when it has none.
    pub fn state(&self, key: u32) -> (r: IpState)
        ensures
            r == ip_state(self@.table, key),
    {
        match table_get(&self.ips, key) {
            Some(st) => st,
            None => IpState::default(),
        }
    }

    /// Replace the state of an IP (the table's entry for it).
    pub fn put_state(&mut self, key: u32, st: IpState)
        ensures
            final(self)@ == (SchedState { table: old(self)@.table.insert(key, st), ..old(self)@ }),
            final(self).rule == old(self).rule,
            final(self).custom == old(self).custom,
            final(self).limits == old(self).limits,
            final(self).bnn == old(self).bnn,
            final(self).tick == old(self).tick,
    {
        table_insert(&mut self.ips, key, st);
    }

    /// The firewall predicate: an exception, or every feature at most
    /// its threshold.
    pub fn firewall_pass(&self, ip: &IpState) -> (r: bool)
        ensures
            r == (ip.exception || ((ip.demand as i32) <= demand_threshold(self.limits.d_limit) && ip.recent <= 1024
                && ip.syns <= 256 && ip.errs <= 64)),
    {
        if ip.exception {
            return true;
        }
        ip.demand as i32 <= self.limits.d_limit.wrapping_mul(8) && ip.recent <= 1024 && ip.syns <= 256 && ip.errs
            <= 64
    }
}

pub open spec fn fits_i32(x: int) -> bool {
    i32::MIN <= x <= i32::MAX
}

pub open spec fn flag(b: bool) -> int {
    if b {
        1
    } else {
        0
    }
}

/// The demand headroom `(d_limit << 3) - demand`.
pub open spec fn headroom(d_limit: i32, ip: IpState) -> int {
    demand_threshold(d_limit) - (ip.demand as i32)
}

/// The admission score `A_i`: diversity + demand headroom + exception +
/// wait - queue, each weighted.
pub open spec fn admission_score_spec(d_limit: i32, ip: IpState, w: Weights) -> int {
    w.div * flag(ip.queued == 0) + w.dem * headroom(d_limit, ip) + w.exc * flag(ip.exception) + w.wait * (
    ip.wait_ticks as i32) - w.qpen * (ip.queued as i32)
}

/// Every step of the admission score fits in an `i32`.
pub open spec fn admission_score_fits(d_limit: i32, ip: IpState, w: Weights) -> bool {
    let a = w.div * flag(ip.queued == 0);
    let b = w.dem * headroom(d_limit, ip);
    let c = w.exc * flag(ip.exception);
    let d = w.wait * (ip.wait_ticks as i32);
    let e = w.qpen * (ip.queued as i32);
    &&& fits_i32(headroom(d_limit, ip))
    &&& fits_i32(b)
    &&& fits_i32(a + b)
    &&& fits_i32(a + b + c)
    &&& fits_i32(d)
    &&& fits_i32(a + b + c + d)
    &&& fits_i32(e)
    &&& fits_i32(a + b + c + d - e)
}

/// The priority `P_j` of an admitted item with its own wait: demand
/// headroom + wait + exception - queue, weighted by the rule mode.
pub open spec fn priority_spec(d_limit: i32, ip: IpState, w: Weights, wait_j: u32) -> int {
    w.dem * headroom(d_limit, ip) + w.wait * (wait_j as i32) + w.exc * flag(ip.exception) - w.qpen * (
    ip.queued as i32)
}

pub open spec fn priority_fits(d_limit: i32, ip: IpState, w: Weights, wait_j: u32) -> bool {
    let b = w.dem * headroom(d_limit, ip);
    let d = w.wait * (wait_j as i32);
    let c = w.exc * flag(ip.exception);
    let e = w.qpen * (ip.queued as i32);
    &&& fits_i32(headroom(d_limit, ip))
    &&& fits_i32(b)
    &&& fits_i32(d)
    &&& fits_i32(b + d)
    &&& fits_i32(b + d + c)
    &&& fits_i32(e)
    &&& fits_i32(b + d + c - e)
}

/// The score of a core: load `<< 8` (wrapping) plus `1 << 16` when it
/// already serves the IP.
pub open spec fn core_score(l: u32, z: bool) -> int {
    (l << 8u32) + if z {
        65536int
    } else {
        0
    }
}

impl Sched {
    /// The admission score `A_i` of an IP state under the given weights.
    pub fn admission_score(&self, ip: &IpState, w: Weights) -> (r: i32)
        requires
            admission_score_fits(self.limits.d_limit, *ip, w),
        ensures
            r == admission_score_spec(self.limits.d_limit, *ip, w),
    {
        let div: i32 = if ip.queued == 0 { 1 } else { 0 };
        let exc: i32 = if ip.exception { 1 } else { 0 };
        let head = self.limits.d_limit.wrapping_mul(8) - ip.demand as i32;
        (w.div * div) + (w.dem * head) + (w.exc * exc) + (w.wait * ip.wait_ticks as i32) - (w.qpen * ip.queued as i32)
    }

    /// The priority `P_j` of an admitted item of this IP with wait `wait_j`.
    pub fn priority(&self, key: u32, wait_j: u32) -> (r: i32)
        requires
            priority_fits(self.limits.d_limit, ip_state(self@.table, key), weights_for(self.rule, self.custom), wait_j),
        ensures
            r == priority_spec(self.limits.d_limit, ip_state(self@.table, key), weights_for(self.rule, self.custom), wait_j),
    {
        let w = Weights::for_mode(self.rule, self.custom);
        let ip = self.state(key);
        let exc: i32 = if ip.exception { 1 } else { 0 };
        let head = self.limits.d_limit.wrapping_mul(8) - ip.demand as i32;
        (w.dem * head) + (w.wait * wait_j as i32) + (w.exc * exc) - (w.qpen * ip.queued as i32)
    }

    /// The core for an item: the first of least score (load balance,
    /// same-IP penalty), core 0 when no score is below `u32::MAX`.
    pub fn core_assign(loads: &[u32], affinity: &[bool]) -> (r: usize)
        requires
            forall|c: int| 0 <= c < loads.len() && c < affinity.len() ==> core_score(loads[c], affinity[c]) <= u32::MAX,
        ensures
            (forall|c: int| 0 <= c < loads.len() && c < affinity.len() ==> core_score(loads[c], affinity[c]) >= u32::MAX)
                ==> r == 0,
            (exists|c: int| 0 <= c < loads.len() && c < affinity.len() && core_score(loads[c], affinity[c]) < u32::MAX)
                ==> {
                &&& r < loads.len() && r < affinity.len()
                &&& forall|c: int|
                    0 <= c < loads.len() && c < affinity.len() ==> core_score(loads[r as int], affinity[r as int])
                        <= core_score(loads[c], affinity[c])
                &&& forall|c: int| 0 <= c < r ==> core_score(loads[c], affinity[c]) > core_score(loads[r as int], affinity[r as int])
            },
    {
        let m = if loads.len() < affinity.len() { loads.len() } else { affinity.len() };
        let mut best: usize = 0;
        let mut best_score: u32 = u32::MAX;
        let mut c: usize = 0;
        while c < m
            invariant
                m <= loads.len(),
                m <= affinity.len(),
                m == loads.len() || m == affinity.len(),
                c <= m,
                forall|k: int| 0 <= k < loads.len() && k < affinity.len() ==> core_score(loads[k], affinity[k]) <= u32::MAX,
                best_score == u32::MAX ==> best == 0,
                best_score < u32::MAX ==> best < c && best_score == core_score(loads[best as int], affinity[best as int]),
                forall|k: int| 0 <= k < c ==> core_score(loads[k], affinity[k]) >= best_score,
                forall|k: int| 0 <= k < best ==> core_score(loads[k], affinity[k]) > best_score,
            decreases m - c,
        {
            let a = affinity[c];
            let z: u32 = if a { 1 } else { 0 };
            assert((z << 16u32) == if a { 65536u32 } else { 0u32 }) by (bit_vector)
                requires
                    z == (if a { 1u32 } else { 0u32 }),
            ;
            let score = (loads[c] << 8) + (z << 16);
            if score < best_score {
                best_score = score;
                best = c;
            }
            c = c + 1;
        }
        best
    }

    /// The quantized feature vector of an IP for the adaptive firewall.
    pub fn firewall_features(&self, key: u32) -> (r: [i16; 8])
        ensures
            r@ == seq![
                clamp255(ip_state(self@.table, key).demand),
                clamp255(ip_state(self@.table, key).queued),
                clamp255(ip_state(self@.table, key).conns),
                clamp255(ip_state(self@.table, key).wait_ticks),
                clamp255(ip_state(self@.table, key).recent),
                clamp255(ip_state(self@.table, key).syns),
                clamp255(ip_state(self@.table, key).errs),
                0i16,
            ],
    {
        let ip = self.state(key);
        let f: [i16; 8] = [
            clamp_255(ip.demand),
            clamp_255(ip.queued),
            clamp_255(ip.conns),
            clamp_255(ip.wait_ticks),
            clamp_255(ip.recent),
            clamp_255(ip.syns),
            clamp_255(ip.errs),
            0,
        ];
        assert(f@ =~= seq![
            clamp255(ip.demand),
            clamp255(ip.queued),
            clamp255(ip.conns),
            clamp255(ip.wait_ticks),
            clamp255(ip.recent),
            clamp255(ip.syns),
            clamp255(ip.errs),
            0i16,
        ]);
        f
    }

    /// The adaptive firewall: passes without a network, else the
    /// network's verdict on the IP's features.
    pub fn firewall_adaptive(&self, key: u32) -> (r: bool)
        ensures
            self.bnn is None ==> r,
    {
        match &self.bnn {
            None => true,
            Some(b) => {
                let f = self.firewall_features(key);
                b.predict(&f)
            },
        }
    }
}

pub open spec fn clamp255(x: u32) -> i16 {
    if x < 255 {
        x as i16
    } else {
        255
    }
}

fn clamp_255(x: u32) -> (r: i16)
    ensures
        r == clamp255(x),
{
    if x < 255 {
        x as i16
    } else {
        255
    }
}

/// Law: admission keeps the global queue within `q_max`, the backlog
/// within `b_max`, and the requesting IP's queue within `q_per_ip`.
pub proof fn law_admission_bounds(s: SchedState, lim: Limits, key: u32)
    requires
        s.q_total <= lim.q_max,
        s.backlog <= lim.b_max,
        ip_state(s.table, key).queued <= lim.q_per_ip,
    ensures
        admit_next(s, lim, key).0.q_total <= lim.q_max,
        admit_next(s, lim, key).0.backlog <= lim.b_max,
        ip_state(admit_next(s, lim, key).0.table, key).queued <= lim.q_per_ip,
{
}

/// Law: a request admitted and then released leaves the global queue
/// and its IP's queue as they were.
pub proof fn law_admit_release_balances(s: SchedState, lim: Limits, key: u32)
    requires
        admit_next(s, lim, key).1 == Admission::Accepted,
    ensures
        release_request_next(admit_next(s, lim, key).0, key).q_total == s.q_total,
        ip_state(release_request_next(admit_next(s, lim, key).0, key).table, key).queued == ip_state(s.table, key).queued,
{
}

/// Law: connection admission keeps the live connections within `c_max`
/// and the IP's within `c_per_ip`.
pub proof fn law_conn_bounds(s: SchedState, lim: Limits, key: u32)
    requires
        s.c_total <= lim.c_max,
        ip_state(s.table, key).conns <= lim.c_per_ip,
    ensures
        conn_next(s, lim, key).0.c_total <= lim.c_max,
        ip_state(conn_next(s, lim, key).0.table, key).conns <= lim.c_per_ip,
{
}

/// Law: a connection admitted and then released leaves the connection
/// counts as they were.
pub proof fn law_conn_release_balances(s: SchedState, lim: Limits, key: u32)
    requires
        conn_next(s, lim, key).1,
    ensures
        release_conn_next(conn_next(s, lim, key).0, key).c_total == s.c_total,
        ip_state(release_conn_next(conn_next(s, lim, key).0, key).table, key).conns == ip_state(s.table, key).conns,
{
}

/// Every global and per-IP count within its limit, for every IP.
pub open spec fn within_limits(s: SchedState, lim: Limits) -> bool {
    &&& s.q_total <= lim.q_max
    &&& s.backlog <= lim.b_max
    &&& s.c_total <= lim.c_max
    &&& forall|k: u32| #[trigger] ip_state(s.table, k).queued <= lim.q_per_ip
    &&& forall|k: u32| #[trigger] ip_state(s.table, k).conns <= lim.c_per_ip
}

/// The state after a decay tick: every entry decayed.
pub open spec fn decay_next(s: SchedState) -> SchedState {
    SchedState { table: Map::new(|k: u32| s.table.contains_key(k), |k: u32| decayed(s.table[k])), ..s }
}

/// The calls that change a scheduler's counts.
pub enum SchedOp {
    Admit(u32),
    Release(u32),
    Connect(u32),
    Disconnect(u32),
    Decay,
}

pub open spec fn op_next(s: SchedState, lim: Limits, op: SchedOp) -> SchedState {
    match op {
        SchedOp::Admit(k) => admit_next(s, lim, k).0,
        SchedOp::Release(k) => release_request_next(s, k),
        SchedOp::Connect(k) => conn_next(s, lim, k).0,
        SchedOp::Disconnect(k) => release_conn_next(s, k),
        SchedOp::Decay => decay_next(s),
    }
}

/// The state after a sequence of calls.
pub open spec fn run_ops(s: SchedState, lim: Limits, ops: Seq<SchedOp>) -> SchedState
    decreases ops.len(),
{
    if ops.len() == 0 {
        s
    } else {
        run_ops(op_next(s, lim, ops[0]), lim, ops.drop_first())
    }
}

proof fn lemma_step_within(s: SchedState, lim: Limits, op: SchedOp)
    requires
        within_limits(s, lim),
    ensures
        within_limits(op_next(s, lim, op), lim),
{
    let n = op_next(s, lim, op);
    match op {
        SchedOp::Admit(key) => {
            assert forall|k: u32| #[trigger] ip_state(n.table, k).queued <= lim.q_per_ip by {
                assert(ip_state(s.table, k).queued <= lim.q_per_ip);
            }
            assert forall|k: u32| #[trigger] ip_state(n.table, k).conns <= lim.c_per_ip by {
                assert(ip_state(s.table, k).conns <= lim.c_per_ip);
            }
        },
        SchedOp::Release(key) => {
            assert forall|k: u32| #[trigger] ip_state(n.table, k).queued <= lim.q_per_ip by {
                assert(ip_state(s.table, k).queued <= lim.q_per_ip);
            }
            assert forall|k: u32| #[trigger] ip_state(n.table, k).conns <= lim.c_per_ip by {
                assert(ip_state(s.table, k).conns <= lim.c_per_ip);
            }
        },
        SchedOp::Connect(key) => {
            assert forall|k: u32| #[trigger] ip_state(n.table, k).queued <= lim.q_per_ip by {
                assert(ip_state(s.table, k).queued <= lim.q_per_ip);
            }
            assert forall|k: u32| #[trigger] ip_state(n.table, k).conns <= lim.c_per_ip by {
                assert(ip_state(s.table, k).conns <= lim.c_per_ip);
            }
        },
        SchedOp::Disconnect(key) => {
            assert forall|k: u32| #[trigger] ip_state(n.table, k).queued <= lim.q_per_ip by {
                assert(ip_state(s.table, k).queued <= lim.q_per_ip);
            }
            assert forall|k: u32| #[trigger] ip_state(n.table, k).conns <= lim.c_per_ip by {
                assert(ip_state(s.table, k).conns <= lim.c_per_ip);
            }
        },
        SchedOp::Decay => {
            assert forall|k: u32| #[trigger] ip_state(n.table, k).queued <= lim.q_per_ip by {
                assert(ip_state(s.table, k).queued <= lim.q_per_ip);
            }
            assert forall|k: u32| #[trigger] ip_state(n.table, k).conns <= lim.c_per_ip by {
                assert(ip_state(s.table, k).conns <= lim.c_per_ip);
            }
        },
    }
}

/// Law: over any sequence of admissions, releases, connections,
/// disconnections and decay ticks, the global queue, backlog and live
/// connections stay within their limits, and so do every IP's queue and
/// connections.
pub proof fn law_limits_hold_over_any_sequence(s: SchedState, lim: Limits, ops: Seq<SchedOp>)
    requires
        within_limits(s, lim),
    ensures
        within_limits(run_ops(s, lim, ops), lim),
    decreases ops.len(),
{
    if ops.len() > 0 {
        lemma_step_within(s, lim, ops[0]);
        law_limits_hold_over_any_sequence(op_next(s, lim, ops[0]), lim, ops.drop_first());
    }
}

/// Law: a fresh scheduler is within every limit.
pub proof fn law_fresh_within_limits(s: SchedState, lim: Limits)
    requires
        s.table.dom() == Set::<u32>::empty(),
        s.q_total == 0,
        s.c_total == 0,
        s.backlog == 0,
    ensures
        within_limits(s, lim),
{
    assert forall|k: u32| #[trigger] ip_state(s.table, k).queued <= lim.q_per_ip by {
        assert(!s.table.dom().contains(k));
    }
    assert forall|k: u32| #[trigger] ip_state(s.table, k).conns <= lim.c_per_ip by {
        assert(!s.table.dom().contains(k));
    }
}

/// Law: within the limits, an admission is accepted exactly when it
/// raises the global queue and its IP's queue by one each; otherwise
/// neither moves.
pub proof fn law_accepted_iff_counted(s: SchedState, lim: Limits, key: u32)
    requires
        within_limits(s, lim),
    ensures
        (admit_next(s, lim, key).1 == Admission::Accepted) <==> (admit_next(s, lim, key).0.q_total == s.q_total + 1
            && ip_state(admit_next(s, lim, key).0.table, key).queued == ip_state(s.table, key).queued + 1),
        admit_next(s, lim, key).1 != Admission::Accepted ==> admit_next(s, lim, key).0.q_total == s.q_total
            && ip_state(admit_next(s, lim, key).0.table, key).queued == ip_state(s.table, key).queued,
{
    assert(ip_state(s.table, key).queued <= lim.q_per_ip);
}

/// One decay tick followed by one request's demand update.
pub open spec fn decay_cycle(d: u32) -> u32 {
    ema_step(d.wrapping_mul(7) >> 3u32, 1)
}

/// Law: under alternating decay ticks and single requests the demand
/// band `[7, 13]` is invariant, and a demand above it falls (no lower than 7).
pub proof fn law_decay_cycle_attractor(d: u32)
    ensures
        7 <= d <= 13 ==> 7 <= decay_cycle(d) <= 13,
        14 <= d <= 613_566_756 ==> 7 <= decay_cycle(d) < d,
{
    if 7 <= d <= 613_566_756 {
        let m = d.wrapping_mul(7);
        assert(m == 7 * d);
        let d1 = m >> 3u32;
        assert(m >> 3u32 == m / 8) by (bit_vector);
        lemma_ema_value(d1, 1);
        assert(d1 == (7 * d) / 8);
    }
}

} // verus!
