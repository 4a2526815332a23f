use atomos_core::sched::{ip_key_octets, BnnFirewall, shard_limits, Admission, IpState, Limits, RuleMode, Sched, Weights};

fn key(a: u8, b: u8, c: u8, d: u8) -> u32 {
    ip_key_octets(&[a, b, c, d])
}

fn set_demand(s: &mut Sched, k: u32, d: u32) {
    let mut st = s.state(k);
    st.demand = d;
    s.put_state(k, st);
}

#[test]
fn demand_ema_decays_and_builds() {
    let mut st = IpState::default();
    for _ in 0..8 {
        st.demand_update(1);
    }
    assert_eq!(st.demand, 8, "demand = {}", st.demand);
    for _ in 0..24 {
        st.demand_update(0);
    }
    assert!(st.demand < 8, "demand after decay = {}", st.demand);
}

#[test]
fn diversity_gain_is_comparison() {
    let mut st = IpState::default();
    assert_eq!((st.queued == 0) as i32, 1);
    st.queued = 1;
    assert_eq!((st.queued == 0) as i32, 0);
}

#[test]
fn fair_mode_prefers_low_demand() {
    let mut s = Sched::new(RuleMode::Fair, Weights::default(), Limits::default());
    let lo = key(1, 1, 1, 1);
    let k_hi = key(2, 2, 2, 2);
    s.admit_request(lo);
    for _ in 0..8 {
        let mut st = s.state(k_hi);
        st.demand_update(64);
        s.put_state(k_hi, st);
    }
    let st_lo = s.state(lo);
    let st_hi = s.state(k_hi);
    assert!(st_hi.demand > st_lo.demand, "test setup: demand order");
    let w = Weights::for_mode(RuleMode::Fair, Weights::default());
    assert!(s.admission_score(&st_lo, w) > s.admission_score(&st_hi, w), "low demand must outrank high demand");
}

#[test]
fn anarchy_is_fcfs() {
    let w = Weights::for_mode(RuleMode::Anarchy, Weights::default());
    assert_eq!(w.div, 0);
    assert_eq!(w.dem, 0);
    assert_eq!(w.qpen, 0);
    assert_eq!(w.wait, 1);
}

#[test]
fn bounds_reject_and_release() {
    let limits = Limits { q_max: 4, q_per_ip: 2, ..Limits::default() };
    let mut s = Sched::new(RuleMode::Anarchy, Weights::default(), limits);
    let k = |o: u8| key(1, 1, 1, o);
    let k1 = k(1);
    let k2 = k(2);
    assert_eq!(s.admit_request(k1), Admission::Accepted);
    assert_eq!(s.admit_request(k1), Admission::Accepted);
    assert_eq!(s.admit_request(k1), Admission::Backlogged);
    s.release_request(k1);
    s.release_request(k1);
    assert_eq!(s.q_total, 0);
    assert_eq!(s.admit_request(k1), Admission::Accepted);
    assert_eq!(s.admit_request(k2), Admission::Accepted);
    assert_eq!(s.admit_request(k(3)), Admission::Accepted);
    assert_eq!(s.admit_request(k(4)), Admission::Accepted);
    assert_eq!(s.admit_request(k(5)), Admission::Backlogged);
}

#[test]
fn backlog_full_rejects() {
    let limits = Limits { q_max: 1, b_max: 1, ..Limits::default() };
    let mut s = Sched::new(RuleMode::Anarchy, Weights::default(), limits);
    assert_eq!(s.admit_request(key(1, 0, 0, 1)), Admission::Accepted);
    assert_eq!(s.admit_request(key(1, 0, 0, 2)), Admission::Backlogged);
    assert_eq!(s.admit_request(key(1, 0, 0, 3)), Admission::Rejected);
    assert_eq!(s.backlog, 1);
}

#[test]
fn firewall_rejects_high_demand() {
    let mut s = Sched::new(RuleMode::Anarchy, Weights::default(), Limits::default());
    let k = key(9, 9, 9, 9);
    let d = ((s.limits.d_limit << 3) + 200) as u32;
    set_demand(&mut s, k, d);
    assert!(!s.firewall_pass(&s.state(k)));
    assert_eq!(s.admit_request(k), Admission::Rejected);
    let mut st = s.state(k);
    st.exception = true;
    s.put_state(k, st);
    assert!(s.firewall_pass(&s.state(k)));
}

#[test]
fn conn_bounds() {
    let limits = Limits { c_max: 3, c_per_ip: 2, ..Limits::default() };
    let mut s = Sched::new(RuleMode::Anarchy, Weights::default(), limits);
    let k1 = key(1, 1, 1, 1);
    let k2 = key(2, 2, 2, 2);
    assert!(s.admit_conn(k1));
    assert!(s.admit_conn(k1));
    assert!(!s.admit_conn(k1), "per-IP conn cap");
    assert!(s.admit_conn(k2));
    assert!(!s.admit_conn(k2), "global conn cap");
    s.release_conn(k1);
    assert!(s.admit_conn(k2), "freed slot reused");
}

#[test]
fn core_assign_balances_with_affinity() {
    let loads = [1u32, 0, 1];
    let aff = [false, true, false];
    assert_eq!(Sched::core_assign(&loads, &aff), 0);
    let aff = [false, false, false];
    assert_eq!(Sched::core_assign(&loads, &aff), 1);
    let loads2 = [0u32, 1, 1];
    assert_eq!(Sched::core_assign(&loads2, &aff), 0);
}

#[test]
fn priority_uses_rule_weights() {
    let mut s = Sched::new(RuleMode::Fair, Weights::default(), Limits::default());
    let k = key(1, 1, 1, 1);
    s.admit_request(k);
    let p_young = s.priority(k, 1);
    let p_old = s.priority(k, 100);
    assert!(p_old > p_young);
}

#[test]
fn ema_band_is_invariant_and_attracting() {
    for n in 0u32..=8 {
        let hi = 8 * n + 7;
        for d in 0..=hi {
            let mut st = IpState { demand: d, ..Default::default() };
            st.demand_update(n);
            assert!(st.demand <= hi, "n={n} d={d} -> {}", st.demand);
        }
    }
    for start in [0u32, 1, 7, 8, 15, 100, 10_000, 500_000_000] {
        let mut st = IpState { demand: start, ..Default::default() };
        for _ in 0..256 {
            st.demand_update(1);
        }
        assert!((8..=15).contains(&st.demand), "start={start} -> {}", st.demand);
    }
}

#[test]
fn demand_settles_from_any_start() {
    for start in [u32::MAX, u32::MAX - 1, 1 << 31, 123_456_789, 16, 9, 3, 0] {
        let mut st = IpState { demand: start, ..Default::default() };
        for _ in 0..256 {
            st.demand_update(1);
        }
        assert!((8..=15).contains(&st.demand), "start={start} -> {}", st.demand);
    }
    let mut st = IpState { demand: u32::MAX, ..Default::default() };
    st.demand_update(1);
    assert_eq!(st.demand, 3_758_096_385);
}

#[test]
fn decay_cycle_contracts_into_attractor() {
    for d in 7u32..=64 {
        let mut s = Sched::new(RuleMode::Anarchy, Weights::default(), Limits::default());
        let k = key(10, 10, 10, 10);
        set_demand(&mut s, k, d);
        for _ in 0..64 {
            s.tick_decay();
            let mut st = s.state(k);
            st.demand_update(1);
            s.put_state(k, st);
        }
        assert!((7..=13).contains(&s.state(k).demand), "d={d} -> {}", s.state(k).demand);
    }
}

#[test]
fn ip_key_loopback_v4_is_stable() {
    assert_eq!(ip_key_octets(&[127, 0, 0, 1]), 3668918509);
}

#[test]
fn admit_then_release_restores_counters() {
    let mut s = Sched::new(RuleMode::Fair, Weights::default(), Limits::default());
    let k = key(3, 3, 3, 3);
    assert_eq!(s.admit_request(k), Admission::Accepted);
    assert_eq!(s.q_total, 1);
    assert_eq!(s.state(k).queued, 1);
    s.release_request(k);
    assert_eq!(s.q_total, 0);
    assert_eq!(s.state(k).queued, 0);
    assert!(s.admit_conn(k));
    s.release_conn(k);
    assert_eq!(s.c_total, 0);
    assert_eq!(s.state(k).conns, 0);
}

#[test]
fn shards_divide_the_global_ceilings() {
    let l = shard_limits(4, Limits::default());
    assert_eq!(l.q_max, 16_384 / 4);
    assert_eq!(l.c_max, 1024);
    assert_eq!(l.b_max, 2048);
    assert_eq!(l.q_per_ip, 4096);
    let tiny = shard_limits(0, Limits { q_max: 0, ..Limits::default() });
    assert_eq!(tiny.q_max, 1);
    assert_eq!(shard_limits(1 << 20, Limits::default()).c_max, 1);
}

#[test]
fn firewall_features_and_adaptive_without_model() {
    let mut s = Sched::new(RuleMode::Fair, Weights::default(), Limits::default());
    let k = key(4, 4, 4, 4);
    s.admit_request(k);
    let f = s.firewall_features(k);
    assert_eq!(f[1], 1);
    assert!(s.firewall_adaptive(k));
}

struct QueuedOver(i16);

impl BnnFirewall for QueuedOver {
    fn predict(&self, features: &[i16; 8]) -> bool {
        features[1] <= self.0
    }
}

#[test]
fn adaptive_firewall_hands_the_features_to_the_model() {
    let mut s = Sched::new(RuleMode::Fair, Weights::default(), Limits::default());
    let k = key(5, 5, 5, 5);
    s.admit_request(k);
    s.admit_request(k);
    s.bnn = Some(std::sync::Arc::new(QueuedOver(1)));
    assert!(!s.firewall_adaptive(k));
    s.bnn = Some(std::sync::Arc::new(QueuedOver(2)));
    assert!(s.firewall_adaptive(k));
}
