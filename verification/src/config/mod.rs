//! Configuration: defaults, the scheduler block, host overlays and checks.
pub mod defaults;

use vstd::prelude::*;
use vstd::string::StringSliceAdditionalSpecFns;
use crate::bytes::bytes_eq;
use crate::text::{str_chars, is_digit, parse_uint, parse_u64_chars, unsigned_digits, lemma_dec_nonneg};
use crate::error::ServeError;
use crate::sched::{Limits, Weights, RuleMode, default_limits, default_weights};

verus! {

/// What happens over the memory cap: refuse (503) or degrade.
#[derive(Clone, Copy, Debug, PartialEq, Eq, Structural)]
pub enum MemoryMode {
    Hard,
    Degrade,
}

/// The scheduler block of the configuration (integers only).
#[derive(Clone, Copy, Debug, PartialEq, Eq, Structural)]
pub struct SchedConfig {
    pub mode: RuleMode,
    pub demand_limit: i32,
    pub q_max: u32,
    pub q_per_ip: u32,
    pub c_max: u32,
    pub c_per_ip: u32,
    pub b_max: u32,
    pub str_max: u32,
    pub custom_div: i32,
    pub custom_dem: i32,
    pub custom_exc: i32,
    pub custom_wait: i32,
    pub custom_qpen: i32,
    pub custom_cpen: i32,
}

/// The block that yields the default limits and weights in `Fair` mode.
pub open spec fn default_sched_config() -> SchedConfig {
    let l = default_limits();
    let w = default_weights();
    SchedConfig {
        mode: RuleMode::Fair,
        demand_limit: l.d_limit,
        q_max: l.q_max,
        q_per_ip: l.q_per_ip,
        c_max: l.c_max,
        c_per_ip: l.c_per_ip,
        b_max: l.b_max,
        str_max: l.str_max,
        custom_div: w.div,
        custom_dem: w.dem,
        custom_exc: w.exc,
        custom_wait: w.wait,
        custom_qpen: w.qpen,
        custom_cpen: w.cpen,
    }
}

impl Default for SchedConfig {
    fn default() -> (r: SchedConfig)
        ensures
            r == default_sched_config(),
    {
        let l = Limits::default();
        let w = Weights::default();
        SchedConfig {
            mode: RuleMode::default(),
            demand_limit: l.d_limit,
            q_max: l.q_max,
            q_per_ip: l.q_per_ip,
            c_max: l.c_max,
            c_per_ip: l.c_per_ip,
            b_max: l.b_max,
            str_max: l.str_max,
            custom_div: w.div,
            custom_dem: w.dem,
            custom_exc: w.exc,
            custom_wait: w.wait,
            custom_qpen: w.qpen,
            custom_cpen: w.cpen,
        }
    }
}

/// The runtime limits and custom weights a block describes; header and
/// body ceilings are fixed (64 KiB and 10 MiB).
pub open spec fn sched_build(c: SchedConfig) -> (Limits, Weights) {
    (
        Limits {
            c_max: c.c_max,
            c_per_ip: c.c_per_ip,
            q_max: c.q_max,
            q_per_ip: c.q_per_ip,
            b_max: c.b_max,
            h_max: 65_536,
            s_max: 10485760u64,
            str_max: c.str_max,
            d_limit: c.demand_limit,
        },
        Weights {
            div: c.custom_div,
            dem: c.custom_dem,
            exc: c.custom_exc,
            wait: c.custom_wait,
            qpen: c.custom_qpen,
            cpen: c.custom_cpen,
        },
    )
}

impl SchedConfig {
    pub fn build(&self) -> (r: (Limits, Weights))
        ensures
            r == sched_build(*self),
    {
        let limits = Limits {
            c_max: self.c_max,
            c_per_ip: self.c_per_ip,
            q_max: self.q_max,
            q_per_ip: self.q_per_ip,
            b_max: self.b_max,
            h_max: 65_536,
            s_max: 10485760,
            str_max: self.str_max,
            d_limit: self.demand_limit,
        };
        let custom = Weights {
            div: self.custom_div,
            dem: self.custom_dem,
            exc: self.custom_exc,
            wait: self.custom_wait,
            qpen: self.custom_qpen,
            cpen: self.custom_cpen,
        };
        (limits, custom)
    }
}

/// Law: the default scheduler block builds the default limits, and the
/// default weights as its custom weights.
pub proof fn law_default_block_builds_defaults()
    ensures
        sched_build(default_sched_config()).0 == default_limits(),
        sched_build(default_sched_config()).1 == default_weights(),
{
}

/// An engine name the configuration accepts.
pub open spec fn engine_ok_spec(s: Seq<u8>) -> bool {
    s == "epoll".spec_bytes() || s == "tokio".spec_bytes() || s == "xdp".spec_bytes() || s == "af-xdp".spec_bytes()
}

pub fn engine_ok(s: &str) -> (r: bool)
    ensures
        r == engine_ok_spec(s.spec_bytes()),
{
    let b = s.as_bytes();
    bytes_eq(b, "epoll".as_bytes()) || bytes_eq(b, "tokio".as_bytes()) || bytes_eq(b, "xdp".as_bytes()) || bytes_eq(
        b,
        "af-xdp".as_bytes(),
    )
}

/// What the configuration check reads, as plain values.
pub struct ConfigCheck {
    pub bind: String,
    /// `None` when the bind is not `host:port`; else whether its address is loopback.
    pub bind_loopback: Option<bool>,
    pub allow_non_loopback: bool,
    pub workers: u32,
    pub max_json_depth: u32,
    pub max_body_bytes: usize,
    pub memory_cap_bytes: u64,
    /// `0 < cpu_fraction <= 1`.
    pub cpu_fraction_in_range: bool,
    pub tls_cert_set: bool,
    pub tls_key_set: bool,
    pub engine: String,
    pub http2: bool,
    pub http3: bool,
}

/// The first check a configuration fails, by its message.
pub open spec fn config_fault(c: ConfigCheck) -> Option<Seq<char>> {
    if c.bind@.len() == 0 {
        Some("empty bind"@)
    } else if c.bind_loopback is None {
        Some("bind is not host:port"@)
    } else if !c.allow_non_loopback && !(c.bind_loopback->0) {
        Some("non-loopback bind refused"@)
    } else if c.workers == 0 {
        Some("workers == 0"@)
    } else if c.max_json_depth == 0 || c.max_json_depth > 64 {
        Some("max_json_depth not in 1..=64"@)
    } else if c.max_body_bytes < 1024 {
        Some("max_body_bytes < 1024"@)
    } else if c.memory_cap_bytes < 16 * 1024 * 1024 {
        Some("memory_cap_bytes < 16MiB"@)
    } else if !c.cpu_fraction_in_range {
        Some("cpu_fraction not in (0,1]"@)
    } else if c.tls_cert_set != c.tls_key_set {
        Some("tls_cert and tls_key must both be set"@)
    } else if !engine_ok_spec(vstd::utf8::encode_utf8(c.engine@)) {
        Some("unknown engine"@)
    } else if vstd::utf8::encode_utf8(c.engine@) == "epoll".spec_bytes() && (c.http2 || c.http3) {
        Some("engine=epoll cannot set http2/http3 (I_engine; use atomos-proto)"@)
    } else if vstd::utf8::encode_utf8(c.engine@) == "xdp".spec_bytes() || vstd::utf8::encode_utf8(c.engine@) == "af-xdp".spec_bytes() {
        Some("engine xdp is not linked in this site"@)
    } else {
        None
    }
}

fn config_err(m: &str) -> (r: ServeError)
    ensures
        r matches ServeError::Config(s) && s@ == m@,
{
    ServeError::Config(m.to_string())
}

/// Check a configuration after parse.
pub fn validate(c: &ConfigCheck) -> (r: Result<(), ServeError>)
    ensures
        match config_fault(*c) {
            None => r is Ok,
            Some(m) => r matches Err(ServeError::Config(s)) && s@ == m,
        },
{
    if c.bind.as_str().is_empty() {
        return Err(config_err("empty bind"));
    }
    let loopback = match c.bind_loopback {
        None => {
            return Err(config_err("bind is not host:port"));
        },
        Some(l) => l,
    };
    if !c.allow_non_loopback && !loopback {
        return Err(config_err("non-loopback bind refused"));
    }
    if c.workers == 0 {
        return Err(config_err("workers == 0"));
    }
    if c.max_json_depth == 0 || c.max_json_depth > 64 {
        return Err(config_err("max_json_depth not in 1..=64"));
    }
    if c.max_body_bytes < 1024 {
        return Err(config_err("max_body_bytes < 1024"));
    }
    if c.memory_cap_bytes < 16 * 1024 * 1024 {
        return Err(config_err("memory_cap_bytes < 16MiB"));
    }
    if !c.cpu_fraction_in_range {
        return Err(config_err("cpu_fraction not in (0,1]"));
    }
    if c.tls_cert_set != c.tls_key_set {
        return Err(config_err("tls_cert and tls_key must both be set"));
    }
    if !engine_ok(c.engine.as_str()) {
        return Err(config_err("unknown engine"));
    }
    let e = c.engine.as_str().as_bytes();
    if bytes_eq(e, "epoll".as_bytes()) && (c.http2 || c.http3) {
        return Err(config_err("engine=epoll cannot set http2/http3 (I_engine; use atomos-proto)"));
    }
    if bytes_eq(e, "xdp".as_bytes()) || bytes_eq(e, "af-xdp".as_bytes()) {
        return Err(config_err("engine xdp is not linked in this site"));
    }
    Ok(())
}

/// Host facts that override the configuration.
#[derive(Clone, Debug)]
pub struct HostFacts {
    pub workers: Option<u32>,
    pub cpu_pin: Option<bool>,
    pub cache_bytes: Option<usize>,
    pub cache_entries: Option<usize>,
    pub refuse_ports: Option<Vec<u16>>,
}

/// The configuration fields a host overlay may set.
#[derive(Clone, Debug)]
pub struct Tunables {
    pub workers: u32,
    pub cpu_pin: bool,
    pub cache_bytes: usize,
    pub cache_entries: usize,
    pub refuse_ports: Vec<u16>,
}

/// Apply host facts: workers at least 1, cache bytes at least 1024,
/// cache entries at least 1; absent facts leave the field as it was.
pub fn overlay_host(t: &mut Tunables, h: &HostFacts)
    ensures
        final(t).workers == match h.workers {
            Some(w) => if w < 1 { 1 } else { w },
            None => old(t).workers,
        },
        final(t).cpu_pin == match h.cpu_pin {
            Some(p) => p,
            None => old(t).cpu_pin,
        },
        final(t).cache_bytes == match h.cache_bytes {
            Some(b) => if b < 1024 { 1024 } else { b },
            None => old(t).cache_bytes,
        },
        final(t).cache_entries == match h.cache_entries {
            Some(e) => if e < 1 { 1 } else { e },
            None => old(t).cache_entries,
        },
        final(t).refuse_ports@ == match h.refuse_ports {
            Some(p) => p@,
            None => old(t).refuse_ports@,
        },
{
    if let Some(w) = h.workers {
        t.workers = if w < 1 { 1 } else { w };
    }
    if let Some(p) = h.cpu_pin {
        t.cpu_pin = p;
    }
    if let Some(b) = h.cache_bytes {
        t.cache_bytes = if b < 1024 { 1024 } else { b };
    }
    if let Some(e) = h.cache_entries {
        t.cache_entries = if e < 1 { 1 } else { e };
    }
    if let Some(ports) = &h.refuse_ports {
        let c = ports.clone();
        assert(c@ =~= ports@);
        t.refuse_ports = c;
    }
}

/// The first ASCII digit at or after `i` (the length when there is none).
pub open spec fn digit_from(s: Seq<char>, i: int) -> int
    decreases s.len() - i,
{
    if i < 0 || i >= s.len() || is_digit(s[i]) {
        i
    } else {
        digit_from(s, i + 1)
    }
}

/// The first non-digit at or after `i` (the length when there is none).
pub open spec fn run_end(s: Seq<char>, i: int) -> int
    decreases s.len() - i,
{
    if i < 0 || i >= s.len() || !is_digit(s[i]) {
        i
    } else {
        run_end(s, i + 1)
    }
}

/// The first number in a text: its first run of ASCII digits, as a
/// `u32` (none without digits or past `u32::MAX`).
pub open spec fn first_number(s: Seq<char>) -> Option<int> {
    let a = digit_from(s, 0);
    if a >= s.len() {
        None
    } else {
        parse_uint(s.subrange(a, run_end(s, a)), u32::MAX as int)
    }
}

proof fn lemma_digit_from(s: Seq<char>, i: int)
    requires
        0 <= i <= s.len(),
    ensures
        i <= digit_from(s, i) <= s.len(),
    decreases s.len() - i,
{
    if i < s.len() && !is_digit(s[i]) {
        lemma_digit_from(s, i + 1);
    }
}

proof fn lemma_run_end(s: Seq<char>, i: int)
    requires
        0 <= i <= s.len(),
    ensures
        i <= run_end(s, i) <= s.len(),
        forall|k: int| i <= k < run_end(s, i) ==> is_digit(#[trigger] s[k]),
    decreases s.len() - i,
{
    if i < s.len() && is_digit(s[i]) {
        lemma_run_end(s, i + 1);
    }
}

/// The core id a `thread_siblings_list` text starts with.
pub fn first_cpu_id(text: &str) -> (r: Option<u32>)
    ensures
        match first_number(text@) {
            Some(n) => r == Some(n as u32),
            None => r is None,
        },
{
    let c = str_chars(text);
    let mut a: usize = 0;
    while a < c.len() && !(48 <= (c[a] as u32) && (c[a] as u32) <= 57)
        invariant
            a <= c.len(),
            c@ == text@,
            digit_from(c@, 0) == digit_from(c@, a as int),
        decreases c.len() - a,
    {
        a = a + 1;
    }
    if a >= c.len() {
        return None;
    }
    let mut b: usize = a;
    while b < c.len() && 48 <= (c[b] as u32) && (c[b] as u32) <= 57
        invariant
            a <= b <= c.len(),
            c@ == text@,
            run_end(c@, a as int) == run_end(c@, b as int),
        decreases c.len() - b,
    {
        b = b + 1;
    }
    let run = vstd::slice::slice_subrange(c.as_slice(), a, b);
    assert(run@ =~= c@.subrange(a as int, b as int));
    proof {
        if parse_uint(run@, u32::MAX as int) is Some {
            lemma_dec_nonneg(unsigned_digits(run@));
        }
    }
    match parse_u64_chars(run) {
        None => None,
        Some(n) => if n <= 0xFFFF_FFFF {
            Some(n as u32)
        } else {
            None
        },
    }
}

/// The worker count the host supports: its physical cores, capped by the
/// logical CPUs; the logical count when no core was read.
pub fn cpu_count(cores: u32, logical: u32) -> (r: u32)
    ensures
        r == (if cores == 0 { logical } else if cores < logical { cores } else { logical }),
{
    if cores == 0 {
        logical
    } else if cores < logical {
        cores
    } else {
        logical
    }
}

/// Two configurations that differ at most in their TLS settings.
pub open spec fn same_but_tls(a: ConfigCheck, b: ConfigCheck) -> bool {
    &&& a.bind == b.bind
    &&& a.bind_loopback == b.bind_loopback
    &&& a.allow_non_loopback == b.allow_non_loopback
    &&& a.workers == b.workers
    &&& a.max_json_depth == b.max_json_depth
    &&& a.max_body_bytes == b.max_body_bytes
    &&& a.memory_cap_bytes == b.memory_cap_bytes
    &&& a.cpu_fraction_in_range == b.cpu_fraction_in_range
    &&& a.engine == b.engine
    &&& a.http2 == b.http2
    &&& a.http3 == b.http3
}

/// Law: TLS with both a certificate and a key is judged as no TLS at
/// all: two configurations that differ only in TLS, each setting both or
/// neither, pass or fail alike, with the same message.
pub proof fn law_tls_pair_is_accepted(a: ConfigCheck, b: ConfigCheck)
    requires
        same_but_tls(a, b),
        a.tls_cert_set == a.tls_key_set,
        b.tls_cert_set == b.tls_key_set,
    ensures
        config_fault(a) == config_fault(b),
{
}

/// Law: the TLS refusal comes exactly when one of certificate and key
/// is set without the other and the checks before it pass; a
/// configuration whose TLS half is missing fails where the same one
/// without TLS passes.
pub proof fn law_tls_half_refused(a: ConfigCheck, b: ConfigCheck)
    requires
        same_but_tls(a, b),
        a.tls_cert_set != a.tls_key_set,
        !b.tls_cert_set,
        !b.tls_key_set,
    ensures
        config_fault(b) is None ==> config_fault(a) == Some("tls_cert and tls_key must both be set"@),
        config_fault(a) != Some("tls_cert and tls_key must both be set"@) ==> config_fault(a) == config_fault(b),
{
}

/// Law: the TLS refusal names a configuration with exactly one of
/// certificate and key set.
pub proof fn law_tls_refusal_means_half(c: ConfigCheck)
    ensures
        config_fault(c) == Some("tls_cert and tls_key must both be set"@) ==> c.tls_cert_set != c.tls_key_set,
{
    reveal_strlit("tls_cert and tls_key must both be set");
    reveal_strlit("empty bind");
    reveal_strlit("bind is not host:port");
    reveal_strlit("non-loopback bind refused");
    reveal_strlit("workers == 0");
    reveal_strlit("max_json_depth not in 1..=64");
    reveal_strlit("max_body_bytes < 1024");
    reveal_strlit("memory_cap_bytes < 16MiB");
    reveal_strlit("cpu_fraction not in (0,1]");
    reveal_strlit("unknown engine");
    reveal_strlit("engine=epoll cannot set http2/http3 (I_engine; use atomos-proto)");
    reveal_strlit("engine xdp is not linked in this site");
    if c.tls_cert_set == c.tls_key_set && config_fault(c) is Some {
        let f = config_fault(c)->0;
        assert(f[0] != 't');
        assert("tls_cert and tls_key must both be set"@[0] == 't');
    }
}

} // verus!
