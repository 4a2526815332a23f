//! Default values of the configuration fields.
use vstd::prelude::*;
use crate::config::MemoryMode;

verus! {

pub fn default_bind() -> (r: String)
    ensures
        r@ == "127.0.0.1:8090"@,
{
    "127.0.0.1:8090".to_string()
}

pub fn default_backlog() -> (r: i32)
    ensures
        r == 1024,
{
    1024
}

pub fn default_true() -> (r: bool)
    ensures
        r,
{
    true
}

pub fn default_false() -> (r: bool)
    ensures
        !r,
{
    false
}

pub fn default_shutdown_ms() -> (r: u64)
    ensures
        r == 2000,
{
    2000
}

pub fn default_wasm_fuel() -> (r: u64)
    ensures
        r == 10_000_000,
{
    10_000_000
}

pub fn default_wasm_memory() -> (r: usize)
    ensures
        r == 16 * 1024 * 1024,
{
    16 * 1024 * 1024
}

pub fn default_ticket_secs() -> (r: u64)
    ensures
        r == 86400,
{
    86400
}

pub fn default_keepalive() -> (r: u64)
    ensures
        r == 75,
{
    75
}

pub fn default_header_bytes() -> (r: usize)
    ensures
        r == 16384,
{
    16384
}

pub fn default_body_bytes() -> (r: usize)
    ensures
        r == 262144,
{
    262144
}

pub fn default_json_depth() -> (r: u32)
    ensures
        r == 32,
{
    32
}

pub fn default_timeout() -> (r: u64)
    ensures
        r == 45_000,
{
    45_000
}

pub fn default_header_timeout() -> (r: u64)
    ensures
        r == 10_000,
{
    10_000
}

pub fn default_body_timeout() -> (r: u64)
    ensures
        r == 30_000,
{
    30_000
}

pub fn default_idle_timeout() -> (r: u64)
    ensures
        r == 75_000,
{
    75_000
}

pub fn default_module_timeout() -> (r: u64)
    ensures
        r == 5_000,
{
    5_000
}

pub fn default_mem() -> (r: u64)
    ensures
        r == 6_000_000_000,
{
    6_000_000_000
}

pub fn default_mem_mode() -> (r: MemoryMode)
    ensures
        r == MemoryMode::Hard,
{
    MemoryMode::Hard
}

pub fn default_cache_entries() -> (r: usize)
    ensures
        r == 4096,
{
    4096
}

pub fn default_cache_bytes() -> (r: usize)
    ensures
        r == 16 * 1024 * 1024,
{
    16 * 1024 * 1024
}

/// The default rules file path.
pub fn default_rules() -> (r: String)
    ensures
        r@ == "rules.json"@,
{
    "rules.json".to_string()
}

/// The default static root path.
pub fn default_static() -> (r: String)
    ensures
        r@ == "static"@,
{
    "static".to_string()
}

/// The default error page path.
pub fn default_error_page() -> (r: String)
    ensures
        r@ == "static/error.html"@,
{
    "static/error.html".to_string()
}

pub fn default_engine() -> (r: String)
    ensures
        r@ == "epoll"@,
{
    "epoll".to_string()
}

/// The control socket's file name under the runtime directory.
pub fn default_sock_name() -> (r: String)
    ensures
        r@ == "atomos.sock"@,
{
    "atomos.sock".to_string()
}

} // verus!
