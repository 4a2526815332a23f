//! Listener socket options.
use vstd::prelude::*;
use crate::error::ServeError;
use crate::num::{dec_chars, push_chars, push_dec_chars};
use crate::text::{chars_string, str_chars};

verus! {

/// Options of a listening socket.
#[derive(Clone, Copy, Debug)]
pub struct ListenOpt {
    pub nodelay: bool,
    pub reuseport: bool,
    pub fastopen: bool,
    pub backlog: i32,
}

/// How many listeners a server binds: a port in `refuse_ports` is
/// refused; with `SO_REUSEPORT` each worker (at least one) gets its own
/// listener, else there is one.
pub open spec fn listen_plan_spec(port: u16, refuse_ports: Seq<u16>, reuseport: bool, workers: u32) -> Result<u32, Seq<char>> {
    if refuse_ports.contains(port) {
        Err("bind port "@ + dec_chars(port as nat) + " is in refuse_ports"@)
    } else if reuseport {
        Ok(if workers < 1 { 1 } else { workers })
    } else {
        Ok(1)
    }
}

pub fn listen_plan(port: u16, refuse_ports: &Vec<u16>, reuseport: bool, workers: u32) -> (r: Result<u32, ServeError>)
    ensures
        match listen_plan_spec(port, refuse_ports@, reuseport, workers) {
            Ok(n) => r == Ok::<u32, ServeError>(n),
            Err(m) => r matches Err(ServeError::Config(t)) && t@ == m,
        },
{
    let mut i: usize = 0;
    while i < refuse_ports.len()
        invariant
            i <= refuse_ports@.len(),
            forall|k: int| 0 <= k < i ==> refuse_ports@[k] != port,
        decreases refuse_ports@.len() - i,
    {
        if refuse_ports[i] == port {
            assert(refuse_ports@.contains(port));
            let mut v: Vec<char> = Vec::new();
            push_chars(&mut v, str_chars("bind port ").as_slice());
            push_dec_chars(&mut v, port as u64);
            push_chars(&mut v, str_chars(" is in refuse_ports").as_slice());
            return Err(ServeError::Config(chars_string(v.as_slice())));
        }
        i = i + 1;
    }
    assert(!refuse_ports@.contains(port));
    if reuseport {
        Ok(if workers < 1 { 1 } else { workers })
    } else {
        Ok(1)
    }
}

} // verus!
