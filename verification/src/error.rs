use vstd::prelude::*;

verus! {

/// Why serving a request or loading a configuration failed.
#[derive(Debug)]
pub enum ServeError {
    Parse,
    JsonInvalid,
    JsonDepth,
    BodyTooLarge,
    Capacity,
    NoRule,
    Timeout,
    Config(String),
    Module(String),
}

} // verus!
