//! A small crash-report collector core: it normalizes loosely-typed event
//! payloads into canonical log records, keeps an in-memory directory of
//! known projects, and serves cursor-paginated pages of stored records.

pub mod errors;
pub mod event;
pub mod jsonio;
pub mod json;
pub mod pipeline;
pub mod project;
pub mod store;
pub mod templates;
pub mod views;
pub mod tstamp;
pub mod text;

use vstd::prelude::*;
use vstd::string::StringExecFns;

verus! {

/// Default severity for an event that does not carry a `level` field.
pub fn default_log_level() -> (r: String)
    ensures
        r@ == "error"@,
{
    proof {
        reveal_strlit("error");
    }
    String::from_str("error")
}

} // verus!
