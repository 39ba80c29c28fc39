//! SPARK: verified core of a component runtime (plugin logic, agent loop decisions,
//! capability storage backend).

use vstd::prelude::*;

pub mod agent;
pub mod agent_loop;
pub mod decimal;
pub mod deepseek;
pub mod idcard;
pub mod json;
pub mod kv;
pub mod luhn;
pub mod pipeline;
pub mod plugin;
pub mod rmb;
pub mod samples;
pub mod store;
pub mod text;

verus! {

/// The contract version; it must agree with the `spark:core` package version.
pub fn contract_version() -> (v: &'static str)
    ensures
        v@ == "0.1.0"@,
{
    "0.1.0"
}

} // verus!
