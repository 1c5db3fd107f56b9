//! The rule engine for faked dependencies: what a call looks like, which rule answers it, and
//! what the journal records of it.

pub mod counter;
pub mod env;
pub mod invocation;
pub mod journal;
pub mod respond;
pub mod rule;
pub mod serve;
