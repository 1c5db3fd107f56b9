//! A test engine where one case is one YAML file: the rule engine that fakes a subject's
//! dependencies, the selection of the cases a run takes, and the reports it writes.

pub mod order;
pub mod strmap;
pub mod text;
pub mod ext;
pub mod fake;
pub mod outcome;
pub mod config;
pub mod report;
pub mod observations;
pub mod iso;
pub mod adapters;
pub mod value;
pub mod case;
pub mod discovery;
pub mod locate;
pub mod conformance;
pub mod runner;
pub mod hooks;
