//! A cluster-agnostic job-launch library: job templates plus declared
//! variables are expanded into concrete jobs (variable substitution,
//! per-cluster resolution, cartesian enumeration, embedded expression
//! evaluation), and one concrete job is turned into an executable script
//! whose lifecycle is tracked by a structured, line-delimited log.

pub mod appcfg;
pub mod cart;
pub mod chars;
pub mod dispatch;
pub mod errors;
pub mod graph;
pub mod jobgen;
pub mod jobs;
pub mod numfmt;
pub mod pyexpr;
pub mod refs;
pub mod script;
pub mod status;
pub mod subst;
pub mod timefmt;
pub mod vars;
