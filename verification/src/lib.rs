//! Scheduling core of a workflow scheduler: rendezvous hashing of work between
//! cluster members, trigger time planning, token and retry decisions, and the
//! parsers for the job definition language (task references and durations).

pub mod api;
pub mod api_types;
pub mod auth;
pub mod circuit_breaker;
pub mod counter;
pub mod durations;
pub mod execute;
pub mod jwt;
pub mod logs;
pub mod messages;
pub mod overview;
pub mod progress;
pub mod queue;
pub mod reference;
pub mod requests;
pub mod retries;
pub mod rendezvous;
pub mod schedule;
pub mod status;
pub mod tokens;
pub mod scheduler;
