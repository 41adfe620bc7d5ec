//! Verified core of a bridge that lets a cooperatively-scheduled task run a
//! blocking closure on a dedicated OS thread and resume with its result.
//!
//! The thread spawning, parking and unparking themselves are outside work;
//! what this crate verifies is the protocol around them: the outcome handoff
//! from the worker to the suspended caller ([`bridge`]), and the job
//! lifecycle of the fixed-size worker pool ([`pool`]).

pub mod bridge;
pub mod pool;
