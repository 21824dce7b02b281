//! Deterministic fault injection for systems that trade: what a scenario is
//! made of, how its faults are armed and disarmed on time, and what each fault
//! does to the traffic, the memory or the clock of its target.
pub mod cli;
pub mod fix;
pub mod harness;
pub mod kernel;
pub mod replay;
pub mod text;
