pub mod realtime;
pub mod registry;
pub mod rng;
pub mod rng_laws;
pub mod run_laws;
pub mod runner;
pub mod runner_laws;
pub mod schedule;
pub mod scheduler;
pub mod trace;

pub use realtime::RealtimeRun;
pub use registry::InjectorRegistry;
pub use rng::DeterministicRng;
pub use runner::Runner;
pub use schedule::ValidatedSchedule;
pub use scheduler::Scheduler;
pub use trace::{EventView, Trace, TraceEvent, TraceView};
