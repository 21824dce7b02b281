pub mod builder;
pub mod config;
pub mod laws;
pub mod summary;

pub use builder::{build_injector, build_scenario_and_injectors, BuiltInjector};
pub use config::{Config, InjectorConfig, PressureModeConfig};
pub use summary::trace_summary;
