pub mod adapter;
pub mod clock;
pub mod error;
pub mod fault;
pub mod scenario;

pub use adapter::{ActionView, Direction, InterceptAction, ProtocolAdapter, RawMessage, Seen};
pub use clock::{Clock, SystemClock, VirtualClock};
pub use error::{ErrorView, HarnessError};
pub use fault::{Call, FaultContext, FaultInjector};
pub use scenario::{Scenario, ScenarioStep, StepAction, StepView};
