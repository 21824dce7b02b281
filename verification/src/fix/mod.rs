pub mod adapter;
pub mod adapter_laws;
pub mod fault_laws;
pub mod fields;
pub mod framing;
pub mod framing_laws;
pub mod injector;
pub mod laws;
pub mod message;
pub mod proxy;
pub mod relay;
pub mod relay_laws;
pub mod session_laws;
pub mod set_field_laws;

pub use adapter::{
    FixAckWithoutExecution, FixExecutionReportPriceMutation, FixRateLimitThrottle, FixSilentReject,
};
pub use fields::SOH;
pub use framing::find_complete_message;
pub use injector::{FixFaultInjector, Judge};
pub use message::{compute_checksum, format_checksum, parse, set_field, FixMessage, ParseError};
pub use proxy::FixProxy;
