//! What can go wrong in a fault run.
use vstd::prelude::*;

verus! {

/// An error of the harness. The first text of the first three is the id of the
/// injector, or the name of the adapter; the last is the reason. `Io` holds
/// what the operating system said.
#[derive(Debug)]
pub enum HarnessError {
    ArmFailed(String, String),
    DisarmFailed(String, String),
    AdapterRejected(String, String),
    InvalidScenario(String),
    Io(String),
}

/// A `HarnessError` with its texts as sequences.
pub enum ErrorView {
    ArmFailed(Seq<char>, Seq<char>),
    DisarmFailed(Seq<char>, Seq<char>),
    AdapterRejected(Seq<char>, Seq<char>),
    InvalidScenario(Seq<char>),
    Io(Seq<char>),
}

impl View for HarnessError {
    type V = ErrorView;

    open spec fn view(&self) -> ErrorView {
        match *self {
            HarnessError::ArmFailed(id, reason) => ErrorView::ArmFailed(id@, reason@),
            HarnessError::DisarmFailed(id, reason) => ErrorView::DisarmFailed(id@, reason@),
            HarnessError::AdapterRejected(name, reason) => ErrorView::AdapterRejected(
                name@,
                reason@,
            ),
            HarnessError::InvalidScenario(reason) => ErrorView::InvalidScenario(reason@),
            HarnessError::Io(reason) => ErrorView::Io(reason@),
        }
    }
}

/// The error of a result, where it is one.
pub open spec fn failure_of(r: Result<(), HarnessError>) -> Option<ErrorView> {
    match r {
        Ok(_) => None,
        Err(e) => Some(e@),
    }
}

/// The text in which an error is shown.
pub open spec fn error_text(error: ErrorView) -> Seq<char> {
    match error {
        ErrorView::ArmFailed(id, reason) => "fault injector "@ + id + " failed to arm: "@ + reason,
        ErrorView::DisarmFailed(id, reason) => "fault injector "@ + id + " failed to disarm: "@
            + reason,
        ErrorView::AdapterRejected(name, reason) => "adapter "@ + name + " rejected message: "@
            + reason,
        ErrorView::InvalidScenario(reason) => "scenario config invalid: "@ + reason,
        ErrorView::Io(reason) => "io error: "@ + reason,
    }
}

impl HarnessError {
    /// The error as a line of text.
    pub fn message(&self) -> (r: String)
        ensures
            r@ == error_text(self@),
    {
        match self {
            HarnessError::ArmFailed(id, reason) => {
                let mut out = "fault injector ".to_owned();
                out.append(id.as_str());
                out.append(" failed to arm: ");
                out.append(reason.as_str());
                out
            },
            HarnessError::DisarmFailed(id, reason) => {
                let mut out = "fault injector ".to_owned();
                out.append(id.as_str());
                out.append(" failed to disarm: ");
                out.append(reason.as_str());
                out
            },
            HarnessError::AdapterRejected(name, reason) => {
                let mut out = "adapter ".to_owned();
                out.append(name.as_str());
                out.append(" rejected message: ");
                out.append(reason.as_str());
                out
            },
            HarnessError::InvalidScenario(reason) => {
                let mut out = "scenario config invalid: ".to_owned();
                out.append(reason.as_str());
                out
            },
            HarnessError::Io(reason) => {
                let mut out = "io error: ".to_owned();
                out.append(reason.as_str());
                out
            },
        }
    }
}

/// An error is shown with everything it holds: the injector or the adapter, and
/// the reason.
pub proof fn law_error_shows_everything(id: String, reason: String)
    ensures
        error_text(HarnessError::ArmFailed(id, reason)@) == "fault injector "@ + id@
            + " failed to arm: "@ + reason@,
        error_text(HarnessError::DisarmFailed(id, reason)@) == "fault injector "@ + id@
            + " failed to disarm: "@ + reason@,
        error_text(HarnessError::AdapterRejected(id, reason)@) == "adapter "@ + id@
            + " rejected message: "@ + reason@,
        error_text(HarnessError::InvalidScenario(reason)@) == "scenario config invalid: "@
            + reason@,
        error_text(HarnessError::Io(reason)@) == "io error: "@ + reason@,
{
}

} // verus!
