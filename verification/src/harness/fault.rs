//! A single fault that can be switched on and off.
use std::sync::Arc;

use vstd::prelude::*;

use crate::harness::clock::Clock;
use crate::harness::error;
use crate::harness::error::{ErrorView, HarnessError};

verus! {

/// What a fault injector is armed with: the clock and the seed of the run.
pub struct FaultContext {
    pub clock: Arc<dyn Clock>,
    pub seed: u64,
}

impl FaultContext {
    /// Whether the clock of the run may read so.
    pub open spec fn may_read(self, ns: u64) -> bool {
        self.clock.may_read(ns)
    }
}

/// A call that is made to an injector.
pub enum Call {
    Arm(FaultContext),
    Disarm,
}

/// A single fault: packet loss, clock skew, memory pressure, a mangled message.
/// Whoever implements it answers for these contracts: a call that reports
/// success has taken effect, and `is_armed` tells the state.
pub trait FaultInjector: Send + Sync {
    /// Whether the fault is active.
    spec fn armed(&self) -> bool;

    /// Whether this call, after those before it, may leave the injector armed or
    /// not and come to this: `None` for success, otherwise the error. Where
    /// nothing is said of it, anything may come of a call.
    open spec fn may_after(
        &self,
        calls: Seq<Call>,
        call: Call,
        armed: bool,
        failure: Option<ErrorView>,
    ) -> bool {
        true
    }

    fn id(&self) -> &str;

    /// Activates the fault. Arming an armed injector changes nothing and is no
    /// error.
    fn arm(&mut self, ctx: &FaultContext) -> (r: Result<(), HarnessError>)
        ensures
            r is Ok ==> final(self).armed(),
            old(self).may_after(
                Seq::empty(),
                Call::Arm(*ctx),
                final(self).armed(),
                error::failure_of(r),
            ),
            forall|calls: Seq<Call>, call: Call, armed: bool, failure: Option<ErrorView>| #[trigger]
                final(self).may_after(calls, call, armed, failure) == old(self).may_after(
                    seq![Call::Arm(*ctx)] + calls,
                    call,
                    armed,
                    failure,
                ),
    ;

    /// Reverts to the steady state. Called at the end of a run and again when
    /// the run is given up, so it is safe to call twice.
    fn disarm(&mut self) -> (r: Result<(), HarnessError>)
        ensures
            r is Ok ==> !final(self).armed(),
            old(self).may_after(
                Seq::empty(),
                Call::Disarm,
                final(self).armed(),
                error::failure_of(r),
            ),
            forall|calls: Seq<Call>, call: Call, armed: bool, failure: Option<ErrorView>| #[trigger]
                final(self).may_after(calls, call, armed, failure) == old(self).may_after(
                    seq![Call::Disarm] + calls,
                    call,
                    armed,
                    failure,
                ),
    ;

    fn is_armed(&self) -> (r: bool)
        ensures
            r == self.armed(),
    ;
}

} // verus!
