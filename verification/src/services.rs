//! What the services of the engine have in common.

use vstd::prelude::*;
use crate::strmap::StrMap;

verus! {

/// A part of the engine that is brought up with a configuration and shut
/// down at the end.
pub trait Service: Sized {
    /// Whether bringing the service up with `config` may turn it into
    /// `next` with the result `r`. A service that says nothing of itself
    /// may do anything.
    open spec fn brought_up(
        &self,
        config: Map<Seq<char>, serde_json::Value>,
        next: Self,
        r: Result<(), String>,
    ) -> bool {
        true
    }

    /// Whether shutting the service down may turn it into `next` with the
    /// result `r`. A service that says nothing of itself may do anything.
    open spec fn shut_down(&self, next: Self, r: Result<(), String>) -> bool {
        true
    }

    /// The name of the service.
    fn name(&self) -> &'static str;

    /// Brings the service up.
    fn initialize(&mut self, config: &StrMap<serde_json::Value>) -> (r: Result<(), String>)
        requires
            config.wf(),
        ensures
            old(self).brought_up(config@, *final(self), r),
    ;

    /// Shuts the service down.
    fn shutdown(&mut self) -> (r: Result<(), String>)
        ensures
            old(self).shut_down(*final(self), r),
    ;
}

} // verus!
