//! Application state and per-request context.
use vstd::prelude::*;

verus! {

/// The state of an application, shared by every request. It makes the
/// context that each request carries for its own data.
pub trait State: Send + Sync + 'static {
    /// The type of the per-request context.
    type Context: Send + Sync + 'static;

    /// A fresh context for one request.
    fn new_context(&self) -> Self::Context;
}

/// No state, and an empty context.
impl State for () {
    type Context = ();

    fn new_context(&self) -> Self::Context {
    }
}

} // verus!
