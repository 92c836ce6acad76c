//! The polymorphic, possibly-effectful context transformer executed as part
//! of a step's pipeline.

use vstd::prelude::*;

use crate::value::{NodeContext, ValueView};

verus! {

/// An opaque failure raised by an action, aborting the remainder of its
/// pipeline.
#[derive(Debug)]
pub struct ActionError {
    pub message: String,
}

impl View for ActionError {
    type V = Seq<char>;

    open spec fn view(&self) -> Seq<char> {
        self.message@
    }
}

impl Clone for ActionError {
    /// A copy equal to the original.
    fn clone(&self) -> (r: ActionError)
        ensures
            r == *self,
    {
        ActionError { message: self.message.clone() }
    }
}

/// A transformer from one execution context to the next. An action may
/// perform external effects and may fail; `post` names the relation between
/// the context it was given and the outcome it produced, and is all that is
/// promised of an implementation chosen by the host.
pub trait Action: Sized {
    /// The relation every outcome of `execute` satisfies: `post(pre, r)`
    /// holds of the context the action consumed and the result it returned.
    spec fn post(
        &self,
        pre: Map<Seq<char>, ValueView>,
        r: Result<Map<Seq<char>, ValueView>, Seq<char>>,
    ) -> bool;

    /// Runs the action: consumes the current context and produces the next
    /// one, or fails with an error that aborts the pipeline.
    fn execute(&self, context: &NodeContext) -> (r: Result<NodeContext, ActionError>)
        requires
            context.wf(),
        ensures
            match r {
                Ok(c) => c.wf() && self.post(context@, Ok(c@)),
                Err(e) => self.post(context@, Err(e@)),
            },
    ;
}

} // verus!
