//! The polymorphic predicate that guards a transition.

use vstd::prelude::*;

use crate::value::{NodeContext, ValueView};

verus! {

/// A side-effect-free predicate over the execution context, used to guard a
/// transition. Evaluation is total: it must not fail, and on a fixed context
/// it always returns the same answer, which `spec_eval` names.
pub trait Condition: Sized {
    /// What the condition holds of a context.
    spec fn spec_eval(&self, context: Map<Seq<char>, ValueView>) -> bool;

    /// Decides the condition on a live context.
    fn evaluate(&self, context: &NodeContext) -> (r: bool)
        requires
            context.wf(),
        ensures
            r == self.spec_eval(context@),
    ;
}

} // verus!
