//! Name-to-constructor tables: the registries that data-driven graph
//! loading consults to build live actions and conditions.

use vstd::prelude::*;

use crate::strmap::StrMap;

verus! {

/// A table from action type names to constructor functions. Registration
/// rejects nothing: registering a name again silently overwrites, so the
/// last registration wins.
#[derive(Debug)]
pub struct ActionRegistry<F> {
    actions: StrMap<F>,
}

impl<F> View for ActionRegistry<F> {
    type V = Map<Seq<char>, F>;

    closed spec fn view(&self) -> Map<Seq<char>, F> {
        self.actions@
    }
}

impl<F> ActionRegistry<F> {
    /// Internal shape: the table holds each type name once.
    pub closed spec fn wf(&self) -> bool {
        self.actions.wf()
    }

    /// An empty registry.
    pub fn new() -> (r: ActionRegistry<F>)
        ensures
            r.wf(),
            r@ == Map::<Seq<char>, F>::empty(),
    {
        ActionRegistry { actions: StrMap::new() }
    }

    /// Registers a constructor under a type name, overwriting any earlier
    /// registration of the same name.
    pub fn register_action(&mut self, action_type: &str, action_constructor: F)
        requires
            old(self).wf(),
        ensures
            final(self).wf(),
            final(self)@ == old(self)@.insert(action_type@, action_constructor),
    {
        self.actions.insert(action_type.to_owned(), action_constructor);
    }

    /// The whole table.
    pub fn get_actions(&self) -> (r: &StrMap<F>)
        ensures
            r@ == self@,
            r.wf() == self.wf(),
    {
        &self.actions
    }
}

/// A table from condition type names to constructor functions, with the
/// same last-registration-wins discipline as [`ActionRegistry`].
#[derive(Debug)]
pub struct ConditionRegistry<F> {
    conditions: StrMap<F>,
}

impl<F> View for ConditionRegistry<F> {
    type V = Map<Seq<char>, F>;

    closed spec fn view(&self) -> Map<Seq<char>, F> {
        self.conditions@
    }
}

impl<F> ConditionRegistry<F> {
    /// Internal shape: the table holds each type name once.
    pub closed spec fn wf(&self) -> bool {
        self.conditions.wf()
    }

    /// An empty registry.
    pub fn new() -> (r: ConditionRegistry<F>)
        ensures
            r.wf(),
            r@ == Map::<Seq<char>, F>::empty(),
    {
        ConditionRegistry { conditions: StrMap::new() }
    }

    /// Registers a constructor under a type name, overwriting any earlier
    /// registration of the same name.
    pub fn register_condition(&mut self, condition_type: &str, condition_constructor: F)
        requires
            old(self).wf(),
        ensures
            final(self).wf(),
            final(self)@ == old(self)@.insert(condition_type@, condition_constructor),
    {
        self.conditions.insert(condition_type.to_owned(), condition_constructor);
    }

    /// The whole table.
    pub fn get_conditions(&self) -> (r: &StrMap<F>)
        ensures
            r@ == self@,
            r.wf() == self.wf(),
    {
        &self.conditions
    }
}

} // verus!
