//! A guarded transition between two steps: identity, endpoints, and an
//! ordered list of conditions combined by logical AND.

use vstd::prelude::*;

use crate::condition::Condition;
use crate::value::{NodeContext, ValueView};

verus! {

broadcast use vstd::std_specs::vec::group_vec_axioms, vstd::seq::group_seq_axioms,
    vstd::map::group_map_axioms, vstd::set::group_set_axioms;

/// A directed, guarded link between two steps. The guard is the conjunction
/// of the conditions, evaluated in order with a short circuit on the first
/// failure; an empty list passes vacuously.
#[derive(Debug)]
pub struct Edge<C: Condition> {
    pub id: String,
    pub source_node_id: String,
    pub target_node_id: String,
    pub conditions: Vec<C>,
}

/// Spec-level shape of an [`Edge`].
#[verifier::ext_equal]
pub struct EdgeView<C: Condition> {
    pub id: Seq<char>,
    pub source_node_id: Seq<char>,
    pub target_node_id: Seq<char>,
    pub conditions: Seq<C>,
}

impl<C: Condition> EdgeView<C> {
    /// What the edge's whole guard holds of a context: every condition
    /// holds of it.
    pub open spec fn passes(self, context: Map<Seq<char>, ValueView>) -> bool {
        forall|i: int|
            0 <= i < self.conditions.len() ==> #[trigger] self.conditions[i].spec_eval(context)
    }
}

impl<C: Condition> View for Edge<C> {
    type V = EdgeView<C>;

    open spec fn view(&self) -> EdgeView<C> {
        EdgeView {
            id: self.id@,
            source_node_id: self.source_node_id@,
            target_node_id: self.target_node_id@,
            conditions: self.conditions@,
        }
    }
}

impl<C: Condition> Edge<C> {
    /// An unguarded edge between the two steps.
    pub fn new(id: String, source_node_id: String, target_node_id: String) -> (r: Edge<C>)
        ensures
            r@ == (EdgeView {
                id: id@,
                source_node_id: source_node_id@,
                target_node_id: target_node_id@,
                conditions: Seq::<C>::empty(),
            }),
    {
        let r = Edge { id, source_node_id, target_node_id, conditions: Vec::new() };
        proof {
            assert(r@.conditions =~= Seq::<C>::empty());
        }
        r
    }

    /// A builder for an edge between the two steps.
    pub fn builder(id: String, source_node_id: String, target_node_id: String) -> (r: EdgeBuilder<
        C,
    >)
        ensures
            r@ == (EdgeView {
                id: id@,
                source_node_id: source_node_id@,
                target_node_id: target_node_id@,
                conditions: Seq::<C>::empty(),
            }),
    {
        EdgeBuilder::new(id, source_node_id, target_node_id)
    }

    /// Appends one condition to the guard list.
    pub fn add_condition(&mut self, condition: C)
        ensures
            final(self)@ == (EdgeView {
                conditions: old(self)@.conditions.push(condition),
                ..old(self)@
            }),
    {
        self.conditions.push(condition);
    }

    /// How many conditions guard the edge.
    pub fn condition_count(&self) -> (r: usize)
        ensures
            r == self@.conditions.len(),
    {
        self.conditions.len()
    }

    /// Decides the whole guard on a live context: every condition in order,
    /// stopping at the first that fails.
    #[verifier::loop_isolation(false)]
    pub fn evaluate(&self, context: &NodeContext) -> (r: bool)
        requires
            context.wf(),
        ensures
            r == self@.passes(context@),
    {
        let mut i: usize = 0;
        while i < self.conditions.len()
            invariant
                i <= self.conditions.len(),
                forall|j: int| 0 <= j < i ==> #[trigger] self.conditions@[j].spec_eval(context@),
            decreases self.conditions.len() - i,
        {
            if !self.conditions[i].evaluate(context) {
                proof {
                    assert(0 <= i < self@.conditions.len() && !self@.conditions[i as int].spec_eval(
                        context@,
                    ));
                }
                return false;
            }
            i += 1;
        }
        true
    }
}

/// The guard of an edge is the conjunction of its conditions: it passes a
/// context exactly when each condition passes it, and an edge with no
/// conditions passes every context.
pub proof fn lemma_edge_guard_conjunction<C: Condition>(
    edge: EdgeView<C>,
    context: Map<Seq<char>, ValueView>,
)
    ensures
        edge.passes(context) <==> (forall|i: int|
            0 <= i < edge.conditions.len() ==> #[trigger] edge.conditions[i].spec_eval(context)),
        edge.conditions.len() == 0 ==> edge.passes(context),
        (exists|i: int|
            0 <= i < edge.conditions.len() && !(#[trigger] edge.conditions[i].spec_eval(context)))
            ==> !edge.passes(context),
{
}

/// Assembles an [`Edge`] from its parts.
#[derive(Debug)]
pub struct EdgeBuilder<C: Condition> {
    id: String,
    source_node_id: String,
    target_node_id: String,
    conditions: Vec<C>,
}

impl<C: Condition> View for EdgeBuilder<C> {
    type V = EdgeView<C>;

    closed spec fn view(&self) -> EdgeView<C> {
        EdgeView {
            id: self.id@,
            source_node_id: self.source_node_id@,
            target_node_id: self.target_node_id@,
            conditions: self.conditions@,
        }
    }
}

impl<C: Condition> EdgeBuilder<C> {
    /// Starts a builder with the endpoints and no conditions.
    pub fn new(id: String, source_node_id: String, target_node_id: String) -> (r: EdgeBuilder<C>)
        ensures
            r@ == (EdgeView {
                id: id@,
                source_node_id: source_node_id@,
                target_node_id: target_node_id@,
                conditions: Seq::<C>::empty(),
            }),
    {
        let r = EdgeBuilder { id, source_node_id, target_node_id, conditions: Vec::new() };
        proof {
            assert(r@.conditions =~= Seq::<C>::empty());
        }
        r
    }

    /// Adds one condition to the future guard list.
    pub fn with_condition(self, condition: C) -> (r: EdgeBuilder<C>)
        ensures
            r@ == (EdgeView { conditions: self@.conditions.push(condition), ..self@ }),
    {
        let mut s = self;
        s.conditions.push(condition);
        s
    }

    /// Finishes the edge.
    pub fn build(self) -> (r: Edge<C>)
        ensures
            r@ == self@,
    {
        Edge {
            id: self.id,
            source_node_id: self.source_node_id,
            target_node_id: self.target_node_id,
            conditions: self.conditions,
        }
    }
}

} // verus!
