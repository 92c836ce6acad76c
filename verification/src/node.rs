//! A step of the graph: identity, a pipeline of actions, and a private
//! execution context.

use vstd::prelude::*;

use crate::action::{Action, ActionError};
use crate::value::{NodeContext, FlowValue, ValueView};

verus! {

broadcast use vstd::std_specs::vec::group_vec_axioms, vstd::seq::group_seq_axioms,
    vstd::map::group_map_axioms, vstd::set::group_set_axioms;

/// The pipeline, run left to right from `pre`, succeeds and ends at `post`:
/// each action turns the context it is given into the next one.
pub open spec fn pipeline_runs_to<A: Action>(
    actions: Seq<A>,
    pre: Map<Seq<char>, ValueView>,
    post: Map<Seq<char>, ValueView>,
) -> bool
    decreases actions.len(),
{
    if actions.len() == 0 {
        post == pre
    } else {
        exists|mid: Map<Seq<char>, ValueView>|
            #[trigger] actions[0].post(pre, Ok(mid)) && pipeline_runs_to(
                actions.drop_first(),
                mid,
                post,
            )
    }
}

/// The pipeline, run left to right from `pre`, fails with `err` after some
/// prefix of successes, leaving `stopped` as the last context produced.
pub open spec fn pipeline_fails_from<A: Action>(
    actions: Seq<A>,
    pre: Map<Seq<char>, ValueView>,
    stopped: Map<Seq<char>, ValueView>,
    err: Seq<char>,
) -> bool
    decreases actions.len(),
{
    if actions.len() == 0 {
        false
    } else {
        (actions[0].post(pre, Err(err)) && stopped == pre) || (exists|
            mid: Map<Seq<char>, ValueView>,
        |
            #[trigger] actions[0].post(pre, Ok(mid)) && pipeline_fails_from(
                actions.drop_first(),
                mid,
                stopped,
                err,
            ))
    }
}

/// Extending a successful run by one more successful action.
proof fn lemma_runs_to_snoc<A: Action>(
    actions: Seq<A>,
    i: int,
    pre: Map<Seq<char>, ValueView>,
    mid: Map<Seq<char>, ValueView>,
    post: Map<Seq<char>, ValueView>,
)
    requires
        0 <= i < actions.len(),
        pipeline_runs_to(actions.take(i), pre, mid),
        actions[i].post(mid, Ok(post)),
    ensures
        pipeline_runs_to(actions.take(i + 1), pre, post),
    decreases i,
{
    if i == 0 {
        assert(actions.take(1)[0] == actions[0]);
        assert(actions.take(1).drop_first() =~= Seq::<A>::empty());
        assert(pipeline_runs_to(actions.take(1).drop_first(), post, post));
    } else {
        let first = actions[0];
        let m0 = choose|m0: Map<Seq<char>, ValueView>|
            #[trigger] actions.take(i)[0].post(pre, Ok(m0)) && pipeline_runs_to(
                actions.take(i).drop_first(),
                m0,
                mid,
            );
        assert(actions.take(i)[0] == first);
        assert(actions.take(i).drop_first() =~= actions.drop_first().take(i - 1));
        assert(actions.drop_first()[i - 1] == actions[i]);
        lemma_runs_to_snoc(actions.drop_first(), i - 1, m0, mid, post);
        assert(actions.drop_first().take(i) =~= actions.take(i + 1).drop_first());
        assert(actions.take(i + 1)[0] == first);
    }
}

/// A successful prefix followed by one failing action fails the whole
/// pipeline, stopping at the prefix's result.
proof fn lemma_fails_at<A: Action>(
    actions: Seq<A>,
    i: int,
    pre: Map<Seq<char>, ValueView>,
    mid: Map<Seq<char>, ValueView>,
    err: Seq<char>,
)
    requires
        0 <= i < actions.len(),
        pipeline_runs_to(actions.take(i), pre, mid),
        actions[i].post(mid, Err(err)),
    ensures
        pipeline_fails_from(actions, pre, mid, err),
    decreases i,
{
    if i == 0 {
        assert(actions[0].post(pre, Err(err)) && mid == pre);
    } else {
        let first = actions[0];
        let m0 = choose|m0: Map<Seq<char>, ValueView>|
            #[trigger] actions.take(i)[0].post(pre, Ok(m0)) && pipeline_runs_to(
                actions.take(i).drop_first(),
                m0,
                mid,
            );
        assert(actions.take(i)[0] == first);
        assert(actions.take(i).drop_first() =~= actions.drop_first().take(i - 1));
        assert(actions.drop_first()[i - 1] == actions[i]);
        lemma_fails_at(actions.drop_first(), i - 1, m0, mid, err);
        assert(first.post(pre, Ok(m0)));
    }
}

/// A step in the conversation flow: identity, a free-form classification
/// tag, display strings, a pipeline of actions executed in list order, and
/// a private context threaded through the pipeline.
#[derive(Debug)]
pub struct Node<A: Action> {
    pub id: String,
    pub node_type: String,
    pub name: String,
    pub description: String,
    pub node_context: NodeContext,
    pub actions: Vec<A>,
}

/// Spec-level shape of a [`Node`].
#[verifier::ext_equal]
pub struct NodeView<A: Action> {
    pub id: Seq<char>,
    pub node_type: Seq<char>,
    pub name: Seq<char>,
    pub description: Seq<char>,
    pub context: Map<Seq<char>, ValueView>,
    pub actions: Seq<A>,
}

impl<A: Action> View for Node<A> {
    type V = NodeView<A>;

    open spec fn view(&self) -> NodeView<A> {
        NodeView {
            id: self.id@,
            node_type: self.node_type@,
            name: self.name@,
            description: self.description@,
            context: self.node_context@,
            actions: self.actions@,
        }
    }
}

impl<A: Action> Node<A> {
    /// Internal shape: the step's context holds each name once.
    pub open spec fn wf(&self) -> bool {
        self.node_context.wf()
    }

    /// A step with an empty pipeline and an empty context.
    pub fn new(id: String, node_type: String, name: String, description: String) -> (r: Node<A>)
        ensures
            r.wf(),
            r@ == (NodeView {
                id: id@,
                node_type: node_type@,
                name: name@,
                description: description@,
                context: Map::<Seq<char>, ValueView>::empty(),
                actions: Seq::<A>::empty(),
            }),
    {
        let r = Node {
            id,
            node_type,
            name,
            description,
            node_context: NodeContext::new(),
            actions: Vec::new(),
        };
        proof {
            assert(r@.actions =~= Seq::<A>::empty());
        }
        r
    }

    /// A builder for a step with the given identity.
    pub fn builder(id: String, node_type: String, name: String, description: String) -> (r:
        NodeBuilder<A>)
        ensures
            r.wf(),
            r@ == (NodeView {
                id: id@,
                node_type: node_type@,
                name: name@,
                description: description@,
                context: Map::<Seq<char>, ValueView>::empty(),
                actions: Seq::<A>::empty(),
            }),
    {
        NodeBuilder::new(id, node_type, name, description)
    }

    /// Replaces the step's private context wholesale.
    pub fn set_node_context(&mut self, node_context: NodeContext)
        requires
            node_context.wf(),
        ensures
            final(self).wf(),
            final(self)@ == (NodeView { context: node_context@, ..old(self)@ }),
    {
        self.node_context = node_context;
    }

    /// Appends one action to the pipeline.
    pub fn add_action(&mut self, action: A)
        ensures
            final(self).wf() == old(self).wf(),
            final(self)@ == (NodeView { actions: old(self)@.actions.push(action), ..old(self)@ }),
    {
        self.actions.push(action);
    }

    /// Writes one variable of the step's context.
    pub fn set_var_context(&mut self, key: String, value: FlowValue)
        requires
            old(self).wf(),
        ensures
            final(self).wf(),
            final(self)@ == (NodeView {
                context: old(self)@.context.insert(key@, value@),
                ..old(self)@
            }),
    {
        self.node_context.set_var(key, value);
    }

    /// Reads one variable of the step's context, cloned out.
    pub fn get_var_context(&self, key: String) -> (r: Option<FlowValue>)
        requires
            self.wf(),
        ensures
            match r {
                Some(v) => self@.context.contains_key(key@) && v@ == self@.context[key@],
                None => !self@.context.contains_key(key@),
            },
    {
        match self.node_context.get_var(key.as_str()) {
            Some(v) => Some(v.clone()),
            None => None,
        }
    }

    /// A borrow of the step's whole context.
    pub fn get_node_context(&self) -> (r: &NodeContext)
        ensures
            r@ == self@.context,
            r.wf() == self.wf(),
    {
        &self.node_context
    }

    /// Folds the pipeline over the step's context, left to right. Each
    /// action consumes the previous context and produces the next, which is
    /// stored; the first failure aborts the fold, leaving the successful
    /// prefix's work in place.
    #[verifier::loop_isolation(false)]
    pub fn execute_actions(&mut self) -> (r: Result<(), ActionError>)
        requires
            old(self).wf(),
        ensures
            final(self).wf(),
            final(self)@.id == old(self)@.id,
            final(self)@.node_type == old(self)@.node_type,
            final(self)@.name == old(self)@.name,
            final(self)@.description == old(self)@.description,
            final(self)@.actions == old(self)@.actions,
            match r {
                Ok(()) => pipeline_runs_to(
                    old(self)@.actions,
                    old(self)@.context,
                    final(self)@.context,
                ),
                Err(e) => pipeline_fails_from(
                    old(self)@.actions,
                    old(self)@.context,
                    final(self)@.context,
                    e@,
                ),
            },
    {
        let ghost all = self.actions@;
        let ghost pre = self.node_context@;
        let mut i: usize = 0;
        while i < self.actions.len()
            invariant
                i <= all.len(),
                self.actions@ == all,
                self.id == old(self).id,
                self.node_type == old(self).node_type,
                self.name == old(self).name,
                self.description == old(self).description,
                self.node_context.wf(),
                pipeline_runs_to(all.take(i as int), pre, self.node_context@),
            decreases all.len() - i,
        {
            match self.actions[i].execute(&self.node_context) {
                Ok(next) => {
                    proof {
                        lemma_runs_to_snoc(all, i as int, pre, self.node_context@, next@);
                    }
                    self.node_context = next;
                },
                Err(e) => {
                    proof {
                        lemma_fails_at(all, i as int, pre, self.node_context@, e@);
                    }
                    return Err(e);
                },
            }
            i += 1;
        }
        proof {
            assert(all.take(all.len() as int) =~= all);
        }
        Ok(())
    }
}

/// Assembles a [`Node`] from its parts.
#[derive(Debug)]
pub struct NodeBuilder<A: Action> {
    id: String,
    node_type: String,
    name: String,
    description: String,
    actions: Vec<A>,
    node_context: NodeContext,
}

impl<A: Action> View for NodeBuilder<A> {
    type V = NodeView<A>;

    closed spec fn view(&self) -> NodeView<A> {
        NodeView {
            id: self.id@,
            node_type: self.node_type@,
            name: self.name@,
            description: self.description@,
            context: self.node_context@,
            actions: self.actions@,
        }
    }
}

impl<A: Action> NodeBuilder<A> {
    /// Internal shape: the future context holds each name once.
    pub closed spec fn wf(&self) -> bool {
        self.node_context.wf()
    }

    /// Starts a builder with the identity, no actions, and an empty
    /// context.
    pub fn new(id: String, node_type: String, name: String, description: String) -> (r: NodeBuilder<
        A,
    >)
        ensures
            r.wf(),
            r@ == (NodeView {
                id: id@,
                node_type: node_type@,
                name: name@,
                description: description@,
                context: Map::<Seq<char>, ValueView>::empty(),
                actions: Seq::<A>::empty(),
            }),
    {
        let r = NodeBuilder {
            id,
            node_type,
            name,
            description,
            actions: Vec::new(),
            node_context: NodeContext::new(),
        };
        proof {
            assert(r@.actions =~= Seq::<A>::empty());
        }
        r
    }

    /// Adds one action to the future pipeline.
    pub fn with_action(self, action: A) -> (r: NodeBuilder<A>)
        ensures
            r.wf() == self.wf(),
            r@ == (NodeView { actions: self@.actions.push(action), ..self@ }),
    {
        let mut s = self;
        s.actions.push(action);
        s
    }

    /// Seeds one variable of the future context.
    pub fn with_context_var(self, key: String, value: FlowValue) -> (r: NodeBuilder<A>)
        requires
            self.wf(),
        ensures
            r.wf(),
            r@ == (NodeView { context: self@.context.insert(key@, value@), ..self@ }),
    {
        let mut s = self;
        s.node_context.set_var(key, value);
        s
    }

    /// Finishes the step.
    pub fn build(self) -> (r: Node<A>)
        ensures
            r.wf() == self.wf(),
            r@ == self@,
    {
        Node {
            id: self.id,
            node_type: self.node_type,
            name: self.name,
            description: self.description,
            node_context: self.node_context,
            actions: self.actions,
        }
    }
}

} // verus!
