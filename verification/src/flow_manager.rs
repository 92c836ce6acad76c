//! The per-turn orchestrator: loads a conversation, runs the current
//! step's pipeline, advances the cursor, persists the result.

use vstd::prelude::*;

use crate::action::Action;
use crate::condition::Condition;
use crate::conversation::{Conversation, ConversationRepository, ConversationView, Message,
    MessageView};
use crate::flow_graph::{spec_find_next_node, FlowGraph, FlowGraphView};
use crate::node::{pipeline_fails_from, pipeline_runs_to, NodeView};
use crate::value::{FlowValue, NodeContext, ValueView};

verus! {

broadcast use vstd::std_specs::vec::group_vec_axioms, vstd::seq::group_seq_axioms,
    vstd::map::group_map_axioms, vstd::set::group_set_axioms;

/// A failure of one conversation turn. Each wraps the underlying cause
/// where one applies; none is retried internally.
#[derive(Debug)]
pub enum FlowManagerError {
    NextNodeNotFound(String),
    NodeNotFound(String),
    ConversationNotFound(String),
    ConversationUpdateFailed(String),
    NodeExecutionFailed(String),
    GraphTraversalFailed(String),
}

/// Spec-level shape of a [`FlowManagerError`].
pub enum FlowManagerErrorView {
    NextNodeNotFound(Seq<char>),
    NodeNotFound(Seq<char>),
    ConversationNotFound(Seq<char>),
    ConversationUpdateFailed(Seq<char>),
    NodeExecutionFailed(Seq<char>),
    GraphTraversalFailed(Seq<char>),
}

impl View for FlowManagerError {
    type V = FlowManagerErrorView;

    open spec fn view(&self) -> FlowManagerErrorView {
        match self {
            FlowManagerError::NextNodeNotFound(id) => FlowManagerErrorView::NextNodeNotFound(id@),
            FlowManagerError::NodeNotFound(id) => FlowManagerErrorView::NodeNotFound(id@),
            FlowManagerError::ConversationNotFound(id) => FlowManagerErrorView::ConversationNotFound(
                id@,
            ),
            FlowManagerError::ConversationUpdateFailed(m)
                => FlowManagerErrorView::ConversationUpdateFailed(m@),
            FlowManagerError::NodeExecutionFailed(m) => FlowManagerErrorView::NodeExecutionFailed(
                m@,
            ),
            FlowManagerError::GraphTraversalFailed(m) => FlowManagerErrorView::GraphTraversalFailed(
                m@,
            ),
        }
    }
}

/// The context a step sees when a turn starts: its own long-lived context
/// with the reserved bootstrap keys written over it — `messages` holds the
/// prior history followed by the inbound message, `trigger_message` the
/// inbound message alone.
pub open spec fn seeded_context(
    step_context: Map<Seq<char>, ValueView>,
    history: Seq<MessageView>,
    message: MessageView,
) -> Map<Seq<char>, ValueView> {
    step_context.insert("messages"@, ValueView::Messages(history.push(message))).insert(
        "trigger_message"@,
        ValueView::Messages(seq![message]),
    )
}

/// The history entries a finished turn appends: what the post-pipeline
/// `messages` value holds beyond the prior history — the inbound message
/// and any replies an action added.
pub open spec fn appended_messages(
    final_context: Map<Seq<char>, ValueView>,
    history: Seq<MessageView>,
) -> Seq<MessageView> {
    if final_context.contains_key("messages"@) && (final_context["messages"@]
        matches ValueView::Messages(_)) {
        let msgs = final_context["messages"@]->Messages_0;
        if history.len() <= msgs.len() {
            msgs.skip(history.len() as int)
        } else {
            Seq::empty()
        }
    } else {
        Seq::empty()
    }
}

/// The number of messages a conversation holds.
fn messages_len(conversation: &Conversation) -> (r: usize)
    ensures
        r == conversation@.history.len(),
{
    conversation.get_messages().len()
}


/// Everything one turn promises, by outcome: on success the pipeline ran
/// from the seeded context to the returned one, the step keeps it, the
/// cursor moved to the first passing transition's target and the history
/// grew by the new messages; on failure, which step failed and how.
pub open spec fn run_turn_post<A: Action, C: Condition>(
    g0: FlowGraphView<A, C>,
    g1: FlowGraphView<A, C>,
    conversation: ConversationView,
    message: MessageView,
    r: Result<(ConversationView, Map<Seq<char>, ValueView>, bool), FlowManagerErrorView>,
) -> bool {
    match r {
        Ok((conversation2, context, context_wf)) => {
            let cur = conversation.current_node_id;
            &&& context_wf
            &&& g0.nodes.contains_key(cur)
            &&& pipeline_runs_to(
                g0.nodes[cur].actions,
                seeded_context(g0.nodes[cur].context, conversation.history, message),
                context,
            )
            &&& g1.nodes == g0.nodes.insert(cur, NodeView { context: context, ..g0.nodes[cur] })
            &&& spec_find_next_node(g0.edges, cur, context) == Some(conversation2.current_node_id)
            &&& conversation2 == (ConversationView {
                history: conversation.history + appended_messages(context, conversation.history),
                current_node_id: conversation2.current_node_id,
                ..conversation
            })
        },
        Err(e) => match e {
            FlowManagerErrorView::NodeNotFound(id) => {
                &&& id == conversation.current_node_id
                &&& !g0.nodes.contains_key(id)
                &&& g1 == g0
            },
            FlowManagerErrorView::NodeExecutionFailed(m) => {
                let cur = conversation.current_node_id;
                &&& g0.nodes.contains_key(cur)
                &&& g1.nodes == g0.nodes.insert(
                    cur,
                    NodeView { context: g1.nodes[cur].context, ..g0.nodes[cur] },
                )
                &&& pipeline_fails_from(
                    g0.nodes[cur].actions,
                    seeded_context(g0.nodes[cur].context, conversation.history, message),
                    g1.nodes[cur].context,
                    m,
                )
            },
            FlowManagerErrorView::NextNodeNotFound(id) => {
                let cur = conversation.current_node_id;
                &&& id == cur
                &&& g0.nodes.contains_key(cur)
                &&& g1.nodes == g0.nodes.insert(
                    cur,
                    NodeView { context: g1.nodes[cur].context, ..g0.nodes[cur] },
                )
                &&& pipeline_runs_to(
                    g0.nodes[cur].actions,
                    seeded_context(g0.nodes[cur].context, conversation.history, message),
                    g1.nodes[cur].context,
                )
                &&& spec_find_next_node(g0.edges, cur, g1.nodes[cur].context) is None
            },
            _ => false,
        },
    }
}

/// Orchestrates one conversation turn at a time over one shared graph and
/// one conversation store.
pub struct FlowManager<A: Action, C: Condition, R: ConversationRepository> {
    flow_graph: FlowGraph<A, C>,
    conversation_repository: R,
}

impl<A: Action, C: Condition, R: ConversationRepository> FlowManager<A, C, R> {
    /// The graph being traversed.
    pub closed spec fn spec_graph(&self) -> FlowGraphView<A, C> {
        self.flow_graph@
    }

    /// The store conversations are loaded from and persisted to.
    pub closed spec fn spec_repository(&self) -> R {
        self.conversation_repository
    }

    /// Internal shape: the graph and the store are sound.
    pub closed spec fn wf(&self) -> bool {
        self.flow_graph.wf() && self.conversation_repository.inv()
    }

    /// Takes ownership of the store handle and the finished graph.
    pub fn new(conversation_repository: R, flow_graph: FlowGraph<A, C>) -> (r: FlowManager<
        A,
        C,
        R,
    >)
        requires
            flow_graph.wf(),
            conversation_repository.inv(),
        ensures
            r.wf(),
            r.spec_graph() == flow_graph@,
            r.spec_repository() == conversation_repository,
    {
        FlowManager { flow_graph, conversation_repository }
    }

    /// Gives the store handle and the graph back to the caller.
    pub fn into_parts(self) -> (r: (R, FlowGraph<A, C>))
        ensures
            r.0 == self.spec_repository(),
            r.1@ == self.spec_graph(),
            self.wf() ==> r.1.wf() && r.0.inv(),
    {
        (self.conversation_repository, self.flow_graph)
    }

    /// Runs one turn on a conversation the caller already holds: seeds the
    /// current step's context with the history and the inbound message,
    /// folds the step's pipeline, appends the new messages to the history,
    /// and moves the cursor to the step the graph decides. Nothing is
    /// persisted here; a failed pipeline leaves the successful prefix's
    /// context in the step, and the conversation is returned only on
    /// success.
    #[verifier::loop_isolation(false)]
    #[verifier::rlimit(100)]
    #[verifier::spinoff_prover]
    pub fn run_turn(&mut self, conversation: Conversation, new_message: Message) -> (r: Result<
        (Conversation, NodeContext),
        FlowManagerError,
    >)
        requires
            old(self).wf(),
        ensures
            final(self).wf(),
            final(self).spec_repository() == old(self).spec_repository(),
            final(self).spec_graph().edges == old(self).spec_graph().edges,
            run_turn_post(
                old(self).spec_graph(),
                final(self).spec_graph(),
                conversation@,
                new_message@,
                match r {
                    Ok((c2, ctx)) => Ok((c2@, ctx@, ctx.wf())),
                    Err(e) => Err(e@),
                },
            ),
    {
        let current_node_id = conversation.get_current_node_id();
        if !self.flow_graph.has_node(current_node_id.as_str()) {
            return Err(FlowManagerError::NodeNotFound(current_node_id));
        }
        let ghost g0 = self.flow_graph@;
        let ghost cur = conversation@.current_node_id;
        let ghost h0 = conversation@.history;
        let mut messages = conversation.get_messages();
        messages.push(new_message.clone());
        proof {
            assert(Seq::new(messages@.len(), |i: int| messages@[i]@) =~= h0.push(new_message@));
        }
        let trigger = new_message.clone();
        let mut trigger_messages: Vec<Message> = Vec::new();
        trigger_messages.push(trigger);
        proof {
            assert(Seq::new(trigger_messages@.len(), |i: int| trigger_messages@[i]@) =~= seq![
                new_message@,
            ]);
        }
        let current_node = self.flow_graph.get_node_mut(current_node_id.as_str());
        current_node.set_var_context("messages".to_owned(), FlowValue::Messages(messages));
        current_node.set_var_context(
            "trigger_message".to_owned(),
            FlowValue::Messages(trigger_messages),
        );
        let ghost seeded = seeded_context(g0.nodes[cur].context, h0, new_message@);
        proof {
            assert(current_node@.context =~= seeded);
        }
        let pipeline_result = current_node.execute_actions();
        let final_node_context = current_node.get_node_context().clone();
        let ghost fc = final_node_context@;
        proof {
            assert(current_node.wf() && current_node@.id == cur);
            assert(current_node@ =~= (NodeView { context: fc, ..g0.nodes[cur] }));
        }
        match pipeline_result {
            Ok(()) => {},
            Err(e) => {
                proof {
                    assert(final(self).spec_graph().nodes == g0.nodes.insert(
                        conversation@.current_node_id,
                        NodeView {
                            context: fc,
                            ..g0.nodes[conversation@.current_node_id]
                        },
                    ));
                    assert(final(self).spec_graph().nodes[conversation@.current_node_id].context
                        == fc);
                    assert(pipeline_fails_from(
                        g0.nodes[conversation@.current_node_id].actions,
                        seeded_context(
                            g0.nodes[conversation@.current_node_id].context,
                            conversation@.history,
                            new_message@,
                        ),
                        fc,
                        e.message@,
                    ));
                }
                return Err(FlowManagerError::NodeExecutionFailed(e.message));
            },
        }
        let mut conversation = conversation;
        match final_node_context.get_var("messages") {
            Some(v) => match v.as_messages() {
                Some(all_messages) => {
                    let ghost msgs = fc["messages"@]->Messages_0;
                    proof {
                        assert(msgs =~= Seq::new(
                            all_messages@.len(),
                            |i: int| all_messages@[i]@,
                        ));
                    }
                    let history_len = messages_len(&conversation);
                    let mut appended: Vec<Message> = Vec::new();
                    let mut i: usize = history_len;
                    while i < all_messages.len()
                        invariant
                            history_len <= i,
                            i == history_len || i <= all_messages@.len(),
                            appended@.len() == i - history_len,
                            forall|j: int|
                                0 <= j < appended@.len() ==> (#[trigger] appended@[j])
                                    == all_messages@[history_len + j],
                        decreases all_messages.len() - i,
                    {
                        let m = all_messages[i].clone();
                        appended.push(m);
                        i += 1;
                    }
                    proof {
                        assert(Seq::new(appended@.len(), |j: int| appended@[j]@)
                            =~= appended_messages(fc, h0));
                    }
                    conversation.add_messages(appended);
                },
                None => {},
            },
            None => {},
        }
        proof {
            assert(conversation@.history =~= h0 + appended_messages(fc, h0));
        }
        let next = self.flow_graph.find_next_node(current_node_id.as_str(), &final_node_context);
        match next {
            Some(next_node_id) => {
                conversation.set_current_node_id(next_node_id);
                Ok((conversation, final_node_context))
            },
            None => Err(FlowManagerError::NextNodeNotFound(current_node_id)),
        }
    }

    /// Runs one full persisted turn: loads the conversation, runs the
    /// turn, and stores the advanced conversation. Any failure before the
    /// store step leaves the repository exactly as it was: the turn is
    /// all-or-nothing at the persistence boundary.
    pub fn trigger_conversation(&mut self, conversation_id: String, new_message: Message) -> (r:
        Result<NodeContext, FlowManagerError>)
        requires
            old(self).wf(),
        ensures
            final(self).wf(),
            final(self).spec_graph().edges == old(self).spec_graph().edges,
            match r {
                Ok(context) => context.wf(),
                Err(e) => match e@ {
                    FlowManagerErrorView::ConversationNotFound(id) => id == conversation_id@
                        && final(self).spec_repository() == old(self).spec_repository() && final(self).spec_graph() == old(self).spec_graph(),
                    FlowManagerErrorView::NodeNotFound(_) => final(self).spec_repository()
                        == old(self).spec_repository(),
                    FlowManagerErrorView::NodeExecutionFailed(_) => final(self).spec_repository()
                        == old(self).spec_repository(),
                    FlowManagerErrorView::NextNodeNotFound(_) => final(self).spec_repository()
                        == old(self).spec_repository(),
                    FlowManagerErrorView::ConversationUpdateFailed(_) => true,
                    FlowManagerErrorView::GraphTraversalFailed(_) => false,
                },
            },
    {
        let conversation = match self.conversation_repository.get_conversation(
            conversation_id.clone(),
        ) {
            Ok(conversation) => conversation,
            Err(_) => {
                return Err(FlowManagerError::ConversationNotFound(conversation_id));
            },
        };
        match self.run_turn(conversation, new_message) {
            Ok((conversation2, context)) => {
                match self.conversation_repository.update_conversation(
                    conversation_id,
                    conversation2,
                ) {
                    Ok(()) => Ok(context),
                    Err(e) => Err(FlowManagerError::ConversationUpdateFailed(e.message)),
                }
            },
            Err(e) => Err(e),
        }
    }
}

/// For a fixed graph, a fixed context and a fixed starting step, the
/// decision algorithm always picks the same next step: its result is a
/// function of those three alone, with no hidden randomness.
pub proof fn lemma_find_next_node_deterministic<C: crate::condition::Condition>(
    edges: Seq<crate::edge::EdgeView<C>>,
    current: Seq<char>,
    context: Map<Seq<char>, ValueView>,
    r1: Option<Seq<char>>,
    r2: Option<Seq<char>>,
)
    requires
        r1 == spec_find_next_node(edges, current, context),
        r2 == spec_find_next_node(edges, current, context),
    ensures
        r1 == r2,
{
}

/// A two-action pipeline whose first action always succeeds and whose
/// second always fails stops exactly at the first action's output: the
/// caller sees the first action's context change even though the turn
/// fails.
pub proof fn lemma_pipeline_abort<A: Action>(
    actions: Seq<A>,
    pre: Map<Seq<char>, ValueView>,
    stopped: Map<Seq<char>, ValueView>,
    err: Seq<char>,
)
    requires
        actions.len() == 2,
        pipeline_fails_from(actions, pre, stopped, err),
        forall|p: Map<Seq<char>, ValueView>, r: Result<Map<Seq<char>, ValueView>, Seq<char>>|
            #[trigger] actions[0].post(p, r) ==> r is Ok,
    ensures
        exists|mid: Map<Seq<char>, ValueView>|
            #[trigger] actions[0].post(pre, Ok(mid)) && actions[1].post(mid, Err(err)) && stopped
                == mid,
{
    assert(!(actions[0].post(pre, Err(err)) && stopped == pre));
    let mid = choose|mid: Map<Seq<char>, ValueView>|
        #[trigger] actions[0].post(pre, Ok(mid)) && pipeline_fails_from(
            actions.drop_first(),
            mid,
            stopped,
            err,
        );
    assert(actions.drop_first().len() == 1);
    assert(actions.drop_first()[0] == actions[1]);
    if actions.drop_first()[0].post(mid, Err(err)) && stopped == mid {
    } else {
        let mid2 = choose|mid2: Map<Seq<char>, ValueView>|
            #[trigger] actions.drop_first()[0].post(mid, Ok(mid2)) && pipeline_fails_from(
                actions.drop_first().drop_first(),
                mid2,
                stopped,
                err,
            );
        assert(actions.drop_first().drop_first().len() == 0);
        assert(false);
    }
}

} // verus!