//! The graph of steps: node and edge tables, construction-time validation,
//! and the decision algorithm that picks the next step.

use vstd::prelude::*;

use crate::action::Action;
use crate::condition::Condition;
use crate::edge::{Edge, EdgeView};
use crate::node::{Node, NodeView};
use crate::strmap::StrMap;
use crate::value::{NodeContext, ValueView};

verus! {

broadcast use vstd::std_specs::vec::group_vec_axioms, vstd::seq::group_seq_axioms,
    vstd::map::group_map_axioms, vstd::set::group_set_axioms;

/// A failure of graph construction or analysis.
#[derive(Debug)]
pub enum FlowError {
    NodeNotFound(String),
    DuplicateNode(String),
    DuplicateEdge(String),
    CycleDetected(Vec<String>),
    NoStartNodes,
    UnreachableNodes(Vec<String>),
}

/// Spec-level shape of a [`FlowError`].
pub enum FlowErrorView {
    NodeNotFound(Seq<char>),
    DuplicateNode(Seq<char>),
    DuplicateEdge(Seq<char>),
    CycleDetected(Seq<Seq<char>>),
    NoStartNodes,
    UnreachableNodes(Seq<Seq<char>>),
}

impl View for FlowError {
    type V = FlowErrorView;

    open spec fn view(&self) -> FlowErrorView {
        match self {
            FlowError::NodeNotFound(id) => FlowErrorView::NodeNotFound(id@),
            FlowError::DuplicateNode(id) => FlowErrorView::DuplicateNode(id@),
            FlowError::DuplicateEdge(id) => FlowErrorView::DuplicateEdge(id@),
            FlowError::CycleDetected(path) => FlowErrorView::CycleDetected(
                Seq::new(path@.len(), |i: int| path@[i]@),
            ),
            FlowError::NoStartNodes => FlowErrorView::NoStartNodes,
            FlowError::UnreachableNodes(ids) => FlowErrorView::UnreachableNodes(
                Seq::new(ids@.len(), |i: int| ids@[i]@),
            ),
        }
    }
}

/// The views of a sequence of steps, elementwise.
pub open spec fn node_seq_view<A: Action>(s: Seq<Node<A>>) -> Seq<NodeView<A>> {
    Seq::new(s.len(), |i: int| s[i]@)
}

/// The views of a sequence of transitions, elementwise.
pub open spec fn edge_seq_view<C: Condition>(s: Seq<Edge<C>>) -> Seq<EdgeView<C>> {
    Seq::new(s.len(), |i: int| s[i]@)
}

/// The view of one stored step, as a function.
pub open spec fn node_view_fn<A: Action>() -> spec_fn(Node<A>) -> NodeView<A> {
    |n: Node<A>| n@
}

/// Taking views commutes with storing one step.
proof fn lemma_map_values_insert<K, V, W>(m: Map<K, V>, k: K, v: V, f: spec_fn(V) -> W)
    ensures
        m.insert(k, v).map_values(f) == m.map_values(f).insert(k, f(v)),
{
    assert(m.insert(k, v).map_values(f) =~= m.map_values(f).insert(k, f(v)));
}

/// Spec-level shape of a [`FlowGraph`]: the steps keyed by id, and the
/// transitions in registration order.
#[verifier::ext_equal]
pub struct FlowGraphView<A: Action, C: Condition> {
    pub nodes: Map<Seq<char>, NodeView<A>>,
    pub edges: Seq<EdgeView<C>>,
}

/// What [`FlowGraph::add_node`] does: rejects a duplicate id, otherwise
/// stores the step.
pub open spec fn spec_add_node<A: Action, C: Condition>(
    g: FlowGraphView<A, C>,
    node: NodeView<A>,
) -> Result<FlowGraphView<A, C>, FlowErrorView> {
    if g.nodes.contains_key(node.id) {
        Err(FlowErrorView::DuplicateNode(node.id))
    } else {
        Ok(FlowGraphView { nodes: g.nodes.insert(node.id, node), edges: g.edges })
    }
}

/// What [`FlowGraph::add_edge`] does: rejects a missing endpoint or a
/// duplicate id, otherwise appends the transition in registration order.
pub open spec fn spec_add_edge<A: Action, C: Condition>(
    g: FlowGraphView<A, C>,
    edge: EdgeView<C>,
) -> Result<FlowGraphView<A, C>, FlowErrorView> {
    if !g.nodes.contains_key(edge.source_node_id) {
        Err(FlowErrorView::NodeNotFound(edge.source_node_id))
    } else if !g.nodes.contains_key(edge.target_node_id) {
        Err(FlowErrorView::NodeNotFound(edge.target_node_id))
    } else if exists|i: int| 0 <= i < g.edges.len() && (#[trigger] g.edges[i].id) == edge.id {
        Err(FlowErrorView::DuplicateEdge(edge.id))
    } else {
        Ok(FlowGraphView { nodes: g.nodes, edges: g.edges.push(edge) })
    }
}

/// What [`FlowGraph::find_next_node`] decides: the target of the first
/// transition, in registration order, that leaves the current step and
/// whose guard passes the context.
pub open spec fn spec_find_next_node<C: Condition>(
    edges: Seq<EdgeView<C>>,
    current: Seq<char>,
    context: Map<Seq<char>, ValueView>,
) -> Option<Seq<char>>
    decreases edges.len(),
{
    if edges.len() == 0 {
        None
    } else if edges[0].source_node_id == current && edges[0].passes(context) {
        Some(edges[0].target_node_id)
    } else {
        spec_find_next_node(edges.drop_first(), current, context)
    }
}

/// First-match semantics: when some transition out of the current step
/// passes the context, the decision algorithm returns the target of the
/// earliest such transition in registration order, skipping earlier
/// transitions that leave other steps or whose guards fail.
pub proof fn lemma_first_match<C: Condition>(
    edges: Seq<EdgeView<C>>,
    current: Seq<char>,
    context: Map<Seq<char>, ValueView>,
    i: int,
)
    requires
        0 <= i < edges.len(),
        edges[i].source_node_id == current,
        edges[i].passes(context),
        forall|j: int|
            0 <= j < i ==> !((#[trigger] edges[j]).source_node_id == current && edges[j].passes(
                context,
            )),
    ensures
        spec_find_next_node(edges, current, context) == Some(edges[i].target_node_id),
    decreases i,
{
    if i == 0 {
    } else {
        assert(!(edges[0].source_node_id == current && edges[0].passes(context)));
        assert(edges.drop_first()[i - 1] == edges[i]);
        assert forall|j: int| 0 <= j < i - 1 implies !((#[trigger] edges.drop_first()[j]).source_node_id
            == current && edges.drop_first()[j].passes(context)) by {
            assert(edges.drop_first()[j] == edges[j + 1]);
        }
        lemma_first_match(edges.drop_first(), current, context, i - 1);
    }
}

/// When no transition out of the current step passes the context, the
/// decision algorithm reports that no transition exists.
pub proof fn lemma_no_match<C: Condition>(
    edges: Seq<EdgeView<C>>,
    current: Seq<char>,
    context: Map<Seq<char>, ValueView>,
)
    requires
        forall|j: int|
            0 <= j < edges.len() ==> !((#[trigger] edges[j]).source_node_id == current
                && edges[j].passes(context)),
    ensures
        spec_find_next_node(edges, current, context) is None,
    decreases edges.len(),
{
    if edges.len() > 0 {
        assert forall|j: int| 0 <= j < edges.drop_first().len() implies !((
        #[trigger] edges.drop_first()[j]).source_node_id == current
            && edges.drop_first()[j].passes(context)) by {
            assert(edges.drop_first()[j] == edges[j + 1]);
        }
        lemma_no_match(edges.drop_first(), current, context);
    }
}

/// Owns all steps and transitions. Once built it is read-only for
/// traversal; every transition's endpoints are steps the graph holds.
#[derive(Debug)]
pub struct FlowGraph<A: Action, C: Condition> {
    nodes: StrMap<Node<A>>,
    edges: Vec<Edge<C>>,
}

impl<A: Action, C: Condition> View for FlowGraph<A, C> {
    type V = FlowGraphView<A, C>;

    closed spec fn view(&self) -> FlowGraphView<A, C> {
        FlowGraphView {
            nodes: self.nodes@.map_values(node_view_fn::<A>()),
            edges: edge_seq_view(self.edges@),
        }
    }
}

impl<A: Action, C: Condition> FlowGraph<A, C> {
    /// Internal shape: the node table is sound, each stored step carries
    /// the id it is keyed under, every guard list is reachable, edge ids
    /// are pairwise distinct, and every transition's endpoints exist.
    pub closed spec fn wf(&self) -> bool {
        &&& self.nodes.wf()
        &&& forall|k: Seq<char>|
            #[trigger] self.nodes@.contains_key(k) ==> self.nodes@[k].wf() && self.nodes@[k]@.id
                == k
        &&& forall|i: int, j: int|
            0 <= i < j < self.edges@.len() ==> self.edges@[i]@.id != self.edges@[j]@.id
        &&& forall|i: int|
            0 <= i < self.edges@.len() ==> self.nodes@.contains_key(
                #[trigger] self.edges@[i]@.source_node_id,
            ) && self.nodes@.contains_key(self.edges@[i]@.target_node_id)
    }

    /// An empty graph.
    pub fn new() -> (r: FlowGraph<A, C>)
        ensures
            r.wf(),
            r@.nodes == Map::<Seq<char>, NodeView<A>>::empty(),
            r@.edges == Seq::<EdgeView<C>>::empty(),
    {
        let r = FlowGraph { nodes: StrMap::new(), edges: Vec::new() };
        proof {
            assert(r@.nodes =~= Map::<Seq<char>, NodeView<A>>::empty());
            assert(r@.edges =~= Seq::<EdgeView<C>>::empty());
        }
        r
    }

    /// A builder for a graph.
    pub fn builder() -> (r: FlowGraphBuilder<A, C>)
        ensures
            r@.nodes == Seq::<NodeView<A>>::empty(),
            r@.edges == Seq::<EdgeView<C>>::empty(),
            r.nodes_wf(),
    {
        FlowGraphBuilder::new()
    }

    /// How many steps the graph holds.
    pub fn node_count(&self) -> (r: usize)
        requires
            self.wf(),
        ensures
            self@.nodes.dom().finite(),
            r == self@.nodes.dom().len(),
    {
        let r = self.nodes.len();
        proof {
            assert(self@.nodes.dom() =~= self.nodes@.dom());
        }
        r
    }

    /// How many transitions the graph holds.
    pub fn edge_count(&self) -> (r: usize)
        ensures
            r == self@.edges.len(),
    {
        self.edges.len()
    }

    /// Whether the graph holds a step under this id.
    pub fn has_node(&self, node_id: &str) -> (r: bool)
        requires
            self.wf(),
        ensures
            r == self@.nodes.contains_key(node_id@),
    {
        let r = self.nodes.contains_key(node_id);
        proof {
            assert(self@.nodes.contains_key(node_id@) == self.nodes@.contains_key(node_id@));
        }
        r
    }

    /// Stores a step; fails on a duplicate id, leaving the graph as it
    /// was.
    pub fn add_node(&mut self, node: Node<A>) -> (r: Result<(), FlowError>)
        requires
            old(self).wf(),
            node.wf(),
        ensures
            final(self).wf(),
            match r {
                Ok(()) => spec_add_node(old(self)@, node@) == Ok::<_, FlowErrorView>(final(self)@),
                Err(e) => spec_add_node(old(self)@, node@) == Err::<FlowGraphView<A, C>, _>(e@)
                    && final(self)@ == old(self)@,
            },
    {
        let node_id: String = node.id.clone();
        if self.nodes.contains_key(node_id.as_str()) {
            proof {
                assert(old(self)@.nodes.contains_key(node@.id));
            }
            return Err(FlowError::DuplicateNode(node_id));
        }
        proof {
            assert(!old(self)@.nodes.contains_key(node@.id));
        }
        self.nodes.insert(node_id, node);
        proof {
            assert(final(self)@.nodes =~= old(self)@.nodes.insert(node@.id, node@));
            assert(final(self)@.edges =~= old(self)@.edges);
        }
        Ok(())
    }

    /// Stores a transition; fails when an endpoint is missing or the id is
    /// a duplicate, leaving the graph as it was.
    #[verifier::loop_isolation(false)]
    pub fn add_edge(&mut self, edge: Edge<C>) -> (r: Result<(), FlowError>)
        requires
            old(self).wf(),
        ensures
            final(self).wf(),
            match r {
                Ok(()) => spec_add_edge(old(self)@, edge@) == Ok::<_, FlowErrorView>(final(self)@),
                Err(e) => spec_add_edge(old(self)@, edge@) == Err::<FlowGraphView<A, C>, _>(e@)
                    && final(self)@ == old(self)@,
            },
    {
        if !self.nodes.contains_key(edge.source_node_id.as_str()) {
            proof {
                assert(!old(self)@.nodes.contains_key(edge@.source_node_id));
            }
            return Err(FlowError::NodeNotFound(edge.source_node_id));
        }
        if !self.nodes.contains_key(edge.target_node_id.as_str()) {
            proof {
                assert(old(self)@.nodes.contains_key(edge@.source_node_id));
                assert(!old(self)@.nodes.contains_key(edge@.target_node_id));
            }
            return Err(FlowError::NodeNotFound(edge.target_node_id));
        }
        let ghost e0 = self.edges@;
        let mut i: usize = 0;
        while i < self.edges.len()
            invariant
                self.edges@ == e0,
                i <= e0.len(),
                forall|j: int| 0 <= j < i ==> (#[trigger] e0[j]@.id) != edge@.id,
            decreases e0.len() - i,
        {
            if self.edges[i].id == edge.id {
                proof {
                    assert(self@.edges[i as int].id == edge@.id);
                }
                return Err(FlowError::DuplicateEdge(edge.id));
            }
            i += 1;
        }
        proof {
            assert forall|j: int| 0 <= j < old(self)@.edges.len() implies (#[trigger] old(
                self,
            )@.edges[j].id) != edge@.id by {
                assert(old(self)@.edges[j] == e0[j]@);
            }
        }
        self.edges.push(edge);
        proof {
            assert(final(self)@.edges =~= old(self)@.edges.push(edge@));
            assert(final(self)@.nodes =~= old(self)@.nodes);
        }
        Ok(())
    }


    /// The ids of every step, in insertion order, each exactly once.
    #[verifier::loop_isolation(false)]
    fn collect_node_ids(&self) -> (r: Vec<String>)
        requires
            self.wf(),
        ensures
            forall|j: int| 0 <= j < r@.len() ==> self@.nodes.contains_key((#[trigger] r@[j])@),
            forall|k: Seq<char>|
                #[trigger] self@.nodes.contains_key(k) ==> exists|j: int|
                    0 <= j < r@.len() && (#[trigger] r@[j])@ == k,
            forall|a: int, b: int| 0 <= a < b < r@.len() ==> r@[a]@ != r@[b]@,
    {
        proof {
            self.nodes.lemma_entry_keys();
            assert forall|k: Seq<char>| #[trigger] self@.nodes.contains_key(k) implies
                self.nodes@.contains_key(k) by {}
        }
        let n = self.nodes.entry_count();
        let mut r: Vec<String> = Vec::new();
        let mut i: usize = 0;
        while i < n
            invariant
                i <= n,
                r@.len() == i as int,
                forall|j: int| 0 <= j < i ==> (#[trigger] r@[j])@ == self.nodes.entry_keys()[j],
            decreases n - i,
        {
            let entry = self.nodes.entry_at(i);
            r.push(entry.0.clone());
            i += 1;
        }
        proof {
            assert forall|k: Seq<char>| #[trigger] self@.nodes.contains_key(k) implies exists|
                j: int,
            | 0 <= j < r@.len() && (#[trigger] r@[j])@ == k by {
                let j = choose|j: int|
                    0 <= j < self.nodes.entry_keys().len() && self.nodes.entry_keys()[j] == k;
                assert(r@[j]@ == k);
            }
        }
        r
    }

    /// Looks for a cycle: trims steps no remaining transition enters, and
    /// walks predecessors among what is left until a step repeats. A
    /// reported path is a genuine cycle of the graph.
    fn find_cycle(&self) -> (r: Option<Vec<String>>)
        requires
            self.wf(),
        ensures
            match r {
                Some(path) => is_cycle(self@.edges, str_seq_view(path@)),
                None => true,
            },
    {
        let remaining = self.trim_entered_steps();
        if remaining.len() == 0 {
            return None;
        }
        self.walk_predecessors(&remaining)
    }

    /// Repeatedly trims a step that no transition from the steps still
    /// held enters; what is left, if anything, is a part of the graph in
    /// which every step has an incoming transition from the rest.
    #[verifier::loop_isolation(false)]
    #[verifier::rlimit(100)]
    fn trim_entered_steps(&self) -> (r: Vec<String>)
        requires
            self.wf(),
        ensures
            r@.len() > 0 ==> well_entered(self@.edges, str_seq_view(r@)),
    {
        let mut remaining = self.collect_node_ids();
        loop
            invariant
                true,
            decreases remaining@.len(),
        {
            let n = remaining.len();
            let mut i: usize = 0;
            let mut removable: Option<usize> = None;
            while i < n
                invariant
                    i <= n,
                    n == remaining@.len(),
                    match removable {
                        Some(x) => x < remaining@.len() && !has_entry_from(
                            self@.edges,
                            str_seq_view(remaining@),
                            remaining@[x as int]@,
                        ),
                        None => forall|j: int|
                            0 <= j < i ==> has_entry_from(
                                self@.edges,
                                str_seq_view(remaining@),
                                (#[trigger] remaining@[j])@,
                            ),
                    },
                decreases n - i,
            {
                if removable.is_none() {
                    let m = self.edges.len();
                    let mut e: usize = 0;
                    let mut has_incoming = false;
                    while e < m
                        invariant
                            e <= m,
                            m == self@.edges.len(),
                            i < remaining@.len(),
                            has_incoming ==> has_entry_from(
                                self@.edges,
                                str_seq_view(remaining@),
                                remaining@[i as int]@,
                            ),
                            !has_incoming ==> forall|x: int|
                                0 <= x < e ==> !((#[trigger] self@.edges[x]).target_node_id
                                    == remaining@[i as int]@ && str_seq_view(remaining@).contains(
                                    self@.edges[x].source_node_id,
                                )),
                        decreases m - e,
                    {
                        if !has_incoming {
                            if self.edges[e].target_node_id == remaining[i] {
                                if ids_contain(&remaining, &self.edges[e].source_node_id) {
                                    proof {
                                        let j = choose|j: int|
                                            0 <= j < remaining@.len() && (#[trigger] remaining@[j])@
                                                == self.edges@[e as int].source_node_id@;
                                        assert(str_seq_view(remaining@)[j]
                                            == self@.edges[e as int].source_node_id);
                                        assert(0 <= e < self@.edges.len()
                                            && self@.edges[e as int].target_node_id
                                            == remaining@[i as int]@ && str_seq_view(
                                            remaining@,
                                        ).contains(self@.edges[e as int].source_node_id));
                                    }
                                    has_incoming = true;
                                } else {
                                    proof {
                                        assert forall|j: int|
                                            0 <= j < str_seq_view(remaining@).len() implies
                                            str_seq_view(remaining@)[j]
                                            != self@.edges[e as int].source_node_id by {
                                            assert(str_seq_view(remaining@)[j] == remaining@[j]@);
                                        }
                                    }
                                }
                            }
                        }
                        e += 1;
                    }
                    if !has_incoming {
                        removable = Some(i);
                        proof {
                            assert(!has_entry_from(
                                self@.edges,
                                str_seq_view(remaining@),
                                remaining@[i as int]@,
                            ));
                        }
                    }
                }
                i += 1;
            }
            match removable {
                Some(x) => {
                    let _ = remaining.remove(x);
                },
                None => {
                    proof {
                        assert forall|j: int| 0 <= j < str_seq_view(remaining@).len() implies
                            has_entry_from(
                            self@.edges,
                            str_seq_view(remaining@),
                            #[trigger] str_seq_view(remaining@)[j],
                        ) by {
                            assert(str_seq_view(remaining@)[j] == remaining@[j]@);
                            assert(has_entry_from(
                                self@.edges,
                                str_seq_view(remaining@),
                                remaining@[j]@,
                            ));
                        }
                        assert(well_entered(self@.edges, str_seq_view(remaining@)));
                    }
                    return remaining;
                },
            }
        }
    }

    /// The index of a transition entering the step from one of the listed
    /// steps; among the listed steps such a transition always exists.
    #[verifier::loop_isolation(false)]
    fn incoming_edge_index(&self, remaining: &Vec<String>, last: &String) -> (r: usize)
        requires
            self.wf(),
            well_entered(self@.edges, str_seq_view(remaining@)),
            str_seq_view(remaining@).contains(last@),
        ensures
            r < self@.edges.len(),
            self@.edges[r as int].target_node_id == last@,
            str_seq_view(remaining@).contains(self@.edges[r as int].source_node_id),
    {
        proof {
            let j = choose|j: int|
                0 <= j < str_seq_view(remaining@).len() && str_seq_view(remaining@)[j] == last@;
            assert(has_entry_from(self@.edges, str_seq_view(remaining@), str_seq_view(remaining@)[j]));
            assert(has_entry_from(self@.edges, str_seq_view(remaining@), last@));
        }
        let m = self.edges.len();
        let mut e: usize = 0;
        loop
            invariant
                e <= m,
                m == self@.edges.len(),
                has_entry_from(self@.edges, str_seq_view(remaining@), last@),
                forall|x: int|
                    0 <= x < e ==> !((#[trigger] self@.edges[x]).target_node_id == last@
                        && str_seq_view(remaining@).contains(self@.edges[x].source_node_id)),
            decreases m - e,
        {
            proof {
                if e as int == m {
                    let x = choose|x: int|
                        0 <= x < self@.edges.len() && (#[trigger] self@.edges[x]).target_node_id
                            == last@ && str_seq_view(remaining@).contains(
                            self@.edges[x].source_node_id,
                        );
                    assert(false);
                }
            }
            let n2 = self.edges.len();
            proof {
                assert(e < n2);
            }
            if self.edges[e].target_node_id == *last {
                if ids_contain(&remaining, &self.edges[e].source_node_id) {
                    proof {
                        let j = choose|j: int|
                            0 <= j < remaining@.len() && (#[trigger] remaining@[j])@
                                == self.edges@[e as int].source_node_id@;
                        assert(str_seq_view(remaining@)[j]
                            == self@.edges[e as int].source_node_id);
                    }
                    return e;
                }
                proof {
                    assert forall|j: int| 0 <= j < str_seq_view(remaining@).len() implies
                        str_seq_view(remaining@)[j] != self@.edges[e as int].source_node_id by {
                        assert(str_seq_view(remaining@)[j] == remaining@[j]@);
                    }
                }
            }
            e += 1;
        }
    }

    /// The cycle a repeated step closes: the repeated step, then the walk
    /// back to it, each hop a transition.
    #[verifier::loop_isolation(false)]
    fn build_cycle_path(&self, walked: &Vec<String>, k: usize, e_idx: usize) -> (r: Vec<String>)
        requires
            self.wf(),
            k < walked@.len(),
            e_idx < self@.edges.len(),
            self@.edges[e_idx as int].target_node_id == walked@[walked@.len() - 1]@,
            self@.edges[e_idx as int].source_node_id == walked@[k as int]@,
            forall|j: int|
                0 <= j < walked@.len() - 1 ==> edge_from_to(
                    self@.edges,
                    walked@[j + 1]@,
                    (#[trigger] walked@[j])@,
                ),
        ensures
            is_cycle(self@.edges, str_seq_view(r@)),
    {
        let ghost wlen = walked@.len();
        let mut path: Vec<String> = Vec::new();
        path.push(walked[k].clone());
        let mut i2: usize = walked.len();
        while i2 > k
            invariant
                k < wlen,
                k as int <= i2 as int <= wlen,
                wlen == walked@.len(),
                path@.len() == 1 + (wlen - i2 as int),
                path@[0]@ == walked@[k as int]@,
                forall|t: int|
                    1 <= t < path@.len() ==> (#[trigger] path@[t])@ == walked@[wlen - t]@,
            decreases i2,
        {
            i2 -= 1;
            path.push(walked[i2].clone());
        }
        proof {
            let pv = str_seq_view(path@);
            assert(pv.len() == 1 + (wlen - k));
            assert(pv[0] == walked@[k as int]@);
            assert(pv[pv.len() - 1] == path@[pv.len() - 1]@);
            assert(pv[pv.len() - 1] == walked@[k as int]@);
            assert forall|j: int| 0 <= j < pv.len() - 1 implies edge_from_to(
                self@.edges,
                pv[j],
                #[trigger] pv[j + 1],
            ) by {
                if j == 0 {
                    assert(pv[1] == path@[1]@);
                    assert(path@[1]@ == walked@[wlen - 1]@);
                    assert(0 <= e_idx < self@.edges.len()
                        && self@.edges[e_idx as int].source_node_id == pv[0]
                        && self@.edges[e_idx as int].target_node_id == pv[1]);
                } else {
                    assert(pv[j] == walked@[wlen - j]@);
                    assert(pv[j + 1] == walked@[wlen - j - 1]@);
                    let jj = wlen - j - 1;
                    assert(edge_from_to(self@.edges, walked@[jj + 1]@, walked@[jj]@));
                }
            }
            assert(is_cycle(self@.edges, pv));
        }
        path
    }

    /// Walks predecessors inside a part of the graph in which every step
    /// has an incoming transition from the part, until a step repeats; the
    /// repetition closes a genuine cycle.
    #[verifier::loop_isolation(false)]
    #[verifier::rlimit(100)]
    fn walk_predecessors(&self, remaining: &Vec<String>) -> (r: Option<Vec<String>>)
        requires
            self.wf(),
            remaining@.len() > 0,
            well_entered(self@.edges, str_seq_view(remaining@)),
        ensures
            match r {
                Some(path) => is_cycle(self@.edges, str_seq_view(path@)),
                None => true,
            },
    {
        let mut walked: Vec<String> = Vec::new();
        walked.push(remaining[0].clone());
        proof {
            assert(str_seq_view(remaining@)[0] == remaining@[0]@);
            assert(str_seq_view(remaining@).contains(walked@[0]@));
        }
        loop
            invariant
                remaining@.len() > 0,
                well_entered(self@.edges, str_seq_view(remaining@)),
                walked@.len() >= 1,
                forall|j: int|
                    0 <= j < walked@.len() ==> str_seq_view(remaining@).contains(
                        (#[trigger] walked@[j])@,
                    ),
                forall|j: int|
                    0 <= j < walked@.len() - 1 ==> edge_from_to(
                        self@.edges,
                        walked@[j + 1]@,
                        (#[trigger] walked@[j])@,
                    ),
                forall|a: int, b: int| 0 <= a < b < walked@.len() ==> walked@[a]@ != walked@[b]@,
                walked@.len() <= remaining@.len(),
            decreases remaining@.len() - walked@.len() + 1,
        {
            let last_idx = walked.len() - 1;
            let e_idx = self.incoming_edge_index(remaining, &walked[last_idx]);
            let pred = self.edges[e_idx].source_node_id.clone();
            if ids_contain(&walked, &pred) {
                let k = ids_index_of(&walked, &pred);
                return Some(self.build_cycle_path(&walked, k, e_idx));
            }
            proof {
                assert forall|j: int| 0 <= j < walked@.len() implies walked@[j]@ != pred@ by {}
            }
            let ghost pred_v = pred@;
            walked.push(pred);
            proof {
                assert(edge_from_to(
                    self@.edges,
                    walked@[walked@.len() - 1]@,
                    walked@[walked@.len() - 2]@,
                )) by {
                    assert(0 <= e_idx < self@.edges.len()
                        && self@.edges[e_idx as int].source_node_id
                        == walked@[walked@.len() - 1]@
                        && self@.edges[e_idx as int].target_node_id
                        == walked@[walked@.len() - 2]@);
                }
                let wv = str_seq_view(walked@);
                assert(wv.no_duplicates()) by {
                    assert forall|a: int, b: int|
                        0 <= a < wv.len() && 0 <= b < wv.len() && a != b implies wv[a]
                        != wv[b] by {
                        if a < b {
                            assert(walked@[a]@ != walked@[b]@);
                        } else {
                            assert(walked@[b]@ != walked@[a]@);
                        }
                    }
                }
                wv.unique_seq_to_set();
                vstd::seq_lib::seq_to_set_is_finite(str_seq_view(remaining@));
                assert(wv.to_set().subset_of(str_seq_view(remaining@).to_set())) by {
                    assert forall|x: Seq<char>| wv.to_set().contains(x) implies str_seq_view(
                        remaining@,
                    ).to_set().contains(x) by {
                        let j = choose|j: int| 0 <= j < wv.len() && wv[j] == x;
                        assert(wv[j] == walked@[j]@);
                        assert(str_seq_view(remaining@).contains(x));
                    }
                }
                vstd::set_lib::lemma_len_subset(
                    wv.to_set(),
                    str_seq_view(remaining@).to_set(),
                );
                str_seq_view(remaining@).lemma_cardinality_of_set();
            }
        }
    }

    /// The position of the first step no transition enters, in insertion
    /// order; nothing when every step has an incoming transition.
    #[verifier::loop_isolation(false)]
    fn find_start_index(&self, node_ids: &Vec<String>) -> (r: Option<usize>)
        requires
            self.wf(),
            forall|j: int|
                0 <= j < node_ids@.len() ==> self@.nodes.contains_key((#[trigger] node_ids@[j])@),
            forall|k: Seq<char>|
                #[trigger] self@.nodes.contains_key(k) ==> exists|j: int|
                    0 <= j < node_ids@.len() && (#[trigger] node_ids@[j])@ == k,
        ensures
            match r {
                Some(x) => x < node_ids@.len() && is_start_node(self@, node_ids@[x as int]@),
                None => forall|k: Seq<char>| !is_start_node(self@, k),
            },
    {
        let n = node_ids.len();
        let mut i: usize = 0;
        while i < n
            invariant
                i <= n,
                n == node_ids@.len(),
                forall|j: int| 0 <= j < i ==> has_entry(self@.edges, (#[trigger] node_ids@[j])@),
            decreases n - i,
        {
            let m = self.edges.len();
            let mut e: usize = 0;
            let mut entered = false;
            while e < m
                invariant
                    e <= m,
                    m == self@.edges.len(),
                    i < node_ids@.len(),
                    entered ==> has_entry(self@.edges, node_ids@[i as int]@),
                    !entered ==> forall|x: int|
                        0 <= x < e ==> (#[trigger] self@.edges[x]).target_node_id
                            != node_ids@[i as int]@,
                decreases m - e,
            {
                if !entered {
                    if self.edges[e].target_node_id == node_ids[i] {
                        proof {
                            assert(0 <= e < self@.edges.len()
                                && self@.edges[e as int].target_node_id
                                == node_ids@[i as int]@);
                        }
                        entered = true;
                    }
                }
                e += 1;
            }
            if !entered {
                proof {
                    assert(!has_entry(self@.edges, node_ids@[i as int]@));
                    assert(is_start_node(self@, node_ids@[i as int]@));
                }
                return Some(i);
            }
            i += 1;
        }
        proof {
            assert forall|k: Seq<char>| !is_start_node(self@, k) by {
                if self@.nodes.contains_key(k) {
                    let j = choose|j: int|
                        0 <= j < node_ids@.len() && (#[trigger] node_ids@[j])@ == k;
                    assert(has_entry(self@.edges, node_ids@[j]@));
                }
            }
        }
        None
    }

    /// Every step reachable from the start, by marking transition targets
    /// until nothing new is reached.
    #[verifier::loop_isolation(false)]
    #[verifier::rlimit(100)]
    fn mark_reachable(&self, node_ids: &Vec<String>, start: &String) -> (r: Vec<String>)
        requires
            self.wf(),
            self@.nodes.contains_key(start@),
            forall|j: int|
                0 <= j < node_ids@.len() ==> self@.nodes.contains_key((#[trigger] node_ids@[j])@),
            forall|k: Seq<char>|
                #[trigger] self@.nodes.contains_key(k) ==> exists|j: int|
                    0 <= j < node_ids@.len() && (#[trigger] node_ids@[j])@ == k,
        ensures
            str_seq_view(r@).contains(start@),
            forall|j: int|
                0 <= j < r@.len() ==> reachable(self@.edges, start@, (#[trigger] r@[j])@)
                    && self@.nodes.contains_key(r@[j]@),
    {
        proof {
            lemma_graph_wf_facts(self);
        }
        let mut marked: Vec<String> = Vec::new();
        marked.push(start.clone());
        proof {
            lemma_reachable_self(self@.edges, start@);
            assert(str_seq_view(marked@)[0] == marked@[0]@);
        }
        loop
            invariant
                marked@.len() >= 1,
                marked@[0]@ == start@,
                forall|j: int|
                    0 <= j < marked@.len() ==> reachable(self@.edges, start@, (
                    #[trigger] marked@[j])@) && self@.nodes.contains_key(marked@[j]@),
                forall|a: int, b: int| 0 <= a < b < marked@.len() ==> marked@[a]@ != marked@[b]@,
                marked@.len() <= node_ids@.len(),
            decreases node_ids@.len() + 1 - marked@.len(),
        {
            let ghost len0 = marked@.len();
            let m = self.edges.len();
            let mut e: usize = 0;
            let mut added = false;
            while e < m
                invariant
                    e <= m,
                    m == self@.edges.len(),
                    marked@.len() >= 1,
                    marked@[0]@ == start@,
                    forall|j: int|
                        0 <= j < marked@.len() ==> reachable(self@.edges, start@, (
                        #[trigger] marked@[j])@) && self@.nodes.contains_key(marked@[j]@),
                    forall|a: int, b: int|
                        0 <= a < b < marked@.len() ==> marked@[a]@ != marked@[b]@,
                    marked@.len() <= node_ids@.len(),
                    added ==> marked@.len() > len0,
                    !added ==> marked@.len() == len0,
                decreases m - e,
            {
                let source_marked = ids_contain(&marked, &self.edges[e].source_node_id);
                let target_marked = ids_contain(&marked, &self.edges[e].target_node_id);
                if source_marked && !target_marked {
                    let target = self.edges[e].target_node_id.clone();
                    proof {
                        let j = choose|j: int|
                            0 <= j < marked@.len() && (#[trigger] marked@[j])@
                                == self.edges@[e as int].source_node_id@;
                        assert(reachable(self@.edges, start@, marked@[j]@));
                        assert(edge_from_to(
                            self@.edges,
                            self@.edges[e as int].source_node_id,
                            self@.edges[e as int].target_node_id,
                        )) by {
                            assert(0 <= e < self@.edges.len());
                        }
                        lemma_reachable_step(
                            self@.edges,
                            start@,
                            self@.edges[e as int].source_node_id,
                            self@.edges[e as int].target_node_id,
                        );
                        assert(self@.nodes.contains_key(self@.edges[e as int].target_node_id));
                        assert forall|j2: int| 0 <= j2 < marked@.len() implies marked@[j2]@
                            != target@ by {}
                    }
                    marked.push(target);
                    added = true;
                    proof {
                        let mv = str_seq_view(marked@);
                        assert(mv.no_duplicates()) by {
                            assert forall|a: int, b: int|
                                0 <= a < mv.len() && 0 <= b < mv.len() && a != b implies mv[a]
                                != mv[b] by {
                                if a < b {
                                    assert(marked@[a]@ != marked@[b]@);
                                } else {
                                    assert(marked@[b]@ != marked@[a]@);
                                }
                            }
                        }
                        mv.unique_seq_to_set();
                        vstd::seq_lib::seq_to_set_is_finite(str_seq_view(node_ids@));
                        assert(mv.to_set().subset_of(str_seq_view(node_ids@).to_set())) by {
                            assert forall|x: Seq<char>| mv.to_set().contains(x) implies
                                str_seq_view(node_ids@).to_set().contains(x) by {
                                let j = choose|j: int| 0 <= j < mv.len() && mv[j] == x;
                                assert(mv[j] == marked@[j]@);
                                assert(self@.nodes.contains_key(x));
                                let j2 = choose|j2: int|
                                    0 <= j2 < node_ids@.len() && (#[trigger] node_ids@[j2])@ == x;
                                assert(str_seq_view(node_ids@)[j2] == x);
                                assert(str_seq_view(node_ids@).contains(x));
                            }
                        }
                        vstd::set_lib::lemma_len_subset(
                            mv.to_set(),
                            str_seq_view(node_ids@).to_set(),
                        );
                        str_seq_view(node_ids@).lemma_cardinality_of_set();
                    }
                }
                e += 1;
            }
            if !added {
                proof {
                    assert(str_seq_view(marked@)[0] == marked@[0]@);
                    assert(str_seq_view(marked@).contains(start@));
                }
                return marked;
            }
        }
    }

    /// A static analysis for graph authors: reports a cycle with its path,
    /// a graph no traversal can start in, or the steps the first start
    /// step does not reach. A pass promises a start step that reaches every
    /// step; a cycle report names a genuine cycle; cyclic graphs stay valid
    /// for the traversal itself, which never calls this.
    #[verifier::loop_isolation(false)]
    #[verifier::rlimit(100)]
    pub fn validate(&self) -> (r: Result<(), FlowError>)
        requires
            self.wf(),
        ensures
            match r {
                Ok(()) => exists|start: Seq<char>|
                    is_start_node(self@, start) && all_reachable(self@, start),
                Err(e) => match e@ {
                    FlowErrorView::CycleDetected(path) => is_cycle(self@.edges, path),
                    FlowErrorView::NoStartNodes => forall|k: Seq<char>| !is_start_node(self@, k),
                    FlowErrorView::UnreachableNodes(ids) => ids.len() > 0 && exists|
                        start: Seq<char>,
                    | is_start_node(self@, start) && all_other_reachable(self@, start, ids),
                    _ => false,
                },
            },
    {
        match self.find_cycle() {
            Some(path) => {
                let err = FlowError::CycleDetected(path);
                proof {
                    match err@ {
                        FlowErrorView::CycleDetected(pv) => {
                            assert(pv =~= str_seq_view(path@));
                            assert(is_cycle(self@.edges, pv));
                        },
                        _ => {},
                    }
                }
                return Err(err);
            },
            None => {},
        }
        let node_ids = self.collect_node_ids();
        let start_index = match self.find_start_index(&node_ids) {
            Some(i) => i,
            None => {
                return Err(FlowError::NoStartNodes);
            },
        };
        let start = node_ids[start_index].clone();
        let marked = self.mark_reachable(&node_ids, &start);
        let mut unreached: Vec<String> = Vec::new();
        let n = node_ids.len();
        let mut i: usize = 0;
        while i < n
            invariant
                i <= n,
                n == node_ids@.len(),
                forall|j: int|
                    0 <= j < unreached@.len() ==> self@.nodes.contains_key(
                        (#[trigger] unreached@[j])@,
                    ),
                forall|j: int|
                    0 <= j < i ==> str_seq_view(marked@).contains((#[trigger] node_ids@[j])@)
                        || str_seq_view(unreached@).contains(node_ids@[j]@),
            decreases n - i,
        {
            let ghost u0 = unreached@;
            if !ids_contain(&marked, &node_ids[i]) {
                unreached.push(node_ids[i].clone());
                proof {
                    assert(str_seq_view(unreached@)[unreached@.len() - 1] == node_ids@[i as int]@);
                    assert forall|j: int| 0 <= j < i + 1 implies str_seq_view(marked@).contains(
                        (#[trigger] node_ids@[j])@,
                    ) || str_seq_view(unreached@).contains(node_ids@[j]@) by {
                        if j < i {
                            if str_seq_view(u0).contains(node_ids@[j]@) {
                                let t = choose|t: int|
                                    0 <= t < str_seq_view(u0).len() && str_seq_view(u0)[t]
                                        == node_ids@[j]@;
                                assert(str_seq_view(unreached@)[t] == str_seq_view(u0)[t]);
                                assert(str_seq_view(unreached@).contains(node_ids@[j]@));
                            }
                        } else {
                            assert(str_seq_view(unreached@).contains(node_ids@[j]@));
                        }
                    }
                }
            } else {
                proof {
                    let t = choose|t: int|
                        0 <= t < marked@.len() && (#[trigger] marked@[t])@ == node_ids@[i as int]@;
                    assert(str_seq_view(marked@)[t] == node_ids@[i as int]@);
                    assert(str_seq_view(marked@).contains(node_ids@[i as int]@));
                }
            }
            i += 1;
        }
        if unreached.len() > 0 {
            let err = FlowError::UnreachableNodes(unreached);
            proof {
                match err@ {
                    FlowErrorView::UnreachableNodes(ids_t) => {
                        assert(ids_t =~= str_seq_view(unreached@));
                        assert(is_start_node(self@, start@));
                        assert forall|k: Seq<char>|
                            #[trigger] self@.nodes.contains_key(k) && !ids_t.contains(k) implies
                            reachable(self@.edges, start@, k) by {
                            let j = choose|j: int|
                                0 <= j < node_ids@.len() && (#[trigger] node_ids@[j])@ == k;
                            if str_seq_view(unreached@).contains(k) {
                                let t = choose|t: int|
                                    0 <= t < str_seq_view(unreached@).len() && str_seq_view(
                                        unreached@,
                                    )[t] == k;
                                assert(ids_t[t] == k);
                                assert(ids_t.contains(k));
                            } else {
                                assert(str_seq_view(marked@).contains(node_ids@[j]@));
                                let t = choose|t: int|
                                    0 <= t < str_seq_view(marked@).len() && str_seq_view(marked@)[t]
                                        == k;
                                assert(marked@[t]@ == k);
                                assert(reachable(self@.edges, start@, marked@[t]@));
                            }
                        }
                        assert(all_other_reachable(self@, start@, ids_t));
                    },
                    _ => {},
                }
            }
            return Err(err);
        }
        proof {
            assert forall|k: Seq<char>| #[trigger] self@.nodes.contains_key(k) implies reachable(
                self@.edges,
                start@,
                k,
            ) by {
                let j = choose|j: int| 0 <= j < node_ids@.len() && (#[trigger] node_ids@[j])@ == k;
                assert(str_seq_view(marked@).contains(node_ids@[j]@));
                let t = choose|t: int|
                    0 <= t < str_seq_view(marked@).len() && str_seq_view(marked@)[t] == k;
                assert(marked@[t]@ == k);
                assert(reachable(self@.edges, start@, marked@[t]@));
            }
            assert(all_reachable(self@, start@));
            assert(is_start_node(self@, start@));
        }
        Ok(())
    }

    /// A shared borrow of the step under this id.
    pub fn get_node(&self, node_id: &str) -> (r: Result<&Node<A>, FlowError>)
        requires
            self.wf(),
        ensures
            match r {
                Ok(node) => self@.nodes.contains_key(node_id@) && node@ == self@.nodes[node_id@]
                    && node.wf(),
                Err(e) => !self@.nodes.contains_key(node_id@) && e@
                    == FlowErrorView::NodeNotFound(node_id@),
            },
    {
        match self.nodes.get(node_id) {
            Some(node) => Ok(node),
            None => Err(FlowError::NodeNotFound(node_id.to_owned())),
        }
    }

    /// A mutable borrow of the step under an id the graph holds. The graph
    /// stays sound as long as the borrower keeps the step's id and the
    /// soundness of its context, as every method of [`Node`] does.
    pub fn get_node_mut(&mut self, node_id: &str) -> (r: &mut Node<A>)
        requires
            old(self).wf(),
            old(self)@.nodes.contains_key(node_id@),
        ensures
            r.wf(),
            r@ == old(self)@.nodes[node_id@],
            r@.id == node_id@,
            final(self)@.nodes == old(self)@.nodes.insert(node_id@, final(r)@),
            final(self)@.edges == old(self)@.edges,
            (final(r).wf() && final(r)@.id == node_id@) ==> final(self).wf(),
    {
        let r = self.nodes.get_mut(node_id);
        proof {
            lemma_map_values_insert(old(self).nodes@, node_id@, *final(r), node_view_fn::<A>());
        }
        r
    }

    /// Picks the next step from the current one: evaluates each outgoing
    /// transition's guard against the context, in registration order, and
    /// returns the target of the first that passes; `None` when none does.
    #[verifier::loop_isolation(false)]
    pub fn find_next_node(&self, current_node_id: &str, context: &NodeContext) -> (r: Option<
        String,
    >)
        requires
            self.wf(),
            context.wf(),
        ensures
            match r {
                Some(target) => spec_find_next_node(self@.edges, current_node_id@, context@)
                    == Some(target@),
                None => spec_find_next_node(self@.edges, current_node_id@, context@) is None,
            },
    {
        let current: String = current_node_id.to_owned();
        let ghost all = self@.edges;
        proof {
            assert(all.skip(0) =~= all);
        }
        let mut i: usize = 0;
        while i < self.edges.len()
            invariant
                i <= all.len(),
                spec_find_next_node(all, current_node_id@, context@) == spec_find_next_node(
                    all.skip(i as int),
                    current_node_id@,
                    context@,
                ),
            decreases all.len() - i,
        {
            proof {
                assert(all.skip(i as int)[0] == all[i as int]);
                assert(all.skip(i as int).drop_first() =~= all.skip(i as int + 1));
            }
            let matches_source = self.edges[i].source_node_id == current;
            if matches_source {
                if self.edges[i].evaluate(context) {
                    return Some(self.edges[i].target_node_id.clone());
                }
            }
            i += 1;
        }
        proof {
            assert(all.skip(all.len() as int) =~= Seq::<EdgeView<C>>::empty());
        }
        None
    }
}

/// A well-formed graph's transitions have pairwise distinct ids and
/// endpoints the graph holds.
pub proof fn lemma_graph_wf_facts<A: Action, C: Condition>(g: &FlowGraph<A, C>)
    requires
        g.wf(),
    ensures
        forall|i: int, j: int|
            0 <= i < j < g@.edges.len() ==> (#[trigger] g@.edges[i].id) != (#[trigger] g@.edges[j].id),
        forall|i: int|
            0 <= i < g@.edges.len() ==> g@.nodes.contains_key(
                (#[trigger] g@.edges[i]).source_node_id,
            ) && g@.nodes.contains_key(g@.edges[i].target_node_id),
{
    assert forall|i: int, j: int| 0 <= i < j < g@.edges.len() implies (#[trigger] g@.edges[i].id)
        != (#[trigger] g@.edges[j].id) by {
        assert(g@.edges[i] == g.edges@[i]@);
        assert(g@.edges[j] == g.edges@[j]@);
    }
    assert forall|i: int| 0 <= i < g@.edges.len() implies g@.nodes.contains_key(
        (#[trigger] g@.edges[i]).source_node_id,
    ) && g@.nodes.contains_key(g@.edges[i].target_node_id) by {
        assert(g@.edges[i] == g.edges@[i]@);
        assert(g.nodes@.contains_key(g.edges@[i]@.source_node_id));
        assert(g.nodes@.contains_key(g.edges@[i]@.target_node_id));
    }
}

/// Whether the graph has a transition from one step to another.
pub open spec fn edge_from_to<C: Condition>(
    edges: Seq<EdgeView<C>>,
    a: Seq<char>,
    b: Seq<char>,
) -> bool {
    exists|i: int|
        0 <= i < edges.len() && (#[trigger] edges[i]).source_node_id == a && edges[i].target_node_id
            == b
}

/// A genuine cycle: at least one transition long, returning to its first
/// step, each hop a transition of the graph.
pub open spec fn is_cycle<C: Condition>(edges: Seq<EdgeView<C>>, path: Seq<Seq<char>>) -> bool {
    &&& path.len() >= 2
    &&& path[0] == path[path.len() - 1]
    &&& forall|j: int| 0 <= j < path.len() - 1 ==> edge_from_to(edges, path[j], #[trigger] path[j + 1])
}

/// Some transition enters the step.
pub open spec fn has_entry<C: Condition>(edges: Seq<EdgeView<C>>, k: Seq<char>) -> bool {
    exists|e: int| 0 <= e < edges.len() && (#[trigger] edges[e]).target_node_id == k
}

/// A step no transition enters: where a traversal can start.
pub open spec fn is_start_node<A: Action, C: Condition>(
    g: FlowGraphView<A, C>,
    k: Seq<char>,
) -> bool {
    g.nodes.contains_key(k) && !has_entry(g.edges, k)
}

/// A walk of the graph: nonempty, and each hop a transition.
pub open spec fn is_walk<C: Condition>(edges: Seq<EdgeView<C>>, path: Seq<Seq<char>>) -> bool {
    &&& path.len() >= 1
    &&& forall|j: int| 0 <= j < path.len() - 1 ==> edge_from_to(edges, path[j], #[trigger] path[j + 1])
}

/// One step is reachable from another: some walk leads from the first to
/// the second.
pub open spec fn reachable<C: Condition>(
    edges: Seq<EdgeView<C>>,
    a: Seq<char>,
    b: Seq<char>,
) -> bool {
    exists|path: Seq<Seq<char>>|
        #[trigger] is_walk(edges, path) && path[0] == a && path[path.len() - 1] == b
}

/// Every step of the graph is reachable from the start.
pub open spec fn all_reachable<A: Action, C: Condition>(
    g: FlowGraphView<A, C>,
    start: Seq<char>,
) -> bool {
    forall|k: Seq<char>| #[trigger] g.nodes.contains_key(k) ==> reachable(g.edges, start, k)
}

/// Every step of the graph outside the listed ones is reachable from the
/// start.
pub open spec fn all_other_reachable<A: Action, C: Condition>(
    g: FlowGraphView<A, C>,
    start: Seq<char>,
    ids: Seq<Seq<char>>,
) -> bool {
    forall|k: Seq<char>|
        #[trigger] g.nodes.contains_key(k) && !ids.contains(k) ==> reachable(g.edges, start, k)
}

/// Reachability extends along a transition.
proof fn lemma_reachable_step<C: Condition>(
    edges: Seq<EdgeView<C>>,
    a: Seq<char>,
    b: Seq<char>,
    c: Seq<char>,
)
    requires
        reachable(edges, a, b),
        edge_from_to(edges, b, c),
    ensures
        reachable(edges, a, c),
{
    let path = choose|path: Seq<Seq<char>>|
        #[trigger] is_walk(edges, path) && path[0] == a && path[path.len() - 1] == b;
    let path2 = path.push(c);
    assert forall|j: int| 0 <= j < path2.len() - 1 implies edge_from_to(
        edges,
        path2[j],
        #[trigger] path2[j + 1],
    ) by {
        if j < path.len() - 1 {
            assert(path2[j] == path[j] && path2[j + 1] == path[j + 1]);
        } else {
            assert(path2[j] == b && path2[j + 1] == c);
        }
    }
    assert(is_walk(edges, path2) && path2[0] == a && path2[path2.len() - 1] == c);
}

/// Every step reaches itself by the one-step walk.
proof fn lemma_reachable_self<C: Condition>(edges: Seq<EdgeView<C>>, a: Seq<char>)
    ensures
        reachable(edges, a, a),
{
    let path = seq![a];
    assert(is_walk(edges, path) && path[0] == a && path[path.len() - 1] == a);
}


/// Some transition into the step comes from one of the listed steps.
pub open spec fn has_entry_from<C: Condition>(
    edges: Seq<EdgeView<C>>,
    ids: Seq<Seq<char>>,
    k: Seq<char>,
) -> bool {
    exists|e: int|
        0 <= e < edges.len() && (#[trigger] edges[e]).target_node_id == k && ids.contains(
            edges[e].source_node_id,
        )
}

/// Every listed step has an incoming transition whose source is also
/// listed: the shape left when no step without one can be trimmed.
pub open spec fn well_entered<C: Condition>(edges: Seq<EdgeView<C>>, ids: Seq<Seq<char>>) -> bool {
    forall|j: int| 0 <= j < ids.len() ==> has_entry_from(edges, ids, #[trigger] ids[j])
}

/// The ids in a vector, as their character sequences.
pub open spec fn str_seq_view(s: Seq<String>) -> Seq<Seq<char>> {
    Seq::new(s.len(), |i: int| s[i]@)
}

/// Whether a vector of ids holds one, looked up by string equality.
fn ids_contain(ids: &Vec<String>, id: &String) -> (r: bool)
    ensures
        r == (exists|i: int| 0 <= i < ids@.len() && (#[trigger] ids@[i])@ == id@),
{
    let mut i: usize = 0;
    while i < ids.len()
        invariant
            i <= ids@.len(),
            forall|j: int| 0 <= j < i ==> (#[trigger] ids@[j])@ != id@,
        decreases ids@.len() - i,
    {
        if ids[i] == *id {
            proof {
                assert(0 <= i < ids@.len() && ids@[i as int]@ == id@);
            }
            return true;
        }
        i += 1;
    }
    false
}

/// The index of an id in a vector of ids that holds it.
fn ids_index_of(ids: &Vec<String>, id: &String) -> (r: usize)
    requires
        exists|i: int| 0 <= i < ids@.len() && (#[trigger] ids@[i])@ == id@,
    ensures
        r < ids@.len(),
        ids@[r as int]@ == id@,
    decreases ids@.len(),
{
    let mut i: usize = 0;
    loop
        invariant
            i <= ids@.len(),
            forall|j: int| 0 <= j < i ==> (#[trigger] ids@[j])@ != id@,
            exists|j: int| 0 <= j < ids@.len() && (#[trigger] ids@[j])@ == id@,
        decreases ids@.len() - i,
    {
        proof {
            if i as int == ids@.len() {
                let jw = choose|j: int| 0 <= j < ids@.len() && (#[trigger] ids@[j])@ == id@;
                assert(ids@[jw]@ != id@);
            }
        }
        let n = ids.len();
        proof {
            assert(i < n);
        }
        if ids[i] == *id {
            return i;
        }
        i += 1;
    }
}

/// Assembles a [`FlowGraph`] from steps and transitions, added in the
/// order given.
#[derive(Debug)]
pub struct FlowGraphBuilder<A: Action, C: Condition> {
    nodes: Vec<Node<A>>,
    edges: Vec<Edge<C>>,
}

/// Spec-level shape of a [`FlowGraphBuilder`].
#[verifier::ext_equal]
pub struct FlowGraphBuilderView<A: Action, C: Condition> {
    pub nodes: Seq<NodeView<A>>,
    pub edges: Seq<EdgeView<C>>,
}

impl<A: Action, C: Condition> View for FlowGraphBuilder<A, C> {
    type V = FlowGraphBuilderView<A, C>;

    closed spec fn view(&self) -> FlowGraphBuilderView<A, C> {
        FlowGraphBuilderView {
            nodes: node_seq_view(self.nodes@),
            edges: edge_seq_view(self.edges@),
        }
    }
}

/// What [`FlowGraphBuilder::build`] does after all steps are in: appends
/// the transitions one by one, stopping at the first rejection.
pub open spec fn spec_build_edges<A: Action, C: Condition>(
    g: FlowGraphView<A, C>,
    edges: Seq<EdgeView<C>>,
) -> Result<FlowGraphView<A, C>, FlowErrorView>
    decreases edges.len(),
{
    if edges.len() == 0 {
        Ok(g)
    } else {
        match spec_add_edge(g, edges[0]) {
            Ok(g2) => spec_build_edges(g2, edges.drop_first()),
            Err(e) => Err(e),
        }
    }
}

/// What [`FlowGraphBuilder::build`] does: stores the steps one by one and
/// then the transitions, stopping at the first rejection.
pub open spec fn spec_build<A: Action, C: Condition>(
    g: FlowGraphView<A, C>,
    nodes: Seq<NodeView<A>>,
    edges: Seq<EdgeView<C>>,
) -> Result<FlowGraphView<A, C>, FlowErrorView>
    decreases nodes.len(),
{
    if nodes.len() == 0 {
        spec_build_edges(g, edges)
    } else {
        match spec_add_node(g, nodes[0]) {
            Ok(g2) => spec_build(g2, nodes.drop_first(), edges),
            Err(e) => Err(e),
        }
    }
}

/// The empty graph, as a view.
pub open spec fn empty_graph_view<A: Action, C: Condition>() -> FlowGraphView<A, C> {
    FlowGraphView { nodes: Map::empty(), edges: Seq::empty() }
}

impl<A: Action, C: Condition> FlowGraphBuilder<A, C> {
    /// Internal shape: every queued step's context is sound.
    pub closed spec fn nodes_wf(&self) -> bool {
        forall|i: int| 0 <= i < self.nodes@.len() ==> (#[trigger] self.nodes@[i]).wf()
    }

    /// An empty builder.
    pub fn new() -> (r: FlowGraphBuilder<A, C>)
        ensures
            r@.nodes == Seq::<NodeView<A>>::empty(),
            r@.edges == Seq::<EdgeView<C>>::empty(),
            r.nodes_wf(),
    {
        let r = FlowGraphBuilder { nodes: Vec::new(), edges: Vec::new() };
        proof {
            assert(r@.nodes =~= Seq::<NodeView<A>>::empty());
            assert(r@.edges =~= Seq::<EdgeView<C>>::empty());
        }
        r
    }

    /// Queues a step.
    pub fn with_node(self, node: Node<A>) -> (r: FlowGraphBuilder<A, C>)
        requires
            node.wf(),
        ensures
            r@.nodes == self@.nodes.push(node@),
            r@.edges == self@.edges,
            self.nodes_wf() ==> r.nodes_wf(),
    {
        let mut s = self;
        s.nodes.push(node);
        proof {
            assert(s@.nodes =~= self@.nodes.push(node@));
            assert(s@.edges =~= self@.edges);
            if self.nodes_wf() {
                assert forall|i: int| 0 <= i < s.nodes@.len() implies (#[trigger] s.nodes@[i]).wf()
                    by {
                    if i < self.nodes@.len() {
                        assert(self.nodes@[i].wf());
                    }
                }
            }
        }
        s
    }

    /// Queues a transition.
    pub fn with_edge(self, edge: Edge<C>) -> (r: FlowGraphBuilder<A, C>)
        ensures
            r@.nodes == self@.nodes,
            r@.edges == self@.edges.push(edge@),
            self.nodes_wf() ==> r.nodes_wf(),
    {
        let mut s = self;
        s.edges.push(edge);
        proof {
            assert(s@.nodes =~= self@.nodes);
            assert(s@.edges =~= self@.edges.push(edge@));
        }
        s
    }

    /// Builds the graph: all steps first, then all transitions, in the
    /// order queued; the first rejection aborts the build.
    #[verifier::loop_isolation(false)]
    pub fn build(self) -> (r: Result<FlowGraph<A, C>, FlowError>)
        requires
            self.nodes_wf(),
        ensures
            match r {
                Ok(g) => g.wf() && spec_build(empty_graph_view::<A, C>(), self@.nodes, self@.edges)
                    == Ok::<_, FlowErrorView>(g@),
                Err(e) => spec_build(empty_graph_view::<A, C>(), self@.nodes, self@.edges)
                    == Err::<FlowGraphView<A, C>, _>(e@),
            },
    {
        let ghost nodes0 = self@.nodes;
        let ghost edges0 = self@.edges;
        let mut flow_graph: FlowGraph<A, C> = FlowGraph::new();
        proof {
            assert(flow_graph@ =~= empty_graph_view::<A, C>());
        }
        let mut s = self;
        let ghost ev0 = s.edges@;
        let ghost mut i: int = 0;
        proof {
            assert(node_seq_view(s.nodes@) =~= nodes0.skip(0));
            assert(nodes0.skip(0) =~= nodes0);
        }
        while s.nodes.len() > 0
            invariant
                s.edges@ == ev0,
                0 <= i,
                i + s.nodes@.len() == nodes0.len(),
                node_seq_view(s.nodes@) == nodes0.skip(i),
                forall|j: int| 0 <= j < s.nodes@.len() ==> (#[trigger] s.nodes@[j]).wf(),
                flow_graph.wf(),
                spec_build(empty_graph_view::<A, C>(), nodes0, edges0) == spec_build(
                    flow_graph@,
                    nodes0.skip(i),
                    edges0,
                ),
            decreases s.nodes@.len(),
        {
            let ghost before = s.nodes@;
            let node = s.nodes.remove(0);
            proof {
                assert(node@ == node_seq_view(before)[0]);
                assert(node@ == nodes0.skip(i)[0]);
                assert(nodes0.skip(i).drop_first() =~= nodes0.skip(i + 1));
                assert forall|j: int| 0 <= j < s.nodes@.len() implies node_seq_view(s.nodes@)[j]
                    == nodes0.skip(i + 1)[j] by {
                    assert(s.nodes@[j] == before[j + 1]);
                    assert(node_seq_view(before)[j + 1] == before[j + 1]@);
                }
                assert(node_seq_view(s.nodes@) =~= nodes0.skip(i + 1));
            }
            match flow_graph.add_node(node) {
                Ok(()) => {},
                Err(e) => {
                    return Err(e);
                },
            }
            proof {
                i = i + 1;
            }
        }
        proof {
            assert(nodes0.skip(i) =~= Seq::<NodeView<A>>::empty());
            assert(edge_seq_view(s.edges@) =~= edges0.skip(0));
            assert(edges0.skip(0) =~= edges0);
        }
        let ghost mut k: int = 0;
        while s.edges.len() > 0
            invariant
                0 <= k,
                k + s.edges@.len() == edges0.len(),
                edge_seq_view(s.edges@) == edges0.skip(k),
                flow_graph.wf(),
                spec_build_edges(flow_graph@, edges0.skip(k)) == spec_build(
                    empty_graph_view::<A, C>(),
                    nodes0,
                    edges0,
                ),
            decreases s.edges@.len(),
        {
            let ghost before = s.edges@;
            let edge = s.edges.remove(0);
            proof {
                assert(edge@ == edge_seq_view(before)[0]);
                assert(edge@ == edges0.skip(k)[0]);
                assert(edges0.skip(k).drop_first() =~= edges0.skip(k + 1));
                assert forall|j: int| 0 <= j < s.edges@.len() implies edge_seq_view(s.edges@)[j]
                    == edges0.skip(k + 1)[j] by {
                    assert(s.edges@[j] == before[j + 1]);
                    assert(edge_seq_view(before)[j + 1] == before[j + 1]@);
                }
                assert(edge_seq_view(s.edges@) =~= edges0.skip(k + 1));
            }
            match flow_graph.add_edge(edge) {
                Ok(()) => {},
                Err(e) => {
                    return Err(e);
                },
            }
            proof {
                k = k + 1;
            }
        }
        proof {
            assert(edges0.skip(k) =~= Seq::<EdgeView<C>>::empty());
        }
        Ok(flow_graph)
    }
}

} // verus!
