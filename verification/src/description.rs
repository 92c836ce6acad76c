//! Loading whole steps, transitions and graphs from a data description:
//! the `{nodes: [...], edges: [...]}` document format.

use vstd::prelude::*;

use crate::action::Action;
use crate::condition::Condition;
use crate::deserialize::{
    actions_built, conditions_built, deserialize_actions_from_list,
    deserialize_conditions_from_list, spec_action_descriptors, spec_condition_descriptors,
    DeserializeActionError, DeserializeErrorView,
};
use crate::edge::{Edge, EdgeView};
use crate::flow_graph::{FlowError, FlowErrorView, FlowGraph};
use crate::json::{json_parse, parse_json_text};
use crate::node::{Node, NodeView};
use crate::registry::{ActionRegistry, ConditionRegistry};
use crate::strmap::pairs_map;
use crate::value::{obj_get, value_seq_view, FlowValue, ValueView};

verus! {

broadcast use vstd::std_specs::vec::group_vec_axioms, vstd::seq::group_seq_axioms,
    vstd::map::group_map_axioms, vstd::set::group_set_axioms;

/// The deterministic part of a described step: its identity, display
/// strings, seeded context entries, and the raw pipeline descriptors.
#[verifier::ext_equal]
pub struct NodeDescView {
    pub id: Seq<char>,
    pub node_type: Seq<char>,
    pub name: Seq<char>,
    pub description: Seq<char>,
    pub variables: Seq<(Seq<char>, ValueView)>,
    pub action_items: Seq<ValueView>,
}

/// What a step description resolves to: its shape is checked field by
/// field; the pipeline descriptors are carried through unresolved.
pub open spec fn spec_node_desc(v: ValueView) -> Result<NodeDescView, DeserializeErrorView> {
    if !(v matches ValueView::Object(_)) {
        Err(DeserializeErrorView::ParseError("node description is not an object"@))
    } else if !(obj_get(v, "id"@) matches Some(ValueView::Str(_))) {
        Err(DeserializeErrorView::ParseError("node description needs a string id"@))
    } else if !(obj_get(v, "node_type"@) matches Some(ValueView::Str(_))) {
        Err(DeserializeErrorView::ParseError("node description needs a string node_type"@))
    } else if !(obj_get(v, "name"@) matches Some(ValueView::Str(_))) {
        Err(DeserializeErrorView::ParseError("node description needs a string name"@))
    } else if !(obj_get(v, "description"@) matches Some(ValueView::Str(_))) {
        Err(DeserializeErrorView::ParseError("node description needs a string description"@))
    } else if !(obj_get(v, "node_context"@) matches Some(ValueView::Object(_)))
        || !(obj_get(obj_get(v, "node_context"@)->Some_0, "variables"@) matches Some(
        ValueView::Object(_),
    )) {
        Err(
            DeserializeErrorView::ParseError(
                "node description needs a node_context with a variables object"@,
            ),
        )
    } else if !(match obj_get(v, "actions"@) {
        Some(actions) => actions matches ValueView::List(_),
        None => true,
    }) {
        Err(DeserializeErrorView::ParseError("actions must be a list"@))
    } else {
        Ok(
            NodeDescView {
                id: obj_get(v, "id"@)->Some_0->Str_0,
                node_type: obj_get(v, "node_type"@)->Some_0->Str_0,
                name: obj_get(v, "name"@)->Some_0->Str_0,
                description: obj_get(v, "description"@)->Some_0->Str_0,
                variables: obj_get(obj_get(v, "node_context"@)->Some_0, "variables"@)
                    ->Some_0->Object_0,
                action_items: match obj_get(v, "actions"@) {
                    Some(actions) => actions->List_0,
                    None => Seq::empty(),
                },
            },
        )
    }
}

/// The deterministic part of a described transition: its identity, its
/// endpoints, and the raw guard descriptors.
#[verifier::ext_equal]
pub struct EdgeDescView {
    pub id: Seq<char>,
    pub source_node_id: Seq<char>,
    pub target_node_id: Seq<char>,
    pub condition_items: Seq<ValueView>,
}

/// What a transition description resolves to.
pub open spec fn spec_edge_desc(v: ValueView) -> Result<EdgeDescView, DeserializeErrorView> {
    if !(v matches ValueView::Object(_)) {
        Err(DeserializeErrorView::ParseError("edge description is not an object"@))
    } else if !(obj_get(v, "id"@) matches Some(ValueView::Str(_))) {
        Err(DeserializeErrorView::ParseError("edge description needs a string id"@))
    } else if !(obj_get(v, "source_node_id"@) matches Some(ValueView::Str(_))) {
        Err(DeserializeErrorView::ParseError("edge description needs a string source_node_id"@))
    } else if !(obj_get(v, "target_node_id"@) matches Some(ValueView::Str(_))) {
        Err(DeserializeErrorView::ParseError("edge description needs a string target_node_id"@))
    } else if !(match obj_get(v, "conditions"@) {
        Some(conditions) => conditions matches ValueView::List(_),
        None => true,
    }) {
        Err(DeserializeErrorView::ParseError("conditions must be a list"@))
    } else {
        Ok(
            EdgeDescView {
                id: obj_get(v, "id"@)->Some_0->Str_0,
                source_node_id: obj_get(v, "source_node_id"@)->Some_0->Str_0,
                target_node_id: obj_get(v, "target_node_id"@)->Some_0->Str_0,
                condition_items: match obj_get(v, "conditions"@) {
                    Some(conditions) => conditions->List_0,
                    None => Seq::empty(),
                },
            },
        )
    }
}

/// The pinned-down part of a loaded step: everything but the built
/// pipeline instances matches the description, and the pipeline satisfies
/// the constructor tie.
pub open spec fn node_matches_desc<A: Action, F: Fn(&FlowValue, &FlowValue, &FlowValue) -> A>(
    node: NodeView<A>,
    d: NodeDescView,
    reg: Map<Seq<char>, F>,
) -> bool {
    &&& node.id == d.id
    &&& node.node_type == d.node_type
    &&& node.name == d.name
    &&& node.description == d.description
    &&& node.context == pairs_map(d.variables)
    &&& spec_action_descriptors(d.action_items, reg.dom()) matches Ok(descs) && actions_built(
        descs,
        reg,
        node.actions,
    )
}

/// The pinned-down part of a loaded transition.
pub open spec fn edge_matches_desc<C: Condition, F: Fn(&FlowValue, &FlowValue) -> C>(
    edge: EdgeView<C>,
    d: EdgeDescView,
    reg: Map<Seq<char>, F>,
) -> bool {
    &&& edge.id == d.id
    &&& edge.source_node_id == d.source_node_id
    &&& edge.target_node_id == d.target_node_id
    &&& spec_condition_descriptors(d.condition_items, reg.dom()) matches Ok(descs)
        && conditions_built(descs, reg, edge.conditions)
}

/// Builds one step from its description: the identity and context come
/// from the description, the pipeline from the action registry.
#[verifier::loop_isolation(false)]
pub fn node_from_value<A: Action, F: Fn(&FlowValue, &FlowValue, &FlowValue) -> A>(
    v: &FlowValue,
    action_registry: &ActionRegistry<F>,
) -> (r: Result<Node<A>, DeserializeActionError>)
    requires
        action_registry.wf(),
        forall|t: Seq<char>, a: &FlowValue, b: &FlowValue, c: &FlowValue|
            action_registry@.contains_key(t) ==> #[trigger] call_requires(
                action_registry@[t],
                (a, b, c),
            ),
    ensures
        match r {
            Ok(node) => node.wf() && (spec_node_desc(v@) matches Ok(d) && node_matches_desc(
                node@,
                d,
                action_registry@,
            )),
            Err(e) => spec_node_desc(v@) == Err::<NodeDescView, _>(e@) || (spec_node_desc(v@)
                matches Ok(d) && spec_action_descriptors(d.action_items, action_registry@.dom())
                == Err::<Seq<(Seq<char>, ValueView, ValueView, ValueView)>, _>(e@)),
        },
{
    if v.as_object().is_none() {
        return Err(
            DeserializeActionError::ParseError("node description is not an object".to_owned()),
        );
    }
    let id = match v.get_key("id") {
        Some(x) => match x.as_str() {
            Some(s) => s.clone(),
            None => {
                return Err(
                    DeserializeActionError::ParseError(
                        "node description needs a string id".to_owned(),
                    ),
                );
            },
        },
        None => {
            return Err(
                DeserializeActionError::ParseError(
                    "node description needs a string id".to_owned(),
                ),
            );
        },
    };
    let node_type = match v.get_key("node_type") {
        Some(x) => match x.as_str() {
            Some(s) => s.clone(),
            None => {
                return Err(
                    DeserializeActionError::ParseError(
                        "node description needs a string node_type".to_owned(),
                    ),
                );
            },
        },
        None => {
            return Err(
                DeserializeActionError::ParseError(
                    "node description needs a string node_type".to_owned(),
                ),
            );
        },
    };
    let name = match v.get_key("name") {
        Some(x) => match x.as_str() {
            Some(s) => s.clone(),
            None => {
                return Err(
                    DeserializeActionError::ParseError(
                        "node description needs a string name".to_owned(),
                    ),
                );
            },
        },
        None => {
            return Err(
                DeserializeActionError::ParseError(
                    "node description needs a string name".to_owned(),
                ),
            );
        },
    };
    let description = match v.get_key("description") {
        Some(x) => match x.as_str() {
            Some(s) => s.clone(),
            None => {
                return Err(
                    DeserializeActionError::ParseError(
                        "node description needs a string description".to_owned(),
                    ),
                );
            },
        },
        None => {
            return Err(
                DeserializeActionError::ParseError(
                    "node description needs a string description".to_owned(),
                ),
            );
        },
    };
    let variables = match v.get_key("node_context") {
        Some(ctx) => match ctx.get_key("variables") {
            Some(vars) => match vars.as_object() {
                Some(entries) => entries,
                None => {
                    return Err(
                        DeserializeActionError::ParseError(
                            "node description needs a node_context with a variables object"
                                .to_owned(),
                        ),
                    );
                },
            },
            None => {
                return Err(
                    DeserializeActionError::ParseError(
                        "node description needs a node_context with a variables object".to_owned(),
                    ),
                );
            },
        },
        None => {
            return Err(
                DeserializeActionError::ParseError(
                    "node description needs a node_context with a variables object".to_owned(),
                ),
            );
        },
    };
    let actions_items: Option<&Vec<FlowValue>> = match v.get_key("actions") {
        Some(actions_value) => match actions_value.as_list() {
            Some(items) => Some(items),
            None => {
                return Err(DeserializeActionError::ParseError("actions must be a list".to_owned()));
            },
        },
        None => None,
    };
    let ghost d = spec_node_desc(v@)->Ok_0;
    proof {
        assert(spec_node_desc(v@) is Ok);
        crate::value::lemma_entry_seq_view(variables@);
        assert(d.variables == crate::value::entry_seq_view(variables@));
    }
    let mut node_context = crate::value::NodeContext::new();
    proof {
        assert(node_context@ =~= pairs_map(d.variables.take(0)));
    }
    let mut i: usize = 0;
    while i < variables.len()
        invariant
            i <= variables.len(),
            node_context.wf(),
            node_context@ == pairs_map(d.variables.take(i as int)),
        decreases variables.len() - i,
    {
        proof {
            assert(d.variables.take(i as int + 1).drop_last() =~= d.variables.take(i as int));
            assert(d.variables.take(i as int + 1).last() == d.variables[i as int]);
        }
        let key = variables[i].0.clone();
        let value = variables[i].1.clone();
        node_context.set_var(key, value);
        i += 1;
    }
    proof {
        assert(d.variables.take(variables@.len() as int) =~= d.variables);
    }
    let empty_actions: Vec<FlowValue> = Vec::new();
    let actions = match actions_items {
        Some(items) => {
            match deserialize_actions_from_list(items, action_registry) {
                Ok(actions) => actions,
                Err(e) => {
                    return Err(e);
                },
            }
        },
        None => {
            proof {
                assert(value_seq_view(empty_actions@) =~= Seq::<ValueView>::empty());
                assert(d.action_items =~= Seq::<ValueView>::empty());
            }
            match deserialize_actions_from_list(&empty_actions, action_registry) {
                Ok(actions) => actions,
                Err(e) => {
                    return Err(e);
                },
            }
        },
    };
    Ok(Node { id, node_type, name, description, node_context, actions })
}

/// Builds one transition from its description: the identity and endpoints
/// come from the description, the guard list from the condition registry.
pub fn edge_from_value<C: Condition, F: Fn(&FlowValue, &FlowValue) -> C>(
    v: &FlowValue,
    condition_registry: &ConditionRegistry<F>,
) -> (r: Result<Edge<C>, DeserializeActionError>)
    requires
        condition_registry.wf(),
        forall|t: Seq<char>, a: &FlowValue, b: &FlowValue|
            condition_registry@.contains_key(t) ==> #[trigger] call_requires(
                condition_registry@[t],
                (a, b),
            ),
    ensures
        match r {
            Ok(edge) => spec_edge_desc(v@) matches Ok(d) && edge_matches_desc(
                edge@,
                d,
                condition_registry@,
            ),
            Err(e) => spec_edge_desc(v@) == Err::<EdgeDescView, _>(e@) || (spec_edge_desc(v@)
                matches Ok(d) && spec_condition_descriptors(
                d.condition_items,
                condition_registry@.dom(),
            ) == Err::<Seq<(Seq<char>, ValueView, ValueView)>, _>(e@)),
        },
{
    if v.as_object().is_none() {
        return Err(
            DeserializeActionError::ParseError("edge description is not an object".to_owned()),
        );
    }
    let id = match v.get_key("id") {
        Some(x) => match x.as_str() {
            Some(s) => s.clone(),
            None => {
                return Err(
                    DeserializeActionError::ParseError(
                        "edge description needs a string id".to_owned(),
                    ),
                );
            },
        },
        None => {
            return Err(
                DeserializeActionError::ParseError(
                    "edge description needs a string id".to_owned(),
                ),
            );
        },
    };
    let source_node_id = match v.get_key("source_node_id") {
        Some(x) => match x.as_str() {
            Some(s) => s.clone(),
            None => {
                return Err(
                    DeserializeActionError::ParseError(
                        "edge description needs a string source_node_id".to_owned(),
                    ),
                );
            },
        },
        None => {
            return Err(
                DeserializeActionError::ParseError(
                    "edge description needs a string source_node_id".to_owned(),
                ),
            );
        },
    };
    let target_node_id = match v.get_key("target_node_id") {
        Some(x) => match x.as_str() {
            Some(s) => s.clone(),
            None => {
                return Err(
                    DeserializeActionError::ParseError(
                        "edge description needs a string target_node_id".to_owned(),
                    ),
                );
            },
        },
        None => {
            return Err(
                DeserializeActionError::ParseError(
                    "edge description needs a string target_node_id".to_owned(),
                ),
            );
        },
    };
    let ghost d = spec_edge_desc(v@)->Ok_0;
    let empty_conditions: Vec<FlowValue> = Vec::new();
    let conditions = match v.get_key("conditions") {
        Some(conditions_value) => match conditions_value.as_list() {
            Some(items) => {
                match deserialize_conditions_from_list(items, condition_registry) {
                    Ok(conditions) => conditions,
                    Err(e) => {
                        return Err(e);
                    },
                }
            },
            None => {
                return Err(
                    DeserializeActionError::ParseError("conditions must be a list".to_owned()),
                );
            },
        },
        None => {
            proof {
                assert(value_seq_view(empty_conditions@) =~= Seq::<ValueView>::empty());
                assert(d.condition_items =~= Seq::<ValueView>::empty());
            }
            match deserialize_conditions_from_list(&empty_conditions, condition_registry) {
                Ok(conditions) => conditions,
                Err(e) => {
                    return Err(e);
                },
            }
        },
    };
    Ok(Edge { id, source_node_id, target_node_id, conditions })
}


/// A failure while loading a whole graph: either a description or
/// deserialization problem, or a rejection by graph construction.
#[derive(Debug)]
pub enum GraphBuildError {
    Deserialize(DeserializeActionError),
    Graph(FlowError),
}

/// Spec-level shape of a [`GraphBuildError`].
pub enum GraphBuildErrorView {
    Deserialize(DeserializeErrorView),
    Graph(FlowErrorView),
}

impl View for GraphBuildError {
    type V = GraphBuildErrorView;

    open spec fn view(&self) -> GraphBuildErrorView {
        match self {
            GraphBuildError::Deserialize(e) => GraphBuildErrorView::Deserialize(e@),
            GraphBuildError::Graph(e) => GraphBuildErrorView::Graph(e@),
        }
    }
}

/// The described steps of a graph document: the `nodes` entry when it is
/// a list, nothing otherwise.
pub open spec fn graph_node_items(v: ValueView) -> Seq<ValueView> {
    match obj_get(v, "nodes"@) {
        Some(nodes) => match nodes {
            ValueView::List(items) => items,
            _ => Seq::empty(),
        },
        None => Seq::empty(),
    }
}

/// The described transitions of a graph document: the `edges` entry when
/// it is a list, nothing otherwise.
pub open spec fn graph_edge_items(v: ValueView) -> Seq<ValueView> {
    match obj_get(v, "edges"@) {
        Some(edges) => match edges {
            ValueView::List(items) => items,
            _ => Seq::empty(),
        },
        None => Seq::empty(),
    }
}

/// The id a described step declares.
pub open spec fn node_id_of(item: ValueView) -> Seq<char> {
    spec_node_desc(item)->Ok_0.id
}

/// Whether a whole graph document builds: it is an object, every step and
/// transition description resolves against the registered type names, the
/// step ids are pairwise distinct, the transition ids are pairwise
/// distinct, and every transition's endpoints are declared steps.
pub open spec fn graph_desc_ok<FA, FC>(
    v: ValueView,
    atypes: Set<Seq<char>>,
    ctypes: Set<Seq<char>>,
) -> bool {
    let nitems = graph_node_items(v);
    let eitems = graph_edge_items(v);
    &&& v matches ValueView::Object(_)
    &&& forall|i: int|
        0 <= i < nitems.len() ==> (#[trigger] spec_node_desc(nitems[i])) is Ok
            && spec_action_descriptors(spec_node_desc(nitems[i])->Ok_0.action_items, atypes) is Ok
    &&& forall|i: int, j: int|
        0 <= i < j < nitems.len() ==> node_id_of(nitems[i]) != node_id_of(nitems[j])
    &&& forall|i: int|
        0 <= i < eitems.len() ==> (#[trigger] spec_edge_desc(eitems[i])) is Ok
            && spec_condition_descriptors(
            spec_edge_desc(eitems[i])->Ok_0.condition_items,
            ctypes,
        ) is Ok
    &&& forall|i: int, j: int|
        0 <= i < j < eitems.len() ==> spec_edge_desc(eitems[i])->Ok_0.id != spec_edge_desc(
            eitems[j],
        )->Ok_0.id
    &&& forall|i: int|
        0 <= i < eitems.len() ==> (exists|j: int|
            0 <= j < nitems.len() && node_id_of(nitems[j]) == (#[trigger] spec_edge_desc(
                eitems[i],
            ))->Ok_0.source_node_id) && (exists|j: int|
            0 <= j < nitems.len() && node_id_of(nitems[j]) == spec_edge_desc(
                eitems[i],
            )->Ok_0.target_node_id)
}

/// The pinned-down part of a loaded graph: its steps are exactly the
/// described ids, each loaded from its description, and its transitions
/// mirror the description list in order.
pub open spec fn graph_loaded<
    A: Action,
    C: Condition,
    FA: Fn(&FlowValue, &FlowValue, &FlowValue) -> A,
    FC: Fn(&FlowValue, &FlowValue) -> C,
>(
    g: crate::flow_graph::FlowGraphView<A, C>,
    v: ValueView,
    areg: Map<Seq<char>, FA>,
    creg: Map<Seq<char>, FC>,
) -> bool {
    let nitems = graph_node_items(v);
    let eitems = graph_edge_items(v);
    &&& forall|k: Seq<char>|
        #[trigger] g.nodes.contains_key(k) <==> exists|i: int|
            0 <= i < nitems.len() && node_id_of(nitems[i]) == k
    &&& forall|i: int|
        0 <= i < nitems.len() ==> g.nodes.contains_key(node_id_of(nitems[i]))
            && node_matches_desc(
            g.nodes[node_id_of(#[trigger] nitems[i])],
            spec_node_desc(nitems[i])->Ok_0,
            areg,
        )
    &&& g.edges.len() == eitems.len()
    &&& forall|i: int|
        0 <= i < eitems.len() ==> edge_matches_desc(
            g.edges[i],
            spec_edge_desc(#[trigger] eitems[i])->Ok_0,
            creg,
        )
}

/// Builds a whole graph from a parsed description document: every step in
/// document order, then every transition in document order. Succeeds
/// exactly when [`graph_desc_ok`] holds of the document.
#[verifier::loop_isolation(false)]
pub fn graph_from_value<
    A: Action,
    C: Condition,
    FA: Fn(&FlowValue, &FlowValue, &FlowValue) -> A,
    FC: Fn(&FlowValue, &FlowValue) -> C,
>(
    v: &FlowValue,
    action_registry: &ActionRegistry<FA>,
    condition_registry: &ConditionRegistry<FC>,
) -> (r: Result<FlowGraph<A, C>, GraphBuildError>)
    requires
        action_registry.wf(),
        condition_registry.wf(),
        forall|t: Seq<char>, a: &FlowValue, b: &FlowValue, c: &FlowValue|
            action_registry@.contains_key(t) ==> #[trigger] call_requires(
                action_registry@[t],
                (a, b, c),
            ),
        forall|t: Seq<char>, a: &FlowValue, b: &FlowValue|
            condition_registry@.contains_key(t) ==> #[trigger] call_requires(
                condition_registry@[t],
                (a, b),
            ),
    ensures
        r is Ok <==> graph_desc_ok::<FA, FC>(v@, action_registry@.dom(), condition_registry@.dom()),
        match r {
            Ok(g) => g.wf() && graph_loaded(g@, v@, action_registry@, condition_registry@),
            Err(_) => true,
        },
{
    let ghost nitems = graph_node_items(v@);
    let ghost eitems = graph_edge_items(v@);
    if v.as_object().is_none() {
        return Err(
            GraphBuildError::Deserialize(
                DeserializeActionError::ParseError("graph description is not an object".to_owned()),
            ),
        );
    }
    let mut graph: FlowGraph<A, C> = FlowGraph::new();
    let empty_items: Vec<FlowValue> = Vec::new();
    let node_items: &Vec<FlowValue> = match v.get_key("nodes") {
        Some(nodes) => match nodes.as_list() {
            Some(items) => items,
            None => &empty_items,
        },
        None => &empty_items,
    };
    proof {
        crate::value::lemma_value_seq_view(node_items@);
        assert(value_seq_view(node_items@) =~= nitems);
    }
    let mut i: usize = 0;
    while i < node_items.len()
        invariant
            i <= node_items.len(),
            graph.wf(),
            graph@.edges == Seq::<EdgeView<C>>::empty(),
            forall|j: int|
                0 <= j < i ==> (#[trigger] spec_node_desc(nitems[j])) is Ok
                    && spec_action_descriptors(
                    spec_node_desc(nitems[j])->Ok_0.action_items,
                    action_registry@.dom(),
                ) is Ok,
            forall|a: int, b: int| 0 <= a < b < i ==> node_id_of(nitems[a]) != node_id_of(
                nitems[b],
            ),
            forall|k: Seq<char>|
                #[trigger] graph@.nodes.contains_key(k) <==> exists|j: int|
                    0 <= j < i && node_id_of(nitems[j]) == k,
            forall|j: int|
                0 <= j < i ==> graph@.nodes.contains_key(node_id_of(nitems[j]))
                    && node_matches_desc(
                    graph@.nodes[node_id_of(#[trigger] nitems[j])],
                    spec_node_desc(nitems[j])->Ok_0,
                    action_registry@,
                ),
        decreases node_items.len() - i,
    {
        let node = match node_from_value(&node_items[i], action_registry) {
            Ok(node) => node,
            Err(e) => {
                proof {
                    assert(!((spec_node_desc(nitems[i as int]) is Ok) && (spec_action_descriptors(
                        spec_node_desc(nitems[i as int])->Ok_0.action_items,
                        action_registry@.dom(),
                    ) is Ok)));
                }
                return Err(GraphBuildError::Deserialize(e));
            },
        };
        let ghost nodes_before = graph@.nodes;
        match graph.add_node(node) {
            Ok(()) => {
                proof {
                    assert(node_id_of(nitems[i as int]) == node@.id);
                    assert forall|k: Seq<char>| #[trigger] graph@.nodes.contains_key(k)
                        <==> exists|j: int| 0 <= j < i + 1 && node_id_of(nitems[j]) == k by {
                        if graph@.nodes.contains_key(k) {
                            if k == node@.id {
                                assert(node_id_of(nitems[i as int]) == k);
                            }
                        }
                        if exists|j: int| 0 <= j < i + 1 && node_id_of(nitems[j]) == k {
                            let j = choose|j: int| 0 <= j < i + 1 && node_id_of(nitems[j]) == k;
                            if j < i {
                                assert(nodes_before.contains_key(k));
                            }
                        }
                    }
                }
            },
            Err(e) => {
                proof {
                    assert(graph@.nodes.contains_key(node@.id));
                    let j = choose|j: int| 0 <= j < i && node_id_of(nitems[j]) == node@.id;
                    assert(node_id_of(nitems[j]) == node_id_of(nitems[i as int]));
                }
                return Err(GraphBuildError::Graph(e));
            },
        }
        i += 1;
    }
    let edge_items: &Vec<FlowValue> = match v.get_key("edges") {
        Some(edges) => match edges.as_list() {
            Some(items) => items,
            None => &empty_items,
        },
        None => &empty_items,
    };
    proof {
        crate::value::lemma_value_seq_view(edge_items@);
        assert(value_seq_view(edge_items@) =~= eitems);
    }
    let mut k: usize = 0;
    while k < edge_items.len()
        invariant
            k <= edge_items.len(),
            graph.wf(),
            forall|j: int|
                0 <= j < nitems.len() ==> (#[trigger] spec_node_desc(nitems[j])) is Ok
                    && spec_action_descriptors(
                    spec_node_desc(nitems[j])->Ok_0.action_items,
                    action_registry@.dom(),
                ) is Ok,
            forall|a: int, b: int|
                0 <= a < b < nitems.len() ==> node_id_of(nitems[a]) != node_id_of(nitems[b]),
            forall|kk: Seq<char>|
                #[trigger] graph@.nodes.contains_key(kk) <==> exists|j: int|
                    0 <= j < nitems.len() && node_id_of(nitems[j]) == kk,
            forall|j: int|
                0 <= j < nitems.len() ==> graph@.nodes.contains_key(node_id_of(nitems[j]))
                    && node_matches_desc(
                    graph@.nodes[node_id_of(#[trigger] nitems[j])],
                    spec_node_desc(nitems[j])->Ok_0,
                    action_registry@,
                ),
            forall|j: int|
                0 <= j < k ==> (#[trigger] spec_edge_desc(eitems[j])) is Ok
                    && spec_condition_descriptors(
                    spec_edge_desc(eitems[j])->Ok_0.condition_items,
                    condition_registry@.dom(),
                ) is Ok,
            graph@.edges.len() == k,
            forall|j: int|
                0 <= j < k ==> edge_matches_desc(
                    graph@.edges[j],
                    spec_edge_desc(#[trigger] eitems[j])->Ok_0,
                    condition_registry@,
                ),
            forall|j: int|
                0 <= j < k ==> (exists|n: int|
                    0 <= n < nitems.len() && node_id_of(nitems[n]) == (#[trigger] spec_edge_desc(
                        eitems[j],
                    ))->Ok_0.source_node_id) && (exists|n: int|
                    0 <= n < nitems.len() && node_id_of(nitems[n]) == spec_edge_desc(
                        eitems[j],
                    )->Ok_0.target_node_id),
        decreases edge_items.len() - k,
    {
        let edge = match edge_from_value(&edge_items[k], condition_registry) {
            Ok(edge) => edge,
            Err(e) => {
                proof {
                    assert(!((spec_edge_desc(eitems[k as int]) is Ok) && (spec_condition_descriptors(
                        spec_edge_desc(eitems[k as int])->Ok_0.condition_items,
                        condition_registry@.dom(),
                    ) is Ok)));
                }
                return Err(GraphBuildError::Deserialize(e));
            },
        };
        let ghost ev = edge@;
        match graph.add_edge(edge) {
            Ok(()) => {},
            Err(e) => {
                proof {
                    match e@ {
                        FlowErrorView::NodeNotFound(id) => {
                            if id == ev.source_node_id {
                                assert(!graph@.nodes.contains_key(ev.source_node_id));
                            } else {
                                assert(!graph@.nodes.contains_key(ev.target_node_id));
                            }
                        },
                        FlowErrorView::DuplicateEdge(_) => {
                            let j = choose|j: int|
                                0 <= j < graph@.edges.len() && (#[trigger] graph@.edges[j].id)
                                    == ev.id;
                            assert(spec_edge_desc(eitems[j])->Ok_0.id == spec_edge_desc(
                                eitems[k as int],
                            )->Ok_0.id);
                        },
                        _ => {},
                    }
                }
                return Err(GraphBuildError::Graph(e));
            },
        }
        k += 1;
    }
    proof {
        crate::flow_graph::lemma_graph_wf_facts(&graph);
        assert forall|a: int, b: int| 0 <= a < b < eitems.len() implies spec_edge_desc(
            eitems[a],
        )->Ok_0.id != spec_edge_desc(eitems[b])->Ok_0.id by {
            assert(graph@.edges[a].id == spec_edge_desc(eitems[a])->Ok_0.id);
            assert(graph@.edges[b].id == spec_edge_desc(eitems[b])->Ok_0.id);
        }
    }
    Ok(graph)
}

/// Structural round trip: reading the loaded graph's step and transition
/// ids gives back exactly the ids the description declares — the step ids
/// as a set, the transition ids in document order.
pub proof fn lemma_description_round_trip<
    A: Action,
    C: Condition,
    FA: Fn(&FlowValue, &FlowValue, &FlowValue) -> A,
    FC: Fn(&FlowValue, &FlowValue) -> C,
>(
    g: crate::flow_graph::FlowGraphView<A, C>,
    v: ValueView,
    areg: Map<Seq<char>, FA>,
    creg: Map<Seq<char>, FC>,
)
    requires
        graph_loaded(g, v, areg, creg),
    ensures
        forall|k: Seq<char>|
            #[trigger] g.nodes.contains_key(k) <==> exists|i: int|
                0 <= i < graph_node_items(v).len() && node_id_of(graph_node_items(v)[i]) == k,
        g.edges.len() == graph_edge_items(v).len(),
        forall|i: int|
            0 <= i < graph_edge_items(v).len() ==> (#[trigger] g.edges[i].id) == spec_edge_desc(
                graph_edge_items(v)[i],
            )->Ok_0.id,
{
    assert forall|i: int| 0 <= i < graph_edge_items(v).len() implies (#[trigger] g.edges[i].id)
        == spec_edge_desc(graph_edge_items(v)[i])->Ok_0.id by {
        assert(edge_matches_desc(g.edges[i], spec_edge_desc(graph_edge_items(v)[i])->Ok_0, creg));
    }
}

impl<A: Action> Node<A> {
    /// Loads one step from JSON text: parses the text and then builds the
    /// step as [`node_from_value`] does.
    pub fn from_json<F: Fn(&FlowValue, &FlowValue, &FlowValue) -> A>(
        json: &str,
        action_registry: &ActionRegistry<F>,
    ) -> (r: Result<Node<A>, DeserializeActionError>)
        requires
            action_registry.wf(),
            forall|t: Seq<char>, a: &FlowValue, b: &FlowValue, c: &FlowValue|
                action_registry@.contains_key(t) ==> #[trigger] call_requires(
                    action_registry@[t],
                    (a, b, c),
                ),
        ensures
            match r {
                Ok(node) => node.wf() && (json_parse(json@) matches Some(v) && (spec_node_desc(v)
                    matches Ok(d) && node_matches_desc(node@, d, action_registry@))),
                Err(e) => json_parse(json@) is None || (json_parse(json@) matches Some(v) && (
                spec_node_desc(v) == Err::<NodeDescView, _>(e@) || (spec_node_desc(v) matches Ok(d)
                    && spec_action_descriptors(d.action_items, action_registry@.dom()) == Err::<
                    Seq<(Seq<char>, ValueView, ValueView, ValueView)>,
                    _,
                >(e@)))),
            },
    {
        let v = match parse_json_text(json) {
            Ok(v) => v,
            Err(m) => {
                return Err(DeserializeActionError::ParseError(m));
            },
        };
        node_from_value(&v, action_registry)
    }
}

impl<C: Condition> Edge<C> {
    /// Loads one transition from JSON text: parses the text and then
    /// builds the transition as [`edge_from_value`] does.
    pub fn from_json<F: Fn(&FlowValue, &FlowValue) -> C>(
        json: &str,
        condition_registry: &ConditionRegistry<F>,
    ) -> (r: Result<Edge<C>, DeserializeActionError>)
        requires
            condition_registry.wf(),
            forall|t: Seq<char>, a: &FlowValue, b: &FlowValue|
                condition_registry@.contains_key(t) ==> #[trigger] call_requires(
                    condition_registry@[t],
                    (a, b),
                ),
        ensures
            match r {
                Ok(edge) => json_parse(json@) matches Some(v) && (spec_edge_desc(v) matches Ok(d)
                    && edge_matches_desc(edge@, d, condition_registry@)),
                Err(e) => json_parse(json@) is None || (json_parse(json@) matches Some(v) && (
                spec_edge_desc(v) == Err::<EdgeDescView, _>(e@) || (spec_edge_desc(v) matches Ok(d)
                    && spec_condition_descriptors(d.condition_items, condition_registry@.dom())
                    == Err::<Seq<(Seq<char>, ValueView, ValueView)>, _>(e@)))),
            },
    {
        let v = match parse_json_text(json) {
            Ok(v) => v,
            Err(m) => {
                return Err(DeserializeActionError::ParseError(m));
            },
        };
        edge_from_value(&v, condition_registry)
    }
}

impl<A: Action, C: Condition> FlowGraph<A, C> {
    /// Loads a whole graph from JSON text: parses the text and then builds
    /// the graph as [`graph_from_value`] does. Succeeds exactly when the
    /// text parses and [`graph_desc_ok`] holds of the document.
    pub fn from_json<
        FA: Fn(&FlowValue, &FlowValue, &FlowValue) -> A,
        FC: Fn(&FlowValue, &FlowValue) -> C,
    >(
        json: &str,
        action_registry: &ActionRegistry<FA>,
        condition_registry: &ConditionRegistry<FC>,
    ) -> (r: Result<FlowGraph<A, C>, GraphBuildError>)
        requires
            action_registry.wf(),
            condition_registry.wf(),
            forall|t: Seq<char>, a: &FlowValue, b: &FlowValue, c: &FlowValue|
                action_registry@.contains_key(t) ==> #[trigger] call_requires(
                    action_registry@[t],
                    (a, b, c),
                ),
            forall|t: Seq<char>, a: &FlowValue, b: &FlowValue|
                condition_registry@.contains_key(t) ==> #[trigger] call_requires(
                    condition_registry@[t],
                    (a, b),
                ),
        ensures
            r is Ok <==> (json_parse(json@) matches Some(v) && graph_desc_ok::<FA, FC>(
                v,
                action_registry@.dom(),
                condition_registry@.dom(),
            )),
            match r {
                Ok(g) => g.wf() && (json_parse(json@) matches Some(v) && graph_loaded(
                    g@,
                    v,
                    action_registry@,
                    condition_registry@,
                )),
                Err(_) => true,
            },
    {
        let v = match parse_json_text(json) {
            Ok(v) => v,
            Err(m) => {
                return Err(
                    GraphBuildError::Deserialize(DeserializeActionError::ParseError(m)),
                );
            },
        };
        graph_from_value(&v, action_registry, condition_registry)
    }
}

} // verus!
