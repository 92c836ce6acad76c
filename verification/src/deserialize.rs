//! Data-driven loading: walking a described pipeline or guard list and
//! invoking registered constructors to produce live instances.

use vstd::prelude::*;

use crate::action::Action;
use crate::condition::Condition;
use crate::registry::{ActionRegistry, ConditionRegistry};
use crate::value::{obj_get, value_seq_view, FlowValue, ValueView};

verus! {

broadcast use vstd::std_specs::vec::group_vec_axioms, vstd::seq::group_seq_axioms,
    vstd::map::group_map_axioms, vstd::set::group_set_axioms;

/// A failure while turning a data description into live instances. The
/// whole enclosing deserialization aborts: no partial instance list is
/// returned.
#[derive(Debug)]
pub enum DeserializeActionError {
    MissingName,
    MissingId,
    MissingActionType,
    MissingConfig,
    MissingInputVars,
    MissingOutputVars,
    IncorrectOutputVarsType,
    UnknownType(String),
    ParseError(String),
}

/// Spec-level shape of a [`DeserializeActionError`].
pub enum DeserializeErrorView {
    MissingName,
    MissingId,
    MissingActionType,
    MissingConfig,
    MissingInputVars,
    MissingOutputVars,
    IncorrectOutputVarsType,
    UnknownType(Seq<char>),
    ParseError(Seq<char>),
}

impl View for DeserializeActionError {
    type V = DeserializeErrorView;

    open spec fn view(&self) -> DeserializeErrorView {
        match self {
            DeserializeActionError::MissingName => DeserializeErrorView::MissingName,
            DeserializeActionError::MissingId => DeserializeErrorView::MissingId,
            DeserializeActionError::MissingActionType => DeserializeErrorView::MissingActionType,
            DeserializeActionError::MissingConfig => DeserializeErrorView::MissingConfig,
            DeserializeActionError::MissingInputVars => DeserializeErrorView::MissingInputVars,
            DeserializeActionError::MissingOutputVars => DeserializeErrorView::MissingOutputVars,
            DeserializeActionError::IncorrectOutputVarsType
                => DeserializeErrorView::IncorrectOutputVarsType,
            DeserializeActionError::UnknownType(t) => DeserializeErrorView::UnknownType(t@),
            DeserializeActionError::ParseError(m) => DeserializeErrorView::ParseError(m@),
        }
    }
}

/// Unwraps a descriptor's declared inputs: they must be present, possibly
/// empty.
pub fn deserialize_input_vars(input_vars: Option<FlowValue>) -> (r: Result<
    FlowValue,
    DeserializeActionError,
>)
    ensures
        match r {
            Ok(v) => input_vars matches Some(given) && v == given,
            Err(e) => input_vars is None && e@ == DeserializeErrorView::MissingInputVars,
        },
{
    match input_vars {
        Some(input_vars) => Ok(input_vars),
        None => Err(DeserializeActionError::MissingInputVars),
    }
}

/// What one action descriptor resolves to: skipped when it carries no
/// `action_type` string; otherwise the type name, configuration, declared
/// inputs and declared outputs — validated in that order against the
/// registered type names.
pub open spec fn spec_action_descriptor(item: ValueView, types: Set<Seq<char>>) -> Result<
    Option<(Seq<char>, ValueView, ValueView, ValueView)>,
    DeserializeErrorView,
> {
    match obj_get(item, "action_type"@) {
        Some(t) => match t {
            ValueView::Str(tname) => if !types.contains(tname) {
                Err(DeserializeErrorView::UnknownType(tname))
            } else {
                match obj_get(item, "config"@) {
                    None => Err(DeserializeErrorView::MissingConfig),
                    Some(config) => if obj_get(config, "name"@) is None {
                        Err(DeserializeErrorView::MissingName)
                    } else if obj_get(config, "id"@) is None {
                        Err(DeserializeErrorView::MissingId)
                    } else {
                        match obj_get(item, "input_vars"@) {
                            None => Err(DeserializeErrorView::MissingInputVars),
                            Some(input_vars) => match obj_get(item, "output_vars"@) {
                                None => Err(DeserializeErrorView::MissingOutputVars),
                                Some(output_vars) => if !(output_vars matches ValueView::List(_)) {
                                    Err(DeserializeErrorView::IncorrectOutputVarsType)
                                } else {
                                    Ok(Some((tname, config, input_vars, output_vars)))
                                },
                            },
                        }
                    },
                }
            },
            _ => Ok(None),
        },
        None => Ok(None),
    }
}

/// What a whole described pipeline resolves to: the resolved descriptors
/// in order, skipped entries left out; the first failing descriptor fails
/// the whole list.
pub open spec fn spec_action_descriptors(items: Seq<ValueView>, types: Set<Seq<char>>) -> Result<
    Seq<(Seq<char>, ValueView, ValueView, ValueView)>,
    DeserializeErrorView,
>
    decreases items.len(),
{
    if items.len() == 0 {
        Ok(Seq::empty())
    } else {
        match spec_action_descriptor(items[0], types) {
            Err(e) => Err(e),
            Ok(None) => spec_action_descriptors(items.drop_first(), types),
            Ok(Some(d)) => match spec_action_descriptors(items.drop_first(), types) {
                Ok(rest) => Ok(seq![d] + rest),
                Err(e) => Err(e),
            },
        }
    }
}

/// Resolving one more descriptor that is accepted.
proof fn lemma_action_descriptors_accept(items: Seq<ValueView>, types: Set<Seq<char>>, i: int)
    requires
        0 <= i < items.len(),
        spec_action_descriptors(items.take(i), types) is Ok,
        spec_action_descriptor(items[i], types) is Ok,
    ensures
        spec_action_descriptors(items.take(i + 1), types) matches Ok(ds) && ds
            == (match spec_action_descriptor(items[i], types) {
            Ok(Some(d)) => spec_action_descriptors(items.take(i), types)->Ok_0.push(d),
            _ => spec_action_descriptors(items.take(i), types)->Ok_0,
        }),
    decreases i,
{
    if i == 0 {
        assert(items.take(1)[0] == items[0]);
        assert(items.take(1).drop_first() =~= Seq::<ValueView>::empty());
        match spec_action_descriptor(items[0], types) {
            Ok(Some(d)) => {
                assert(seq![d] + Seq::<(Seq<char>, ValueView, ValueView, ValueView)>::empty()
                    =~= Seq::<(Seq<char>, ValueView, ValueView, ValueView)>::empty().push(d));
            },
            _ => {},
        }
    } else {
        assert(items.take(i)[0] == items[0]);
        assert(items.take(i + 1)[0] == items[0]);
        assert(items.take(i).drop_first() =~= items.drop_first().take(i - 1));
        assert(items.take(i + 1).drop_first() =~= items.drop_first().take(i));
        assert(items.drop_first()[i - 1] == items[i]);
        lemma_action_descriptors_accept(items.drop_first(), types, i - 1);
        match (spec_action_descriptor(items[0], types), spec_action_descriptor(items[i], types)) {
            (Ok(Some(d0)), Ok(Some(d))) => {
                let rest = spec_action_descriptors(items.drop_first().take(i - 1), types)->Ok_0;
                assert(seq![d0] + rest.push(d) =~= (seq![d0] + rest).push(d));
            },
            _ => {},
        }
    }
}

/// A failing descriptor after an accepted prefix fails the whole list.
proof fn lemma_action_descriptors_fail(items: Seq<ValueView>, types: Set<Seq<char>>, i: int)
    requires
        0 <= i < items.len(),
        spec_action_descriptors(items.take(i), types) is Ok,
        spec_action_descriptor(items[i], types) is Err,
    ensures
        spec_action_descriptors(items, types) == Err::<
            Seq<(Seq<char>, ValueView, ValueView, ValueView)>,
            DeserializeErrorView,
        >(spec_action_descriptor(items[i], types)->Err_0),
    decreases i,
{
    if i == 0 {
    } else {
        assert(items.take(i)[0] == items[0]);
        assert(items.take(i).drop_first() =~= items.drop_first().take(i - 1));
        assert(items.drop_first()[i - 1] == items[i]);
        lemma_action_descriptors_fail(items.drop_first(), types, i - 1);
    }
}

/// The pointwise tie between resolved descriptors and built instances:
/// each instance is an outcome of the registered constructor applied to
/// arguments carrying the descriptor's configuration and variable
/// declarations.
pub open spec fn actions_built<A: Action, F: Fn(&FlowValue, &FlowValue, &FlowValue) -> A>(
    descs: Seq<(Seq<char>, ValueView, ValueView, ValueView)>,
    reg: Map<Seq<char>, F>,
    actions: Seq<A>,
) -> bool {
    &&& actions.len() == descs.len()
    &&& forall|j: int|
        0 <= j < descs.len() ==> reg.contains_key((#[trigger] descs[j]).0) && (exists|
            cfg: &FlowValue,
            iv: &FlowValue,
            ov: &FlowValue,
        |
            cfg@ == descs[j].1 && iv@ == descs[j].2 && ov@ == descs[j].3 && call_ensures(
                reg[descs[j].0],
                (cfg, iv, ov),
                #[trigger] actions[j],
            ))
}


/// One more built action extends the pointwise tie.
proof fn lemma_actions_built_push<A: Action, F: Fn(&FlowValue, &FlowValue, &FlowValue) -> A>(
    descs: Seq<(Seq<char>, ValueView, ValueView, ValueView)>,
    reg: Map<Seq<char>, F>,
    actions: Seq<A>,
    d: (Seq<char>, ValueView, ValueView, ValueView),
    a: A,
)
    requires
        actions_built(descs, reg, actions),
        reg.contains_key(d.0),
        exists|cfg: &FlowValue, iv: &FlowValue, ov: &FlowValue|
            cfg@ == d.1 && iv@ == d.2 && ov@ == d.3 && call_ensures(reg[d.0], (cfg, iv, ov), a),
    ensures
        actions_built(descs.push(d), reg, actions.push(a)),
{
    let descs2 = descs.push(d);
    let actions2 = actions.push(a);
    assert forall|j: int| 0 <= j < descs2.len() implies reg.contains_key((#[trigger] descs2[j]).0)
        && (exists|cfg: &FlowValue, iv: &FlowValue, ov: &FlowValue|
        cfg@ == descs2[j].1 && iv@ == descs2[j].2 && ov@ == descs2[j].3 && call_ensures(
            reg[descs2[j].0],
            (cfg, iv, ov),
            actions2[j],
        )) by {
        if j < descs.len() {
            assert(descs2[j] == descs[j]);
            assert(actions2[j] == actions[j]);
            assert(reg.contains_key(descs[j].0));
            let (cfg, iv, ov) = choose|cfg: &FlowValue, iv: &FlowValue, ov: &FlowValue|
                cfg@ == descs[j].1 && iv@ == descs[j].2 && ov@ == descs[j].3 && call_ensures(
                    reg[descs[j].0],
                    (cfg, iv, ov),
                    actions[j],
                );
            assert(cfg@ == descs2[j].1 && iv@ == descs2[j].2 && ov@ == descs2[j].3 && call_ensures(
                reg[descs2[j].0],
                (cfg, iv, ov),
                actions2[j],
            ));
        } else {
            assert(descs2[j] == d);
            assert(actions2[j] == a);
            let (cfg, iv, ov) = choose|cfg: &FlowValue, iv: &FlowValue, ov: &FlowValue|
                cfg@ == d.1 && iv@ == d.2 && ov@ == d.3 && call_ensures(reg[d.0], (cfg, iv, ov), a);
            assert(cfg@ == descs2[j].1 && iv@ == descs2[j].2 && ov@ == descs2[j].3 && call_ensures(
                reg[descs2[j].0],
                (cfg, iv, ov),
                actions2[j],
            ));
        }
    }
}

/// Walks a described pipeline and builds each action through the registry:
/// a descriptor without an `action_type` string is skipped; an unknown
/// type name or an ill-formed descriptor aborts the whole walk, in the
/// order [`spec_action_descriptor`] fixes.
#[verifier::loop_isolation(false)]
pub fn deserialize_actions_from_list<A: Action, F: Fn(&FlowValue, &FlowValue, &FlowValue) -> A>(
    items: &Vec<FlowValue>,
    action_registry: &ActionRegistry<F>,
) -> (r: Result<Vec<A>, DeserializeActionError>)
    requires
        action_registry.wf(),
        forall|t: Seq<char>, a: &FlowValue, b: &FlowValue, c: &FlowValue|
            action_registry@.contains_key(t) ==> #[trigger] call_requires(
                action_registry@[t],
                (a, b, c),
            ),
    ensures
        match r {
            Ok(actions) => spec_action_descriptors(value_seq_view(items@), action_registry@.dom())
                matches Ok(descs) && actions_built(descs, action_registry@, actions@),
            Err(e) => spec_action_descriptors(value_seq_view(items@), action_registry@.dom())
                == Err::<Seq<(Seq<char>, ValueView, ValueView, ValueView)>, _>(e@),
        },
{
    let ghost views = value_seq_view(items@);
    proof {
        crate::value::lemma_value_seq_view(items@);
        assert(views.take(0) =~= Seq::<ValueView>::empty());
    }
    let mut actions: Vec<A> = Vec::new();
    let ghost mut descs: Seq<(Seq<char>, ValueView, ValueView, ValueView)> = Seq::empty();
    let mut i: usize = 0;
    while i < items.len()
        invariant
            i <= items.len(),
            spec_action_descriptors(views.take(i as int), action_registry@.dom()) == Ok::<
                _,
                DeserializeErrorView,
            >(descs),
            actions_built(descs, action_registry@, actions@),
        decreases items.len() - i,
    {
        let item = &items[i];
        let skip: bool;
        match item.get_key("action_type") {
            Some(t) => match t.as_str() {
                Some(tname) => {
                    let registered = action_registry.get_actions().contains_key(tname.as_str());
                    if !registered {
                        proof {
                            lemma_action_descriptors_fail(views, action_registry@.dom(), i as int);
                        }
                        return Err(DeserializeActionError::UnknownType(tname.clone()));
                    }
                    let config = match item.get_key("config") {
                        Some(config) => config,
                        None => {
                            proof {
                                lemma_action_descriptors_fail(
                                    views,
                                    action_registry@.dom(),
                                    i as int,
                                );
                            }
                            return Err(DeserializeActionError::MissingConfig);
                        },
                    };
                    if config.get_key("name").is_none() {
                        proof {
                            lemma_action_descriptors_fail(views, action_registry@.dom(), i as int);
                        }
                        return Err(DeserializeActionError::MissingName);
                    }
                    if config.get_key("id").is_none() {
                        proof {
                            lemma_action_descriptors_fail(views, action_registry@.dom(), i as int);
                        }
                        return Err(DeserializeActionError::MissingId);
                    }
                    let input_vars = match item.get_key("input_vars") {
                        Some(input_vars) => input_vars,
                        None => {
                            proof {
                                lemma_action_descriptors_fail(
                                    views,
                                    action_registry@.dom(),
                                    i as int,
                                );
                            }
                            return Err(DeserializeActionError::MissingInputVars);
                        },
                    };
                    let output_vars = match item.get_key("output_vars") {
                        Some(output_vars) => output_vars,
                        None => {
                            proof {
                                lemma_action_descriptors_fail(
                                    views,
                                    action_registry@.dom(),
                                    i as int,
                                );
                            }
                            return Err(DeserializeActionError::MissingOutputVars);
                        },
                    };
                    if output_vars.as_list().is_none() {
                        proof {
                            lemma_action_descriptors_fail(views, action_registry@.dom(), i as int);
                        }
                        return Err(DeserializeActionError::IncorrectOutputVarsType);
                    }
                    let constructor = match action_registry.get_actions().get(tname.as_str()) {
                        Some(constructor) => constructor,
                        None => {
                            proof {
                                assert(false);
                            }
                            return Err(DeserializeActionError::MissingActionType);
                        },
                    };
                    let action = constructor(config, input_vars, output_vars);
                    proof {
                        lemma_action_descriptors_accept(views, action_registry@.dom(), i as int);
                        let d = (tname@, config@, input_vars@, output_vars@);
                        assert(config@ == d.1 && input_vars@ == d.2 && output_vars@ == d.3
                            && call_ensures(
                            action_registry@[d.0],
                            (config, input_vars, output_vars),
                            action,
                        ));
                        lemma_actions_built_push(descs, action_registry@, actions@, d, action);
                        descs = descs.push(d);
                    }
                    actions.push(action);
                    skip = false;
                },
                None => {
                    skip = true;
                },
            },
            None => {
                skip = true;
            },
        }
        if skip {
            proof {
                lemma_action_descriptors_accept(views, action_registry@.dom(), i as int);
            }
        }
        i += 1;
    }
    proof {
        assert(views.take(items@.len() as int) =~= views);
    }
    Ok(actions)
}

/// What one condition descriptor resolves to: skipped when it carries no
/// `condition_type` string; otherwise the type name, the configuration
/// (null when absent) and the declared inputs, validated against the
/// registered type names.
pub open spec fn spec_condition_descriptor(item: ValueView, types: Set<Seq<char>>) -> Result<
    Option<(Seq<char>, ValueView, ValueView)>,
    DeserializeErrorView,
> {
    match obj_get(item, "condition_type"@) {
        Some(t) => match t {
            ValueView::Str(tname) => if !types.contains(tname) {
                Err(DeserializeErrorView::UnknownType(tname))
            } else {
                match obj_get(item, "input_vars"@) {
                    None => Err(DeserializeErrorView::MissingInputVars),
                    Some(input_vars) => Ok(
                        Some(
                            (
                                tname,
                                match obj_get(item, "config"@) {
                                    Some(config) => config,
                                    None => ValueView::Null,
                                },
                                input_vars,
                            ),
                        ),
                    ),
                }
            },
            _ => Ok(None),
        },
        None => Ok(None),
    }
}

/// What a whole described guard list resolves to, with the same
/// first-failure discipline as [`spec_action_descriptors`].
pub open spec fn spec_condition_descriptors(items: Seq<ValueView>, types: Set<Seq<char>>) -> Result<
    Seq<(Seq<char>, ValueView, ValueView)>,
    DeserializeErrorView,
>
    decreases items.len(),
{
    if items.len() == 0 {
        Ok(Seq::empty())
    } else {
        match spec_condition_descriptor(items[0], types) {
            Err(e) => Err(e),
            Ok(None) => spec_condition_descriptors(items.drop_first(), types),
            Ok(Some(d)) => match spec_condition_descriptors(items.drop_first(), types) {
                Ok(rest) => Ok(seq![d] + rest),
                Err(e) => Err(e),
            },
        }
    }
}

/// Resolving one more condition descriptor that is accepted.
proof fn lemma_condition_descriptors_accept(items: Seq<ValueView>, types: Set<Seq<char>>, i: int)
    requires
        0 <= i < items.len(),
        spec_condition_descriptors(items.take(i), types) is Ok,
        spec_condition_descriptor(items[i], types) is Ok,
    ensures
        spec_condition_descriptors(items.take(i + 1), types) matches Ok(ds) && ds
            == (match spec_condition_descriptor(items[i], types) {
            Ok(Some(d)) => spec_condition_descriptors(items.take(i), types)->Ok_0.push(d),
            _ => spec_condition_descriptors(items.take(i), types)->Ok_0,
        }),
    decreases i,
{
    if i == 0 {
        assert(items.take(1)[0] == items[0]);
        assert(items.take(1).drop_first() =~= Seq::<ValueView>::empty());
        match spec_condition_descriptor(items[0], types) {
            Ok(Some(d)) => {
                assert(seq![d] + Seq::<(Seq<char>, ValueView, ValueView)>::empty() =~= Seq::<
                    (Seq<char>, ValueView, ValueView),
                >::empty().push(d));
            },
            _ => {},
        }
    } else {
        assert(items.take(i)[0] == items[0]);
        assert(items.take(i + 1)[0] == items[0]);
        assert(items.take(i).drop_first() =~= items.drop_first().take(i - 1));
        assert(items.take(i + 1).drop_first() =~= items.drop_first().take(i));
        assert(items.drop_first()[i - 1] == items[i]);
        lemma_condition_descriptors_accept(items.drop_first(), types, i - 1);
        match (spec_condition_descriptor(items[0], types), spec_condition_descriptor(
            items[i],
            types,
        )) {
            (Ok(Some(d0)), Ok(Some(d))) => {
                let rest = spec_condition_descriptors(items.drop_first().take(i - 1), types)->Ok_0;
                assert(seq![d0] + rest.push(d) =~= (seq![d0] + rest).push(d));
            },
            _ => {},
        }
    }
}

/// A failing condition descriptor after an accepted prefix fails the
/// whole list.
proof fn lemma_condition_descriptors_fail(items: Seq<ValueView>, types: Set<Seq<char>>, i: int)
    requires
        0 <= i < items.len(),
        spec_condition_descriptors(items.take(i), types) is Ok,
        spec_condition_descriptor(items[i], types) is Err,
    ensures
        spec_condition_descriptors(items, types) == Err::<
            Seq<(Seq<char>, ValueView, ValueView)>,
            DeserializeErrorView,
        >(spec_condition_descriptor(items[i], types)->Err_0),
    decreases i,
{
    if i == 0 {
    } else {
        assert(items.take(i)[0] == items[0]);
        assert(items.take(i).drop_first() =~= items.drop_first().take(i - 1));
        assert(items.drop_first()[i - 1] == items[i]);
        lemma_condition_descriptors_fail(items.drop_first(), types, i - 1);
    }
}

/// The pointwise tie between resolved condition descriptors and built
/// instances.
pub open spec fn conditions_built<C: Condition, F: Fn(&FlowValue, &FlowValue) -> C>(
    descs: Seq<(Seq<char>, ValueView, ValueView)>,
    reg: Map<Seq<char>, F>,
    conditions: Seq<C>,
) -> bool {
    &&& conditions.len() == descs.len()
    &&& forall|j: int|
        0 <= j < descs.len() ==> reg.contains_key((#[trigger] descs[j]).0) && (exists|
            cfg: &FlowValue,
            iv: &FlowValue,
        |
            cfg@ == descs[j].1 && iv@ == descs[j].2 && call_ensures(
                reg[descs[j].0],
                (cfg, iv),
                #[trigger] conditions[j],
            ))
}


/// One more built condition extends the pointwise tie.
proof fn lemma_conditions_built_push<C: Condition, F: Fn(&FlowValue, &FlowValue) -> C>(
    descs: Seq<(Seq<char>, ValueView, ValueView)>,
    reg: Map<Seq<char>, F>,
    conditions: Seq<C>,
    d: (Seq<char>, ValueView, ValueView),
    c: C,
)
    requires
        conditions_built(descs, reg, conditions),
        reg.contains_key(d.0),
        exists|cfg: &FlowValue, iv: &FlowValue|
            cfg@ == d.1 && iv@ == d.2 && call_ensures(reg[d.0], (cfg, iv), c),
    ensures
        conditions_built(descs.push(d), reg, conditions.push(c)),
{
    let descs2 = descs.push(d);
    let conditions2 = conditions.push(c);
    assert forall|j: int| 0 <= j < descs2.len() implies reg.contains_key((#[trigger] descs2[j]).0)
        && (exists|cfg: &FlowValue, iv: &FlowValue|
        cfg@ == descs2[j].1 && iv@ == descs2[j].2 && call_ensures(
            reg[descs2[j].0],
            (cfg, iv),
            conditions2[j],
        )) by {
        if j < descs.len() {
            assert(descs2[j] == descs[j]);
            assert(conditions2[j] == conditions[j]);
            assert(reg.contains_key(descs[j].0));
            let (cfg, iv) = choose|cfg: &FlowValue, iv: &FlowValue|
                cfg@ == descs[j].1 && iv@ == descs[j].2 && call_ensures(
                    reg[descs[j].0],
                    (cfg, iv),
                    conditions[j],
                );
            assert(cfg@ == descs2[j].1 && iv@ == descs2[j].2 && call_ensures(
                reg[descs2[j].0],
                (cfg, iv),
                conditions2[j],
            ));
        } else {
            assert(descs2[j] == d);
            assert(conditions2[j] == c);
            let (cfg, iv) = choose|cfg: &FlowValue, iv: &FlowValue|
                cfg@ == d.1 && iv@ == d.2 && call_ensures(reg[d.0], (cfg, iv), c);
            assert(cfg@ == descs2[j].1 && iv@ == descs2[j].2 && call_ensures(
                reg[descs2[j].0],
                (cfg, iv),
                conditions2[j],
            ));
        }
    }
}

/// Walks a described guard list and builds each condition through the
/// registry: a descriptor without a `condition_type` string is skipped; an
/// unknown type name or a missing `input_vars` aborts the whole walk; a
/// missing configuration is passed through as null.
#[verifier::loop_isolation(false)]
pub fn deserialize_conditions_from_list<C: Condition, F: Fn(&FlowValue, &FlowValue) -> C>(
    items: &Vec<FlowValue>,
    condition_registry: &ConditionRegistry<F>,
) -> (r: Result<Vec<C>, DeserializeActionError>)
    requires
        condition_registry.wf(),
        forall|t: Seq<char>, a: &FlowValue, b: &FlowValue|
            condition_registry@.contains_key(t) ==> #[trigger] call_requires(
                condition_registry@[t],
                (a, b),
            ),
    ensures
        match r {
            Ok(conditions) => spec_condition_descriptors(
                value_seq_view(items@),
                condition_registry@.dom(),
            ) matches Ok(descs) && conditions_built(descs, condition_registry@, conditions@),
            Err(e) => spec_condition_descriptors(value_seq_view(items@), condition_registry@.dom())
                == Err::<Seq<(Seq<char>, ValueView, ValueView)>, _>(e@),
        },
{
    let ghost views = value_seq_view(items@);
    proof {
        crate::value::lemma_value_seq_view(items@);
        assert(views.take(0) =~= Seq::<ValueView>::empty());
    }
    let mut conditions: Vec<C> = Vec::new();
    let ghost mut descs: Seq<(Seq<char>, ValueView, ValueView)> = Seq::empty();
    let mut i: usize = 0;
    while i < items.len()
        invariant
            i <= items.len(),
            spec_condition_descriptors(views.take(i as int), condition_registry@.dom()) == Ok::<
                _,
                DeserializeErrorView,
            >(descs),
            conditions_built(descs, condition_registry@, conditions@),
        decreases items.len() - i,
    {
        let item = &items[i];
        let skip: bool;
        match item.get_key("condition_type") {
            Some(t) => match t.as_str() {
                Some(tname) => {
                    let registered = condition_registry.get_conditions().contains_key(
                        tname.as_str(),
                    );
                    if !registered {
                        proof {
                            lemma_condition_descriptors_fail(
                                views,
                                condition_registry@.dom(),
                                i as int,
                            );
                        }
                        return Err(DeserializeActionError::UnknownType(tname.clone()));
                    }
                    let input_vars = match item.get_key("input_vars") {
                        Some(input_vars) => input_vars,
                        None => {
                            proof {
                                lemma_condition_descriptors_fail(
                                    views,
                                    condition_registry@.dom(),
                                    i as int,
                                );
                            }
                            return Err(DeserializeActionError::MissingInputVars);
                        },
                    };
                    let constructor = match condition_registry.get_conditions().get(
                        tname.as_str(),
                    ) {
                        Some(constructor) => constructor,
                        None => {
                            proof {
                                assert(false);
                            }
                            return Err(DeserializeActionError::MissingActionType);
                        },
                    };
                    let null_config = FlowValue::Null;
                    let condition = match item.get_key("config") {
                        Some(config) => {
                            let c = constructor(config, input_vars);
                            proof {
                                assert(call_ensures(
                                    condition_registry@[tname@],
                                    (config, input_vars),
                                    c,
                                ));
                            }
                            c
                        },
                        None => {
                            let c = constructor(&null_config, input_vars);
                            proof {
                                assert(call_ensures(
                                    condition_registry@[tname@],
                                    (&null_config, input_vars),
                                    c,
                                ));
                            }
                            c
                        },
                    };
                    proof {
                        lemma_condition_descriptors_accept(
                            views,
                            condition_registry@.dom(),
                            i as int,
                        );
                        let d = (
                            tname@,
                            match obj_get(views[i as int], "config"@) {
                                Some(config) => config,
                                None => ValueView::Null,
                            },
                            input_vars@,
                        );
                        assert(input_vars@ == d.2);
                        match obj_get(views[i as int], "config"@) {
                            Some(_) => {
                                let cfg = choose|cfg: &FlowValue|
                                    cfg@ == d.1 && call_ensures(
                                        condition_registry@[d.0],
                                        (cfg, input_vars),
                                        condition,
                                    );
                                assert(cfg@ == d.1 && input_vars@ == d.2 && call_ensures(
                                    condition_registry@[d.0],
                                    (cfg, input_vars),
                                    condition,
                                ));
                            },
                            None => {},
                        }
                        lemma_conditions_built_push(descs, condition_registry@, conditions@, d, condition);
                        descs = descs.push(d);
                    }
                    conditions.push(condition);
                    skip = false;
                },
                None => {
                    skip = true;
                },
            },
            None => {
                skip = true;
            },
        }
        if skip {
            proof {
                lemma_condition_descriptors_accept(views, condition_registry@.dom(), i as int);
            }
        }
        i += 1;
    }
    proof {
        assert(views.take(items@.len() as int) =~= views);
    }
    Ok(conditions)
}

/// Walks a described pipeline given as JSON text: the text must parse to
/// a list of descriptors, which are then resolved as
/// [`deserialize_actions_from_list`] fixes.
pub fn deserialize_actions<A: Action, F: Fn(&FlowValue, &FlowValue, &FlowValue) -> A>(
    json_data: &str,
    action_registry: &ActionRegistry<F>,
) -> (r: Result<Vec<A>, DeserializeActionError>)
    requires
        action_registry.wf(),
        forall|t: Seq<char>, a: &FlowValue, b: &FlowValue, c: &FlowValue|
            action_registry@.contains_key(t) ==> #[trigger] call_requires(
                action_registry@[t],
                (a, b, c),
            ),
    ensures
        match r {
            Ok(actions) => crate::json::json_parse(json_data@) matches Some(v) && (v
                matches ValueView::List(items) && (spec_action_descriptors(
                items,
                action_registry@.dom(),
            ) matches Ok(descs) && actions_built(descs, action_registry@, actions@))),
            Err(e) => crate::json::json_parse(json_data@) is None || (crate::json::json_parse(
                json_data@,
            ) matches Some(v) && (!(v matches ValueView::List(_)) || (v matches ValueView::List(
                items,
            ) && spec_action_descriptors(items, action_registry@.dom()) == Err::<
                Seq<(Seq<char>, ValueView, ValueView, ValueView)>,
                _,
            >(e@)))),
        },
{
    let v = match crate::json::parse_json_text(json_data) {
        Ok(v) => v,
        Err(m) => {
            return Err(DeserializeActionError::ParseError(m));
        },
    };
    let items = match v.as_list() {
        Some(items) => items,
        None => {
            return Err(
                DeserializeActionError::ParseError(
                    "expected a list of action descriptors".to_owned(),
                ),
            );
        },
    };
    deserialize_actions_from_list(items, action_registry)
}

/// Walks a described guard list given as JSON text: the text must parse
/// to a list of descriptors, which are then resolved as
/// [`deserialize_conditions_from_list`] fixes.
pub fn deserialize_conditions_with_config<C: Condition, F: Fn(&FlowValue, &FlowValue) -> C>(
    json_data: &str,
    condition_registry: &ConditionRegistry<F>,
) -> (r: Result<Vec<C>, DeserializeActionError>)
    requires
        condition_registry.wf(),
        forall|t: Seq<char>, a: &FlowValue, b: &FlowValue|
            condition_registry@.contains_key(t) ==> #[trigger] call_requires(
                condition_registry@[t],
                (a, b),
            ),
    ensures
        match r {
            Ok(conditions) => crate::json::json_parse(json_data@) matches Some(v) && (v
                matches ValueView::List(items) && (spec_condition_descriptors(
                items,
                condition_registry@.dom(),
            ) matches Ok(descs) && conditions_built(descs, condition_registry@, conditions@))),
            Err(e) => crate::json::json_parse(json_data@) is None || (crate::json::json_parse(
                json_data@,
            ) matches Some(v) && (!(v matches ValueView::List(_)) || (v matches ValueView::List(
                items,
            ) && spec_condition_descriptors(items, condition_registry@.dom()) == Err::<
                Seq<(Seq<char>, ValueView, ValueView)>,
                _,
            >(e@)))),
        },
{
    let v = match crate::json::parse_json_text(json_data) {
        Ok(v) => v,
        Err(m) => {
            return Err(DeserializeActionError::ParseError(m));
        },
    };
    let items = match v.as_list() {
        Some(items) => items,
        None => {
            return Err(
                DeserializeActionError::ParseError(
                    "expected a list of condition descriptors".to_owned(),
                ),
            );
        },
    };
    deserialize_conditions_from_list(items, condition_registry)
}

} // verus!
