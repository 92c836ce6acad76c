//! Variable binding: resolving declared input variables out of a context,
//! and enforcing an action's declared output variables.

use vstd::prelude::*;
use vstd::string::StringExecFns;

use crate::value::{entry_seq_view, lemma_entry_seq_view, NodeContext, FlowValue, ValueView};

verus! {

broadcast use vstd::std_specs::vec::group_vec_axioms, vstd::seq::group_seq_axioms,
    vstd::map::group_map_axioms, vstd::set::group_set_axioms;

/// A failure of the variable contract.
#[derive(Debug)]
pub enum VarParseError {
    VariableNotFound,
    MissingVars(String),
}

/// Spec-level shape of a [`VarParseError`].
pub enum VarParseErrorView {
    VariableNotFound,
    MissingVars(Seq<char>),
}

impl View for VarParseError {
    type V = VarParseErrorView;

    open spec fn view(&self) -> VarParseErrorView {
        match self {
            VarParseError::VariableNotFound => VarParseErrorView::VariableNotFound,
            VarParseError::MissingVars(names) => VarParseErrorView::MissingVars(names@),
        }
    }
}

/// The local bag produced by resolving declared inputs against a context:
/// each declared pair maps a local name to a path; a path the context holds
/// binds the local name to its value, and a path it does not hold is
/// silently omitted.
pub open spec fn resolved_inputs(
    declared: Seq<(Seq<char>, ValueView)>,
    context: Map<Seq<char>, ValueView>,
) -> Map<Seq<char>, ValueView>
    decreases declared.len(),
{
    if declared.len() == 0 {
        Map::empty()
    } else {
        let rest = resolved_inputs(declared.drop_last(), context);
        match declared.last().1 {
            ValueView::Str(path) => if context.contains_key(path) {
                rest.insert(declared.last().0, context[path])
            } else {
                rest
            },
            _ => rest,
        }
    }
}

/// Whether a declared input list is well-shaped: every declared value is a
/// path string.
pub open spec fn inputs_declared(v: ValueView) -> bool {
    v matches ValueView::Object(entries) && (forall|i: int|
        0 <= i < entries.len() ==> (#[trigger] entries[i]).1 matches ValueView::Str(_))
}

/// Resolves an `input_vars` descriptor against a context: produces the bag
/// of local variables whose declared paths the context holds. Paths not
/// found are silently omitted, so callers must be defensive.
#[verifier::loop_isolation(false)]
pub fn parse_input_vars(input_vars: &FlowValue, node_context: &NodeContext) -> (r: NodeContext)
    requires
        inputs_declared(input_vars@),
        node_context.wf(),
    ensures
        r.wf(),
        r@ == resolved_inputs(input_vars@->Object_0, node_context@),
{
    let entries = match input_vars.as_object() {
        Some(entries) => entries,
        None => {
            proof {
                assert(false);
            }
            return NodeContext::new();
        },
    };
    proof {
        lemma_entry_seq_view(entries@);
    }
    let ghost declared = entry_seq_view(entries@);
    let mut out = NodeContext::new();
    proof {
        assert(out@ =~= resolved_inputs(declared.take(0), node_context@));
    }
    let mut i: usize = 0;
    while i < entries.len()
        invariant
            i <= entries.len(),
            out.wf(),
            out@ == resolved_inputs(declared.take(i as int), node_context@),
        decreases entries.len() - i,
    {
        proof {
            assert(declared.take(i as int + 1).drop_last() =~= declared.take(i as int));
            assert(declared.take(i as int + 1).last() == declared[i as int]);
        }
        let path = match entries[i].1.as_str() {
            Some(path) => path,
            None => {
                proof {
                    assert(declared[i as int].1 matches ValueView::Str(_));
                    assert(false);
                }
                return out;
            },
        };
        match node_context.get_var(path.as_str()) {
            Some(value) => {
                let local = entries[i].0.clone();
                let value = value.clone();
                out.set_var(local, value);
            },
            None => {},
        }
        i += 1;
    }
    proof {
        assert(declared.take(entries@.len() as int) =~= declared);
    }
    out
}

/// The sequence with the first occurrence of one element taken out; the
/// sequence itself when the element does not occur.
pub open spec fn remove_first(s: Seq<Seq<char>>, x: Seq<char>) -> Seq<Seq<char>>
    decreases s.len(),
{
    if s.len() == 0 {
        s
    } else if s[0] == x {
        s.drop_first()
    } else {
        seq![s[0]] + remove_first(s.drop_first(), x)
    }
}

/// The names joined with a separator between neighbours.
pub open spec fn joined_names(s: Seq<Seq<char>>, sep: Seq<char>) -> Seq<char>
    decreases s.len(),
{
    if s.len() == 0 {
        Seq::empty()
    } else if s.len() == 1 {
        s[0]
    } else {
        s[0] + sep + joined_names(s.drop_first(), sep)
    }
}

/// Spec-level shape of an [`OutputVarsBuilder`]: the namespace it writes
/// under, the context being built, and the declared outputs still pending.
#[verifier::ext_equal]
pub struct OutputVarsBuilderView {
    pub node_name: Seq<char>,
    pub context: Map<Seq<char>, ValueView>,
    pub pending: Seq<Seq<char>>,
}

/// Enforces an action's declared outputs: each produced variable is written
/// into the context under `"<name>.<var>"` and crossed off the declared
/// set; finishing succeeds only when nothing declared is left unproduced.
#[derive(Debug)]
pub struct OutputVarsBuilder {
    node_name: String,
    node_context: NodeContext,
    out_put_vars: Vec<String>,
}

impl View for OutputVarsBuilder {
    type V = OutputVarsBuilderView;

    closed spec fn view(&self) -> OutputVarsBuilderView {
        OutputVarsBuilderView {
            node_name: self.node_name@,
            context: self.node_context@,
            pending: Seq::new(self.out_put_vars@.len(), |i: int| self.out_put_vars@[i]@),
        }
    }
}

/// Whether a declared output list is well-shaped: a list of name strings.
pub open spec fn outputs_declared(v: ValueView) -> bool {
    v matches ValueView::List(items) && (forall|i: int|
        0 <= i < items.len() ==> (#[trigger] items[i]) matches ValueView::Str(_))
}

/// The declared output names, in order.
pub open spec fn declared_output_names(v: ValueView) -> Seq<Seq<char>> {
    Seq::new(v->List_0.len(), |i: int| v->List_0[i]->Str_0)
}

impl OutputVarsBuilder {
    /// Internal shape: the context under construction holds each name
    /// once.
    pub closed spec fn wf(&self) -> bool {
        self.node_context.wf()
    }

    /// Starts enforcement for one action: the namespace comes from the
    /// `name` entry of the action's configuration, the pending set from
    /// its declared `output_vars`.
    #[verifier::loop_isolation(false)]
    pub fn new(config: &FlowValue, output_vars: &FlowValue, node_context: NodeContext) -> (r:
        OutputVarsBuilder)
        requires
            obj_get_name(config@) matches Some(n),
            outputs_declared(output_vars@),
            node_context.wf(),
        ensures
            r.wf(),
            r@ == (OutputVarsBuilderView {
                node_name: obj_get_name(config@)->Some_0,
                context: node_context@,
                pending: declared_output_names(output_vars@),
            }),
    {
        let node_name: String = match config.get_key("name") {
            Some(v) => match v.as_str() {
                Some(s) => s.clone(),
                None => {
                    proof {
                        assert(false);
                    }
                    String::new()
                },
            },
            None => {
                proof {
                    assert(false);
                }
                String::new()
            },
        };
        let items = match output_vars.as_list() {
            Some(items) => items,
            None => {
                proof {
                    assert(false);
                }
                return OutputVarsBuilder { node_name, node_context, out_put_vars: Vec::new() };
            },
        };
        let mut out_put_vars: Vec<String> = Vec::new();
        let ghost lv = output_vars@->List_0;
        let ghost names = declared_output_names(output_vars@);
        proof {
            crate::value::lemma_value_seq_view(items@);
        }
        let mut i: usize = 0;
        while i < items.len()
            invariant
                i <= items.len(),
                out_put_vars@.len() == i as int,
                forall|j: int| 0 <= j < i ==> (#[trigger] out_put_vars@[j])@ == names[j],
            decreases items.len() - i,
        {
            proof {
                assert(lv[i as int] matches ValueView::Str(_));
                assert(lv[i as int] == items@[i as int]@);
            }
            let name = match items[i].as_str() {
                Some(s) => s.clone(),
                None => {
                    proof {
                        assert(false);
                    }
                    String::new()
                },
            };
            proof {
                assert(name@ == lv[i as int]->Str_0);
                assert(names[i as int] == lv[i as int]->Str_0);
            }
            out_put_vars.push(name);
            i += 1;
        }
        let r = OutputVarsBuilder { node_name, node_context, out_put_vars };
        proof {
            assert(r@.pending =~= names);
        }
        r
    }

    /// Crosses one produced variable off the declared set and writes it
    /// into the context under the step's namespace; rejects a name that is
    /// not (or no longer) declared, leaving everything unchanged.
    #[verifier::loop_isolation(false)]
    pub fn add_var(&mut self, var: String, value: FlowValue) -> (r: Result<(), VarParseError>)
        requires
            old(self).wf(),
        ensures
            final(self).wf(),
            match r {
                Ok(()) => old(self)@.pending.contains(var@) && final(self)@ == (
                OutputVarsBuilderView {
                    node_name: old(self)@.node_name,
                    context: old(self)@.context.insert(
                        old(self)@.node_name + "."@ + var@,
                        value@,
                    ),
                    pending: remove_first(old(self)@.pending, var@),
                }),
                Err(e) => !old(self)@.pending.contains(var@) && e@
                    == VarParseErrorView::VariableNotFound && final(self)@ == old(self)@,
            },
    {
        let ghost pending0 = self@.pending;
        let mut i: usize = 0;
        while i < self.out_put_vars.len()
            invariant
                *self == *old(self),
                i <= self.out_put_vars@.len(),
                forall|j: int| 0 <= j < i ==> pending0[j] != var@,
            decreases self.out_put_vars@.len() - i,
        {
            if self.out_put_vars[i] == var {
                proof {
                    assert(pending0[i as int] == self.out_put_vars@[i as int]@);
                    assert(pending0[i as int] == var@);
                    lemma_remove_first_at(pending0, var@, i as int);
                }
                let ghost vars_before = self.out_put_vars@;
                let _ = self.out_put_vars.remove(i);
                let namespaced = self.node_name.clone().concat(".").concat(var.as_str());
                self.node_context.set_var(namespaced, value);
                proof {
                    assert forall|j: int| 0 <= j < self.out_put_vars@.len() implies (
                    #[trigger] self.out_put_vars@[j])@ == remove_first(pending0, var@)[j] by {
                        if j < i {
                            assert(self.out_put_vars@[j] == vars_before[j]);
                            assert(remove_first(pending0, var@)[j] == pending0.take(i as int)[j]);
                        } else {
                            assert(self.out_put_vars@[j] == vars_before[j + 1]);
                            assert(remove_first(pending0, var@)[j] == pending0.skip(
                                i as int + 1,
                            )[j - i]);
                        }
                    }
                    assert(self@.pending =~= remove_first(pending0, var@));
                }
                return Ok(());
            }
            proof {
                assert(pending0[i as int] == self.out_put_vars@[i as int]@);
            }
            i += 1;
        }
        proof {
            lemma_remove_first_absent(pending0, var@);
            assert(self@ =~= old(self)@);
        }
        Err(VarParseError::VariableNotFound)
    }

    /// Finishes enforcement: succeeds with the built context only when
    /// every declared output was produced; otherwise reports the names
    /// still missing, joined with commas.
    #[verifier::loop_isolation(false)]
    pub fn build(&self) -> (r: Result<NodeContext, VarParseError>)
        requires
            self.wf(),
        ensures
            match r {
                Ok(c) => self@.pending.len() == 0 && c.wf() && c@ == self@.context,
                Err(e) => self@.pending.len() > 0 && e@ == VarParseErrorView::MissingVars(
                    joined_names(self@.pending, ", "@),
                ),
            },
    {
        if self.out_put_vars.len() > 0 {
            let mut joined: String = self.out_put_vars[0].clone();
            proof {
                assert(self@.pending.take(1) =~= seq![self@.pending[0]]);
                assert(joined_names(seq![self@.pending[0]], ", "@) == self@.pending[0]);
                assert(joined@ == self@.pending[0]);
            }
            let mut i: usize = 1;
            while i < self.out_put_vars.len()
                invariant
                    1 <= i <= self.out_put_vars@.len(),
                    joined@ == joined_names(self@.pending.take(i as int), ", "@),
                decreases self.out_put_vars@.len() - i,
            {
                proof {
                    lemma_joined_names_snoc(self@.pending, i as int);
                }
                joined = joined.concat(", ").concat(self.out_put_vars[i].as_str());
                i += 1;
            }
            proof {
                assert(self@.pending.take(self.out_put_vars@.len() as int) =~= self@.pending);
            }
            return Err(VarParseError::MissingVars(joined));
        }
        Ok(self.node_context.clone())
    }
}

/// The `name` entry of a configuration object, when it is a string.
pub open spec fn obj_get_name(config: ValueView) -> Option<Seq<char>> {
    match crate::value::obj_get(config, "name"@) {
        Some(v) => match v {
            ValueView::Str(s) => Some(s),
            _ => None,
        },
        None => None,
    }
}

/// Taking out the first occurrence, found at a known position.
proof fn lemma_remove_first_at(s: Seq<Seq<char>>, x: Seq<char>, i: int)
    requires
        0 <= i < s.len(),
        s[i] == x,
        forall|j: int| 0 <= j < i ==> s[j] != x,
    ensures
        remove_first(s, x) =~= s.take(i) + s.skip(i + 1),
        s.contains(x),
    decreases i,
{
    if i == 0 {
        assert(remove_first(s, x) == s.drop_first());
        assert(s.drop_first() =~= s.take(0) + s.skip(1));
    } else {
        lemma_remove_first_at(s.drop_first(), x, i - 1);
        assert(s.drop_first().take(i - 1) =~= s.take(i).drop_first());
        assert(s.drop_first().skip(i) =~= s.skip(i + 1));
        assert(remove_first(s, x) =~= seq![s[0]] + (s.drop_first().take(i - 1) + s.drop_first().skip(
            i,
        )));
        assert(seq![s[0]] + (s.take(i).drop_first() + s.skip(i + 1)) =~= s.take(i) + s.skip(i + 1));
    }
}

/// Taking out an element that does not occur changes nothing.
proof fn lemma_remove_first_absent(s: Seq<Seq<char>>, x: Seq<char>)
    requires
        forall|j: int| 0 <= j < s.len() ==> s[j] != x,
    ensures
        remove_first(s, x) =~= s,
        !s.contains(x),
    decreases s.len(),
{
    if s.len() > 0 {
        lemma_remove_first_absent(s.drop_first(), x);
        assert(seq![s[0]] + s.drop_first() =~= s);
    }
}

/// Extending a joined prefix by one more name.
proof fn lemma_joined_names_snoc(s: Seq<Seq<char>>, i: int)
    requires
        1 <= i < s.len(),
    ensures
        joined_names(s.take(i + 1), ", "@) == joined_names(s.take(i), ", "@) + ", "@ + s[i],
    decreases i,
{
    if i == 1 {
        assert(s.take(2)[0] == s[0]);
        assert(s.take(2).drop_first() =~= seq![s[1]]);
        assert(joined_names(seq![s[1]], ", "@) == s[1]);
        assert(s.take(1) =~= seq![s[0]]);
    } else {
        lemma_joined_names_snoc(s.drop_first(), i - 1);
        assert(s.drop_first().take(i) =~= s.take(i + 1).drop_first());
        assert(s.drop_first().take(i - 1) =~= s.take(i).drop_first());
        assert(s.drop_first()[i - 1] == s[i]);
        assert(s.take(i + 1)[0] == s[0]);
        assert(s.take(i)[0] == s[0]);
    }
}

} // verus!
