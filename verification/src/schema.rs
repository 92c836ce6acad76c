//! Validating registrable actions and describing their configuration: a
//! schema a client can read to know which variables an action consumes,
//! produces and is configured with.

use vstd::prelude::*;
use vstd::string::StringExecFns;

use crate::strmap::StrMap;
use crate::value::FlowValue;

verus! {

broadcast use vstd::std_specs::vec::group_vec_axioms, vstd::seq::group_seq_axioms,
    vstd::map::group_map_axioms, vstd::set::group_set_axioms;

/// The declared kind of a schema variable. On the wire `Text` is written
/// `"String"` and `Number` is written `"Number"`.
#[derive(Debug, Clone, Copy, PartialEq, Eq, Structural)]
pub enum VarType {
    Text,
    Number,
}

/// How a variable kind is written on the wire.
pub open spec fn var_type_name(t: VarType) -> Seq<char> {
    match t {
        VarType::Text => "String"@,
        VarType::Number => "Number"@,
    }
}

/// One schema entry as JSON text: the quoted name, a colon, the quoted
/// kind.
pub open spec fn entry_json(e: (Seq<char>, VarType)) -> Seq<char> {
    "\""@ + e.0 + "\":\""@ + var_type_name(e.1) + "\""@
}

/// A schema map's entries as JSON text, comma-separated in insertion
/// order.
pub open spec fn entries_json(s: Seq<(Seq<char>, VarType)>) -> Seq<char>
    decreases s.len(),
{
    if s.len() == 0 {
        Seq::empty()
    } else if s.len() == 1 {
        entry_json(s[0])
    } else {
        entry_json(s[0]) + ","@ + entries_json(s.drop_first())
    }
}

/// A whole schema as JSON text.
pub open spec fn schema_json(
    input_vars: Seq<(Seq<char>, VarType)>,
    output_vars: Seq<(Seq<char>, VarType)>,
    config: Seq<(Seq<char>, VarType)>,
) -> Seq<char> {
    "{\"input_vars\":{"@ + entries_json(input_vars) + "},\"output_vars\":{"@ + entries_json(
        output_vars,
    ) + "},\"config\":{"@ + entries_json(config) + "}}"@
}

/// The declared shape of an action's configuration: which variables it
/// reads from the context, which it writes, and which configure it.
/// Names are unique within each of the three tables; the names are not
/// escaped when the schema is written out, so they should stay plain.
#[derive(Debug)]
pub struct ActionSchemaMold {
    input_vars: StrMap<VarType>,
    output_vars: StrMap<VarType>,
    config: StrMap<VarType>,
}

impl ActionSchemaMold {
    /// Internal shape: each of the three tables holds a name once.
    pub closed spec fn wf(&self) -> bool {
        self.input_vars.wf() && self.output_vars.wf() && self.config.wf()
    }

    /// The declared inputs, in insertion order.
    pub closed spec fn spec_input_vars(&self) -> Seq<(Seq<char>, VarType)> {
        self.input_vars.entry_pairs()
    }

    /// The declared outputs, in insertion order.
    pub closed spec fn spec_output_vars(&self) -> Seq<(Seq<char>, VarType)> {
        self.output_vars.entry_pairs()
    }

    /// The declared configuration entries, in insertion order.
    pub closed spec fn spec_config(&self) -> Seq<(Seq<char>, VarType)> {
        self.config.entry_pairs()
    }

    /// An empty schema.
    pub fn new() -> (r: ActionSchemaMold)
        ensures
            r.wf(),
            r.spec_input_vars() == Seq::<(Seq<char>, VarType)>::empty(),
            r.spec_output_vars() == Seq::<(Seq<char>, VarType)>::empty(),
            r.spec_config() == Seq::<(Seq<char>, VarType)>::empty(),
    {
        let r = ActionSchemaMold {
            input_vars: StrMap::new(),
            output_vars: StrMap::new(),
            config: StrMap::new(),
        };
        proof {
            assert(r.spec_input_vars() =~= Seq::<(Seq<char>, VarType)>::empty());
            assert(r.spec_output_vars() =~= Seq::<(Seq<char>, VarType)>::empty());
            assert(r.spec_config() =~= Seq::<(Seq<char>, VarType)>::empty());
        }
        r
    }

    /// Declares an input variable; declaring a name again replaces its
    /// kind in place.
    pub fn add_input_var(&mut self, var_name: String, var_type: VarType)
        requires
            old(self).wf(),
        ensures
            final(self).wf(),
            final(self).spec_output_vars() == old(self).spec_output_vars(),
            final(self).spec_config() == old(self).spec_config(),
            (forall|j: int|
                0 <= j < old(self).spec_input_vars().len() ==> (#[trigger] old(
                    self,
                ).spec_input_vars()[j]).0 != var_name@) ==> final(self).spec_input_vars() == old(
                self,
            ).spec_input_vars().push((var_name@, var_type)),
            (exists|j: int|
                0 <= j < old(self).spec_input_vars().len() && (#[trigger] old(
                    self,
                ).spec_input_vars()[j]).0 == var_name@) ==> exists|j: int|
                0 <= j < old(self).spec_input_vars().len() && old(self).spec_input_vars()[j].0
                    == var_name@ && final(self).spec_input_vars() == old(
                    self,
                ).spec_input_vars().update(j, (var_name@, var_type)),
    {
        let ghost pairs0 = self.input_vars.entry_pairs();
        proof {
            self.input_vars.lemma_entry_pairs_len();
            if exists|j: int| 0 <= j < pairs0.len() && (#[trigger] pairs0[j]).0 == var_name@ {
                let j = choose|j: int| 0 <= j < pairs0.len() && (#[trigger] pairs0[j]).0
                    == var_name@;
                self.input_vars.lemma_entry_pair_at(j);
                assert(self.input_vars@.contains_key(var_name@));
            } else {
                self.input_vars.lemma_entry_keys();
                if self.input_vars@.contains_key(var_name@) {
                    let j = choose|j: int|
                        0 <= j < self.input_vars.entry_keys().len() && self.input_vars.entry_keys()[j]
                            == var_name@;
                    self.input_vars.lemma_entry_pair_at(j);
                    assert(pairs0[j].0 == var_name@);
                }
                assert(!self.input_vars@.contains_key(var_name@));
            }
        }
        self.input_vars.insert(var_name, var_type);
        proof {
            if exists|j: int| 0 <= j < pairs0.len() && (#[trigger] pairs0[j]).0 == var_name@ {
                let j = choose|j: int|
                    0 <= j < pairs0.len() && pairs0[j].0 == var_name@ && self.input_vars.entry_pairs()
                        == pairs0.update(j, (var_name@, var_type));
                assert(0 <= j < old(self).spec_input_vars().len() && old(self).spec_input_vars()[j].0 == var_name@
                    && final(self).spec_input_vars() == old(self).spec_input_vars().update(
                    j,
                    (var_name@, var_type),
                ));
            }
        }
    }

    /// Declares an output variable; declaring a name again replaces its
    /// kind in place.
    pub fn add_output_var(&mut self, var_name: String, var_type: VarType)
        requires
            old(self).wf(),
        ensures
            final(self).wf(),
            final(self).spec_input_vars() == old(self).spec_input_vars(),
            final(self).spec_config() == old(self).spec_config(),
            (forall|j: int|
                0 <= j < old(self).spec_output_vars().len() ==> (#[trigger] old(
                    self,
                ).spec_output_vars()[j]).0 != var_name@) ==> final(self).spec_output_vars() == old(
                self,
            ).spec_output_vars().push((var_name@, var_type)),
            (exists|j: int|
                0 <= j < old(self).spec_output_vars().len() && (#[trigger] old(
                    self,
                ).spec_output_vars()[j]).0 == var_name@) ==> exists|j: int|
                0 <= j < old(self).spec_output_vars().len() && old(self).spec_output_vars()[j].0
                    == var_name@ && final(self).spec_output_vars() == old(
                    self,
                ).spec_output_vars().update(j, (var_name@, var_type)),
    {
        let ghost pairs0 = self.output_vars.entry_pairs();
        proof {
            self.output_vars.lemma_entry_pairs_len();
            if exists|j: int| 0 <= j < pairs0.len() && (#[trigger] pairs0[j]).0 == var_name@ {
                let j = choose|j: int| 0 <= j < pairs0.len() && (#[trigger] pairs0[j]).0
                    == var_name@;
                self.output_vars.lemma_entry_pair_at(j);
                assert(self.output_vars@.contains_key(var_name@));
            } else {
                self.output_vars.lemma_entry_keys();
                if self.output_vars@.contains_key(var_name@) {
                    let j = choose|j: int|
                        0 <= j < self.output_vars.entry_keys().len() && self.output_vars.entry_keys()[j]
                            == var_name@;
                    self.output_vars.lemma_entry_pair_at(j);
                    assert(pairs0[j].0 == var_name@);
                }
                assert(!self.output_vars@.contains_key(var_name@));
            }
        }
        self.output_vars.insert(var_name, var_type);
        proof {
            if exists|j: int| 0 <= j < pairs0.len() && (#[trigger] pairs0[j]).0 == var_name@ {
                let j = choose|j: int|
                    0 <= j < pairs0.len() && pairs0[j].0 == var_name@ && self.output_vars.entry_pairs()
                        == pairs0.update(j, (var_name@, var_type));
                assert(0 <= j < old(self).spec_output_vars().len() && old(self).spec_output_vars()[j].0 == var_name@
                    && final(self).spec_output_vars() == old(self).spec_output_vars().update(
                    j,
                    (var_name@, var_type),
                ));
            }
        }
    }

    /// Declares a configuration entry; declaring a name again replaces
    /// its kind in place.
    pub fn add_builder_var(&mut self, var_name: String, var_value: VarType)
        requires
            old(self).wf(),
        ensures
            final(self).wf(),
            final(self).spec_input_vars() == old(self).spec_input_vars(),
            final(self).spec_output_vars() == old(self).spec_output_vars(),
            (forall|j: int|
                0 <= j < old(self).spec_config().len() ==> (#[trigger] old(
                    self,
                ).spec_config()[j]).0 != var_name@) ==> final(self).spec_config() == old(
                self,
            ).spec_config().push((var_name@, var_value)),
            (exists|j: int|
                0 <= j < old(self).spec_config().len() && (#[trigger] old(
                    self,
                ).spec_config()[j]).0 == var_name@) ==> exists|j: int|
                0 <= j < old(self).spec_config().len() && old(self).spec_config()[j].0 == var_name@
                    && final(self).spec_config() == old(self).spec_config().update(
                    j,
                    (var_name@, var_value),
                ),
    {
        let ghost pairs0 = self.config.entry_pairs();
        proof {
            self.config.lemma_entry_pairs_len();
            if exists|j: int| 0 <= j < pairs0.len() && (#[trigger] pairs0[j]).0 == var_name@ {
                let j = choose|j: int| 0 <= j < pairs0.len() && (#[trigger] pairs0[j]).0
                    == var_name@;
                self.config.lemma_entry_pair_at(j);
                assert(self.config@.contains_key(var_name@));
            } else {
                self.config.lemma_entry_keys();
                if self.config@.contains_key(var_name@) {
                    let j = choose|j: int|
                        0 <= j < self.config.entry_keys().len() && self.config.entry_keys()[j]
                            == var_name@;
                    self.config.lemma_entry_pair_at(j);
                    assert(pairs0[j].0 == var_name@);
                }
                assert(!self.config@.contains_key(var_name@));
            }
        }
        self.config.insert(var_name, var_value);
        proof {
            if exists|j: int| 0 <= j < pairs0.len() && (#[trigger] pairs0[j]).0 == var_name@ {
                let j = choose|j: int|
                    0 <= j < pairs0.len() && pairs0[j].0 == var_name@ && self.config.entry_pairs()
                        == pairs0.update(j, (var_name@, var_value));
                assert(0 <= j < old(self).spec_config().len() && old(self).spec_config()[j].0 == var_name@
                    && final(self).spec_config() == old(self).spec_config().update(
                    j,
                    (var_name@, var_value),
                ));
            }
        }
    }

    /// Writes the schema out as JSON text, each table's entries in
    /// insertion order.
    pub fn to_json_string(&self) -> (r: String)
        requires
            self.wf(),
        ensures
            r@ == schema_json(
                self.spec_input_vars(),
                self.spec_output_vars(),
                self.spec_config(),
            ),
    {
        let mut out: String = "{\"input_vars\":{".to_owned();
        let part = render_entries(&self.input_vars);
        out.append(part.as_str());
        out.append("},\"output_vars\":{");
        let part = render_entries(&self.output_vars);
        out.append(part.as_str());
        out.append("},\"config\":{");
        let part = render_entries(&self.config);
        out.append(part.as_str());
        out.append("}}");
        out
    }
}

/// The wire name of one variable kind.
fn var_type_text(t: &VarType) -> (r: &'static str)
    ensures
        r@ == var_type_name(*t),
{
    match t {
        VarType::Text => "String",
        VarType::Number => "Number",
    }
}

/// One comma-separated run of schema entries.
#[verifier::loop_isolation(false)]
fn render_entries(vars: &StrMap<VarType>) -> (r: String)
    requires
        vars.wf(),
    ensures
        r@ == entries_json(vars.entry_pairs()),
{
    let ghost pairs = vars.entry_pairs();
    let n = vars.entry_count();
    proof {
        vars.lemma_entry_pairs_len();
    }
    let mut out = String::new();
    if n == 0 {
        return out;
    }
    let entry = vars.entry_at(0);
    proof {
        vars.lemma_entry_pair_at(0);
    }
    out.append("\"");
    out.append(entry.0.as_str());
    out.append("\":\"");
    out.append(var_type_text(entry.1));
    out.append("\"");
    proof {
        assert(out@ =~= entries_json(pairs.take(1)));
    }
    let mut i: usize = 1;
    while i < n
        invariant
            1 <= i <= n,
            out@ == entries_json(pairs.take(i as int)),
        decreases n - i,
    {
        let entry = vars.entry_at(i);
        proof {
            vars.lemma_entry_pair_at(i as int);
            lemma_entries_json_snoc(pairs, i as int);
        }
        out.append(",");
        out.append("\"");
        out.append(entry.0.as_str());
        out.append("\":\"");
        out.append(var_type_text(entry.1));
        out.append("\"");
        proof {
            assert(out@ =~= entries_json(pairs.take(i as int + 1)));
        }
        i += 1;
    }
    proof {
        assert(pairs.take(n as int) =~= pairs);
    }
    out
}

/// Extending a rendered prefix by one more entry.
proof fn lemma_entries_json_snoc(s: Seq<(Seq<char>, VarType)>, i: int)
    requires
        1 <= i < s.len(),
    ensures
        entries_json(s.take(i + 1)) == entries_json(s.take(i)) + ","@ + entry_json(s[i]),
    decreases i,
{
    if i == 1 {
        assert(s.take(2)[0] == s[0]);
        assert(s.take(2).drop_first() =~= seq![s[1]]);
        assert(entries_json(seq![s[1]]) == entry_json(s[1]));
        assert(s.take(1) =~= seq![s[0]]);
    } else {
        lemma_entries_json_snoc(s.drop_first(), i - 1);
        assert(s.drop_first().take(i) =~= s.take(i + 1).drop_first());
        assert(s.drop_first().take(i - 1) =~= s.take(i).drop_first());
        assert(s.drop_first()[i - 1] == s[i]);
        assert(s.take(i + 1)[0] == s[0]);
        assert(s.take(i)[0] == s[0]);
        assert(entries_json(s.take(i + 1)) =~= entries_json(s.take(i)) + ","@ + entry_json(s[i]));
    }
}

/// A registered action kind: its type name, the schema a client can read,
/// and the constructor the registry will call.
#[derive(Debug)]
pub struct RegistrableActionMold<F> {
    pub action_type: String,
    pub config_schema: ActionSchemaMold,
    pub builder_fn: F,
}

impl<F> RegistrableActionMold<F> {
    /// A mold with an empty schema.
    pub fn new(action_type: String, builder_fn: F) -> (r: RegistrableActionMold<F>)
        ensures
            r.action_type@ == action_type@,
            r.builder_fn == builder_fn,
            r.config_schema.wf(),
    {
        RegistrableActionMold { action_type, builder_fn, config_schema: ActionSchemaMold::new() }
    }
}

/// One action as described by data: everything needed to build the live
/// instance.
#[derive(Debug)]
pub struct RegistrableActionInstace<F> {
    pub id: String,
    pub action_type: String,
    pub name: String,
    pub config: FlowValue,
    pub input_vars: FlowValue,
    pub output_vars: FlowValue,
    pub builder_fn: F,
}

impl<F> RegistrableActionInstace<F> {
    /// An instance with an empty id, to be filled by the loader.
    pub fn new(
        name: String,
        action_type: String,
        config: FlowValue,
        input_vars: FlowValue,
        output_vars: FlowValue,
        builder_fn: F,
    ) -> (r: RegistrableActionInstace<F>)
        ensures
            r.id@ == Seq::<char>::empty(),
            r.name@ == name@,
            r.action_type@ == action_type@,
            r.config@ == config@,
            r.input_vars@ == input_vars@,
            r.output_vars@ == output_vars@,
            r.builder_fn == builder_fn,
    {
        RegistrableActionInstace {
            id: String::new(),
            name,
            action_type,
            builder_fn,
            config,
            input_vars,
            output_vars,
        }
    }
}

} // verus!
