//! The tagged-union value type and the string-keyed variable bag that every
//! pipeline stage reads and writes.

use vstd::prelude::*;

use crate::conversation::{Message, MessageView};
use crate::strmap::{pairs_map, unique_keys, lemma_pairs_map_absent, lemma_pairs_map_at,
    lemma_pairs_map_len, lemma_pairs_map_removed, lemma_pairs_map_update};

verus! {

broadcast use vstd::std_specs::vec::group_vec_axioms, vstd::seq::group_seq_axioms,
    vstd::map::group_map_axioms, vstd::set::group_set_axioms;

/// Spec-level shape of a [`FlowValue`]: the same tree with mathematical contents.
/// An object is kept as its sequence of key/value pairs; [`pairs_map`] gives
/// the map it describes.
pub enum ValueView {
    Str(Seq<char>),
    Num(u64),
    Bool(bool),
    List(Seq<ValueView>),
    Object(Seq<(Seq<char>, ValueView)>),
    Null,
    Messages(Seq<MessageView>),
}

/// A closed tagged union: the universal data-interchange format between
/// pipeline stages. Values are immutable once stored in a context cell;
/// replacing a key fully replaces the value.
///
/// `Number` carries the bit pattern of an IEEE-754 double-precision number;
/// the engine never computes with numbers, it only stores and moves them, so
/// the bits are their faithful plain representation.
#[derive(Debug, PartialEq)]
pub enum FlowValue {
    String(String),
    Number(u64),
    Boolean(bool),
    List(Vec<FlowValue>),
    Object(Vec<(String, FlowValue)>),
    Null,
    Messages(Vec<Message>),
}

/// The views of a sequence of values, elementwise.
pub open spec fn value_seq_view(s: Seq<FlowValue>) -> Seq<ValueView>
    decreases s,
{
    if s.len() == 0 {
        Seq::empty()
    } else {
        value_seq_view(s.drop_last()).push(s.last()@)
    }
}

/// The views of a sequence of object entries, elementwise.
pub open spec fn entry_seq_view(s: Seq<(String, FlowValue)>) -> Seq<(Seq<char>, ValueView)>
    decreases s,
{
    if s.len() == 0 {
        Seq::empty()
    } else {
        entry_seq_view(s.drop_last()).push((s.last().0@, s.last().1@))
    }
}

impl View for FlowValue {
    type V = ValueView;

    open spec fn view(&self) -> ValueView
        decreases self,
    {
        match self {
            FlowValue::String(s) => ValueView::Str(s@),
            FlowValue::Number(bits) => ValueView::Num(*bits),
            FlowValue::Boolean(b) => ValueView::Bool(*b),
            FlowValue::List(items) => ValueView::List(value_seq_view(items@)),
            FlowValue::Object(entries) => ValueView::Object(entry_seq_view(entries@)),
            FlowValue::Null => ValueView::Null,
            FlowValue::Messages(msgs) => ValueView::Messages(
                Seq::new(msgs@.len(), |i: int| msgs@[i]@),
            ),
        }
    }
}

/// [`value_seq_view`] is the elementwise view.
pub proof fn lemma_value_seq_view(s: Seq<FlowValue>)
    ensures
        value_seq_view(s).len() == s.len(),
        forall|i: int| 0 <= i < s.len() ==> value_seq_view(s)[i] == s[i]@,
    decreases s,
{
    reveal_with_fuel(value_seq_view, 2);
    if s.len() > 0 {
        lemma_value_seq_view(s.drop_last());
    }
}

/// [`entry_seq_view`] is the elementwise view.
pub proof fn lemma_entry_seq_view(s: Seq<(String, FlowValue)>)
    ensures
        entry_seq_view(s).len() == s.len(),
        forall|i: int| 0 <= i < s.len() ==> entry_seq_view(s)[i] == (s[i].0@, s[i].1@),
    decreases s,
{
    reveal_with_fuel(entry_seq_view, 2);
    if s.len() > 0 {
        lemma_entry_seq_view(s.drop_last());
    }
}

impl Clone for FlowValue {
    /// A deep copy with the same view.
    #[verifier::loop_isolation(false)]
    fn clone(&self) -> (r: FlowValue)
        ensures
            r@ == self@,
        decreases self,
    {
        match self {
            FlowValue::String(s) => FlowValue::String(s.clone()),
            FlowValue::Number(bits) => FlowValue::Number(*bits),
            FlowValue::Boolean(b) => FlowValue::Boolean(*b),
            FlowValue::List(items) => {
                let mut copied: Vec<FlowValue> = Vec::new();
                let mut i: usize = 0;
                while i < items.len()
                    invariant
                        i <= items.len(),
                        copied@.len() == i as int,
                        forall|j: int| 0 <= j < i ==> copied@[j]@ == items@[j]@,
                    decreases items.len() - i,
                {
                    let x = items[i].clone();
                    copied.push(x);
                    i += 1;
                }
                proof {
                    lemma_value_seq_view(copied@);
                    lemma_value_seq_view(items@);
                    assert(value_seq_view(copied@) =~= value_seq_view(items@));
                }
                FlowValue::List(copied)
            },
            FlowValue::Object(entries) => {
                let mut copied: Vec<(String, FlowValue)> = Vec::new();
                let mut i: usize = 0;
                while i < entries.len()
                    invariant
                        i <= entries.len(),
                        copied@.len() == i as int,
                        forall|j: int| 0 <= j < i ==> (#[trigger] copied@[j]).0@ == entries@[j].0@
                            && copied@[j].1@ == entries@[j].1@,
                    decreases entries.len() - i,
                {
                    let k = entries[i].0.clone();
                    let v = entries[i].1.clone();
                    copied.push((k, v));
                    i += 1;
                }
                proof {
                    lemma_entry_seq_view(copied@);
                    lemma_entry_seq_view(entries@);
                    assert(entry_seq_view(copied@) =~= entry_seq_view(entries@));
                }
                FlowValue::Object(copied)
            },
            FlowValue::Null => FlowValue::Null,
            FlowValue::Messages(msgs) => {
                let mut copied: Vec<Message> = Vec::new();
                let mut i: usize = 0;
                while i < msgs.len()
                    invariant
                        i <= msgs.len(),
                        copied@.len() == i as int,
                        forall|j: int| 0 <= j < i ==> copied@[j]@ == msgs@[j]@,
                    decreases msgs.len() - i,
                {
                    let m = msgs[i].clone();
                    copied.push(m);
                    i += 1;
                }
                proof {
                    let s1 = Seq::new(copied@.len(), |i: int| copied@[i]@);
                    let s2 = Seq::new(msgs@.len(), |i: int| msgs@[i]@);
                    assert(s1 =~= s2);
                }
                FlowValue::Messages(copied)
            },
        }
    }
}

/// The shared mutable execution context: a mapping from variable name to
/// [`FlowValue`]. Keys produced by an action's declared outputs are namespaced
/// `"<step-name>.<var>"` by convention; the reserved bootstrap keys
/// `messages` and `trigger_message` are set by the orchestrator before a
/// pipeline runs.
#[derive(Debug)]
pub struct NodeContext {
    variables: Vec<(String, FlowValue)>,
}

impl View for NodeContext {
    type V = Map<Seq<char>, ValueView>;

    closed spec fn view(&self) -> Map<Seq<char>, ValueView> {
        pairs_map(entry_seq_view(self.variables@))
    }
}

impl NodeContext {
    /// Internal shape: each variable name occurs at most once.
    pub closed spec fn wf(&self) -> bool {
        unique_keys(entry_seq_view(self.variables@))
    }

    /// An empty context.
    pub fn new() -> (r: NodeContext)
        ensures
            r@ == Map::<Seq<char>, ValueView>::empty(),
            r.wf(),
    {
        let r = NodeContext { variables: Vec::new() };
        proof {
            lemma_entry_seq_view(r.variables@);
            assert(entry_seq_view(r.variables@) =~= Seq::empty());
        }
        r
    }

    /// Stores a value under a name, fully replacing any previous value.
    #[verifier::loop_isolation(false)]
    pub fn set_var(&mut self, key: String, value: FlowValue)
        requires
            old(self).wf(),
        ensures
            final(self).wf(),
            final(self)@ == old(self)@.insert(key@, value@),
    {
        let ghost kk = key@;
        let ghost vv = value@;
        let ghost v0 = self.variables@;
        proof {
            lemma_entry_seq_view(v0);
        }
        let ghost s = entry_seq_view(v0);
        let mut i: usize = 0;
        while i < self.variables.len()
            invariant
                self.variables@ == v0,
                i <= v0.len(),
                forall|j: int| 0 <= j < i ==> s[j].0 != kk,
            decreases v0.len() - i,
        {
            if self.variables[i].0 == key {
                proof {
                    assert(s[i as int].0 == kk);
                }
                self.variables.set(i, (key, value));
                proof {
                    lemma_entry_seq_view(self.variables@);
                    let s2 = entry_seq_view(self.variables@);
                    assert(s2 =~= s.update(i as int, (kk, vv)));
                    lemma_pairs_map_update(s, i as int, vv);
                    assert forall|a: int, b: int| 0 <= a < b < s2.len() implies s2[a].0
                        != s2[b].0 by {
                        assert(s2[a].0 == s[a].0);
                        assert(s2[b].0 == s[b].0);
                    }
                }
                return ;
            }
            i += 1;
        }
        self.variables.push((key, value));
        proof {
            lemma_entry_seq_view(self.variables@);
            let s2 = entry_seq_view(self.variables@);
            assert(s2 =~= s.push((kk, vv)));
            assert(s2.drop_last() =~= s);
            assert(final(self)@ == pairs_map(s).insert(kk, vv));
            assert forall|a: int, b: int| 0 <= a < b < s2.len() implies s2[a].0 != s2[b].0 by {
                if b < s.len() {
                    assert(s2[a].0 == s[a].0 && s2[b].0 == s[b].0);
                } else {
                    assert(s2[a].0 == s[a].0 && s2[b].0 == kk);
                }
            }
        }
    }

    /// Looks a name up; `None` when the context does not hold it.
    #[verifier::loop_isolation(false)]
    pub fn get_var(&self, key: &str) -> (r: Option<&FlowValue>)
        requires
            self.wf(),
        ensures
            match r {
                Some(v) => self@.contains_key(key@) && v@ == self@[key@],
                None => !self@.contains_key(key@),
            },
    {
        proof {
            lemma_entry_seq_view(self.variables@);
        }
        let ghost s = entry_seq_view(self.variables@);
        let k: String = key.to_owned();
        let mut i: usize = 0;
        while i < self.variables.len()
            invariant
                i <= self.variables.len(),
                forall|j: int| 0 <= j < i ==> s[j].0 != key@,
            decreases self.variables.len() - i,
        {
            if self.variables[i].0 == k {
                proof {
                    assert(s[i as int].0 == key@);
                    assert(unique_keys(s));
                    assert forall|j: int| i < j < s.len() implies s[j].0 != s[i as int].0 by {
                        assert(s[i as int].0 != s[j].0);
                    }
                    lemma_pairs_map_at(s, i as int);
                }
                return Some(&self.variables[i].1);
            }
            i += 1;
        }
        proof {
            lemma_pairs_map_absent(s, key@);
        }
        None
    }

    /// Takes a value out of the context; `None` when the name is not held.
    #[verifier::loop_isolation(false)]
    pub fn remove_var(&mut self, key: &str) -> (r: Option<FlowValue>)
        requires
            old(self).wf(),
        ensures
            final(self).wf(),
            final(self)@ == old(self)@.remove(key@),
            match r {
                Some(v) => old(self)@.contains_key(key@) && v@ == old(self)@[key@],
                None => !old(self)@.contains_key(key@),
            },
    {
        let ghost v0 = self.variables@;
        proof {
            lemma_entry_seq_view(v0);
        }
        let ghost s = entry_seq_view(v0);
        let k: String = key.to_owned();
        let mut i: usize = 0;
        while i < self.variables.len()
            invariant
                self.variables@ == v0,
                i <= v0.len(),
                forall|j: int| 0 <= j < i ==> s[j].0 != key@,
            decreases v0.len() - i,
        {
            if self.variables[i].0 == k {
                proof {
                    assert(s[i as int].0 == key@);
                    assert(unique_keys(s));
                    assert forall|j: int| i < j < s.len() implies s[j].0 != s[i as int].0 by {
                        assert(s[i as int].0 != s[j].0);
                    }
                    lemma_pairs_map_at(s, i as int);
                }
                let pair = self.variables.remove(i);
                proof {
                    lemma_entry_seq_view(self.variables@);
                    let s2 = entry_seq_view(self.variables@);
                    assert forall|j: int| 0 <= j < s2.len() implies s2[j] == s.remove(i as int)[j] by {
                        if j < i {
                            assert(self.variables@[j] == v0[j]);
                        } else {
                            assert(self.variables@[j] == v0[j + 1]);
                        }
                    }
                    assert(s2 =~= s.remove(i as int));
                    lemma_pairs_map_removed(s, i as int);
                    assert forall|a: int, b: int| 0 <= a < b < s2.len() implies s2[a].0
                        != s2[b].0 by {
                        let sa: int = if a < i { a } else { a + 1 };
                        let sb: int = if b < i { b } else { b + 1 };
                        assert(s2[a].0 == s[sa].0);
                        assert(s2[b].0 == s[sb].0);
                    }
                }
                return Some(pair.1);
            }
            i += 1;
        }
        proof {
            lemma_pairs_map_absent(s, key@);
            assert(final(self)@ =~= old(self)@.remove(key@));
        }
        None
    }

    /// How many variables the context holds.
    pub fn var_count(&self) -> (r: usize)
        requires
            self.wf(),
        ensures
            self@.dom().finite(),
            r == self@.dom().len(),
    {
        proof {
            lemma_entry_seq_view(self.variables@);
            lemma_pairs_map_len(entry_seq_view(self.variables@));
        }
        self.variables.len()
    }
}

impl Clone for NodeContext {
    /// A deep copy with the same view and the same shape.
    #[verifier::loop_isolation(false)]
    fn clone(&self) -> (r: NodeContext)
        ensures
            r@ == self@,
            r.wf() == self.wf(),
    {
        let mut variables: Vec<(String, FlowValue)> = Vec::new();
        let mut i: usize = 0;
        while i < self.variables.len()
            invariant
                i <= self.variables.len(),
                variables@.len() == i as int,
                forall|j: int| 0 <= j < i ==> (#[trigger] variables@[j]).0@ == self.variables@[j].0@
                    && variables@[j].1@ == self.variables@[j].1@,
            decreases self.variables.len() - i,
        {
            let k = self.variables[i].0.clone();
            let v = self.variables[i].1.clone();
            variables.push((k, v));
            i += 1;
        }
        let r = NodeContext { variables };
        proof {
            lemma_entry_seq_view(r.variables@);
            lemma_entry_seq_view(self.variables@);
            assert(entry_seq_view(r.variables@) =~= entry_seq_view(self.variables@));
        }
        r
    }
}


/// Looks a key up in an object view; `None` for other shapes and for absent
/// keys. Under duplicate keys the later entry wins, as in the maps the
/// engine builds.
pub open spec fn obj_get(v: ValueView, k: Seq<char>) -> Option<ValueView> {
    match v {
        ValueView::Object(entries) => if pairs_map(entries).contains_key(k) {
            Option::Some(pairs_map(entries)[k])
        } else {
            Option::None
        },
        _ => Option::None,
    }
}

impl FlowValue {
    /// Looks a key up in an object value; `None` when this is not an object
    /// or the key is absent.
    #[verifier::loop_isolation(false)]
    pub fn get_key(&self, key: &str) -> (r: Option<&FlowValue>)
        ensures
            match r {
                Some(v) => obj_get(self@, key@) == Option::Some(v@),
                None => obj_get(self@, key@) is None,
            },
    {
        match self {
            FlowValue::Object(entries) => {
                proof {
                    lemma_entry_seq_view(entries@);
                }
                let ghost s = entry_seq_view(entries@);
                let k: String = key.to_owned();
                let mut i: usize = entries.len();
                while i > 0
                    invariant
                        i <= entries.len(),
                        forall|j: int| i <= j < s.len() ==> s[j].0 != key@,
                    decreases i,
                {
                    i = i - 1;
                    if entries[i].0 == k {
                        proof {
                            lemma_pairs_map_at(s, i as int);
                        }
                        return Some(&entries[i].1);
                    }
                }
                proof {
                    lemma_pairs_map_absent(s, key@);
                }
                None
            },
            _ => None,
        }
    }

    /// The string inside, when this is a string value.
    pub fn as_str(&self) -> (r: Option<&String>)
        ensures
            match r {
                Some(s) => self@ == ValueView::Str(s@),
                None => !(self@ matches ValueView::Str(_)),
            },
    {
        match self {
            FlowValue::String(s) => Some(s),
            _ => None,
        }
    }

    /// The items inside, when this is a list value.
    pub fn as_list(&self) -> (r: Option<&Vec<FlowValue>>)
        ensures
            match r {
                Some(items) => self@ == ValueView::List(value_seq_view(items@)),
                None => !(self@ matches ValueView::List(_)),
            },
    {
        match self {
            FlowValue::List(items) => Some(items),
            _ => None,
        }
    }

    /// The entries inside, when this is an object value.
    pub fn as_object(&self) -> (r: Option<&Vec<(String, FlowValue)>>)
        ensures
            match r {
                Some(entries) => self@ == ValueView::Object(entry_seq_view(entries@)),
                None => !(self@ matches ValueView::Object(_)),
            },
    {
        match self {
            FlowValue::Object(entries) => Some(entries),
            _ => None,
        }
    }

    /// The messages inside, when this is a message-list value.
    pub fn as_messages(&self) -> (r: Option<&Vec<Message>>)
        ensures
            match r {
                Some(msgs) => self@ == ValueView::Messages(
                    Seq::new(msgs@.len(), |i: int| msgs@[i]@),
                ),
                None => !(self@ matches ValueView::Messages(_)),
            },
    {
        match self {
            FlowValue::Messages(msgs) => Some(msgs),
            _ => None,
        }
    }
}

} // verus!
