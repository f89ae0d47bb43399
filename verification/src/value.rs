//! Typed values and the field bag that objects and traits carry.

use vstd::prelude::*;
use crate::text::{chars_eq_str, to_chars};

verus! {

/// A typed value, as a mathematical object.
pub enum ValueModel {
    String(Seq<char>),
    /// A number, held as its numeral (see [`crate::coerce::is_float_literal`]).
    Number(Seq<char>),
    Bool(bool),
    /// An ISO date, `YYYY-MM-DD`.
    Date(Seq<char>),
    Datetime(Seq<char>),
    /// The target of a reference.
    Ref(Seq<char>),
    Array(Seq<ValueModel>),
    Null,
}

/// A typed value.
///
/// A number is held as the numeral it was read from: a text in the grammar
/// of decimal floating-point literals. The numeral denotes a double-precision
/// number; callers that compute with it parse it.
#[derive(Debug, PartialEq)]
pub enum FieldValue {
    String(String),
    Number(String),
    Bool(bool),
    Date(String),
    Datetime(String),
    Ref(String),
    Array(Vec<FieldValue>),
    Null,
}

/// The models of a sequence of values.
pub open spec fn value_views(v: Seq<FieldValue>) -> Seq<ValueModel>
    decreases v,
{
    Seq::new(
        v.len(),
        |i: int|
            if 0 <= i < v.len() {
                v[i].view()
            } else {
                ValueModel::Null
            },
    )
}

impl View for FieldValue {
    type V = ValueModel;

    open spec fn view(&self) -> ValueModel
        decreases self,
    {
        match self {
            FieldValue::String(s) => ValueModel::String(s@),
            FieldValue::Number(s) => ValueModel::Number(s@),
            FieldValue::Bool(b) => ValueModel::Bool(*b),
            FieldValue::Date(s) => ValueModel::Date(s@),
            FieldValue::Datetime(s) => ValueModel::Datetime(s@),
            FieldValue::Ref(s) => ValueModel::Ref(s@),
            FieldValue::Array(v) => ValueModel::Array(value_views(v@)),
            FieldValue::Null => ValueModel::Null,
        }
    }
}

impl ValueModel {
    /// The text that a textual value holds.
    pub open spec fn text(self) -> Option<Seq<char>> {
        match self {
            ValueModel::String(s) => Some(s),
            ValueModel::Date(s) => Some(s),
            ValueModel::Datetime(s) => Some(s),
            ValueModel::Ref(s) => Some(s),
            _ => None,
        }
    }
}

impl FieldValue {
    /// The text of a string, date, datetime or reference.
    pub fn as_str(&self) -> (r: Option<&str>)
        ensures
            r is Some <==> self@.text() is Some,
            r matches Some(s) ==> self@.text() == Some(s@),
    {
        match self {
            FieldValue::String(s) => Some(s.as_str()),
            FieldValue::Date(s) => Some(s.as_str()),
            FieldValue::Datetime(s) => Some(s.as_str()),
            FieldValue::Ref(s) => Some(s.as_str()),
            _ => None,
        }
    }

    /// The numeral of a number.
    pub fn as_number(&self) -> (r: Option<&str>)
        ensures
            r is Some <==> self@ is Number,
            r matches Some(s) ==> self@ == ValueModel::Number(s@),
    {
        match self {
            FieldValue::Number(s) => Some(s.as_str()),
            _ => None,
        }
    }

    /// The truth value of a boolean.
    pub fn as_bool(&self) -> (r: Option<bool>)
        ensures
            r is Some <==> self@ is Bool,
            r matches Some(b) ==> self@ == ValueModel::Bool(b),
    {
        match self {
            FieldValue::Bool(b) => Some(*b),
            _ => None,
        }
    }

    /// A copy of this value.
    pub fn duplicate(&self) -> (r: FieldValue)
        ensures
            r@ == self@,
        decreases self,
    {
        match self {
            FieldValue::String(s) => FieldValue::String(s.clone()),
            FieldValue::Number(s) => FieldValue::Number(s.clone()),
            FieldValue::Bool(b) => FieldValue::Bool(*b),
            FieldValue::Date(s) => FieldValue::Date(s.clone()),
            FieldValue::Datetime(s) => FieldValue::Datetime(s.clone()),
            FieldValue::Ref(s) => FieldValue::Ref(s.clone()),
            FieldValue::Array(v) => {
                let mut items: Vec<FieldValue> = Vec::new();
                let mut i: usize = 0;
                while i < v.len()
                    invariant
                        i <= v.len(),
                        items@.len() == i,
                        forall|k: int| 0 <= k < i ==> items@[k]@ == v@[k]@,
                        self is Array,
                        self->Array_0 == *v,
                    decreases v.len() - i,
                {
                    proof {
                        broadcast use vstd::std_specs::vec::axiom_vec_index_decreases;
                        assert(decreases_to!(*v => v[i as int]));
                        assert(decreases_to!(*self => self->Array_0));
                    }
                    let item = v[i].duplicate();
                    items.push(item);
                    i += 1;
                }
                assert(value_views(items@) =~= value_views(v@));
                FieldValue::Array(items)
            },
            FieldValue::Null => FieldValue::Null,
        }
    }
}

impl Clone for FieldValue {
    fn clone(&self) -> (r: FieldValue)
        ensures
            r@ == self@,
    {
        self.duplicate()
    }
}

/// One entry of a field bag.
#[derive(Debug, Clone)]
pub struct Field {
    pub name: String,
    pub value: FieldValue,
}

/// The mapping that a sequence of entries denotes: a later entry of a name
/// replaces an earlier one.
pub open spec fn entries_map(es: Seq<Field>) -> Map<Seq<char>, ValueModel>
    decreases es.len(),
{
    if es.len() == 0 {
        Map::empty()
    } else {
        entries_map(es.drop_last()).insert(es.last().name@, es.last().value@)
    }
}

/// No name occurs twice among the entries.
pub open spec fn distinct_names(es: Seq<Field>) -> bool {
    forall|i: int, j: int| 0 <= i < j < es.len() ==> es[i].name@ != es[j].name@
}

/// The keys of the mapping are the names of the entries.
pub proof fn lemma_entries_map_dom(es: Seq<Field>)
    ensures
        forall|k: Seq<char>| entries_map(es).dom().contains(k) <==>
            exists|i: int| 0 <= i < es.len() && #[trigger] es[i].name@ == k,
        entries_map(es).dom().finite(),
    decreases es.len(),
{
    if es.len() > 0 {
        let init = es.drop_last();
        lemma_entries_map_dom(init);
        assert forall|k: Seq<char>| entries_map(es).dom().contains(k) implies
            exists|i: int| 0 <= i < es.len() && #[trigger] es[i].name@ == k by {
            if k == es.last().name@ {
                assert(es[es.len() - 1].name@ == k);
            } else {
                let i = choose|i: int| 0 <= i < init.len() && #[trigger] init[i].name@ == k;
                assert(es[i].name@ == k);
            }
        }
        assert forall|k: Seq<char>| (exists|i: int| 0 <= i < es.len()
            && #[trigger] es[i].name@ == k) implies entries_map(es).dom().contains(k) by {
            let i = choose|i: int| 0 <= i < es.len() && #[trigger] es[i].name@ == k;
            if i < es.len() - 1 {
                assert(init[i].name@ == k);
            }
        }
    }
}

/// With distinct names, each entry's value is the one the mapping gives.
pub proof fn lemma_entries_map_get(es: Seq<Field>, i: int)
    requires
        distinct_names(es),
        0 <= i < es.len(),
    ensures
        entries_map(es).dom().contains(es[i].name@),
        entries_map(es)[es[i].name@] == es[i].value@,
    decreases es.len(),
{
    if i < es.len() - 1 {
        let init = es.drop_last();
        assert(distinct_names(init)) by {
            assert forall|a: int, b: int| 0 <= a < b < init.len() implies
                init[a].name@ != init[b].name@ by {
                assert(init[a] == es[a] && init[b] == es[b]);
            }
        }
        lemma_entries_map_get(init, i);
        assert(init[i] == es[i]);
    }
}

/// With distinct names, the mapping has as many keys as there are entries.
pub proof fn lemma_entries_map_len(es: Seq<Field>)
    requires
        distinct_names(es),
    ensures
        entries_map(es).dom().finite(),
        entries_map(es).dom().len() == es.len(),
    decreases es.len(),
{
    lemma_entries_map_dom(es);
    if es.len() > 0 {
        let init = es.drop_last();
        assert(distinct_names(init)) by {
            assert forall|a: int, b: int| 0 <= a < b < init.len() implies
                init[a].name@ != init[b].name@ by {
                assert(init[a] == es[a] && init[b] == es[b]);
            }
        }
        lemma_entries_map_len(init);
        lemma_entries_map_dom(init);
        assert(!entries_map(init).dom().contains(es.last().name@)) by {
            if entries_map(init).dom().contains(es.last().name@) {
                let i = choose|i: int| 0 <= i < init.len()
                    && #[trigger] init[i].name@ == es.last().name@;
                assert(es[i].name@ == es[es.len() - 1].name@);
            }
        }
    }
}

/// Replacing the value of an entry whose name occurs once replaces the value
/// in the mapping.
pub proof fn lemma_entries_map_update(es: Seq<Field>, i: int, f: Field)
    requires
        distinct_names(es),
        0 <= i < es.len(),
        f.name@ == es[i].name@,
    ensures
        distinct_names(es.update(i, f)),
        entries_map(es.update(i, f)) == entries_map(es).insert(f.name@, f.value@),
    decreases es.len(),
{
    let es2 = es.update(i, f);
    assert(distinct_names(es2)) by {
        assert forall|a: int, b: int| 0 <= a < b < es2.len() implies es2[a].name@ != es2[b].name@ by {
            assert(es2[a].name@ == es[a].name@);
            assert(es2[b].name@ == es[b].name@);
        }
    }
    let init = es.drop_last();
    assert(distinct_names(init)) by {
        assert forall|a: int, b: int| 0 <= a < b < init.len() implies init[a].name@ != init[b].name@ by {
            assert(init[a] == es[a] && init[b] == es[b]);
        }
    }
    if i == es.len() - 1 {
        assert(es2.drop_last() =~= init);
        assert(entries_map(es2) =~= entries_map(es).insert(f.name@, f.value@));
    } else {
        lemma_entries_map_update(init, i, f);
        assert(es2.drop_last() =~= init.update(i, f));
        assert(es2.last() == es.last());
        assert(es.last().name@ != f.name@) by {
            assert(es[i].name@ != es[es.len() - 1].name@);
        }
        assert(entries_map(es2) =~= entries_map(es).insert(f.name@, f.value@));
    }
}

/// A mapping from field names to values. No name occurs twice; the order of
/// the entries carries no meaning.
#[derive(Debug)]
pub struct FieldMap {
    entries: Vec<Field>,
}

impl View for FieldMap {
    type V = Map<Seq<char>, ValueModel>;

    open spec fn view(&self) -> Map<Seq<char>, ValueModel> {
        entries_map(self.entries())
    }
}

impl FieldMap {
    #[verifier::type_invariant]
    spec fn names_distinct(self) -> bool {
        distinct_names(self.entries@)
    }

    /// The entries, in the order in which their names were first inserted.
    pub closed spec fn entries(self) -> Seq<Field> {
        self.entries@
    }

    /// The empty mapping.
    pub fn new() -> (r: FieldMap)
        ensures
            r@ == Map::<Seq<char>, ValueModel>::empty(),
            r.entries().len() == 0,
    {
        FieldMap { entries: Vec::new() }
    }

    /// The position of the entry named `key`.
    fn position(&self, key: &[char]) -> (r: Option<usize>)
        ensures
            r matches Some(i) ==> i < self.entries@.len() && self.entries@[i as int].name@ == key@,
            r is None ==> forall|i: int| 0 <= i < self.entries@.len() ==> self.entries@[i].name@ != key@,
    {
        let mut i: usize = 0;
        while i < self.entries.len()
            invariant
                i <= self.entries@.len(),
                forall|k: int| 0 <= k < i ==> self.entries@[k].name@ != key@,
            decreases self.entries@.len() - i,
        {
            if chars_eq_str(key, self.entries[i].name.as_str()) {
                return Some(i);
            }
            i += 1;
        }
        None
    }

    /// Sets the value of `key`, replacing the value it had.
    pub fn insert(&mut self, key: String, value: FieldValue)
        ensures
            final(self)@ == old(self)@.insert(key@, value@),
    {
        proof {
            use_type_invariant(&*self);
        }
        let k = to_chars(key.as_str());
        let found = self.position(k.as_slice());
        let mut taken = FieldMap::new();
        core::mem::swap(self, &mut taken);
        let FieldMap { entries } = taken;
        let mut entries = entries;
        let ghost before = entries@;
        let field = Field { name: key, value };
        match found {
            Some(i) => {
                proof {
                    lemma_entries_map_update(before, i as int, field);
                }
                entries.set(i, field);
            },
            None => {
                entries.push(field);
                proof {
                    assert(entries@.drop_last() =~= before);
                }
            },
        }
        *self = FieldMap { entries };
    }

    /// The value of `key`, if it has one.
    pub fn get(&self, key: &str) -> (r: Option<&FieldValue>)
        ensures
            r is Some <==> self@.dom().contains(key@),
            r matches Some(v) ==> v@ == self@[key@],
    {
        proof {
            use_type_invariant(self);
            lemma_entries_map_dom(self.entries@);
        }
        let k = to_chars(key);
        match self.position(k.as_slice()) {
            Some(i) => {
                proof {
                    lemma_entries_map_get(self.entries@, i as int);
                }
                Some(&self.entries[i].value)
            },
            None => None,
        }
    }

    /// Whether `key` has a value.
    pub fn contains_key(&self, key: &str) -> (r: bool)
        ensures
            r == self@.dom().contains(key@),
    {
        self.get(key).is_some()
    }

    /// The number of names that have a value.
    pub fn len(&self) -> (r: usize)
        ensures
            r == self@.dom().len(),
            r == self.entries().len(),
    {
        proof {
            use_type_invariant(self);
            lemma_entries_map_len(self.entries@);
        }
        self.entries.len()
    }

    /// Whether no name has a value.
    pub fn is_empty(&self) -> (r: bool)
        ensures
            r == (self@ == Map::<Seq<char>, ValueModel>::empty()),
    {
        proof {
            use_type_invariant(self);
            lemma_entries_map_len(self.entries@);
            if self.entries@.len() == 0 {
                assert(self@ =~= Map::<Seq<char>, ValueModel>::empty());
            }
        }
        self.entries.len() == 0
    }

    /// The entry at position `i`, for walking the mapping.
    pub fn entry(&self, i: usize) -> (r: &Field)
        requires
            i < self.entries().len(),
        ensures
            *r == self.entries()[i as int],
            self@.dom().contains(r.name@),
            self@[r.name@] == r.value@,
    {
        proof {
            use_type_invariant(self);
            lemma_entries_map_get(self.entries@, i as int);
        }
        &self.entries[i]
    }

    /// A copy of this mapping.
    pub fn duplicate(&self) -> (r: FieldMap)
        ensures
            r@ == self@,
    {
        proof {
            use_type_invariant(self);
        }
        let mut entries: Vec<Field> = Vec::new();
        let mut i: usize = 0;
        while i < self.entries.len()
            invariant
                i <= self.entries@.len(),
                entries@.len() == i,
                forall|k: int| 0 <= k < i ==>
                    entries@[k].name@ == self.entries@[k].name@
                        && entries@[k].value@ == self.entries@[k].value@,
            decreases self.entries@.len() - i,
        {
            let f = &self.entries[i];
            entries.push(Field { name: f.name.clone(), value: f.value.duplicate() });
            i += 1;
        }
        proof {
            lemma_same_entries(entries@, self.entries@);
        }
        FieldMap { entries }
    }
}

impl Clone for FieldMap {
    fn clone(&self) -> (r: FieldMap)
        ensures
            r@ == self@,
    {
        self.duplicate()
    }
}

/// Entries that agree in names and values denote the same mapping.
pub proof fn lemma_same_entries(a: Seq<Field>, b: Seq<Field>)
    requires
        a.len() == b.len(),
        forall|k: int| 0 <= k < a.len() ==> a[k].name@ == b[k].name@ && a[k].value@ == b[k].value@,
    ensures
        entries_map(a) == entries_map(b),
        distinct_names(b) ==> distinct_names(a),
    decreases a.len(),
{
    if a.len() > 0 {
        lemma_same_entries(a.drop_last(), b.drop_last());
    }
}

} // verus!
