//! Queries over the index: `key:value` pairs, and the condition they stand
//! for.

use vstd::prelude::*;
use vstd::slice::slice_subrange;
use vstd::string::StringExecFns;
use crate::coerce::{canonical_text, to_text};
use crate::text::{
    chars_eq_str, find, find_char, from_chars, is_space, is_whitespace, lemma_space_end, opt_text,
    scan_space, space_end, texts, to_chars,
};
use crate::value::{Field, FieldMap, FieldValue, ValueModel};

verus! {

/// A query, as a mathematical object.
pub struct QueryModel {
    pub object_type: Option<Seq<char>>,
    pub trait_type: Option<Seq<char>>,
    pub field_filters: Map<Seq<char>, ValueModel>,
    pub parent_type: Option<Seq<char>>,
    pub tag: Option<Seq<char>>,
}

/// A query for objects and traits.
#[derive(Debug)]
pub struct QueryBuilder {
    /// The type of the objects.
    pub object_type: Option<String>,
    /// The type of the traits.
    pub trait_type: Option<String>,
    /// The values that fields must have; each is held as a string.
    pub field_filters: FieldMap,
    /// The type of the parent.
    pub parent_type: Option<String>,
    /// The tag.
    pub tag: Option<String>,
}

impl View for QueryBuilder {
    type V = QueryModel;

    open spec fn view(&self) -> QueryModel {
        QueryModel {
            object_type: opt_text(self.object_type),
            trait_type: opt_text(self.trait_type),
            field_filters: self.field_filters@,
            parent_type: opt_text(self.parent_type),
            tag: opt_text(self.tag),
        }
    }
}

/// The query that asks for nothing.
pub open spec fn empty_query() -> QueryModel {
    QueryModel {
        object_type: None,
        trait_type: None,
        field_filters: Map::empty(),
        parent_type: None,
        tag: None,
    }
}

/// The index after the longest run of characters other than whitespace
/// from `i`.
pub open spec fn word_stop(s: Seq<char>, i: int) -> int
    decreases s.len() - i,
{
    if 0 <= i < s.len() && !is_space(s[i]) {
        word_stop(s, i + 1)
    } else {
        i
    }
}

/// A part stays within the text, and is not empty where it starts at a
/// character that is no whitespace.
pub proof fn lemma_word_stop(s: Seq<char>, i: int)
    requires
        0 <= i <= s.len(),
    ensures
        i <= word_stop(s, i) <= s.len(),
        i < s.len() && !is_space(s[i]) ==> word_stop(s, i) > i,
    decreases s.len() - i,
{
    if i < s.len() && !is_space(s[i]) {
        lemma_word_stop(s, i + 1);
    }
}

/// The query with one more part. A part without `:` says nothing. The keys
/// `type`, `trait`, `tags` and `parent.type` set what they name; any other
/// key filters the field of that name.
pub open spec fn with_part(q: QueryModel, part: Seq<char>) -> QueryModel {
    let i = find_char(part, 0, ':');
    if i >= part.len() {
        q
    } else {
        let key = part.subrange(0, i);
        let value = part.subrange(i + 1, part.len() as int);
        if key == "type"@ {
            QueryModel { object_type: Some(value), ..q }
        } else if key == "trait"@ {
            QueryModel { trait_type: Some(value), ..q }
        } else if key == "tags"@ {
            QueryModel { tag: Some(value), ..q }
        } else if key == "parent.type"@ {
            QueryModel { parent_type: Some(value), ..q }
        } else {
            QueryModel { field_filters: q.field_filters.insert(key, ValueModel::String(value)), ..q }
        }
    }
}

/// The query `q` with the parts of `s` from `i` on: the parts are the runs
/// of characters between whitespace.
pub open spec fn query_from(s: Seq<char>, i: int, q: QueryModel) -> QueryModel
    decreases s.len() - i,
{
    if i < 0 || i >= s.len() {
        q
    } else {
        let j = space_end(s, i);
        if j >= s.len() {
            q
        } else {
            proof {
                lemma_space_end(s, i);
                lemma_word_stop(s, j);
            }
            query_from(s, word_stop(s, j), with_part(q, s.subrange(j, word_stop(s, j))))
        }
    }
}

/// The query that a text stands for.
pub open spec fn query_of(s: Seq<char>) -> QueryModel {
    query_from(s, 0, empty_query())
}

/// The text that a filter compares with.
pub open spec fn filter_text(v: ValueModel) -> Seq<char> {
    match v {
        ValueModel::String(s) => s,
        _ => canonical_text(v),
    }
}

/// The condition on the field `name`.
pub open spec fn field_condition(name: Seq<char>) -> Seq<char> {
    "json_extract(fields, '$."@ + name + "') = ?"@
}

/// The conditions that the type and the tag give.
pub open spec fn head_conditions(q: QueryModel) -> Seq<Seq<char>> {
    (if q.object_type is Some {
        seq!["type = ?"@]
    } else {
        Seq::empty()
    }) + (if q.tag is Some {
        seq!["json_extract(fields, '$.tags') LIKE ?"@]
    } else {
        Seq::empty()
    })
}

/// The parameters that the type and the tag give.
pub open spec fn head_params(q: QueryModel) -> Seq<Seq<char>> {
    (match q.object_type {
        Some(t) => seq![t],
        None => Seq::empty(),
    }) + (match q.tag {
        Some(t) => seq!["%\""@ + t + "%"@],
        None => Seq::empty(),
    })
}

/// The conditions that the first `k` field filters give.
pub open spec fn filter_conditions(entries: Seq<Field>, k: int) -> Seq<Seq<char>>
    decreases k,
{
    if k <= 0 || k > entries.len() {
        Seq::empty()
    } else {
        filter_conditions(entries, k - 1).push(field_condition(entries[k - 1].name@))
    }
}

/// The parameters that the first `k` field filters give.
pub open spec fn filter_params(entries: Seq<Field>, k: int) -> Seq<Seq<char>>
    decreases k,
{
    if k <= 0 || k > entries.len() {
        Seq::empty()
    } else {
        filter_params(entries, k - 1).push(filter_text(entries[k - 1].value@))
    }
}

/// The first `k` conditions, joined by ` AND `.
pub open spec fn joined_conditions(conditions: Seq<Seq<char>>, k: int) -> Seq<char>
    decreases k,
{
    if k <= 0 || k > conditions.len() {
        Seq::empty()
    } else if k == 1 {
        conditions[0]
    } else {
        joined_conditions(conditions, k - 1) + " AND "@ + conditions[k - 1]
    }
}

/// The clause of the given conditions: empty where there is none.
pub open spec fn where_clause(conditions: Seq<Seq<char>>) -> Seq<char> {
    if conditions.len() == 0 {
        Seq::empty()
    } else {
        "WHERE "@ + joined_conditions(conditions, conditions.len() as int)
    }
}

fn scan_word_stop(s: &[char], i: usize) -> (r: usize)
    requires
        i <= s.len(),
    ensures
        r == word_stop(s@, i as int),
        i <= r <= s.len(),
{
    let mut k: usize = i;
    while k < s.len() && !is_whitespace(s[k])
        invariant
            i <= k <= s.len(),
            word_stop(s@, i as int) == word_stop(s@, k as int),
        decreases s.len() - k,
    {
        k += 1;
    }
    k
}

impl QueryBuilder {
    /// The query that asks for nothing.
    pub fn new() -> (r: QueryBuilder)
        ensures
            r@ == empty_query(),
    {
        QueryBuilder {
            object_type: None,
            trait_type: None,
            field_filters: FieldMap::new(),
            parent_type: None,
            tag: None,
        }
    }

    /// Adds one part to the query.
    fn add_part(&mut self, part: &[char])
        ensures
            final(self)@ == with_part(old(self)@, part@),
    {
        let i = find(part, 0, ':');
        if i < part.len() {
            let key = slice_subrange(part, 0, i);
            let value = from_chars(slice_subrange(part, i + 1, part.len()));
            if chars_eq_str(key, "type") {
                self.object_type = Some(value);
            } else if chars_eq_str(key, "trait") {
                self.trait_type = Some(value);
            } else if chars_eq_str(key, "tags") {
                self.tag = Some(value);
            } else if chars_eq_str(key, "parent.type") {
                self.parent_type = Some(value);
            } else {
                self.field_filters.insert(from_chars(key), FieldValue::String(value));
            }
        }
    }

    /// Parses a query such as `type:meeting attendees:[[alice]]`.
    pub fn parse(query: &str) -> (r: QueryBuilder)
        ensures
            r@ == query_of(query@),
    {
        let s = to_chars(query);
        let n = s.len();
        let mut builder = QueryBuilder::new();
        let mut i: usize = 0;
        while i < n
            invariant
                i <= n,
                n == s@.len(),
                s@ == query@,
                query_from(s@, i as int, builder@) == query_of(query@),
            decreases n - i,
        {
            proof {
                lemma_space_end(s@, i as int);
            }
            let j = scan_space(s.as_slice(), i);
            if j >= n {
                i = n;
            } else {
                proof {
                    lemma_word_stop(s@, j as int);
                }
                let e = scan_word_stop(s.as_slice(), j);
                builder.add_part(slice_subrange(s.as_slice(), j, e));
                i = e;
            }
        }
        builder
    }

    /// Builds the condition of the query and its parameters: a condition on
    /// the type, one on the tag, and one for each field filter.
    pub fn build_where_clause(&self) -> (r: (String, Vec<String>))
        ensures
            r.0@ == where_clause(
                head_conditions(self@) + filter_conditions(
                    self.field_filters.entries(),
                    self.field_filters.entries().len() as int,
                ),
            ),
            texts(r.1@) == head_params(self@) + filter_params(
                self.field_filters.entries(),
                self.field_filters.entries().len() as int,
            ),
    {
        let mut conditions: Vec<String> = Vec::new();
        let mut params: Vec<String> = Vec::new();
        assert(texts(conditions@) =~= Seq::<Seq<char>>::empty());
        assert(texts(params@) =~= Seq::<Seq<char>>::empty());
        match &self.object_type {
            Some(t) => {
                conditions.push(String::from_str("type = ?"));
                params.push(t.clone());
            },
            None => {},
        }
        match &self.tag {
            Some(tag) => {
                conditions.push(String::from_str("json_extract(fields, '$.tags') LIKE ?"));
                params.push(String::from_str("%\"").concat(tag.as_str()).concat("%"));
            },
            None => {},
        }
        assert(texts(conditions@) =~= head_conditions(self@));
        assert(texts(params@) =~= head_params(self@));
        let ghost entries = self.field_filters.entries();
        let count = self.field_filters.len();
        let mut k: usize = 0;
        while k < count
            invariant
                k <= count,
                count == entries.len(),
                entries == self.field_filters.entries(),
                texts(conditions@) == head_conditions(self@) + filter_conditions(
                    entries,
                    k as int,
                ),
                texts(params@) == head_params(self@) + filter_params(entries, k as int),
            decreases count - k,
        {
            let entry = self.field_filters.entry(k);
            let ghost old_conditions = conditions@;
            let ghost old_params = params@;
            let condition = String::from_str("json_extract(fields, '$.").concat(
                entry.name.as_str(),
            ).concat("') = ?");
            let param = match &entry.value {
                FieldValue::String(v) => v.clone(),
                other => to_text(other),
            };
            conditions.push(condition);
            params.push(param);
            proof {
                assert(texts(conditions@) =~= texts(old_conditions).push(condition@));
                assert(texts(params@) =~= texts(old_params).push(param@));
                assert(texts(conditions@) =~= head_conditions(self@) + filter_conditions(
                    entries,
                    k + 1,
                ));
                assert(texts(params@) =~= head_params(self@) + filter_params(entries, k + 1));
            }
            k += 1;
        }
        let ghost all = texts(conditions@);
        let mut clause = String::new();
        if conditions.len() > 0 {
            clause = String::from_str("WHERE ");
            let mut j: usize = 0;
            while j < conditions.len()
                invariant
                    j <= conditions.len(),
                    all == texts(conditions@),
                    clause@ == "WHERE "@ + joined_conditions(all, j as int),
                decreases conditions.len() - j,
            {
                assert(all[j as int] == conditions@[j as int]@);
                if j > 0 {
                    clause.append(" AND ");
                }
                clause.append(conditions[j].as_str());
                proof {
                    if j == 0 {
                        assert(clause@ =~= "WHERE "@ + joined_conditions(all, 1));
                    } else {
                        assert(clause@ =~= "WHERE "@ + joined_conditions(all, j + 1));
                    }
                }
                j += 1;
            }
        }
        (clause, params)
    }
}

} // verus!
