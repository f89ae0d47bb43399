//! Type declarations, `::name(key=value, ...)`, and their argument lists.

use vstd::prelude::*;
use vstd::slice::slice_subrange;
use crate::coerce::{coerce, coerce_chars};
use crate::text::{
    find, find_char, from_chars, opt_text, scan_space, scan_word, space_end, texts, to_chars, trim,
    trim_slice, word_end,
};
use crate::value::{value_views, FieldMap, FieldValue, ValueModel};

verus! {

// ---------------------------------------------------------------------------
// Argument lists
// ---------------------------------------------------------------------------

/// The state of the scan of an argument list.
pub struct ArgState {
    /// The pairs that a comma has closed.
    pub fields: Map<Seq<char>, ValueModel>,
    /// The key of the open pair, untrimmed.
    pub key: Seq<char>,
    /// The value of the open pair, as text.
    pub value: Seq<char>,
    /// Whether the scan is before the `=` of the open pair.
    pub in_key: bool,
    /// Whether the scan is inside a quoted string.
    pub quoted: bool,
    /// Opened minus closed square brackets, outside quotes.
    pub depth: int,
}

/// The fields with the pair `key`, `value` added. A pair whose key is empty
/// after trimming is dropped.
pub open spec fn with_pair(fields: Map<Seq<char>, ValueModel>, key: Seq<char>, value: Seq<char>) -> Map<
    Seq<char>,
    ValueModel,
> {
    if trim(key).len() > 0 {
        fields.insert(trim(key), coerce(value))
    } else {
        fields
    }
}

/// The state after one more character `c`.
///
/// A quote outside brackets toggles the quoted state; a square bracket
/// outside quotes changes the depth; all three belong to the value. The first
/// `=` outside quotes and brackets ends the key. A `,` outside quotes and
/// brackets ends the pair. Any other character belongs to the key or to the
/// value, whichever is open.
pub open spec fn arg_step(st: ArgState, c: char) -> ArgState {
    if c == '"' && st.depth == 0 {
        ArgState { quoted: !st.quoted, value: st.value.push(c), ..st }
    } else if c == '[' && !st.quoted {
        ArgState { depth: st.depth + 1, value: st.value.push(c), ..st }
    } else if c == ']' && !st.quoted {
        ArgState { depth: st.depth - 1, value: st.value.push(c), ..st }
    } else if c == '=' && !st.quoted && st.depth == 0 && st.in_key {
        ArgState { in_key: false, ..st }
    } else if c == ',' && !st.quoted && st.depth == 0 {
        ArgState {
            fields: with_pair(st.fields, st.key, st.value),
            key: Seq::empty(),
            value: Seq::empty(),
            in_key: true,
            ..st
        }
    } else if st.in_key {
        ArgState { key: st.key.push(c), ..st }
    } else {
        ArgState { value: st.value.push(c), ..st }
    }
}

/// The state after the first `n` characters of `s`.
pub open spec fn arg_state(s: Seq<char>, n: int) -> ArgState
    decreases n,
{
    if n <= 0 {
        ArgState {
            fields: Map::empty(),
            key: Seq::empty(),
            value: Seq::empty(),
            in_key: true,
            quoted: false,
            depth: 0,
        }
    } else {
        arg_step(arg_state(s, n - 1), s[n - 1])
    }
}

/// The fields that an argument list denotes. A later pair of a key replaces
/// an earlier one.
pub open spec fn arguments(s: Seq<char>) -> Map<Seq<char>, ValueModel> {
    let st = arg_state(s, s.len() as int);
    with_pair(st.fields, st.key, st.value)
}

/// Adds the pair `key`, `value` to `fields`, unless the key is empty.
fn add_pair(fields: &mut FieldMap, key: &[char], value: &[char])
    ensures
        final(fields)@ == with_pair(old(fields)@, key@, value@),
{
    let k = trim_slice(key);
    if k.len() > 0 {
        let v = coerce_chars(value);
        fields.insert(from_chars(k), v);
    }
}

/// Parses an argument list, given as characters.
pub fn parse_args(args: &[char]) -> (r: FieldMap)
    ensures
        r@ == arguments(args@),
{
    let n = args.len();
    let mut fields = FieldMap::new();
    let mut key: Vec<char> = Vec::new();
    let mut value: Vec<char> = Vec::new();
    let mut in_key = true;
    let mut quoted = false;
    let mut depth: i128 = 0;
    let mut i: usize = 0;
    while i < n
        invariant
            i <= n,
            n == args@.len(),
            arg_state(args@, i as int) == (ArgState {
                fields: fields@,
                key: key@,
                value: value@,
                in_key,
                quoted,
                depth: depth as int,
            }),
            -(i as int) <= depth <= i as int,
        decreases n - i,
    {
        let c = args[i];
        if c == '"' && depth == 0 {
            quoted = !quoted;
            value.push(c);
        } else if c == '[' && !quoted {
            depth = depth + 1;
            value.push(c);
        } else if c == ']' && !quoted {
            depth = depth - 1;
            value.push(c);
        } else if c == '=' && !quoted && depth == 0 && in_key {
            in_key = false;
        } else if c == ',' && !quoted && depth == 0 {
            add_pair(&mut fields, key.as_slice(), value.as_slice());
            key = Vec::new();
            value = Vec::new();
            in_key = true;
        } else if in_key {
            key.push(c);
        } else {
            value.push(c);
        }
        i += 1;
    }
    add_pair(&mut fields, key.as_slice(), value.as_slice());
    fields
}

/// Parses a comma-separated list of `key=value` arguments.
pub fn parse_arguments(args: &str) -> (r: FieldMap)
    ensures
        r@ == arguments(args@),
{
    let v = to_chars(args);
    parse_args(v.as_slice())
}

// ---------------------------------------------------------------------------
// Declarations
// ---------------------------------------------------------------------------

/// Whether a trimmed line begins like a type declaration.
pub open spec fn is_declaration_start(t: Seq<char>) -> bool {
    t.len() >= 2 && t[0] == ':' && t[1] == ':'
}

/// The name and the argument list of a type declaration: `::`, a name of
/// one or more identifier characters, optional whitespace, `(`, arguments
/// without a `)`, and a `)` that ends the line.
pub open spec fn declaration_parts(t: Seq<char>) -> Option<(Seq<char>, Seq<char>)> {
    if !is_declaration_start(t) {
        None
    } else {
        let a = word_end(t, 2);
        let p = space_end(t, a);
        let close = find_char(t, p + 1, ')');
        if a > 2 && p < t.len() && t[p] == '(' && close == t.len() - 1 {
            Some((t.subrange(2, a), t.subrange(p + 1, close)))
        } else {
            None
        }
    }
}

/// The declared identifier: the text of the field `id`, if it has one.
pub open spec fn declared_id(fields: Map<Seq<char>, ValueModel>) -> Option<Seq<char>> {
    if fields.dom().contains("id"@) {
        fields["id"@].text()
    } else {
        None
    }
}

/// A type declaration.
#[derive(Debug, Clone)]
pub struct TypeDeclaration {
    /// The name of the type.
    pub name: String,
    /// The declared identifier, if the arguments hold one.
    pub id: Option<String>,
    /// The arguments.
    pub fields: FieldMap,
    /// The line of the declaration.
    pub line: usize,
}

/// A line that begins with `::` and is no type declaration.
#[derive(Debug)]
pub struct InvalidDeclaration {
    /// The line number that the caller gave.
    pub line: usize,
    /// The trimmed line.
    pub text: String,
}

impl InvalidDeclaration {
    /// A message for the user.
    pub fn message(&self) -> (r: String)
        ensures
            r@ == "Invalid type declaration syntax: "@ + self.text@,
    {
        String::from_str("Invalid type declaration syntax: ").concat(self.text.as_str())
    }
}

/// What a line holds, as a type declaration.
pub open spec fn declaration_of(line: Seq<char>) -> Option<(Seq<char>, Seq<char>)> {
    declaration_parts(trim(line))
}

/// Splits a trimmed line that begins with `::` into name and arguments.
fn split_declaration(t: &[char]) -> (r: Option<(usize, usize, usize)>)
    requires
        is_declaration_start(t@),
    ensures
        r is Some <==> declaration_parts(t@) is Some,
        r matches Some((a, p, close)) ==> 2 < a <= p < close < t@.len() && declaration_parts(t@)
            == Some((t@.subrange(2, a as int), t@.subrange(p + 1, close as int))),
{
    let a = scan_word(t, 2);
    let p = scan_space(t, a);
    if !(a > 2 && p < t.len() && t[p] == '(') {
        return None;
    }
    let close = find(t, p + 1, ')');
    if close < t.len() && close == t.len() - 1 {
        Some((a, p, close))
    } else {
        None
    }
}

/// Parses a type declaration from a line.
///
/// A line that does not begin with `::` after trimming holds no declaration.
/// A line that does, and has not the shape of a declaration, is an error.
pub fn parse_type_declaration(line: &str, line_number: usize) -> (r: Result<
    Option<TypeDeclaration>,
    InvalidDeclaration,
>)
    ensures
        !is_declaration_start(trim(line@)) ==> r matches Ok(None),
        is_declaration_start(trim(line@)) && declaration_of(line@) is None ==> (r matches Err(e)
            && e.line == line_number && e.text@ == trim(line@)),
        declaration_of(line@) matches Some((name, args)) ==> (r matches Ok(Some(d)) && d.name@
            == name && d.fields@ == arguments(args) && opt_text(d.id) == declared_id(
            arguments(args),
        ) && d.line == line_number),
{
    let v = to_chars(line);
    parse_declaration(v.as_slice(), line_number)
}

/// Parses a type declaration from a line, given as characters.
pub fn parse_declaration(line: &[char], line_number: usize) -> (r: Result<
    Option<TypeDeclaration>,
    InvalidDeclaration,
>)
    ensures
        !is_declaration_start(trim(line@)) ==> r matches Ok(None),
        is_declaration_start(trim(line@)) && declaration_of(line@) is None ==> (r matches Err(e)
            && e.line == line_number && e.text@ == trim(line@)),
        declaration_of(line@) matches Some((name, args)) ==> (r matches Ok(Some(d)) && d.name@
            == name && d.fields@ == arguments(args) && opt_text(d.id) == declared_id(
            arguments(args),
        ) && d.line == line_number),
{
    let t = trim_slice(line);
    if !(t.len() >= 2 && t[0] == ':' && t[1] == ':') {
        return Ok(None);
    }
    match split_declaration(t) {
        None => Err(InvalidDeclaration { line: line_number, text: from_chars(t) }),
        Some((a, p, close)) => {
            let name = from_chars(slice_subrange(t, 2, a));
            let fields = parse_args(slice_subrange(t, p + 1, close));
            let id = match fields.get("id") {
                Some(v) => match v.as_str() {
                    Some(s) => Some(String::from_str(s)),
                    None => None,
                },
                None => None,
            };
            Ok(Some(TypeDeclaration { name, id, fields, line: line_number }))
        },
    }
}

// ---------------------------------------------------------------------------
// Declarations of embedded objects
// ---------------------------------------------------------------------------

/// The strings among the first `k` items.
pub open spec fn string_items(items: Seq<ValueModel>, k: int) -> Seq<Seq<char>>
    decreases k,
{
    if k <= 0 || k > items.len() {
        Seq::empty()
    } else {
        match items[k - 1] {
            ValueModel::String(s) => string_items(items, k - 1).push(s),
            _ => string_items(items, k - 1),
        }
    }
}

/// The declared tags: the strings of the array `tags`, or the single string
/// `tags`.
pub open spec fn declared_tags(fields: Map<Seq<char>, ValueModel>) -> Seq<Seq<char>> {
    if fields.dom().contains("tags"@) {
        match fields["tags"@] {
            ValueModel::Array(items) => string_items(items, items.len() as int),
            ValueModel::String(s) => seq![s],
            _ => Seq::empty(),
        }
    } else {
        Seq::empty()
    }
}

/// The declaration of an embedded object, as a mathematical object.
pub struct EmbeddedModel {
    pub name: Seq<char>,
    pub id: Seq<char>,
    pub fields: Map<Seq<char>, ValueModel>,
    pub tags: Seq<Seq<char>>,
    pub line: int,
}

/// The declaration of an embedded object: a type declaration that declares
/// an identifier.
#[derive(Debug, Clone)]
pub struct EmbeddedType {
    /// The name of the type.
    pub name: String,
    /// The declared identifier.
    pub id: String,
    /// The arguments.
    pub fields: FieldMap,
    /// The declared tags.
    pub tags: Vec<String>,
    /// The line of the declaration.
    pub line: usize,
}

impl View for EmbeddedType {
    type V = EmbeddedModel;

    open spec fn view(&self) -> EmbeddedModel {
        EmbeddedModel {
            name: self.name@,
            id: self.id@,
            fields: self.fields@,
            tags: texts(self.tags@),
            line: self.line as int,
        }
    }
}

/// The view of an optional declaration.
pub open spec fn opt_embedded(o: Option<EmbeddedType>) -> Option<EmbeddedModel> {
    match o {
        Some(e) => Some(e@),
        None => None,
    }
}

/// What a line declares, as an embedded object: nothing if it is no
/// declaration or declares no identifier.
pub open spec fn embedded_of(line: Seq<char>, line_number: int) -> Option<EmbeddedModel> {
    match declaration_of(line) {
        Some((name, args)) => match declared_id(arguments(args)) {
            Some(id) => Some(
                EmbeddedModel {
                    name,
                    id,
                    fields: arguments(args),
                    tags: declared_tags(arguments(args)),
                    line: line_number,
                },
            ),
            None => None,
        },
        None => None,
    }
}

/// Whether a line begins like a declaration and is none.
pub open spec fn is_malformed_declaration(line: Seq<char>) -> bool {
    is_declaration_start(trim(line)) && declaration_of(line) is None
}

/// Reads the declared tags out of the arguments.
fn tags_of_fields(fields: &FieldMap) -> (r: Vec<String>)
    ensures
        texts(r@) == declared_tags(fields@),
{
    let mut r: Vec<String> = Vec::new();
    assert(texts(r@) =~= Seq::<Seq<char>>::empty());
    match fields.get("tags") {
        Some(FieldValue::Array(items)) => {
            let ghost models = value_views(items@);
            let mut i: usize = 0;
            while i < items.len()
                invariant
                    i <= items.len(),
                    models == value_views(items@),
                    texts(r@) == string_items(models, i as int),
                decreases items.len() - i,
            {
                assert(models[i as int] == items@[i as int]@);
                match &items[i] {
                    FieldValue::String(s) => {
                        let ghost before = r@;
                        let name = s.clone();
                        r.push(name);
                        proof {
                            assert(texts(r@) =~= texts(before).push(name@));
                        }
                    },
                    _ => {},
                }
                i += 1;
            }
        },
        Some(FieldValue::String(s)) => {
            let name = s.clone();
            r.push(name);
            proof {
                assert(texts(r@) =~= seq![s@]);
            }
        },
        _ => {},
    }
    r
}

/// Parses the declaration of an embedded object from a line.
pub fn parse_embedded_type(line: &[char], line_number: usize) -> (r: Result<
    Option<EmbeddedType>,
    InvalidDeclaration,
>)
    ensures
        match r {
            Ok(e) => !is_malformed_declaration(line@) && opt_embedded(e) == embedded_of(
                line@,
                line_number as int,
            ),
            Err(e) => is_malformed_declaration(line@) && e.line == line_number && e.text@
                == trim(line@),
        },
{
    match parse_declaration(line, line_number) {
        Err(e) => Err(e),
        Ok(None) => Ok(None),
        Ok(Some(d)) => {
            let TypeDeclaration { name, id, fields, line } = d;
            match id {
                Some(id) => {
                    let tags = tags_of_fields(&fields);
                    Ok(Some(EmbeddedType { name, id, fields, tags, line }))
                },
                None => Ok(None),
            }
        },
    }
}

} // verus!
