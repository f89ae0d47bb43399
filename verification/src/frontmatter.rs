//! The frontmatter of a document: a leading block of YAML between two lines
//! `---`.
//!
//! YAML itself is read by `serde_yaml`; this module finds the block and reads
//! type, tags and fields out of the decoded mapping.

use vstd::prelude::*;
use vstd::slice::slice_subrange;
use crate::coerce::{coerce, coerce_chars, is_float, is_float_literal};
use crate::text::{
    chars_eq, copy_chars, from_chars, is_space, is_whitespace, join_from, join_lines, lines_of,
    opt_text, split_lines, texts, to_chars, utf8_len, views,
};
use crate::value::{value_views, FieldMap, FieldValue, ValueModel};
use crate::yaml::{
    decode_yaml, yaml_decode, yaml_entry_views, yaml_views, FrontmatterError, YamlModel, YamlNode,
};

verus! {

// ---------------------------------------------------------------------------
// From YAML to values
// ---------------------------------------------------------------------------

/// `s` without its first `.`.
pub open spec fn without_point(s: Seq<char>) -> Seq<char> {
    let i = crate::text::find_char(s, 0, '.');
    if i < s.len() {
        s.subrange(0, i) + s.subrange(i + 1, s.len() as int)
    } else {
        s
    }
}

/// The numeral `0`.
pub open spec fn text_zero() -> Seq<char> {
    seq!['0']
}

/// The numeral of a YAML number. YAML writes the infinities and the
/// not-a-number with a `.` before the word; the numeral has none.
pub open spec fn yaml_numeral(t: Seq<char>) -> Seq<char> {
    if is_float_literal(t) {
        t
    } else if is_float_literal(without_point(t)) {
        without_point(t)
    } else {
        text_zero()
    }
}

/// The value of a decoded YAML value: a string is coerced, a sequence is an
/// array of the values of its items, a mapping or a tagged value is null.
pub open spec fn yaml_value(node: YamlModel) -> ValueModel
    decreases node, 0int,
{
    match node {
        YamlModel::String(s) => coerce(s),
        YamlModel::Number(t) => ValueModel::Number(yaml_numeral(t)),
        YamlModel::Bool(b) => ValueModel::Bool(b),
        YamlModel::Sequence(items) => ValueModel::Array(yaml_values(items, items.len() as int)),
        _ => ValueModel::Null,
    }
}

/// The values of the first `k` items.
pub open spec fn yaml_values(items: Seq<YamlModel>, k: int) -> Seq<ValueModel>
    decreases items, k,
{
    if k <= 0 || k > items.len() {
        Seq::empty()
    } else {
        yaml_values(items, k - 1).push(yaml_value(items[k - 1]))
    }
}

fn numeral_of(t: &str) -> (r: String)
    ensures
        r@ == yaml_numeral(t@),
{
    let s = to_chars(t);
    if is_float(s.as_slice()) {
        return from_chars(s.as_slice());
    }
    let i = crate::text::find(s.as_slice(), 0, '.');
    let mut w: Vec<char> = Vec::new();
    if i < s.len() {
        crate::text::append_chars(&mut w, slice_subrange(s.as_slice(), 0, i));
        crate::text::append_chars(&mut w, slice_subrange(s.as_slice(), i + 1, s.len()));
    } else {
        w = copy_chars(s.as_slice());
    }
    if is_float(w.as_slice()) {
        from_chars(w.as_slice())
    } else {
        let mut z: Vec<char> = Vec::new();
        z.push('0');
        assert(z@ =~= text_zero());
        from_chars(z.as_slice())
    }
}

/// Converts a decoded YAML value into a field value.
pub fn yaml_to_field_value(node: &YamlNode) -> (r: FieldValue)
    ensures
        r@ == yaml_value(node@),
    decreases node,
{
    match node {
        YamlNode::String(s) => {
            let chars = to_chars(s.as_str());
            coerce_chars(chars.as_slice())
        },
        YamlNode::Number(t) => FieldValue::Number(numeral_of(t.as_str())),
        YamlNode::Bool(b) => FieldValue::Bool(*b),
        YamlNode::Sequence(items) => {
            let mut out: Vec<FieldValue> = Vec::new();
            let ghost models = yaml_views(items@);
            let mut i: usize = 0;
            assert(value_views(out@) =~= yaml_values(models, 0));
            while i < items.len()
                invariant
                    i <= items.len(),
                    models == yaml_views(items@),
                    value_views(out@) == yaml_values(models, i as int),
                    node is Sequence,
                    node->Sequence_0 == *items,
                decreases items.len() - i,
            {
                proof {
                    broadcast use vstd::std_specs::vec::axiom_vec_index_decreases;
                    assert(decreases_to!(*items => items[i as int]));
                    assert(decreases_to!(*node => node->Sequence_0));
                }
                let ghost before = out@;
                let v = yaml_to_field_value(&items[i]);
                out.push(v);
                proof {
                    assert(models[i as int] == items@[i as int]@);
                    assert(value_views(out@) =~= value_views(before).push(v@));
                }
                i += 1;
            }
            FieldValue::Array(out)
        },
        _ => FieldValue::Null,
    }
}

// ---------------------------------------------------------------------------
// Tags
// ---------------------------------------------------------------------------

/// Whether `c` separates the tags of a tag string: a comma or whitespace.
pub open spec fn is_tag_separator(c: char) -> bool {
    c == ',' || is_space(c)
}

/// The index after the longest run of separators from `i`.
pub open spec fn separators_end(s: Seq<char>, i: int) -> int
    decreases s.len() - i,
{
    if 0 <= i < s.len() && is_tag_separator(s[i]) {
        separators_end(s, i + 1)
    } else {
        i
    }
}

/// The index after the longest run of other characters from `i`.
pub open spec fn token_end(s: Seq<char>, i: int) -> int
    decreases s.len() - i,
{
    if 0 <= i < s.len() && !is_tag_separator(s[i]) {
        token_end(s, i + 1)
    } else {
        i
    }
}

/// Runs of separators and of other characters stay within the text; a
/// run of other characters that starts at one is not empty.
pub proof fn lemma_token_runs(s: Seq<char>, i: int)
    requires
        0 <= i <= s.len(),
    ensures
        i <= separators_end(s, i) <= s.len(),
        i <= token_end(s, i) <= s.len(),
        i < s.len() && !is_tag_separator(s[i]) ==> token_end(s, i) > i,
        separators_end(s, i) < s.len() ==> !is_tag_separator(s[separators_end(s, i)]),
    decreases s.len() - i,
{
    if i < s.len() {
        lemma_token_runs(s, i + 1);
    }
}

/// A token without one leading `#`.
pub open spec fn without_hash(t: Seq<char>) -> Seq<char> {
    if t.len() > 0 && t[0] == '#' {
        t.subrange(1, t.len() as int)
    } else {
        t
    }
}

/// The tags of a tag string from `i` on: its tokens between commas and
/// whitespace, each without a leading `#`; a token that is only `#` is none.
pub open spec fn tag_tokens(s: Seq<char>, i: int) -> Seq<Seq<char>>
    decreases s.len() - i,
{
    if i < 0 || i >= s.len() {
        Seq::empty()
    } else {
        let j = separators_end(s, i);
        if j >= s.len() {
            Seq::empty()
        } else {
            proof {
                lemma_token_runs(s, i);
                lemma_token_runs(s, j);
            }
            let e = token_end(s, j);
            let t = without_hash(s.subrange(j, e));
            if t.len() > 0 {
                seq![t] + tag_tokens(s, e)
            } else {
                tag_tokens(s, e)
            }
        }
    }
}

/// The strings among the first `k` items.
pub open spec fn yaml_strings(items: Seq<YamlModel>, k: int) -> Seq<Seq<char>>
    decreases k,
{
    if k <= 0 || k > items.len() {
        Seq::empty()
    } else {
        match items[k - 1] {
            YamlModel::String(s) => yaml_strings(items, k - 1).push(s),
            _ => yaml_strings(items, k - 1),
        }
    }
}

/// The tags that the value of the key `tags` gives: the strings of a
/// sequence, or the tokens of a single string.
pub open spec fn yaml_tags(node: YamlModel) -> Seq<Seq<char>> {
    match node {
        YamlModel::Sequence(items) => yaml_strings(items, items.len() as int),
        YamlModel::String(s) => tag_tokens(s, 0),
        _ => Seq::empty(),
    }
}

fn scan_separators(s: &[char], i: usize) -> (r: usize)
    requires
        i <= s.len(),
    ensures
        r == separators_end(s@, i as int),
        i <= r <= s.len(),
{
    let mut k: usize = i;
    while k < s.len() && (s[k] == ',' || is_whitespace(s[k]))
        invariant
            i <= k <= s.len(),
            separators_end(s@, i as int) == separators_end(s@, k as int),
        decreases s.len() - k,
    {
        k += 1;
    }
    k
}

fn scan_token(s: &[char], i: usize) -> (r: usize)
    requires
        i <= s.len(),
    ensures
        r == token_end(s@, i as int),
        i <= r <= s.len(),
{
    let mut k: usize = i;
    while k < s.len() && !(s[k] == ',' || is_whitespace(s[k]))
        invariant
            i <= k <= s.len(),
            token_end(s@, i as int) == token_end(s@, k as int),
        decreases s.len() - k,
    {
        k += 1;
    }
    k
}

/// The tags of a tag string.
fn split_tag_string(text: &str) -> (r: Vec<String>)
    ensures
        texts(r@) == tag_tokens(text@, 0),
{
    let s = to_chars(text);
    let n = s.len();
    let mut r: Vec<String> = Vec::new();
    let mut i: usize = 0;
    let ghost all = tag_tokens(s@, 0);
    assert(texts(r@) =~= Seq::<Seq<char>>::empty());
    while i < n
        invariant
            i <= n,
            n == s@.len(),
            texts(r@) + tag_tokens(s@, i as int) == all,
        decreases n - i,
    {
        proof {
            lemma_token_runs(s@, i as int);
        }
        let j = scan_separators(s.as_slice(), i);
        if j >= n {
            i = n;
        } else {
            proof {
                lemma_token_runs(s@, j as int);
            }
            let e = scan_token(s.as_slice(), j);
            let from = if s[j] == '#' {
                j + 1
            } else {
                j
            };
            proof {
                let tok = s@.subrange(j as int, e as int);
                assert(without_hash(tok) =~= s@.subrange(from as int, e as int));
            }
            if e > from {
                let ghost before = r@;
                let name = from_chars(slice_subrange(s.as_slice(), from, e));
                r.push(name);
                proof {
                    assert(texts(r@) =~= texts(before).push(name@));
                    assert(texts(r@) + tag_tokens(s@, e as int) =~= texts(before) + tag_tokens(
                        s@,
                        i as int,
                    ));
                }
            }
            i = e;
        }
    }
    proof {
        assert(texts(r@) + tag_tokens(s@, n as int) =~= texts(r@));
    }
    r
}

/// Reads the tags from the value of the key `tags`.
pub fn parse_tags_value(node: &YamlNode) -> (r: Vec<String>)
    ensures
        texts(r@) == yaml_tags(node@),
{
    match node {
        YamlNode::Sequence(items) => {
            let mut r: Vec<String> = Vec::new();
            let ghost models = yaml_views(items@);
            let mut i: usize = 0;
            assert(texts(r@) =~= yaml_strings(models, 0));
            while i < items.len()
                invariant
                    i <= items.len(),
                    models == yaml_views(items@),
                    texts(r@) == yaml_strings(models, i as int),
                decreases items.len() - i,
            {
                assert(models[i as int] == items@[i as int]@);
                match &items[i] {
                    YamlNode::String(s) => {
                        let ghost before = r@;
                        let name = s.clone();
                        r.push(name);
                        proof {
                            assert(texts(r@) =~= texts(before).push(name@));
                        }
                    },
                    _ => {},
                }
                i += 1;
            }
            r
        },
        YamlNode::String(s) => split_tag_string(s.as_str()),
        _ => Vec::new(),
    }
}

// ---------------------------------------------------------------------------
// Frontmatter
// ---------------------------------------------------------------------------

/// The frontmatter of a document.
#[derive(Debug, Clone)]
pub struct Frontmatter {
    /// The declared type, if there is one.
    pub object_type: Option<String>,
    /// The fields: every key but `type` and `tags`.
    pub fields: FieldMap,
    /// The declared tags.
    pub tags: Vec<String>,
    /// The line on which the frontmatter ends; 0 if there is none.
    pub end_line: usize,
}

/// A frontmatter, as a mathematical object.
pub struct FrontmatterModel {
    pub object_type: Option<Seq<char>>,
    pub fields: Map<Seq<char>, ValueModel>,
    pub tags: Seq<Seq<char>>,
    pub end_line: int,
}

impl View for Frontmatter {
    type V = FrontmatterModel;

    open spec fn view(&self) -> FrontmatterModel {
        FrontmatterModel {
            object_type: opt_text(self.object_type),
            fields: self.fields@,
            tags: texts(self.tags@),
            end_line: self.end_line as int,
        }
    }
}

impl Default for Frontmatter {
    fn default() -> (r: Frontmatter)
        ensures
            r@ == no_frontmatter(),
    {
        let r = Frontmatter {
            object_type: None,
            fields: FieldMap::new(),
            tags: Vec::new(),
            end_line: 0,
        };
        assert(texts(r.tags@) =~= Seq::<Seq<char>>::empty());
        r
    }
}

/// The frontmatter of a document that has none.
pub open spec fn no_frontmatter() -> FrontmatterModel {
    FrontmatterModel {
        object_type: None,
        fields: Map::empty(),
        tags: Seq::empty(),
        end_line: 0,
    }
}

/// The line that opens and closes a frontmatter.
pub open spec fn delimiter() -> Seq<char> {
    seq!['-', '-', '-']
}

/// The first index at or after `i` of a line that is the delimiter, or the
/// number of lines.
pub open spec fn closing_line(lines: Seq<Seq<char>>, i: int) -> int
    decreases lines.len() - i,
{
    if 0 <= i < lines.len() && lines[i] != delimiter() {
        closing_line(lines, i + 1)
    } else if i > lines.len() {
        lines.len() as int
    } else {
        i
    }
}

/// The closing line is a delimiter.
pub proof fn lemma_closing_line(lines: Seq<Seq<char>>, i: int)
    requires
        0 <= i <= lines.len(),
    ensures
        i <= closing_line(lines, i) <= lines.len(),
        closing_line(lines, i) < lines.len() ==> lines[closing_line(lines, i)] == delimiter(),
    decreases lines.len() - i,
{
    if i < lines.len() && lines[i] != delimiter() {
        lemma_closing_line(lines, i + 1);
    }
}

/// The index of the line that closes the frontmatter, if the document has
/// one: its first line is the delimiter, and a later line is.
pub open spec fn frontmatter_close(content: Seq<char>) -> Option<int> {
    let lines = split_lines(content);
    if lines.len() > 0 && lines[0] == delimiter() && closing_line(lines, 1) < lines.len() {
        Some(closing_line(lines, 1))
    } else {
        None
    }
}

/// The YAML text of a frontmatter that closes at line index `close`.
pub open spec fn frontmatter_yaml(content: Seq<char>, close: int) -> Seq<char> {
    join_lines(split_lines(content).subrange(1, close))
}

/// The state of the walk over the entries of the mapping.
pub open spec fn entry_step(st: FrontmatterModel, key: YamlModel, value: YamlModel) -> FrontmatterModel {
    match key {
        YamlModel::String(k) => if k == "type"@ {
            match value {
                YamlModel::String(t) => FrontmatterModel { object_type: Some(t), ..st },
                _ => st,
            }
        } else if k == "tags"@ {
            FrontmatterModel { tags: yaml_tags(value), ..st }
        } else {
            FrontmatterModel { fields: st.fields.insert(k, yaml_value(value)), ..st }
        },
        _ => st,
    }
}

/// The frontmatter after the first `k` entries of the mapping.
pub open spec fn entries_state(
    entries: Seq<(YamlModel, YamlModel)>,
    end_line: int,
    k: int,
) -> FrontmatterModel
    decreases k,
{
    if k <= 0 || k > entries.len() {
        FrontmatterModel { end_line, ..no_frontmatter() }
    } else {
        entry_step(entries_state(entries, end_line, k - 1), entries[k - 1].0, entries[k - 1].1)
    }
}

/// The frontmatter that a decoded YAML value gives. A mapping gives its
/// string keys: `type`, if a string, is the declared type; `tags` gives the
/// tags; any other key is a field. A value that is no mapping gives
/// nothing.
pub open spec fn frontmatter_from(node: YamlModel, end_line: int) -> FrontmatterModel {
    match node {
        YamlModel::Mapping(entries) => entries_state(entries, end_line, entries.len() as int),
        _ => FrontmatterModel { end_line, ..no_frontmatter() },
    }
}

/// The frontmatter of a document: `None` where the block is no YAML.
pub open spec fn frontmatter_of(content: Seq<char>) -> Option<FrontmatterModel> {
    match frontmatter_close(content) {
        None => Some(no_frontmatter()),
        Some(close) => match yaml_decode(frontmatter_yaml(content, close)) {
            Some(node) => Some(frontmatter_from(node, close + 1)),
            None => None,
        },
    }
}

/// The body of a document: what follows the frontmatter, its lines joined by
/// line feeds; the whole document if it has no frontmatter.
pub open spec fn body_of(content: Seq<char>) -> Seq<char> {
    match frontmatter_close(content) {
        None => content,
        Some(close) => join_lines(split_lines(content).skip(close + 1)),
    }
}

/// A document whose first line is not the delimiter has no frontmatter, and
/// its body is the document.
pub proof fn lemma_no_leading_delimiter(content: Seq<char>)
    requires
        split_lines(content).len() == 0 || split_lines(content)[0] != delimiter(),
    ensures
        frontmatter_of(content) == Some(no_frontmatter()),
        body_of(content) == content,
{
}

/// Reads the frontmatter out of a decoded YAML value.
pub fn frontmatter_from_yaml(node: &YamlNode, end_line: usize) -> (r: Frontmatter)
    ensures
        r@ == frontmatter_from(node@, end_line as int),
{
    let mut r = Frontmatter::default();
    r.end_line = end_line;
    match node {
        YamlNode::Mapping(entries) => {
            let ghost models = yaml_entry_views(entries@);
            let mut k: usize = 0;
            while k < entries.len()
                invariant
                    k <= entries.len(),
                    models == yaml_entry_views(entries@),
                    r@ == entries_state(models, end_line as int, k as int),
                decreases entries.len() - k,
            {
                let entry = &entries[k];
                assert(models[k as int] == (entry.key@, entry.value@));
                match &entry.key {
                    YamlNode::String(key) => {
                        let kc = to_chars(key.as_str());
                        if crate::text::chars_eq_str(kc.as_slice(), "type") {
                            match &entry.value {
                                YamlNode::String(t) => {
                                    r.object_type = Some(t.clone());
                                },
                                _ => {},
                            }
                        } else if crate::text::chars_eq_str(kc.as_slice(), "tags") {
                            r.tags = parse_tags_value(&entry.value);
                        } else {
                            let v = yaml_to_field_value(&entry.value);
                            r.fields.insert(key.clone(), v);
                        }
                    },
                    _ => {},
                }
                k += 1;
            }
        },
        _ => {},
    }
    r
}

/// Where the frontmatter of the given lines closes.
pub fn find_frontmatter(lines: &Vec<Vec<char>>) -> (r: Option<usize>)
    ensures
        match r {
            Some(close) => 1 <= close < lines@.len() && views(lines@)[0] == delimiter() && close
                == closing_line(views(lines@), 1),
            None => !(lines@.len() > 0 && views(lines@)[0] == delimiter() && closing_line(
                views(lines@),
                1,
            ) < lines@.len()),
        },
{
    let ghost ls = views(lines@);
    let mut d: Vec<char> = Vec::new();
    d.push('-');
    d.push('-');
    d.push('-');
    assert(d@ =~= delimiter());
    if lines.len() == 0 {
        return None;
    }
    assert(ls[0] == lines@[0]@);
    if !chars_eq(lines[0].as_slice(), d.as_slice()) {
        return None;
    }
    let mut i: usize = 1;
    while i < lines.len()
        invariant
            1 <= i <= lines.len(),
            ls == views(lines@),
            d@ == delimiter(),
            ls[0] == delimiter(),
            closing_line(ls, 1) == closing_line(ls, i as int),
        decreases lines.len() - i,
    {
        assert(ls[i as int] == lines@[i as int]@);
        if chars_eq(lines[i].as_slice(), d.as_slice()) {
            assert(closing_line(ls, i as int) == i);
            return Some(i);
        }
        i += 1;
    }
    None
}

/// Parses the frontmatter of a document.
///
/// A document whose first line is not `---`, or that has no later line
/// `---`, has no frontmatter. A block that is no YAML is an error.
pub fn parse_frontmatter(content: &str) -> (r: Result<Frontmatter, FrontmatterError>)
    ensures
        match r {
            Ok(fm) => frontmatter_of(content@) == Some(fm@),
            Err(_) => frontmatter_of(content@) is None,
        },
{
    let chars = to_chars(content);
    let lines = lines_of(chars.as_slice());
    parse_frontmatter_lines(&lines, Ghost(content@))
}

/// Parses the frontmatter of a document, given as its lines.
pub(crate) fn parse_frontmatter_lines(lines: &Vec<Vec<char>>, Ghost(content): Ghost<Seq<char>>) -> (r:
    Result<Frontmatter, FrontmatterError>)
    requires
        views(lines@) == split_lines(content),
    ensures
        match r {
            Ok(fm) => frontmatter_of(content) == Some(fm@),
            Err(_) => frontmatter_of(content) is None,
        },
{
    match find_frontmatter(lines) {
        None => Ok(Frontmatter::default()),
        Some(close) => {
            let count = lines.len();
            let mut inner: Vec<Vec<char>> = Vec::new();
            let mut i: usize = 1;
            let ghost ls = views(lines@);
            while i < close
                invariant
                    1 <= i <= close < lines@.len(),
                    count == lines@.len(),
                    ls == views(lines@),
                    views(inner@) == ls.subrange(1, i as int),
                decreases close - i,
            {
                let ghost before = inner@;
                let line = copy_chars(lines[i].as_slice());
                inner.push(line);
                proof {
                    assert(ls[i as int] == lines@[i as int]@);
                    assert(views(inner@) =~= views(before).push(line@));
                    assert(ls.subrange(1, i + 1) =~= ls.subrange(1, i as int).push(ls[i as int]));
                }
                i += 1;
            }
            let yaml = join_from(&inner, 0);
            proof {
                assert(views(inner@).skip(0) =~= views(inner@));
            }
            let text = from_chars(yaml.as_slice());
            match decode_yaml(text.as_str()) {
                Ok(node) => Ok(frontmatter_from_yaml(&node, close + 1)),
                Err(e) => Err(e),
            }
        },
    }
}

/// The frontmatter that a YAML value gives ends on the given line.
pub proof fn lemma_frontmatter_end_line(node: YamlModel, end_line: int)
    ensures
        frontmatter_from(node, end_line).end_line == end_line,
{
    match node {
        YamlModel::Mapping(entries) => {
            lemma_entries_end_line(entries, end_line, entries.len() as int);
        },
        _ => {},
    }
}

proof fn lemma_entries_end_line(entries: Seq<(YamlModel, YamlModel)>, end_line: int, k: int)
    ensures
        entries_state(entries, end_line, k).end_line == end_line,
    decreases k,
{
    if 0 < k <= entries.len() {
        lemma_entries_end_line(entries, end_line, k - 1);
    }
}

/// The number of the first line of the body.
pub open spec fn body_start(content: Seq<char>) -> int {
    match frontmatter_close(content) {
        Some(close) => close + 2,
        None => 1,
    }
}

/// Splits the body off a document: gives the body and the number of its
/// first line.
pub fn document_body(content: &str) -> (r: (String, usize))
    requires
        utf8_len(content@) < usize::MAX,
    ensures
        r.0@ == body_of(content@),
        r.1 == body_start(content@),
{
    let chars = to_chars(content);
    let lines = lines_of(chars.as_slice());
    proof {
        crate::text::lemma_utf8_len_bounds(content@);
        crate::text::lemma_split_lines_len(content@);
    }
    match find_frontmatter(&lines) {
        Some(close) => {
            let body = join_from(&lines, close + 1);
            (from_chars(body.as_slice()), close + 2)
        },
        None => (from_chars(chars.as_slice()), 1),
    }
}

} // verus!
