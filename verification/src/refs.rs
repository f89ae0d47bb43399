//! References, `[[target]]` and `[[target|display]]`, and tags, `#name`.

use vstd::prelude::*;
use vstd::slice::slice_subrange;
use vstd::string::StrSliceExecFns;
use crate::text::{
    byte_length, byte_offset, contains_char, find, find_char, from_chars, is_digit, is_digit_char,
    is_space, is_whitespace, is_word, is_word_char, lemma_find_char, lemma_split_lines_utf8,
    lemma_utf8_len_subrange, lines_of, opt_text, split_lines, to_chars, utf8_len, views,
};

verus! {

// ---------------------------------------------------------------------------
// Tags
// ---------------------------------------------------------------------------

/// A character of a tag: an ASCII letter, an ASCII digit, `_` or `-`.
pub open spec fn is_tag_char(c: char) -> bool {
    is_word(c) || c == '-'
}

/// Whether `c` is a character of a tag.
pub fn tag_char(c: char) -> (b: bool)
    ensures
        b == is_tag_char(c),
{
    is_word_char(c) || c == '-'
}

/// The index after the longest run of tag characters from `i`.
pub open spec fn tag_end(s: Seq<char>, i: int) -> int
    decreases s.len() - i,
{
    if 0 <= i < s.len() && is_tag_char(s[i]) {
        tag_end(s, i + 1)
    } else {
        i
    }
}

/// Whether a tag may follow the character `c`.
pub open spec fn opens_tag(c: char) -> bool {
    is_space(c) || c == '(' || c == '['
}

/// Whether a tag starts at `i`: a `#` at the start of the text or after
/// whitespace, `(` or `[`, followed by one or more tag characters of which
/// the first is no digit.
pub open spec fn tag_at(s: Seq<char>, i: int) -> bool {
    &&& 0 <= i < s.len()
    &&& s[i] == '#'
    &&& (i == 0 || opens_tag(s[i - 1]))
    &&& tag_end(s, i + 1) > i + 1
    &&& !is_digit(s[i + 1])
}

/// The names of the tags that start at or after `i`.
pub open spec fn tags_from(s: Seq<char>, i: int) -> Seq<Seq<char>>
    decreases s.len() - i,
{
    if i < 0 || i >= s.len() {
        Seq::empty()
    } else if tag_at(s, i) {
        seq![s.subrange(i + 1, tag_end(s, i + 1))] + tags_from(s, i + 1)
    } else {
        tags_from(s, i + 1)
    }
}

/// The names of the tags in a text, in order.
pub open spec fn tags_of(s: Seq<char>) -> Seq<Seq<char>> {
    tags_from(s, 0)
}

fn scan_tag(s: &[char], i: usize) -> (r: usize)
    requires
        i <= s.len(),
    ensures
        r == tag_end(s@, i as int),
        i <= r <= s.len(),
{
    let mut k: usize = i;
    while k < s.len() && tag_char(s[k])
        invariant
            i <= k <= s.len(),
            tag_end(s@, i as int) == tag_end(s@, k as int),
        decreases s.len() - k,
    {
        k += 1;
    }
    k
}

/// The names of the tags in a text, given as characters.
pub fn scan_tags(s: &[char]) -> (r: Vec<Vec<char>>)
    ensures
        views(r@) == tags_of(s@),
{
    let n = s.len();
    let mut r: Vec<Vec<char>> = Vec::new();
    let mut i: usize = 0;
    assert(views(r@) =~= Seq::<Seq<char>>::empty());
    while i < n
        invariant
            i <= n,
            n == s@.len(),
            views(r@) + tags_from(s@, i as int) == tags_of(s@),
        decreases n - i,
    {
        if s[i] == '#' && (i == 0 || is_whitespace(s[i - 1]) || s[i - 1] == '(' || s[i - 1] == '[') {
            let e = scan_tag(s, i + 1);
            if e > i + 1 && !is_digit_char(s[i + 1]) {
                let ghost before = r@;
                let name = crate::text::copy_chars(slice_subrange(s, i + 1, e));
                r.push(name);
                proof {
                    assert(views(r@) =~= views(before).push(name@));
                    assert(views(r@) + tags_from(s@, i + 1) =~= views(before) + tags_from(
                        s@,
                        i as int,
                    ));
                }
            }
        }
        i += 1;
    }
    proof {
        assert(views(r@) + tags_from(s@, n as int) =~= views(r@));
    }
    r
}

/// The names of the `#tags` in a text.
pub fn extract_tags_from_text(text: &str) -> (r: Vec<String>)
    ensures
        crate::text::texts(r@) == tags_of(text@),
{
    let s = to_chars(text);
    let found = scan_tags(s.as_slice());
    let mut r: Vec<String> = Vec::new();
    let mut i: usize = 0;
    while i < found.len()
        invariant
            i <= found.len(),
            r@.len() == i,
            forall|k: int| 0 <= k < i ==> r@[k]@ == found@[k]@,
        decreases found.len() - i,
    {
        r.push(from_chars(found[i].as_slice()));
        i += 1;
    }
    assert(crate::text::texts(r@) =~= views(found@));
    r
}

/// A tag found in content.
#[derive(Debug, Clone)]
pub struct Tag {
    /// The name, without the `#`.
    pub name: String,
    /// The line of the tag.
    pub line: usize,
}

/// A tag, as a mathematical object.
pub struct TagModel {
    pub name: Seq<char>,
    pub line: int,
}

impl View for Tag {
    type V = TagModel;

    open spec fn view(&self) -> TagModel {
        TagModel { name: self.name@, line: self.line as int }
    }
}

/// The models of a sequence of tags.
pub open spec fn tag_views(v: Seq<Tag>) -> Seq<TagModel> {
    v.map_values(|t: Tag| t@)
}

/// The tags of one line, which has the number `line`.
pub open spec fn line_tags(s: Seq<char>, line: int) -> Seq<TagModel> {
    tags_of(s).map_values(|name: Seq<char>| TagModel { name, line })
}

/// The tags of the first `k` lines; the first line has the number `start`.
pub open spec fn tags_in(lines: Seq<Seq<char>>, start: int, k: int) -> Seq<TagModel>
    decreases k,
{
    if k <= 0 || k > lines.len() {
        Seq::empty()
    } else {
        tags_in(lines, start, k - 1) + line_tags(lines[k - 1], start + k - 1)
    }
}

/// Extracts the tags of a text, line by line. The first line has the number
/// `start_line`.
pub fn extract_tags(content: &str, start_line: usize) -> (r: Vec<Tag>)
    requires
        start_line + split_lines(content@).len() <= usize::MAX,
    ensures
        tag_views(r@) == tags_in(
            split_lines(content@),
            start_line as int,
            split_lines(content@).len() as int,
        ),
{
    let chars = to_chars(content);
    let lines = lines_of(chars.as_slice());
    let ghost ls = split_lines(content@);
    let mut r: Vec<Tag> = Vec::new();
    let mut k: usize = 0;
    assert(tag_views(r@) =~= Seq::<TagModel>::empty());
    while k < lines.len()
        invariant
            k <= lines.len(),
            ls == views(lines@),
            start_line + ls.len() <= usize::MAX,
            tag_views(r@) == tags_in(ls, start_line as int, k as int),
        decreases lines.len() - k,
    {
        let found = scan_tags(lines[k].as_slice());
        let line = start_line + k;
        let ghost base = r@;
        let ghost names = tags_of(ls[k as int]);
        assert(ls[k as int] == lines@[k as int]@);
        let mut j: usize = 0;
        while j < found.len()
            invariant
                j <= found.len(),
                views(found@) == names,
                tag_views(r@) == tag_views(base) + line_tags(ls[k as int], line as int).take(
                    j as int,
                ),
                names == tags_of(ls[k as int]),
            decreases found.len() - j,
        {
            let ghost before = r@;
            let tag = Tag { name: from_chars(found[j].as_slice()), line };
            r.push(tag);
            proof {
                assert(tag_views(r@) =~= tag_views(before).push(tag@));
                let all = line_tags(ls[k as int], line as int);
                assert(all[j as int] == tag@);
                assert(all.take(j + 1) =~= all.take(j as int).push(tag@));
            }
            j += 1;
        }
        proof {
            let all = line_tags(ls[k as int], line as int);
            assert(all.take(found.len() as int) =~= all);
        }
        k += 1;
    }
    r
}

// ---------------------------------------------------------------------------
// References
// ---------------------------------------------------------------------------

/// A character of a target: any but `[`, `]` and `|`.
pub open spec fn is_target_char(c: char) -> bool {
    c != '[' && c != ']' && c != '|'
}

/// The index after the longest run of target characters from `i`.
pub open spec fn target_end(s: Seq<char>, i: int) -> int
    decreases s.len() - i,
{
    if 0 <= i < s.len() && is_target_char(s[i]) {
        target_end(s, i + 1)
    } else {
        i
    }
}

/// The run of target characters from `i` is the longest one.
pub proof fn lemma_target_end(s: Seq<char>, i: int)
    requires
        0 <= i <= s.len(),
    ensures
        i <= target_end(s, i) <= s.len(),
        forall|k: int| i <= k < target_end(s, i) ==> is_target_char(s[k]),
        target_end(s, i) < s.len() ==> !is_target_char(s[target_end(s, i)]),
    decreases s.len() - i,
{
    if i < s.len() && is_target_char(s[i]) {
        lemma_target_end(s, i + 1);
    }
}

fn scan_target(s: &[char], i: usize) -> (r: usize)
    requires
        i <= s.len(),
    ensures
        r == target_end(s@, i as int),
        i <= r <= s.len(),
{
    let mut k: usize = i;
    while k < s.len() && s[k] != '[' && s[k] != ']' && s[k] != '|'
        invariant
            i <= k <= s.len(),
            target_end(s@, i as int) == target_end(s@, k as int),
        decreases s.len() - k,
    {
        k += 1;
    }
    k
}

/// Whether `]]` stands at `i`.
pub open spec fn closes_at(s: Seq<char>, i: int) -> bool {
    0 <= i && i + 1 < s.len() && s[i] == ']' && s[i + 1] == ']'
}

/// The index after the reference that starts at `p`, if one does: `[[`, a
/// target of one or more target characters, optionally `|` and a display
/// text of one or more characters other than `]`, and `]]`.
pub open spec fn link_end(s: Seq<char>, p: int) -> Option<int> {
    if 0 <= p && p + 1 < s.len() && s[p] == '[' && s[p + 1] == '[' {
        let q = target_end(s, p + 2);
        if q == p + 2 {
            None
        } else if closes_at(s, q) {
            Some(q + 2)
        } else if q < s.len() && s[q] == '|' {
            let r = find_char(s, q + 1, ']');
            if r > q + 1 && closes_at(s, r) {
                Some(r + 2)
            } else {
                None
            }
        } else {
            None
        }
    } else {
        None
    }
}

/// The target of the reference that starts at `p`.
pub open spec fn link_target(s: Seq<char>, p: int) -> Seq<char> {
    s.subrange(p + 2, target_end(s, p + 2))
}

/// The display text of the reference that starts at `p`.
pub open spec fn link_display(s: Seq<char>, p: int) -> Option<Seq<char>> {
    let q = target_end(s, p + 2);
    if q < s.len() && s[q] == '|' {
        Some(s.subrange(q + 1, find_char(s, q + 1, ']')))
    } else {
        None
    }
}

/// A reference takes at least five characters.
pub proof fn lemma_link_end(s: Seq<char>, p: int)
    ensures
        link_end(s, p) matches Some(e) ==> 0 <= p && p + 4 < e <= s.len(),
{
    if 0 <= p && p + 1 < s.len() {
        lemma_target_end(s, p + 2);
        let q = target_end(s, p + 2);
        if q < s.len() {
            lemma_find_char(s, q + 1, ']');
        }
    }
}

/// A reference to another object.
#[derive(Debug, Clone)]
pub struct Reference {
    /// The target, as written.
    pub target: String,
    /// The display text, if one is given.
    pub display_text: Option<String>,
    /// The line of the reference.
    pub line: usize,
    /// The byte offset in the line at which the reference starts.
    pub start: usize,
    /// The byte offset in the line at which the reference ends.
    pub end: usize,
}

/// A reference, as a mathematical object.
pub struct ReferenceModel {
    pub target: Seq<char>,
    pub display_text: Option<Seq<char>>,
    pub line: int,
    pub start: int,
    pub end: int,
}

impl View for Reference {
    type V = ReferenceModel;

    open spec fn view(&self) -> ReferenceModel {
        ReferenceModel {
            target: self.target@,
            display_text: opt_text(self.display_text),
            line: self.line as int,
            start: self.start as int,
            end: self.end as int,
        }
    }
}

/// The models of a sequence of references.
pub open spec fn reference_views(v: Seq<Reference>) -> Seq<ReferenceModel> {
    v.map_values(|r: Reference| r@)
}

/// The reference that spans `s[p..e]` in the line numbered `line`. Its
/// offsets count bytes.
pub open spec fn reference_at(s: Seq<char>, line: int, p: int, e: int) -> ReferenceModel {
    ReferenceModel {
        target: link_target(s, p),
        display_text: link_display(s, p),
        line,
        start: utf8_len(s.subrange(0, p)) as int,
        end: utf8_len(s.subrange(0, e)) as int,
    }
}

/// The references of a line that start at or after `p`, from left to
/// right, none overlapping another.
pub open spec fn line_references(s: Seq<char>, line: int, p: int) -> Seq<ReferenceModel>
    decreases s.len() - p,
{
    if p < 0 || p >= s.len() {
        Seq::empty()
    } else {
        match link_end(s, p) {
            Some(e) => {
                proof {
                    lemma_link_end(s, p);
                }
                seq![reference_at(s, line, p, e)] + line_references(s, line, e)
            },
            None => line_references(s, line, p + 1),
        }
    }
}

/// The references of the first `k` lines; the first line has the number
/// `start`.
pub open spec fn references_in(lines: Seq<Seq<char>>, start: int, k: int) -> Seq<ReferenceModel>
    decreases k,
{
    if k <= 0 || k > lines.len() {
        Seq::empty()
    } else {
        references_in(lines, start, k - 1) + line_references(lines[k - 1], start + k - 1, 0)
    }
}

/// The index after the reference that starts at `p`, if one does.
fn match_link(s: &[char], p: usize) -> (r: Option<usize>)
    requires
        p < s.len(),
    ensures
        r matches Some(e) ==> link_end(s@, p as int) == Some(e as int) && p + 4 < e <= s.len(),
        r is None ==> link_end(s@, p as int) is None,
{
    proof {
        lemma_link_end(s@, p as int);
    }
    let n = s.len();
    if !(n - p >= 2 && s[p] == '[' && s[p + 1] == '[') {
        return None;
    }
    let q = scan_target(s, p + 2);
    if q == p + 2 {
        return None;
    }
    if n - q >= 2 && s[q] == ']' && s[q + 1] == ']' {
        return Some(q + 2);
    }
    if q < n && s[q] == '|' {
        let r = find(s, q + 1, ']');
        if r > q + 1 && n - r >= 2 && s[r] == ']' && s[r + 1] == ']' {
            return Some(r + 2);
        }
    }
    None
}

/// The reference that spans `s[p..e]`.
fn make_reference(s: &[char], line: usize, p: usize, e: usize) -> (r: Reference)
    requires
        link_end(s@, p as int) == Some(e as int),
        p < e <= s.len(),
        utf8_len(s@) <= usize::MAX,
    ensures
        r@ == reference_at(s@, line as int, p as int, e as int),
{
    proof {
        lemma_target_end(s@, p + 2);
    }
    let q = scan_target(s, p + 2);
    let target = from_chars(slice_subrange(s, p + 2, q));
    let display_text = if q < s.len() && s[q] == '|' {
        let r = find(s, q + 1, ']');
        Some(from_chars(slice_subrange(s, q + 1, r)))
    } else {
        None
    };
    Reference { target, display_text, line, start: byte_offset(s, p), end: byte_offset(s, e) }
}

/// Appends the references of one line to `out`.
pub fn scan_references(out: &mut Vec<Reference>, s: &[char], line: usize)
    requires
        utf8_len(s@) <= usize::MAX,
    ensures
        reference_views(final(out)@) == reference_views(old(out)@) + line_references(
            s@,
            line as int,
            0,
        ),
{
    let n = s.len();
    let mut p: usize = 0;
    let ghost base = reference_views(out@);
    let ghost all = line_references(s@, line as int, 0);
    while p < n
        invariant
            p <= n,
            n == s@.len(),
            utf8_len(s@) <= usize::MAX,
            reference_views(out@) + line_references(s@, line as int, p as int) == base + all,
        decreases n - p,
    {
        match match_link(s, p) {
            Some(e) => {
                let r = make_reference(s, line, p, e);
                let ghost before = out@;
                out.push(r);
                proof {
                    assert(reference_views(out@) =~= reference_views(before).push(r@));
                    assert(reference_views(out@) + line_references(s@, line as int, e as int)
                        =~= reference_views(before) + line_references(s@, line as int, p as int));
                }
                p = e;
            },
            None => {
                p += 1;
            },
        }
    }
    proof {
        assert(reference_views(out@) + line_references(s@, line as int, n as int)
            =~= reference_views(out@));
    }
}

/// Appends the references of `lines` to `out`; the first line has the
/// number `start_line`.
pub fn references_of_lines(lines: &Vec<Vec<char>>, start_line: usize) -> (r: Vec<Reference>)
    requires
        start_line + lines@.len() <= usize::MAX,
        forall|k: int| 0 <= k < lines@.len() ==> utf8_len(#[trigger] lines@[k]@) <= usize::MAX,
    ensures
        reference_views(r@) == references_in(
            views(lines@),
            start_line as int,
            lines@.len() as int,
        ),
{
    let ghost ls = views(lines@);
    let mut r: Vec<Reference> = Vec::new();
    let mut k: usize = 0;
    assert(reference_views(r@) =~= Seq::<ReferenceModel>::empty());
    while k < lines.len()
        invariant
            k <= lines.len(),
            ls == views(lines@),
            start_line + lines@.len() <= usize::MAX,
            forall|k: int| 0 <= k < lines@.len() ==> utf8_len(#[trigger] lines@[k]@) <= usize::MAX,
            reference_views(r@) == references_in(ls, start_line as int, k as int),
        decreases lines.len() - k,
    {
        assert(ls[k as int] == lines@[k as int]@);
        scan_references(&mut r, lines[k].as_slice(), start_line + k);
        k += 1;
    }
    r
}

/// Extracts the references of a text, line by line. The first line has the
/// number `start_line`.
pub fn extract_references(content: &str, start_line: usize) -> (r: Vec<Reference>)
    requires
        start_line + split_lines(content@).len() <= usize::MAX,
    ensures
        reference_views(r@) == references_in(
            split_lines(content@),
            start_line as int,
            split_lines(content@).len() as int,
        ),
{
    let bytes = byte_length(content);
    let chars = to_chars(content);
    let lines = lines_of(chars.as_slice());
    proof {
        lemma_split_lines_utf8(content@);
        assert forall|k: int| 0 <= k < lines@.len() implies utf8_len(#[trigger] lines@[k]@)
            <= usize::MAX by {
            assert(lines@[k]@ == views(lines@)[k]);
        }
    }
    references_of_lines(&lines, start_line)
}

// ---------------------------------------------------------------------------
// Targets
// ---------------------------------------------------------------------------

/// The index of the last `c` in `s`, or -1.
pub open spec fn last_index_of(s: Seq<char>, c: char) -> int
    decreases s.len(),
{
    if s.len() == 0 {
        -1
    } else if s.last() == c {
        s.len() - 1
    } else {
        last_index_of(s.drop_last(), c)
    }
}

/// The part of a target after its last `/`: the whole target if it has none.
pub open spec fn short_name_of(s: Seq<char>) -> Seq<char> {
    s.subrange(last_index_of(s, '/') + 1, s.len() as int)
}

/// The parts of a target before and after its first `#`.
pub open spec fn embedded_parts(s: Seq<char>) -> Option<(Seq<char>, Seq<char>)> {
    let i = find_char(s, 0, '#');
    if i < s.len() {
        Some((s.subrange(0, i), s.subrange(i + 1, s.len() as int)))
    } else {
        None
    }
}

/// Whether a target is a full path: whether it holds a `/`.
pub fn is_full_path(target: &str) -> (r: bool)
    ensures
        r == target@.contains('/'),
{
    let v = to_chars(target);
    contains_char(v.as_slice(), '/')
}

/// The short name of a target: what follows its last `/`.
pub fn short_name(target: &str) -> (r: &str)
    ensures
        r@ == short_name_of(target@),
{
    let v = to_chars(target);
    let n = v.len();
    let mut from: usize = 0;
    let mut i: usize = 0;
    while i < n
        invariant
            from <= i <= n,
            n == v@.len(),
            from == last_index_of(v@.subrange(0, i as int), '/') + 1,
        decreases n - i,
    {
        proof {
            assert(v@.subrange(0, i + 1).drop_last() =~= v@.subrange(0, i as int));
        }
        if v[i] == '/' {
            from = i + 1;
        }
        i += 1;
    }
    proof {
        assert(v@.subrange(0, n as int) =~= v@);
    }
    let j = from;
    target.substring_char(j, n)
}

/// Whether a target names an embedded object: whether it holds a `#`.
pub fn is_embedded_ref(target: &str) -> (r: bool)
    ensures
        r == target@.contains('#'),
{
    let v = to_chars(target);
    contains_char(v.as_slice(), '#')
}

/// Splits the target of an embedded object at its first `#` into the path
/// of the file and the identifier within it.
pub fn split_embedded_ref(target: &str) -> (r: Option<(&str, &str)>)
    ensures
        r is Some <==> target@.contains('#'),
        match r {
            Some((path, id)) => embedded_parts(target@) == Some((path@, id@)),
            None => embedded_parts(target@) is None,
        },
{
    let v = to_chars(target);
    let i = find(v.as_slice(), 0, '#');
    proof {
        lemma_find_char(v@, 0, '#');
    }
    if i < v.len() {
        Some((target.substring_char(0, i), target.substring_char(i + 1, v.len())))
    } else {
        None
    }
}

/// Every reference of a line carries the number of the line.
pub proof fn lemma_line_references_line(s: Seq<char>, line: int, p: int)
    ensures
        forall|i: int|
            0 <= i < line_references(s, line, p).len() ==> (#[trigger] line_references(
                s,
                line,
                p,
            )[i]).line == line,
    decreases s.len() - p,
{
    if 0 <= p < s.len() {
        match link_end(s, p) {
            Some(e) => {
                lemma_link_end(s, p);
                lemma_line_references_line(s, line, e);
            },
            None => {
                lemma_line_references_line(s, line, p + 1);
            },
        }
    }
}

/// Every reference of the first `k` lines lies on one of them.
pub proof fn lemma_references_in_lines(lines: Seq<Seq<char>>, start: int, k: int)
    requires
        0 <= k <= lines.len(),
    ensures
        forall|i: int|
            0 <= i < references_in(lines, start, k).len() ==> start <= (#[trigger] references_in(
                lines,
                start,
                k,
            )[i]).line < start + k,
    decreases k,
{
    if k > 0 {
        lemma_references_in_lines(lines, start, k - 1);
        lemma_line_references_line(lines[k - 1], start + k - 1, 0);
    }
}

/// The offsets of a reference are byte positions in its line, the start
/// before the end.
pub proof fn lemma_reference_offsets(s: Seq<char>, line: int, p: int)
    ensures
        forall|i: int|
            0 <= i < line_references(s, line, p).len() ==> 0 <= (#[trigger] line_references(
                s,
                line,
                p,
            )[i]).start < line_references(s, line, p)[i].end <= utf8_len(s),
    decreases s.len() - p,
{
    if 0 <= p < s.len() {
        match link_end(s, p) {
            Some(e) => {
                lemma_link_end(s, p);
                lemma_reference_offsets(s, line, e);
                lemma_utf8_len_subrange(s, p, e);
                lemma_utf8_len_subrange(s, 0, e);
                crate::text::lemma_utf8_len_bounds(s.subrange(p, e));
            },
            None => {
                lemma_reference_offsets(s, line, p + 1);
            },
        }
    }
}

} // verus!
