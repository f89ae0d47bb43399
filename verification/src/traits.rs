//! Trait annotations: `@name` and `@name(key=value, ...)`.

use vstd::prelude::*;
use vstd::slice::slice_subrange;
use crate::text::{
    byte_length, byte_offset, find, find_char, from_chars, is_space, is_whitespace,
    lemma_find_char, lemma_space_end, lemma_word_end, scan_space, scan_word, space_end, to_chars,
    trim, trim_slice, utf8_len, views, word_end,
};
use crate::type_decl::{arguments, parse_args};
use crate::value::{FieldMap, ValueModel};

verus! {

/// Whether an annotation may follow the character `c`: whitespace, or a list
/// marker `-` or `*`.
pub open spec fn opens_annotation(c: char) -> bool {
    is_space(c) || c == '-' || c == '*'
}

/// The index of the `@` of an annotation whose match starts at `p`: at the
/// start of the line the `@` itself starts the match, elsewhere the
/// character before it does.
pub open spec fn at_sign(s: Seq<char>, p: int) -> Option<int> {
    if p == 0 && s.len() > 0 && s[0] == '@' {
        Some(0int)
    } else if 0 <= p && p + 1 < s.len() && opens_annotation(s[p]) && s[p + 1] == '@' {
        Some(p + 1)
    } else {
        None
    }
}

/// The index after the name of the annotation whose `@` is at `at`.
pub open spec fn name_end(s: Seq<char>, at: int) -> int {
    word_end(s, at + 1)
}

/// Where the argument list of the annotation whose `@` is at `at` lies:
/// after the name and optional whitespace, between `(` and the next `)`.
pub open spec fn args_span(s: Seq<char>, at: int) -> Option<(int, int)> {
    let w = space_end(s, name_end(s, at));
    if w < s.len() && s[w] == '(' && find_char(s, w + 1, ')') < s.len() {
        Some((w + 1, find_char(s, w + 1, ')')))
    } else {
        None
    }
}

/// The index after the annotation whose match starts at `p`, if one does:
/// `@`, a name of one or more identifier characters, and an argument list
/// if one follows.
pub open spec fn annotation_end(s: Seq<char>, p: int) -> Option<int> {
    match at_sign(s, p) {
        Some(at) => if name_end(s, at) > at + 1 {
            match args_span(s, at) {
                Some((from, to)) => Some(to + 1),
                None => Some(name_end(s, at)),
            }
        } else {
            None
        },
        None => None,
    }
}

/// An annotation is not empty and stays within the line; its name follows
/// its `@`, and its arguments follow its name.
pub proof fn lemma_annotation_end(s: Seq<char>, p: int)
    ensures
        annotation_end(s, p) matches Some(e) ==> 0 <= p < e <= s.len() && at_sign(s, p) is Some,
        at_sign(s, p) matches Some(at) ==> p <= at < s.len() && at + 1 <= name_end(s, at)
            <= s.len(),
        at_sign(s, p) matches Some(at) ==> (args_span(s, at) matches Some((from, to))
            ==> name_end(s, at) < from <= to < s.len()),
{
    if at_sign(s, p) is Some {
        let at = at_sign(s, p)->0;
        lemma_word_end(s, at + 1);
        let e = name_end(s, at);
        lemma_space_end(s, e);
        let w = space_end(s, e);
        if w < s.len() {
            lemma_find_char(s, w + 1, ')');
        }
    }
}

/// An annotation, as a mathematical object.
pub struct TraitModel {
    pub trait_name: Seq<char>,
    pub fields: Map<Seq<char>, ValueModel>,
    pub content: Seq<char>,
    pub line: int,
    pub start_offset: int,
    pub end_offset: int,
}

/// A trait annotation.
#[derive(Debug, Clone)]
pub struct TraitAnnotation {
    /// The name of the trait.
    pub trait_name: String,
    /// The arguments.
    pub fields: FieldMap,
    /// The rest of the line after the annotation, trimmed.
    pub content: String,
    /// The line of the annotation.
    pub line: usize,
    /// The byte offset in the line at which the match starts.
    pub start_offset: usize,
    /// The byte offset in the line at which the match ends.
    pub end_offset: usize,
}

impl View for TraitAnnotation {
    type V = TraitModel;

    open spec fn view(&self) -> TraitModel {
        TraitModel {
            trait_name: self.trait_name@,
            fields: self.fields@,
            content: self.content@,
            line: self.line as int,
            start_offset: self.start_offset as int,
            end_offset: self.end_offset as int,
        }
    }
}

/// The models of a sequence of annotations.
pub open spec fn trait_views(v: Seq<TraitAnnotation>) -> Seq<TraitModel> {
    v.map_values(|t: TraitAnnotation| t@)
}

/// The annotation whose match spans `s[p..e]`, in the line numbered `line`.
pub open spec fn trait_at(s: Seq<char>, line: int, p: int, e: int) -> TraitModel {
    let at = at_sign(s, p)->0;
    TraitModel {
        trait_name: s.subrange(at + 1, name_end(s, at)),
        fields: match args_span(s, at) {
            Some((from, to)) => arguments(s.subrange(from, to)),
            None => Map::empty(),
        },
        content: trim(s.subrange(e, s.len() as int)),
        line,
        start_offset: utf8_len(s.subrange(0, p)) as int,
        end_offset: utf8_len(s.subrange(0, e)) as int,
    }
}

/// The annotations of a line whose matches start at or after `p`, from left
/// to right, none overlapping another.
pub open spec fn line_traits(s: Seq<char>, line: int, p: int) -> Seq<TraitModel>
    decreases s.len() - p,
{
    if p < 0 || p >= s.len() {
        Seq::empty()
    } else {
        match annotation_end(s, p) {
            Some(e) => {
                proof {
                    lemma_annotation_end(s, p);
                }
                seq![trait_at(s, line, p, e)] + line_traits(s, line, e)
            },
            None => line_traits(s, line, p + 1),
        }
    }
}

/// A line without its annotations, from `p` on.
pub open spec fn without_annotations(s: Seq<char>, p: int) -> Seq<char>
    decreases s.len() - p,
{
    if p < 0 || p >= s.len() {
        Seq::empty()
    } else {
        match annotation_end(s, p) {
            Some(e) => {
                proof {
                    lemma_annotation_end(s, p);
                }
                without_annotations(s, e)
            },
            None => seq![s[p]] + without_annotations(s, p + 1),
        }
    }
}

/// Where the annotation lies whose match starts at `p`: the index of its
/// `@` and the index after it.
fn match_annotation(s: &[char], p: usize) -> (r: Option<(usize, usize)>)
    requires
        p < s.len(),
    ensures
        r matches Some((at, e)) ==> annotation_end(s@, p as int) == Some(e as int) && at_sign(
            s@,
            p as int,
        ) == Some(at as int) && p < e <= s.len(),
        r is None ==> annotation_end(s@, p as int) is None,
{
    proof {
        lemma_annotation_end(s@, p as int);
    }
    let n = s.len();
    let at = if p == 0 && s[0] == '@' {
        0
    } else if n - p >= 2 && (is_whitespace(s[p]) || s[p] == '-' || s[p] == '*') && s[p + 1]
        == '@' {
        p + 1
    } else {
        return None;
    };
    let e = scan_word(s, at + 1);
    if e == at + 1 {
        return None;
    }
    let w = scan_space(s, e);
    if w < n && s[w] == '(' {
        let close = find(s, w + 1, ')');
        if close < n {
            return Some((at, close + 1));
        }
    }
    Some((at, e))
}

/// The annotation whose match spans `s[p..e]`.
fn make_trait(s: &[char], line: usize, p: usize, at: usize, e: usize) -> (r: TraitAnnotation)
    requires
        annotation_end(s@, p as int) == Some(e as int),
        at_sign(s@, p as int) == Some(at as int),
        p < e <= s.len(),
        utf8_len(s@) <= usize::MAX,
    ensures
        r@ == trait_at(s@, line as int, p as int, e as int),
{
    proof {
        lemma_annotation_end(s@, p as int);
    }
    let n = s.len();
    let ne = scan_word(s, at + 1);
    let w = scan_space(s, ne);
    let mut fields = FieldMap::new();
    if w < n && s[w] == '(' {
        let close = find(s, w + 1, ')');
        if close < n {
            fields = parse_args(slice_subrange(s, w + 1, close));
        }
    }
    TraitAnnotation {
        trait_name: from_chars(slice_subrange(s, at + 1, ne)),
        fields,
        content: from_chars(trim_slice(slice_subrange(s, e, n))),
        line,
        start_offset: byte_offset(s, p),
        end_offset: byte_offset(s, e),
    }
}

/// The annotations of a line, given as characters.
pub fn scan_traits(s: &[char], line: usize) -> (r: Vec<TraitAnnotation>)
    requires
        utf8_len(s@) <= usize::MAX,
    ensures
        trait_views(r@) == line_traits(s@, line as int, 0),
{
    let n = s.len();
    let mut r: Vec<TraitAnnotation> = Vec::new();
    let mut p: usize = 0;
    let ghost all = line_traits(s@, line as int, 0);
    assert(trait_views(r@) =~= Seq::<TraitModel>::empty());
    while p < n
        invariant
            p <= n,
            n == s@.len(),
            utf8_len(s@) <= usize::MAX,
            trait_views(r@) + line_traits(s@, line as int, p as int) == all,
        decreases n - p,
    {
        match match_annotation(s, p) {
            Some((at, e)) => {
                let t = make_trait(s, line, p, at, e);
                let ghost before = r@;
                let ghost m = t@;
                r.push(t);
                proof {
                    assert(trait_views(r@) =~= trait_views(before).push(m));
                    assert(trait_views(r@) + line_traits(s@, line as int, e as int)
                        =~= trait_views(before) + line_traits(s@, line as int, p as int));
                }
                p = e;
            },
            None => {
                p += 1;
            },
        }
    }
    proof {
        assert(trait_views(r@) + line_traits(s@, line as int, n as int) =~= trait_views(r@));
    }
    r
}

/// Parses all trait annotations of a line.
pub fn parse_trait_annotation(line: &str, line_number: usize) -> (r: Vec<TraitAnnotation>)
    ensures
        trait_views(r@) == line_traits(line@, line_number as int, 0),
{
    let bytes = byte_length(line);
    let s = to_chars(line);
    scan_traits(s.as_slice(), line_number)
}

/// The text of a line that is left when its annotations are taken out,
/// trimmed.
pub open spec fn trait_content(s: Seq<char>) -> Seq<char> {
    trim(without_annotations(s, 0))
}

/// The content that the annotations of a line speak of: the line without
/// them, trimmed. A line that does not exist has no content.
pub fn extract_trait_content(lines: &[&str], line_idx: usize) -> (r: String)
    ensures
        line_idx < lines@.len() ==> r@ == trait_content(lines@[line_idx as int]@),
        line_idx >= lines@.len() ==> r@ == Seq::<char>::empty(),
{
    if line_idx >= lines.len() {
        return String::new();
    }
    let s = to_chars(lines[line_idx]);
    let n = s.len();
    let mut kept: Vec<char> = Vec::new();
    let mut p: usize = 0;
    let ghost all = without_annotations(s@, 0);
    while p < n
        invariant
            p <= n,
            n == s@.len(),
            kept@ + without_annotations(s@, p as int) == all,
        decreases n - p,
    {
        match match_annotation(s.as_slice(), p) {
            Some((at, e)) => {
                p = e;
            },
            None => {
                let ghost before = kept@;
                kept.push(s[p]);
                proof {
                    assert(kept@ + without_annotations(s@, p + 1) =~= before
                        + without_annotations(s@, p as int));
                }
                p += 1;
            },
        }
    }
    proof {
        assert(kept@ + without_annotations(s@, n as int) =~= kept@);
    }
    from_chars(trim_slice(kept.as_slice()))
}

/// The annotations of the first `k` lines; the first line has the number
/// `start`.
pub open spec fn traits_in(lines: Seq<Seq<char>>, start: int, k: int) -> Seq<TraitModel>
    decreases k,
{
    if k <= 0 || k > lines.len() {
        Seq::empty()
    } else {
        traits_in(lines, start, k - 1) + line_traits(lines[k - 1], start + k - 1, 0)
    }
}

/// The annotations of `lines`; the first line has the number `start_line`.
pub fn traits_of_lines(lines: &Vec<Vec<char>>, start_line: usize) -> (r: Vec<TraitAnnotation>)
    requires
        start_line + lines@.len() <= usize::MAX,
        forall|k: int| 0 <= k < lines@.len() ==> utf8_len(#[trigger] lines@[k]@) <= usize::MAX,
    ensures
        trait_views(r@) == traits_in(views(lines@), start_line as int, lines@.len() as int),
{
    let ghost ls = views(lines@);
    let mut r: Vec<TraitAnnotation> = Vec::new();
    let mut k: usize = 0;
    assert(trait_views(r@) =~= Seq::<TraitModel>::empty());
    while k < lines.len()
        invariant
            k <= lines.len(),
            ls == views(lines@),
            start_line + lines@.len() <= usize::MAX,
            forall|k: int| 0 <= k < lines@.len() ==> utf8_len(#[trigger] lines@[k]@) <= usize::MAX,
            trait_views(r@) == traits_in(ls, start_line as int, k as int),
        decreases lines.len() - k,
    {
        assert(ls[k as int] == lines@[k as int]@);
        let mut found = scan_traits(lines[k].as_slice(), start_line + k);
        let ghost before = trait_views(r@);
        let ghost more = trait_views(found@);
        r.append(&mut found);
        proof {
            assert(trait_views(r@) =~= before + more);
        }
        k += 1;
    }
    r
}

/// Every annotation of a line carries the number of the line.
pub proof fn lemma_line_traits_line(s: Seq<char>, line: int, p: int)
    ensures
        forall|i: int|
            0 <= i < line_traits(s, line, p).len() ==> (#[trigger] line_traits(s, line, p)[i]).line
                == line,
    decreases s.len() - p,
{
    let all = line_traits(s, line, p);
    if 0 <= p < s.len() {
        match annotation_end(s, p) {
            Some(e) => {
                lemma_annotation_end(s, p);
                lemma_line_traits_line(s, line, e);
                let first = trait_at(s, line, p, e);
                let rest = line_traits(s, line, e);
                assert(all == seq![first] + rest);
                assert(first.line == line);
                assert forall|i: int| 0 <= i < all.len() implies (#[trigger] all[i]).line
                    == line by {
                    if i > 0 {
                        assert(all[i] == rest[i - 1]);
                    } else {
                        assert(all[0] == first);
                    }
                }
            },
            None => {
                lemma_line_traits_line(s, line, p + 1);
                assert(all == line_traits(s, line, p + 1));
            },
        }
    } else {
        assert(all.len() == 0);
    }
}

/// Every annotation of the first `k` lines lies on one of them.
pub proof fn lemma_traits_in_lines(lines: Seq<Seq<char>>, start: int, k: int)
    requires
        0 <= k <= lines.len(),
    ensures
        forall|i: int|
            0 <= i < traits_in(lines, start, k).len() ==> start <= (#[trigger] traits_in(
                lines,
                start,
                k,
            )[i]).line < start + k,
    decreases k,
{
    if k > 0 {
        lemma_traits_in_lines(lines, start, k - 1);
        lemma_line_traits_line(lines[k - 1], start + k - 1, 0);
        let all = traits_in(lines, start, k);
        let before = traits_in(lines, start, k - 1);
        let last = line_traits(lines[k - 1], start + k - 1, 0);
        assert(all == before + last);
        assert forall|i: int| 0 <= i < all.len() implies start <= (#[trigger] all[i]).line
            < start + k by {
            if i < before.len() {
                assert(all[i] == before[i]);
            } else {
                assert(all[i] == last[i - before.len()]);
            }
        }
    }
}

} // verus!
