//! The object hierarchy of a document: one object for the file, and one for
//! every heading, each inside the nearest heading above it of a smaller
//! level.

use vstd::prelude::*;
use crate::markdown::{heading_views, Heading, HeadingModel};
use crate::text::{
    append_chars, chars_eq, copy_chars, decimal, decimal_chars, from_chars, is_digit,
    lemma_decimal, lemma_decimal_injective, opt_text, texts, to_chars,
};
use crate::type_decl::{EmbeddedModel, EmbeddedType};
use crate::value::{FieldMap, FieldValue, ValueModel};

verus! {

// ---------------------------------------------------------------------------
// Slugs
// ---------------------------------------------------------------------------

/// The slug that the crate `slug` derives from a text.
pub uninterp spec fn slug_of(text: Seq<char>) -> Seq<char>;

/// The slug of a text.
///
/// Trusted: calls `slug::slugify`, which walks the characters of its
/// argument and nothing else. The contract only names the result.
#[verifier::external_body]
fn slugify(text: &str) -> (r: String)
    ensures
        r@ == slug_of(text@),
{
    slug::slugify(text)
}

/// The local identifier of a section, before disambiguation: the slug of
/// the heading, or `section-` and the line where the slug is empty.
pub open spec fn section_slug(slug: Seq<char>, line: int) -> Seq<char> {
    if slug.len() > 0 {
        slug
    } else {
        "section-"@ + decimal(line as nat)
    }
}

/// The local identifier of the `n`-th section of a slug: the slug itself
/// for the first, the slug with `-2`, `-3`, ... for the later ones.
pub open spec fn unique_slug(slug: Seq<char>, n: nat) -> Seq<char> {
    if n <= 1 {
        slug
    } else {
        slug + seq!['-'] + decimal(n)
    }
}

/// The local identifier of a section whose slug is given.
pub fn section_slug_of(slug: &str, line: usize) -> (r: Vec<char>)
    ensures
        r@ == section_slug(slug@, line as int),
{
    let s = to_chars(slug);
    if s.len() > 0 {
        s
    } else {
        let mut r = to_chars("section-");
        let d = decimal_chars(line);
        append_chars(&mut r, d.as_slice());
        r
    }
}

/// The local identifier of the `n`-th section of a slug.
pub fn unique_slug_of(slug: &[char], n: usize) -> (r: Vec<char>)
    ensures
        r@ == unique_slug(slug@, n as nat),
{
    let mut r = copy_chars(slug);
    if n > 1 {
        r.push('-');
        let d = decimal_chars(n);
        append_chars(&mut r, d.as_slice());
    }
    r
}

// ---------------------------------------------------------------------------
// Objects
// ---------------------------------------------------------------------------

/// An object, as a mathematical object.
pub struct ObjectModel {
    pub id: Seq<char>,
    pub object_type: Seq<char>,
    pub fields: Map<Seq<char>, ValueModel>,
    pub tags: Seq<Seq<char>>,
    pub heading: Option<Seq<char>>,
    pub heading_level: Option<u32>,
    pub parent_id: Option<Seq<char>>,
    pub line_start: int,
    pub line_end: Option<int>,
}

/// An object: the file itself, or the part of it under one heading.
#[derive(Debug, Clone)]
pub struct ParsedObject {
    /// The identifier: the path of the file without its extension, then
    /// for an embedded object `#` and its local identifier.
    pub id: String,
    /// The name of the type.
    pub object_type: String,
    /// The fields.
    pub fields: FieldMap,
    /// The tags.
    pub tags: Vec<String>,
    /// The text of the heading, for an embedded object.
    pub heading: Option<String>,
    /// The level of the heading, for an embedded object.
    pub heading_level: Option<u32>,
    /// The identifier of the parent, for an embedded object.
    pub parent_id: Option<String>,
    /// The line on which the object starts.
    pub line_start: usize,
    /// The line on which the object ends; none where it reaches the end of
    /// the file.
    pub line_end: Option<usize>,
}

/// The view of an optional line.
pub open spec fn opt_line(o: Option<usize>) -> Option<int> {
    match o {
        Some(n) => Some(n as int),
        None => None,
    }
}

impl View for ParsedObject {
    type V = ObjectModel;

    open spec fn view(&self) -> ObjectModel {
        ObjectModel {
            id: self.id@,
            object_type: self.object_type@,
            fields: self.fields@,
            tags: texts(self.tags@),
            heading: opt_text(self.heading),
            heading_level: self.heading_level,
            parent_id: opt_text(self.parent_id),
            line_start: self.line_start as int,
            line_end: opt_line(self.line_end),
        }
    }
}

/// The models of a sequence of objects.
pub open spec fn object_views(v: Seq<ParsedObject>) -> Seq<ObjectModel> {
    v.map_values(|o: ParsedObject| o@)
}

/// The views of a sequence of optional declarations.
pub open spec fn declared_views(v: Seq<Option<EmbeddedType>>) -> Seq<Option<EmbeddedModel>> {
    v.map_values(
        |o: Option<EmbeddedType>|
            match o {
                Some(e) => Some(e@),
                None => None,
            },
    )
}

/// What the hierarchy is built from.
pub struct Outline {
    /// The identifier of the file.
    pub file_id: Seq<char>,
    /// The headings, in the order of the document.
    pub headings: Seq<HeadingModel>,
    /// For each heading, the declaration on the line after it, if any.
    pub declared: Seq<Option<EmbeddedModel>>,
}

impl Outline {
    /// Every heading has its entry in `declared`, and lines count from 1.
    pub open spec fn wf(self) -> bool {
        &&& self.declared.len() == self.headings.len()
        &&& forall|i: int| 0 <= i < self.headings.len() ==> (#[trigger] self.headings[i]).line >= 1
    }

    /// Whether heading `i` gives a section: whether no declaration follows
    /// it.
    pub open spec fn is_section(self, i: int) -> bool {
        self.declared[i] is None
    }

    /// The slug of heading `i`, before disambiguation.
    pub open spec fn base_slug(self, i: int) -> Seq<char> {
        section_slug(slug_of(self.headings[i].text), self.headings[i].line)
    }

    /// The number of sections among the first `k` headings whose slug is
    /// `slug`.
    pub open spec fn count_same(self, slug: Seq<char>, k: int) -> nat
        decreases k,
    {
        if k <= 0 {
            0
        } else {
            self.count_same(slug, k - 1) + if k - 1 < self.headings.len() && self.is_section(k - 1)
                && self.base_slug(k - 1) == slug {
                1nat
            } else {
                0nat
            }
        }
    }

    /// The local identifier of the object of heading `i`: the declared one,
    /// or the slug, made unique among the sections by a counter.
    pub open spec fn local_id(self, i: int) -> Seq<char> {
        match self.declared[i] {
            Some(d) => d.id,
            None => unique_slug(self.base_slug(i), self.count_same(self.base_slug(i), i + 1)),
        }
    }

    /// The identifier of the object of heading `i`.
    pub open spec fn object_id(self, i: int) -> Seq<char> {
        self.file_id + seq!['#'] + self.local_id(i)
    }

    /// The nearest heading at or before `j` whose level is smaller than
    /// `level`, or -1.
    pub open spec fn nearest_shallower(self, level: u32, j: int) -> int
        decreases j + 1,
    {
        if j < 0 {
            -1
        } else if j < self.headings.len() && self.headings[j].level < level {
            j
        } else {
            self.nearest_shallower(level, j - 1)
        }
    }

    /// The heading that is the parent of heading `i`: the nearest heading
    /// before it of a smaller level; -1 where the file is the parent.
    pub open spec fn parent_index(self, i: int) -> int {
        self.nearest_shallower(self.headings[i].level, i - 1)
    }

    /// The identifier of the parent of heading `i`.
    pub open spec fn parent_id(self, i: int) -> Seq<char> {
        if self.parent_index(i) < 0 {
            self.file_id
        } else {
            self.object_id(self.parent_index(i))
        }
    }

    /// Whether heading `j` comes after heading `i` when the headings are put
    /// in the order of their lines, headings of one line in the order of
    /// the document.
    pub open spec fn follows(self, i: int, j: int) -> bool {
        self.headings[j].line > self.headings[i].line || (self.headings[j].line
            == self.headings[i].line && j > i)
    }

    /// The least line of the headings among the first `k` that come after
    /// heading `i`.
    pub open spec fn next_start(self, i: int, k: int) -> Option<int>
        decreases k,
    {
        if k <= 0 {
            None
        } else {
            let before = self.next_start(i, k - 1);
            if k - 1 < self.headings.len() && self.follows(i, k - 1) {
                match before {
                    Some(m) => if self.headings[k - 1].line < m {
                        Some(self.headings[k - 1].line)
                    } else {
                        before
                    },
                    None => Some(self.headings[k - 1].line),
                }
            } else {
                before
            }
        }
    }

    /// The last line of the object of heading `i`: the line before the
    /// next object starts; none where no object follows.
    pub open spec fn line_end(self, i: int) -> Option<int> {
        match self.next_start(i, self.headings.len() as int) {
            Some(m) => Some(m - 1),
            None => None,
        }
    }

    /// The object of heading `i`.
    pub open spec fn heading_object(self, i: int) -> ObjectModel {
        let h = self.headings[i];
        match self.declared[i] {
            Some(d) => ObjectModel {
                id: self.object_id(i),
                object_type: d.name,
                fields: d.fields,
                tags: d.tags,
                heading: Some(h.text),
                heading_level: Some(h.level),
                parent_id: Some(self.parent_id(i)),
                line_start: h.line,
                line_end: self.line_end(i),
            },
            None => ObjectModel {
                id: self.object_id(i),
                object_type: "section"@,
                fields: section_fields(h),
                tags: Seq::empty(),
                heading: Some(h.text),
                heading_level: Some(h.level),
                parent_id: Some(self.parent_id(i)),
                line_start: h.line,
                line_end: self.line_end(i),
            },
        }
    }

    /// The objects of the document: the object of the file, then the
    /// objects of the headings.
    pub open spec fn objects(self, root: ObjectModel) -> Seq<ObjectModel> {
        Seq::new(
            self.headings.len() + 1,
            |k: int|
                if k == 0 {
                    root
                } else {
                    self.heading_object(k - 1)
                },
        )
    }
}

/// The fields of a section: its title and its level.
pub open spec fn section_fields(h: HeadingModel) -> Map<Seq<char>, ValueModel> {
    Map::<Seq<char>, ValueModel>::empty().insert("title"@, ValueModel::String(h.text)).insert(
        "level"@,
        ValueModel::Number(decimal(h.level as nat)),
    )
}

/// The nearest shallower heading is shallower, and no heading after it
/// is.
pub proof fn lemma_nearest_shallower(o: Outline, level: u32, j: int)
    requires
        -1 <= j < o.headings.len(),
    ensures
        -1 <= o.nearest_shallower(level, j) <= j,
        o.nearest_shallower(level, j) >= 0 ==> o.headings[o.nearest_shallower(level, j)].level
            < level,
        forall|k: int| o.nearest_shallower(level, j) < k <= j ==> o.headings[k].level >= level,
    decreases j + 1,
{
    if j >= 0 && !(o.headings[j].level < level) {
        lemma_nearest_shallower(o, level, j - 1);
    }
}

/// The nearest shallower heading is the one with only deeper headings after
/// it.
pub proof fn lemma_nearest_is(o: Outline, level: u32, j: int, t: int)
    requires
        -1 <= t <= j < o.headings.len(),
        t >= 0 ==> o.headings[t].level < level,
        forall|k: int| t < k <= j ==> o.headings[k].level >= level,
    ensures
        o.nearest_shallower(level, j) == t,
    decreases j + 1,
{
    if j > t {
        lemma_nearest_is(o, level, j - 1, t);
    }
}

// ---------------------------------------------------------------------------
// Line ends
// ---------------------------------------------------------------------------

/// The last line of the object of heading `i`.
fn end_of(headings: &Vec<Heading>, i: usize, Ghost(o): Ghost<Outline>) -> (r: Option<usize>)
    requires
        i < headings@.len(),
        o.headings == heading_views(headings@),
        o.wf(),
    ensures
        opt_line(r) == o.line_end(i as int),
{
    let n = headings.len();
    let line = headings[i].line;
    let mut best: Option<usize> = None;
    let mut k: usize = 0;
    while k < n
        invariant
            k <= n,
            n == headings@.len(),
            i < n,
            line == headings@[i as int].line,
            o.headings == heading_views(headings@),
            o.wf(),
            opt_line(best) == o.next_start(i as int, k as int),
            best matches Some(m) ==> m >= 1,
        decreases n - k,
    {
        let other = headings[k].line;
        assert(o.headings[k as int].line == other);
        assert(o.headings[i as int].line == line);
        if other > line || (other == line && k > i) {
            best = match best {
                Some(m) => if other < m {
                    Some(other)
                } else {
                    Some(m)
                },
                None => Some(other),
            };
        }
        k += 1;
    }
    match best {
        Some(m) => Some(m - 1),
        None => None,
    }
}

/// Whether the headings stand in the order of their lines.
pub open spec fn in_line_order(o: Outline) -> bool {
    forall|i: int, j: int|
        0 <= i <= j < o.headings.len() ==> (#[trigger] o.headings[i]).line <= (
        #[trigger] o.headings[j]).line
}

/// Where the headings stand in the order of their lines, the object of a
/// heading ends on the line before the next heading, and the object of the
/// last heading has no end.
pub proof fn lemma_next_in_line_order(o: Outline, i: int, k: int)
    requires
        in_line_order(o),
        0 <= i < o.headings.len(),
        0 <= k <= o.headings.len(),
    ensures
        o.next_start(i, k) == if k > i + 1 {
            Some(o.headings[i + 1].line)
        } else {
            None
        },
    decreases k,
{
    if k > 0 {
        lemma_next_in_line_order(o, i, k - 1);
        let j = k - 1;
        if j <= i {
            assert(o.headings[j].line <= o.headings[i].line);
        } else {
            assert(o.headings[i].line <= o.headings[j].line);
            assert(o.headings[i + 1].line <= o.headings[j].line);
        }
    }
}

/// Whether the headings stand in the order of their lines.
fn lines_in_order(headings: &Vec<Heading>, Ghost(o): Ghost<Outline>) -> (r: bool)
    requires
        o.headings == heading_views(headings@),
    ensures
        r == in_line_order(o),
{
    let n = headings.len();
    if n == 0 {
        return true;
    }
    let mut i: usize = 1;
    while i < n
        invariant
            1 <= i <= n,
            n == headings@.len(),
            o.headings == heading_views(headings@),
            forall|a: int, b: int|
                0 <= a <= b < i ==> (#[trigger] o.headings[a]).line <= (
                #[trigger] o.headings[b]).line,
        decreases n - i,
    {
        assert(o.headings[i as int] == headings@[i as int]@);
        assert(o.headings[i - 1] == headings@[i - 1]@);
        if headings[i - 1].line > headings[i].line {
            return false;
        }
        assert forall|a: int, b: int| 0 <= a <= b < i + 1 implies (#[trigger] o.headings[a]).line
            <= (#[trigger] o.headings[b]).line by {
            if b == i && a < i {
                assert(o.headings[a].line <= o.headings[i - 1].line);
            }
        }
        i += 1;
    }
    true
}

/// The last line of the object of heading `i`, which is the line before
/// the next heading where the headings stand in the order of their lines.
fn end_after(headings: &Vec<Heading>, i: usize, in_order: bool, Ghost(o): Ghost<Outline>) -> (r:
    Option<usize>)
    requires
        i < headings@.len(),
        o.headings == heading_views(headings@),
        o.wf(),
        in_order ==> in_line_order(o),
    ensures
        opt_line(r) == o.line_end(i as int),
{
    if in_order {
        proof {
            lemma_next_in_line_order(o, i as int, o.headings.len() as int);
        }
        if i < headings.len() - 1 {
            assert(o.headings[i + 1] == headings@[i + 1]@);
            Some(headings[i + 1].line - 1)
        } else {
            None
        }
    } else {
        end_of(headings, i, Ghost(o))
    }
}

/// The last line of each of the objects that start on the given lines: the
/// line before the next object starts, when the objects are put in the
/// order of their lines; none for the last.
pub fn compute_line_ends(headings: &Vec<Heading>) -> (r: Vec<Option<usize>>)
    requires
        forall|i: int| 0 <= i < headings@.len() ==> (#[trigger] headings@[i]).line >= 1,
    ensures
        r@.len() == headings@.len(),
        forall|i: int|
            0 <= i < r@.len() ==> opt_line(#[trigger] r@[i]) == (Outline {
                file_id: Seq::empty(),
                headings: heading_views(headings@),
                declared: Seq::new(headings@.len(), |k: int| None),
            }).line_end(i),
{
    let ghost o = Outline {
        file_id: Seq::empty(),
        headings: heading_views(headings@),
        declared: Seq::new(headings@.len(), |k: int| None),
    };
    assert(o.wf()) by {
        assert forall|i: int| 0 <= i < o.headings.len() implies (#[trigger] o.headings[i]).line
            >= 1 by {
            assert(o.headings[i] == headings@[i]@);
        }
    }
    let in_order = lines_in_order(headings, Ghost(o));
    let mut r: Vec<Option<usize>> = Vec::new();
    let mut i: usize = 0;
    while i < headings.len()
        invariant
            i <= headings@.len(),
            r@.len() == i,
            o.headings == heading_views(headings@),
            o.wf(),
            in_order ==> in_line_order(o),
            forall|k: int| 0 <= k < i ==> opt_line(#[trigger] r@[k]) == o.line_end(k),
        decreases headings@.len() - i,
    {
        let e = end_after(headings, i, in_order, Ghost(o));
        r.push(e);
        i += 1;
    }
    r
}

// ---------------------------------------------------------------------------
// Building
// ---------------------------------------------------------------------------

/// A copy of a sequence of strings.
pub fn copy_strings(v: &Vec<String>) -> (r: Vec<String>)
    ensures
        texts(r@) == texts(v@),
{
    let mut r: Vec<String> = Vec::new();
    let mut i: usize = 0;
    while i < v.len()
        invariant
            i <= v.len(),
            r@.len() == i,
            forall|k: int| 0 <= k < i ==> r@[k]@ == v@[k]@,
        decreases v.len() - i,
    {
        r.push(v[i].clone());
        i += 1;
    }
    assert(texts(r@) =~= texts(v@));
    r
}

/// The stack of open headings: each is the parent of the next, the first
/// has the file as its parent, and the last is the heading before `i`.
pub open spec fn is_chain(o: Outline, stack: Seq<usize>, i: int) -> bool {
    &&& forall|t: int| 0 <= t < stack.len() ==> (#[trigger] stack[t]) < i
    &&& stack.len() > 0 ==> o.parent_index(stack[0] as int) == -1
    &&& forall|t: int| 1 <= t < stack.len() ==>
        o.parent_index(#[trigger] stack[t] as int) == stack[t - 1]
}

/// The number of sections before heading `i` whose slug is `slug`.
fn count_sections(bases: &Vec<Option<Vec<char>>>, slug: &[char], Ghost(o): Ghost<Outline>) -> (r:
    usize)
    requires
        bases@.len() <= o.headings.len(),
        o.wf(),
        forall|k: int|
            0 <= k < bases@.len() ==> match #[trigger] bases@[k] {
                Some(b) => o.is_section(k) && b@ == o.base_slug(k),
                None => !o.is_section(k),
            },
    ensures
        r == o.count_same(slug@, bases@.len() as int),
        r <= bases@.len(),
{
    let mut r: usize = 0;
    let mut k: usize = 0;
    while k < bases.len()
        invariant
            k <= bases@.len() <= o.headings.len(),
            r == o.count_same(slug@, k as int),
            r <= k,
            forall|k: int|
                0 <= k < bases@.len() ==> match #[trigger] bases@[k] {
                    Some(b) => o.is_section(k) && b@ == o.base_slug(k),
                    None => !o.is_section(k),
                },
        decreases bases@.len() - k,
    {
        match &bases[k] {
            Some(b) => {
                if chars_eq(b.as_slice(), slug) {
                    r += 1;
                }
            },
            None => {},
        }
        k += 1;
    }
    r
}

/// Builds the objects of a document: the object of the file, then one
/// object for each heading. A heading that a declaration follows gives an
/// object of the declared type and identifier; any other heading gives a
/// section.
pub fn build_objects(
    file_id: &str,
    root: ParsedObject,
    headings: &Vec<Heading>,
    declared: &Vec<Option<EmbeddedType>>,
) -> (r: Vec<ParsedObject>)
    requires
        declared@.len() == headings@.len(),
        forall|i: int| 0 <= i < headings@.len() ==> (#[trigger] headings@[i]).line >= 1,
    ensures
        object_views(r@) == (Outline {
            file_id: file_id@,
            headings: heading_views(headings@),
            declared: declared_views(declared@),
        }).objects(root@),
{
    let ghost o = Outline {
        file_id: file_id@,
        headings: heading_views(headings@),
        declared: declared_views(declared@),
    };
    let ghost root_model = root@;
    assert(o.wf()) by {
        assert forall|i: int| 0 <= i < o.headings.len() implies (#[trigger] o.headings[i]).line
            >= 1 by {
            assert(o.headings[i] == headings@[i]@);
        }
    }
    let n = headings.len();
    let in_order = lines_in_order(headings, Ghost(o));
    let fid = to_chars(file_id);
    let mut objects: Vec<ParsedObject> = Vec::new();
    objects.push(root);
    let mut stack: Vec<usize> = Vec::new();
    let mut bases: Vec<Option<Vec<char>>> = Vec::new();
    let mut i: usize = 0;
    while i < n
        invariant
            i <= n,
            n == headings@.len(),
            declared@.len() == n,
            fid@ == file_id@,
            o == (Outline {
                file_id: file_id@,
                headings: heading_views(headings@),
                declared: declared_views(declared@),
            }),
            o.wf(),
            in_order ==> in_line_order(o),
            objects@.len() == i + 1,
            objects@[0]@ == root_model,
            forall|k: int| 0 <= k < i ==> (#[trigger] objects@[k + 1])@ == o.heading_object(k),
            is_chain(o, stack@, i as int),
            i > 0 ==> stack@.len() > 0 && stack@[stack@.len() - 1] == i - 1,
            bases@.len() == i,
            forall|k: int|
                0 <= k < bases@.len() ==> match #[trigger] bases@[k] {
                    Some(b) => o.is_section(k) && b@ == o.base_slug(k),
                    None => !o.is_section(k),
                },
        decreases n - i,
    {
        let h = &headings[i];
        let ghost hm = o.headings[i as int];
        assert(hm == h@);
        assert(o.declared[i as int] == match declared@[i as int] {
            Some(e) => Some(e@),
            None => None,
        });
        // The parent: the nearest open heading of a smaller level.
        while stack.len() > 0 && headings[stack[stack.len() - 1]].level >= h.level
            invariant
                i < n,
                n == headings@.len(),
                o.headings == heading_views(headings@),
                is_chain(o, stack@, i as int),
                h@ == o.headings[i as int],
                forall|k: int|
                    (if stack@.len() > 0 {
                        stack@[stack@.len() - 1] as int
                    } else {
                        -1
                    }) < k < i ==> (#[trigger] o.headings[k]).level >= h.level,
            decreases stack@.len(),
        {
            let top = stack[stack.len() - 1];
            proof {
                assert(o.headings[top as int] == headings@[top as int]@);
                lemma_nearest_shallower(o, o.headings[top as int].level, top - 1);
            }
            stack.pop();
        }
        let parent: Option<usize> = if stack.len() > 0 {
            Some(stack[stack.len() - 1])
        } else {
            None
        };
        proof {
            let t = if stack@.len() > 0 {
                stack@[stack@.len() - 1] as int
            } else {
                -1
            };
            if t >= 0 {
                assert(o.headings[t] == headings@[t]@);
            }
            lemma_nearest_is(o, h.level, i - 1, t);
            assert(o.parent_index(i as int) == t);
        }
        let parent_id = match parent {
            Some(p) => objects[p + 1].id.clone(),
            None => String::from_str(file_id),
        };
        assert(parent_id@ == o.parent_id(i as int)) by {
            if parent is Some {
                let p = parent->0 as int;
                assert(objects@[p + 1]@ == o.heading_object(p));
            }
        }
        let line_end = end_after(headings, i, in_order, Ghost(o));
        let mut id = copy_chars(fid.as_slice());
        id.push('#');
        let object = match &declared[i] {
            Some(d) => {
                let local = to_chars(d.id.as_str());
                append_chars(&mut id, local.as_slice());
                bases.push(None);
                ParsedObject {
                    id: from_chars(id.as_slice()),
                    object_type: d.name.clone(),
                    fields: d.fields.duplicate(),
                    tags: copy_strings(&d.tags),
                    heading: Some(h.text.clone()),
                    heading_level: Some(h.level),
                    parent_id: Some(parent_id),
                    line_start: h.line,
                    line_end,
                }
            },
            None => {
                let slug = slugify(h.text.as_str());
                let base = section_slug_of(slug.as_str(), h.line);
                let earlier = count_sections(&bases, base.as_slice(), Ghost(o));
                let local = unique_slug_of(base.as_slice(), earlier + 1);
                append_chars(&mut id, local.as_slice());
                bases.push(Some(base));
                let mut fields = FieldMap::new();
                fields.insert(String::from_str("title"), FieldValue::String(h.text.clone()));
                let level = decimal_chars(h.level as usize);
                fields.insert(
                    String::from_str("level"),
                    FieldValue::Number(from_chars(level.as_slice())),
                );
                let tags: Vec<String> = Vec::new();
                assert(texts(tags@) =~= Seq::<Seq<char>>::empty());
                ParsedObject {
                    id: from_chars(id.as_slice()),
                    object_type: String::from_str("section"),
                    fields,
                    tags,
                    heading: Some(h.text.clone()),
                    heading_level: Some(h.level),
                    parent_id: Some(parent_id),
                    line_start: h.line,
                    line_end,
                }
            },
        };
        proof {
            let m = o.heading_object(i as int);
            assert(object@.id =~= m.id);
            assert(object@.fields =~= m.fields);
        }
        assert(object@ == o.heading_object(i as int));
        objects.push(object);
        stack.push(i);
        i += 1;
    }
    proof {
        assert(object_views(objects@) =~= o.objects(root_model)) by {
            assert forall|k: int| 0 <= k < objects@.len() implies object_views(objects@)[k]
                == o.objects(root_model)[k] by {
                if k > 0 {
                    assert(objects@[(k - 1) + 1]@ == o.heading_object(k - 1));
                }
            }
        }
    }
    objects
}

// ---------------------------------------------------------------------------
// Identifiers are unique
// ---------------------------------------------------------------------------

/// Two texts that each end in `-` and a numeral are equal only if the
/// numerals are, and what stands before them.
pub proof fn lemma_numbered_equal(a: Seq<char>, m: nat, b: Seq<char>, n: nat)
    requires
        a + seq!['-'] + decimal(m) == b + seq!['-'] + decimal(n),
    ensures
        a == b,
        m == n,
{
    let da = decimal(m);
    let db = decimal(n);
    let x = a + seq!['-'] + da;
    let y = b + seq!['-'] + db;
    lemma_decimal(m);
    lemma_decimal(n);
    assert(x.len() == a.len() + 1 + da.len());
    assert(y.len() == b.len() + 1 + db.len());
    if da.len() < db.len() {
        let p = a.len() as int;
        assert(x[p] == '-');
        assert(y[p] == db[p - b.len() - 1]);
        assert(is_digit(db[p - b.len() - 1]));
    } else if db.len() < da.len() {
        let p = b.len() as int;
        assert(y[p] == '-');
        assert(x[p] == da[p - a.len() - 1]);
        assert(is_digit(da[p - a.len() - 1]));
    } else {
        assert(a =~= b) by {
            assert forall|k: int| 0 <= k < a.len() implies a[k] == b[k] by {
                assert(x[k] == a[k]);
                assert(y[k] == b[k]);
            }
        }
        assert(da =~= db) by {
            assert forall|k: int| 0 <= k < da.len() implies da[k] == db[k] by {
                assert(x[a.len() + 1 + k] == da[k]);
                assert(y[b.len() + 1 + k] == db[k]);
            }
        }
        lemma_decimal_injective(m, n);
    }
}

/// The count of sections of a slug grows with the headings, by no more
/// than one for each.
pub proof fn lemma_count_same(o: Outline, slug: Seq<char>, a: int, b: int)
    requires
        0 <= a <= b,
    ensures
        o.count_same(slug, a) <= o.count_same(slug, b),
        o.count_same(slug, b) <= b,
    decreases b,
{
    if b > 0 {
        if a < b {
            lemma_count_same(o, slug, a, b - 1);
        } else {
            lemma_count_same(o, slug, a - 1, b - 1);
        }
    }
}

/// No two objects get one identifier by chance: no identifier is declared
/// twice, none is declared that a section has, and no section has a slug
/// that is the slug of other sections with the counter of one of them.
pub open spec fn no_collisions(o: Outline) -> bool {
    &&& forall|i: int, j: int|
        0 <= i < j < o.headings.len() && !o.is_section(i) && !o.is_section(j) ==> o.local_id(i)
            != o.local_id(j)
    &&& forall|i: int, j: int|
        0 <= i < o.headings.len() && 0 <= j < o.headings.len() && !o.is_section(i)
            && o.is_section(j) ==> o.local_id(i) != o.local_id(j)
    &&& forall|i: int, j: int, k: nat|
        #![trigger o.base_slug(i), unique_slug(o.base_slug(j), k)]
        0 <= i < o.headings.len() && 0 <= j < o.headings.len() && o.is_section(i) && o.is_section(
            j,
        ) && 2 <= k <= o.count_same(o.base_slug(j), o.headings.len() as int) ==> o.base_slug(i)
            != unique_slug(o.base_slug(j), k)
}

/// Two sections have different local identifiers.
proof fn lemma_sections_differ(o: Outline, i: int, j: int)
    requires
        o.wf(),
        no_collisions(o),
        0 <= i < j < o.headings.len(),
        o.is_section(i),
        o.is_section(j),
    ensures
        o.local_id(i) != o.local_id(j),
{
    let n = o.headings.len() as int;
    let bi = o.base_slug(i);
    let bj = o.base_slug(j);
    let ci = o.count_same(bi, i + 1);
    let cj = o.count_same(bj, j + 1);
    lemma_count_same(o, bi, i + 1, n);
    lemma_count_same(o, bj, j + 1, n);
    lemma_count_same(o, bi, 0, i);
    lemma_count_same(o, bj, 0, j);
    assert(ci >= 1);
    assert(cj >= 1);
    if o.local_id(i) == o.local_id(j) {
        if bi == bj {
            lemma_count_same(o, bi, i + 1, j);
            assert(cj > ci);
            if ci == 1 {
                assert((bi + seq!['-'] + decimal(cj)).len() > bi.len());
            } else {
                lemma_numbered_equal(bi, ci, bj, cj);
            }
        } else {
            if ci <= 1 && cj <= 1 {
            } else if ci <= 1 {
                assert(bi == unique_slug(bj, cj));
            } else if cj <= 1 {
                assert(bj == unique_slug(bi, ci));
            } else {
                lemma_numbered_equal(bi, ci, bj, cj);
            }
        }
    }
}

/// Objects have different identifiers, where none collide by chance (see
/// [`no_collisions`]). Sections of one slug are told apart by their
/// counters: the first keeps the slug, the later ones get `-2`, `-3`, ... in
/// the order of the document.
pub proof fn lemma_unique_ids(o: Outline, root: ObjectModel)
    requires
        o.wf(),
        root.id == o.file_id,
        no_collisions(o),
    ensures
        forall|a: int, b: int|
            0 <= a < b < o.objects(root).len() ==> o.objects(root)[a].id != o.objects(root)[b].id,
{
    let objects = o.objects(root);
    assert forall|a: int, b: int| 0 <= a < b < objects.len() implies objects[a].id
        != objects[b].id by {
        let j = b - 1;
        let idb = o.file_id + seq!['#'] + o.local_id(j);
        assert(objects[b].id == idb);
        if a == 0 {
            assert(idb.len() > o.file_id.len());
        } else {
            let i = a - 1;
            let ida = o.file_id + seq!['#'] + o.local_id(i);
            assert(objects[a].id == ida);
            if o.is_section(i) && o.is_section(j) {
                lemma_sections_differ(o, i, j);
            }
            assert(o.local_id(i) != o.local_id(j));
            if ida == idb {
                let k = o.file_id.len() + 1;
                assert(o.local_id(i) =~= ida.subrange(k as int, ida.len() as int));
                assert(o.local_id(j) =~= idb.subrange(k as int, idb.len() as int));
            }
        }
    }
}

/// A heading that a declaration follows gives an object of the declared
/// type, whose identifier is that of the file, `#`, and the declared
/// identifier.
pub proof fn lemma_declared_object(o: Outline, root: ObjectModel, i: int)
    requires
        o.wf(),
        0 <= i < o.headings.len(),
        o.declared[i] is Some,
    ensures
        o.objects(root)[i + 1].id == o.file_id + seq!['#'] + o.declared[i]->0.id,
        o.objects(root)[i + 1].object_type == o.declared[i]->0.name,
        o.objects(root)[i + 1].fields == o.declared[i]->0.fields,
        o.objects(root)[i + 1].heading == Some(o.headings[i].text),
{
}

/// A heading that no declaration follows gives a section: its type is
/// `section`, and its identifier is that of the file, `#`, and the slug of
/// the heading, with a counter from the second section of that slug on.
pub proof fn lemma_section_object(o: Outline, root: ObjectModel, i: int)
    requires
        o.wf(),
        0 <= i < o.headings.len(),
        o.declared[i] is None,
    ensures
        o.objects(root)[i + 1].object_type == "section"@,
        o.objects(root)[i + 1].id == o.file_id + seq!['#'] + unique_slug(
            o.base_slug(i),
            o.count_same(o.base_slug(i), i + 1),
        ),
        slug_of(o.headings[i].text).len() > 0 ==> o.base_slug(i) == slug_of(o.headings[i].text),
        o.count_same(o.base_slug(i), i + 1) == o.count_same(o.base_slug(i), i) + 1,
        o.objects(root)[i + 1].fields == section_fields(o.headings[i]),
        o.objects(root)[i + 1].heading == Some(o.headings[i].text),
{
}

/// The objects form a forest under the object of the file: the parent of
/// the object of a heading is the object of the file or of an earlier
/// heading of a smaller level, and no heading between the two is as shallow
/// as the heading itself.
pub proof fn lemma_parent_is_earlier(o: Outline, root: ObjectModel, i: int)
    requires
        o.wf(),
        root.id == o.file_id,
        0 <= i < o.headings.len(),
    ensures
        -1 <= o.parent_index(i) < i,
        o.objects(root)[i + 1].parent_id == Some(o.objects(root)[o.parent_index(i) + 1].id),
        o.parent_index(i) >= 0 ==> o.headings[o.parent_index(i)].level < o.headings[i].level,
        forall|k: int| o.parent_index(i) < k < i ==> o.headings[k].level >= o.headings[i].level,
{
    lemma_nearest_shallower(o, o.headings[i].level, i - 1);
}

} // verus!
