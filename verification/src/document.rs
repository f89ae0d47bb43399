//! Documents: the objects, traits and references of one file.

use vstd::prelude::*;
use vstd::slice::slice_subrange;
use crate::frontmatter::{
    body_of, body_start, frontmatter_close, frontmatter_from, frontmatter_of,
    lemma_frontmatter_end_line, parse_frontmatter_lines, Frontmatter, FrontmatterModel,
};
use crate::hierarchy::{
    build_objects, copy_strings, declared_views, lemma_unique_ids, no_collisions, object_views,
    unique_slug, ObjectModel, Outline, ParsedObject,
};
use crate::markdown::{
    add_tags, heading_views, headings_from_events, headings_of, inline_tags_of,
    lemma_heading_lines, markdown_events, markdown_events_of, tags_from_events, with_unique,
    Heading, HeadingModel,
};
use crate::refs::{
    lemma_references_in_lines, reference_views, references_in, references_of_lines, Reference,
    ReferenceModel,
};
use crate::text::{
    copy_chars, decimal, decimal_chars, from_chars, has_suffix, join_from, join_lines,
    lemma_rejoin, lemma_split_lines_len, lemma_split_lines_utf8, lemma_utf8_len_bounds, lines_of,
    opt_text, split_lines, texts, to_chars, trim, utf8_len, views,
};
use crate::traits::{
    lemma_traits_in_lines, trait_views, traits_in, traits_of_lines, TraitAnnotation, TraitModel,
};
use crate::type_decl::{
    embedded_of, is_malformed_declaration, opt_embedded, parse_embedded_type, EmbeddedModel,
    EmbeddedType,
};
use crate::value::{value_views, FieldMap, FieldValue, ValueModel};

verus! {

// ---------------------------------------------------------------------------
// Ownership of lines
// ---------------------------------------------------------------------------

/// Among the first `k` objects, the one that owns `line`: of those that
/// start at or before the line, the one that starts last; of several that
/// start on one line, the last in the sequence. -1 if none starts at or
/// before the line.
pub open spec fn owner_upto(objects: Seq<ObjectModel>, line: int, k: int) -> int
    decreases k,
{
    if k <= 0 {
        -1
    } else {
        let before = owner_upto(objects, line, k - 1);
        if k - 1 < objects.len() && objects[k - 1].line_start <= line && (before < 0
            || objects[k - 1].line_start >= objects[before].line_start) {
            k - 1
        } else {
            before
        }
    }
}

/// The object that owns `line`, or -1.
pub open spec fn owner(objects: Seq<ObjectModel>, line: int) -> int {
    owner_upto(objects, line, objects.len() as int)
}

/// The identifier of the object that owns `line`. Where no object starts at
/// or before the line, the first object owns it.
pub open spec fn owner_id(objects: Seq<ObjectModel>, line: int) -> Seq<char> {
    if owner(objects, line) >= 0 {
        objects[owner(objects, line)].id
    } else if objects.len() > 0 {
        objects[0].id
    } else {
        Seq::empty()
    }
}

/// The owner starts at or before the line, and no object that does so
/// comes after it: none starts later, and of those that start with it none
/// stands later in the sequence.
pub proof fn lemma_owner_upto(objects: Seq<ObjectModel>, line: int, k: int)
    requires
        0 <= k <= objects.len(),
    ensures
        -1 <= owner_upto(objects, line, k) < k,
        owner_upto(objects, line, k) >= 0 ==> objects[owner_upto(objects, line, k)].line_start
            <= line,
        forall|j: int|
            0 <= j < k && (#[trigger] objects[j]).line_start <= line ==> {
                let w = owner_upto(objects, line, k);
                w >= 0 && (objects[j].line_start < objects[w].line_start || (objects[j].line_start
                    == objects[w].line_start && j <= w))
            },
    decreases k,
{
    if k > 0 {
        lemma_owner_upto(objects, line, k - 1);
    }
}

/// Whether the lines of an object hold `line`.
pub open spec fn holds_line(object: ObjectModel, line: int) -> bool {
    &&& object.line_start <= line
    &&& object.line_end matches Some(e) ==> line <= e
}

proof fn lemma_next_start(o: Outline, i: int, k: int)
    requires
        0 <= k <= o.headings.len(),
    ensures
        o.next_start(i, k) matches Some(m) ==> exists|j: int|
            0 <= j < k && o.follows(i, j) && (#[trigger] o.headings[j]).line == m,
    decreases k,
{
    if k > 0 {
        lemma_next_start(o, i, k - 1);
        let before = o.next_start(i, k - 1);
        if o.follows(i, k - 1) {
            assert(o.headings[k - 1].line == o.headings[k - 1].line);
        }
        if o.next_start(i, k) is Some {
            let m = o.next_start(i, k)->0;
            if before == Some(m) {
                let j = choose|j: int|
                    0 <= j < k - 1 && o.follows(i, j) && (#[trigger] o.headings[j]).line == m;
                assert(0 <= j < k && o.follows(i, j) && o.headings[j].line == m);
            } else {
                assert(o.follows(i, k - 1) && o.headings[k - 1].line == m);
            }
        }
    }
}

/// The object that owns a line holds the line: the line lies between the
/// start and the end of the object. The object of the file owns every line
/// before the first heading.
pub proof fn lemma_owner_holds_line(o: Outline, root: ObjectModel, line: int)
    requires
        o.wf(),
        root.line_start == 1,
        root.line_end is None,
        line >= 1,
    ensures
        0 <= owner(o.objects(root), line) < o.objects(root).len(),
        holds_line(o.objects(root)[owner(o.objects(root), line)], line),
        owner_id(o.objects(root), line) == o.objects(root)[owner(o.objects(root), line)].id,
{
    let objects = o.objects(root);
    let n = objects.len() as int;
    lemma_owner_upto(objects, line, n);
    let w = owner(objects, line);
    assert(objects[0].line_start <= line);
    assert(w >= 0);
    if w >= 1 {
        let i = w - 1;
        assert(objects[w] == o.heading_object(i));
        if objects[w].line_end is Some {
            let m = o.next_start(i, o.headings.len() as int)->0;
            lemma_next_start(o, i, o.headings.len() as int);
            let j = choose|j: int|
                0 <= j < o.headings.len() && o.follows(i, j) && (#[trigger] o.headings[j]).line
                    == m;
            assert(objects[j + 1] == o.heading_object(j));
            if m <= line {
                assert(objects[j + 1].line_start <= line);
            }
        }
    }
}

/// Finds the object that owns a line, and gives its identifier.
pub fn find_parent_for_line(objects: &[ParsedObject], line: usize) -> (r: String)
    ensures
        r@ == owner_id(object_views(objects@), line as int),
{
    let ghost models = object_views(objects@);
    let n = objects.len();
    let mut best: Option<usize> = None;
    let mut k: usize = 0;
    while k < n
        invariant
            k <= n,
            n == objects@.len(),
            models == object_views(objects@),
            match best {
                Some(b) => b < k && owner_upto(models, line as int, k as int) == b,
                None => owner_upto(models, line as int, k as int) == -1,
            },
        decreases n - k,
    {
        assert(models[k as int] == objects@[k as int]@);
        if objects[k].line_start <= line {
            let better = match best {
                Some(b) => {
                    assert(models[b as int] == objects@[b as int]@);
                    objects[k].line_start >= objects[b].line_start
                },
                None => true,
            };
            if better {
                best = Some(k);
            }
        }
        k += 1;
    }
    match best {
        Some(b) => {
            assert(models[b as int] == objects@[b as int]@);
            objects[b].id.clone()
        },
        None => if n > 0 {
            assert(models[0] == objects@[0]@);
            objects[0].id.clone()
        } else {
            String::new()
        },
    }
}

// ---------------------------------------------------------------------------
// Traits and references of a document
// ---------------------------------------------------------------------------

/// A trait of a document, as a mathematical object.
pub struct ParsedTraitModel {
    pub trait_type: Seq<char>,
    pub content: Seq<char>,
    pub fields: Map<Seq<char>, ValueModel>,
    pub parent_object_id: Seq<char>,
    pub line: int,
}

/// A trait of a document: an annotation, bound to the object that owns its
/// line.
#[derive(Debug, Clone)]
pub struct ParsedTrait {
    /// The name of the trait.
    pub trait_type: String,
    /// The rest of the line after the annotation.
    pub content: String,
    /// The arguments.
    pub fields: FieldMap,
    /// The identifier of the object that owns the line.
    pub parent_object_id: String,
    /// The line of the annotation.
    pub line: usize,
}

impl View for ParsedTrait {
    type V = ParsedTraitModel;

    open spec fn view(&self) -> ParsedTraitModel {
        ParsedTraitModel {
            trait_type: self.trait_type@,
            content: self.content@,
            fields: self.fields@,
            parent_object_id: self.parent_object_id@,
            line: self.line as int,
        }
    }
}

/// A reference of a document, as a mathematical object.
pub struct ParsedRefModel {
    pub source_id: Seq<char>,
    pub target_raw: Seq<char>,
    pub display_text: Option<Seq<char>>,
    pub line: int,
    pub start: int,
    pub end: int,
}

/// A reference of a document, bound to the object that owns its line.
#[derive(Debug, Clone)]
pub struct ParsedRef {
    /// The identifier of the object that owns the line.
    pub source_id: String,
    /// The target, as written.
    pub target_raw: String,
    /// The display text, if one is given.
    pub display_text: Option<String>,
    /// The line of the reference.
    pub line: usize,
    /// The byte offset in the line at which the reference starts.
    pub start: usize,
    /// The byte offset in the line at which the reference ends.
    pub end: usize,
}

impl View for ParsedRef {
    type V = ParsedRefModel;

    open spec fn view(&self) -> ParsedRefModel {
        ParsedRefModel {
            source_id: self.source_id@,
            target_raw: self.target_raw@,
            display_text: opt_text(self.display_text),
            line: self.line as int,
            start: self.start as int,
            end: self.end as int,
        }
    }
}

/// The models of a sequence of traits.
pub open spec fn parsed_trait_views(v: Seq<ParsedTrait>) -> Seq<ParsedTraitModel> {
    v.map_values(|t: ParsedTrait| t@)
}

/// The models of a sequence of references.
pub open spec fn parsed_ref_views(v: Seq<ParsedRef>) -> Seq<ParsedRefModel> {
    v.map_values(|r: ParsedRef| r@)
}

/// An annotation, bound to the object that owns its line.
pub open spec fn bind_trait(t: TraitModel, objects: Seq<ObjectModel>) -> ParsedTraitModel {
    ParsedTraitModel {
        trait_type: t.trait_name,
        content: t.content,
        fields: t.fields,
        parent_object_id: owner_id(objects, t.line),
        line: t.line,
    }
}

/// A reference, bound to the object that owns its line.
pub open spec fn bind_ref(r: ReferenceModel, objects: Seq<ObjectModel>) -> ParsedRefModel {
    ParsedRefModel {
        source_id: owner_id(objects, r.line),
        target_raw: r.target,
        display_text: r.display_text,
        line: r.line,
        start: r.start,
        end: r.end,
    }
}

/// Binds each annotation to the object that owns its line.
pub fn bind_traits(found: &Vec<TraitAnnotation>, objects: &Vec<ParsedObject>) -> (r: Vec<
    ParsedTrait,
>)
    ensures
        parsed_trait_views(r@) == trait_views(found@).map_values(
            |t: TraitModel| bind_trait(t, object_views(objects@)),
        ),
{
    let mut r: Vec<ParsedTrait> = Vec::new();
    let mut i: usize = 0;
    while i < found.len()
        invariant
            i <= found.len(),
            r@.len() == i,
            forall|k: int|
                0 <= k < i ==> (#[trigger] r@[k])@ == bind_trait(
                    found@[k]@,
                    object_views(objects@),
                ),
        decreases found.len() - i,
    {
        let t = &found[i];
        r.push(
            ParsedTrait {
                trait_type: t.trait_name.clone(),
                content: t.content.clone(),
                fields: t.fields.duplicate(),
                parent_object_id: find_parent_for_line(objects.as_slice(), t.line),
                line: t.line,
            },
        );
        i += 1;
    }
    assert(parsed_trait_views(r@) =~= trait_views(found@).map_values(
        |t: TraitModel| bind_trait(t, object_views(objects@)),
    ));
    r
}

/// Binds each reference to the object that owns its line.
pub fn bind_references(found: &Vec<Reference>, objects: &Vec<ParsedObject>) -> (r: Vec<ParsedRef>)
    ensures
        parsed_ref_views(r@) == reference_views(found@).map_values(
            |x: ReferenceModel| bind_ref(x, object_views(objects@)),
        ),
{
    let mut r: Vec<ParsedRef> = Vec::new();
    let mut i: usize = 0;
    while i < found.len()
        invariant
            i <= found.len(),
            r@.len() == i,
            forall|k: int|
                0 <= k < i ==> (#[trigger] r@[k])@ == bind_ref(found@[k]@, object_views(objects@)),
        decreases found.len() - i,
    {
        let x = &found[i];
        let display_text = match &x.display_text {
            Some(d) => Some(d.clone()),
            None => None,
        };
        r.push(
            ParsedRef {
                source_id: find_parent_for_line(objects.as_slice(), x.line),
                target_raw: x.target.clone(),
                display_text,
                line: x.line,
                start: x.start,
                end: x.end,
            },
        );
        i += 1;
    }
    assert(parsed_ref_views(r@) =~= reference_views(found@).map_values(
        |x: ReferenceModel| bind_ref(x, object_views(objects@)),
    ));
    r
}

// ---------------------------------------------------------------------------
// Documents
// ---------------------------------------------------------------------------

/// A document, as a mathematical object.
pub struct DocumentModel {
    pub file_path: Seq<char>,
    pub objects: Seq<ObjectModel>,
    pub traits: Seq<ParsedTraitModel>,
    pub refs: Seq<ParsedRefModel>,
}

/// A parsed document.
#[derive(Debug, Clone)]
pub struct ParsedDocument {
    /// The path of the file, relative to the vault.
    pub file_path: String,
    /// The objects: the object of the file first, then the objects of the
    /// headings in their order.
    pub objects: Vec<ParsedObject>,
    /// The traits, in the order of the document.
    pub traits: Vec<ParsedTrait>,
    /// The references, in the order of the document.
    pub refs: Vec<ParsedRef>,
}

impl View for ParsedDocument {
    type V = DocumentModel;

    open spec fn view(&self) -> DocumentModel {
        DocumentModel {
            file_path: self.file_path@,
            objects: object_views(self.objects@),
            traits: parsed_trait_views(self.traits@),
            refs: parsed_ref_views(self.refs@),
        }
    }
}

/// Why a document could not be parsed.
#[derive(Debug)]
pub enum ParseErrorKind {
    /// The frontmatter block is no YAML.
    Frontmatter { message: String },
    /// A line begins with `::` and is no type declaration.
    Declaration { line: usize, text: String },
}

/// A document could not be parsed.
#[derive(Debug)]
pub struct ParseError {
    /// The path of the file.
    pub path: String,
    /// What is wrong with it.
    pub kind: ParseErrorKind,
}

impl ParseError {
    /// The error as one line of text, with the path of the file.
    pub fn to_text(&self) -> (r: String)
        ensures
            r@ == match self.kind {
                ParseErrorKind::Frontmatter { message } => "Failed to parse frontmatter in "@
                    + self.path@ + ": "@ + message@,
                ParseErrorKind::Declaration { line, text } => self.path@ + ":"@ + decimal(
                    line as nat,
                ) + ": Invalid type declaration syntax: "@ + text@,
            },
    {
        match &self.kind {
            ParseErrorKind::Frontmatter { message } => String::from_str(
                "Failed to parse frontmatter in ",
            ).concat(self.path.as_str()).concat(": ").concat(message.as_str()),
            ParseErrorKind::Declaration { line, text } => {
                let number = decimal_chars(*line);
                let number = from_chars(number.as_slice());
                String::from_str(self.path.as_str()).concat(":").concat(number.as_str()).concat(
                    ": Invalid type declaration syntax: ",
                ).concat(text.as_str())
            },
        }
    }
}

/// The extension of the files.
pub open spec fn extension() -> Seq<char> {
    seq!['.', 'm', 'd']
}

/// The identifier of a file: its path without the extension `.md`.
pub open spec fn file_id_of(path: Seq<char>) -> Seq<char> {
    if extension().is_suffix_of(path) {
        path.subrange(0, path.len() - 3)
    } else {
        path
    }
}

/// The first index at or after `i` of a line that begins like a declaration
/// and is none, or the number of lines.
pub open spec fn first_malformed(lines: Seq<Seq<char>>, i: int) -> int
    decreases lines.len() - i,
{
    if 0 <= i < lines.len() && !is_malformed_declaration(lines[i]) {
        first_malformed(lines, i + 1)
    } else if i > lines.len() {
        lines.len() as int
    } else {
        i
    }
}

/// The declaration on the line with the given number, if the body has that
/// line and it declares an embedded object.
pub open spec fn declaration_at(lines: Seq<Seq<char>>, start: int, number: int) -> Option<
    EmbeddedModel,
> {
    if 0 <= number - start < lines.len() {
        embedded_of(lines[number - start], number)
    } else {
        None
    }
}

/// For each heading, the declaration on the line after it.
pub open spec fn declarations_after(
    headings: Seq<HeadingModel>,
    lines: Seq<Seq<char>>,
    start: int,
) -> Seq<Option<EmbeddedModel>> {
    Seq::new(headings.len(), |i: int| declaration_at(lines, start, headings[i].line + 1))
}

/// The tags, as string values.
pub open spec fn tag_values(tags: Seq<Seq<char>>) -> Seq<ValueModel> {
    tags.map_values(|t: Seq<char>| ValueModel::String(t))
}

/// The name of the type of a file that declares none.
pub open spec fn default_type() -> Seq<char> {
    "page"@
}

/// The tags of a file: the tags of the frontmatter and then the inline
/// tags, each once, in the order of their first occurrence.
pub open spec fn file_tags(declared: Seq<Seq<char>>, inline: Seq<Seq<char>>) -> Seq<Seq<char>> {
    with_unique(with_unique(Seq::empty(), declared), inline)
}

/// The object of the file. Where it has tags, its field `tags` holds them
/// too.
pub open spec fn root_object(
    file_id: Seq<char>,
    fm: FrontmatterModel,
    inline: Seq<Seq<char>>,
) -> ObjectModel {
    let tags = file_tags(fm.tags, inline);
    ObjectModel {
        id: file_id,
        object_type: match fm.object_type {
            Some(t) => t,
            None => default_type(),
        },
        fields: if tags.len() > 0 {
            fm.fields.insert("tags"@, ValueModel::Array(tag_values(tags)))
        } else {
            fm.fields
        },
        tags,
        heading: None,
        heading_level: None,
        parent_id: None,
        line_start: 1,
        line_end: None,
    }
}

/// What the hierarchy of a document is built from.
pub open spec fn outline_of(content: Seq<char>, path: Seq<char>) -> Outline {
    let body = body_of(content);
    let start = body_start(content);
    let headings = headings_of(markdown_events_of(body), body, start);
    Outline {
        file_id: file_id_of(path),
        headings,
        declared: declarations_after(headings, split_lines(body), start),
    }
}

/// The document that a text holds, given its frontmatter.
pub open spec fn document_with(content: Seq<char>, path: Seq<char>, fm: FrontmatterModel) ->
    DocumentModel {
    let body = body_of(content);
    let start = body_start(content);
    let lines = split_lines(body);
    let root = root_object(file_id_of(path), fm, inline_tags_of(markdown_events_of(body)));
    let objects = outline_of(content, path).objects(root);
    DocumentModel {
        file_path: path,
        objects,
        traits: traits_in(lines, start, lines.len() as int).map_values(
            |t: TraitModel| bind_trait(t, objects),
        ),
        refs: references_in(lines, start, lines.len() as int).map_values(
            |r: ReferenceModel| bind_ref(r, objects),
        ),
    }
}

/// How parsing a document ends.
pub enum Outcome {
    /// The document.
    Document(DocumentModel),
    /// The frontmatter block is no YAML.
    BadFrontmatter,
    /// The line with this number begins with `::` and is no type
    /// declaration; no earlier line of the body is such a line.
    BadDeclaration { line: int, text: Seq<char> },
}

/// How parsing the text of a file ends.
pub open spec fn parse_outcome(content: Seq<char>, path: Seq<char>) -> Outcome {
    match frontmatter_of(content) {
        None => Outcome::BadFrontmatter,
        Some(fm) => {
            let lines = split_lines(body_of(content));
            let bad = first_malformed(lines, 0);
            if bad < lines.len() {
                Outcome::BadDeclaration { line: body_start(content) + bad, text: trim(lines[bad]) }
            } else {
                Outcome::Document(document_with(content, path, fm))
            }
        },
    }
}

/// The outcome that a result stands for.
pub open spec fn outcome_of(r: Result<ParsedDocument, ParseError>) -> Outcome {
    match r {
        Ok(doc) => Outcome::Document(doc@),
        Err(e) => match e.kind {
            ParseErrorKind::Frontmatter { message } => Outcome::BadFrontmatter,
            ParseErrorKind::Declaration { line, text } => Outcome::BadDeclaration {
                line: line as int,
                text: text@,
            },
        },
    }
}

/// A copy of a declaration.
fn copy_embedded(e: &EmbeddedType) -> (r: EmbeddedType)
    ensures
        r@ == e@,
{
    EmbeddedType {
        name: e.name.clone(),
        id: e.id.clone(),
        fields: e.fields.duplicate(),
        tags: copy_strings(&e.tags),
        line: e.line,
    }
}

/// Reads the declarations of the lines of a body. The first line that
/// begins with `::` and is no declaration is an error.
fn read_declarations(lines: &Vec<Vec<char>>, start: usize) -> (r: Result<
    Vec<Option<EmbeddedType>>,
    (usize, String),
>)
    requires
        start + lines@.len() <= usize::MAX,
    ensures
        match r {
            Ok(v) => first_malformed(views(lines@), 0) == lines@.len() && v@.len() == lines@.len()
                && forall|k: int|
                0 <= k < v@.len() ==> opt_embedded(#[trigger] v@[k]) == embedded_of(
                    views(lines@)[k],
                    start + k,
                ),
            Err((line, text)) => first_malformed(views(lines@), 0) < lines@.len() && line == start
                + first_malformed(views(lines@), 0) && text@ == trim(
                views(lines@)[first_malformed(views(lines@), 0)],
            ),
        },
{
    let ghost ls = views(lines@);
    let mut v: Vec<Option<EmbeddedType>> = Vec::new();
    let mut k: usize = 0;
    while k < lines.len()
        invariant
            k <= lines.len(),
            ls == views(lines@),
            start + lines@.len() <= usize::MAX,
            first_malformed(ls, 0) == first_malformed(ls, k as int),
            v@.len() == k,
            forall|j: int|
                0 <= j < k ==> opt_embedded(#[trigger] v@[j]) == embedded_of(ls[j], start + j),
        decreases lines.len() - k,
    {
        assert(ls[k as int] == lines@[k as int]@);
        match parse_embedded_type(lines[k].as_slice(), start + k) {
            Ok(e) => {
                v.push(e);
            },
            Err(e) => {
                return Err((e.line, e.text));
            },
        }
        k += 1;
    }
    Ok(v)
}

/// For each heading, a copy of the declaration on the line after it.
fn declarations_for(
    headings: &Vec<Heading>,
    decls: &Vec<Option<EmbeddedType>>,
    start: usize,
    Ghost(lines): Ghost<Seq<Seq<char>>>,
) -> (r: Vec<Option<EmbeddedType>>)
    requires
        decls@.len() == lines.len(),
        forall|k: int|
            0 <= k < decls@.len() ==> opt_embedded(#[trigger] decls@[k]) == embedded_of(
                lines[k],
                start + k,
            ),
    ensures
        r@.len() == headings@.len(),
        declared_views(r@) == declarations_after(heading_views(headings@), lines, start as int),
{
    let mut r: Vec<Option<EmbeddedType>> = Vec::new();
    let mut i: usize = 0;
    while i < headings.len()
        invariant
            i <= headings.len(),
            r@.len() == i,
            decls@.len() == lines.len(),
            forall|k: int|
                0 <= k < decls@.len() ==> opt_embedded(#[trigger] decls@[k]) == embedded_of(
                    lines[k],
                    start + k,
                ),
            forall|k: int|
                0 <= k < i ==> opt_embedded(#[trigger] r@[k]) == declaration_at(
                    lines,
                    start as int,
                    headings@[k].line + 1,
                ),
        decreases headings.len() - i,
    {
        let line = headings[i].line;
        let mut found: Option<EmbeddedType> = None;
        if line >= start {
            let rel = line - start;
            if rel < decls.len() && rel + 1 < decls.len() {
                match &decls[rel + 1] {
                    Some(e) => {
                        found = Some(copy_embedded(e));
                    },
                    None => {},
                }
            }
        } else if start - line == 1 && decls.len() > 0 {
            match &decls[0] {
                Some(e) => {
                    found = Some(copy_embedded(e));
                },
                None => {},
            }
        }
        r.push(found);
        i += 1;
    }
    proof {
        let hs = heading_views(headings@);
        assert(declared_views(r@) =~= declarations_after(hs, lines, start as int)) by {
            assert forall|k: int| 0 <= k < r@.len() implies declared_views(r@)[k]
                == declarations_after(hs, lines, start as int)[k] by {
                assert(hs[k] == headings@[k]@);
                assert(declared_views(r@)[k] == opt_embedded(r@[k]));
            }
        }
    }
    r
}

/// The characters of each of the given strings.
fn char_lists(v: &Vec<String>) -> (r: Vec<Vec<char>>)
    ensures
        views(r@) == texts(v@),
{
    let mut r: Vec<Vec<char>> = Vec::new();
    let mut i: usize = 0;
    while i < v.len()
        invariant
            i <= v.len(),
            r@.len() == i,
            forall|k: int| 0 <= k < i ==> (#[trigger] r@[k])@ == v@[k]@,
        decreases v.len() - i,
    {
        r.push(to_chars(v[i].as_str()));
        i += 1;
    }
    assert(views(r@) =~= texts(v@));
    r
}

/// The object of the file.
fn make_root(file_id: &str, fm: Frontmatter, inline: &Vec<String>) -> (r: ParsedObject)
    ensures
        r@ == root_object(file_id@, fm@, texts(inline@)),
{
    let Frontmatter { object_type, fields, tags: declared, end_line } = fm;
    let mut fields = fields;
    let mut tags: Vec<String> = Vec::new();
    assert(texts(tags@) =~= Seq::<Seq<char>>::empty());
    let first = char_lists(&declared);
    add_tags(&mut tags, &first);
    let second = char_lists(inline);
    add_tags(&mut tags, &second);
    if tags.len() > 0 {
        let mut values: Vec<FieldValue> = Vec::new();
        let mut j: usize = 0;
        while j < tags.len()
            invariant
                j <= tags.len(),
                values@.len() == j,
                forall|k: int|
                    0 <= k < j ==> (#[trigger] values@[k])@ == ValueModel::String(tags@[k]@),
            decreases tags.len() - j,
        {
            values.push(FieldValue::String(tags[j].clone()));
            j += 1;
        }
        assert(value_views(values@) =~= tag_values(texts(tags@)));
        fields.insert(String::from_str("tags"), FieldValue::Array(values));
    }
    let object_type = match object_type {
        Some(t) => t,
        None => String::from_str("page"),
    };
    ParsedObject {
        id: String::from_str(file_id),
        object_type,
        fields,
        tags,
        heading: None,
        heading_level: None,
        parent_id: None,
        line_start: 1,
        line_end: None,
    }
}

/// The identifier of a file: its path without the extension `.md`.
pub fn file_id(path: &str) -> (r: String)
    ensures
        r@ == file_id_of(path@),
{
    let p = to_chars(path);
    let mut ext: Vec<char> = Vec::new();
    ext.push('.');
    ext.push('m');
    ext.push('d');
    assert(ext@ =~= extension());
    if has_suffix(p.as_slice(), ext.as_slice()) {
        from_chars(slice_subrange(p.as_slice(), 0, p.len() - 3))
    } else {
        from_chars(p.as_slice())
    }
}

/// Parses the text of a file into a document. `relative_path` is the path
/// of the file, relative to the vault.
///
/// Parsing fails where the frontmatter block is no YAML, and where a line
/// of the body begins with `::` and is no type declaration.
///
/// The text must take fewer bytes than the machine can count, which
/// [`crate::text::byte_length`] tells.
pub fn parse_document(content: &str, relative_path: &str) -> (r: Result<ParsedDocument, ParseError>)
    requires
        utf8_len(content@) < usize::MAX,
    ensures
        outcome_of(r) == parse_outcome(content@, relative_path@),
        r matches Err(e) ==> e.path@ == relative_path@,
{
    let chars = to_chars(content);
    let all_lines = lines_of(chars.as_slice());
    let fm = match parse_frontmatter_lines(&all_lines, Ghost(content@)) {
        Ok(fm) => fm,
        Err(e) => {
            return Err(
                ParseError {
                    path: String::from_str(relative_path),
                    kind: ParseErrorKind::Frontmatter { message: e.message },
                },
            );
        },
    };
    proof {
        lemma_utf8_len_bounds(content@);
        lemma_split_lines_len(content@);
        match frontmatter_close(content@) {
            Some(close) => {
                let node = crate::yaml::yaml_decode(
                    crate::frontmatter::frontmatter_yaml(content@, close),
                )->0;
                crate::frontmatter::lemma_closing_line(split_lines(content@), 1);
                lemma_frontmatter_end_line(node, close + 1);
                lemma_rejoin(content@, close + 1);
                assert(fm@ == frontmatter_from(node, close + 1));
                assert(fm.end_line == close + 1);
            },
            None => {
                assert(fm@ == crate::frontmatter::no_frontmatter());
                assert(fm.end_line == 0);
            },
        }
        assert(views(all_lines@) == split_lines(content@));
    }
    let present = fm.end_line > 0;
    let start: usize = if present {
        fm.end_line + 1
    } else {
        1
    };
    let body = if present {
        join_from(&all_lines, fm.end_line)
    } else {
        copy_chars(chars.as_slice())
    };
    proof {
        match frontmatter_close(content@) {
            Some(close) => {
                assert(present);
                assert(body@ == join_lines(views(all_lines@).skip(close + 1)));
            },
            None => {
                assert(!present);
                assert(body@ == content@);
            },
        }
    }
    assert(body@ == body_of(content@));
    assert(start == body_start(content@));
    let body_text = from_chars(body.as_slice());
    let lines = lines_of(body.as_slice());
    proof {
        lemma_utf8_len_bounds(body@);
        lemma_split_lines_len(body@);
        lemma_split_lines_utf8(body@);
        assert forall|k: int| 0 <= k < lines@.len() implies utf8_len(#[trigger] lines@[k]@)
            <= usize::MAX by {
            assert(lines@[k]@ == views(lines@)[k]);
        }
    }
    let decls = match read_declarations(&lines, start) {
        Ok(v) => v,
        Err((line, text)) => {
            return Err(
                ParseError {
                    path: String::from_str(relative_path),
                    kind: ParseErrorKind::Declaration { line, text },
                },
            );
        },
    };
    let events = markdown_events(body_text.as_str());
    let headings = headings_from_events(&events, body_text.as_str(), start);
    let inline = tags_from_events(&events);
    let id = file_id(relative_path);
    let ghost fm_model = fm@;
    let root = make_root(id.as_str(), fm, &inline);
    let declared = declarations_for(&headings, &decls, start, Ghost(views(lines@)));
    proof {
        let evs = markdown_events_of(body@);
        lemma_heading_lines(evs, body@, start as int, evs.len() as int);
        assert forall|i: int| 0 <= i < headings@.len() implies (#[trigger] headings@[i]).line
            >= 1 by {
            assert(heading_views(headings@)[i] == headings@[i]@);
        }
    }
    let objects = build_objects(id.as_str(), root, &headings, &declared);
    let found_traits = traits_of_lines(&lines, start);
    let traits = bind_traits(&found_traits, &objects);
    let found_refs = references_of_lines(&lines, start);
    let refs = bind_references(&found_refs, &objects);
    let doc = ParsedDocument { file_path: String::from_str(relative_path), objects, traits, refs };
    assert(doc@ == document_with(content@, relative_path@, fm_model));
    Ok(doc)
}

// ---------------------------------------------------------------------------
// What holds of every document
// ---------------------------------------------------------------------------

/// The object of the file of a document starts on line 1, reaches the end
/// of the file, and has the identifier of the file.
pub proof fn lemma_document_root(content: Seq<char>, path: Seq<char>, fm: FrontmatterModel)
    ensures
        document_with(content, path, fm).objects.len() == outline_of(content, path).headings.len()
            + 1,
        document_with(content, path, fm).objects[0].id == file_id_of(path),
        document_with(content, path, fm).objects[0].line_start == 1,
        document_with(content, path, fm).objects[0].line_end is None,
        outline_of(content, path).wf(),
{
    let body = body_of(content);
    let start = body_start(content);
    let evs = markdown_events_of(body);
    lemma_heading_lines(evs, body, start, evs.len() as int);
    match frontmatter_close(content) {
        Some(close) => {
            crate::frontmatter::lemma_closing_line(split_lines(content), 1);
        },
        None => {},
    }
}

/// In a document, a heading that a declaration follows on the next line
/// gives an object of the declared type with the declared identifier.
pub proof fn lemma_document_declared(
    content: Seq<char>,
    path: Seq<char>,
    fm: FrontmatterModel,
    i: int,
)
    requires
        0 <= i < outline_of(content, path).headings.len(),
        declaration_at(
            split_lines(body_of(content)),
            body_start(content),
            outline_of(content, path).headings[i].line + 1,
        ) is Some,
    ensures
        ({
            let d = declaration_at(
                split_lines(body_of(content)),
                body_start(content),
                outline_of(content, path).headings[i].line + 1,
            )->0;
            let object = document_with(content, path, fm).objects[i + 1];
            &&& object.id == file_id_of(path) + seq!['#'] + d.id
            &&& object.object_type == d.name
            &&& object.fields == d.fields
        }),
{
    lemma_document_root(content, path, fm);
}

/// In a document, a heading that no declaration follows gives a section
/// whose identifier is made of the slug of the heading.
pub proof fn lemma_document_section(
    content: Seq<char>,
    path: Seq<char>,
    fm: FrontmatterModel,
    i: int,
)
    requires
        0 <= i < outline_of(content, path).headings.len(),
        declaration_at(
            split_lines(body_of(content)),
            body_start(content),
            outline_of(content, path).headings[i].line + 1,
        ) is None,
    ensures
        ({
            let o = outline_of(content, path);
            let object = document_with(content, path, fm).objects[i + 1];
            &&& object.object_type == "section"@
            &&& object.id == file_id_of(path) + seq!['#'] + unique_slug(
                o.base_slug(i),
                o.count_same(o.base_slug(i), i + 1),
            )
        }),
{
    lemma_document_root(content, path, fm);
}

/// In a document, no two objects have one identifier, where none collide
/// by chance.
pub proof fn lemma_document_unique_ids(content: Seq<char>, path: Seq<char>, fm: FrontmatterModel)
    requires
        no_collisions(outline_of(content, path)),
    ensures
        forall|a: int, b: int|
            0 <= a < b < document_with(content, path, fm).objects.len() ==> document_with(
                content,
                path,
                fm,
            ).objects[a].id != document_with(content, path, fm).objects[b].id,
{
    lemma_document_root(content, path, fm);
    let body = body_of(content);
    let root = root_object(file_id_of(path), fm, inline_tags_of(markdown_events_of(body)));
    lemma_unique_ids(outline_of(content, path), root);
}

/// In a document, every trait and every reference is bound to an object
/// whose lines hold its line.
pub proof fn lemma_document_containment(content: Seq<char>, path: Seq<char>, fm: FrontmatterModel)
    ensures
        forall|i: int|
            0 <= i < document_with(content, path, fm).traits.len() ==> exists|w: int|
                0 <= w < document_with(content, path, fm).objects.len() && (
                #[trigger] document_with(content, path, fm).objects[w]).id == (
                #[trigger] document_with(content, path, fm).traits[i]).parent_object_id
                    && holds_line(
                    document_with(content, path, fm).objects[w],
                    document_with(content, path, fm).traits[i].line,
                ),
        forall|i: int|
            0 <= i < document_with(content, path, fm).refs.len() ==> exists|w: int|
                0 <= w < document_with(content, path, fm).objects.len() && (
                #[trigger] document_with(content, path, fm).objects[w]).id == (
                #[trigger] document_with(content, path, fm).refs[i]).source_id && holds_line(
                    document_with(content, path, fm).objects[w],
                    document_with(content, path, fm).refs[i].line,
                ),
{
    lemma_document_root(content, path, fm);
    let doc = document_with(content, path, fm);
    let body = body_of(content);
    let start = body_start(content);
    let lines = split_lines(body);
    let o = outline_of(content, path);
    let root = root_object(file_id_of(path), fm, inline_tags_of(markdown_events_of(body)));
    let objects = o.objects(root);
    assert(start >= 1) by {
        match frontmatter_close(content) {
            Some(close) => {
                crate::frontmatter::lemma_closing_line(split_lines(content), 1);
            },
            None => {},
        }
    }
    lemma_traits_in_lines(lines, start, lines.len() as int);
    lemma_references_in_lines(lines, start, lines.len() as int);
    assert forall|i: int| 0 <= i < doc.traits.len() implies exists|w: int|
        0 <= w < doc.objects.len() && (#[trigger] doc.objects[w]).id == (
        #[trigger] doc.traits[i]).parent_object_id && holds_line(
            doc.objects[w],
            doc.traits[i].line,
        ) by {
        let t = traits_in(lines, start, lines.len() as int)[i];
        assert(doc.traits[i] == bind_trait(t, objects));
        lemma_owner_holds_line(o, root, t.line);
        let w = owner(objects, t.line);
        assert(doc.objects[w].id == doc.traits[i].parent_object_id);
    }
    assert forall|i: int| 0 <= i < doc.refs.len() implies exists|w: int|
        0 <= w < doc.objects.len() && (#[trigger] doc.objects[w]).id == (
        #[trigger] doc.refs[i]).source_id && holds_line(doc.objects[w], doc.refs[i].line) by {
        let r = references_in(lines, start, lines.len() as int)[i];
        assert(doc.refs[i] == bind_ref(r, objects));
        lemma_owner_holds_line(o, root, r.line);
        let w = owner(objects, r.line);
        assert(doc.objects[w].id == doc.refs[i].source_id);
    }
}

} // verus!
