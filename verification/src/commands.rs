//! What the commands compute, apart from reading and writing: the issues of
//! a document, the texts of new notes, and the queries of the index.

use vstd::prelude::*;
use vstd::slice::slice_subrange;
use crate::document::{parsed_trait_views, ParsedDocument, ParsedTrait, ParsedTraitModel};
use crate::hierarchy::{object_views, slug_of, ObjectModel, ParsedObject};
use crate::schema::{trait_index, type_index, Schema};
use crate::text::{
    contains_char, decimal, decimal_chars, find, find_char, from_chars, opt_text, str_eq, texts,
    to_chars,
};
use crate::validator::{
    error_views, missing_errors, validate_fields, value_errors, ErrorModel, RangeCheck,
    ValidationError,
};
use crate::value::ValueModel;

verus! {

// ---------------------------------------------------------------------------
// The issues of a document
// ---------------------------------------------------------------------------

/// How grave an issue is.
#[derive(Debug, Clone, Copy, PartialEq, Eq, Structural)]
pub enum Severity {
    Error,
    Warning,
}

/// Something that is not in order in a document.
#[derive(Debug, Clone)]
pub struct Issue {
    pub severity: Severity,
    /// The line of the object or trait.
    pub line: usize,
    pub message: String,
}

/// An issue, as a mathematical object.
pub struct IssueModel {
    pub severity: Severity,
    pub line: int,
    pub message: Seq<char>,
}

impl View for Issue {
    type V = IssueModel;

    open spec fn view(&self) -> IssueModel {
        IssueModel { severity: self.severity, line: self.line as int, message: self.message@ }
    }
}

/// The models of a sequence of issues.
pub open spec fn issue_views(v: Seq<Issue>) -> Seq<IssueModel> {
    v.map_values(|i: Issue| i@)
}

/// The errors of the fields of an object, where the schema defines its
/// type.
pub open spec fn field_errors(object: ParsedObject, schema: Schema, ranges: Seq<RangeCheck>) -> Seq<
    ErrorModel,
> {
    let t = type_index(schema.types@, object.object_type@, 0);
    if t < schema.types@.len() {
        let defs = schema.types@[t].definition.fields@;
        missing_errors(defs, object.fields@, defs.len() as int) + value_errors(
            object.fields.entries(),
            defs,
            ranges,
            ranges.len() as int,
        )
    } else {
        Seq::empty()
    }
}

/// The issues of an object: a type that the schema does not define and that
/// is not `page`; an embedded object whose identifier holds no `#`; and the
/// errors of its fields.
pub open spec fn object_issues(object: ParsedObject, schema: Schema, ranges: Seq<RangeCheck>) -> Seq<
    IssueModel,
> {
    let line = object.line_start as int;
    (if type_index(schema.types@, object.object_type@, 0) >= schema.types@.len()
        && object.object_type@ != "page"@ {
        seq![
            IssueModel {
                severity: Severity::Error,
                line,
                message: "Unknown type '"@ + object.object_type@ + "'"@,
            },
        ]
    } else {
        Seq::empty()
    }) + (if object.heading is Some && !object.id@.contains('#') {
        seq![
            IssueModel {
                severity: Severity::Error,
                line,
                message: "Embedded object missing 'id' field"@,
            },
        ]
    } else {
        Seq::empty()
    }) + field_errors(object, schema, ranges).map_values(
        |e: ErrorModel|
            IssueModel {
                severity: Severity::Error,
                line,
                message: "Field '"@ + e.field + "': "@ + e.message,
            },
    )
}

/// The issues of the first `k` objects.
pub open spec fn objects_issues(
    objects: Seq<ParsedObject>,
    schema: Schema,
    ranges: Seq<Vec<RangeCheck>>,
    k: int,
) -> Seq<IssueModel>
    decreases k,
{
    if k <= 0 || k > objects.len() || k > ranges.len() {
        Seq::empty()
    } else {
        objects_issues(objects, schema, ranges, k - 1) + object_issues(
            objects[k - 1],
            schema,
            ranges[k - 1]@,
        )
    }
}

/// The issues of the first `k` traits: a trait that the schema does not
/// define is skipped, with a warning.
pub open spec fn traits_issues(traits: Seq<ParsedTrait>, schema: Schema, k: int) -> Seq<IssueModel>
    decreases k,
{
    if k <= 0 || k > traits.len() {
        Seq::empty()
    } else {
        let t = traits[k - 1];
        if trait_index(schema.traits@, t.trait_type@, 0) >= schema.traits@.len() {
            traits_issues(traits, schema, k - 1).push(
                IssueModel {
                    severity: Severity::Warning,
                    line: t.line as int,
                    message: "Undefined trait '@"@ + t.trait_type@ + "' will be skipped"@,
                },
            )
        } else {
            traits_issues(traits, schema, k - 1)
        }
    }
}

/// Whether the ranges fit the document: one sequence for each object, with
/// one range for each of its fields.
pub open spec fn ranges_fit(doc: ParsedDocument, ranges: Seq<Vec<RangeCheck>>) -> bool {
    &&& ranges.len() == doc.objects@.len()
    &&& forall|i: int|
        0 <= i < ranges.len() ==> (#[trigger] ranges[i])@.len() == doc.objects@[i].fields.entries().len()
}

/// Finds the issues of one object.
fn check_object(object: &ParsedObject, schema: &Schema, ranges: &Vec<RangeCheck>) -> (r: Vec<Issue>)
    requires
        ranges@.len() == object.fields.entries().len(),
    ensures
        issue_views(r@) == object_issues(*object, *schema, ranges@),
{
    let mut issues: Vec<Issue> = Vec::new();
    let line = object.line_start;
    let t = schema.find_type(object.object_type.as_str());
    if t >= schema.types.len() && !str_eq(object.object_type.as_str(), "page") {
        issues.push(
            Issue {
                severity: Severity::Error,
                line,
                message: String::from_str("Unknown type '").concat(
                    object.object_type.as_str(),
                ).concat("'"),
            },
        );
    }
    let has_id = {
        let id = to_chars(object.id.as_str());
        contains_char(id.as_slice(), '#')
    };
    if object.heading.is_some() && !has_id {
        issues.push(
            Issue {
                severity: Severity::Error,
                line,
                message: String::from_str("Embedded object missing 'id' field"),
            },
        );
    }
    let ghost head = issue_views(issues@);
    if t < schema.types.len() {
        let errors = validate_fields(&object.fields, &schema.types[t].definition.fields, schema, ranges);
        let ghost models = error_views(errors@);
        let mut i: usize = 0;
        while i < errors.len()
            invariant
                i <= errors.len(),
                models == error_views(errors@),
                issue_views(issues@) == head + models.take(i as int).map_values(
                    |e: ErrorModel|
                        IssueModel {
                            severity: Severity::Error,
                            line: line as int,
                            message: "Field '"@ + e.field + "': "@ + e.message,
                        },
                ),
            decreases errors.len() - i,
        {
            let ghost before = issues@;
            let issue = Issue { severity: Severity::Error, line, message: errors[i].to_text() };
            issues.push(issue);
            proof {
                assert(models[i as int] == errors@[i as int]@);
                assert(issue_views(issues@) =~= issue_views(before).push(issue@));
                assert(models.take(i + 1) =~= models.take(i as int).push(models[i as int]));
                assert(issue_views(issues@) =~= head + models.take(i + 1).map_values(
                    |e: ErrorModel|
                        IssueModel {
                            severity: Severity::Error,
                            line: line as int,
                            message: "Field '"@ + e.field + "': "@ + e.message,
                        },
                ));
            }
            i += 1;
        }
        proof {
            assert(models.take(errors.len() as int) =~= models);
        }
    } else {
        proof {
            assert(issue_views(issues@) =~= object_issues(*object, *schema, ranges@));
        }
    }
    issues
}

/// Finds the issues of a document: those of its objects, in their order,
/// and then those of its traits. `ranges` holds for each object, and for each
/// of its fields, how the number of the field lies to its bounds.
pub fn check_document(doc: &ParsedDocument, schema: &Schema, ranges: &Vec<Vec<RangeCheck>>) -> (r:
    Vec<Issue>)
    requires
        ranges_fit(*doc, ranges@),
    ensures
        issue_views(r@) == objects_issues(doc.objects@, *schema, ranges@, ranges@.len() as int)
            + traits_issues(doc.traits@, *schema, doc.traits@.len() as int),
{
    let mut issues: Vec<Issue> = Vec::new();
    let mut k: usize = 0;
    assert(issue_views(issues@) =~= Seq::<IssueModel>::empty());
    while k < doc.objects.len()
        invariant
            k <= doc.objects@.len(),
            ranges_fit(*doc, ranges@),
            issue_views(issues@) == objects_issues(doc.objects@, *schema, ranges@, k as int),
        decreases doc.objects@.len() - k,
    {
        let mut more = check_object(&doc.objects[k], schema, &ranges[k]);
        let ghost before = issue_views(issues@);
        let ghost added = issue_views(more@);
        issues.append(&mut more);
        proof {
            assert(issue_views(issues@) =~= before + added);
        }
        k += 1;
    }
    let ghost head = issue_views(issues@);
    let mut i: usize = 0;
    while i < doc.traits.len()
        invariant
            i <= doc.traits@.len(),
            issue_views(issues@) == head + traits_issues(doc.traits@, *schema, i as int),
        decreases doc.traits@.len() - i,
    {
        let t = &doc.traits[i];
        if !schema.has_trait(t.trait_type.as_str()) {
            let ghost before = issues@;
            let issue = Issue {
                severity: Severity::Warning,
                line: t.line,
                message: String::from_str("Undefined trait '@").concat(t.trait_type.as_str()).concat(
                    "' will be skipped",
                ),
            };
            issues.push(issue);
            proof {
                assert(issue_views(issues@) =~= issue_views(before).push(issue@));
            }
        }
        proof {
            assert(issue_views(issues@) =~= head + traits_issues(doc.traits@, *schema, i + 1));
        }
        i += 1;
    }
    issues
}

/// Whether a check fails: it found an error, or it found a warning and is
/// strict.
pub fn check_fails(errors: usize, warnings: usize, strict: bool) -> (r: bool)
    ensures
        r == (errors > 0 || (strict && warnings > 0)),
{
    errors > 0 || (strict && warnings > 0)
}

// ---------------------------------------------------------------------------
// New notes
// ---------------------------------------------------------------------------

/// The text of a new note of a type, with its title as heading.
pub fn note_content(kind: &str, title: &str) -> (r: String)
    ensures
        r@ == "---\ntype: "@ + kind@ + "\n---\n\n# "@ + title@ + "\n\n"@,
{
    String::from_str("---\ntype: ").concat(kind).concat("\n---\n\n# ").concat(title).concat(
        "\n\n",
    )
}

/// The text of the daily note of a date, with the day written out as
/// heading.
pub fn daily_content(date: &str, heading: &str) -> (r: String)
    ensures
        r@ == "---\ntype: daily\ndate: "@ + date@ + "\n---\n\n# "@ + heading@ + "\n\n"@,
{
    String::from_str("---\ntype: daily\ndate: ").concat(date).concat("\n---\n\n# ").concat(
        heading,
    ).concat("\n\n")
}

/// The name of the file of a note, given the slug of its title.
pub fn note_file_name(slug: &str) -> (r: String)
    ensures
        r@ == slug@ + ".md"@,
{
    String::from_str(slug).concat(".md")
}

// ---------------------------------------------------------------------------
// Tasks
// ---------------------------------------------------------------------------

/// `s` without the hyphens that it starts with.
pub open spec fn without_hyphens(s: Seq<char>) -> Seq<char>
    decreases s.len(),
{
    if s.len() > 0 && s[0] == '-' {
        without_hyphens(s.subrange(1, s.len() as int))
    } else {
        s
    }
}

/// The value that the filter gives to the key, if it is `key=value`, with
/// or without hyphens before the key.
pub open spec fn filter_value(filter: Seq<char>, key: Seq<char>) -> Option<Seq<char>> {
    let i = find_char(filter, 0, '=');
    if i < filter.len() && without_hyphens(filter.subrange(0, i)) == key {
        Some(filter.subrange(i + 1, filter.len() as int))
    } else {
        None
    }
}

/// The value that the last of the first `k` filters gives to the key.
pub open spec fn last_filter(filters: Seq<Seq<char>>, key: Seq<char>, k: int) -> Option<Seq<char>>
    decreases k,
{
    if k <= 0 || k > filters.len() {
        None
    } else {
        match filter_value(filters[k - 1], key) {
            Some(v) => Some(v),
            None => last_filter(filters, key, k - 1),
        }
    }
}

fn read_filter(filter: &str, key: &str) -> (r: Option<String>)
    ensures
        opt_text(r) == filter_value(filter@, key@),
{
    let f = to_chars(filter);
    let i = find(f.as_slice(), 0, '=');
    if i >= f.len() {
        return None;
    }
    let mut from: usize = 0;
    assert(f@.subrange(0, i as int).subrange(0, i as int) =~= f@.subrange(0, i as int));
    while from < i && f[from] == '-'
        invariant
            from <= i < f@.len(),
            without_hyphens(f@.subrange(0, i as int)) == without_hyphens(
                f@.subrange(from as int, i as int),
            ),
        decreases i - from,
    {
        proof {
            let s = f@.subrange(from as int, i as int);
            assert(s.subrange(1, s.len() as int) =~= f@.subrange(from + 1, i as int));
        }
        from += 1;
    }
    let k = to_chars(key);
    if crate::text::chars_eq(slice_subrange(f.as_slice(), from, i), k.as_slice()) {
        Some(from_chars(slice_subrange(f.as_slice(), i + 1, f.len())))
    } else {
        None
    }
}

/// Reads the filters of a task query: the status and the due date that
/// the filters `status=...` and `due=...` give; of several, the last.
pub fn task_filters(filters: &Vec<String>) -> (r: (Option<String>, Option<String>))
    ensures
        opt_text(r.0) == last_filter(texts(filters@), "status"@, filters@.len() as int),
        opt_text(r.1) == last_filter(texts(filters@), "due"@, filters@.len() as int),
{
    let mut status: Option<String> = None;
    let mut due: Option<String> = None;
    let mut k: usize = 0;
    while k < filters.len()
        invariant
            k <= filters.len(),
            opt_text(status) == last_filter(texts(filters@), "status"@, k as int),
            opt_text(due) == last_filter(texts(filters@), "due"@, k as int),
        decreases filters.len() - k,
    {
        assert(texts(filters@)[k as int] == filters@[k as int]@);
        match read_filter(filters[k].as_str(), "status") {
            Some(v) => {
                status = Some(v);
            },
            None => {},
        }
        match read_filter(filters[k].as_str(), "due") {
            Some(v) => {
                due = Some(v);
            },
            None => {},
        }
        k += 1;
    }
    (status, due)
}

/// The sign of the status of a task.
pub fn status_icon(status: &str) -> (r: &'static str)
    ensures
        r@ == if status@ == "todo"@ {
            "○"@
        } else if status@ == "in_progress"@ {
            "◐"@
        } else if status@ == "done"@ {
            "●"@
        } else {
            "?"@
        },
{
    if str_eq(status, "todo") {
        "○"
    } else if str_eq(status, "in_progress") {
        "◐"
    } else if str_eq(status, "done") {
        "●"
    } else {
        "?"
    }
}

/// The escape sequence that colours a task of a priority: red for `high`,
/// grey for `low`, none for any other.
pub fn priority_color(priority: &str) -> (r: &'static str)
    ensures
        r@ == if priority@ == "high"@ {
            "\x1b[31m"@
        } else if priority@ == "low"@ {
            "\x1b[90m"@
        } else {
            ""@
        },
{
    if str_eq(priority, "high") {
        "\x1b[31m"
    } else if str_eq(priority, "low") {
        "\x1b[90m"
    } else {
        ""
    }
}

/// The query that finds tasks.
pub open spec fn tasks_query(status: Option<Seq<char>>, include_done: bool) -> Seq<char> {
    let select =
        "SELECT t.id, t.content, t.fields, t.line_number, t.file_path, t.parent_object_id FROM traits t WHERE t.trait_type = 'task'"@;
    let open = if include_done {
        Seq::empty()
    } else {
        " AND (json_extract(t.fields, '$.status') IS NULL OR json_extract(t.fields, '$.status') != 'done')"@
    };
    let with_status = match status {
        Some(s) => " AND json_extract(t.fields, '$.status') = '"@ + s + "'"@,
        None => Seq::empty(),
    };
    select + open + with_status + " ORDER BY json_extract(t.fields, '$.due') ASC"@
}

/// Writes the query that finds tasks: all tasks, or those that are not
/// done; of the given status, if one is given; in the order of their due
/// dates.
pub fn build_tasks_query(status: Option<&str>, include_done: bool) -> (r: String)
    ensures
        r@ == tasks_query(
            match status {
                Some(s) => Some(s@),
                None => None,
            },
            include_done,
        ),
{
    let mut sql = String::from_str(
        "SELECT t.id, t.content, t.fields, t.line_number, t.file_path, t.parent_object_id FROM traits t WHERE t.trait_type = 'task'",
    );
    if !include_done {
        sql.append(
            " AND (json_extract(t.fields, '$.status') IS NULL OR json_extract(t.fields, '$.status') != 'done')",
        );
    }
    match status {
        Some(s) => {
            sql.append(" AND json_extract(t.fields, '$.status') = '");
            sql.append(s);
            sql.append("'");
        },
        None => {},
    }
    sql.append(" ORDER BY json_extract(t.fields, '$.due') ASC");
    proof {
        assert(sql@ =~= tasks_query(
            match status {
                Some(s) => Some(s@),
                None => None,
            },
            include_done,
        ));
    }
    sql
}

/// The pattern that finds the references to a target by the end of their
/// paths.
pub fn backlink_pattern(target: &str) -> (r: String)
    ensures
        r@ == "%/"@ + target@,
{
    String::from_str("%/").concat(target)
}

/// The identifier of the trait at position `index` of a file in the index.
pub fn trait_id(file_path: &str, index: usize) -> (r: String)
    ensures
        r@ == file_path@ + ":trait:"@ + decimal(index as nat),
{
    let d = decimal_chars(index);
    let number = from_chars(d.as_slice());
    String::from_str(file_path).concat(":trait:").concat(number.as_str())
}

} // verus!
