//! Validation of fields against the definitions of a schema.

use vstd::prelude::*;
use vstd::string::StringExecFns;
use crate::schema::{FieldDefinition, FieldType, NamedField, Schema};
use crate::text::{str_eq, texts};
use crate::value::{value_views, Field, FieldMap, FieldValue, ValueModel};

verus! {

// ---------------------------------------------------------------------------
// Dates, as chrono reads them
// ---------------------------------------------------------------------------

/// Whether `chrono` reads `text` as a date in the given format.
pub uninterp spec fn date_parses(text: Seq<char>, format: Seq<char>) -> bool;

/// Whether `chrono` reads `text` as a date and time in the given format.
pub uninterp spec fn datetime_parses(text: Seq<char>, format: Seq<char>) -> bool;

/// Whether `chrono` reads `text` as a date and time of RFC 3339.
pub uninterp spec fn rfc3339_parses(text: Seq<char>) -> bool;

/// Whether a text is a date in a format.
///
/// Trusted: calls `chrono::NaiveDate::parse_from_str` and says whether it
/// succeeded, which depends on its two arguments alone.
#[verifier::external_body]
fn reads_date(text: &str, format: &str) -> (r: bool)
    ensures
        r == date_parses(text@, format@),
{
    chrono::NaiveDate::parse_from_str(text, format).is_ok()
}

/// Whether a text is a date and time in a format.
///
/// Trusted: calls `chrono::NaiveDateTime::parse_from_str` and says whether
/// it succeeded, which depends on its two arguments alone.
#[verifier::external_body]
fn reads_datetime(text: &str, format: &str) -> (r: bool)
    ensures
        r == datetime_parses(text@, format@),
{
    chrono::NaiveDateTime::parse_from_str(text, format).is_ok()
}

/// Whether a text is a date and time of RFC 3339.
///
/// Trusted: calls `chrono::DateTime::parse_from_rfc3339` and says whether it
/// succeeded, which depends on its argument alone.
#[verifier::external_body]
fn reads_rfc3339(text: &str) -> (r: bool)
    ensures
        r == rfc3339_parses(text@),
{
    chrono::DateTime::parse_from_rfc3339(text).is_ok()
}

/// Whether a string stands for a date: `YYYY-MM-DD`, of the calendar.
pub open spec fn is_date_text(s: Seq<char>) -> bool {
    date_parses(s, "%Y-%m-%d"@)
}

/// Whether a string stands for a date and time: of RFC 3339, or a date, `T`
/// and a time with or without seconds.
pub open spec fn is_datetime_text(s: Seq<char>) -> bool {
    rfc3339_parses(s) || datetime_parses(s, "%Y-%m-%dT%H:%M"@) || datetime_parses(
        s,
        "%Y-%m-%dT%H:%M:%S"@,
    )
}

// ---------------------------------------------------------------------------
// Problems
// ---------------------------------------------------------------------------

/// How a number lies to the bounds of its definition. The caller compares
/// the numbers.
#[derive(Debug, Clone, Copy, PartialEq, Eq, Structural)]
pub enum RangeCheck {
    /// No bound is broken.
    Within,
    /// The number is below the minimum.
    BelowMinimum,
    /// The number is not below the minimum, and above the maximum.
    AboveMaximum,
}

/// What is wrong with the value of a field.
#[derive(Debug, Clone, Copy, PartialEq, Eq, Structural)]
pub enum Problem {
    ExpectedString,
    ExpectedStrings,
    BelowMinimum,
    AboveMaximum,
    ExpectedNumber,
    ExpectedNumbers,
    InvalidDate,
    ExpectedDate,
    ExpectedDates,
    InvalidDatetime,
    ExpectedDatetime,
    InvalidEnumValue,
    MissingEnumValues,
    ExpectedEnum,
    ExpectedBool,
    ExpectedRef,
    ExpectedRefs,
}

/// The kinds of values.
#[derive(Debug, Clone, Copy, PartialEq, Eq, Structural)]
pub enum Kind {
    String,
    Number,
    Bool,
    Date,
    Datetime,
    Ref,
    Array,
    Null,
}

/// The kind of a value.
pub open spec fn kind_of(v: ValueModel) -> Kind {
    match v {
        ValueModel::String(_) => Kind::String,
        ValueModel::Number(_) => Kind::Number,
        ValueModel::Bool(_) => Kind::Bool,
        ValueModel::Date(_) => Kind::Date,
        ValueModel::Datetime(_) => Kind::Datetime,
        ValueModel::Ref(_) => Kind::Ref,
        ValueModel::Array(_) => Kind::Array,
        ValueModel::Null => Kind::Null,
    }
}

/// Whether an item may stand in an array of references: a reference or a
/// string.
pub open spec fn fits(kind: Kind, item: Kind) -> bool {
    item == kind || (kind == Kind::Ref && item == Kind::String)
}

/// Whether the value is an array whose items all fit the kind.
pub open spec fn is_array_of(v: ValueModel, kind: Kind) -> bool {
    v matches ValueModel::Array(items) && forall|i: int|
        0 <= i < items.len() ==> fits(kind, kind_of(#[trigger] items[i]))
}

/// What is wrong with a value for a field of the given type, if anything.
/// `values` are the values of an enum; `range` says how a number lies to its
/// bounds; `date_ok` and `datetime_ok` say whether a string stands for a date
/// or for a date and time.
pub open spec fn problem_of(
    field_type: FieldType,
    value: ValueModel,
    values: Option<Seq<Seq<char>>>,
    range: RangeCheck,
    date_ok: bool,
    datetime_ok: bool,
) -> Option<Problem> {
    match field_type {
        FieldType::String => if value is String {
            None
        } else {
            Some(Problem::ExpectedString)
        },
        FieldType::StringArray => if is_array_of(value, Kind::String) {
            None
        } else {
            Some(Problem::ExpectedStrings)
        },
        FieldType::Number => if value is Number {
            match range {
                RangeCheck::Within => None,
                RangeCheck::BelowMinimum => Some(Problem::BelowMinimum),
                RangeCheck::AboveMaximum => Some(Problem::AboveMaximum),
            }
        } else {
            Some(Problem::ExpectedNumber)
        },
        FieldType::NumberArray => if is_array_of(value, Kind::Number) {
            None
        } else {
            Some(Problem::ExpectedNumbers)
        },
        FieldType::Date => if value is Date {
            None
        } else if value is String {
            if date_ok {
                None
            } else {
                Some(Problem::InvalidDate)
            }
        } else {
            Some(Problem::ExpectedDate)
        },
        FieldType::DateArray => if is_array_of(value, Kind::Date) {
            None
        } else {
            Some(Problem::ExpectedDates)
        },
        FieldType::Datetime => if value is Datetime {
            None
        } else if value is String {
            if datetime_ok {
                None
            } else {
                Some(Problem::InvalidDatetime)
            }
        } else {
            Some(Problem::ExpectedDatetime)
        },
        FieldType::Enum => match value {
            ValueModel::String(s) => match values {
                Some(vs) => if vs.contains(s) {
                    None
                } else {
                    Some(Problem::InvalidEnumValue)
                },
                None => Some(Problem::MissingEnumValues),
            },
            _ => Some(Problem::ExpectedEnum),
        },
        FieldType::Bool => if value is Bool {
            None
        } else {
            Some(Problem::ExpectedBool)
        },
        FieldType::Ref => if value is Ref || value is String {
            None
        } else {
            Some(Problem::ExpectedRef)
        },
        FieldType::RefArray => if is_array_of(value, Kind::Ref) {
            None
        } else {
            Some(Problem::ExpectedRefs)
        },
    }
}

/// The values of an enum, as texts.
pub open spec fn enum_values(def: FieldDefinition) -> Option<Seq<Seq<char>>> {
    match def.values {
        Some(v) => Some(texts(v@)),
        None => None,
    }
}

/// The text of a string value; empty for any other value.
pub open spec fn string_of(v: ValueModel) -> Seq<char> {
    match v {
        ValueModel::String(s) => s,
        _ => Seq::empty(),
    }
}

/// What is wrong with a value for a field of a definition, if anything.
pub open spec fn field_problem(value: ValueModel, def: FieldDefinition, range: RangeCheck) -> Option<
    Problem,
> {
    problem_of(
        def.field_type,
        value,
        enum_values(def),
        range,
        is_date_text(string_of(value)),
        is_datetime_text(string_of(value)),
    )
}

fn kind(v: &FieldValue) -> (r: Kind)
    ensures
        r == kind_of(v@),
{
    match v {
        FieldValue::String(_) => Kind::String,
        FieldValue::Number(_) => Kind::Number,
        FieldValue::Bool(_) => Kind::Bool,
        FieldValue::Date(_) => Kind::Date,
        FieldValue::Datetime(_) => Kind::Datetime,
        FieldValue::Ref(_) => Kind::Ref,
        FieldValue::Array(_) => Kind::Array,
        FieldValue::Null => Kind::Null,
    }
}

fn array_of(v: &FieldValue, k: Kind) -> (r: bool)
    ensures
        r == is_array_of(v@, k),
{
    match v {
        FieldValue::Array(items) => {
            let ghost models = value_views(items@);
            let mut i: usize = 0;
            while i < items.len()
                invariant
                    i <= items.len(),
                    models == value_views(items@),
                    v@ == ValueModel::Array(models),
                    forall|j: int| 0 <= j < i ==> fits(k, kind_of(#[trigger] models[j])),
                decreases items.len() - i,
            {
                assert(models[i as int] == items@[i as int]@);
                let item = kind(&items[i]);
                if !(item == k || (k == Kind::Ref && item == Kind::String)) {
                    assert(!fits(k, kind_of(models[i as int])));
                    return false;
                }
                i += 1;
            }
            true
        },
        _ => false,
    }
}

fn holds_text(values: &Vec<String>, s: &str) -> (r: bool)
    ensures
        r == texts(values@).contains(s@),
{
    let mut i: usize = 0;
    while i < values.len()
        invariant
            i <= values.len(),
            forall|k: int| 0 <= k < i ==> texts(values@)[k] != s@,
        decreases values.len() - i,
    {
        if str_eq(values[i].as_str(), s) {
            assert(texts(values@)[i as int] == s@);
            return true;
        }
        i += 1;
    }
    false
}

/// Finds what is wrong with a value for a field of the given type, when the
/// date readers have said what they say of the value.
pub fn find_problem(
    field_type: &FieldType,
    value: &FieldValue,
    values: &Option<Vec<String>>,
    range: RangeCheck,
    date_ok: bool,
    datetime_ok: bool,
) -> (r: Option<Problem>)
    ensures
        r == problem_of(
            *field_type,
            value@,
            match *values {
                Some(v) => Some(texts(v@)),
                None => None,
            },
            range,
            date_ok,
            datetime_ok,
        ),
{
    let k = kind(value);
    match field_type {
        FieldType::String => if k == Kind::String {
            None
        } else {
            Some(Problem::ExpectedString)
        },
        FieldType::StringArray => if array_of(value, Kind::String) {
            None
        } else {
            Some(Problem::ExpectedStrings)
        },
        FieldType::Number => if k == Kind::Number {
            match range {
                RangeCheck::Within => None,
                RangeCheck::BelowMinimum => Some(Problem::BelowMinimum),
                RangeCheck::AboveMaximum => Some(Problem::AboveMaximum),
            }
        } else {
            Some(Problem::ExpectedNumber)
        },
        FieldType::NumberArray => if array_of(value, Kind::Number) {
            None
        } else {
            Some(Problem::ExpectedNumbers)
        },
        FieldType::Date => if k == Kind::Date {
            None
        } else if k == Kind::String {
            if date_ok {
                None
            } else {
                Some(Problem::InvalidDate)
            }
        } else {
            Some(Problem::ExpectedDate)
        },
        FieldType::DateArray => if array_of(value, Kind::Date) {
            None
        } else {
            Some(Problem::ExpectedDates)
        },
        FieldType::Datetime => if k == Kind::Datetime {
            None
        } else if k == Kind::String {
            if datetime_ok {
                None
            } else {
                Some(Problem::InvalidDatetime)
            }
        } else {
            Some(Problem::ExpectedDatetime)
        },
        FieldType::Enum => match value {
            FieldValue::String(s) => match values {
                Some(vs) => if holds_text(vs, s.as_str()) {
                    None
                } else {
                    Some(Problem::InvalidEnumValue)
                },
                None => Some(Problem::MissingEnumValues),
            },
            _ => Some(Problem::ExpectedEnum),
        },
        FieldType::Bool => if k == Kind::Bool {
            None
        } else {
            Some(Problem::ExpectedBool)
        },
        FieldType::Ref => if k == Kind::Ref || k == Kind::String {
            None
        } else {
            Some(Problem::ExpectedRef)
        },
        FieldType::RefArray => if array_of(value, Kind::Ref) {
            None
        } else {
            Some(Problem::ExpectedRefs)
        },
    }
}

/// Validates the value of a field against its definition. `range` says how
/// a number lies to the bounds of the definition.
pub fn validate_field_value(value: &FieldValue, def: &FieldDefinition, range: RangeCheck) -> (r:
    Result<(), Problem>)
    ensures
        match r {
            Ok(_) => field_problem(value@, *def, range) is None,
            Err(p) => field_problem(value@, *def, range) == Some(p),
        },
{
    let mut date_ok = false;
    let mut datetime_ok = false;
    match value {
        FieldValue::String(s) => {
            match def.field_type {
                FieldType::Date => {
                    date_ok = reads_date(s.as_str(), "%Y-%m-%d");
                },
                FieldType::Datetime => {
                    datetime_ok = reads_rfc3339(s.as_str()) || reads_datetime(
                        s.as_str(),
                        "%Y-%m-%dT%H:%M",
                    ) || reads_datetime(s.as_str(), "%Y-%m-%dT%H:%M:%S");
                },
                _ => {},
            }
        },
        _ => {},
    }
    match find_problem(&def.field_type, value, &def.values, range, date_ok, datetime_ok) {
        Some(p) => Err(p),
        None => Ok(()),
    }
}

// ---------------------------------------------------------------------------
// Messages
// ---------------------------------------------------------------------------

/// The values of an enum, each between quotes, with `, ` between them.
pub open spec fn listed(values: Seq<Seq<char>>, k: int) -> Seq<char>
    decreases k,
{
    if k <= 0 || k > values.len() {
        Seq::empty()
    } else if k == 1 {
        "\""@ + values[0] + "\""@
    } else {
        listed(values, k - 1) + ", \""@ + values[k - 1] + "\""@
    }
}

/// The message of a problem.
pub open spec fn message_of(p: Problem, value: ValueModel, def: FieldDefinition) -> Seq<char> {
    match p {
        Problem::ExpectedString => "Expected string"@,
        Problem::ExpectedStrings => "Expected array of strings"@,
        Problem::BelowMinimum => "Value "@ + number_of(value) + " is below minimum "@
            + crate::text::opt_text(def.min).unwrap_or(Seq::empty()),
        Problem::AboveMaximum => "Value "@ + number_of(value) + " is above maximum "@
            + crate::text::opt_text(def.max).unwrap_or(Seq::empty()),
        Problem::ExpectedNumber => "Expected number"@,
        Problem::ExpectedNumbers => "Expected array of numbers"@,
        Problem::InvalidDate => "Invalid date format, expected YYYY-MM-DD"@,
        Problem::ExpectedDate => "Expected date"@,
        Problem::ExpectedDates => "Expected array of dates"@,
        Problem::InvalidDatetime => "Invalid datetime format"@,
        Problem::ExpectedDatetime => "Expected datetime"@,
        Problem::InvalidEnumValue => "Invalid enum value '"@ + string_of(value)
            + "', expected one of: ["@ + listed(
            enum_values(def).unwrap_or(Seq::empty()),
            enum_values(def).unwrap_or(Seq::empty()).len() as int,
        ) + "]"@,
        Problem::MissingEnumValues => "Enum type missing 'values' definition"@,
        Problem::ExpectedEnum => "Expected enum value (string)"@,
        Problem::ExpectedBool => "Expected boolean"@,
        Problem::ExpectedRef => "Expected reference"@,
        Problem::ExpectedRefs => "Expected array of references"@,
    }
}

/// The numeral of a number value; empty for any other value.
pub open spec fn number_of(v: ValueModel) -> Seq<char> {
    match v {
        ValueModel::Number(n) => n,
        _ => Seq::empty(),
    }
}

fn text_or_empty(o: &Option<String>) -> (r: String)
    ensures
        r@ == crate::text::opt_text(*o).unwrap_or(Seq::empty()),
{
    match o {
        Some(s) => s.clone(),
        None => String::new(),
    }
}

fn list_values(values: &Option<Vec<String>>) -> (r: String)
    ensures
        r@ == listed(
            (match *values {
                Some(v) => Some(texts(v@)),
                None => None,
            }).unwrap_or(Seq::empty()),
            (match *values {
                Some(v) => Some(texts(v@)),
                None => None,
            }).unwrap_or(Seq::empty()).len() as int,
        ),
{
    let mut r = String::new();
    match values {
        Some(v) => {
            let ghost all = texts(v@);
            let mut i: usize = 0;
            while i < v.len()
                invariant
                    i <= v.len(),
                    all == texts(v@),
                    r@ == listed(all, i as int),
                decreases v.len() - i,
            {
                assert(all[i as int] == v@[i as int]@);
                if i == 0 {
                    r.append("\"");
                } else {
                    r.append(", \"");
                }
                r.append(v[i].as_str());
                r.append("\"");
                proof {
                    if i == 0 {
                        assert(r@ =~= listed(all, 1));
                    } else {
                        assert(r@ =~= listed(all, i + 1));
                    }
                }
                i += 1;
            }
        },
        None => {},
    }
    r
}

/// Writes the message of a problem.
pub fn problem_message(p: Problem, value: &FieldValue, def: &FieldDefinition) -> (r: String)
    ensures
        r@ == message_of(p, value@, *def),
{
    match p {
        Problem::ExpectedString => String::from_str("Expected string"),
        Problem::ExpectedStrings => String::from_str("Expected array of strings"),
        Problem::BelowMinimum => {
            let n = match value {
                FieldValue::Number(n) => n.clone(),
                _ => String::new(),
            };
            String::from_str("Value ").concat(n.as_str()).concat(" is below minimum ").concat(
                text_or_empty(&def.min).as_str(),
            )
        },
        Problem::AboveMaximum => {
            let n = match value {
                FieldValue::Number(n) => n.clone(),
                _ => String::new(),
            };
            String::from_str("Value ").concat(n.as_str()).concat(" is above maximum ").concat(
                text_or_empty(&def.max).as_str(),
            )
        },
        Problem::ExpectedNumber => String::from_str("Expected number"),
        Problem::ExpectedNumbers => String::from_str("Expected array of numbers"),
        Problem::InvalidDate => String::from_str("Invalid date format, expected YYYY-MM-DD"),
        Problem::ExpectedDate => String::from_str("Expected date"),
        Problem::ExpectedDates => String::from_str("Expected array of dates"),
        Problem::InvalidDatetime => String::from_str("Invalid datetime format"),
        Problem::ExpectedDatetime => String::from_str("Expected datetime"),
        Problem::InvalidEnumValue => {
            let s = match value {
                FieldValue::String(s) => s.clone(),
                _ => String::new(),
            };
            String::from_str("Invalid enum value '").concat(s.as_str()).concat(
                "', expected one of: [",
            ).concat(list_values(&def.values).as_str()).concat("]")
        },
        Problem::MissingEnumValues => String::from_str("Enum type missing 'values' definition"),
        Problem::ExpectedEnum => String::from_str("Expected enum value (string)"),
        Problem::ExpectedBool => String::from_str("Expected boolean"),
        Problem::ExpectedRef => String::from_str("Expected reference"),
        Problem::ExpectedRefs => String::from_str("Expected array of references"),
    }
}

// ---------------------------------------------------------------------------
// Fields
// ---------------------------------------------------------------------------

/// A field that does not fit its definition.
#[derive(Debug, Clone)]
pub struct ValidationError {
    /// The name of the field.
    pub field: String,
    /// What is wrong with it.
    pub message: String,
}

impl ValidationError {
    /// The error as one line of text.
    pub fn to_text(&self) -> (r: String)
        ensures
            r@ == "Field '"@ + self.field@ + "': "@ + self.message@,
    {
        String::from_str("Field '").concat(self.field.as_str()).concat("': ").concat(
            self.message.as_str(),
        )
    }
}

/// An error, as a mathematical object.
pub struct ErrorModel {
    pub field: Seq<char>,
    pub message: Seq<char>,
}

impl View for ValidationError {
    type V = ErrorModel;

    open spec fn view(&self) -> ErrorModel {
        ErrorModel { field: self.field@, message: self.message@ }
    }
}

/// The models of a sequence of errors.
pub open spec fn error_views(v: Seq<ValidationError>) -> Seq<ErrorModel> {
    v.map_values(|e: ValidationError| e@)
}

/// Whether a field is reserved: `id`, `type` and `tags` are not validated.
pub open spec fn is_reserved(name: Seq<char>) -> bool {
    name == "id"@ || name == "type"@ || name == "tags"@
}

/// The index of the first definition named `name` at or after `i`, or the
/// number of definitions.
pub open spec fn definition_index(defs: Seq<NamedField>, name: Seq<char>, i: int) -> int
    decreases defs.len() - i,
{
    if 0 <= i < defs.len() && defs[i].name@ != name {
        definition_index(defs, name, i + 1)
    } else if i > defs.len() {
        defs.len() as int
    } else {
        i
    }
}

/// The errors for the required fields among the first `k` definitions that
/// have no value and no default.
pub open spec fn missing_errors(
    defs: Seq<NamedField>,
    fields: Map<Seq<char>, ValueModel>,
    k: int,
) -> Seq<ErrorModel>
    decreases k,
{
    if k <= 0 || k > defs.len() {
        Seq::empty()
    } else {
        let d = defs[k - 1];
        if d.definition.required && !fields.dom().contains(d.name@) && d.definition.default
            is None {
            missing_errors(defs, fields, k - 1).push(
                ErrorModel { field: d.name@, message: "Required field is missing"@ },
            )
        } else {
            missing_errors(defs, fields, k - 1)
        }
    }
}

/// The error of one field, if it has a definition and does not fit it.
pub open spec fn entry_error(entry: Field, defs: Seq<NamedField>, range: RangeCheck) -> Option<
    ErrorModel,
> {
    let i = definition_index(defs, entry.name@, 0);
    if is_reserved(entry.name@) || i >= defs.len() {
        None
    } else {
        match field_problem(entry.value@, defs[i].definition, range) {
            Some(p) => Some(
                ErrorModel {
                    field: entry.name@,
                    message: message_of(p, entry.value@, defs[i].definition),
                },
            ),
            None => None,
        }
    }
}

/// The errors of the first `k` fields.
pub open spec fn value_errors(
    entries: Seq<Field>,
    defs: Seq<NamedField>,
    ranges: Seq<RangeCheck>,
    k: int,
) -> Seq<ErrorModel>
    decreases k,
{
    if k <= 0 || k > entries.len() || k > ranges.len() {
        Seq::empty()
    } else {
        match entry_error(entries[k - 1], defs, ranges[k - 1]) {
            Some(e) => value_errors(entries, defs, ranges, k - 1).push(e),
            None => value_errors(entries, defs, ranges, k - 1),
        }
    }
}

fn find_definition(defs: &Vec<NamedField>, name: &str) -> (r: usize)
    ensures
        r == definition_index(defs@, name@, 0),
        r <= defs@.len(),
{
    let mut i: usize = 0;
    while i < defs.len()
        invariant
            i <= defs@.len(),
            definition_index(defs@, name@, 0) == definition_index(defs@, name@, i as int),
        decreases defs@.len() - i,
    {
        if str_eq(defs[i].name.as_str(), name) {
            return i;
        }
        i += 1;
    }
    i
}

/// Validates fields against the definitions of a type: a required field
/// without value and default is an error, and so is a value that does not
/// fit the definition of its field. A field without definition is in order.
/// `ranges` holds for each field, in the order of the fields, how its number
/// lies to the bounds of its definition.
pub fn validate_fields(
    fields: &FieldMap,
    field_defs: &Vec<NamedField>,
    schema: &Schema,
    ranges: &Vec<RangeCheck>,
) -> (r: Vec<ValidationError>)
    requires
        ranges@.len() == fields.entries().len(),
    ensures
        error_views(r@) == missing_errors(field_defs@, fields@, field_defs@.len() as int)
            + value_errors(fields.entries(), field_defs@, ranges@, ranges@.len() as int),
{
    let mut errors: Vec<ValidationError> = Vec::new();
    let mut k: usize = 0;
    assert(error_views(errors@) =~= Seq::<ErrorModel>::empty());
    while k < field_defs.len()
        invariant
            k <= field_defs@.len(),
            error_views(errors@) == missing_errors(field_defs@, fields@, k as int),
        decreases field_defs@.len() - k,
    {
        let d = &field_defs[k];
        if d.definition.required && !fields.contains_key(d.name.as_str())
            && d.definition.default.is_none() {
            let ghost before = errors@;
            let e = ValidationError {
                field: d.name.clone(),
                message: String::from_str("Required field is missing"),
            };
            errors.push(e);
            proof {
                assert(error_views(errors@) =~= error_views(before).push(e@));
            }
        }
        k += 1;
    }
    let ghost missing = error_views(errors@);
    let ghost entries = fields.entries();
    let count = fields.len();
    let mut i: usize = 0;
    while i < count
        invariant
            i <= count,
            count == entries.len(),
            entries == fields.entries(),
            ranges@.len() == count,
            error_views(errors@) == missing + value_errors(entries, field_defs@, ranges@, i as int),
        decreases count - i,
    {
        let entry = fields.entry(i);
        let name = entry.name.as_str();
        let reserved = str_eq(name, "id") || str_eq(name, "type") || str_eq(name, "tags");
        if !reserved {
            let at = find_definition(field_defs, name);
            if at < field_defs.len() {
                let def = &field_defs[at].definition;
                match validate_field_value(&entry.value, def, ranges[i]) {
                    Err(p) => {
                        let ghost before = errors@;
                        let e = ValidationError {
                            field: entry.name.clone(),
                            message: problem_message(p, &entry.value, def),
                        };
                        errors.push(e);
                        proof {
                            assert(error_views(errors@) =~= error_views(before).push(e@));
                        }
                    },
                    Ok(_) => {},
                }
            }
        }
        proof {
            assert(error_views(errors@) =~= missing + value_errors(
                entries,
                field_defs@,
                ranges@,
                i + 1,
            ));
        }
        i += 1;
    }
    errors
}

} // verus!
