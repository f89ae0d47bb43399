//! The schema: the types and traits that a vault defines.

use vstd::prelude::*;
use vstd::string::StringExecFns;
use crate::text::{opt_text, str_eq};
use crate::value::FieldValue;

verus! {

/// The type of a field.
#[derive(Debug, Clone, PartialEq)]
pub enum FieldType {
    String,
    StringArray,
    Number,
    NumberArray,
    Date,
    DateArray,
    Datetime,
    Enum,
    Bool,
    Ref,
    RefArray,
}

/// The definition of a field of a type or trait.
#[derive(Debug, Clone)]
pub struct FieldDefinition {
    /// The type of the field.
    pub field_type: FieldType,
    /// Whether the field must stand.
    pub required: bool,
    /// The default, as JSON text.
    pub default: Option<String>,
    /// For an enum: the values that it may have.
    pub values: Option<Vec<String>>,
    /// For a reference: the name of the type of the target.
    pub target: Option<String>,
    /// For a number: the numeral of the least value.
    pub min: Option<String>,
    /// For a number: the numeral of the greatest value.
    pub max: Option<String>,
    /// How the value is derived, such as `from_filename`.
    pub derived: Option<String>,
    /// For a trait: whether the field may stand without its name.
    pub positional: bool,
}

/// A field definition under its name.
#[derive(Debug, Clone)]
pub struct NamedField {
    pub name: String,
    pub definition: FieldDefinition,
}

/// An attribute that the frontmatter must have, for a type to be detected.
#[derive(Debug, Clone)]
pub struct Attribute {
    pub name: String,
    /// The value, as JSON text.
    pub value: String,
}

/// The rules by which the type of a file is detected.
#[derive(Debug, Clone)]
pub struct DetectionRules {
    /// A pattern for the path of the file.
    pub path_pattern: Option<String>,
    /// The attributes that the frontmatter must have.
    pub attribute: Option<Vec<Attribute>>,
}

/// The definition of a type.
#[derive(Debug, Clone)]
pub struct TypeDefinition {
    pub fields: Vec<NamedField>,
    pub detect: Option<DetectionRules>,
}

/// How a trait shows on the command line.
#[derive(Debug, Clone)]
pub struct TraitCliConfig {
    /// The name of the command, such as `tasks`.
    pub alias: Option<String>,
    /// The query of the command.
    pub default_query: Option<String>,
}

/// The definition of a trait.
#[derive(Debug, Clone)]
pub struct TraitDefinition {
    pub fields: Vec<NamedField>,
    pub cli: Option<TraitCliConfig>,
}

/// A type definition under its name.
#[derive(Debug, Clone)]
pub struct NamedType {
    pub name: String,
    pub definition: TypeDefinition,
}

/// A trait definition under its name.
#[derive(Debug, Clone)]
pub struct NamedTrait {
    pub name: String,
    pub definition: TraitDefinition,
}

/// The schema of a vault. Of several definitions of one name, the first
/// counts.
#[derive(Debug, Clone)]
pub struct Schema {
    pub types: Vec<NamedType>,
    pub traits: Vec<NamedTrait>,
}

/// Whether the types hold one named `name`.
pub open spec fn has_type(types: Seq<NamedType>, name: Seq<char>) -> bool {
    exists|i: int| 0 <= i < types.len() && (#[trigger] types[i]).name@ == name
}

/// The index of the first type named `name` at or after `i`, or the number
/// of types.
pub open spec fn type_index(types: Seq<NamedType>, name: Seq<char>, i: int) -> int
    decreases types.len() - i,
{
    if 0 <= i < types.len() && types[i].name@ != name {
        type_index(types, name, i + 1)
    } else if i > types.len() {
        types.len() as int
    } else {
        i
    }
}

/// The first type named `name` is a type named `name`, if there is one.
pub proof fn lemma_type_index(types: Seq<NamedType>, name: Seq<char>, i: int)
    requires
        0 <= i <= types.len(),
    ensures
        i <= type_index(types, name, i) <= types.len(),
        type_index(types, name, i) < types.len() ==> types[type_index(types, name, i)].name@
            == name,
        forall|k: int| i <= k < type_index(types, name, i) ==> (#[trigger] types[k]).name@ != name,
    decreases types.len() - i,
{
    if i < types.len() && types[i].name@ != name {
        lemma_type_index(types, name, i + 1);
    }
}

/// The index of the first trait named `name` at or after `i`, or the number
/// of traits.
pub open spec fn trait_index(traits: Seq<NamedTrait>, name: Seq<char>, i: int) -> int
    decreases traits.len() - i,
{
    if 0 <= i < traits.len() && traits[i].name@ != name {
        trait_index(traits, name, i + 1)
    } else if i > traits.len() {
        traits.len() as int
    } else {
        i
    }
}

impl TypeDefinition {
    /// A type without fields and rules.
    pub fn empty() -> (r: TypeDefinition)
        ensures
            r.fields@.len() == 0,
            r.detect is None,
    {
        TypeDefinition { fields: Vec::new(), detect: None }
    }
}

impl Default for Schema {
    /// The schema of a vault that defines nothing: it has the type `page`.
    fn default() -> (r: Schema)
        ensures
            r.types@.len() == 1,
            r.types@[0].name@ == "page"@,
            r.types@[0].definition.fields@.len() == 0,
            r.types@[0].definition.detect is None,
            r.traits@.len() == 0,
    {
        let mut types: Vec<NamedType> = Vec::new();
        types.push(NamedType { name: String::from_str("page"), definition: TypeDefinition::empty() });
        Schema { types, traits: Vec::new() }
    }
}

impl Schema {
    /// Whether the schema defines the type `name`.
    pub fn has_type(&self, name: &str) -> (r: bool)
        ensures
            r == has_type(self.types@, name@),
            r == (type_index(self.types@, name@, 0) < self.types@.len()),
    {
        proof {
            lemma_type_index(self.types@, name@, 0);
        }
        self.find_type(name) < self.types.len()
    }

    /// The index of the first type named `name`, or the number of types.
    pub fn find_type(&self, name: &str) -> (r: usize)
        ensures
            r == type_index(self.types@, name@, 0),
            r <= self.types@.len(),
    {
        let mut i: usize = 0;
        while i < self.types.len()
            invariant
                i <= self.types@.len(),
                type_index(self.types@, name@, 0) == type_index(self.types@, name@, i as int),
            decreases self.types@.len() - i,
        {
            if str_eq(self.types[i].name.as_str(), name) {
                return i;
            }
            i += 1;
        }
        i
    }

    /// Whether the schema defines the trait `name`.
    pub fn has_trait(&self, name: &str) -> (r: bool)
        ensures
            r == (trait_index(self.traits@, name@, 0) < self.traits@.len()),
    {
        self.find_trait(name) < self.traits.len()
    }

    /// The index of the first trait named `name`, or the number of traits.
    pub fn find_trait(&self, name: &str) -> (r: usize)
        ensures
            r == trait_index(self.traits@, name@, 0),
            r <= self.traits@.len(),
    {
        let mut i: usize = 0;
        while i < self.traits.len()
            invariant
                i <= self.traits@.len(),
                trait_index(self.traits@, name@, 0) == trait_index(self.traits@, name@, i as int),
            decreases self.traits@.len() - i,
        {
            if str_eq(self.traits[i].name.as_str(), name) {
                return i;
            }
            i += 1;
        }
        i
    }

    /// Completes a schema that was read from a file: it gets the type
    /// `page` if it has none of that name, and its trait `task`, if it has
    /// one without a command, gets the command `tasks`.
    pub fn complete(self) -> (r: Schema)
        ensures
            has_type(r.types@, "page"@),
            has_type(self.types@, "page"@) ==> r.types@ == self.types@,
            !has_type(self.types@, "page"@) ==> r.types@.len() == self.types@.len() + 1
                && r.types@.subrange(0, self.types@.len() as int) == self.types@
                && r.types@.last().name@ == "page"@ && r.types@.last().definition.fields@.len()
                == 0 && r.types@.last().definition.detect is None,
            r.traits@.len() == self.traits@.len(),
            forall|k: int|
                0 <= k < r.traits@.len() && k != trait_index(self.traits@, "task"@, 0) ==> r.traits@[k]
                    == self.traits@[k],
            ({
                let t = trait_index(self.traits@, "task"@, 0);
                t < self.traits@.len() ==> r.traits@[t].name == self.traits@[t].name
                    && r.traits@[t].definition.fields == self.traits@[t].definition.fields && (
                match self.traits@[t].definition.cli {
                    Some(cli) => r.traits@[t].definition.cli == Some(cli),
                    None => r.traits@[t].definition.cli matches Some(cli) && opt_text(cli.alias)
                        == Some("tasks"@) && opt_text(cli.default_query) == Some(
                        "status:todo OR status:in_progress"@,
                    ),
                })
            }),
    {
        let has_page = self.has_type("page");
        let task = self.find_trait("task");
        let Schema { types, traits } = self;
        let mut types = types;
        let mut traits = traits;
        let ghost old_types = types@;
        let ghost old_traits = traits@;
        if !has_page {
            types.push(
                NamedType { name: String::from_str("page"), definition: TypeDefinition::empty() },
            );
            assert(types@.subrange(0, old_types.len() as int) =~= old_types);
            assert(types@[types@.len() - 1].name@ == "page"@);
        }
        if task < traits.len() {
            let needs = traits[task].definition.cli.is_none();
            if needs {
                let mut last = traits.split_off(task);
                let mut rest = last.split_off(1);
                let first = last.pop();
                match first {
                    Some(t) => {
                        let NamedTrait { name, definition } = t;
                        let TraitDefinition { fields, cli } = definition;
                        traits.push(
                            NamedTrait {
                                name,
                                definition: TraitDefinition {
                                    fields,
                                    cli: Some(
                                        TraitCliConfig {
                                            alias: Some(String::from_str("tasks")),
                                            default_query: Some(
                                                String::from_str(
                                                    "status:todo OR status:in_progress",
                                                ),
                                            ),
                                        },
                                    ),
                                },
                            },
                        );
                    },
                    None => {},
                }
                traits.append(&mut rest);
            }
        }
        Schema { types, traits }
    }
}

impl From<String> for FieldValue {
    fn from(s: String) -> (r: FieldValue) {
        FieldValue::String(s)
    }
}

impl vstd::std_specs::convert::FromSpecImpl<String> for FieldValue {
    open spec fn obeys_from_spec() -> bool {
        true
    }

    open spec fn from_spec(s: String) -> FieldValue {
        FieldValue::String(s)
    }
}

impl From<bool> for FieldValue {
    fn from(b: bool) -> (r: FieldValue) {
        FieldValue::Bool(b)
    }
}

impl vstd::std_specs::convert::FromSpecImpl<bool> for FieldValue {
    open spec fn obeys_from_spec() -> bool {
        true
    }

    open spec fn from_spec(b: bool) -> FieldValue {
        FieldValue::Bool(b)
    }
}

} // verus!
