//! Declarations of switches and arguments, parsed arguments, and the
//! user-facing metadata of a command.
use vstd::prelude::*;

use crate::text::{copy_text, copy_texts, owned};

verus! {

/// Whether `token` is `name` or one of `aliases`.
pub open spec fn named(name: Seq<char>, aliases: Seq<Seq<char>>, token: Seq<char>) -> bool {
    name == token || aliases.contains(token)
}

/// Declarative switch (flag) metadata: a `--name` that takes no value.
#[derive(Clone, Debug, PartialEq, Eq)]
pub struct SwitchDefinition {
    /// Canonical switch name, for example: "verbose".
    pub name: String,
    /// Human-readable description for help output.
    pub description: String,
    /// Alternative spellings accepted during parsing.
    pub aliases: Vec<String>,
}

/// A parsed switch is the declaration it matched.
pub type Switch = SwitchDefinition;

/// The value a switch declaration stands for.
pub struct SwitchModel {
    pub name: Seq<char>,
    pub description: Seq<char>,
    pub aliases: Seq<Seq<char>>,
}

impl View for SwitchDefinition {
    type V = SwitchModel;

    open spec fn view(&self) -> SwitchModel {
        SwitchModel {
            name: self.name@,
            description: self.description@,
            aliases: self.aliases.deep_view(),
        }
    }
}

impl DeepView for SwitchDefinition {
    type V = SwitchModel;

    open spec fn deep_view(&self) -> SwitchModel {
        self@
    }
}

impl SwitchDefinition {
    /// Creates a switch declaration without aliases.
    pub fn new(name: &str, description: &str) -> (r: Self)
        ensures
            r.name@ == name@,
            r.description@ == description@,
            r.aliases@.len() == 0,
    {
        SwitchDefinition { name: owned(name), description: owned(description), aliases: Vec::new() }
    }

    /// Replaces the alias spellings of this switch.
    pub fn with_aliases(self, aliases: Vec<String>) -> (r: Self)
        ensures
            r.name == self.name,
            r.description == self.description,
            r.aliases == aliases,
    {
        SwitchDefinition { aliases, ..self }
    }

    /// A copy of this declaration.
    pub fn duplicate(&self) -> (r: Self)
        ensures
            r@ == self@,
    {
        SwitchDefinition {
            name: copy_text(&self.name),
            description: copy_text(&self.description),
            aliases: copy_texts(&self.aliases),
        }
    }
}

/// The kind of value an argument declares.
#[derive(Clone, Copy, Debug, PartialEq, Eq, Structural)]
pub enum ValueType {
    String,
    Bool,
    Float,
    Int,
}

/// Declarative value-taking argument metadata: a `--name <value>`.
#[derive(Clone, Debug, PartialEq, Eq)]
pub struct ArgumentDefinition {
    /// Canonical argument name, for example: "path".
    pub name: String,
    /// Human-readable description for help output.
    pub description: String,
    /// Alternative spellings accepted during parsing.
    pub aliases: Vec<String>,
    /// Whether this argument is required or optional.
    pub required: bool,
    /// The kind of value the argument declares.
    pub value_type: ValueType,
}

/// The value an argument declaration stands for.
pub struct ArgumentDefinitionModel {
    pub name: Seq<char>,
    pub description: Seq<char>,
    pub aliases: Seq<Seq<char>>,
    pub required: bool,
    pub value_type: ValueType,
}

impl View for ArgumentDefinition {
    type V = ArgumentDefinitionModel;

    open spec fn view(&self) -> ArgumentDefinitionModel {
        ArgumentDefinitionModel {
            name: self.name@,
            description: self.description@,
            aliases: self.aliases.deep_view(),
            required: self.required,
            value_type: self.value_type,
        }
    }
}

impl DeepView for ArgumentDefinition {
    type V = ArgumentDefinitionModel;

    open spec fn deep_view(&self) -> ArgumentDefinitionModel {
        self@
    }
}

/// A parsed argument: the canonical name of its declaration and its value.
#[derive(Clone, Debug, PartialEq, Eq)]
pub struct Argument {
    pub name: String,
    pub value: Option<String>,
}

/// The value a parsed argument stands for.
pub struct ArgumentModel {
    pub name: Seq<char>,
    pub value: Option<Seq<char>>,
}

impl View for Argument {
    type V = ArgumentModel;

    open spec fn view(&self) -> ArgumentModel {
        ArgumentModel {
            name: self.name@,
            value: match self.value {
                Some(v) => Some(v@),
                None => None,
            },
        }
    }
}

impl DeepView for Argument {
    type V = ArgumentModel;

    open spec fn deep_view(&self) -> ArgumentModel {
        self@
    }
}

impl Argument {
    /// A copy of this argument.
    pub fn duplicate(&self) -> (r: Self)
        ensures
            r@ == self@,
    {
        Argument {
            name: copy_text(&self.name),
            value: match &self.value {
                Some(v) => Some(copy_text(v)),
                None => None,
            },
        }
    }
}

impl ArgumentDefinition {
    /// Creates an optional argument declaration of the given value type, without aliases.
    pub fn new(name: &str, description: &str, value_type: ValueType) -> (r: Self)
        ensures
            r.name@ == name@,
            r.description@ == description@,
            r.aliases@.len() == 0,
            !r.required,
            r.value_type == value_type,
    {
        ArgumentDefinition {
            name: owned(name),
            description: owned(description),
            aliases: Vec::new(),
            required: false,
            value_type,
        }
    }

    /// The parsed argument that gives this declaration the value `value`.
    pub fn set_value(&self, value: String) -> (r: Argument)
        ensures
            r.name@ == self.name@,
            r.value == Some(value),
    {
        Argument { name: copy_text(&self.name), value: Some(value) }
    }

    /// Replaces the alias spellings of this argument.
    pub fn with_aliases(self, aliases: Vec<String>) -> (r: Self)
        ensures
            r.name == self.name,
            r.description == self.description,
            r.aliases == aliases,
            r.required == self.required,
            r.value_type == self.value_type,
    {
        ArgumentDefinition { aliases, ..self }
    }

    /// Marks this argument as required.
    pub fn set_required(self) -> (r: Self)
        ensures
            r.name == self.name,
            r.description == self.description,
            r.aliases == self.aliases,
            r.required,
            r.value_type == self.value_type,
    {
        ArgumentDefinition { required: true, ..self }
    }
}

/// Declares a string-valued argument.
pub fn argument(name: &str, description: &str) -> (r: ArgumentDefinition)
    ensures
        r.name@ == name@,
        r.description@ == description@,
        r.aliases@.len() == 0,
        !r.required,
        r.value_type == ValueType::String,
{
    ArgumentDefinition::new(name, description, ValueType::String)
}

/// Declares an argument of the given value type.
pub fn argument_of_type(name: &str, description: &str, value_type: ValueType) -> (r:
    ArgumentDefinition)
    ensures
        r.name@ == name@,
        r.description@ == description@,
        r.aliases@.len() == 0,
        !r.required,
        r.value_type == value_type,
{
    ArgumentDefinition::new(name, description, value_type)
}

/// Declares a switch.
pub fn switch(name: &str, description: &str) -> (r: SwitchDefinition)
    ensures
        r.name@ == name@,
        r.description@ == description@,
        r.aliases@.len() == 0,
{
    SwitchDefinition::new(name, description)
}

/// User-facing metadata for a single CLI command.
#[derive(Clone, Debug)]
pub struct CommandMetaData {
    /// Command name used for lookup (for example: "help", "new", "build").
    pub name: String,
    /// Short description shown in generated help output.
    pub description: String,
    /// Optional explicit usage text for this command.
    pub usage: Option<String>,
    /// Optional detailed long-form help text.
    pub long_description: Option<String>,
    /// Optional command examples shown in help output.
    pub examples: Vec<String>,
    /// Switch declarations of this command.
    pub options: Vec<SwitchDefinition>,
    /// Argument declarations of this command.
    pub arguments: Vec<ArgumentDefinition>,
    /// Aliases accepted by command discovery layers.
    pub aliases: Vec<String>,
}

impl CommandMetaData {
    /// Creates command metadata with a name and description and nothing else.
    pub fn new(name: &str, description: &str) -> (r: Self)
        ensures
            r.name@ == name@,
            r.description@ == description@,
            r.usage is None,
            r.long_description is None,
            r.examples@.len() == 0,
            r.options@.len() == 0,
            r.arguments@.len() == 0,
            r.aliases@.len() == 0,
    {
        CommandMetaData {
            name: owned(name),
            description: owned(description),
            usage: None,
            long_description: None,
            examples: Vec::new(),
            options: Vec::new(),
            arguments: Vec::new(),
            aliases: Vec::new(),
        }
    }

    /// Sets explicit usage text for help rendering.
    pub fn with_usage(self, usage: &str) -> (r: Self)
        ensures
            r.usage matches Some(u) && u@ == usage@,
            r.name == self.name,
            r.description == self.description,
            r.long_description == self.long_description,
            r.examples == self.examples,
            r.options == self.options,
            r.arguments == self.arguments,
            r.aliases == self.aliases,
    {
        CommandMetaData { usage: Some(owned(usage)), ..self }
    }

    /// Sets detailed long-form description for help rendering.
    pub fn with_long_description(self, long_description: &str) -> (r: Self)
        ensures
            r.long_description matches Some(d) && d@ == long_description@,
            r.name == self.name,
            r.description == self.description,
            r.usage == self.usage,
            r.examples == self.examples,
            r.options == self.options,
            r.arguments == self.arguments,
            r.aliases == self.aliases,
    {
        CommandMetaData { long_description: Some(owned(long_description)), ..self }
    }

    /// Replaces the example entries of this command.
    pub fn with_examples(self, examples: Vec<String>) -> (r: Self)
        ensures
            r.examples == examples,
            r.name == self.name,
            r.description == self.description,
            r.usage == self.usage,
            r.long_description == self.long_description,
            r.options == self.options,
            r.arguments == self.arguments,
            r.aliases == self.aliases,
    {
        CommandMetaData { examples, ..self }
    }

    /// Replaces the switch declarations of this command.
    pub fn with_options(self, options: Vec<SwitchDefinition>) -> (r: Self)
        ensures
            r.options == options,
            r.name == self.name,
            r.description == self.description,
            r.usage == self.usage,
            r.long_description == self.long_description,
            r.examples == self.examples,
            r.arguments == self.arguments,
            r.aliases == self.aliases,
    {
        CommandMetaData { options, ..self }
    }

    /// Replaces the argument declarations of this command.
    pub fn with_arguments(self, arguments: Vec<ArgumentDefinition>) -> (r: Self)
        ensures
            r.arguments == arguments,
            r.name == self.name,
            r.description == self.description,
            r.usage == self.usage,
            r.long_description == self.long_description,
            r.examples == self.examples,
            r.options == self.options,
            r.aliases == self.aliases,
    {
        CommandMetaData { arguments, ..self }
    }

    /// Replaces the aliases of this command.
    pub fn with_aliases(self, aliases: Vec<String>) -> (r: Self)
        ensures
            r.aliases == aliases,
            r.name == self.name,
            r.description == self.description,
            r.usage == self.usage,
            r.long_description == self.long_description,
            r.examples == self.examples,
            r.options == self.options,
            r.arguments == self.arguments,
    {
        CommandMetaData { aliases, ..self }
    }
}

} // verus!
