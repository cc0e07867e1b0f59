//! The parsed form of a command line.
use vstd::prelude::*;

use crate::metadata::{Argument, ArgumentModel, SwitchDefinition, SwitchModel};

verus! {

/// One parsed input, in the order it appeared.
#[derive(Debug)]
pub enum InvocationElement {
    Argument(Argument),
    Switch(SwitchDefinition),
    Param(String),
}

/// The value an `InvocationElement` stands for.
pub enum ElementModel {
    Argument(ArgumentModel),
    Switch(SwitchModel),
    Param(Seq<char>),
}

impl View for InvocationElement {
    type V = ElementModel;

    open spec fn view(&self) -> ElementModel {
        match self {
            InvocationElement::Argument(a) => ElementModel::Argument(a@),
            InvocationElement::Switch(s) => ElementModel::Switch(s@),
            InvocationElement::Param(p) => ElementModel::Param(p@),
        }
    }
}

impl DeepView for InvocationElement {
    type V = ElementModel;

    open spec fn deep_view(&self) -> ElementModel {
        self@
    }
}

/// A parsed command line for one command, with the parse of the subcommand
/// that follows it, if any.
#[derive(Debug)]
pub struct InvocationArgs {
    /// The selected command's name.
    pub name: String,
    /// Arguments, one per declared name, each with its last value.
    pub args: Vec<Argument>,
    /// Switches, one entry per occurrence.
    pub switches: Vec<SwitchDefinition>,
    /// Positional parameters.
    pub params: Vec<String>,
    /// All parsed inputs in the order they appeared.
    pub order: Vec<InvocationElement>,
    /// The parse of the selected subcommand.
    pub subcommand: Option<Box<InvocationArgs>>,
}

/// The value an `InvocationArgs` stands for.
#[verifier::ext_equal]
pub struct InvocationModel {
    pub name: Seq<char>,
    pub args: Seq<ArgumentModel>,
    pub switches: Seq<SwitchModel>,
    pub params: Seq<Seq<char>>,
    pub order: Seq<ElementModel>,
    pub subcommand: Option<Box<InvocationModel>>,
}

/// The value an `InvocationArgs` stands for.
pub open spec fn invocation_model(i: InvocationArgs) -> InvocationModel
    decreases i,
{
    InvocationModel {
        name: i.name@,
        args: i.args.deep_view(),
        switches: i.switches.deep_view(),
        params: i.params.deep_view(),
        order: i.order.deep_view(),
        subcommand: match i.subcommand {
            Some(b) => Some(Box::new(invocation_model(*b))),
            None => None,
        },
    }
}

impl View for InvocationArgs {
    type V = InvocationModel;

    open spec fn view(&self) -> InvocationModel {
        invocation_model(*self)
    }
}

/// The name of the innermost command of a parse.
pub open spec fn leaf_name_of(m: InvocationModel) -> Seq<char>
    decreases m,
{
    match m.subcommand {
        Some(s) => leaf_name_of(*s),
        None => m.name,
    }
}

impl InvocationArgs {
    /// The name of the innermost selected command.
    pub fn leaf_name(&self) -> (r: &String)
        ensures
            r@ == leaf_name_of(self@),
        decreases self,
    {
        match &self.subcommand {
            Some(s) => s.leaf_name(),
            None => &self.name,
        }
    }
}

} // verus!
