//! A command-line runtime: command trees with subcommands and aliases,
//! a plain-text argument parser, help rendering, and dispatch to the
//! handler a command line selects. Each part is stated over a model of its
//! inputs and proved against it.
pub mod command;
pub mod error;
pub mod executor;
pub mod help;
pub mod invocation;
pub mod metadata;
pub mod name_map;
pub mod naming;
pub mod parser;
pub mod registry;
pub mod resolution;
pub mod runtime;
pub mod text;

pub use command::{Command, CommandBuilder, Strategy, SubcommandRouter, command};
pub use error::{CMDKitError, StrategyError, StrategyErrorKind};
pub use executor::{check_worker_count, worker_threads};
pub use help::PlainTextHelpRenderer;
pub use invocation::{InvocationArgs, InvocationElement};
pub use metadata::{
    Argument, ArgumentDefinition, CommandMetaData, Switch, SwitchDefinition, ValueType, argument,
    argument_of_type, switch,
};
pub use naming::{CliCallForm, CliReceiver, CliStrategyNames, cli_expansion, to_pascal};
pub use parser::PlainTextArgumentInterpreter;
pub use runtime::{CMDKit, CMDKitBuilder, Dispatch, LeafCall};
