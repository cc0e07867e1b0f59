//! Error values of strategies and of the runtime, and their texts.
use vstd::prelude::*;

use crate::text::{copy_text, join2, join3, join4, owned};

verus! {

/// Categorizes strategy failures for downstream error handling.
#[derive(Clone, Copy, Debug, PartialEq, Eq, Structural)]
pub enum StrategyErrorKind {
    /// Input arguments are syntactically valid for CLI routing but invalid for this strategy.
    InvalidArguments,
    /// Strategy business logic failed during normal execution.
    Execution,
    /// Unexpected internal failure in strategy implementation.
    Internal,
}

impl StrategyErrorKind {
    /// The stable label of the kind.
    pub open spec fn label(self) -> Seq<char> {
        match self {
            StrategyErrorKind::InvalidArguments => "invalid-arguments"@,
            StrategyErrorKind::Execution => "execution"@,
            StrategyErrorKind::Internal => "internal"@,
        }
    }

    /// The stable label of the kind: `invalid-arguments`, `execution` or `internal`.
    pub fn to_string(&self) -> (r: String)
        ensures
            r@ == self.label(),
    {
        match self {
            StrategyErrorKind::InvalidArguments => owned("invalid-arguments"),
            StrategyErrorKind::Execution => owned("execution"),
            StrategyErrorKind::Internal => owned("internal"),
        }
    }
}

/// Structured error returned by a command strategy.
#[derive(Clone, Debug, PartialEq, Eq)]
pub struct StrategyError {
    /// Machine-friendly error category.
    pub kind: StrategyErrorKind,
    /// Human-readable explanation.
    pub message: String,
}

/// The value a `StrategyError` stands for.
pub struct StrategyErrorModel {
    pub kind: StrategyErrorKind,
    pub message: Seq<char>,
}

impl View for StrategyError {
    type V = StrategyErrorModel;

    open spec fn view(&self) -> StrategyErrorModel {
        StrategyErrorModel { kind: self.kind, message: self.message@ }
    }
}

/// The text of a strategy error: `<kind>: <message>`.
pub open spec fn strategy_error_text(e: StrategyErrorModel) -> Seq<char> {
    e.kind.label() + ": "@ + e.message
}

impl StrategyError {
    /// Creates a new strategy error from a kind and message.
    pub fn new(kind: StrategyErrorKind, message: &str) -> (r: Self)
        ensures
            r.kind == kind,
            r.message@ == message@,
    {
        StrategyError { kind, message: owned(message) }
    }

    /// Convenience constructor for argument validation failures.
    pub fn invalid_arguments(message: &str) -> (r: Self)
        ensures
            r.kind == StrategyErrorKind::InvalidArguments,
            r.message@ == message@,
    {
        Self::new(StrategyErrorKind::InvalidArguments, message)
    }

    /// Convenience constructor for runtime execution failures.
    pub fn execution(message: &str) -> (r: Self)
        ensures
            r.kind == StrategyErrorKind::Execution,
            r.message@ == message@,
    {
        Self::new(StrategyErrorKind::Execution, message)
    }

    /// Convenience constructor for internal or unexpected failures.
    pub fn internal(message: &str) -> (r: Self)
        ensures
            r.kind == StrategyErrorKind::Internal,
            r.message@ == message@,
    {
        Self::new(StrategyErrorKind::Internal, message)
    }

    /// A copy of this error.
    pub fn duplicate(&self) -> (r: Self)
        ensures
            r@ == self@,
    {
        StrategyError { kind: self.kind, message: copy_text(&self.message) }
    }

    /// The text of the error: `<kind>: <message>`.
    pub fn to_string(&self) -> (r: String)
        ensures
            r@ == strategy_error_text(self@),
    {
        let label = self.kind.to_string();
        join3(label.as_str(), ": ", self.message.as_str())
    }
}

/// Error returned during command registration, routing and strategy execution.
#[derive(Debug)]
pub enum CMDKitError {
    /// Command registration failed due to invalid or conflicting metadata.
    Registration { message: String },
    /// Master executor cannot accept or complete jobs.
    ExecutorUnavailable { message: String },
    /// No command name was provided in argv.
    MissingCommand { help: String },
    /// The command name does not exist in the registry.
    UnknownCommand { command: String, help: String },
    /// A registered strategy failed while executing.
    StrategyExecution {
        /// The command selected by the user.
        command: String,
        /// The error the strategy returned.
        source: StrategyError,
    },
}

/// The value a `CMDKitError` stands for.
pub enum CMDKitErrorModel {
    Registration { message: Seq<char> },
    ExecutorUnavailable { message: Seq<char> },
    MissingCommand { help: Seq<char> },
    UnknownCommand { command: Seq<char>, help: Seq<char> },
    StrategyExecution { command: Seq<char>, source: StrategyErrorModel },
}

impl View for CMDKitError {
    type V = CMDKitErrorModel;

    open spec fn view(&self) -> CMDKitErrorModel {
        match self {
            CMDKitError::Registration { message } => CMDKitErrorModel::Registration {
                message: message@,
            },
            CMDKitError::ExecutorUnavailable { message } => CMDKitErrorModel::ExecutorUnavailable {
                message: message@,
            },
            CMDKitError::MissingCommand { help } => CMDKitErrorModel::MissingCommand {
                help: help@,
            },
            CMDKitError::UnknownCommand { command, help } => CMDKitErrorModel::UnknownCommand {
                command: command@,
                help: help@,
            },
            CMDKitError::StrategyExecution { command, source } => {
                CMDKitErrorModel::StrategyExecution { command: command@, source: source@ }
            },
        }
    }
}

/// The user-facing text of a runtime error.
pub open spec fn cmdkit_error_text(e: CMDKitErrorModel) -> Seq<char> {
    match e {
        CMDKitErrorModel::Registration { message } => "Command registration failed: "@ + message,
        CMDKitErrorModel::ExecutorUnavailable { message } => "Executor unavailable: "@ + message,
        CMDKitErrorModel::MissingCommand { help } => "No command provided.\n\n"@ + help,
        CMDKitErrorModel::UnknownCommand { command, help } => "Unknown command: "@ + command
            + "\n\n"@ + help,
        CMDKitErrorModel::StrategyExecution { command, source } => "Strategy execution failed for '"@
            + command + "': "@ + strategy_error_text(source),
    }
}

impl CMDKitError {
    /// The user-facing text of the error.
    pub fn to_string(&self) -> (r: String)
        ensures
            r@ == cmdkit_error_text(self@),
    {
        match self {
            CMDKitError::Registration { message } => join2(
                "Command registration failed: ",
                message.as_str(),
            ),
            CMDKitError::ExecutorUnavailable { message } => join2(
                "Executor unavailable: ",
                message.as_str(),
            ),
            CMDKitError::MissingCommand { help } => join2(
                "No command provided.\n\n",
                help.as_str(),
            ),
            CMDKitError::UnknownCommand { command, help } => join4(
                "Unknown command: ",
                command.as_str(),
                "\n\n",
                help.as_str(),
            ),
            CMDKitError::StrategyExecution { command, source } => {
                let inner = source.to_string();
                join4(
                    "Strategy execution failed for '",
                    command.as_str(),
                    "': ",
                    inner.as_str(),
                )
            },
        }
    }

    /// The underlying strategy error, present only for `StrategyExecution`.
    pub fn source(&self) -> (r: Option<&StrategyError>)
        ensures
            match self {
                CMDKitError::StrategyExecution { source, .. } => r == Some(source),
                _ => r is None,
            },
    {
        match self {
            CMDKitError::StrategyExecution { source, .. } => Some(source),
            _ => None,
        }
    }
}

} // verus!
