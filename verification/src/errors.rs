//! The fatal conditions of the tool, as a typed error with a
//! fully specified rendered message.

use vstd::prelude::*;
use vstd::string::StringExecFns;

verus! {

/// Abstract form of an error, used by contracts.
pub enum ErrorSpec {
    /// A cascade file exists but could not be read or parsed.
    FileAccess { path: Seq<char>, cause: Seq<char> },
    /// A standalone scan symbol closed the argument list with no mode after it.
    MissingModeArgument { mode_env_name: Seq<char> },
    /// The mode given as an argument is the empty string.
    EmptyModeValue,
    /// A placeholder names a zero-length variable expression.
    EmptyPlaceholderName { segment: Seq<char> },
    /// No alternative of a placeholder is bound and it has no default.
    UnresolvedPlaceholder { segment: Seq<char>, attempted: Seq<char> },
    /// No program to run was given.
    MissingCommand,
}

/// A fatal error: the tool reports it on the error stream and exits
/// instead of running the command.
#[derive(Debug, PartialEq, Eq)]
pub enum LdenvError {
    FileAccess { path: String, cause: String },
    MissingModeArgument { mode_env_name: String },
    EmptyModeValue,
    EmptyPlaceholderName { segment: String },
    UnresolvedPlaceholder { segment: String, attempted: String },
    MissingCommand,
}

impl View for LdenvError {
    type V = ErrorSpec;

    open spec fn view(&self) -> ErrorSpec {
        match self {
            LdenvError::FileAccess { path, cause } => (ErrorSpec::FileAccess {
                path: path@,
                cause: cause@,
            }),
            LdenvError::MissingModeArgument { mode_env_name } => (ErrorSpec::MissingModeArgument {
                mode_env_name: mode_env_name@,
            }),
            LdenvError::EmptyModeValue => ErrorSpec::EmptyModeValue,
            LdenvError::EmptyPlaceholderName { segment } => (ErrorSpec::EmptyPlaceholderName {
                segment: segment@,
            }),
            LdenvError::UnresolvedPlaceholder { segment, attempted } => (
            ErrorSpec::UnresolvedPlaceholder { segment: segment@, attempted: attempted@ }),
            LdenvError::MissingCommand => ErrorSpec::MissingCommand,
        }
    }
}

/// The exact text that each error renders to.
pub open spec fn spec_message(e: ErrorSpec) -> Seq<char> {
    match e {
        ErrorSpec::FileAccess { path, cause } => "error: failed to load environment from "@ + path
            + ": "@ + cause,
        ErrorSpec::MissingModeArgument { mode_env_name } => "error: expect to be provided a mode (which set the "@
            + mode_env_name + " env variable) as last argument"@,
        ErrorSpec::EmptyModeValue => "error: mode has been specified as argument, but it is empty"@,
        ErrorSpec::EmptyPlaceholderName { segment } => "error: this is not valid : '@@"@ + segment
            + "' please specify an ENV var name after '@@'"@,
        ErrorSpec::UnresolvedPlaceholder { segment, attempted } => "error: @@"@ + segment
            + " was specified in the command but there is no env variable named "@ + attempted
            + ".\nTo prevent this error you can provide a default value with '@@"@ + attempted
            + "@:<default value>@:'\nAn empty default can be specified with '@@"@ + attempted
            + "@:@:'"@,
        ErrorSpec::MissingCommand => "error: missing required argument <COMMAND>"@,
    }
}

impl LdenvError {
    /// Renders the error for the error stream.
    pub fn message(&self) -> (r: String)
        ensures
            r@ == spec_message(self@),
    {
        match self {
            LdenvError::FileAccess { path, cause } => String::from_str(
                "error: failed to load environment from ",
            ).concat(path.as_str()).concat(": ").concat(cause.as_str()),
            LdenvError::MissingModeArgument { mode_env_name } => String::from_str(
                "error: expect to be provided a mode (which set the ",
            ).concat(mode_env_name.as_str()).concat(" env variable) as last argument"),
            LdenvError::EmptyModeValue => String::from_str(
                "error: mode has been specified as argument, but it is empty",
            ),
            LdenvError::EmptyPlaceholderName { segment } => String::from_str(
                "error: this is not valid : '@@",
            ).concat(segment.as_str()).concat("' please specify an ENV var name after '@@'"),
            LdenvError::UnresolvedPlaceholder { segment, attempted } => String::from_str(
                "error: @@",
            ).concat(segment.as_str()).concat(
                " was specified in the command but there is no env variable named ",
            ).concat(attempted.as_str()).concat(
                ".\nTo prevent this error you can provide a default value with '@@",
            ).concat(attempted.as_str()).concat(
                "@:<default value>@:'\nAn empty default can be specified with '@@",
            ).concat(attempted.as_str()).concat("@:@:'"),
            LdenvError::MissingCommand => String::from_str(
                "error: missing required argument <COMMAND>",
            ),
        }
    }
}

} // verus!
