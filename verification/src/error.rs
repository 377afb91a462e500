//! Errors reported by validation and by the runner.
use vstd::prelude::*;

use crate::text::{concat, decimal, decimal_string, owned};

verus! {

/// A problem found in a spec, or in the values given to its variables.
#[derive(Debug)]
pub enum ValidationError {
    UnsupportedVersion { version: String, file: String },
    DuplicateName { kind: &'static str, name: String },
    UnknownTask { job: String, task: String },
    EmptyTask { task: String },
    EmptyCondition,
    EmptyCommandFailurePolicy,
    EmptyCommandCondition,
    EmptyCommandTask { task: String },
    EmptyCommandShell { shell: String },
    EmptyJob { job: String },
    MissingRequiredEnv { var: String },
    EnvEmptyType { var: String },
    EnvEmptyOption { var: String },
    EnvDefaultNotInOptions { var: String, default: String, options: Vec<String> },
    InvalidChoice { var: String, value: String, options: Vec<String> },
}

/// Any error of the runner.
#[derive(Debug)]
pub enum MeriadocError {
    Validation(ValidationError),
    /// A file could not be read or written; the text describes why.
    Io(String),
    /// A spec or config file is not valid YAML; the text describes why.
    Yaml(String),
    EntityNotFound { kind: String, name: String },
    AmbiguousEntity { kind: String, name: String, count: usize },
    Execution(String),
    PreconditionFailed { entity: String, message: String },
}

/// The mathematical content of a [`ValidationError`].
pub enum ValidationErrorModel {
    UnsupportedVersion { version: Seq<char>, file: Seq<char> },
    DuplicateName { kind: Seq<char>, name: Seq<char> },
    UnknownTask { job: Seq<char>, task: Seq<char> },
    EmptyTask { task: Seq<char> },
    EmptyCondition,
    EmptyCommandFailurePolicy,
    EmptyCommandCondition,
    EmptyCommandTask { task: Seq<char> },
    EmptyCommandShell { shell: Seq<char> },
    EmptyJob { job: Seq<char> },
    MissingRequiredEnv { var: Seq<char> },
    EnvEmptyType { var: Seq<char> },
    EnvEmptyOption { var: Seq<char> },
    EnvDefaultNotInOptions { var: Seq<char>, default: Seq<char>, options: Seq<Seq<char>> },
    InvalidChoice { var: Seq<char>, value: Seq<char>, options: Seq<Seq<char>> },
}

impl View for ValidationError {
    type V = ValidationErrorModel;

    open spec fn view(&self) -> ValidationErrorModel {
        match self {
            ValidationError::UnsupportedVersion { version, file } => {
                ValidationErrorModel::UnsupportedVersion { version: version@, file: file@ }
            },
            ValidationError::DuplicateName { kind, name } => {
                ValidationErrorModel::DuplicateName { kind: kind@, name: name@ }
            },
            ValidationError::UnknownTask { job, task } => {
                ValidationErrorModel::UnknownTask { job: job@, task: task@ }
            },
            ValidationError::EmptyTask { task } => ValidationErrorModel::EmptyTask { task: task@ },
            ValidationError::EmptyCondition => ValidationErrorModel::EmptyCondition,
            ValidationError::EmptyCommandFailurePolicy => {
                ValidationErrorModel::EmptyCommandFailurePolicy
            },
            ValidationError::EmptyCommandCondition => ValidationErrorModel::EmptyCommandCondition,
            ValidationError::EmptyCommandTask { task } => {
                ValidationErrorModel::EmptyCommandTask { task: task@ }
            },
            ValidationError::EmptyCommandShell { shell } => {
                ValidationErrorModel::EmptyCommandShell { shell: shell@ }
            },
            ValidationError::EmptyJob { job } => ValidationErrorModel::EmptyJob { job: job@ },
            ValidationError::MissingRequiredEnv { var } => {
                ValidationErrorModel::MissingRequiredEnv { var: var@ }
            },
            ValidationError::EnvEmptyType { var } => ValidationErrorModel::EnvEmptyType { var: var@ },
            ValidationError::EnvEmptyOption { var } => {
                ValidationErrorModel::EnvEmptyOption { var: var@ }
            },
            ValidationError::EnvDefaultNotInOptions { var, default, options } => {
                ValidationErrorModel::EnvDefaultNotInOptions {
                    var: var@,
                    default: default@,
                    options: options.deep_view(),
                }
            },
            ValidationError::InvalidChoice { var, value, options } => {
                ValidationErrorModel::InvalidChoice {
                    var: var@,
                    value: value@,
                    options: options.deep_view(),
                }
            },
        }
    }
}

/// A validation error with the place where it was found.
#[derive(Debug)]
pub struct ContextualValidationError {
    pub context: String,
    pub error: ValidationError,
}

impl View for ContextualValidationError {
    type V = (Seq<char>, ValidationErrorModel);

    open spec fn view(&self) -> (Seq<char>, ValidationErrorModel) {
        (self.context@, self.error@)
    }
}

/// What `{:?}` prints for a list of strings (each quoted and escaped, the whole in
/// brackets).
pub uninterp spec fn debug_list(items: Seq<Seq<char>>) -> Seq<char>;

/// The `Debug` text of a list of strings, from `std::fmt::Debug` for `Vec<String>`.
///
/// Trusted: the result is named by [`debug_list`] of the strings; nothing more is
/// claimed of the escaping.
#[verifier::external_body]
fn debug_strings(items: &Vec<String>) -> (r: String)
    ensures
        r@ == debug_list(items.deep_view()),
{
    format!("{:?}", items)
}

/// `a`, then `b`, then `c`.
fn concat3(a: &str, b: &str, c: &str) -> (r: String)
    ensures
        r@ == a@ + b@ + c@,
{
    let ab = concat(a, b);
    concat(ab.as_str(), c)
}

/// The message of a validation error.
pub open spec fn validation_message(e: ValidationErrorModel) -> Seq<char> {
    match e {
        ValidationErrorModel::UnsupportedVersion { version, file } => "unsupported spec version `"@
            + version + "` in "@ + file,
        ValidationErrorModel::DuplicateName { kind, name } => "duplicate "@ + kind + " name `"@ + name
            + "`"@,
        ValidationErrorModel::UnknownTask { job, task } => "task `"@ + task
            + "` referenced by job `"@ + job + "` does not exist"@,
        ValidationErrorModel::EmptyTask { task } => "task `"@ + task + "` has no commands"@,
        ValidationErrorModel::EmptyCondition => "condition must have at least one command"@,
        ValidationErrorModel::EmptyCommandFailurePolicy => "failure policy contains empty command"@,
        ValidationErrorModel::EmptyCommandCondition => "condition contains empty command"@,
        ValidationErrorModel::EmptyCommandTask { task } => "task `"@ + task
            + "` contains empty command"@,
        ValidationErrorModel::EmptyCommandShell { shell } => "shell `"@ + shell
            + "` contains empty command"@,
        ValidationErrorModel::EmptyJob { job } => "job `"@ + job
            + "` must reference at least one task"@,
        ValidationErrorModel::MissingRequiredEnv { var } => "required env var `"@ + var
            + "` is missing"@,
        ValidationErrorModel::EnvEmptyType { var } => "env var `"@ + var + "` has empty type"@,
        ValidationErrorModel::EnvEmptyOption { var } => "env var `"@ + var
            + "` has empty option value"@,
        ValidationErrorModel::EnvDefaultNotInOptions { var, default, options } => "env var `"@ + var
            + "` default `"@ + default + "` is not in options "@ + debug_list(options),
        ValidationErrorModel::InvalidChoice { var, value, options } => "env var `"@ + var
            + "` has invalid value `"@ + value + "`, valid options are: "@ + debug_list(options),
    }
}

impl ValidationError {
    /// The message of this error.
    pub fn message(&self) -> (r: String)
        ensures
            r@ == validation_message(self@),
    {
        match self {
            ValidationError::UnsupportedVersion { version, file } => {
                let a = concat3("unsupported spec version `", version.as_str(), "` in ");
                concat(a.as_str(), file.as_str())
            },
            ValidationError::DuplicateName { kind, name } => {
                let a = concat3("duplicate ", kind, " name `");
                concat3(a.as_str(), name.as_str(), "`")
            },
            ValidationError::UnknownTask { job, task } => {
                let a = concat3("task `", task.as_str(), "` referenced by job `");
                concat3(a.as_str(), job.as_str(), "` does not exist")
            },
            ValidationError::EmptyTask { task } => concat3("task `", task.as_str(), "` has no commands"),
            ValidationError::EmptyCondition => owned("condition must have at least one command"),
            ValidationError::EmptyCommandFailurePolicy => owned("failure policy contains empty command"),
            ValidationError::EmptyCommandCondition => owned("condition contains empty command"),
            ValidationError::EmptyCommandTask { task } => concat3(
                "task `",
                task.as_str(),
                "` contains empty command",
            ),
            ValidationError::EmptyCommandShell { shell } => concat3(
                "shell `",
                shell.as_str(),
                "` contains empty command",
            ),
            ValidationError::EmptyJob { job } => concat3(
                "job `",
                job.as_str(),
                "` must reference at least one task",
            ),
            ValidationError::MissingRequiredEnv { var } => concat3(
                "required env var `",
                var.as_str(),
                "` is missing",
            ),
            ValidationError::EnvEmptyType { var } => concat3("env var `", var.as_str(), "` has empty type"),
            ValidationError::EnvEmptyOption { var } => concat3(
                "env var `",
                var.as_str(),
                "` has empty option value",
            ),
            ValidationError::EnvDefaultNotInOptions { var, default, options } => {
                let a = concat3("env var `", var.as_str(), "` default `");
                let b = concat3(a.as_str(), default.as_str(), "` is not in options ");
                let d = debug_strings(options);
                concat(b.as_str(), d.as_str())
            },
            ValidationError::InvalidChoice { var, value, options } => {
                let a = concat3("env var `", var.as_str(), "` has invalid value `");
                let b = concat3(a.as_str(), value.as_str(), "`, valid options are: ");
                let d = debug_strings(options);
                concat(b.as_str(), d.as_str())
            },
        }
    }
}

/// The message of an error of the runner.
pub open spec fn error_message(e: MeriadocError) -> Seq<char> {
    match e {
        MeriadocError::Validation(v) => validation_message(v@),
        MeriadocError::Io(s) => "io error: "@ + s@,
        MeriadocError::Yaml(s) => "yaml error: "@ + s@,
        MeriadocError::EntityNotFound { kind, name } => kind@ + " `"@ + name@ + "` not found"@,
        MeriadocError::AmbiguousEntity { kind, name, count } => kind@ + " `"@ + name@
            + "` is ambiguous (found in "@ + decimal(count as nat)
            + " projects, use project:name syntax)"@,
        MeriadocError::Execution(s) => "execution failed: "@ + s@,
        MeriadocError::PreconditionFailed { entity, message } => "precondition failed for "@
            + entity@ + ": "@ + message@,
    }
}

impl MeriadocError {
    /// The message of this error.
    pub fn message(&self) -> (r: String)
        ensures
            r@ == error_message(*self),
    {
        match self {
            MeriadocError::Validation(v) => v.message(),
            MeriadocError::Io(s) => concat("io error: ", s.as_str()),
            MeriadocError::Yaml(s) => concat("yaml error: ", s.as_str()),
            MeriadocError::EntityNotFound { kind, name } => {
                let a = concat3(kind.as_str(), " `", name.as_str());
                concat(a.as_str(), "` not found")
            },
            MeriadocError::AmbiguousEntity { kind, name, count } => {
                let a = concat3(kind.as_str(), " `", name.as_str());
                let n = decimal_string(*count as u64);
                let b = concat3(a.as_str(), "` is ambiguous (found in ", n.as_str());
                concat(b.as_str(), " projects, use project:name syntax)")
            },
            MeriadocError::Execution(s) => concat("execution failed: ", s.as_str()),
            MeriadocError::PreconditionFailed { entity, message } => {
                let a = concat3("precondition failed for ", entity.as_str(), ": ");
                concat(a.as_str(), message.as_str())
            },
        }
    }
}

} // verus!
