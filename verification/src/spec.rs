//! The model of a spec file: tasks, jobs, shells, typed environment variables and
//! agent annotations.
use vstd::prelude::*;

use crate::strmap::StrMap;

verus! {

/// Supported environment variable types.
#[derive(Debug, Clone, Copy, PartialEq, Eq, Structural)]
pub enum VarType {
    /// Plain text input (the default).
    String,
    /// Numeric value (integers and decimals).
    Number,
    /// Whole numbers only.
    Integer,
    /// True/false toggle.
    Boolean,
    /// Selection from predefined options.
    Choice,
    /// File system path.
    Filepath,
    /// Sensitive value, masked in output.
    Secret,
}

/// The lower-case name of a variable type, as spec files write it.
pub open spec fn var_type_name(t: VarType) -> Seq<char> {
    match t {
        VarType::String => "string"@,
        VarType::Number => "number"@,
        VarType::Integer => "integer"@,
        VarType::Boolean => "boolean"@,
        VarType::Choice => "choice"@,
        VarType::Filepath => "filepath"@,
        VarType::Secret => "secret"@,
    }
}

impl VarType {
    /// The string representation of the type.
    pub fn as_str(&self) -> (r: &'static str)
        ensures
            r@ == var_type_name(*self),
    {
        match self {
            VarType::String => "string",
            VarType::Number => "number",
            VarType::Integer => "integer",
            VarType::Boolean => "boolean",
            VarType::Choice => "choice",
            VarType::Filepath => "filepath",
            VarType::Secret => "secret",
        }
    }

    /// Whether values of this type are masked in output: only secrets are.
    pub fn is_sensitive(&self) -> (r: bool)
        ensures
            r == (*self == VarType::Secret),
    {
        matches!(self, VarType::Secret)
    }
}

impl Default for VarType {
    fn default() -> (r: Self)
        ensures
            r == VarType::String,
    {
        VarType::String
    }
}

/// Risk level classification for agent tasks.
#[derive(Debug, Clone, Copy, PartialEq, Eq, Structural)]
pub enum RiskLevel {
    /// Safe operations (read-only, local changes).
    Low,
    /// Reversible operations.
    Medium,
    /// Hard to reverse.
    High,
    /// Destructive.
    Critical,
}

/// The lower-case name of a risk level.
pub open spec fn risk_level_name(r: RiskLevel) -> Seq<char> {
    match r {
        RiskLevel::Low => "low"@,
        RiskLevel::Medium => "medium"@,
        RiskLevel::High => "high"@,
        RiskLevel::Critical => "critical"@,
    }
}

impl RiskLevel {
    /// The string representation of the risk level.
    pub fn as_str(&self) -> (r: &'static str)
        ensures
            r@ == risk_level_name(*self),
    {
        match self {
            RiskLevel::Low => "low",
            RiskLevel::Medium => "medium",
            RiskLevel::High => "high",
            RiskLevel::Critical => "critical",
        }
    }
}

impl Default for RiskLevel {
    fn default() -> (r: Self)
        ensures
            r == RiskLevel::Low,
    {
        RiskLevel::Low
    }
}

/// Whether a task is exposed to agents when its spec says nothing: it is.
pub fn default_enabled() -> (r: bool)
    ensures
        r,
{
    true
}

/// Agent-specific configuration for a task.
#[derive(Debug, Clone)]
pub struct AgentSpec {
    /// Whether the task is exposed to AI agents.
    pub enabled: bool,
    /// Risk level for agent decision-making.
    pub risk_level: RiskLevel,
    /// Confirmation message shown before execution.
    pub confirmation: Option<String>,
    /// Explicitly require approval before execution.
    pub requires_approval: bool,
}

impl Default for AgentSpec {
    fn default() -> (r: Self)
        ensures
            !r.enabled,
            r.risk_level == RiskLevel::Low,
            r.confirmation is None,
            !r.requires_approval,
    {
        AgentSpec {
            enabled: false,
            risk_level: RiskLevel::Low,
            confirmation: None,
            requires_approval: false,
        }
    }
}

/// Environment variable specification.
#[derive(Debug)]
pub struct EnvVarSpec {
    /// The type of this variable.
    pub var_type: VarType,
    /// Default value if not provided.
    pub default: Option<String>,
    /// Available options (required for `choice` type).
    pub options: Vec<String>,
    /// Whether this variable must be provided.
    pub required: bool,
}

/// The mathematical content of an [`EnvVarSpec`].
pub struct EnvVarModel {
    pub var_type: VarType,
    pub default: Option<Seq<char>>,
    pub options: Seq<Seq<char>>,
    pub required: bool,
}

/// The text of an optional string.
pub open spec fn opt_view(o: Option<String>) -> Option<Seq<char>> {
    match o {
        Some(s) => Some(s@),
        None => None,
    }
}

impl View for EnvVarSpec {
    type V = EnvVarModel;

    open spec fn view(&self) -> EnvVarModel {
        EnvVarModel {
            var_type: self.var_type,
            default: opt_view(self.default),
            options: self.options.deep_view(),
            required: self.required,
        }
    }
}

/// A copy of a list of strings.
pub fn clone_strings(v: &Vec<String>) -> (r: Vec<String>)
    ensures
        r@ == v@,
        r.deep_view() == v.deep_view(),
{
    let r = v.clone();
    assert(r.deep_view() =~= v.deep_view());
    r
}

impl Clone for EnvVarSpec {
    fn clone(&self) -> (r: Self)
        ensures
            r@ == self@,
    {
        EnvVarSpec {
            var_type: self.var_type,
            default: self.default.clone(),
            options: clone_strings(&self.options),
            required: self.required,
        }
    }
}

/// A precondition: commands that must succeed before a task runs.
#[derive(Debug, Clone)]
pub struct ConditionSpec {
    pub cmds: Vec<String>,
    pub on_failure: Option<FailurePolicySpec>,
}

/// What to do when something fails.
#[derive(Debug, Clone)]
pub struct FailurePolicySpec {
    /// Whether execution continues after the failure.
    pub continues: bool,
    /// Commands run when the failure happens.
    pub cmds: Vec<String>,
}

/// A task: commands run in order.
#[derive(Debug)]
pub struct TaskSpec {
    pub description: Option<String>,
    /// Commands are executed sequentially.
    pub cmds: Vec<String>,
    /// Working directory relative to project root.
    pub workdir: Option<String>,
    /// Inline environment variables.
    pub env: StrMap<EnvVarSpec>,
    /// dotenv-style env files, relative to project root.
    pub env_files: Vec<String>,
    /// Preconditions that must succeed before execution.
    pub preconditions: Vec<ConditionSpec>,
    /// Failure handling policy.
    pub on_failure: Option<FailurePolicySpec>,
    /// Optional path to documentation.
    pub docs: Option<String>,
    /// Agent configuration for AI tool exposure.
    pub agent: Option<AgentSpec>,
}

/// A job: an ordered list of tasks of the same spec file.
#[derive(Debug)]
pub struct JobSpec {
    pub description: Option<String>,
    /// Ordered list of task names.
    pub tasks: Vec<String>,
    /// Job-level env overrides.
    pub env: StrMap<EnvVarSpec>,
    pub env_files: Vec<String>,
    pub on_failure: Option<FailurePolicySpec>,
}

/// An interactive shell with a prepared environment.
#[derive(Debug)]
pub struct ShellSpec {
    pub description: Option<String>,
    /// Working directory for shell startup.
    pub workdir: Option<String>,
    pub env: StrMap<EnvVarSpec>,
    pub env_files: Vec<String>,
    /// Commands executed before handing control to the user.
    pub init_cmds: Vec<String>,
}

/// A single spec file (meriadoc.yaml / merry.yml).
#[derive(Debug)]
pub struct SpecFile {
    pub version: String,
    pub tasks: StrMap<TaskSpec>,
    pub jobs: StrMap<JobSpec>,
    pub shells: StrMap<ShellSpec>,
}

/// The kinds of named entity that a spec file declares.
#[derive(Debug, Clone, Copy, PartialEq, Eq, Structural)]
pub enum EntityKind {
    Task,
    Job,
    Shell,
}

/// The name of a kind, as error messages write it.
pub open spec fn kind_name(k: EntityKind) -> Seq<char> {
    match k {
        EntityKind::Task => "task"@,
        EntityKind::Job => "job"@,
        EntityKind::Shell => "shell"@,
    }
}

} // verus!
