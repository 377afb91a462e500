//! Validation of spec files: every rule and the errors it reports, in order.
use vstd::prelude::*;

use crate::env::{contains_string, views};
use crate::error::{ContextualValidationError, ValidationError, ValidationErrorModel};
use crate::spec::{
    clone_strings, ConditionSpec, EnvVarModel, EnvVarSpec, FailurePolicySpec, JobSpec, ShellSpec,
    SpecFile, TaskSpec, VarType, EntityKind, kind_name,
};
use crate::project::LoadedSpec;
use crate::strmap::{distinct_keys, StrMap};
use crate::text::{concat, is_blank, is_blank_str, owned};

verus! {

/// The errors found so far, in the order in which they were found.
#[derive(Debug)]
pub struct ValidationResult {
    errors: Vec<ContextualValidationError>,
}

impl View for ValidationResult {
    type V = Seq<(Seq<char>, ValidationErrorModel)>;

    closed spec fn view(&self) -> Seq<(Seq<char>, ValidationErrorModel)> {
        views(self.errors@)
    }
}

impl ValidationResult {
    /// No error.
    pub fn new() -> (r: Self)
        ensures
            r@ == Seq::<(Seq<char>, ValidationErrorModel)>::empty(),
    {
        let r = ValidationResult { errors: Vec::new() };
        assert(r@ =~= Seq::<(Seq<char>, ValidationErrorModel)>::empty());
        r
    }

    /// Whether no error was found.
    pub fn is_ok(&self) -> (r: bool)
        ensures
            r == (self@.len() == 0),
    {
        self.errors.len() == 0
    }

    /// The errors, in order.
    pub fn errors(&self) -> (r: &[ContextualValidationError])
        ensures
            views(r@) == self@,
    {
        self.errors.as_slice()
    }

    /// Records `error`, found at `context`.
    pub fn push(&mut self, context: &str, error: ValidationError)
        ensures
            final(self)@ == old(self)@.push((context@, error@)),
    {
        let c = ContextualValidationError { context: owned(context), error };
        let ghost before = self.errors@;
        self.errors.push(c);
        assert(views(self.errors@) =~= views(before).push((context@, error@)));
    }

    /// Appends the errors of `other`.
    pub fn merge(&mut self, other: ValidationResult)
        ensures
            final(self)@ == old(self)@ + other@,
    {
        let mut o = other.errors;
        let ghost before = self.errors@;
        let ghost moved = o@;
        self.errors.append(&mut o);
        assert(views(self.errors@) =~= views(before) + views(moved));
    }

    /// The errors, in order.
    pub fn into_errors(self) -> (r: Vec<ContextualValidationError>)
        ensures
            views(r@) == self@,
    {
        self.errors
    }
}

impl Default for ValidationResult {
    fn default() -> (r: Self)
        ensures
            r@ == Seq::<(Seq<char>, ValidationErrorModel)>::empty(),
    {
        ValidationResult::new()
    }
}

/// One error `e` at `ctx` for each blank command of `cmds`, in order.
pub open spec fn blank_errors(cmds: Seq<Seq<char>>, ctx: Seq<char>, e: ValidationErrorModel) -> Seq<
    (Seq<char>, ValidationErrorModel),
>
    decreases cmds.len(),
{
    if cmds.len() == 0 {
        Seq::empty()
    } else {
        let r = blank_errors(cmds.drop_last(), ctx, e);
        if is_blank(cmds.last()) {
            r.push((ctx, e))
        } else {
            r
        }
    }
}

/// The same errors, all placed at `ctx`.
pub open spec fn at_context(es: Seq<(Seq<char>, ValidationErrorModel)>, ctx: Seq<char>) -> Seq<
    (Seq<char>, ValidationErrorModel),
> {
    es.map_values(|e: (Seq<char>, ValidationErrorModel)| (ctx, e.1))
}

/// Pushes one error `e` at `ctx` for each blank command.
fn push_blank_errors<F: Fn() -> ValidationError>(
    result: &mut ValidationResult,
    cmds: &Vec<String>,
    ctx: &str,
    Ghost(e): Ghost<ValidationErrorModel>,
    make: F,
)
    requires
        forall|r: ValidationError| call_ensures(make, (), r) ==> r@ == e,
            forall|u: ()| call_requires(make, u),
    ensures
        final(result)@ == old(result)@ + blank_errors(cmds.deep_view(), ctx@, e),
{
    let ghost start = result@;
    let mut i: usize = 0;
    while i < cmds.len()
        invariant
            0 <= i <= cmds.len(),
            forall|r: ValidationError| call_ensures(make, (), r) ==> r@ == e,
            forall|u: ()| call_requires(make, u),
            result@ == start + blank_errors(cmds.deep_view().take(i as int), ctx@, e),
        decreases cmds.len() - i,
    {
        assert(cmds.deep_view().take(i + 1).drop_last() =~= cmds.deep_view().take(i as int));
        assert(cmds.deep_view().take(i + 1).last() == cmds@[i as int]@);
        if is_blank_str(cmds[i].as_str()) {
            let err = make();
            result.push(ctx, err);
            assert(result@ =~= start + blank_errors(cmds.deep_view().take(i + 1), ctx@, e));
        }
        i = i + 1;
    }
    assert(cmds.deep_view().take(cmds.len() as int) =~= cmds.deep_view());
}

/// The errors that a failure policy has.
pub open spec fn policy_errors(policy: FailurePolicySpec) -> Seq<(Seq<char>, ValidationErrorModel)> {
    blank_errors(policy.cmds.deep_view(), Seq::empty(), ValidationErrorModel::EmptyCommandFailurePolicy)
}

/// The errors that a precondition has.
pub open spec fn condition_errors(c: ConditionSpec) -> Seq<(Seq<char>, ValidationErrorModel)> {
    (if c.cmds.len() == 0 {
        seq![(Seq::<char>::empty(), ValidationErrorModel::EmptyCondition)]
    } else {
        Seq::empty()
    }) + blank_errors(c.cmds.deep_view(), Seq::empty(), ValidationErrorModel::EmptyCommandCondition)
        + match c.on_failure {
        Some(p) => at_context(policy_errors(p), Seq::empty()),
        None => Seq::empty(),
    }
}

/// One `EnvEmptyOption` error for each blank option.
pub open spec fn blank_option_errors(options: Seq<Seq<char>>, var: Seq<char>) -> Seq<
    ValidationErrorModel,
>
    decreases options.len(),
{
    if options.len() == 0 {
        Seq::empty()
    } else {
        let r = blank_option_errors(options.drop_last(), var);
        if is_blank(options.last()) {
            r.push(ValidationErrorModel::EnvEmptyOption { var })
        } else {
            r
        }
    }
}

/// The errors of the variable `name` specified by `spec`.
pub open spec fn env_var_errors(name: Seq<char>, spec: EnvVarModel) -> Seq<ValidationErrorModel> {
    (if spec.var_type == VarType::Choice && spec.options.len() == 0 {
        seq![ValidationErrorModel::EnvEmptyType { var: name }]
    } else {
        Seq::empty()
    }) + blank_option_errors(spec.options, name) + match spec.default {
        Some(d) => if spec.options.len() > 0 && !spec.options.contains(d) {
            seq![
                ValidationErrorModel::EnvDefaultNotInOptions {
                    var: name,
                    default: d,
                    options: spec.options,
                },
            ]
        } else {
            Seq::empty()
        },
        None => Seq::empty(),
    }
}

/// The errors of `es`, all placed at `ctx`.
pub open spec fn placed(es: Seq<ValidationErrorModel>, ctx: Seq<char>) -> Seq<
    (Seq<char>, ValidationErrorModel),
> {
    es.map_values(|e: ValidationErrorModel| (ctx, e))
}

/// The place of the errors of variable `name` within `ctx`.
pub open spec fn env_context(ctx: Seq<char>, name: Seq<char>) -> Seq<char> {
    ctx + " env `"@ + name + "`"@
}

/// The errors of the variables of `ps`, in order, each placed at its variable.
pub open spec fn env_map_errors(ps: Seq<(String, EnvVarSpec)>, ctx: Seq<char>) -> Seq<
    (Seq<char>, ValidationErrorModel),
>
    decreases ps.len(),
{
    if ps.len() == 0 {
        Seq::empty()
    } else {
        env_map_errors(ps.drop_last(), ctx) + placed(
            env_var_errors(ps.last().0@, ps.last().1@),
            env_context(ctx, ps.last().0@),
        )
    }
}

/// The context of the errors of a task.
pub open spec fn task_context(name: Seq<char>) -> Seq<char> {
    "task '"@ + name + "'"@
}

/// The errors of the preconditions of `cs`, placed at `ctx`.
pub open spec fn preconditions_errors(cs: Seq<ConditionSpec>, ctx: Seq<char>) -> Seq<
    (Seq<char>, ValidationErrorModel),
>
    decreases cs.len(),
{
    if cs.len() == 0 {
        Seq::empty()
    } else {
        preconditions_errors(cs.drop_last(), ctx) + at_context(condition_errors(cs.last()), ctx)
    }
}

/// The errors of a task.
pub open spec fn task_errors(name: Seq<char>, task: TaskSpec) -> Seq<
    (Seq<char>, ValidationErrorModel),
> {
    let ctx = task_context(name);
    (if task.cmds.len() == 0 {
        seq![(ctx, ValidationErrorModel::EmptyTask { task: name })]
    } else {
        Seq::empty()
    }) + blank_errors(task.cmds.deep_view(), ctx, ValidationErrorModel::EmptyCommandTask { task: name })
        + env_map_errors(task.env.pairs(), ctx) + preconditions_errors(
        task.preconditions@,
        ctx + " precondition"@,
    )
}

/// One `UnknownTask` error for each task of `tasks` that `known` lacks, in order.
pub open spec fn unknown_task_errors(
    job: Seq<char>,
    tasks: Seq<Seq<char>>,
    known: Seq<Seq<char>>,
) -> Seq<(Seq<char>, ValidationErrorModel)>
    decreases tasks.len(),
{
    if tasks.len() == 0 {
        Seq::empty()
    } else {
        let r = unknown_task_errors(job, tasks.drop_last(), known);
        if !known.contains(tasks.last()) {
            r.push((Seq::empty(), ValidationErrorModel::UnknownTask { job, task: tasks.last() }))
        } else {
            r
        }
    }
}

/// The context of the errors of a job's variables.
pub open spec fn job_context(name: Seq<char>) -> Seq<char> {
    "job '"@ + name + "'"@
}

/// The errors of a job, given the names of the tasks of its spec file.
pub open spec fn job_errors(name: Seq<char>, job: JobSpec, known: Seq<Seq<char>>) -> Seq<
    (Seq<char>, ValidationErrorModel),
> {
    (if job.tasks.len() == 0 {
        seq![(Seq::<char>::empty(), ValidationErrorModel::EmptyJob { job: name })]
    } else {
        Seq::empty()
    }) + unknown_task_errors(name, job.tasks.deep_view(), known) + env_map_errors(
        job.env.pairs(),
        job_context(name),
    )
}

/// The errors of a shell.
pub open spec fn shell_errors(name: Seq<char>, shell: ShellSpec) -> Seq<
    (Seq<char>, ValidationErrorModel),
> {
    blank_errors(
        shell.init_cmds.deep_view(),
        Seq::empty(),
        ValidationErrorModel::EmptyCommandShell { shell: name },
    )
}

/// Checks a failure policy.
pub struct FailurePolicyValidator;

impl FailurePolicyValidator {
    /// One `EmptyCommandFailurePolicy` error for each blank command.
    pub fn validate(policy: &FailurePolicySpec) -> (r: ValidationResult)
        ensures
            r@ == policy_errors(*policy),
    {
        let mut result = ValidationResult::new();
        proof {
            reveal_strlit("");
            assert(""@ =~= Seq::<char>::empty());
        }
        let make = || -> (r: ValidationError)
            ensures
                r@ == ValidationErrorModel::EmptyCommandFailurePolicy,
            { ValidationError::EmptyCommandFailurePolicy };
        push_blank_errors(
            &mut result,
            &policy.cmds,
            "",
            Ghost(ValidationErrorModel::EmptyCommandFailurePolicy),
            make,
        );
        assert(result@ =~= policy_errors(*policy));
        result
    }
}

/// Checks a precondition.
pub struct ConditionValidator;

impl ConditionValidator {
    /// `EmptyCondition` when there is no command, one `EmptyCommandCondition` for each blank
    /// command, then the errors of the failure policy.
    pub fn validate(condition: &ConditionSpec) -> (r: ValidationResult)
        ensures
            r@ == condition_errors(*condition),
    {
        let mut result = ValidationResult::new();
        proof {
            reveal_strlit("");
            assert(""@ =~= Seq::<char>::empty());
        }
        if condition.cmds.len() == 0 {
            result.push("", ValidationError::EmptyCondition);
        }
        let make = || -> (r: ValidationError)
            ensures
                r@ == ValidationErrorModel::EmptyCommandCondition,
            { ValidationError::EmptyCommandCondition };
        push_blank_errors(
            &mut result,
            &condition.cmds,
            "",
            Ghost(ValidationErrorModel::EmptyCommandCondition),
            make,
        );
        let ghost mid = result@;
        match &condition.on_failure {
            Some(policy) => {
                let policy_result = FailurePolicyValidator::validate(policy);
                let errs = policy_result.into_errors();
                push_all_at(&mut result, errs, "");
            },
            None => {},
        }
        assert(result@ =~= condition_errors(*condition));
        result
    }
}

/// Pushes the errors of `errs` in order, all at `ctx`.
fn push_all_at(result: &mut ValidationResult, errs: Vec<ContextualValidationError>, ctx: &str)
    ensures
        final(result)@ == old(result)@ + at_context(views(errs@), ctx@),
{
    let ghost start = result@;
    let ghost all = views(errs@);
    let mut rest = errs;
    let ghost mut k: int = 0;
    while rest.len() > 0
        invariant
            0 <= k <= all.len(),
            views(rest@) == all.skip(k),
            result@ == start + at_context(all.take(k), ctx@),
        decreases rest.len(),
    {
        let ghost before = rest@;
        let e = rest.remove(0);
        assert(views(before)[0] == before[0]@);
        assert(views(before).len() == before.len());
        assert(all.skip(k)[0] == all[k]);
        assert(e@ == all[k]);
        assert(views(rest@) =~= views(before).skip(1));
        result.push(ctx, e.error);
        assert(all.take(k + 1) =~= all.take(k).push(all[k]));
        assert(result@ =~= start + at_context(all.take(k + 1), ctx@));
        proof {
            k = k + 1;
        }
        assert(views(rest@) =~= all.skip(k));
    }
    assert(all.take(k) =~= all);
}

/// Checks environment variable specifications.
pub struct EnvironmentValidator;

impl EnvironmentValidator {
    /// The errors of the variable `name`: a choice without options, blank options, and a
    /// default outside the options.
    pub fn validate(name: &str, spec: &EnvVarSpec) -> (r: ValidationResult)
        ensures
            r@ == placed(env_var_errors(name@, spec@), Seq::empty()),
    {
        let mut result = ValidationResult::new();
        proof {
            reveal_strlit("");
            assert(""@ =~= Seq::<char>::empty());
        }
        let ghost es = env_var_errors(name@, spec@);
        if spec.var_type == VarType::Choice && spec.options.len() == 0 {
            result.push("", ValidationError::EnvEmptyType { var: owned(name) });
        }
        let ghost after_type = result@;
        let mut i: usize = 0;
        while i < spec.options.len()
            invariant
                0 <= i <= spec.options.len(),
                ""@ == Seq::<char>::empty(),
                result@ == after_type + placed(
                    blank_option_errors(spec.options.deep_view().take(i as int), name@),
                    Seq::empty(),
                ),
            decreases spec.options.len() - i,
        {
            assert(spec.options.deep_view().take(i + 1).drop_last() =~= spec.options.deep_view().take(
                i as int,
            ));
            assert(spec.options.deep_view().take(i + 1).last() == spec.options@[i as int]@);
            if is_blank_str(spec.options[i].as_str()) {
                result.push("", ValidationError::EnvEmptyOption { var: owned(name) });
                assert(result@ =~= after_type + placed(
                    blank_option_errors(spec.options.deep_view().take(i + 1), name@),
                    Seq::empty(),
                ));
            }
            i = i + 1;
        }
        assert(spec.options.deep_view().take(spec.options.len() as int) =~= spec.options.deep_view());
        if spec.options.len() > 0 {
            match &spec.default {
                Some(default) => {
                    if !contains_string(&spec.options, default.as_str()) {
                        result.push(
                            "",
                            ValidationError::EnvDefaultNotInOptions {
                                var: owned(name),
                                default: default.clone(),
                                options: clone_strings(&spec.options),
                            },
                        );
                    }
                },
                None => {},
            }
        }
        assert(result@ =~= placed(es, Seq::empty()));
        result
    }

    /// The errors of every variable of `env`, in order, each placed at
    /// ``"{context} env `{name}`"``.
    pub fn validate_map(env: &StrMap<EnvVarSpec>, context: &str) -> (r: ValidationResult)
        ensures
            r@ == env_map_errors(env.pairs(), context@),
    {
        let mut result = ValidationResult::new();
        proof {
            reveal_strlit("");
            assert(""@ =~= Seq::<char>::empty());
        }
        let n = env.len();
        let mut i: usize = 0;
        while i < n
            invariant
                0 <= i <= n,
                n == env.pairs().len(),
                result@ == env_map_errors(env.pairs().take(i as int), context@),
            decreases n - i,
        {
            let (name, spec) = env.entry(i);
            assert(env.pairs().take(i + 1).drop_last() =~= env.pairs().take(i as int));
            let var_result = Self::validate(name.as_str(), spec);
            let c1 = concat(context, " env `");
            let c2 = concat(c1.as_str(), name.as_str());
            let ctx = concat(c2.as_str(), "`");
            let errs = var_result.into_errors();
            let ghost es = views(errs@);
            push_all_at(&mut result, errs, ctx.as_str());
            assert(at_context(es, ctx@) =~= placed(env_var_errors(name@, spec@), ctx@));
            i = i + 1;
        }
        assert(env.pairs().take(n as int) =~= env.pairs());
        result
    }
}

/// Checks a task.
pub struct TaskValidator;

impl TaskValidator {
    /// The errors of a task, placed at `task '{name}'`: no commands, blank commands, its
    /// variables, then its preconditions.
    pub fn validate(task_name: &str, task: &TaskSpec) -> (r: ValidationResult)
        ensures
            r@ == task_errors(task_name@, *task),
    {
        let mut result = ValidationResult::new();
        proof {
            reveal_strlit("");
            assert(""@ =~= Seq::<char>::empty());
        }
        let c1 = concat("task '", task_name);
        let context = concat(c1.as_str(), "'");
        if task.cmds.len() == 0 {
            result.push(context.as_str(), ValidationError::EmptyTask { task: owned(task_name) });
        }
        let ghost tn = task_name@;
        let make = || -> (r: ValidationError)
            ensures
                r@ == (ValidationErrorModel::EmptyCommandTask { task: task_name@ }),
            { ValidationError::EmptyCommandTask { task: owned(task_name) } };
        push_blank_errors(
            &mut result,
            &task.cmds,
            context.as_str(),
            Ghost(ValidationErrorModel::EmptyCommandTask { task: tn }),
            make,
        );
        let env_result = EnvironmentValidator::validate_map(&task.env, context.as_str());
        result.merge(env_result);
        let pctx = concat(context.as_str(), " precondition");
        let ghost mid = result@;
        let mut i: usize = 0;
        while i < task.preconditions.len()
            invariant
                0 <= i <= task.preconditions.len(),
                pctx@ == context@ + " precondition"@,
                result@ == mid + preconditions_errors(task.preconditions@.take(i as int), pctx@),
            decreases task.preconditions.len() - i,
        {
            assert(task.preconditions@.take(i + 1).drop_last() =~= task.preconditions@.take(
                i as int,
            ));
            let condition_result = ConditionValidator::validate(&task.preconditions[i]);
            push_all_at(&mut result, condition_result.into_errors(), pctx.as_str());
            assert(result@ =~= mid + preconditions_errors(task.preconditions@.take(i + 1), pctx@));
            i = i + 1;
        }
        assert(task.preconditions@.take(task.preconditions.len() as int) =~= task.preconditions@);
        assert(result@ =~= task_errors(task_name@, *task));
        result
    }
}

/// Checks a job.
pub struct JobValidator;

impl JobValidator {
    /// The errors of a job, given the names of the tasks of its spec file: no tasks, unknown
    /// tasks, then its variables (placed at `job '{name}'`).
    pub fn validate(job_name: &str, job: &JobSpec, tasks: &Vec<String>) -> (r: ValidationResult)
        ensures
            r@ == job_errors(job_name@, *job, tasks.deep_view()),
    {
        let mut result = ValidationResult::new();
        proof {
            reveal_strlit("");
            assert(""@ =~= Seq::<char>::empty());
        }
        if job.tasks.len() == 0 {
            result.push("", ValidationError::EmptyJob { job: owned(job_name) });
        }
        let ghost mid = result@;
        let mut i: usize = 0;
        while i < job.tasks.len()
            invariant
                0 <= i <= job.tasks.len(),
                ""@ == Seq::<char>::empty(),
                result@ == mid + unknown_task_errors(
                    job_name@,
                    job.tasks.deep_view().take(i as int),
                    tasks.deep_view(),
                ),
            decreases job.tasks.len() - i,
        {
            assert(job.tasks.deep_view().take(i + 1).drop_last() =~= job.tasks.deep_view().take(
                i as int,
            ));
            assert(job.tasks.deep_view().take(i + 1).last() == job.tasks@[i as int]@);
            if !contains_string(tasks, job.tasks[i].as_str()) {
                result.push(
                    "",
                    ValidationError::UnknownTask {
                        job: owned(job_name),
                        task: job.tasks[i].clone(),
                    },
                );
                assert(result@ =~= mid + unknown_task_errors(
                    job_name@,
                    job.tasks.deep_view().take(i + 1),
                    tasks.deep_view(),
                ));
            }
            i = i + 1;
        }
        assert(job.tasks.deep_view().take(job.tasks.len() as int) =~= job.tasks.deep_view());
        let c1 = concat("job '", job_name);
        let context = concat(c1.as_str(), "'");
        let env_result = EnvironmentValidator::validate_map(&job.env, context.as_str());
        result.merge(env_result);
        assert(result@ =~= job_errors(job_name@, *job, tasks.deep_view()));
        result
    }
}

/// Checks a shell.
pub struct ShellValidator;

impl ShellValidator {
    /// One `EmptyCommandShell` error for each blank init command. The shell's variables are
    /// checked too, but their errors are not reported.
    pub fn validate(shell_name: &str, shell: &ShellSpec) -> (r: ValidationResult)
        ensures
            r@ == shell_errors(shell_name@, *shell),
    {
        let mut result = ValidationResult::new();
        proof {
            reveal_strlit("");
            assert(""@ =~= Seq::<char>::empty());
        }
        let ghost sn = shell_name@;
        let make = || -> (r: ValidationError)
            ensures
                r@ == (ValidationErrorModel::EmptyCommandShell { shell: shell_name@ }),
            { ValidationError::EmptyCommandShell { shell: owned(shell_name) } };
        push_blank_errors(
            &mut result,
            &shell.init_cmds,
            "",
            Ghost(ValidationErrorModel::EmptyCommandShell { shell: sn }),
            make,
        );
        let c1 = concat("shell '", shell_name);
        let context = concat(c1.as_str(), "'");
        let _discarded = EnvironmentValidator::validate_map(&shell.env, context.as_str());
        assert(result@ =~= shell_errors(shell_name@, *shell));
        result
    }
}

/// The names that `spec` declares of kind `k`, in order.
pub open spec fn names_of(spec: SpecFile, k: EntityKind) -> Seq<Seq<char>> {
    match k {
        EntityKind::Task => spec.tasks.key_seq(),
        EntityKind::Job => spec.jobs.key_seq(),
        EntityKind::Shell => spec.shells.key_seq(),
    }
}

/// The names of kind `k` declared by `specs`, file after file.
pub open spec fn all_names(specs: Seq<SpecFile>, k: EntityKind) -> Seq<Seq<char>>
    decreases specs.len(),
{
    if specs.len() == 0 {
        Seq::empty()
    } else {
        all_names(specs.drop_last(), k) + names_of(specs.last(), k)
    }
}

/// One `DuplicateName` error for each name of `names` that occurs in `seen` or earlier in
/// `names`.
pub open spec fn duplicates(seen: Seq<Seq<char>>, names: Seq<Seq<char>>, k: EntityKind) -> Seq<
    (Seq<char>, ValidationErrorModel),
>
    decreases names.len(),
{
    if names.len() == 0 {
        Seq::empty()
    } else {
        let r = duplicates(seen, names.drop_last(), k);
        if (seen + names.drop_last()).contains(names.last()) {
            r.push(
                (
                    Seq::empty(),
                    ValidationErrorModel::DuplicateName { kind: kind_name(k), name: names.last() },
                ),
            )
        } else {
            r
        }
    }
}

/// The duplicate names of `specs`: for each file, its duplicate tasks, jobs and shells.
pub open spec fn duplicate_errors(specs: Seq<SpecFile>) -> Seq<(Seq<char>, ValidationErrorModel)>
    decreases specs.len(),
{
    if specs.len() == 0 {
        Seq::empty()
    } else {
        let before = specs.drop_last();
        let last = specs.last();
        duplicate_errors(before) + duplicates(
            all_names(before, EntityKind::Task),
            names_of(last, EntityKind::Task),
            EntityKind::Task,
        ) + duplicates(all_names(before, EntityKind::Job), names_of(last, EntityKind::Job), EntityKind::Job)
            + duplicates(
            all_names(before, EntityKind::Shell),
            names_of(last, EntityKind::Shell),
            EntityKind::Shell,
        )
    }
}

/// The errors of the tasks of `ps`, in order.
pub open spec fn tasks_errors(ps: Seq<(String, TaskSpec)>) -> Seq<(Seq<char>, ValidationErrorModel)>
    decreases ps.len(),
{
    if ps.len() == 0 {
        Seq::empty()
    } else {
        tasks_errors(ps.drop_last()) + task_errors(ps.last().0@, ps.last().1)
    }
}

/// The errors of the jobs of `ps`, given the task names of their file.
pub open spec fn jobs_errors(ps: Seq<(String, JobSpec)>, known: Seq<Seq<char>>) -> Seq<
    (Seq<char>, ValidationErrorModel),
>
    decreases ps.len(),
{
    if ps.len() == 0 {
        Seq::empty()
    } else {
        jobs_errors(ps.drop_last(), known) + job_errors(ps.last().0@, ps.last().1, known)
    }
}

/// The errors of the shells of `ps`, in order.
pub open spec fn shells_errors(ps: Seq<(String, ShellSpec)>) -> Seq<
    (Seq<char>, ValidationErrorModel),
>
    decreases ps.len(),
{
    if ps.len() == 0 {
        Seq::empty()
    } else {
        shells_errors(ps.drop_last()) + shell_errors(ps.last().0@, ps.last().1)
    }
}

/// The errors of the tasks of every file.
pub open spec fn all_task_errors(specs: Seq<SpecFile>) -> Seq<(Seq<char>, ValidationErrorModel)>
    decreases specs.len(),
{
    if specs.len() == 0 {
        Seq::empty()
    } else {
        all_task_errors(specs.drop_last()) + tasks_errors(specs.last().tasks.pairs())
    }
}

/// The errors of the jobs of every file, each checked against the tasks of its own file.
pub open spec fn all_job_errors(specs: Seq<SpecFile>) -> Seq<(Seq<char>, ValidationErrorModel)>
    decreases specs.len(),
{
    if specs.len() == 0 {
        Seq::empty()
    } else {
        all_job_errors(specs.drop_last()) + jobs_errors(
            specs.last().jobs.pairs(),
            specs.last().tasks.key_seq(),
        )
    }
}

/// The errors of the shells of every file.
pub open spec fn all_shell_errors(specs: Seq<SpecFile>) -> Seq<(Seq<char>, ValidationErrorModel)>
    decreases specs.len(),
{
    if specs.len() == 0 {
        Seq::empty()
    } else {
        all_shell_errors(specs.drop_last()) + shells_errors(specs.last().shells.pairs())
    }
}

/// Everything wrong with a project made of `specs`: duplicate names across files, then the
/// errors of every task, of every job and of every shell.
pub open spec fn project_errors(specs: Seq<SpecFile>) -> Seq<(Seq<char>, ValidationErrorModel)> {
    duplicate_errors(specs) + all_task_errors(specs) + all_job_errors(specs) + all_shell_errors(
        specs,
    )
}

/// Pushes a `DuplicateName` error for each name of `names` already in `seen`, and adds every
/// name to `seen`.
fn push_duplicates(
    result: &mut ValidationResult,
    seen: &mut Vec<String>,
    names: Vec<String>,
    kind: &'static str,
    Ghost(k): Ghost<EntityKind>,
)
    requires
        kind@ == kind_name(k),
    ensures
        final(result)@ == old(result)@ + duplicates(old(seen).deep_view(), names.deep_view(), k),
        final(seen).deep_view() == old(seen).deep_view() + names.deep_view(),
{
    proof {
        reveal_strlit("");
        assert(""@ =~= Seq::<char>::empty());
    }
    let ghost start = result@;
    let ghost seen0 = seen.deep_view();
    let ghost ns = names.deep_view();
    let mut i: usize = 0;
    while i < names.len()
        invariant
            0 <= i <= names.len(),
            ns == names.deep_view(),
            kind@ == kind_name(k),
            ""@ == Seq::<char>::empty(),
            seen.deep_view() == seen0 + ns.take(i as int),
            result@ == start + duplicates(seen0, ns.take(i as int), k),
        decreases names.len() - i,
    {
        assert(ns.take(i + 1).drop_last() =~= ns.take(i as int));
        assert(ns.take(i + 1).last() == names@[i as int]@);
        if contains_string(seen, names[i].as_str()) {
            result.push("", ValidationError::DuplicateName { kind, name: names[i].clone() });
        }
        let ghost dv_before = seen.deep_view();
        let name = names[i].clone();
        seen.push(name);
        assert(seen.deep_view() =~= dv_before.push(names@[i as int]@));
        assert(seen.deep_view() =~= seen0 + ns.take(i + 1));
        assert(result@ =~= start + duplicates(seen0, ns.take(i + 1), k));
        i = i + 1;
    }
    assert(ns.take(i as int) =~= ns);
}

/// Pushes the duplicate names of one more file, `spec`, that follows the files `before`.
fn push_file_duplicates(
    result: &mut ValidationResult,
    task_names: &mut Vec<String>,
    job_names: &mut Vec<String>,
    shell_names: &mut Vec<String>,
    spec: &SpecFile,
    Ghost(before): Ghost<Seq<SpecFile>>,
)
    requires
        old(task_names).deep_view() == all_names(before, EntityKind::Task),
        old(job_names).deep_view() == all_names(before, EntityKind::Job),
        old(shell_names).deep_view() == all_names(before, EntityKind::Shell),
    ensures
        duplicate_errors(before.push(*spec)) == duplicate_errors(before) + (final(result)@.skip(
            old(result)@.len() as int,
        )),
        final(result)@.take(old(result)@.len() as int) == old(result)@,
        final(result)@.len() >= old(result)@.len(),
        final(task_names).deep_view() == all_names(before.push(*spec), EntityKind::Task),
        final(job_names).deep_view() == all_names(before.push(*spec), EntityKind::Job),
        final(shell_names).deep_view() == all_names(before.push(*spec), EntityKind::Shell),
{
    let ghost start = result@;
    let ghost all = before.push(*spec);
    assert(all.drop_last() =~= before);
    proof {
        reveal_strlit("task");
        reveal_strlit("job");
        reveal_strlit("shell");
        assert("task"@ =~= kind_name(EntityKind::Task));
        assert("job"@ =~= kind_name(EntityKind::Job));
        assert("shell"@ =~= kind_name(EntityKind::Shell));
    }
    push_duplicates(result, task_names, spec.tasks.keys(), "task", Ghost(EntityKind::Task));
    push_duplicates(result, job_names, spec.jobs.keys(), "job", Ghost(EntityKind::Job));
    push_duplicates(result, shell_names, spec.shells.keys(), "shell", Ghost(EntityKind::Shell));
    assert(result@.take(start.len() as int) =~= start);
    assert(duplicate_errors(all) =~= duplicate_errors(before) + result@.skip(start.len() as int));
}

/// Pushes the duplicate names of every file of `specs`.
fn push_all_duplicates(result: &mut ValidationResult, specs: &[SpecFile])
    ensures
        final(result)@ == old(result)@ + duplicate_errors(specs@),
{
    let ghost start = result@;
    let mut task_names: Vec<String> = Vec::new();
    let mut job_names: Vec<String> = Vec::new();
    let mut shell_names: Vec<String> = Vec::new();
    let mut s: usize = 0;
    while s < specs.len()
        invariant
            0 <= s <= specs.len(),
            result@ == start + duplicate_errors(specs@.take(s as int)),
            task_names.deep_view() == all_names(specs@.take(s as int), EntityKind::Task),
            job_names.deep_view() == all_names(specs@.take(s as int), EntityKind::Job),
            shell_names.deep_view() == all_names(specs@.take(s as int), EntityKind::Shell),
        decreases specs.len() - s,
    {
        assert(specs@.take(s + 1) =~= specs@.take(s as int).push(specs@[s as int]));
        let ghost r0 = result@;
        push_file_duplicates(
            result,
            &mut task_names,
            &mut job_names,
            &mut shell_names,
            &specs[s],
            Ghost(specs@.take(s as int)),
        );
        assert(result@ =~= r0 + result@.skip(r0.len() as int));
        assert(result@ =~= start + duplicate_errors(specs@.take(s + 1)));
        s = s + 1;
    }
    assert(specs@.take(specs.len() as int) =~= specs@);
}

/// The parsed contents of loaded spec files.
pub open spec fn spec_files_of(specs: Seq<LoadedSpec>) -> Seq<SpecFile> {
    specs.map_values(|l: LoadedSpec| l.spec)
}

/// Pushes the duplicate names of every file of `specs`.
fn push_all_duplicates_loaded(result: &mut ValidationResult, specs: &[LoadedSpec])
    ensures
        final(result)@ == old(result)@ + duplicate_errors(spec_files_of(specs@)),
{
    let ghost start = result@;
    let ghost files = spec_files_of(specs@);
    let mut task_names: Vec<String> = Vec::new();
    let mut job_names: Vec<String> = Vec::new();
    let mut shell_names: Vec<String> = Vec::new();
    let mut s: usize = 0;
    while s < specs.len()
        invariant
            0 <= s <= specs.len(),
            files == spec_files_of(specs@),
            result@ == start + duplicate_errors(files.take(s as int)),
            task_names.deep_view() == all_names(files.take(s as int), EntityKind::Task),
            job_names.deep_view() == all_names(files.take(s as int), EntityKind::Job),
            shell_names.deep_view() == all_names(files.take(s as int), EntityKind::Shell),
        decreases specs.len() - s,
    {
        assert(files.take(s + 1) =~= files.take(s as int).push(specs@[s as int].spec));
        let ghost r0 = result@;
        push_file_duplicates(
            result,
            &mut task_names,
            &mut job_names,
            &mut shell_names,
            &specs[s].spec,
            Ghost(files.take(s as int)),
        );
        assert(result@ =~= r0 + result@.skip(r0.len() as int));
        assert(result@ =~= start + duplicate_errors(files.take(s + 1)));
        s = s + 1;
    }
    assert(files.take(specs.len() as int) =~= files);
}

/// Pushes the errors of the tasks of `spec`.
fn push_task_errors(result: &mut ValidationResult, spec: &SpecFile)
    ensures
        final(result)@ == old(result)@ + tasks_errors(spec.tasks.pairs()),
{
    let ghost before = result@;
    let n = spec.tasks.len();
    let mut i: usize = 0;
    while i < n
        invariant
            0 <= i <= n,
            n == spec.tasks.pairs().len(),
            result@ == before + tasks_errors(spec.tasks.pairs().take(i as int)),
        decreases n - i,
    {
        let (name, task) = spec.tasks.entry(i);
        assert(spec.tasks.pairs().take(i + 1).drop_last() =~= spec.tasks.pairs().take(i as int));
        result.merge(TaskValidator::validate(name.as_str(), task));
        assert(result@ =~= before + tasks_errors(spec.tasks.pairs().take(i + 1)));
        i = i + 1;
    }
    assert(spec.tasks.pairs().take(n as int) =~= spec.tasks.pairs());
}

/// Pushes the errors of the jobs of `spec`, checked against the tasks of `spec`.
fn push_job_errors(result: &mut ValidationResult, spec: &SpecFile)
    ensures
        final(result)@ == old(result)@ + jobs_errors(spec.jobs.pairs(), spec.tasks.key_seq()),
{
    let known = spec.tasks.keys();
    let ghost before = result@;
    let n = spec.jobs.len();
    let mut i: usize = 0;
    while i < n
        invariant
            0 <= i <= n,
            n == spec.jobs.pairs().len(),
            known.deep_view() == spec.tasks.key_seq(),
            result@ == before + jobs_errors(spec.jobs.pairs().take(i as int), known.deep_view()),
        decreases n - i,
    {
        let (name, job) = spec.jobs.entry(i);
        assert(spec.jobs.pairs().take(i + 1).drop_last() =~= spec.jobs.pairs().take(i as int));
        result.merge(JobValidator::validate(name.as_str(), job, &known));
        assert(result@ =~= before + jobs_errors(spec.jobs.pairs().take(i + 1), known.deep_view()));
        i = i + 1;
    }
    assert(spec.jobs.pairs().take(n as int) =~= spec.jobs.pairs());
}

/// Pushes the errors of the shells of `spec`.
fn push_shell_errors(result: &mut ValidationResult, spec: &SpecFile)
    ensures
        final(result)@ == old(result)@ + shells_errors(spec.shells.pairs()),
{
    let ghost before = result@;
    let n = spec.shells.len();
    let mut i: usize = 0;
    while i < n
        invariant
            0 <= i <= n,
            n == spec.shells.pairs().len(),
            result@ == before + shells_errors(spec.shells.pairs().take(i as int)),
        decreases n - i,
    {
        let (name, shell) = spec.shells.entry(i);
        assert(spec.shells.pairs().take(i + 1).drop_last() =~= spec.shells.pairs().take(i as int));
        result.merge(ShellValidator::validate(name.as_str(), shell));
        assert(result@ =~= before + shells_errors(spec.shells.pairs().take(i + 1)));
        i = i + 1;
    }
    assert(spec.shells.pairs().take(n as int) =~= spec.shells.pairs());
}

/// Checks a whole project.
pub struct ProjectValidator;

impl ProjectValidator {
    /// Every error of a project made of `specs`, in the order of [`project_errors`].
    pub fn validate(specs: &[SpecFile]) -> (r: ValidationResult)
        ensures
            r@ == project_errors(specs@),
    {
        let mut result = ValidationResult::new();
        push_all_duplicates(&mut result, specs);
        let ghost dups = result@;
        let mut s: usize = 0;
        while s < specs.len()
            invariant
                0 <= s <= specs.len(),
                result@ == dups + all_task_errors(specs@.take(s as int)),
            decreases specs.len() - s,
        {
            assert(specs@.take(s + 1).drop_last() =~= specs@.take(s as int));
            push_task_errors(&mut result, &specs[s]);
            assert(result@ =~= dups + all_task_errors(specs@.take(s + 1)));
            s = s + 1;
        }
        assert(specs@.take(specs.len() as int) =~= specs@);
        let ghost after_tasks = result@;
        let mut s: usize = 0;
        while s < specs.len()
            invariant
                0 <= s <= specs.len(),
                result@ == after_tasks + all_job_errors(specs@.take(s as int)),
            decreases specs.len() - s,
        {
            assert(specs@.take(s + 1).drop_last() =~= specs@.take(s as int));
            push_job_errors(&mut result, &specs[s]);
            assert(result@ =~= after_tasks + all_job_errors(specs@.take(s + 1)));
            s = s + 1;
        }
        let ghost after_jobs = result@;
        let mut s: usize = 0;
        while s < specs.len()
            invariant
                0 <= s <= specs.len(),
                result@ == after_jobs + all_shell_errors(specs@.take(s as int)),
            decreases specs.len() - s,
        {
            assert(specs@.take(s + 1).drop_last() =~= specs@.take(s as int));
            push_shell_errors(&mut result, &specs[s]);
            assert(result@ =~= after_jobs + all_shell_errors(specs@.take(s + 1)));
            s = s + 1;
        }
        assert(result@ =~= project_errors(specs@));
        result
    }

    /// Every error of the project whose loaded spec files are `specs`, as
    /// [`ProjectValidator::validate`] finds them in their parsed contents.
    pub fn validate_loaded(specs: &[LoadedSpec]) -> (r: ValidationResult)
        ensures
            r@ == project_errors(spec_files_of(specs@)),
    {
        let ghost files = spec_files_of(specs@);
        let mut result = ValidationResult::new();
        push_all_duplicates_loaded(&mut result, specs);
        let ghost dups = result@;
        let mut s: usize = 0;
        while s < specs.len()
            invariant
                0 <= s <= specs.len(),
                files == spec_files_of(specs@),
                result@ == dups + all_task_errors(files.take(s as int)),
            decreases specs.len() - s,
        {
            assert(files.take(s + 1).drop_last() =~= files.take(s as int));
            push_task_errors(&mut result, &specs[s].spec);
            assert(result@ =~= dups + all_task_errors(files.take(s + 1)));
            s = s + 1;
        }
        assert(files.take(specs.len() as int) =~= files);
        let ghost after_tasks = result@;
        let mut s: usize = 0;
        while s < specs.len()
            invariant
                0 <= s <= specs.len(),
                files == spec_files_of(specs@),
                result@ == after_tasks + all_job_errors(files.take(s as int)),
            decreases specs.len() - s,
        {
            assert(files.take(s + 1).drop_last() =~= files.take(s as int));
            push_job_errors(&mut result, &specs[s].spec);
            assert(result@ =~= after_tasks + all_job_errors(files.take(s + 1)));
            s = s + 1;
        }
        let ghost after_jobs = result@;
        let mut s: usize = 0;
        while s < specs.len()
            invariant
                0 <= s <= specs.len(),
                files == spec_files_of(specs@),
                result@ == after_jobs + all_shell_errors(files.take(s as int)),
            decreases specs.len() - s,
        {
            assert(files.take(s + 1).drop_last() =~= files.take(s as int));
            push_shell_errors(&mut result, &specs[s].spec);
            assert(result@ =~= after_jobs + all_shell_errors(files.take(s + 1)));
            s = s + 1;
        }
        assert(result@ =~= project_errors(files));
        result
    }

    /// Every error of a project made of the single spec file `spec`.
    pub fn validate_one(spec: &SpecFile) -> (r: ValidationResult)
        ensures
            r@ == project_errors(seq![*spec]),
    {
        let ghost files = seq![*spec];
        let mut result = ValidationResult::new();
        let mut task_names: Vec<String> = Vec::new();
        let mut job_names: Vec<String> = Vec::new();
        let mut shell_names: Vec<String> = Vec::new();
        let ghost none = Seq::<SpecFile>::empty();
        assert(task_names.deep_view() =~= all_names(none, EntityKind::Task));
        assert(job_names.deep_view() =~= all_names(none, EntityKind::Job));
        assert(shell_names.deep_view() =~= all_names(none, EntityKind::Shell));
        push_file_duplicates(
            &mut result,
            &mut task_names,
            &mut job_names,
            &mut shell_names,
            spec,
            Ghost(none),
        );
        assert(none.push(*spec) =~= files);
        assert(result@ =~= result@.skip(0));
        let ghost dups = result@;
        assert(dups =~= duplicate_errors(files));
        push_task_errors(&mut result, spec);
        assert(files.drop_last() =~= none);
        assert(files.last() == *spec);
        assert(all_task_errors(none) =~= Seq::<(Seq<char>, ValidationErrorModel)>::empty());
        assert(all_job_errors(none) =~= Seq::<(Seq<char>, ValidationErrorModel)>::empty());
        assert(all_shell_errors(none) =~= Seq::<(Seq<char>, ValidationErrorModel)>::empty());
        assert(all_task_errors(files) =~= tasks_errors(spec.tasks.pairs()));
        push_job_errors(&mut result, spec);
        assert(all_job_errors(files) =~= jobs_errors(spec.jobs.pairs(), spec.tasks.key_seq()));
        push_shell_errors(&mut result, spec);
        assert(all_shell_errors(files) =~= shells_errors(spec.shells.pairs()));
        assert(result@ =~= project_errors(files));
        result
    }
}


/// The blank commands of `cmds`, in order.
pub open spec fn blanks(cmds: Seq<Seq<char>>) -> Seq<Seq<char>> {
    cmds.filter(|c: Seq<char>| is_blank(c))
}

/// Whether no command of `cmds` is blank.
pub open spec fn none_blank(cmds: Seq<Seq<char>>) -> bool {
    forall|i: int| 0 <= i < cmds.len() ==> !is_blank(#[trigger] cmds[i])
}

/// Blank commands give one error each, every one of them `e` at `ctx`: as many errors as
/// blank commands, and none exactly when no command is blank.
pub proof fn law_blank_errors(cmds: Seq<Seq<char>>, ctx: Seq<char>, e: ValidationErrorModel)
    ensures
        blank_errors(cmds, ctx, e).len() == blanks(cmds).len(),
        forall|i: int|
            0 <= i < blank_errors(cmds, ctx, e).len() ==> #[trigger] blank_errors(cmds, ctx, e)[i]
                == (ctx, e),
        (blank_errors(cmds, ctx, e).len() == 0) == none_blank(cmds),
    decreases cmds.len(),
{
    reveal(Seq::filter);
    if cmds.len() > 0 {
        let init = cmds.drop_last();
        law_blank_errors(init, ctx, e);
        assert(blanks(cmds) == if is_blank(cmds.last()) {
            blanks(init).push(cmds.last())
        } else {
            blanks(init)
        });
        if none_blank(cmds) {
            assert forall|i: int| 0 <= i < init.len() implies !is_blank(#[trigger] init[i]) by {
                assert(init[i] == cmds[i]);
            }
            assert(!is_blank(cmds[cmds.len() - 1]));
        }
        if !is_blank(cmds.last()) && none_blank(init) {
            assert forall|i: int| 0 <= i < cmds.len() implies !is_blank(#[trigger] cmds[i]) by {
                if i < init.len() {
                    assert(init[i] == cmds[i]);
                }
            }
        }
    }
}

/// A precondition has no error exactly when it has commands, none of them blank, and its
/// failure commands, if any, are not blank; its errors are `EmptyCondition` when it has no
/// command, then one `EmptyCommandCondition` per blank command, then one
/// `EmptyCommandFailurePolicy` per blank failure command, all at the top level.
pub proof fn law_condition_errors(c: ConditionSpec)
    ensures
        (condition_errors(c).len() == 0) == (c.cmds@.len() > 0 && none_blank(c.cmds.deep_view())
            && match c.on_failure {
            Some(p) => none_blank(p.cmds.deep_view()),
            None => true,
        }),
        condition_errors(c).len() == (if c.cmds@.len() == 0 {
            1int
        } else {
            0int
        }) + blanks(c.cmds.deep_view()).len() + match c.on_failure {
            Some(p) => blanks(p.cmds.deep_view()).len() as int,
            None => 0int,
        },
{
    law_blank_errors(c.cmds.deep_view(), Seq::empty(), ValidationErrorModel::EmptyCommandCondition);
    match c.on_failure {
        Some(p) => {
            law_blank_errors(
                p.cmds.deep_view(),
                Seq::empty(),
                ValidationErrorModel::EmptyCommandFailurePolicy,
            );
        },
        None => {},
    }
}

/// Whether no option of `options` is blank.
pub open spec fn options_filled(options: Seq<Seq<char>>) -> bool {
    forall|i: int| 0 <= i < options.len() ==> !is_blank(#[trigger] options[i])
}

proof fn lemma_blank_option_errors(options: Seq<Seq<char>>, var: Seq<char>)
    ensures
        (blank_option_errors(options, var).len() == 0) == options_filled(options),
    decreases options.len(),
{
    if options.len() > 0 {
        let init = options.drop_last();
        lemma_blank_option_errors(init, var);
        if options_filled(options) {
            assert forall|i: int| 0 <= i < init.len() implies !is_blank(#[trigger] init[i]) by {
                assert(init[i] == options[i]);
            }
            assert(!is_blank(options[options.len() - 1]));
        }
        if !is_blank(options.last()) && options_filled(init) {
            assert forall|i: int| 0 <= i < options.len() implies !is_blank(#[trigger] options[i]) by {
                if i < init.len() {
                    assert(init[i] == options[i]);
                }
            }
        }
    }
}

/// A variable has no error exactly when it is not a choice without options, none of its
/// options is blank, and its default, if it has options and a default, is one of them; being
/// required without a default is no error.
pub proof fn law_env_var_errors(name: Seq<char>, spec: EnvVarModel)
    ensures
        (env_var_errors(name, spec).len() == 0) == (!(spec.var_type == VarType::Choice
            && spec.options.len() == 0) && options_filled(spec.options) && (spec.options.len()
            == 0 || match spec.default {
            Some(d) => spec.options.contains(d),
            None => true,
        })),
{
    lemma_blank_option_errors(spec.options, name);
}

/// How many errors the variables of `ps` have, added up variable by variable.
pub open spec fn env_error_total(ps: Seq<(String, EnvVarSpec)>) -> nat
    decreases ps.len(),
{
    if ps.len() == 0 {
        0
    } else {
        env_error_total(ps.drop_last()) + env_var_errors(ps.last().0@, ps.last().1@).len()
    }
}

/// The variables of `ps` have no error exactly when each of them has none; the errors come
/// variable after variable, each variable's errors placed at that variable, so there are as
/// many as the variables have in all.
pub proof fn law_env_map_errors(ps: Seq<(String, EnvVarSpec)>, ctx: Seq<char>)
    ensures
        (env_map_errors(ps, ctx).len() == 0) == (forall|i: int|
            0 <= i < ps.len() ==> (#[trigger] env_var_errors(ps[i].0@, ps[i].1@)).len() == 0),
        env_map_errors(ps, ctx).len() == env_error_total(ps),
    decreases ps.len(),
{
    if ps.len() > 0 {
        let init = ps.drop_last();
        law_env_map_errors(init, ctx);
        let last_errs = env_var_errors(ps.last().0@, ps.last().1@);
        assert(placed(last_errs, env_context(ctx, ps.last().0@)).len() == last_errs.len());
        if forall|i: int| 0 <= i < ps.len() ==> (#[trigger] env_var_errors(ps[i].0@, ps[i].1@)).len() == 0 {
            assert forall|i: int| 0 <= i < init.len() implies (#[trigger] env_var_errors(init[i].0@, init[i].1@)).len() == 0 by {
                assert(init[i] == ps[i]);
                assert(env_var_errors(ps[i].0@, ps[i].1@).len() == 0);
            }
            assert(env_var_errors(ps[ps.len() - 1].0@, ps[ps.len() - 1].1@).len() == 0);
        }
        if env_map_errors(ps, ctx).len() == 0 {
            assert forall|i: int| 0 <= i < ps.len() implies (#[trigger] env_var_errors(ps[i].0@, ps[i].1@)).len() == 0 by {
                if i < init.len() {
                    assert(init[i] == ps[i]);
                    assert(env_var_errors(init[i].0@, init[i].1@).len() == 0);
                }
            }
        }
    }
}

proof fn lemma_preconditions_errors(cs: Seq<ConditionSpec>, ctx: Seq<char>)
    ensures
        (preconditions_errors(cs, ctx).len() == 0) == (forall|i: int|
            0 <= i < cs.len() ==> (#[trigger] condition_errors(cs[i])).len() == 0),
    decreases cs.len(),
{
    if cs.len() > 0 {
        let init = cs.drop_last();
        lemma_preconditions_errors(init, ctx);
        assert(at_context(condition_errors(cs.last()), ctx).len() == condition_errors(cs.last()).len());
        if forall|i: int| 0 <= i < cs.len() ==> (#[trigger] condition_errors(cs[i])).len() == 0 {
            assert forall|i: int| 0 <= i < init.len() implies (#[trigger] condition_errors(init[i])).len() == 0 by {
                assert(init[i] == cs[i]);
                assert(condition_errors(cs[i]).len() == 0);
            }
            assert(condition_errors(cs[cs.len() - 1]).len() == 0);
        }
        if preconditions_errors(cs, ctx).len() == 0 {
            assert forall|i: int| 0 <= i < cs.len() implies (#[trigger] condition_errors(cs[i])).len() == 0 by {
                if i < init.len() {
                    assert(init[i] == cs[i]);
                    assert(condition_errors(init[i]).len() == 0);
                }
            }
        }
    }
}

/// A task has no error exactly when it has commands, none of them blank, its variables have
/// no error and its preconditions have none; it has `EmptyTask` exactly when it has no
/// command, and one `EmptyCommandTask` per blank command.
pub proof fn law_task_errors(name: Seq<char>, task: TaskSpec)
    ensures
        (task_errors(name, task).len() == 0) == (task.cmds@.len() > 0 && none_blank(
            task.cmds.deep_view(),
        ) && env_map_errors(task.env.pairs(), task_context(name)).len() == 0 && forall|i: int|
            0 <= i < task.preconditions@.len() ==> (#[trigger] condition_errors(
                task.preconditions@[i],
            )).len() == 0),
        blank_errors(
            task.cmds.deep_view(),
            task_context(name),
            ValidationErrorModel::EmptyCommandTask { task: name },
        ).len() == blanks(task.cmds.deep_view()).len(),
{
    law_blank_errors(
        task.cmds.deep_view(),
        task_context(name),
        ValidationErrorModel::EmptyCommandTask { task: name },
    );
    lemma_preconditions_errors(task.preconditions@, task_context(name) + " precondition"@);
}

/// Whether every task of `tasks` is one of `known`.
pub open spec fn all_known(tasks: Seq<Seq<char>>, known: Seq<Seq<char>>) -> bool {
    forall|i: int| 0 <= i < tasks.len() ==> known.contains(#[trigger] tasks[i])
}

proof fn lemma_unknown_task_errors(job: Seq<char>, tasks: Seq<Seq<char>>, known: Seq<Seq<char>>)
    ensures
        unknown_task_errors(job, tasks, known).len() == tasks.filter(
            |t: Seq<char>| !known.contains(t),
        ).len(),
        (unknown_task_errors(job, tasks, known).len() == 0) == all_known(tasks, known),
    decreases tasks.len(),
{
    reveal(Seq::filter);
    if tasks.len() > 0 {
        let init = tasks.drop_last();
        lemma_unknown_task_errors(job, init, known);
        if all_known(tasks, known) {
            assert forall|i: int| 0 <= i < init.len() implies known.contains(#[trigger] init[i]) by {
                assert(init[i] == tasks[i]);
            }
            assert(known.contains(tasks[tasks.len() - 1]));
        }
        if known.contains(tasks.last()) && all_known(init, known) {
            assert forall|i: int| 0 <= i < tasks.len() implies known.contains(#[trigger] tasks[i]) by {
                if i < init.len() {
                    assert(init[i] == tasks[i]);
                }
            }
        }
    }
}

/// A job has no error exactly when it has tasks, every one of them a task of its file, and
/// its variables have no error; it has `EmptyJob` exactly when it has no task, and one
/// `UnknownTask` per task name that its file lacks.
pub proof fn law_job_errors(name: Seq<char>, job: JobSpec, known: Seq<Seq<char>>)
    ensures
        (job_errors(name, job, known).len() == 0) == (job.tasks@.len() > 0 && all_known(
            job.tasks.deep_view(),
            known,
        ) && env_map_errors(job.env.pairs(), job_context(name)).len() == 0),
        unknown_task_errors(name, job.tasks.deep_view(), known).len() == job.tasks.deep_view().filter(
            |t: Seq<char>| !known.contains(t),
        ).len(),
{
    lemma_unknown_task_errors(name, job.tasks.deep_view(), known);
}

/// A shell has no error exactly when none of its init commands is blank; it has one
/// `EmptyCommandShell` per blank init command. Its variables are not checked.
pub proof fn law_shell_errors(name: Seq<char>, shell: ShellSpec)
    ensures
        (shell_errors(name, shell).len() == 0) == none_blank(shell.init_cmds.deep_view()),
        shell_errors(name, shell).len() == blanks(shell.init_cmds.deep_view()).len(),
{
    law_blank_errors(
        shell.init_cmds.deep_view(),
        Seq::empty(),
        ValidationErrorModel::EmptyCommandShell { shell: name },
    );
}


/// Whether no name occurs twice in `names`.
pub open spec fn distinct_names(names: Seq<Seq<char>>) -> bool {
    forall|i: int, j: int| 0 <= i < j < names.len() ==> names[i] != names[j]
}

/// Whether no name of `names` occurs in `seen` or earlier in `names`.
pub open spec fn all_new(seen: Seq<Seq<char>>, names: Seq<Seq<char>>) -> bool {
    forall|j: int| 0 <= j < names.len() ==> !(seen + names.take(j)).contains(#[trigger] names[j])
}

proof fn lemma_duplicates_empty(seen: Seq<Seq<char>>, names: Seq<Seq<char>>, k: EntityKind)
    ensures
        (duplicates(seen, names, k).len() == 0) == all_new(seen, names),
    decreases names.len(),
{
    if names.len() > 0 {
        let init = names.drop_last();
        lemma_duplicates_empty(seen, init, k);
        assert(names.take(names.len() - 1) =~= init);
        if all_new(seen, names) {
            assert forall|j: int| 0 <= j < init.len() implies !(seen + init.take(j)).contains(#[trigger] init[j]) by {
                assert(init.take(j) =~= names.take(j));
                assert(init[j] == names[j]);
                assert(!(seen + names.take(j)).contains(names[j]));
            }
            assert(!(seen + names.take(names.len() - 1)).contains(names[names.len() - 1]));
        }
        if duplicates(seen, names, k).len() == 0 {
            assert forall|j: int| 0 <= j < names.len() implies !(seen + names.take(j)).contains(#[trigger] names[j]) by {
                if j < init.len() {
                    assert(init.take(j) =~= names.take(j));
                    assert(init[j] == names[j]);
                    assert(!(seen + init.take(j)).contains(init[j]));
                }
            }
        }
    }
}

proof fn lemma_distinct_append(a: Seq<Seq<char>>, b: Seq<Seq<char>>)
    ensures
        distinct_names(a + b) == (distinct_names(a) && all_new(a, b)),
{
    let ab = a + b;
    if distinct_names(ab) {
        assert forall|i: int, j: int| 0 <= i < j < a.len() implies a[i] != a[j] by {
            assert(ab[i] == a[i] && ab[j] == a[j]);
        }
        assert forall|j: int| 0 <= j < b.len() implies !(a + b.take(j)).contains(#[trigger] b[j]) by {
            if (a + b.take(j)).contains(b[j]) {
                let m = choose|m: int| 0 <= m < (a + b.take(j)).len() && (a + b.take(j))[m] == b[j];
                assert((a + b.take(j))[m] == ab[m]);
                assert(ab[a.len() + j] == b[j]);
            }
        }
    }
    if distinct_names(a) && all_new(a, b) {
        assert forall|i: int, j: int| 0 <= i < j < ab.len() implies ab[i] != ab[j] by {
            if j >= a.len() {
                let jj = j - a.len();
                assert(ab[j] == b[jj]);
                assert((a + b.take(jj))[i] == ab[i]);
                if ab[i] == ab[j] {
                    assert((a + b.take(jj)).contains(b[jj]));
                }
            } else {
                assert(ab[i] == a[i] && ab[j] == a[j]);
            }
        }
    }
}

proof fn lemma_duplicate_errors_empty(specs: Seq<SpecFile>)
    ensures
        (duplicate_errors(specs).len() == 0) == (distinct_names(all_names(specs, EntityKind::Task))
            && distinct_names(all_names(specs, EntityKind::Job)) && distinct_names(
            all_names(specs, EntityKind::Shell),
        )),
    decreases specs.len(),
{
    if specs.len() > 0 {
        let before = specs.drop_last();
        let last = specs.last();
        lemma_duplicate_errors_empty(before);
        lemma_duplicates_empty(all_names(before, EntityKind::Task), names_of(last, EntityKind::Task), EntityKind::Task);
        lemma_duplicates_empty(all_names(before, EntityKind::Job), names_of(last, EntityKind::Job), EntityKind::Job);
        lemma_duplicates_empty(all_names(before, EntityKind::Shell), names_of(last, EntityKind::Shell), EntityKind::Shell);
        lemma_distinct_append(all_names(before, EntityKind::Task), names_of(last, EntityKind::Task));
        lemma_distinct_append(all_names(before, EntityKind::Job), names_of(last, EntityKind::Job));
        lemma_distinct_append(all_names(before, EntityKind::Shell), names_of(last, EntityKind::Shell));
    }
}

proof fn lemma_tasks_errors_empty(ps: Seq<(String, TaskSpec)>)
    ensures
        (tasks_errors(ps).len() == 0) == (forall|i: int|
            0 <= i < ps.len() ==> (#[trigger] task_errors(ps[i].0@, ps[i].1)).len() == 0),
    decreases ps.len(),
{
    if ps.len() > 0 {
        let init = ps.drop_last();
        lemma_tasks_errors_empty(init);
        if tasks_errors(ps).len() == 0 {
            assert forall|i: int| 0 <= i < ps.len() implies (#[trigger] task_errors(ps[i].0@, ps[i].1)).len() == 0 by {
                if i < init.len() {
                    assert(init[i] == ps[i]);
                    assert(task_errors(init[i].0@, init[i].1).len() == 0);
                }
            }
        }
        if forall|i: int| 0 <= i < ps.len() ==> (#[trigger] task_errors(ps[i].0@, ps[i].1)).len() == 0 {
            assert forall|i: int| 0 <= i < init.len() implies (#[trigger] task_errors(init[i].0@, init[i].1)).len() == 0 by {
                assert(init[i] == ps[i]);
                assert(task_errors(ps[i].0@, ps[i].1).len() == 0);
            }
            assert(task_errors(ps[ps.len() - 1].0@, ps[ps.len() - 1].1).len() == 0);
        }
    }
}

proof fn lemma_jobs_errors_empty(ps: Seq<(String, JobSpec)>, known: Seq<Seq<char>>)
    ensures
        (jobs_errors(ps, known).len() == 0) == (forall|i: int|
            0 <= i < ps.len() ==> (#[trigger] job_errors(ps[i].0@, ps[i].1, known)).len() == 0),
    decreases ps.len(),
{
    if ps.len() > 0 {
        let init = ps.drop_last();
        lemma_jobs_errors_empty(init, known);
        if jobs_errors(ps, known).len() == 0 {
            assert forall|i: int| 0 <= i < ps.len() implies (#[trigger] job_errors(ps[i].0@, ps[i].1, known)).len() == 0 by {
                if i < init.len() {
                    assert(init[i] == ps[i]);
                    assert(job_errors(init[i].0@, init[i].1, known).len() == 0);
                }
            }
        }
        if forall|i: int| 0 <= i < ps.len() ==> (#[trigger] job_errors(ps[i].0@, ps[i].1, known)).len() == 0 {
            assert forall|i: int| 0 <= i < init.len() implies (#[trigger] job_errors(init[i].0@, init[i].1, known)).len() == 0 by {
                assert(init[i] == ps[i]);
                assert(job_errors(ps[i].0@, ps[i].1, known).len() == 0);
            }
            assert(job_errors(ps[ps.len() - 1].0@, ps[ps.len() - 1].1, known).len() == 0);
        }
    }
}

proof fn lemma_shells_errors_empty(ps: Seq<(String, ShellSpec)>)
    ensures
        (shells_errors(ps).len() == 0) == (forall|i: int|
            0 <= i < ps.len() ==> (#[trigger] shell_errors(ps[i].0@, ps[i].1)).len() == 0),
    decreases ps.len(),
{
    if ps.len() > 0 {
        let init = ps.drop_last();
        lemma_shells_errors_empty(init);
        if shells_errors(ps).len() == 0 {
            assert forall|i: int| 0 <= i < ps.len() implies (#[trigger] shell_errors(ps[i].0@, ps[i].1)).len() == 0 by {
                if i < init.len() {
                    assert(init[i] == ps[i]);
                    assert(shell_errors(init[i].0@, init[i].1).len() == 0);
                }
            }
        }
        if forall|i: int| 0 <= i < ps.len() ==> (#[trigger] shell_errors(ps[i].0@, ps[i].1)).len() == 0 {
            assert forall|i: int| 0 <= i < init.len() implies (#[trigger] shell_errors(init[i].0@, init[i].1)).len() == 0 by {
                assert(init[i] == ps[i]);
                assert(shell_errors(ps[i].0@, ps[i].1).len() == 0);
            }
            assert(shell_errors(ps[ps.len() - 1].0@, ps[ps.len() - 1].1).len() == 0);
        }
    }
}

/// Whether every task, job and shell of the file `f` has no error of its own (a job checked
/// against the tasks of its file).
pub open spec fn file_clean(f: SpecFile) -> bool {
    &&& tasks_errors(f.tasks.pairs()).len() == 0
    &&& jobs_errors(f.jobs.pairs(), f.tasks.key_seq()).len() == 0
    &&& shells_errors(f.shells.pairs()).len() == 0
}

proof fn lemma_all_errors_empty(specs: Seq<SpecFile>)
    ensures
        (all_task_errors(specs).len() == 0 && all_job_errors(specs).len() == 0
            && all_shell_errors(specs).len() == 0) == (forall|i: int|
            0 <= i < specs.len() ==> file_clean(#[trigger] specs[i])),
    decreases specs.len(),
{
    if specs.len() > 0 {
        let init = specs.drop_last();
        lemma_all_errors_empty(init);
        if forall|i: int| 0 <= i < specs.len() ==> file_clean(#[trigger] specs[i]) {
            assert forall|i: int| 0 <= i < init.len() implies file_clean(#[trigger] init[i]) by {
                assert(init[i] == specs[i]);
            }
            assert(file_clean(specs[specs.len() - 1]));
        }
        if all_task_errors(specs).len() == 0 && all_job_errors(specs).len() == 0
            && all_shell_errors(specs).len() == 0 {
            assert forall|i: int| 0 <= i < specs.len() implies file_clean(#[trigger] specs[i]) by {
                if i < init.len() {
                    assert(init[i] == specs[i]);
                }
            }
        }
    }
}

/// A project validates exactly when no task name, no job name and no shell name is used twice
/// across its files, and every task, every job (against the tasks of its file) and every
/// shell of every file has no error of its own.
pub proof fn law_project_errors(specs: Seq<SpecFile>)
    ensures
        (project_errors(specs).len() == 0) == (distinct_names(all_names(specs, EntityKind::Task))
            && distinct_names(all_names(specs, EntityKind::Job)) && distinct_names(
            all_names(specs, EntityKind::Shell),
        ) && forall|f: int|
            0 <= f < specs.len() ==> {
                &&& forall|i: int|
                    0 <= i < (#[trigger] specs[f]).tasks.pairs().len() ==> task_errors(
                        specs[f].tasks.pairs()[i].0@,
                        specs[f].tasks.pairs()[i].1,
                    ).len() == 0
                &&& forall|i: int|
                    0 <= i < specs[f].jobs.pairs().len() ==> job_errors(
                        specs[f].jobs.pairs()[i].0@,
                        specs[f].jobs.pairs()[i].1,
                        specs[f].tasks.key_seq(),
                    ).len() == 0
                &&& forall|i: int|
                    0 <= i < specs[f].shells.pairs().len() ==> shell_errors(
                        specs[f].shells.pairs()[i].0@,
                        specs[f].shells.pairs()[i].1,
                    ).len() == 0
            }),
{
    lemma_duplicate_errors_empty(specs);
    lemma_all_errors_empty(specs);
    assert forall|f: int| 0 <= f < specs.len() implies file_clean(#[trigger] specs[f]) == {
        &&& forall|i: int|
            0 <= i < specs[f].tasks.pairs().len() ==> task_errors(
                specs[f].tasks.pairs()[i].0@,
                specs[f].tasks.pairs()[i].1,
            ).len() == 0
        &&& forall|i: int|
            0 <= i < specs[f].jobs.pairs().len() ==> job_errors(
                specs[f].jobs.pairs()[i].0@,
                specs[f].jobs.pairs()[i].1,
                specs[f].tasks.key_seq(),
            ).len() == 0
        &&& forall|i: int|
            0 <= i < specs[f].shells.pairs().len() ==> shell_errors(
                specs[f].shells.pairs()[i].0@,
                specs[f].shells.pairs()[i].1,
            ).len() == 0
    } by {
        lemma_tasks_errors_empty(specs[f].tasks.pairs());
        lemma_jobs_errors_empty(specs[f].jobs.pairs(), specs[f].tasks.key_seq());
        lemma_shells_errors_empty(specs[f].shells.pairs());
    }
}

/// Whether none of `es` reports a duplicate name.
pub open spec fn no_duplicate_name(es: Seq<(Seq<char>, ValidationErrorModel)>) -> bool {
    forall|i: int| 0 <= i < es.len() ==> !((#[trigger] es[i]).1 is DuplicateName)
}

/// How many errors of `es` report `name` as a duplicate name of kind `kind`.
pub open spec fn duplicate_reports(
    es: Seq<(Seq<char>, ValidationErrorModel)>,
    kind: Seq<char>,
    name: Seq<char>,
) -> nat
    decreases es.len(),
{
    if es.len() == 0 {
        0
    } else {
        duplicate_reports(es.drop_last(), kind, name) + if es.last() == (
            Seq::<char>::empty(),
            ValidationErrorModel::DuplicateName { kind, name },
        ) {
            1nat
        } else {
            0nat
        }
    }
}

/// How many times `name` occurs in `names`.
pub open spec fn occurrences(names: Seq<Seq<char>>, name: Seq<char>) -> nat
    decreases names.len(),
{
    if names.len() == 0 {
        0
    } else {
        occurrences(names.drop_last(), name) + if names.last() == name {
            1nat
        } else {
            0nat
        }
    }
}

/// How many reports `c` occurrences of one name give: all but the first.
pub open spec fn beyond_first(c: nat) -> nat {
    if c == 0 {
        0
    } else {
        (c - 1) as nat
    }
}

proof fn lemma_reports_append(
    a: Seq<(Seq<char>, ValidationErrorModel)>,
    b: Seq<(Seq<char>, ValidationErrorModel)>,
    kind: Seq<char>,
    name: Seq<char>,
)
    ensures
        duplicate_reports(a + b, kind, name) == duplicate_reports(a, kind, name) + duplicate_reports(
            b,
            kind,
            name,
        ),
    decreases b.len(),
{
    if b.len() == 0 {
        assert(a + b =~= a);
    } else {
        lemma_reports_append(a, b.drop_last(), kind, name);
        assert((a + b).drop_last() =~= a + b.drop_last());
    }
}

proof fn lemma_no_duplicate_name_reports(
    es: Seq<(Seq<char>, ValidationErrorModel)>,
    kind: Seq<char>,
    name: Seq<char>,
)
    requires
        no_duplicate_name(es),
    ensures
        duplicate_reports(es, kind, name) == 0,
    decreases es.len(),
{
    if es.len() > 0 {
        assert forall|i: int| 0 <= i < es.drop_last().len() implies !((
        #[trigger] es.drop_last()[i]).1 is DuplicateName) by {
            assert(es.drop_last()[i] == es[i]);
        }
        lemma_no_duplicate_name_reports(es.drop_last(), kind, name);
        assert(!(es[es.len() - 1].1 is DuplicateName));
    }
}

proof fn lemma_no_duplicate_append(
    a: Seq<(Seq<char>, ValidationErrorModel)>,
    b: Seq<(Seq<char>, ValidationErrorModel)>,
)
    requires
        no_duplicate_name(a),
        no_duplicate_name(b),
    ensures
        no_duplicate_name(a + b),
{
    assert forall|i: int| 0 <= i < (a + b).len() implies !((#[trigger] (a + b)[i]).1 is DuplicateName) by {
        if i < a.len() {
            assert((a + b)[i] == a[i]);
        } else {
            assert((a + b)[i] == b[i - a.len()]);
        }
    }
}

proof fn lemma_blank_errors_no_duplicate(cmds: Seq<Seq<char>>, ctx: Seq<char>, e: ValidationErrorModel)
    requires
        !(e is DuplicateName),
    ensures
        no_duplicate_name(blank_errors(cmds, ctx, e)),
    decreases cmds.len(),
{
    if cmds.len() > 0 {
        lemma_blank_errors_no_duplicate(cmds.drop_last(), ctx, e);
        let r = blank_errors(cmds.drop_last(), ctx, e);
        assert forall|i: int| 0 <= i < r.push((ctx, e)).len() implies !((#[trigger] r.push((ctx, e))[i]).1 is DuplicateName) by {
            if i < r.len() {
                assert(r.push((ctx, e))[i] == r[i]);
            }
        }
    }
}

proof fn lemma_condition_errors_no_duplicate(c: ConditionSpec, ctx: Seq<char>)
    ensures
        no_duplicate_name(at_context(condition_errors(c), ctx)),
{
    let head = if c.cmds.len() == 0 {
        seq![(Seq::<char>::empty(), ValidationErrorModel::EmptyCondition)]
    } else {
        Seq::empty()
    };
    lemma_blank_errors_no_duplicate(c.cmds.deep_view(), Seq::empty(), ValidationErrorModel::EmptyCommandCondition);
    let tail = match c.on_failure {
        Some(p) => at_context(policy_errors(p), Seq::empty()),
        None => Seq::empty(),
    };
    if let Some(p) = c.on_failure {
        lemma_blank_errors_no_duplicate(p.cmds.deep_view(), Seq::empty(), ValidationErrorModel::EmptyCommandFailurePolicy);
        assert forall|i: int| 0 <= i < tail.len() implies !((#[trigger] tail[i]).1 is DuplicateName) by {
            assert(tail[i].1 == policy_errors(p)[i].1);
        }
    }
    lemma_no_duplicate_append(head, blank_errors(c.cmds.deep_view(), Seq::empty(), ValidationErrorModel::EmptyCommandCondition));
    lemma_no_duplicate_append(head + blank_errors(c.cmds.deep_view(), Seq::empty(), ValidationErrorModel::EmptyCommandCondition), tail);
    let all = condition_errors(c);
    assert forall|i: int| 0 <= i < at_context(all, ctx).len() implies !((#[trigger] at_context(all, ctx)[i]).1 is DuplicateName) by {
        assert(at_context(all, ctx)[i].1 == all[i].1);
    }
}

proof fn lemma_env_var_errors_no_duplicate(name: Seq<char>, spec: EnvVarModel, ctx: Seq<char>)
    ensures
        no_duplicate_name(placed(env_var_errors(name, spec), ctx)),
{
    let es = env_var_errors(name, spec);
    lemma_blank_option_errors_kinds(spec.options, name);
    assert forall|i: int| 0 <= i < placed(es, ctx).len() implies !((#[trigger] placed(es, ctx)[i]).1 is DuplicateName) by {
        assert(placed(es, ctx)[i].1 == es[i]);
        let head = if spec.var_type == VarType::Choice && spec.options.len() == 0 {
            seq![ValidationErrorModel::EnvEmptyType { var: name }]
        } else {
            Seq::empty()
        };
        let mid = blank_option_errors(spec.options, name);
        if i >= head.len() && i < head.len() + mid.len() {
            assert(es[i] == mid[i - head.len()]);
        }
    }
}

proof fn lemma_blank_option_errors_kinds(options: Seq<Seq<char>>, var: Seq<char>)
    ensures
        forall|i: int|
            0 <= i < blank_option_errors(options, var).len() ==> #[trigger] blank_option_errors(options, var)[i]
                == (ValidationErrorModel::EnvEmptyOption { var }),
    decreases options.len(),
{
    if options.len() > 0 {
        lemma_blank_option_errors_kinds(options.drop_last(), var);
    }
}

proof fn lemma_env_map_errors_no_duplicate(ps: Seq<(String, EnvVarSpec)>, ctx: Seq<char>)
    ensures
        no_duplicate_name(env_map_errors(ps, ctx)),
    decreases ps.len(),
{
    if ps.len() > 0 {
        lemma_env_map_errors_no_duplicate(ps.drop_last(), ctx);
        lemma_env_var_errors_no_duplicate(ps.last().0@, ps.last().1@, env_context(ctx, ps.last().0@));
        lemma_no_duplicate_append(
            env_map_errors(ps.drop_last(), ctx),
            placed(env_var_errors(ps.last().0@, ps.last().1@), env_context(ctx, ps.last().0@)),
        );
    }
}

proof fn lemma_preconditions_errors_no_duplicate(cs: Seq<ConditionSpec>, ctx: Seq<char>)
    ensures
        no_duplicate_name(preconditions_errors(cs, ctx)),
    decreases cs.len(),
{
    if cs.len() > 0 {
        lemma_preconditions_errors_no_duplicate(cs.drop_last(), ctx);
        lemma_condition_errors_no_duplicate(cs.last(), ctx);
        lemma_no_duplicate_append(preconditions_errors(cs.drop_last(), ctx), at_context(condition_errors(cs.last()), ctx));
    }
}

proof fn lemma_task_errors_no_duplicate(name: Seq<char>, task: TaskSpec)
    ensures
        no_duplicate_name(task_errors(name, task)),
{
    let ctx = task_context(name);
    let a = if task.cmds.len() == 0 {
        seq![(ctx, ValidationErrorModel::EmptyTask { task: name })]
    } else {
        Seq::empty()
    };
    let b = blank_errors(task.cmds.deep_view(), ctx, ValidationErrorModel::EmptyCommandTask { task: name });
    let c = env_map_errors(task.env.pairs(), ctx);
    let d = preconditions_errors(task.preconditions@, ctx + " precondition"@);
    lemma_blank_errors_no_duplicate(task.cmds.deep_view(), ctx, ValidationErrorModel::EmptyCommandTask { task: name });
    lemma_env_map_errors_no_duplicate(task.env.pairs(), ctx);
    lemma_preconditions_errors_no_duplicate(task.preconditions@, ctx + " precondition"@);
    lemma_no_duplicate_append(a, b);
    lemma_no_duplicate_append(a + b, c);
    lemma_no_duplicate_append(a + b + c, d);
}

proof fn lemma_unknown_task_errors_no_duplicate(job: Seq<char>, tasks: Seq<Seq<char>>, known: Seq<Seq<char>>)
    ensures
        no_duplicate_name(unknown_task_errors(job, tasks, known)),
    decreases tasks.len(),
{
    if tasks.len() > 0 {
        lemma_unknown_task_errors_no_duplicate(job, tasks.drop_last(), known);
        let r = unknown_task_errors(job, tasks.drop_last(), known);
        let e = (Seq::<char>::empty(), ValidationErrorModel::UnknownTask { job, task: tasks.last() });
        assert forall|i: int| 0 <= i < r.push(e).len() implies !((#[trigger] r.push(e)[i]).1 is DuplicateName) by {
            if i < r.len() {
                assert(r.push(e)[i] == r[i]);
            }
        }
    }
}

proof fn lemma_job_errors_no_duplicate(name: Seq<char>, job: JobSpec, known: Seq<Seq<char>>)
    ensures
        no_duplicate_name(job_errors(name, job, known)),
{
    let a = if job.tasks.len() == 0 {
        seq![(Seq::<char>::empty(), ValidationErrorModel::EmptyJob { job: name })]
    } else {
        Seq::empty()
    };
    let b = unknown_task_errors(name, job.tasks.deep_view(), known);
    let c = env_map_errors(job.env.pairs(), job_context(name));
    lemma_unknown_task_errors_no_duplicate(name, job.tasks.deep_view(), known);
    lemma_env_map_errors_no_duplicate(job.env.pairs(), job_context(name));
    lemma_no_duplicate_append(a, b);
    lemma_no_duplicate_append(a + b, c);
}

proof fn lemma_entity_errors_no_duplicate(specs: Seq<SpecFile>)
    ensures
        no_duplicate_name(all_task_errors(specs)),
        no_duplicate_name(all_job_errors(specs)),
        no_duplicate_name(all_shell_errors(specs)),
    decreases specs.len(),
{
    if specs.len() > 0 {
        let f = specs.last();
        lemma_entity_errors_no_duplicate(specs.drop_last());
        lemma_tasks_no_duplicate(f.tasks.pairs());
        lemma_jobs_no_duplicate(f.jobs.pairs(), f.tasks.key_seq());
        lemma_shells_no_duplicate(f.shells.pairs());
        lemma_no_duplicate_append(all_task_errors(specs.drop_last()), tasks_errors(f.tasks.pairs()));
        lemma_no_duplicate_append(all_job_errors(specs.drop_last()), jobs_errors(f.jobs.pairs(), f.tasks.key_seq()));
        lemma_no_duplicate_append(all_shell_errors(specs.drop_last()), shells_errors(f.shells.pairs()));
    }
}

proof fn lemma_tasks_no_duplicate(ps: Seq<(String, TaskSpec)>)
    ensures
        no_duplicate_name(tasks_errors(ps)),
    decreases ps.len(),
{
    if ps.len() > 0 {
        lemma_tasks_no_duplicate(ps.drop_last());
        lemma_task_errors_no_duplicate(ps.last().0@, ps.last().1);
        lemma_no_duplicate_append(tasks_errors(ps.drop_last()), task_errors(ps.last().0@, ps.last().1));
    }
}

proof fn lemma_jobs_no_duplicate(ps: Seq<(String, JobSpec)>, known: Seq<Seq<char>>)
    ensures
        no_duplicate_name(jobs_errors(ps, known)),
    decreases ps.len(),
{
    if ps.len() > 0 {
        lemma_jobs_no_duplicate(ps.drop_last(), known);
        lemma_job_errors_no_duplicate(ps.last().0@, ps.last().1, known);
        lemma_no_duplicate_append(jobs_errors(ps.drop_last(), known), job_errors(ps.last().0@, ps.last().1, known));
    }
}

proof fn lemma_shells_no_duplicate(ps: Seq<(String, ShellSpec)>)
    ensures
        no_duplicate_name(shells_errors(ps)),
    decreases ps.len(),
{
    if ps.len() > 0 {
        lemma_shells_no_duplicate(ps.drop_last());
        let s = ps.last();
        lemma_blank_errors_no_duplicate(
            s.1.init_cmds.deep_view(),
            Seq::empty(),
            ValidationErrorModel::EmptyCommandShell { shell: s.0@ },
        );
        lemma_no_duplicate_append(shells_errors(ps.drop_last()), shell_errors(s.0@, s.1));
    }
}

proof fn lemma_duplicates_reports(seen: Seq<Seq<char>>, names: Seq<Seq<char>>, k: EntityKind, kind: Seq<char>, name: Seq<char>)
    ensures
        duplicate_reports(duplicates(seen, names, k), kind, name) + beyond_first(occurrences(seen, name)) == if kind
            == kind_name(k) {
            beyond_first(occurrences(seen + names, name))
        } else {
            beyond_first(occurrences(seen, name))
        },
    decreases names.len(),
{
    if names.len() == 0 {
        assert(seen + names =~= seen);
    } else {
        let init = names.drop_last();
        lemma_duplicates_reports(seen, init, k, kind, name);
        assert((seen + names).drop_last() =~= seen + init);
        assert((seen + names).last() == names.last());
        lemma_occurrences_contains(seen + init, name);
        let r = duplicates(seen, init, k);
        let x = (
            Seq::<char>::empty(),
            ValidationErrorModel::DuplicateName { kind: kind_name(k), name: names.last() },
        );
        assert(r.push(x).drop_last() =~= r);
        assert(r.push(x).last() == x);
    }
}

proof fn lemma_occurrences_contains(names: Seq<Seq<char>>, name: Seq<char>)
    ensures
        (occurrences(names, name) > 0) == names.contains(name),
    decreases names.len(),
{
    if names.len() > 0 {
        let init = names.drop_last();
        lemma_occurrences_contains(init, name);
        if init.contains(name) {
            let j = choose|j: int| 0 <= j < init.len() && init[j] == name;
            assert(names[j] == name);
        }
        if names.contains(name) {
            let j = choose|j: int| 0 <= j < names.len() && names[j] == name;
            if j < init.len() {
                assert(init[j] == name);
            }
        }
    }
}

proof fn lemma_duplicate_errors_reports(specs: Seq<SpecFile>, k: EntityKind, name: Seq<char>)
    ensures
        duplicate_reports(duplicate_errors(specs), kind_name(k), name) == beyond_first(
            occurrences(all_names(specs, k), name),
        ),
    decreases specs.len(),
{
    reveal_strlit("task");
    reveal_strlit("job");
    reveal_strlit("shell");
    if specs.len() > 0 {
        let before = specs.drop_last();
        let last = specs.last();
        let kind = kind_name(k);
        lemma_duplicate_errors_reports(before, k, name);
        let dt = duplicates(all_names(before, EntityKind::Task), names_of(last, EntityKind::Task), EntityKind::Task);
        let dj = duplicates(all_names(before, EntityKind::Job), names_of(last, EntityKind::Job), EntityKind::Job);
        let ds = duplicates(all_names(before, EntityKind::Shell), names_of(last, EntityKind::Shell), EntityKind::Shell);
        lemma_duplicates_reports(all_names(before, EntityKind::Task), names_of(last, EntityKind::Task), EntityKind::Task, kind, name);
        lemma_duplicates_reports(all_names(before, EntityKind::Job), names_of(last, EntityKind::Job), EntityKind::Job, kind, name);
        lemma_duplicates_reports(all_names(before, EntityKind::Shell), names_of(last, EntityKind::Shell), EntityKind::Shell, kind, name);
        lemma_reports_append(duplicate_errors(before), dt, kind, name);
        lemma_reports_append(duplicate_errors(before) + dt, dj, kind, name);
        lemma_reports_append(duplicate_errors(before) + dt + dj, ds, kind, name);
        assert(kind_name(EntityKind::Task).len() == 4);
        assert(kind_name(EntityKind::Job).len() == 3);
        assert(kind_name(EntityKind::Shell).len() == 5);
        assert(all_names(specs, k) == all_names(before, k) + names_of(last, k));
        assert(duplicate_errors(specs) == duplicate_errors(before) + dt + dj + ds);
    }
}

/// How many of `specs` declare `name` among their names of kind `k`.
pub open spec fn files_declaring(specs: Seq<SpecFile>, k: EntityKind, name: Seq<char>) -> nat
    decreases specs.len(),
{
    if specs.len() == 0 {
        0
    } else {
        files_declaring(specs.drop_last(), k, name) + if names_of(specs.last(), k).contains(name) {
            1nat
        } else {
            0nat
        }
    }
}

/// Whether no file of `specs` declares a name twice (which the maps of a spec file ensure).
pub open spec fn files_well_keyed(specs: Seq<SpecFile>) -> bool {
    forall|f: int|
        0 <= f < specs.len() ==> distinct_keys((#[trigger] specs[f]).tasks.pairs()) && distinct_keys(
            specs[f].jobs.pairs(),
        ) && distinct_keys(specs[f].shells.pairs())
}

proof fn lemma_occurrences_append(a: Seq<Seq<char>>, b: Seq<Seq<char>>, name: Seq<char>)
    ensures
        occurrences(a + b, name) == occurrences(a, name) + occurrences(b, name),
    decreases b.len(),
{
    if b.len() == 0 {
        assert(a + b =~= a);
    } else {
        lemma_occurrences_append(a, b.drop_last(), name);
        assert((a + b).drop_last() =~= a + b.drop_last());
    }
}

proof fn lemma_occurrences_distinct(names: Seq<Seq<char>>, name: Seq<char>)
    requires
        distinct_names(names),
    ensures
        occurrences(names, name) == if names.contains(name) {
            1nat
        } else {
            0nat
        },
    decreases names.len(),
{
    if names.len() > 0 {
        let init = names.drop_last();
        assert(distinct_names(init)) by {
            assert forall|i: int, j: int| 0 <= i < j < init.len() implies init[i] != init[j] by {
                assert(init[i] == names[i] && init[j] == names[j]);
            }
        }
        lemma_occurrences_distinct(init, name);
        if init.contains(name) {
            let j = choose|j: int| 0 <= j < init.len() && init[j] == name;
            assert(names[j] == name);
            assert(names[j] != names[names.len() - 1]);
        }
        if names.contains(name) && names.last() != name {
            let j = choose|j: int| 0 <= j < names.len() && names[j] == name;
            assert(init[j] == name);
        }
    }
}

proof fn lemma_occurrences_files(specs: Seq<SpecFile>, k: EntityKind, name: Seq<char>)
    requires
        files_well_keyed(specs),
    ensures
        occurrences(all_names(specs, k), name) == files_declaring(specs, k, name),
    decreases specs.len(),
{
    if specs.len() > 0 {
        let before = specs.drop_last();
        let last = specs.last();
        assert(files_well_keyed(before)) by {
            assert forall|f: int| 0 <= f < before.len() implies distinct_keys((#[trigger] before[f]).tasks.pairs())
                && distinct_keys(before[f].jobs.pairs()) && distinct_keys(before[f].shells.pairs()) by {
                assert(before[f] == specs[f]);
            }
        }
        lemma_occurrences_files(before, k, name);
        lemma_occurrences_append(all_names(before, k), names_of(last, k), name);
        assert(specs[specs.len() - 1] == last);
        let ps_names = names_of(last, k);
        assert(distinct_names(ps_names)) by {
            assert forall|i: int, j: int| 0 <= i < j < ps_names.len() implies ps_names[i] != ps_names[j] by {
                match k {
                    EntityKind::Task => {
                        assert(ps_names[i] == last.tasks.pairs()[i].0@);
                        assert(ps_names[j] == last.tasks.pairs()[j].0@);
                    },
                    EntityKind::Job => {
                        assert(ps_names[i] == last.jobs.pairs()[i].0@);
                        assert(ps_names[j] == last.jobs.pairs()[j].0@);
                    },
                    EntityKind::Shell => {
                        assert(ps_names[i] == last.shells.pairs()[i].0@);
                        assert(ps_names[j] == last.shells.pairs()[j].0@);
                    },
                }
            }
        }
        lemma_occurrences_distinct(ps_names, name);
    }
}

/// Of a name that `c` of a project's files use for a task (likewise for a job or a shell),
/// validation reports all but the first use as a duplicate name, with no context: `c - 1`
/// reports, none for a name that one file uses.
pub proof fn law_duplicate_name_reports(specs: Seq<SpecFile>, k: EntityKind, name: Seq<char>)
    requires
        files_well_keyed(specs),
    ensures
        duplicate_reports(project_errors(specs), kind_name(k), name) == beyond_first(
            files_declaring(specs, k, name),
        ),
{
    lemma_occurrences_files(specs, k, name);
    lemma_duplicate_errors_reports(specs, k, name);
    lemma_entity_errors_no_duplicate(specs);
    let d = duplicate_errors(specs);
    let t = all_task_errors(specs);
    let j = all_job_errors(specs);
    let s = all_shell_errors(specs);
    lemma_no_duplicate_name_reports(t, kind_name(k), name);
    lemma_no_duplicate_name_reports(j, kind_name(k), name);
    lemma_no_duplicate_name_reports(s, kind_name(k), name);
    lemma_reports_append(d, t, kind_name(k), name);
    lemma_reports_append(d + t, j, kind_name(k), name);
    lemma_reports_append(d + t + j, s, kind_name(k), name);
}

} // verus!
