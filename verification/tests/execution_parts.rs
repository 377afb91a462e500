use meriadoc::error::MeriadocError;
use meriadoc::env::ResolvedEnv;
use meriadoc::executor::{mask_secrets, truncate_output, CommandResult, CommandRunner};
use meriadoc::interactive::{InteractiveShell, ShellType};
use meriadoc::interpolate::Interpolator;
use meriadoc::strmap::StrMap;

fn make_env(pairs: &[(&str, &str)]) -> ResolvedEnv {
    let mut m = StrMap::new();
    for (k, v) in pairs {
        m.insert(k.to_string(), v.to_string());
    }
    m
}

#[test]
fn test_truncate_output_short() {
    let output = "hello".to_string();
    let truncated = truncate_output(output.clone(), 100);
    assert_eq!(truncated, output);
}

#[test]
fn test_truncate_output_long() {
    let output = "a".repeat(200);
    let truncated = truncate_output(output.clone(), 100);
    assert!(truncated.len() < output.len());
    assert!(truncated.contains("[truncated, 200 bytes total]"));
}

#[test]
fn truncate_output_keeps_the_first_bytes_and_a_note() {
    let output = "a".repeat(200);
    let truncated = truncate_output(output, 100);
    assert_eq!(truncated, format!("{}... [truncated, 200 bytes total]", "a".repeat(100)));
}

#[test]
fn truncate_output_cuts_at_a_character_boundary() {
    let output = "é".repeat(10);
    let truncated = truncate_output(output, 5);
    assert!(truncated.starts_with("éé..."));
    assert!(truncated.contains("[truncated, 20 bytes total]"));
}

#[test]
fn test_detect_shell_type_zsh() {
    assert_eq!(InteractiveShell::detect_shell_type("/bin/zsh"), ShellType::Zsh);
    assert_eq!(InteractiveShell::detect_shell_type("/usr/local/bin/zsh"), ShellType::Zsh);
    assert_eq!(InteractiveShell::detect_shell_type("/opt/homebrew/bin/zsh-5.9"), ShellType::Zsh);
}

#[test]
fn test_detect_shell_type_bash() {
    assert_eq!(InteractiveShell::detect_shell_type("/bin/bash"), ShellType::Bash);
    assert_eq!(InteractiveShell::detect_shell_type("/usr/local/bin/bash"), ShellType::Bash);
    assert_eq!(InteractiveShell::detect_shell_type("/opt/homebrew/bin/bash-5.2"), ShellType::Bash);
}

#[test]
fn test_detect_shell_type_other() {
    assert_eq!(InteractiveShell::detect_shell_type("/bin/sh"), ShellType::Other);
    assert_eq!(InteractiveShell::detect_shell_type("/bin/fish"), ShellType::Other);
    assert_eq!(InteractiveShell::detect_shell_type("/usr/bin/tcsh"), ShellType::Other);
}

#[test]
fn detect_shell_type_ignores_case_and_the_directory() {
    assert_eq!(InteractiveShell::detect_shell_type("/usr/bin/ZSH"), ShellType::Zsh);
    assert_eq!(InteractiveShell::detect_shell_type("/zsh/bin/sh"), ShellType::Other);
}

#[test]
fn test_no_variables() {
    let env = make_env(&[]);
    assert_eq!(Interpolator::interpolate("hello world", &env), "hello world");
}

#[test]
fn test_simple_variable() {
    let env = make_env(&[("NAME", "Alice")]);
    assert_eq!(Interpolator::interpolate("Hello ${NAME}!", &env), "Hello Alice!");
}

#[test]
fn test_simple_variable_no_braces() {
    let env = make_env(&[("NAME", "Alice")]);
    assert_eq!(Interpolator::interpolate("Hello $NAME!", &env), "Hello Alice!");
}

#[test]
fn test_multiple_variables() {
    let env = make_env(&[("FIRST", "Hello"), ("SECOND", "World")]);
    assert_eq!(Interpolator::interpolate("${FIRST} ${SECOND}!", &env), "Hello World!");
}

#[test]
fn test_undefined_variable_empty() {
    let env = make_env(&[]);
    assert_eq!(Interpolator::interpolate("Hello ${NAME}!", &env), "Hello !");
}

#[test]
fn test_default_value_when_undefined() {
    let env = make_env(&[]);
    assert_eq!(Interpolator::interpolate("Hello ${NAME:-World}!", &env), "Hello World!");
}

#[test]
fn test_default_value_not_used_when_defined() {
    let env = make_env(&[("NAME", "Alice")]);
    assert_eq!(Interpolator::interpolate("Hello ${NAME:-World}!", &env), "Hello Alice!");
}

#[test]
fn test_empty_default_value() {
    let env = make_env(&[]);
    assert_eq!(Interpolator::interpolate("Hello ${NAME:-}!", &env), "Hello !");
}

#[test]
fn test_escaped_dollar() {
    let env = make_env(&[("NAME", "Alice")]);
    assert_eq!(Interpolator::interpolate("Cost: $$100", &env), "Cost: $100");
}

#[test]
fn test_dollar_not_followed_by_var() {
    let env = make_env(&[]);
    assert_eq!(Interpolator::interpolate("$5 bill", &env), "$5 bill");
}

#[test]
fn test_special_variables() {
    let env = make_env(&[("NAME", "Alice")]);
    let special = make_env(&[("PROJECT_ROOT", "/home/user/project")]);
    assert_eq!(
        Interpolator::interpolate_with_special("Root: ${PROJECT_ROOT}, Name: ${NAME}", &env, &special),
        "Root: /home/user/project, Name: Alice"
    );
}

#[test]
fn test_special_overrides_env() {
    let env = make_env(&[("VAR", "from_env")]);
    let special = make_env(&[("VAR", "from_special")]);
    assert_eq!(Interpolator::interpolate_with_special("${VAR}", &env, &special), "from_special");
}

#[test]
fn test_interpolate_all() {
    let env = make_env(&[("NAME", "World")]);
    let inputs = vec!["Hello ${NAME}".to_string(), "Goodbye ${NAME}".to_string()];
    let result = Interpolator::interpolate_all(&inputs, &env);
    assert_eq!(result, vec!["Hello World", "Goodbye World"]);
}

#[test]
fn test_variable_at_end() {
    let env = make_env(&[("NAME", "test")]);
    assert_eq!(Interpolator::interpolate("value=${NAME}", &env), "value=test");
}

#[test]
fn test_adjacent_variables() {
    let env = make_env(&[("A", "foo"), ("B", "bar")]);
    assert_eq!(Interpolator::interpolate("${A}${B}", &env), "foobar");
}

#[test]
fn test_underscore_in_variable_name() {
    let env = make_env(&[("MY_VAR", "value")]);
    assert_eq!(Interpolator::interpolate("${MY_VAR}", &env), "value");
    assert_eq!(Interpolator::interpolate("$MY_VAR", &env), "value");
}

#[test]
fn test_numbers_in_variable_name() {
    let env = make_env(&[("VAR123", "value")]);
    assert_eq!(Interpolator::interpolate("${VAR123}", &env), "value");
    assert_eq!(Interpolator::interpolate("$VAR123", &env), "value");
}

#[test]
fn interpolation_of_plain_text_changes_nothing() {
    let env = make_env(&[("A", "x")]);
    assert_eq!(Interpolator::interpolate("no dollars at all", &env), "no dollars at all");
}

#[test]
fn unterminated_brace_reads_to_the_end() {
    let env = make_env(&[("A", "x")]);
    assert_eq!(Interpolator::interpolate("${A", &env), "x");
}

#[test]
fn mask_secrets_hides_secret_values() {
    let env = make_env(&[("TOKEN", "s3cr3t")]);
    let secrets = vec!["TOKEN".to_string()];
    assert_eq!(mask_secrets("token=s3cr3t!", &env, &secrets), "token=***!");
}

#[test]
fn masking_leaves_no_secret_value_behind() {
    let env = make_env(&[("A", "ab"), ("B", "x"), ("C", "")]);
    let secrets = vec!["B".to_string(), "A".to_string(), "C".to_string(), "MISSING".to_string()];
    let shown = mask_secrets("axb ab xx", &env, &secrets);
    assert_eq!(shown, "a***b *** ******");
    assert!(!shown.contains("ab") && !shown.contains('x'));
}

#[test]
fn masking_text_without_secret_values_changes_nothing() {
    let env = make_env(&[("A", "hidden")]);
    let secrets = vec!["A".to_string()];
    assert_eq!(mask_secrets("plain output", &env, &secrets), "plain output");
}

fn ok(out: &str) -> CommandResult {
    CommandResult { exit_code: 0, success: true, stdout: out.to_string(), stderr: String::new() }
}

fn failed(code: i32) -> CommandResult {
    CommandResult { exit_code: code, success: false, stdout: String::new(), stderr: String::new() }
}

#[test]
fn commands_stop_at_the_first_failure() {
    assert_eq!(CommandRunner::next_command(3, &[ok("a")]), Some(1));
    assert_eq!(CommandRunner::next_command(3, &[ok("a"), failed(2)]), None);
    assert_eq!(CommandRunner::next_command(2, &[ok("a"), ok("b")]), None);
}

#[test]
fn workdir_is_below_project_root_or_base() {
    assert_eq!(CommandRunner::workdir_path(Some("src"), "/work/p", "/work/p/sub"), "/work/p/src");
    assert_eq!(CommandRunner::workdir_path(Some("/abs"), "/work/p", "/base"), "/abs");
    assert_eq!(CommandRunner::workdir_path(None, "/work/p", "/work/p/sub"), "/work/p/sub");
    match CommandRunner::missing_workdir("/work/p/nope") {
        MeriadocError::Execution(m) => assert_eq!(m, "workdir does not exist: /work/p/nope"),
        _ => panic!("execution error expected"),
    }
}
