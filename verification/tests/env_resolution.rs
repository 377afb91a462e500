use meriadoc::dotenv::dotenv_is_well_formed;
use meriadoc::env::{EnvResolver, ResolvedEnv};
use meriadoc::error::{MeriadocError, ValidationError};
use meriadoc::spec::{EnvVarSpec, VarType};
use meriadoc::strmap::StrMap;

fn make_env_spec(default: Option<&str>, required: bool) -> EnvVarSpec {
    EnvVarSpec {
        var_type: VarType::String,
        default: default.map(|s| s.to_string()),
        options: vec![],
        required,
    }
}

fn make_choice_spec(default: Option<&str>, options: &[&str]) -> EnvVarSpec {
    EnvVarSpec {
        var_type: VarType::Choice,
        default: default.map(|s| s.to_string()),
        options: options.iter().map(|s| s.to_string()).collect(),
        required: false,
    }
}

fn inline(entries: Vec<(&str, EnvVarSpec)>) -> StrMap<EnvVarSpec> {
    let mut m = StrMap::new();
    for (k, v) in entries {
        m.insert(k.to_string(), v);
    }
    m
}

fn get(env: &ResolvedEnv, k: &str) -> Option<String> {
    env.get(k).cloned()
}

#[test]
fn test_resolve_empty_inputs() {
    let result = EnvResolver::resolve(&StrMap::new(), &[], &[]);
    assert!(result.is_ok());
    assert!(result.unwrap().is_empty());
}

#[test]
fn test_resolve_inline_env_with_defaults() {
    let env = inline(vec![("FOO", make_env_spec(Some("bar"), false)), ("BAZ", make_env_spec(Some("qux"), false))]);
    let result = EnvResolver::resolve(&env, &[], &[]).unwrap();
    assert_eq!(get(&result, "FOO"), Some("bar".to_string()));
    assert_eq!(get(&result, "BAZ"), Some("qux".to_string()));
}

#[test]
fn test_resolve_cli_overrides_inline() {
    let env = inline(vec![("FOO", make_env_spec(Some("from_inline"), false))]);
    let cli_env = vec![("FOO".to_string(), "from_cli".to_string())];
    let result = EnvResolver::resolve(&env, &[], &cli_env).unwrap();
    assert_eq!(get(&result, "FOO"), Some("from_cli".to_string()));
}

#[test]
fn resolve_inline_overrides_env_file_and_cli_overrides_all() {
    let env = inline(vec![("B", make_env_spec(Some("inline_b"), false)), ("C", make_env_spec(Some("inline_c"), false))]);
    let files = vec![Some("A=file_a\nB=file_b\nC=file_c\n".to_string())];
    let cli_env = vec![("C".to_string(), "cli_c".to_string())];
    let result = EnvResolver::resolve(&env, &files, &cli_env).unwrap();
    assert_eq!(get(&result, "A"), Some("file_a".to_string()));
    assert_eq!(get(&result, "B"), Some("inline_b".to_string()));
    assert_eq!(get(&result, "C"), Some("cli_c".to_string()));
}

#[test]
fn resolve_reads_comments_quotes_and_equals_in_files() {
    let files = vec![Some(
        "# comment\nFOO=\"hello world\"\n\n   \nBAR='single'\nCONNECTION=host=localhost;port=5432\n".to_string(),
    )];
    let result = EnvResolver::resolve(&StrMap::new(), &files, &[]).unwrap();
    assert_eq!(result.len(), 3);
    assert_eq!(get(&result, "FOO"), Some("hello world".to_string()));
    assert_eq!(get(&result, "BAR"), Some("single".to_string()));
    assert_eq!(get(&result, "CONNECTION"), Some("host=localhost;port=5432".to_string()));
}

#[test]
fn test_resolve_required_var_missing_errors() {
    let env = inline(vec![("REQUIRED_VAR", make_env_spec(None, true))]);
    let result = EnvResolver::resolve(&env, &[], &[]);
    assert!(result.is_err());
    match result.unwrap_err() {
        MeriadocError::Validation(ValidationError::MissingRequiredEnv { var }) => {
            assert_eq!(var, "REQUIRED_VAR");
        }
        _ => panic!("Expected MissingRequiredEnv error"),
    }
}

#[test]
fn test_resolve_required_var_with_default_ok() {
    let env = inline(vec![("REQUIRED_VAR", make_env_spec(Some("default_value"), true))]);
    let result = EnvResolver::resolve(&env, &[], &[]).unwrap();
    assert_eq!(get(&result, "REQUIRED_VAR"), Some("default_value".to_string()));
}

#[test]
fn test_resolve_required_var_from_cli_ok() {
    let env = inline(vec![("REQUIRED_VAR", make_env_spec(None, true))]);
    let cli_env = vec![("REQUIRED_VAR".to_string(), "provided".to_string())];
    let result = EnvResolver::resolve(&env, &[], &cli_env).unwrap();
    assert_eq!(get(&result, "REQUIRED_VAR"), Some("provided".to_string()));
}

#[test]
fn test_env_file_missing_is_ignored() {
    let result = EnvResolver::resolve(&StrMap::new(), &[None], &[]);
    assert!(result.is_ok());
    assert!(result.unwrap().is_empty());
}

#[test]
fn test_merge_job_env_overrides_task() {
    let mut task_env = ResolvedEnv::new();
    task_env.insert("A".to_string(), "task_a".to_string());
    task_env.insert("B".to_string(), "task_b".to_string());
    let job_env = inline(vec![("B", make_env_spec(Some("job_b"), false)), ("C", make_env_spec(Some("job_c"), false))]);
    let result = EnvResolver::merge_job_env(task_env, &job_env);
    assert_eq!(get(&result, "A"), Some("task_a".to_string()));
    assert_eq!(get(&result, "B"), Some("job_b".to_string()));
    assert_eq!(get(&result, "C"), Some("job_c".to_string()));
}

#[test]
fn test_merge_job_env_no_default_skipped() {
    let mut task_env = ResolvedEnv::new();
    task_env.insert("A".to_string(), "task_a".to_string());
    let job_env = inline(vec![("A", make_env_spec(None, false))]);
    let result = EnvResolver::merge_job_env(task_env, &job_env);
    assert_eq!(get(&result, "A"), Some("task_a".to_string()));
}

#[test]
fn test_choice_validation_valid_default() {
    let env = inline(vec![("ENV", make_choice_spec(Some("dev"), &["dev", "staging", "prod"]))]);
    let result = EnvResolver::resolve(&env, &[], &[]);
    assert!(result.is_ok());
    assert_eq!(get(&result.unwrap(), "ENV"), Some("dev".to_string()));
}

#[test]
fn test_choice_validation_valid_cli_override() {
    let env = inline(vec![("ENV", make_choice_spec(Some("dev"), &["dev", "staging", "prod"]))]);
    let cli_env = vec![("ENV".to_string(), "prod".to_string())];
    let result = EnvResolver::resolve(&env, &[], &cli_env);
    assert!(result.is_ok());
    assert_eq!(get(&result.unwrap(), "ENV"), Some("prod".to_string()));
}

#[test]
fn test_choice_validation_invalid_value_errors() {
    let env = inline(vec![("ENV", make_choice_spec(Some("dev"), &["dev", "staging", "prod"]))]);
    let cli_env = vec![("ENV".to_string(), "invalid".to_string())];
    let result = EnvResolver::resolve(&env, &[], &cli_env);
    assert!(result.is_err());
    match result.unwrap_err() {
        MeriadocError::Validation(ValidationError::InvalidChoice { var, value, options }) => {
            assert_eq!(var, "ENV");
            assert_eq!(value, "invalid");
            assert_eq!(options, vec!["dev", "staging", "prod"]);
        }
        _ => panic!("Expected InvalidChoice error"),
    }
}

#[test]
fn test_choice_validation_no_options_skips_validation() {
    let env = inline(vec![("FOO", make_env_spec(Some("anything"), false))]);
    let cli_env = vec![("FOO".to_string(), "literally_anything".to_string())];
    let result = EnvResolver::resolve(&env, &[], &cli_env);
    assert!(result.is_ok());
}

#[test]
fn test_choice_validation_undefined_var_skips() {
    let env = inline(vec![(
        "ENV",
        EnvVarSpec {
            var_type: VarType::Choice,
            default: None,
            options: vec!["dev".to_string(), "prod".to_string()],
            required: false,
        },
    )]);
    let result = EnvResolver::resolve(&env, &[], &[]);
    assert!(result.is_ok());
    assert!(get(&result.unwrap(), "ENV").is_none());
}

#[test]
fn test_dotenv_is_well_formed() {
    assert!(dotenv_is_well_formed("A=1\nB=\"x y\"\n"));
    assert!(dotenv_is_well_formed("# A=\"\n\nC='q'"));
    assert!(dotenv_is_well_formed(""));
    assert!(!dotenv_is_well_formed("A=1\nB=\"\n"));
    assert!(!dotenv_is_well_formed("B=  '  "));
}

#[test]
fn partial_resolution_reports_exactly_the_missing_and_the_invalid() {
    let env = inline(vec![
        ("NEEDED", make_env_spec(None, true)),
        ("GIVEN", make_env_spec(None, true)),
        ("OPTIONAL", make_env_spec(None, false)),
        ("MODE", make_choice_spec(None, &["fast", "slow"])),
        ("LEVEL", make_choice_spec(None, &["low", "high"])),
        ("UNSET", make_choice_spec(None, &["a", "b"])),
    ]);
    let cli = vec![
        ("GIVEN".to_string(), "yes".to_string()),
        ("MODE".to_string(), "medium".to_string()),
        ("LEVEL".to_string(), "high".to_string()),
    ];
    let r = EnvResolver::resolve_partial(&env, &[], &cli);
    let missing: Vec<&str> = r.missing.iter().map(|m| m.name.as_str()).collect();
    assert_eq!(missing, vec!["NEEDED"]);
    assert_eq!(r.invalid_choices.len(), 1);
    assert_eq!(r.invalid_choices[0].name, "MODE");
    assert_eq!(r.invalid_choices[0].value, "medium");
    assert_eq!(r.invalid_choices[0].options, vec!["fast", "slow"]);
}
