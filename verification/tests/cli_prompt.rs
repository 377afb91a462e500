use meriadoc::cli::{parse_key_val, parse_timeout};
use meriadoc::env::MissingVar;
use meriadoc::prompt::{CliPrompter, EditableVar};
use meriadoc::spec::{EnvVarSpec, VarType};

fn make_var(name: &str, var_type: VarType, default: Option<&str>, options: &[&str]) -> MissingVar {
    MissingVar {
        name: name.to_string(),
        spec: EnvVarSpec {
            var_type,
            default: default.map(|s| s.to_string()),
            options: options.iter().map(|s| s.to_string()).collect(),
            required: true,
        },
    }
}

fn make_editable(
    name: &str,
    var_type: VarType,
    default: Option<&str>,
    options: &[&str],
    current: Option<&str>,
) -> EditableVar {
    EditableVar {
        name: name.to_string(),
        spec: EnvVarSpec {
            var_type,
            default: default.map(|s| s.to_string()),
            options: options.iter().map(|s| s.to_string()).collect(),
            required: true,
        },
        current_value: current.map(|s| s.to_string()),
    }
}

#[test]
fn test_parse_key_val_valid() {
    assert_eq!(parse_key_val("FOO=bar").unwrap(), ("FOO".to_string(), "bar".to_string()));
}

#[test]
fn test_parse_key_val_empty_value() {
    assert_eq!(parse_key_val("FOO=").unwrap(), ("FOO".to_string(), "".to_string()));
}

#[test]
fn test_parse_key_val_value_with_equals() {
    assert_eq!(parse_key_val("FOO=bar=baz").unwrap(), ("FOO".to_string(), "bar=baz".to_string()));
}

#[test]
fn test_parse_key_val_invalid() {
    assert!(parse_key_val("FOOBAR").is_err());
}

#[test]
fn parse_key_val_error_names_the_input() {
    let e = parse_key_val("FOOBAR").unwrap_err();
    assert!(e.contains("FOOBAR"));
}

#[test]
fn test_prompt_single_string() {
    let mut prompter = CliPrompter::with_streams("my-value\n");
    let var = make_var("API_KEY", VarType::String, None, &[]);
    let result = prompter.prompt_single(&var).unwrap();
    assert_eq!(result, "my-value");
}

#[test]
fn test_prompt_single_choice_by_number() {
    let mut prompter = CliPrompter::with_streams("2\n");
    let var = make_var("ENV", VarType::Choice, Some("dev"), &["dev", "staging", "prod"]);
    let result = prompter.prompt_single(&var).unwrap();
    assert_eq!(result, "staging");
}

#[test]
fn test_prompt_single_choice_by_name() {
    let mut prompter = CliPrompter::with_streams("prod\n");
    let var = make_var("ENV", VarType::Choice, Some("dev"), &["dev", "staging", "prod"]);
    let result = prompter.prompt_single(&var).unwrap();
    assert_eq!(result, "prod");
}

#[test]
fn test_prompt_single_choice_default() {
    let mut prompter = CliPrompter::with_streams("\n");
    let var = make_var("ENV", VarType::Choice, Some("staging"), &["dev", "staging", "prod"]);
    let result = prompter.prompt_single(&var).unwrap();
    assert_eq!(result, "staging");
}

#[test]
fn test_prompt_single_string_default() {
    let mut prompter = CliPrompter::with_streams("\n");
    let var = make_var("API_KEY", VarType::String, Some("default-key"), &[]);
    let result = prompter.prompt_single(&var).unwrap();
    assert_eq!(result, "default-key");
}

#[test]
fn test_prompt_editable_keeps_current() {
    let mut prompter = CliPrompter::with_streams("\n");
    let var = make_editable("ENV", VarType::Choice, Some("dev"), &["dev", "staging", "prod"], Some("staging"));
    let result = prompter.prompt_editable(&var).unwrap();
    assert_eq!(result, "staging");
}

#[test]
fn test_prompt_editable_can_change() {
    let mut prompter = CliPrompter::with_streams("3\n");
    let var = make_editable("ENV", VarType::Choice, Some("dev"), &["dev", "staging", "prod"], Some("staging"));
    let result = prompter.prompt_editable(&var).unwrap();
    assert_eq!(result, "prod");
}

#[test]
fn prompt_single_asks_again_after_an_invalid_choice() {
    let mut prompter = CliPrompter::with_streams("9\nprod\n");
    let var = make_var("ENV", VarType::Choice, None, &["dev", "staging", "prod"]);
    let result = prompter.prompt_single(&var).unwrap();
    assert_eq!(result, "prod");
    assert!(prompter.output().contains("Invalid"));
}

#[test]
fn prompt_single_fails_when_input_ends() {
    let mut prompter = CliPrompter::with_streams("");
    let var = make_var("API_KEY", VarType::String, None, &[]);
    assert!(prompter.prompt_single(&var).is_err());
}

#[test]
fn prompt_test_is_sensitive() {
    assert!(CliPrompter::is_sensitive("API_KEY"));
    assert!(CliPrompter::is_sensitive("secret_token"));
    assert!(CliPrompter::is_sensitive("PASSWORD"));
    assert!(!CliPrompter::is_sensitive("ENV"));
    assert!(!CliPrompter::is_sensitive("DEBUG"));
}

#[test]
fn test_mask_value() {
    assert_eq!(CliPrompter::mask_value("abc"), "***");
    assert_eq!(CliPrompter::mask_value("abcdef"), "abcd***");
    assert_eq!(CliPrompter::mask_value("sk-1234567890"), "sk-1***");
}

#[test]
fn prompt_save_reads_yes() {
    let mut prompter = CliPrompter::with_streams("y\n");
    assert!(prompter.prompt_save());
    let mut prompter = CliPrompter::with_streams("n\n");
    assert!(!prompter.prompt_save());
}

#[test]
fn test_can_mask_whole_characters() {
    assert!(CliPrompter::can_mask("abc"));
    assert!(CliPrompter::can_mask("abcdef"));
    assert!(CliPrompter::can_mask("a€"));
    assert!(!CliPrompter::can_mask("ab€"));
    assert!(!CliPrompter::can_mask("abc€def"));
}

#[test]
fn test_can_ask_sensitive_current_value() {
    let spec = EnvVarSpec { var_type: VarType::String, default: None, options: vec![], required: true };
    let cut = EditableVar {
        name: "API_KEY".to_string(),
        spec: EnvVarSpec { var_type: VarType::String, default: None, options: vec![], required: true },
        current_value: Some("abc€def".to_string()),
    };
    assert!(!CliPrompter::can_ask(&cut));
    let plain = EditableVar {
        name: "HOST".to_string(),
        spec,
        current_value: Some("abc€def".to_string()),
    };
    assert!(CliPrompter::can_ask(&plain));
    let menu = EditableVar {
        name: "API_KEY".to_string(),
        spec: EnvVarSpec {
            var_type: VarType::Choice,
            default: None,
            options: vec!["a".to_string()],
            required: true,
        },
        current_value: Some("abc€def".to_string()),
    };
    assert!(CliPrompter::can_ask(&menu));
}

#[test]
fn timeout_zero_means_no_limit() {
    assert_eq!(parse_timeout("30"), Ok(Some(30)));
    assert_eq!(parse_timeout("0"), Ok(None));
    assert_eq!(parse_timeout("abc"), Err("invalid timeout: abc".to_string()));
}
