use meriadoc::spec::{AgentSpec, RiskLevel, VarType};

#[test]
fn test_var_type_default_is_string() {
    let var_type: VarType = Default::default();
    assert_eq!(var_type, VarType::String);
}

#[test]
fn env_test_is_sensitive() {
    assert!(!VarType::String.is_sensitive());
    assert!(VarType::Secret.is_sensitive());
}

#[test]
fn type_and_risk_names() {
    assert_eq!(VarType::Filepath.as_str(), "filepath");
    assert_eq!(VarType::Boolean.as_str(), "boolean");
    assert_eq!(RiskLevel::Critical.as_str(), "critical");
    assert_eq!(RiskLevel::default(), RiskLevel::Low);
}

#[test]
fn agent_defaults() {
    let a = AgentSpec::default();
    assert!(!a.enabled);
    assert_eq!(a.risk_level, RiskLevel::Low);
    assert!(a.confirmation.is_none());
    assert!(!a.requires_approval);
}
