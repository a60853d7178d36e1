use minuet::model::{IdentifierError, ModelName, ProviderId, ReasoningEffort};

#[test]
fn reasoning_effort_is_opaque() {
    let effort = ReasoningEffort::new("provider-specific-value").unwrap();
    assert_eq!(effort.as_str(), "provider-specific-value");
}

#[test]
fn identifiers_reject_empty_values() {
    assert!(ProviderId::new("  ").is_err());
    assert!(ModelName::new("").is_err());
    assert!(ReasoningEffort::new("\t").is_err());
}

#[test]
fn identifier_errors_name_the_identifier() {
    assert_eq!(ProviderId::new("").unwrap_err(), IdentifierError::Empty("provider"));
    assert_eq!(ModelName::new(" ").unwrap_err().message(), "model must not be empty");
    assert_eq!(ReasoningEffort::new("\n").unwrap_err().message(), "reasoning effort must not be empty");
    assert_eq!(ModelName::new(" padded ").unwrap().as_str(), " padded ");
}
