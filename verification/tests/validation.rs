use klaro::validate::{validate_credit_card, validate_match, validate_ssn};
use klaro::pii::PiiType;

#[test]
fn luhn_accepts_valid_visa_number() {
    assert!(validate_credit_card("4111111111111111"));
    assert!(validate_credit_card("4111-1111-1111-1111"));
}

#[test]
fn luhn_rejects_changed_digit() {
    assert!(!validate_credit_card("4111111111111112"));
}

#[test]
fn luhn_rejects_wrong_lengths() {
    assert!(!validate_credit_card("411111111111"));
    assert!(!validate_credit_card("41111111111111111111"));
}

#[test]
fn ssn_rules() {
    assert!(validate_ssn("123-45-6789"));
    assert!(!validate_ssn("000-45-6789"));
    assert!(!validate_ssn("666-45-6789"));
    assert!(!validate_ssn("900-45-6789"));
    assert!(!validate_ssn("123-00-6789"));
    assert!(!validate_ssn("123-45-0000"));
    assert!(!validate_ssn("123-45-678"));
}

#[test]
fn other_types_need_no_check() {
    assert!(validate_match(PiiType::Email, "anything"));
    assert!(validate_match(PiiType::Phone, "555-123-4567"));
    assert!(!validate_match(PiiType::CreditCard, "4111111111111112"));
}
