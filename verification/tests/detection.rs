use klaro::detector::PiiDetector;
use klaro::ner::{NerEntity, NerEntityType};
use klaro::pii::{remove_overlaps, sort_by_start, PiiMatch, PiiType};

fn spans(found: &[PiiMatch]) -> Vec<(PiiType, String, usize, usize)> {
    found.iter().map(|m| (m.pii_type, m.value.clone(), m.start, m.end)).collect()
}

#[test]
fn finds_email_with_offsets() {
    let d = PiiDetector::new(vec![PiiType::Email]);
    let found = d.detect_regex("Contact john.doe@example.com today");
    assert_eq!(spans(&found), vec![(PiiType::Email, "john.doe@example.com".to_string(), 8, 28)]);
}

#[test]
fn invalid_ssn_is_dropped() {
    let d = PiiDetector::new(vec![PiiType::SSN]);
    let found = d.detect_regex("ids 123-45-6789 and 000-12-3456");
    assert_eq!(spans(&found), vec![(PiiType::SSN, "123-45-6789".to_string(), 4, 15)]);
}

#[test]
fn card_failing_luhn_is_dropped() {
    let d = PiiDetector::new(vec![PiiType::CreditCard]);
    let found = d.detect_regex("card 4111111111111111 bad 4111111111111112");
    assert_eq!(spans(&found), vec![(PiiType::CreditCard, "4111111111111111".to_string(), 5, 21)]);
}

#[test]
fn overlapping_matches_keep_the_first_enabled_type() {
    let text = "card 4111111111111111 bad 4111111111111112";
    let d = PiiDetector::new(vec![PiiType::CreditCard, PiiType::BankAccount]);
    let found = d.detect_regex(text);
    assert_eq!(
        spans(&found),
        vec![
            (PiiType::CreditCard, "4111111111111111".to_string(), 5, 21),
            (PiiType::BankAccount, "4111111111111112".to_string(), 26, 42),
        ]
    );
    let d = PiiDetector::new(vec![PiiType::BankAccount, PiiType::CreditCard]);
    let found = d.detect_regex(text);
    assert_eq!(
        spans(&found),
        vec![
            (PiiType::BankAccount, "4111111111111111".to_string(), 5, 21),
            (PiiType::BankAccount, "4111111111111112".to_string(), 26, 42),
        ]
    );
}

#[test]
fn several_types_sorted_by_start() {
    let d = PiiDetector::new(PiiType::all());
    let found = d.detect_regex("Name: Alice | Email: alice@corp.io | SSN: 123-45-6789");
    assert_eq!(
        spans(&found),
        vec![
            (PiiType::Email, "alice@corp.io".to_string(), 21, 34),
            (PiiType::SSN, "123-45-6789".to_string(), 42, 53),
        ]
    );
    let found = d.detect_regex("john@example.com, 555-123-4567");
    assert_eq!(
        spans(&found),
        vec![
            (PiiType::Email, "john@example.com".to_string(), 0, 16),
            (PiiType::Phone, "555-123-4567".to_string(), 18, 30),
        ]
    );
}

#[test]
fn ip_date_and_passport() {
    let d = PiiDetector::new(vec![PiiType::IPAddress, PiiType::DateOfBirth, PiiType::Passport, PiiType::DriversLicense]);
    assert_eq!(spans(&d.detect_regex("server 192.168.1.1 up")), vec![(PiiType::IPAddress, "192.168.1.1".to_string(), 7, 18)]);
    assert_eq!(spans(&d.detect_regex("born 12/25/1990 ok")), vec![(PiiType::DateOfBirth, "12/25/1990".to_string(), 5, 15)]);
    assert_eq!(spans(&d.detect_regex("passport AB1234567 here")), vec![(PiiType::Passport, "AB1234567".to_string(), 9, 18)]);
}

#[test]
fn model_types_are_not_found_by_expressions() {
    let d = PiiDetector::new(vec![PiiType::Name, PiiType::Address, PiiType::Organization]);
    assert!(d.detect_regex("Dr. Alice Smith lives at 1 Main Street").is_empty());
    assert!(d.uses_ner());
    assert!(!PiiDetector::new(vec![PiiType::Email]).uses_ner());
}

#[test]
fn batch_detection_matches_single_detection() {
    let d = PiiDetector::new(PiiType::all());
    let texts = vec!["Call 555-123-4567 now", "nothing", "john@example.com, 555-123-4567"];
    let batch = d.detect_regex_batch(&texts);
    assert_eq!(batch.len(), 3);
    for (i, t) in texts.iter().enumerate() {
        assert_eq!(spans(&batch[i]), spans(&d.detect_regex(t)));
    }
    assert!(batch[1].is_empty());
}

#[test]
fn detect_without_model_merges_texts() {
    let mut d = PiiDetector::new(vec![PiiType::Email, PiiType::Name]);
    let texts = vec!["a@b.co here", "x"];
    let found = d.detect(&texts, false, None);
    assert_eq!(spans(&found), vec![(PiiType::Email, "a@b.co".to_string(), 0, 6)]);
}

#[test]
fn dedup_keeps_non_overlapping_in_order() {
    let mk = |s: usize, e: usize| PiiMatch { pii_type: PiiType::Name, value: String::new(), start: s, end: e };
    let kept = PiiDetector::dedup_overlapping(vec![mk(0, 5), mk(3, 8), mk(5, 9), mk(9, 9), mk(8, 12)]);
    let got: Vec<(usize, usize)> = kept.iter().map(|m| (m.start, m.end)).collect();
    assert_eq!(got, vec![(0, 5), (5, 9), (9, 9)]);
    assert!(PiiDetector::dedup_overlapping(vec![]).is_empty());
}

#[test]
fn pii_type_names_and_model_use() {
    assert_eq!(PiiType::all().len(), 12);
    assert_eq!(PiiType::Email.display_name(), "Email Address");
    assert_eq!(PiiType::DriversLicense.display_name(), "Driver's License");
    assert_eq!(PiiType::BankAccount.display_name(), "Bank Account Number");
    assert!(PiiType::Name.uses_ner() && PiiType::Address.uses_ner() && PiiType::Organization.uses_ner());
    assert!(!PiiType::SSN.uses_ner());
}

#[test]
fn sorting_is_stable_and_keeps_every_match() {
    let mk = |t: PiiType, s: usize, e: usize| PiiMatch { pii_type: t, value: String::new(), start: s, end: e };
    let input = vec![mk(PiiType::Phone, 9, 12), mk(PiiType::Email, 0, 4), mk(PiiType::SSN, 9, 10), mk(PiiType::Name, 3, 5)];
    let sorted = sort_by_start(&input);
    let got: Vec<(PiiType, usize)> = sorted.iter().map(|m| (m.pii_type, m.start)).collect();
    assert_eq!(got, vec![(PiiType::Email, 0), (PiiType::Name, 3), (PiiType::Phone, 9), (PiiType::SSN, 9)]);
    let kept = remove_overlaps(&sorted);
    let got: Vec<(PiiType, usize)> = kept.iter().map(|m| (m.pii_type, m.start)).collect();
    assert_eq!(got, vec![(PiiType::Email, 0), (PiiType::Phone, 9)]);
    // removing overlaps again changes nothing
    let again = remove_overlaps(&kept);
    assert_eq!(spans(&again), spans(&kept));
}

#[test]
fn every_type_is_listed_once() {
    let all = PiiType::all();
    for t in [
        PiiType::Email, PiiType::Phone, PiiType::SSN, PiiType::CreditCard, PiiType::IPAddress,
        PiiType::DateOfBirth, PiiType::Address, PiiType::Name, PiiType::Passport,
        PiiType::DriversLicense, PiiType::BankAccount, PiiType::Organization,
    ] {
        assert_eq!(all.iter().filter(|x| **x == t).count(), 1);
    }
}

#[test]
fn overlap_removal_keeps_the_first_match_and_the_order() {
    let mk = |t: PiiType, s: usize, e: usize| PiiMatch { pii_type: t, value: String::new(), start: s, end: e };
    let input = vec![mk(PiiType::Email, 0, 5), mk(PiiType::Phone, 3, 8), mk(PiiType::SSN, 5, 9), mk(PiiType::Name, 8, 12), mk(PiiType::Address, 9, 11)];
    let kept = remove_overlaps(&input);
    let got: Vec<(PiiType, usize)> = kept.iter().map(|m| (m.pii_type, m.start)).collect();
    assert_eq!(got, vec![(PiiType::Email, 0), (PiiType::SSN, 5), (PiiType::Address, 9)]);
}

#[test]
fn second_model_detection_needs_no_model() {
    let mut d = PiiDetector::new(vec![PiiType::Name, PiiType::Organization]);
    let texts = vec!["Alice met Bob", "ok", "Acme hired Carol"];
    assert_eq!(d.ner_pending(&texts), vec![0, 2]);
    let sure = 16_000_000;
    let alice = NerEntity { entity_type: NerEntityType::Person, text: "Alice".to_string(), start: 0, end: 5, confidence: sure };
    let acme = NerEntity { entity_type: NerEntityType::Organization, text: "Acme".to_string(), start: 0, end: 4, confidence: sure };
    let city = NerEntity { entity_type: NerEntityType::Location, text: "Carol".to_string(), start: 11, end: 16, confidence: sure };
    let outcomes = vec![Some(vec![vec![alice], vec![acme, city]])];
    let first = d.detect_ner(&texts, &outcomes);
    assert_eq!(spans(&first[0]), vec![(PiiType::Name, "Alice".to_string(), 0, 5)]);
    assert!(first[1].is_empty());
    // the location is not reported: addresses are not enabled
    assert_eq!(spans(&first[2]), vec![(PiiType::Organization, "Acme".to_string(), 0, 4)]);
    assert!(d.ner_pending(&texts).is_empty());
    let second = d.detect_ner(&texts, &vec![]);
    for (a, b) in first.iter().zip(second.iter()) {
        assert_eq!(spans(a), spans(b));
    }
}
