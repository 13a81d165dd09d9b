use klaro::pii::{PiiMatch, PiiType};
use klaro::scrub::{ScrubConfig, ScrubMethod, Scrubber};

fn scrubber(method: ScrubMethod) -> Scrubber {
    Scrubber::new(ScrubConfig { method, preserve_format: true })
}

fn m(pii_type: PiiType, text: &str, value: &str) -> PiiMatch {
    let start = text.find(value).unwrap();
    PiiMatch { pii_type, value: value.to_string(), start, end: start + value.len() }
}

#[test]
fn mask_email_keeps_first_letter_and_domain() {
    let s = scrubber(ScrubMethod::Mask);
    assert_eq!(s.mask_value(PiiType::Email, "john@example.com"), "j***@example.com");
    assert_eq!(s.mask_value(PiiType::Email, "jo@example.com"), "***@example.com");
    assert_eq!(s.mask_value(PiiType::Email, "no-at-sign"), "***@***.***");
}

#[test]
fn mask_phone_keeps_last_four_digits() {
    let s = scrubber(ScrubMethod::Mask);
    assert_eq!(s.mask_value(PiiType::Phone, "(555) 123-1234"), "***-***-1234");
    assert_eq!(s.mask_value(PiiType::Phone, "12"), "***-***-****");
}

#[test]
fn mask_fixed_shapes() {
    let s = scrubber(ScrubMethod::Mask);
    assert_eq!(s.mask_value(PiiType::SSN, "123-45-6789"), "***-**-****");
    assert_eq!(s.mask_value(PiiType::CreditCard, "4111111111111111"), "****-****-****-1111");
    assert_eq!(s.mask_value(PiiType::CreditCard, "41"), "****-****-****-****");
    assert_eq!(s.mask_value(PiiType::IPAddress, "192.168.1.1"), "***.***.***.***");
    assert_eq!(s.mask_value(PiiType::DateOfBirth, "01/02/1990"), "**/**/****");
}

#[test]
fn mask_other_types_with_stars_up_to_twenty() {
    let s = scrubber(ScrubMethod::Mask);
    assert_eq!(s.mask_value(PiiType::Passport, "AB123456"), "********");
    assert_eq!(s.mask_value(PiiType::Name, "Bartholomew Montgomery-Smythe"), "********************");
    // byte length counts: "Zoë" is 4 bytes
    assert_eq!(s.mask_value(PiiType::Name, "Zoë"), "****");
}

#[test]
fn remove_writes_type_placeholder() {
    let s = scrubber(ScrubMethod::Remove);
    assert_eq!(s.get_removal_placeholder(PiiType::Email), "[EMAIL REMOVED]");
    assert_eq!(s.get_removal_placeholder(PiiType::DriversLicense), "[DRIVER'S LICENSE REMOVED]");
    assert_eq!(s.get_removal_placeholder(PiiType::SSN), "[SOCIAL SECURITY NUMBER REMOVED]");
}

#[test]
fn hash_is_hash_sign_and_twelve_hex_digits_of_sha256() {
    let s = scrubber(ScrubMethod::Hash);
    assert_eq!(s.hash_value("john.doe@example.com"), "#836f82db9912");
    assert_eq!(s.hash_value("hello"), "#2cf24dba5fb0");
    assert_eq!(s.hash_value(""), "#e3b0c44298fc");
}

#[test]
fn fake_values_have_their_shapes() {
    let s = scrubber(ScrubMethod::Fake);
    for _ in 0..20 {
        let ssn = s.generate_fake(PiiType::SSN, "123-45-6789");
        let parts: Vec<&str> = ssn.split('-').collect();
        assert_eq!(parts.len(), 3);
        assert_eq!((parts[0].len(), parts[1].len(), parts[2].len()), (3, 2, 4));
        let a: u32 = parts[0].parse().unwrap();
        assert!((100..899).contains(&a));

        let card = s.generate_fake(PiiType::CreditCard, "4111111111111111");
        assert_eq!(card.len(), 19);
        assert!(card.starts_with('4'));

        let ip = s.generate_fake(PiiType::IPAddress, "1.2.3.4");
        let octets: Vec<u32> = ip.split('.').map(|p| p.parse().unwrap()).collect();
        assert_eq!(octets.len(), 4);
        assert!(octets[0] >= 1 && octets[0] < 255 && octets[3] >= 1 && octets[3] < 255);

        let dob = s.generate_fake(PiiType::DateOfBirth, "01/01/1990");
        assert_eq!(dob.len(), 10);
        let year: u32 = dob[6..].parse().unwrap();
        assert!((1950..2005).contains(&year));

        let passport = s.generate_fake(PiiType::Passport, "AB123456");
        assert!(passport.starts_with('P') && passport.len() == 9);
        let dl = s.generate_fake(PiiType::DriversLicense, "A12345");
        assert!(dl.starts_with("DL") && dl.len() == 9);
        let bank = s.generate_fake(PiiType::BankAccount, "1234");
        assert_eq!(bank.len(), 12);
        assert!(bank.chars().all(|c| c.is_ascii_digit()));
    }
    assert!(!s.generate_fake(PiiType::Email, "a@b.co").is_empty());
    assert!(!s.generate_fake(PiiType::Name, "Ann").is_empty());
}

#[test]
fn scrub_text_replaces_matches_and_keeps_the_rest() {
    let text = "Mail john@example.com or call 555-123-4567 today";
    let ms = vec![m(PiiType::Email, text, "john@example.com"), m(PiiType::Phone, text, "555-123-4567")];
    let out = scrubber(ScrubMethod::Mask).scrub_text(text, &ms);
    assert_eq!(out, "Mail j***@example.com or call ***-***-4567 today");
    let out = scrubber(ScrubMethod::Remove).scrub_text(text, &ms);
    assert_eq!(out, "Mail [EMAIL REMOVED] or call [PHONE NUMBER REMOVED] today");
}

#[test]
fn scrub_text_without_matches_is_unchanged() {
    let s = scrubber(ScrubMethod::Mask);
    assert_eq!(s.scrub_text("nothing to see", &[]), "nothing to see");
    assert_eq!(s.scrub_text("", &[]), "");
}

#[test]
fn hash_scrubbing_is_deterministic() {
    let text = "SSN 123-45-6789.";
    let ms = vec![m(PiiType::SSN, text, "123-45-6789")];
    let s = scrubber(ScrubMethod::Hash);
    let a = s.scrub_text(text, &ms);
    let b = s.scrub_text(text, &ms);
    assert_eq!(a, b);
    assert_eq!(a, "SSN #01a54629efb9.");
}

#[test]
fn checked_scrub_refuses_cut_characters() {
    let s = scrubber(ScrubMethod::Mask);
    // "é" is two bytes; a match ending inside it leaves a copy that cuts it
    let text = "é@x.com and more";
    let bad = vec![PiiMatch { pii_type: PiiType::SSN, value: "x".to_string(), start: 0, end: 1 }];
    assert!(s.scrub_text_checked(text, &bad).is_none());
    // an e-mail whose first byte starts a longer character cannot be masked
    let email = vec![PiiMatch { pii_type: PiiType::Email, value: "éab@x.com".to_string(), start: 0, end: 10 }];
    assert!(s.scrub_text_checked("éab@x.com", &email).is_none());
    let ok = vec![m(PiiType::Email, "mail abc@x.com", "abc@x.com")];
    assert_eq!(s.scrub_text_checked("mail abc@x.com", &ok).unwrap(), "mail a***@x.com");
}

#[test]
fn replacement_follows_method() {
    assert_eq!(scrubber(ScrubMethod::Mask).get_replacement(PiiType::SSN, "123-45-6789"), "***-**-****");
    assert_eq!(
        scrubber(ScrubMethod::Remove).get_replacement(PiiType::IPAddress, "1.2.3.4"),
        "[IP ADDRESS REMOVED]"
    );
    assert_eq!(scrubber(ScrubMethod::Hash).get_replacement(PiiType::Email, "hello"), "#2cf24dba5fb0");
}

#[test]
fn default_config_masks() {
    let c = ScrubConfig::default();
    assert!(c.method == ScrubMethod::Mask);
    assert!(c.preserve_format);
}

#[test]
fn remove_and_mask_are_deterministic() {
    let text = "a@b.co then 555-123-4567";
    let ms = vec![m(PiiType::Email, text, "a@b.co"), m(PiiType::Phone, text, "555-123-4567")];
    for method in [ScrubMethod::Remove, ScrubMethod::Mask] {
        let s = scrubber(method);
        assert_eq!(s.scrub_text(text, &ms), s.scrub_text(text, &ms));
    }
    assert_eq!(scrubber(ScrubMethod::Mask).scrub_text(text, &ms), "***@b.co then ***-***-4567");
}

#[test]
fn overlapping_match_copies_no_text() {
    // the second match starts before the first one ends: nothing is copied between them
    let text = "abcdefgh";
    let ms = vec![
        PiiMatch { pii_type: PiiType::SSN, value: "abcd".to_string(), start: 0, end: 4 },
        PiiMatch { pii_type: PiiType::IPAddress, value: "cdef".to_string(), start: 2, end: 6 },
    ];
    assert_eq!(scrubber(ScrubMethod::Mask).scrub_text(text, &ms), "***-**-*******.***.***.***gh");
}

#[test]
fn fake_crate_stand_ins_have_their_shapes() {
    let s = scrubber(ScrubMethod::Fake);
    for _ in 0..50 {
        let email = s.generate_fake(PiiType::Email, "a@b.co");
        assert!(email.ends_with("@example.com") || email.ends_with("@example.net") || email.ends_with("@example.org"));
        let phone = s.generate_fake(PiiType::Phone, "555-123-4567");
        assert!(phone.chars().filter(|c| c.is_ascii_digit()).count() >= 10);
        assert!(phone.chars().all(|c| c.is_ascii_digit() || "()-. x".contains(c)));
        let address = s.generate_fake(PiiType::Address, "1 Main St");
        let (kind, number) = address.split_once(' ').unwrap();
        assert!(kind == "Apt." || kind == "Suit.");
        let n: u32 = number.parse().unwrap();
        assert!((1..99).contains(&n));
        assert!(s.generate_fake(PiiType::Name, "Ann Lee").contains(' '));
        let company = s.generate_fake(PiiType::Organization, "Acme");
        assert!(["Inc", "and Sons", "LLC", "Group"].iter().any(|x| company.ends_with(&format!(" {}", x))));
    }
    let masked = scrubber(ScrubMethod::Mask).get_replacement(PiiType::Organization, "Acme");
    assert!(["Inc", "and Sons", "LLC", "Group"].iter().any(|x| masked.ends_with(&format!(" {}", x))));
}

#[test]
fn removal_labels_are_upper_cased_display_names() {
    let s = scrubber(ScrubMethod::Remove);
    assert_eq!(s.get_removal_placeholder(PiiType::Phone), "[PHONE NUMBER REMOVED]");
    assert_eq!(s.get_removal_placeholder(PiiType::CreditCard), "[CREDIT CARD NUMBER REMOVED]");
    assert_eq!(s.get_removal_placeholder(PiiType::Organization), "[ORGANIZATION NAME REMOVED]");
}
