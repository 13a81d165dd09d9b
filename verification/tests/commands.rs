use klaro::commands::{
    decode_file_data, generate_output_filename, get_file_extension, get_pii_types,
    get_supported_formats, get_version_info, in_memory_result, make_bytes_preview,
    make_error_result, make_text_preview, parse_pii_types, parse_scrub_method, streaming_result,
    streams_as_table, uses_streaming, validate_files, STREAMING_THRESHOLD,
};
use klaro::files::{FileContent, FileType, TabularData};
use klaro::license::{LimitError, VersionLimits};
use klaro::pii::PiiType;
use klaro::scrub::ScrubMethod;
use klaro::stats::ScrubStats;
use klaro::streaming::ProcessingStats;

fn strings(v: &[&str]) -> Vec<String> {
    v.iter().map(|s| s.to_string()).collect()
}

#[test]
fn scrub_method_names_any_case() {
    assert!(parse_scrub_method("remove") == ScrubMethod::Remove);
    assert!(parse_scrub_method("HASH") == ScrubMethod::Hash);
    assert!(parse_scrub_method("Fake") == ScrubMethod::Fake);
    assert!(parse_scrub_method("mask") == ScrubMethod::Mask);
    assert!(parse_scrub_method("scramble") == ScrubMethod::Mask);
}

#[test]
fn pii_types_with_aliases_on_pro() {
    let pro = VersionLimits::pro();
    let got = parse_pii_types(&strings(&["Email", "ip", "dob", "org", "bogus", "credit_card"]), &pro).unwrap();
    assert_eq!(
        got,
        vec![PiiType::Email, PiiType::IPAddress, PiiType::DateOfBirth, PiiType::Organization, PiiType::CreditCard]
    );
    assert!(parse_pii_types(&vec![], &pro).unwrap().is_empty());
}

#[test]
fn lite_refuses_types_it_does_not_allow() {
    let lite = VersionLimits::lite();
    let ok = parse_pii_types(&strings(&["email", "phone", "ssn", "credit_card", "unknown"]), &lite).unwrap();
    assert_eq!(ok, vec![PiiType::Email, PiiType::Phone, PiiType::SSN, PiiType::CreditCard]);
    let err = parse_pii_types(&strings(&["email", "name", "passport"]), &lite).unwrap_err();
    assert_eq!(err, "PII type 'name' is not available in Lite version. Upgrade to Pro for all PII types.");
    // names are matched in any case and with their aliases, then the type's id is checked
    let ok = parse_pii_types(&strings(&["creditcard", "Email"]), &lite).unwrap();
    assert_eq!(ok, vec![PiiType::CreditCard, PiiType::Email]);
    let err = parse_pii_types(&strings(&["EMAIL", "Org"]), &lite).unwrap_err();
    assert_eq!(err, "PII type 'Org' is not available in Lite version. Upgrade to Pro for all PII types.");
}

#[test]
fn output_file_names() {
    assert_eq!(generate_output_filename("people.csv"), "people_scrubbed.csv");
    assert_eq!(generate_output_filename("Book.XLSX"), "Book_scrubbed.csv");
    assert_eq!(generate_output_filename("old.xls"), "old_scrubbed.csv");
    assert_eq!(generate_output_filename("notes.TXT"), "notes_scrubbed.txt");
    assert_eq!(generate_output_filename("README"), "README_scrubbed.csv");
    assert_eq!(generate_output_filename(""), "output_scrubbed.csv");
}

#[test]
fn file_extensions() {
    assert_eq!(get_file_extension("a.CSV"), "csv");
    assert_eq!(get_file_extension("dir/b.json"), "json");
    assert_eq!(get_file_extension("noext"), "txt");
}

#[test]
fn streaming_only_for_large_csv_and_text() {
    assert_eq!(STREAMING_THRESHOLD, 10 * 1024 * 1024);
    assert!(uses_streaming(STREAMING_THRESHOLD + 1, "csv"));
    assert!(uses_streaming(STREAMING_THRESHOLD + 1, "txt"));
    assert!(!uses_streaming(STREAMING_THRESHOLD, "csv"));
    assert!(!uses_streaming(STREAMING_THRESHOLD + 1, "xlsx"));
    assert!(streams_as_table("CSV"));
    assert!(!streams_as_table("json"));
}

#[test]
fn error_results_carry_the_message() {
    let r = make_error_result("f.csv".to_string(), "csv", "boom".to_string());
    assert!(!r.success && !r.used_streaming);
    assert_eq!(r.file_name, "f.csv");
    assert_eq!(r.file_type, "csv");
    assert_eq!(r.error.as_deref(), Some("boom"));
    assert!(r.scrubbed_data.is_none() && r.scrubbed_preview.is_none() && r.limit_warning.is_none());
    assert_eq!(r.stats.total_pii_found, 0);
}

#[test]
fn version_info_of_lite() {
    let info = get_version_info();
    assert!(info.is_trial);
    assert_eq!(info.version_name, "Rusty Scrubber Lite");
    assert_eq!(info.features.max_file_size_display, "5 MB");
    assert_eq!(info.features.max_rows_display, "10000 rows");
    assert_eq!(info.features.max_files_display, "3 files");
    assert_eq!(info.features.available_pii_types, strings(&["email", "phone", "ssn", "credit_card"]));
    assert_eq!(info.features.all_pii_types.len(), 12);
    assert_eq!(info.features.all_pii_types[11], "organization");
    assert_eq!(info.features.all_pii_types[4], "ip_address");
}

#[test]
fn validate_files_checks_count_then_sizes() {
    assert!(validate_files(vec![1, 2, 3], 3).is_ok());
    assert!(matches!(validate_files(vec![1], 4), Err(LimitError::TooManyFiles { count: 4, max: 3 })));
    match validate_files(vec![10, 6_000_000, 7_000_000], 3) {
        Err(LimitError::FileTooLarge { size, max }) => assert_eq!((size, max), (6_000_000, 5_242_880)),
        _ => panic!("expected the first file over the limit"),
    }
    assert!(validate_files(vec![], 0).is_ok());
}

#[test]
fn supported_formats_and_type_list() {
    let f = get_supported_formats();
    let exts: Vec<&str> = f.iter().map(|x| x.extension.as_str()).collect();
    assert_eq!(exts, vec!["csv", "xlsx", "xls", "txt", "json"]);
    assert_eq!(f[1].mime_type, "application/vnd.openxmlformats-officedocument.spreadsheetml.sheet");
    let types = get_pii_types();
    assert_eq!(types.len(), 12);
    assert_eq!(types[11].id, "organization");
    assert_eq!(types[11].name, "Organization Name");
    assert!(!types[11].available_in_lite);
    assert_eq!(types[0].id, "email");
    assert_eq!(types[0].name, "Email Address");
    let available: Vec<&str> = types.iter().filter(|t| t.available_in_lite).map(|t| t.id.as_str()).collect();
    assert_eq!(available, vec!["email", "phone", "ssn", "credit_card"]);
}

#[test]
fn base64_file_data() {
    assert_eq!(decode_file_data("aGVsbG8gd29ybGR+").unwrap(), b"hello world~".to_vec());
    assert_eq!(decode_file_data("").unwrap(), Vec::<u8>::new());
    let err = decode_file_data("not base64!").unwrap_err();
    assert!(err.starts_with("Failed to decode file data: "));
    assert!(err.len() > "Failed to decode file data: ".len());
    let err = decode_file_data("ab!d").unwrap_err();
    assert_eq!(err, "Failed to decode file data: Invalid symbol 33, offset 2.");
}

#[test]
fn previews() {
    assert_eq!(make_text_preview("short").unwrap(), "short");
    let long = "a".repeat(2500);
    let p = make_text_preview(&long).unwrap();
    assert_eq!(p, format!("{}...\n\n[Truncated - 2500 total characters]", "a".repeat(2000)));
    // byte 2000 inside a two-byte character
    let cut = format!("{}é{}", "a".repeat(1999), "b".repeat(10));
    assert!(make_text_preview(&cut).is_none());
    let bytes = vec![b'x'; 2001];
    assert_eq!(make_bytes_preview(&bytes), format!("{}...\n\n[Truncated - 2001 total bytes]", "x".repeat(2000)));
    assert_eq!(make_bytes_preview(&b"ok \xff".to_vec()), "ok \u{fffd}");
}

#[test]
fn in_memory_result_encodes_output() {
    let t = TabularData {
        headers: Some(vec!["email".to_string()]),
        rows: vec![vec!["j***@example.com".to_string()]],
        sheet_name: Some("Sheet1".to_string()),
    };
    let stats = ScrubStats { total_pii_found: 1, pii_by_type: vec![("Email Address".to_string(), 1)], rows_affected: 1, rows_processed: 1, cells_affected: 0 };
    let r = in_memory_result("book.xlsx", FileType::Xlsx, &FileContent::Tabular(t), stats, &VersionLimits::lite()).unwrap();
    assert!(r.success && !r.used_streaming);
    assert_eq!(r.file_name, "book_scrubbed.csv");
    assert_eq!(r.file_type, "xlsx");
    assert_eq!(r.scrubbed_preview.as_deref(), Some("email\nj***@example.com\n"));
    assert_eq!(r.scrubbed_data.as_deref(), Some("ZW1haWwKaioqKkBleGFtcGxlLmNvbQo="));
    assert_eq!(
        r.limit_warning.as_deref(),
        Some("You're using Klaro Lite. Upgrade to Pro for unlimited file sizes and features.")
    );
    assert_eq!(r.stats.pii_by_type, vec![("Email Address".to_string(), 1)]);
    let r = in_memory_result("a.txt", FileType::Txt, &FileContent::Text("Man".to_string()), ScrubStats::default(), &VersionLimits::pro()).unwrap();
    assert_eq!(r.scrubbed_data.as_deref(), Some("TWFu"));
    assert!(r.limit_warning.is_none());
}

#[test]
fn in_memory_result_reports_writer_errors() {
    let ragged = TabularData {
        headers: None,
        rows: vec![vec!["1".to_string(), "2".to_string()], vec!["3".to_string()]],
        sheet_name: None,
    };
    let r = in_memory_result("x.csv", FileType::Csv, &FileContent::Tabular(ragged), ScrubStats::default(), &VersionLimits::lite()).unwrap();
    assert!(!r.success);
    assert_eq!(r.file_name, "x.csv");
    assert!(r.error.unwrap().starts_with("Failed to generate output: "));
}

#[test]
fn streaming_result_keeps_counts_without_types() {
    let stats = ProcessingStats { rows_processed: 5, rows_affected: 2, cells_affected: 3, total_pii_found: 4 };
    let r = streaming_result("big.csv", "csv".to_string(), &b"Ma".to_vec(), &stats, &VersionLimits::lite()).unwrap();
    assert!(r.success && r.used_streaming);
    assert_eq!(r.scrubbed_data.as_deref(), Some("TWE="));
    assert_eq!(r.scrubbed_preview.as_deref(), Some("Ma"));
    assert_eq!(r.file_name, "big_scrubbed.csv");
    assert_eq!(r.file_type, "csv");
    assert_eq!((r.stats.total_pii_found, r.stats.rows_affected, r.stats.rows_processed, r.stats.cells_affected), (4, 2, 5, 3));
    assert!(r.stats.pii_by_type.is_empty());
    let r = streaming_result("m.txt", "txt".to_string(), &b"M".to_vec(), &stats, &VersionLimits::pro()).unwrap();
    assert_eq!(r.scrubbed_data.as_deref(), Some("TQ=="));
}
