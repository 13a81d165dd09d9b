use klaro::files::{content_to_csv, FileContent, FileParser, FileType, TabularData, WorkbookRead};
use klaro::license::{LimitError, VersionLimits};

/// What the caller hands in for files that are not workbooks.
fn no_workbook() -> Result<WorkbookRead, String> {
    Err("not a workbook".to_string())
}

#[test]
fn file_types_from_extensions_any_case() {
    assert!(FileType::from_extension("csv") == FileType::Csv);
    assert!(FileType::from_extension("CSV") == FileType::Csv);
    assert!(FileType::from_extension("XlSx") == FileType::Xlsx);
    assert!(FileType::from_extension("xls") == FileType::Xls);
    assert!(FileType::from_extension("txt") == FileType::Txt);
    assert!(FileType::from_extension("json") == FileType::Json);
    assert!(FileType::from_extension("pdf") == FileType::Unknown);
    assert!(FileType::from_extension("") == FileType::Unknown);
}

#[test]
fn extensions_read_back_as_their_types() {
    for t in [FileType::Csv, FileType::Xlsx, FileType::Xls, FileType::Txt, FileType::Json] {
        assert!(FileType::from_extension(t.extension()) == t);
    }
    assert_eq!(FileType::Unknown.extension(), "txt");
    assert!(FileType::from_extension(FileType::Unknown.extension()) == FileType::Txt);
}

#[test]
fn csv_bytes_parse_into_header_and_rows() {
    let data = b"name,email\nAlice,alice@corp.io\nBob,bob@corp.io,extra\n";
    let parsed = FileParser::parse_from_bytes(data, "people.CSV", no_workbook()).unwrap();
    assert!(parsed.file_type == FileType::Csv);
    assert_eq!(parsed.original_name, "people.CSV");
    match parsed.content {
        FileContent::Tabular(t) => {
            assert_eq!(t.headers, Some(vec!["name".to_string(), "email".to_string()]));
            assert_eq!(t.rows.len(), 2);
            assert_eq!(t.rows[0], vec!["Alice".to_string(), "alice@corp.io".to_string()]);
            assert_eq!(t.rows[1].len(), 3);
            assert!(t.sheet_name.is_none());
        }
        FileContent::Text(_) => panic!("expected a table"),
    }
}

#[test]
fn text_and_unknown_files_are_read_leniently() {
    let parsed = FileParser::parse_from_bytes(b"hello \xff world", "notes.md", no_workbook()).unwrap();
    assert!(parsed.file_type == FileType::Unknown);
    match parsed.content {
        FileContent::Text(t) => assert_eq!(t, "hello \u{fffd} world"),
        _ => panic!("expected text"),
    }
    let parsed = FileParser::parse_from_bytes(b"{\"a\": 1}", "data.json", no_workbook()).unwrap();
    assert!(parsed.file_type == FileType::Json);
}

#[test]
fn parse_file_needs_valid_utf8_text() {
    let parsed = FileParser::parse_file("/tmp/dir/notes.txt", b"plain text", no_workbook()).unwrap();
    assert_eq!(parsed.original_name, "notes.txt");
    let err = FileParser::parse_file("/tmp/dir/notes.txt", b"bad \xff", no_workbook()).unwrap_err();
    assert_eq!(err.0, "stream did not contain valid UTF-8");
}

#[test]
fn broken_workbooks_are_errors() {
    let err = FileParser::parse_from_bytes(b"not a zip", "book.xlsx", Err("invalid Zip archive".to_string()))
        .unwrap_err();
    assert_eq!(err.0, "invalid Zip archive");
    let err = FileParser::parse_from_bytes(b"not an ole file", "book.xls", Err("not a CFB file".to_string()))
        .unwrap_err();
    assert_eq!(err.0, "Failed to parse XLS: not a CFB file");
    let err = FileParser::parse_file("/data/book.xls", b"not an ole file", Err("not a CFB file".to_string()))
        .unwrap_err();
    assert_eq!(err.0, "Failed to open XLS: not a CFB file");
}

#[test]
fn workbook_first_sheet_becomes_a_table() {
    let read = WorkbookRead {
        sheet_names: vec!["People".to_string(), "Other".to_string()],
        first_sheet: Ok(vec![
            vec!["name".to_string(), "email".to_string()],
            vec!["Ann".to_string(), "ann@example.com".to_string()],
        ]),
    };
    match FileParser::parse_workbook(read).unwrap() {
        FileContent::Tabular(t) => {
            assert_eq!(t.headers, Some(vec!["name".to_string(), "email".to_string()]));
            assert_eq!(t.rows, vec![vec!["Ann".to_string(), "ann@example.com".to_string()]]);
            assert_eq!(t.sheet_name, Some("People".to_string()));
        }
        FileContent::Text(_) => panic!("a workbook is a table"),
    }
    let empty_sheet = WorkbookRead { sheet_names: vec!["S".to_string()], first_sheet: Ok(vec![]) };
    match FileParser::parse_workbook(empty_sheet).unwrap() {
        FileContent::Tabular(t) => {
            assert_eq!(t.headers, None);
            assert!(t.rows.is_empty());
        }
        FileContent::Text(_) => panic!("a workbook is a table"),
    }
}

#[test]
fn workbook_errors_name_their_cause() {
    let none = WorkbookRead { sheet_names: vec![], first_sheet: Ok(vec![]) };
    assert_eq!(FileParser::parse_workbook(none).unwrap_err().0, "No sheets found in workbook");
    let bad = WorkbookRead { sheet_names: vec!["S".to_string()], first_sheet: Err("corrupt".to_string()) };
    assert_eq!(FileParser::parse_workbook(bad).unwrap_err().0, "Failed to read worksheet: corrupt");
    let through = FileParser::parse_from_bytes(
        b"",
        "Book.XLS",
        Ok(WorkbookRead { sheet_names: vec![], first_sheet: Ok(vec![]) }),
    );
    assert_eq!(through.unwrap_err().0, "No sheets found in workbook");
}

#[test]
fn paths_are_split_on_slashes() {
    let p = FileParser::parse_file("/tmp/dir/notes.txt", b"x", no_workbook()).unwrap();
    assert_eq!(p.original_name, "notes.txt");
    assert_eq!(p.file_type, FileType::Txt);
    let p = FileParser::parse_file("a/b/", b"x", no_workbook()).unwrap();
    assert_eq!(p.original_name, "b");
    let p = FileParser::parse_file("/", b"x", no_workbook()).unwrap();
    assert_eq!(p.original_name, "unknown");
    let p = FileParser::parse_file("dir/.bashrc", b"x", no_workbook()).unwrap();
    assert_eq!(p.original_name, ".bashrc");
    assert_eq!(p.file_type, FileType::Unknown);
}

#[test]
fn content_to_csv_writes_header_then_rows() {
    let t = TabularData {
        headers: Some(vec!["a".to_string(), "b".to_string()]),
        rows: vec![vec!["1".to_string(), "x,y".to_string()], vec!["2".to_string(), "z".to_string()]],
        sheet_name: None,
    };
    let csv = content_to_csv(&FileContent::Tabular(t)).unwrap();
    assert_eq!(csv, "a,b\n1,\"x,y\"\n2,z\n");
    // the writer refuses records of different lengths
    let ragged = TabularData {
        headers: None,
        rows: vec![vec!["1".to_string(), "2".to_string()], vec!["3".to_string()]],
        sheet_name: None,
    };
    assert!(content_to_csv(&FileContent::Tabular(ragged)).is_err());
    assert_eq!(content_to_csv(&FileContent::Text("as is".to_string())).unwrap(), "as is");
}

#[test]
fn lite_and_pro_tiers() {
    let lite = VersionLimits::lite();
    assert_eq!(lite.max_file_size_bytes, Some(5 * 1024 * 1024));
    assert_eq!(lite.max_rows_per_file, Some(10_000));
    assert_eq!(lite.max_files_per_batch, Some(3));
    assert_eq!(lite.max_cells_per_file, Some(100_000));
    assert_eq!(
        lite.allowed_pii_types,
        Some(vec!["email".to_string(), "phone".to_string(), "ssn".to_string(), "credit_card".to_string()])
    );
    assert!(lite.is_trial && !lite.allows_batch_download && !lite.allows_xlsx_export);
    assert_eq!(lite.version_name, "Rusty Scrubber Lite");
    let pro = VersionLimits::pro();
    assert!(pro.max_file_size_bytes.is_none() && pro.allowed_pii_types.is_none() && !pro.is_trial);
    assert_eq!(pro.version_name, "Rusty Scrubber Pro");
    assert!(VersionLimits::current().is_trial);
}

#[test]
fn limit_checks_refuse_only_above_the_limit() {
    let lite = VersionLimits::lite();
    assert!(lite.check_file_size(5 * 1024 * 1024).is_ok());
    match lite.check_file_size(5 * 1024 * 1024 + 1) {
        Err(LimitError::FileTooLarge { size, max }) => assert_eq!((size, max), (5 * 1024 * 1024 + 1, 5 * 1024 * 1024)),
        _ => panic!("expected FileTooLarge"),
    }
    assert!(lite.check_row_count(10_000).is_ok());
    assert!(matches!(lite.check_row_count(10_001), Err(LimitError::TooManyRows { count: 10_001, max: 10_000 })));
    assert!(lite.check_batch_size(3).is_ok());
    assert!(matches!(lite.check_batch_size(4), Err(LimitError::TooManyFiles { count: 4, max: 3 })));
    let pro = VersionLimits::pro();
    assert!(pro.check_file_size(u64::MAX).is_ok());
    assert!(pro.check_row_count(usize::MAX).is_ok());
    assert!(pro.check_batch_size(usize::MAX).is_ok());
}

#[test]
fn received_and_read_text_parse_alike_when_valid() {
    let text = "name: Ann\nmail: ann@example.com\n".as_bytes();
    let a = FileParser::parse_from_bytes(text, "notes.txt", no_workbook()).unwrap();
    let b = FileParser::parse_file("/home/u/notes.txt", text, no_workbook()).unwrap();
    match (a.content, b.content) {
        (FileContent::Text(x), FileContent::Text(y)) => assert_eq!(x, y),
        _ => panic!("text files hold text"),
    }
    assert_eq!(a.original_name, b.original_name);
}
