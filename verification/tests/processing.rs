use klaro::detector::PiiDetector;
use klaro::files::{FileContent, TabularData};
use klaro::pii::{PiiMatch, PiiType};
use klaro::processing::{process_tabular, process_text};
use klaro::scrub::{ScrubConfig, ScrubMethod, Scrubber};

fn row(cells: &[&str]) -> Vec<String> {
    cells.iter().map(|s| s.to_string()).collect()
}

fn mask() -> Scrubber {
    Scrubber::new(ScrubConfig { method: ScrubMethod::Mask, preserve_format: true })
}

fn name(start: usize, end: usize, value: &str) -> PiiMatch {
    PiiMatch { pii_type: PiiType::Name, value: value.to_string(), start, end }
}

#[test]
fn table_with_expressions_only() {
    let d = PiiDetector::new(vec![PiiType::Email, PiiType::SSN]);
    let data = TabularData {
        headers: Some(row(&["name", "email"])),
        rows: vec![row(&["Alice", "alice@corp.io"]), row(&["Bob", "n/a"])],
        sheet_name: Some("People".to_string()),
    };
    let (content, stats) = process_tabular(&d, &mask(), &data, &vec![]).unwrap();
    match content {
        FileContent::Tabular(t) => {
            assert_eq!(t.headers, Some(row(&["name", "email"])));
            assert_eq!(t.rows, vec![row(&["Alice", "a***@corp.io"]), row(&["Bob", "n/a"])]);
            assert_eq!(t.sheet_name.as_deref(), Some("People"));
        }
        _ => panic!("expected a table"),
    }
    assert_eq!(stats.total_pii_found, 1);
    assert_eq!(stats.rows_affected, 1);
    assert_eq!(stats.rows_processed, 2);
    assert_eq!(stats.cells_affected, 1);
    assert_eq!(stats.pii_by_type, vec![("Email Address".to_string(), 1)]);
}

#[test]
fn headers_are_searched_too() {
    let d = PiiDetector::new(vec![PiiType::Email]);
    let data = TabularData { headers: Some(row(&["boss@corp.io"])), rows: vec![], sheet_name: None };
    let (content, stats) = process_tabular(&d, &mask(), &data, &vec![]).unwrap();
    match content {
        FileContent::Tabular(t) => {
            assert_eq!(t.headers, Some(row(&["b***@corp.io"])));
            assert!(t.rows.is_empty());
        }
        _ => panic!("expected a table"),
    }
    assert_eq!((stats.total_pii_found, stats.rows_affected, stats.rows_processed), (1, 0, 0));
}

#[test]
fn model_matches_go_to_the_cell_that_holds_them() {
    let d = PiiDetector::new(vec![PiiType::Email, PiiType::Name]);
    let data = TabularData {
        headers: None,
        rows: vec![row(&["Alice", "alice@corp.io"]), row(&["Bob", "n/a"])],
        sheet_name: None,
    };
    // joined rows: "Alice | alice@corp.io" and "Bob | n/a"
    let ner = vec![vec![name(0, 5, "Alice")], vec![name(0, 9, "Bob | n/a"), name(6, 9, "n/a")]];
    let (content, stats) = process_tabular(&d, &mask(), &data, &ner).unwrap();
    match content {
        FileContent::Tabular(t) => {
            assert_eq!(t.rows, vec![row(&["*****", "a***@corp.io"]), row(&["Bob", "***"])]);
        }
        _ => panic!("expected a table"),
    }
    assert_eq!(stats.total_pii_found, 3);
    assert_eq!(stats.rows_affected, 2);
    assert_eq!(stats.cells_affected, 3);
    assert_eq!(
        stats.pii_by_type,
        vec![("Person Name".to_string(), 2), ("Email Address".to_string(), 1)]
    );
}

#[test]
fn text_merges_model_and_expression_matches() {
    let d = PiiDetector::new(vec![PiiType::Email, PiiType::Name]);
    let text = "Hi Alice, mail alice@corp.io";
    let (content, stats) = process_text(&d, &mask(), text, &vec![name(3, 8, "Alice")]).unwrap();
    match content {
        FileContent::Text(t) => assert_eq!(t, "Hi *****, mail a***@corp.io"),
        _ => panic!("expected text"),
    }
    assert_eq!(stats.total_pii_found, 2);
    assert_eq!((stats.rows_affected, stats.cells_affected, stats.rows_processed), (1, 1, 1));
    assert_eq!(
        stats.pii_by_type,
        vec![("Person Name".to_string(), 1), ("Email Address".to_string(), 1)]
    );
}

#[test]
fn text_without_findings() {
    let d = PiiDetector::new(vec![PiiType::Email]);
    // model matches are ignored when no enabled type needs the model
    let (content, stats) = process_text(&d, &mask(), "nothing here", &vec![name(0, 7, "nothing")]).unwrap();
    match content {
        FileContent::Text(t) => assert_eq!(t, "nothing here"),
        _ => panic!("expected text"),
    }
    assert_eq!((stats.total_pii_found, stats.rows_affected, stats.cells_affected, stats.rows_processed), (0, 0, 0, 1));
    assert!(stats.pii_by_type.is_empty());
}

#[test]
fn unscrubbable_model_match_is_refused() {
    let d = PiiDetector::new(vec![PiiType::Name]);
    // a match ending inside "é" leaves a copy that would cut the character
    assert!(process_text(&d, &mask(), "aé b", &vec![name(0, 2, "a?")]).is_none());
}

#[test]
fn without_the_model_each_cell_is_scrubbed_on_its_own() {
    let d = PiiDetector::new(vec![PiiType::Email, PiiType::Phone, PiiType::SSN]);
    let s = mask();
    let cells = [
        "mail alice@corp.io now",
        "call 555-123-4567",
        "ssn 123-45-6789 and bob@x.org",
        "nothing here",
    ];
    let data = TabularData { headers: None, rows: vec![row(&cells[..2]), row(&cells[2..])], sheet_name: None };
    let (content, _) = process_tabular(&d, &s, &data, &vec![]).unwrap();
    let expected: Vec<String> = cells.iter().map(|c| s.scrub_text(c, &d.detect_regex(c))).collect();
    match content {
        FileContent::Tabular(t) => {
            assert_eq!(t.rows, vec![expected[..2].to_vec(), expected[2..].to_vec()]);
        }
        _ => panic!("expected a table"),
    }
    let text = "write to alice@corp.io or 555-123-4567";
    let (content, stats) = process_text(&d, &s, text, &vec![]).unwrap();
    let found = d.detect_regex(text);
    match content {
        FileContent::Text(t) => assert_eq!(t, s.scrub_text(text, &found)),
        _ => panic!("expected text"),
    }
    assert_eq!(stats.total_pii_found, found.len());
}
