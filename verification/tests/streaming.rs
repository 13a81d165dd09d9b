use klaro::detector::PiiDetector;
use klaro::license::VersionLimits;
use klaro::ner::{NerEntity, NerEntityType};
use klaro::pii::PiiType;
use klaro::scrub::{ScrubConfig, ScrubMethod, Scrubber};
use klaro::streaming::{joined_rows, stream_matches, ProcessingStats, StreamingProcessor};

fn processor(types: Vec<PiiType>, limits: VersionLimits) -> StreamingProcessor {
    StreamingProcessor::new(
        PiiDetector::new(types),
        Scrubber::new(ScrubConfig { method: ScrubMethod::Mask, preserve_format: true }),
        limits,
    )
}

fn entity(entity_type: NerEntityType, text: &str, start: usize, confidence: u32) -> NerEntity {
    NerEntity { entity_type, text: text.to_string(), start, end: start + text.len(), confidence }
}

fn row(cells: &[&str]) -> Vec<String> {
    cells.iter().map(|s| s.to_string()).collect()
}

const SURE: u32 = 16_000_000;

#[test]
fn new_processor_reads_in_64_kib_pieces() {
    let p = processor(vec![PiiType::Email], VersionLimits::pro());
    assert_eq!(p.chunk_size, 65536);
}

#[test]
fn row_limit_of_streamed_tables() {
    let p = processor(vec![PiiType::Email], VersionLimits::lite());
    assert!(p.check_stream_row(9_999).is_ok());
    assert_eq!(
        p.check_stream_row(10_000).unwrap_err(),
        "Row limit (10000) exceeded. Upgrade to Pro for unlimited rows."
    );
    let p = processor(vec![PiiType::Email], VersionLimits::pro());
    assert!(p.check_stream_row(usize::MAX).is_ok());
}

#[test]
fn stream_entities_map_whatever_types_are_enabled() {
    let found = stream_matches(&vec![
        entity(NerEntityType::Person, "Alice", 0, SURE),
        entity(NerEntityType::Organization, "Acme", 10, 11_744_051),
        entity(NerEntityType::Location, "Paris", 20, 11_744_050),
        entity(NerEntityType::Misc, "French", 30, SURE),
    ]);
    let got: Vec<(PiiType, usize)> = found.iter().map(|m| (m.pii_type, m.start)).collect();
    assert_eq!(got, vec![(PiiType::Name, 0), (PiiType::Organization, 10)]);
}

#[test]
fn joined_rows_use_the_separator() {
    assert_eq!(joined_rows(&vec![row(&["a", "b", "c"]), row(&[])]), vec!["a | b | c".to_string(), String::new()]);
}

#[test]
fn csv_batch_with_model_answers() {
    let p = processor(vec![PiiType::Email, PiiType::Name], VersionLimits::pro());
    let rows = vec![row(&["Alice", "alice@corp.io"]), row(&["x", "y"])];
    // joined: "Alice | alice@corp.io"; "corp" lies at 14..18, inside the second cell
    let outcome = Some(vec![
        vec![entity(NerEntityType::Person, "Alice", 0, SURE), entity(NerEntityType::Organization, "corp", 14, SURE)],
        vec![entity(NerEntityType::Person, "x", 0, 1_000)],
    ]);
    let mut stats = ProcessingStats::default();
    let out = p.scrub_csv(&rows, true, &outcome, &mut stats).unwrap();
    assert_eq!(out, vec![row(&["*****", "a***@corp.io"]), row(&["x", "y"])]);
    assert_eq!((stats.total_pii_found, stats.cells_affected, stats.rows_affected, stats.rows_processed), (2, 2, 1, 2));
}

#[test]
fn csv_batch_without_model() {
    let p = processor(vec![PiiType::Email, PiiType::Name], VersionLimits::pro());
    let rows = vec![row(&["Alice", "alice@corp.io"])];
    let mut stats = ProcessingStats { rows_processed: 10, rows_affected: 1, cells_affected: 1, total_pii_found: 1 };
    let out = p.scrub_csv(&rows, false, &None, &mut stats).unwrap();
    assert_eq!(out, vec![row(&["Alice", "a***@corp.io"])]);
    assert_eq!((stats.total_pii_found, stats.cells_affected, stats.rows_affected, stats.rows_processed), (2, 2, 2, 11));
    // a failed model answer gives no model matches
    let mut stats = ProcessingStats::default();
    let out = p.scrub_csv(&rows, true, &None, &mut stats).unwrap();
    assert_eq!(out, vec![row(&["Alice", "a***@corp.io"])]);
}

#[test]
fn text_batch_with_cached_model_answers() {
    let mut p = processor(vec![PiiType::Name], VersionLimits::pro());
    let lines = vec!["Alice went home", "ab", "Alice went home"];
    let pending = p.detector.ner_pending(&lines);
    assert_eq!(pending, vec![0, 2]);
    let outcomes = vec![Some(vec![
        vec![entity(NerEntityType::Person, "Alice", 0, SURE)],
        vec![entity(NerEntityType::Person, "Alice", 0, SURE)],
    ])];
    let mut stats = ProcessingStats::default();
    let out = p.scrub_text_batch(&lines, true, &outcomes, &mut stats).unwrap();
    assert_eq!(out, vec!["***** went home".to_string(), "ab".to_string(), "***** went home".to_string()]);
    assert_eq!((stats.total_pii_found, stats.rows_affected, stats.rows_processed, stats.cells_affected), (2, 2, 3, 0));
    // the answer is cached: the next batch needs no model
    assert!(p.detector.ner_pending(&vec!["Alice went home"]).is_empty());
    let mut stats = ProcessingStats::default();
    let out = p.scrub_text_batch(&vec!["Alice went home"], true, &vec![], &mut stats).unwrap();
    assert_eq!(out, vec!["***** went home".to_string()]);
}

#[test]
fn text_batch_without_model() {
    let mut p = processor(vec![PiiType::Email, PiiType::Name], VersionLimits::pro());
    let mut stats = ProcessingStats::default();
    let out = p.scrub_text_batch(&vec!["a@b.co x", "none"], false, &vec![], &mut stats).unwrap();
    assert_eq!(out, vec!["***@b.co x".to_string(), "none".to_string()]);
    assert_eq!((stats.total_pii_found, stats.rows_affected, stats.rows_processed), (1, 1, 2));
}

#[test]
fn headers_use_full_detection() {
    let mut p = processor(vec![PiiType::Email], VersionLimits::pro());
    let mut stats = ProcessingStats::default();
    assert_eq!(p.scrub_header("email", false, None, &mut stats).unwrap(), "email");
    assert_eq!(p.scrub_header("x@corp.io", false, None, &mut stats).unwrap(), "***@corp.io");
    assert_eq!(stats.total_pii_found, 1);
    assert_eq!(stats.rows_processed, 0);
}
