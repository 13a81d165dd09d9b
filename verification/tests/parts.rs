use klaro::cache::{NerCache, NER_CACHE_CAPACITY};
use klaro::ner::{group_entities, is_ner_available, NerEntityType, NerLabel, NerStatus};
use klaro::pii::{PiiMatch, PiiType};
use klaro::rows::{assign_to_first_cell, joined_row, matches_within};
use klaro::stats::{update_stats, ScrubStats};
use klaro::text::{ascii_digits, push_decimal, str_eq, substring};

fn pm(t: PiiType, start: usize, end: usize) -> PiiMatch {
    PiiMatch { pii_type: t, value: String::new(), start, end }
}

#[test]
fn labels_of_model_outputs() {
    let labels: Vec<NerLabel> = (0..10).map(NerLabel::from_id).collect();
    assert_eq!(labels[0], NerLabel::Outside);
    assert_eq!(labels[1], NerLabel::BeginPer);
    assert_eq!(labels[4], NerLabel::InsideOrg);
    assert_eq!(labels[6], NerLabel::InsideLoc);
    assert_eq!(labels[8], NerLabel::InsideMisc);
    assert_eq!(labels[9], NerLabel::Outside);
    assert_eq!(NerLabel::InsidePer.entity_type(), Some(NerEntityType::Person));
    assert_eq!(NerLabel::BeginLoc.entity_type(), Some(NerEntityType::Location));
    assert_eq!(NerLabel::Outside.entity_type(), None);
    assert!(NerLabel::BeginMisc.is_begin() && !NerLabel::InsideMisc.is_begin());
}

#[test]
fn tokens_group_into_entities() {
    // "Alice Smith visits New York": [CLS] Alice Smith visits New York [SEP]
    let predictions = [0, 1, 2, 0, 5, 6, 0];
    let offsets = [(0, 0), (0, 5), (6, 11), (12, 18), (19, 22), (23, 27), (0, 0)];
    let spans = group_entities(&predictions, &offsets, 27);
    let got: Vec<(NerEntityType, usize, usize, Vec<usize>)> =
        spans.iter().map(|s| (s.entity_type, s.start, s.end, s.tokens.clone())).collect();
    assert_eq!(
        got,
        vec![
            (NerEntityType::Person, 0, 11, vec![1, 2]),
            (NerEntityType::Location, 19, 27, vec![4, 5]),
        ]
    );
}

#[test]
fn begin_label_or_kind_change_opens_a_new_entity() {
    let predictions = [1, 1, 6, 2];
    let offsets = [(0, 1), (2, 3), (4, 5), (6, 7)];
    let spans = group_entities(&predictions, &offsets, 7);
    let got: Vec<(NerEntityType, usize, usize)> = spans.iter().map(|s| (s.entity_type, s.start, s.end)).collect();
    assert_eq!(
        got,
        vec![
            (NerEntityType::Person, 0, 1),
            (NerEntityType::Person, 2, 3),
            (NerEntityType::Location, 4, 5),
            (NerEntityType::Person, 6, 7),
        ]
    );
    // an entity running past the text is dropped
    assert!(group_entities(&[1], &[(0, 9)], 5).is_empty());
}

#[test]
fn model_status() {
    assert!(is_ner_available(&NerStatus::Ready));
    assert!(!is_ner_available(&NerStatus::Uninitialized));
    assert!(!is_ner_available(&NerStatus::Failed("missing".to_string())));
}

#[test]
fn cache_reads_back_what_was_written() {
    let mut c = NerCache::new();
    assert_eq!(c.len(), 0);
    assert!(c.get("hello").is_none());
    c.insert("hello", vec![pm(PiiType::Name, 0, 5)]);
    c.insert("other", vec![]);
    c.insert("hello", vec![pm(PiiType::Address, 1, 2)]);
    assert_eq!(c.len(), 2);
    let got = c.get("hello").unwrap();
    assert_eq!(got.len(), 1);
    assert!(got[0].pii_type == PiiType::Address && got[0].start == 1);
    assert!(c.get("other").unwrap().is_empty());
    assert_eq!(NER_CACHE_CAPACITY, 50_000);
}

#[test]
fn stats_count_by_display_name() {
    let mut stats = ScrubStats::default();
    let mut counts = Vec::new();
    update_stats(&vec![pm(PiiType::Email, 0, 1), pm(PiiType::SSN, 2, 3), pm(PiiType::Email, 4, 5)], &mut stats, &mut counts);
    assert_eq!(stats.total_pii_found, 3);
    assert_eq!(counts, vec![("Email Address".to_string(), 2), ("Social Security Number".to_string(), 1)]);
    update_stats(&vec![], &mut stats, &mut counts);
    assert_eq!(stats.total_pii_found, 3);
    let total: usize = counts.iter().map(|c| c.1).sum();
    assert_eq!(total, stats.total_pii_found);
}

#[test]
fn joined_rows_and_cell_ranges() {
    let row = vec!["Bob".to_string(), "né".to_string(), "".to_string()];
    let (joined, ranges) = joined_row(&row);
    assert_eq!(joined, "Bob | né | ");
    assert_eq!(ranges, vec![(0, 3), (6, 9), (12, 12)]);
    for (i, (s, e)) in ranges.iter().enumerate() {
        assert_eq!(&joined[*s..*e], row[i]);
    }
}

#[test]
fn model_matches_to_cells() {
    let ranges = vec![(0, 3), (6, 9)];
    let ner = vec![pm(PiiType::Name, 0, 3), pm(PiiType::Name, 0, 9), pm(PiiType::Name, 7, 9)];
    let cells = assign_to_first_cell(&ner, &ranges);
    let got: Vec<Vec<(usize, usize)>> = cells.iter().map(|c| c.iter().map(|m| (m.start, m.end)).collect()).collect();
    assert_eq!(got, vec![vec![(0, 3)], vec![(1, 3)]]);
    let within: Vec<(usize, usize)> = matches_within(&ner, (6, 9)).iter().map(|m| (m.start, m.end)).collect();
    assert_eq!(within, vec![(1, 3)]);
    // an empty match at a shared boundary belongs to the first cell only
    let shared = vec![(0, 3), (3, 5)];
    let cells = assign_to_first_cell(&vec![pm(PiiType::Name, 3, 3)], &shared);
    assert_eq!((cells[0].len(), cells[1].len()), (1, 0));
}

#[test]
fn small_text_helpers() {
    assert_eq!(ascii_digits("(555) 12-3٤"), vec!['5', '5', '5', '1', '2', '3']);
    let mut s = String::from("n=");
    push_decimal(&mut s, 7, 3);
    push_decimal(&mut s, 12345, 2);
    assert_eq!(s, "n=00712345");
    assert!(str_eq("abc", "abc") && !str_eq("abc", "abd") && !str_eq("ab", "abc"));
    assert_eq!(substring("héllo", 3, 5), "ll");
}
