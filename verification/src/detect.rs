use vstd::prelude::*;
use vstd::utf8::*;
use vstd::string::StringSliceAdditionalSpecFns;
use crate::pii::{
    is_ner_type, is_overlap_free, is_sorted_by_start, law_overlap_free_is_kept,
    law_overlap_removal_is_overlap_free, law_overlap_removal_keeps_first_in_order, law_sort_orders_and_permutes,
    law_sorting_sorted_keeps_it, lemma_settled_on_boundaries, lemma_subsequence_keeps_sorted, on_boundaries,
    remove_overlaps, sort_by_start, sorted_by_start, views, without_overlaps, MatchView, PiiMatch,
    PiiType,
};
use crate::text::{is_str_range, is_text_range, substring};
use crate::validate::{is_valid_match, validate_match};

verus! {

/// The regular expression that finds each type, if it is found by one.
pub open spec fn pattern_of(t: PiiType) -> Option<Seq<char>> {
    match t {
        PiiType::Email => Some(r"(?i)[a-zA-Z0-9._%+-]+@[a-zA-Z0-9.-]+\.[a-zA-Z]{2,}"@),
        PiiType::Phone => Some(r"(?:\+?1[-.\s]?)?\(?[0-9]{3}\)?[-.\s]?[0-9]{3}[-.\s]?[0-9]{4}"@),
        PiiType::SSN => Some(r"\b\d{3}[-\s]?\d{2}[-\s]?\d{4}\b"@),
        PiiType::CreditCard => Some(r"\b(?:4[0-9]{12}(?:[0-9]{3})?|5[1-5][0-9]{14}|3[47][0-9]{13}|6(?:011|5[0-9]{2})[0-9]{12}|(?:2131|1800|35\d{3})\d{11})\b"@),
        PiiType::IPAddress => Some(r"\b(?:(?:25[0-5]|2[0-4][0-9]|[01]?[0-9][0-9]?)\.){3}(?:25[0-5]|2[0-4][0-9]|[01]?[0-9][0-9]?)\b"@),
        PiiType::DateOfBirth => Some(r"\b(?:0?[1-9]|1[0-2])[/\-](?:0?[1-9]|[12][0-9]|3[01])[/\-](?:19|20)?\d{2}\b|\b(?:19|20)\d{2}[/\-](?:0?[1-9]|1[0-2])[/\-](?:0?[1-9]|[12][0-9]|3[01])\b"@),
        PiiType::Passport => Some(r"\b[A-Z]{1,2}[0-9]{6,9}\b"@),
        PiiType::DriversLicense => Some(r"\b[A-Z]{1,2}[0-9]{5,8}\b"@),
        PiiType::BankAccount => Some(r"\b(?:\d{4}[-\s]\d{4}[-\s]\d{4}[-\s]\d{4}|\d{16})\b"@),
        PiiType::Name | PiiType::Address | PiiType::Organization => None,
    }
}

/// The regular expression of a type, or `None` for the types only the
/// named-entity model finds.
pub fn regex_pattern(t: PiiType) -> (pattern: Option<&'static str>)
    ensures
        pattern is None <==> pattern_of(t) is None,
        pattern matches Some(p) ==> pattern_of(t) == Some(p@),
{
    match t {
        PiiType::Email => Some(r"(?i)[a-zA-Z0-9._%+-]+@[a-zA-Z0-9.-]+\.[a-zA-Z]{2,}"),
        PiiType::Phone => Some(r"(?:\+?1[-.\s]?)?\(?[0-9]{3}\)?[-.\s]?[0-9]{3}[-.\s]?[0-9]{4}"),
        PiiType::SSN => Some(r"\b\d{3}[-\s]?\d{2}[-\s]?\d{4}\b"),
        PiiType::CreditCard => Some(r"\b(?:4[0-9]{12}(?:[0-9]{3})?|5[1-5][0-9]{14}|3[47][0-9]{13}|6(?:011|5[0-9]{2})[0-9]{12}|(?:2131|1800|35\d{3})\d{11})\b"),
        PiiType::IPAddress => Some(r"\b(?:(?:25[0-5]|2[0-4][0-9]|[01]?[0-9][0-9]?)\.){3}(?:25[0-5]|2[0-4][0-9]|[01]?[0-9][0-9]?)\b"),
        PiiType::DateOfBirth => Some(r"\b(?:0?[1-9]|1[0-2])[/\-](?:0?[1-9]|[12][0-9]|3[01])[/\-](?:19|20)?\d{2}\b|\b(?:19|20)\d{2}[/\-](?:0?[1-9]|1[0-2])[/\-](?:0?[1-9]|[12][0-9]|3[01])\b"),
        PiiType::Passport => Some(r"\b[A-Z]{1,2}[0-9]{6,9}\b"),
        PiiType::DriversLicense => Some(r"\b[A-Z]{1,2}[0-9]{5,8}\b"),
        PiiType::BankAccount => Some(r"\b(?:\d{4}[-\s]\d{4}[-\s]\d{4}[-\s]\d{4}|\d{16})\b"),
        PiiType::Name | PiiType::Address | PiiType::Organization => None,
    }
}

/// What `regex::Regex::find_iter` yields when `pattern` is searched in
/// `text`: the byte ranges `(start, end)` of the successive non-overlapping
/// matches; `None` when `pattern` does not compile.
pub uninterp spec fn regex_match_ranges(pattern: Seq<char>, text: Seq<char>) -> Option<
    Seq<(usize, usize)>,
>;

/// Ranges that the regex crate documents for the matches it reports: each
/// starts no later than it ends, both ends fall on character boundaries of
/// the text, and each match starts at or after the end of the one before.
pub open spec fn are_match_ranges(text: &str, ranges: Seq<(usize, usize)>) -> bool {
    &&& forall|i: int|
        0 <= i < ranges.len() ==> is_str_range(text, #[trigger] ranges[i].0 as int, ranges[i].1 as int)
    &&& forall|i: int| 0 <= i < ranges.len() - 1 ==> #[trigger] ranges[i].1 <= ranges[i + 1].0
}

/// Compiles `pattern` with `regex::Regex::new` and collects, for each text,
/// the byte ranges of the matches that `Regex::find_iter` yields. Claimed of
/// the regex crate: the result is the named `regex_match_ranges`, which
/// depends on the pattern and the text alone, and the ranges have the shape
/// the crate documents for `Match::start`, `Match::end` and `find_iter`
/// (ordered, non-overlapping, on character boundaries).
#[verifier::external_body]
fn regex_find_in_each(pattern: &str, texts: &Vec<&str>) -> (found: Option<Vec<Vec<(usize, usize)>>>)
    ensures
        found is None ==> forall|i: int|
            0 <= i < texts.len() ==> regex_match_ranges(pattern@, (#[trigger] texts@[i])@) is None,
        found matches Some(all) ==> {
            &&& all.len() == texts.len()
            &&& forall|i: int|
                0 <= i < texts.len() ==> regex_match_ranges(pattern@, (#[trigger] texts@[i])@)
                    == Some(all@[i]@)
            &&& forall|i: int|
                0 <= i < texts.len() ==> are_match_ranges(#[trigger] texts@[i], all@[i]@)
        },
{
    match regex::Regex::new(pattern) {
        Ok(re) => Some(
            texts.iter().map(|t| re.find_iter(t).map(|m| (m.start(), m.end())).collect()).collect(),
        ),
        Err(_) => None,
    }
}

/// The byte ranges where the type's expression matches `text`.
pub open spec fn regex_ranges(t: PiiType, text: Seq<char>) -> Seq<(usize, usize)> {
    match pattern_of(t) {
        Some(p) => match regex_match_ranges(p, text) {
            Some(r) => r,
            None => seq![],
        },
        None => seq![],
    }
}

/// The characters of `text` whose UTF-8 encoding lies between two byte
/// offsets.
pub open spec fn text_between(text: Seq<char>, start: int, end: int) -> Seq<char> {
    decode_utf8(encode_utf8(text).subrange(start, end))
}

/// The matches of type `t` at the given ranges of `text` that pass the
/// type's extra check, in order.
pub open spec fn checked_matches(t: PiiType, text: Seq<char>, ranges: Seq<(usize, usize)>) -> Seq<
    MatchView,
>
    decreases ranges.len(),
{
    if ranges.len() == 0 {
        seq![]
    } else {
        let earlier = checked_matches(t, text, ranges.drop_last());
        let (start, end) = ranges.last();
        let value = text_between(text, start as int, end as int);
        if is_valid_match(t, value) {
            earlier.push(MatchView { pii_type: t, value, start, end })
        } else {
            earlier
        }
    }
}

/// The matches the expressions of `types` find in `text`, type after type.
pub open spec fn regex_scan(types: Seq<PiiType>, text: Seq<char>) -> Seq<MatchView>
    decreases types.len(),
{
    if types.len() == 0 {
        seq![]
    } else {
        let t = types.last();
        regex_scan(types.drop_last(), text) + if is_ner_type(t) {
            seq![]
        } else {
            checked_matches(t, text, regex_ranges(t, text))
        }
    }
}

/// What expression-based detection reports for `text`: the matches of all
/// enabled types, sorted by start, without overlaps.
pub open spec fn regex_detection(types: Seq<PiiType>, text: Seq<char>) -> Seq<MatchView> {
    without_overlaps(sorted_by_start(regex_scan(types, text)))
}

/// For each text, the matches of type `t` at the given ranges that pass the
/// type's check.
fn collect_checked(
    t: PiiType,
    texts: &Vec<&str>,
    found: &Vec<Vec<(usize, usize)>>,
    raw: &mut Vec<Vec<PiiMatch>>,
)
    requires
        found.len() == texts.len(),
        old(raw).len() == texts.len(),
        forall|i: int| 0 <= i < texts.len() ==> are_match_ranges(#[trigger] texts@[i], found@[i]@),
        forall|i: int| 0 <= i < texts.len() ==> on_boundaries((#[trigger] texts@[i])@, views(old(raw)@[i]@)),
    ensures
        final(raw).len() == texts.len(),
        forall|i: int| 0 <= i < texts.len() ==> on_boundaries((#[trigger] texts@[i])@, views(final(raw)@[i]@)),
        forall|i: int|
            0 <= i < texts.len() ==> views(#[trigger] final(raw)@[i]@) == views(old(raw)@[i]@)
                + checked_matches(t, texts@[i]@, found@[i]@),
{
    let mut i: usize = 0;
    while i < texts.len()
        invariant
            i <= texts.len(),
            found.len() == texts.len(),
            raw.len() == texts.len(),
            forall|k: int| 0 <= k < texts.len() ==> are_match_ranges(#[trigger] texts@[k], found@[k]@),
            forall|k: int|
                0 <= k < i ==> views(#[trigger] raw@[k]@) == views(old(raw)@[k]@) + checked_matches(
                    t,
                    texts@[k]@,
                    found@[k]@,
                ),
            forall|k: int| i <= k < texts.len() ==> #[trigger] raw@[k] == old(raw)@[k],
            forall|k: int| 0 <= k < texts.len() ==> on_boundaries((#[trigger] texts@[k])@, views(old(raw)@[k]@)),
            forall|k: int| 0 <= k < i ==> on_boundaries((#[trigger] texts@[k])@, views(raw@[k]@)),
        decreases texts.len() - i,
    {
        let text = texts[i];
        let ranges = &found[i];
        let mut list: Vec<PiiMatch> = Vec::new();
        let mut j: usize = 0;
        while j < ranges.len()
            invariant
                j <= ranges.len(),
                text == texts@[i as int],
                ranges == found@[i as int],
                are_match_ranges(text, ranges@),
                views(list@) == checked_matches(t, text@, ranges@.take(j as int)),
                on_boundaries(text@, views(list@)),
            decreases ranges.len() - j,
        {
            let (start, end) = ranges[j];
            proof {
                assert(ranges@[j as int].0 == start);
                assert(is_str_range(text, start as int, end as int));
                assert(ranges@.take(j + 1).drop_last() =~= ranges@.take(j as int));
                assert(ranges@.take(j + 1).last() == (start, end));
            }
            let piece = substring(text, start, end);
            proof {
                broadcast use group_utf8_lib;
                assert(piece@ == text_between(text@, start as int, end as int));
            }
            if validate_match(t, piece) {
                let ghost before = list@;
                list.push(PiiMatch { pii_type: t, value: piece.to_owned(), start, end });
                proof {
                    assert(views(list@) =~= views(before).push(list@.last()@));
                }
            }
            j = j + 1;
        }
        proof {
            assert(ranges@.take(ranges.len() as int) =~= ranges@);
        }
        let mut row = Vec::new();
        std::mem::swap(&mut row, &mut raw[i]);
        let ghost before_row = row@;
        let mut list_mut = list;
        row.append(&mut list_mut);
        proof {
            assert(views(row@) =~= views(before_row) + views(list@));
            assert(before_row == old(raw)@[i as int]@);
            let all = views(row@);
            assert forall|q: int| 0 <= q < all.len() implies is_text_range(text@, (#[trigger] all[q]).start as int, all[q].end as int) by {
                if q < views(before_row).len() {
                    assert(all[q] == views(before_row)[q]);
                } else {
                    assert(all[q] == views(list@)[q - views(before_row).len()]);
                }
            }
        }
        raw.set(i, row);
        i = i + 1;
    }
}

/// Runs every enabled expression over every text, once per type, and gives
/// for each text the matches that pass the type's check, in type order.
pub(crate) fn scan_each(types: &Vec<PiiType>, texts: &Vec<&str>) -> (raw: Vec<Vec<PiiMatch>>)
    ensures
        raw.len() == texts.len(),
        forall|i: int| 0 <= i < texts.len() ==> views(#[trigger] raw@[i]@) == regex_scan(types@, texts@[i]@),
        forall|i: int| 0 <= i < texts.len() ==> on_boundaries((#[trigger] texts@[i])@, views(raw@[i]@)),
{
    let mut raw: Vec<Vec<PiiMatch>> = Vec::new();
    let mut i: usize = 0;
    while i < texts.len()
        invariant
            i <= texts.len(),
            raw.len() == i,
            forall|k: int| 0 <= k < i ==> (#[trigger] raw@[k])@ == Seq::<PiiMatch>::empty(),
        decreases texts.len() - i,
    {
        raw.push(Vec::new());
        i = i + 1;
    }
    let mut k: usize = 0;
    while k < types.len()
        invariant
            k <= types.len(),
            raw.len() == texts.len(),
            forall|i: int|
                0 <= i < texts.len() ==> views(#[trigger] raw@[i]@) == regex_scan(
                    types@.take(k as int),
                    texts@[i]@,
                ),
            forall|i: int| 0 <= i < texts.len() ==> on_boundaries((#[trigger] texts@[i])@, views(raw@[i]@)),
        decreases types.len() - k,
    {
        let t = types[k];
        proof {
            assert(types@.take(k + 1).drop_last() =~= types@.take(k as int));
            assert(types@.take(k + 1).last() == t);
        }
        let ghost before = raw@;
        if !t.uses_ner() {
            if let Some(pattern) = regex_pattern(t) {
                match regex_find_in_each(pattern, texts) {
                    Some(found) => {
                        collect_checked(t, texts, &found, &mut raw);
                    },
                    None => {
                        proof {
                            assert forall|i: int| 0 <= i < texts.len() implies views(
                                #[trigger] raw@[i]@,
                            ) == regex_scan(types@.take(k + 1), texts@[i]@) by {
                                assert(regex_ranges(t, texts@[i]@) =~= Seq::<(usize, usize)>::empty());
                                assert(views(raw@[i]@) + Seq::<MatchView>::empty() =~= views(raw@[i]@));
                            }
                        }
                    },
                }
            } else {
                proof {
                    assert forall|i: int| 0 <= i < texts.len() implies views(#[trigger] raw@[i]@)
                        == regex_scan(types@.take(k + 1), texts@[i]@) by {
                        assert(views(raw@[i]@) + Seq::<MatchView>::empty() =~= views(raw@[i]@));
                    }
                }
            }
        } else {
            proof {
                assert forall|i: int| 0 <= i < texts.len() implies views(#[trigger] raw@[i]@)
                    == regex_scan(types@.take(k + 1), texts@[i]@) by {
                    assert(views(raw@[i]@) + Seq::<MatchView>::empty() =~= views(raw@[i]@));
                }
            }
        }
        k = k + 1;
    }
    proof {
        assert(types@.take(types.len() as int) =~= types@);
    }
    raw
}

/// Expression-based detection on each of the texts: every enabled type's
/// matches that pass its check, sorted by start, without overlaps.
pub fn detect_regex_each(types: &Vec<PiiType>, texts: &Vec<&str>) -> (found: Vec<Vec<PiiMatch>>)
    ensures
        found.len() == texts.len(),
        forall|i: int|
            0 <= i < texts.len() ==> views(#[trigger] found@[i]@) == regex_detection(types@, texts@[i]@),
        forall|i: int|
            0 <= i < texts.len() ==> on_boundaries((#[trigger] texts@[i])@, regex_detection(types@, texts@[i]@)),
{
    let raw = scan_each(types, texts);
    let mut found: Vec<Vec<PiiMatch>> = Vec::new();
    let mut i: usize = 0;
    while i < raw.len()
        invariant
            i <= raw.len(),
            raw.len() == texts.len(),
            found.len() == i,
            forall|k: int| 0 <= k < texts.len() ==> views(#[trigger] raw@[k]@) == regex_scan(types@, texts@[k]@),
            forall|k: int| 0 <= k < texts.len() ==> on_boundaries((#[trigger] texts@[k])@, views(raw@[k]@)),
            forall|k: int|
                0 <= k < i ==> views(#[trigger] found@[k]@) == regex_detection(types@, texts@[k]@),
        decreases raw.len() - i,
    {
        let sorted = sort_by_start(&raw[i]);
        let kept = remove_overlaps(&sorted);
        found.push(kept);
        i = i + 1;
    }
    proof {
        assert forall|k: int| 0 <= k < texts.len() implies on_boundaries(
            (#[trigger] texts@[k])@,
            regex_detection(types@, texts@[k]@),
        ) by {
            lemma_settled_on_boundaries(texts@[k]@, regex_scan(types@, texts@[k]@));
        }
    }
    found
}

/// A match expression-based detection may report in `text` for `types`: of
/// an enabled type that the expressions find, passing the type's check, and
/// holding the text between its offsets.
pub open spec fn is_reportable(types: Seq<PiiType>, text: Seq<char>, m: MatchView) -> bool {
    &&& types.contains(m.pii_type)
    &&& !is_ner_type(m.pii_type)
    &&& is_valid_match(m.pii_type, m.value)
    &&& m.value == text_between(text, m.start as int, m.end as int)
}

proof fn lemma_checked_reportable(types: Seq<PiiType>, t: PiiType, text: Seq<char>, ranges: Seq<(usize, usize)>)
    requires
        types.contains(t),
        !is_ner_type(t),
    ensures
        forall|k: int|
            0 <= k < checked_matches(t, text, ranges).len() ==> is_reportable(
                types,
                text,
                #[trigger] checked_matches(t, text, ranges)[k],
            ),
    decreases ranges.len(),
{
    if ranges.len() > 0 {
        lemma_checked_reportable(types, t, text, ranges.drop_last());
        let earlier = checked_matches(t, text, ranges.drop_last());
        let all = checked_matches(t, text, ranges);
        assert forall|k: int| 0 <= k < all.len() implies is_reportable(types, text, #[trigger] all[k]) by {
            if k < earlier.len() {
                assert(all[k] == earlier[k]);
            }
        }
    }
}

pub(crate) proof fn lemma_scan_reportable(all: Seq<PiiType>, n: int, text: Seq<char>)
    requires
        0 <= n <= all.len(),
    ensures
        forall|k: int|
            0 <= k < regex_scan(all.take(n), text).len() ==> is_reportable(
                all,
                text,
                #[trigger] regex_scan(all.take(n), text)[k],
            ),
    decreases n,
{
    if n > 0 {
        let types = all.take(n);
        assert(types.drop_last() =~= all.take(n - 1));
        lemma_scan_reportable(all, n - 1, text);
        let t = types.last();
        assert(all[n - 1] == t);
        if !is_ner_type(t) {
            lemma_checked_reportable(all, t, text, regex_ranges(t, text));
        }
        let earlier = regex_scan(all.take(n - 1), text);
        let added = if is_ner_type(t) {
            Seq::<MatchView>::empty()
        } else {
            checked_matches(t, text, regex_ranges(t, text))
        };
        assert forall|k: int| 0 <= k < regex_scan(types, text).len() implies is_reportable(
            all,
            text,
            #[trigger] regex_scan(types, text)[k],
        ) by {
            if k < earlier.len() {
                assert(regex_scan(types, text)[k] == earlier[k]);
            } else {
                assert(regex_scan(types, text)[k] == added[k - earlier.len()]);
            }
        }
    }
}

/// Expression-based detection reports only matches of enabled types that
/// its expressions find and that pass their type's check (the Luhn check
/// for card numbers, the SSN rules for social security numbers), each
/// holding the text between its offsets; and no two reported matches
/// overlap.
pub proof fn law_detection_reports_checked_matches(types: Seq<PiiType>, text: Seq<char>)
    ensures
        is_overlap_free(regex_detection(types, text)),
        forall|k: int|
            0 <= k < regex_detection(types, text).len() ==> is_reportable(
                types,
                text,
                #[trigger] regex_detection(types, text)[k],
            ),
{
    broadcast use vstd::seq_lib::group_to_multiset_ensures;

    let scan = regex_scan(types, text);
    let sorted = sorted_by_start(scan);
    assert(types.take(types.len() as int) =~= types);
    lemma_scan_reportable(types, types.len() as int, text);
    law_sort_orders_and_permutes(scan);
    law_overlap_removal_is_overlap_free(sorted);
    assert forall|k: int| 0 <= k < regex_detection(types, text).len() implies is_reportable(
        types,
        text,
        #[trigger] regex_detection(types, text)[k],
    ) by {
        let m = regex_detection(types, text)[k];
        assert(sorted.contains(m));
        assert(sorted.to_multiset().count(m) > 0);
        assert(scan.to_multiset().count(m) > 0);
        assert(scan.contains(m));
        let j = choose|j: int| 0 <= j < scan.len() && scan[j] == m;
        assert(is_reportable(types, text, scan[j]));
    }
}

/// Expression-based detection gives matches sorted by start and free of
/// overlaps, which sorting and overlap removal leave as they are.
pub proof fn lemma_regex_detection_settled(types: Seq<PiiType>, text: Seq<char>)
    ensures
        is_sorted_by_start(regex_detection(types, text)),
        is_overlap_free(regex_detection(types, text)),
        sorted_by_start(regex_detection(types, text)) == regex_detection(types, text),
        without_overlaps(regex_detection(types, text)) == regex_detection(types, text),
{
    let sorted = sorted_by_start(regex_scan(types, text));
    law_sort_orders_and_permutes(regex_scan(types, text));
    law_overlap_removal_is_overlap_free(sorted);
    law_overlap_removal_keeps_first_in_order(sorted);
    lemma_subsequence_keeps_sorted(without_overlaps(sorted), sorted);
    law_sorting_sorted_keeps_it(regex_detection(types, text));
    law_overlap_free_is_kept(regex_detection(types, text));
}

} // verus!
