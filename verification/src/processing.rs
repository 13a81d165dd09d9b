use vstd::prelude::*;
use crate::cache::copy_matches;
use crate::detect::{lemma_regex_detection_settled, regex_detection};
use crate::detector::{any_ner_type, PiiDetector};
use crate::files::{opt_string_view, FileContent, TabularData};
use crate::pii::{
    lemma_concat_on_boundaries, lemma_settled_on_boundaries, on_boundaries,
    remove_overlaps, sort_by_start, sorted_by_start, views, without_overlaps, MatchView, PiiMatch, PiiType,
};
use crate::rows::{assign_to_first_cell, cell_range, first_cell_matches, joined_row};
use crate::scrub::{
    all_replaceable, can_scrub, is_scrub_of, law_fixed_methods_are_deterministic, lemma_scrubbable_on_boundaries,
    replacements_fixed, ScrubMethod, Scrubber,
};
use crate::streaming::nonempty_count;
use crate::stats::{count_all, count_matches, counts_view, sat_add, update_stats, ScrubStats};
use crate::text::{is_text_range, strings_view};

verus! {

/// The byte ranges of the cells of a row in the joined row.
pub open spec fn row_ranges(row: Seq<Seq<char>>) -> Seq<(usize, usize)> {
    Seq::new(row.len(), |i: int| (cell_range(row, i).0 as usize, cell_range(row, i).1 as usize))
}

/// What is reported for cell `c` of a row: its expression matches and,
/// when the model is used, the model's matches on the joined row that
/// first lie within the cell, merged, sorted by start and freed of
/// overlaps.
pub open spec fn cell_findings(
    enabled: Seq<PiiType>,
    use_ner: bool,
    row: Seq<Seq<char>>,
    ner: Seq<MatchView>,
    c: int,
) -> Seq<MatchView> {
    let from_model = if use_ner {
        first_cell_matches(ner, row_ranges(row), c as nat)
    } else {
        seq![]
    };
    without_overlaps(sorted_by_start(regex_detection(enabled, row[c]) + from_model))
}

/// The findings of each cell of a row.
pub open spec fn row_findings(enabled: Seq<PiiType>, use_ner: bool, row: Seq<Seq<char>>, ner: Seq<MatchView>) -> Seq<
    Seq<MatchView>,
> {
    Seq::new(row.len(), |c: int| cell_findings(enabled, use_ner, row, ner, c))
}

/// A running total of the lengths of the lists.
pub open spec fn findings_total(acc: usize, lists: Seq<Seq<MatchView>>) -> usize
    decreases lists.len(),
{
    if lists.len() == 0 {
        acc
    } else {
        sat_add(findings_total(acc, lists.drop_last()), lists.last().len())
    }
}

/// The counts after counting every match of the lists.
pub open spec fn counts_over(c: Seq<(Seq<char>, usize)>, lists: Seq<Seq<MatchView>>) -> Seq<(Seq<char>, usize)>
    decreases lists.len(),
{
    if lists.len() == 0 {
        c
    } else {
        count_matches(counts_over(c, lists.drop_last()), lists.last())
    }
}

/// Whether some list is not empty.
pub open spec fn any_found(lists: Seq<Seq<MatchView>>) -> bool {
    exists|i: int| 0 <= i < lists.len() && lists[i].len() > 0
}

/// Whether every cell of the row can be scrubbed.
pub open spec fn row_scrubbable(method: ScrubMethod, row: Seq<Seq<char>>, findings: Seq<Seq<MatchView>>) -> bool {
    forall|c: int| 0 <= c < row.len() ==> can_scrub(method, row[c], #[trigger] findings[c])
}

/// The model's matches for row `r`, or none when the model is not used.
pub open spec fn row_ner(use_ner: bool, ner_results: Seq<Vec<PiiMatch>>, r: int) -> Seq<MatchView> {
    if use_ner {
        views(ner_results[r]@)
    } else {
        seq![]
    }
}

/// The findings of the first `n` rows, row after row.
pub open spec fn table_findings(
    enabled: Seq<PiiType>,
    use_ner: bool,
    rows: Seq<Vec<String>>,
    ner_results: Seq<Vec<PiiMatch>>,
    n: nat,
) -> Seq<Seq<Seq<MatchView>>>
    decreases n,
{
    if n == 0 {
        seq![]
    } else {
        table_findings(enabled, use_ner, rows, ner_results, (n - 1) as nat).push(
            row_findings(enabled, use_ner, strings_view(rows[n - 1]@), row_ner(use_ner, ner_results, n - 1)),
        )
    }
}

/// Totals folded over the rows' findings.
pub open spec fn table_total(acc: usize, rows: Seq<Seq<Seq<MatchView>>>) -> usize
    decreases rows.len(),
{
    if rows.len() == 0 {
        acc
    } else {
        findings_total(table_total(acc, rows.drop_last()), rows.last())
    }
}

pub open spec fn table_counts(c: Seq<(Seq<char>, usize)>, rows: Seq<Seq<Seq<MatchView>>>) -> Seq<(Seq<char>, usize)>
    decreases rows.len(),
{
    if rows.len() == 0 {
        c
    } else {
        counts_over(table_counts(c, rows.drop_last()), rows.last())
    }
}

/// The number of cells with some finding, row after row (stopping at the
/// largest `usize`).
pub open spec fn table_cells_affected(rows: Seq<Seq<Seq<MatchView>>>) -> usize
    decreases rows.len(),
{
    if rows.len() == 0 {
        0
    } else {
        nonempty_count(table_cells_affected(rows.drop_last()), rows.last())
    }
}

/// The number of rows with some finding (stopping at the largest `usize`).
pub open spec fn rows_with_findings(rows: Seq<Seq<Seq<MatchView>>>) -> usize
    decreases rows.len(),
{
    if rows.len() == 0 {
        0
    } else {
        sat_add(rows_with_findings(rows.drop_last()), if any_found(rows.last()) { 1 } else { 0 })
    }
}

/// The findings of one cell: its expression matches and the model's
/// matches merged, sorted and freed of overlaps; and the scrubbed cell,
/// when scrubbing is defined.
pub(crate) fn process_cell(scrubber: &Scrubber, cell: &String, regex: &Vec<PiiMatch>, ner: &Vec<PiiMatch>) -> (out: (
    Vec<PiiMatch>,
    Option<String>,
))
    ensures
        views(out.0@) == without_overlaps(sorted_by_start(views(regex@) + views(ner@))),
        out.1 is Some <==> can_scrub(scrubber.method(), cell@, views(out.0@)),
        out.1 matches Some(s) ==> is_scrub_of(scrubber.method(), cell@, views(out.0@), s@),
        on_boundaries(cell@, views(regex@)) && on_boundaries(cell@, views(ner@)) && all_replaceable(
            scrubber.method(),
            views(out.0@),
        ) ==> out.1 is Some,
{
    let mut all = copy_matches(regex);
    let mut more = copy_matches(ner);
    let ghost a = views(all@);
    all.append(&mut more);
    proof {
        assert(views(all@) =~= views(regex@) + views(ner@));
    }
    let sorted = sort_by_start(&all);
    let found = remove_overlaps(&sorted);
    proof {
        if on_boundaries(cell@, views(regex@)) && on_boundaries(cell@, views(ner@)) && all_replaceable(
            scrubber.method(),
            views(found@),
        ) {
            lemma_concat_on_boundaries(cell@, views(regex@), views(ner@));
            lemma_settled_on_boundaries(cell@, views(regex@) + views(ner@));
            lemma_scrubbable_on_boundaries(scrubber.method(), cell@, views(found@));
        }
    }
    let scrubbed = scrubber.scrub_text_checked(cell.as_str(), found.as_slice());
    (found, scrubbed)
}

/// The model's matches when the model is used, else none.
pub open spec fn model_matches(use_ner: bool, ner: Seq<MatchView>) -> Seq<MatchView> {
    if use_ner {
        ner
    } else {
        seq![]
    }
}

/// Scrubbing cell `c` of a row is owed: the model's matches that go to the
/// cell (when the model is used) lie on its character boundaries, and every
/// replacement of the cell's findings can be made.
pub open spec fn cell_owed(
    method: ScrubMethod,
    enabled: Seq<PiiType>,
    use_ner: bool,
    row: Seq<Seq<char>>,
    ner: Seq<MatchView>,
    c: int,
) -> bool {
    &&& use_ner ==> on_boundaries(row[c], first_cell_matches(ner, row_ranges(row), c as nat))
    &&& all_replaceable(method, cell_findings(enabled, use_ner, row, ner, c))
}

/// Scrubs a row: each cell with its expression matches (already found, at
/// `regex_all[base + c]`) and the model's matches on the joined row.
fn process_row(
    scrubber: &Scrubber,
    enabled: Ghost<Seq<PiiType>>,
    use_ner: bool,
    row: &Vec<String>,
    regex_all: &Vec<Vec<PiiMatch>>,
    base: usize,
    ner: &Vec<PiiMatch>,
    stats: &mut ScrubStats,
    counts: &mut Vec<(String, usize)>,
) -> (out: Option<Vec<String>>)
    requires
        base + row.len() <= regex_all.len(),
        forall|c: int|
            0 <= c < row.len() ==> views(#[trigger] regex_all@[base + c]@) == regex_detection(
                enabled@,
                row@[c]@,
            ),
        forall|c: int| 0 <= c < row.len() ==> on_boundaries(row@[c]@, views(#[trigger] regex_all@[base + c]@)),
    ensures
        ({
            let f = row_findings(enabled@, use_ner, strings_view(row@), if use_ner { views(ner@) } else { seq![] });
            &&& out is Some <==> row_scrubbable(scrubber.method(), strings_view(row@), f)
            &&& (forall|c: int|
                0 <= c < row.len() ==> #[trigger] cell_owed(
                    scrubber.method(),
                    enabled@,
                    use_ner,
                    strings_view(row@),
                    model_matches(use_ner, views(ner@)),
                    c,
                )) ==> out is Some
            &&& out matches Some(o) ==> {
                &&& o.len() == row.len()
                &&& forall|c: int|
                    0 <= c < row.len() ==> is_scrub_of(scrubber.method(), row@[c]@, f[c], (#[trigger] o@[c])@)
                &&& final(stats).total_pii_found == findings_total(old(stats).total_pii_found, f)
                &&& final(stats).rows_affected == sat_add(old(stats).rows_affected, if any_found(f) { 1 } else { 0 })
                &&& final(stats).rows_processed == old(stats).rows_processed
                &&& final(stats).cells_affected == nonempty_count(old(stats).cells_affected, f)
                &&& final(stats).pii_by_type == old(stats).pii_by_type
                &&& counts_view(final(counts)@) == counts_over(counts_view(old(counts)@), f)
            }
        }),
{
    let ghost cells = strings_view(row@);
    let ghost ner_v = if use_ner { views(ner@) } else { seq![] };
    let ghost f = row_findings(enabled@, use_ner, cells, ner_v);
    let cell_ner: Vec<Vec<PiiMatch>> = if use_ner {
        let (_, ranges) = joined_row(row);
        proof {
            assert(ranges@ =~= row_ranges(cells));
        }
        assign_to_first_cell(ner, &ranges)
    } else {
        let mut empty: Vec<Vec<PiiMatch>> = Vec::new();
        let mut c: usize = 0;
        while c < row.len()
            invariant
                c <= row.len(),
                empty.len() == c,
                forall|k: int| 0 <= k < c ==> (#[trigger] empty@[k])@ == Seq::<PiiMatch>::empty(),
            decreases row.len() - c,
        {
            empty.push(Vec::new());
            c = c + 1;
        }
        empty
    };
    proof {
        assert forall|c: int| 0 <= c < row.len() implies views(#[trigger] cell_ner@[c]@) == (if use_ner {
            first_cell_matches(ner_v, row_ranges(cells), c as nat)
        } else {
            seq![]
        }) by {
            if !use_ner {
                assert(views(cell_ner@[c]@) =~= Seq::<MatchView>::empty());
            }
        }
    }
    let ghost stats0 = *stats;
    let ghost counts0 = counts_view(counts@);
    let mut out: Vec<String> = Vec::new();
    let mut had = false;
    let mut c: usize = 0;
    while c < row.len()
        invariant
            c <= row.len(),
            cells == strings_view(row@),
            ner_v == (if use_ner { views(ner@) } else { Seq::<MatchView>::empty() }),
            f == row_findings(enabled@, use_ner, cells, ner_v),
            base + row.len() <= regex_all.len(),
            cell_ner.len() == row.len(),
            forall|k: int|
                0 <= k < row.len() ==> views(#[trigger] regex_all@[base + k]@) == regex_detection(
                    enabled@,
                    row@[k]@,
                ),
            forall|k: int| 0 <= k < row.len() ==> on_boundaries(row@[k]@, views(#[trigger] regex_all@[base + k]@)),
            forall|k: int| 0 <= k < row.len() ==> views(#[trigger] cell_ner@[k]@) == (if use_ner {
                first_cell_matches(ner_v, row_ranges(cells), k as nat)
            } else {
                seq![]
            }),
            out.len() == c,
            forall|k: int| 0 <= k < c ==> can_scrub(scrubber.method(), cells[k], #[trigger] f[k]),
            forall|k: int| 0 <= k < c ==> is_scrub_of(scrubber.method(), row@[k]@, f[k], (#[trigger] out@[k])@),
            stats.total_pii_found == findings_total(stats0.total_pii_found, f.take(c as int)),
            had == any_found(f.take(c as int)),
            stats.rows_affected == stats0.rows_affected,
            stats.rows_processed == stats0.rows_processed,
            stats.cells_affected == nonempty_count(stats0.cells_affected, f.take(c as int)),
            stats.pii_by_type == stats0.pii_by_type,
            counts_view(counts@) == counts_over(counts0, f.take(c as int)),
        decreases row.len() - c,
    {
        let (found, scrubbed) = process_cell(scrubber, &row[c], &regex_all[base + c], &cell_ner[c]);
        proof {
            assert(cells[c as int] == row@[c as int]@);
            assert(views(found@) == f[c as int]);
            assert(f.take(c + 1).drop_last() =~= f.take(c as int));
            assert(f.take(c + 1).last() == f[c as int]);
        }
        match scrubbed {
            Some(s) => {
                out.push(s);
            },
            None => {
                proof {
                    assert(!can_scrub(scrubber.method(), cells[c as int], f[c as int]));
                    assert(!row_scrubbable(scrubber.method(), cells, f));
                    assert(model_matches(use_ner, views(ner@)) == ner_v);
                    if cell_owed(scrubber.method(), enabled@, use_ner, cells, model_matches(use_ner, views(ner@)), c as int) {
                        if !use_ner {
                            assert(views(cell_ner@[c as int]@) =~= Seq::<MatchView>::empty());
                        }
                        assert(on_boundaries(row@[c as int]@, views(regex_all@[base + c]@)));
                        assert(false);
                    }
                }
                return None;
            },
        }
        if found.len() > 0 {
            had = true;
        }
        proof {
            let g0 = f.take(c as int);
            let g1 = f.take(c + 1);
            if any_found(g0) {
                let i = choose|i: int| 0 <= i < g0.len() && g0[i].len() > 0;
                assert(g1[i] == g0[i]);
            }
            if found.len() > 0 {
                assert(g1[c as int].len() > 0);
            }
            if any_found(g1) && found.len() == 0 {
                let i = choose|i: int| 0 <= i < g1.len() && g1[i].len() > 0;
                assert(g0[i] == g1[i]);
            }
        }
        stats.total_pii_found = stats.total_pii_found.saturating_add(found.len());
        if found.len() > 0 {
            stats.cells_affected = stats.cells_affected.saturating_add(1);
        }
        count_all(counts, &found);
        c = c + 1;
    }
    if had {
        stats.rows_affected = stats.rows_affected.saturating_add(1);
    }
    proof {
        assert(f.take(row.len() as int) =~= f);
    }
    Some(out)
}

/// Every cell was scrubbed with its findings.
pub open spec fn cells_scrubbed(method: ScrubMethod, cells: Seq<String>, out: Seq<String>, f: Seq<Seq<MatchView>>) -> bool {
    &&& out.len() == cells.len()
    &&& forall|c: int| 0 <= c < cells.len() ==> is_scrub_of(method, cells[c]@, f[c], (#[trigger] out[c])@)
}

/// Every row was scrubbed with its findings.
pub open spec fn rows_scrubbed(
    method: ScrubMethod,
    rows: Seq<Vec<String>>,
    out: Seq<Vec<String>>,
    f: Seq<Seq<Seq<MatchView>>>,
) -> bool {
    &&& out.len() == rows.len()
    &&& forall|r: int| 0 <= r < rows.len() ==> cells_scrubbed(method, rows[r]@, (#[trigger] out[r])@, f[r])
}

/// The expression findings of each header.
pub open spec fn header_findings(enabled: Seq<PiiType>, headers: Seq<String>) -> Seq<Seq<MatchView>> {
    Seq::new(headers.len(), |k: int| regex_detection(enabled, headers[k]@))
}

/// The expression findings of the header row, if there is one.
pub open spec fn opt_header_findings(enabled: Seq<PiiType>, headers: Option<Vec<String>>) -> Seq<Seq<MatchView>> {
    match headers {
        Some(hs) => header_findings(enabled, hs@),
        None => seq![],
    }
}

/// The number of cells before row `r`.
pub open spec fn cells_before(rows: Seq<Vec<String>>, r: int) -> nat
    decreases r,
{
    if r <= 0 {
        0
    } else {
        (cells_before(rows, r - 1) + rows[r - 1].len()) as nat
    }
}

pub(crate) proof fn lemma_cells_before_mono(rows: Seq<Vec<String>>, r: int, s: int)
    requires
        0 <= r <= s,
    ensures
        cells_before(rows, r) <= cells_before(rows, s),
    decreases s - r,
{
    if r < s {
        lemma_cells_before_mono(rows, r, s - 1);
    }
}

/// Cell `c` of row `q` stands in the flat list after the cells of the
/// rows before it.
pub open spec fn flat_cell_at(rows: Seq<Vec<String>>, flat: Seq<&str>, q: int, c: int) -> bool {
    &&& cells_before(rows, q) + c < flat.len()
    &&& flat[cells_before(rows, q) + c]@ == rows[q]@[c]@
}

/// All cells of all rows, row after row.
pub(crate) fn flatten_cells<'a>(rows: &'a Vec<Vec<String>>) -> (flat: Vec<&'a str>)
    ensures
        flat.len() == cells_before(rows@, rows.len() as int),
        forall|q: int, c: int|
            0 <= q < rows.len() && 0 <= c < rows@[q].len() ==> #[trigger] flat_cell_at(rows@, flat@, q, c),
{
    let ghost rs = rows@;
    let mut flat: Vec<&'a str> = Vec::new();
    let mut r: usize = 0;
    while r < rows.len()
        invariant
            rs == rows@,
            r <= rs.len(),
            flat.len() == cells_before(rs, r as int),
            forall|q: int, c: int| 0 <= q < r && 0 <= c < rs[q].len() ==> #[trigger] flat_cell_at(rs, flat@, q, c),
        decreases rs.len() - r,
    {
        let row = &rows[r];
        let ghost before = flat@;
        let mut c: usize = 0;
        while c < row.len()
            invariant
                rs == rows@,
                c <= row.len(),
                r < rs.len(),
                row == rs[r as int],
                forall|q: int, k: int| 0 <= q < r && 0 <= k < rs[q].len() ==> #[trigger] flat_cell_at(rs, before, q, k),
                flat.len() == cells_before(rs, r as int) + c,
                flat@.take(before.len() as int) == before,
                before.len() == cells_before(rs, r as int),
                forall|k: int| 0 <= k < c ==> #[trigger] flat_cell_at(rs, flat@, r as int, k),
            decreases row.len() - c,
        {
            let ghost prev = flat@;
            flat.push(row[c].as_str());
            proof {
                assert(flat@.take(before.len() as int) =~= before);
                assert forall|k: int| 0 <= k < c + 1 implies #[trigger] flat_cell_at(rs, flat@, r as int, k) by {
                    if k < c {
                        assert(flat_cell_at(rs, prev, r as int, k));
                    }
                }
            }
            c = c + 1;
        }
        proof {
            assert forall|q: int, k: int| 0 <= q < r + 1 && 0 <= k < rs[q].len() implies #[trigger] flat_cell_at(
                rs,
                flat@,
                q,
                k,
            ) by {
                if q < r {
                    assert(flat_cell_at(rs, before, q, k));
                    lemma_cells_before_mono(rs, q + 1, r as int);
                    assert(flat@[cells_before(rs, q) + k] == before[cells_before(rs, q) + k]);
                }
            }
        }
        r = r + 1;
    }
    flat
}

/// Scrubs the header row with its expression matches, counting them.
fn process_headers(
    detector: &PiiDetector,
    scrubber: &Scrubber,
    headers: &Vec<String>,
    stats: &mut ScrubStats,
    counts: &mut Vec<(String, usize)>,
) -> (out: Option<Vec<String>>)
    ensures
        ({
            let hf = header_findings(detector.enabled(), headers@);
            &&& out is Some <==> row_scrubbable(scrubber.method(), strings_view(headers@), hf)
            &&& (forall|k: int| 0 <= k < headers.len() ==> all_replaceable(scrubber.method(), #[trigger] hf[k]))
                ==> out is Some
            &&& out matches Some(o) ==> {
                &&& cells_scrubbed(scrubber.method(), headers@, o@, hf)
                &&& final(stats).total_pii_found == findings_total(old(stats).total_pii_found, hf)
                &&& final(stats).rows_affected == old(stats).rows_affected
                &&& final(stats).rows_processed == old(stats).rows_processed
                &&& final(stats).cells_affected == old(stats).cells_affected
                &&& final(stats).pii_by_type == old(stats).pii_by_type
                &&& counts_view(final(counts)@) == counts_over(counts_view(old(counts)@), hf)
            }
        }),
{
    let ghost hf = header_findings(detector.enabled(), headers@);
    let ghost stats0 = *stats;
    let ghost counts0 = counts_view(counts@);
    let mut out: Vec<String> = Vec::new();
    let mut k: usize = 0;
    while k < headers.len()
        invariant
            k <= headers.len(),
            hf == header_findings(detector.enabled(), headers@),
            out.len() == k,
            forall|i: int| 0 <= i < k ==> can_scrub(scrubber.method(), headers@[i]@, #[trigger] hf[i]),
            forall|i: int| 0 <= i < k ==> is_scrub_of(scrubber.method(), headers@[i]@, hf[i], (#[trigger] out@[i])@),
            stats.total_pii_found == findings_total(stats0.total_pii_found, hf.take(k as int)),
            stats.rows_affected == stats0.rows_affected,
            stats.rows_processed == stats0.rows_processed,
            stats.cells_affected == stats0.cells_affected,
            stats.pii_by_type == stats0.pii_by_type,
            counts_view(counts@) == counts_over(counts0, hf.take(k as int)),
        decreases headers.len() - k,
    {
        let found = detector.detect_regex(headers[k].as_str());
        proof {
            assert(hf.take(k + 1).drop_last() =~= hf.take(k as int));
            assert(hf.take(k + 1).last() == hf[k as int]);
        }
        update_stats(&found, stats, counts);
        match scrubber.scrub_text_checked(headers[k].as_str(), found.as_slice()) {
            Some(s) => out.push(s),
            None => {
                proof {
                    assert(strings_view(headers@)[k as int] == headers@[k as int]@);
                    assert(!row_scrubbable(scrubber.method(), strings_view(headers@), hf));
                    if all_replaceable(scrubber.method(), hf[k as int]) {
                        lemma_scrubbable_on_boundaries(scrubber.method(), headers@[k as int]@, views(found@));
                    }
                }
                return None;
            },
        }
        k = k + 1;
    }
    proof {
        assert(hf.take(headers.len() as int) =~= hf);
        assert forall|i: int| 0 <= i < headers.len() implies can_scrub(scrubber.method(), strings_view(headers@)[i], #[trigger] hf[i]) by {
            assert(strings_view(headers@)[i] == headers@[i]@);
        }
    }
    Some(out)
}

/// Scrubbing a table is owed: every replacement of the headers' findings
/// can be made, and scrubbing each data cell is owed.
pub open spec fn table_owed(
    method: ScrubMethod,
    enabled: Seq<PiiType>,
    data: &TabularData,
    ner_results: Seq<Vec<PiiMatch>>,
) -> bool {
    let use_ner = any_ner_type(enabled);
    &&& match data.headers {
        Some(hs) => forall|k: int|
            0 <= k < hs.len() ==> all_replaceable(method, #[trigger] header_findings(enabled, hs@)[k]),
        None => true,
    }
    &&& forall|r: int, c: int|
        0 <= r < data.rows.len() && 0 <= c < data.rows@[r]@.len() ==> #[trigger] cell_owed(
            method,
            enabled,
            use_ner,
            strings_view(data.rows@[r]@),
            row_ner(use_ner, ner_results, r),
            c,
        )
}

/// Scrubs a table. Header cells are searched with the expressions only.
/// Each data cell is searched with the expressions and, when an enabled type
/// needs the model, also gets the model's matches on its joined row
/// (`ner_results[r]` for row `r`, found by the caller through the detector
/// on the joined rows) that first lie within it. The statistics count the
/// matches found in headers and cells, the rows and the data cells with some
/// match, and the rows processed. `None` when some header or cell cannot be scrubbed.
pub fn process_tabular(
    detector: &PiiDetector,
    scrubber: &Scrubber,
    data: &TabularData,
    ner_results: &Vec<Vec<PiiMatch>>,
) -> (result: Option<(FileContent, ScrubStats)>)
    requires
        any_ner_type(detector.enabled()) ==> ner_results.len() >= data.rows.len(),
    ensures
        ({
            let enabled = detector.enabled();
            let use_ner = any_ner_type(enabled);
            let method = scrubber.method();
            let hf = opt_header_findings(enabled, data.headers);
            let tf = table_findings(enabled, use_ner, data.rows@, ner_results@, data.rows.len() as nat);
            &&& result is None <==> (data.headers matches Some(hs) && !row_scrubbable(
                method,
                strings_view(hs@),
                hf,
            )) || exists|r: int|
                0 <= r < data.rows.len() && !row_scrubbable(
                    method,
                    strings_view(#[trigger] data.rows@[r]@),
                    tf[r],
                )
            &&& table_owed(method, enabled, data, ner_results@) ==> result is Some
            &&& result matches Some(res) ==> {
                &&& res.0 matches FileContent::Tabular(t) && {
                    &&& match data.headers {
                        Some(hs) => t.headers matches Some(ho) && cells_scrubbed(method, hs@, ho@, hf),
                        None => t.headers is None,
                    }
                    &&& rows_scrubbed(method, data.rows@, t.rows@, tf)
                    &&& opt_string_view(t.sheet_name) == opt_string_view(data.sheet_name)
                }
                &&& res.1.total_pii_found == table_total(findings_total(0, hf), tf)
                &&& res.1.rows_affected == rows_with_findings(tf)
                &&& res.1.rows_processed == data.rows.len()
                &&& res.1.cells_affected == table_cells_affected(tf)
                &&& counts_view(res.1.pii_by_type@) == table_counts(counts_over(seq![], hf), tf)
            }
        }),
{
    let ghost enabled = detector.enabled();
    let use_ner = detector.uses_ner();
    let ghost tf = table_findings(enabled, use_ner, data.rows@, ner_results@, data.rows.len() as nat);
    let mut stats = ScrubStats::default();
    let mut counts: Vec<(String, usize)> = Vec::new();
    proof {
        assert(counts_view(counts@) =~= Seq::<(Seq<char>, usize)>::empty());
    }
    let ghost hf = opt_header_findings(enabled, data.headers);
    let headers = match &data.headers {
        Some(hs) => match process_headers(detector, scrubber, hs, &mut stats, &mut counts) {
            Some(o) => Some(o),
            None => {
                proof {
                    assert(!table_owed(scrubber.method(), enabled, data, ner_results@));
                }
                return None;
            },
        },
        None => {
            proof {
                assert(counts_over(Seq::<(Seq<char>, usize)>::empty(), hf) == Seq::<(Seq<char>, usize)>::empty());
            }
            None
        },
    };
    let sheet_name = match &data.sheet_name {
        Some(n) => Some(n.clone()),
        None => None,
    };
    let ghost stats_h = stats;
    let ghost counts_h = counts_view(counts@);
    let flat = flatten_cells(&data.rows);
    let regex_all = detector.detect_regex_batch(&flat);
    let mut out_rows: Vec<Vec<String>> = Vec::new();
    let mut base: usize = 0;
    let mut r: usize = 0;
    while r < data.rows.len()
        invariant
            r <= data.rows.len(),
            enabled == detector.enabled(),
            use_ner == any_ner_type(enabled),
            use_ner ==> ner_results.len() >= data.rows.len(),
            tf == table_findings(enabled, use_ner, data.rows@, ner_results@, data.rows.len() as nat),
            regex_all.len() == flat.len(),
            flat.len() == cells_before(data.rows@, data.rows.len() as int),
            forall|q: int, c: int|
                0 <= q < data.rows.len() && 0 <= c < data.rows@[q].len() ==> #[trigger] flat_cell_at(
                    data.rows@,
                    flat@,
                    q,
                    c,
                ),
            forall|i: int| 0 <= i < flat.len() ==> views(#[trigger] regex_all@[i]@) == regex_detection(enabled, flat@[i]@),
            forall|i: int| 0 <= i < flat.len() ==> on_boundaries(flat@[i]@, views(#[trigger] regex_all@[i]@)),
            base == cells_before(data.rows@, r as int),
            out_rows.len() == r,
            forall|q: int| 0 <= q < r ==> row_scrubbable(scrubber.method(), strings_view(data.rows@[q]@), #[trigger] tf[q]),
            forall|q: int| 0 <= q < r ==> cells_scrubbed(scrubber.method(), data.rows@[q]@, (#[trigger] out_rows@[q])@, tf[q]),
            stats.total_pii_found == table_total(stats_h.total_pii_found, tf.take(r as int)),
            stats.rows_affected == rows_with_findings(tf.take(r as int)),
            stats.rows_processed == 0,
            stats.cells_affected == table_cells_affected(tf.take(r as int)),
            counts_view(counts@) == table_counts(counts_h, tf.take(r as int)),
        decreases data.rows.len() - r,
    {
        let row = &data.rows[r];
        proof {
            lemma_cells_before_mono(data.rows@, r + 1, data.rows.len() as int);
            assert forall|c: int| 0 <= c < row.len() implies views(#[trigger] regex_all@[base + c]@)
                == regex_detection(enabled, row@[c]@) && on_boundaries(row@[c]@, views(regex_all@[base + c]@)) by {
                assert(flat_cell_at(data.rows@, flat@, r as int, c));
                assert(data.rows@[r as int]@[c] == row@[c]);
            }
            lemma_table_findings_at(enabled, use_ner, data.rows@, ner_results@, data.rows.len() as nat, r as int);
            assert(tf.take(r + 1).drop_last() =~= tf.take(r as int));
        }
        let empty_ner: Vec<PiiMatch> = Vec::new();
        let ner_row = if use_ner {
            &ner_results[r]
        } else {
            &empty_ner
        };
        proof {
            assert((if use_ner { views(ner_row@) } else { Seq::<MatchView>::empty() }) == row_ner(use_ner, ner_results@, r as int));
        }
        match process_row(scrubber, Ghost(enabled), use_ner, row, &regex_all, base, ner_row, &mut stats, &mut counts) {
            Some(o) => out_rows.push(o),
            None => {
                proof {
                    let ms = model_matches(use_ner, views(ner_row@));
                    assert(ms == row_ner(use_ner, ner_results@, r as int));
                    let c = choose|c: int|
                        0 <= c < row.len() && !cell_owed(scrubber.method(), enabled, use_ner, strings_view(row@), ms, c);
                    assert(data.rows@[r as int] == *row);
                    assert(!cell_owed(
                        scrubber.method(),
                        enabled,
                        use_ner,
                        strings_view(data.rows@[r as int]@),
                        row_ner(use_ner, ner_results@, r as int),
                        c,
                    ));
                }
                return None;
            },
        }
        proof {
            assert(tf.take(r + 1).last() == tf[r as int]);
        }
        base = base + row.len();
        r = r + 1;
    }
    proof {
        lemma_table_len(enabled, use_ner, data.rows@, ner_results@, data.rows.len() as nat);
        assert(tf.take(data.rows.len() as int) =~= tf);
    }
    stats.rows_processed = data.rows.len();
    stats.pii_by_type = counts;
    Some((FileContent::Tabular(TabularData { headers, rows: out_rows, sheet_name }), stats))
}

proof fn lemma_table_findings_at(
    enabled: Seq<PiiType>,
    use_ner: bool,
    rows: Seq<Vec<String>>,
    ner_results: Seq<Vec<PiiMatch>>,
    n: nat,
    r: int,
)
    requires
        0 <= r < n,
    ensures
        table_findings(enabled, use_ner, rows, ner_results, n).len() == n,
        table_findings(enabled, use_ner, rows, ner_results, n)[r] == row_findings(
            enabled,
            use_ner,
            strings_view(rows[r]@),
            row_ner(use_ner, ner_results, r),
        ),
    decreases n,
{
    if r < n - 1 {
        lemma_table_findings_at(enabled, use_ner, rows, ner_results, (n - 1) as nat, r);
    } else {
        if n > 1 {
            lemma_table_len(enabled, use_ner, rows, ner_results, (n - 1) as nat);
        } else {
            lemma_table_len(enabled, use_ner, rows, ner_results, 0);
        }
    }
    lemma_table_len(enabled, use_ner, rows, ner_results, n);
}

proof fn lemma_table_len(enabled: Seq<PiiType>, use_ner: bool, rows: Seq<Vec<String>>, ner_results: Seq<Vec<PiiMatch>>, n: nat)
    ensures
        table_findings(enabled, use_ner, rows, ner_results, n).len() == n,
    decreases n,
{
    if n > 0 {
        lemma_table_len(enabled, use_ner, rows, ner_results, (n - 1) as nat);
    }
}

/// What is reported for a text: its expression matches and, when the model
/// is used, the model's matches merged with them, sorted by start and freed
/// of overlaps.
pub open spec fn text_findings(enabled: Seq<PiiType>, text: Seq<char>, ner: Seq<MatchView>) -> Seq<MatchView> {
    if any_ner_type(enabled) {
        without_overlaps(sorted_by_start(regex_detection(enabled, text) + ner))
    } else {
        regex_detection(enabled, text)
    }
}

/// Scrubs a whole text as one piece: its expression matches and, when an
/// enabled type needs the model, the model's matches on the text (`ner`,
/// found by the caller through the detector). The statistics count the
/// matches and one processed row; the row and the cell are affected when
/// something was found. `None` when the text cannot be scrubbed with its
/// matches.
pub fn process_text(detector: &PiiDetector, scrubber: &Scrubber, text: &str, ner: &Vec<PiiMatch>) -> (result:
    Option<(FileContent, ScrubStats)>)
    ensures
        ({
            let found = text_findings(detector.enabled(), text@, views(ner@));
            &&& result is Some <==> can_scrub(scrubber.method(), text@, found)
            &&& on_boundaries(text@, views(ner@)) && all_replaceable(scrubber.method(), found) ==> result is Some
            &&& result matches Some(res) ==> {
                &&& res.0 matches FileContent::Text(t) && is_scrub_of(scrubber.method(), text@, found, t@)
                &&& res.1.total_pii_found == sat_add(0, found.len())
                &&& res.1.rows_affected == (if found.len() > 0 { 1usize } else { 0usize })
                &&& res.1.cells_affected == (if found.len() > 0 { 1usize } else { 0usize })
                &&& res.1.rows_processed == 1
                &&& counts_view(res.1.pii_by_type@) == count_matches(seq![], found)
            }
        }),
{
    let mut stats = ScrubStats::default();
    let mut counts: Vec<(String, usize)> = Vec::new();
    proof {
        assert(counts_view(counts@) =~= Seq::<(Seq<char>, usize)>::empty());
    }
    let regex = detector.detect_regex(text);
    let found = if detector.uses_ner() {
        let mut all = copy_matches(&regex);
        let mut more = copy_matches(ner);
        all.append(&mut more);
        proof {
            assert(views(all@) =~= views(regex@) + views(ner@));
        }
        let sorted = sort_by_start(&all);
        let kept = remove_overlaps(&sorted);
        proof {
            if on_boundaries(text@, views(ner@)) {
                lemma_concat_on_boundaries(text@, views(regex@), views(ner@));
                lemma_settled_on_boundaries(text@, views(regex@) + views(ner@));
            }
        }
        kept
    } else {
        regex
    };
    proof {
        if on_boundaries(text@, views(ner@)) && all_replaceable(scrubber.method(), views(found@)) {
            lemma_scrubbable_on_boundaries(scrubber.method(), text@, views(found@));
        }
    }
    update_stats(&found, &mut stats, &mut counts);
    if found.len() > 0 {
        stats.rows_affected = 1;
        stats.cells_affected = 1;
    }
    stats.rows_processed = 1;
    stats.pii_by_type = counts;
    match scrubber.scrub_text_checked(text, found.as_slice()) {
        Some(scrubbed) => Some((FileContent::Text(scrubbed), stats)),
        None => None,
    }
}

/// Without the model, what is reported for a cell is what expression-based
/// detection finds in it.
pub proof fn law_cell_without_model_gets_regex_findings(
    enabled: Seq<PiiType>,
    row: Seq<Seq<char>>,
    ner: Seq<MatchView>,
    c: int,
)
    ensures
        cell_findings(enabled, false, row, ner, c) == regex_detection(enabled, row[c]),
{
    let found = regex_detection(enabled, row[c]);
    assert(found + seq![] =~= found);
    lemma_regex_detection_settled(enabled, row[c]);
}

proof fn lemma_table_row(
    enabled: Seq<PiiType>,
    use_ner: bool,
    rows: Seq<Vec<String>>,
    ner_results: Seq<Vec<PiiMatch>>,
    n: nat,
    r: int,
)
    requires
        0 <= r < n,
    ensures
        table_findings(enabled, use_ner, rows, ner_results, n)[r] == row_findings(
            enabled,
            use_ner,
            strings_view(rows[r]@),
            row_ner(use_ner, ner_results, r),
        ),
    decreases n,
{
    lemma_table_len(enabled, use_ner, rows, ner_results, (n - 1) as nat);
    if r < n - 1 {
        lemma_table_row(enabled, use_ner, rows, ner_results, (n - 1) as nat, r);
    }
}

/// Without the model, each cell of a table is reported what expression-based
/// detection finds in it, so scrubbing a table scrubs each cell on its own.
pub proof fn law_table_without_model_gets_regex_findings(
    enabled: Seq<PiiType>,
    rows: Seq<Vec<String>>,
    ner_results: Seq<Vec<PiiMatch>>,
    r: int,
    c: int,
)
    requires
        !any_ner_type(enabled),
        0 <= r < rows.len(),
        0 <= c < rows[r]@.len(),
    ensures
        table_findings(enabled, any_ner_type(enabled), rows, ner_results, rows.len() as nat)[r][c]
            == regex_detection(enabled, rows[r]@[c]@),
{
    lemma_table_row(enabled, false, rows, ner_results, rows.len() as nat, r);
    let row = strings_view(rows[r]@);
    law_cell_without_model_gets_regex_findings(enabled, row, row_ner(false, ner_results, r), c);
}

/// Without the model, what is reported for a text is what expression-based
/// detection finds in it.
pub proof fn law_text_without_model_gets_regex_findings(enabled: Seq<PiiType>, text: Seq<char>, ner: Seq<MatchView>)
    requires
        !any_ner_type(enabled),
    ensures
        text_findings(enabled, text, ner) == regex_detection(enabled, text),
{
}

/// Every replacement can be made with any method but Mask, so without the
/// model scrubbing a table is owed for those methods, and scrubbing a text
/// whose model matches lie on its character boundaries is too.
pub proof fn law_scrubbing_owed_but_under_mask(
    method: ScrubMethod,
    enabled: Seq<PiiType>,
    data: &TabularData,
    ner_results: Seq<Vec<PiiMatch>>,
    ms: Seq<MatchView>,
)
    requires
        method != ScrubMethod::Mask,
    ensures
        all_replaceable(method, ms),
        !any_ner_type(enabled) ==> table_owed(method, enabled, data, ner_results),
{
}

/// Without the model, a table comes out as its cells scrubbed one by one,
/// in place, each with what expression-based detection finds in it: for a
/// method whose replacements are fixed, each output cell is the scrub of its
/// input cell with those findings (the one `scrub_text` gives).
pub proof fn law_table_is_scrubbed_cell_by_cell(
    method: ScrubMethod,
    enabled: Seq<PiiType>,
    rows: Seq<Vec<String>>,
    ner_results: Seq<Vec<PiiMatch>>,
    out: Seq<Vec<String>>,
    r: int,
    c: int,
    s: Seq<char>,
)
    requires
        !any_ner_type(enabled),
        rows_scrubbed(method, rows, out, table_findings(enabled, any_ner_type(enabled), rows, ner_results, rows.len() as nat)),
        0 <= r < rows.len(),
        0 <= c < rows[r]@.len(),
        replacements_fixed(method, regex_detection(enabled, rows[r]@[c]@)),
        is_scrub_of(method, rows[r]@[c]@, regex_detection(enabled, rows[r]@[c]@), s),
    ensures
        out.len() == rows.len(),
        out[r]@.len() == rows[r]@.len(),
        out[r]@[c]@ == s,
{
    law_table_without_model_gets_regex_findings(enabled, rows, ner_results, r, c);
    let tf = table_findings(enabled, false, rows, ner_results, rows.len() as nat);
    assert(cells_scrubbed(method, rows[r]@, out[r]@, tf[r]));
    law_fixed_methods_are_deterministic(method, rows[r]@[c]@, tf[r][c], out[r]@[c]@, s);
}

/// Without the model, a text comes out as its scrub with what
/// expression-based detection finds in it: for a method whose replacements
/// are fixed, the one `scrub_text` gives.
pub proof fn law_text_is_scrubbed_with_regex_findings(
    method: ScrubMethod,
    enabled: Seq<PiiType>,
    text: Seq<char>,
    ner: Seq<MatchView>,
    out: Seq<char>,
    s: Seq<char>,
)
    requires
        !any_ner_type(enabled),
        is_scrub_of(method, text, text_findings(enabled, text, ner), out),
        replacements_fixed(method, regex_detection(enabled, text)),
        is_scrub_of(method, text, regex_detection(enabled, text), s),
    ensures
        out == s,
{
    law_fixed_methods_are_deterministic(method, text, regex_detection(enabled, text), out, s);
}

} // verus!
