use vstd::prelude::*;
use crate::detect::regex_detection;
use crate::detector::{
    any_ner_type, cache_after, cache_after_batch, detect_candidates, ner_found, pending_indices,
    NER_CONFIDENCE_THRESHOLD,
};
use crate::license::VersionLimits;
use crate::ner::{NerEntity, NerEntityType};
use crate::pii::{on_boundaries, sorted_by_start, views, without_overlaps, MatchView, PiiMatch, PiiType};
use crate::processing::{
    any_found, cells_before, cells_scrubbed, findings_total, flat_cell_at, flatten_cells,
    lemma_cells_before_mono, process_cell, row_ranges, row_scrubbable, rows_scrubbed,
};
use crate::rows::{joined_chars, joined_row, matches_within, within_cell_matches};
use crate::scrub::{all_replaceable, can_scrub, is_scrub_of, ScrubMethod};
use crate::stats::sat_add;
use crate::text::{owned, padded_decimal, push_decimal, strings_view};

verus! {

/// What streaming processing counted.
#[derive(Debug, Clone)]
pub struct ProcessingStats {
    pub rows_processed: usize,
    pub rows_affected: usize,
    pub cells_affected: usize,
    pub total_pii_found: usize,
}

impl Default for ProcessingStats {
    fn default() -> (stats: Self)
        ensures
            stats.rows_processed == 0,
            stats.rows_affected == 0,
            stats.cells_affected == 0,
            stats.total_pii_found == 0,
    {
        ProcessingStats { rows_processed: 0, rows_affected: 0, cells_affected: 0, total_pii_found: 0 }
    }
}

/// The PII type a model entity is reported as while streaming a table, where
/// the model's answers are taken whatever types are enabled.
pub open spec fn stream_pii_type(kind: NerEntityType) -> Option<PiiType> {
    match kind {
        NerEntityType::Person => Some(PiiType::Name),
        NerEntityType::Location => Some(PiiType::Address),
        NerEntityType::Organization => Some(PiiType::Organization),
        NerEntityType::Misc => None,
    }
}

/// The matches reported for model entities while streaming a table: those
/// of a mapped type with confidence at least the threshold, in order.
pub open spec fn stream_entity_matches(entities: Seq<NerEntity>) -> Seq<MatchView>
    decreases entities.len(),
{
    if entities.len() == 0 {
        seq![]
    } else {
        let earlier = stream_entity_matches(entities.drop_last());
        let e = entities.last();
        match stream_pii_type(e.entity_type) {
            Some(t) => if e.confidence >= NER_CONFIDENCE_THRESHOLD {
                earlier.push(MatchView { pii_type: t, value: e.text@, start: e.start, end: e.end })
            } else {
                earlier
            },
            None => earlier,
        }
    }
}

/// The matches reported for a list of model entities while streaming a
/// table.
pub fn stream_matches(entities: &Vec<NerEntity>) -> (found: Vec<PiiMatch>)
    ensures
        views(found@) == stream_entity_matches(entities@),
{
    let mut found: Vec<PiiMatch> = Vec::new();
    let mut i: usize = 0;
    while i < entities.len()
        invariant
            i <= entities.len(),
            views(found@) == stream_entity_matches(entities@.take(i as int)),
        decreases entities.len() - i,
    {
        let e = &entities[i];
        proof {
            assert(entities@.take(i + 1).drop_last() =~= entities@.take(i as int));
            assert(entities@.take(i + 1).last() == *e);
        }
        let mapped = match e.entity_type {
            NerEntityType::Person => Some(PiiType::Name),
            NerEntityType::Location => Some(PiiType::Address),
            NerEntityType::Organization => Some(PiiType::Organization),
            NerEntityType::Misc => None,
        };
        if let Some(t) = mapped {
            if e.confidence >= NER_CONFIDENCE_THRESHOLD {
                let ghost before = found@;
                found.push(PiiMatch { pii_type: t, value: e.text.clone(), start: e.start, end: e.end });
                proof {
                    assert(views(found@) =~= views(before).push(found@.last()@));
                }
            }
        }
        i = i + 1;
    }
    proof {
        assert(entities@.take(entities.len() as int) =~= entities@);
    }
    found
}

/// The rows of a batch with their cells joined by " | ", as the model sees
/// them.
pub fn joined_rows(rows: &Vec<Vec<String>>) -> (texts: Vec<String>)
    ensures
        texts.len() == rows.len(),
        forall|i: int| 0 <= i < rows.len() ==> (#[trigger] texts@[i])@ == joined_chars(strings_view(rows@[i]@)),
{
    let mut texts: Vec<String> = Vec::new();
    let mut i: usize = 0;
    while i < rows.len()
        invariant
            i <= rows.len(),
            texts.len() == i,
            forall|k: int| 0 <= k < i ==> (#[trigger] texts@[k])@ == joined_chars(strings_view(rows@[k]@)),
        decreases rows.len() - i,
    {
        let (joined, _) = joined_row(&rows[i]);
        texts.push(joined);
        i = i + 1;
    }
    texts
}

/// The message of a streamed table that reached its row limit.
pub open spec fn row_limit_message(max: usize) -> Seq<char> {
    "Row limit ("@ + padded_decimal(max as nat, 0) + ") exceeded. Upgrade to Pro for unlimited rows."@
}

/// What is reported for cell `c` of a streamed row: its expression matches
/// and, when the model is used, the model's matches on the joined row that
/// lie within the cell, merged, sorted by start and freed of overlaps.
pub open spec fn stream_cell_findings(
    enabled: Seq<PiiType>,
    use_model: bool,
    row: Seq<Seq<char>>,
    ner: Seq<MatchView>,
    c: int,
) -> Seq<MatchView> {
    let from_model = if use_model {
        within_cell_matches(ner, row_ranges(row)[c])
    } else {
        seq![]
    };
    without_overlaps(sorted_by_start(regex_detection(enabled, row[c]) + from_model))
}

/// Scrubbing cell `c` of a streamed row is owed: the model's matches that
/// lie within the cell (when the model is used) lie on its character
/// boundaries, and every replacement of the cell's findings can be made.
pub open spec fn stream_cell_owed(
    method: ScrubMethod,
    enabled: Seq<PiiType>,
    use_model: bool,
    row: Seq<Seq<char>>,
    ner: Seq<MatchView>,
    c: int,
) -> bool {
    &&& use_model ==> on_boundaries(row[c], within_cell_matches(ner, row_ranges(row)[c]))
    &&& all_replaceable(method, stream_cell_findings(enabled, use_model, row, ner, c))
}

/// Scrubbing a streamed batch of rows is owed: scrubbing each of its cells is.
pub open spec fn stream_batch_owed(
    method: ScrubMethod,
    enabled: Seq<PiiType>,
    use_model: bool,
    rows: Seq<Vec<String>>,
    outcome: Option<Vec<Vec<NerEntity>>>,
) -> bool {
    forall|r: int, c: int|
        0 <= r < rows.len() && 0 <= c < rows[r]@.len() ==> #[trigger] stream_cell_owed(
            method,
            enabled,
            use_model,
            strings_view(rows[r]@),
            stream_row_ner(use_model, outcome, r),
            c,
        )
}

/// Scrubbing line `i` of a batch is owed: the model's matches for it (when
/// an enabled type needs the model and it is available) lie on its character boundaries, and every
/// replacement of its findings can be made.
pub open spec fn line_owed(
    method: ScrubMethod,
    enabled: Seq<PiiType>,
    cache: Map<Seq<char>, Seq<MatchView>>,
    lines: Seq<&str>,
    outcomes: Seq<Option<Vec<Vec<NerEntity>>>>,
    ner_available: bool,
    i: int,
) -> bool {
    let use_model = any_ner_type(enabled) && ner_available;
    &&& use_model ==> on_boundaries(lines[i]@, ner_found(cache, lines, outcomes, enabled, i))
    &&& all_replaceable(method, batch_line_findings(enabled, cache, lines, outcomes, use_model)[i])
}

/// The findings of each cell of a streamed row.
pub open spec fn stream_row_findings(enabled: Seq<PiiType>, use_model: bool, row: Seq<Seq<char>>, ner: Seq<MatchView>) -> Seq<
    Seq<MatchView>,
> {
    Seq::new(row.len(), |c: int| stream_cell_findings(enabled, use_model, row, ner, c))
}

/// The model's matches for row `i` of a batch: none when the model is not
/// used or failed on the batch.
pub open spec fn stream_row_ner(use_model: bool, outcome: Option<Vec<Vec<NerEntity>>>, i: int) -> Seq<MatchView> {
    if use_model {
        match outcome {
            Some(b) => stream_entity_matches(b@[i]@),
            None => seq![],
        }
    } else {
        seq![]
    }
}

/// The findings of each row of a streamed batch.
pub open spec fn stream_batch_findings(
    enabled: Seq<PiiType>,
    use_model: bool,
    rows: Seq<Vec<String>>,
    outcome: Option<Vec<Vec<NerEntity>>>,
) -> Seq<Seq<Seq<MatchView>>> {
    Seq::new(
        rows.len(),
        |i: int| stream_row_findings(enabled, use_model, strings_view(rows[i]@), stream_row_ner(use_model, outcome, i)),
    )
}

/// A running count of the non-empty lists.
pub open spec fn nonempty_count(acc: usize, lists: Seq<Seq<MatchView>>) -> usize
    decreases lists.len(),
{
    if lists.len() == 0 {
        acc
    } else {
        sat_add(nonempty_count(acc, lists.drop_last()), if lists.last().len() > 0 { 1 } else { 0 })
    }
}

/// The statistics after one streamed row with the given cell findings.
pub open spec fn stream_row_stats(s: ProcessingStats, f: Seq<Seq<MatchView>>) -> ProcessingStats {
    ProcessingStats {
        rows_processed: sat_add(s.rows_processed, 1),
        rows_affected: sat_add(s.rows_affected, if any_found(f) { 1 } else { 0 }),
        cells_affected: nonempty_count(s.cells_affected, f),
        total_pii_found: findings_total(s.total_pii_found, f),
    }
}

/// The statistics after streamed rows with the given findings, in order.
pub open spec fn stream_stats(s: ProcessingStats, rows: Seq<Seq<Seq<MatchView>>>) -> ProcessingStats
    decreases rows.len(),
{
    if rows.len() == 0 {
        s
    } else {
        stream_row_stats(stream_stats(s, rows.drop_last()), rows.last())
    }
}

/// What is reported for a streamed text line: its expression matches and
/// the model's matches, merged, sorted by start and freed of overlaps.
pub open spec fn line_findings(enabled: Seq<PiiType>, line: Seq<char>, ner: Seq<MatchView>) -> Seq<MatchView> {
    without_overlaps(sorted_by_start(regex_detection(enabled, line) + ner))
}

/// The findings of each line of a batch, the model's matches as the
/// detector gives them when the model is used.
pub open spec fn batch_line_findings(
    enabled: Seq<PiiType>,
    cache: Map<Seq<char>, Seq<MatchView>>,
    lines: Seq<&str>,
    outcomes: Seq<Option<Vec<Vec<NerEntity>>>>,
    use_model: bool,
) -> Seq<Seq<MatchView>> {
    Seq::new(
        lines.len(),
        |i: int|
            line_findings(
                enabled,
                lines[i]@,
                if use_model {
                    ner_found(cache, lines, outcomes, enabled, i)
                } else {
                    seq![]
                },
            ),
    )
}

/// Whether every line can be scrubbed with its findings.
pub open spec fn lines_scrubbable(method: ScrubMethod, lines: Seq<&str>, f: Seq<Seq<MatchView>>) -> bool {
    forall|i: int| 0 <= i < lines.len() ==> can_scrub(method, lines[i]@, #[trigger] f[i])
}

/// The detector's cache after a batch of lines: the model's answers stored
/// as `PiiDetector::detect_ner` stores them, when the model is used.
pub open spec fn cache_after_lines(
    cache: Map<Seq<char>, Seq<MatchView>>,
    lines: Seq<&str>,
    outcomes: Seq<Option<Vec<Vec<NerEntity>>>>,
    enabled: Seq<PiiType>,
    use_model: bool,
) -> Map<Seq<char>, Seq<MatchView>> {
    if use_model {
        let pending = pending_indices(cache, lines, lines.len());
        cache_after(cache, lines, pending, outcomes, enabled, pending.len())
    } else {
        cache
    }
}

/// The statistics after one streamed line with the given findings.
pub open spec fn line_stats(s: ProcessingStats, f: Seq<MatchView>) -> ProcessingStats {
    ProcessingStats {
        rows_processed: sat_add(s.rows_processed, 1),
        rows_affected: sat_add(s.rows_affected, if f.len() > 0 { 1 } else { 0 }),
        cells_affected: s.cells_affected,
        total_pii_found: sat_add(s.total_pii_found, f.len()),
    }
}

/// The statistics after streamed lines with the given findings, in order.
pub open spec fn lines_stats(s: ProcessingStats, fs: Seq<Seq<MatchView>>) -> ProcessingStats
    decreases fs.len(),
{
    if fs.len() == 0 {
        s
    } else {
        line_stats(lines_stats(s, fs.drop_last()), fs.last())
    }
}

/// Processes large files piece by piece: tables in batches of rows, text in
/// batches of lines.
pub struct StreamingProcessor {
    pub detector: crate::detector::PiiDetector,
    pub scrubber: crate::scrub::Scrubber,
    pub limits: VersionLimits,
    pub chunk_size: usize,
}

impl StreamingProcessor {
    /// A processor that reads and writes in 64 KiB pieces.
    pub fn new(
        detector: crate::detector::PiiDetector,
        scrubber: crate::scrub::Scrubber,
        limits: VersionLimits,
    ) -> (p: Self)
        ensures
            p.detector == detector,
            p.scrubber == scrubber,
            p.limits == limits,
            p.chunk_size == 65536,
    {
        StreamingProcessor { detector, scrubber, limits, chunk_size: 65536 }
    }

    /// Whether a table may have a row at index `row_index`: refused, with
    /// the message, once the row limit is reached.
    pub fn check_stream_row(&self, row_index: usize) -> (r: Result<(), String>)
        ensures
            r is Err <==> (self.limits.max_rows_per_file matches Some(m) && row_index >= m),
            r matches Err(msg) ==> msg@ == row_limit_message(self.limits.max_rows_per_file->0),
    {
        match self.limits.max_rows_per_file {
            Some(max) => {
                if row_index >= max {
                    let mut msg = owned("Row limit (");
                    push_decimal(&mut msg, max as u64, 0);
                    let tail = owned(") exceeded. Upgrade to Pro for unlimited rows.");
                    msg.append(tail.as_str());
                    proof {
                        reveal_strlit("Row limit (");
                        reveal_strlit(") exceeded. Upgrade to Pro for unlimited rows.");
                    }
                    Err(msg)
                } else {
                    Ok(())
                }
            },
            None => Ok(()),
        }
    }

    /// Scrubs one streamed row: each cell with its expression matches
    /// (already found, at `regex_all[base + c]`) and, when the model is used,
    /// the model's matches on the joined row that lie within it.
    fn stream_row(
        &self,
        enabled: Ghost<Seq<PiiType>>,
        use_model: bool,
        row: &Vec<String>,
        regex_all: &Vec<Vec<PiiMatch>>,
        base: usize,
        ner: &Vec<PiiMatch>,
        stats: &mut ProcessingStats,
    ) -> (out: Option<Vec<String>>)
        requires
            base + row.len() <= regex_all.len(),
            forall|c: int|
                0 <= c < row.len() ==> views(#[trigger] regex_all@[base + c]@) == regex_detection(
                    enabled@,
                    row@[c]@,
                ),
            forall|c: int| 0 <= c < row.len() ==> on_boundaries(row@[c]@, views(#[trigger] regex_all@[base + c]@)),
        ensures
            ({
                let f = stream_row_findings(enabled@, use_model, strings_view(row@), views(ner@));
                &&& out is Some <==> row_scrubbable(self.scrubber.method(), strings_view(row@), f)
                &&& (forall|c: int|
                    0 <= c < row.len() ==> #[trigger] stream_cell_owed(
                        self.scrubber.method(),
                        enabled@,
                        use_model,
                        strings_view(row@),
                        views(ner@),
                        c,
                    )) ==> out is Some
                &&& out matches Some(o) ==> {
                    &&& cells_scrubbed(self.scrubber.method(), row@, o@, f)
                    &&& *final(stats) == stream_row_stats(*old(stats), f)
                }
            }),
    {
        let ghost cells = strings_view(row@);
        let ghost f = stream_row_findings(enabled@, use_model, cells, views(ner@));
        let (_, ranges) = joined_row(row);
        proof {
            assert(ranges@ =~= row_ranges(cells));
        }
        let ghost stats0 = *stats;
        let mut out: Vec<String> = Vec::new();
        let mut had = false;
        let mut c: usize = 0;
        while c < row.len()
            invariant
                c <= row.len(),
                cells == strings_view(row@),
                f == stream_row_findings(enabled@, use_model, cells, views(ner@)),
                ranges@ == row_ranges(cells),
                base + row.len() <= regex_all.len(),
                forall|k: int|
                    0 <= k < row.len() ==> views(#[trigger] regex_all@[base + k]@) == regex_detection(
                        enabled@,
                        row@[k]@,
                    ),
                forall|k: int| 0 <= k < row.len() ==> on_boundaries(row@[k]@, views(#[trigger] regex_all@[base + k]@)),
                out.len() == c,
                forall|k: int| 0 <= k < c ==> can_scrub(self.scrubber.method(), cells[k], #[trigger] f[k]),
                forall|k: int|
                    0 <= k < c ==> is_scrub_of(self.scrubber.method(), row@[k]@, f[k], (#[trigger] out@[k])@),
                stats.total_pii_found == findings_total(stats0.total_pii_found, f.take(c as int)),
                stats.cells_affected == nonempty_count(stats0.cells_affected, f.take(c as int)),
                had == any_found(f.take(c as int)),
                stats.rows_affected == stats0.rows_affected,
                stats.rows_processed == stats0.rows_processed,
            decreases row.len() - c,
        {
            let from_model = if use_model {
                matches_within(ner, ranges[c])
            } else {
                Vec::new()
            };
            proof {
                if !use_model {
                    assert(views(from_model@) =~= Seq::<MatchView>::empty());
                }
            }
            let (found, scrubbed) = process_cell(&self.scrubber, &row[c], &regex_all[base + c], &from_model);
            proof {
                assert(cells[c as int] == row@[c as int]@);
                assert(views(found@) == f[c as int]);
                assert(f.take(c + 1).drop_last() =~= f.take(c as int));
                assert(f.take(c + 1).last() == f[c as int]);
            }
            match scrubbed {
                Some(s) => {
                    out.push(s);
                },
                None => {
                    proof {
                        assert(!can_scrub(self.scrubber.method(), cells[c as int], f[c as int]));
                        assert(!row_scrubbable(self.scrubber.method(), cells, f));
                        if stream_cell_owed(self.scrubber.method(), enabled@, use_model, cells, views(ner@), c as int) {
                            assert(on_boundaries(row@[c as int]@, views(regex_all@[base + c]@)));
                            assert(false);
                        }
                    }
                    return None;
                },
            }
            if found.len() > 0 {
                had = true;
                stats.total_pii_found = stats.total_pii_found.saturating_add(found.len());
                stats.cells_affected = stats.cells_affected.saturating_add(1);
            }
            proof {
                let g0 = f.take(c as int);
                let g1 = f.take(c + 1);
                if any_found(g0) {
                    let i = choose|i: int| 0 <= i < g0.len() && g0[i].len() > 0;
                    assert(g1[i] == g0[i]);
                }
                if found.len() > 0 {
                    assert(g1[c as int].len() > 0);
                }
                if any_found(g1) && found.len() == 0 {
                    let i = choose|i: int| 0 <= i < g1.len() && g1[i].len() > 0;
                    assert(g0[i] == g1[i]);
                }
            }
            c = c + 1;
        }
        if had {
            stats.rows_affected = stats.rows_affected.saturating_add(1);
        }
        stats.rows_processed = stats.rows_processed.saturating_add(1);
        proof {
            assert(f.take(row.len() as int) =~= f);
        }
        Some(out)
    }

    /// Scrubs a batch of table rows: each cell with its expression matches
    /// and, when an enabled type needs the model and the model is available,
    /// the model's matches on the cell's joined row (row `i` of `outcome`,
    /// the model's answer on the rows as `joined_rows` gives them; `None`
    /// when the model failed on the batch) that lie within the cell. Each row
    /// is counted as processed, and as affected when a cell had matches.
    /// `None` when some cell cannot be scrubbed with its matches.
    pub fn scrub_csv(
        &self,
        rows: &Vec<Vec<String>>,
        ner_available: bool,
        outcome: &Option<Vec<Vec<NerEntity>>>,
        stats: &mut ProcessingStats,
    ) -> (out: Option<Vec<Vec<String>>>)
        requires
            any_ner_type(self.detector.enabled()) && ner_available ==> (outcome matches Some(b) ==> b.len()
                >= rows.len()),
        ensures
            ({
                let use_model = any_ner_type(self.detector.enabled()) && ner_available;
                let f = stream_batch_findings(self.detector.enabled(), use_model, rows@, *outcome);
                &&& out is Some <==> forall|i: int|
                    0 <= i < rows.len() ==> row_scrubbable(
                        self.scrubber.method(),
                        strings_view(#[trigger] rows@[i]@),
                        f[i],
                    )
                &&& stream_batch_owed(self.scrubber.method(), self.detector.enabled(), use_model, rows@, *outcome)
                    ==> out is Some
                &&& out matches Some(o) ==> {
                    &&& rows_scrubbed(self.scrubber.method(), rows@, o@, f)
                    &&& *final(stats) == stream_stats(*old(stats), f)
                }
            }),
    {
        let ghost enabled = self.detector.enabled();
        let use_model = self.detector.uses_ner() && ner_available;
        let ghost f = stream_batch_findings(enabled, use_model, rows@, *outcome);
        let ghost stats0 = *stats;
        let flat = flatten_cells(rows);
        let regex_all = self.detector.detect_regex_batch(&flat);
        let mut out_rows: Vec<Vec<String>> = Vec::new();
        let mut base: usize = 0;
        let mut r: usize = 0;
        while r < rows.len()
            invariant
                r <= rows.len(),
                enabled == self.detector.enabled(),
                use_model == (any_ner_type(enabled) && ner_available),
                use_model ==> (outcome matches Some(b) ==> b.len() >= rows.len()),
                f == stream_batch_findings(enabled, use_model, rows@, *outcome),
                regex_all.len() == flat.len(),
                flat.len() == cells_before(rows@, rows.len() as int),
                forall|q: int, c: int|
                    0 <= q < rows.len() && 0 <= c < rows@[q].len() ==> #[trigger] flat_cell_at(rows@, flat@, q, c),
                forall|i: int|
                    0 <= i < flat.len() ==> views(#[trigger] regex_all@[i]@) == regex_detection(enabled, flat@[i]@),
                forall|i: int| 0 <= i < flat.len() ==> on_boundaries(flat@[i]@, views(#[trigger] regex_all@[i]@)),
                base == cells_before(rows@, r as int),
                out_rows.len() == r,
                forall|q: int|
                    0 <= q < r ==> row_scrubbable(self.scrubber.method(), strings_view(rows@[q]@), #[trigger] f[q]),
                forall|q: int|
                    0 <= q < r ==> cells_scrubbed(self.scrubber.method(), rows@[q]@, (#[trigger] out_rows@[q])@, f[q]),
                *stats == stream_stats(stats0, f.take(r as int)),
            decreases rows.len() - r,
        {
            let row = &rows[r];
            proof {
                lemma_cells_before_mono(rows@, r + 1, rows.len() as int);
                assert forall|c: int| 0 <= c < row.len() implies views(#[trigger] regex_all@[base + c]@)
                    == regex_detection(enabled, row@[c]@) && on_boundaries(row@[c]@, views(regex_all@[base + c]@)) by {
                    assert(flat_cell_at(rows@, flat@, r as int, c));
                    assert(rows@[r as int]@[c] == row@[c]);
                }
                assert(f.take(r + 1).drop_last() =~= f.take(r as int));
            }
            let ner_row: Vec<PiiMatch> = if use_model {
                match outcome {
                    Some(b) => stream_matches(&b[r]),
                    None => Vec::new(),
                }
            } else {
                Vec::new()
            };
            proof {
                assert(views(ner_row@) =~= stream_row_ner(use_model, *outcome, r as int));
            }
            match self.stream_row(Ghost(enabled), use_model, row, &regex_all, base, &ner_row, stats) {
                Some(o) => out_rows.push(o),
                None => {
                    proof {
                        assert(!row_scrubbable(self.scrubber.method(), strings_view(rows@[r as int]@), f[r as int]));
                        let c = choose|c: int|
                            0 <= c < row.len() && !stream_cell_owed(
                                self.scrubber.method(),
                                enabled,
                                use_model,
                                strings_view(row@),
                                views(ner_row@),
                                c,
                            );
                        assert(rows@[r as int] == *row);
                        assert(!stream_cell_owed(
                            self.scrubber.method(),
                            enabled,
                            use_model,
                            strings_view(rows@[r as int]@),
                            stream_row_ner(use_model, *outcome, r as int),
                            c,
                        ));
                    }
                    return None;
                },
            }
            proof {
                assert(f.take(r + 1).last() == f[r as int]);
            }
            base = base + row.len();
            r = r + 1;
        }
        proof {
            assert(f.take(rows.len() as int) =~= f);
        }
        Some(out_rows)
    }

    /// Scrubs a batch of text lines: each line with its expression matches
    /// and, when an enabled type needs the model and the model is available,
    /// the model's matches as the detector gives them (short and cached
    /// lines without the model; the others from `outcomes`, one answer per
    /// batch of pending lines, as `PiiDetector::detect_ner` takes them).
    /// Each line is counted as processed, and as affected when it had
    /// matches. `None` when some line cannot be scrubbed with its matches.
    pub fn scrub_text_batch(
        &mut self,
        lines: &Vec<&str>,
        ner_available: bool,
        outcomes: &Vec<Option<Vec<Vec<NerEntity>>>>,
        stats: &mut ProcessingStats,
    ) -> (out: Option<Vec<String>>)
        requires
            old(self).detector.wf(),
        ensures
            final(self).detector.wf(),
            final(self).detector.enabled() == old(self).detector.enabled(),
            final(self).scrubber == old(self).scrubber,
            final(self).limits == old(self).limits,
            final(self).chunk_size == old(self).chunk_size,
            ({
                let enabled = old(self).detector.enabled();
                let cache = old(self).detector.cache();
                let use_model = any_ner_type(enabled) && ner_available;
                let f = batch_line_findings(enabled, cache, lines@, outcomes@, use_model);
                &&& final(self).detector.cache() == cache_after_lines(cache, lines@, outcomes@, enabled, use_model)
                &&& out is Some <==> lines_scrubbable(old(self).scrubber.method(), lines@, f)
                &&& out is None ==> exists|i: int|
                    0 <= i < lines.len() && !#[trigger] line_owed(
                        old(self).scrubber.method(),
                        enabled,
                        cache,
                        lines@,
                        outcomes@,
                        ner_available,
                        i,
                    )
                &&& out matches Some(o) ==> {
                    &&& o.len() == lines.len()
                    &&& forall|i: int|
                        0 <= i < lines.len() ==> is_scrub_of(
                            old(self).scrubber.method(),
                            lines@[i]@,
                            f[i],
                            (#[trigger] o@[i])@,
                        )
                    &&& *final(stats) == lines_stats(*old(stats), f)
                }
            }),
    {
        let ghost enabled = self.detector.enabled();
        let ghost cache = self.detector.cache();
        let use_model = self.detector.uses_ner() && ner_available;
        let ghost f = batch_line_findings(enabled, cache, lines@, outcomes@, use_model);
        let regex_all = self.detector.detect_regex_batch(lines);
        let ner_all: Vec<Vec<PiiMatch>> = if use_model {
            self.detector.detect_ner(lines, outcomes)
        } else {
            let mut empty: Vec<Vec<PiiMatch>> = Vec::new();
            let mut k: usize = 0;
            while k < lines.len()
                invariant
                    k <= lines.len(),
                    empty.len() == k,
                    forall|j: int| 0 <= j < k ==> (#[trigger] empty@[j])@ == Seq::<PiiMatch>::empty(),
                decreases lines.len() - k,
            {
                empty.push(Vec::new());
                k = k + 1;
            }
            empty
        };
        proof {
            assert forall|i: int| 0 <= i < lines.len() implies views(#[trigger] ner_all@[i]@) == (if use_model {
                ner_found(cache, lines@, outcomes@, enabled, i)
            } else {
                seq![]
            }) by {
                if !use_model {
                    assert(views(ner_all@[i]@) =~= Seq::<MatchView>::empty());
                }
            }
        }
        let ghost stats0 = *stats;
        let ghost snap = *self;
        let mut out: Vec<String> = Vec::new();
        let mut i: usize = 0;
        while i < lines.len()
            invariant
                *self == snap,
                self.detector.wf(),
                self.detector.enabled() == enabled,
                self.detector.cache() == cache_after_lines(cache, lines@, outcomes@, enabled, use_model),
                self.scrubber == old(self).scrubber,
                self.limits == old(self).limits,
                self.chunk_size == old(self).chunk_size,
                enabled == old(self).detector.enabled(),
                cache == old(self).detector.cache(),
                use_model == (any_ner_type(enabled) && ner_available),
                i <= lines.len(),
                regex_all.len() == lines.len(),
                ner_all.len() == lines.len(),
                forall|k: int|
                    0 <= k < lines.len() ==> views(#[trigger] regex_all@[k]@) == regex_detection(enabled, lines@[k]@),
                forall|k: int| 0 <= k < lines.len() ==> on_boundaries((#[trigger] lines@[k])@, views(regex_all@[k]@)),
                forall|k: int| 0 <= k < lines.len() ==> views(#[trigger] ner_all@[k]@) == (if use_model {
                    ner_found(cache, lines@, outcomes@, enabled, k)
                } else {
                    seq![]
                }),
                f == batch_line_findings(enabled, cache, lines@, outcomes@, use_model),
                out.len() == i,
                forall|k: int| 0 <= k < i ==> can_scrub(self.scrubber.method(), lines@[k]@, #[trigger] f[k]),
                forall|k: int| 0 <= k < i ==> is_scrub_of(self.scrubber.method(), lines@[k]@, f[k], (#[trigger] out@[k])@),
                *stats == lines_stats(stats0, f.take(i as int)),
            decreases lines.len() - i,
        {
            let line = owned(lines[i]);
            let (found, scrubbed) = process_cell(&self.scrubber, &line, &regex_all[i], &ner_all[i]);
            proof {
                assert(views(found@) == f[i as int]);
                assert(line@ == lines@[i as int]@);
                assert(f.take(i + 1).drop_last() =~= f.take(i as int));
                assert(f.take(i + 1).last() == f[i as int]);
            }
            match scrubbed {
                Some(s) => out.push(s),
                None => {
                    proof {
                        assert(!can_scrub(old(self).scrubber.method(), lines@[i as int]@, f[i as int]));
                        assert(!lines_scrubbable(old(self).scrubber.method(), lines@, f));
                        assert(on_boundaries(lines@[i as int]@, views(regex_all@[i as int]@)));
                        if !use_model {
                            assert(views(ner_all@[i as int]@) =~= Seq::<MatchView>::empty());
                        }
                        if line_owed(old(self).scrubber.method(), enabled, cache, lines@, outcomes@, ner_available, i as int) {
                            assert(false);
                        }
                        assert(!line_owed(old(self).scrubber.method(), enabled, cache, lines@, outcomes@, ner_available, i as int));
                    }
                    return None;
                },
            }
            if found.len() > 0 {
                stats.total_pii_found = stats.total_pii_found.saturating_add(found.len());
                stats.rows_affected = stats.rows_affected.saturating_add(1);
            }
            stats.rows_processed = stats.rows_processed.saturating_add(1);
            i = i + 1;
        }
        proof {
            assert(f.take(lines.len() as int) =~= f);
        }
        Some(out)
    }

    /// Scrubs one header of a streamed table with full detection (the
    /// expressions and, when an enabled type needs the model and the model is
    /// available, the model through the detector's cache, `outcome` being
    /// the model's answer for the header when `ner_pending` lists it), and
    /// counts its matches.
    pub fn scrub_header(
        &mut self,
        header: &str,
        ner_available: bool,
        outcome: Option<Vec<Vec<NerEntity>>>,
        stats: &mut ProcessingStats,
    ) -> (out: Option<String>)
        requires
            old(self).detector.wf(),
            outcome matches Some(answers) ==> answers.len() <= pending_indices(
                old(self).detector.cache(),
                seq![header],
                1,
            ).len(),
        ensures
            final(self).detector.wf(),
            final(self).detector.enabled() == old(self).detector.enabled(),
            final(self).scrubber == old(self).scrubber,
            final(self).limits == old(self).limits,
            final(self).chunk_size == old(self).chunk_size,
            ({
                let enabled = old(self).detector.enabled();
                let cache = old(self).detector.cache();
                let use_model = any_ner_type(enabled) && ner_available;
                let found = without_overlaps(
                    sorted_by_start(detect_candidates(enabled, cache, seq![header], use_model, outcome)),
                );
                &&& final(self).detector.cache() == if use_model {
                    match outcome {
                        Some(answers) => cache_after_batch(
                            cache,
                            seq![header],
                            pending_indices(cache, seq![header], 1),
                            answers@,
                            enabled,
                            answers.len() as nat,
                        ),
                        None => cache,
                    }
                } else {
                    cache
                }
                &&& out is Some <==> can_scrub(old(self).scrubber.method(), header@, found)
                &&& out matches Some(o) ==> {
                    &&& is_scrub_of(old(self).scrubber.method(), header@, found, o@)
                    &&& final(stats).total_pii_found == sat_add(old(stats).total_pii_found, found.len())
                    &&& final(stats).rows_processed == old(stats).rows_processed
                    &&& final(stats).rows_affected == old(stats).rows_affected
                    &&& final(stats).cells_affected == old(stats).cells_affected
                }
            }),
    {
        let mut texts: Vec<&str> = Vec::new();
        texts.push(header);
        proof {
            assert(texts@ =~= seq![header]);
        }
        let found = self.detector.detect(&texts, ner_available, outcome);
        stats.total_pii_found = stats.total_pii_found.saturating_add(found.len());
        self.scrubber.scrub_text_checked(header, found.as_slice())
    }
}

/// What streaming reports for one more model entity: a confident person
/// (confidence at least the threshold) is a name, a confident location a
/// street address and a confident organization an organization, each with
/// the entity's text and offsets; a miscellaneous entity, or one with too
/// little confidence, adds nothing.
pub proof fn law_streamed_entities_map_to_types(entities: Seq<NerEntity>, e: NerEntity)
    ensures
        ({
            let before = stream_entity_matches(entities);
            let after = stream_entity_matches(entities.push(e));
            let confident = e.confidence >= NER_CONFIDENCE_THRESHOLD;
            let m = |t: PiiType| MatchView { pii_type: t, value: e.text@, start: e.start, end: e.end };
            &&& e.entity_type == NerEntityType::Person && confident ==> after == before.push(m(PiiType::Name))
            &&& e.entity_type == NerEntityType::Location && confident ==> after == before.push(m(PiiType::Address))
            &&& e.entity_type == NerEntityType::Organization && confident ==> after == before.push(
                m(PiiType::Organization),
            )
            &&& (e.entity_type == NerEntityType::Misc || !confident) ==> after == before
        }),
{
    assert(entities.push(e).drop_last() =~= entities);
    assert(entities.push(e).last() == e);
}

} // verus!
