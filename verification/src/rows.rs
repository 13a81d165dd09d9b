use vstd::prelude::*;
use vstd::utf8::*;
use vstd::string::StringSliceAdditionalSpecFns;
use crate::pii::{views, MatchView, PiiMatch};
use crate::text::strings_view;

verus! {

/// The cells of a row joined by " | ", the text the named-entity model sees
/// for the row.
pub open spec fn joined_chars(cells: Seq<Seq<char>>) -> Seq<char>
    decreases cells.len(),
{
    if cells.len() == 0 {
        seq![]
    } else if cells.len() == 1 {
        cells[0]
    } else {
        joined_chars(cells.drop_last()) + " | "@ + cells.last()
    }
}

/// The number of UTF-8 bytes of a text.
pub open spec fn byte_len(s: Seq<char>) -> nat {
    encode_utf8(s).len()
}

/// The byte range of cell `i` in the joined row.
pub open spec fn cell_range(cells: Seq<Seq<char>>, i: int) -> (nat, nat) {
    let prefix = byte_len(joined_chars(cells.take(i)));
    let start = if i > 0 {
        prefix + 3
    } else {
        0
    };
    (start, start + byte_len(cells[i]))
}

pub proof fn lemma_encode_concat(a: Seq<char>, b: Seq<char>)
    ensures
        encode_utf8(a + b) == encode_utf8(a) + encode_utf8(b),
    decreases a.len(),
{
    if a.len() == 0 {
        assert(a + b =~= b);
        assert(encode_utf8(a) =~= Seq::<u8>::empty());
        assert(encode_utf8(a) + encode_utf8(b) =~= encode_utf8(b));
    } else {
        lemma_encode_concat(a.drop_first(), b);
        assert((a + b).drop_first() =~= a.drop_first() + b);
        assert((a + b)[0] == a[0]);
        assert(encode_utf8(a + b) =~= encode_utf8(a) + encode_utf8(b));
    }
}

proof fn lemma_separator()
    ensures
        encode_utf8(" | "@).len() == 3,
{
    broadcast use group_utf8_lib;

    reveal_strlit(" | ");
    assert(is_ascii_chars(" | "@));
    is_ascii_chars_encode_utf8(" | "@);
}

/// Joins the cells of a row with " | " and gives the byte range of each
/// cell in the joined text.
pub fn joined_row(row: &Vec<String>) -> (joined: (String, Vec<(usize, usize)>))
    ensures
        joined.0@ == joined_chars(strings_view(row@)),
        joined.1.len() == row.len(),
        forall|i: int|
            0 <= i < row.len() ==> (#[trigger] joined.1@[i]).0 == cell_range(strings_view(row@), i).0
                && joined.1@[i].1 == cell_range(strings_view(row@), i).1,
{
    let ghost cells = strings_view(row@);
    let mut joined = String::new();
    let mut offsets: Vec<(usize, usize)> = Vec::new();
    let mut i: usize = 0;
    proof {
        lemma_separator();
        assert(cells.take(0) =~= Seq::<Seq<char>>::empty());
    }
    while i < row.len()
        invariant
            i <= row.len(),
            cells == strings_view(row@),
            encode_utf8(" | "@).len() == 3,
            joined@ == joined_chars(cells.take(i as int)),
            offsets.len() == i,
            forall|k: int|
                0 <= k < i ==> (#[trigger] offsets@[k]).0 == cell_range(cells, k).0 && offsets@[k].1
                    == cell_range(cells, k).1,
        decreases row.len() - i,
    {
        let ghost prefix = joined@;
        if i > 0 {
            joined.append(" | ");
        }
        let start = joined.as_str().as_bytes().len();
        proof {
            if i > 0 {
                lemma_encode_concat(prefix, " | "@);
            }
        }
        joined.append(row[i].as_str());
        let end = joined.as_str().as_bytes().len();
        proof {
            if i > 0 {
                lemma_encode_concat(prefix + " | "@, row@[i as int]@);
                assert(cells.take(i + 1).drop_last() =~= cells.take(i as int));
                assert(joined@ =~= joined_chars(cells.take(i + 1)));
            } else {
                assert(cells.take(1) =~= seq![cells[0]]);
                assert(joined@ =~= row@[0]@);
            }
            assert(cells[i as int] == row@[i as int]@);
        }
        offsets.push((start, end));
        i = i + 1;
    }
    proof {
        assert(cells.take(row.len() as int) =~= cells);
    }
    (joined, offsets)
}

/// Whether a match lies within a byte range.
pub open spec fn within(range: (usize, usize), m: MatchView) -> bool {
    m.start >= range.0 && m.end <= range.1
}

/// The first of the ranges from `k` on that holds the match.
pub open spec fn first_range_from(ranges: Seq<(usize, usize)>, m: MatchView, k: nat) -> Option<nat>
    decreases ranges.len() - k,
{
    if k >= ranges.len() {
        None
    } else if within(ranges[k as int], m) {
        Some(k)
    } else {
        first_range_from(ranges, m, k + 1)
    }
}

/// A match moved to coordinates that start at `base` (the end wraps around
/// as machine subtraction does when it lies before `base`).
pub open spec fn shifted(m: MatchView, base: usize) -> MatchView {
    MatchView { start: (m.start - base) as usize, end: m.end.wrapping_sub(base), ..m }
}

/// The model's matches on a joined row that belong to cell `c`: those whose
/// first holding cell is `c`, in cell coordinates.
pub open spec fn first_cell_matches(ner: Seq<MatchView>, ranges: Seq<(usize, usize)>, c: nat) -> Seq<
    MatchView,
>
    decreases ner.len(),
{
    if ner.len() == 0 {
        seq![]
    } else {
        let earlier = first_cell_matches(ner.drop_last(), ranges, c);
        let m = ner.last();
        if first_range_from(ranges, m, 0) == Some(c) {
            earlier.push(shifted(m, ranges[c as int].0))
        } else {
            earlier
        }
    }
}

/// The model's matches on a joined row that lie within cell `c`, in cell
/// coordinates.
pub open spec fn within_cell_matches(ner: Seq<MatchView>, range: (usize, usize)) -> Seq<MatchView>
    decreases ner.len(),
{
    if ner.len() == 0 {
        seq![]
    } else {
        let earlier = within_cell_matches(ner.drop_last(), range);
        let m = ner.last();
        if within(range, m) {
            earlier.push(shifted(m, range.0))
        } else {
            earlier
        }
    }
}

fn first_range(ranges: &Vec<(usize, usize)>, m: &PiiMatch) -> (found: Option<usize>)
    ensures
        found is None <==> first_range_from(ranges@, m@, 0) is None,
        found matches Some(k) ==> first_range_from(ranges@, m@, 0) == Some(k as nat) && k < ranges.len()
            && within(ranges@[k as int], m@),
{
    let mut k: usize = 0;
    while k < ranges.len()
        invariant
            k <= ranges.len(),
            first_range_from(ranges@, m@, 0) == first_range_from(ranges@, m@, k as nat),
        decreases ranges.len() - k,
    {
        let (s, e) = ranges[k];
        if m.start >= s && m.end <= e {
            return Some(k);
        }
        k = k + 1;
    }
    None
}

/// Hands each model match on a joined row to the first cell that holds it,
/// in that cell's coordinates.
pub fn assign_to_first_cell(ner: &Vec<PiiMatch>, ranges: &Vec<(usize, usize)>) -> (cells: Vec<
    Vec<PiiMatch>,
>)
    ensures
        cells.len() == ranges.len(),
        forall|c: int|
            0 <= c < ranges.len() ==> views(#[trigger] cells@[c]@) == first_cell_matches(
                views(ner@),
                ranges@,
                c as nat,
            ),
{
    let mut cells: Vec<Vec<PiiMatch>> = Vec::new();
    let mut c: usize = 0;
    while c < ranges.len()
        invariant
            c <= ranges.len(),
            cells.len() == c,
            forall|k: int| 0 <= k < c ==> (#[trigger] cells@[k])@ == Seq::<PiiMatch>::empty(),
        decreases ranges.len() - c,
    {
        cells.push(Vec::new());
        c = c + 1;
    }
    let mut i: usize = 0;
    while i < ner.len()
        invariant
            i <= ner.len(),
            cells.len() == ranges.len(),
            forall|c: int|
                0 <= c < ranges.len() ==> views(#[trigger] cells@[c]@) == first_cell_matches(
                    views(ner@.take(i as int)),
                    ranges@,
                    c as nat,
                ),
        decreases ner.len() - i,
    {
        let m = &ner[i];
        proof {
            assert(views(ner@.take(i + 1)).drop_last() =~= views(ner@.take(i as int)));
            assert(views(ner@.take(i + 1)).last() == m@);
        }
        let ghost old_cells = cells@;
        proof {
            assert forall|d: int| 0 <= d < ranges.len() implies views(#[trigger] old_cells[d]@)
                == first_cell_matches(views(ner@.take(i as int)), ranges@, d as nat) by {
                assert(old_cells[d] == cells@[d]);
            }
        }
        match first_range(ranges, m) {
            Some(c) => {
                let (s, _) = ranges[c];
                let moved = PiiMatch {
                    pii_type: m.pii_type,
                    value: m.value.clone(),
                    start: m.start - s,
                    end: m.end.wrapping_sub(s),
                };
                let mut list = Vec::new();
                std::mem::swap(&mut list, &mut cells[c]);
                let ghost before = list@;
                proof {
                    assert(before == old_cells[c as int]@);
                }
                list.push(moved);
                proof {
                    assert(views(list@) =~= views(before).push(shifted(m@, s)));
                }
                cells.set(c, list);
                proof {
                    assert forall|d: int| 0 <= d < ranges.len() implies views(#[trigger] cells@[d]@)
                        == first_cell_matches(views(ner@.take(i + 1)), ranges@, d as nat) by {
                        let prev = views(ner@.take(i as int));
                        let cur = views(ner@.take(i + 1));
                        assert(cur.drop_last() == prev);
                        assert(cur.last() == m@);
                        assert(first_range_from(ranges@, m@, 0) == Some(c as nat));
                        if d != c {
                            assert(cells@[d] == old_cells[d]);
                            assert(first_cell_matches(cur, ranges@, d as nat) == first_cell_matches(prev, ranges@, d as nat));
                        } else {
                            assert(cells@[d]@ == list@);
                            assert(first_cell_matches(cur, ranges@, d as nat) == first_cell_matches(prev, ranges@, d as nat).push(shifted(m@, ranges@[d].0)));
                        }
                    }
                }
            },
            None => {
                proof {
                    assert forall|d: int| 0 <= d < ranges.len() implies views(#[trigger] cells@[d]@)
                        == first_cell_matches(views(ner@.take(i + 1)), ranges@, d as nat) by {
                        assert(cells@[d] == old_cells[d]);
                    }
                }
            },
        }
        i = i + 1;
    }
    proof {
        assert(ner@.take(ner.len() as int) =~= ner@);
    }
    cells
}

/// The model matches on a joined row that lie within the given cell range,
/// in the cell's coordinates.
pub fn matches_within(ner: &Vec<PiiMatch>, range: (usize, usize)) -> (found: Vec<PiiMatch>)
    ensures
        views(found@) == within_cell_matches(views(ner@), range),
{
    let mut found: Vec<PiiMatch> = Vec::new();
    let mut i: usize = 0;
    while i < ner.len()
        invariant
            i <= ner.len(),
            views(found@) == within_cell_matches(views(ner@.take(i as int)), range),
        decreases ner.len() - i,
    {
        let m = &ner[i];
        proof {
            assert(views(ner@.take(i + 1)).drop_last() =~= views(ner@.take(i as int)));
            assert(views(ner@.take(i + 1)).last() == m@);
        }
        if m.start >= range.0 && m.end <= range.1 {
            let ghost before = found@;
            found.push(
                PiiMatch {
                    pii_type: m.pii_type,
                    value: m.value.clone(),
                    start: m.start - range.0,
                    end: m.end.wrapping_sub(range.0),
                },
            );
            proof {
                assert(views(found@) =~= views(before).push(shifted(m@, range.0)));
            }
        }
        i = i + 1;
    }
    proof {
        assert(ner@.take(ner.len() as int) =~= ner@);
    }
    found
}

/// In the joined row, the byte range of each cell holds exactly that
/// cell's bytes, so a match within the range is a match within the cell.
pub proof fn law_cell_ranges_locate_cells(cells: Seq<Seq<char>>, i: int)
    requires
        0 <= i < cells.len(),
    ensures
        cell_range(cells, i).1 <= byte_len(joined_chars(cells)),
        encode_utf8(joined_chars(cells)).subrange(cell_range(cells, i).0 as int, cell_range(cells, i).1 as int)
            == encode_utf8(cells[i]),
    decreases cells.len(),
{
    lemma_separator();
    let n = cells.len();
    if n == 1 {
        assert(cells.take(0) =~= Seq::<Seq<char>>::empty());
        assert(encode_utf8(cells[0]).subrange(0, byte_len(cells[0]) as int) =~= encode_utf8(cells[0]));
    } else {
        let t = cells.drop_last();
        lemma_encode_concat(joined_chars(t), " | "@);
        lemma_encode_concat(joined_chars(t) + " | "@, cells.last());
        let whole = encode_utf8(joined_chars(cells));
        assert(joined_chars(cells) == joined_chars(t) + " | "@ + cells.last());
        if i < n - 1 {
            law_cell_ranges_locate_cells(t, i);
            assert(t.take(i) =~= cells.take(i));
            assert(t[i] == cells[i]);
            let (s0, e0) = cell_range(t, i);
            assert(whole.subrange(s0 as int, e0 as int) =~= encode_utf8(joined_chars(t)).subrange(s0 as int, e0 as int));
        } else {
            assert(cells.take(i) =~= t);
            let (s0, e0) = cell_range(cells, i);
            assert(whole.subrange(s0 as int, e0 as int) =~= encode_utf8(cells.last()));
        }
    }
}

} // verus!
