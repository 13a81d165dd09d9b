use vstd::prelude::*;
use crate::pii::{display_name_of, views, MatchView, PiiMatch};
use crate::text::{owned, str_eq};

verus! {

/// Counts of what processing found and changed. `pii_by_type` holds one
/// entry per display name of a type found, in the order first found.
#[derive(Debug)]
pub struct ScrubStats {
    pub total_pii_found: usize,
    pub pii_by_type: Vec<(String, usize)>,
    pub rows_affected: usize,
    pub rows_processed: usize,
    pub cells_affected: usize,
}

impl Default for ScrubStats {
    fn default() -> (stats: Self)
        ensures
            stats.total_pii_found == 0,
            stats.pii_by_type@.len() == 0,
            stats.rows_affected == 0,
            stats.rows_processed == 0,
            stats.cells_affected == 0,
    {
        ScrubStats {
            total_pii_found: 0,
            pii_by_type: Vec::new(),
            rows_affected: 0,
            rows_processed: 0,
            cells_affected: 0,
        }
    }
}

/// Addition that stops at the largest `usize`.
pub open spec fn sat_add(a: usize, b: nat) -> usize {
    if a + b > usize::MAX {
        usize::MAX
    } else {
        (a + b) as usize
    }
}

/// The counts as (name, count) pairs.
pub open spec fn counts_view(v: Seq<(String, usize)>) -> Seq<(Seq<char>, usize)> {
    v.map_values(|e: (String, usize)| (e.0@, e.1))
}

/// The first entry for `name`.
pub open spec fn key_index(c: Seq<(Seq<char>, usize)>, name: Seq<char>) -> Option<int>
    decreases c.len(),
{
    if c.len() == 0 {
        None
    } else {
        match key_index(c.drop_last(), name) {
            Some(i) => Some(i),
            None => if c.last().0 == name {
                Some(c.len() - 1)
            } else {
                None
            },
        }
    }
}

/// One more occurrence of `name`.
pub open spec fn count_one(c: Seq<(Seq<char>, usize)>, name: Seq<char>) -> Seq<(Seq<char>, usize)> {
    match key_index(c, name) {
        Some(i) => c.update(i, (name, sat_add(c[i].1, 1))),
        None => c.push((name, 1usize)),
    }
}

/// The counts after each match is counted under its type's display name.
pub open spec fn count_matches(c: Seq<(Seq<char>, usize)>, ms: Seq<MatchView>) -> Seq<(Seq<char>, usize)>
    decreases ms.len(),
{
    if ms.len() == 0 {
        c
    } else {
        count_one(count_matches(c, ms.drop_last()), display_name_of(ms.last().pii_type))
    }
}

proof fn lemma_key_index(c: Seq<(Seq<char>, usize)>, name: Seq<char>, i: int)
    requires
        0 <= i < c.len(),
        c[i].0 == name,
        forall|k: int| 0 <= k < i ==> c[k].0 != name,
    ensures
        key_index(c, name) == Some(i),
    decreases c.len(),
{
    if i < c.len() - 1 {
        lemma_key_index(c.drop_last(), name, i);
    } else {
        lemma_key_none(c.drop_last(), name);
    }
}

proof fn lemma_key_none(c: Seq<(Seq<char>, usize)>, name: Seq<char>)
    requires
        forall|k: int| 0 <= k < c.len() ==> c[k].0 != name,
    ensures
        key_index(c, name) is None,
    decreases c.len(),
{
    if c.len() > 0 {
        lemma_key_none(c.drop_last(), name);
    }
}

/// The first entry for `name`, if any.
fn find_name(counts: &Vec<(String, usize)>, name: &str) -> (found: Option<usize>)
    ensures
        found matches Some(i) ==> key_index(counts_view(counts@), name@) == Some(i as int) && i < counts.len(),
        found is None ==> key_index(counts_view(counts@), name@) is None,
{
    let ghost c = counts_view(counts@);
    let mut i: usize = 0;
    while i < counts.len()
        invariant
            i <= counts.len(),
            c == counts_view(counts@),
            forall|k: int| 0 <= k < i ==> c[k].0 != name@,
        decreases counts.len() - i,
    {
        if str_eq(counts[i].0.as_str(), name) {
            proof {
                lemma_key_index(c, name@, i as int);
            }
            return Some(i);
        }
        i = i + 1;
    }
    proof {
        lemma_key_none(c, name@);
    }
    None
}

/// Counts one more occurrence of `name`.
pub fn count_name(counts: &mut Vec<(String, usize)>, name: &str)
    ensures
        counts_view(final(counts)@) == count_one(counts_view(old(counts)@), name@),
{
    let ghost c = counts_view(counts@);
    match find_name(counts, name) {
        Some(i) => {
            proof {
                lemma_key_index_found(c, name@);
            }
            let n = counts[i].1.saturating_add(1);
            counts.set(i, (owned(name), n));
            proof {
                assert(counts_view(counts@) =~= c.update(i as int, (name@, sat_add(c[i as int].1, 1))));
            }
        },
        None => {
            counts.push((owned(name), 1));
            proof {
                assert(counts_view(counts@) =~= c.push((name@, 1usize)));
            }
        },
    }
}

/// Counts each match under its type's display name.
pub fn count_all(counts: &mut Vec<(String, usize)>, matches: &Vec<PiiMatch>)
    ensures
        counts_view(final(counts)@) == count_matches(counts_view(old(counts)@), views(matches@)),
{
    let ghost start = counts_view(counts@);
    let mut i: usize = 0;
    while i < matches.len()
        invariant
            i <= matches.len(),
            counts_view(counts@) == count_matches(start, views(matches@.take(i as int))),
        decreases matches.len() - i,
    {
        proof {
            assert(views(matches@.take(i + 1)).drop_last() =~= views(matches@.take(i as int)));
            assert(views(matches@.take(i + 1)).last() == matches@[i as int]@);
        }
        count_name(counts, matches[i].pii_type.display_name());
        i = i + 1;
    }
    proof {
        assert(matches@.take(matches.len() as int) =~= matches@);
    }
}

/// Adds the matches to the statistics: the total grows by their number and
/// each is counted under its type's display name.
pub fn update_stats(matches: &Vec<PiiMatch>, stats: &mut ScrubStats, pii_counts: &mut Vec<(String, usize)>)
    ensures
        final(stats).total_pii_found == sat_add(old(stats).total_pii_found, matches.len() as nat),
        final(stats).pii_by_type == old(stats).pii_by_type,
        final(stats).rows_affected == old(stats).rows_affected,
        final(stats).rows_processed == old(stats).rows_processed,
        final(stats).cells_affected == old(stats).cells_affected,
        counts_view(final(pii_counts)@) == count_matches(counts_view(old(pii_counts)@), views(matches@)),
{
    stats.total_pii_found = stats.total_pii_found.saturating_add(matches.len());
    count_all(pii_counts, matches);
}

/// The sum of the counts.
pub open spec fn count_total(c: Seq<(Seq<char>, usize)>) -> int
    decreases c.len(),
{
    if c.len() == 0 {
        0
    } else {
        count_total(c.drop_last()) + c.last().1
    }
}

/// Each name has at most one entry.
pub open spec fn names_unique(c: Seq<(Seq<char>, usize)>) -> bool {
    forall|i: int, j: int| 0 <= i < j < c.len() ==> c[i].0 != c[j].0
}

proof fn lemma_count_total_update(c: Seq<(Seq<char>, usize)>, i: int, e: (Seq<char>, usize))
    requires
        0 <= i < c.len(),
    ensures
        count_total(c.update(i, e)) == count_total(c) - c[i].1 + e.1,
    decreases c.len(),
{
    if i < c.len() - 1 {
        lemma_count_total_update(c.drop_last(), i, e);
        assert(c.update(i, e).drop_last() =~= c.drop_last().update(i, e));
    } else {
        assert(c.update(i, e).drop_last() =~= c.drop_last());
    }
}

proof fn lemma_entry_le_total(c: Seq<(Seq<char>, usize)>, i: int)
    requires
        0 <= i < c.len(),
    ensures
        c[i].1 <= count_total(c),
    decreases c.len(),
{
    lemma_count_total_nonneg(c.drop_last());
    if i < c.len() - 1 {
        lemma_entry_le_total(c.drop_last(), i);
        assert(c.drop_last()[i] == c[i]);
    }
}

proof fn lemma_count_total_nonneg(c: Seq<(Seq<char>, usize)>)
    ensures
        count_total(c) >= 0,
    decreases c.len(),
{
    if c.len() > 0 {
        lemma_count_total_nonneg(c.drop_last());
    }
}

proof fn lemma_key_index_found(c: Seq<(Seq<char>, usize)>, name: Seq<char>)
    ensures
        key_index(c, name) matches Some(i) ==> 0 <= i < c.len() && c[i].0 == name,
        key_index(c, name) is None ==> forall|k: int| 0 <= k < c.len() ==> c[k].0 != name,
    decreases c.len(),
{
    if c.len() > 0 {
        lemma_key_index_found(c.drop_last(), name);
        if key_index(c, name) is None {
            assert forall|k: int| 0 <= k < c.len() implies c[k].0 != name by {
                if k < c.len() - 1 {
                    assert(c.drop_last()[k] == c[k]);
                }
            }
        }
    }
}

/// Counting one more name keeps the names unique and adds one to the sum,
/// as long as the sum stays below the largest `usize`.
pub proof fn law_count_one_adds_one(c: Seq<(Seq<char>, usize)>, name: Seq<char>)
    requires
        names_unique(c),
        count_total(c) < usize::MAX,
    ensures
        names_unique(count_one(c, name)),
        count_total(count_one(c, name)) == count_total(c) + 1,
{
    lemma_key_index_found(c, name);
    match key_index(c, name) {
        Some(i) => {
            lemma_entry_le_total(c, i);
            lemma_count_total_update(c, i, (name, sat_add(c[i].1, 1)));
        },
        None => {
            assert(count_one(c, name).drop_last() =~= c);
        },
    }
}

/// Statistics stay consistent: when the total equals the sum of the
/// per-type counts before matches are added (and nothing reaches the
/// largest `usize`), it does after.
pub proof fn law_total_is_sum_of_counts(total: usize, c: Seq<(Seq<char>, usize)>, ms: Seq<MatchView>)
    requires
        names_unique(c),
        count_total(c) == total,
        total + ms.len() <= usize::MAX,
    ensures
        names_unique(count_matches(c, ms)),
        count_total(count_matches(c, ms)) == sat_add(total, ms.len() as nat),
    decreases ms.len(),
{
    if ms.len() > 0 {
        law_total_is_sum_of_counts(total, c, ms.drop_last());
        law_count_one_adds_one(count_matches(c, ms.drop_last()), display_name_of(ms.last().pii_type));
    }
}

} // verus!
