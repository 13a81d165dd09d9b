use vstd::prelude::*;
use crate::text::is_text_range;

verus! {

/// The kinds of personally identifiable information the library knows.
#[derive(Debug, Clone, Copy, PartialEq, Eq, Structural, Hash)]
pub enum PiiType {
    Email,
    Phone,
    SSN,
    CreditCard,
    IPAddress,
    DateOfBirth,
    Address,
    Name,
    Passport,
    DriversLicense,
    BankAccount,
    Organization,
}

/// The human-readable name of a PII type.
pub open spec fn display_name_of(t: PiiType) -> Seq<char> {
    match t {
        PiiType::Email => "Email Address"@,
        PiiType::Phone => "Phone Number"@,
        PiiType::SSN => "Social Security Number"@,
        PiiType::CreditCard => "Credit Card Number"@,
        PiiType::IPAddress => "IP Address"@,
        PiiType::DateOfBirth => "Date of Birth"@,
        PiiType::Address => "Street Address"@,
        PiiType::Name => "Person Name"@,
        PiiType::Passport => "Passport Number"@,
        PiiType::DriversLicense => "Driver's License"@,
        PiiType::BankAccount => "Bank Account Number"@,
        PiiType::Organization => "Organization Name"@,
    }
}

/// The types that only the named-entity model can find.
pub open spec fn is_ner_type(t: PiiType) -> bool {
    t == PiiType::Name || t == PiiType::Address || t == PiiType::Organization
}

impl PiiType {
    pub fn display_name(&self) -> (name: &'static str)
        ensures
            name@ == display_name_of(*self),
    {
        match self {
            PiiType::Email => "Email Address",
            PiiType::Phone => "Phone Number",
            PiiType::SSN => "Social Security Number",
            PiiType::CreditCard => "Credit Card Number",
            PiiType::IPAddress => "IP Address",
            PiiType::DateOfBirth => "Date of Birth",
            PiiType::Address => "Street Address",
            PiiType::Name => "Person Name",
            PiiType::Passport => "Passport Number",
            PiiType::DriversLicense => "Driver's License",
            PiiType::BankAccount => "Bank Account Number",
            PiiType::Organization => "Organization Name",
        }
    }

    pub fn uses_ner(&self) -> (b: bool)
        ensures
            b == is_ner_type(*self),
    {
        match self {
            PiiType::Name | PiiType::Address | PiiType::Organization => true,
            _ => false,
        }
    }

    /// Every type, in declaration order.
    pub fn all() -> (types: Vec<PiiType>)
        ensures
            types@ == all_pii_types(),
    {
        let types = vec![
            PiiType::Email,
            PiiType::Phone,
            PiiType::SSN,
            PiiType::CreditCard,
            PiiType::IPAddress,
            PiiType::DateOfBirth,
            PiiType::Address,
            PiiType::Name,
            PiiType::Passport,
            PiiType::DriversLicense,
            PiiType::BankAccount,
            PiiType::Organization,
        ];
        proof {
            assert(types@ =~= all_pii_types());
        }
        types
    }
}

/// Every type, in declaration order.
pub open spec fn all_pii_types() -> Seq<PiiType> {
    seq![
        PiiType::Email,
        PiiType::Phone,
        PiiType::SSN,
        PiiType::CreditCard,
        PiiType::IPAddress,
        PiiType::DateOfBirth,
        PiiType::Address,
        PiiType::Name,
        PiiType::Passport,
        PiiType::DriversLicense,
        PiiType::BankAccount,
        PiiType::Organization,
    ]
}

/// Each type occurs in the list of all types.
pub proof fn law_all_types_listed(t: PiiType)
    ensures
        all_pii_types().contains(t),
{
    let all = all_pii_types();
    match t {
        PiiType::Email => assert(all[0] == t),
        PiiType::Phone => assert(all[1] == t),
        PiiType::SSN => assert(all[2] == t),
        PiiType::CreditCard => assert(all[3] == t),
        PiiType::IPAddress => assert(all[4] == t),
        PiiType::DateOfBirth => assert(all[5] == t),
        PiiType::Address => assert(all[6] == t),
        PiiType::Name => assert(all[7] == t),
        PiiType::Passport => assert(all[8] == t),
        PiiType::DriversLicense => assert(all[9] == t),
        PiiType::BankAccount => assert(all[10] == t),
        PiiType::Organization => assert(all[11] == t),
    }
}

} // verus!

verus! {

/// One piece of PII found in a text: its type, the matched text and its byte
/// range `start..end` in the text it was found in.
#[derive(Debug)]
pub struct PiiMatch {
    pub pii_type: PiiType,
    pub value: String,
    pub start: usize,
    pub end: usize,
}

/// The mathematical value of a match: its text taken as characters.
pub struct MatchView {
    pub pii_type: PiiType,
    pub value: Seq<char>,
    pub start: usize,
    pub end: usize,
}

impl View for PiiMatch {
    type V = MatchView;

    open spec fn view(&self) -> MatchView {
        MatchView { pii_type: self.pii_type, value: self.value@, start: self.start, end: self.end }
    }
}

/// The views of a sequence of matches.
pub open spec fn views(s: Seq<PiiMatch>) -> Seq<MatchView> {
    s.map_values(|m: PiiMatch| m@)
}

impl Clone for PiiMatch {
    fn clone(&self) -> (copy: Self)
        ensures
            copy == *self,
    {
        PiiMatch {
            pii_type: self.pii_type,
            value: self.value.clone(),
            start: self.start,
            end: self.end,
        }
    }
}

/// Inserts `m` into `s` after every element whose start is not greater than
/// `m.start` (the insertion step of a stable sort by start).
pub open spec fn insert_by_start(s: Seq<MatchView>, m: MatchView) -> Seq<MatchView>
    decreases s.len(),
{
    if s.len() == 0 {
        seq![m]
    } else if s.last().start <= m.start {
        s.push(m)
    } else {
        insert_by_start(s.drop_last(), m).push(s.last())
    }
}

/// The stable sort of `s` by start position.
pub open spec fn sorted_by_start(s: Seq<MatchView>) -> Seq<MatchView>
    decreases s.len(),
{
    if s.len() == 0 {
        s
    } else {
        insert_by_start(sorted_by_start(s.drop_last()), s.last())
    }
}

pub open spec fn is_sorted_by_start(s: Seq<MatchView>) -> bool {
    forall|i: int, j: int| 0 <= i <= j < s.len() ==> s[i].start <= s[j].start
}

/// Scans `s` from the front, keeping a match when it starts at or after the
/// end of the last kept match. Gives the kept matches and the end of the last
/// kept one (0 when none is kept).
pub open spec fn overlap_scan(s: Seq<MatchView>) -> (Seq<MatchView>, usize)
    decreases s.len(),
{
    if s.len() == 0 {
        (seq![], 0usize)
    } else {
        let (kept, last_end) = overlap_scan(s.drop_last());
        let m = s.last();
        if m.start >= last_end {
            (kept.push(m), m.end)
        } else {
            (kept, last_end)
        }
    }
}

/// The matches of `s` that survive overlap removal.
pub open spec fn without_overlaps(s: Seq<MatchView>) -> Seq<MatchView> {
    overlap_scan(s).0
}

/// Each match starts at or after the end of the one before it.
pub open spec fn is_overlap_free(s: Seq<MatchView>) -> bool {
    forall|i: int| 0 <= i < s.len() - 1 ==> #[trigger] s[i].end <= s[i + 1].start
}

proof fn lemma_insert_at(s: Seq<MatchView>, m: MatchView, k: int)
    requires
        0 <= k <= s.len(),
        k == 0 || s[k - 1].start <= m.start,
        forall|j: int| k <= j < s.len() ==> s[j].start > m.start,
    ensures
        insert_by_start(s, m) == s.insert(k, m),
    decreases s.len(),
{
    if s.len() == 0 {
        assert(s.insert(k, m) =~= seq![m]);
    } else if k == s.len() {
        assert(s.insert(k, m) =~= s.push(m));
    } else {
        lemma_insert_at(s.drop_last(), m, k);
        assert(s.drop_last().insert(k, m).push(s.last()) =~= s.insert(k, m));
    }
}

/// Inserts `m` at its place in the vector, as `insert_by_start` says.
fn insert_sorted(v: &mut Vec<PiiMatch>, m: PiiMatch)
    ensures
        views(final(v)@) == insert_by_start(views(old(v)@), m@),
{
    let mut k = v.len();
    while k > 0 && v[k - 1].start > m.start
        invariant
            k <= v.len(),
            forall|j: int| k <= j < v.len() ==> v@[j].start > m.start,
        decreases k,
    {
        k = k - 1;
    }
    proof {
        lemma_insert_at(views(v@), m@, k as int);
        assert(views(v@.insert(k as int, m)) =~= views(v@).insert(k as int, m@));
    }
    v.insert(k, m);
}

/// Stable sort by start position.
pub fn sort_by_start(matches: &Vec<PiiMatch>) -> (sorted: Vec<PiiMatch>)
    ensures
        views(sorted@) == sorted_by_start(views(matches@)),
{
    let mut sorted: Vec<PiiMatch> = Vec::new();
    let mut i: usize = 0;
    while i < matches.len()
        invariant
            i <= matches.len(),
            views(sorted@) == sorted_by_start(views(matches@.take(i as int))),
        decreases matches.len() - i,
    {
        proof {
            assert(views(matches@.take(i + 1)).drop_last() =~= views(matches@.take(i as int)));
            assert(views(matches@.take(i + 1)).last() == matches@[i as int]@);
        }
        insert_sorted(&mut sorted, matches[i].clone());
        i = i + 1;
    }
    proof {
        assert(matches@.take(matches.len() as int) =~= matches@);
    }
    sorted
}

/// Drops every match that starts before the end of the last kept one.
pub fn remove_overlaps(matches: &Vec<PiiMatch>) -> (kept: Vec<PiiMatch>)
    ensures
        views(kept@) == without_overlaps(views(matches@)),
{
    let mut kept: Vec<PiiMatch> = Vec::new();
    let mut last_end: usize = 0;
    let mut i: usize = 0;
    while i < matches.len()
        invariant
            i <= matches.len(),
            (views(kept@), last_end) == overlap_scan(views(matches@.take(i as int))),
        decreases matches.len() - i,
    {
        proof {
            assert(views(matches@.take(i + 1)).drop_last() =~= views(matches@.take(i as int)));
            assert(views(matches@.take(i + 1)).last() == matches@[i as int]@);
        }
        let ghost old_kept = kept@;
        if matches[i].start >= last_end {
            last_end = matches[i].end;
            kept.push(matches[i].clone());
            proof {
                assert(views(kept@) =~= views(old_kept).push(matches@[i as int]@));
            }
        }
        i = i + 1;
    }
    proof {
        assert(matches@.take(matches.len() as int) =~= matches@);
    }
    kept
}

} // verus!

verus! {

proof fn lemma_insert_by_start(s: Seq<MatchView>, m: MatchView)
    ensures
        insert_by_start(s, m).len() == s.len() + 1,
        insert_by_start(s, m).to_multiset() =~= s.to_multiset().insert(m),
        forall|i: int|
            0 <= i < insert_by_start(s, m).len() ==> (#[trigger] insert_by_start(s, m)[i] == m
                || s.contains(insert_by_start(s, m)[i])),
        is_sorted_by_start(s) ==> is_sorted_by_start(insert_by_start(s, m)),
    decreases s.len(),
{
    broadcast use vstd::seq_lib::group_to_multiset_ensures;

    if s.len() == 0 {
        assert(seq![m] =~= Seq::<MatchView>::empty().push(m));
    } else if s.last().start <= m.start {
    } else {
        let t = s.drop_last();
        lemma_insert_by_start(t, m);
        let r = insert_by_start(t, m);
        assert(s =~= t.push(s.last()));
        assert forall|i: int| 0 <= i < r.push(s.last()).len() implies (#[trigger] r.push(
            s.last(),
        )[i] == m || s.contains(r.push(s.last())[i])) by {
            if i < r.len() {
                if r[i] != m {
                    let k = choose|k: int| 0 <= k < t.len() && t[k] == r[i];
                    assert(s[k] == r[i]);
                }
            } else {
                assert(s[s.len() - 1] == s.last());
            }
        }
        if is_sorted_by_start(s) {
            assert forall|i: int, j: int|
                0 <= i <= j < r.push(s.last()).len() implies r.push(s.last())[i].start <= r.push(
                s.last(),
            )[j].start by {
                if j == r.len() && i < r.len() {
                    if r[i] != m {
                        let k = choose|k: int| 0 <= k < t.len() && t[k] == r[i];
                        assert(s[k] == r[i]);
                    }
                }
            }
        }
    }
}

/// Sorting by start gives a sequence ordered by start that holds the same
/// matches as its input.
pub proof fn law_sort_orders_and_permutes(s: Seq<MatchView>)
    ensures
        is_sorted_by_start(sorted_by_start(s)),
        sorted_by_start(s).to_multiset() =~= s.to_multiset(),
    decreases s.len(),
{
    broadcast use vstd::seq_lib::group_to_multiset_ensures;

    if s.len() > 0 {
        law_sort_orders_and_permutes(s.drop_last());
        lemma_insert_by_start(sorted_by_start(s.drop_last()), s.last());
        assert(s =~= s.drop_last().push(s.last()));
    }
}

/// The end of the scan is the end of the last kept match, or 0.
proof fn lemma_scan_end(s: Seq<MatchView>)
    ensures
        overlap_scan(s).0.len() == 0 ==> overlap_scan(s).1 == 0,
        overlap_scan(s).0.len() > 0 ==> overlap_scan(s).1 == overlap_scan(s).0.last().end,
    decreases s.len(),
{
    if s.len() > 0 {
        lemma_scan_end(s.drop_last());
    }
}

/// What overlap removal keeps is free of overlaps, and every kept match is
/// one of the input's.
pub proof fn law_overlap_removal_is_overlap_free(s: Seq<MatchView>)
    ensures
        is_overlap_free(without_overlaps(s)),
        forall|i: int|
            0 <= i < without_overlaps(s).len() ==> s.contains(#[trigger] without_overlaps(s)[i]),
    decreases s.len(),
{
    if s.len() > 0 {
        let t = s.drop_last();
        law_overlap_removal_is_overlap_free(t);
        lemma_scan_end(t);
        let r = without_overlaps(s);
        assert forall|i: int| 0 <= i < r.len() implies s.contains(#[trigger] r[i]) by {
            if i < without_overlaps(t).len() {
                let k = choose|k: int| 0 <= k < t.len() && t[k] == without_overlaps(t)[i];
                assert(s[k] == r[i]);
            } else {
                assert(s[s.len() - 1] == r[i]);
            }
        }
    }
}

/// A sequence free of overlaps passes overlap removal unchanged.
pub proof fn law_overlap_free_is_kept(s: Seq<MatchView>)
    requires
        is_overlap_free(s),
    ensures
        without_overlaps(s) == s,
    decreases s.len(),
{
    if s.len() > 0 {
        let t = s.drop_last();
        assert(is_overlap_free(t)) by {
            assert forall|i: int| 0 <= i < t.len() - 1 implies #[trigger] t[i].end <= t[i + 1].start by {
                assert(s[i].end <= s[i + 1].start);
            }
        }
        law_overlap_free_is_kept(t);
        lemma_scan_end(t);
        if t.len() > 0 {
            assert(s[t.len() - 1].end <= s[t.len() as int].start);
        }
        assert(t.push(s.last()) =~= s);
    }
}

/// Removing overlaps a second time changes nothing.
pub proof fn law_overlap_removal_idempotent(s: Seq<MatchView>)
    ensures
        without_overlaps(without_overlaps(s)) == without_overlaps(s),
{
    law_overlap_removal_is_overlap_free(s);
    law_overlap_free_is_kept(without_overlaps(s));
}

/// Whether `r` is `s` with some matches left out, the rest in their order.
pub open spec fn is_subsequence_of(r: Seq<MatchView>, s: Seq<MatchView>) -> bool {
    exists|idx: Seq<int>|
        #![trigger idx.len()]
        idx.len() == r.len() && (forall|j: int| 0 <= j < r.len() ==> 0 <= #[trigger] idx[j] < s.len() && s[idx[j]] == r[j])
            && (forall|j: int, k: int| 0 <= j < k < r.len() ==> #[trigger] idx[j] < #[trigger] idx[k])
}

/// The positions in `s` of the matches overlap removal keeps.
spec fn kept_indices(s: Seq<MatchView>) -> Seq<int>
    decreases s.len(),
{
    if s.len() == 0 {
        seq![]
    } else {
        let earlier = kept_indices(s.drop_last());
        if s.last().start >= overlap_scan(s.drop_last()).1 {
            earlier.push(s.len() - 1)
        } else {
            earlier
        }
    }
}

proof fn lemma_kept_indices(s: Seq<MatchView>)
    ensures
        kept_indices(s).len() == without_overlaps(s).len(),
        forall|j: int|
            0 <= j < kept_indices(s).len() ==> 0 <= #[trigger] kept_indices(s)[j] < s.len() && s[kept_indices(
                s,
            )[j]] == without_overlaps(s)[j],
        forall|j: int, k: int|
            0 <= j < k < kept_indices(s).len() ==> #[trigger] kept_indices(s)[j] < #[trigger] kept_indices(s)[k],
    decreases s.len(),
{
    if s.len() > 0 {
        let t = s.drop_last();
        lemma_kept_indices(t);
        let idx = kept_indices(s);
        let prev = kept_indices(t);
        assert forall|j: int| 0 <= j < idx.len() implies 0 <= #[trigger] idx[j] < s.len() && s[idx[j]]
            == without_overlaps(s)[j] by {
            if j < prev.len() {
                assert(idx[j] == prev[j]);
                assert(without_overlaps(s)[j] == without_overlaps(t)[j]);
            }
        }
        assert forall|j: int, k: int| 0 <= j < k < idx.len() implies #[trigger] idx[j] < #[trigger] idx[k] by {
            if k < prev.len() {
                assert(idx[j] == prev[j] && idx[k] == prev[k]);
            } else {
                assert(idx[j] == prev[j]);
            }
        }
    }
}

proof fn lemma_scan_keeps_first(s: Seq<MatchView>)
    requires
        s.len() > 0,
    ensures
        without_overlaps(s).len() > 0,
        without_overlaps(s)[0] == s[0],
    decreases s.len(),
{
    let t = s.drop_last();
    if t.len() == 0 {
        assert(overlap_scan(t).1 == 0);
    } else {
        lemma_scan_keeps_first(t);
        assert(t[0] == s[0]);
    }
}

/// Overlap removal keeps the first match, and keeps the others in their
/// order, leaving some out.
pub proof fn law_overlap_removal_keeps_first_in_order(s: Seq<MatchView>)
    ensures
        is_subsequence_of(without_overlaps(s), s),
        s.len() > 0 ==> without_overlaps(s).len() > 0 && without_overlaps(s)[0] == s[0],
{
    lemma_kept_indices(s);
    let idx = kept_indices(s);
    assert(idx.len() == without_overlaps(s).len());
    if s.len() > 0 {
        lemma_scan_keeps_first(s);
    }
}

/// Leaving matches out of a sequence sorted by start keeps it sorted.
pub proof fn lemma_subsequence_keeps_sorted(r: Seq<MatchView>, s: Seq<MatchView>)
    requires
        is_subsequence_of(r, s),
        is_sorted_by_start(s),
    ensures
        is_sorted_by_start(r),
{
    let idx = choose|idx: Seq<int>|
        #![trigger idx.len()]
        idx.len() == r.len() && (forall|j: int| 0 <= j < r.len() ==> 0 <= #[trigger] idx[j] < s.len() && s[idx[j]] == r[j])
            && (forall|j: int, k: int| 0 <= j < k < r.len() ==> #[trigger] idx[j] < #[trigger] idx[k]);
    assert forall|i: int, j: int| 0 <= i <= j < r.len() implies r[i].start <= r[j].start by {
        if i < j {
            assert(idx[i] < idx[j]);
        }
        assert(s[idx[i]].start <= s[idx[j]].start);
    }
}

/// Sorting a sequence already sorted by start changes nothing.
pub proof fn law_sorting_sorted_keeps_it(s: Seq<MatchView>)
    requires
        is_sorted_by_start(s),
    ensures
        sorted_by_start(s) == s,
    decreases s.len(),
{
    if s.len() > 0 {
        let t = s.drop_last();
        assert(is_sorted_by_start(t));
        law_sorting_sorted_keeps_it(t);
        if t.len() > 0 {
            assert(t.last().start <= s.last().start);
        }
        assert(t.push(s.last()) =~= s);
    }
}

/// Every match lies on character boundaries of the text.
pub open spec fn on_boundaries(text: Seq<char>, ms: Seq<MatchView>) -> bool {
    forall|i: int| 0 <= i < ms.len() ==> is_text_range(text, (#[trigger] ms[i]).start as int, ms[i].end as int)
}

/// Sorting and overlap removal keep matches on character boundaries, and
/// their result is free of overlaps.
pub proof fn lemma_settled_on_boundaries(text: Seq<char>, s: Seq<MatchView>)
    requires
        on_boundaries(text, s),
    ensures
        on_boundaries(text, without_overlaps(sorted_by_start(s))),
        is_overlap_free(without_overlaps(sorted_by_start(s))),
{
    broadcast use vstd::seq_lib::group_to_multiset_ensures;

    let sorted = sorted_by_start(s);
    law_sort_orders_and_permutes(s);
    law_overlap_removal_is_overlap_free(sorted);
    let r = without_overlaps(sorted);
    assert forall|i: int| 0 <= i < r.len() implies is_text_range(text, (#[trigger] r[i]).start as int, r[i].end as int) by {
        let m = r[i];
        assert(sorted.contains(m));
        assert(sorted.to_multiset().count(m) > 0);
        assert(s.to_multiset().count(m) > 0);
        let j = choose|j: int| 0 <= j < s.len() && s[j] == m;
        assert(is_text_range(text, s[j].start as int, s[j].end as int));
    }
}

/// Two lists on character boundaries make one.
pub proof fn lemma_concat_on_boundaries(text: Seq<char>, a: Seq<MatchView>, b: Seq<MatchView>)
    requires
        on_boundaries(text, a),
        on_boundaries(text, b),
    ensures
        on_boundaries(text, a + b),
{
    let both = a + b;
    assert forall|i: int| 0 <= i < both.len() implies is_text_range(text, (#[trigger] both[i]).start as int, both[i].end as int) by {
        if i < a.len() {
            assert(both[i] == a[i]);
        } else {
            assert(both[i] == b[i - a.len()]);
        }
    }
}

/// Overlap removal looks at the matches in order: each is kept when it
/// starts at or after the end of the last match kept before it (or when none
/// was), and dropped when it starts before that end.
pub proof fn law_overlap_removal_drops_only_overlaps(s: Seq<MatchView>, i: int)
    requires
        0 <= i < s.len(),
    ensures
        ({
            let before = without_overlaps(s.take(i));
            let after = without_overlaps(s.take(i + 1));
            if before.len() == 0 || s[i].start >= before.last().end {
                after == before.push(s[i])
            } else {
                after == before
            }
        }),
{
    let t = s.take(i + 1);
    assert(t.drop_last() =~= s.take(i));
    assert(t.last() == s[i]);
    lemma_scan_end(s.take(i));
}

} // verus!
