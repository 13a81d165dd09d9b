use vstd::prelude::*;
use vstd::string::StringSliceAdditionalSpecFns;
use crate::cache::{copy_matches, law_cache_size_counts_texts, NerCache, NER_CACHE_CAPACITY};
use crate::detect::{detect_regex_each, lemma_regex_detection_settled, lemma_scan_reportable, regex_detection, regex_scan, scan_each};
use crate::ner::{NerEntity, NerEntityType};
use crate::validate::is_valid_match;
use crate::pii::{
    is_ner_type, is_overlap_free, law_overlap_removal_is_overlap_free, on_boundaries, law_sort_orders_and_permutes, remove_overlaps,
    sorted_by_start, views, without_overlaps, MatchView, PiiMatch, PiiType,
};

verus! {

/// How many texts go through the named-entity model in one batch.
pub const NER_BATCH_SIZE: usize = 128;

/// The least confidence of a model entity that is reported: 0.70 as a
/// single-precision value, in units of 2^-24.
pub const NER_CONFIDENCE_THRESHOLD: u32 = 11744051;

/// Whether some type of the list is found by the named-entity model.
pub open spec fn any_ner_type(types: Seq<PiiType>) -> bool {
    exists|i: int| 0 <= i < types.len() && is_ner_type(#[trigger] types[i])
}

/// The PII type a model entity is reported as, when that type is enabled.
pub open spec fn ner_pii_type(kind: NerEntityType, enabled: Seq<PiiType>) -> Option<PiiType> {
    match kind {
        NerEntityType::Person => if enabled.contains(PiiType::Name) {
            Some(PiiType::Name)
        } else {
            None
        },
        NerEntityType::Location => if enabled.contains(PiiType::Address) {
            Some(PiiType::Address)
        } else {
            None
        },
        NerEntityType::Organization => if enabled.contains(PiiType::Organization) {
            Some(PiiType::Organization)
        } else {
            None
        },
        NerEntityType::Misc => None,
    }
}

/// The matches reported for the model's entities: those of an enabled type
/// with confidence at least the threshold, in order.
pub open spec fn entity_matches(entities: Seq<NerEntity>, enabled: Seq<PiiType>) -> Seq<MatchView>
    decreases entities.len(),
{
    if entities.len() == 0 {
        seq![]
    } else {
        let earlier = entity_matches(entities.drop_last(), enabled);
        let e = entities.last();
        match ner_pii_type(e.entity_type, enabled) {
            Some(t) => if e.confidence >= NER_CONFIDENCE_THRESHOLD {
                earlier.push(MatchView { pii_type: t, value: e.text@, start: e.start, end: e.end })
            } else {
                earlier
            },
            None => earlier,
        }
    }
}

/// What a lookup of `text` answers before the model is asked: texts under 3
/// bytes have no entities, cached texts have their cached matches, and
/// other texts (`None`) need the model.
pub open spec fn lookup_result(cache: Map<Seq<char>, Seq<MatchView>>, text: &str) -> Option<
    Seq<MatchView>,
> {
    if text.spec_bytes().len() < 3 {
        Some(seq![])
    } else if cache.contains_key(text@) {
        Some(cache[text@])
    } else {
        None
    }
}

/// The indices, in order, of the first `n` texts that need the model.
pub open spec fn pending_indices(
    cache: Map<Seq<char>, Seq<MatchView>>,
    texts: Seq<&str>,
    n: nat,
) -> Seq<usize>
    decreases n,
{
    if n == 0 {
        seq![]
    } else {
        let earlier = pending_indices(cache, texts, (n - 1) as nat);
        if lookup_result(cache, texts[n - 1]) is None {
            earlier.push((n - 1) as usize)
        } else {
            earlier
        }
    }
}

/// The model's answer for the `q`-th pending text: batch `q / NER_BATCH_SIZE`
/// holds it at position `q % NER_BATCH_SIZE`; a failed batch, or one without
/// that position, gives no answer.
pub open spec fn batch_answer(
    outcomes: Seq<Option<Vec<Vec<NerEntity>>>>,
    q: int,
    enabled: Seq<PiiType>,
) -> Option<Seq<MatchView>> {
    let b = q / NER_BATCH_SIZE as int;
    let l = q % NER_BATCH_SIZE as int;
    if 0 <= b < outcomes.len() && outcomes[b] is Some && l < outcomes[b]->0.len() {
        Some(entity_matches(outcomes[b]->0@[l]@, enabled))
    } else {
        None
    }
}

/// The cache after the answers for the first `q` pending texts were stored:
/// an answer is stored while the cache holds fewer texts than its capacity.
pub open spec fn cache_after(
    cache: Map<Seq<char>, Seq<MatchView>>,
    texts: Seq<&str>,
    pending: Seq<usize>,
    outcomes: Seq<Option<Vec<Vec<NerEntity>>>>,
    enabled: Seq<PiiType>,
    q: nat,
) -> Map<Seq<char>, Seq<MatchView>>
    decreases q,
{
    if q == 0 {
        cache
    } else {
        let c = cache_after(cache, texts, pending, outcomes, enabled, (q - 1) as nat);
        match batch_answer(outcomes, q - 1, enabled) {
            Some(m) => if c.dom().len() < NER_CACHE_CAPACITY {
                c.insert(texts[pending[q - 1] as int]@, m)
            } else {
                c
            },
            None => c,
        }
    }
}

/// The concatenation of a list of match lists.
pub open spec fn concat_all(lists: Seq<Seq<MatchView>>) -> Seq<MatchView>
    decreases lists.len(),
{
    if lists.len() == 0 {
        seq![]
    } else {
        concat_all(lists.drop_last()) + lists.last()
    }
}

/// The cache after the answers of a single batch for the pending texts were
/// stored in order, while the cache holds fewer texts than its capacity.
pub open spec fn cache_after_batch(
    cache: Map<Seq<char>, Seq<MatchView>>,
    texts: Seq<&str>,
    pending: Seq<usize>,
    answers: Seq<Vec<NerEntity>>,
    enabled: Seq<PiiType>,
    q: nat,
) -> Map<Seq<char>, Seq<MatchView>>
    decreases q,
{
    if q == 0 {
        cache
    } else {
        let c = cache_after_batch(cache, texts, pending, answers, enabled, (q - 1) as nat);
        if c.dom().len() < NER_CACHE_CAPACITY {
            c.insert(texts[pending[q - 1] as int]@, entity_matches(answers[q - 1]@, enabled))
        } else {
            c
        }
    }
}

/// What `detect` reports before sorting: the expression matches of every
/// text, then the model's new matches, then the cached matches.
pub open spec fn detect_candidates(
    enabled: Seq<PiiType>,
    cache: Map<Seq<char>, Seq<MatchView>>,
    texts: Seq<&str>,
    use_model: bool,
    outcome: Option<Vec<Vec<NerEntity>>>,
) -> Seq<MatchView> {
    let by_regex = concat_all(Seq::new(texts.len(), |i: int| regex_scan(enabled, texts[i]@)));
    if use_model {
        let by_model = match outcome {
            Some(answers) => concat_all(
                Seq::new(answers@.len(), |q: int| entity_matches(answers@[q]@, enabled)),
            ),
            None => seq![],
        };
        let cached = concat_all(
            Seq::new(
                texts.len(),
                |i: int|
                    match lookup_result(cache, texts[i]) {
                        Some(m) => m,
                        None => seq![],
                    },
            ),
        );
        by_regex + by_model + cached
    } else {
        by_regex
    }
}

/// Every match the cache holds is of an enabled type that the model finds
/// (a name, an address or an organization).
pub open spec fn cache_holds_model_matches(cache: Map<Seq<char>, Seq<MatchView>>, enabled: Seq<PiiType>) -> bool {
    forall|k: Seq<char>, i: int|
        #![trigger cache[k][i]]
        cache.contains_key(k) && 0 <= i < cache[k].len() ==> enabled.contains(cache[k][i].pii_type)
            && is_ner_type(cache[k][i].pii_type)
}

/// A match detection may report for the enabled types: of an enabled type,
/// and either of a type the model finds or passing its type's check.
pub open spec fn is_detectable(enabled: Seq<PiiType>, m: MatchView) -> bool {
    &&& enabled.contains(m.pii_type)
    &&& (is_ner_type(m.pii_type) || is_valid_match(m.pii_type, m.value))
}

/// The model's matches are of enabled types that the model finds.
proof fn lemma_entity_matches_enabled(entities: Seq<NerEntity>, enabled: Seq<PiiType>)
    ensures
        forall|i: int|
            0 <= i < entity_matches(entities, enabled).len() ==> enabled.contains(
                #[trigger] entity_matches(entities, enabled)[i].pii_type,
            ) && is_ner_type(entity_matches(entities, enabled)[i].pii_type),
    decreases entities.len(),
{
    if entities.len() > 0 {
        lemma_entity_matches_enabled(entities.drop_last(), enabled);
        let earlier = entity_matches(entities.drop_last(), enabled);
        let all = entity_matches(entities, enabled);
        assert forall|i: int| 0 <= i < all.len() implies enabled.contains(#[trigger] all[i].pii_type)
            && is_ner_type(all[i].pii_type) by {
            if i < earlier.len() {
                assert(all[i] == earlier[i]);
            }
        }
    }
}

/// Storing the model's matches for a text keeps the cache to model matches
/// of enabled types.
proof fn lemma_store_keeps_types(
    cache: Map<Seq<char>, Seq<MatchView>>,
    enabled: Seq<PiiType>,
    text: Seq<char>,
    entities: Seq<NerEntity>,
)
    requires
        cache_holds_model_matches(cache, enabled),
    ensures
        cache_holds_model_matches(cache.insert(text, entity_matches(entities, enabled)), enabled),
{
    lemma_entity_matches_enabled(entities, enabled);
    let c2 = cache.insert(text, entity_matches(entities, enabled));
    assert forall|k: Seq<char>, i: int| c2.contains_key(k) && 0 <= i < c2[k].len() implies enabled.contains(
        #[trigger] c2[k][i].pii_type,
    ) && is_ner_type(c2[k][i].pii_type) by {
        if k != text {
            assert(c2[k] == cache[k]);
        }
    }
}

/// Finds PII in texts with regular expressions and, for names, addresses and
/// organizations, with the answers of a named-entity model, which it caches
/// per text.
pub struct PiiDetector {
    enabled_types: Vec<PiiType>,
    ner_cache: NerCache,
}

proof fn lemma_pending_indices(cache: Map<Seq<char>, Seq<MatchView>>, texts: Seq<&str>, n: nat)
    requires
        n <= usize::MAX,
    ensures
        forall|q: int|
            0 <= q < pending_indices(cache, texts, n).len() ==> #[trigger] pending_indices(
                cache,
                texts,
                n,
            )[q] < n && lookup_result(cache, texts[pending_indices(cache, texts, n)[q] as int])
                is None,
        forall|q: int, r: int|
            0 <= q < r < pending_indices(cache, texts, n).len() ==> #[trigger] pending_indices(
                cache,
                texts,
                n,
            )[q] < #[trigger] pending_indices(cache, texts, n)[r],
    decreases n,
{
    if n > 0 {
        lemma_pending_indices(cache, texts, (n - 1) as nat);
        let p = pending_indices(cache, texts, (n - 1) as nat);
        if lookup_result(cache, texts[n - 1]) is None {
            assert forall|q: int| 0 <= q < p.push((n - 1) as usize).len() implies #[trigger] p.push(
                (n - 1) as usize,
            )[q] < n && lookup_result(cache, texts[p.push((n - 1) as usize)[q] as int]) is None by {
                if q < p.len() {
                    assert(p.push((n - 1) as usize)[q] == p[q]);
                    assert(p[q] < n - 1);
                } else {
                    assert(p.push((n - 1) as usize)[q] == (n - 1) as usize);
                }
            }
            assert forall|q: int, r: int| 0 <= q < r < p.push((n - 1) as usize).len() implies #[trigger] p.push(
                (n - 1) as usize,
            )[q] < #[trigger] p.push((n - 1) as usize)[r] by {
                assert(p.push((n - 1) as usize)[q] == p[q]);
                assert(p[q] < n - 1);
                if r < p.len() {
                    assert(p.push((n - 1) as usize)[r] == p[r]);
                }
            }
        }
    }
}

/// The model's matches for text `i` as detection with the model gives them:
/// known without the model (short or cached), or the answer for its place
/// among the texts that need the model, or none.
pub open spec fn ner_found(
    cache: Map<Seq<char>, Seq<MatchView>>,
    texts: Seq<&str>,
    outcomes: Seq<Option<Vec<Vec<NerEntity>>>>,
    enabled: Seq<PiiType>,
    i: int,
) -> Seq<MatchView> {
    match lookup_result(cache, texts[i]) {
        Some(m) => m,
        None => match batch_answer(outcomes, pending_indices(cache, texts, i as nat).len() as int, enabled) {
            Some(m) => m,
            None => seq![],
        },
    }
}

proof fn lemma_pending_prefix(cache: Map<Seq<char>, Seq<MatchView>>, texts: Seq<&str>, n: nat, m: nat)
    requires
        n <= m,
    ensures
        pending_indices(cache, texts, n).len() <= pending_indices(cache, texts, m).len(),
        forall|q: int|
            0 <= q < pending_indices(cache, texts, n).len() ==> #[trigger] pending_indices(cache, texts, m)[q]
                == pending_indices(cache, texts, n)[q],
    decreases m - n,
{
    if n < m {
        lemma_pending_prefix(cache, texts, n, (m - 1) as nat);
    }
}

/// Where a text that needs the model stands among all such texts.
proof fn lemma_pending_rank(cache: Map<Seq<char>, Seq<MatchView>>, texts: Seq<&str>, i: int)
    requires
        0 <= i < texts.len() <= usize::MAX,
        lookup_result(cache, texts[i]) is None,
    ensures
        pending_indices(cache, texts, i as nat).len() < pending_indices(cache, texts, texts.len()).len(),
        pending_indices(cache, texts, texts.len())[pending_indices(cache, texts, i as nat).len() as int] == i,
{
    lemma_pending_prefix(cache, texts, (i + 1) as nat, texts.len());
    assert(pending_indices(cache, texts, (i + 1) as nat) == pending_indices(cache, texts, i as nat).push(
        i as usize,
    ));
}

impl PiiDetector {
    /// The enabled types.
    pub closed spec fn enabled(&self) -> Seq<PiiType> {
        self.enabled_types@
    }

    /// What the cache holds per text.
    pub closed spec fn cache(&self) -> Map<Seq<char>, Seq<MatchView>> {
        self.ner_cache@
    }

    /// The cache holds each text once, at most `NER_CACHE_CAPACITY` texts,
    /// and only matches of enabled types that the model finds.
    pub closed spec fn wf(&self) -> bool {
        &&& self.ner_cache.wf()
        &&& self.ner_cache.size() <= NER_CACHE_CAPACITY
        &&& cache_holds_model_matches(self.ner_cache@, self.enabled_types@)
    }

    /// A detector for the given types, with an empty cache.
    pub fn new(enabled_types: Vec<PiiType>) -> (detector: Self)
        ensures
            detector.wf(),
            detector.enabled() == enabled_types@,
            detector.cache() == Map::<Seq<char>, Seq<MatchView>>::empty(),
    {
        PiiDetector { enabled_types, ner_cache: NerCache::new() }
    }

    /// Whether any enabled type needs the named-entity model.
    pub fn uses_ner(&self) -> (b: bool)
        ensures
            b == any_ner_type(self.enabled()),
    {
        let mut i: usize = 0;
        while i < self.enabled_types.len()
            invariant
                i <= self.enabled_types.len(),
                forall|k: int| 0 <= k < i ==> !is_ner_type(#[trigger] self.enabled_types@[k]),
            decreases self.enabled_types.len() - i,
        {
            if self.enabled_types[i].uses_ner() {
                return true;
            }
            i = i + 1;
        }
        false
    }

    /// Expression-based detection on one text (no model): the matches of the
    /// enabled types that pass their checks, sorted by start, without
    /// overlaps, each on character boundaries of the text.
    pub fn detect_regex(&self, text: &str) -> (found: Vec<PiiMatch>)
        ensures
            views(found@) == regex_detection(self.enabled(), text@),
            on_boundaries(text@, views(found@)),
            is_overlap_free(views(found@)),
    {
        proof {
            lemma_regex_detection_settled(self.enabled(), text@);
        }
        let mut texts: Vec<&str> = Vec::new();
        texts.push(text);
        let mut all = detect_regex_each(&self.enabled_types, &texts);
        all.swap_remove(0)
    }

    /// Expression-based detection on each of many texts, each expression
    /// compiled once for all of them.
    pub fn detect_regex_batch(&self, texts: &Vec<&str>) -> (found: Vec<Vec<PiiMatch>>)
        ensures
            found.len() == texts.len(),
            forall|i: int|
                0 <= i < texts.len() ==> views(#[trigger] found@[i]@) == regex_detection(
                    self.enabled(),
                    texts@[i]@,
                ),
            forall|i: int|
                0 <= i < texts.len() ==> on_boundaries((#[trigger] texts@[i])@, views(found@[i]@)),
    {
        detect_regex_each(&self.enabled_types, texts)
    }

    /// Overlap removal for matches merged from several sources: keeps a match
    /// only when it starts at or after the end of the last kept one.
    pub fn dedup_overlapping(matches: Vec<PiiMatch>) -> (kept: Vec<PiiMatch>)
        ensures
            views(kept@) == without_overlaps(views(matches@)),
    {
        remove_overlaps(&matches)
    }

    fn ner_pii_type(&self, kind: NerEntityType) -> (t: Option<PiiType>)
        ensures
            t == ner_pii_type(kind, self.enabled()),
    {
        match kind {
            NerEntityType::Person => if self.has_type(PiiType::Name) {
                Some(PiiType::Name)
            } else {
                None
            },
            NerEntityType::Location => if self.has_type(PiiType::Address) {
                Some(PiiType::Address)
            } else {
                None
            },
            NerEntityType::Organization => if self.has_type(PiiType::Organization) {
                Some(PiiType::Organization)
            } else {
                None
            },
            NerEntityType::Misc => None,
        }
    }

    /// Whether `wanted` is enabled.
    fn has_type(&self, wanted: PiiType) -> (b: bool)
        ensures
            b == self.enabled().contains(wanted),
    {
        let mut i: usize = 0;
        while i < self.enabled_types.len()
            invariant
                i <= self.enabled_types.len(),
                forall|k: int| 0 <= k < i ==> self.enabled_types@[k] != wanted,
            decreases self.enabled_types.len() - i,
        {
            if self.enabled_types[i] == wanted {
                proof {
                    assert(self.enabled_types@[i as int] == wanted);
                    assert(self.enabled_types@.contains(wanted));
                }
                return true;
            }
            i = i + 1;
        }
        proof {
            assert(!self.enabled_types@.contains(wanted));
        }
        false
    }

    /// The matches reported for a list of model entities.
    pub fn entity_matches(&self, entities: &Vec<NerEntity>) -> (found: Vec<PiiMatch>)
        ensures
            views(found@) == entity_matches(entities@, self.enabled()),
    {
        let mut found: Vec<PiiMatch> = Vec::new();
        let mut i: usize = 0;
        while i < entities.len()
            invariant
                i <= entities.len(),
                views(found@) == entity_matches(entities@.take(i as int), self.enabled()),
            decreases entities.len() - i,
        {
            let e = &entities[i];
            proof {
                assert(entities@.take(i + 1).drop_last() =~= entities@.take(i as int));
                assert(entities@.take(i + 1).last() == *e);
            }
            if let Some(t) = self.ner_pii_type(e.entity_type) {
                if e.confidence >= NER_CONFIDENCE_THRESHOLD {
                    let ghost before = found@;
                    found.push(PiiMatch { pii_type: t, value: e.text.clone(), start: e.start, end: e.end });
                    proof {
                        assert(views(found@) =~= views(before).push(found@.last()@));
                    }
                }
            }
            i = i + 1;
        }
        proof {
            assert(entities@.take(entities.len() as int) =~= entities@);
        }
        found
    }

    /// Looks every text up: the answers known without the model, and the
    /// indices of the texts that need it.
    fn lookup(&self, texts: &Vec<&str>) -> (plan: (Vec<Option<Vec<PiiMatch>>>, Vec<usize>))
        requires
            self.wf(),
        ensures
            plan.0.len() == texts.len(),
            forall|i: int|
                0 <= i < texts.len() ==> match (#[trigger] plan.0@[i], lookup_result(self.cache(), texts@[i])) {
                    (Some(m), Some(r)) => views(m@) == r,
                    (None, None) => true,
                    _ => false,
                },
            plan.1@ == pending_indices(self.cache(), texts@, texts.len() as nat),
    {
        let mut results: Vec<Option<Vec<PiiMatch>>> = Vec::new();
        let mut pending: Vec<usize> = Vec::new();
        let mut i: usize = 0;
        while i < texts.len()
            invariant
                i <= texts.len(),
                self.wf(),
                results.len() == i,
                forall|k: int|
                    0 <= k < i ==> match (#[trigger] results@[k], lookup_result(self.cache(), texts@[k])) {
                        (Some(m), Some(r)) => views(m@) == r,
                        (None, None) => true,
                        _ => false,
                    },
                pending@ == pending_indices(self.cache(), texts@, i as nat),
            decreases texts.len() - i,
        {
            let text = texts[i];
            let ghost before = results@;
            proof {
                assert(texts@[i as int] == text);
            }
            if text.as_bytes().len() < 3 {
                results.push(Some(Vec::new()));
                proof {
                    assert(views(Seq::<PiiMatch>::empty()) =~= Seq::<MatchView>::empty());
                }
            } else {
                match self.ner_cache.get(text) {
                    Some(m) => {
                        results.push(Some(m));
                    },
                    None => {
                        results.push(None);
                        pending.push(i);
                    },
                }
            }
            proof {
                assert(pending_indices(self.cache(), texts@, (i + 1) as nat) == if lookup_result(self.cache(), texts@[i as int]) is None {
                    pending_indices(self.cache(), texts@, i as nat).push(i)
                } else {
                    pending_indices(self.cache(), texts@, i as nat)
                });
                assert forall|k: int| 0 <= k < i + 1 implies match (#[trigger] results@[k], lookup_result(self.cache(), texts@[k])) {
                    (Some(m), Some(r)) => views(m@) == r,
                    (None, None) => true,
                    _ => false,
                } by {
                    if k < i {
                        assert(results@[k] == before[k]);
                    }
                }
            }
            i = i + 1;
        }
        (results, pending)
    }

    /// The indices of the texts that the model has to see, in order; empty
    /// when no enabled type needs the model.
    pub fn ner_pending(&self, texts: &Vec<&str>) -> (pending: Vec<usize>)
        requires
            self.wf(),
        ensures
            any_ner_type(self.enabled()) ==> pending@ == pending_indices(
                self.cache(),
                texts@,
                texts.len() as nat,
            ),
            !any_ner_type(self.enabled()) ==> pending@.len() == 0,
    {
        if !self.uses_ner() {
            return Vec::new();
        }
        self.lookup(texts).1
    }

    /// Named-entity detection for many texts. Texts of fewer than 3 bytes
    /// have no entities and cached texts get their cached matches. The model's
    /// answers for the other texts (those `ner_pending` lists) come in
    /// `outcomes`, one per batch of `NER_BATCH_SIZE` pending texts, `None` for
    /// a batch the model failed on; such texts get no matches. Each answer is
    /// cached while the cache holds fewer than its capacity.
    pub fn detect_ner(&mut self, texts: &Vec<&str>, outcomes: &Vec<Option<Vec<Vec<NerEntity>>>>) -> (found:
        Vec<Vec<PiiMatch>>)
        requires
            old(self).wf(),
        ensures
            final(self).wf(),
            final(self).enabled() == old(self).enabled(),
            found.len() == texts.len(),
            !any_ner_type(old(self).enabled()) ==> final(self).cache() == old(self).cache() && forall|i: int|
                0 <= i < texts.len() ==> (#[trigger] found@[i])@.len() == 0,
            any_ner_type(old(self).enabled()) ==> {
                let pending = pending_indices(old(self).cache(), texts@, texts.len() as nat);
                &&& forall|i: int|
                    0 <= i < texts.len() && #[trigger] lookup_result(old(self).cache(), texts@[i])
                        is Some ==> views(found@[i]@) == lookup_result(
                        old(self).cache(),
                        texts@[i],
                    )->0
                &&& forall|q: int|
                    0 <= q < pending.len() ==> views(found@[#[trigger] pending[q] as int]@) == match batch_answer(
                        outcomes@,
                        q,
                        old(self).enabled(),
                    ) {
                        Some(m) => m,
                        None => seq![],
                    }
                &&& final(self).cache() == cache_after(
                    old(self).cache(),
                    texts@,
                    pending,
                    outcomes@,
                    old(self).enabled(),
                    pending.len(),
                )
                &&& forall|i: int|
                    0 <= i < texts.len() ==> views(#[trigger] found@[i]@) == ner_found(
                        old(self).cache(),
                        texts@,
                        outcomes@,
                        old(self).enabled(),
                        i,
                    )
            },
    {
        if !self.uses_ner() {
            let mut found: Vec<Vec<PiiMatch>> = Vec::new();
            let mut i: usize = 0;
            while i < texts.len()
                invariant
                    i <= texts.len(),
                    found.len() == i,
                    forall|k: int| 0 <= k < i ==> (#[trigger] found@[k])@.len() == 0,
                decreases texts.len() - i,
            {
                found.push(Vec::new());
                i = i + 1;
            }
            return found;
        }
        let ghost cache0 = self.cache();
        let ghost enabled = self.enabled();
        let (mut results, pending) = self.lookup(texts);
        proof {
            lemma_pending_indices(cache0, texts@, texts.len() as nat);
        }
        let mut q: usize = 0;
        while q < pending.len()
            invariant
                q <= pending.len(),
                self.wf(),
                self.enabled() == enabled,
                results.len() == texts.len(),
                pending@ == pending_indices(cache0, texts@, texts.len() as nat),
                forall|k: int| 0 <= k < pending.len() ==> #[trigger] pending@[k] < texts.len() && lookup_result(cache0, texts@[pending@[k] as int]) is None,
                forall|a: int, b: int| 0 <= a < b < pending.len() ==> #[trigger] pending@[a] < #[trigger] pending@[b],
                forall|i: int|
                    0 <= i < texts.len() && #[trigger] lookup_result(cache0, texts@[i]) is Some ==> match results@[i] {
                        Some(m) => views(m@) == lookup_result(cache0, texts@[i])->0,
                        None => false,
                    },
                forall|r: int|
                    0 <= r < q ==> match batch_answer(outcomes@, r, enabled) {
                        Some(m) => results@[#[trigger] pending@[r] as int] matches Some(v) && views(v@) == m,
                        None => results@[pending@[r] as int] is None,
                    },
                forall|r: int| q <= r < pending.len() ==> results@[#[trigger] pending@[r] as int] is None,
                self.cache() == cache_after(cache0, texts@, pending@, outcomes@, enabled, q as nat),
            decreases pending.len() - q,
        {
            let b = q / NER_BATCH_SIZE;
            let l = q % NER_BATCH_SIZE;
            let idx = pending[q];
            if b < outcomes.len() {
                if let Some(batch) = &outcomes[b] {
                    if l < batch.len() {
                        let found = self.entity_matches(&batch[l]);
                        proof {
                            law_cache_size_counts_texts(&self.ner_cache);
                        }
                        if self.ner_cache.len() < NER_CACHE_CAPACITY {
                            let copy = copy_matches(&found);
                            proof {
                                lemma_store_keeps_types(self.ner_cache@, enabled, texts@[idx as int]@, batch@[l as int]@);
                            }
                            self.ner_cache.insert(texts[idx], copy);
                        }
                        let ghost before = results@;
                        results.set(idx, Some(found));
                        proof {
                            assert forall|r: int| 0 <= r < pending.len() && r != q implies results@[#[trigger] pending@[r] as int] == before[pending@[r] as int] by {
                                if r < q {
                                    assert(pending@[r] < pending@[q as int]);
                                } else {
                                    assert(pending@[q as int] < pending@[r]);
                                }
                            }
                        }
                    }
                }
            }
            q = q + 1;
        }
        let mut found: Vec<Vec<PiiMatch>> = Vec::new();
        let mut i: usize = 0;
        while i < results.len()
            invariant
                i <= results.len(),
                found.len() == i,
                forall|k: int|
                    0 <= k < i ==> (#[trigger] found@[k])@ == match results@[k] {
                        Some(m) => m@,
                        None => Seq::<PiiMatch>::empty(),
                    },
            decreases results.len() - i,
        {
            match &results[i] {
                Some(m) => found.push(copy_matches(m)),
                None => found.push(Vec::new()),
            }
            i = i + 1;
        }
        proof {
            assert(views(Seq::<PiiMatch>::empty()) =~= Seq::<MatchView>::empty());
            assert forall|i: int| 0 <= i < texts.len() implies views(#[trigger] found@[i]@) == ner_found(
                cache0,
                texts@,
                outcomes@,
                enabled,
                i,
            ) by {
                if lookup_result(cache0, texts@[i]) is None {
                    lemma_pending_rank(cache0, texts@, i);
                    let q = pending_indices(cache0, texts@, i as nat).len() as int;
                    assert(pending@[q] == i);
                }
            }
        }
        found
    }

    /// Detection over several texts at once: the expression matches of every
    /// text and, when a type needs the model and the model is available, the
    /// model's matches for texts of at least 3 bytes, all merged, sorted by
    /// start and freed of overlaps. Cached texts use their cached matches; the
    /// other such texts (those `ner_pending` lists) go to the model in one
    /// batch, whose answer is `outcome` (`None` when the model failed). Each
    /// answer is cached while the cache holds fewer texts than its capacity.
    pub fn detect(
        &mut self,
        texts: &Vec<&str>,
        ner_available: bool,
        outcome: Option<Vec<Vec<NerEntity>>>,
    ) -> (found: Vec<PiiMatch>)
        requires
            old(self).wf(),
            outcome matches Some(answers) ==> answers.len() <= pending_indices(
                old(self).cache(),
                texts@,
                texts.len() as nat,
            ).len(),
        ensures
            final(self).wf(),
            final(self).enabled() == old(self).enabled(),
            views(found@) == without_overlaps(
                sorted_by_start(
                    detect_candidates(
                        old(self).enabled(),
                        old(self).cache(),
                        texts@,
                        any_ner_type(old(self).enabled()) && ner_available,
                        outcome,
                    ),
                ),
            ),
            final(self).cache() == if any_ner_type(old(self).enabled()) && ner_available {
                match outcome {
                    Some(answers) => cache_after_batch(
                        old(self).cache(),
                        texts@,
                        pending_indices(old(self).cache(), texts@, texts.len() as nat),
                        answers@,
                        old(self).enabled(),
                        answers.len() as nat,
                    ),
                    None => old(self).cache(),
                }
            } else {
                old(self).cache()
            },
    {
        let ghost enabled = self.enabled();
        let ghost cache0 = self.cache();
        let raw = scan_each(&self.enabled_types, texts);
        let mut all: Vec<PiiMatch> = Vec::new();
        let mut i: usize = 0;
        while i < raw.len()
            invariant
                i <= raw.len() == texts.len(),
                forall|k: int| 0 <= k < texts.len() ==> views(#[trigger] raw@[k]@) == regex_scan(enabled, texts@[k]@),
                views(all@) == concat_all(Seq::new(i as nat, |k: int| regex_scan(enabled, texts@[k]@))),
            decreases raw.len() - i,
        {
            let ghost before = all@;
            let mut piece = copy_matches(&raw[i]);
            all.append(&mut piece);
            proof {
                assert(Seq::new((i + 1) as nat, |k: int| regex_scan(enabled, texts@[k]@)).drop_last()
                    =~= Seq::new(i as nat, |k: int| regex_scan(enabled, texts@[k]@)));
                assert(views(all@) =~= views(before) + views(raw@[i as int]@));
            }
            i = i + 1;
        }
        proof {
            assert(Seq::new(texts.len() as nat, |k: int| regex_scan(enabled, texts@[k]@)) =~= Seq::new(
                texts@.len(),
                |k: int| regex_scan(enabled, texts@[k]@),
            ));
        }
        if self.uses_ner() && ner_available {
            let (results, pending) = self.lookup(texts);
            proof {
                lemma_pending_indices(cache0, texts@, texts.len() as nat);
            }
            let mut fresh: Vec<PiiMatch> = Vec::new();
            match &outcome {
                Some(answers) => {
                    let mut q: usize = 0;
                    while q < answers.len()
                        invariant
                            q <= answers.len() <= pending.len(),
                            self.wf(),
                            self.enabled() == enabled,
                            pending@ == pending_indices(cache0, texts@, texts.len() as nat),
                            forall|k: int| 0 <= k < pending.len() ==> #[trigger] pending@[k] < texts.len(),
                            views(fresh@) == concat_all(Seq::new(q as nat, |r: int| entity_matches(answers@[r]@, enabled))),
                            self.cache() == cache_after_batch(cache0, texts@, pending@, answers@, enabled, q as nat),
                        decreases answers.len() - q,
                    {
                        let found = self.entity_matches(&answers[q]);
                        proof {
                            law_cache_size_counts_texts(&self.ner_cache);
                        }
                        if self.ner_cache.len() < NER_CACHE_CAPACITY {
                            let copy = copy_matches(&found);
                            proof {
                                lemma_store_keeps_types(
                                    self.ner_cache@,
                                    enabled,
                                    texts@[pending@[q as int] as int]@,
                                    answers@[q as int]@,
                                );
                            }
                            self.ner_cache.insert(texts[pending[q]], copy);
                        }
                        let ghost before = fresh@;
                        let mut piece = found;
                        fresh.append(&mut piece);
                        proof {
                            assert(Seq::new((q + 1) as nat, |r: int| entity_matches(answers@[r]@, enabled)).drop_last()
                                =~= Seq::new(q as nat, |r: int| entity_matches(answers@[r]@, enabled)));
                            assert(views(fresh@) =~= views(before) + entity_matches(answers@[q as int]@, enabled));
                        }
                        q = q + 1;
                    }
                    proof {
                        assert(Seq::new(answers.len() as nat, |r: int| entity_matches(answers@[r]@, enabled)) =~= Seq::new(
                            answers@.len(),
                            |r: int| entity_matches(answers@[r]@, enabled),
                        ));
                    }
                },
                None => {},
            }
            let ghost before_fresh = views(all@);
            let ghost fresh_v = views(fresh@);
            proof {
                let by_model = match outcome {
                    Some(answers) => concat_all(
                        Seq::new(answers@.len(), |q: int| entity_matches(answers@[q]@, enabled)),
                    ),
                    None => seq![],
                };
                assert(fresh_v == by_model);
            }
            all.append(&mut fresh);
            let mut cached: Vec<PiiMatch> = Vec::new();
            let mut k: usize = 0;
            while k < results.len()
                invariant
                    k <= results.len() == texts.len(),
                    forall|i: int|
                        0 <= i < texts.len() ==> match (#[trigger] results@[i], lookup_result(cache0, texts@[i])) {
                            (Some(m), Some(r)) => views(m@) == r,
                            (None, None) => true,
                            _ => false,
                        },
                    views(cached@) == concat_all(Seq::new(k as nat, |i: int| match lookup_result(cache0, texts@[i]) {
                        Some(m) => m,
                        None => seq![],
                    })),
                decreases results.len() - k,
            {
                let ghost before = cached@;
                match &results[k] {
                    Some(m) => {
                        let mut piece = copy_matches(m);
                        cached.append(&mut piece);
                    },
                    None => {},
                }
                proof {
                    let f = |i: int| match lookup_result(cache0, texts@[i]) {
                        Some(m) => m,
                        None => seq![],
                    };
                    assert(Seq::new((k + 1) as nat, f).drop_last() =~= Seq::new(k as nat, f));
                    assert(views(cached@) =~= views(before) + f(k as int));
                }
                k = k + 1;
            }
            proof {
                let f = |i: int| match lookup_result(cache0, texts@[i]) {
                    Some(m) => m,
                    None => seq![],
                };
                assert(Seq::new(texts.len() as nat, f) =~= Seq::new(texts@.len(), f));
            }
            let ghost cached_v = views(cached@);
            let ghost mid = views(all@);
            all.append(&mut cached);
            proof {
                assert(mid =~= before_fresh + fresh_v);
                assert(views(all@) =~= mid + cached_v);
            }
        }
        let sorted = crate::pii::sort_by_start(&all);
        remove_overlaps(&sorted)
    }
}

/// Every match of every list may be reported.
pub open spec fn lists_detectable(lists: Seq<Seq<MatchView>>, enabled: Seq<PiiType>) -> bool {
    forall|i: int, j: int|
        #![trigger lists[i][j]]
        0 <= i < lists.len() && 0 <= j < lists[i].len() ==> is_detectable(enabled, lists[i][j])
}

proof fn lemma_concat_detectable(lists: Seq<Seq<MatchView>>, enabled: Seq<PiiType>)
    requires
        lists_detectable(lists, enabled),
    ensures
        forall|k: int| 0 <= k < concat_all(lists).len() ==> is_detectable(enabled, #[trigger] concat_all(lists)[k]),
    decreases lists.len(),
{
    if lists.len() > 0 {
        let front = lists.drop_last();
        assert forall|i: int, j: int| 0 <= i < front.len() && 0 <= j < front[i].len() implies is_detectable(
            enabled,
            #[trigger] front[i][j],
        ) by {
            assert(front[i] == lists[i]);
        }
        lemma_concat_detectable(front, enabled);
        let head = concat_all(front);
        let last = lists.last();
        let all = concat_all(lists);
        assert forall|k: int| 0 <= k < all.len() implies is_detectable(enabled, #[trigger] all[k]) by {
            if k < head.len() {
                assert(all[k] == head[k]);
            } else {
                assert(all[k] == last[k - head.len()]);
                assert(lists[lists.len() - 1] == last);
                assert(is_detectable(enabled, lists[lists.len() - 1][k - head.len()]));
            }
        }
    }
}

/// The cache of a well-formed detector holds at most `NER_CACHE_CAPACITY`
/// texts.
pub proof fn law_cache_bounded(detector: &PiiDetector)
    requires
        detector.wf(),
    ensures
        detector.cache().dom().finite(),
        detector.cache().dom().len() <= NER_CACHE_CAPACITY,
{
    law_cache_size_counts_texts(&detector.ner_cache);
}

/// Detection reports matches in order, no two overlapping, each of an
/// enabled type: those the expressions find, which pass their type's check
/// (the Luhn check for card numbers, the SSN rules), and names, addresses and
/// organizations from the model's answers or the cache.
pub proof fn law_detection_reports_enabled_types(
    detector: &PiiDetector,
    texts: Seq<&str>,
    use_model: bool,
    outcome: Option<Vec<Vec<NerEntity>>>,
)
    requires
        detector.wf(),
    ensures
        ({
            let found = without_overlaps(
                sorted_by_start(detect_candidates(detector.enabled(), detector.cache(), texts, use_model, outcome)),
            );
            &&& is_overlap_free(found)
            &&& forall|k: int| 0 <= k < found.len() ==> is_detectable(detector.enabled(), #[trigger] found[k])
        }),
{
    broadcast use vstd::seq_lib::group_to_multiset_ensures;

    let enabled = detector.enabled();
    let cache = detector.cache();
    let regex_lists = Seq::new(texts.len(), |i: int| regex_scan(enabled, texts[i]@));
    assert forall|i: int, j: int| 0 <= i < regex_lists.len() && 0 <= j < regex_lists[i].len() implies is_detectable(
        enabled,
        #[trigger] regex_lists[i][j],
    ) by {
        assert(enabled.take(enabled.len() as int) =~= enabled);
        lemma_scan_reportable(enabled, enabled.len() as int, texts[i]@);
        assert(regex_scan(enabled.take(enabled.len() as int), texts[i]@)[j] == regex_lists[i][j]);
    }
    lemma_concat_detectable(regex_lists, enabled);
    let by_regex = concat_all(regex_lists);
    let candidates = detect_candidates(enabled, cache, texts, use_model, outcome);
    assert forall|k: int| 0 <= k < candidates.len() implies is_detectable(enabled, #[trigger] candidates[k]) by {
        if use_model {
            let model_lists = match outcome {
                Some(answers) => Seq::new(answers@.len(), |q: int| entity_matches(answers@[q]@, enabled)),
                None => Seq::<Seq<MatchView>>::empty(),
            };
            assert forall|i: int, j: int|
                0 <= i < model_lists.len() && 0 <= j < model_lists[i].len() implies is_detectable(
                enabled,
                #[trigger] model_lists[i][j],
            ) by {
                if let Some(answers) = outcome {
                    lemma_entity_matches_enabled(answers@[i]@, enabled);
                }
            }
            lemma_concat_detectable(model_lists, enabled);
            let by_model = match outcome {
                Some(answers) => concat_all(Seq::new(answers@.len(), |q: int| entity_matches(answers@[q]@, enabled))),
                None => seq![],
            };
            assert(by_model == concat_all(model_lists));
            let cached_lists = Seq::new(
                texts.len(),
                |i: int|
                    match lookup_result(cache, texts[i]) {
                        Some(m) => m,
                        None => seq![],
                    },
            );
            assert forall|i: int, j: int|
                0 <= i < cached_lists.len() && 0 <= j < cached_lists[i].len() implies is_detectable(
                enabled,
                #[trigger] cached_lists[i][j],
            ) by {
                assert(cache_holds_model_matches(cache, enabled));
                if texts[i].spec_bytes().len() >= 3 && cache.contains_key(texts[i]@) {
                    assert(cached_lists[i][j] == cache[texts[i]@][j]);
                }
            }
            lemma_concat_detectable(cached_lists, enabled);
            let cached = concat_all(cached_lists);
            let first = by_regex + by_model;
            if k < first.len() {
                if k < by_regex.len() {
                    assert(candidates[k] == by_regex[k]);
                } else {
                    assert(candidates[k] == by_model[k - by_regex.len()]);
                }
            } else {
                assert(candidates[k] == cached[k - first.len()]);
            }
        } else {
            assert(candidates[k] == by_regex[k]);
        }
    }
    let sorted = sorted_by_start(candidates);
    law_sort_orders_and_permutes(candidates);
    law_overlap_removal_is_overlap_free(sorted);
    let found = without_overlaps(sorted);
    assert forall|k: int| 0 <= k < found.len() implies is_detectable(enabled, #[trigger] found[k]) by {
        let m = found[k];
        assert(sorted.contains(m));
        assert(sorted.to_multiset().count(m) > 0);
        assert(candidates.to_multiset().count(m) > 0);
        let j = choose|j: int| 0 <= j < candidates.len() && candidates[j] == m;
        assert(is_detectable(enabled, candidates[j]));
    }
}

/// Model detection reports for each text only names, addresses and
/// organizations, each of an enabled type: from the cache or from the
/// model's answers.
pub proof fn law_model_detection_reports_model_types(
    detector: &PiiDetector,
    texts: Seq<&str>,
    outcomes: Seq<Option<Vec<Vec<NerEntity>>>>,
    i: int,
)
    requires
        detector.wf(),
        0 <= i < texts.len(),
    ensures
        forall|k: int|
            0 <= k < ner_found(detector.cache(), texts, outcomes, detector.enabled(), i).len() ==> {
                let m = #[trigger] ner_found(detector.cache(), texts, outcomes, detector.enabled(), i)[k];
                detector.enabled().contains(m.pii_type) && is_ner_type(m.pii_type)
            },
{
    let cache = detector.cache();
    let enabled = detector.enabled();
    let found = ner_found(cache, texts, outcomes, enabled, i);
    assert(cache_holds_model_matches(cache, enabled));
    match lookup_result(cache, texts[i]) {
        Some(m) => {
            assert forall|k: int| 0 <= k < found.len() implies enabled.contains(#[trigger] found[k].pii_type)
                && is_ner_type(found[k].pii_type) by {
                assert(cache.contains_key(texts[i]@) && found[k] == cache[texts[i]@][k]);
            }
        },
        None => {
            let q = pending_indices(cache, texts, i as nat).len() as int;
            if let Some(m) = batch_answer(outcomes, q, enabled) {
                let b = q / NER_BATCH_SIZE as int;
                let l = q % NER_BATCH_SIZE as int;
                lemma_entity_matches_enabled(outcomes[b]->0@[l]@, enabled);
            }
        },
    }
}

/// Storing answers adds at most one text per answer.
proof fn lemma_cache_after_size(
    cache: Map<Seq<char>, Seq<MatchView>>,
    texts: Seq<&str>,
    pending: Seq<usize>,
    outcomes: Seq<Option<Vec<Vec<NerEntity>>>>,
    enabled: Seq<PiiType>,
    q: nat,
)
    requires
        cache.dom().finite(),
    ensures
        cache_after(cache, texts, pending, outcomes, enabled, q).dom().finite(),
        cache_after(cache, texts, pending, outcomes, enabled, q).dom().len() <= cache.dom().len() + q,
    decreases q,
{
    if q > 0 {
        lemma_cache_after_size(cache, texts, pending, outcomes, enabled, (q - 1) as nat);
    }
}

/// With room for every answer and every answer given, the cache after `q`
/// answers keeps what it held and holds the answer for each of the first `q`
/// pending texts (equal texts being answered alike).
proof fn lemma_cache_after_holds_answers(
    cache: Map<Seq<char>, Seq<MatchView>>,
    texts: Seq<&str>,
    outcomes: Seq<Option<Vec<Vec<NerEntity>>>>,
    enabled: Seq<PiiType>,
    q: nat,
)
    requires
        texts.len() <= usize::MAX,
        cache.dom().finite(),
        cache.dom().len() + pending_indices(cache, texts, texts.len()).len() <= NER_CACHE_CAPACITY,
        q <= pending_indices(cache, texts, texts.len()).len(),
        forall|r: int|
            0 <= r < pending_indices(cache, texts, texts.len()).len() ==> #[trigger] batch_answer(
                outcomes,
                r,
                enabled,
            ) is Some,
        forall|r1: int, r2: int|
            0 <= r1 < pending_indices(cache, texts, texts.len()).len() && 0 <= r2 < pending_indices(
                cache,
                texts,
                texts.len(),
            ).len() && texts[pending_indices(cache, texts, texts.len())[r1] as int]@ == texts[pending_indices(
                cache,
                texts,
                texts.len(),
            )[r2] as int]@ ==> #[trigger] batch_answer(outcomes, r1, enabled) == #[trigger] batch_answer(
                outcomes,
                r2,
                enabled,
            ),
    ensures
        ({
            let pending = pending_indices(cache, texts, texts.len());
            let c = cache_after(cache, texts, pending, outcomes, enabled, q);
            &&& forall|k: Seq<char>| #[trigger] cache.contains_key(k) ==> c.contains_key(k) && c[k] == cache[k]
            &&& forall|r: int|
                0 <= r < q ==> c.contains_key(#[trigger] texts[pending[r] as int]@) && c[texts[pending[r] as int]@]
                    == batch_answer(outcomes, r, enabled)->0
        }),
    decreases q,
{
    let pending = pending_indices(cache, texts, texts.len());
    lemma_pending_indices(cache, texts, texts.len());
    if q > 0 {
        lemma_cache_after_holds_answers(cache, texts, outcomes, enabled, (q - 1) as nat);
        lemma_cache_after_size(cache, texts, pending, outcomes, enabled, (q - 1) as nat);
        let before = cache_after(cache, texts, pending, outcomes, enabled, (q - 1) as nat);
        let c = cache_after(cache, texts, pending, outcomes, enabled, q);
        let key = texts[pending[q - 1] as int]@;
        assert(batch_answer(outcomes, q - 1, enabled) is Some);
        assert(c == before.insert(key, batch_answer(outcomes, q - 1, enabled)->0));
        assert(lookup_result(cache, texts[pending[q - 1] as int]) is None);
        assert forall|k: Seq<char>| #[trigger] cache.contains_key(k) implies c.contains_key(k) && c[k] == cache[k] by {
            assert(k != key);
        }
        assert forall|r: int| 0 <= r < q implies c.contains_key(#[trigger] texts[pending[r] as int]@)
            && c[texts[pending[r] as int]@] == batch_answer(outcomes, r, enabled)->0 by {
            if r < q - 1 && texts[pending[r] as int]@ != key {
                assert(before.contains_key(texts[pending[r] as int]@));
            } else if r < q - 1 {
                assert(batch_answer(outcomes, r, enabled) == batch_answer(outcomes, q - 1, enabled));
            }
        }
    }
}

/// No text needs the model when every lookup answers.
proof fn lemma_nothing_pending(cache: Map<Seq<char>, Seq<MatchView>>, texts: Seq<&str>, n: nat)
    requires
        n <= texts.len(),
        forall|i: int| 0 <= i < n ==> #[trigger] lookup_result(cache, texts[i]) is Some,
    ensures
        pending_indices(cache, texts, n).len() == 0,
    decreases n,
{
    if n > 0 {
        lemma_nothing_pending(cache, texts, (n - 1) as nat);
        assert(lookup_result(cache, texts[n - 1]) is Some);
    }
}

/// The texts model detection asks the model about are at least 3 bytes long
/// and not cached. Once the model answered every one of them, with room in
/// the cache for all the answers and equal texts answered alike, a second
/// model detection on the same texts needs no model and reports what the
/// first did, whatever the model would answer then.
pub proof fn law_second_model_detection_needs_no_model(
    detector: &PiiDetector,
    texts: Seq<&str>,
    outcomes: Seq<Option<Vec<Vec<NerEntity>>>>,
    later_outcomes: Seq<Option<Vec<Vec<NerEntity>>>>,
)
    requires
        detector.wf(),
        texts.len() <= usize::MAX,
        detector.cache().dom().len() + pending_indices(detector.cache(), texts, texts.len()).len()
            <= NER_CACHE_CAPACITY,
        forall|r: int|
            0 <= r < pending_indices(detector.cache(), texts, texts.len()).len() ==> #[trigger] batch_answer(
                outcomes,
                r,
                detector.enabled(),
            ) is Some,
        forall|r1: int, r2: int|
            0 <= r1 < pending_indices(detector.cache(), texts, texts.len()).len() && 0 <= r2 < pending_indices(
                detector.cache(),
                texts,
                texts.len(),
            ).len() && texts[pending_indices(detector.cache(), texts, texts.len())[r1] as int]@
                == texts[pending_indices(detector.cache(), texts, texts.len())[r2] as int]@
                ==> #[trigger] batch_answer(outcomes, r1, detector.enabled()) == #[trigger] batch_answer(
                outcomes,
                r2,
                detector.enabled(),
            ),
    ensures
        ({
            let cache = detector.cache();
            let enabled = detector.enabled();
            let pending = pending_indices(cache, texts, texts.len());
            let after = cache_after(cache, texts, pending, outcomes, enabled, pending.len());
            &&& forall|q: int|
                0 <= q < pending.len() ==> (#[trigger] texts[pending[q] as int]).spec_bytes().len() >= 3
                    && !cache.contains_key(texts[pending[q] as int]@)
            &&& pending_indices(after, texts, texts.len()).len() == 0
            &&& forall|i: int|
                0 <= i < texts.len() ==> #[trigger] ner_found(after, texts, later_outcomes, enabled, i) == ner_found(
                    cache,
                    texts,
                    outcomes,
                    enabled,
                    i,
                )
        }),
{
    let cache = detector.cache();
    let enabled = detector.enabled();
    law_cache_bounded(detector);
    let pending = pending_indices(cache, texts, texts.len());
    lemma_pending_indices(cache, texts, texts.len());
    assert forall|q: int| 0 <= q < pending.len() implies (#[trigger] texts[pending[q] as int]).spec_bytes().len() >= 3
        && !cache.contains_key(texts[pending[q] as int]@) by {
        assert(lookup_result(cache, texts[pending[q] as int]) is None);
    }
    lemma_cache_after_holds_answers(cache, texts, outcomes, enabled, pending.len());
    let after = cache_after(cache, texts, pending, outcomes, enabled, pending.len());
    assert forall|i: int| 0 <= i < texts.len() implies #[trigger] lookup_result(after, texts[i]) == Some(
        ner_found(cache, texts, outcomes, enabled, i),
    ) by {
        if lookup_result(cache, texts[i]) is Some {
            if texts[i].spec_bytes().len() >= 3 {
                assert(cache.contains_key(texts[i]@));
            }
        } else {
            lemma_pending_rank(cache, texts, i);
            let r = pending_indices(cache, texts, i as nat).len() as int;
            assert(pending[r] == i);
            assert(after.contains_key(texts[pending[r] as int]@));
        }
    }
    lemma_nothing_pending(after, texts, texts.len());
}

/// What model detection reports for one more entity: a confident person
/// (confidence at least the threshold) is a name, a confident location a
/// street address and a confident organization an organization, each with
/// the entity's text and offsets, when that type is enabled; anything else
/// (a miscellaneous entity, a type not enabled, too little confidence) adds
/// nothing.
pub proof fn law_model_entities_map_to_types(entities: Seq<NerEntity>, e: NerEntity, enabled: Seq<PiiType>)
    ensures
        ({
            let before = entity_matches(entities, enabled);
            let after = entity_matches(entities.push(e), enabled);
            let confident = e.confidence >= NER_CONFIDENCE_THRESHOLD;
            let m = |t: PiiType| MatchView { pii_type: t, value: e.text@, start: e.start, end: e.end };
            &&& e.entity_type == NerEntityType::Person && confident && enabled.contains(PiiType::Name) ==> after
                == before.push(m(PiiType::Name))
            &&& e.entity_type == NerEntityType::Location && confident && enabled.contains(PiiType::Address) ==> after
                == before.push(m(PiiType::Address))
            &&& e.entity_type == NerEntityType::Organization && confident && enabled.contains(PiiType::Organization)
                ==> after == before.push(m(PiiType::Organization))
            &&& (e.entity_type == NerEntityType::Misc || !confident) ==> after == before
            &&& e.entity_type == NerEntityType::Person && !enabled.contains(PiiType::Name) ==> after == before
            &&& e.entity_type == NerEntityType::Location && !enabled.contains(PiiType::Address) ==> after == before
            &&& e.entity_type == NerEntityType::Organization && !enabled.contains(PiiType::Organization) ==> after
                == before
        }),
{
    assert(entities.push(e).drop_last() =~= entities);
    assert(entities.push(e).last() == e);
}

} // verus!
