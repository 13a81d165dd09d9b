use vstd::prelude::*;
use crate::pii::{views, MatchView, PiiMatch};
use crate::text::str_eq;

verus! {

/// How many texts the cache of model results holds at most.
pub const NER_CACHE_CAPACITY: usize = 50000;

/// Copies a list of matches.
pub fn copy_matches(v: &Vec<PiiMatch>) -> (copy: Vec<PiiMatch>)
    ensures
        copy@ == v@,
{
    let mut copy: Vec<PiiMatch> = Vec::new();
    let mut i: usize = 0;
    while i < v.len()
        invariant
            i <= v.len(),
            copy@ == v@.take(i as int),
        decreases v.len() - i,
    {
        copy.push(v[i].clone());
        proof {
            assert(v@.take(i + 1) =~= v@.take(i as int).push(v@[i as int]));
        }
        i = i + 1;
    }
    proof {
        assert(v@.take(v.len() as int) =~= v@);
    }
    copy
}

/// The text-to-matches map that a list of entries stands for.
pub open spec fn entries_map(s: Seq<(String, Vec<PiiMatch>)>) -> Map<Seq<char>, Seq<MatchView>>
    decreases s.len(),
{
    if s.len() == 0 {
        Map::empty()
    } else {
        entries_map(s.drop_last()).insert(s.last().0@, views(s.last().1@))
    }
}

pub open spec fn keys_unique(s: Seq<(String, Vec<PiiMatch>)>) -> bool {
    forall|i: int, j: int| 0 <= i < s.len() && 0 <= j < s.len() && i != j ==> s[i].0@ != s[j].0@
}

proof fn lemma_entries_map(s: Seq<(String, Vec<PiiMatch>)>)
    requires
        keys_unique(s),
    ensures
        entries_map(s).dom().finite(),
        entries_map(s).dom().len() == s.len(),
        forall|i: int|
            0 <= i < s.len() ==> #[trigger] entries_map(s).contains_key(s[i].0@) && entries_map(
                s,
            )[s[i].0@] == views(s[i].1@),
        forall|k: Seq<char>|
            #[trigger] entries_map(s).contains_key(k) ==> exists|i: int|
                0 <= i < s.len() && s[i].0@ == k,
    decreases s.len(),
{
    if s.len() > 0 {
        let t = s.drop_last();
        assert(keys_unique(t));
        lemma_entries_map(t);
        assert(!entries_map(t).contains_key(s.last().0@)) by {
            if entries_map(t).contains_key(s.last().0@) {
                let i = choose|i: int| 0 <= i < t.len() && t[i].0@ == s.last().0@;
                assert(s[i].0@ == s[s.len() - 1].0@);
            }
        }
        assert forall|k: Seq<char>| #[trigger] entries_map(s).contains_key(k) implies exists|i: int|
            0 <= i < s.len() && s[i].0@ == k by {
            if k != s.last().0@ {
                let i = choose|i: int| 0 <= i < t.len() && t[i].0@ == k;
                assert(s[i].0@ == k);
            } else {
                assert(s[s.len() - 1].0@ == k);
            }
        }
        assert forall|i: int| 0 <= i < s.len() implies #[trigger] entries_map(s).contains_key(
            s[i].0@,
        ) && entries_map(s)[s[i].0@] == views(s[i].1@) by {
            if i < s.len() - 1 {
                assert(t[i] == s[i]);
            }
        }
    }
}

/// Results of the named-entity model, kept per text so that a text is not
/// run through the model twice.
pub struct NerCache {
    entries: Vec<(String, Vec<PiiMatch>)>,
}

impl View for NerCache {
    type V = Map<Seq<char>, Seq<MatchView>>;

    closed spec fn view(&self) -> Map<Seq<char>, Seq<MatchView>> {
        entries_map(self.entries@)
    }
}

impl NerCache {
    /// Each text is held once.
    pub closed spec fn wf(&self) -> bool {
        keys_unique(self.entries@)
    }

    /// The number of texts held.
    pub closed spec fn size(&self) -> nat {
        self.entries@.len()
    }

    pub fn new() -> (cache: Self)
        ensures
            cache.wf(),
            cache@ == Map::<Seq<char>, Seq<MatchView>>::empty(),
            cache.size() == 0,
    {
        NerCache { entries: Vec::new() }
    }

    pub fn len(&self) -> (n: usize)
        ensures
            n == self.size(),
    {
        self.entries.len()
    }

    /// The position of the entry for `text`, if any.
    fn position(&self, text: &str) -> (pos: Option<usize>)
        requires
            self.wf(),
        ensures
            pos matches Some(i) ==> i < self.entries.len() && self.entries@[i as int].0@ == text@,
            pos is None ==> forall|k: int| 0 <= k < self.entries.len() ==> self.entries@[k].0@ != text@,
    {
        let mut i: usize = 0;
        while i < self.entries.len()
            invariant
                i <= self.entries.len(),
                forall|k: int| 0 <= k < i ==> self.entries@[k].0@ != text@,
            decreases self.entries.len() - i,
        {
            if str_eq(self.entries[i].0.as_str(), text) {
                return Some(i);
            }
            i = i + 1;
        }
        None
    }

    /// The matches held for `text`, if any.
    pub fn get(&self, text: &str) -> (found: Option<Vec<PiiMatch>>)
        requires
            self.wf(),
        ensures
            found is Some <==> self@.contains_key(text@),
            found matches Some(m) ==> views(m@) == self@[text@],
    {
        proof {
            lemma_entries_map(self.entries@);
        }
        match self.position(text) {
            Some(i) => {
                proof {
                    assert(entries_map(self.entries@).contains_key(self.entries@[i as int].0@));
                }
                Some(copy_matches(&self.entries[i].1))
            },
            None => {
                proof {
                    if self@.contains_key(text@) {
                        let j = choose|j: int| 0 <= j < self.entries@.len() && self.entries@[j].0@ == text@;
                    }
                }
                None
            },
        }
    }

    /// Holds `matches` for `text`, replacing what was held for it.
    pub fn insert(&mut self, text: &str, matches: Vec<PiiMatch>)
        requires
            old(self).wf(),
        ensures
            final(self).wf(),
            final(self)@ == old(self)@.insert(text@, views(matches@)),
            final(self).size() == if old(self)@.contains_key(text@) {
                old(self).size()
            } else {
                old(self).size() + 1
            },
    {
        let ghost old_entries = self.entries@;
        proof {
            lemma_entries_map(old_entries);
        }
        let ghost written = views(matches@);
        match self.position(text) {
            Some(i) => {
                self.entries.set(i, (text.to_owned(), matches));
                proof {
                    let s = self.entries@;
                    assert(s =~= old_entries.update(i as int, (s[i as int].0, s[i as int].1)));
                    assert(keys_unique(s));
                    lemma_entries_map(s);
                    let target = entries_map(old_entries).insert(text@, written);
                    assert forall|k: Seq<char>| #[trigger] entries_map(s).contains_key(k) implies target.contains_key(k) by {
                        let j = choose|j: int| 0 <= j < s.len() && s[j].0@ == k;
                        if j != i {
                            assert(old_entries[j] == s[j]);
                        }
                    }
                    assert forall|k: Seq<char>| #[trigger] target.contains_key(k) implies entries_map(s).contains_key(k) && entries_map(s)[k] == target[k] by {
                        if k != text@ {
                            let j = choose|j: int| 0 <= j < old_entries.len() && old_entries[j].0@ == k;
                            assert(old_entries[j] == s[j]);
                            assert(entries_map(s).contains_key(s[j].0@));
                            assert(entries_map(old_entries).contains_key(old_entries[j].0@));
                        } else {
                            assert(entries_map(s).contains_key(s[i as int].0@));
                        }
                    }
                    assert(entries_map(s) =~= target);
                    assert(entries_map(old_entries).contains_key(old_entries[i as int].0@));
                }
            },
            None => {
                self.entries.push((text.to_owned(), matches));
                proof {
                    assert(self.entries@.drop_last() =~= old_entries);
                    assert(!entries_map(old_entries).contains_key(text@)) by {
                        if entries_map(old_entries).contains_key(text@) {
                            let j = choose|j: int| 0 <= j < old_entries.len() && old_entries[j].0@ == text@;
                        }
                    }
                }
            },
        }
    }
}

/// The count of held texts is the size of the map's domain.
pub proof fn law_cache_size_counts_texts(cache: &NerCache)
    requires
        cache.wf(),
    ensures
        cache@.dom().finite(),
        cache@.dom().len() == cache.size(),
{
    lemma_entries_map(cache.entries@);
}

/// Reading the cache gives back what was last written for a text, and
/// writing one text leaves what is held for others unchanged.
pub proof fn law_cache_read_after_write(
    before: Map<Seq<char>, Seq<MatchView>>,
    text: Seq<char>,
    other: Seq<char>,
    written: Seq<MatchView>,
)
    requires
        other != text,
    ensures
        before.insert(text, written).contains_key(text),
        before.insert(text, written)[text] == written,
        before.insert(text, written).contains_key(other) == before.contains_key(other),
        before.contains_key(other) ==> before.insert(text, written)[other] == before[other],
{
}

} // verus!
