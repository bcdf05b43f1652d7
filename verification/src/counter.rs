use vstd::hash_map::StringHashMap;
use vstd::prelude::*;

verus! {

/// A frequency tally over terms: every term counted so far is mapped to the
/// number of times it was counted.
pub struct Counter {
    counts: StringHashMap<usize>,
}

impl View for Counter {
    type V = Map<Seq<char>, usize>;

    closed spec fn view(&self) -> Map<Seq<char>, usize> {
        self.counts@
    }
}

impl Counter {
    /// Every term that has an entry was counted at least once.
    pub open spec fn wf(&self) -> bool {
        forall|term: Seq<char>| #[trigger] self@.contains_key(term) ==> self@[term] >= 1
    }

    /// How often `term` was counted; zero for a term that has no entry.
    pub open spec fn count(&self, term: Seq<char>) -> nat {
        if self@.contains_key(term) {
            self@[term] as nat
        } else {
            0
        }
    }

    /// A well-formed tally is determined by its counts: two that count
    /// every term alike hold the same entries.
    pub proof fn lemma_same_counts_same_tally(a: Counter, b: Counter)
        requires
            a.wf(),
            b.wf(),
            forall|term: Seq<char>| a.count(term) == b.count(term),
        ensures
            a@ == b@,
    {
        assert forall|term: Seq<char>| a@.contains_key(term) == b@.contains_key(term) by {
            assert(a.count(term) == b.count(term));
        }
        assert forall|term: Seq<char>| a@.contains_key(term) implies a@[term] == b@[term] by {
            assert(a.count(term) == b.count(term));
        }
    }

    /// An empty tally.
    pub fn new() -> (counter: Counter)
        ensures
            counter@ == Map::<Seq<char>, usize>::empty(),
            counter.wf(),
    {
        Counter { counts: StringHashMap::new() }
    }

    /// Counts `item` once more: a term without an entry gets the count 1, any
    /// other term has its count raised by one. No other entry changes.
    pub fn increment(&mut self, item: String)
        requires
            old(self).count(item@) < usize::MAX,
        ensures
            final(self)@ == old(self)@.insert(item@, (old(self).count(item@) + 1) as usize),
            old(self).wf() ==> final(self).wf(),
    {
        let seen: usize = match self.counts.get(item.as_str()) {
            Some(n) => *n,
            None => 0,
        };
        self.counts.insert(item, seen + 1);
    }

    /// The tally itself, for reading.
    pub fn get_counts(&self) -> (counts: &StringHashMap<usize>)
        ensures
            counts@ == self@,
    {
        &self.counts
    }

    /// The count of `term`, zero when it has no entry.
    pub fn get(&self, term: &str) -> (n: usize)
        ensures
            n == self.count(term@),
    {
        match self.counts.get(term) {
            Some(n) => *n,
            None => 0,
        }
    }
}

} // verus!
