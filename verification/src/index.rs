use crate::corpus::{
    average_length, count_terms, document_frequencies, document_frequency,
    lemma_document_frequency_positive, lemma_document_frequency_update,
    lemma_term_frequency_positive, lemma_term_frequency_push, lemma_total_length_push,
    term_frequency, total_length, Corpus, Term,
};
use crate::counter::Counter;
use crate::error::ConfigurationError;
use crate::rank::{is_ranking, rank_documents};
use crate::score::Score;
use vstd::prelude::*;

verus! {

/// The argument of the logarithm in a term's inverse document frequency,
/// as an exact fraction: with N documents of which df hold the term it is
/// (N - df + 1/2) / (df + 1/2), with both sides doubled to whole numbers.
#[derive(Clone, Copy, Debug, PartialEq, Eq, Structural)]
pub struct IdfRatio {
    /// 2 (N - df) + 1.
    pub numerator: u128,
    /// 2 df + 1.
    pub denominator: u128,
}

/// What one occurrence of a query term contributes to a document's score:
/// the numbers that the BM25 term formula reads besides the document's
/// length and the corpus average.
#[derive(Clone, Copy, Debug, PartialEq, Eq, Structural)]
pub struct TermMatch {
    /// How often the document holds the term; at least 1.
    pub term_frequency: usize,
    /// The term's inverse document frequency, before the logarithm.
    pub idf: IdfRatio,
}

/// The inverse document frequency of `term` in `corpus`, before the
/// logarithm. A term that no document holds has none: it weighs nothing.
pub open spec fn idf_ratio(corpus: Corpus, term: Term) -> Option<IdfRatio> {
    let df = document_frequency(corpus, term);
    if df == 0 {
        None
    } else {
        Some(
            IdfRatio {
                numerator: (2 * (corpus.len() - df) + 1) as u128,
                denominator: (2 * df + 1) as u128,
            },
        )
    }
}

/// What `term` contributes to the score of document `doc_index`: nothing
/// when the document does not hold it (or does not exist), else its
/// frequency there and its inverse document frequency.
pub open spec fn term_match(corpus: Corpus, term: Term, doc_index: int) -> Option<TermMatch> {
    if 0 <= doc_index < corpus.len() && term_frequency(corpus[doc_index], term) > 0 {
        Some(
            TermMatch {
                term_frequency: term_frequency(corpus[doc_index], term) as usize,
                idf: idf_ratio(corpus, term).unwrap(),
            },
        )
    } else {
        None
    }
}

/// A BM25 index over a borrowed corpus: the per-document lengths, the
/// average length, one term-frequency table per document and the
/// document-frequency table of the whole corpus, all computed once.
pub struct BM25<'a> {
    corpus: &'a Vec<Vec<String>>,
    doc_lengths: Vec<usize>,
    avg_doc_length: usize,
    doc_count: usize,
    tf_cache: Vec<Counter>,
    doc_freq: Counter,
}

impl<'a> View for BM25<'a> {
    type V = Corpus;

    /// An index stands for the corpus it was built from.
    closed spec fn view(&self) -> Corpus {
        self.corpus.deep_view()
    }
}

impl<'a> BM25<'a> {
    /// The cached number of documents.
    pub closed spec fn cached_count(&self) -> usize {
        self.doc_count
    }

    /// The cached document lengths, by document index.
    pub closed spec fn cached_lengths(&self) -> Seq<usize> {
        self.doc_lengths@
    }

    /// The cached average document length.
    pub closed spec fn cached_average(&self) -> usize {
        self.avg_doc_length
    }

    /// The cached term-frequency tables, by document index.
    pub closed spec fn term_tables(&self) -> Seq<Counter> {
        self.tf_cache@
    }

    /// The cached document-frequency table.
    pub closed spec fn frequency_table(&self) -> Counter {
        self.doc_freq
    }

    /// Every cached value is the one its definition gives for the corpus.
    #[verifier::type_invariant]
    pub open spec fn wf(&self) -> bool {
        let corpus = self@;
        &&& corpus.len() >= 1
        &&& self.cached_count() == corpus.len()
        &&& self.cached_lengths().len() == corpus.len()
        &&& forall|i: int|
            0 <= i < corpus.len() ==> #[trigger] self.cached_lengths()[i] == corpus[i].len()
        &&& self.cached_average() == average_length(corpus)
        &&& self.term_tables().len() == corpus.len()
        &&& forall|i: int| 0 <= i < corpus.len() ==> (#[trigger] self.term_tables()[i]).wf()
        &&& forall|i: int, term: Term|
            0 <= i < corpus.len() ==> #[trigger] self.term_tables()[i].count(term)
                == term_frequency(corpus[i], term)
        &&& self.frequency_table().wf()
        &&& forall|term: Term| #[trigger]
            self.frequency_table().count(term) == document_frequency(corpus, term)
    }

    /// Builds the index of `corpus`. An empty corpus has no average document
    /// length and is refused; every other corpus is indexed.
    pub fn new(corpus: &'a Vec<Vec<String>>) -> (built: Result<BM25<'a>, ConfigurationError>)
        ensures
            match built {
                Ok(index) => corpus@.len() > 0 && index.wf() && index@ == corpus.deep_view(),
                Err(error) => corpus@.len() == 0 && error == ConfigurationError::EmptyCorpus,
            },
    {
        let doc_count: usize = corpus.len();
        if doc_count == 0 {
            return Err(ConfigurationError::EmptyCorpus);
        }
        let ghost docs = corpus.deep_view();
        let mut doc_lengths: Vec<usize> = Vec::new();
        let mut tf_cache: Vec<Counter> = Vec::new();
        let mut total: u128 = 0;
        let mut i: usize = 0;
        while i < doc_count
            invariant
                doc_count == corpus.len(),
                i <= doc_count,
                docs == corpus.deep_view(),
                doc_lengths@.len() == i,
                tf_cache@.len() == i,
                forall|k: int| 0 <= k < i ==> #[trigger] doc_lengths@[k] == docs[k].len(),
                forall|k: int| 0 <= k < i ==> (#[trigger] tf_cache@[k]).wf(),
                forall|k: int, term: Term|
                    0 <= k < i ==> #[trigger] tf_cache@[k].count(term) == term_frequency(
                        docs[k],
                        term,
                    ),
                total == total_length(docs.take(i as int)),
                total <= i * usize::MAX,
            decreases doc_count - i,
        {
            let doc = &corpus[i];
            let length: usize = doc.len();
            proof {
                lemma_total_length_push(docs.take(i as int), docs[i as int]);
                assert(docs.take(i + 1) =~= docs.take(i as int).push(docs[i as int]));
                assert((i + 1) * usize::MAX <= usize::MAX * usize::MAX) by (nonlinear_arith)
                    requires
                        i + 1 <= usize::MAX,
                ;
                assert(usize::MAX * usize::MAX <= u128::MAX) by (nonlinear_arith)
                    requires
                        usize::MAX <= 0xffff_ffff_ffff_ffff,
                ;
                assert(total + length <= (i + 1) * usize::MAX) by (nonlinear_arith)
                    requires
                        total <= i * usize::MAX,
                        length <= usize::MAX,
                ;
            }
            total = total + length as u128;
            doc_lengths.push(length);
            tf_cache.push(count_terms(doc));
            i += 1;
        }
        proof {
            assert(docs.take(doc_count as int) =~= docs);
            assert(total / (doc_count as u128) <= usize::MAX) by (nonlinear_arith)
                requires
                    total <= doc_count * usize::MAX,
                    doc_count > 0,
            ;
        }
        let avg_doc_length: usize = (total / doc_count as u128) as usize;
        let doc_freq = document_frequencies(corpus);
        Ok(BM25 { corpus, doc_lengths, avg_doc_length, doc_count, tf_cache, doc_freq })
    }

    /// The cached average times the number of documents is the total length
    /// of the corpus up to the rounding of the average.
    pub proof fn lemma_average_times_count(&self)
        requires
            self.wf(),
        ensures
            self.cached_average() * self.cached_count() <= total_length(self@),
            total_length(self@) < (self.cached_average() + 1) * self.cached_count(),
    {
        crate::corpus::lemma_average_times_count(self@);
    }

    /// The document-frequency table has an entry for exactly the terms that
    /// occur somewhere in the corpus, and the term-frequency table of a
    /// document for exactly the terms that the document holds.
    pub proof fn lemma_tables_hold_the_vocabulary(&self, term: Term)
        requires
            self.wf(),
        ensures
            self.frequency_table()@.contains_key(term) <==> exists|i: int|
                0 <= i < self@.len() && (#[trigger] self@[i]).contains(term),
            forall|i: int|
                0 <= i < self@.len() ==> (#[trigger] self.term_tables()[i])@.contains_key(term)
                    == self@[i].contains(term),
    {
        lemma_document_frequency_positive(self@, term);
        assert(self.frequency_table().count(term) == document_frequency(self@, term));
        assert forall|i: int| 0 <= i < self@.len() implies (#[trigger] self.term_tables()[i])@.contains_key(
            term,
        ) == self@[i].contains(term) by {
            lemma_term_frequency_positive(self@[i], term);
            assert(self.term_tables()[i].count(term) == term_frequency(self@[i], term));
            assert(self.term_tables()[i].wf());
        }
    }

    /// Two indexes of the same corpus hold the same statistics: the same
    /// lengths and average, the same term-frequency tables and the same
    /// document-frequency table, entry for entry. So they give the same
    /// inverse document frequency to every term and the same contribution to
    /// every term of every query.
    pub proof fn lemma_same_corpus_same_index(&self, other: &BM25)
        requires
            self.wf(),
            other.wf(),
            self@ == other@,
        ensures
            self.cached_count() == other.cached_count(),
            self.cached_lengths() == other.cached_lengths(),
            self.cached_average() == other.cached_average(),
            self.frequency_table()@ == other.frequency_table()@,
            self.term_tables().len() == other.term_tables().len(),
            forall|i: int|
                0 <= i < self.term_tables().len() ==> (#[trigger] self.term_tables()[i])@
                    == other.term_tables()[i]@,
            forall|term: Term| idf_ratio(self@, term) == idf_ratio(other@, term),
            forall|term: Term, i: int| term_match(self@, term, i) == term_match(other@, term, i),
    {
        Counter::lemma_same_counts_same_tally(self.frequency_table(), other.frequency_table());
        assert forall|i: int| 0 <= i < self.term_tables().len() implies (
        #[trigger] self.term_tables()[i])@ == other.term_tables()[i]@ by {
            let mine = self.term_tables()[i];
            let theirs = other.term_tables()[i];
            Counter::lemma_same_counts_same_tally(mine, theirs);
        }
    }

    /// The inverse document frequency of `term`, before the logarithm; `None`
    /// for a term that occurs nowhere in the corpus.
    pub fn calculate_idf(&self, term: &str) -> (ratio: Option<IdfRatio>)
        ensures
            ratio == idf_ratio(self@, term@),
    {
        proof {
            use_type_invariant(self);
        }
        let df: usize = self.doc_freq.get(term);
        if df == 0 {
            None
        } else {
            let absent: usize = self.doc_count - df;
            Some(
                IdfRatio {
                    numerator: 2 * (absent as u128) + 1,
                    denominator: 2 * (df as u128) + 1,
                },
            )
        }
    }

    /// For each term of `query`, in order and with repetitions kept, what it
    /// contributes to the score of document `doc_index`. The document's score
    /// is the sum of the BM25 term formula over the entries that are `Some`;
    /// a term that the document does not hold contributes nothing, and a
    /// document that does not exist scores nothing.
    pub fn query_matches(&self, query: &Vec<&str>, doc_index: usize) -> (matches: Vec<
        Option<TermMatch>,
    >)
        ensures
            matches@.len() == query@.len(),
            forall|j: int|
                0 <= j < query@.len() ==> #[trigger] matches@[j] == term_match(
                    self@,
                    query@[j]@,
                    doc_index as int,
                ),
    {
        let mut matches: Vec<Option<TermMatch>> = Vec::new();
        let mut j: usize = 0;
        while j < query.len()
            invariant
                j <= query.len(),
                matches@.len() == j,
                forall|k: int|
                    0 <= k < j ==> #[trigger] matches@[k] == term_match(
                        self@,
                        query@[k]@,
                        doc_index as int,
                    ),
            decreases query.len() - j,
        {
            let term = query[j];
            let tf: usize = self.term_frequency(term, doc_index);
            if tf == 0 {
                matches.push(None);
            } else {
                proof {
                    lemma_term_frequency_positive(self@[doc_index as int], term@);
                    lemma_document_frequency_positive(self@, term@);
                }
                let idf = self.calculate_idf(term);
                matches.push(Some(TermMatch { term_frequency: tf, idf: idf.unwrap() }));
            }
            j += 1;
        }
        matches
    }

    /// Ranks the documents of the corpus by their scores, `scores[i]` being
    /// the score of document `i`: every document once, the best score first,
    /// equal scores in ascending order of document index. There is a ranking
    /// when there is one score for each document, and only then.
    pub fn rank_documents(&self, scores: &Vec<Score>) -> (ranking: Option<Vec<(usize, Score)>>)
        ensures
            match ranking {
                Some(entries) => scores@.len() == self@.len() && is_ranking(scores@, entries@),
                None => scores@.len() != self@.len(),
            },
    {
        proof {
            use_type_invariant(self);
        }
        if scores.len() == self.doc_count {
            Some(rank_documents(scores))
        } else {
            None
        }
    }

    /// The number of documents; at least 1.
    pub fn doc_count(&self) -> (count: usize)
        ensures
            count == self@.len(),
            count >= 1,
    {
        proof {
            use_type_invariant(self);
        }
        self.doc_count
    }

    /// The average document length, rounded down.
    pub fn avg_doc_length(&self) -> (average: usize)
        ensures
            average == average_length(self@),
    {
        proof {
            use_type_invariant(self);
        }
        self.avg_doc_length
    }

    /// The number of tokens of document `doc_index`; zero for an index past
    /// the last document.
    pub fn doc_length(&self, doc_index: usize) -> (length: usize)
        ensures
            length == if doc_index < self@.len() {
                self@[doc_index as int].len()
            } else {
                0
            },
    {
        proof {
            use_type_invariant(self);
        }
        if doc_index < self.doc_lengths.len() {
            self.doc_lengths[doc_index]
        } else {
            0
        }
    }

    /// How often document `doc_index` holds `term`; zero when it does not,
    /// and for an index past the last document.
    pub fn term_frequency(&self, term: &str, doc_index: usize) -> (tf: usize)
        ensures
            tf == if doc_index < self@.len() {
                term_frequency(self@[doc_index as int], term@)
            } else {
                0
            },
    {
        proof {
            use_type_invariant(self);
        }
        if doc_index < self.tf_cache.len() {
            self.tf_cache[doc_index].get(term)
        } else {
            0
        }
    }

    /// The number of documents that hold `term`.
    pub fn document_frequency(&self, term: &str) -> (df: usize)
        ensures
            df == document_frequency(self@, term@),
    {
        proof {
            use_type_invariant(self);
        }
        self.doc_freq.get(term)
    }
}

/// A term that no document of the corpus holds has no inverse document
/// frequency, and contributes nothing to the score of any document.
pub proof fn lemma_unknown_term_weighs_nothing(corpus: Corpus, term: Term)
    requires
        forall|i: int| 0 <= i < corpus.len() ==> !(#[trigger] corpus[i]).contains(term),
    ensures
        idf_ratio(corpus, term) is None,
        forall|i: int| term_match(corpus, term, i) is None,
{
    lemma_document_frequency_positive(corpus, term);
    assert forall|i: int| term_match(corpus, term, i) is None by {
        if 0 <= i < corpus.len() {
            lemma_term_frequency_positive(corpus[i], term);
        }
    }
}

/// A term that a document does not hold contributes nothing to that
/// document's score, whatever its inverse document frequency.
pub proof fn lemma_missing_term_contributes_nothing(corpus: Corpus, term: Term, doc_index: int)
    requires
        0 <= doc_index < corpus.len(),
        !corpus[doc_index].contains(term),
    ensures
        term_frequency(corpus[doc_index], term) == 0,
        term_match(corpus, term, doc_index) is None,
{
    lemma_term_frequency_positive(corpus[doc_index], term);
}

/// A term that a document holds does contribute: with the number of its
/// occurrences there, and with an inverse document frequency.
pub proof fn lemma_present_term_contributes(corpus: Corpus, term: Term, doc_index: int)
    requires
        0 <= doc_index < corpus.len(),
        corpus[doc_index].len() <= usize::MAX,
        corpus[doc_index].contains(term),
    ensures
        term_match(corpus, term, doc_index) is Some,
        idf_ratio(corpus, term) is Some,
        term_match(corpus, term, doc_index).unwrap().idf == idf_ratio(corpus, term).unwrap(),
        term_match(corpus, term, doc_index).unwrap().term_frequency == term_frequency(
            corpus[doc_index],
            term,
        ),
        term_match(corpus, term, doc_index).unwrap().term_frequency >= 1,
{
    lemma_term_frequency_positive(corpus[doc_index], term);
    lemma_document_frequency_positive(corpus, term);
}

/// The argument of the logarithm is below 1, and so the inverse document
/// frequency negative, for exactly the terms that more than half of the
/// documents hold.
pub proof fn lemma_idf_ratio_below_one(corpus: Corpus, term: Term)
    requires
        corpus.len() <= usize::MAX,
        idf_ratio(corpus, term) is Some,
    ensures
        idf_ratio(corpus, term).unwrap().numerator < idf_ratio(corpus, term).unwrap().denominator
            <==> 2 * document_frequency(corpus, term) > corpus.len(),
        idf_ratio(corpus, term).unwrap().numerator >= 1,
        idf_ratio(corpus, term).unwrap().denominator >= 3,
{
}

/// One more occurrence of a term in a document that already holds it raises
/// the term's frequency there by one and leaves its inverse document
/// frequency as it was.
pub proof fn lemma_another_occurrence_keeps_idf(corpus: Corpus, term: Term, doc_index: int)
    requires
        0 <= doc_index < corpus.len(),
        corpus[doc_index].contains(term),
    ensures
        ({
            let longer = corpus.update(doc_index, corpus[doc_index].push(term));
            &&& term_frequency(longer[doc_index], term) == term_frequency(
                corpus[doc_index],
                term,
            ) + 1
            &&& idf_ratio(longer, term) == idf_ratio(corpus, term)
        }),
{
    let doc = corpus[doc_index].push(term);
    lemma_term_frequency_push(corpus[doc_index], term, term);
    assert(doc[corpus[doc_index].len() as int] == term);
    lemma_document_frequency_update(corpus, doc_index, doc, term);
}

} // verus!
