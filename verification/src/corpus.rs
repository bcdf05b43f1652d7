use crate::counter::Counter;
use vstd::prelude::*;

verus! {

/// A token, as the sequence of its characters.
pub type Term = Seq<char>;

/// A document: its tokens in order.
pub type Document = Seq<Term>;

/// A corpus: its documents in order; a document's index is its identity.
pub type Corpus = Seq<Document>;

/// 1 where the condition holds, else 0.
pub open spec fn one_if(condition: bool) -> nat {
    if condition {
        1
    } else {
        0
    }
}

/// The predicate "this token is `term`".
pub open spec fn is_term(term: Term) -> spec_fn(Term) -> bool {
    |token: Term| token == term
}

/// The predicate "this document holds `term` at least once".
pub open spec fn mentions(term: Term) -> spec_fn(Document) -> bool {
    |doc: Document| doc.contains(term)
}

/// The number of positions of `doc` that hold `term`.
pub open spec fn term_frequency(doc: Document, term: Term) -> nat {
    doc.filter(is_term(term)).len()
}

/// The number of documents of `corpus` that hold `term` at least once,
/// however often each of them repeats it.
pub open spec fn document_frequency(corpus: Corpus, term: Term) -> nat {
    corpus.filter(mentions(term)).len()
}

/// The sum of the lengths of the documents of `corpus`.
pub open spec fn total_length(corpus: Corpus) -> nat
    decreases corpus.len(),
{
    if corpus.len() == 0 {
        0
    } else {
        total_length(corpus.drop_last()) + corpus.last().len()
    }
}

/// The average document length, rounded down to a whole number of tokens.
pub open spec fn average_length(corpus: Corpus) -> nat
    recommends
        corpus.len() > 0,
{
    total_length(corpus) / corpus.len()
}

/// One more token raises the frequency of the term it is, and of no other.
pub proof fn lemma_term_frequency_push(doc: Document, token: Term, term: Term)
    ensures
        term_frequency(doc.push(token), term) == term_frequency(doc, term) + one_if(token == term),
{
    doc.lemma_filter_len_push(is_term(term), token);
}

/// A term has a positive frequency in exactly the documents that hold it.
pub proof fn lemma_term_frequency_positive(doc: Document, term: Term)
    ensures
        term_frequency(doc, term) > 0 <==> doc.contains(term),
    decreases doc.len(),
{
    if doc.len() > 0 {
        let front = doc.drop_last();
        assert(doc =~= front.push(doc.last()));
        lemma_term_frequency_positive(front, term);
        lemma_term_frequency_push(front, doc.last(), term);
        lemma_contains_push(front, doc.last(), term);
    }
}

/// A document with one more token holds what it held before, and the token.
proof fn lemma_contains_push(doc: Document, token: Term, term: Term)
    ensures
        doc.push(token).contains(term) <==> doc.contains(term) || token == term,
{
    let longer = doc.push(token);
    if doc.contains(term) {
        let i = choose|i: int| 0 <= i < doc.len() && doc[i] == term;
        assert(longer[i] == term);
    }
    if token == term {
        assert(longer[doc.len() as int] == term);
    }
    if longer.contains(term) {
        let i = choose|i: int| 0 <= i < longer.len() && longer[i] == term;
        assert(i < doc.len() ==> doc[i] == term);
    }
}

/// One more document raises the document frequency of the terms it holds,
/// each by one, and of no other.
pub proof fn lemma_document_frequency_push(corpus: Corpus, doc: Document, term: Term)
    ensures
        document_frequency(corpus.push(doc), term) == document_frequency(corpus, term) + one_if(
            doc.contains(term),
        ),
{
    corpus.lemma_filter_len_push(mentions(term), doc);
}

/// A term has a positive document frequency in exactly the corpora of which
/// some document holds it.
pub proof fn lemma_document_frequency_positive(corpus: Corpus, term: Term)
    ensures
        document_frequency(corpus, term) > 0 <==> exists|i: int|
            0 <= i < corpus.len() && (#[trigger] corpus[i]).contains(term),
    decreases corpus.len(),
{
    if corpus.len() > 0 {
        let front = corpus.drop_last();
        assert(corpus =~= front.push(corpus.last()));
        lemma_document_frequency_positive(front, term);
        lemma_document_frequency_push(front, corpus.last(), term);
        if exists|i: int| 0 <= i < corpus.len() && (#[trigger] corpus[i]).contains(term) {
            let i = choose|i: int| 0 <= i < corpus.len() && (#[trigger] corpus[i]).contains(term);
            assert(i < front.len() ==> front[i].contains(term));
        }
        if exists|i: int| 0 <= i < front.len() && (#[trigger] front[i]).contains(term) {
            let i = choose|i: int| 0 <= i < front.len() && (#[trigger] front[i]).contains(term);
            assert(corpus[i].contains(term));
        }
        if corpus.last().contains(term) {
            assert(corpus[corpus.len() - 1].contains(term));
        }
    }
}

/// Replacing one document by another that holds `term` if and only if the
/// first did leaves the document frequency of `term` as it was.
pub proof fn lemma_document_frequency_update(
    corpus: Corpus,
    doc_index: int,
    doc: Document,
    term: Term,
)
    requires
        0 <= doc_index < corpus.len(),
        doc.contains(term) == corpus[doc_index].contains(term),
    ensures
        document_frequency(corpus.update(doc_index, doc), term) == document_frequency(
            corpus,
            term,
        ),
    decreases corpus.len(),
{
    let front = corpus.drop_last();
    let last = corpus.last();
    assert(corpus =~= front.push(last));
    lemma_document_frequency_push(front, last, term);
    if doc_index == corpus.len() - 1 {
        assert(corpus.update(doc_index, doc) =~= front.push(doc));
        lemma_document_frequency_push(front, doc, term);
    } else {
        assert(corpus.update(doc_index, doc) =~= front.update(doc_index, doc).push(last));
        lemma_document_frequency_update(front, doc_index, doc, term);
        lemma_document_frequency_push(front.update(doc_index, doc), last, term);
    }
}

/// One more document adds its length to the total.
pub proof fn lemma_total_length_push(corpus: Corpus, doc: Document)
    ensures
        total_length(corpus.push(doc)) == total_length(corpus) + doc.len(),
{
    assert(corpus.push(doc).drop_last() =~= corpus);
}

/// The total length counts the tokens of the corpus: it is the length of
/// the documents laid end to end.
pub proof fn lemma_total_length_counts_tokens(corpus: Corpus)
    ensures
        total_length(corpus) == corpus.flatten().len(),
    decreases corpus.len(),
{
    if corpus.len() > 0 {
        let front = corpus.drop_last();
        assert(corpus =~= front.push(corpus.last()));
        lemma_total_length_counts_tokens(front);
        front.lemma_flatten_push(corpus.last());
    }
}

/// The average document length times the number of documents is the total
/// length up to the rounding of the average: it falls short of the total by
/// less than one token per document.
pub proof fn lemma_average_times_count(corpus: Corpus)
    requires
        corpus.len() >= 1,
    ensures
        average_length(corpus) * corpus.len() <= total_length(corpus),
        total_length(corpus) < (average_length(corpus) + 1) * corpus.len(),
{
    let total = total_length(corpus) as int;
    let count = corpus.len() as int;
    assert((total / count) * count <= total < (total / count + 1) * count) by (nonlinear_arith)
        requires
            count >= 1,
            total >= 0,
    ;
}

/// The term-frequency table of one document: each of its terms with the
/// number of its occurrences, and no other entry.
pub fn count_terms(doc: &Vec<String>) -> (tally: Counter)
    ensures
        tally.wf(),
        forall|term: Term| #[trigger] tally.count(term) == term_frequency(doc.deep_view(), term),
{
    let mut tally = Counter::new();
    let mut j: usize = 0;
    while j < doc.len()
        invariant
            j <= doc.len(),
            tally.wf(),
            forall|term: Term| #[trigger]
                tally.count(term) == term_frequency(doc.deep_view().take(j as int), term),
        decreases doc.len() - j,
    {
        let ghost seen = doc.deep_view().take(j as int);
        let ghost token = doc[j as int]@;
        let ghost before = tally;
        tally.increment(doc[j].clone());
        proof {
            assert(doc.deep_view().take(j + 1) =~= seen.push(token));
            assert forall|term: Term| #[trigger]
                tally.count(term) == term_frequency(doc.deep_view().take(j + 1), term) by {
                lemma_term_frequency_push(seen, token, term);
                assert(before.count(term) == term_frequency(seen, term));
            }
        }
        j += 1;
    }
    proof {
        assert(doc.deep_view().take(doc.len() as int) =~= doc.deep_view());
    }
    tally
}

/// The document-frequency table of a corpus: each term that occurs anywhere
/// in it with the number of documents that hold it, and no other entry.
pub fn document_frequencies(corpus: &Vec<Vec<String>>) -> (table: Counter)
    ensures
        table.wf(),
        forall|term: Term| #[trigger]
            table.count(term) == document_frequency(corpus.deep_view(), term),
{
    let mut table = Counter::new();
    let mut i: usize = 0;
    while i < corpus.len()
        invariant
            i <= corpus.len(),
            table.wf(),
            forall|term: Term| #[trigger]
                table.count(term) == document_frequency(corpus.deep_view().take(i as int), term),
        decreases corpus.len() - i,
    {
        let doc = &corpus[i];
        let ghost earlier = corpus.deep_view().take(i as int);
        let ghost tokens = doc.deep_view();
        // The terms of this document met so far; a term is counted for the
        // document when it is met for the first time.
        let mut met = Counter::new();
        let mut j: usize = 0;
        while j < doc.len()
            invariant
                j <= doc.len(),
                i < corpus.len(),
                tokens == doc.deep_view(),
                earlier == corpus.deep_view().take(i as int),
                met.wf(),
                table.wf(),
                forall|term: Term| #[trigger]
                    met.count(term) == term_frequency(tokens.take(j as int), term),
                forall|term: Term| #[trigger]
                    table.count(term) == document_frequency(earlier, term) + one_if(
                        tokens.take(j as int).contains(term),
                    ),
            decreases doc.len() - j,
        {
            let ghost seen = tokens.take(j as int);
            let ghost token = doc[j as int]@;
            let ghost met_before = met;
            let ghost table_before = table;
            proof {
                lemma_term_frequency_positive(seen, token);
                assert(table_before.count(token) == document_frequency(earlier, token) + one_if(
                    seen.contains(token),
                ));
                assert(tokens.take(j + 1) =~= seen.push(token));
            }
            if met.get(doc[j].as_str()) == 0 {
                table.increment(doc[j].clone());
            }
            met.increment(doc[j].clone());
            proof {
                assert forall|term: Term| #[trigger]
                    met.count(term) == term_frequency(tokens.take(j + 1), term) by {
                    lemma_term_frequency_push(seen, token, term);
                    assert(met_before.count(term) == term_frequency(seen, term));
                }
                assert forall|term: Term| #[trigger]
                    table.count(term) == document_frequency(earlier, term) + one_if(
                        tokens.take(j + 1).contains(term),
                    ) by {
                    assert(table_before.count(term) == document_frequency(earlier, term) + one_if(
                        seen.contains(term),
                    ));
                    lemma_contains_push(seen, token, term);
                }
            }
            j += 1;
        }
        proof {
            assert(tokens.take(doc.len() as int) =~= tokens);
            assert(corpus.deep_view().take(i + 1) =~= earlier.push(tokens));
            assert forall|term: Term| #[trigger]
                table.count(term) == document_frequency(corpus.deep_view().take(i + 1), term) by {
                lemma_document_frequency_push(earlier, tokens, term);
                assert(table.count(term) == document_frequency(earlier, term) + one_if(
                    tokens.take(doc.len() as int).contains(term),
                ));
            }
        }
        i += 1;
    }
    proof {
        assert(corpus.deep_view().take(corpus.len() as int) =~= corpus.deep_view());
    }
    table
}

} // verus!
