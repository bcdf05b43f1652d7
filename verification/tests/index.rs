use bm25::error::ConfigurationError;
use bm25::index::{IdfRatio, TermMatch, BM25};
use bm25::score::Score;

fn doc(words: &[&str]) -> Vec<String> {
    words.iter().map(|w| w.to_string()).collect()
}

fn pets() -> Vec<Vec<String>> {
    vec![doc(&["the", "cat", "sat"]), doc(&["the", "dog", "ran"]), doc(&["cat", "and", "dog"])]
}

#[test]
fn empty_corpus_is_a_configuration_error() {
    let corpus: Vec<Vec<String>> = vec![];
    match BM25::new(&corpus) {
        Ok(_) => panic!("an empty corpus was indexed"),
        Err(error) => assert_eq!(error, ConfigurationError::EmptyCorpus),
    }
}

#[test]
fn corpus_of_one_empty_document_is_indexed() {
    let corpus = vec![doc(&[])];
    let index = BM25::new(&corpus).ok().unwrap();
    assert_eq!(index.doc_count(), 1);
    assert_eq!(index.doc_length(0), 0);
    assert_eq!(index.avg_doc_length(), 0);
    assert_eq!(index.document_frequency("the"), 0);
    assert_eq!(index.calculate_idf("the"), None);
}

#[test]
fn lengths_and_average_of_the_pets_corpus() {
    let corpus = pets();
    let index = BM25::new(&corpus).ok().unwrap();
    assert_eq!(index.doc_count(), 3);
    assert_eq!(index.doc_length(0), 3);
    assert_eq!(index.doc_length(1), 3);
    assert_eq!(index.doc_length(2), 3);
    assert_eq!(index.doc_length(3), 0);
    assert_eq!(index.avg_doc_length(), 3);
}

#[test]
fn average_length_rounds_down() {
    let corpus = vec![doc(&["a", "b", "c"]), doc(&["a", "b", "c"]), doc(&["a", "b", "c", "d"])];
    let index = BM25::new(&corpus).ok().unwrap();
    let total: usize = (0..index.doc_count()).map(|i| index.doc_length(i)).sum();
    assert_eq!(total, 10);
    assert_eq!(index.avg_doc_length(), 3);
    assert!(index.avg_doc_length() * index.doc_count() <= total);
    assert!(total < (index.avg_doc_length() + 1) * index.doc_count());
}

#[test]
fn average_length_below_one_token_is_zero() {
    let corpus = vec![doc(&["a"]), doc(&[]), doc(&[])];
    let index = BM25::new(&corpus).ok().unwrap();
    assert_eq!(index.avg_doc_length(), 0);
}

#[test]
fn term_frequencies_per_document() {
    let corpus = vec![doc(&["a", "b", "a", "a"]), doc(&["b"]), doc(&[])];
    let index = BM25::new(&corpus).ok().unwrap();
    assert_eq!(index.term_frequency("a", 0), 3);
    assert_eq!(index.term_frequency("b", 0), 1);
    assert_eq!(index.term_frequency("a", 1), 0);
    assert_eq!(index.term_frequency("b", 1), 1);
    assert_eq!(index.term_frequency("a", 2), 0);
    assert_eq!(index.term_frequency("a", 3), 0);
    assert_eq!(index.term_frequency("zzz", 0), 0);
}

#[test]
fn document_frequencies_of_the_pets_corpus() {
    let corpus = pets();
    let index = BM25::new(&corpus).ok().unwrap();
    assert_eq!(index.document_frequency("the"), 2);
    assert_eq!(index.document_frequency("cat"), 2);
    assert_eq!(index.document_frequency("dog"), 2);
    assert_eq!(index.document_frequency("sat"), 1);
    assert_eq!(index.document_frequency("ran"), 1);
    assert_eq!(index.document_frequency("and"), 1);
    assert_eq!(index.document_frequency("xyz123"), 0);
}

#[test]
fn idf_ratio_is_exact() {
    let corpus = pets();
    let index = BM25::new(&corpus).ok().unwrap();
    // (3 - 2 + 0.5) / (2 + 0.5) = 3 / 5
    assert_eq!(index.calculate_idf("cat"), Some(IdfRatio { numerator: 3, denominator: 5 }));
    // (3 - 1 + 0.5) / (1 + 0.5) = 5 / 3
    assert_eq!(index.calculate_idf("sat"), Some(IdfRatio { numerator: 5, denominator: 3 }));
    assert_eq!(index.calculate_idf("xyz123"), None);
}

#[test]
fn idf_ratio_of_a_term_in_every_document() {
    let corpus = vec![doc(&["a"]), doc(&["a", "b"]), doc(&["a"]), doc(&["a", "a"])];
    let index = BM25::new(&corpus).ok().unwrap();
    // (4 - 4 + 0.5) / (4 + 0.5) = 1 / 9
    assert_eq!(index.calculate_idf("a"), Some(IdfRatio { numerator: 1, denominator: 9 }));
    // (4 - 1 + 0.5) / (1 + 0.5) = 7 / 3
    assert_eq!(index.calculate_idf("b"), Some(IdfRatio { numerator: 7, denominator: 3 }));
}

#[test]
fn idf_ratio_is_below_one_past_half_the_corpus() {
    let corpus = vec![doc(&["a", "b", "c"]), doc(&["a", "b"]), doc(&["a"]), doc(&["d"])];
    let index = BM25::new(&corpus).ok().unwrap();
    let a = index.calculate_idf("a").unwrap();
    let b = index.calculate_idf("b").unwrap();
    let c = index.calculate_idf("c").unwrap();
    assert!(a.numerator < a.denominator);
    assert_eq!(b.numerator, b.denominator);
    assert!(c.numerator > c.denominator);
}

#[test]
fn query_matches_follow_the_query_term_by_term() {
    let corpus = pets();
    let index = BM25::new(&corpus).ok().unwrap();
    let query = vec!["cat", "xyz123", "sat", "cat"];
    let cat = TermMatch { term_frequency: 1, idf: IdfRatio { numerator: 3, denominator: 5 } };
    let sat = TermMatch { term_frequency: 1, idf: IdfRatio { numerator: 5, denominator: 3 } };
    assert_eq!(index.query_matches(&query, 0), vec![Some(cat), None, Some(sat), Some(cat)]);
    assert_eq!(index.query_matches(&query, 1), vec![None, None, None, None]);
    assert_eq!(index.query_matches(&query, 2), vec![Some(cat), None, None, Some(cat)]);
}

#[test]
fn query_matches_carry_the_term_frequency() {
    let corpus = vec![doc(&["a", "b", "a", "a"]), doc(&["b"])];
    let index = BM25::new(&corpus).ok().unwrap();
    let query = vec!["a", "b"];
    assert_eq!(
        index.query_matches(&query, 0),
        vec![
            Some(TermMatch { term_frequency: 3, idf: IdfRatio { numerator: 3, denominator: 3 } }),
            Some(TermMatch { term_frequency: 1, idf: IdfRatio { numerator: 1, denominator: 5 } }),
        ]
    );
}

#[test]
fn query_matches_of_an_empty_query_are_empty() {
    let corpus = pets();
    let index = BM25::new(&corpus).ok().unwrap();
    let query: Vec<&str> = vec![];
    assert_eq!(index.query_matches(&query, 0), vec![]);
}

#[test]
fn query_matches_past_the_last_document_are_none() {
    let corpus = pets();
    let index = BM25::new(&corpus).ok().unwrap();
    let query = vec!["cat", "the"];
    assert_eq!(index.query_matches(&query, 3), vec![None, None]);
    assert_eq!(index.query_matches(&query, usize::MAX), vec![None, None]);
}

#[test]
fn query_terms_are_matched_as_given() {
    let corpus = pets();
    let index = BM25::new(&corpus).ok().unwrap();
    let query = vec!["Cat", "CAT", " cat"];
    assert_eq!(index.query_matches(&query, 0), vec![None, None, None]);
}

#[test]
fn repeated_documents_are_indexed_as_they_come() {
    let one = pets();
    let mut twice = pets();
    twice.extend(pets());
    let index = BM25::new(&twice).ok().unwrap();
    assert_eq!(index.doc_count(), 6);
    assert_eq!(index.avg_doc_length(), 3);
    assert_eq!(index.document_frequency("cat"), 4);
    assert_eq!(index.document_frequency("sat"), 2);
    for i in 0..3 {
        assert_eq!(index.doc_length(i), one[i].len());
        assert_eq!(index.doc_length(i + 3), one[i].len());
        assert_eq!(index.term_frequency("cat", i), index.term_frequency("cat", i + 3));
    }
}

#[test]
fn two_indexes_of_one_corpus_agree() {
    let corpus = pets();
    let copy = pets();
    let first = BM25::new(&corpus).ok().unwrap();
    let second = BM25::new(&copy).ok().unwrap();
    assert_eq!(first.doc_count(), second.doc_count());
    assert_eq!(first.avg_doc_length(), second.avg_doc_length());
    let query = vec!["the", "cat", "sat", "dog", "ran", "and", "xyz123", "cat"];
    for term in &query {
        assert_eq!(first.calculate_idf(term), second.calculate_idf(term));
        assert_eq!(first.document_frequency(term), second.document_frequency(term));
    }
    for i in 0..4 {
        assert_eq!(first.doc_length(i), second.doc_length(i));
        assert_eq!(first.query_matches(&query, i), second.query_matches(&query, i));
    }
}

#[test]
fn index_ranks_one_score_per_document() {
    let corpus = pets();
    let index = BM25::new(&corpus).ok().unwrap();
    let scores: Vec<Score> =
        [0.5f32, 2.0, 0.5].iter().map(|v| Score::from_bits(v.to_bits()).unwrap()).collect();
    let ranking = index.rank_documents(&scores).unwrap();
    assert_eq!(ranking, vec![(1, scores[1]), (0, scores[0]), (2, scores[2])]);
}

#[test]
fn index_refuses_scores_that_do_not_match_the_corpus() {
    let corpus = pets();
    let index = BM25::new(&corpus).ok().unwrap();
    let one = Score::from_bits(1.0f32.to_bits()).unwrap();
    assert_eq!(index.rank_documents(&vec![]), None);
    assert_eq!(index.rank_documents(&vec![one, one]), None);
    assert_eq!(index.rank_documents(&vec![one, one, one, one]), None);
}
