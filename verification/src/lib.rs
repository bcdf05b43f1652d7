//! Okapi BM25 relevance ranking over a fixed corpus of tokenized documents.
//!
//! The library keeps to whole numbers. An index ([`index::BM25`]) holds the
//! statistics of a corpus: document lengths and their average, how often
//! each document holds each term, and how many documents hold each term.
//! For a query it hands out, term by term, the numbers that the BM25 term
//! formula reads ([`index::BM25::query_matches`]). The formula itself is
//! floating-point arithmetic and is left to the caller, who hands the scores
//! back as bit patterns ([`score::Score`]) to have the documents ranked
//! ([`index::BM25::rank_documents`]).

pub mod corpus;
pub mod counter;
pub mod error;
pub mod index;
pub mod rank;
pub mod score;
pub mod tokenize;
