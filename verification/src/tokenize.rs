use vstd::prelude::*;

verus! {

/// The words of a text: its maximal runs of characters that are not Unicode
/// white space, in order. This names what `str::split_whitespace` yields.
pub uninterp spec fn whitespace_words(text: Seq<char>) -> Seq<Seq<char>>;

/// The lowercase form of a text under the Unicode case mapping. This names
/// what `str::to_lowercase` returns.
pub uninterp spec fn lowercase(text: Seq<char>) -> Seq<char>;

/// Calls `str::split_whitespace` and collects what it yields. Trusted: the
/// slices that come back are, in order, the words that `whitespace_words`
/// names for the same text. Nothing more is claimed of them.
#[verifier::external_body]
fn split_whitespace<'a>(text: &'a str) -> (words: Vec<&'a str>)
    ensures
        words@.len() == whitespace_words(text@).len(),
        forall|i: int|
            0 <= i < words@.len() ==> (#[trigger] words@[i])@ == whitespace_words(text@)[i],
{
    text.split_whitespace().collect()
}

/// Calls `str::to_lowercase`. Trusted: the string that comes back is the one
/// that `lowercase` names for the same text. Nothing more is claimed of it.
#[verifier::external_body]
fn to_lowercase(text: &str) -> (lowered: String)
    ensures
        lowered@ == lowercase(text@),
{
    text.to_lowercase()
}

/// The terms of a query as typed: the words of `text`, unchanged.
pub fn query_terms<'a>(text: &'a str) -> (terms: Vec<&'a str>)
    ensures
        terms@.len() == whitespace_words(text@).len(),
        forall|i: int|
            0 <= i < terms@.len() ==> (#[trigger] terms@[i])@ == whitespace_words(text@)[i],
{
    split_whitespace(text)
}

/// The tokens of a document: the words of `text`, each in lowercase.
pub fn tokenize(text: &str) -> (tokens: Vec<String>)
    ensures
        tokens@.len() == whitespace_words(text@).len(),
        forall|i: int|
            0 <= i < tokens@.len() ==> (#[trigger] tokens@[i])@ == lowercase(
                whitespace_words(text@)[i],
            ),
{
    let words = split_whitespace(text);
    let mut tokens: Vec<String> = Vec::new();
    let mut i: usize = 0;
    while i < words.len()
        invariant
            i <= words.len(),
            words@.len() == whitespace_words(text@).len(),
            forall|k: int|
                0 <= k < words@.len() ==> (#[trigger] words@[k])@ == whitespace_words(text@)[k],
            tokens@.len() == i,
            forall|k: int|
                0 <= k < i ==> (#[trigger] tokens@[k])@ == lowercase(whitespace_words(text@)[k]),
        decreases words.len() - i,
    {
        tokens.push(to_lowercase(words[i]));
        i += 1;
    }
    tokens
}

} // verus!
