//! The counts behind the TF-IDF weighting of a corpus.
//!
//! The weight of token `t` in document `d` is the product of a term frequency
//! and an inverse document frequency,
//!
//! ```text
//! counts[d][t] / matched[d]  *  (1 + ln((N + 1) / (doc_freq[t] + 1)))
//! ```
//!
//! where `N` is the number of documents, and the first factor is zero where
//! `matched[d]` is. This module computes the four integers of that formula,
//! exactly; the caller turns them into numbers of its choice.

use crate::corpus::{
    document_frequency, lemma_document_frequency_bound, lemma_occurrences_bounds, matched_count,
    occurrences, Corpus, Document, Token,
};
use crate::vocabulary::Vocabulary;
use vstd::prelude::*;

verus! {

/// The counts of a corpus against a vocabulary.
pub struct TermCounts {
    /// `counts[d][t]`: how often document `d` holds the token with index `t`.
    pub counts: Vec<Vec<usize>>,
    /// `matched[d]`: how many positions of document `d` hold a token of the
    /// vocabulary.
    pub matched: Vec<usize>,
    /// `doc_freq[t]`: how many documents hold the token with index `t`.
    pub doc_freq: Vec<usize>,
}

impl TermCounts {
    /// The counts are those of `corpus` against `vocab`: one row per document,
    /// one column per token, and every entry the exact count.
    pub open spec fn describes(&self, corpus: Corpus, vocab: Seq<Token>) -> bool {
        &&& self.counts@.len() == corpus.len()
        &&& self.matched@.len() == corpus.len()
        &&& self.doc_freq@.len() == vocab.len()
        &&& forall|d: int|
            0 <= d < corpus.len() ==> (#[trigger] self.counts@[d])@.len() == vocab.len()
        &&& forall|d: int, t: int|
            0 <= d < corpus.len() && 0 <= t < vocab.len() ==> #[trigger] self.counts@[d]@[t]
                == occurrences(corpus[d], vocab[t])
        &&& forall|d: int|
            0 <= d < corpus.len() ==> #[trigger] self.matched@[d] == matched_count(corpus[d], vocab)
        &&& forall|t: int|
            0 <= t < vocab.len() ==> #[trigger] self.doc_freq@[t] == document_frequency(
                corpus,
                vocab[t],
            )
    }
}

/// The vocabulary positions of a document are no more than its positions.
pub proof fn lemma_matched_count_bound(doc: Document, vocab: Seq<Token>)
    ensures
        matched_count(doc, vocab) <= doc.len(),
    decreases doc.len(),
{
    if doc.len() > 0 {
        lemma_matched_count_bound(doc.drop_last(), vocab);
    }
}

/// A token of the vocabulary occurs in a document no more often than the
/// document has vocabulary positions: no term frequency exceeds one.
pub proof fn lemma_occurrences_at_most_matched(doc: Document, vocab: Seq<Token>, token: Token)
    requires
        vocab.contains(token),
    ensures
        occurrences(doc, token) <= matched_count(doc, vocab),
    decreases doc.len(),
{
    if doc.len() > 0 {
        lemma_occurrences_at_most_matched(doc.drop_last(), vocab, token);
    }
}

/// A document without a vocabulary position has a row of zeros.
pub proof fn lemma_unmatched_row_is_zero(doc: Document, vocab: Seq<Token>)
    requires
        matched_count(doc, vocab) == 0,
    ensures
        forall|t: int| 0 <= t < vocab.len() ==> occurrences(doc, #[trigger] vocab[t]) == 0,
{
    assert forall|t: int| 0 <= t < vocab.len() implies occurrences(doc, #[trigger] vocab[t])
        == 0 by {
        lemma_occurrences_at_most_matched(doc, vocab, vocab[t]);
    }
}

/// The sum of the row of `doc`: its counts over all tokens of `vocab`.
pub open spec fn row_total(doc: Document, vocab: Seq<Token>) -> nat
    decreases vocab.len(),
{
    if vocab.len() == 0 {
        0
    } else {
        row_total(doc, vocab.drop_last()) + occurrences(doc, vocab.last())
    }
}

/// Among distinct tokens a token occurs once or not at all.
proof fn lemma_occurs_once(vocab: Seq<Token>, token: Token)
    requires
        vocab.no_duplicates(),
    ensures
        occurrences(vocab, token) == if vocab.contains(token) {
            1nat
        } else {
            0nat
        },
    decreases vocab.len(),
{
    if vocab.len() > 0 {
        let front = vocab.drop_last();
        lemma_occurs_once(front, token);
        lemma_occurrences_bounds(vocab, token);
    }
}

/// One more position in the document adds to the sum of its row once for
/// each place at which the vocabulary holds the token of that position.
proof fn lemma_row_total_step(doc: Document, vocab: Seq<Token>)
    requires
        doc.len() > 0,
    ensures
        row_total(doc, vocab) == row_total(doc.drop_last(), vocab) + occurrences(vocab, doc.last()),
    decreases vocab.len(),
{
    if vocab.len() > 0 {
        lemma_row_total_step(doc, vocab.drop_last());
    }
}

/// The row of a document sums to the number of its vocabulary positions, so
/// that its term frequencies sum to one wherever there are any.
pub proof fn lemma_row_total(doc: Document, vocab: Seq<Token>)
    requires
        vocab.no_duplicates(),
    ensures
        row_total(doc, vocab) == matched_count(doc, vocab),
    decreases doc.len(),
{
    if doc.len() == 0 {
        assert(doc =~= Seq::<Token>::empty());
        lemma_empty_row_total(vocab);
    } else {
        lemma_row_total(doc.drop_last(), vocab);
        lemma_row_total_step(doc, vocab);
        lemma_occurs_once(vocab, doc.last());
    }
}

/// The row of a document without positions sums to zero.
proof fn lemma_empty_row_total(vocab: Seq<Token>)
    ensures
        row_total(Seq::<Token>::empty(), vocab) == 0,
    decreases vocab.len(),
{
    if vocab.len() > 0 {
        lemma_empty_row_total(vocab.drop_last());
    }
}

/// Counting is a function of its inputs: counts that describe the same
/// corpus against the same vocabulary are equal, entry for entry.
pub proof fn lemma_counts_are_determined(
    corpus: Corpus,
    vocab: Seq<Token>,
    first: TermCounts,
    second: TermCounts,
)
    requires
        first.describes(corpus, vocab),
        second.describes(corpus, vocab),
    ensures
        first.counts.deep_view() == second.counts.deep_view(),
        first.matched@ == second.matched@,
        first.doc_freq@ == second.doc_freq@,
{
    assert forall|d: int| 0 <= d < corpus.len() implies first.counts.deep_view()[d]
        == second.counts.deep_view()[d] by {}
}

/// A vector of `n` zeros.
fn zeros(n: usize) -> (v: Vec<usize>)
    ensures
        v@.len() == n,
        forall|i: int| 0 <= i < n ==> v@[i] == 0,
{
    let mut v: Vec<usize> = Vec::new();
    let mut i: usize = 0;
    while i < n
        invariant
            i <= n,
            v@.len() == i,
            forall|k: int| 0 <= k < i ==> v@[k] == 0,
        decreases n - i,
    {
        v.push(0);
        i += 1;
    }
    v
}

/// Counts one document against the vocabulary: for each token of the
/// vocabulary its occurrences, and the number of positions that hold any.
fn count_document(doc: &Vec<String>, vocab: &Vocabulary) -> (r: (Vec<usize>, usize))
    ensures
        r.0@.len() == vocab@.len(),
        forall|t: int|
            0 <= t < vocab@.len() ==> #[trigger] r.0@[t] == occurrences(doc.deep_view(), vocab@[t]),
        r.1 == matched_count(doc.deep_view(), vocab@),
{
    let ghost text = doc.deep_view();
    let mut row = zeros(vocab.len());
    let mut hits: usize = 0;
    let mut j: usize = 0;
    while j < doc.len()
        invariant
            j <= doc.len(),
            text == doc.deep_view(),
            row@.len() == vocab@.len(),
            forall|t: int|
                0 <= t < vocab@.len() ==> #[trigger] row@[t] == occurrences(
                    text.take(j as int),
                    vocab@[t],
                ),
            hits == matched_count(text.take(j as int), vocab@),
        decreases doc.len() - j,
    {
        let token = &doc[j];
        let ghost read = text.take(j as int);
        proof {
            assert(text.take(j as int + 1).drop_last() =~= read);
            lemma_matched_count_bound(read, vocab@);
        }
        match vocab.index_of(token.as_str()) {
            Some(t) => {
                proof {
                    lemma_occurrences_bounds(read, token@);
                }
                let count = row[t] + 1;
                row.set(t, count);
                hits += 1;
            },
            None => {},
        }
        j += 1;
    }
    proof {
        assert(text.take(j as int) =~= text);
    }
    (row, hits)
}

/// Counts `documents` against `vocab`. Tokens outside the vocabulary count
/// nowhere: a document that holds none of the vocabulary has `matched` zero
/// and a row of zeros.
pub fn count_terms(documents: &Vec<Vec<String>>, vocab: &Vocabulary) -> (r: TermCounts)
    ensures
        r.describes(documents.deep_view(), vocab@),
{
    let ghost corpus = documents.deep_view();
    let width = vocab.len();
    let mut counts: Vec<Vec<usize>> = Vec::new();
    let mut matched: Vec<usize> = Vec::new();
    let mut doc_freq = zeros(width);
    let mut d: usize = 0;
    while d < documents.len()
        invariant
            d <= documents.len(),
            corpus == documents.deep_view(),
            width == vocab@.len(),
            counts@.len() == d,
            matched@.len() == d,
            doc_freq@.len() == width,
            forall|e: int| 0 <= e < d ==> (#[trigger] counts@[e])@.len() == width,
            forall|e: int, t: int|
                0 <= e < d && 0 <= t < width ==> #[trigger] counts@[e]@[t] == occurrences(
                    corpus[e],
                    vocab@[t],
                ),
            forall|e: int|
                0 <= e < d ==> #[trigger] matched@[e] == matched_count(corpus[e], vocab@),
            forall|t: int|
                0 <= t < width ==> #[trigger] doc_freq@[t] == document_frequency(
                    corpus.take(d as int),
                    vocab@[t],
                ),
        decreases documents.len() - d,
    {
        let (row, hits) = count_document(&documents[d], vocab);
        let ghost before = corpus.take(d as int);
        let ghost text = corpus[d as int];
        let mut t: usize = 0;
        while t < width
            invariant
                t <= width,
                d < documents.len(),
                d < corpus.len(),
                width == vocab@.len(),
                row@.len() == width,
                doc_freq@.len() == width,
                before == corpus.take(d as int),
                text == corpus[d as int],
                corpus.take(d as int + 1).drop_last() == before,
                corpus.take(d as int + 1).last() == text,
                forall|u: int|
                    0 <= u < width ==> #[trigger] row@[u] == occurrences(text, vocab@[u]),
                forall|u: int|
                    0 <= u < t ==> #[trigger] doc_freq@[u] == document_frequency(
                        corpus.take(d as int + 1),
                        vocab@[u],
                    ),
                forall|u: int|
                    t <= u < width ==> #[trigger] doc_freq@[u] == document_frequency(
                        before,
                        vocab@[u],
                    ),
            decreases width - t,
        {
            proof {
                lemma_occurrences_bounds(text, vocab@[t as int]);
                lemma_document_frequency_bound(before, vocab@[t as int]);
            }
            if row[t] > 0 {
                let holders = doc_freq[t] + 1;
                doc_freq.set(t, holders);
            }
            t += 1;
        }
        counts.push(row);
        matched.push(hits);
        d += 1;
    }
    proof {
        assert(corpus.take(d as int) =~= corpus);
    }
    TermCounts { counts, matched, doc_freq }
}

} // verus!
