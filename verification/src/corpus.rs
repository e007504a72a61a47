//! The mathematical model of a corpus, and the counting functions that the
//! contracts of this crate are stated over.

use vstd::prelude::*;

verus! {

/// A normalized token: the sequence of its characters.
pub type Token = Seq<char>;

/// A document: its tokens in reading order.
pub type Document = Seq<Token>;

/// A corpus: its documents, each at its document index.
pub type Corpus = Seq<Document>;

/// How many times `token` occurs in `doc`.
pub open spec fn occurrences(doc: Document, token: Token) -> nat
    decreases doc.len(),
{
    if doc.len() == 0 {
        0
    } else {
        occurrences(doc.drop_last(), token) + if doc.last() == token {
            1nat
        } else {
            0nat
        }
    }
}

/// How many documents of `corpus` hold `token` at least once.
pub open spec fn document_frequency(corpus: Corpus, token: Token) -> nat
    decreases corpus.len(),
{
    if corpus.len() == 0 {
        0
    } else {
        document_frequency(corpus.drop_last(), token) + if corpus.last().contains(token) {
            1nat
        } else {
            0nat
        }
    }
}

/// How many positions of `doc` hold a token of `vocab`.
pub open spec fn matched_count(doc: Document, vocab: Seq<Token>) -> nat
    decreases doc.len(),
{
    if doc.len() == 0 {
        0
    } else {
        matched_count(doc.drop_last(), vocab) + if vocab.contains(doc.last()) {
            1nat
        } else {
            0nat
        }
    }
}

/// The distinct tokens of `stream`, each at the place of its first occurrence.
pub open spec fn first_occurrences(stream: Seq<Token>) -> Seq<Token>
    decreases stream.len(),
{
    if stream.len() == 0 {
        Seq::empty()
    } else {
        let earlier = first_occurrences(stream.drop_last());
        if stream.drop_last().contains(stream.last()) {
            earlier
        } else {
            earlier.push(stream.last())
        }
    }
}

/// Those of `tokens`, in their order, that at least `min_df` documents of
/// `corpus` hold.
pub open spec fn frequent(tokens: Seq<Token>, corpus: Corpus, min_df: nat) -> Seq<Token>
    decreases tokens.len(),
{
    if tokens.len() == 0 {
        Seq::empty()
    } else {
        let earlier = frequent(tokens.drop_last(), corpus, min_df);
        if document_frequency(corpus, tokens.last()) >= min_df {
            earlier.push(tokens.last())
        } else {
            earlier
        }
    }
}

/// The vocabulary of `corpus` at threshold `min_df`: every distinct token that
/// at least `min_df` documents hold, in the order in which the tokens first
/// appear when the corpus is read from its first document to its last.
pub open spec fn vocabulary_tokens(corpus: Corpus, min_df: nat) -> Seq<Token> {
    frequent(first_occurrences(corpus.flatten()), corpus, min_df)
}

/// A token occurs in a document a positive number of times exactly when the
/// document contains it, and never more often than the document is long.
pub proof fn lemma_occurrences_bounds(doc: Document, token: Token)
    ensures
        occurrences(doc, token) <= doc.len(),
        occurrences(doc, token) > 0 <==> doc.contains(token),
    decreases doc.len(),
{
    if doc.len() > 0 {
        let front = doc.drop_last();
        lemma_occurrences_bounds(front, token);
        if doc.contains(token) {
            let i = choose|i: int| 0 <= i < doc.len() && doc[i] == token;
            if i < front.len() {
                assert(front[i] == token);
            }
        }
    }
}

/// No token is held by more documents than the corpus has.
pub proof fn lemma_document_frequency_bound(corpus: Corpus, token: Token)
    ensures
        document_frequency(corpus, token) <= corpus.len(),
    decreases corpus.len(),
{
    if corpus.len() > 0 {
        lemma_document_frequency_bound(corpus.drop_last(), token);
    }
}

/// The indices of the documents of `corpus` that hold `token`.
pub open spec fn holders(corpus: Corpus, token: Token) -> Set<int> {
    Set::new(|d: int| 0 <= d < corpus.len() && corpus[d].contains(token))
}

/// The document frequency of a token is the number of documents that hold
/// it: it counts documents, not occurrences.
pub proof fn lemma_document_frequency_counts_holders(corpus: Corpus, token: Token)
    ensures
        holders(corpus, token).finite(),
        document_frequency(corpus, token) == holders(corpus, token).len(),
    decreases corpus.len(),
{
    if corpus.len() == 0 {
        assert(holders(corpus, token) =~= Set::<int>::empty());
    } else {
        let front = corpus.drop_last();
        let last = corpus.len() - 1;
        lemma_document_frequency_counts_holders(front, token);
        if corpus.last().contains(token) {
            assert(holders(corpus, token) =~= holders(front, token).insert(last));
        } else {
            assert(holders(corpus, token) =~= holders(front, token));
        }
    }
}

/// The flattened corpus contains exactly the tokens that some document
/// contains.
pub proof fn lemma_flatten_contains(corpus: Corpus, token: Token)
    ensures
        corpus.flatten().contains(token) <==> document_frequency(corpus, token) > 0,
    decreases corpus.len(),
{
    if corpus.len() > 0 {
        let front = corpus.drop_last();
        let last = corpus.last();
        lemma_flatten_contains(front, token);
        assert(corpus =~= front.push(last));
        front.lemma_flatten_push(last);
        lemma_concat_contains(front.flatten(), last, token);
    }
}

/// A concatenation contains what either part contains.
pub proof fn lemma_concat_contains(a: Seq<Token>, b: Seq<Token>, token: Token)
    ensures
        (a + b).contains(token) <==> a.contains(token) || b.contains(token),
{
    let ab = a + b;
    if a.contains(token) {
        let i = choose|i: int| 0 <= i < a.len() && a[i] == token;
        assert(ab[i] == token);
    }
    if b.contains(token) {
        let i = choose|i: int| 0 <= i < b.len() && b[i] == token;
        assert(ab[a.len() + i] == token);
    }
}

/// A sequence with one more element contains what the shorter one contains,
/// and the new element.
pub proof fn lemma_push_contains(s: Seq<Token>, last: Token, token: Token)
    ensures
        s.push(last).contains(token) <==> s.contains(token) || last == token,
{
    assert(s.push(last) =~= s + seq![last]);
    lemma_concat_contains(s, seq![last], token);
    if last == token {
        assert(seq![last][0] == token);
    }
}

/// `first_occurrences` keeps every token of the stream, and each once.
pub proof fn lemma_first_occurrences(stream: Seq<Token>)
    ensures
        first_occurrences(stream).no_duplicates(),
        forall|token: Token| #[trigger]
            first_occurrences(stream).contains(token) <==> stream.contains(token),
    decreases stream.len(),
{
    if stream.len() > 0 {
        let front = stream.drop_last();
        let last = stream.last();
        let earlier = first_occurrences(front);
        lemma_first_occurrences(front);
        assert(stream =~= front.push(last));
        assert forall|token: Token| #[trigger]
            first_occurrences(stream).contains(token) <==> stream.contains(token) by {
            lemma_push_contains(earlier, last, token);
        }
        if !front.contains(last) {
            assert(!earlier.contains(last));
        }
    }
}

/// `frequent` keeps exactly the tokens that enough documents hold, and adds
/// no repetition.
pub proof fn lemma_frequent(tokens: Seq<Token>, corpus: Corpus, min_df: nat)
    ensures
        forall|token: Token| #[trigger]
            frequent(tokens, corpus, min_df).contains(token) <==> tokens.contains(token)
                && document_frequency(corpus, token) >= min_df,
        tokens.no_duplicates() ==> frequent(tokens, corpus, min_df).no_duplicates(),
        frequent(tokens, corpus, min_df).len() <= tokens.len(),
    decreases tokens.len(),
{
    if tokens.len() > 0 {
        let front = tokens.drop_last();
        let last = tokens.last();
        let earlier = frequent(front, corpus, min_df);
        lemma_frequent(front, corpus, min_df);
        assert(tokens =~= front.push(last));
        assert forall|token: Token| #[trigger]
            frequent(tokens, corpus, min_df).contains(token) <==> tokens.contains(token)
                && document_frequency(corpus, token) >= min_df by {
            lemma_push_contains(earlier, last, token);
        }
        if tokens.no_duplicates() {
            assert(!earlier.contains(last));
        }
    }
}

} // verus!
