//! The vocabulary: the tokens that enough documents hold, each with a dense
//! index of its own.

use crate::corpus::{
    document_frequency, first_occurrences, frequent, lemma_concat_contains,
    lemma_document_frequency_bound, lemma_first_occurrences, lemma_flatten_contains,
    lemma_frequent, lemma_push_contains, vocabulary_tokens, Corpus, Token,
};
use vstd::hash_map::StringHashMap;
use vstd::prelude::*;

verus! {

/// `slots` sends each token of `tokens` to its position, and holds no other
/// key.
spec fn indexes(tokens: Seq<Token>, slots: Map<Token, usize>) -> bool {
    &&& forall|i: int|
        0 <= i < tokens.len() ==> slots.contains_key(#[trigger] tokens[i]) && slots[tokens[i]] == i
    &&& forall|token: Token| #[trigger]
        slots.contains_key(token) ==> slots[token] < tokens.len() && tokens[slots[token] as int]
            == token
}

/// A new token goes to the end of an indexed sequence, under the next index.
proof fn lemma_indexes_push(tokens: Seq<Token>, slots: Map<Token, usize>, token: Token)
    requires
        indexes(tokens, slots),
        !tokens.contains(token),
        tokens.len() <= usize::MAX,
    ensures
        indexes(tokens.push(token), slots.insert(token, tokens.len() as usize)),
{
}

/// The view of a vector of strings grows with the vector.
proof fn lemma_strings_push(before: Seq<String>, after: Seq<String>, last: String)
    requires
        after == before.push(last),
    ensures
        Seq::new(after.len(), |i: int| after[i].deep_view()) == Seq::new(
            before.len(),
            |i: int| before[i].deep_view(),
        ).push(last@),
{
}

/// The index of `token` in `vocab`, if it stands there.
pub open spec fn index_in(vocab: Seq<Token>, token: Token) -> Option<int> {
    if vocab.contains(token) {
        Some(vocab.index_of(token))
    } else {
        None
    }
}

/// Among distinct tokens, tokens and indices correspond one to one: the token
/// at index `i` has index `i`, and a token that has index `i` stands at `i`,
/// which lies below the size.
pub proof fn lemma_indices_are_a_bijection(vocab: Seq<Token>)
    requires
        vocab.no_duplicates(),
    ensures
        forall|i: int| 0 <= i < vocab.len() ==> index_in(vocab, #[trigger] vocab[i]) == Some(i),
        forall|token: Token|
            (#[trigger] index_in(vocab, token)) matches Some(i) ==> 0 <= i < vocab.len() && vocab[i]
                == token,
{
}

/// The vocabulary of a corpus holds no token twice, so that its indices are
/// a bijection between its tokens and the numbers below its size.
pub proof fn lemma_vocabulary_is_indexed(corpus: Corpus, min_df: nat)
    ensures
        vocabulary_tokens(corpus, min_df).no_duplicates(),
        forall|i: int|
            0 <= i < vocabulary_tokens(corpus, min_df).len() ==> index_in(
                vocabulary_tokens(corpus, min_df),
                #[trigger] vocabulary_tokens(corpus, min_df)[i],
            ) == Some(i),
        forall|token: Token|
            (#[trigger] index_in(vocabulary_tokens(corpus, min_df), token)) matches Some(i) ==> 0
                <= i < vocabulary_tokens(corpus, min_df).len() && vocabulary_tokens(
                corpus,
                min_df,
            )[i] == token,
{
    lemma_first_occurrences(corpus.flatten());
    lemma_frequent(first_occurrences(corpus.flatten()), corpus, min_df);
}

/// Under a threshold of at least one, the vocabulary of a corpus holds a
/// token exactly when at least `min_df` documents hold it: every token of the
/// vocabulary has a document frequency of `min_df` or more, and every other
/// token one below `min_df`.
pub proof fn lemma_vocabulary_threshold(corpus: Corpus, min_df: nat, token: Token)
    requires
        min_df >= 1,
    ensures
        vocabulary_tokens(corpus, min_df).contains(token) <==> document_frequency(corpus, token)
            >= min_df,
{
    lemma_first_occurrences(corpus.flatten());
    lemma_frequent(first_occurrences(corpus.flatten()), corpus, min_df);
    lemma_flatten_contains(corpus, token);
}

/// Whatever the threshold, every token of the vocabulary is held by at least
/// `min_df` documents, and by one at least.
pub proof fn lemma_vocabulary_members(corpus: Corpus, min_df: nat, token: Token)
    ensures
        vocabulary_tokens(corpus, min_df).contains(token) <==> document_frequency(corpus, token)
            >= min_df && document_frequency(corpus, token) >= 1,
{
    lemma_first_occurrences(corpus.flatten());
    lemma_frequent(first_occurrences(corpus.flatten()), corpus, min_df);
    lemma_flatten_contains(corpus, token);
}

/// A threshold above the number of documents leaves the vocabulary empty, and
/// so does a corpus without documents.
pub proof fn lemma_vocabulary_empty(corpus: Corpus, min_df: nat)
    requires
        min_df > corpus.len() || corpus.len() == 0,
    ensures
        vocabulary_tokens(corpus, min_df).len() == 0,
{
    let vocab = vocabulary_tokens(corpus, min_df);
    if vocab.len() > 0 {
        let token = vocab[0];
        lemma_vocabulary_members(corpus, min_df, token);
        lemma_document_frequency_bound(corpus, token);
    }
}

/// A vocabulary: distinct tokens, each under the index at which it stands.
///
/// Its view is the sequence of its tokens in index order, so that the token
/// with index `i` is `self@[i]`.
pub struct Vocabulary {
    tokens: Vec<String>,
    slots: StringHashMap<usize>,
}

impl View for Vocabulary {
    type V = Seq<Token>;

    closed spec fn view(&self) -> Seq<Token> {
        self.tokens.deep_view()
    }
}

impl Vocabulary {
    /// The lookup table agrees with the token list.
    #[verifier::type_invariant]
    spec fn well_formed(&self) -> bool {
        indexes(self.tokens.deep_view(), self.slots@)
    }

    /// The number of tokens. The indices are the numbers below it.
    pub fn len(&self) -> (n: usize)
        ensures
            n == self@.len(),
    {
        self.tokens.len()
    }

    /// The token with index `i`, if there is one.
    pub fn term(&self, i: usize) -> (r: Option<&String>)
        ensures
            i < self@.len() ==> r is Some && r->0@ == self@[i as int],
            i >= self@.len() ==> r is None,
    {
        if i < self.tokens.len() {
            Some(&self.tokens[i])
        } else {
            None
        }
    }

    /// The index of `token`, if the vocabulary holds it. No two tokens share
    /// an index, and every index below `len()` belongs to a token.
    pub fn index_of(&self, token: &str) -> (r: Option<usize>)
        ensures
            match r {
                Some(i) => index_in(self@, token@) == Some(i as int) && i < self@.len()
                    && self@[i as int] == token@,
                None => index_in(self@, token@) is None && !self@.contains(token@),
            },
            self@.no_duplicates(),
    {
        proof {
            use_type_invariant(self);
        }
        match self.slots.get(token) {
            Some(i) => Some(*i),
            None => None,
        }
    }

    /// Whether the vocabulary holds `token`.
    pub fn contains(&self, token: &str) -> (b: bool)
        ensures
            b == self@.contains(token@),
    {
        proof {
            use_type_invariant(self);
        }
        self.slots.contains_key(token)
    }

    /// The tokens in index order.
    pub fn tokens(&self) -> (r: &Vec<String>)
        ensures
            r.deep_view() == self@,
    {
        &self.tokens
    }
}

/// Builds the vocabulary of `documents`: the distinct tokens that at least
/// `min_df` documents hold. A token is counted once for each document that
/// holds it, however often it occurs there. Indices follow the order in which
/// the tokens first appear in the corpus, so that equal inputs give equal
/// vocabularies.
pub fn build_vocabulary(documents: &Vec<Vec<String>>, min_df: usize) -> (vocab: Vocabulary)
    ensures
        vocab@ == vocabulary_tokens(documents.deep_view(), min_df as nat),
        vocab@.no_duplicates(),
        forall|token: Token| #[trigger]
            vocab@.contains(token) <==> document_frequency(documents.deep_view(), token) >= min_df
                && document_frequency(documents.deep_view(), token) >= 1,
{
    let ghost corpus = documents.deep_view();
    let mut seen: Vec<String> = Vec::new();
    let mut slots: StringHashMap<usize> = StringHashMap::new();
    let mut counts: Vec<usize> = Vec::new();
    let mut stamps: Vec<usize> = Vec::new();
    let mut d: usize = 0;
    while d < documents.len()
        invariant
            d <= documents.len(),
            corpus == documents.deep_view(),
            seen.deep_view() == first_occurrences(corpus.take(d as int).flatten()),
            indexes(seen.deep_view(), slots@),
            counts.len() == seen.len(),
            stamps.len() == seen.len(),
            forall|p: int|
                0 <= p < seen.len() ==> #[trigger] counts[p] == document_frequency(
                    corpus.take(d as int),
                    seen.deep_view()[p],
                ),
            forall|p: int| 0 <= p < seen.len() ==> #[trigger] stamps[p] <= d,
        decreases documents.len() - d,
    {
        let doc = &documents[d];
        let ghost before = corpus.take(d as int);
        let ghost text = corpus[d as int];
        let mut j: usize = 0;
        while j < doc.len()
            invariant
                j <= doc.len(),
                d < documents.len(),
                corpus == documents.deep_view(),
                before == corpus.take(d as int),
                text == corpus[d as int],
                text == doc.deep_view(),
                seen.deep_view() == first_occurrences(before.flatten() + text.take(j as int)),
                indexes(seen.deep_view(), slots@),
                counts.len() == seen.len(),
                stamps.len() == seen.len(),
                forall|p: int|
                    0 <= p < seen.len() ==> #[trigger] counts[p] == document_frequency(
                        before,
                        seen.deep_view()[p],
                    ) + if text.take(j as int).contains(seen.deep_view()[p]) {
                        1nat
                    } else {
                        0nat
                    },
                forall|p: int| 0 <= p < seen.len() ==> #[trigger] stamps[p] <= d + 1,
                forall|p: int|
                    0 <= p < seen.len() ==> (#[trigger] stamps[p] == d + 1 <==> text.take(
                        j as int,
                    ).contains(seen.deep_view()[p])),
            decreases doc.len() - j,
        {
            let token = &doc[j];
            let ghost stream = before.flatten() + text.take(j as int);
            let ghost known = seen.deep_view();
            proof {
                assert(text.take(j as int + 1) =~= text.take(j as int).push(token@));
                assert(stream.push(token@).drop_last() =~= stream);
                lemma_first_occurrences(stream);
                assert forall|p: int| 0 <= p < known.len() implies (text.take(
                    j as int + 1,
                ).contains(#[trigger] known[p]) <==> text.take(j as int).contains(known[p])
                    || known[p] == token@) by {
                    lemma_push_contains(text.take(j as int), token@, known[p]);
                }
            }
            match slots.get(token.as_str()) {
                Some(slot) => {
                    let p = *slot;
                    assert(known.contains(token@));
                    if stamps[p] != d + 1 {
                        proof {
                            lemma_document_frequency_bound(before, token@);
                        }
                        let count = counts[p] + 1;
                        counts.set(p, count);
                        stamps.set(p, d + 1);
                    }
                },
                None => {
                    proof {
                        assert(!known.contains(token@));
                        lemma_concat_contains(before.flatten(), text.take(j as int), token@);
                        lemma_flatten_contains(before, token@);
                    }
                    let position = seen.len();
                    slots.insert(token.clone(), position);
                    seen.push(token.clone());
                    counts.push(1);
                    stamps.push(d + 1);
                    proof {
                        assert(seen.deep_view() == first_occurrences(stream.push(token@)));
                    }
                },
            }
            j += 1;
        }
        proof {
            assert(text.take(j as int) =~= text);
            assert(corpus.take(d as int + 1) =~= before.push(text));
            before.lemma_flatten_push(text);
            assert(corpus.take(d as int + 1).drop_last() =~= before);
        }
        d += 1;
    }
    proof {
        assert(corpus.take(d as int) =~= corpus);
        lemma_first_occurrences(corpus.flatten());
    }
    let ghost distinct = seen.deep_view();
    let mut tokens: Vec<String> = Vec::new();
    let mut index: StringHashMap<usize> = StringHashMap::new();
    let mut p: usize = 0;
    while p < seen.len()
        invariant
            p <= seen.len(),
            corpus == documents.deep_view(),
            distinct == seen.deep_view(),
            distinct == first_occurrences(corpus.flatten()),
            distinct.no_duplicates(),
            counts.len() == seen.len(),
            forall|q: int|
                0 <= q < seen.len() ==> #[trigger] counts[q] == document_frequency(
                    corpus,
                    distinct[q],
                ),
            tokens.deep_view() == frequent(distinct.take(p as int), corpus, min_df as nat),
            indexes(tokens.deep_view(), index@),
        decreases seen.len() - p,
    {
        let ghost chosen = tokens.deep_view();
        let ghost old_tokens = tokens@;
        proof {
            assert(distinct.take(p as int + 1).drop_last() =~= distinct.take(p as int));
            lemma_frequent(distinct.take(p as int), corpus, min_df as nat);
        }
        if counts[p] >= min_df {
            let token = &seen[p];
            proof {
                lemma_indexes_push(chosen, index@, token@);
            }
            let position = tokens.len();
            index.insert(token.clone(), position);
            tokens.push(token.clone());
            proof {
                lemma_strings_push(old_tokens, tokens@, tokens@[position as int]);
            }
        }
        p += 1;
    }
    proof {
        assert(distinct.take(p as int) =~= distinct);
        lemma_frequent(distinct, corpus, min_df as nat);
        assert forall|token: Token| #[trigger]
            tokens.deep_view().contains(token) <==> document_frequency(corpus, token) >= min_df
                && document_frequency(corpus, token) >= 1 by {
            lemma_flatten_contains(corpus, token);
        }
    }
    Vocabulary { tokens, slots: index }
}

} // verus!
