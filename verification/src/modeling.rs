//! The way from the records of a corpus to its factorization problem.

use crate::corpus::{vocabulary_tokens, Corpus};
use crate::documents::{all_readable, first_unreadable, parse_documents, token_lists};
use crate::error::ModelError;
use crate::nmf::{Schedule, Verdict};
use crate::tfidf::{count_terms, lemma_counts_are_determined, TermCounts};
use crate::vocabulary::{build_vocabulary, Vocabulary};
use vstd::prelude::*;

verus! {

/// The integer parameters of a run.
#[derive(Clone, Copy, Debug, PartialEq, Eq, Structural)]
pub struct Settings {
    /// The least number of documents that must hold a token of the
    /// vocabulary.
    pub min_df: usize,
    /// The number of topics: the rank of the factorization.
    pub topics: usize,
    /// The iteration budget of the factorization.
    pub max_iter: usize,
    /// The most terms that the label of a topic names.
    pub top_terms: usize,
    /// The seed of the random factors that the factorization starts from.
    /// Without one they differ from run to run.
    pub seed: Option<u64>,
}

impl Default for Settings {
    /// Tokens of at least three documents, five topics, at most two hundred
    /// iterations, ten terms to a label, and no seed.
    fn default() -> (s: Settings)
        ensures
            s == (Settings { min_df: 3, topics: 5, max_iter: 200, top_terms: 10, seed: None }),
    {
        Settings { min_df: 3, topics: 5, max_iter: 200, top_terms: 10, seed: None }
    }
}

/// A factorization problem: what is to be factorized, into how many topics,
/// and for how long.
///
/// The matrix `V` to factorize has one row for each document and one column
/// for each token of the vocabulary; `counts` holds the integers that its
/// entries are made of. The factors are `W`, with one row for each document
/// and one column for each topic, and `H`, with one row for each topic and
/// one column for each token.
pub struct Problem {
    /// The tokens that are scored, each under its column.
    pub vocabulary: Vocabulary,
    /// The counts of the corpus against the vocabulary.
    pub counts: TermCounts,
    /// The schedule of the iteration, with no iteration done.
    pub schedule: Schedule,
    /// The parameters that the problem was made with.
    pub settings: Settings,
}

impl Problem {
    /// The problem is the one that `corpus` poses under `settings`.
    pub open spec fn poses(&self, corpus: Corpus, settings: Settings) -> bool {
        &&& self.settings == settings
        &&& self.vocabulary@ == vocabulary_tokens(corpus, settings.min_df as nat)
        &&& self.counts.describes(corpus, self.vocabulary@)
        &&& self.schedule.budget() == settings.max_iter
        &&& self.schedule.completed() == 0
        &&& self.schedule.standing() == if settings.max_iter == 0 {
            Verdict::Exhausted
        } else {
            Verdict::Continue
        }
    }
}

/// Nothing in the preparation is left to chance: two problems that the same
/// corpus poses under the same settings have the same vocabulary, index for
/// index, and the same counts, entry for entry.
pub proof fn lemma_preparation_is_repeatable(
    corpus: Corpus,
    settings: Settings,
    first: Problem,
    second: Problem,
)
    requires
        first.poses(corpus, settings),
        second.poses(corpus, settings),
    ensures
        first.vocabulary@ == second.vocabulary@,
        first.counts.counts.deep_view() == second.counts.counts.deep_view(),
        first.counts.matched@ == second.counts.matched@,
        first.counts.doc_freq@ == second.counts.doc_freq@,
{
    lemma_counts_are_determined(corpus, first.vocabulary@, first.counts, second.counts);
}

/// Poses the factorization problem of `documents` under `settings`: builds
/// the vocabulary, counts the documents against it, and sets the schedule
/// up. A corpus without documents, or without any token frequent enough, is
/// no error: its matrix has no row, or no column. To ask for no topic is an
/// error.
pub fn prepare(documents: &Vec<Vec<String>>, settings: Settings) -> (r: Result<Problem, ModelError>)
    ensures
        match r {
            Ok(problem) => settings.topics > 0 && problem.poses(documents.deep_view(), settings),
            Err(e) => settings.topics == 0 && e == ModelError::NoTopics,
        },
{
    if settings.topics == 0 {
        return Err(ModelError::NoTopics);
    }
    let vocabulary = build_vocabulary(documents, settings.min_df);
    let counts = count_terms(documents, &vocabulary);
    let schedule = Schedule::new(settings.max_iter);
    Ok(Problem { vocabulary, counts, schedule, settings })
}

/// Reads the documents of `records` and poses their factorization problem
/// under `settings`. An unreadable record is reported before the settings
/// are looked at.
pub fn start_with(records: &Vec<String>, settings: Settings) -> (r: Result<Problem, ModelError>)
    ensures
        match r {
            Ok(problem) => all_readable(records.deep_view()) && settings.topics > 0
                && problem.poses(token_lists(records.deep_view()), settings),
            Err(ModelError::MalformedDocument { index }) => first_unreadable(
                records.deep_view(),
                index as int,
            ),
            Err(ModelError::NoTopics) => all_readable(records.deep_view()) && settings.topics == 0,
            Err(_) => false,
        },
{
    match parse_documents(records) {
        Ok(documents) => prepare(&documents, settings),
        Err(e) => Err(e),
    }
}

/// Reads the documents of `records` and poses their factorization problem
/// under the default settings.
pub fn start(records: &Vec<String>) -> (r: Result<Problem, ModelError>)
    ensures
        match r {
            Ok(problem) => all_readable(records.deep_view()) && problem.poses(
                token_lists(records.deep_view()),
                (Settings { min_df: 3, topics: 5, max_iter: 200, top_terms: 10, seed: None }),
            ),
            Err(ModelError::MalformedDocument { index }) => first_unreadable(
                records.deep_view(),
                index as int,
            ),
            Err(_) => false,
        },
{
    start_with(records, Settings::default())
}

} // verus!
