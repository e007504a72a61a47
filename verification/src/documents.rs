//! Documents and their records: a record holds the tokens of one document as
//! a JSON array of strings.

use crate::corpus::{Corpus, Document};
use crate::error::ModelError;
use vstd::prelude::*;

verus! {

/// `serde_json::Error`, the error of the JSON reader and writer. It is
/// declared so that it can be handed on; nothing is known of what it holds.
#[verifier::external_type_specification]
#[verifier::external_body]
pub struct ExJsonError(serde_json::Error);

/// What `serde_json::from_str` reads from `text` as a list of strings: the
/// strings, or nothing where it fails.
pub uninterp spec fn json_token_list(text: Seq<char>) -> Option<Document>;

/// Calls `serde_json::from_str` for a `Vec<String>`. Nothing is proved of it.
/// The contract claims that its outcome depends on the text alone, and gives
/// that outcome the name `json_token_list`: the strings read where it
/// succeeds, nothing where it fails.
#[verifier::external_body]
fn read_token_list(text: &str) -> (r: Result<Vec<String>, serde_json::Error>)
    ensures
        match r {
            Ok(tokens) => json_token_list(text@) == Some(tokens.deep_view()),
            Err(_) => json_token_list(text@) is None,
        },
{
    serde_json::from_str::<Vec<String>>(text)
}

/// What `serde_json::to_string` writes for a list of strings: the text, or
/// nothing where it fails.
pub uninterp spec fn json_of_token_list(tokens: Document) -> Option<Seq<char>>;

/// Calls `serde_json::to_string` on a `Vec<String>`. Nothing is proved of it.
/// The contract claims that its outcome depends on the strings alone, and
/// gives that outcome the name `json_of_token_list`: the text written where
/// it succeeds, nothing where it fails.
#[verifier::external_body]
fn write_token_list(tokens: &Vec<String>) -> (r: Result<String, serde_json::Error>)
    ensures
        match r {
            Ok(text) => json_of_token_list(tokens.deep_view()) == Some(text@),
            Err(_) => json_of_token_list(tokens.deep_view()) is None,
        },
{
    serde_json::to_string(tokens)
}

/// The record of a document: its tokens as a JSON array of strings.
pub fn encode_document(tokens: &Vec<String>) -> (r: Result<String, ModelError>)
    ensures
        match r {
            Ok(record) => json_of_token_list(tokens.deep_view()) == Some(record@),
            Err(e) => json_of_token_list(tokens.deep_view()) is None && e
                == ModelError::UnwritableDocument,
        },
{
    match write_token_list(tokens) {
        Ok(record) => Ok(record),
        Err(_) => Err(ModelError::UnwritableDocument),
    }
}

/// Every record is a list of tokens.
pub open spec fn all_readable(records: Seq<Seq<char>>) -> bool {
    forall|i: int| 0 <= i < records.len() ==> json_token_list(#[trigger] records[i]) is Some
}

/// The record at `index` is the first that is not a list of tokens.
pub open spec fn first_unreadable(records: Seq<Seq<char>>, index: int) -> bool {
    &&& 0 <= index < records.len()
    &&& json_token_list(records[index]) is None
    &&& forall|i: int| 0 <= i < index ==> json_token_list(#[trigger] records[i]) is Some
}

/// The corpus that the records hold: document `i` is the token list of
/// record `i`.
pub open spec fn token_lists(records: Seq<Seq<char>>) -> Corpus {
    Seq::new(records.len(), |i: int| json_token_list(records[i])->0)
}

/// One more document at the end of a vector of documents.
proof fn lemma_documents_push(before: Seq<Vec<String>>, after: Seq<Vec<String>>, last: Vec<String>)
    requires
        after == before.push(last),
    ensures
        Seq::new(after.len(), |i: int| after[i].deep_view()) == Seq::new(
            before.len(),
            |i: int| before[i].deep_view(),
        ).push(last.deep_view()),
{
}

/// Reads the documents of `records`, in their order. A record that is not a
/// JSON array of strings is an error, and the first such record is the one
/// reported; nothing is read in its place.
pub fn parse_documents(records: &Vec<String>) -> (r: Result<Vec<Vec<String>>, ModelError>)
    ensures
        match r {
            Ok(documents) => all_readable(records.deep_view()) && documents.deep_view()
                == token_lists(records.deep_view()),
            Err(ModelError::MalformedDocument { index }) => first_unreadable(
                records.deep_view(),
                index as int,
            ),
            Err(_) => false,
        },
{
    let ghost texts = records.deep_view();
    let mut documents: Vec<Vec<String>> = Vec::new();
    let mut i: usize = 0;
    while i < records.len()
        invariant
            i <= records.len(),
            texts == records.deep_view(),
            documents@.len() == i,
            all_readable(texts.take(i as int)),
            documents.deep_view() == token_lists(texts.take(i as int)),
        decreases records.len() - i,
    {
        let ghost read = documents@;
        match read_token_list(records[i].as_str()) {
            Ok(tokens) => {
                documents.push(tokens);
                proof {
                    lemma_documents_push(read, documents@, documents@[i as int]);
                }
            },
            Err(_) => {
                proof {
                    assert forall|k: int| 0 <= k < i implies json_token_list(
                        #[trigger] texts[k],
                    ) is Some by {
                        assert(texts.take(i as int)[k] == texts[k]);
                    }
                }
                return Err(ModelError::MalformedDocument { index: i });
            },
        }
        i += 1;
    }
    proof {
        assert(texts.take(i as int) =~= texts);
    }
    Ok(documents)
}

} // verus!
