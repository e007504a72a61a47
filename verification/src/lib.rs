//! Topic extraction from a corpus of plain-text documents.
//!
//! A corpus is turned into topics in four steps: a vocabulary is built from
//! the tokens that enough documents hold; the documents are weighted against
//! it by TF-IDF; the matrix of weights is factorized into a document-topic
//! and a topic-term matrix by non-negative matrix factorization; and each
//! topic is reported by its heaviest terms.
//!
//! This library holds what of these steps is exact: the tokens of a text
//! ([`preprocessing`]), the records of the documents ([`documents`]), the
//! vocabulary ([`vocabulary`]), the counts that the weights are made of
//! ([`tfidf`]), the schedule of the factorization ([`nmf`]), and the labels
//! and the table of the report ([`report`]). [`modeling`] leads from the
//! records to the factorization problem. The arithmetic on the weights is
//! floating-point arithmetic and is left to the caller, who gets counts from
//! the library and hands it ranks and formatted cells.
//!
//! Every function is stated over the mathematical model of [`corpus`] and
//! proved against its statement.

pub mod corpus;
pub mod documents;
pub mod error;
pub mod modeling;
pub mod nmf;
pub mod preprocessing;
pub mod report;
pub mod text;
pub mod tfidf;
pub mod vocabulary;
