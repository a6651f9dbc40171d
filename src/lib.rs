//! An in-memory inverted index: documents are split into lowercase terms,
//! each term maps to the ids of the documents that hold it, and a query
//! returns the matching documents with every occurrence of the term marked.

pub mod tokenizer;
pub mod highlight;
pub mod index;
pub mod matcher;

pub use highlight::{highlight, highlight_marked, mark_matches};
pub use index::{Document, InvertedIndex};
pub use tokenizer::tokenize;
