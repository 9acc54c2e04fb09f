//! Extractive summarisation: a summary is made of sentences of the document
//! itself, the ones that rank best in a graph of sentence similarities.
//!
//! The library splits a document into sentences, decides which sentences are
//! embedded, lays out the similarity matrix, and chooses the best-ranked
//! sentences in the order in which they stand in the document. Embedding a
//! sentence and the numeric ranking are done by the caller, whom
//! `summarizer` tells what to obtain next; a score enters as an integer key
//! that orders as the score does.

pub mod cost;
pub mod error;
pub mod selection;
pub mod sentences;
pub mod similarity;
pub mod summarizer;
pub mod summary;
pub mod text;
