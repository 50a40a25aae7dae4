//! A memory store for an assistant: records in three corpora, found again
//! by a lexical index and by vectors, ranked with an eye on their age.
//!
//! The crate holds the rules of the store: how a text is cut into chunks,
//! how vectors are laid out in blobs, when two contents count as the same,
//! how lexical and semantic scores are fused, and which corpora an
//! operation reaches. The engine under a corpus is SQLite.
//!
//! Scores are whole numbers of billionths. The numbers that need
//! floating-point arithmetic, the similarity of two vectors and the
//! recency of a record, are taken from the caller.

pub mod chunking;
pub mod clock;
pub mod dedup;
pub mod dispatch;
pub mod embedding;
pub mod fts;
pub mod ident;
pub mod params;
pub mod rank;
pub mod score;
pub mod search;
pub mod session;
pub mod sql;
pub mod storage;
pub mod text;
