//! Text chunking, prompt building and the small pieces of decision logic
//! around a retrieval-augmented question answering tool over a novel.

pub mod chunk;
pub mod db;
pub mod parse;
pub mod rag;
pub mod session;
pub mod text;
