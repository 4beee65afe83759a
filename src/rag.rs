//! Episodic memory retrieval: text embeddings and a nearest-neighbour index.
pub mod embedding;
pub mod index;
