//! Memory and mood core of a conversational companion agent: a per-user
//! personality record with a deterministic transition engine, and a per-user
//! episodic memory searched by vector similarity.
pub mod brain;
pub mod companion;
pub mod prime_core;
pub mod rag;
pub mod security;
pub mod text;
