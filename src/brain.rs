//! The boundary to the language model.
pub mod tactical_llm;
