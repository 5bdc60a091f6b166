//! Preparing text for the sentence-embedding model. Inference itself, and everything
//! done with the vectors it returns, is floating-point work outside the library.

pub mod embed;
pub mod index;
