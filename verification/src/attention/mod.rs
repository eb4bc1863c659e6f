//! Which messages are delivered, and which embeddings go out with those that are sent.

pub mod embedding_plugin;
pub mod layer;
pub mod outbound;
pub mod receptor;
pub mod similarity;
