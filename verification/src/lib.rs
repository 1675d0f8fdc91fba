//! Markdown documents as walkable worlds: the verified core.

pub mod doc;
pub mod draft;
pub mod generation;
pub mod hash;
pub mod laws;
pub mod llm;
pub mod markdown;
pub mod recipe;
pub mod sidecar;
pub mod smoke;
pub mod text;
pub mod tour;
pub mod watch;
