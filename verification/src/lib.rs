//! Publication pipeline for an RSS digest: per-domain extraction strategy
//! selection, image discovery and rewriting under a fixed admission cap, and
//! deterministic assembly of articles into one packaged EPUB document.
pub mod assemble;
pub mod extract;
pub mod images;
pub mod models;
pub mod registry;
pub mod text;
