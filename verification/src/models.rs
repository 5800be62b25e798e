//! The data the pipeline works on: articles, extraction processors and their
//! configuration, image assets, and the error taxonomy.
use vstd::prelude::*;

verus! {

/// The kind of content-extraction behavior a processor selects.
#[derive(Clone, Copy, PartialEq, Eq, Structural, Debug)]
pub enum ProcessorType {
    Default,
    DomSmoothie,
    TextOnly,
    Custom,
}

/// A named extraction policy; persisted externally and referenced by id.
/// `custom_config` is only meaningful when `processor` is `Custom`.
#[derive(Debug)]
pub struct ContentProcessor {
    pub id: i64,
    pub processor: ProcessorType,
    pub custom_config: Option<String>,
}

impl Clone for ContentProcessor {
    fn clone(&self) -> (r: Self)
        ensures
            r == *self,
    {
        let custom_config = match &self.custom_config {
            Some(s) => Some(s.clone()),
            None => None,
        };
        ContentProcessor { id: self.id, processor: self.processor, custom_config }
    }
}

/// Whether a custom extractor emits serialized markup or plain text.
#[derive(Clone, Copy, PartialEq, Eq, Structural, Debug)]
pub enum OutputMode {
    Html,
    Text,
}

/// Configuration of a custom extractor: selectors to keep, selectors to
/// discard first, and the output mode.
#[derive(Clone, Debug)]
pub struct CustomExtractorConfig {
    pub selector: Vec<String>,
    pub discard: Vec<String>,
    pub output_mode: OutputMode,
}

/// One fetched article. `content` is replaced, stage by stage, as the
/// pipeline rewrites it; `pub_date` is seconds since the Unix epoch.
#[derive(Clone, Debug)]
pub struct Article {
    pub source: String,
    pub title: String,
    pub link: String,
    pub content: String,
    pub pub_date: i64,
}

/// One transformed image: its generated filename (unique within a run), the
/// encoded bytes, and the media type.
#[derive(Clone, Debug)]
pub struct ImageAsset {
    pub filename: String,
    pub data: Vec<u8>,
    pub mime: String,
}

/// Static service configuration.
#[derive(Clone, Debug)]
pub struct Config {
    pub feeds: Vec<String>,
    pub output_dir: String,
}

/// Malformed or missing custom-extractor configuration.
#[derive(Clone, PartialEq, Eq, Structural, Debug)]
pub enum ConfigError {
    /// A Custom processor was requested without a configuration blob.
    MissingCustomConfig,
    /// The configuration text does not follow the documented format.
    MalformedConfig,
}

/// A failed extraction, tagged by the strategy kind that failed.
#[derive(Clone, Debug)]
pub struct ExtractionError {
    pub kind: ProcessorType,
    pub message: String,
}

/// A failed image decode, transform or encode.
#[derive(Clone, Debug)]
pub struct TransformError {
    pub message: String,
}

/// A failed document assembly; fatal to the whole generation request.
#[derive(Clone, Debug)]
pub enum AssemblyError {
    /// The packaging container refused an operation.
    Container(String),
    /// Two distinct source labels produce the same slug, so their
    /// per-source pages would collide.
    SlugCollision(String),
}

} // verus!
