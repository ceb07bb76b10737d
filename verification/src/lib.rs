//! Lookup tables built from bundled linguistic resources: per-language
//! stem maps, word-cluster maps and gazetteer sets.
//!
//! Raw resource bytes are handed in by the caller (the bundling of the
//! files is not this crate's concern) and flow through the
//! delimited-record parser or line splitting, the normalizer — and, for
//! gazetteers, the light tokenizer — into a builder, whose output a
//! [`cache::ResourceCache`] serves for the rest of the process. Every
//! contract states the built structure as a function of the source bytes,
//! so repeated builds agree, stem and gazetteer entries are canonical,
//! and a malformed source is rejected exactly where the contracts say.

pub mod cache;
pub mod error;
pub mod gazetteer;
pub mod records;
pub mod stems;
pub mod text;
pub mod word_clusters;
pub mod word_map;

pub use error::Error;
pub use text::normalize;
