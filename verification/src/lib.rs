//! A Markdown-to-HTML conversion library.
//!
//! The library covers the logic of a batch Markdown converter: splitting a
//! document into front matter and body, merging per-document metadata with
//! global rendering options, deciding whether an intra-site link may be
//! rewritten from `.md` to `.html`, and detecting output-name collisions
//! when many inputs are flattened into one directory.

pub mod args;
pub mod driver;
pub mod error;
pub mod front_matter;
pub mod index_set;
pub mod links;
pub mod logger;
pub mod metadata;
pub mod names;
pub mod paths;
pub mod policy;
pub mod pretty;
pub mod round_trip;
pub mod serialize;
pub mod text;

pub use links::has_hidden;
pub use links::is_illegal_filepath;
pub use links::split_url;
