//! Marxt: resolves a path to text lines and marks up heading lines.
//!
//! [`MarxtResource::from`] turns what the filesystem shows of a path into the
//! lines of a file, the entries of a directory, or an unprocessable marker.
//! [`MarxtResource::parse`] then gives each line its text and emphasis level
//! under a [`RuleTable`].
pub mod laws;
pub mod lines;
pub mod markup;
pub mod resource;
pub mod text;

pub use lines::split_lines;
pub use markup::{mark_up, Parsed, RuleTable, NORMAL};
pub use resource::{MarxtResource, Probe};
pub use text::{chars_of, is_blank};
