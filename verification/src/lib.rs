//! Links to the standard library's documentation for the chapters of a
//! book: references such as a bracketed code span that names an item are
//! found in a chapter, handed to a resolver, and written back as links to
//! the online documentation.

pub mod engine;
pub mod error;
pub mod link;
pub mod relative;
pub mod resolve;
pub mod rewrite;
pub mod scan;
pub mod select;
pub mod text;

pub use crate::error::LinkError;
pub use crate::link::Link;
pub use crate::relative::{relative_url, relativize_enabled};
pub use crate::resolve::{extract_urls, resolver_input, rustdoc_source};
pub use crate::rewrite::{link_definitions, rewrite_chapter, rewrite_links, std_links};
pub use crate::scan::collect_markdown_links;
pub use crate::select::select_links;
