//! Renders a collection of code snippets as one static HTML report.
//!
//! Snippets carry tags; only snippets tagged `public` appear in the report.
//! Each visible snippet becomes one table row holding its escaped title, its
//! body with variable and placeholder markup, and one badge per tag other
//! than `public`. The document is a fixed header, the rows in input order,
//! and a fixed footer.

pub mod document;
pub mod escape;
pub mod markup;
pub mod numfmt;
pub mod render;
pub mod tags;

pub use crate::document::{assemble, footer, header, Entry};
pub use crate::escape::escape;
pub use crate::markup::annotate;
pub use crate::render::{render, Snippet};
pub use crate::tags::{format_tags, Tag};
