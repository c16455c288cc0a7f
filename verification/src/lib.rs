//! Mirrors a single web page into a self-contained set of local files: the
//! page text is fetched, every same-origin resource it references
//! (stylesheets with their `@import` chains and fonts, scripts, images,
//! icons, anchor targets) is fetched in turn, and all references are
//! rewritten to local relative paths.
//!
//! The resolution, classification and rewriting engine is verified; the HTTP
//! transport is reached only through the [`types::Fetcher`] capability.
pub mod css;
pub mod fetch;
pub mod html;
pub mod stylesheet;
pub mod text;
pub mod types;
pub mod urls;
