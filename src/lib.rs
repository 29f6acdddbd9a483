//! Content engine of a personal site: markdown pages rendered to HTML with margin notes and
//! a page template, and a post table kept in step with a JSON snapshot.
//!
//! - `sidenote`: expansion of `(:sidenote ... :sidenote)` markers into margin notes.
//! - `render`: the rendering pipeline (`RenderBuilder`) and the pages built on it.
//! - `template`: the page and listing templates (`TemplateComposer`).
//! - `store`: the post table (`DbConnection`) and its snapshot load and dump.
//! - `post`: post records, dates and file locations.
//! - `upload`: decoding of uploaded content.
//! - `text`: character-level string helpers.
use vstd::prelude::*;

pub mod post;
pub mod render;
pub mod sidenote;
pub mod store;
pub mod template;
pub mod text;
pub mod upload;

verus! {

} // verus!
