//! Markdown preview and search core: heading extraction, anchored tables of
//! content, theme stylesheets, code-fence highlighting decisions, git URL
//! validation, and a fuzzy searcher over an index of Markdown files.

use vstd::prelude::*;

pub mod text;
pub mod headings;
pub mod results;
pub mod disk;
pub mod git;
pub mod theme;
pub mod highlight;
pub mod preview;
pub mod grammars;

verus! {

} // verus!
