//! Markdown utilities: a model of a project's directory tree, a table of
//! contents built from a document's headings, a rendering of the directory
//! tree, and the rewrite of the placeholder blocks that hold both.
pub mod text;
pub mod tree;
pub mod index;
pub mod toc;
pub mod rewrite;
