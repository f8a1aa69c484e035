//! Change-impact analysis core: given the lines that changed in a source
//! tree, find the named constructs ("symbols") those lines belong to, and
//! search the project for references that denote them, honoring the
//! dialect's module scoping and import-aliasing rules.
//!
//! Parsing source text into a concrete syntax tree, reading files, walking
//! directories and talking to version control are external concerns; the
//! caller hands this library a [`tree::SyntaxNode`] and plain values.

pub mod changes;
pub mod impact;
pub mod language;
pub mod paths;
pub mod resolve;
pub mod symbol;
pub mod symbol_kind;
pub mod text;
pub mod tree;
pub mod usage;
pub mod views;

pub use text::pascal_case;
