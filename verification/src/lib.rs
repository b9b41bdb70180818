//! Schema-driven annotation of binary files.
//!
//! A format is described by a tree of [`rule::Rule`]s. The engine walks that
//! tree over a byte buffer and produces a tree of [`tree::ParsedData`] nodes,
//! each of which accounts for a range of the buffer. A second pass asks the
//! format for the display name of every child and for the explanation of every
//! node.
//!
//! * [`rule`] and [`expression`] hold the schema as data, [`schema`] reads it
//!   from a [`document`], and [`yaml`] reads a document from YAML text.
//! * [`semantics`] says what applying a rule means; [`engine`] computes it,
//!   with the variables of a parse in a [`context`].
//! * [`tree`] holds the nodes, and [`annotate`] fills in their names and
//!   explanations.
//! * [`parsers`] lists the formats; [`text_file_utf8`] and [`windows_bitmap`]
//!   hold what is particular to each.
//! * [`laws`] proves what holds of every tree that comes out.


pub mod annotate;
pub mod context;
pub mod document;
pub mod engine;
pub mod expression;
pub mod laws;
pub mod parsers;
pub mod rule;
pub mod schema;
pub mod semantics;
pub mod text;
pub mod text_file_utf8;
pub mod tree;
pub mod windows_bitmap;
pub mod yaml;
