//! The middle of the Coddl compiler: from a type-checked program to procedural
//! code in single-assignment form, with relational work left to the database
//! where it can do it.
//!
//! * [`rel_expr`] is the algebra of relational expressions, [`rel_analysis`] what
//!   is known of one without evaluating it (heading, origin, keys, cardinality),
//!   [`rel_meaning`] what it evaluates to, and [`rel_laws`] proves the first
//!   sound for the second. [`rel_render`] prints a tree of them. [`heading_laws`]
//!   and [`nesting_laws`] are about headings alone.
//! * [`cut`] decides which expressions the database evaluates.
//! * [`ir`] is the procedural code, [`ir_text`] its printed form (with
//!   [`const_laws`] about constants), [`layout`] how tuples lie in memory, and
//!   [`codegen`] what turns a module into an artifact.
//! * [`lower`] makes a module of a program ([`ast`]); [`lower::valid`] proves that
//!   the module is well formed.
//! * [`provision`] folds a catalog into the tables that its database has to hold.
//!
//! Nothing here does input or output. Where a step needs something from outside,
//! such as the text of an SQL statement, it stops and says what it needs.

pub mod ast;
pub mod codegen;
pub mod const_laws;
pub mod cut;
pub mod diag;
pub mod heading_laws;
pub mod ir;
pub mod ir_text;
pub mod layout;
pub mod literals;
pub mod lower;
pub mod nesting_laws;
pub mod provision;
pub mod rel_analysis;
pub mod rel_expr;
pub mod rel_laws;
pub mod rel_meaning;
pub mod rel_render;
pub mod text;
pub mod types;
