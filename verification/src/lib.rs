//! Derivation of formatting implementations from annotated type
//! declarations.
//!
//! A declaration carries directives such as `display(fmt = "...", args)`.
//! From the declaration and the behaviour to implement (`Display`, `Debug`,
//! `Binary`, ...) the library derives what the implementation consists of:
//! the arms of a match on `self`, each with what it writes, and the bounds
//! that the implementation needs on the types of the fields.
//!
//! - `text`, `parsing`, `grammar`: characters, the placeholders of a format
//!   string, and the grammar of one placeholder;
//! - `behavior`, `placeholder`: the nine behaviours, and placeholders
//!   resolved to the argument they take and the behaviour they ask for;
//! - `meta`, `declaration`: what comes in, as plain data;
//! - `directive`, `bounds`, `display`: the derivation;
//! - `generated`, `error`: what comes out;
//! - `syntax`: what is asked of `syn`;
//! - `laws`: what holds of every format string and of every declaration.

pub mod text;

pub mod parsing;

pub mod grammar;

pub mod behavior;

pub mod placeholder;

pub mod meta;

pub mod declaration;

pub mod error;

pub mod generated;

pub mod syntax;

pub mod collect;

pub mod directive;

pub mod bounds;

pub mod display;

pub mod laws;
