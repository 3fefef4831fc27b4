//! Derivations over annotated type declarations, computed on a model of the
//! declaration and stated with proofs.
//!
//! * `model` holds the declaration model: records, enumerations, fields,
//!   type references, attributes.
//! * `attribute` resolves a key in an attribute list and rejects attributes
//!   of the wrong shape.
//! * `builder` plans the companion type that gathers a record's fields;
//!   `accumulator` says what that companion does when it runs.
//! * `debug` plans the formatter of a record and infers the constraints it
//!   needs.
//! * `sorted` checks that the variants of an enumeration, and the arms of
//!   tagged dispatch expressions, are declared in sorted order; `order` holds
//!   the stable order they are compared against, and `text` the order of
//!   names.
//! * `diagnostic` holds the located errors that every derivation reports.

pub mod accumulator;
pub mod attribute;
pub mod builder;
pub mod debug;
pub mod diagnostic;
pub mod model;
pub mod order;
pub mod sorted;
pub mod text;
