//! Assembly of a penetration-test report from a directory of parts.
//!
//! A report project holds a metadata file, a directory of narrative sections
//! and a directory of findings.  This library turns the text of those parts
//! into one source document: it reads the metadata declarations, orders the
//! numbered fragments of each category, and substitutes everything into a
//! template.  File access and the call of the external compiler are left to
//! the program around the library, which hands over plain text.

pub mod assemble;
pub mod date;
pub mod fragments;
pub mod invoke;
pub mod metadata;
pub mod scaffold;
pub mod template;
pub mod text;
