//! Schema validation of XML documents: validation modes, lexical value
//! scanners, identity-constraint path handling, and a two-pass validator
//! that checks a document skeleton against a compiled schema model.

pub mod aggregate;
pub mod agreement;
pub mod attr_pass;
pub mod attributes;
pub mod automaton;
pub mod constraints;
pub mod context;
pub mod error;
pub mod facade;
pub mod facets;
pub mod groups;
pub mod identity;
pub mod location;
pub mod laws;
pub mod messages;
pub mod mode;
pub mod namemap;
pub mod numeric;
pub mod primitive;
pub mod schema;
pub mod skeleton;
pub mod state;
pub mod streaming;
pub mod symbols;
pub mod text;
pub mod two_pass;
pub mod validation;
pub mod xml;
pub mod xsi_type;

pub use mode::ValidationMode;
