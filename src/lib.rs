//! A public-transit data model: identifier-indexed entity collections,
//! reference validation, calendar and frequency expansion, contributor
//! prefixing, and projection of networks into a hierarchical XML schema.

pub mod calendar;
pub mod collection;
pub mod frequency;
pub mod ident;
pub mod model;
pub mod netex;
pub mod reader;
pub mod xml;
