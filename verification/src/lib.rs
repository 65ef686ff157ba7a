//! A verified SPICE netlist reader: element cards, model cards, subcircuits
//! and the assembly of a circuit description; where each element's entries
//! land in the modified nodal analysis; and the decisions of the solver
//! that do not depend on floating point.

pub mod error;
pub mod model;
pub mod models;
pub mod name_map;
pub mod parser;
pub mod number;
pub mod syntax;
pub mod subcircuit;
pub mod text;
pub mod circuit;
pub mod elements;
pub mod stamp;
pub mod newton;
pub mod sweep;
pub mod spacing;
pub mod blank_kinds;
pub mod letter_case;
pub mod comments;
pub mod keywords;
pub mod control;
pub mod order;
pub mod definitions;
