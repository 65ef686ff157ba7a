//! Errors reported while reading a netlist.

use vstd::prelude::*;

verus! {

#[derive(Debug, Clone, PartialEq, Eq)]
pub enum Error {
    /// The format of the input string is invalid.
    InvalidFormat(String),
    /// A numeric value in the input string is invalid.
    InvalidFloatValue(String),
    /// An unknown element was encountered.
    UnknownElement(String),
    /// An unexpected error occurred.
    Unexpected(String),
    /// The netlist is empty.
    EmptyNetlist,
    /// A node name is invalid.
    InvalidNodeName(String),
    /// The format of an element is invalid.
    InvalidElementFormat(String),
    /// An unknown element type was encountered.
    UnknownElementType(String),
    /// A parameter does not belong to the model it was given to.
    InvalidModelParameter(String),
    /// A line of the netlist could not be read.
    ParseError { line: usize, message: String },
}

} // verus!
