//! The error types of the data-frame layer and of the distributed core.

use vstd::prelude::*;

verus! {

/// An enumeration of data-frame errors.
#[derive(Debug, Clone, Copy, PartialEq, Eq, Structural)]
pub enum DFError {
    RowIndexOutOfBounds,
    ColIndexOutOfBounds,
    NameAlreadyExists,
    TypeMismatch,
    NotSet,
}

impl DFError {
    /// The text that describes each error.
    pub open spec fn spec_message(self) -> Seq<char> {
        match self {
            DFError::RowIndexOutOfBounds => "Row index out of bounds"@,
            DFError::ColIndexOutOfBounds => "Col index out of bounds"@,
            DFError::NameAlreadyExists => "Name already in use"@,
            DFError::TypeMismatch => "The requested operation doesn't match the schema data type"@,
            DFError::NotSet => "Must set the index for the row"@,
        }
    }

    /// A human-readable description of this error.
    pub fn message(&self) -> (text: String)
        ensures
            text@ == self.spec_message(),
    {
        match self {
            DFError::RowIndexOutOfBounds => "Row index out of bounds".to_owned(),
            DFError::ColIndexOutOfBounds => "Col index out of bounds".to_owned(),
            DFError::NameAlreadyExists => "Name already in use".to_owned(),
            DFError::TypeMismatch => "The requested operation doesn't match the schema data type".to_owned(),
            DFError::NotSet => "Must set the index for the row".to_owned(),
        }
    }
}

/// The errors that the distributed core reports.
#[derive(Debug, Clone, Copy, PartialEq, Eq, Structural)]
pub enum LiquidError {
    /// A socket or the codec beneath it failed.
    IoFailure,
    /// A frame was oversize, malformed, or of a kind its link does not carry.
    ProtocolViolation,
    /// A send was aimed at a node that the directory does not hold.
    UnknownId,
    /// The first frame on a coordinator link was not an introduction.
    UnexpectedMessage,
    /// A value was put under a key whose slot is already filled.
    KeyAlreadyPresent,
    /// A local read found no value, or the key lives on another node.
    NotPresent,
    /// A node that is already in the directory said hello again.
    ReconnectionError,
}

impl LiquidError {
    /// The text that describes each error.
    pub open spec fn spec_message(self) -> Seq<char> {
        match self {
            LiquidError::IoFailure => "Network connection failed"@,
            LiquidError::ProtocolViolation => "Malformed or misplaced frame"@,
            LiquidError::UnknownId => "Unknown node id"@,
            LiquidError::UnexpectedMessage => "Unexpected message received"@,
            LiquidError::KeyAlreadyPresent => "Key already has a value"@,
            LiquidError::NotPresent => "No local value under this key"@,
            LiquidError::ReconnectionError => "Node is already connected"@,
        }
    }

    /// A human-readable description of this error.
    pub fn message(&self) -> (text: String)
        ensures
            text@ == self.spec_message(),
    {
        match self {
            LiquidError::IoFailure => "Network connection failed".to_owned(),
            LiquidError::ProtocolViolation => "Malformed or misplaced frame".to_owned(),
            LiquidError::UnknownId => "Unknown node id".to_owned(),
            LiquidError::UnexpectedMessage => "Unexpected message received".to_owned(),
            LiquidError::KeyAlreadyPresent => "Key already has a value".to_owned(),
            LiquidError::NotPresent => "No local value under this key".to_owned(),
            LiquidError::ReconnectionError => "Node is already connected".to_owned(),
        }
    }
}

} // verus!
