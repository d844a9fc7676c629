//! Errors of the device runtime.
use vstd::prelude::*;
use crate::interface::{Aggregation, InterfaceError};
use crate::payload::PayloadError;
use crate::properties::PropertiesError;
use crate::topic::TopicError;
use crate::types::TypeError;

verus! {

/// Everything that can go wrong in the runtime.
#[derive(Debug, Clone, PartialEq)]
pub enum Error {
    /// An interface was refused or could not be found.
    Interface(InterfaceError),
    /// A path that is not a valid endpoint path.
    InvalidEndpoint(String),
    /// No installed interface has this name.
    MissingInterface(String),
    /// The interface has no mapping for this path.
    MissingMapping { interface: String, mapping: String },
    /// The interface has another aggregation than the operation needs.
    Aggregation { exp: Aggregation, got: Aggregation },
    /// A value could not be converted.
    Types(TypeError),
    /// A payload did not fit its mapping.
    Payload(PayloadError),
    /// A topic could not be parsed.
    Topic(TopicError),
    /// A purge-properties directive could not be decoded.
    Properties(PropertiesError),
}

} // verus!
