//! ISO 20022 and ISO 8583 financial messaging: message models, identifier
//! validation, currencies, routing and compliance checks.
use vstd::prelude::*;

pub mod iso20022;
pub mod iso8583;
pub mod validators;
pub mod currency;
pub mod message_router;

verus! {

/// Errors of the ISO messaging layer.
#[derive(Clone, Debug)]
pub enum IsoError {
    XmlParseError(String),
    InvalidFormat(String),
    MissingField(String),
    ValidationFailed(String),
    UnknownMessageType(String),
    EncodingError(String),
    RoutingFailed(String),
    ComplianceFailed(String),
}

/// Result type of the ISO messaging layer.
pub type IsoResult<T> = Result<T, IsoError>;

} // verus!
