//! CoAP response statuses as the registry speaks of them, and their numeric
//! codes as used in per-datum results (2.05 is written 205, 4.00 is 400).
use vstd::prelude::*;

verus! {

/// A CoAP response status.
#[derive(Clone, Copy, Debug, PartialEq, Eq, Structural)]
pub enum ResponseStatus {
    /// 2.01
    Created,
    /// 2.02
    Deleted,
    /// 2.03
    Valid,
    /// 2.04
    Changed,
    /// 2.05
    Content,
    /// 2.31
    Continue,
    /// 4.00
    BadRequest,
    /// 4.01
    Unauthorized,
    /// 4.04
    NotFound,
    /// 4.05
    MethodNotAllowed,
    /// 4.13, returned when a payload field has the wrong shape
    RequestEntityIncomplete,
    /// 5.00
    InternalServerError,
}

impl ResponseStatus {
    /// The "OK family": every 2.xx-equivalent status.
    pub open spec fn spec_ok_family(self) -> bool {
        self matches (ResponseStatus::Created | ResponseStatus::Deleted | ResponseStatus::Valid
            | ResponseStatus::Changed | ResponseStatus::Content | ResponseStatus::Continue)
    }

    /// Whether this status counts as a success when deciding to attach or
    /// detach a skill.
    #[verifier::when_used_as_spec(spec_ok_family)]
    pub fn is_ok_family(self) -> (r: bool)
        ensures
            r == self.spec_ok_family(),
    {
        match self {
            ResponseStatus::Created => true,
            ResponseStatus::Deleted => true,
            ResponseStatus::Valid => true,
            ResponseStatus::Changed => true,
            ResponseStatus::Content => true,
            ResponseStatus::Continue => true,
            _ => false,
        }
    }

    /// The numeric code of the status: class times one hundred plus detail.
    pub open spec fn spec_code(self) -> u16 {
        match self {
            ResponseStatus::Created => 201,
            ResponseStatus::Deleted => 202,
            ResponseStatus::Valid => 203,
            ResponseStatus::Changed => 204,
            ResponseStatus::Content => 205,
            ResponseStatus::Continue => 231,
            ResponseStatus::BadRequest => 400,
            ResponseStatus::Unauthorized => 401,
            ResponseStatus::NotFound => 404,
            ResponseStatus::MethodNotAllowed => 405,
            ResponseStatus::RequestEntityIncomplete => 413,
            ResponseStatus::InternalServerError => 500,
        }
    }

    /// The numeric code of the status.
    #[verifier::when_used_as_spec(spec_code)]
    pub fn code(self) -> (r: u16)
        ensures
            r == self.spec_code(),
    {
        match self {
            ResponseStatus::Created => 201,
            ResponseStatus::Deleted => 202,
            ResponseStatus::Valid => 203,
            ResponseStatus::Changed => 204,
            ResponseStatus::Content => 205,
            ResponseStatus::Continue => 231,
            ResponseStatus::BadRequest => 400,
            ResponseStatus::Unauthorized => 401,
            ResponseStatus::NotFound => 404,
            ResponseStatus::MethodNotAllowed => 405,
            ResponseStatus::RequestEntityIncomplete => 413,
            ResponseStatus::InternalServerError => 500,
        }
    }
}

/// A reply chosen by the host for an inbound skill message.
#[derive(Clone, Debug, PartialEq)]
pub struct Response {
    pub status: ResponseStatus,
    pub payload: Vec<u8>,
}

} // verus!
