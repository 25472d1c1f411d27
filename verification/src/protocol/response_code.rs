//! Response codes of the header's flags.

use vstd::prelude::*;
use vstd::std_specs::convert::FromSpecImpl;

verus! {

/// The outcome that a reply reports in the low four bits of its flags.
#[derive(Debug, Copy, Clone, PartialEq, Eq, Structural)]
#[allow(clippy::upper_case_acronyms)]
pub enum ResponseCode {
    /// 0, no error condition
    NOERROR,
    /// 1, the server could not interpret the query
    FORMERR,
    /// 3, the queried name does not exist
    NXDOMAIN,
    /// 2, the server failed to process the query
    SERVFAIL,
}

/// The number that stands for a response code on the wire.
pub open spec fn response_code_value(code: ResponseCode) -> u8 {
    match code {
        ResponseCode::NOERROR => 0,
        ResponseCode::FORMERR => 1,
        ResponseCode::SERVFAIL => 2,
        ResponseCode::NXDOMAIN => 3,
    }
}

impl From<ResponseCode> for u8 {
    fn from(rc: ResponseCode) -> (value: Self) {
        match rc {
            ResponseCode::NOERROR => 0,
            ResponseCode::FORMERR => 1,
            ResponseCode::SERVFAIL => 2,
            ResponseCode::NXDOMAIN => 3,
        }
    }
}

impl FromSpecImpl<ResponseCode> for u8 {
    open spec fn obeys_from_spec() -> bool {
        true
    }

    open spec fn from_spec(rc: ResponseCode) -> Self {
        response_code_value(rc)
    }
}

} // verus!
