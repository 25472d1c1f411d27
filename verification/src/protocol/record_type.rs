//! Record types of questions and resource records.

use vstd::prelude::*;
use vstd::std_specs::convert::FromSpecImpl;

verus! {

/// All record types that may occur in a question or a resource record.
///
/// The type of a resource record decides how its data is laid out. Types without
/// a variant of their own are kept as [`RecordType::Unknown`] with their code.
#[derive(Debug, Copy, Clone, Hash, PartialEq, Eq, Structural)]
#[allow(clippy::upper_case_acronyms)]
pub enum RecordType {
    /// 1, a host address
    A,
    /// 2, an authoritative name server
    NS,
    /// 3, a mail destination (obsolete)
    MD,
    /// 4, a mail forwarder (obsolete)
    MF,
    /// 5, the canonical name for an alias
    CNAME,
    /// 6, the start of a zone of authority
    SOA,
    /// 7, a mailbox domain name
    MB,
    /// 8, a mail group member
    MG,
    /// 9, a mail rename domain name
    MR,
    /// 10, a null record
    NULL,
    /// 11, a well known service description
    WKS,
    /// 12, a domain name pointer
    PTR,
    /// 13, host information
    HINFO,
    /// 14, mailbox or mail list information
    MINFO,
    /// 15, mail exchange
    MX,
    /// 16, text strings
    TXT,
    /// 252, a request for a transfer of an entire zone
    AXFR,
    /// 253, a request for mailbox-related records
    MAILB,
    /// 254, a request for mail agent records
    MAILA,
    /// 255, a request for all records
    ANY,
    /// 41, the pseudo record of EDNS
    OPT,
    /// 28, an IPv6 host address
    AAAA,
    /// 65, HTTPS service binding
    HTTPS,
    /// Any other code.
    Unknown(u16),
}

/// The record type that a 16-bit code on the wire stands for.
pub open spec fn record_type_of(code: u16) -> RecordType {
    if code == 1 {
        RecordType::A
    } else if code == 2 {
        RecordType::NS
    } else if code == 3 {
        RecordType::MD
    } else if code == 4 {
        RecordType::MF
    } else if code == 5 {
        RecordType::CNAME
    } else if code == 6 {
        RecordType::SOA
    } else if code == 7 {
        RecordType::MB
    } else if code == 8 {
        RecordType::MG
    } else if code == 9 {
        RecordType::MR
    } else if code == 10 {
        RecordType::NULL
    } else if code == 11 {
        RecordType::WKS
    } else if code == 12 {
        RecordType::PTR
    } else if code == 13 {
        RecordType::HINFO
    } else if code == 14 {
        RecordType::MINFO
    } else if code == 15 {
        RecordType::MX
    } else if code == 16 {
        RecordType::TXT
    } else if code == 252 {
        RecordType::AXFR
    } else if code == 253 {
        RecordType::MAILB
    } else if code == 254 {
        RecordType::MAILA
    } else if code == 255 {
        RecordType::ANY
    } else if code == 41 {
        RecordType::OPT
    } else if code == 28 {
        RecordType::AAAA
    } else if code == 65 {
        RecordType::HTTPS
    } else {
        RecordType::Unknown(code)
    }
}

/// The 16-bit code under which a record type goes on the wire.
pub open spec fn record_type_code(record_type: RecordType) -> u16 {
    match record_type {
        RecordType::A => 1,
        RecordType::NS => 2,
        RecordType::MD => 3,
        RecordType::MF => 4,
        RecordType::CNAME => 5,
        RecordType::SOA => 6,
        RecordType::MB => 7,
        RecordType::MG => 8,
        RecordType::MR => 9,
        RecordType::NULL => 10,
        RecordType::WKS => 11,
        RecordType::PTR => 12,
        RecordType::HINFO => 13,
        RecordType::MINFO => 14,
        RecordType::MX => 15,
        RecordType::TXT => 16,
        RecordType::OPT => 41,
        RecordType::AAAA => 28,
        RecordType::HTTPS => 65,
        RecordType::AXFR => 252,
        RecordType::MAILB => 253,
        RecordType::MAILA => 254,
        RecordType::ANY => 255,
        RecordType::Unknown(n) => n,
    }
}

impl RecordType {
    /// Holds unless the value is an `Unknown` that carries the code of a named type.
    pub open spec fn is_canonical(self) -> bool {
        record_type_of(record_type_code(self)) == self
    }
}

impl From<u16> for RecordType {
    fn from(input: u16) -> (record_type: Self) {
        match input {
            1 => Self::A,
            2 => Self::NS,
            3 => Self::MD,
            4 => Self::MF,
            5 => Self::CNAME,
            6 => Self::SOA,
            7 => Self::MB,
            8 => Self::MG,
            9 => Self::MR,
            10 => Self::NULL,
            11 => Self::WKS,
            12 => Self::PTR,
            13 => Self::HINFO,
            14 => Self::MINFO,
            15 => Self::MX,
            16 => Self::TXT,
            252 => Self::AXFR,
            253 => Self::MAILB,
            254 => Self::MAILA,
            255 => Self::ANY,
            41 => Self::OPT,
            28 => Self::AAAA,
            65 => Self::HTTPS,
            _ => Self::Unknown(input),
        }
    }
}

impl FromSpecImpl<u16> for RecordType {
    open spec fn obeys_from_spec() -> bool {
        true
    }

    open spec fn from_spec(input: u16) -> Self {
        record_type_of(input)
    }
}

impl From<RecordType> for u16 {
    fn from(value: RecordType) -> (code: Self) {
        match value {
            RecordType::A => 1,
            RecordType::NS => 2,
            RecordType::MD => 3,
            RecordType::MF => 4,
            RecordType::CNAME => 5,
            RecordType::SOA => 6,
            RecordType::MB => 7,
            RecordType::MG => 8,
            RecordType::MR => 9,
            RecordType::NULL => 10,
            RecordType::WKS => 11,
            RecordType::PTR => 12,
            RecordType::HINFO => 13,
            RecordType::MINFO => 14,
            RecordType::MX => 15,
            RecordType::TXT => 16,
            RecordType::OPT => 41,
            RecordType::AAAA => 28,
            RecordType::HTTPS => 65,
            RecordType::AXFR => 252,
            RecordType::MAILB => 253,
            RecordType::MAILA => 254,
            RecordType::ANY => 255,
            RecordType::Unknown(n) => n,
        }
    }
}

impl FromSpecImpl<RecordType> for u16 {
    open spec fn obeys_from_spec() -> bool {
        true
    }

    open spec fn from_spec(value: RecordType) -> Self {
        record_type_code(value)
    }
}

/// Every code survives the way into a record type and back.
pub proof fn lemma_record_type_code_roundtrip(code: u16)
    ensures
        record_type_code(record_type_of(code)) == code,
        record_type_of(code).is_canonical(),
{
}

} // verus!
