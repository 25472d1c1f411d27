//! Resource records.

use super::record_type::RecordType;
use vstd::prelude::*;

verus! {

/// The fields that every resource record has, whatever its type.
#[derive(Debug)]
pub struct ResourceRecordMeta {
    /// The owner name, its labels joined by dots.
    pub name: String,
    pub record_type: RecordType,
    pub class: u16,
    /// Seconds for which the record may be cached.
    pub ttl: u32,
    /// Declared length of the record's data, in octets.
    pub len: u16,
}

/// What a [`ResourceRecordMeta`] holds, as mathematical values.
pub struct ResourceRecordMetaView {
    pub name: Seq<char>,
    pub record_type: RecordType,
    pub class: u16,
    pub ttl: u32,
    pub len: u16,
}

impl View for ResourceRecordMeta {
    type V = ResourceRecordMetaView;

    open spec fn view(&self) -> ResourceRecordMetaView {
        ResourceRecordMetaView {
            name: self.name@,
            record_type: self.record_type,
            class: self.class,
            ttl: self.ttl,
            len: self.len,
        }
    }
}

impl Clone for ResourceRecordMeta {
    fn clone(&self) -> (copy: Self)
        ensures
            copy == *self,
    {
        ResourceRecordMeta {
            name: self.name.clone(),
            record_type: self.record_type,
            class: self.class,
            ttl: self.ttl,
            len: self.len,
        }
    }
}

/// The data of a resource record, decoded for the types that the codec knows.
#[derive(Debug)]
#[allow(clippy::upper_case_acronyms)]
pub enum ResourceRecordData {
    /// An IPv4 address, four octets in network order.
    A { ipv4: [u8; 4] },
    /// An IPv6 address, sixteen octets in network order.
    AAAA { ipv6: [u8; 16] },
    CNAME { cname: String },
    NS { ns: String },
    MB { domain_name: String },
    MX { preference: u16, exchange: String },
    PTR { domain_name: String },
    SOA {
        mname: String,
        rname: String,
        serial: u32,
        refresh: u32,
        retry: u32,
        expire: u32,
        minimum: u32,
    },
    /// Data of a record type that is not decoded; it is skipped by its declared length.
    Unknown,
}

/// What a [`ResourceRecordData`] holds, as mathematical values.
#[allow(clippy::upper_case_acronyms)]
pub enum ResourceRecordDataView {
    A { ipv4: Seq<u8> },
    AAAA { ipv6: Seq<u8> },
    CNAME { cname: Seq<char> },
    NS { ns: Seq<char> },
    MB { domain_name: Seq<char> },
    MX { preference: u16, exchange: Seq<char> },
    PTR { domain_name: Seq<char> },
    SOA {
        mname: Seq<char>,
        rname: Seq<char>,
        serial: u32,
        refresh: u32,
        retry: u32,
        expire: u32,
        minimum: u32,
    },
    Unknown,
}

impl View for ResourceRecordData {
    type V = ResourceRecordDataView;

    open spec fn view(&self) -> ResourceRecordDataView {
        match *self {
            ResourceRecordData::A { ipv4 } => ResourceRecordDataView::A { ipv4: ipv4@ },
            ResourceRecordData::AAAA { ipv6 } => ResourceRecordDataView::AAAA { ipv6: ipv6@ },
            ResourceRecordData::CNAME { cname } => ResourceRecordDataView::CNAME { cname: cname@ },
            ResourceRecordData::NS { ns } => ResourceRecordDataView::NS { ns: ns@ },
            ResourceRecordData::MB { domain_name } => ResourceRecordDataView::MB {
                domain_name: domain_name@,
            },
            ResourceRecordData::MX { preference, exchange } => ResourceRecordDataView::MX {
                preference,
                exchange: exchange@,
            },
            ResourceRecordData::PTR { domain_name } => ResourceRecordDataView::PTR {
                domain_name: domain_name@,
            },
            ResourceRecordData::SOA {
                mname,
                rname,
                serial,
                refresh,
                retry,
                expire,
                minimum,
            } => ResourceRecordDataView::SOA {
                mname: mname@,
                rname: rname@,
                serial,
                refresh,
                retry,
                expire,
                minimum,
            },
            ResourceRecordData::Unknown => ResourceRecordDataView::Unknown,
        }
    }
}

impl Clone for ResourceRecordData {
    fn clone(&self) -> (copy: Self)
        ensures
            copy@ == self@,
    {
        match self {
            ResourceRecordData::A { ipv4 } => ResourceRecordData::A { ipv4: *ipv4 },
            ResourceRecordData::AAAA { ipv6 } => ResourceRecordData::AAAA { ipv6: *ipv6 },
            ResourceRecordData::CNAME { cname } => ResourceRecordData::CNAME {
                cname: cname.clone(),
            },
            ResourceRecordData::NS { ns } => ResourceRecordData::NS { ns: ns.clone() },
            ResourceRecordData::MB { domain_name } => ResourceRecordData::MB {
                domain_name: domain_name.clone(),
            },
            ResourceRecordData::MX { preference, exchange } => ResourceRecordData::MX {
                preference: *preference,
                exchange: exchange.clone(),
            },
            ResourceRecordData::PTR { domain_name } => ResourceRecordData::PTR {
                domain_name: domain_name.clone(),
            },
            ResourceRecordData::SOA {
                mname,
                rname,
                serial,
                refresh,
                retry,
                expire,
                minimum,
            } => ResourceRecordData::SOA {
                mname: mname.clone(),
                rname: rname.clone(),
                serial: *serial,
                refresh: *refresh,
                retry: *retry,
                expire: *expire,
                minimum: *minimum,
            },
            ResourceRecordData::Unknown => ResourceRecordData::Unknown,
        }
    }
}

/// One resource record of the answer section.
#[derive(Debug)]
pub struct ResourceRecord {
    pub meta: ResourceRecordMeta,
    pub value: ResourceRecordData,
}

/// What a [`ResourceRecord`] holds, as mathematical values.
pub struct ResourceRecordView {
    pub meta: ResourceRecordMetaView,
    pub value: ResourceRecordDataView,
}

impl View for ResourceRecord {
    type V = ResourceRecordView;

    open spec fn view(&self) -> ResourceRecordView {
        ResourceRecordView { meta: self.meta@, value: self.value@ }
    }
}

impl ResourceRecord {
    /// Puts the shared fields and the data of a record together.
    pub fn new(meta: ResourceRecordMeta, value: ResourceRecordData) -> (record: Self)
        ensures
            record.meta == meta,
            record.value == value,
    {
        Self { meta, value }
    }
}

impl Clone for ResourceRecord {
    fn clone(&self) -> (copy: Self)
        ensures
            copy@ == self@,
    {
        ResourceRecord { meta: self.meta.clone(), value: self.value.clone() }
    }
}

/// The shared fields of an answer.
pub type AnswerMeta = ResourceRecordMeta;

/// An answer is a resource record of the answer section.
pub type Answer = ResourceRecord;

} // verus!
