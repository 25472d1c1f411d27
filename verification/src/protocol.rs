//! The data model of a DNS message.

pub mod answer;
pub mod header;
pub mod question;
pub mod record_type;
pub mod response_code;
