//! The options that the forwarder is run with.

use vstd::prelude::*;
use vstd::string::StringExecFns;

verus! {

/// The options of the forwarder.
#[derive(Debug)]
pub struct ServerArgs {
    /// Address of the upstream resolver, as `host:port`.
    pub dns_relay: String,
    /// Address to listen on.
    pub bind_address: String,
    /// Port to listen on.
    pub bind_port: u16,
    /// Whether every query is answered by a made-up reply, without the upstream resolver.
    pub benchmark: bool,
    /// Milliseconds by which a made-up reply is delayed.
    pub resolution_delay_ms: u64,
    /// Folder in which received datagrams are recorded, if any.
    pub recording_folder: Option<String>,
    /// Whether logging of single queries is off.
    pub quiet: bool,
    /// Whether replies are cached.
    pub caching_enabled: bool,
    /// Domains that are not resolved.
    pub blocked_domains: Vec<String>,
    /// Addresses of files that list more domains not to resolve.
    pub domain_blacklists: Vec<String>,
}

impl Default for ServerArgs {
    /// The options of a forwarder that is started without any: it relays to
    /// `1.1.1.1:53`, listens on port 53000 of every address, delays made-up
    /// replies by half a second, and blocks, caches and records nothing.
    fn default() -> (args: Self)
        ensures
            args.dns_relay@ == "1.1.1.1:53"@,
            args.bind_address@ == "0.0.0.0"@,
            args.bind_port == 53000,
            !args.benchmark,
            args.resolution_delay_ms == 500,
            args.recording_folder is None,
            !args.quiet,
            !args.caching_enabled,
            args.blocked_domains@.len() == 0,
            args.domain_blacklists@.len() == 0,
    {
        ServerArgs {
            dns_relay: String::from_str("1.1.1.1:53"),
            bind_address: String::from_str("0.0.0.0"),
            bind_port: 53000,
            benchmark: false,
            resolution_delay_ms: 500,
            recording_folder: None,
            quiet: false,
            caching_enabled: false,
            blocked_domains: Vec::new(),
            domain_blacklists: Vec::new(),
        }
    }
}

/// The number of tasks that accept datagrams on a machine with `cores` units
/// of hardware parallelism.
pub open spec fn acceptor_count(cores: usize) -> usize {
    if cores / 2 < 1 {
        1
    } else {
        cores / 2
    }
}

/// Computes the number of tasks that accept datagrams: half the hardware
/// parallelism, and at least one.
pub fn get_acceptor_pool_size(cores: usize) -> (count: usize)
    ensures
        count == acceptor_count(cores),
{
    if cores / 2 < 1 {
        1
    } else {
        cores / 2
    }
}

} // verus!
