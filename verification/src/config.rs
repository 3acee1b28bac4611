//! Configuration values: where the stores live, where to listen, whom to ask.

use crate::addr::SocketAddress;
use vstd::prelude::*;

verus! {

/// Connection strings of the two stores behind the resolver.
#[derive(Debug, Clone, PartialEq, Eq)]
pub struct DatabaseConfig {
    pub postgres_url: String,
    pub redis_url: String,
}

impl DatabaseConfig {
    /// A configuration made of exactly the two given connection strings.
    pub fn new(postgres_url: String, redis_url: String) -> (config: Self)
        ensures
            config.postgres_url == postgres_url,
            config.redis_url == redis_url,
    {
        Self { postgres_url, redis_url }
    }
}

/// One upstream resolver: a nameserver reached by UDP, or a DNS-over-HTTPS
/// endpoint given by its URL.
#[derive(Debug, Clone, PartialEq, Eq)]
pub enum NameServer {
    Udp(SocketAddress),
    Doh(String),
}

/// The mathematical value of a `NameServer`.
pub enum NameServerView {
    Udp(SocketAddress),
    Doh(Seq<char>),
}

impl View for NameServer {
    type V = NameServerView;

    open spec fn view(&self) -> NameServerView {
        match self {
            NameServer::Udp(address) => NameServerView::Udp(*address),
            NameServer::Doh(url) => NameServerView::Doh(url@),
        }
    }
}

/// Where the resolver listens, and the upstream resolvers it may ask.
#[derive(Debug, Clone, PartialEq, Eq)]
pub struct UpstreamConfig {
    pub listen: SocketAddress,
    pub upstream_nameservers: Vec<NameServer>,
}

/// The whole configuration of the program.
#[derive(Debug, Clone, PartialEq, Eq)]
pub struct Config {
    pub dns: UpstreamConfig,
    pub database: DatabaseConfig,
}

/// The UDP nameservers among `servers`, in their order.
pub open spec fn udp_targets(servers: Seq<NameServer>) -> Seq<SocketAddress>
    decreases servers.len(),
{
    if servers.len() == 0 {
        Seq::empty()
    } else {
        let before = udp_targets(servers.drop_last());
        match servers.last() {
            NameServer::Udp(address) => before.push(address),
            NameServer::Doh(_) => before,
        }
    }
}

/// The URLs of the DNS-over-HTTPS endpoints among `servers`, in their order.
pub open spec fn doh_targets(servers: Seq<NameServer>) -> Seq<Seq<char>>
    decreases servers.len(),
{
    if servers.len() == 0 {
        Seq::empty()
    } else {
        let before = doh_targets(servers.drop_last());
        match servers.last() {
            NameServer::Udp(_) => before,
            NameServer::Doh(url) => before.push(url@),
        }
    }
}

/// The texts of a sequence of strings, one for one.
pub open spec fn texts(strings: Seq<String>) -> Seq<Seq<char>> {
    strings.map_values(|s: String| s@)
}

impl UpstreamConfig {
    /// Sorts the upstream resolvers by transport: the UDP nameservers and
    /// the DNS-over-HTTPS URLs, each list in the configured order.
    pub fn split(&self) -> (lists: (Vec<SocketAddress>, Vec<String>))
        ensures
            lists.0@ == udp_targets(self.upstream_nameservers@),
            texts(lists.1@) == doh_targets(self.upstream_nameservers@),
    {
        let servers = &self.upstream_nameservers;
        let mut udp: Vec<SocketAddress> = Vec::new();
        let mut doh: Vec<String> = Vec::new();
        let mut i: usize = 0;
        while i < servers.len()
            invariant
                i <= servers.len(),
                udp@ == udp_targets(servers@.take(i as int)),
                texts(doh@) == doh_targets(servers@.take(i as int)),
            decreases servers.len() - i,
        {
            assert(servers@.take(i + 1).drop_last() =~= servers@.take(i as int));
            match &servers[i] {
                NameServer::Udp(address) => {
                    udp.push(*address);
                },
                NameServer::Doh(url) => {
                    let ghost before = doh@;
                    doh.push(url.clone());
                    assert(texts(doh@) =~= texts(before).push(url@));
                },
            }
            i = i + 1;
        }
        assert(servers@.take(servers.len() as int) =~= servers@);
        (udp, doh)
    }
}

} // verus!
