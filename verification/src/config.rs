//! Server configuration and its builder.

use vstd::prelude::*;
use crate::addr::{Ipv4Addr, octets_value};

verus! {

/// Lease time handed out when none is configured: 24 hours, in seconds.
pub const DEFAULT_LEASE_TIME: u32 = 86400;

/// Configuration options for the DHCP server.
///
/// `MAX_DNS` is the most DNS servers the configuration holds.
#[derive(Clone, Debug)]
pub struct DhcpConfig<const MAX_DNS: usize> {
    /// The IP address of this DHCP server
    pub server_ip: Ipv4Addr,
    /// Subnet mask to assign to clients
    pub subnet_mask: Ipv4Addr,
    /// Default gateway/router IP address to assign to clients (optional)
    pub router: Option<Ipv4Addr>,
    /// DNS server addresses to assign to clients, at most `MAX_DNS` of them
    pub dns_servers: Vec<Ipv4Addr>,
    /// Start of the IP address pool for client assignment
    pub ip_pool_start: Ipv4Addr,
    /// End of the IP address pool for client assignment (inclusive)
    pub ip_pool_end: Ipv4Addr,
    /// Lease time in seconds
    pub lease_time: u32,
}

impl<const MAX_DNS: usize> DhcpConfig<MAX_DNS> {
    /// The configuration holds no more DNS servers than its capacity.
    pub open spec fn well_formed(&self) -> bool {
        self.dns_servers.len() <= MAX_DNS
    }

    /// Both configurations hold the same settings.
    pub open spec fn same_settings(&self, other: Self) -> bool {
        &&& self.server_ip == other.server_ip
        &&& self.subnet_mask == other.subnet_mask
        &&& self.router == other.router
        &&& self.dns_servers@ == other.dns_servers@
        &&& self.ip_pool_start == other.ip_pool_start
        &&& self.ip_pool_end == other.ip_pool_end
        &&& self.lease_time == other.lease_time
    }

    /// The DNS list left after trying to add `dns` to `list`: a full list
    /// stays as it is.
    pub open spec fn dns_after_add(list: Seq<Ipv4Addr>, dns: Ipv4Addr) -> Seq<Ipv4Addr> {
        if list.len() < MAX_DNS {
            list.push(dns)
        } else {
            list
        }
    }
}

/// The address `a.b.c.d` as a value.
pub open spec fn ip_of(a: u8, b: u8, c: u8, d: u8) -> Ipv4Addr {
    Ipv4Addr(octets_value(a, b, c, d) as u32)
}

/// The default configuration: server and router 192.168.1.1 on a /24,
/// DNS server 8.8.8.8 (when there is room for one), pool
/// 192.168.1.100 to 192.168.1.200, leases of one day.
pub open spec fn is_default_config<const MAX_DNS: usize>(c: DhcpConfig<MAX_DNS>) -> bool {
    &&& c.server_ip == ip_of(192, 168, 1, 1)
    &&& c.subnet_mask == ip_of(255, 255, 255, 0)
    &&& c.router == Some(ip_of(192, 168, 1, 1))
    &&& c.dns_servers@ == DhcpConfig::<MAX_DNS>::dns_after_add(seq![], ip_of(8, 8, 8, 8))
    &&& c.ip_pool_start == ip_of(192, 168, 1, 100)
    &&& c.ip_pool_end == ip_of(192, 168, 1, 200)
    &&& c.lease_time == DEFAULT_LEASE_TIME
}

impl<const MAX_DNS: usize> Default for DhcpConfig<MAX_DNS> {
    fn default() -> (c: Self)
        ensures
            is_default_config(c),
            c.well_formed(),
    {
        let mut dns_servers: Vec<Ipv4Addr> = Vec::new();
        if 0 < MAX_DNS {
            dns_servers.push(Ipv4Addr::new(8, 8, 8, 8));
        }
        Self {
            server_ip: Ipv4Addr::new(192, 168, 1, 1),
            subnet_mask: Ipv4Addr::new(255, 255, 255, 0),
            router: Some(Ipv4Addr::new(192, 168, 1, 1)),
            dns_servers,
            ip_pool_start: Ipv4Addr::new(192, 168, 1, 100),
            ip_pool_end: Ipv4Addr::new(192, 168, 1, 200),
            lease_time: DEFAULT_LEASE_TIME,
        }
    }
}

/// The configuration a new builder starts from: the default one, without
/// any DNS server.
pub open spec fn is_builder_start<const MAX_DNS: usize>(c: DhcpConfig<MAX_DNS>) -> bool {
    &&& c.server_ip == ip_of(192, 168, 1, 1)
    &&& c.subnet_mask == ip_of(255, 255, 255, 0)
    &&& c.router == Some(ip_of(192, 168, 1, 1))
    &&& c.dns_servers@ == Seq::<Ipv4Addr>::empty()
    &&& c.ip_pool_start == ip_of(192, 168, 1, 100)
    &&& c.ip_pool_end == ip_of(192, 168, 1, 200)
    &&& c.lease_time == DEFAULT_LEASE_TIME
}

/// Builder for server configurations. It starts from the default
/// configuration but with no DNS servers.
#[derive(Debug)]
pub struct DhcpConfigBuilder<const MAX_DNS: usize> {
    config: DhcpConfig<MAX_DNS>,
}

impl<const MAX_DNS: usize> View for DhcpConfigBuilder<MAX_DNS> {
    type V = DhcpConfig<MAX_DNS>;

    closed spec fn view(&self) -> DhcpConfig<MAX_DNS> {
        self.config
    }
}

impl<const MAX_DNS: usize> DhcpConfigBuilder<MAX_DNS> {
    #[verifier::type_invariant]
    spec fn dns_within_capacity(self) -> bool {
        self.config.dns_servers.len() <= MAX_DNS
    }

    /// Creates a new configuration builder: the default configuration
    /// without any DNS server.
    pub fn new() -> (b: Self)
        ensures
            is_builder_start(b@),
    {
        let mut config = DhcpConfig::<MAX_DNS>::default();
        config.dns_servers.clear();
        Self { config }
    }

    /// Sets the DHCP server IP address.
    pub fn server_ip(self, ip: Ipv4Addr) -> (b: Self)
        ensures
            b@ == (DhcpConfig { server_ip: ip, ..self@ }),
    {
        proof { use_type_invariant(&self); }
        let mut b = self;
        b.config.server_ip = ip;
        b
    }

    /// Sets the subnet mask.
    pub fn subnet_mask(self, mask: Ipv4Addr) -> (b: Self)
        ensures
            b@ == (DhcpConfig { subnet_mask: mask, ..self@ }),
    {
        proof { use_type_invariant(&self); }
        let mut b = self;
        b.config.subnet_mask = mask;
        b
    }

    /// Sets the default gateway/router IP address.
    pub fn router(self, router: Ipv4Addr) -> (b: Self)
        ensures
            b@ == (DhcpConfig { router: Some(router), ..self@ }),
    {
        proof { use_type_invariant(&self); }
        let mut b = self;
        b.config.router = Some(router);
        b
    }

    /// Removes the router option (no default gateway).
    pub fn no_router(self) -> (b: Self)
        ensures
            b@ == (DhcpConfig { router: None, ..self@ }),
    {
        proof { use_type_invariant(&self); }
        let mut b = self;
        b.config.router = None;
        b
    }

    /// Adds a DNS server; when `MAX_DNS` servers are already there, the
    /// new one is dropped.
    pub fn add_dns_server(self, dns: Ipv4Addr) -> (b: Self)
        ensures
            b@.dns_servers@ == DhcpConfig::<MAX_DNS>::dns_after_add(self@.dns_servers@, dns),
            b@.server_ip == self@.server_ip,
            b@.subnet_mask == self@.subnet_mask,
            b@.router == self@.router,
            b@.ip_pool_start == self@.ip_pool_start,
            b@.ip_pool_end == self@.ip_pool_end,
            b@.lease_time == self@.lease_time,
    {
        proof { use_type_invariant(&self); }
        let mut config = self.config;
        if config.dns_servers.len() < MAX_DNS {
            config.dns_servers.push(dns);
        }
        Self { config }
    }

    /// Clears all DNS servers.
    pub fn clear_dns_servers(self) -> (b: Self)
        ensures
            b@.dns_servers@ == Seq::<Ipv4Addr>::empty(),
            b@.server_ip == self@.server_ip,
            b@.subnet_mask == self@.subnet_mask,
            b@.router == self@.router,
            b@.ip_pool_start == self@.ip_pool_start,
            b@.ip_pool_end == self@.ip_pool_end,
            b@.lease_time == self@.lease_time,
    {
        proof { use_type_invariant(&self); }
        let mut config = self.config;
        config.dns_servers.clear();
        Self { config }
    }

    /// Sets the IP address pool range.
    pub fn ip_pool(self, start: Ipv4Addr, end: Ipv4Addr) -> (b: Self)
        ensures
            b@ == (DhcpConfig { ip_pool_start: start, ip_pool_end: end, ..self@ }),
    {
        proof { use_type_invariant(&self); }
        let mut b = self;
        b.config.ip_pool_start = start;
        b.config.ip_pool_end = end;
        b
    }

    /// Sets the lease time in seconds.
    pub fn lease_time(self, seconds: u32) -> (b: Self)
        ensures
            b@ == (DhcpConfig { lease_time: seconds, ..self@ }),
    {
        proof { use_type_invariant(&self); }
        let mut b = self;
        b.config.lease_time = seconds;
        b
    }

    /// Builds the final configuration.
    pub fn build(self) -> (c: DhcpConfig<MAX_DNS>)
        ensures
            c == self@,
            c.well_formed(),
    {
        proof { use_type_invariant(&self); }
        self.config
    }
}

impl<const MAX_DNS: usize> Clone for DhcpConfigBuilder<MAX_DNS> {
    fn clone(&self) -> (b: Self)
        ensures
            b@.same_settings(self@),
    {
        proof { use_type_invariant(self); }
        let dns_servers = self.config.dns_servers.clone();
        assert(dns_servers@ =~= self.config.dns_servers@);
        let config = DhcpConfig {
            server_ip: self.config.server_ip,
            subnet_mask: self.config.subnet_mask,
            router: self.config.router,
            dns_servers,
            ip_pool_start: self.config.ip_pool_start,
            ip_pool_end: self.config.ip_pool_end,
            lease_time: self.config.lease_time,
        };
        Self { config }
    }
}

impl<const MAX_DNS: usize> Default for DhcpConfigBuilder<MAX_DNS> {
    fn default() -> (b: Self)
        ensures
            is_builder_start(b@),
    {
        Self::new()
    }
}

} // verus!
