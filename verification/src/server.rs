//! The DHCP server: its configuration, its lease table, and what it does
//! with each request it receives.

use vstd::prelude::*;
use crate::addr::{Ipv4Addr, be_bytes, be_octets};
use crate::clock::now_millis;
use crate::config::{DhcpConfig, DEFAULT_LEASE_TIME};
use crate::lease::{
    LeaseEntry, LeaseTable, first_free, has_mac, inserted, lease_of, removed, table_valid,
    unexpired,
};
use crate::wire::{
    DhcpPacket, PacketBuf, append_chunks, magic_cookie, message_type_of, option_chunks,
    packet_buf_bytes, write_options, zeros, DHCP_ACK, DHCP_DISCOVER, DHCP_MAGIC, DHCP_OFFER,
    DHCP_RELEASE, DHCP_REQUEST, FIXED_PART_SIZE, OPTION_END, OPTION_MESSAGE_TYPE, OPTION_PAD,
};

verus! {

/// How long an offered address stays reserved for the client it was
/// offered to, in milliseconds.
pub const OFFER_RESERVATION_MS: u64 = 60_000;

/// A DHCP lease or release event.
#[derive(PartialEq, Eq, Clone, Copy, Debug)]
pub enum TransactionEvent {
    /// A new lease was assigned.
    Leased(Ipv4Addr, [u8; 6]),
    /// A client released its IP.
    Released(Ipv4Addr, [u8; 6]),
}

/// DHCP message kinds that can be admitted or denied by policy.
#[derive(PartialEq, Eq, Clone, Copy, Debug)]
pub enum AdmissionEvent {
    /// Client is asking for an offer.
    Discover,
    /// Client is asking for a lease acknowledgment.
    Request,
    /// Client is releasing an existing lease.
    Release,
}

/// The admission question a message of type `msg_type` raises, if any.
pub open spec fn admission_of(msg_type: u8) -> Option<AdmissionEvent> {
    if msg_type == DHCP_DISCOVER {
        Some(AdmissionEvent::Discover)
    } else if msg_type == DHCP_REQUEST {
        Some(AdmissionEvent::Request)
    } else if msg_type == DHCP_RELEASE {
        Some(AdmissionEvent::Release)
    } else {
        None
    }
}

/// A datagram is a DHCP request the server reads: it holds a whole fixed
/// header, the magic cookie, and options that name a message type.
pub open spec fn is_request_datagram(data: Seq<u8>) -> bool {
    &&& data.len() >= FIXED_PART_SIZE
    &&& data.subrange(236, 240) == magic_cookie()
    &&& message_type_of(data.skip(FIXED_PART_SIZE as int)) is Some
}

/// A request read from a datagram: its fixed header, its message type and
/// the client's hardware address (the first six bytes of `chaddr`).
#[derive(Clone, Copy, Debug)]
pub struct DhcpRequest {
    /// The fixed header
    pub packet: DhcpPacket,
    /// The DHCP message type from the options
    pub msg_type: u8,
    /// The client hardware address
    pub mac: [u8; 6],
}

impl DhcpRequest {
    /// The client hardware address is the first six bytes of `chaddr`.
    pub open spec fn consistent(&self) -> bool {
        self.mac@ == self.packet.chaddr@.subrange(0, 6)
    }

    /// Reads a request from a datagram; `None` when the datagram is shorter
    /// than the fixed header, lacks the magic cookie, or names no message
    /// type.
    pub fn parse(data: &[u8]) -> (r: Option<DhcpRequest>)
        ensures
            r is Some <==> is_request_datagram(data@),
            r matches Some(q) ==> {
                &&& q.packet@ == data@.take(FIXED_PART_SIZE as int)
                &&& message_type_of(data@.skip(FIXED_PART_SIZE as int)) == Some(q.msg_type)
                &&& q.mac@ == data@.subrange(28, 34)
                &&& q.consistent()
            },
    {
        let packet = match DhcpPacket::parse(data) {
            Some(p) => p,
            None => return None,
        };
        assert(packet.magic@ == packet@.subrange(236, 240));
        assert(data@.take(240).subrange(236, 240) =~= data@.subrange(236, 240));
        if !packet.has_magic_cookie() {
            return None;
        }
        let options = &data[FIXED_PART_SIZE..data.len()];
        assert(options@ =~= data@.skip(FIXED_PART_SIZE as int));
        let msg_type = match scan_message_type(options) {
            Some(t) => t,
            None => return None,
        };
        let c = packet.chaddr;
        let mac = [c[0], c[1], c[2], c[3], c[4], c[5]];
        assert(packet.chaddr@ == packet@.subrange(28, 44));
        assert(mac@ =~= data@.subrange(28, 34));
        assert(mac@ =~= packet.chaddr@.subrange(0, 6));
        Some(DhcpRequest { packet, msg_type, mac })
    }

    /// The admission question this request raises, if any.
    pub fn admission(&self) -> (a: Option<AdmissionEvent>)
        ensures
            a == admission_of(self.msg_type),
    {
        if self.msg_type == DHCP_DISCOVER {
            Some(AdmissionEvent::Discover)
        } else if self.msg_type == DHCP_REQUEST {
            Some(AdmissionEvent::Request)
        } else if self.msg_type == DHCP_RELEASE {
            Some(AdmissionEvent::Release)
        } else {
            None
        }
    }
}

/// Scans DHCP options for the message type.
fn scan_message_type(options: &[u8]) -> (r: Option<u8>)
    ensures
        r == message_type_of(options@),
{
    let mut i: usize = 0;
    while i < options.len()
        invariant
            i <= options@.len(),
            message_type_of(options@) == crate::wire::message_type_from(options@, i as int),
        decreases options@.len() - i,
    {
        if options[i] == OPTION_END {
            return None;
        }
        if options[i] == OPTION_PAD {
            i = i + 1;
            continue;
        }
        if options[i] == OPTION_MESSAGE_TYPE && options.len() - i > 2 {
            return Some(options[i + 2]);
        }
        if options.len() - i > 1 {
            let step = options[i + 1] as usize + 2;
            if step < options.len() - i {
                i = i + step;
            } else {
                return None;
            }
        } else {
            return None;
        }
    }
    None
}

/// The address the server would hand out next: the lowest address of the
/// pool that no lease holds.
pub open spec fn free_ip<const M: usize>(cfg: DhcpConfig<M>, s: Seq<LeaseEntry>) -> Option<u32> {
    first_free(cfg.ip_pool_start@ as int, cfg.ip_pool_end@ as int, s)
}

/// `n` leases fill the pool of `cfg` in a table of capacity `cap`: there
/// are at least as many as addresses in the pool, or as the table holds.
pub open spec fn pool_full<const M: usize>(cfg: DhcpConfig<M>, n: nat, cap: nat) -> bool {
    let pool = cfg.ip_pool_end@ - cfg.ip_pool_start@ + 1;
    n >= if pool < cap { pool } else { cap as int }
}

/// The server can record a lease for `mac`: the client holds one
/// already, or the table has room for another.
pub open spec fn can_record(s: Seq<LeaseEntry>, cap: nat, mac: [u8; 6]) -> bool {
    has_mac(s, mac) || s.len() < cap
}

/// The address a reply of type `msg_type` to client `mac` carries: for an
/// offer the next free address; for an acknowledgment the client's leased
/// address, else the next free one; 0.0.0.0 when there is none, and
/// 0.0.0.0 when the lease could not be recorded (a full table and no lease
/// for the client), so that no address is handed out unrecorded.
pub open spec fn reply_address<const M: usize>(
    cfg: DhcpConfig<M>,
    s: Seq<LeaseEntry>,
    cap: nat,
    mac: [u8; 6],
    msg_type: u8,
) -> u32 {
    if !can_record(s, cap, mac) {
        0
    } else if msg_type == DHCP_OFFER {
        match free_ip(cfg, s) {
            Some(ip) => ip,
            None => 0,
        }
    } else if msg_type == DHCP_ACK {
        match lease_of(s, mac) {
            Some(l) => l.ip@,
            None => match free_ip(cfg, s) {
                Some(ip) => ip,
                None => 0,
            },
        }
    } else {
        0
    }
}

/// The lease table after a reply of type `msg_type` to client `mac` at
/// time `now`: an offer of a free address reserves it for the client for
/// a minute; an acknowledgment (re-)inserts the client's lease for the
/// configured lease time; nothing changes when the lease cannot be
/// recorded, nor for other replies.
pub open spec fn leases_after_reply<const M: usize>(
    cfg: DhcpConfig<M>,
    s: Seq<LeaseEntry>,
    cap: nat,
    mac: [u8; 6],
    msg_type: u8,
    now: u64,
) -> Seq<LeaseEntry> {
    if !can_record(s, cap, mac) {
        s
    } else if msg_type == DHCP_OFFER {
        match free_ip(cfg, s) {
            Some(ip) => inserted(
                s,
                cap,
                LeaseEntry { ip: Ipv4Addr(ip), mac, expires_at: (now + OFFER_RESERVATION_MS) as u64 },
            ),
            None => s,
        }
    } else if msg_type == DHCP_ACK {
        inserted(
            s,
            cap,
            LeaseEntry {
                ip: Ipv4Addr(reply_address(cfg, s, cap, mac, msg_type)),
                mac,
                expires_at: (now + cfg.lease_time * 1000) as u64,
            },
        )
    } else {
        s
    }
}

/// The fixed header of a reply: a BOOTREPLY on Ethernet with the request's
/// transaction id, the client's hardware address, the given "your"
/// address and the magic cookie; every other field zero.
pub open spec fn reply_header(xid: Seq<u8>, mac: Seq<u8>, yiaddr: u32) -> Seq<u8> {
    seq![2u8, 1u8, 6u8, 0u8] + xid + zeros(8) + be_octets(yiaddr) + zeros(8) + mac + zeros(202)
        + magic_cookie()
}

/// The bytes of a reply of type `msg_type` to `req`: the header, then the
/// options, each piece only while it fits.
pub open spec fn reply_bytes<const M: usize>(
    cfg: DhcpConfig<M>,
    s: Seq<LeaseEntry>,
    cap: nat,
    req: DhcpRequest,
    msg_type: u8,
) -> Seq<u8> {
    append_chunks(
        reply_header(req.packet.xid@, req.mac@, reply_address(cfg, s, cap, req.mac, msg_type)),
        option_chunks(cfg, msg_type),
    )
}

/// The lease end times that a reply of type `msg_type` at `now` computes
/// fit in 64 bits.
pub open spec fn reply_time_fits<const M: usize>(cfg: DhcpConfig<M>, msg_type: u8, now: u64) -> bool {
    &&& msg_type == DHCP_OFFER ==> now + OFFER_RESERVATION_MS <= u64::MAX
    &&& msg_type == DHCP_ACK ==> now + cfg.lease_time * 1000 <= u64::MAX
}

/// The lease end times that handling `req` at `now` computes fit in 64
/// bits.
pub open spec fn handling_time_fits<const M: usize>(
    cfg: DhcpConfig<M>,
    req: DhcpRequest,
    admitted: bool,
    now: u64,
) -> bool {
    &&& (req.msg_type == DHCP_DISCOVER && admitted) ==> reply_time_fits(cfg, DHCP_OFFER, now)
    &&& (req.msg_type == DHCP_REQUEST && admitted) ==> reply_time_fits(cfg, DHCP_ACK, now)
}

/// `q` is the request read from the datagram `data`.
pub open spec fn request_read_from(data: Seq<u8>, q: DhcpRequest) -> bool {
    &&& is_request_datagram(data)
    &&& q.packet@ == data.take(FIXED_PART_SIZE as int)
    &&& message_type_of(data.skip(FIXED_PART_SIZE as int)) == Some(q.msg_type)
    &&& q.mac@ == data.subrange(28, 34)
}

/// What the server sends back for a request, and the lease event it
/// completes.
pub struct Reply {
    /// The reply datagram, if one is sent
    pub response: Option<PacketBuf>,
    /// The lease event completed, if any
    pub event: Option<TransactionEvent>,
}

/// The bytes of a reply, if one is sent.
pub open spec fn response_bytes(r: Option<PacketBuf>) -> Option<Seq<u8>> {
    match r {
        Some(b) => Some(packet_buf_bytes(b)),
        None => None,
    }
}

/// What handling `req` does, given the admission policy's answer and the
/// time: the lease table after it, the reply bytes and the event.
///
/// A discover, when admitted, is answered with an offer. A request, when
/// admitted, is answered with an acknowledgment and completes a lease
/// event when the client then holds a lease. A release drops the client's
/// lease whatever the policy says, sends nothing, and reports the lease
/// dropped. Anything else, or a refused discover or request, does nothing.
pub open spec fn handle_outcome<const M: usize>(
    cfg: DhcpConfig<M>,
    s: Seq<LeaseEntry>,
    cap: nat,
    req: DhcpRequest,
    admitted: bool,
    now: u64,
) -> (Seq<LeaseEntry>, Option<Seq<u8>>, Option<TransactionEvent>) {
    if req.msg_type == DHCP_DISCOVER && admitted {
        (
            leases_after_reply(cfg, s, cap, req.mac, DHCP_OFFER, now),
            Some(reply_bytes(cfg, s, cap, req, DHCP_OFFER)),
            None,
        )
    } else if req.msg_type == DHCP_REQUEST && admitted {
        let after = leases_after_reply(cfg, s, cap, req.mac, DHCP_ACK, now);
        (
            after,
            Some(reply_bytes(cfg, s, cap, req, DHCP_ACK)),
            match lease_of(after, req.mac) {
                Some(e) => Some(TransactionEvent::Leased(e.ip, req.mac)),
                None => None,
            },
        )
    } else if req.msg_type == DHCP_RELEASE {
        (
            removed(s, req.mac),
            None,
            match lease_of(s, req.mac) {
                Some(e) => Some(TransactionEvent::Released(e.ip, e.mac)),
                None => None,
            },
        )
    } else {
        (s, None, None)
    }
}

/// The admission question of a datagram: the client's hardware address
/// and its message kind, when the datagram is a DHCP request whose message
/// is a discover, request or release.
pub open spec fn admission_question_of(data: Seq<u8>) -> Option<([u8; 6], AdmissionEvent)> {
    if !is_request_datagram(data) {
        None
    } else {
        let t = message_type_of(data.skip(FIXED_PART_SIZE as int))->Some_0;
        match admission_of(t) {
            Some(k) => Some((mac_of(data), k)),
            None => None,
        }
    }
}

/// The client hardware address of a datagram: bytes 28 to 34.
pub open spec fn mac_of(data: Seq<u8>) -> [u8; 6] {
    choose|m: [u8; 6]| m@ == data.subrange(28, 34)
}

/// The lease end times that handling the datagram `data` at `now` computes
/// fit in 64 bits.
pub open spec fn datagram_time_fits<const M: usize>(
    cfg: DhcpConfig<M>,
    data: Seq<u8>,
    admitted: bool,
    now: u64,
) -> bool {
    match message_type_of(data.skip(FIXED_PART_SIZE as int)) {
        Some(t) => {
            &&& (t == DHCP_DISCOVER && admitted) ==> reply_time_fits(cfg, DHCP_OFFER, now)
            &&& (t == DHCP_REQUEST && admitted) ==> reply_time_fits(cfg, DHCP_ACK, now)
        },
        None => true,
    }
}

proof fn lemma_reading_fixes_mac(data: Seq<u8>, q: DhcpRequest)
    requires
        request_read_from(data, q),
    ensures
        q.mac == mac_of(data),
{
    broadcast use vstd::array::axiom_array_ext_equal;
    let m = mac_of(data);
    assert(m@ == data.subrange(28, 34)) by {
        assert(q.mac@ == data.subrange(28, 34));
    }
    assert(q.mac =~= m) by {
        assert forall|i: int| 0 <= i < 6 implies q.mac[i] == m[i] by {
            assert(q.mac@[i] == m@[i]);
        }
    }
}

/// Two readings of one datagram lead to the same handling.
proof fn lemma_same_reading_same_outcome<const M: usize>(
    data: Seq<u8>,
    q1: DhcpRequest,
    q2: DhcpRequest,
    cfg: DhcpConfig<M>,
    s: Seq<LeaseEntry>,
    cap: nat,
    admitted: bool,
    now: u64,
)
    requires
        request_read_from(data, q1),
        request_read_from(data, q2),
    ensures
        handle_outcome(cfg, s, cap, q1, admitted, now) == handle_outcome(cfg, s, cap, q2, admitted, now),
        q1.msg_type == q2.msg_type,
        q1.mac == q2.mac,
{
    lemma_reading_fixes_mac(data, q1);
    lemma_reading_fixes_mac(data, q2);
    assert(q1.packet.xid@ == q1.packet@.subrange(4, 8));
    assert(q2.packet.xid@ == q2.packet@.subrange(4, 8));
    assert(q1.packet.xid@ == q2.packet.xid@);
    assert(reply_bytes(cfg, s, cap, q1, DHCP_OFFER) == reply_bytes(cfg, s, cap, q2, DHCP_OFFER));
    assert(reply_bytes(cfg, s, cap, q1, DHCP_ACK) == reply_bytes(cfg, s, cap, q2, DHCP_ACK));
}

/// One thing done to the lease table: a purge at a moment; the handling of
/// a request with the admission policy's answer at a moment; a reply of a
/// given type to a request at a moment; a lease inserted by hand.
pub enum Step {
    /// `purge_expired_leases_at(now)`
    Purge(u64),
    /// `handle_request_at(request, admitted, now)`
    Handle(DhcpRequest, bool, u64),
    /// `make_response_at(request, msg_type, now)`
    Respond(DhcpRequest, u8, u64),
    /// `insert_lease(lease)`
    Insert(LeaseEntry),
}

/// The lease table after one step.
pub open spec fn apply_step<const M: usize>(
    cfg: DhcpConfig<M>,
    s: Seq<LeaseEntry>,
    cap: nat,
    step: Step,
) -> Seq<LeaseEntry> {
    match step {
        Step::Purge(now) => unexpired(s, now),
        Step::Handle(req, admitted, now) => handle_outcome(cfg, s, cap, req, admitted, now).0,
        Step::Respond(req, msg_type, now) => leases_after_reply(cfg, s, cap, req.mac, msg_type, now),
        Step::Insert(e) => inserted(s, cap, e),
    }
}

/// The configuration and lease table after a sequence of steps, each one
/// run with the configuration the previous one left.
pub open spec fn run_steps<const M: usize>(
    cfg: DhcpConfig<M>,
    s: Seq<LeaseEntry>,
    cap: nat,
    steps: Seq<Step>,
) -> (DhcpConfig<M>, Seq<LeaseEntry>)
    decreases steps.len(),
{
    if steps.len() == 0 {
        (cfg, s)
    } else {
        let (c, t) = run_steps(cfg, s, cap, steps.drop_last());
        (c, apply_step(c, t, cap, steps.last()))
    }
}

/// A run of one step is that step.
pub proof fn lemma_run_one<const M: usize>(cfg: DhcpConfig<M>, s: Seq<LeaseEntry>, cap: nat, a: Step)
    ensures
        run_steps(cfg, s, cap, seq![a]) == (cfg, apply_step(cfg, s, cap, a)),
{
    assert(seq![a].drop_last() =~= Seq::<Step>::empty());
    assert(run_steps(cfg, s, cap, Seq::<Step>::empty()) == (cfg, s));
    assert(seq![a].last() == a);
}

/// A run of two steps is the second applied after the first.
pub proof fn lemma_run_two<const M: usize>(
    cfg: DhcpConfig<M>,
    s: Seq<LeaseEntry>,
    cap: nat,
    a: Step,
    b: Step,
)
    ensures
        run_steps(cfg, s, cap, seq![a, b]) == (cfg, apply_step(cfg, apply_step(cfg, s, cap, a), cap, b)),
{
    assert(seq![a, b].drop_last() =~= seq![a]);
    assert(seq![a, b].last() == b);
    lemma_run_one(cfg, s, cap, a);
}

/// A lightweight DHCP server: at most `MAX_CLIENTS` leases, at most
/// `MAX_DNS` DNS servers in its configuration.
pub struct DhcpServer<const MAX_CLIENTS: usize, const MAX_DNS: usize> {
    config: DhcpConfig<MAX_DNS>,
    leases: LeaseTable<MAX_CLIENTS>,
}

impl<const MAX_CLIENTS: usize, const MAX_DNS: usize> DhcpServer<MAX_CLIENTS, MAX_DNS> {
    /// The server's configuration.
    pub closed spec fn spec_config(&self) -> DhcpConfig<MAX_DNS> {
        self.config
    }

    /// The server's leases, in table order.
    pub closed spec fn spec_leases(&self) -> Seq<LeaseEntry> {
        self.leases@
    }

    /// Creates a server with a router, a single DNS server and the default
    /// lease time.
    pub fn new(
        server_ip: Ipv4Addr,
        subnet_mask: Ipv4Addr,
        router: Ipv4Addr,
        dns_server: Ipv4Addr,
        ip_pool_start: Ipv4Addr,
        ip_pool_end: Ipv4Addr,
    ) -> (s: Self)
        ensures
            s.spec_config().server_ip == server_ip,
            s.spec_config().subnet_mask == subnet_mask,
            s.spec_config().router == Some(router),
            s.spec_config().dns_servers@ == DhcpConfig::<MAX_DNS>::dns_after_add(
                seq![],
                dns_server,
            ),
            s.spec_config().ip_pool_start == ip_pool_start,
            s.spec_config().ip_pool_end == ip_pool_end,
            s.spec_config().lease_time == DEFAULT_LEASE_TIME,
            s.spec_config().well_formed(),
            s.spec_leases() == Seq::<LeaseEntry>::empty(),
            table_valid(s.spec_leases(), MAX_CLIENTS as nat),
    {
        let mut dns_servers: Vec<Ipv4Addr> = Vec::new();
        if 0 < MAX_DNS {
            dns_servers.push(dns_server);
        }
        let config = DhcpConfig::<MAX_DNS> {
            server_ip,
            subnet_mask,
            router: Some(router),
            dns_servers,
            ip_pool_start,
            ip_pool_end,
            lease_time: DEFAULT_LEASE_TIME,
        };
        Self { config, leases: LeaseTable::new() }
    }

    /// Creates a server from a configuration, with no leases.
    pub fn with_config(config: DhcpConfig<MAX_DNS>) -> (s: Self)
        requires
            config.well_formed(),
        ensures
            s.spec_config() == config,
            s.spec_leases() == Seq::<LeaseEntry>::empty(),
            table_valid(s.spec_leases(), MAX_CLIENTS as nat),
    {
        Self { config, leases: LeaseTable::new() }
    }

    /// The current configuration.
    pub fn config(&self) -> (c: &DhcpConfig<MAX_DNS>)
        ensures
            *c == self.spec_config(),
    {
        &self.config
    }

    /// The current number of leases.
    pub fn lease_count(&self) -> (n: usize)
        ensures
            n == self.spec_leases().len(),
            n <= MAX_CLIENTS,
    {
        self.leases.check_valid();
        self.leases.len()
    }

    /// Inserts a lease for the client `lease.mac`, as the lease table's
    /// insert does.
    pub fn insert_lease(&mut self, lease: LeaseEntry) -> (r: Result<Option<LeaseEntry>, LeaseEntry>)
        ensures
            (final(self).spec_config(), final(self).spec_leases()) == run_steps(
                old(self).spec_config(),
                old(self).spec_leases(),
                MAX_CLIENTS as nat,
                seq![Step::Insert(lease)],
            ),
            final(self).spec_config() == old(self).spec_config(),
            final(self).spec_leases() == inserted(old(self).spec_leases(), MAX_CLIENTS as nat, lease),
            table_valid(final(self).spec_leases(), MAX_CLIENTS as nat),
            r == (if crate::lease::has_mac(old(self).spec_leases(), lease.mac) {
                Ok(lease_of(old(self).spec_leases(), lease.mac))
            } else if old(self).spec_leases().len() < MAX_CLIENTS {
                Ok(None)
            } else {
                Err(lease)
            }),
    {
        proof {
            lemma_run_one(self.spec_config(), self.spec_leases(), MAX_CLIENTS as nat, Step::Insert(lease));
        }
        self.leases.insert(lease)
    }

    /// Removes every lease that has ended at `now`.
    pub fn purge_expired_leases_at(&mut self, now: u64)
        ensures
            (final(self).spec_config(), final(self).spec_leases()) == run_steps(
                old(self).spec_config(),
                old(self).spec_leases(),
                MAX_CLIENTS as nat,
                seq![Step::Purge(now)],
            ),
            final(self).spec_config() == old(self).spec_config(),
            final(self).spec_leases() == unexpired(old(self).spec_leases(), now),
            table_valid(final(self).spec_leases(), MAX_CLIENTS as nat),
    {
        proof {
            lemma_run_one(self.spec_config(), self.spec_leases(), MAX_CLIENTS as nat, Step::Purge(now));
        }
        self.leases.retain_unexpired(now);
    }

    /// Removes every lease that has ended by the current time.
    pub fn purge_expired_leases(&mut self)
        ensures
            final(self).spec_config() == old(self).spec_config(),
            exists|t: u64| #[trigger]
                unexpired(old(self).spec_leases(), t) == final(self).spec_leases(),
            table_valid(final(self).spec_leases(), MAX_CLIENTS as nat),
    {
        let now = now_millis();
        self.purge_expired_leases_at(now);
    }

    /// Whether the pool is full: there are at least as many leases as
    /// addresses in the pool, or as the table can hold.
    pub fn is_pool_full(&self) -> (b: bool)
        requires
            self.spec_config().ip_pool_start@ <= self.spec_config().ip_pool_end@,
            self.spec_config().ip_pool_end@ - self.spec_config().ip_pool_start@ + 1 <= u32::MAX,
        ensures
            b == pool_full(self.spec_config(), self.spec_leases().len(), MAX_CLIENTS as nat),
    {
        let pool_size = self.config.ip_pool_end.0 - self.config.ip_pool_start.0 + 1;
        let limit = if (pool_size as usize) < MAX_CLIENTS { pool_size as usize } else { MAX_CLIENTS };
        self.leases.len() >= limit
    }

    /// The lowest address of the pool that no lease holds.
    pub fn get_next_available_ip(&self) -> (r: Option<Ipv4Addr>)
        ensures
            match r {
                Some(ip) => free_ip(self.spec_config(), self.spec_leases()) == Some(ip@),
                None => free_ip(self.spec_config(), self.spec_leases()) is None,
            },
    {
        let start = self.config.ip_pool_start.0;
        let end = self.config.ip_pool_end.0;
        if start > end {
            return None;
        }
        let mut x = start;
        loop
            invariant
                start <= x <= end,
                start == self.spec_config().ip_pool_start@,
                end == self.spec_config().ip_pool_end@,
                free_ip(self.spec_config(), self.spec_leases()) == first_free(
                    x as int,
                    end as int,
                    self.spec_leases(),
                ),
            decreases end - x,
        {
            if !self.leases.holds_ip(Ipv4Addr(x)) {
                return Some(Ipv4Addr(x));
            }
            if x == end {
                assert(first_free(x + 1, end as int, self.spec_leases()) is None);
                return None;
            }
            x = x + 1;
        }
    }

    /// Scans DHCP options for the message type.
    pub fn parse_message_type(options: &[u8]) -> (r: Option<u8>)
        ensures
            r == message_type_of(options@),
    {
        scan_message_type(options)
    }

    /// Builds a reply of type `msg_type` to `req` at time `now`, updating
    /// the lease table: an offer reserves the offered address for a
    /// minute, an acknowledgment (re-)inserts the client's lease for the
    /// configured lease time.
    pub fn make_response_at(&mut self, req: &DhcpRequest, msg_type: u8, now: u64) -> (buf: PacketBuf)
        requires
            req.consistent(),
            reply_time_fits(old(self).spec_config(), msg_type, now),
        ensures
            (final(self).spec_config(), final(self).spec_leases()) == run_steps(
                old(self).spec_config(),
                old(self).spec_leases(),
                MAX_CLIENTS as nat,
                seq![Step::Respond(*req, msg_type, now)],
            ),
            final(self).spec_config() == old(self).spec_config(),
            final(self).spec_leases() == leases_after_reply(
                old(self).spec_config(),
                old(self).spec_leases(),
                MAX_CLIENTS as nat,
                req.mac,
                msg_type,
                now,
            ),
            table_valid(final(self).spec_leases(), MAX_CLIENTS as nat),
            packet_buf_bytes(buf) == reply_bytes(
                old(self).spec_config(),
                old(self).spec_leases(),
                MAX_CLIENTS as nat,
                *req,
                msg_type,
            ),
    {
        proof {
            lemma_run_one(self.spec_config(), self.spec_leases(), MAX_CLIENTS as nat, Step::Respond(*req, msg_type, now));
        }
        self.leases.check_valid();
        let mac = req.mac;
        let mut yi: u32 = 0;
        let recordable = self.leases.get(&mac).is_some() || self.leases.len() < MAX_CLIENTS;
        if !recordable {
            // A full table without a lease for this client: hand out no
            // address that could not be recorded.
        } else if msg_type == DHCP_OFFER {
            if let Some(ip) = self.get_next_available_ip() {
                yi = ip.0;
                let reservation = LeaseEntry { ip, mac, expires_at: now + OFFER_RESERVATION_MS };
                let _ = self.leases.insert(reservation);
            }
        } else if msg_type == DHCP_ACK {
            if let Some(lease) = self.leases.get(&mac) {
                yi = lease.ip.0;
            } else if let Some(ip) = self.get_next_available_ip() {
                yi = ip.0;
            }
            let lease = LeaseEntry {
                ip: Ipv4Addr(yi),
                mac,
                expires_at: now + (self.config.lease_time as u64) * 1000,
            };
            let _ = self.leases.insert(lease);
        }
        let chaddr = [mac[0], mac[1], mac[2], mac[3], mac[4], mac[5], 0, 0, 0, 0, 0, 0, 0, 0, 0, 0];
        let resp = DhcpPacket {
            op: 2,
            xid: req.packet.xid,
            htype: 1,
            hlen: 6,
            chaddr,
            yiaddr: be_bytes(yi),
            magic: DHCP_MAGIC,
            ..DhcpPacket::default()
        };
        assert(resp@ =~= reply_header(req.packet.xid@, mac@, yi));
        let mut buf = PacketBuf::empty();
        resp.write_to(&mut buf);
        write_options(&self.config, msg_type, &mut buf);
        buf
    }

    /// Handles one request at time `now`, given the admission policy's
    /// answer for it: updates the lease table and returns the reply to
    /// send and the lease event completed, as `handle_outcome` says.
    pub fn handle_request_at(&mut self, req: &DhcpRequest, admitted: bool, now: u64) -> (r: Reply)
        requires
            req.consistent(),
            handling_time_fits(old(self).spec_config(), *req, admitted, now),
        ensures
            (final(self).spec_config(), final(self).spec_leases()) == run_steps(
                old(self).spec_config(),
                old(self).spec_leases(),
                MAX_CLIENTS as nat,
                seq![Step::Handle(*req, admitted, now)],
            ),
            final(self).spec_config() == old(self).spec_config(),
            (final(self).spec_leases(), response_bytes(r.response), r.event) == handle_outcome(
                old(self).spec_config(),
                old(self).spec_leases(),
                MAX_CLIENTS as nat,
                *req,
                admitted,
                now,
            ),
            table_valid(final(self).spec_leases(), MAX_CLIENTS as nat),
    {
        proof {
            lemma_run_one(self.spec_config(), self.spec_leases(), MAX_CLIENTS as nat, Step::Handle(*req, admitted, now));
        }
        self.leases.check_valid();
        if req.msg_type == DHCP_DISCOVER {
            if !admitted {
                return Reply { response: None, event: None };
            }
            let resp = self.make_response_at(req, DHCP_OFFER, now);
            Reply { response: Some(resp), event: None }
        } else if req.msg_type == DHCP_REQUEST {
            if !admitted {
                return Reply { response: None, event: None };
            }
            let resp = self.make_response_at(req, DHCP_ACK, now);
            let event = match self.leases.get(&req.mac) {
                Some(entry) => Some(TransactionEvent::Leased(entry.ip, req.mac)),
                None => None,
            };
            Reply { response: Some(resp), event }
        } else if req.msg_type == DHCP_RELEASE {
            let event = match self.leases.remove(&req.mac) {
                Some(e) => Some(TransactionEvent::Released(e.ip, e.mac)),
                None => None,
            };
            Reply { response: None, event }
        } else {
            Reply { response: None, event: None }
        }
    }

    /// Handles one request at the current time, given the admission
    /// policy's answer for it. The outcome is `handle_outcome` at some
    /// moment the clock gave.
    pub fn handle_request(&mut self, req: &DhcpRequest, admitted: bool) -> (r: Reply)
        requires
            req.consistent(),
        ensures
            final(self).spec_config() == old(self).spec_config(),
            exists|t: u64| #[trigger]
                handle_outcome(
                    old(self).spec_config(),
                    old(self).spec_leases(),
                    MAX_CLIENTS as nat,
                    *req,
                    admitted,
                    t,
                ) == (final(self).spec_leases(), response_bytes(r.response), r.event),
            table_valid(final(self).spec_leases(), MAX_CLIENTS as nat),
    {
        let now = now_millis();
        assert(now + 4294967295u64 * 1000 <= u64::MAX);
        self.handle_request_at(req, admitted, now)
    }

    /// The admission question a datagram raises: the client's hardware
    /// address and the kind of its message, for a discover, request or
    /// release; `None` for any other datagram, which needs no answer.
    pub fn admission_question(data: &[u8]) -> (q: Option<([u8; 6], AdmissionEvent)>)
        ensures
            q == admission_question_of(data@),
            q matches Some((m, k)) ==> m@ == data@.subrange(28, 34),
    {
        match DhcpRequest::parse(data) {
            Some(req) => match req.admission() {
                Some(kind) => {
                    proof {
                        lemma_reading_fixes_mac(data@, req);
                    }
                    Some((req.mac, kind))
                },
                None => None,
            },
            None => None,
        }
    }

    /// Handles one datagram at time `now`, given the admission policy's
    /// answer to the question the datagram raises (see
    /// `admission_question`; the answer is not used when there is no
    /// question): drops the leases ended at `now`, reads the request, and
    /// handles it. A datagram that is no DHCP request gets no reply and
    /// completes no event.
    pub fn handle_datagram_at(&mut self, data: &[u8], admitted: bool, now: u64) -> (r: Reply)
        requires
            datagram_time_fits(old(self).spec_config(), data@, admitted, now),
        ensures
            final(self).spec_config() == old(self).spec_config(),
            table_valid(final(self).spec_leases(), MAX_CLIENTS as nat),
            !is_request_datagram(data@) ==> {
                &&& (final(self).spec_config(), final(self).spec_leases()) == run_steps(
                    old(self).spec_config(),
                    old(self).spec_leases(),
                    MAX_CLIENTS as nat,
                    seq![Step::Purge(now)],
                )
                &&& final(self).spec_leases() == unexpired(old(self).spec_leases(), now)
                &&& r.response is None
                &&& r.event is None
            },
            forall|q: DhcpRequest| #[trigger]
                request_read_from(data@, q) ==> {
                    &&& (final(self).spec_config(), final(self).spec_leases()) == run_steps(
                        old(self).spec_config(),
                        old(self).spec_leases(),
                        MAX_CLIENTS as nat,
                        seq![Step::Purge(now), Step::Handle(q, admitted, now)],
                    )
                    &&& handle_outcome(
                        old(self).spec_config(),
                        unexpired(old(self).spec_leases(), now),
                        MAX_CLIENTS as nat,
                        q,
                        admitted,
                        now,
                    ) == (final(self).spec_leases(), response_bytes(r.response), r.event)
                },
    {
        let ghost cfg = self.spec_config();
        let ghost old_leases = self.spec_leases();
        self.purge_expired_leases_at(now);
        let ghost purged = self.spec_leases();
        let req = match DhcpRequest::parse(data) {
            Some(q) => q,
            None => {
                proof {
                    lemma_run_one(cfg, old_leases, MAX_CLIENTS as nat, Step::Purge(now));
                }
                return Reply { response: None, event: None };
            },
        };
        let r = self.handle_request_at(&req, admitted, now);
        proof {
            assert(request_read_from(data@, req));
            lemma_run_two(
                cfg,
                old_leases,
                MAX_CLIENTS as nat,
                Step::Purge(now),
                Step::Handle(req, admitted, now),
            );
            assert forall|q: DhcpRequest| #[trigger] request_read_from(data@, q) implies {
                &&& (cfg, self.spec_leases()) == run_steps(
                    cfg,
                    old_leases,
                    MAX_CLIENTS as nat,
                    seq![Step::Purge(now), Step::Handle(q, admitted, now)],
                )
                &&& handle_outcome(cfg, purged, MAX_CLIENTS as nat, q, admitted, now) == (
                    self.spec_leases(),
                    response_bytes(r.response),
                    r.event,
                )
            } by {
                lemma_same_reading_same_outcome(data@, req, q, cfg, purged, MAX_CLIENTS as nat, admitted, now);
                lemma_run_two(
                    cfg,
                    old_leases,
                    MAX_CLIENTS as nat,
                    Step::Purge(now),
                    Step::Handle(q, admitted, now),
                );
            }
        }
        r
    }

    /// Handles one datagram at the current time, given the admission
    /// policy's answer to the question the datagram raises: as
    /// `handle_datagram_at` at some moment the clock gave.
    pub fn handle_datagram(&mut self, data: &[u8], admitted: bool) -> (r: Reply)
        ensures
            final(self).spec_config() == old(self).spec_config(),
            table_valid(final(self).spec_leases(), MAX_CLIENTS as nat),
            exists|now: u64|
                {
                    &&& !is_request_datagram(data@) ==> {
                        &&& #[trigger] unexpired(old(self).spec_leases(), now)
                            == final(self).spec_leases()
                        &&& r.response is None
                        &&& r.event is None
                    }
                    &&& forall|q: DhcpRequest| #[trigger]
                        request_read_from(data@, q) ==> handle_outcome(
                            old(self).spec_config(),
                            unexpired(old(self).spec_leases(), now),
                            MAX_CLIENTS as nat,
                            q,
                            admitted,
                            now,
                        ) == (final(self).spec_leases(), response_bytes(r.response), r.event)
                },
    {
        let now = now_millis();
        assert(now + 4294967295u64 * 1000 <= u64::MAX);
        let r = self.handle_datagram_at(data, admitted, now);
        assert(unexpired(old(self).spec_leases(), now) == unexpired(old(self).spec_leases(), now));
        r
    }
}

} // verus!
