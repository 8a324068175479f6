//! The DHCP wire format (RFC 2131 / RFC 2132): the fixed BOOTP header,
//! the options that follow it, and the buffer replies are written into.

use vstd::prelude::*;
use crate::addr::{Ipv4Addr, be_octets};
use crate::config::DhcpConfig;

verus! {

/// DHCPDISCOVER message type.
pub const DHCP_DISCOVER: u8 = 1;
/// DHCPOFFER message type.
pub const DHCP_OFFER: u8 = 2;
/// DHCPREQUEST message type.
pub const DHCP_REQUEST: u8 = 3;
/// DHCPACK message type.
pub const DHCP_ACK: u8 = 5;
/// DHCPRELEASE message type.
pub const DHCP_RELEASE: u8 = 7;

/// Subnet mask option code.
pub const OPTION_SUBNET_MASK: u8 = 1;
/// Router option code.
pub const OPTION_ROUTER: u8 = 3;
/// Pad option code: a single byte with no length.
pub const OPTION_PAD: u8 = 0;
/// Domain name server option code.
pub const OPTION_DNS_SERVER: u8 = 6;
/// IP address lease time option code.
pub const OPTION_LEASE_TIME: u8 = 51;
/// DHCP message type option code.
pub const OPTION_MESSAGE_TYPE: u8 = 53;
/// Server identifier option code.
pub const OPTION_SERVER_ID: u8 = 54;
/// End option code.
pub const OPTION_END: u8 = 255;

/// The DHCP magic cookie 0x63825363, as it stands on the wire.
pub const DHCP_MAGIC: [u8; 4] = [0x63, 0x82, 0x53, 0x63];

/// Size of the fixed header, magic cookie included.
pub const FIXED_PART_SIZE: usize = 240;
/// Room left for options in a reply, before the end option.
pub const OPTIONS_SIZE: usize = 335;
/// Capacity of a reply buffer.
pub const DHCP_PACKET_SIZE: usize = FIXED_PART_SIZE + OPTIONS_SIZE + 1;

/// The magic cookie as a sequence.
pub open spec fn magic_cookie() -> Seq<u8> {
    seq![0x63u8, 0x82u8, 0x53u8, 0x63u8]
}

/// `n` zero bytes.
pub open spec fn zeros(n: nat) -> Seq<u8> {
    Seq::new(n, |i: int| 0u8)
}

/// Reply bytes, held in a `heapless::Vec` of `DHCP_PACKET_SIZE` bytes.
#[verifier::external_body]
pub struct PacketBuf {
    bytes: heapless::Vec<u8, DHCP_PACKET_SIZE>,
}

/// The bytes a reply buffer holds.
pub uninterp spec fn packet_buf_bytes(b: PacketBuf) -> Seq<u8>;

/// Appends `chunk` to `buf` when the result stays within a reply buffer's
/// capacity; otherwise leaves `buf` as it is.
pub open spec fn append_if_fits(buf: Seq<u8>, chunk: Seq<u8>) -> Seq<u8> {
    if buf.len() + chunk.len() <= DHCP_PACKET_SIZE {
        buf + chunk
    } else {
        buf
    }
}

impl PacketBuf {
    /// `heapless::Vec::new`: an empty vector.
    #[verifier::external_body]
    pub(crate) fn empty() -> (b: PacketBuf)
        ensures
            packet_buf_bytes(b) == Seq::<u8>::empty(),
    {
        PacketBuf { bytes: heapless::Vec::new() }
    }

    /// `heapless::Vec::extend_from_slice`: appends the slice when it fits in
    /// the remaining capacity and reports success; otherwise leaves the
    /// vector unchanged and reports failure. The vector never holds more
    /// than its capacity.
    #[verifier::external_body]
    fn extend(&mut self, s: &[u8]) -> (ok: bool)
        ensures
            ok == (packet_buf_bytes(*old(self)).len() + s@.len() <= DHCP_PACKET_SIZE),
            packet_buf_bytes(*final(self)) == append_if_fits(packet_buf_bytes(*old(self)), s@),
            packet_buf_bytes(*final(self)).len() <= DHCP_PACKET_SIZE,
    {
        self.bytes.extend_from_slice(s).is_ok()
    }

    /// `heapless::Vec::as_slice`: the bytes held.
    #[verifier::external_body]
    fn bytes(&self) -> (s: &[u8])
        ensures
            s@ == packet_buf_bytes(*self),
    {
        self.bytes.as_slice()
    }

    /// The bytes of the reply.
    pub fn as_slice(&self) -> (s: &[u8])
        ensures
            s@ == packet_buf_bytes(*self),
    {
        self.bytes()
    }

    /// The number of bytes of the reply.
    pub fn len(&self) -> (n: usize)
        ensures
            n == packet_buf_bytes(*self).len(),
    {
        self.bytes().len()
    }
}

/// The fixed part of a DHCP packet, field by field as it stands on the
/// wire. Multi-byte fields keep their wire bytes.
#[derive(Clone, Copy, Debug)]
pub struct DhcpPacket {
    /// Message op code: 1 for a request, 2 for a reply
    pub op: u8,
    /// Hardware address type
    pub htype: u8,
    /// Hardware address length
    pub hlen: u8,
    /// Relay hops
    pub hops: u8,
    /// Transaction id
    pub xid: [u8; 4],
    /// Seconds elapsed since the client began
    pub secs: [u8; 2],
    /// Flags
    pub flags: [u8; 2],
    /// Client IP address
    pub ciaddr: [u8; 4],
    /// "Your" (client) IP address
    pub yiaddr: [u8; 4],
    /// Next server IP address
    pub siaddr: [u8; 4],
    /// Relay agent IP address
    pub giaddr: [u8; 4],
    /// Client hardware address
    pub chaddr: [u8; 16],
    /// Server host name
    pub sname: [u8; 64],
    /// Boot file name
    pub file: [u8; 128],
    /// Magic cookie
    pub magic: [u8; 4],
}

impl View for DhcpPacket {
    type V = Seq<u8>;

    /// The header's wire bytes.
    open spec fn view(&self) -> Seq<u8> {
        seq![self.op, self.htype, self.hlen, self.hops] + self.xid@ + self.secs@ + self.flags@
            + self.ciaddr@ + self.yiaddr@ + self.siaddr@ + self.giaddr@ + self.chaddr@
            + self.sname@ + self.file@ + self.magic@
    }
}

/// Copies `N` bytes of `data`, starting at `off`, into an array.
fn read_array<const N: usize>(data: &[u8], off: usize) -> (a: [u8; N])
    requires
        off + N <= data@.len(),
    ensures
        a@ == data@.subrange(off as int, off + N),
{
    let mut a: [u8; N] = [0u8; N];
    let mut i: usize = 0;
    while i < N
        invariant
            i <= N,
            off + N <= data.len(),
            a@.len() == N,
            forall|j: int| 0 <= j < i ==> a@[j] == data@[off + j],
        decreases N - i,
    {
        a[i] = data[off + i];
        i = i + 1;
    }
    assert(a@ =~= data@.subrange(off as int, off + N));
    a
}

impl DhcpPacket {
    /// Reads the fixed header at the start of `data`; `None` when `data`
    /// is shorter than the header.
    pub fn parse(data: &[u8]) -> (r: Option<DhcpPacket>)
        ensures
            r is Some <==> data@.len() >= FIXED_PART_SIZE,
            r matches Some(p) ==> p@ == data@.take(FIXED_PART_SIZE as int),
    {
        if data.len() < FIXED_PART_SIZE {
            return None;
        }
        let p = DhcpPacket {
            op: data[0],
            htype: data[1],
            hlen: data[2],
            hops: data[3],
            xid: read_array::<4>(data, 4),
            secs: read_array::<2>(data, 8),
            flags: read_array::<2>(data, 10),
            ciaddr: read_array::<4>(data, 12),
            yiaddr: read_array::<4>(data, 16),
            siaddr: read_array::<4>(data, 20),
            giaddr: read_array::<4>(data, 24),
            chaddr: read_array::<16>(data, 28),
            sname: read_array::<64>(data, 44),
            file: read_array::<128>(data, 108),
            magic: read_array::<4>(data, 236),
        };
        assert(p@ =~= data@.take(FIXED_PART_SIZE as int));
        Some(p)
    }

    /// Whether the header carries the DHCP magic cookie.
    pub fn has_magic_cookie(&self) -> (b: bool)
        ensures
            b == (self.magic@ == magic_cookie()),
    {
        let r = self.magic[0] == 0x63 && self.magic[1] == 0x82 && self.magic[2] == 0x53
            && self.magic[3] == 0x63;
        assert(r ==> self.magic@ =~= magic_cookie());
        r
    }

    /// Appends the header's wire bytes to an empty reply buffer.
    pub(crate) fn write_to(&self, buf: &mut PacketBuf)
        requires
            packet_buf_bytes(*old(buf)) == Seq::<u8>::empty(),
        ensures
            packet_buf_bytes(*final(buf)) == self@,
    {
        let lead = [self.op, self.htype, self.hlen, self.hops];
        assert(lead@ =~= seq![self.op, self.htype, self.hlen, self.hops]);
        buf.extend(&lead);
        buf.extend(&self.xid);
        buf.extend(&self.secs);
        buf.extend(&self.flags);
        buf.extend(&self.ciaddr);
        buf.extend(&self.yiaddr);
        buf.extend(&self.siaddr);
        buf.extend(&self.giaddr);
        buf.extend(&self.chaddr);
        buf.extend(&self.sname);
        buf.extend(&self.file);
        buf.extend(&self.magic);
    }
}

impl Default for DhcpPacket {
    /// An all-zero header that carries the magic cookie.
    fn default() -> (p: Self)
        ensures
            p@ == zeros(236) + magic_cookie(),
            p.op == 0 && p.htype == 0 && p.hlen == 0 && p.hops == 0,
            p.xid@ == zeros(4) && p.secs@ == zeros(2) && p.flags@ == zeros(2),
            p.ciaddr@ == zeros(4) && p.yiaddr@ == zeros(4),
            p.siaddr@ == zeros(4) && p.giaddr@ == zeros(4),
            p.chaddr@ == zeros(16) && p.sname@ == zeros(64) && p.file@ == zeros(128),
            p.magic@ == magic_cookie(),
    {
        let p = DhcpPacket {
            op: 0,
            htype: 0,
            hlen: 0,
            hops: 0,
            xid: [0u8; 4],
            secs: [0u8; 2],
            flags: [0u8; 2],
            ciaddr: [0u8; 4],
            yiaddr: [0u8; 4],
            siaddr: [0u8; 4],
            giaddr: [0u8; 4],
            chaddr: [0u8; 16],
            sname: [0u8; 64],
            file: [0u8; 128],
            magic: DHCP_MAGIC,
        };
        assert(p.xid@ =~= zeros(4) && p.secs@ =~= zeros(2) && p.flags@ =~= zeros(2));
        assert(p.ciaddr@ =~= zeros(4) && p.yiaddr@ =~= zeros(4));
        assert(p.siaddr@ =~= zeros(4) && p.giaddr@ =~= zeros(4));
        assert(p.chaddr@ =~= zeros(16) && p.sname@ =~= zeros(64) && p.file@ =~= zeros(128));
        assert(p.magic@ =~= magic_cookie());
        assert(p@ =~= zeros(236) + magic_cookie());
        p
    }
}

/// The message type announced in an options field, scanning from offset
/// `i` (RFC 2132): the end option stops the scan; a pad is one byte and is
/// skipped; a message-type option with its
/// value inside the field gives that value; any other option is skipped
/// by its length byte; an option cut off by the end of the field stops
/// the scan.
pub open spec fn message_type_from(opts: Seq<u8>, i: int) -> Option<u8>
    decreases opts.len() - i,
{
    if i < 0 || i >= opts.len() {
        None
    } else if opts[i] == OPTION_END {
        None
    } else if opts[i] == OPTION_PAD {
        message_type_from(opts, i + 1)
    } else if opts[i] == OPTION_MESSAGE_TYPE && i + 2 < opts.len() {
        Some(opts[i + 2])
    } else if i + 1 < opts.len() {
        let next = i + opts[i + 1] + 2;
        if next < opts.len() {
            message_type_from(opts, next)
        } else {
            None
        }
    } else {
        None
    }
}

/// The message type announced in an options field.
pub open spec fn message_type_of(opts: Seq<u8>) -> Option<u8> {
    message_type_from(opts, 0)
}

/// The length byte of the DNS option for `n` servers: `4 * n` when it
/// fits in a byte, else 0.
pub open spec fn dns_length_byte(n: nat) -> u8 {
    if n * 4 <= 255 {
        (n * 4) as u8
    } else {
        0
    }
}

/// One option value per DNS server: its four octets.
pub open spec fn dns_chunks(dns: Seq<Ipv4Addr>) -> Seq<Seq<u8>> {
    dns.map_values(|ip: Ipv4Addr| be_octets(ip@))
}

/// The router option, when a router is configured.
pub open spec fn router_chunks(router: Option<Ipv4Addr>) -> Seq<Seq<u8>> {
    match router {
        Some(r) => seq![seq![OPTION_ROUTER, 4u8], be_octets(r@)],
        None => seq![],
    }
}

/// The DNS option, when DNS servers are configured.
pub open spec fn dns_option_chunks(dns: Seq<Ipv4Addr>) -> Seq<Seq<u8>> {
    if dns.len() == 0 {
        seq![]
    } else {
        seq![seq![OPTION_DNS_SERVER, dns_length_byte(dns.len())]] + dns_chunks(dns)
    }
}

/// The pieces of the options field of a reply of type `msg_type`, in the
/// order they are written: message type, server identifier, subnet mask,
/// router, DNS servers, lease time, end.
pub open spec fn option_chunks<const M: usize>(cfg: DhcpConfig<M>, msg_type: u8) -> Seq<Seq<u8>> {
    seq![
        seq![OPTION_MESSAGE_TYPE, 1u8, msg_type],
        seq![OPTION_SERVER_ID, 4u8],
        be_octets(cfg.server_ip@),
        seq![OPTION_SUBNET_MASK, 4u8],
        be_octets(cfg.subnet_mask@),
    ] + router_chunks(cfg.router) + dns_option_chunks(cfg.dns_servers@) + seq![
        seq![OPTION_LEASE_TIME, 4u8],
        be_octets(cfg.lease_time),
        seq![OPTION_END],
    ]
}

/// `buf` after appending each of `chunks` in turn, each one only if it
/// still fits in a reply buffer.
pub open spec fn append_chunks(buf: Seq<u8>, chunks: Seq<Seq<u8>>) -> Seq<u8>
    decreases chunks.len(),
{
    if chunks.len() == 0 {
        buf
    } else {
        append_if_fits(append_chunks(buf, chunks.drop_last()), chunks.last())
    }
}

proof fn lemma_append_chunks_push(buf: Seq<u8>, cs: Seq<Seq<u8>>, c: Seq<u8>)
    ensures
        append_chunks(buf, cs.push(c)) == append_if_fits(append_chunks(buf, cs), c),
{
    assert(cs.push(c).drop_last() =~= cs);
}

/// Appends one chunk, keeping track of the chunks appended so far.
fn put_chunk(
    buf: &mut PacketBuf,
    chunk: &[u8],
    Ghost(base): Ghost<Seq<u8>>,
    Ghost(done): Ghost<Seq<Seq<u8>>>,
)
    requires
        packet_buf_bytes(*old(buf)) == append_chunks(base, done),
    ensures
        packet_buf_bytes(*final(buf)) == append_chunks(base, done.push(chunk@)),
{
    buf.extend(chunk);
    proof {
        lemma_append_chunks_push(base, done, chunk@);
    }
}

/// Appends the options of a reply of type `msg_type` built from `cfg`;
/// a piece that no longer fits in the buffer is left out.
pub(crate) fn write_options<const M: usize>(cfg: &DhcpConfig<M>, msg_type: u8, buf: &mut PacketBuf)
    ensures
        packet_buf_bytes(*final(buf)) == append_chunks(
            packet_buf_bytes(*old(buf)),
            option_chunks(*cfg, msg_type),
        ),
{
    let ghost base = packet_buf_bytes(*buf);
    let ghost mut done: Seq<Seq<u8>> = seq![];
    assert(packet_buf_bytes(*buf) == append_chunks(base, done));

    let c0 = [OPTION_MESSAGE_TYPE, 1, msg_type];
    assert(c0@ =~= seq![OPTION_MESSAGE_TYPE, 1u8, msg_type]);
    put_chunk(buf, &c0, Ghost(base), Ghost(done));
    proof { done = done.push(c0@); }
    let c1 = [OPTION_SERVER_ID, 4];
    assert(c1@ =~= seq![OPTION_SERVER_ID, 4u8]);
    put_chunk(buf, &c1, Ghost(base), Ghost(done));
    proof { done = done.push(c1@); }
    let c2 = cfg.server_ip.octets();
    put_chunk(buf, &c2, Ghost(base), Ghost(done));
    proof { done = done.push(c2@); }
    let c3 = [OPTION_SUBNET_MASK, 4];
    assert(c3@ =~= seq![OPTION_SUBNET_MASK, 4u8]);
    put_chunk(buf, &c3, Ghost(base), Ghost(done));
    proof { done = done.push(c3@); }
    let c4 = cfg.subnet_mask.octets();
    put_chunk(buf, &c4, Ghost(base), Ghost(done));
    proof { done = done.push(c4@); }
    let ghost head = done;
    assert(head =~= seq![
        seq![OPTION_MESSAGE_TYPE, 1u8, msg_type],
        seq![OPTION_SERVER_ID, 4u8],
        be_octets(cfg.server_ip@),
        seq![OPTION_SUBNET_MASK, 4u8],
        be_octets(cfg.subnet_mask@),
    ]);

    if let Some(router) = cfg.router {
        let c5 = [OPTION_ROUTER, 4];
        assert(c5@ =~= seq![OPTION_ROUTER, 4u8]);
        put_chunk(buf, &c5, Ghost(base), Ghost(done));
        proof { done = done.push(c5@); }
        let c6 = router.octets();
        put_chunk(buf, &c6, Ghost(base), Ghost(done));
        proof { done = done.push(c6@); }
    }
    assert(done =~= head + router_chunks(cfg.router));
    let ghost with_router = done;

    let n = cfg.dns_servers.len();
    if n > 0 {
        let len_byte: u8 = match n.checked_mul(4) {
            Some(l) => if l <= 255 { l as u8 } else { 0 },
            None => 0,
        };
        let c7 = [OPTION_DNS_SERVER, len_byte];
        assert(c7@ =~= seq![OPTION_DNS_SERVER, dns_length_byte(n as nat)]);
        put_chunk(buf, &c7, Ghost(base), Ghost(done));
        proof { done = done.push(c7@); }
        let ghost before_dns = done;
        let mut i: usize = 0;
        while i < n
            invariant
                n == cfg.dns_servers@.len(),
                i <= n,
                packet_buf_bytes(*buf) == append_chunks(base, done),
                done =~= before_dns + dns_chunks(cfg.dns_servers@.take(i as int)),
            decreases n - i,
        {
            let o = cfg.dns_servers[i].octets();
            put_chunk(buf, &o, Ghost(base), Ghost(done));
            proof {
                done = done.push(o@);
                assert(dns_chunks(cfg.dns_servers@.take(i + 1)) =~= dns_chunks(
                    cfg.dns_servers@.take(i as int),
                ).push(be_octets(cfg.dns_servers@[i as int]@)));
            }
            i = i + 1;
        }
        assert(cfg.dns_servers@.take(n as int) =~= cfg.dns_servers@);
    }
    assert(done =~= with_router + dns_option_chunks(cfg.dns_servers@));
    let ghost with_dns = done;

    let c8 = [OPTION_LEASE_TIME, 4];
    assert(c8@ =~= seq![OPTION_LEASE_TIME, 4u8]);
    put_chunk(buf, &c8, Ghost(base), Ghost(done));
    proof { done = done.push(c8@); }
    let c9 = crate::addr::be_bytes(cfg.lease_time);
    put_chunk(buf, &c9, Ghost(base), Ghost(done));
    proof { done = done.push(c9@); }
    let c10 = [OPTION_END];
    assert(c10@ =~= seq![OPTION_END]);
    put_chunk(buf, &c10, Ghost(base), Ghost(done));
    proof { done = done.push(c10@); }
    assert(done =~= option_chunks(*cfg, msg_type));
}

} // verus!
