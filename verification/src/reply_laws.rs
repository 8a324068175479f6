//! Where each option stands in a reply, and how replies of two message
//! types to the same request compare.

use vstd::prelude::*;
use crate::addr::be_octets;
use crate::config::DhcpConfig;
use crate::laws::lemma_append_chunks_prefix;
use crate::lease::LeaseEntry;
use crate::server::{DhcpRequest, reply_address, reply_bytes, reply_header};
use crate::wire::{
    append_chunks, dns_chunks, dns_option_chunks, option_chunks, router_chunks, DHCP_PACKET_SIZE,
    FIXED_PART_SIZE, OPTION_DNS_SERVER, OPTION_LEASE_TIME, OPTION_MESSAGE_TYPE, OPTION_ROUTER,
    OPTION_SERVER_ID, OPTION_SUBNET_MASK, OPTION_END,
};

verus! {

/// The chunks, one after another.
spec fn joined(cs: Seq<Seq<u8>>) -> Seq<u8>
    decreases cs.len(),
{
    if cs.len() == 0 {
        Seq::empty()
    } else {
        joined(cs.drop_last()) + cs.last()
    }
}

proof fn lemma_joined_step(cs: Seq<Seq<u8>>, k: int)
    requires
        0 <= k < cs.len(),
    ensures
        joined(cs.take(k + 1)) == joined(cs.take(k)) + cs[k],
{
    assert(cs.take(k + 1).drop_last() =~= cs.take(k));
    assert(cs.take(k + 1).last() == cs[k]);
}

proof fn lemma_joined_fits(buf: Seq<u8>, cs: Seq<Seq<u8>>)
    requires
        buf.len() + joined(cs).len() <= DHCP_PACKET_SIZE,
    ensures
        append_chunks(buf, cs) == buf + joined(cs),
    decreases cs.len(),
{
    if cs.len() == 0 {
        assert(buf + joined(cs) =~= buf);
    } else {
        lemma_joined_fits(buf, cs.drop_last());
        assert(buf + joined(cs.drop_last()) + cs.last() =~= buf + joined(cs));
    }
}

/// The first `k` chunks, when together they fit, stand right after `buf`.
proof fn lemma_written_prefix(buf: Seq<u8>, cs: Seq<Seq<u8>>, k: int)
    requires
        0 <= k <= cs.len(),
        buf.len() + joined(cs.take(k)).len() <= DHCP_PACKET_SIZE,
    ensures
        append_chunks(buf, cs).len() >= buf.len() + joined(cs.take(k)).len(),
        append_chunks(buf, cs).subrange(buf.len() as int, (buf.len() + joined(cs.take(k)).len()) as int)
            == joined(cs.take(k)),
{
    lemma_joined_fits(buf, cs.take(k));
    lemma_append_chunks_prefix(buf, cs, k);
    let p = append_chunks(buf, cs.take(k));
    let r = append_chunks(buf, cs);
    let j = joined(cs.take(k));
    assert forall|i: int| 0 <= i < j.len() implies #[trigger] r.subrange(
        buf.len() as int,
        (buf.len() + j.len()) as int,
    )[i] == j[i] by {
        assert(r.take(p.len() as int)[buf.len() + i] == r[buf.len() + i]);
        assert(p[buf.len() + i] == j[i]);
    }
    assert(r.subrange(buf.len() as int, (buf.len() + j.len()) as int) =~= j);
}

/// A run of four-byte chunks adds four bytes each.
proof fn lemma_joined_quads(cs: Seq<Seq<u8>>, start: int, i: int)
    requires
        0 <= start,
        0 <= i,
        start + i <= cs.len(),
        forall|j: int| start <= j < start + i ==> (#[trigger] cs[j]).len() == 4,
    ensures
        joined(cs.take(start + i)).len() == joined(cs.take(start)).len() + 4 * i,
    decreases i,
{
    if i > 0 {
        lemma_joined_quads(cs, start, i - 1);
        lemma_joined_step(cs, start + i - 1);
    }
}

/// Two chunk lists that agree but for the third byte of their first chunk
/// give, after headers of one length, results of one length that agree at
/// every position past the headers but the third one.
proof fn lemma_first_chunk_third_byte(h1: Seq<u8>, h2: Seq<u8>, cs1: Seq<Seq<u8>>, cs2: Seq<Seq<u8>>)
    requires
        h1.len() == h2.len(),
        cs1.len() == cs2.len(),
        forall|k: int| 0 < k < cs1.len() ==> #[trigger] cs1[k] == cs2[k],
        cs1.len() > 0 ==> cs1[0].len() == cs2[0].len(),
        cs1.len() > 0 ==> forall|j: int|
            0 <= j < cs1[0].len() && j != 2 ==> #[trigger] cs1[0][j] == cs2[0][j],
    ensures
        append_chunks(h1, cs1).len() == append_chunks(h2, cs2).len(),
        forall|i: int|
            h1.len() <= i < append_chunks(h1, cs1).len() && i != h1.len() + 2
                ==> #[trigger] append_chunks(h1, cs1)[i] == append_chunks(h2, cs2)[i],
    decreases cs1.len(),
{
    if cs1.len() > 0 {
        let d1 = cs1.drop_last();
        let d2 = cs2.drop_last();
        lemma_first_chunk_third_byte(h1, h2, d1, d2);
        let a1 = append_chunks(h1, d1);
        let a2 = append_chunks(h2, d2);
        let c1 = cs1.last();
        let c2 = cs2.last();
        let r1 = append_chunks(h1, cs1);
        let r2 = append_chunks(h2, cs2);
        if cs1.len() == 1 {
            assert(d1.len() == 0 && d2.len() == 0);
            assert(a1 == h1 && a2 == h2);
            assert(c1 == cs1[0] && c2 == cs2[0]);
        } else {
            assert(c1 == cs1[cs1.len() - 1]);
            assert(c1 == c2);
        }
        assert(c1.len() == c2.len());
        assert forall|i: int|
            h1.len() <= i < r1.len() && i != h1.len() + 2 implies #[trigger] r1[i] == r2[i] by {
            if a1.len() + c1.len() <= DHCP_PACKET_SIZE && i >= a1.len() {
                assert(r1[i] == c1[i - a1.len()]);
                assert(r2[i] == c2[i - a2.len()]);
            }
        }
    }
}

/// Replies of two message types to the same request, from the same leases,
/// carry the same options but for the message-type value: the options
/// fields have one length and differ at most in their third byte, which
/// holds each reply's own type. So every option that one reply carries,
/// the router and the DNS servers among them, the other carries too, at
/// the same place and with the same value.
pub proof fn law_reply_options_differ_only_in_type<const M: usize>(
    cfg: DhcpConfig<M>,
    s: Seq<LeaseEntry>,
    cap: nat,
    req: DhcpRequest,
    t1: u8,
    t2: u8,
)
    ensures
        ({
            let o1 = reply_bytes(cfg, s, cap, req, t1).skip(240);
            let o2 = reply_bytes(cfg, s, cap, req, t2).skip(240);
            &&& o1.len() == o2.len()
            &&& o1.len() >= 3
            &&& o1[2] == t1
            &&& o2[2] == t2
            &&& forall|i: int| 0 <= i < o1.len() && i != 2 ==> #[trigger] o1[i] == o2[i]
        }),
{
    let h1 = reply_header(req.packet.xid@, req.mac@, reply_address(cfg, s, cap, req.mac, t1));
    let h2 = reply_header(req.packet.xid@, req.mac@, reply_address(cfg, s, cap, req.mac, t2));
    let cs1 = option_chunks(cfg, t1);
    let cs2 = option_chunks(cfg, t2);
    assert(h1.len() == 240 && h2.len() == 240);
    assert(cs1.skip(1) =~= cs2.skip(1));
    assert forall|k: int| 0 < k < cs1.len() implies #[trigger] cs1[k] == cs2[k] by {
        assert(cs1[k] == cs1.skip(1)[k - 1]);
        assert(cs2[k] == cs2.skip(1)[k - 1]);
    }
    assert(cs1[0] == seq![OPTION_MESSAGE_TYPE, 1u8, t1]);
    assert(cs2[0] == seq![OPTION_MESSAGE_TYPE, 1u8, t2]);
    lemma_first_chunk_third_byte(h1, h2, cs1, cs2);
    let r1 = reply_bytes(cfg, s, cap, req, t1);
    let r2 = reply_bytes(cfg, s, cap, req, t2);
    lemma_append_chunks_prefix(h1, cs1, 1);
    lemma_append_chunks_prefix(h2, cs2, 1);
    assert(cs1.take(1).drop_last() =~= Seq::<Seq<u8>>::empty());
    assert(cs2.take(1).drop_last() =~= Seq::<Seq<u8>>::empty());
    assert(cs1.take(1).last() == cs1[0] && cs2.take(1).last() == cs2[0]);
    assert(append_chunks(h1, cs1.take(1).drop_last()) == h1);
    assert(append_chunks(h2, cs2.take(1).drop_last()) == h2);
    assert(append_chunks(h1, cs1.take(1)) == h1 + cs1[0]);
    assert(append_chunks(h2, cs2.take(1)) == h2 + cs2[0]);
    assert(r1.take(243)[242] == t1);
    assert(r2.take(243)[242] == t2);
    let o1 = r1.skip(240);
    let o2 = r2.skip(240);
    assert forall|i: int| 0 <= i < o1.len() && i != 2 implies #[trigger] o1[i] == o2[i] by {
        assert(o1[i] == r1[i + 240]);
        assert(o2[i] == r2[i + 240]);
    }
}


/// The message type, server identifier and subnet mask options.
spec fn head_bytes<const M: usize>(cfg: DhcpConfig<M>, t: u8) -> Seq<u8> {
    seq![OPTION_MESSAGE_TYPE, 1u8, t, OPTION_SERVER_ID, 4u8] + be_octets(cfg.server_ip@) + seq![
        OPTION_SUBNET_MASK,
        4u8,
    ] + be_octets(cfg.subnet_mask@)
}

/// The router option's bytes, when a router is configured.
spec fn router_bytes(router: Option<crate::addr::Ipv4Addr>) -> Seq<u8> {
    match router {
        Some(x) => seq![OPTION_ROUTER, 4u8] + be_octets(x@),
        None => Seq::empty(),
    }
}

/// The pieces of the options, and what the first of them write.
proof fn lemma_option_head<const M: usize>(cfg: DhcpConfig<M>, t: u8)
    ensures
        ({
            let cs = option_chunks(cfg, t);
            let pa: int = 5 + router_chunks(cfg.router).len() as int;
            &&& cs == seq![
                seq![OPTION_MESSAGE_TYPE, 1u8, t],
                seq![OPTION_SERVER_ID, 4u8],
                be_octets(cfg.server_ip@),
                seq![OPTION_SUBNET_MASK, 4u8],
                be_octets(cfg.subnet_mask@),
            ] + router_chunks(cfg.router) + dns_option_chunks(cfg.dns_servers@) + seq![
                seq![OPTION_LEASE_TIME, 4u8],
                be_octets(cfg.lease_time),
                seq![OPTION_END],
            ]
            &&& pa <= cs.len()
            &&& joined(cs.take(pa)) == head_bytes(cfg, t) + router_bytes(cfg.router)
            &&& joined(cs.take(pa)).len() == if cfg.router is Some { 21int } else { 15int }
        }),
{
    let cs = option_chunks(cfg, t);
    let a0 = seq![
        seq![OPTION_MESSAGE_TYPE, 1u8, t],
        seq![OPTION_SERVER_ID, 4u8],
        be_octets(cfg.server_ip@),
        seq![OPTION_SUBNET_MASK, 4u8],
        be_octets(cfg.subnet_mask@),
    ];
    let rc = router_chunks(cfg.router);
    assert(cs.take(0) =~= Seq::<Seq<u8>>::empty());
    assert(joined(cs.take(0)) == Seq::<u8>::empty());
    lemma_joined_step(cs, 0);
    lemma_joined_step(cs, 1);
    lemma_joined_step(cs, 2);
    lemma_joined_step(cs, 3);
    lemma_joined_step(cs, 4);
    assert(cs[0] == a0[0] && cs[1] == a0[1] && cs[2] == a0[2] && cs[3] == a0[3] && cs[4] == a0[4]);
    assert(joined(cs.take(5)) =~= head_bytes(cfg, t));
    if let Some(x) = cfg.router {
        lemma_joined_step(cs, 5);
        lemma_joined_step(cs, 6);
        assert(cs[5] == rc[0] && cs[6] == rc[1]);
        assert(joined(cs.take(7)) =~= head_bytes(cfg, t) + router_bytes(cfg.router));
    } else {
        assert(head_bytes(cfg, t) + router_bytes(cfg.router) =~= head_bytes(cfg, t));
    }
}

/// With DNS servers configured, the DNS option's code and length byte
/// follow the router, and one four-byte piece per server follows them.
proof fn lemma_option_dns<const M: usize>(cfg: DhcpConfig<M>, t: u8)
    requires
        cfg.dns_servers@.len() > 0,
    ensures
        ({
            let cs = option_chunks(cfg, t);
            let dns = cfg.dns_servers@;
            let pa: int = 5 + router_chunks(cfg.router).len() as int;
            &&& pa + 1 + dns.len() + 3 == cs.len()
            &&& joined(cs.take(pa + 1)) == joined(cs.take(pa)) + seq![
                OPTION_DNS_SERVER,
                crate::wire::dns_length_byte(dns.len()),
            ]
            &&& forall|i: int| 0 <= i < dns.len() ==> #[trigger] cs[pa + 1 + i] == be_octets(dns[i]@)
        }),
{
    lemma_option_head(cfg, t);
    let cs = option_chunks(cfg, t);
    let dns = cfg.dns_servers@;
    let pa: int = 5 + router_chunks(cfg.router).len() as int;
    let dc = dns_option_chunks(dns);
    let lb = crate::wire::dns_length_byte(dns.len());
    assert(dc == seq![seq![OPTION_DNS_SERVER, lb]] + dns_chunks(dns));
    lemma_joined_step(cs, pa);
    assert(cs[pa] == dc[0]);
    assert forall|i: int| 0 <= i < dns.len() implies #[trigger] cs[pa + 1 + i] == be_octets(dns[i]@) by {
        assert(cs[pa + 1 + i] == dc[i + 1]);
        assert(dc[i + 1] == dns_chunks(dns)[i]);
    }
}

/// The lease time and end options close the options; before them stand
/// the message type, server identifier, subnet mask, router and DNS
/// options.
proof fn lemma_option_tail<const M: usize>(cfg: DhcpConfig<M>, t: u8)
    ensures
        ({
            let cs = option_chunks(cfg, t);
            let n = cfg.dns_servers@.len();
            let p: int = if cfg.router is Some { 21 } else { 15 };
            let q: int = if n > 0 { p + 2 + 4 * n } else { p };
            joined(cs) == joined(cs.take(cs.len() - 3)) + seq![OPTION_LEASE_TIME, 4u8] + be_octets(
                cfg.lease_time,
            ) + seq![OPTION_END] && joined(cs.take(cs.len() - 3)).len() == q
        }),
{
    lemma_option_head(cfg, t);
    let cs = option_chunks(cfg, t);
    let dns = cfg.dns_servers@;
    let n = dns.len();
    let pa: int = 5 + router_chunks(cfg.router).len() as int;
    let dc = dns_option_chunks(dns);
    let pd: int = pa + dc.len() as int;
    let tc = seq![seq![OPTION_LEASE_TIME, 4u8], be_octets(cfg.lease_time), seq![OPTION_END]];
    if n > 0 {
        lemma_option_dns(cfg, t);
        assert forall|j: int| pa + 1 <= j < pa + 1 + n implies (#[trigger] cs[j]).len() == 4 by {
            assert(cs[pa + 1 + (j - pa - 1)] == be_octets(dns[j - pa - 1]@));
        }
        lemma_joined_quads(cs, pa + 1, n as int);
    } else {
        assert(dc.len() == 0);
    }
    assert(cs.len() == pd + 3);
    lemma_joined_step(cs, pd);
    lemma_joined_step(cs, pd + 1);
    lemma_joined_step(cs, pd + 2);
    assert(cs[pd] == tc[0] && cs[pd + 1] == tc[1] && cs[pd + 2] == tc[2]);
    assert(cs.take(pd + 3) =~= cs);
    assert(joined(cs) =~= joined(cs.take(pd)) + seq![OPTION_LEASE_TIME, 4u8] + be_octets(
        cfg.lease_time,
    ) + seq![OPTION_END]);
}

/// The options of every reply stand in a fixed order, each at its place:
/// the message type, the server identifier and the subnet mask first; then
/// the router, whenever one is configured, whatever the message type; then
/// the DNS option, whose length byte counts four bytes per server (zero
/// when that does not fit in a byte), followed by each server's address in
/// the configured order, as far as the reply buffer has room.
pub proof fn law_reply_option_layout<const M: usize>(
    cfg: DhcpConfig<M>,
    s: Seq<LeaseEntry>,
    cap: nat,
    req: DhcpRequest,
    t: u8,
)
    ensures
        ({
            let opts = reply_bytes(cfg, s, cap, req, t).skip(240);
            let n = cfg.dns_servers@.len();
            let p: int = if cfg.router is Some { 21 } else { 15 };
            &&& opts.len() >= p
            &&& opts.take(15) == seq![OPTION_MESSAGE_TYPE, 1u8, t, OPTION_SERVER_ID, 4u8]
                + be_octets(cfg.server_ip@) + seq![OPTION_SUBNET_MASK, 4u8] + be_octets(
                cfg.subnet_mask@,
            )
            &&& (cfg.router matches Some(x) ==> opts.subrange(15, 21) == seq![OPTION_ROUTER, 4u8]
                + be_octets(x@))
            &&& (n > 0 ==> opts.len() >= p + 2 && opts[p] == OPTION_DNS_SERVER)
            &&& (n > 0 && n * 4 <= 255 ==> opts[p + 1] == n * 4)
            &&& (n * 4 > 255 ==> opts[p + 1] == 0)
            &&& forall|i: int|
                0 <= i < n && FIXED_PART_SIZE + p + 6 + 4 * i <= DHCP_PACKET_SIZE
                    ==> opts.subrange(p + 2 + 4 * i, p + 6 + 4 * i) == #[trigger] be_octets(
                    cfg.dns_servers@[i]@,
                )
            &&& ({
                let q: int = if n > 0 { p + 2 + 4 * n } else { p };
                FIXED_PART_SIZE + q + 7 <= DHCP_PACKET_SIZE ==> {
                    &&& opts.len() == q + 7
                    &&& opts.subrange(q, q + 7) == seq![OPTION_LEASE_TIME, 4u8] + be_octets(
                        cfg.lease_time,
                    ) + seq![OPTION_END]
                }
            })
        }),
{
    let h = reply_header(req.packet.xid@, req.mac@, reply_address(cfg, s, cap, req.mac, t));
    let cs = option_chunks(cfg, t);
    let r = reply_bytes(cfg, s, cap, req, t);
    let opts = r.skip(240);
    let dns = cfg.dns_servers@;
    let n = dns.len();
    assert(h.len() == 240);
    lemma_option_head(cfg, t);
    let pa: int = 5 + router_chunks(cfg.router).len() as int;
    let p: int = if cfg.router is Some { 21 } else { 15 };
    let hb = joined(cs.take(pa));
    lemma_written_prefix(h, cs, pa);
    assert forall|i: int| 0 <= i < p implies #[trigger] opts[i] == hb[i] by {
        assert(r.subrange(240, 240 + p)[i] == r[240 + i]);
    }
    assert(opts.take(15) =~= head_bytes(cfg, t));
    if let Some(x) = cfg.router {
        assert(opts.subrange(15, 21) =~= seq![OPTION_ROUTER, 4u8] + be_octets(x@));
    }
    if n > 0 {
        lemma_option_dns(cfg, t);
        let lb = crate::wire::dns_length_byte(n);
        lemma_written_prefix(h, cs, pa + 1);
        assert(opts[p] == r.subrange(240, 240 + p + 2)[p]);
        assert(opts[p + 1] == r.subrange(240, 240 + p + 2)[p + 1]);
        assert(opts[p + 1] == lb);
        assert forall|i: int|
            0 <= i < n && FIXED_PART_SIZE + p + 6 + 4 * i <= DHCP_PACKET_SIZE implies opts.subrange(
            p + 2 + 4 * i,
            p + 6 + 4 * i,
        ) == #[trigger] be_octets(dns[i]@) by {
            lemma_joined_quads(cs, pa + 1, i);
            lemma_joined_step(cs, pa + 1 + i);
            let ji = joined(cs.take(pa + 1 + i + 1));
            assert(ji.len() == p + 6 + 4 * i);
            lemma_written_prefix(h, cs, pa + 1 + i + 1);
            assert forall|m: int| 0 <= m < 4 implies #[trigger] opts.subrange(
                p + 2 + 4 * i,
                p + 6 + 4 * i,
            )[m] == be_octets(dns[i]@)[m] by {
                assert(r.subrange(240, 240 + p + 6 + 4 * i)[p + 2 + 4 * i + m] == r[240 + p + 2 + 4
                    * i + m]);
                assert(ji[p + 2 + 4 * i + m] == be_octets(dns[i]@)[m]);
            }
            assert(opts.subrange(p + 2 + 4 * i, p + 6 + 4 * i) =~= be_octets(dns[i]@));
        }
    }
    let q: int = if n > 0 { p + 2 + 4 * n } else { p };
    if FIXED_PART_SIZE + q + 7 <= DHCP_PACKET_SIZE {
        lemma_option_tail(cfg, t);
        lemma_joined_fits(h, cs);
        assert(opts =~= joined(cs));
        assert(opts.subrange(q, q + 7) =~= seq![OPTION_LEASE_TIME, 4u8] + be_octets(cfg.lease_time)
            + seq![OPTION_END]);
    }
}

} // verus!
