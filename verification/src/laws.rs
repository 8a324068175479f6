//! What holds of the server across requests: reservations, leases kept and
//! dropped, and the shape of every reply.

use vstd::prelude::*;
use crate::addr::{Ipv4Addr, be_octets};
use crate::config::DhcpConfig;
use crate::lease::{
    LeaseEntry, first_free, has_mac, ip_in_use, is_live, lease_of, mac_index, table_valid,
    unexpired, lemma_first_free, lemma_inserted_valid, lemma_removed_valid,
    lemma_filter_keeps_distinct, lemma_mac_index_unique, law_lookup_after_insert,
    law_lookup_after_remove, distinct_addresses, lemma_inserted_distinct_addresses,
    lemma_removed_distinct_addresses, lemma_purge_distinct_addresses, held_in_pool, inserted,
    removed, law_no_free_address_means_full,
};
use crate::server::{
    DhcpRequest, TransactionEvent, can_record, free_ip, handle_outcome, is_request_datagram,
    reply_address, reply_bytes, reply_header, leases_after_reply, pool_full, OFFER_RESERVATION_MS,
    Step, apply_step, run_steps,
};
use crate::wire::{
    append_chunks, magic_cookie, message_type_from, message_type_of, option_chunks, DHCP_ACK,
    DHCP_DISCOVER, DHCP_OFFER, DHCP_RELEASE, DHCP_REQUEST, OPTION_MESSAGE_TYPE,
};

verus! {

pub(crate) proof fn lemma_append_chunks_prefix(buf: Seq<u8>, cs: Seq<Seq<u8>>, k: int)
    requires
        0 <= k <= cs.len(),
    ensures
        append_chunks(buf, cs).len() >= append_chunks(buf, cs.take(k)).len(),
        append_chunks(buf, cs).take(append_chunks(buf, cs.take(k)).len() as int) == append_chunks(
            buf,
            cs.take(k),
        ),
    decreases cs.len(),
{
    if k < cs.len() {
        lemma_append_chunks_prefix(buf, cs.drop_last(), k);
        assert(cs.drop_last().take(k) =~= cs.take(k));
        let inner = append_chunks(buf, cs.drop_last());
        let p = append_chunks(buf, cs.take(k));
        assert(append_chunks(buf, cs).take(p.len() as int) =~= inner.take(p.len() as int));
    } else {
        assert(cs.take(k) =~= cs);
    }
}

/// Every reply carries the magic cookie, the request's transaction id and
/// the client's hardware address; its options open with the reply's
/// message type, so that the reply reads back as a DHCP message of that
/// type.
pub proof fn law_reply_is_well_formed<const M: usize>(
    cfg: DhcpConfig<M>,
    s: Seq<LeaseEntry>,
    cap: nat,
    req: DhcpRequest,
    msg_type: u8,
)
    ensures
        ({
            let r = reply_bytes(cfg, s, cap, req, msg_type);
            &&& r.take(240) == reply_header(
                req.packet.xid@,
                req.mac@,
                reply_address(cfg, s, cap, req.mac, msg_type),
            )
            &&& r.subrange(236, 240) == magic_cookie()
            &&& r.subrange(4, 8) == req.packet.xid@
            &&& r.subrange(28, 34) == req.mac@
            &&& r.subrange(16, 20) == be_octets(reply_address(cfg, s, cap, req.mac, msg_type))
            &&& message_type_of(r.skip(240)) == Some(msg_type)
            &&& is_request_datagram(r)
        }),
{
    let h = reply_header(req.packet.xid@, req.mac@, reply_address(cfg, s, cap, req.mac, msg_type));
    let cs = option_chunks(cfg, msg_type);
    let r = reply_bytes(cfg, s, cap, req, msg_type);
    assert(h.len() == 240);
    lemma_append_chunks_prefix(h, cs, 1);
    assert(cs.take(1).drop_last() =~= Seq::<Seq<u8>>::empty());
    let first = seq![OPTION_MESSAGE_TYPE, 1u8, msg_type];
    assert(cs[0] == first);
    assert(cs.take(1).last() == first);
    assert(append_chunks(h, cs.take(1).drop_last()) == h);
    assert(append_chunks(h, cs.take(1)) == h + first);
    assert(r.len() >= 243);
    assert(r.take(243) == h + first);
    assert forall|i: int| 0 <= i < 240 implies #[trigger] r[i] == h[i] by {
        assert(r.take(243)[i] == r[i]);
        assert((h + first)[i] == h[i]);
    }
    assert(r.take(240) =~= h);
    assert(r.subrange(236, 240) =~= h.subrange(236, 240));
    assert(h.subrange(236, 240) =~= magic_cookie());
    assert(r.subrange(4, 8) =~= h.subrange(4, 8));
    assert(r.subrange(28, 34) =~= h.subrange(28, 34));
    assert(r.subrange(16, 20) =~= h.subrange(16, 20));
    let opts = r.skip(240);
    assert(opts[0] == r.take(243)[240]);
    assert(opts[2] == r.take(243)[242]);
    assert(message_type_from(opts, 0) == Some(msg_type));
}

/// An admitted discover, with a free address in the pool and room for the
/// client's lease, offers the lowest free address of the pool, which no
/// lease held, and reserves it for that client for a minute.
pub proof fn law_offer_reserves_address<const M: usize>(
    cfg: DhcpConfig<M>,
    s: Seq<LeaseEntry>,
    cap: nat,
    req: DhcpRequest,
    now: u64,
)
    requires
        table_valid(s, cap),
        req.msg_type == DHCP_DISCOVER,
        free_ip(cfg, s) is Some,
        has_mac(s, req.mac) || s.len() < cap,
    ensures
        ({
            let out = handle_outcome(cfg, s, cap, req, true, now);
            let ip = free_ip(cfg, s)->Some_0;
            &&& cfg.ip_pool_start@ <= ip <= cfg.ip_pool_end@
            &&& !ip_in_use(s, ip as int)
            &&& reply_address(cfg, s, cap, req.mac, DHCP_OFFER) == ip
            &&& lease_of(out.0, req.mac) == Some(
                LeaseEntry {
                    ip: Ipv4Addr(ip),
                    mac: req.mac,
                    expires_at: (now + OFFER_RESERVATION_MS) as u64,
                },
            )
            &&& out.1 == Some(reply_bytes(cfg, s, cap, req, DHCP_OFFER))
            &&& out.2 is None
        }),
{
    lemma_first_free(cfg.ip_pool_start@ as int, cfg.ip_pool_end@ as int, s);
    let ip = free_ip(cfg, s)->Some_0;
    let e = LeaseEntry {
        ip: Ipv4Addr(ip),
        mac: req.mac,
        expires_at: (now + OFFER_RESERVATION_MS) as u64,
    };
    law_lookup_after_insert(s, cap, e, req.mac);
}

/// An admitted request from a client that holds a lease is acknowledged
/// with the address it holds; the client keeps that address for the
/// configured lease time from now, and the lease event reports it.
pub proof fn law_request_keeps_lease<const M: usize>(
    cfg: DhcpConfig<M>,
    s: Seq<LeaseEntry>,
    cap: nat,
    req: DhcpRequest,
    now: u64,
    held: LeaseEntry,
)
    requires
        table_valid(s, cap),
        req.msg_type == DHCP_REQUEST,
        lease_of(s, req.mac) == Some(held),
    ensures
        ({
            let out = handle_outcome(cfg, s, cap, req, true, now);
            &&& reply_address(cfg, s, cap, req.mac, DHCP_ACK) == held.ip@
            &&& lease_of(out.0, req.mac) == Some(
                LeaseEntry {
                    ip: held.ip,
                    mac: req.mac,
                    expires_at: (now + cfg.lease_time * 1000) as u64,
                },
            )
            &&& out.1 == Some(reply_bytes(cfg, s, cap, req, DHCP_ACK))
            &&& out.2 == Some(TransactionEvent::Leased(held.ip, req.mac))
        }),
{
    let e = LeaseEntry {
        ip: Ipv4Addr(reply_address(cfg, s, cap, req.mac, DHCP_ACK)),
        mac: req.mac,
        expires_at: (now + cfg.lease_time * 1000) as u64,
    };
    assert(e.ip == held.ip);
    law_lookup_after_insert(s, cap, e, req.mac);
}

/// A lease that still runs at `now` is what a lookup of its client finds
/// after a purge at `now`.
proof fn lemma_live_lease_survives_purge(s: Seq<LeaseEntry>, cap: nat, mac: [u8; 6], now: u64)
    requires
        table_valid(s, cap),
        lease_of(s, mac) matches Some(e) && is_live(e, now),
    ensures
        lease_of(unexpired(s, now), mac) == lease_of(s, mac),
{
    let t = unexpired(s, now);
    let pred = |e: LeaseEntry| is_live(e, now);
    let k = mac_index(s, mac);
    assert(s[k].mac@ == mac@);
    s.lemma_filter_contains(pred, k);
    assert(t.contains(s[k]));
    let j = choose|j: int| 0 <= j < t.len() && t[j] == s[k];
    lemma_filter_keeps_distinct(s, now);
    lemma_mac_index_unique(t, mac, j);
}

/// A client that is offered an address and asks for it before the
/// reservation runs out (with expired leases purged in between) is
/// acknowledged with the address it was offered, and the lease event
/// reports that address.
pub proof fn law_offer_then_request<const M: usize>(
    cfg: DhcpConfig<M>,
    s: Seq<LeaseEntry>,
    cap: nat,
    discover: DhcpRequest,
    request: DhcpRequest,
    offered_at: u64,
    purged_at: u64,
    requested_at: u64,
)
    requires
        table_valid(s, cap),
        discover.msg_type == DHCP_DISCOVER,
        request.msg_type == DHCP_REQUEST,
        request.mac == discover.mac,
        free_ip(cfg, s) is Some,
        has_mac(s, discover.mac) || s.len() < cap,
        offered_at + OFFER_RESERVATION_MS <= u64::MAX,
        purged_at < offered_at + OFFER_RESERVATION_MS,
    ensures
        ({
            let offered = reply_address(cfg, s, cap, discover.mac, DHCP_OFFER);
            let after_offer = handle_outcome(cfg, s, cap, discover, true, offered_at).0;
            let after_purge = unexpired(after_offer, purged_at);
            let out = handle_outcome(cfg, after_purge, cap, request, true, requested_at);
            &&& reply_address(cfg, after_purge, cap, request.mac, DHCP_ACK) == offered
            &&& out.2 == Some(TransactionEvent::Leased(Ipv4Addr(offered), request.mac))
        }),
{
    law_offer_reserves_address(cfg, s, cap, discover, offered_at);
    let offered = reply_address(cfg, s, cap, discover.mac, DHCP_OFFER);
    let after_offer = handle_outcome(cfg, s, cap, discover, true, offered_at).0;
    lemma_inserted_valid(
        s,
        cap,
        LeaseEntry {
            ip: Ipv4Addr(offered),
            mac: discover.mac,
            expires_at: (offered_at + OFFER_RESERVATION_MS) as u64,
        },
    );
    lemma_live_lease_survives_purge(after_offer, cap, request.mac, purged_at);
    let after_purge = unexpired(after_offer, purged_at);
    lemma_filter_keeps_distinct(after_offer, purged_at);
    let held = lease_of(after_purge, request.mac)->Some_0;
    law_request_keeps_lease(cfg, after_purge, cap, request, requested_at, held);
}

/// Two clients whose discovers are answered one after the other are never
/// offered the same address, unless that address is 0.0.0.0 (no address).
pub proof fn law_offers_are_distinct<const M: usize>(
    cfg: DhcpConfig<M>,
    s: Seq<LeaseEntry>,
    cap: nat,
    first: DhcpRequest,
    second: DhcpRequest,
    t1: u64,
)
    requires
        table_valid(s, cap),
        first.msg_type == DHCP_DISCOVER,
        first.mac@ != second.mac@,
    ensures
        ({
            let a1 = reply_address(cfg, s, cap, first.mac, DHCP_OFFER);
            let s1 = handle_outcome(cfg, s, cap, first, true, t1).0;
            let a2 = reply_address(cfg, s1, cap, second.mac, DHCP_OFFER);
            a2 == a1 ==> a1 == 0
        }),
{
    let a1 = reply_address(cfg, s, cap, first.mac, DHCP_OFFER);
    let s1 = handle_outcome(cfg, s, cap, first, true, t1).0;
    if can_record(s, cap, first.mac) && free_ip(cfg, s) is Some {
        law_offer_reserves_address(cfg, s, cap, first, t1);
        let k = mac_index(s1, first.mac);
        assert(s1[k].ip@ == a1);
        assert(ip_in_use(s1, a1 as int));
        lemma_first_free(cfg.ip_pool_start@ as int, cfg.ip_pool_end@ as int, s1);
    }
}

/// Every address an offer carries, other than 0.0.0.0, is reserved for
/// the client it was offered to. When the client's lease cannot be
/// recorded (a full table and no lease for it), the offer carries 0.0.0.0
/// and no lease changes.
pub proof fn law_offered_address_is_reserved<const M: usize>(
    cfg: DhcpConfig<M>,
    s: Seq<LeaseEntry>,
    cap: nat,
    req: DhcpRequest,
    now: u64,
)
    requires
        table_valid(s, cap),
        req.msg_type == DHCP_DISCOVER,
    ensures
        ({
            let out = handle_outcome(cfg, s, cap, req, true, now);
            let a = reply_address(cfg, s, cap, req.mac, DHCP_OFFER);
            &&& a != 0 ==> (lease_of(out.0, req.mac) matches Some(e) && e.ip@ == a)
            &&& !can_record(s, cap, req.mac) ==> a == 0 && out.0 == s
        }),
{
    if can_record(s, cap, req.mac) && free_ip(cfg, s) is Some {
        law_offer_reserves_address(cfg, s, cap, req, now);
    }
}

/// A release drops the client's lease whatever the admission policy says,
/// sends nothing, reports the lease it dropped, and leaves the other
/// clients' leases as they were.
pub proof fn law_release_forgets<const M: usize>(
    cfg: DhcpConfig<M>,
    s: Seq<LeaseEntry>,
    cap: nat,
    req: DhcpRequest,
    admitted: bool,
    now: u64,
    other: [u8; 6],
)
    requires
        table_valid(s, cap),
        req.msg_type == DHCP_RELEASE,
    ensures
        ({
            let out = handle_outcome(cfg, s, cap, req, admitted, now);
            &&& out == handle_outcome(cfg, s, cap, req, !admitted, now)
            &&& lease_of(out.0, req.mac) is None
            &&& other@ != req.mac@ ==> lease_of(out.0, other) == lease_of(s, other)
            &&& out.1 is None
            &&& out.2 == match lease_of(s, req.mac) {
                Some(e) => Some(TransactionEvent::Released(e.ip, e.mac)),
                None => None,
            }
        }),
{
    law_lookup_after_remove(s, cap, req.mac, other);
}

/// A discover or request that the admission policy refuses gets no reply
/// and changes no lease.
pub proof fn law_refused_changes_nothing<const M: usize>(
    cfg: DhcpConfig<M>,
    s: Seq<LeaseEntry>,
    cap: nat,
    req: DhcpRequest,
    now: u64,
)
    requires
        req.msg_type == DHCP_DISCOVER || req.msg_type == DHCP_REQUEST,
    ensures
        handle_outcome(cfg, s, cap, req, false, now) == (s, None::<Seq<u8>>, None::<TransactionEvent>),
{
}

/// Handling any request keeps the lease table valid: at most `cap` leases,
/// one per client.
pub proof fn law_handling_keeps_table_valid<const M: usize>(
    cfg: DhcpConfig<M>,
    s: Seq<LeaseEntry>,
    cap: nat,
    req: DhcpRequest,
    admitted: bool,
    now: u64,
)
    requires
        table_valid(s, cap),
    ensures
        table_valid(handle_outcome(cfg, s, cap, req, admitted, now).0, cap),
{
    lemma_removed_valid(s, cap, req.mac);
    if let Some(ip) = free_ip(cfg, s) {
        lemma_inserted_valid(
            s,
            cap,
            LeaseEntry {
                ip: Ipv4Addr(ip),
                mac: req.mac,
                expires_at: (now + OFFER_RESERVATION_MS) as u64,
            },
        );
    }
    lemma_inserted_valid(
        s,
        cap,
        LeaseEntry {
            ip: Ipv4Addr(reply_address(cfg, s, cap, req.mac, DHCP_ACK)),
            mac: req.mac,
            expires_at: (now + cfg.lease_time * 1000) as u64,
        },
    );
}

/// No address other than 0.0.0.0 is ever leased to two clients: handling
/// a request, and the purge before it, keep the leased addresses distinct.
/// (An acknowledgment hands out 0.0.0.0 when the pool is exhausted, to as
/// many clients as ask.)
pub proof fn law_addresses_stay_distinct<const M: usize>(
    cfg: DhcpConfig<M>,
    s: Seq<LeaseEntry>,
    cap: nat,
    req: DhcpRequest,
    admitted: bool,
    now: u64,
)
    requires
        table_valid(s, cap),
        distinct_addresses(s),
    ensures
        distinct_addresses(unexpired(s, now)),
        distinct_addresses(handle_outcome(cfg, s, cap, req, admitted, now).0),
{
    lemma_purge_distinct_addresses(s, now);
    lemma_removed_distinct_addresses(s, req.mac);
    lemma_first_free(cfg.ip_pool_start@ as int, cfg.ip_pool_end@ as int, s);
    if let Some(ip) = free_ip(cfg, s) {
        lemma_inserted_distinct_addresses(
            s,
            cap,
            LeaseEntry {
                ip: Ipv4Addr(ip),
                mac: req.mac,
                expires_at: (now + OFFER_RESERVATION_MS) as u64,
            },
        );
    }
    let e = LeaseEntry {
        ip: Ipv4Addr(reply_address(cfg, s, cap, req.mac, DHCP_ACK)),
        mac: req.mac,
        expires_at: (now + cfg.lease_time * 1000) as u64,
    };
    if let Some(l) = lease_of(s, req.mac) {
        assert(l.ip == e.ip);
    }
    lemma_inserted_distinct_addresses(s, cap, e);
}

/// A pool in which no address is free counts as full.
pub proof fn law_exhausted_pool_is_full<const M: usize>(cfg: DhcpConfig<M>, s: Seq<LeaseEntry>, cap: nat)
    requires
        cfg.ip_pool_start@ <= cfg.ip_pool_end@,
        free_ip(cfg, s) is None,
    ensures
        pool_full(cfg, s.len(), cap),
{
    law_no_free_address_means_full(s, cfg.ip_pool_start@ as int, cfg.ip_pool_end@ as int);
}

/// What holds of the server's leases at all times: at most `cap` leases,
/// one per client; no address but 0.0.0.0 leased twice; every leased
/// address 0.0.0.0 or in the pool.
pub open spec fn server_invariant<const M: usize>(cfg: DhcpConfig<M>, s: Seq<LeaseEntry>, cap: nat) -> bool {
    &&& table_valid(s, cap)
    &&& distinct_addresses(s)
    &&& held_in_pool(s, cfg.ip_pool_start@ as int, cfg.ip_pool_end@ as int)
}

proof fn lemma_inserted_held_in_pool(s: Seq<LeaseEntry>, cap: nat, e: LeaseEntry, lo: int, hi: int)
    requires
        held_in_pool(s, lo, hi),
        e.ip@ == 0 || lo <= e.ip@ <= hi,
    ensures
        held_in_pool(inserted(s, cap, e), lo, hi),
{
    let t = inserted(s, cap, e);
    assert forall|i: int| 0 <= i < t.len() implies #[trigger] t[i].ip@ == 0 || lo <= t[i].ip@ <= hi by {
        if i < s.len() && t[i] != e {
            assert(t[i] == s[i]);
        }
    }
}

proof fn lemma_reply_keeps_pool<const M: usize>(
    cfg: DhcpConfig<M>,
    s: Seq<LeaseEntry>,
    cap: nat,
    mac: [u8; 6],
    now: u64,
)
    requires
        held_in_pool(s, cfg.ip_pool_start@ as int, cfg.ip_pool_end@ as int),
    ensures
        forall|t: u8| #[trigger]
            held_in_pool(
                leases_after_reply(cfg, s, cap, mac, t, now),
                cfg.ip_pool_start@ as int,
                cfg.ip_pool_end@ as int,
            ),
{
    let lo = cfg.ip_pool_start@ as int;
    let hi = cfg.ip_pool_end@ as int;
    lemma_first_free(lo, hi, s);
    if let Some(ip) = free_ip(cfg, s) {
        lemma_inserted_held_in_pool(
            s,
            cap,
            LeaseEntry { ip: Ipv4Addr(ip), mac, expires_at: (now + OFFER_RESERVATION_MS) as u64 },
            lo,
            hi,
        );
    }
    if let Some(l) = lease_of(s, mac) {
        let k = mac_index(s, mac);
        assert(s[k].ip@ == 0 || lo <= s[k].ip@ <= hi);
    }
    lemma_inserted_held_in_pool(
        s,
        cap,
        LeaseEntry {
            ip: Ipv4Addr(reply_address(cfg, s, cap, mac, DHCP_ACK)),
            mac,
            expires_at: (now + cfg.lease_time * 1000) as u64,
        },
        lo,
        hi,
    );
}

proof fn lemma_step_keeps_invariant<const M: usize>(cfg: DhcpConfig<M>, s: Seq<LeaseEntry>, cap: nat, step: Step)
    requires
        server_invariant(cfg, s, cap),
        !(step is Insert),
    ensures
        server_invariant(cfg, apply_step(cfg, s, cap, step), cap),
{
    let lo = cfg.ip_pool_start@ as int;
    let hi = cfg.ip_pool_end@ as int;
    match step {
        Step::Purge(now) => {
            crate::lease::law_purge_keeps_live(s, cap, now);
            lemma_purge_distinct_addresses(s, now);
            let t = unexpired(s, now);
            let pred = |e: LeaseEntry| crate::lease::is_live(e, now);
            assert forall|i: int| 0 <= i < t.len() implies #[trigger] t[i].ip@ == 0 || lo <= t[i].ip@ <= hi by {
                assert(t.contains(t[i]));
                s.lemma_filter_contains_rev(pred, t[i]);
                let k = choose|k: int| 0 <= k < s.len() && s[k] == t[i];
                assert(s[k].ip@ == 0 || lo <= s[k].ip@ <= hi);
            }
        },
        Step::Handle(req, admitted, now) => {
            law_handling_keeps_table_valid(cfg, s, cap, req, admitted, now);
            law_addresses_stay_distinct(cfg, s, cap, req, admitted, now);
            lemma_reply_keeps_pool(cfg, s, cap, req.mac, now);
            let r = removed(s, req.mac);
            assert forall|i: int| 0 <= i < r.len() implies #[trigger] r[i].ip@ == 0 || lo <= r[i].ip@ <= hi by {
                if has_mac(s, req.mac) {
                    let k = mac_index(s, req.mac);
                    if i < k {
                        assert(r[i] == s[i]);
                    } else {
                        assert(r[i] == s[i + 1]);
                    }
                }
            }
        },
        Step::Respond(req, msg_type, now) => {
            lemma_reply_keeps_pool(cfg, s, cap, req.mac, now);
            if msg_type == DHCP_OFFER {
                let d = DhcpRequest { msg_type: DHCP_DISCOVER, ..req };
                law_handling_keeps_table_valid(cfg, s, cap, d, true, now);
                law_addresses_stay_distinct(cfg, s, cap, d, true, now);
            } else if msg_type == DHCP_ACK {
                let d = DhcpRequest { msg_type: DHCP_REQUEST, ..req };
                law_handling_keeps_table_valid(cfg, s, cap, d, true, now);
                law_addresses_stay_distinct(cfg, s, cap, d, true, now);
            }
        },
        Step::Insert(e) => {},
    }
}

/// No sequence of steps changes the configuration: every call that
/// changes the server is such a step (see `Step`), so no sequence of calls
/// changes it either.
pub proof fn law_steps_keep_config<const M: usize>(
    cfg: DhcpConfig<M>,
    s: Seq<LeaseEntry>,
    cap: nat,
    steps: Seq<Step>,
)
    ensures
        run_steps(cfg, s, cap, steps).0 == cfg,
    decreases steps.len(),
{
    if steps.len() > 0 {
        law_steps_keep_config(cfg, s, cap, steps.drop_last());
    }
}

/// Running `a` and then `b` is running `a + b`: the runs of successive
/// calls chain into the run of all of them.
pub proof fn law_runs_compose<const M: usize>(
    cfg: DhcpConfig<M>,
    s: Seq<LeaseEntry>,
    cap: nat,
    a: Seq<Step>,
    b: Seq<Step>,
)
    ensures
        ({
            let (c1, t1) = run_steps(cfg, s, cap, a);
            run_steps(c1, t1, cap, b) == run_steps(cfg, s, cap, a + b)
        }),
    decreases b.len(),
{
    if b.len() == 0 {
        assert(a + b =~= a);
    } else {
        law_runs_compose(cfg, s, cap, a, b.drop_last());
        assert((a + b).drop_last() =~= a + b.drop_last());
        assert((a + b).last() == b.last());
    }
}

/// Every sequence of purges, handled requests and replies keeps the server
/// invariant: at most `cap` leases, one per client; no address but 0.0.0.0
/// leased twice; every leased address 0.0.0.0 or in the pool. (A lease
/// inserted by hand may hold any address, so such steps are left out.)
pub proof fn law_steps_keep_invariant<const M: usize>(
    cfg: DhcpConfig<M>,
    s: Seq<LeaseEntry>,
    cap: nat,
    steps: Seq<Step>,
)
    requires
        server_invariant(cfg, s, cap),
        forall|i: int| 0 <= i < steps.len() ==> !(#[trigger] steps[i] is Insert),
    ensures
        server_invariant(cfg, run_steps(cfg, s, cap, steps).1, cap),
    decreases steps.len(),
{
    if steps.len() > 0 {
        law_steps_keep_invariant(cfg, s, cap, steps.drop_last());
        law_steps_keep_config(cfg, s, cap, steps.drop_last());
        let t = run_steps(cfg, s, cap, steps.drop_last()).1;
        assert(!(steps[steps.len() - 1] is Insert));
        lemma_step_keeps_invariant(cfg, t, cap, steps.last());
    }
}

} // verus!
