//! What the configuration, the message dispatch and the pool count promise,
//! stated over all inputs.

use vstd::prelude::*;
use crate::addr::Ipv4Addr;
use crate::config::DhcpConfig;
use crate::lease::{LeaseEntry, first_free, lemma_first_free};
use crate::server::{DhcpRequest, TransactionEvent, free_ip, handle_outcome, pool_full};
use crate::wire::{DHCP_DISCOVER, DHCP_RELEASE, DHCP_REQUEST};

verus! {

/// Adding a DNS server to a list with room appends it at the end: the
/// servers already there keep their places (the first one stays the
/// primary) and the new one comes last. A full list is left as it is.
pub proof fn law_dns_server_is_appended<const MAX_DNS: usize>(list: Seq<Ipv4Addr>, dns: Ipv4Addr)
    ensures
        list.len() < MAX_DNS ==> {
            let r = DhcpConfig::<MAX_DNS>::dns_after_add(list, dns);
            &&& r.len() == list.len() + 1
            &&& r[list.len() as int] == dns
            &&& forall|i: int| 0 <= i < list.len() ==> #[trigger] r[i] == list[i]
        },
        list.len() >= MAX_DNS ==> DhcpConfig::<MAX_DNS>::dns_after_add(list, dns) == list,
{
}

/// A request whose message type is neither a discover, a request nor a
/// release gets no reply, completes no event and changes no lease,
/// whatever the admission policy says.
pub proof fn law_other_messages_change_nothing<const M: usize>(
    cfg: DhcpConfig<M>,
    s: Seq<LeaseEntry>,
    cap: nat,
    req: DhcpRequest,
    admitted: bool,
    now: u64,
)
    requires
        req.msg_type != DHCP_DISCOVER,
        req.msg_type != DHCP_REQUEST,
        req.msg_type != DHCP_RELEASE,
    ensures
        handle_outcome(cfg, s, cap, req, admitted, now) == (
            s,
            None::<Seq<u8>>,
            None::<TransactionEvent>,
        ),
{
}

/// When every lease holds a different address of the pool, the pool counts
/// as full only if no address of it is free or the table itself is full.
pub proof fn law_full_pool_has_no_free_address<const M: usize>(
    cfg: DhcpConfig<M>,
    s: Seq<LeaseEntry>,
    cap: nat,
)
    requires
        cfg.ip_pool_start@ <= cfg.ip_pool_end@,
        forall|i: int| 0 <= i < s.len() ==> cfg.ip_pool_start@ <= #[trigger] s[i].ip@ <= cfg.ip_pool_end@,
        forall|i: int, j: int|
            0 <= i < s.len() && 0 <= j < s.len() && i != j ==> #[trigger] s[i].ip@ != #[trigger] s[j].ip@,
        pool_full(cfg, s.len(), cap),
    ensures
        free_ip(cfg, s) is None || s.len() >= cap,
{
    let lo = cfg.ip_pool_start@ as int;
    let hi = cfg.ip_pool_end@ as int;
    lemma_first_free(lo, hi, s);
    if free_ip(cfg, s) is Some && s.len() < cap {
        let f = free_ip(cfg, s)->Some_0 as int;
        let ips = s.map_values(|e: LeaseEntry| e.ip@ as int);
        assert(ips.no_duplicates()) by {
            assert forall|i: int, j: int| 0 <= i < ips.len() && 0 <= j < ips.len() && i != j implies ips[i]
                != ips[j] by {
                assert(s[i].ip@ != s[j].ip@);
            }
        }
        ips.unique_seq_to_set();
        let held = ips.to_set();
        let pool = vstd::set_lib::set_int_range(lo, hi + 1);
        vstd::set_lib::lemma_int_range(lo, hi + 1);
        assert(pool.contains(f));
        let rest = pool.remove(f);
        vstd::set::axiom_set_remove_len(pool, f);
        vstd::set::axiom_set_remove_finite(pool, f);
        assert forall|y: int| held.contains(y) implies rest.contains(y) by {
            assert(ips.contains(y));
            let i = choose|i: int| 0 <= i < ips.len() && ips[i] == y;
            assert(s[i].ip@ == y);
            assert(crate::lease::ip_in_use(s, y));
        }
        vstd::set_lib::lemma_len_subset(held, rest);
        assert(s.len() <= hi - lo);
    }
}

} // verus!
