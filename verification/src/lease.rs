//! The lease table: at most `N` leases, one per client hardware address.

use vstd::prelude::*;
use crate::addr::Ipv4Addr;

verus! {

/// A lease: an address held by a client until a moment given in
/// milliseconds since boot.
#[derive(Clone, Copy, Debug)]
pub struct LeaseEntry {
    /// The leased address
    pub ip: Ipv4Addr,
    /// The client's hardware address
    pub mac: [u8; 6],
    /// When the lease ends, in milliseconds since boot
    pub expires_at: u64,
}

/// No two leases belong to the same hardware address.
pub open spec fn distinct_macs(s: Seq<LeaseEntry>) -> bool {
    forall|i: int, j: int|
        0 <= i < s.len() && 0 <= j < s.len() && i != j ==> #[trigger] s[i].mac@ != #[trigger] s[j].mac@
}

/// A lease table of capacity `cap`: at most `cap` leases, one per client.
pub open spec fn table_valid(s: Seq<LeaseEntry>, cap: nat) -> bool {
    s.len() <= cap && distinct_macs(s)
}

/// Some lease belongs to `mac`.
pub open spec fn has_mac(s: Seq<LeaseEntry>, mac: [u8; 6]) -> bool {
    exists|i: int| 0 <= i < s.len() && #[trigger] s[i].mac@ == mac@
}

/// The position of the lease of `mac`.
pub open spec fn mac_index(s: Seq<LeaseEntry>, mac: [u8; 6]) -> int {
    choose|i: int| 0 <= i < s.len() && #[trigger] s[i].mac@ == mac@
}

/// The lease of `mac`, if any.
pub open spec fn lease_of(s: Seq<LeaseEntry>, mac: [u8; 6]) -> Option<LeaseEntry> {
    if has_mac(s, mac) {
        Some(s[mac_index(s, mac)])
    } else {
        None
    }
}

/// The table after inserting `e`: it replaces the lease of the same client
/// in place, or is added at the end when there is room; a full table
/// without a lease for that client stays as it is.
pub open spec fn inserted(s: Seq<LeaseEntry>, cap: nat, e: LeaseEntry) -> Seq<LeaseEntry> {
    if has_mac(s, e.mac) {
        s.update(mac_index(s, e.mac), e)
    } else if s.len() < cap {
        s.push(e)
    } else {
        s
    }
}

/// The table after removing the lease of `mac`.
pub open spec fn removed(s: Seq<LeaseEntry>, mac: [u8; 6]) -> Seq<LeaseEntry> {
    if has_mac(s, mac) {
        s.remove(mac_index(s, mac))
    } else {
        s
    }
}

/// The lease is still running at `now`.
pub open spec fn is_live(e: LeaseEntry, now: u64) -> bool {
    e.expires_at > now
}

/// The leases still running at `now`, in their order.
pub open spec fn unexpired(s: Seq<LeaseEntry>, now: u64) -> Seq<LeaseEntry> {
    s.filter(|e: LeaseEntry| is_live(e, now))
}

/// Some lease holds the address whose value is `ip`.
pub open spec fn ip_in_use(s: Seq<LeaseEntry>, ip: int) -> bool {
    exists|i: int| 0 <= i < s.len() && #[trigger] s[i].ip@ == ip
}

/// The lowest address from `x` to `end` that no lease holds.
pub open spec fn first_free(x: int, end: int, s: Seq<LeaseEntry>) -> Option<u32>
    decreases end - x + 1,
{
    if x > end {
        None
    } else if !ip_in_use(s, x) {
        Some(x as u32)
    } else {
        first_free(x + 1, end, s)
    }
}

pub proof fn lemma_mac_index_unique(s: Seq<LeaseEntry>, mac: [u8; 6], i: int)
    requires
        distinct_macs(s),
        0 <= i < s.len(),
        s[i].mac@ == mac@,
    ensures
        has_mac(s, mac),
        mac_index(s, mac) == i,
{
    assert(has_mac(s, mac));
    let j = mac_index(s, mac);
    assert(s[j].mac@ == mac@);
}

/// Whether two hardware addresses are equal.
fn same_mac(a: &[u8; 6], b: &[u8; 6]) -> (r: bool)
    ensures
        r == (a@ == b@),
{
    let r = a[0] == b[0] && a[1] == b[1] && a[2] == b[2] && a[3] == b[3] && a[4] == b[4] && a[5]
        == b[5];
    if r {
        assert(a@ =~= b@);
    } else {
        assert(a@ != b@) by {
            if a@ == b@ {
                assert(a@[0] == b@[0] && a@[1] == b@[1] && a@[2] == b@[2]);
                assert(a@[3] == b@[3] && a@[4] == b@[4] && a@[5] == b@[5]);
            }
        }
    }
    r
}

pub proof fn lemma_filter_keeps_distinct(s: Seq<LeaseEntry>, now: u64)
    requires
        distinct_macs(s),
    ensures
        distinct_macs(unexpired(s, now)),
        unexpired(s, now).len() <= s.len(),
    decreases s.len(),
{
    reveal_with_fuel(Seq::<_>::filter, 1);
    let pred = |e: LeaseEntry| is_live(e, now);
    if s.len() > 0 {
        let rest = s.drop_last();
        assert(distinct_macs(rest));
        lemma_filter_keeps_distinct(rest, now);
        let sub = unexpired(rest, now);
        if pred(s.last()) {
            assert forall|i: int| 0 <= i < sub.len() implies #[trigger] sub[i].mac@ != s.last().mac@ by {
                assert(sub.contains(sub[i]));
                rest.lemma_filter_contains_rev(pred, sub[i]);
                assert(rest.contains(sub[i]));
                let k = choose|k: int| 0 <= k < rest.len() && rest[k] == sub[i];
                assert(s[k] == sub[i]);
                assert(s[s.len() - 1] == s.last());
            }
            assert(unexpired(s, now) == sub.push(s.last()));
        } else {
            assert(unexpired(s, now) == sub);
        }
    }
}

/// The lease table of a server with room for `N` clients.
pub struct LeaseTable<const N: usize> {
    entries: Vec<LeaseEntry>,
}

impl<const N: usize> View for LeaseTable<N> {
    type V = Seq<LeaseEntry>;

    closed spec fn view(&self) -> Seq<LeaseEntry> {
        self.entries@
    }
}

impl<const N: usize> LeaseTable<N> {
    #[verifier::type_invariant]
    spec fn valid(self) -> bool {
        table_valid(self.entries@, N as nat)
    }

    /// An empty table.
    pub fn new() -> (t: Self)
        ensures
            t@ == Seq::<LeaseEntry>::empty(),
            table_valid(t@, N as nat),
    {
        LeaseTable { entries: Vec::new() }
    }

    /// The table is a valid table of capacity `N`.
    pub(crate) fn check_valid(&self)
        ensures
            table_valid(self@, N as nat),
    {
        proof { use_type_invariant(self); }
    }

    /// The number of leases.
    pub fn len(&self) -> (n: usize)
        ensures
            n == self@.len(),
    {
        self.entries.len()
    }

    fn position(&self, mac: &[u8; 6]) -> (r: Option<usize>)
        ensures
            match r {
                Some(i) => i < self@.len() && self@[i as int].mac@ == mac@ && has_mac(self@, *mac)
                    && mac_index(self@, *mac) == i,
                None => !has_mac(self@, *mac),
            },
    {
        proof { use_type_invariant(self); }
        let mut i: usize = 0;
        while i < self.entries.len()
            invariant
                i <= self.entries@.len(),
                distinct_macs(self.entries@),
                forall|j: int| 0 <= j < i ==> #[trigger] self.entries@[j].mac@ != mac@,
            decreases self.entries@.len() - i,
        {
            if same_mac(&self.entries[i].mac, mac) {
                proof { lemma_mac_index_unique(self.entries@, *mac, i as int); }
                return Some(i);
            }
            i = i + 1;
        }
        None
    }

    /// The lease of `mac`, if any.
    pub fn get(&self, mac: &[u8; 6]) -> (r: Option<LeaseEntry>)
        ensures
            r == lease_of(self@, *mac),
    {
        match self.position(mac) {
            Some(i) => Some(self.entries[i]),
            None => None,
        }
    }

    /// Whether some lease holds `ip`.
    pub fn holds_ip(&self, ip: Ipv4Addr) -> (b: bool)
        ensures
            b == ip_in_use(self@, ip@ as int),
    {
        let mut i: usize = 0;
        while i < self.entries.len()
            invariant
                i <= self.entries@.len(),
                forall|j: int| 0 <= j < i ==> #[trigger] self.entries@[j].ip@ != ip@,
            decreases self.entries@.len() - i,
        {
            if self.entries[i].ip.0 == ip.0 {
                return true;
            }
            i = i + 1;
        }
        false
    }

    /// Inserts `e` for the client `e.mac`: replaces that client's lease and
    /// returns it, or adds `e` when there is room; with the table full and
    /// no lease for that client, hands `e` back.
    pub fn insert(&mut self, e: LeaseEntry) -> (r: Result<Option<LeaseEntry>, LeaseEntry>)
        ensures
            final(self)@ == inserted(old(self)@, N as nat, e),
            table_valid(final(self)@, N as nat),
            r == (if has_mac(old(self)@, e.mac) {
                Ok(lease_of(old(self)@, e.mac))
            } else if old(self)@.len() < N {
                Ok(None)
            } else {
                Err(e)
            }),
    {
        proof { use_type_invariant(&*self); }
        let pos = self.position(&e.mac);
        let mut entries: Vec<LeaseEntry> = Vec::new();
        std::mem::swap(&mut entries, &mut self.entries);
        let ghost before = entries@;
        let r = match pos {
            Some(i) => {
                let prev = entries[i];
                entries.set(i, e);
                proof {
                    assert forall|a: int, b: int|
                        0 <= a < entries@.len() && 0 <= b < entries@.len() && a != b implies
                        #[trigger] entries@[a].mac@ != #[trigger] entries@[b].mac@ by {
                        assert(before[i as int].mac@ == e.mac@);
                    }
                }
                Ok(Some(prev))
            },
            None => {
                if entries.len() < N {
                    entries.push(e);
                    proof {
                        assert forall|a: int, b: int|
                            0 <= a < entries@.len() && 0 <= b < entries@.len() && a != b implies
                            #[trigger] entries@[a].mac@ != #[trigger] entries@[b].mac@ by {
                            if a < before.len() && b < before.len() {
                                assert(entries@[a] == before[a] && entries@[b] == before[b]);
                            } else if a < before.len() {
                                assert(entries@[a] == before[a]);
                            } else {
                                assert(entries@[b] == before[b]);
                            }
                        }
                    }
                    Ok(None)
                } else {
                    Err(e)
                }
            },
        };
        self.entries = entries;
        r
    }

    /// Removes the lease of `mac` and returns it.
    pub fn remove(&mut self, mac: &[u8; 6]) -> (r: Option<LeaseEntry>)
        ensures
            final(self)@ == removed(old(self)@, *mac),
            table_valid(final(self)@, N as nat),
            r == lease_of(old(self)@, *mac),
    {
        proof { use_type_invariant(&*self); }
        let pos = self.position(mac);
        match pos {
            Some(i) => {
                let mut entries: Vec<LeaseEntry> = Vec::new();
                std::mem::swap(&mut entries, &mut self.entries);
                let ghost before = entries@;
                let prev = entries.remove(i);
                proof {
                    assert forall|a: int, b: int|
                        0 <= a < entries@.len() && 0 <= b < entries@.len() && a != b implies
                        #[trigger] entries@[a].mac@ != #[trigger] entries@[b].mac@ by {
                        let a0 = if a < i { a } else { a + 1 };
                        let b0 = if b < i { b } else { b + 1 };
                        assert(entries@[a] == before[a0] && entries@[b] == before[b0]);
                    }
                }
                self.entries = entries;
                Some(prev)
            },
            None => None,
        }
    }

    /// Drops every lease that has ended at `now`.
    pub fn retain_unexpired(&mut self, now: u64)
        ensures
            final(self)@ == unexpired(old(self)@, now),
            table_valid(final(self)@, N as nat),
    {
        proof { use_type_invariant(&*self); }
        let mut entries: Vec<LeaseEntry> = Vec::new();
        std::mem::swap(&mut entries, &mut self.entries);
        let ghost before = entries@;
        let mut kept: Vec<LeaseEntry> = Vec::new();
        let mut i: usize = 0;
        while i < entries.len()
            invariant
                i <= entries@.len(),
                entries@ == before,
                kept@ == unexpired(before.take(i as int), now),
            decreases entries@.len() - i,
        {
            proof {
                reveal_with_fuel(Seq::<_>::filter, 1);
                assert(before.take(i + 1).drop_last() =~= before.take(i as int));
            }
            if entries[i].expires_at > now {
                kept.push(entries[i]);
            }
            i = i + 1;
        }
        proof {
            assert(before.take(entries@.len() as int) =~= before);
            lemma_filter_keeps_distinct(before, now);
        }
        self.entries = kept;
    }
}

/// Inserting a lease keeps a table valid: at most `cap` leases, one per
/// client.
pub proof fn lemma_inserted_valid(s: Seq<LeaseEntry>, cap: nat, e: LeaseEntry)
    requires
        table_valid(s, cap),
    ensures
        table_valid(inserted(s, cap, e), cap),
{
    let t = inserted(s, cap, e);
    if has_mac(s, e.mac) {
        let k = mac_index(s, e.mac);
        assert forall|a: int, b: int| 0 <= a < t.len() && 0 <= b < t.len() && a != b implies
            #[trigger] t[a].mac@ != #[trigger] t[b].mac@ by {
            assert(s[k].mac@ == e.mac@);
        }
    } else if s.len() < cap {
        assert forall|a: int, b: int| 0 <= a < t.len() && 0 <= b < t.len() && a != b implies
            #[trigger] t[a].mac@ != #[trigger] t[b].mac@ by {
            if a < s.len() && b < s.len() {
                assert(t[a] == s[a] && t[b] == s[b]);
            } else if a < s.len() {
                assert(t[a] == s[a]);
            } else {
                assert(t[b] == s[b]);
            }
        }
    }
}

/// Removing a lease keeps a table valid.
pub proof fn lemma_removed_valid(s: Seq<LeaseEntry>, cap: nat, mac: [u8; 6])
    requires
        table_valid(s, cap),
    ensures
        table_valid(removed(s, mac), cap),
{
    if has_mac(s, mac) {
        let k = mac_index(s, mac);
        let t = removed(s, mac);
        assert forall|a: int, b: int| 0 <= a < t.len() && 0 <= b < t.len() && a != b implies
            #[trigger] t[a].mac@ != #[trigger] t[b].mac@ by {
            let a0 = if a < k { a } else { a + 1 };
            let b0 = if b < k { b } else { b + 1 };
            assert(t[a] == s[a0] && t[b] == s[b0]);
        }
    }
}

/// A lease inserted where there is room for it is what a lookup of its
/// client then finds, and the other clients' leases are as they were.
pub proof fn law_lookup_after_insert(s: Seq<LeaseEntry>, cap: nat, e: LeaseEntry, other: [u8; 6])
    requires
        table_valid(s, cap),
        has_mac(s, e.mac) || s.len() < cap,
    ensures
        lease_of(inserted(s, cap, e), e.mac) == Some(e),
        other@ != e.mac@ ==> lease_of(inserted(s, cap, e), other) == lease_of(s, other),
{
    lemma_inserted_valid(s, cap, e);
    let t = inserted(s, cap, e);
    let k = if has_mac(s, e.mac) { mac_index(s, e.mac) } else { s.len() as int };
    assert(t[k] == e);
    lemma_mac_index_unique(t, e.mac, k);
    if other@ != e.mac@ {
        if has_mac(s, other) {
            let j = mac_index(s, other);
            assert(s[j].mac@ == other@);
            assert(j != k);
            assert(t[j] == s[j]);
            lemma_mac_index_unique(t, other, j);
        }
        if has_mac(t, other) {
            let j = mac_index(t, other);
            assert(t[j].mac@ == other@);
            assert(j != k);
            assert(t[j] == s[j]);
            assert(has_mac(s, other));
        }
    }
}

/// With the table full and no lease for the client, an insert changes
/// nothing.
pub proof fn law_full_table_refuses(s: Seq<LeaseEntry>, cap: nat, e: LeaseEntry)
    requires
        !has_mac(s, e.mac),
        s.len() >= cap,
    ensures
        inserted(s, cap, e) == s,
{
}

/// After the lease of `mac` is removed, a lookup of `mac` finds nothing,
/// and the other clients' leases are as they were.
pub proof fn law_lookup_after_remove(s: Seq<LeaseEntry>, cap: nat, mac: [u8; 6], other: [u8; 6])
    requires
        table_valid(s, cap),
    ensures
        lease_of(removed(s, mac), mac) is None,
        other@ != mac@ ==> lease_of(removed(s, mac), other) == lease_of(s, other),
{
    lemma_removed_valid(s, cap, mac);
    let t = removed(s, mac);
    if has_mac(s, mac) {
        let k = mac_index(s, mac);
        assert(s[k].mac@ == mac@);
        if has_mac(t, mac) {
            let j = mac_index(t, mac);
            let j0 = if j < k { j } else { j + 1 };
            assert(t[j] == s[j0]);
        }
        if other@ != mac@ {
            if has_mac(s, other) {
                let j = mac_index(s, other);
                assert(s[j].mac@ == other@);
                let j1 = if j < k { j } else { j - 1 };
                assert(t[j1] == s[j]);
                lemma_mac_index_unique(t, other, j1);
            }
            if has_mac(t, other) {
                let j = mac_index(t, other);
                let j0 = if j < k { j } else { j + 1 };
                assert(t[j] == s[j0]);
                assert(has_mac(s, other));
            }
        }
    }
}

/// Purging at `now` keeps exactly the leases still running: each kept
/// lease runs past `now`, each lease that runs past `now` is kept, and
/// the table stays valid.
pub proof fn law_purge_keeps_live(s: Seq<LeaseEntry>, cap: nat, now: u64)
    requires
        table_valid(s, cap),
    ensures
        table_valid(unexpired(s, now), cap),
        forall|i: int| 0 <= i < unexpired(s, now).len() ==> is_live(#[trigger] unexpired(s, now)[i], now),
        forall|i: int| 0 <= i < s.len() && is_live(s[i], now) ==> #[trigger] unexpired(s, now).contains(s[i]),
{
    broadcast use vstd::seq_lib::group_filter_ensures;
    lemma_filter_keeps_distinct(s, now);
    let pred = |e: LeaseEntry| is_live(e, now);
    assert forall|i: int| 0 <= i < unexpired(s, now).len() implies is_live(#[trigger] unexpired(s, now)[i], now) by {
        s.lemma_filter_pred(pred, i);
    }
    assert forall|i: int| 0 <= i < s.len() && is_live(s[i], now) implies #[trigger] unexpired(s, now).contains(s[i]) by {
        s.lemma_filter_contains(pred, i);
    }
}

/// An address whose every lease has ended at `now` is held by no lease
/// after a purge at `now`.
pub proof fn law_expired_address_is_freed(s: Seq<LeaseEntry>, now: u64, ip: int)
    requires
        forall|i: int| 0 <= i < s.len() && s[i].ip@ == ip ==> !is_live(#[trigger] s[i], now),
    ensures
        !ip_in_use(unexpired(s, now), ip),
{
    let t = unexpired(s, now);
    let pred = |e: LeaseEntry| is_live(e, now);
    if ip_in_use(t, ip) {
        let j = choose|j: int| 0 <= j < t.len() && #[trigger] t[j].ip@ == ip;
        s.lemma_filter_pred(pred, j);
        assert(t.contains(t[j]));
        s.lemma_filter_contains_rev(pred, t[j]);
        let k = choose|k: int| 0 <= k < s.len() && s[k] == t[j];
        assert(s[k].ip@ == ip);
    }
}

/// What the free-address search finds: the lowest address from `x` to
/// `end` held by no lease, or nothing when every one of them is held.
pub proof fn lemma_first_free(x: int, end: int, s: Seq<LeaseEntry>)
    requires
        0 <= x,
        end <= u32::MAX,
    ensures
        first_free(x, end, s) matches Some(ip) ==> {
            &&& x <= ip <= end
            &&& !ip_in_use(s, ip as int)
            &&& forall|y: int| x <= y < ip ==> #[trigger] ip_in_use(s, y)
        },
        first_free(x, end, s) is None ==> forall|y: int| x <= y <= end ==> #[trigger] ip_in_use(s, y),
    decreases end - x + 1,
{
    if x <= end && ip_in_use(s, x) {
        lemma_first_free(x + 1, end, s);
    }
}

/// No address other than 0.0.0.0 is held by two leases.
pub open spec fn distinct_addresses(s: Seq<LeaseEntry>) -> bool {
    forall|i: int, j: int|
        0 <= i < s.len() && 0 <= j < s.len() && i != j && #[trigger] s[i].ip@ != 0 ==> s[i].ip@
            != #[trigger] s[j].ip@
}

/// Inserting a lease for an address that no lease holds, or for 0.0.0.0,
/// or for the address the client already holds, keeps the addresses
/// distinct.
pub proof fn lemma_inserted_distinct_addresses(s: Seq<LeaseEntry>, cap: nat, e: LeaseEntry)
    requires
        table_valid(s, cap),
        distinct_addresses(s),
        !ip_in_use(s, e.ip@ as int) || e.ip@ == 0 || (lease_of(s, e.mac) matches Some(l) && l.ip
            == e.ip),
    ensures
        distinct_addresses(inserted(s, cap, e)),
{
    let t = inserted(s, cap, e);
    if has_mac(s, e.mac) {
        let k = mac_index(s, e.mac);
        assert forall|a: int, b: int|
            0 <= a < t.len() && 0 <= b < t.len() && a != b && #[trigger] t[a].ip@ != 0 implies t[a].ip@
            != #[trigger] t[b].ip@ by {
            if a == k {
                assert(t[b] == s[b]);
                if s[b].ip@ == e.ip@ && !(lease_of(s, e.mac) matches Some(l) && l.ip == e.ip) {
                    assert(ip_in_use(s, e.ip@ as int));
                }
            } else if b == k {
                assert(t[a] == s[a]);
                if s[a].ip@ == e.ip@ && !(lease_of(s, e.mac) matches Some(l) && l.ip == e.ip) {
                    assert(ip_in_use(s, e.ip@ as int));
                }
            } else {
                assert(t[a] == s[a] && t[b] == s[b]);
            }
        }
    } else if s.len() < cap {
        assert forall|a: int, b: int|
            0 <= a < t.len() && 0 <= b < t.len() && a != b && #[trigger] t[a].ip@ != 0 implies t[a].ip@
            != #[trigger] t[b].ip@ by {
            if a == s.len() {
                assert(t[b] == s[b]);
                if s[b].ip@ == e.ip@ {
                    assert(ip_in_use(s, e.ip@ as int));
                }
            } else if b == s.len() {
                assert(t[a] == s[a]);
                if s[a].ip@ == e.ip@ {
                    assert(ip_in_use(s, e.ip@ as int));
                }
            } else {
                assert(t[a] == s[a] && t[b] == s[b]);
            }
        }
    }
}

/// Removing a lease keeps the addresses distinct.
pub proof fn lemma_removed_distinct_addresses(s: Seq<LeaseEntry>, mac: [u8; 6])
    requires
        distinct_addresses(s),
    ensures
        distinct_addresses(removed(s, mac)),
{
    if has_mac(s, mac) {
        let k = mac_index(s, mac);
        let t = removed(s, mac);
        assert forall|a: int, b: int|
            0 <= a < t.len() && 0 <= b < t.len() && a != b && #[trigger] t[a].ip@ != 0 implies t[a].ip@
            != #[trigger] t[b].ip@ by {
            let a0 = if a < k { a } else { a + 1 };
            let b0 = if b < k { b } else { b + 1 };
            assert(t[a] == s[a0] && t[b] == s[b0]);
        }
    }
}

/// Purging keeps the addresses distinct.
pub proof fn lemma_purge_distinct_addresses(s: Seq<LeaseEntry>, now: u64)
    requires
        distinct_addresses(s),
    ensures
        distinct_addresses(unexpired(s, now)),
    decreases s.len(),
{
    reveal_with_fuel(Seq::<_>::filter, 1);
    let pred = |e: LeaseEntry| is_live(e, now);
    if s.len() > 0 {
        let rest = s.drop_last();
        assert(distinct_addresses(rest));
        lemma_purge_distinct_addresses(rest, now);
        let sub = unexpired(rest, now);
        if pred(s.last()) {
            assert forall|i: int| 0 <= i < sub.len() && s.last().ip@ != 0 implies #[trigger] sub[i].ip@
                != s.last().ip@ by {
                assert(sub.contains(sub[i]));
                rest.lemma_filter_contains_rev(pred, sub[i]);
                let k = choose|k: int| 0 <= k < rest.len() && rest[k] == sub[i];
                assert(s[k] == sub[i]);
                assert(s[s.len() - 1] == s.last());
            }
            let t = unexpired(s, now);
            assert(t == sub.push(s.last()));
            assert forall|a: int, b: int|
                0 <= a < t.len() && 0 <= b < t.len() && a != b && #[trigger] t[a].ip@ != 0 implies t[a].ip@
                != #[trigger] t[b].ip@ by {
                if a < sub.len() && b < sub.len() {
                    assert(t[a] == sub[a] && t[b] == sub[b]);
                } else if a < sub.len() {
                    assert(t[a] == sub[a]);
                } else {
                    assert(t[b] == sub[b]);
                }
            }
        } else {
            assert(unexpired(s, now) == sub);
        }
    }
}

/// Purging at `t1` and then at `t2`, with `t1 <= t2`, is one purge at
/// `t2`; in particular a second purge at the same moment changes nothing.
pub proof fn law_purge_twice(s: Seq<LeaseEntry>, t1: u64, t2: u64)
    requires
        t1 <= t2,
    ensures
        unexpired(unexpired(s, t1), t2) == unexpired(s, t2),
    decreases s.len(),
{
    reveal_with_fuel(Seq::<_>::filter, 1);
    if s.len() > 0 {
        let rest = s.drop_last();
        law_purge_twice(rest, t1, t2);
        let sub1 = unexpired(rest, t1);
        if is_live(s.last(), t1) {
            assert(unexpired(s, t1) == sub1.push(s.last()));
            assert(sub1.push(s.last()).drop_last() =~= sub1);
            assert(sub1.push(s.last()).last() == s.last());
        } else {
            assert(unexpired(s, t1) == sub1);
        }
    }
}

/// Every lease holds 0.0.0.0 or an address of the pool `start..=end`.
pub open spec fn held_in_pool(s: Seq<LeaseEntry>, start: int, end: int) -> bool {
    forall|i: int| 0 <= i < s.len() ==> #[trigger] s[i].ip@ == 0 || start <= s[i].ip@ <= end
}

/// When no address of the pool `start..=end` is free, there are at least
/// as many leases as addresses in the pool.
pub proof fn law_no_free_address_means_full(s: Seq<LeaseEntry>, start: int, end: int)
    requires
        0 <= start <= end <= u32::MAX,
        first_free(start, end, s) is None,
    ensures
        s.len() >= end - start + 1,
{
    lemma_first_free(start, end, s);
    let ips = s.map_values(|e: LeaseEntry| e.ip@ as int);
    let held = ips.to_set();
    let pool = vstd::set_lib::set_int_range(start, end + 1);
    vstd::set_lib::lemma_int_range(start, end + 1);
    ips.lemma_cardinality_of_set();
    assert(held.finite()) by {
        vstd::seq_lib::seq_to_set_is_finite(ips);
    }
    assert forall|y: int| pool.contains(y) implies held.contains(y) by {
        assert(ip_in_use(s, y));
        let i = choose|i: int| 0 <= i < s.len() && #[trigger] s[i].ip@ == y;
        assert(ips[i] == y);
        assert(ips.contains(y));
    }
    vstd::set_lib::lemma_len_subset(pool, held);
}

} // verus!
