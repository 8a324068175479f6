use leasehund::{
    AdmissionEvent, DhcpConfig, DhcpConfigBuilder, DhcpPacket, DhcpRequest, DhcpServer, Ipv4Addr,
    LeaseEntry, TransactionEvent, DHCP_ACK, DHCP_DISCOVER, DHCP_MAGIC, DHCP_OFFER,
    DHCP_PACKET_SIZE, DHCP_RELEASE, DHCP_REQUEST,
};

const MAC_A: [u8; 6] = [0x02, 0x00, 0x00, 0x00, 0x00, 0x0a];
const MAC_B: [u8; 6] = [0x02, 0x00, 0x00, 0x00, 0x00, 0x0b];

fn datagram(msg_type: u8, mac: [u8; 6], xid: [u8; 4]) -> Vec<u8> {
    let mut d = vec![0u8; 240];
    d[0] = 1;
    d[1] = 1;
    d[2] = 6;
    d[4..8].copy_from_slice(&xid);
    d[28..34].copy_from_slice(&mac);
    d[236..240].copy_from_slice(&DHCP_MAGIC);
    d.extend_from_slice(&[53, 1, msg_type, 255]);
    d
}

fn request(msg_type: u8, mac: [u8; 6]) -> DhcpRequest {
    DhcpRequest::parse(&datagram(msg_type, mac, [1, 2, 3, 4])).expect("a valid request")
}

fn config() -> DhcpConfig<2> {
    DhcpConfigBuilder::<2>::new()
        .server_ip(Ipv4Addr::new(10, 0, 0, 1))
        .subnet_mask(Ipv4Addr::new(255, 255, 255, 0))
        .router(Ipv4Addr::new(10, 0, 0, 1))
        .add_dns_server(Ipv4Addr::new(1, 1, 1, 1))
        .ip_pool(Ipv4Addr::new(10, 0, 0, 100), Ipv4Addr::new(10, 0, 0, 102))
        .lease_time(3600)
        .build()
}

fn server() -> DhcpServer<4, 2> {
    DhcpServer::with_config(config())
}

fn yiaddr(bytes: &[u8]) -> [u8; 4] {
    [bytes[16], bytes[17], bytes[18], bytes[19]]
}

#[test]
fn offer_then_request_acknowledges_offered_address() {
    let mut s = server();
    let offer = s.handle_request_at(&request(DHCP_DISCOVER, MAC_A), true, 1000);
    let bytes = offer.response.expect("an offer");
    assert_eq!(yiaddr(bytes.as_slice()), [10, 0, 0, 100]);
    assert_eq!(offer.event, None);
    assert_eq!(s.lease_count(), 1);
    s.purge_expired_leases_at(2000);
    let ack = s.handle_request_at(&request(DHCP_REQUEST, MAC_A), true, 2000);
    let bytes = ack.response.expect("an acknowledgment");
    assert_eq!(yiaddr(bytes.as_slice()), [10, 0, 0, 100]);
    assert_eq!(
        ack.event,
        Some(TransactionEvent::Leased(Ipv4Addr::new(10, 0, 0, 100), MAC_A))
    );
    assert_eq!(s.lease_count(), 1);
}

#[test]
fn offers_to_two_clients_differ() {
    let mut s = server();
    let a = s.handle_request_at(&request(DHCP_DISCOVER, MAC_A), true, 10);
    let b = s.handle_request_at(&request(DHCP_DISCOVER, MAC_B), true, 11);
    assert_eq!(yiaddr(a.response.unwrap().as_slice()), [10, 0, 0, 100]);
    assert_eq!(yiaddr(b.response.unwrap().as_slice()), [10, 0, 0, 101]);
    assert_eq!(s.lease_count(), 2);
}

#[test]
fn repeated_discover_moves_reservation() {
    let mut s = server();
    let a = s.handle_request_at(&request(DHCP_DISCOVER, MAC_A), true, 10);
    let again = s.handle_request_at(&request(DHCP_DISCOVER, MAC_A), true, 20);
    assert_eq!(yiaddr(a.response.unwrap().as_slice()), [10, 0, 0, 100]);
    assert_eq!(yiaddr(again.response.unwrap().as_slice()), [10, 0, 0, 101]);
    assert_eq!(s.lease_count(), 1);
}

#[test]
fn release_forgets_lease() {
    let mut s = server();
    let _ = s.handle_request_at(&request(DHCP_DISCOVER, MAC_A), true, 10);
    let _ = s.handle_request_at(&request(DHCP_DISCOVER, MAC_B), true, 10);
    let _ = s.handle_request_at(&request(DHCP_REQUEST, MAC_A), true, 20);
    let released = s.handle_request_at(&request(DHCP_RELEASE, MAC_A), false, 30);
    assert!(released.response.is_none());
    assert_eq!(
        released.event,
        Some(TransactionEvent::Released(Ipv4Addr::new(10, 0, 0, 100), MAC_A))
    );
    assert_eq!(s.lease_count(), 1);
    let again = s.handle_request_at(&request(DHCP_RELEASE, MAC_A), true, 40);
    assert_eq!(again.event, None);
    let b_ack = s.handle_request_at(&request(DHCP_REQUEST, MAC_B), true, 50);
    assert_eq!(
        b_ack.event,
        Some(TransactionEvent::Leased(Ipv4Addr::new(10, 0, 0, 101), MAC_B))
    );
}

#[test]
fn refused_requests_change_nothing() {
    let mut s = server();
    let d = s.handle_request_at(&request(DHCP_DISCOVER, MAC_A), false, 10);
    assert!(d.response.is_none());
    assert_eq!(d.event, None);
    let r = s.handle_request_at(&request(DHCP_REQUEST, MAC_A), false, 10);
    assert!(r.response.is_none());
    assert_eq!(r.event, None);
    assert_eq!(s.lease_count(), 0);
}

#[test]
fn other_message_types_are_ignored() {
    let mut s = server();
    let req = request(DHCP_ACK, MAC_A);
    assert_eq!(req.admission(), None);
    let r = s.handle_request_at(&req, true, 10);
    assert!(r.response.is_none());
    assert_eq!(r.event, None);
}

#[test]
fn admission_kinds() {
    assert_eq!(request(DHCP_DISCOVER, MAC_A).admission(), Some(AdmissionEvent::Discover));
    assert_eq!(request(DHCP_REQUEST, MAC_A).admission(), Some(AdmissionEvent::Request));
    assert_eq!(request(DHCP_RELEASE, MAC_A).admission(), Some(AdmissionEvent::Release));
}

#[test]
fn offer_bytes_exact() {
    let mut s = server();
    let r = s.handle_request_at(&request(DHCP_DISCOVER, MAC_A), true, 1000);
    let bytes = r.response.unwrap();
    let b = bytes.as_slice();
    let mut expected = vec![0u8; 240];
    expected[0] = 2;
    expected[1] = 1;
    expected[2] = 6;
    expected[4..8].copy_from_slice(&[1, 2, 3, 4]);
    expected[16..20].copy_from_slice(&[10, 0, 0, 100]);
    expected[28..34].copy_from_slice(&MAC_A);
    expected[236..240].copy_from_slice(&DHCP_MAGIC);
    expected.extend_from_slice(&[
        53, 1, 2, 54, 4, 10, 0, 0, 1, 1, 4, 255, 255, 255, 0, 3, 4, 10, 0, 0, 1, 6, 4, 1, 1, 1, 1,
        51, 4, 0, 0, 0x0e, 0x10, 255,
    ]);
    assert_eq!(b, expected.as_slice());
    assert_eq!(bytes.len(), 274);
}

#[test]
fn reply_reads_back_as_request() {
    let mut s = server();
    let r = s.handle_request_at(&request(DHCP_REQUEST, MAC_B), true, 5);
    let bytes = r.response.unwrap();
    let back = DhcpRequest::parse(bytes.as_slice()).expect("the reply parses");
    assert_eq!(back.msg_type, DHCP_ACK);
    assert_eq!(back.mac, MAC_B);
    assert_eq!(back.packet.xid, [1, 2, 3, 4]);
    assert_eq!(back.packet.op, 2);
}

#[test]
fn parse_rejects_bad_datagrams() {
    let good = datagram(DHCP_DISCOVER, MAC_A, [9, 9, 9, 9]);
    assert!(DhcpRequest::parse(&good).is_some());
    assert!(DhcpRequest::parse(&good[..239]).is_none());
    let mut bad_cookie = good.clone();
    bad_cookie[237] = 0;
    assert!(DhcpRequest::parse(&bad_cookie).is_none());
    let no_type = &good[..240];
    assert!(DhcpRequest::parse(no_type).is_none());
    let q = DhcpRequest::parse(&good).unwrap();
    assert_eq!(q.msg_type, DHCP_DISCOVER);
    assert_eq!(q.mac, MAC_A);
    assert_eq!(q.packet.xid, [9, 9, 9, 9]);
}

#[test]
fn parse_message_type_skips_other_options() {
    let options = [1, 4, 255, 255, 255, 0, 53, 1, 3, 255];
    assert_eq!(DhcpServer::<1, 1>::parse_message_type(&options), Some(3));
    assert_eq!(DhcpServer::<1, 1>::parse_message_type(&[53, 1]), None);
    assert_eq!(DhcpServer::<1, 1>::parse_message_type(&[12, 200, 53, 1, 1]), None);
    assert_eq!(DhcpServer::<1, 1>::parse_message_type(&[12]), None);
    assert_eq!(DhcpServer::<1, 1>::parse_message_type(&[0, 0, 53, 1, 7]), Some(7));
}

#[test]
fn purge_at_drops_ended_leases_and_frees_address() {
    let mut s = server();
    let _ = s.insert_lease(LeaseEntry { ip: Ipv4Addr::new(10, 0, 0, 100), mac: MAC_A, expires_at: 500 });
    let _ = s.insert_lease(LeaseEntry { ip: Ipv4Addr::new(10, 0, 0, 101), mac: MAC_B, expires_at: 5000 });
    assert_eq!(s.get_next_available_ip(), Some(Ipv4Addr::new(10, 0, 0, 102)));
    s.purge_expired_leases_at(500);
    assert_eq!(s.lease_count(), 1);
    assert_eq!(s.get_next_available_ip(), Some(Ipv4Addr::new(10, 0, 0, 100)));
    s.purge_expired_leases_at(4999);
    assert_eq!(s.lease_count(), 1);
}

#[test]
fn purge_with_clock_drops_ended_leases() {
    let mut s = server();
    let _ = s.insert_lease(LeaseEntry { ip: Ipv4Addr::new(10, 0, 0, 100), mac: MAC_A, expires_at: 0 });
    let _ = s.insert_lease(LeaseEntry { ip: Ipv4Addr::new(10, 0, 0, 101), mac: MAC_B, expires_at: u64::MAX });
    s.purge_expired_leases();
    assert_eq!(s.lease_count(), 1);
    assert_eq!(s.get_next_available_ip(), Some(Ipv4Addr::new(10, 0, 0, 100)));
}

#[test]
fn handle_request_with_clock_offers() {
    let mut s = server();
    let r = s.handle_request(&request(DHCP_DISCOVER, MAC_A), true);
    assert_eq!(yiaddr(r.response.unwrap().as_slice()), [10, 0, 0, 100]);
    assert_eq!(s.lease_count(), 1);
}

#[test]
fn exhausted_pool_offers_nothing_and_acks_zero() {
    let cfg = DhcpConfigBuilder::<2>::new()
        .ip_pool(Ipv4Addr::new(10, 0, 0, 100), Ipv4Addr::new(10, 0, 0, 100))
        .build();
    let mut s: DhcpServer<4, 2> = DhcpServer::with_config(cfg);
    let a = s.handle_request_at(&request(DHCP_DISCOVER, MAC_A), true, 1);
    assert_eq!(yiaddr(a.response.unwrap().as_slice()), [10, 0, 0, 100]);
    let b = s.handle_request_at(&request(DHCP_DISCOVER, MAC_B), true, 1);
    assert_eq!(yiaddr(b.response.unwrap().as_slice()), [0, 0, 0, 0]);
    assert_eq!(s.lease_count(), 1);
    let b_ack = s.handle_request_at(&request(DHCP_REQUEST, MAC_B), true, 2);
    assert_eq!(yiaddr(b_ack.response.unwrap().as_slice()), [0, 0, 0, 0]);
    assert_eq!(
        b_ack.event,
        Some(TransactionEvent::Leased(Ipv4Addr::new(0, 0, 0, 0), MAC_B))
    );
    let c_ack = s.handle_request_at(&request(DHCP_REQUEST, [7; 6]), true, 3);
    assert_eq!(
        c_ack.event,
        Some(TransactionEvent::Leased(Ipv4Addr::new(0, 0, 0, 0), [7; 6]))
    );
    assert_eq!(s.lease_count(), 3);
}

#[test]
fn full_table_keeps_existing_leases() {
    let mut s: DhcpServer<1, 2> = DhcpServer::with_config(config());
    let _ = s.handle_request_at(&request(DHCP_DISCOVER, MAC_A), true, 1);
    let b = s.handle_request_at(&request(DHCP_DISCOVER, MAC_B), true, 1);
    // no room to reserve an address for B: it is offered none
    assert_eq!(yiaddr(b.response.unwrap().as_slice()), [0, 0, 0, 0]);
    assert_eq!(s.lease_count(), 1);
    let b_ack = s.handle_request_at(&request(DHCP_REQUEST, MAC_B), true, 2);
    assert_eq!(b_ack.event, None);
    let lease = LeaseEntry { ip: Ipv4Addr::new(10, 0, 0, 102), mac: MAC_B, expires_at: 9 };
    assert_eq!(s.insert_lease(lease).err().map(|e| e.ip), Some(Ipv4Addr::new(10, 0, 0, 102)));
}

#[test]
fn pool_full_depends_on_pool_and_capacity() {
    let mut s: DhcpServer<2, 2> = DhcpServer::with_config(config());
    assert!(!s.is_pool_full());
    let _ = s.insert_lease(LeaseEntry { ip: Ipv4Addr::new(10, 0, 0, 100), mac: MAC_A, expires_at: 9 });
    assert!(!s.is_pool_full());
    let _ = s.insert_lease(LeaseEntry { ip: Ipv4Addr::new(10, 0, 0, 101), mac: MAC_B, expires_at: 9 });
    assert!(s.is_pool_full());
    let old = s.insert_lease(LeaseEntry { ip: Ipv4Addr::new(10, 0, 0, 102), mac: MAC_B, expires_at: 9 });
    assert_eq!(old.unwrap().map(|e| e.ip), Some(Ipv4Addr::new(10, 0, 0, 101)));
    assert_eq!(s.lease_count(), 2);
}

#[test]
fn ipv4_octets_round_trip() {
    let ip = Ipv4Addr::new(192, 168, 1, 20);
    assert_eq!(ip.octets(), [192, 168, 1, 20]);
    assert_eq!(ip.to_bits(), 0xC0A8_0114);
    assert_eq!(Ipv4Addr::from_bits(0xC0A8_0114), ip);
    assert_eq!(Ipv4Addr::from_octets([10, 1, 2, 3]), Ipv4Addr::new(10, 1, 2, 3));
    assert_eq!(leasehund::be_bytes(0x0102_0304), [1, 2, 3, 4]);
}

#[test]
fn builder_drops_dns_beyond_capacity() {
    let cfg = DhcpConfigBuilder::<1>::new()
        .add_dns_server(Ipv4Addr::new(1, 1, 1, 1))
        .add_dns_server(Ipv4Addr::new(9, 9, 9, 9))
        .build();
    assert_eq!(cfg.dns_servers, vec![Ipv4Addr::new(1, 1, 1, 1)]);
    let cleared = DhcpConfigBuilder::<2>::new()
        .add_dns_server(Ipv4Addr::new(1, 1, 1, 1))
        .clear_dns_servers()
        .build();
    assert!(cleared.dns_servers.is_empty());
    let none: DhcpConfig<0> = DhcpConfig::default();
    assert!(none.dns_servers.is_empty());
    let b = DhcpConfigBuilder::<2>::default().lease_time(5);
    let c = b.clone().build();
    assert_eq!(c.lease_time, 5);
    assert_eq!(b.build().lease_time, 5);
}

#[test]
fn server_new_without_dns_room() {
    let s: DhcpServer<2, 0> = DhcpServer::new(
        Ipv4Addr::new(10, 0, 0, 1),
        Ipv4Addr::new(255, 0, 0, 0),
        Ipv4Addr::new(10, 0, 0, 1),
        Ipv4Addr::new(8, 8, 8, 8),
        Ipv4Addr::new(10, 0, 0, 2),
        Ipv4Addr::new(10, 0, 0, 9),
    );
    assert!(s.config().dns_servers.is_empty());
    assert_eq!(s.config().lease_time, 86400);
    assert_eq!(s.lease_count(), 0);
}

#[test]
fn many_dns_servers_fill_the_buffer() {
    let mut cfg: DhcpConfig<100> = DhcpConfigBuilder::<100>::new()
        .server_ip(Ipv4Addr::new(10, 0, 0, 1))
        .ip_pool(Ipv4Addr::new(10, 0, 0, 100), Ipv4Addr::new(10, 0, 0, 102))
        .build();
    for i in 0..80u8 {
        cfg.dns_servers.push(Ipv4Addr::new(1, 1, 1, i));
    }
    let mut s: DhcpServer<4, 100> = DhcpServer::with_config(cfg);
    let r = s.handle_request_at(&request(DHCP_DISCOVER, MAC_A), true, 1);
    let bytes = r.response.unwrap();
    let b = bytes.as_slice();
    assert_eq!(b.len(), DHCP_PACKET_SIZE);
    // message type, server id, mask, router, then the DNS option header
    assert_eq!(&b[261..263], &[6, 0]);
    // 78 servers fit; the lease-time option does not, the end option does
    assert_eq!(&b[263..267], &[1, 1, 1, 0]);
    assert_eq!(&b[571..575], &[1, 1, 1, 77]);
    assert_eq!(b[575], 255);
}

#[test]
fn dns_length_byte_wraps_to_zero() {
    let mut cfg: DhcpConfig<100> = DhcpConfigBuilder::<100>::new().no_router().build();
    for i in 0..64u8 {
        cfg.dns_servers.push(Ipv4Addr::new(1, 1, 1, i));
    }
    let mut s: DhcpServer<4, 100> = DhcpServer::with_config(cfg);
    let r = s.handle_request_at(&request(DHCP_DISCOVER, MAC_A), true, 1);
    let bytes = r.response.unwrap();
    let b = bytes.as_slice();
    assert_eq!(&b[255..257], &[6, 0]);
    assert_eq!(b.len(), 240 + 15 + 2 + 256 + 7);
}

#[test]
fn packet_header_round_trip() {
    let p = DhcpPacket::default();
    assert_eq!(p.magic, DHCP_MAGIC);
    let d = datagram(DHCP_OFFER, MAC_B, [4, 3, 2, 1]);
    let q = DhcpPacket::parse(&d).unwrap();
    assert_eq!(q.chaddr[..6], MAC_B);
    assert!(q.has_magic_cookie());
    assert!(!p.sname.iter().any(|b| *b != 0));
    assert!(DhcpPacket::parse(&d[..100]).is_none());
}

#[test]
fn admission_question_names_client_and_kind() {
    type S = DhcpServer<4, 2>;
    assert_eq!(
        S::admission_question(&datagram(DHCP_DISCOVER, MAC_B, [1, 1, 1, 1])),
        Some((MAC_B, AdmissionEvent::Discover))
    );
    assert_eq!(
        S::admission_question(&datagram(DHCP_REQUEST, MAC_A, [1, 1, 1, 1])),
        Some((MAC_A, AdmissionEvent::Request))
    );
    assert_eq!(
        S::admission_question(&datagram(DHCP_RELEASE, MAC_A, [1, 1, 1, 1])),
        Some((MAC_A, AdmissionEvent::Release))
    );
    assert_eq!(S::admission_question(&datagram(DHCP_ACK, MAC_A, [1, 1, 1, 1])), None);
    assert_eq!(S::admission_question(&[1, 2, 3]), None);
}

#[test]
fn datagram_handling_uses_answer_and_purges() {
    let mut s = server();
    let _ = s.insert_lease(LeaseEntry { ip: Ipv4Addr::new(10, 0, 0, 102), mac: [9; 6], expires_at: 50 });
    let b = s.handle_datagram_at(&datagram(DHCP_DISCOVER, MAC_B, [1, 1, 1, 1]), false, 100);
    assert!(b.response.is_none());
    assert_eq!(s.lease_count(), 0);
    let a = s.handle_datagram_at(&datagram(DHCP_DISCOVER, MAC_A, [1, 1, 1, 1]), true, 100);
    assert_eq!(yiaddr(a.response.unwrap().as_slice()), [10, 0, 0, 100]);
    let junk = s.handle_datagram_at(&[1, 2, 3], true, 100);
    assert!(junk.response.is_none() && junk.event.is_none());
}

#[test]
fn datagram_first_request_is_acknowledged() {
    let mut s: DhcpServer<2, 2> = DhcpServer::new(
        Ipv4Addr::new(10, 0, 0, 1),
        Ipv4Addr::new(255, 255, 255, 0),
        Ipv4Addr::new(10, 0, 0, 1),
        Ipv4Addr::new(1, 1, 1, 1),
        Ipv4Addr::new(10, 0, 0, 100),
        Ipv4Addr::new(10, 0, 0, 101),
    );
    let r = s.handle_datagram_at(&datagram(DHCP_REQUEST, [0, 0, 0, 0, 0, 1], [0; 4]), true, 0);
    assert_eq!(
        r.event,
        Some(TransactionEvent::Leased(Ipv4Addr::new(10, 0, 0, 100), [0, 0, 0, 0, 0, 1]))
    );
    let bytes = r.response.unwrap();
    assert_eq!(yiaddr(bytes.as_slice()), [10, 0, 0, 100]);
    assert_eq!(&bytes.as_slice()[240..243], &[53, 1, 5]);
    assert_eq!(s.lease_count(), 1);
}

#[test]
fn datagram_release_ignores_answer() {
    let mut s = server();
    let _ = s.handle_datagram_at(&datagram(DHCP_REQUEST, MAC_A, [1, 1, 1, 1]), true, 10);
    let r = s.handle_datagram_at(&datagram(DHCP_RELEASE, MAC_A, [1, 1, 1, 1]), false, 20);
    assert!(r.response.is_none());
    assert_eq!(
        r.event,
        Some(TransactionEvent::Released(Ipv4Addr::new(10, 0, 0, 100), MAC_A))
    );
    let c = s.handle_datagram(&datagram(DHCP_DISCOVER, MAC_B, [1, 1, 1, 1]), true);
    assert_eq!(yiaddr(c.response.unwrap().as_slice()), [10, 0, 0, 100]);
}

#[test]
fn parse_message_type_skips_pad_bytes() {
    assert_eq!(DhcpServer::<2, 2>::parse_message_type(&[0, 53, 1, 3, 255]), Some(3));
    assert_eq!(DhcpServer::<2, 2>::parse_message_type(&[0, 0, 0]), None);
    assert_eq!(DhcpServer::<2, 2>::parse_message_type(&[0, 255, 53, 1, 3]), None);
}

#[test]
fn full_table_never_offers_an_address_twice() {
    let mut s: DhcpServer<2, 2> = DhcpServer::new(
        Ipv4Addr::new(10, 0, 0, 1),
        Ipv4Addr::new(255, 255, 255, 0),
        Ipv4Addr::new(10, 0, 0, 1),
        Ipv4Addr::new(1, 1, 1, 1),
        Ipv4Addr::new(10, 0, 0, 100),
        Ipv4Addr::new(10, 0, 0, 110),
    );
    let mut offered = Vec::new();
    for k in 1..=4u8 {
        let r = s.handle_request_at(&request(DHCP_DISCOVER, [0, 0, 0, 0, 0, k]), true, 1000);
        offered.push(yiaddr(r.response.unwrap().as_slice()));
    }
    assert_eq!(offered, vec![[10, 0, 0, 100], [10, 0, 0, 101], [0, 0, 0, 0], [0, 0, 0, 0]]);
    assert_eq!(s.lease_count(), 2);
    let ack = s.handle_request_at(&request(DHCP_REQUEST, [0, 0, 0, 0, 0, 3]), true, 1001);
    assert_eq!(yiaddr(ack.response.unwrap().as_slice()), [0, 0, 0, 0]);
    assert_eq!(ack.event, None);
}

#[test]
fn purging_twice_is_purging_once() {
    let mut s = server();
    let _ = s.insert_lease(LeaseEntry { ip: Ipv4Addr::new(10, 0, 0, 100), mac: MAC_A, expires_at: 10 });
    let _ = s.insert_lease(LeaseEntry { ip: Ipv4Addr::new(10, 0, 0, 101), mac: MAC_B, expires_at: 20 });
    s.purge_expired_leases_at(10);
    assert_eq!(s.lease_count(), 1);
    s.purge_expired_leases_at(10);
    assert_eq!(s.lease_count(), 1);
    s.purge_expired_leases_at(20);
    assert_eq!(s.lease_count(), 0);
}

#[test]
fn exhausted_pool_counts_as_full() {
    let mut s = server();
    for (k, host) in [(1u8, 100u8), (2, 101), (3, 102)] {
        let _ = s.insert_lease(LeaseEntry { ip: Ipv4Addr::new(10, 0, 0, host), mac: [k; 6], expires_at: 9 });
    }
    assert_eq!(s.get_next_available_ip(), None);
    assert!(s.is_pool_full());
}
