//! A small DHCP server core: address pools, lease bookkeeping and the
//! DHCP wire format (RFC 2131 / RFC 2132). For each datagram the library
//! states the admission question it raises (if any) and, given the
//! caller's answer, exactly what the server does: the leases it keeps,
//! the reply it sends and the lease event it reports.
//!
//! - `addr`: IPv4 addresses and their big-endian octets.
//! - `config`: the server configuration and its builder.
//! - `wire`: the fixed header, the options, and the reply buffer.
//! - `lease`: the lease table, one lease per client.
//! - `server`: the server and what it does with each datagram.
//! - `laws`: what holds across requests.
//! - `reply_laws`: where each option stands in a reply.
//! - `config_laws`: what the configuration, the dispatch and the pool count promise.

mod addr;
mod clock;
mod config;
mod config_laws;
mod lease;
mod laws;
mod reply_laws;
mod server;
mod wire;

pub use addr::{
    Ipv4Addr, be_bytes, be_octets, octets_value, lemma_octets_of_new, lemma_value_of_octets,
};
pub use config::{
    DhcpConfig, DhcpConfigBuilder, DEFAULT_LEASE_TIME, ip_of, is_default_config, is_builder_start,
};
pub use wire::{
    DHCP_DISCOVER, DHCP_OFFER, DHCP_REQUEST, DHCP_ACK, DHCP_RELEASE, OPTION_SUBNET_MASK,
    OPTION_ROUTER, OPTION_PAD, OPTION_DNS_SERVER, OPTION_LEASE_TIME, OPTION_MESSAGE_TYPE, OPTION_SERVER_ID,
    OPTION_END, DHCP_MAGIC, FIXED_PART_SIZE, OPTIONS_SIZE, DHCP_PACKET_SIZE, magic_cookie, zeros,
    PacketBuf, packet_buf_bytes, append_if_fits, DhcpPacket, message_type_from, message_type_of,
    dns_length_byte, dns_chunks, router_chunks, dns_option_chunks, option_chunks, append_chunks,
};
pub use lease::{
    LeaseEntry, LeaseTable, distinct_macs, table_valid, has_mac, mac_index, lease_of, inserted,
    removed, is_live, unexpired, ip_in_use, first_free, lemma_mac_index_unique,
    lemma_filter_keeps_distinct, lemma_inserted_valid, lemma_removed_valid, law_lookup_after_insert,
    law_full_table_refuses, law_lookup_after_remove, law_purge_keeps_live,
    law_expired_address_is_freed, lemma_first_free, distinct_addresses,
    lemma_inserted_distinct_addresses, lemma_removed_distinct_addresses,
    lemma_purge_distinct_addresses, law_purge_twice, held_in_pool, law_no_free_address_means_full,
};
pub use server::{
    OFFER_RESERVATION_MS, TransactionEvent, AdmissionEvent, admission_of, is_request_datagram,
    DhcpRequest, request_read_from, pool_full, can_record, free_ip, reply_address, leases_after_reply, reply_header,
    reply_bytes, reply_time_fits, handling_time_fits, Reply, response_bytes, handle_outcome,
    DhcpServer, admission_question_of, mac_of, datagram_time_fits, Step, apply_step, run_steps,
    lemma_run_one, lemma_run_two,
};
pub use laws::{
    law_reply_is_well_formed, law_offer_reserves_address, law_request_keeps_lease,
    law_offer_then_request, law_offers_are_distinct, law_offered_address_is_reserved, law_release_forgets,
    law_refused_changes_nothing, law_handling_keeps_table_valid, law_addresses_stay_distinct,
    law_exhausted_pool_is_full, server_invariant, law_steps_keep_config, law_runs_compose,
    law_steps_keep_invariant,
};
pub use reply_laws::{law_reply_options_differ_only_in_type, law_reply_option_layout};
pub use config_laws::{
    law_dns_server_is_appended, law_other_messages_change_nothing, law_full_pool_has_no_free_address,
};
