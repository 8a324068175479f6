# leasehund

A lightweight DHCP server for embedded networks, written in Verus.

- `src/` is the verified core: IPv4 addresses, the configuration and its
  builder, the DHCP wire format (fixed header, options, magic cookie), the
  lease table, and the server's handling of each datagram — purge of ended
  leases, admission policy, offers with a one-minute reservation,
  acknowledgments, releases. `src/laws.rs` and the `law_*` functions of
  `src/lease.rs` state what holds across requests.
- `app/` binds the UDP socket on an Embassy network stack, runs the receive
  loops and sends the replies the core builds.
- `tests/` exercises both.

## Collections and addresses

- Replies are written into a `heapless::Vec<u8, 576>`, reached through a
  small trusted buffer type (`PacketBuf`): Verus refuses a declaration of
  heapless's vector type, whose storage parameter is a private alias.
- The lease table and the DNS server list have a capacity given by a const
  generic. A name for the contents of such a heapless collection would be
  generic, which this code base does not admit, and Verus refuses the
  storage type in any case; so both are a `Vec` whose capacity (and, for
  the lease table, one lease per client) is stated as an invariant.
- Addresses are the library's own `Ipv4Addr`, a 32-bit value with the
  usual octet conversions, since `core::net` is outside what the verified
  code may use; `app/` converts where it talks to the network stack.
