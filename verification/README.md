# ipv6_prefix_filter

A filter for IPv6 Router Advertisements (RA). Packets that nftables queues to
userspace are read as IPv6 / ICMPv6 Router Advertisements; the networks that
their Prefix Information options announce are checked against a list of
allowed networks (or, in blacklist mode, blocked ones), and each packet is
accepted or dropped.

Layout:

- `src/` — the verified library (Verus):
  - `bytes.rs`: big-endian reading of integers;
  - `prefix.rs`: IPv6 networks (first/last address, containment, truncation);
  - `packet.rs`: IPv6 payload, ICMPv6 type and Neighbor Discovery options (read
    with `pnet`), Prefix Information options and the announced networks;
  - `verdict.rs`: the decision on a packet, in its variants;
  - `divert.rs`: the filter text of the packet-diversion path;
  - `nft.rs`: the nftables ruleset and the batches that set it up and tear it down;
  - `globals.rs`: the shared state (networks, mode, interface, neighbours);
  - `handle.rs`: what the clear and end-of-run commands compute.
- `app/` — the program: command line, logging, applying nftables batches,
  the netfilter-queue loop, the daemon mode.
- `tests/` — tests of the library.
