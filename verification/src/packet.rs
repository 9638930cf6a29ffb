//! Reading Router Advertisements out of raw IPv6 packets: the IPv6 payload,
//! the ICMPv6 type, the Neighbor Discovery options of the advertisement and the
//! Prefix Information options among them.
//!
//! The framing of IPv6, ICMPv6 and Router Advertisement packets is `pnet`'s: the
//! three calls into `pnet` stand behind the trusted functions of this module, and
//! the functions around them are verified against the same statements.
use pnet::packet::icmpv6::ndp::RouterAdvertPacket;
use pnet::packet::icmpv6::Icmpv6Packet;
use pnet::packet::ipv6::Ipv6Packet;
use pnet::packet::Packet;
use vstd::prelude::*;

use crate::bytes::{be_u128_at, be_u32_at, be_value};
use crate::prefix::Ipv6Prefix;

verus! {

/// ICMPv6 type of a Router Advertisement.
pub const ICMPV6_ROUTER_ADVERT: u8 = 134;

/// Neighbor Discovery option type of a Prefix Information option.
pub const NDP_PREFIX_INFORMATION: u8 = 3;

/// A Neighbor Discovery option: its type, its length field (in units of 8 bytes,
/// type and length bytes included) and the bytes that follow the type and length.
#[derive(Debug)]
pub struct NdpOption {
    pub option_type: u8,
    pub length: u8,
    pub data: Vec<u8>,
}

impl View for NdpOption {
    type V = (u8, u8, Seq<u8>);

    open spec fn view(&self) -> (u8, u8, Seq<u8>) {
        (self.option_type, self.length, self.data@)
    }
}

/// The options of a list, each by its view.
pub open spec fn options_view(v: Seq<NdpOption>) -> Seq<(u8, u8, Seq<u8>)> {
    v.map_values(|o: NdpOption| o@)
}

/// An optional list of options, by its view.
pub open spec fn opt_options_view(r: Option<Vec<NdpOption>>) -> Option<Seq<(u8, u8, Seq<u8>)>> {
    match r {
        Some(v) => Some(options_view(v@)),
        None => None,
    }
}

/// The payload of an IPv6 packet: `None` below the 40-byte fixed header; otherwise
/// the bytes after the header, as many as the Payload Length field (bytes 4 and 5,
/// big-endian) declares, cut at the end of the buffer.
pub open spec fn ipv6_payload(data: Seq<u8>) -> Option<Seq<u8>> {
    if data.len() < 40 {
        None
    } else {
        let declared = 40 + data[4] as int * 256 + data[5] as int;
        let end = if declared < data.len() {
            declared
        } else {
            data.len() as int
        };
        Some(data.subrange(40, end))
    }
}

/// The type of an ICMPv6 message: its first byte, for a message of at least 4 bytes.
pub open spec fn icmpv6_type(icmp: Seq<u8>) -> Option<u8> {
    if icmp.len() < 4 {
        None
    } else {
        Some(icmp[0])
    }
}

/// Bytes that follow the type and length of an option with the given length field.
pub open spec fn ndp_payload_len(length: u8) -> int {
    if length > 0 {
        length * 8 - 2
    } else {
        0
    }
}

/// Bytes that the option at the head of `buf` takes, cut at the end of `buf`.
pub open spec fn ndp_option_size(buf: Seq<u8>) -> int
    recommends
        buf.len() >= 2,
{
    let want = 2 + ndp_payload_len(buf[1]);
    if want < buf.len() {
        want
    } else {
        buf.len() as int
    }
}

/// The options that a buffer of Neighbor Discovery options holds, in order: while
/// at least 2 bytes are left, one option is read and the buffer advances past it.
pub open spec fn ndp_options(buf: Seq<u8>) -> Seq<(u8, u8, Seq<u8>)>
    decreases buf.len(),
{
    if buf.len() < 2 {
        seq![]
    } else {
        let size = ndp_option_size(buf);
        seq![(buf[0], buf[1], buf.subrange(2, size))] + ndp_options(buf.skip(size))
    }
}

/// Every option that `ndp_options` reads has a length field below 32 (for a
/// larger one the computation of its size overflows a byte and panics).
pub open spec fn ndp_options_fit(buf: Seq<u8>) -> bool
    decreases buf.len(),
{
    buf.len() < 2 || (buf[1] < 32 && ndp_options_fit(buf.skip(ndp_option_size(buf))))
}

/// The options of a Router Advertisement message: `None` below its 16-byte fixed
/// part; otherwise the options read from the bytes after it.
pub open spec fn router_advert_options(icmp: Seq<u8>) -> Option<Seq<(u8, u8, Seq<u8>)>> {
    if icmp.len() < 16 {
        None
    } else {
        Some(ndp_options(icmp.skip(16)))
    }
}

/// The options of a packet that is an IPv6 packet carrying an ICMPv6 Router
/// Advertisement; `None` for any other packet.
pub open spec fn ra_options(data: Seq<u8>) -> Option<Seq<(u8, u8, Seq<u8>)>> {
    match ipv6_payload(data) {
        None => None,
        Some(p) => if icmpv6_type(p) == Some(ICMPV6_ROUTER_ADVERT) {
            router_advert_options(p)
        } else {
            None
        },
    }
}

/// The options of the packet's Router Advertisement can be read without overflow.
pub open spec fn ra_walkable(data: Seq<u8>) -> bool {
    match ipv6_payload(data) {
        None => true,
        Some(p) => (icmpv6_type(p) == Some(ICMPV6_ROUTER_ADVERT) && p.len() >= 16)
            ==> ndp_options_fit(p.skip(16)),
    }
}

/// `Ipv6Packet::new` and `payload`: no packet below 40 bytes; otherwise the bytes
/// after the fixed header up to the length that the Payload Length field declares,
/// cut at the end of the buffer.
#[verifier::external_body]
fn read_ipv6_payload(data: &[u8]) -> (r: Option<Vec<u8>>)
    ensures
        match r {
            Some(v) => ipv6_payload(data@) == Some(v@),
            None => ipv6_payload(data@) is None,
        },
{
    match Ipv6Packet::new(data) {
        Some(packet) => Some(packet.payload().to_vec()),
        None => None,
    }
}

/// `Icmpv6Packet::new` and `get_icmpv6_type`: no message below 4 bytes; otherwise
/// the first byte.
#[verifier::external_body]
fn read_icmpv6_type(icmp: &[u8]) -> (r: Option<u8>)
    ensures
        r == icmpv6_type(icmp@),
{
    match Icmpv6Packet::new(icmp) {
        Some(packet) => Some(packet.get_icmpv6_type().0),
        None => None,
    }
}

/// `RouterAdvertPacket::new` and `get_options`: no message below 16 bytes; otherwise
/// the options that pnet's option iterator reads from the bytes after the fixed
/// part (each option spans 8 bytes per unit of its length field, at least 2,
/// cut at the end of the buffer; iteration stops with fewer than 2 bytes left).
/// pnet computes an option's size in a byte, so the call requires every length
/// field that it reads to be below 32.
#[verifier::external_body]
fn read_router_advert_options(icmp: &[u8]) -> (r: Option<Vec<NdpOption>>)
    requires
        icmp@.len() >= 16 ==> ndp_options_fit(icmp@.skip(16)),
    ensures
        opt_options_view(r) == router_advert_options(icmp@),
{
    match RouterAdvertPacket::new(icmp) {
        Some(packet) => Some(
            packet.get_options().into_iter().map(
                |o| NdpOption { option_type: o.option_type.0, length: o.length, data: o.data },
            ).collect(),
        ),
        None => None,
    }
}

/// Whether every option that the option iterator reads from `buf[start..]` has a
/// length field below 32.
fn options_fit_from(buf: &[u8], start: usize) -> (r: bool)
    requires
        start <= buf@.len(),
    ensures
        r == ndp_options_fit(buf@.skip(start as int)),
{
    let n = buf.len();
    let mut pos = start;
    while n - pos >= 2
        invariant
            start <= pos <= n,
            n == buf@.len(),
            ndp_options_fit(buf@.skip(start as int)) == ndp_options_fit(buf@.skip(pos as int)),
        decreases n - pos,
    {
        let length = buf[pos + 1];
        let ghost rest = buf@.skip(pos as int);
        assert(rest[1] == length);
        if length >= 32 {
            return false;
        }
        let want: usize = if length > 0 {
            2 + (length as usize * 8 - 2)
        } else {
            2
        };
        let size = if want < n - pos {
            want
        } else {
            n - pos
        };
        assert(size == ndp_option_size(rest));
        assert(rest.skip(size as int) == buf@.skip(pos + size));
        pos = pos + size;
    }
    true
}

/// Whether the options of the packet's Router Advertisement can be read without
/// overflow (always true for a packet that is no Router Advertisement).
pub fn ra_options_readable(data: &[u8]) -> (r: bool)
    ensures
        r == ra_walkable(data@),
{
    match read_ipv6_payload(data) {
        None => true,
        Some(payload) => {
            let p = payload.as_slice();
            if read_icmpv6_type(p) == Some(ICMPV6_ROUTER_ADVERT) && p.len() >= 16 {
                options_fit_from(p, 16)
            } else {
                true
            }
        },
    }
}

/// The Neighbor Discovery options of the packet's Router Advertisement; `None`
/// when the packet is no IPv6 packet carrying an ICMPv6 Router Advertisement.
pub fn router_advert_options_of(data: &[u8]) -> (r: Option<Vec<NdpOption>>)
    requires
        ra_walkable(data@),
    ensures
        opt_options_view(r) == ra_options(data@),
{
    let payload = match read_ipv6_payload(data) {
        Some(p) => p,
        None => return None,
    };
    let p = payload.as_slice();
    match read_icmpv6_type(p) {
        Some(t) => {
            if t != ICMPV6_ROUTER_ADVERT {
                return None;
            }
        },
        None => return None,
    }
    read_router_advert_options(p)
}

/// The network that one option announces: for a Prefix Information option with at
/// least 30 bytes after its type and length, the prefix length (the first of those
/// bytes) and the address (bytes 14 to 30 of them); none for any other option, or
/// where the prefix length is above 128.
pub open spec fn pio_prefix(o: (u8, u8, Seq<u8>)) -> Seq<Ipv6Prefix> {
    if o.0 == NDP_PREFIX_INFORMATION && o.2.len() >= 30 && o.2[0] <= 128 {
        seq![Ipv6Prefix { addr: be_value(o.2.subrange(14, 30)) as u128, prefix_len: o.2[0] }]
    } else {
        seq![]
    }
}

/// The networks that a list of options announces, in the order of the options.
pub open spec fn pio_prefixes(opts: Seq<(u8, u8, Seq<u8>)>) -> Seq<Ipv6Prefix>
    decreases opts.len(),
{
    if opts.len() == 0 {
        seq![]
    } else {
        pio_prefixes(opts.drop_last()) + pio_prefix(opts.last())
    }
}

/// The networks that the Prefix Information options of a Router Advertisement
/// announce; none for a packet that is no Router Advertisement.
pub open spec fn advertised_prefixes(data: Seq<u8>) -> Seq<Ipv6Prefix> {
    match ra_options(data) {
        Some(opts) => pio_prefixes(opts),
        None => seq![],
    }
}

/// Every network that a list of options announces has a valid prefix length.
pub proof fn lemma_pio_prefixes_wf(opts: Seq<(u8, u8, Seq<u8>)>)
    ensures
        forall|i: int| 0 <= i < pio_prefixes(opts).len() ==> (#[trigger] pio_prefixes(opts)[i]).wf(),
    decreases opts.len(),
{
    if opts.len() > 0 {
        lemma_pio_prefixes_wf(opts.drop_last());
        let a = pio_prefixes(opts.drop_last());
        let b = pio_prefix(opts.last());
        assert forall|i: int| 0 <= i < (a + b).len() implies (#[trigger] (a + b)[i]).wf() by {
            if i < a.len() {
                assert((a + b)[i] == a[i]);
            } else {
                assert((a + b)[i] == b[i - a.len()]);
            }
        }
    }
}

/// The networks that the Prefix Information options of the packet's Router
/// Advertisement announce, in order; empty for any other packet.
pub fn extract_prefixes(data: &[u8]) -> (r: Vec<Ipv6Prefix>)
    requires
        ra_walkable(data@),
    ensures
        r@ == advertised_prefixes(data@),
        forall|i: int| 0 <= i < r@.len() ==> (#[trigger] r@[i]).wf(),
{
    let mut prefixes: Vec<Ipv6Prefix> = Vec::new();
    let opts = match router_advert_options_of(data) {
        Some(o) => o,
        None => return prefixes,
    };
    let ghost ov = options_view(opts@);
    let mut i: usize = 0;
    assert(ov.skip(0) == ov);
    while i < opts.len()
        invariant
            i <= opts@.len(),
            ov == options_view(opts@),
            ra_options(data@) == Some(ov),
            prefixes@ == pio_prefixes(ov.take(i as int)),
        decreases opts.len() - i,
    {
        let op = &opts[i];
        assert(ov.take(i + 1).drop_last() == ov.take(i as int));
        assert(ov.take(i + 1).last() == op@);
        if op.option_type == NDP_PREFIX_INFORMATION && op.data.len() >= 30 {
            let prefix_len = op.data[0];
            let addr = be_u128_at(op.data.as_slice(), 14);
            match Ipv6Prefix::new(addr, prefix_len) {
                Some(net) => prefixes.push(net),
                None => {},
            }
        }
        i = i + 1;
    }
    proof {
        assert(ov.take(opts@.len() as int) == ov);
        lemma_pio_prefixes_wf(ov);
        assert(prefixes@ == pio_prefixes(ov));
        assert forall|k: int| 0 <= k < prefixes@.len() implies (#[trigger] prefixes@[k]).wf() by {
            assert(pio_prefixes(ov)[k].wf());
        }
    }
    prefixes
}

impl NdpOption {
    /// The option's bytes on the wire: type, length, then the option's data.
    /// (The buffer is reserved with the option's length in bytes, computed in a
    /// byte with wrap-around as a release build does; that size is only a hint.)
    pub fn to_bytes(&self) -> (r: Vec<u8>)
        ensures
            r@ == seq![self.option_type, self.length] + self.data@,
    {
        let mut result: Vec<u8> = Vec::with_capacity(self.length.wrapping_mul(8) as usize);
        result.push(self.option_type);
        result.push(self.length);
        let n = self.data.len();
        let mut i: usize = 0;
        while i < n
            invariant
                i <= n,
                n == self.data@.len(),
                result@ == seq![self.option_type, self.length] + self.data@.take(i as int),
            decreases n - i,
        {
            result.push(self.data[i]);
            i = i + 1;
            assert(self.data@.take(i as int) == self.data@.take(i - 1) + seq![self.data@[i - 1]]);
        }
        assert(self.data@.take(n as int) == self.data@);
        result
    }
}

/// Prefix Information option (RFC 4861, section 4.6.2), read from the option's bytes:
/// type, length, prefix length, flags (L and A bits), valid lifetime, preferred
/// lifetime, a reserved word, then the prefix (every byte after the first 16).
#[derive(Debug)]
pub struct PrefixInformation {
    pub option_type: u8,
    pub length: u8,
    pub prefix_length: u8,
    pub flag: u8,
    pub valid_lifetime: u32,
    pub preferred_lifetime: u32,
    pub reserved: u32,
    pub prefix: Vec<u8>,
}

impl PrefixInformation {
    /// Reads the option from its bytes (type and length included); `None` below the
    /// 16 bytes of its fixed part. The lifetimes and the reserved word are big-endian.
    pub fn from_bytes(b: &[u8]) -> (r: Option<PrefixInformation>)
        ensures
            r is None <==> b@.len() < 16,
            r matches Some(p) ==> {
                &&& p.option_type == b@[0]
                &&& p.length == b@[1]
                &&& p.prefix_length == b@[2]
                &&& p.flag == b@[3]
                &&& p.valid_lifetime == be_value(b@.subrange(4, 8))
                &&& p.preferred_lifetime == be_value(b@.subrange(8, 12))
                &&& p.reserved == be_value(b@.subrange(12, 16))
                &&& p.prefix@ == b@.skip(16)
            },
    {
        let n = b.len();
        if n < 16 {
            return None;
        }
        let mut prefix: Vec<u8> = Vec::new();
        let mut i: usize = 16;
        while i < n
            invariant
                16 <= i <= n,
                n == b@.len(),
                prefix@ == b@.subrange(16, i as int),
            decreases n - i,
        {
            prefix.push(b[i]);
            i = i + 1;
            assert(b@.subrange(16, i as int) == b@.subrange(16, i - 1) + seq![b@[i - 1]]);
        }
        Some(PrefixInformation {
            option_type: b[0],
            length: b[1],
            prefix_length: b[2],
            flag: b[3],
            valid_lifetime: be_u32_at(b, 4),
            preferred_lifetime: be_u32_at(b, 8),
            reserved: be_u32_at(b, 12),
            prefix,
        })
    }
}

/// The prefix field of an option read as a Prefix Information option from its
/// bytes: for an option of type 3 whose bytes (type and length included) number at
/// least 16, every byte after the first 16; none for any other option.
pub open spec fn pio_field(o: (u8, u8, Seq<u8>)) -> Option<Seq<u8>> {
    if o.0 == NDP_PREFIX_INFORMATION && o.2.len() + 2 >= 16 {
        Some(o.2.skip(14))
    } else {
        None
    }
}

/// Every option of the list has a length field below 32.
pub open spec fn options_short(opts: Seq<(u8, u8, Seq<u8>)>) -> bool {
    forall|i: int| 0 <= i < opts.len() ==> (#[trigger] opts[i]).1 < 32
}

/// The options that `ndp_options` reads from a buffer whose options fit have
/// length fields below 32.
pub proof fn lemma_fit_options_short(buf: Seq<u8>)
    requires
        ndp_options_fit(buf),
    ensures
        options_short(ndp_options(buf)),
    decreases buf.len(),
{
    if buf.len() >= 2 {
        let size = ndp_option_size(buf);
        lemma_fit_options_short(buf.skip(size));
        let head = seq![(buf[0], buf[1], buf.subrange(2, size))];
        let tail = ndp_options(buf.skip(size));
        assert forall|i: int| 0 <= i < (head + tail).len() implies (#[trigger] (head + tail)[i]).1 < 32 by {
            if i > 0 {
                assert((head + tail)[i] == tail[i - 1]);
            }
        }
    }
}

/// The prefix field of one option: the option is written back to bytes and those
/// bytes are read as a Prefix Information option.
pub fn option_pio_field_of(op: &NdpOption) -> (r: Option<Vec<u8>>)
    requires
        op.length < 32,
    ensures
        match r {
            Some(v) => pio_field(op@) == Some(v@),
            None => pio_field(op@) is None,
        },
{
    if op.option_type != NDP_PREFIX_INFORMATION {
        return None;
    }
    let raw = op.to_bytes();
    match PrefixInformation::from_bytes(raw.as_slice()) {
        Some(pfi) => {
            assert(raw@.skip(16) == op.data@.skip(14));
            Some(pfi.prefix)
        },
        None => None,
    }
}

/// The options of a readable Router Advertisement have length fields below 32.
pub proof fn lemma_ra_options_short(data: Seq<u8>)
    requires
        ra_walkable(data),
    ensures
        ra_options(data) matches Some(opts) ==> options_short(opts),
{
    if let Some(p) = ipv6_payload(data) {
        if icmpv6_type(p) == Some(ICMPV6_ROUTER_ADVERT) && p.len() >= 16 {
            lemma_fit_options_short(p.skip(16));
        }
    }
}

/// Each network of `pio_prefixes(opts)` comes from a Prefix Information option of
/// `opts` (prefix length and address read from that option), and each Prefix
/// Information option with at least 30 bytes of data and a prefix length of at
/// most 128 yields its network.
pub proof fn lemma_pio_prefixes_sources(opts: Seq<(u8, u8, Seq<u8>)>)
    ensures
        forall|k: int| 0 <= k < pio_prefixes(opts).len() ==> exists|i: int| 0 <= i < opts.len()
            && pio_prefix(opts[i]) == seq![#[trigger] pio_prefixes(opts)[k]],
        forall|i: int| 0 <= i < opts.len() && (#[trigger] pio_prefix(opts[i])).len() == 1
            ==> pio_prefixes(opts).contains(pio_prefix(opts[i])[0]),
    decreases opts.len(),
{
    if opts.len() > 0 {
        let init = opts.drop_last();
        lemma_pio_prefixes_sources(init);
        let a = pio_prefixes(init);
        let b = pio_prefix(opts.last());
        assert(pio_prefixes(opts) == a + b);
        assert forall|k: int| 0 <= k < (a + b).len() implies exists|i: int| 0 <= i < opts.len()
            && pio_prefix(opts[i]) == seq![#[trigger] (a + b)[k]] by {
            if k < a.len() {
                assert((a + b)[k] == a[k]);
                let i = choose|i: int| 0 <= i < init.len() && pio_prefix(init[i]) == seq![a[k]];
                assert(opts[i] == init[i]);
            } else {
                assert((a + b)[k] == b[k - a.len()]);
                assert(b =~= seq![b[0]]);
                assert(opts[opts.len() - 1] == opts.last());
            }
        }
        assert forall|i: int| 0 <= i < opts.len() && (#[trigger] pio_prefix(opts[i])).len() == 1
            implies (a + b).contains(pio_prefix(opts[i])[0]) by {
            if i < init.len() {
                assert(opts[i] == init[i]);
                let k = choose|k: int| 0 <= k < a.len() && a[k] == pio_prefix(init[i])[0];
                assert((a + b)[k] == a[k]);
            } else {
                assert(opts[i] == opts.last());
                assert((a + b)[a.len() as int] == b[0]);
            }
        }
    }
}

/// The prefix field that an option's bytes give when read as a Prefix Information
/// option is the option's data after its first 14 bytes, and the prefix length
/// is the first byte of its data: the option's fixed part spans 16 bytes of which
/// type and length are the first two. So for a Prefix Information option with 30
/// bytes of data, the prefix field is the 16-byte address that `pio_prefix` reads.
pub proof fn lemma_option_bytes_layout(option_type: u8, length: u8, data: Seq<u8>)
    requires
        data.len() >= 14,
    ensures
        ({
            let b = seq![option_type, length] + data;
            &&& b.len() >= 16
            &&& b[0] == option_type
            &&& b[1] == length
            &&& b[2] == data[0]
            &&& b.skip(16) == data.skip(14)
        }),
        option_type == NDP_PREFIX_INFORMATION && data.len() == 30
            ==> pio_field((option_type, length, data)) == Some(data.subrange(14, 30)),
{
    let b = seq![option_type, length] + data;
    assert(b.skip(16) =~= data.skip(14));
    assert(data.skip(14) =~= data.subrange(14, 30) || data.len() != 30);
}

/// Every option of the list that has a prefix field (with `exact` set: one of
/// exactly 16 bytes) has one whose lookup by address in `list` gives `want`.
pub open spec fn fields_pass(list: Seq<Ipv6Prefix>, want: bool, exact: bool, opts: Seq<(u8, u8, Seq<u8>)>) -> bool {
    forall|i: int|
        0 <= i < opts.len() ==> (pio_field(#[trigger] opts[i]) matches Some(f) ==> ((!exact || f.len() == 16)
            ==> address_in_list(list, f) == want))
}

/// The address of some network of the list, as 16 bytes in network order, equals
/// the prefix field `field`.
pub open spec fn address_in_list(list: Seq<Ipv6Prefix>, field: Seq<u8>) -> bool {
    exists|i: int| 0 <= i < list.len() && field.len() == 16 && be_value(field) == list[i].addr
}

/// Whether the address of some network of the list, as 16 bytes, equals `field`.
pub fn address_is_in_list(list: &Vec<Ipv6Prefix>, field: &[u8]) -> (r: bool)
    ensures
        r == address_in_list(list@, field@),
{
    if field.len() != 16 {
        return false;
    }
    let value = be_u128_at(field, 0);
    assert(field@.subrange(0, 16) == field@);
    let mut i: usize = 0;
    while i < list.len()
        invariant
            i <= list@.len(),
            field@.len() == 16,
            value == be_value(field@),
            forall|j: int| 0 <= j < i ==> list@[j].addr != value,
        decreases list.len() - i,
    {
        if list[i].addr == value {
            return true;
        }
        i = i + 1;
    }
    false
}

/// Whether every option that has a prefix field (with `exact` set: one of exactly
/// 16 bytes) has one whose lookup by address in `list` gives `want`; each field is
/// read by writing the option back to bytes and reading those as a Prefix
/// Information option.
pub fn all_fields_pass(list: &Vec<Ipv6Prefix>, want: bool, exact: bool, opts: &Vec<NdpOption>) -> (r: bool)
    requires
        options_short(options_view(opts@)),
    ensures
        r == fields_pass(list@, want, exact, options_view(opts@)),
{
    let ghost ov = options_view(opts@);
    let mut i: usize = 0;
    while i < opts.len()
        invariant
            i <= opts@.len(),
            ov == options_view(opts@),
            options_short(ov),
            fields_pass(list@, want, exact, ov.take(i as int)),
        decreases opts.len() - i,
    {
        let op = &opts[i];
        assert(ov[i as int] == op@);
        assert(ov[i as int].1 < 32);
        match option_pio_field_of(op) {
            Some(field) => {
                if !exact || field.len() == 16 {
                    if address_is_in_list(list, field.as_slice()) != want {
                        assert(!fields_pass(list@, want, exact, ov)) by {
                            assert(pio_field(ov[i as int]) == Some(field@));
                        }
                        return false;
                    }
                }
            },
            None => {},
        }
        i = i + 1;
        assert forall|k: int| 0 <= k < ov.take(i as int).len() implies (pio_field(#[trigger] ov.take(i as int)[k]) matches Some(f) ==> ((!exact || f.len() == 16)
            ==> address_in_list(list@, f) == want)) by {
            if k < i - 1 {
                assert(ov.take(i as int)[k] == ov.take(i - 1)[k]);
            }
        }
    }
    assert(ov.take(opts@.len() as int) == ov);
    true
}

/// The network named by an option's data: address from data bytes 14 to 30,
/// prefix length from data byte 0.
pub open spec fn option_network(o: (u8, u8, Seq<u8>)) -> Ipv6Prefix {
    Ipv6Prefix { addr: be_value(o.2.subrange(14, 30)) as u128, prefix_len: o.2[0] }
}

/// The option is of type 3 (Prefix Information) with at least 30 bytes of data and
/// a prefix length of at most 128; its flag byte plays no part.
pub open spec fn announces(o: (u8, u8, Seq<u8>)) -> bool {
    o.0 == 3 && o.2.len() >= 30 && o.2[0] <= 128
}

/// The networks that a packet announces are exactly those of its Router
/// Advertisement's options that `announces` admits, whatever their flag byte: each
/// such option announces its `option_network`, and every announced network comes
/// from such an option. A packet that is no Router Advertisement announces none.
pub proof fn lemma_advertised_prefixes_members(data: Seq<u8>)
    ensures
        ra_options(data) is None ==> advertised_prefixes(data).len() == 0,
        ra_options(data) matches Some(opts) ==> forall|j: int| 0 <= j < opts.len() && #[trigger] announces(opts[j])
            ==> advertised_prefixes(data).contains(option_network(opts[j])),
        ra_options(data) matches Some(opts) ==> forall|k: int|
            #![trigger advertised_prefixes(data)[k]]
            0 <= k < advertised_prefixes(data).len() ==> exists|j: int| 0 <= j < opts.len() && #[trigger] announces(opts[j])
            && advertised_prefixes(data)[k] == option_network(opts[j]),
{
    match ra_options(data) {
        None => {},
        Some(opts) => {
            lemma_pio_prefixes_sources(opts);
            assert forall|j: int| 0 <= j < opts.len() && #[trigger] announces(opts[j])
                implies advertised_prefixes(data).contains(option_network(opts[j])) by {
                assert(pio_prefix(opts[j]).len() == 1);
            }
            assert forall|k: int|
                #![trigger advertised_prefixes(data)[k]]
                0 <= k < advertised_prefixes(data).len() implies exists|j: int| 0 <= j < opts.len() && #[trigger] announces(opts[j])
                && advertised_prefixes(data)[k] == option_network(opts[j]) by {
                let j = choose|j: int| 0 <= j < opts.len() && pio_prefix(opts[j]) == seq![pio_prefixes(opts)[k]];
                assert(pio_prefix(opts[j]).len() == 1);
                assert(pio_prefix(opts[j])[0] == pio_prefixes(opts)[k]);
                assert(announces(opts[j]));
            }
        },
    }
}

/// The networks that a Router Advertisement announces, in order: one for each of
/// its options that `announces` admits, in the order of the options, and nothing
/// for any other option.
pub proof fn lemma_advertised_prefixes_in_order(data: Seq<u8>)
    ensures
        ra_options(data) matches Some(opts) ==> advertised_prefixes(data) == opts.filter(
            |o: (u8, u8, Seq<u8>)| announces(o),
        ).map_values(|o: (u8, u8, Seq<u8>)| option_network(o)),
{
    if let Some(opts) = ra_options(data) {
        lemma_pio_prefixes_filter(opts);
    }
}

/// `pio_prefixes` is the option-order list of the networks of the announcing options.
proof fn lemma_pio_prefixes_filter(opts: Seq<(u8, u8, Seq<u8>)>)
    ensures
        pio_prefixes(opts) == opts.filter(|o: (u8, u8, Seq<u8>)| announces(o)).map_values(
            |o: (u8, u8, Seq<u8>)| option_network(o),
        ),
    decreases opts.len(),
{
    let f = |o: (u8, u8, Seq<u8>)| announces(o);
    let g = |o: (u8, u8, Seq<u8>)| option_network(o);
    reveal(Seq::filter);
    if opts.len() == 0 {
        assert(opts.filter(f) =~= opts);
        assert(opts.filter(f).map_values(g) =~= Seq::<Ipv6Prefix>::empty());
    } else {
        lemma_pio_prefixes_filter(opts.drop_last());
        let sub = opts.drop_last().filter(f);
        assert(opts.filter(f) == (if f(opts.last()) { sub.push(opts.last()) } else { sub }));
        if f(opts.last()) {
            assert(sub.push(opts.last()).map_values(g) =~= sub.map_values(g) + seq![g(opts.last())]);
        } else {
            assert(pio_prefix(opts.last()) =~= Seq::<Ipv6Prefix>::empty());
            assert(sub.map_values(g) + Seq::<Ipv6Prefix>::empty() =~= sub.map_values(g));
        }
    }
}

} // verus!
