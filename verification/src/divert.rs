//! The filter text that selects, on the packet-diversion path, the Router
//! Advertisements to inspect.
use vstd::prelude::*;
use vstd::string::StringSliceAdditionalSpecFns;

use crate::NetworkInterface;

verus! {

/// The decimal digits of `n` as ASCII bytes, most significant first.
pub open spec fn decimal(n: nat) -> Seq<u8>
    decreases n,
{
    if n < 10 {
        seq![(48 + n) as u8]
    } else {
        decimal(n / 10) + seq![(48 + n % 10) as u8]
    }
}

/// The filter text: inbound, not loopback, ICMPv6 type 134; with an interface,
/// restricted to that interface's index.
pub open spec fn divert_filter_spec(ifidx: Option<u32>) -> Seq<u8> {
    match ifidx {
        Some(i) => "inbound and !loopback and ifidx==".spec_bytes() + decimal(i as nat)
            + " and icmpv6.Type==134".spec_bytes(),
        None => "inbound and !loopback and icmpv6.Type==134".spec_bytes(),
    }
}

/// Appends the decimal digits of `n`.
fn push_decimal(out: &mut Vec<u8>, n: u32)
    ensures
        final(out)@ == old(out)@ + decimal(n as nat),
    decreases n,
{
    if n >= 10 {
        push_decimal(out, n / 10);
    }
    let digit: u8 = (48 + n % 10) as u8;
    out.push(digit);
    proof {
        if n < 10 {
            assert(n % 10 == n);
        }
        assert(out@ =~= old(out)@ + decimal(n as nat));
    }
}

/// Appends the bytes of `s`.
fn push_text(out: &mut Vec<u8>, s: &str)
    ensures
        final(out)@ == old(out)@ + s.spec_bytes(),
{
    let b = s.as_bytes();
    let ghost start = out@;
    let mut i: usize = 0;
    while i < b.len()
        invariant
            i <= b@.len(),
            b@ == s.spec_bytes(),
            out@ == start + b@.take(i as int),
        decreases b.len() - i,
    {
        out.push(b[i]);
        i = i + 1;
        assert(out@ =~= start + b@.take(i as int));
    }
    assert(b@.take(b@.len() as int) == b@);
}

/// The filter text for the interface the filter is bound to, if any (see
/// `divert_filter_spec`).
pub fn divert_filter(interface: &Option<NetworkInterface>) -> (r: Vec<u8>)
    ensures
        r@ == divert_filter_spec(
            match interface {
                Some(i) => Some(i.index),
                None => None,
            },
        ),
{
    let mut r: Vec<u8> = Vec::new();
    match interface {
        Some(i) => {
            push_text(&mut r, "inbound and !loopback and ifidx==");
            push_decimal(&mut r, i.index);
            push_text(&mut r, " and icmpv6.Type==134");
        },
        None => {
            push_text(&mut r, "inbound and !loopback and icmpv6.Type==134");
        },
    }
    r
}

/// The number that a string of ASCII decimal digits spells, most significant first.
pub open spec fn digits_value(s: Seq<u8>) -> int
    decreases s.len(),
{
    if s.len() == 0 {
        0
    } else {
        digits_value(s.drop_last()) * 10 + (s.last() - 48)
    }
}

/// The digits of `n` are ASCII decimal digits that spell `n`, with no leading zero.
pub proof fn lemma_decimal_spells(n: nat)
    ensures
        decimal(n).len() >= 1,
        forall|i: int| 0 <= i < decimal(n).len() ==> 48 <= #[trigger] decimal(n)[i] <= 57,
        digits_value(decimal(n)) == n,
        decimal(n).len() == 1 || decimal(n)[0] != 48,
    decreases n,
{
    if n >= 10 {
        lemma_decimal_spells(n / 10);
        let d = decimal(n / 10);
        let s = decimal(n);
        assert(s == d + seq![(48 + n % 10) as u8]);
        assert(s.drop_last() =~= d);
        assert forall|i: int| 0 <= i < s.len() implies 48 <= #[trigger] s[i] <= 57 by {
            if i < d.len() {
                assert(s[i] == d[i]);
            }
        }
        assert(s[0] == d[0]);
        let r = n % 10;
        assert(0 <= r < 10);
        assert(n == (n / 10) * 10 + r);
        assert(s.last() == 48 + r);
        assert(digits_value(s) == digits_value(d) * 10 + r);
        if d.len() == 1 {
            assert(d.drop_last() =~= Seq::<u8>::empty());
            assert(digits_value(Seq::<u8>::empty()) == 0);
            assert(d.last() == d[0]);
            assert(digits_value(d) == d[0] - 48);
            assert(d[0] != 48);
        }
    } else {
        let s = decimal(n);
        assert(s.drop_last() =~= Seq::<u8>::empty());
        assert(digits_value(Seq::<u8>::empty()) == 0);
        assert(s.last() == 48 + n);
    }
}

} // verus!
