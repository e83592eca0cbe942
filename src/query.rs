//! DNS query names for origin and AS-information lookups.

use vstd::prelude::*;
use vstd::string::*;

verus! {

/// An IP address, as its octets in network order.
#[derive(Clone, Copy, Debug, PartialEq, Eq, PartialOrd, Ord, Hash)]
pub enum IpAddress {
    V4([u8; 4]),
    V6([u8; 16]),
}

/// The lower-case hexadecimal digit of `d` (which is below 16).
pub open spec fn hex_char(d: nat) -> char {
    seq!['0', '1', '2', '3', '4', '5', '6', '7', '8', '9', 'a', 'b', 'c', 'd', 'e', 'f'][d as int]
}

/// `n` written in decimal, without leading zeros.
pub open spec fn decimal(n: nat) -> Seq<char>
    decreases n,
{
    if n < 10 {
        seq![hex_char(n)]
    } else {
        decimal(n / 10).push(hex_char(n % 10))
    }
}

/// Nibble `k` of the address `o`, counting from the least significant one.
pub open spec fn nibble(o: Seq<u8>, k: int) -> nat {
    let b = o[15 - k / 2];
    if k % 2 == 0 {
        (b % 16) as nat
    } else {
        (b / 16) as nat
    }
}

/// The 32 nibbles of an IPv6 address, least significant first, separated by dots.
pub open spec fn nibbles(o: Seq<u8>) -> Seq<char> {
    Seq::new(63, |i: int| if i % 2 == 1 { '.' } else { hex_char(nibble(o, i / 2)) })
}

/// The name under which the service publishes the origin of `ip`.
pub open spec fn origin_query(ip: IpAddress) -> Seq<char> {
    match ip {
        IpAddress::V4(o) => decimal(o@[3] as nat) + seq!['.'] + decimal(o@[2] as nat) + seq!['.']
            + decimal(o@[1] as nat) + seq!['.'] + decimal(o@[0] as nat)
            + ".origin.asn.cymru.com."@,
        IpAddress::V6(o) => nibbles(o@) + ".origin6.asn.cymru.com."@,
    }
}

/// The name under which the service publishes what it knows of AS `asn`.
pub open spec fn asn_query(asn: u32) -> Seq<char> {
    "AS"@ + decimal(asn as nat) + ".asn.cymru.com."@
}

fn digit_str(d: u8) -> (r: &'static str)
    requires
        d < 16,
    ensures
        r@ == seq![hex_char(d as nat)],
{
    proof {
        reveal_strlit("0");
        reveal_strlit("1");
        reveal_strlit("2");
        reveal_strlit("3");
        reveal_strlit("4");
        reveal_strlit("5");
        reveal_strlit("6");
        reveal_strlit("7");
        reveal_strlit("8");
        reveal_strlit("9");
        reveal_strlit("a");
        reveal_strlit("b");
        reveal_strlit("c");
        reveal_strlit("d");
        reveal_strlit("e");
        reveal_strlit("f");
    }
    let r = match d {
        0 => "0",
        1 => "1",
        2 => "2",
        3 => "3",
        4 => "4",
        5 => "5",
        6 => "6",
        7 => "7",
        8 => "8",
        9 => "9",
        10 => "a",
        11 => "b",
        12 => "c",
        13 => "d",
        14 => "e",
        _ => "f",
    };
    assert(r@ =~= seq![hex_char(d as nat)]);
    r
}

fn push_decimal(s: &mut String, n: u32)
    ensures
        final(s)@ == old(s)@ + decimal(n as nat),
    decreases n,
{
    let ghost start = s@;
    if n >= 10 {
        push_decimal(s, n / 10);
    }
    s.append(digit_str((n % 10) as u8));
    proof {
        if n >= 10 {
            assert(start + decimal((n / 10) as nat) + seq![hex_char((n % 10) as nat)] =~= start + decimal(
                n as nat,
            ));
        } else {
            assert(start + seq![hex_char((n % 10) as nat)] =~= start + decimal(n as nat));
        }
    }
}

/// The nibbles of an IPv6 address, least significant first, joined by dots.
pub fn ipv6_nibbles(octets: [u8; 16]) -> (r: String)
    ensures
        r@ == nibbles(octets@),
{
    let ghost full = nibbles(octets@);
    let mut r = String::new();
    let mut k: usize = 0;
    assert(r@ =~= full.take(0));
    while k < 32
        invariant
            k <= 32,
            full == nibbles(octets@),
            r@ == full.take(if k == 0 { 0 } else { 2 * k - 1 }),
        decreases 32 - k,
    {
        let ghost before = r@;
        proof {
            reveal_strlit(".");
        }
        if k > 0 {
            r.append(".");
        }
        let b = octets[15 - k / 2];
        let v: u8 = if k % 2 == 0 {
            b % 16
        } else {
            b / 16
        };
        assert(v as nat == nibble(octets@, k as int));
        r.append(digit_str(v));
        assert((2 * k as int) / 2 == k && (2 * k as int) % 2 == 0);
        assert(full[2 * k as int] == hex_char(v as nat));
        if k > 0 {
            assert((2 * k as int - 1) % 2 == 1);
            assert(full[2 * k as int - 1] == '.');
            assert(r@ =~= before + seq!['.'] + seq![hex_char(v as nat)]);
        } else {
            assert(r@ =~= before + seq![hex_char(v as nat)]);
        }
        assert(r@ =~= full.take(2 * k + 1));
        k += 1;
    }
    assert(full.take(63) =~= full);
    r
}

/// The DNS name to ask for the origin of `ip`.
pub fn origin_query_name(ip: IpAddress) -> (r: String)
    ensures
        r@ == origin_query(ip),
{
    proof {
        reveal_strlit(".");
    }
    match ip {
        IpAddress::V4(o) => {
            let mut r = String::new();
            push_decimal(&mut r, o[3] as u32);
            r.append(".");
            push_decimal(&mut r, o[2] as u32);
            r.append(".");
            push_decimal(&mut r, o[1] as u32);
            r.append(".");
            push_decimal(&mut r, o[0] as u32);
            r.append(".origin.asn.cymru.com.");
            assert(r@ =~= origin_query(ip));
            r
        },
        IpAddress::V6(o) => {
            let r = ipv6_nibbles(o);
            let r = r.concat(".origin6.asn.cymru.com.");
            r
        },
    }
}

/// The DNS name to ask for what the service knows of AS `asn`.
pub fn asn_query_name(asn: u32) -> (r: String)
    ensures
        r@ == asn_query(asn),
{
    let mut r = String::from_str("AS");
    push_decimal(&mut r, asn);
    r.append(".asn.cymru.com.");
    r
}

} // verus!
