//! Network addresses as plain values, and the dotted-decimal text of IPv4.

use hickory_proto::rr::rdata::AAAA;
use std::str::FromStr;
use vstd::prelude::*;
use vstd::string::*;

verus! {

/// An IPv4 address: four octets, most significant first.
#[derive(Clone, Copy, Debug, PartialEq, Eq)]
pub struct Ipv4Address {
    pub octets: [u8; 4],
}

/// Whether `c` is one of the ten ASCII decimal digits.
pub open spec fn is_digit(c: char) -> bool {
    '0' <= c <= '9'
}

/// The number that the digit `c` stands for.
pub open spec fn digit_value(c: char) -> nat {
    (c as int - '0' as int) as nat
}

/// The digit that stands for `d`, for `d` below ten.
pub open spec fn digit_char(d: nat) -> char {
    (d + '0' as int) as char
}

/// The decimal numeral of `n`: most significant digit first, no leading zero.
pub open spec fn decimal(n: nat) -> Seq<char>
    decreases n,
{
    if n < 10 {
        seq![digit_char(n)]
    } else {
        decimal(n / 10).push(digit_char(n % 10))
    }
}

/// The dotted-decimal text of four octets, as in `192.0.2.1`.
pub open spec fn dotted_decimal(octets: Seq<u8>) -> Seq<char> {
    decimal(octets[0] as nat) + seq!['.'] + decimal(octets[1] as nat) + seq!['.'] + decimal(
        octets[2] as nat,
    ) + seq!['.'] + decimal(octets[3] as nat)
}

/// The dotted-decimal text of an address.
pub open spec fn ipv4_text(a: Ipv4Address) -> Seq<char> {
    dotted_decimal(a.octets@)
}

/// The octets of the address whose dotted-decimal text is `text`, if there
/// is one.
pub open spec fn ipv4_of_text(text: Seq<char>) -> Option<Seq<u8>> {
    if exists|a: Ipv4Address| ipv4_text(a) == text {
        Some((choose|a: Ipv4Address| ipv4_text(a) == text).octets@)
    } else {
        None
    }
}

/// The number that a run of digits denotes, read most significant digit first.
pub open spec fn numeral_value(s: Seq<char>) -> nat
    decreases s.len(),
{
    if s.len() == 0 {
        0
    } else {
        numeral_value(s.drop_last()) * 10 + digit_value(s.last())
    }
}

/// Every character of a decimal numeral is a digit, and only a single-digit
/// numeral may start with `0`.
pub proof fn lemma_decimal_shape(n: nat)
    ensures
        decimal(n).len() >= 1,
        forall|i: int| 0 <= i < decimal(n).len() ==> is_digit(#[trigger] decimal(n)[i]),
        n < 10 <==> decimal(n).len() == 1,
        n < 100 ==> decimal(n).len() <= 2,
        n < 1000 ==> decimal(n).len() <= 3,
        n >= 10 ==> decimal(n)[0] != '0',
    decreases n,
{
    if n >= 10 {
        lemma_decimal_shape(n / 10);
    }
}

/// Reading a decimal numeral gives back the number it was written for.
pub proof fn lemma_decimal_value(n: nat)
    ensures
        numeral_value(decimal(n)) == n,
    decreases n,
{
    if n < 10 {
        assert(decimal(n).drop_last() =~= Seq::<char>::empty());
        assert(numeral_value(Seq::<char>::empty()) == 0);
    } else {
        lemma_decimal_value(n / 10);
        assert(decimal(n).drop_last() =~= decimal(n / 10));
    }
}

/// A run of digits that does not start with `0`, unless it is a single digit,
/// is the decimal numeral of the number it denotes.
pub proof fn lemma_numeral_canonical(s: Seq<char>)
    requires
        s.len() >= 1,
        forall|i: int| 0 <= i < s.len() ==> is_digit(#[trigger] s[i]),
        s.len() > 1 ==> s[0] != '0',
    ensures
        decimal(numeral_value(s)) == s,
        s.len() > 1 ==> numeral_value(s) >= 10,
    decreases s.len(),
{
    let t = s.drop_last();
    if s.len() == 1 {
        assert(t =~= Seq::<char>::empty());
        assert(numeral_value(t) == 0);
        assert(decimal(numeral_value(s)) =~= s);
    } else {
        assert(t[0] == s[0]);
        lemma_numeral_canonical(t);
        if t.len() == 1 {
            assert(t.drop_last() =~= Seq::<char>::empty());
            assert(numeral_value(t.drop_last()) == 0);
        }
        let v = numeral_value(s);
        assert(v / 10 == numeral_value(t));
        assert(v % 10 == digit_value(s.last()));
        assert(decimal(v) =~= s);
    }
}

/// Two numerals that start at the same place of a text and both end where
/// the digits end are the same numeral.
proof fn lemma_octet_unique(t: Seq<char>, start: int, v1: nat, end1: int, v2: nat, end2: int)
    requires
        0 <= start <= end1 <= t.len(),
        start <= end2 <= t.len(),
        t.subrange(start, end1) == decimal(v1),
        t.subrange(start, end2) == decimal(v2),
        end1 == t.len() || !is_digit(t[end1]),
        end2 == t.len() || !is_digit(t[end2]),
    ensures
        v1 == v2,
        end1 == end2,
{
    lemma_decimal_shape(v1);
    lemma_decimal_shape(v2);
    if end1 < end2 {
        assert(t.subrange(start, end2)[end1 - start] == t[end1]);
    }
    if end2 < end1 {
        assert(t.subrange(start, end1)[end2 - start] == t[end2]);
    }
    lemma_decimal_value(v1);
    lemma_decimal_value(v2);
}

/// The bytes `b` spell the ASCII text `t`, one byte for each character.
spec fn spells(b: Seq<u8>, t: Seq<char>) -> bool {
    &&& b.len() == t.len()
    &&& forall|i: int|
        #![trigger b[i]]
        #![trigger t[i]]
        0 <= i < t.len() ==> t[i] as int == b[i] as int
}

/// Reads one octet at `start`: the longest run of digits there, if it is the
/// decimal numeral of a number below 256. Returns the number and where the
/// run ends.
fn parse_octet(b: &[u8], start: usize, Ghost(t): Ghost<Seq<char>>) -> (r: Option<(u8, usize)>)
    requires
        spells(b@, t),
        start <= b.len(),
    ensures
        match r {
            Some((v, end)) => {
                &&& start < end <= b.len()
                &&& t.subrange(start as int, end as int) == decimal(v as nat)
                &&& (end == b.len() || !is_digit(t[end as int]))
            },
            None => forall|v: u8, end: int|
                #![trigger t.subrange(start as int, end), decimal(v as nat)]
                start <= end <= t.len() && t.subrange(start as int, end) == decimal(v as nat) ==> end
                    < t.len() && is_digit(t[end]),
        },
{
    let mut end: usize = start;
    let mut value: u32 = 0;
    while end < b.len() && 48 <= b[end] && b[end] <= 57
        invariant
            spells(b@, t),
            start <= end <= b.len(),
            end - start <= 3,
            forall|i: int| start <= i < end ==> is_digit(#[trigger] t[i]),
            value == numeral_value(t.subrange(start as int, end as int)),
            end - start == 0 ==> value == 0,
            end - start == 1 ==> value < 10,
            end - start == 2 ==> value < 100,
            value < 1000,
        decreases b.len() - end,
    {
        assert(is_digit(t[end as int]));
        if end - start == 3 {
            assert forall|v: u8, e: int|
                #![trigger t.subrange(start as int, e), decimal(v as nat)]
                start <= e <= t.len() && t.subrange(start as int, e) == decimal(v as nat) implies e
                < t.len() && is_digit(t[e]) by {
                lemma_decimal_shape(v as nat);
            }
            return None;
        }
        proof {
            let next = t.subrange(start as int, end + 1);
            assert(next.drop_last() =~= t.subrange(start as int, end as int));
            assert(next.last() == t[end as int]);
        }
        value = value * 10 + (b[end] - 48) as u32;
        end = end + 1;
    }
    let ghost run = t.subrange(start as int, end as int);
    if end == start {
        assert forall|v: u8, e: int|
            #![trigger t.subrange(start as int, e), decimal(v as nat)]
            start <= e <= t.len() && t.subrange(start as int, e) == decimal(v as nat) implies e
            < t.len() && is_digit(t[e]) by {
            lemma_decimal_shape(v as nat);
            assert(t.subrange(start as int, e)[0] == t[start as int]);
        }
        return None;
    }
    if (end - start > 1 && b[start] == 48) || value > 255 {
        assert forall|v: u8, e: int|
            #![trigger t.subrange(start as int, e), decimal(v as nat)]
            start <= e <= t.len() && t.subrange(start as int, e) == decimal(v as nat) implies e
            < t.len() && is_digit(t[e]) by {
            if !(e < t.len() && is_digit(t[e])) {
                lemma_decimal_shape(v as nat);
                lemma_decimal_value(v as nat);
                if e < end {
                    assert(is_digit(t[e]));
                }
                if end < e {
                    assert(t.subrange(start as int, e)[end - start] == t[end as int]);
                }
                assert(run == decimal(v as nat));
                assert(run[0] == t[start as int]);
            }
        }
        return None;
    }
    proof {
        assert(run[0] == t[start as int]);
        assert forall|i: int| 0 <= i < run.len() implies is_digit(#[trigger] run[i]) by {
            assert(run[i] == t[start + i]);
        }
        lemma_numeral_canonical(run);
    }
    Some((value as u8, end))
}

/// Where the numeral of octet `k` ends in the text of `a`; the numeral of
/// octet `k` starts one past the end of the one before it.
spec fn numeral_end(a: Ipv4Address, k: int) -> int
    decreases k + 1,
{
    if k < 0 {
        -1
    } else {
        numeral_end(a, k - 1) + 1 + decimal(a.octets[k] as nat).len()
    }
}

/// In the text of `a`, octet `k` stands as its numeral between the dots.
proof fn lemma_numeral_place(a: Ipv4Address, k: int)
    requires
        0 <= k < 4,
    ensures
        ({
            let t = ipv4_text(a);
            let s = numeral_end(a, k - 1) + 1;
            let e = numeral_end(a, k);
            &&& 0 <= s < e <= t.len()
            &&& t.subrange(s, e) == decimal(a.octets[k] as nat)
            &&& k < 3 ==> e < t.len() && t[e] == '.'
            &&& k == 3 ==> e == t.len()
        }),
{
    reveal_with_fuel(numeral_end, 5);
    lemma_decimal_shape(a.octets[0] as nat);
    lemma_decimal_shape(a.octets[1] as nat);
    lemma_decimal_shape(a.octets[2] as nat);
    lemma_decimal_shape(a.octets[3] as nat);
    let t = ipv4_text(a);
    let s = numeral_end(a, k - 1) + 1;
    let e = numeral_end(a, k);
    assert(t.subrange(s, e) =~= decimal(a.octets[k] as nat));
}

/// The text of an address holds ASCII characters only.
proof fn lemma_ipv4_text_ascii(a: Ipv4Address)
    ensures
        vstd::utf8::is_ascii_chars(ipv4_text(a)),
{
    lemma_decimal_shape(a.octets[0] as nat);
    lemma_decimal_shape(a.octets[1] as nat);
    lemma_decimal_shape(a.octets[2] as nat);
    lemma_decimal_shape(a.octets[3] as nat);
}

/// What a parsed numeral says of every address whose text is `t`: if the
/// numerals before octet `k` end at `pos - 1`, then octet `k` is `v` and its
/// numeral ends at `end`.
proof fn lemma_numeral_found(t: Seq<char>, a: Ipv4Address, k: int, pos: int, v: u8, end: int)
    requires
        0 <= k < 4,
        ipv4_text(a) == t,
        numeral_end(a, k - 1) + 1 == pos,
        pos <= end <= t.len(),
        t.subrange(pos, end) == decimal(v as nat),
        end == t.len() || !is_digit(t[end]),
    ensures
        a.octets[k] == v,
        numeral_end(a, k) == end,
{
    lemma_numeral_place(a, k);
    lemma_octet_unique(t, pos, v as nat, end, a.octets[k] as nat, numeral_end(a, k));
}

/// Parses dotted-decimal text: four decimal numerals below 256, without
/// leading zeros, separated by single dots, and nothing else.
///
/// Returns the address whose text is `text`, and `None` exactly when there is
/// no such address.
pub fn parse_ipv4(text: &str) -> (r: Option<Ipv4Address>)
    ensures
        match r {
            Some(a) => ipv4_text(a) == text@ && ipv4_of_text(text@) == Some(a.octets@),
            None => ipv4_of_text(text@) is None && forall|a: Ipv4Address| ipv4_text(a) != text@,
        },
{
    let ghost t = text@;
    if !text.is_ascii() {
        assert forall|a: Ipv4Address| ipv4_text(a) != t by {
            lemma_ipv4_text_ascii(a);
        }
        return None;
    }
    let b = text.as_bytes();
    proof {
        vstd::utf8::is_ascii_chars_encode_utf8(t);
        assert(spells(b@, t));
    }
    let (v0, e0) = match parse_octet(b, 0, Ghost(t)) {
        Some(found) => found,
        None => {
            assert forall|a: Ipv4Address| ipv4_text(a) != t by {
                lemma_numeral_place(a, 0);
            }
            return None;
        },
    };
    assert forall|a: Ipv4Address| ipv4_text(a) == t implies a.octets[0] == v0 && numeral_end(a, 0)
        == e0 by {
        lemma_numeral_found(t, a, 0, 0, v0, e0 as int);
    }
    if e0 >= b.len() || b[e0] != 46 {
        assert forall|a: Ipv4Address| ipv4_text(a) != t by {
            lemma_numeral_place(a, 0);
        }
        return None;
    }
    let (v1, e1) = match parse_octet(b, e0 + 1, Ghost(t)) {
        Some(found) => found,
        None => {
            assert forall|a: Ipv4Address| ipv4_text(a) != t by {
                lemma_numeral_place(a, 1);
            }
            return None;
        },
    };
    assert forall|a: Ipv4Address| ipv4_text(a) == t implies a.octets[1] == v1 && numeral_end(a, 1)
        == e1 by {
        lemma_numeral_found(t, a, 1, e0 + 1, v1, e1 as int);
    }
    if e1 >= b.len() || b[e1] != 46 {
        assert forall|a: Ipv4Address| ipv4_text(a) != t by {
            lemma_numeral_place(a, 1);
        }
        return None;
    }
    let (v2, e2) = match parse_octet(b, e1 + 1, Ghost(t)) {
        Some(found) => found,
        None => {
            assert forall|a: Ipv4Address| ipv4_text(a) != t by {
                lemma_numeral_place(a, 2);
            }
            return None;
        },
    };
    assert forall|a: Ipv4Address| ipv4_text(a) == t implies a.octets[2] == v2 && numeral_end(a, 2)
        == e2 by {
        lemma_numeral_found(t, a, 2, e1 + 1, v2, e2 as int);
    }
    if e2 >= b.len() || b[e2] != 46 {
        assert forall|a: Ipv4Address| ipv4_text(a) != t by {
            lemma_numeral_place(a, 2);
        }
        return None;
    }
    let (v3, e3) = match parse_octet(b, e2 + 1, Ghost(t)) {
        Some(found) => found,
        None => {
            assert forall|a: Ipv4Address| ipv4_text(a) != t by {
                lemma_numeral_place(a, 3);
            }
            return None;
        },
    };
    if e3 != b.len() {
        assert forall|a: Ipv4Address| ipv4_text(a) != t by {
            if ipv4_text(a) == t {
                lemma_numeral_found(t, a, 3, e2 + 1, v3, e3 as int);
                lemma_numeral_place(a, 3);
            }
        }
        return None;
    }
    let address = Ipv4Address { octets: [v0, v1, v2, v3] };
    proof {
        assert(t.subrange(e0 as int, e0 + 1) =~= seq!['.']);
        assert(t.subrange(e1 as int, e1 + 1) =~= seq!['.']);
        assert(t.subrange(e2 as int, e2 + 1) =~= seq!['.']);
        assert(t =~= t.subrange(0, e0 as int) + t.subrange(e0 as int, e0 + 1) + t.subrange(
            e0 + 1,
            e1 as int,
        ) + t.subrange(e1 as int, e1 + 1) + t.subrange(e1 + 1, e2 as int) + t.subrange(
            e2 as int,
            e2 + 1,
        ) + t.subrange(e2 + 1, e3 as int));
        assert(ipv4_text(address) == t);
        let chosen = choose|a: Ipv4Address| ipv4_text(a) == t;
        lemma_numeral_found(t, chosen, 3, e2 + 1, v3, e3 as int);
        assert(chosen.octets@ =~= address.octets@);
    }
    Some(address)
}

/// Two addresses with the same text have the same octets.
pub proof fn lemma_ipv4_text_injective(a: Ipv4Address, b: Ipv4Address)
    requires
        ipv4_text(a) == ipv4_text(b),
    ensures
        a.octets@ == b.octets@,
{
    let t = ipv4_text(a);
    lemma_numeral_place(b, 0);
    lemma_numeral_found(t, a, 0, 0, b.octets[0], numeral_end(b, 0));
    lemma_numeral_place(b, 1);
    lemma_numeral_found(t, a, 1, numeral_end(b, 0) + 1, b.octets[1], numeral_end(b, 1));
    lemma_numeral_place(b, 2);
    lemma_numeral_found(t, a, 2, numeral_end(b, 1) + 1, b.octets[2], numeral_end(b, 2));
    lemma_numeral_place(b, 3);
    lemma_numeral_found(t, a, 3, numeral_end(b, 2) + 1, b.octets[3], numeral_end(b, 3));
    assert(a.octets@ =~= b.octets@);
}

/// The text of every address is dotted decimal, and denotes that address.
pub proof fn lemma_ipv4_text_parses(a: Ipv4Address)
    ensures
        ipv4_of_text(ipv4_text(a)) == Some(a.octets@),
{
    let chosen = choose|b: Ipv4Address| ipv4_text(b) == ipv4_text(a);
    lemma_ipv4_text_injective(chosen, a);
}

/// Appends the digit for `d` to `out`.
fn push_digit(out: &mut String, d: u8)
    requires
        d < 10,
    ensures
        final(out)@ == old(out)@.push(digit_char(d as nat)),
{
    proof {
        reveal_strlit("0");
        reveal_strlit("1");
        reveal_strlit("2");
        reveal_strlit("3");
        reveal_strlit("4");
        reveal_strlit("5");
        reveal_strlit("6");
        reveal_strlit("7");
        reveal_strlit("8");
        reveal_strlit("9");
    }
    let digit = match d {
        0 => "0",
        1 => "1",
        2 => "2",
        3 => "3",
        4 => "4",
        5 => "5",
        6 => "6",
        7 => "7",
        8 => "8",
        _ => "9",
    };
    assert(digit@ =~= seq![digit_char(d as nat)]);
    out.append(digit);
    assert(out@ =~= old(out)@.push(digit_char(d as nat)));
}

/// Appends the decimal numeral of `v` to `out`.
fn push_decimal(out: &mut String, v: u8)
    ensures
        final(out)@ == old(out)@ + decimal(v as nat),
{
    proof {
        reveal_with_fuel(decimal, 3);
    }
    if v >= 100 {
        push_digit(out, v / 100);
    }
    if v >= 10 {
        push_digit(out, (v / 10) % 10);
    }
    push_digit(out, v % 10);
    assert(out@ =~= old(out)@ + decimal(v as nat));
}

impl Ipv4Address {
    /// The dotted-decimal text of this address.
    pub fn to_text(&self) -> (text: String)
        ensures
            text@ == ipv4_text(*self),
    {
        proof {
            reveal_strlit(".");
        }
        let mut text = String::new();
        push_decimal(&mut text, self.octets[0]);
        text.append(".");
        push_decimal(&mut text, self.octets[1]);
        text.append(".");
        push_decimal(&mut text, self.octets[2]);
        text.append(".");
        push_decimal(&mut text, self.octets[3]);
        assert(text@ =~= ipv4_text(*self));
        text
    }
}

/// An IPv6 address: eight 16-bit segments, most significant first.
#[derive(Clone, Copy, Debug, PartialEq, Eq)]
pub struct Ipv6Address {
    pub segments: [u16; 8],
}

/// The segments of the address that `text` denotes, if it denotes one.
///
/// IPv6 text has many forms (zero compression, an embedded IPv4 tail); which
/// texts are addresses is left to the parser behind `parse_ipv6`.
pub uninterp spec fn ipv6_of_text(text: Seq<char>) -> Option<Seq<u16>>;

/// The text that the formatter behind `format_ipv6` writes for an address.
pub uninterp spec fn ipv6_text(segments: Seq<u16>) -> Seq<char>;

/// Calls `hickory_proto::rr::rdata::AAAA::from_str`, which hands the text to
/// the standard library's IPv6 address parser.
///
/// Trusted: the outcome depends on the text alone. Nothing is claimed of
/// which texts parse; `ipv6_of_text` names the outcome.
#[verifier::external_body]
pub(crate) fn parse_ipv6(text: &str) -> (r: Option<Ipv6Address>)
    ensures
        r matches Some(a) ==> ipv6_of_text(text@) == Some(a.segments@),
        r is None ==> ipv6_of_text(text@) is None,
{
    match AAAA::from_str(text) {
        Ok(parsed) => Some(Ipv6Address { segments: parsed.segments() }),
        Err(_) => None,
    }
}

/// Calls `to_string` on a `hickory_proto::rr::rdata::AAAA`, which writes the
/// address as the standard library displays it.
///
/// Trusted: the text depends on the segments alone; `ipv6_text` names it.
#[verifier::external_body]
pub(crate) fn format_ipv6(a: &Ipv6Address) -> (text: String)
    ensures
        text@ == ipv6_text(a.segments@),
{
    let s = a.segments;
    AAAA::new(s[0], s[1], s[2], s[3], s[4], s[5], s[6], s[7]).to_string()
}

/// An address of either family.
#[derive(Clone, Copy, Debug, PartialEq, Eq)]
pub enum IpAddress {
    V4(Ipv4Address),
    V6(Ipv6Address),
}

/// Where a datagram is sent or received: an address and a port.
#[derive(Clone, Copy, Debug, PartialEq, Eq)]
pub struct SocketAddress {
    pub ip: IpAddress,
    pub port: u16,
}

} // verus!
