//! IPv4 addresses and their text.

use vstd::prelude::*;
use vstd::string::*;

use crate::number;
use crate::number::decimal;
use crate::text;
use crate::text::{CharSet, chars_of, split};

verus! {

/// An IPv4 address, most significant octet first.
#[derive(Debug, Clone, Copy, PartialEq, Eq, Structural)]
pub struct Ipv4Addr {
    pub a: u8,
    pub b: u8,
    pub c: u8,
    pub d: u8,
}

/// An address that a datagram came from.
#[derive(Debug, Clone, Copy, PartialEq, Eq, Structural)]
pub enum IpAddr {
    V4(Ipv4Addr),
    V6,
}

impl Ipv4Addr {
    pub fn new(a: u8, b: u8, c: u8, d: u8) -> (r: Ipv4Addr)
        ensures
            r == (Ipv4Addr { a, b, c, d }),
    {
        Ipv4Addr { a, b, c, d }
    }

    /// In 127.0.0.0/8.
    pub open spec fn loopback(self) -> bool {
        self.a == 127
    }

    /// 0.0.0.0.
    pub open spec fn unspecified(self) -> bool {
        self.a == 0 && self.b == 0 && self.c == 0 && self.d == 0
    }

    pub fn is_loopback(&self) -> (r: bool)
        ensures
            r == self.loopback(),
    {
        self.a == 127
    }

    pub fn is_unspecified(&self) -> (r: bool)
        ensures
            r == self.unspecified(),
    {
        self.a == 0 && self.b == 0 && self.c == 0 && self.d == 0
    }

    /// The address in dotted decimal.
    pub open spec fn dotted(self) -> Seq<char> {
        number::decimal_of(self.a as nat) + "."@ + number::decimal_of(self.b as nat) + "."@
            + number::decimal_of(self.c as nat) + "."@ + number::decimal_of(self.d as nat)
    }

    /// The address in dotted decimal.
    pub fn to_text(&self) -> (r: String)
        ensures
            r@ == self.dotted(),
    {
        let mut s = decimal(self.a as u64);
        s.append(".");
        s.append(decimal(self.b as u64).as_str());
        s.append(".");
        s.append(decimal(self.c as u64).as_str());
        s.append(".");
        s.append(decimal(self.d as u64).as_str());
        s
    }
}

/// The octet that a text stands for: one to three digits, no needless zero before them, at most
/// 255.
pub open spec fn octet_of(s: Seq<char>) -> Option<u8> {
    if 1 <= s.len() <= 3 && number::all_digits(s) && (s.len() == 1 || s[0] != '0')
        && number::decimal_value(s) <= 255 {
        Some(number::decimal_value(s) as u8)
    } else {
        None
    }
}

/// The address that a text stands for: four octets with dots between them.
pub open spec fn ipv4_of(s: Seq<char>) -> Option<Ipv4Addr> {
    let parts = text::split_of(s, CharSet::One('.'));
    if parts.len() != 4 {
        None
    } else {
        match (octet_of(parts[0]), octet_of(parts[1]), octet_of(parts[2]), octet_of(parts[3])) {
            (Some(a), Some(b), Some(c), Some(d)) => Some(Ipv4Addr { a, b, c, d }),
            _ => None,
        }
    }
}

fn octet(s: &str) -> (r: Option<u8>)
    ensures
        r == octet_of(s@),
{
    let v: Vec<char> = chars_of(s);
    if v.len() < 1 || v.len() > 3 {
        return None;
    }
    match number::unsigned(s, 255) {
        Some(n) => {
            if v[0] == '+' {
                assert(!text::is_digit(s@[0]));
                return None;
            }
            if v.len() > 1 && v[0] == '0' {
                return None;
            }
            Some(n as u8)
        },
        None => {
            proof {
                if number::all_digits(s@) {
                    assert(text::is_digit(s@[0]));
                }
            }
            None
        },
    }
}

/// The address that the text stands for, if it does for one.
pub fn parse_ipv4(s: &str) -> (r: Option<Ipv4Addr>)
    ensures
        r == ipv4_of(s@),
{
    let parts: Vec<String> = split(s, CharSet::One('.'));
    let ghost p = text::split_of(s@, CharSet::One('.'));
    if parts.len() != 4 {
        return None;
    }
    assert(p[0] == parts@[0]@ && p[1] == parts@[1]@ && p[2] == parts@[2]@ && p[3] == parts@[3]@);
    match (
        octet(parts[0].as_str()),
        octet(parts[1].as_str()),
        octet(parts[2].as_str()),
        octet(parts[3].as_str()),
    ) {
        (Some(a), Some(b), Some(c), Some(d)) => Some(Ipv4Addr { a, b, c, d }),
        _ => None,
    }
}

/// The decimal text of an octet reads back as the octet.
proof fn lemma_octet_reads_back(n: u8)
    ensures
        octet_of(number::decimal_of(n as nat)) == Some(n),
        text::free_of(number::decimal_of(n as nat), CharSet::One('.')),
{
    let s = number::decimal_of(n as nat);
    number::lemma_decimal_reads_back(n as nat);
    reveal_with_fuel(number::decimal_of, 3);
    assert(s.len() <= 3);
    assert(s.len() > 1 ==> s[0] != '0');
    assert forall|i: int| 0 <= i < s.len() implies !CharSet::One('.').has(#[trigger] s[i]) by {
        assert(text::is_digit(s[i]));
    }
}

/// An address written in dotted decimal reads back as itself.
pub proof fn lemma_ipv4_reads_back(ip: Ipv4Addr)
    ensures
        ipv4_of(ip.dotted()) == Some(ip),
{
    let set = CharSet::One('.');
    let (a, b, c, d) = (
        number::decimal_of(ip.a as nat),
        number::decimal_of(ip.b as nat),
        number::decimal_of(ip.c as nat),
        number::decimal_of(ip.d as nat),
    );
    lemma_octet_reads_back(ip.a);
    lemma_octet_reads_back(ip.b);
    lemma_octet_reads_back(ip.c);
    lemma_octet_reads_back(ip.d);
    reveal_strlit(".");
    text::lemma_split_free(a, set);
    text::lemma_split_free(b, set);
    text::lemma_split_free(c, set);
    text::lemma_split_free(d, set);
    let cd = c.push('.') + d;
    let bcd = b.push('.') + cd;
    text::lemma_split_concat(c, '.', d, set);
    text::lemma_split_concat(b, '.', cd, set);
    text::lemma_split_concat(a, '.', bcd, set);
    assert(ip.dotted() =~= a.push('.') + bcd);
    assert(text::split_of(ip.dotted(), set) =~= seq![a, b, c, d]);
}

/// An address in dotted decimal is one word, of digits and points.
pub proof fn lemma_dotted_is_word(ip: Ipv4Addr)
    ensures
        ip.dotted().len() > 0,
        text::free_of(ip.dotted(), CharSet::White),
        forall|i: int|
            0 <= i < ip.dotted().len() ==> text::is_digit(#[trigger] ip.dotted()[i])
                || ip.dotted()[i] == '.',
{
    let a = number::decimal_of(ip.a as nat);
    let b = number::decimal_of(ip.b as nat);
    let c = number::decimal_of(ip.c as nat);
    let d = number::decimal_of(ip.d as nat);
    number::lemma_decimal_reads_back(ip.a as nat);
    number::lemma_decimal_reads_back(ip.b as nat);
    number::lemma_decimal_reads_back(ip.c as nat);
    number::lemma_decimal_reads_back(ip.d as nat);
    reveal_strlit(".");
    let t = ip.dotted();
    let n1 = a.len() as int;
    let n2 = n1 + 1 + b.len();
    let n3 = n2 + 1 + c.len();
    assert forall|i: int| 0 <= i < t.len() implies text::is_digit(#[trigger] t[i]) || t[i]
        == '.' by {
        if i < n1 {
            assert(t[i] == a[i]);
        } else if i == n1 || i == n2 || i == n3 {
        } else if i < n2 {
            assert(t[i] == b[i - n1 - 1]);
        } else if i < n3 {
            assert(t[i] == c[i - n2 - 1]);
        } else {
            assert(t[i] == d[i - n3 - 1]);
        }
    }
    assert forall|i: int| 0 <= i < t.len() implies !CharSet::White.has(#[trigger] t[i]) by {
        assert(text::is_digit(t[i]) || t[i] == '.');
    }
}

/// An address is written as its four numbers with points between them.
pub proof fn lemma_dotted_is(a: u8, b: u8, c: u8, d: u8)
    ensures
        (Ipv4Addr { a, b, c, d }).dotted() == number::decimal_of(a as nat) + "."@
            + number::decimal_of(b as nat) + "."@ + number::decimal_of(c as nat) + "."@
            + number::decimal_of(d as nat),
{
}

/// A text stands for an address only if it is that address in dotted decimal.
pub proof fn lemma_only_dotted_is_read(s: Seq<char>, ip: Ipv4Addr)
    ensures
        ipv4_of(s) == Some(ip) <==> s == ip.dotted(),
{
    lemma_ipv4_reads_back(ip);
    let set = CharSet::One('.');
    let parts = text::split_of(s, set);
    if ipv4_of(s) == Some(ip) {
        number::lemma_decimal_is_unique(parts[0]);
        number::lemma_decimal_is_unique(parts[1]);
        number::lemma_decimal_is_unique(parts[2]);
        number::lemma_decimal_is_unique(parts[3]);
        text::lemma_split_joins(s, '.');
        reveal_strlit(".");
        assert("."@ =~= seq!['.']);
        reveal_with_fuel(text::join_of, 4);
        assert(parts.drop_last()[0] == parts[0]);
        assert(parts =~= seq![parts[0], parts[1], parts[2], parts[3]]);
        assert(parts.drop_last() =~= seq![parts[0], parts[1], parts[2]]);
        assert(parts.drop_last().drop_last() =~= seq![parts[0], parts[1]]);
        assert(parts.drop_last().drop_last().drop_last() =~= seq![parts[0]]);
        assert(s =~= ip.dotted());
    }
}

} // verus!
