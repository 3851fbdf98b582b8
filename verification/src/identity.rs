//! The UUID that names the device, and those that name subscriptions.

use vstd::prelude::*;
use vstd::string::*;

use crate::text;
use crate::text::{CharSet, trim, trim_prefixes};

verus! {

// ---------------------------------------------------------------------------------------------
// Hexadecimal
// ---------------------------------------------------------------------------------------------
/// The hexadecimal digit of a number below sixteen, in small letters.
pub open spec fn hex_digit(n: nat) -> char {
    if n < 10 {
        (('0' as u8) + n) as char
    } else {
        (('a' as u8) + n - 10) as char
    }
}

/// The lowest `width` hexadecimal digits of a number.
pub open spec fn hex_of(n: nat, width: nat) -> Seq<char>
    decreases width,
{
    if width == 0 {
        Seq::empty()
    } else {
        hex_of(n / 16, (width - 1) as nat).push(hex_digit(n % 16))
    }
}

pub open spec fn is_hex(c: char) -> bool {
    '0' <= c <= '9' || 'a' <= c <= 'f' || 'A' <= c <= 'F'
}

pub open spec fn hex_digit_value(c: char) -> nat {
    if '0' <= c <= '9' {
        (c as u32 - '0' as u32) as nat
    } else if 'a' <= c <= 'f' {
        (c as u32 - 'a' as u32 + 10) as nat
    } else {
        (c as u32 - 'A' as u32 + 10) as nat
    }
}

pub open spec fn all_hex(s: Seq<char>) -> bool {
    forall|i: int| 0 <= i < s.len() ==> is_hex(#[trigger] s[i])
}

/// The number that hexadecimal digits stand for.
pub open spec fn hex_value(s: Seq<char>) -> nat
    decreases s.len(),
{
    if s.len() == 0 {
        0
    } else {
        hex_value(s.drop_last()) * 16 + hex_digit_value(s.last())
    }
}

// ---------------------------------------------------------------------------------------------
// UUIDs
// ---------------------------------------------------------------------------------------------
/// Thirty-two digits in groups of 8, 4, 4, 4 and 12.
pub open spec fn grouped(h: Seq<char>) -> Seq<char> {
    h.subrange(0, 8) + "-"@ + h.subrange(8, 12) + "-"@ + h.subrange(12, 16) + "-"@ + h.subrange(
        16,
        20,
    ) + "-"@ + h.subrange(20, 32)
}

/// The text of a UUID: small hexadecimal digits, hyphens between the groups.
pub open spec fn uuid_text(v: u128) -> Seq<char> {
    grouped(hex_of(v as nat, 32))
}

/// The UUID of thirty-two hexadecimal digits.
pub open spec fn simple_uuid(s: Seq<char>) -> Option<u128> {
    if s.len() == 32 && all_hex(s) {
        Some(hex_value(s) as u128)
    } else {
        None
    }
}

/// The UUID of hexadecimal digits with hyphens between the groups.
pub open spec fn hyphenated_uuid(s: Seq<char>) -> Option<u128> {
    if s.len() == 36 && s[8] == '-' && s[13] == '-' && s[18] == '-' && s[23] == '-' {
        simple_uuid(
            s.subrange(0, 8) + s.subrange(9, 13) + s.subrange(14, 18) + s.subrange(19, 23)
                + s.subrange(24, 36),
        )
    } else {
        None
    }
}

/// The UUID that a text stands for: plain, with hyphens, in braces, or as a URN.
pub open spec fn uuid_of(s: Seq<char>) -> Option<u128> {
    if s.len() == 32 {
        simple_uuid(s)
    } else if s.len() == 36 {
        hyphenated_uuid(s)
    } else if s.len() == 38 && s[0] == '{' && s[37] == '}' {
        hyphenated_uuid(s.subrange(1, 37))
    } else if s.len() == 45 && text::same_but_case(s.take(9), "urn:uuid:"@) {
        hyphenated_uuid(s.skip(9))
    } else {
        None
    }
}

/// A random (version 4) UUID of the usual variant.
pub open spec fn is_random_uuid(v: u128) -> bool {
    (v >> 76) & 0xf == 4 && (v >> 62) & 0x3 == 2
}

/// `uuid::Uuid::to_string`: thirty-two small hexadecimal digits, the most significant first, in
/// groups of 8, 4, 4, 4 and 12 with hyphens between them.
#[verifier::external_body]
pub(crate) fn format_uuid(v: u128) -> (r: String)
    ensures
        r@ == uuid_text(v),
{
    uuid::Uuid::from_u128(v).to_string()
}

/// `uuid::Uuid::parse_str`: accepts thirty-two hexadecimal digits of either case, the same with
/// hyphens between the groups, that in braces, and that after `urn:uuid:` in any case.
#[verifier::external_body]
pub(crate) fn parse_uuid(s: &str) -> (r: Option<u128>)
    ensures
        r == uuid_of(s@),
{
    match uuid::Uuid::parse_str(s) {
        Ok(u) => Some(u.as_u128()),
        Err(_) => None,
    }
}

/// `uuid::Uuid::new_v4`: random but for the bits that tell the version and the variant.
#[verifier::external_body]
pub(crate) fn random_uuid() -> (r: u128)
    ensures
        is_random_uuid(r),
{
    uuid::Uuid::new_v4().as_u128()
}

// ---------------------------------------------------------------------------------------------
// The device's own UUID
// ---------------------------------------------------------------------------------------------
/// The UUID that the contents of the identity file stand for.
pub open spec fn stored_uuid(content: Seq<char>) -> Option<u128> {
    uuid_of(text::trim_prefixes_of(text::trim_of(content), "uuid:"@))
}

/// The UUID in the contents of the identity file, if there is one.
pub fn read_uuid(content: &str) -> (r: Option<u128>)
    ensures
        r == stored_uuid(content@),
{
    proof {
        reveal_strlit("uuid:");
    }
    parse_uuid(trim_prefixes(trim(content), "uuid:"))
}

/// The UUID in the identity file; where there is none, `fresh` and the contents to store for it.
pub fn uuid_or(stored: Option<&str>, fresh: u128) -> (r: (u128, Option<String>))
    ensures
        match stored {
            Some(s) => stored_uuid(s@) matches Some(u) ==> r.0 == u && r.1 is None,
            None => true,
        },
        (stored matches Some(s) ==> stored_uuid(s@) is None) ==> r.0 == fresh && (r.1 matches Some(
            t,
        ) && t@ == uuid_text(fresh)),
{
    if let Some(s) = stored {
        if let Some(u) = read_uuid(s) {
            return (u, None);
        }
    }
    (fresh, Some(format_uuid(fresh)))
}

/// The UUID in the identity file; where there is none, a random one and the contents to store.
pub fn load_or_create_uuid(stored: Option<&str>) -> (r: (u128, Option<String>))
    ensures
        match stored {
            Some(s) => stored_uuid(s@) matches Some(u) ==> r.0 == u && r.1 is None,
            None => true,
        },
        (stored matches Some(s) ==> stored_uuid(s@) is None) ==> is_random_uuid(r.0) && (
        r.1 matches Some(t) && t@ == uuid_text(r.0)),
{
    uuid_or(stored, random_uuid())
}

// ---------------------------------------------------------------------------------------------
// Laws
// ---------------------------------------------------------------------------------------------
spec fn sixteens(n: nat) -> nat
    decreases n,
{
    if n == 0 {
        1
    } else {
        16 * sixteens((n - 1) as nat)
    }
}

proof fn lemma_hex_reads_back(n: nat, width: nat)
    requires
        n < sixteens(width),
    ensures
        hex_of(n, width).len() == width,
        all_hex(hex_of(n, width)),
        hex_value(hex_of(n, width)) == n,
    decreases width,
{
    if width > 0 {
        let w = (width - 1) as nat;
        lemma_hex_reads_back(n / 16, w);
        let h = hex_of(n, width);
        assert(h.drop_last() =~= hex_of(n / 16, w));
        assert(hex_digit_value(hex_digit(n % 16)) == n % 16);
        assert forall|i: int| 0 <= i < h.len() implies is_hex(#[trigger] h[i]) by {
            if i < w {
                assert(is_hex(hex_of(n / 16, w)[i]));
            }
        }
    }
}

/// Every character of a UUID's text is a hexadecimal digit or a hyphen, and there are thirty-six.
pub proof fn lemma_uuid_text_chars(v: u128)
    ensures
        uuid_text(v).len() == 36,
        forall|i: int|
            0 <= i < 36 ==> is_hex(#[trigger] uuid_text(v)[i]) || uuid_text(v)[i] == '-',
        is_hex(uuid_text(v)[0]),
        is_hex(uuid_text(v)[35]),
{
    assert(v < sixteens(32)) by {
        reveal_with_fuel(sixteens, 33);
    }
    let h = hex_of(v as nat, 32);
    lemma_hex_reads_back(v as nat, 32);
    reveal_strlit("-");
    let t = uuid_text(v);
    assert forall|i: int| 0 <= i < 36 implies is_hex(#[trigger] t[i]) || t[i] == '-' by {
        let k = if i < 8 {
            i
        } else if i < 13 {
            i - 1
        } else if i < 18 {
            i - 2
        } else if i < 23 {
            i - 3
        } else {
            i - 4
        };
        assert(i != 8 && i != 13 && i != 18 && i != 23 ==> t[i] == h[k]);
    }
    assert(t[0] == h[0]);
    assert(t[35] == h[31]);
}

/// The text of a UUID reads back as the UUID.
pub proof fn lemma_uuid_reads_back(v: u128)
    ensures
        uuid_of(uuid_text(v)) == Some(v),
{
    assert(v < sixteens(32)) by {
        reveal_with_fuel(sixteens, 33);
    }
    let h = hex_of(v as nat, 32);
    lemma_hex_reads_back(v as nat, 32);
    reveal_strlit("-");
    let t = uuid_text(v);
    assert(t.subrange(0, 8) + t.subrange(9, 13) + t.subrange(14, 18) + t.subrange(19, 23)
        + t.subrange(24, 36) =~= h);
}

/// What is stored for a new device identity gives the same identity when it is loaded again.
pub proof fn lemma_identity_persists(v: u128)
    ensures
        stored_uuid(uuid_text(v)) == Some(v),
{
    let t = uuid_text(v);
    lemma_uuid_text_chars(v);
    lemma_uuid_reads_back(v);
    text::lemma_strip_keeps(t, CharSet::White);
    reveal_strlit("uuid:");
    if text::starts_with(t, "uuid:"@) {
        assert(t.subrange(0, 5)[0] == t[0]);
    }
}

/// A word of eight hexadecimal digits is read as the number that they write.
pub proof fn lemma_hex_word(n: nat)
    requires
        n <= u32::MAX,
    ensures
        hex_of(n, 8).len() == 8,
        all_hex(hex_of(n, 8)),
        hex_value(hex_of(n, 8)) == n,
{
    reveal_with_fuel(sixteens, 9);
    lemma_hex_reads_back(n, 8);
}

/// The identity is read whether it is stored with `uuid:` before it or not, and whatever white
/// space surrounds it.
pub proof fn lemma_stored_identity_is_read(left: Seq<char>, v: u128, right: Seq<char>)
    requires
        forall|i: int| 0 <= i < left.len() ==> text::is_white(#[trigger] left[i]),
        forall|i: int| 0 <= i < right.len() ==> text::is_white(#[trigger] right[i]),
    ensures
        stored_uuid(left + uuid_text(v) + right) == Some(v),
        stored_uuid(left + ("uuid:"@ + uuid_text(v)) + right) == Some(v),
{
    let t = uuid_text(v);
    let p = "uuid:"@ + t;
    reveal_strlit("uuid:");
    lemma_uuid_text_chars(v);
    lemma_uuid_reads_back(v);
    assert(is_hex(t[0]) && is_hex(t[35]));
    assert(t.last() == t[35] && p.last() == t[35]);
    assert forall|i: int| 0 <= i < left.len() implies CharSet::White.has(#[trigger] left[i]) by {
        assert(text::is_white(left[i]));
    }
    assert forall|i: int| 0 <= i < right.len() implies CharSet::White.has(#[trigger] right[i]) by {
        assert(text::is_white(right[i]));
    }
    text::lemma_strip_is(left, t, right, CharSet::White);
    text::lemma_strip_is(left, p, right, CharSet::White);
    assert(!text::starts_with(t, "uuid:"@)) by {
        if text::starts_with(t, "uuid:"@) {
            assert(t.subrange(0, 5)[0] == t[0]);
        }
    }
    assert(p.subrange(0, 5) =~= "uuid:"@);
    assert(p.skip(5) =~= t);
    assert(text::trim_prefixes_of(t, "uuid:"@) == t);
    assert(text::trim_prefixes_of(p, "uuid:"@) == text::trim_prefixes_of(t, "uuid:"@));
}

/// A UUID is written as 32 hexadecimal digits in small letters, in groups of 8, 4, 4, 4 and 12.
pub proof fn lemma_uuid_is_grouped(v: u128)
    ensures
        uuid_text(v)[8] == '-' && uuid_text(v)[13] == '-' && uuid_text(v)[18] == '-' && uuid_text(
            v,
        )[23] == '-',
        uuid_text(v).len() == 36,
        forall|i: int|
            0 <= i < 36 && i != 8 && i != 13 && i != 18 && i != 23 ==> '0' <= #[trigger] uuid_text(
                v,
            )[i] <= '9' || 'a' <= uuid_text(v)[i] <= 'f',
{
    reveal_strlit("-");
    let h = hex_of(v as nat, 32);
    lemma_small_hex(v as nat, 32);
    let t = uuid_text(v);
    assert forall|i: int| 0 <= i < 36 && i != 8 && i != 13 && i != 18 && i != 23 implies '0'
        <= #[trigger] t[i] <= '9' || 'a' <= t[i] <= 'f' by {
        let k = if i < 8 {
            i
        } else if i < 13 {
            i - 1
        } else if i < 18 {
            i - 2
        } else if i < 23 {
            i - 3
        } else {
            i - 4
        };
        assert(t[i] == h[k]);
    }
}

proof fn lemma_small_hex(n: nat, width: nat)
    ensures
        hex_of(n, width).len() == width,
        forall|i: int|
            0 <= i < width ==> '0' <= #[trigger] hex_of(n, width)[i] <= '9' || 'a' <= hex_of(
                n,
                width,
            )[i] <= 'f',
    decreases width,
{
    if width > 0 {
        lemma_small_hex(n / 16, (width - 1) as nat);
    }
}

/// A UUID is read with or without its hyphens, in braces, and behind `urn:uuid:` in any case.
pub proof fn lemma_uuid_forms(v: u128, prefix: Seq<char>)
    requires
        text::same_but_case(prefix, "urn:uuid:"@),
    ensures
        uuid_of(hex_of(v as nat, 32)) == Some(v),
        uuid_of(seq!['{'] + uuid_text(v) + seq!['}']) == Some(v),
        uuid_of(prefix + uuid_text(v)) == Some(v),
{
    lemma_uuid_reads_back(v);
    lemma_uuid_text_chars(v);
    let t = uuid_text(v);
    let h = hex_of(v as nat, 32);
    lemma_small_hex(v as nat, 32);
    reveal_strlit("-");
    let joined = t.subrange(0, 8) + t.subrange(9, 13) + t.subrange(14, 18) + t.subrange(19, 23)
        + t.subrange(24, 36);
    assert(joined =~= h);
    let braced = seq!['{'] + t + seq!['}'];
    assert(braced.subrange(1, 37) =~= t);
    assert(braced[37] == '}');
    reveal_strlit("urn:uuid:");
    assert(text::ascii_lower_of(prefix).len() == text::ascii_lower_of("urn:uuid:"@).len());
    let named = prefix + t;
    assert(named.take(9) =~= prefix);
    assert(named.skip(9) =~= t);
}

} // verus!
