//! Numbers in text: decimal, read and written.

use vstd::prelude::*;
use vstd::string::*;

use crate::text;
use crate::text::chars_of;

verus! {

// ---------------------------------------------------------------------------------------------
// Writing
// ---------------------------------------------------------------------------------------------
/// The decimal digit of a number below ten.
pub open spec fn digit_of(n: nat) -> char {
    (('0' as u8) + n) as char
}

/// A number in decimal, without leading zeros.
pub open spec fn decimal_of(n: nat) -> Seq<char>
    decreases n,
{
    if n < 10 {
        seq![digit_of(n)]
    } else {
        decimal_of(n / 10).push(digit_of(n % 10))
    }
}

/// A number in decimal, with a zero before a single digit.
pub open spec fn two_digits_of(n: nat) -> Seq<char> {
    if n < 10 {
        seq!['0'] + decimal_of(n)
    } else {
        decimal_of(n)
    }
}

fn digit(n: u8) -> (c: char)
    requires
        n < 10,
    ensures
        c == digit_of(n as nat),
{
    (48u8 + n) as char
}

/// The number in decimal.
pub fn decimal(n: u64) -> (r: String)
    ensures
        r@ == decimal_of(n as nat),
    decreases n,
{
    let mut s = if n < 10 {
        String::new()
    } else {
        decimal(n / 10)
    };
    s.push(digit((n % 10) as u8));
    assert(s@ =~= decimal_of(n as nat));
    s
}

/// The number in decimal, with a zero before a single digit.
pub fn two_digits(n: u64) -> (r: String)
    ensures
        r@ == two_digits_of(n as nat),
{
    if n < 10 {
        let mut s = String::new();
        s.push('0');
        s.append(decimal(n).as_str());
        assert(s@ =~= two_digits_of(n as nat));
        s
    } else {
        decimal(n)
    }
}

// ---------------------------------------------------------------------------------------------
// Reading
// ---------------------------------------------------------------------------------------------
pub open spec fn all_digits(s: Seq<char>) -> bool {
    forall|i: int| 0 <= i < s.len() ==> text::is_digit(#[trigger] s[i])
}

/// The number that decimal digits stand for.
pub open spec fn decimal_value(s: Seq<char>) -> nat
    decreases s.len(),
{
    if s.len() == 0 {
        0
    } else {
        decimal_value(s.drop_last()) * 10 + (s.last() as u32 - '0' as u32) as nat
    }
}

/// `s` without the plus sign that it begins with, if it does.
pub open spec fn without_plus(s: Seq<char>) -> Seq<char> {
    if s.len() > 0 && s[0] == '+' {
        s.skip(1)
    } else {
        s
    }
}

/// The number that a text stands for: decimal digits, with or without a plus sign before them,
/// whose value is at most `max`.
pub open spec fn unsigned_of(s: Seq<char>, max: nat) -> Option<nat> {
    let d = without_plus(s);
    if d.len() > 0 && all_digits(d) && decimal_value(d) <= max {
        Some(decimal_value(d))
    } else {
        None
    }
}

/// The `i32` that a text stands for: as `unsigned_of`, or a minus sign and decimal digits.
pub open spec fn signed_of(s: Seq<char>) -> Option<int> {
    if s.len() > 0 && s[0] == '-' {
        let d = s.skip(1);
        if d.len() > 0 && all_digits(d) && decimal_value(d) <= 0x8000_0000 {
            Some(-(decimal_value(d) as int))
        } else {
            None
        }
    } else {
        match unsigned_of(s, 0x7fff_ffff) {
            Some(n) => Some(n as int),
            None => None,
        }
    }
}

proof fn lemma_value_grows(s: Seq<char>, k: int)
    requires
        0 <= k <= s.len(),
        all_digits(s),
    ensures
        decimal_value(s.take(k)) <= decimal_value(s),
    decreases s.len(),
{
    if k == s.len() {
        assert(s.take(k) =~= s);
    } else {
        assert(s.drop_last().take(k) =~= s.take(k));
        assert forall|i: int| 0 <= i < s.drop_last().len() implies text::is_digit(
            #[trigger] s.drop_last()[i],
        ) by {
            assert(text::is_digit(s[i]));
        }
        lemma_value_grows(s.drop_last(), k);
    }
}

/// The value of the characters from `from` on, if they are digits, at least one of them, and the
/// value is at most `max`.
fn digits_from(v: &Vec<char>, from: usize, max: u64) -> (r: Option<u64>)
    requires
        from <= v@.len(),
    ensures
        ({
            let d = v@.skip(from as int);
            match r {
                Some(n) => d.len() > 0 && all_digits(d) && decimal_value(d) == n && n <= max,
                None => !(d.len() > 0 && all_digits(d) && decimal_value(d) <= max),
            }
        }),
{
    let ghost d = v@.skip(from as int);
    if from == v.len() {
        return None;
    }
    let mut n: u64 = 0;
    let mut i: usize = from;
    assert(d.take(0) =~= Seq::<char>::empty());
    while i < v.len()
        invariant
            d == v@.skip(from as int),
            from <= i <= v@.len(),
            n <= max,
            n == decimal_value(d.take(i - from)),
            forall|k: int| 0 <= k < i - from ==> text::is_digit(#[trigger] d[k]),
        decreases v@.len() - i,
    {
        let c: char = v[i];
        assert(c == d[i - from]);
        if c < '0' || c > '9' {
            assert(!text::is_digit(d[i - from]));
            return None;
        }
        let x: u64 = (c as u32 - 48) as u64;
        let next: u128 = n as u128 * 10 + x as u128;
        proof {
            assert(d.take(i - from + 1).drop_last() =~= d.take(i - from));
            assert(decimal_value(d.take(i - from + 1)) == next);
        }
        if next > max as u128 {
            proof {
                if all_digits(d) {
                    lemma_value_grows(d, i - from + 1);
                }
            }
            return None;
        }
        n = next as u64;
        i = i + 1;
    }
    assert(d.take(d.len() as int) =~= d);
    Some(n)
}

/// The number that the text stands for, if it is one of at most `max`.
pub fn unsigned(s: &str, max: u64) -> (r: Option<u64>)
    ensures
        match (r, unsigned_of(s@, max as nat)) {
            (Some(n), Some(m)) => n == m,
            (None, None) => true,
            _ => false,
        },
        r matches Some(n) ==> n <= max,
{
    let v: Vec<char> = chars_of(s);
    if v.len() > 0 && v[0] == '+' {
        digits_from(&v, 1, max)
    } else {
        assert(v@.skip(0) =~= v@);
        digits_from(&v, 0, max)
    }
}

/// The `i32` that the text stands for, if it is one.
pub fn signed(s: &str) -> (r: Option<i32>)
    ensures
        match (r, signed_of(s@)) {
            (Some(n), Some(m)) => n == m,
            (None, None) => true,
            _ => false,
        },
{
    let v: Vec<char> = chars_of(s);
    if v.len() > 0 && v[0] == '-' {
        match digits_from(&v, 1, 0x8000_0000) {
            Some(n) => Some((-(n as i64)) as i32),
            None => None,
        }
    } else {
        match unsigned(s, 0x7fff_ffff) {
            Some(n) => Some(n as i32),
            None => None,
        }
    }
}

/// What `decimal_of` writes is digits alone, and reading it gives the number back.
pub proof fn lemma_decimal_reads_back(n: nat)
    ensures
        decimal_of(n).len() > 0,
        all_digits(decimal_of(n)),
        decimal_value(decimal_of(n)) == n,
    decreases n,
{
    reveal_with_fuel(decimal_value, 2);
    if n >= 10 {
        lemma_decimal_reads_back(n / 10);
        assert(decimal_of(n).drop_last() =~= decimal_of(n / 10));
        assert forall|i: int| 0 <= i < decimal_of(n).len() implies text::is_digit(
            #[trigger] decimal_of(n)[i],
        ) by {
            if i < decimal_of(n / 10).len() {
                assert(text::is_digit(decimal_of(n / 10)[i]));
            }
        }
    } else {
        assert(decimal_of(n).drop_last() =~= Seq::<char>::empty());
    }
}

/// A number written in decimal reads back as itself.
pub proof fn lemma_unsigned_of_decimal(n: nat, max: nat)
    requires
        n <= max,
    ensures
        unsigned_of(decimal_of(n), max) == Some(n),
{
    lemma_decimal_reads_back(n);
    assert(text::is_digit(decimal_of(n)[0]));
}

/// A number is written without leading zeros: the first digit is zero for the number zero alone,
/// which is that one digit.
pub proof fn lemma_decimal_is_short(n: nat)
    ensures
        decimal_of(n)[0] == '0' <==> n == 0,
        n < 10 ==> decimal_of(n) == seq![((48 + n) as u8) as char],
        n >= 10 ==> decimal_of(n) == decimal_of(n / 10).push(((48 + n % 10) as u8) as char),
    decreases n,
{
    if n >= 10 {
        lemma_decimal_is_short(n / 10);
        lemma_decimal_reads_back(n / 10);
        assert(decimal_of(n)[0] == decimal_of(n / 10)[0]);
    }
}

/// A number with or without a minus before it reads back, if 32 bits hold it, and else does not.
pub proof fn lemma_signed_of_decimal(n: nat)
    ensures
        n <= 0x7fff_ffff ==> signed_of(decimal_of(n)) == Some(n as int),
        n > 0x7fff_ffff ==> signed_of(decimal_of(n)) is None,
        n <= 0x8000_0000 ==> signed_of(seq!['-'] + decimal_of(n)) == Some(-(n as int)),
        n > 0x8000_0000 ==> signed_of(seq!['-'] + decimal_of(n)) is None,
{
    lemma_decimal_reads_back(n);
    assert(text::is_digit(decimal_of(n)[0]));
    assert((seq!['-'] + decimal_of(n)).skip(1) =~= decimal_of(n));
}

/// Digits that begin with a zero only where they are that zero alone are what their value is
/// written as.
pub proof fn lemma_decimal_is_unique(s: Seq<char>)
    requires
        s.len() > 0,
        all_digits(s),
        s.len() == 1 || s[0] != '0',
    ensures
        decimal_of(decimal_value(s)) == s,
        s[0] != '0' ==> decimal_value(s) > 0,
    decreases s.len(),
{
    let d = s.drop_last();
    let c = s.last();
    assert(text::is_digit(s[s.len() - 1]));
    let v = (c as u32 - '0' as u32) as nat;
    assert(digit_of(v) == c);
    reveal_with_fuel(decimal_value, 2);
    if s.len() == 1 {
        assert(d.len() == 0);
        assert(text::is_digit(s[0]));
        assert(decimal_of(v) =~= s);
    } else {
        assert(all_digits(d)) by {
            assert forall|i: int| 0 <= i < d.len() implies text::is_digit(#[trigger] d[i]) by {
                assert(text::is_digit(s[i]));
            }
        }
        assert(d[0] == s[0]);
        lemma_decimal_is_unique(d);
        let n = decimal_value(s);
        assert(n == decimal_value(d) * 10 + v);
        assert(n / 10 == decimal_value(d) && n % 10 == v);
        assert(decimal_of(n) =~= s);
    }
}

/// A plus before the digits, and zeros that lead them, do not count.
pub proof fn lemma_leading_signs(s: Seq<char>, max: nat)
    requires
        s.len() > 0,
        all_digits(s),
    ensures
        unsigned_of(seq!['+'] + s, max) == unsigned_of(s, max),
        decimal_value(seq!['0'] + s) == decimal_value(s),
    decreases s.len(),
{
    assert(text::is_digit(s[0]));
    assert((seq!['+'] + s).skip(1) =~= s);
    let z = seq!['0'] + s;
    reveal_with_fuel(decimal_value, 2);
    if s.len() == 1 {
        assert(z.drop_last() =~= seq!['0']);
        assert(seq!['0'].drop_last().len() == 0);
        assert(decimal_value(seq!['0'].drop_last()) == 0);
        assert(decimal_value(seq!['0']) == 0);
        assert(decimal_value(s.drop_last()) == 0);
        assert(z.last() == s.last());
    } else {
        let d = s.drop_last();
        assert forall|i: int| 0 <= i < d.len() implies text::is_digit(#[trigger] d[i]) by {
            assert(text::is_digit(s[i]));
        }
        lemma_leading_signs(d, max);
        assert(z.drop_last() =~= seq!['0'] + d);
        assert(z.last() == s.last());
    }
}

} // verus!
