//! Text as sequences of characters: searching, trimming, splitting, replacing, letter case.
//!
//! Positions are counted in characters.

use vstd::prelude::*;
use vstd::string::*;

verus! {

/// `String::push` appends the given character at the end of the string.
pub assume_specification[ String::push ](s: &mut String, c: char)
    ensures
        final(s)@ == old(s)@.push(c),
;

// ---------------------------------------------------------------------------------------------
// Characters
// ---------------------------------------------------------------------------------------------
/// The Unicode property `White_Space`.
pub open spec fn is_white(c: char) -> bool {
    let n = c as u32;
    ||| 0x9 <= n <= 0xd
    ||| n == 0x20
    ||| n == 0x85
    ||| n == 0xa0
    ||| n == 0x1680
    ||| 0x2000 <= n <= 0x200a
    ||| n == 0x2028
    ||| n == 0x2029
    ||| n == 0x202f
    ||| n == 0x205f
    ||| n == 0x3000
}

pub open spec fn is_digit(c: char) -> bool {
    '0' <= c <= '9'
}

/// An ASCII capital becomes its small letter; any other character stays.
pub open spec fn lower_char(c: char) -> char {
    if 'A' <= c <= 'Z' {
        ((c as u8) + 32) as char
    } else {
        c
    }
}

/// Which characters an operation strips or splits at.
#[derive(Clone, Copy)]
pub enum CharSet {
    White,
    One(char),
}

impl CharSet {
    pub open spec fn has(self, c: char) -> bool {
        match self {
            CharSet::White => is_white(c),
            CharSet::One(d) => c == d,
        }
    }

    pub fn has_char(self, c: char) -> (r: bool)
        ensures
            r == self.has(c),
    {
        match self {
            CharSet::White => {
                let n: u32 = c as u32;
                (0x9 <= n && n <= 0xd) || n == 0x20 || n == 0x85 || n == 0xa0 || n == 0x1680 || (
                0x2000 <= n && n <= 0x200a) || n == 0x2028 || n == 0x2029 || n == 0x202f || n
                    == 0x205f || n == 0x3000
            },
            CharSet::One(d) => c == d,
        }
    }
}

// ---------------------------------------------------------------------------------------------
// Strings and vectors of characters
// ---------------------------------------------------------------------------------------------
/// The texts that a sequence of strings holds.
pub open spec fn texts(v: Seq<String>) -> Seq<Seq<char>> {
    v.map_values(|x: String| x@)
}

/// The characters of a string.
pub fn chars_of(s: &str) -> (v: Vec<char>)
    ensures
        v@ == s@,
{
    let mut v: Vec<char> = Vec::new();
    for c in it: s.chars()
        invariant
            v@ == s@.take(it.index() as int),
            it.seq() == s@,
    {
        v.push(c);
    }
    assert(s@.take(s@.len() as int) == s@);
    v
}

/// What `f` gives for the first item that it gives something for.
pub open spec fn first_some<A, B>(s: Seq<A>, f: spec_fn(A) -> Option<B>) -> Option<B>
    decreases s.len(),
{
    if s.len() == 0 {
        None
    } else {
        match f(s[0]) {
            Some(b) => Some(b),
            None => first_some(s.drop_first(), f),
        }
    }
}

/// What `f` gives for the last item that it gives something for.
pub open spec fn last_some<A, B>(s: Seq<A>, f: spec_fn(A) -> Option<B>) -> Option<B>
    decreases s.len(),
{
    if s.len() == 0 {
        None
    } else {
        match f(s.last()) {
            Some(b) => Some(b),
            None => last_some(s.drop_last(), f),
        }
    }
}

/// What `first_some` gives is what `f` gives for some item; it gives nothing only where `f` gives
/// nothing for any.
pub proof fn lemma_first_some<A, B>(s: Seq<A>, f: spec_fn(A) -> Option<B>)
    ensures
        first_some(s, f) is Some ==> exists|i: int|
            0 <= i < s.len() && #[trigger] f(s[i]) == first_some(s, f),
        first_some(s, f) is None ==> forall|i: int|
            0 <= i < s.len() ==> #[trigger] f(s[i]) is None,
    decreases s.len(),
{
    if s.len() > 0 {
        let rest = s.drop_first();
        lemma_first_some(rest, f);
        if f(s[0]) is None {
            if first_some(rest, f) is Some {
                let i = choose|i: int|
                    0 <= i < rest.len() && #[trigger] f(rest[i]) == first_some(rest, f);
                assert(f(s[i + 1]) == first_some(s, f));
            } else {
                assert forall|i: int| 0 <= i < s.len() implies #[trigger] f(s[i]) is None by {
                    if i > 0 {
                        assert(f(rest[i - 1]) is None);
                    }
                }
            }
        } else {
            assert(f(s[0]) == first_some(s, f));
        }
    }
}

/// Do two texts hold the same characters?
pub fn same(a: &str, b: &str) -> (r: bool)
    ensures
        r == (a@ == b@),
{
    let x: Vec<char> = chars_of(a);
    let y: Vec<char> = chars_of(b);
    if x.len() != y.len() {
        return false;
    }
    for i in 0..x.len()
        invariant
            x@ == a@,
            y@ == b@,
            x@.len() == y@.len(),
            forall|k: int| 0 <= k < i ==> a@[k] == b@[k],
    {
        if x[i] != y[i] {
            return false;
        }
    }
    assert(a@ =~= b@);
    true
}

// ---------------------------------------------------------------------------------------------
// Searching
// ---------------------------------------------------------------------------------------------
/// `pat` stands in `s` at position `i`.
pub open spec fn occurs_at(s: Seq<char>, pat: Seq<char>, i: int) -> bool {
    &&& 0 <= i
    &&& i + pat.len() <= s.len()
    &&& s.subrange(i, i + pat.len()) == pat
}

/// `pat` stands somewhere in `s`.
pub open spec fn contains(s: Seq<char>, pat: Seq<char>) -> bool {
    exists|i: int| occurs_at(s, pat, i)
}

/// `i` is the first position of `pat` in `s`.
pub open spec fn first_at(s: Seq<char>, pat: Seq<char>, i: int) -> bool {
    &&& occurs_at(s, pat, i)
    &&& forall|j: int| 0 <= j < i ==> !occurs_at(s, pat, j)
}

/// The first position of `pat` in `s`, if there is one.
pub open spec fn find_of(s: Seq<char>, pat: Seq<char>) -> Option<int> {
    if contains(s, pat) {
        Some(choose|i: int| first_at(s, pat, i))
    } else {
        None
    }
}

/// `i` is the last position of the character `c` in `s`.
pub open spec fn last_char_at(s: Seq<char>, c: char, i: int) -> bool {
    &&& 0 <= i < s.len()
    &&& s[i] == c
    &&& forall|j: int| i < j < s.len() ==> s[j] != c
}

/// What follows the last `c` in `s`, if there is one.
pub open spec fn after_last(s: Seq<char>, c: char) -> Option<Seq<char>> {
    if s.contains(c) {
        Some(s.skip((choose|i: int| last_char_at(s, c, i)) + 1))
    } else {
        None
    }
}

pub open spec fn starts_with(s: Seq<char>, pat: Seq<char>) -> bool {
    occurs_at(s, pat, 0)
}

pub proof fn lemma_first_exists(s: Seq<char>, pat: Seq<char>, i: int)
    requires
        occurs_at(s, pat, i),
    ensures
        exists|k: int| first_at(s, pat, k) && k <= i,
    decreases i,
{
    if exists|j: int| 0 <= j < i && occurs_at(s, pat, j) {
        let j = choose|j: int| 0 <= j < i && occurs_at(s, pat, j);
        lemma_first_exists(s, pat, j);
    } else {
        assert(first_at(s, pat, i));
    }
}

/// A first position is what `find_of` gives.
pub proof fn lemma_find_is(s: Seq<char>, pat: Seq<char>, i: int)
    requires
        first_at(s, pat, i),
    ensures
        find_of(s, pat) == Some(i),
{
    let k = choose|k: int| first_at(s, pat, k);
    assert(first_at(s, pat, k));
    assert(k == i);
}

/// What `find_of` gives is a first position.
pub proof fn lemma_find_some(s: Seq<char>, pat: Seq<char>)
    ensures
        find_of(s, pat) matches Some(i) ==> first_at(s, pat, i) && 0 <= i <= s.len() - pat.len(),
{
    if contains(s, pat) {
        let i = choose|i: int| occurs_at(s, pat, i);
        lemma_first_exists(s, pat, i);
    }
}

/// The first position of `pat` in `s`, in characters.
pub fn find(s: &str, pat: &str) -> (r: Option<usize>)
    ensures
        r matches Some(i) ==> find_of(s@, pat@) == Some(i as int) && first_at(s@, pat@, i as int),
        r is None ==> find_of(s@, pat@) is None && !contains(s@, pat@),
{
    let v: Vec<char> = chars_of(s);
    let p: Vec<char> = chars_of(pat);
    if p.len() > v.len() {
        return None;
    }
    let n: usize = v.len();
    let last: usize = n - p.len();
    let mut i: usize = 0;
    while i <= last
        invariant
            n == v@.len(),
            v@ == s@,
            p@ == pat@,
            last == v@.len() - p@.len(),
            i <= last + 1,
            forall|j: int| 0 <= j < i ==> !occurs_at(s@, pat@, j),
        decreases last + 1 - i,
    {
        let mut k: usize = 0;
        while k < p.len() && v[i + k] == p[k]
            invariant
                n == v@.len(),
                v@ == s@,
                p@ == pat@,
                last == v@.len() - p@.len(),
                i <= last,
                k <= p@.len(),
                forall|j: int| 0 <= j < k ==> v@[i + j] == p@[j],
            decreases p@.len() - k,
        {
            k = k + 1;
        }
        if k == p.len() {
            assert(s@.subrange(i as int, i + pat@.len()) =~= pat@);
            proof {
                lemma_find_is(s@, pat@, i as int);
            }
            return Some(i);
        }
        proof {
            if occurs_at(s@, pat@, i as int) {
                assert(s@.subrange(i as int, i + pat@.len())[k as int] == s@[i + k]);
            }
        }
        if i == last {
            return None;
        }
        i = i + 1;
    }
    None
}

/// Does `pat` stand in `s`?
pub fn has(s: &str, pat: &str) -> (r: bool)
    ensures
        r == contains(s@, pat@),
{
    match find(s, pat) {
        Some(i) => {
            assert(occurs_at(s@, pat@, i as int));
            true
        },
        None => false,
    }
}

/// What follows the last `c` in `s`, if there is one.
pub fn rest_after_last<'a>(s: &'a str, c: char) -> (r: Option<&'a str>)
    ensures
        match (r, after_last(s@, c)) {
            (Some(x), Some(y)) => x@ == y,
            (None, None) => true,
            _ => false,
        },
{
    let v: Vec<char> = chars_of(s);
    let mut i: usize = v.len();
    while i > 0
        invariant
            v@ == s@,
            i <= v@.len(),
            forall|j: int| i <= j < v@.len() ==> v@[j] != c,
        decreases i,
    {
        i = i - 1;
        if v[i] == c {
            proof {
                assert(last_char_at(s@, c, i as int));
                let k = choose|k: int| last_char_at(s@, c, k);
                assert(last_char_at(s@, c, k));
                assert(k == i);
                assert(s@.contains(c));
                assert(s@.subrange(i + 1, s@.len() as int) =~= s@.skip(i + 1));
            }
            return Some(s.substring_char(i + 1, v.len()));
        }
    }
    None
}

/// Does `s` begin with `pat`?
pub fn begins(s: &str, pat: &str) -> (r: bool)
    ensures
        r == starts_with(s@, pat@),
{
    let n: usize = s.unicode_len();
    let m: usize = pat.unicode_len();
    m <= n && same(s.substring_char(0, m), pat)
}

// ---------------------------------------------------------------------------------------------
// Trimming
// ---------------------------------------------------------------------------------------------
/// `s` without the characters of `set` that it begins with.
pub open spec fn trim_start_of(s: Seq<char>, set: CharSet) -> Seq<char>
    decreases s.len(),
{
    if s.len() > 0 && set.has(s[0]) {
        trim_start_of(s.drop_first(), set)
    } else {
        s
    }
}

/// `s` without the characters of `set` that it ends with.
pub open spec fn trim_end_of(s: Seq<char>, set: CharSet) -> Seq<char>
    decreases s.len(),
{
    if s.len() > 0 && set.has(s.last()) {
        trim_end_of(s.drop_last(), set)
    } else {
        s
    }
}

/// `s` without the characters of `set` at either end.
pub open spec fn strip_of(s: Seq<char>, set: CharSet) -> Seq<char> {
    trim_end_of(trim_start_of(s, set), set)
}

/// `s` without white space at either end.
pub open spec fn trim_of(s: Seq<char>) -> Seq<char> {
    strip_of(s, CharSet::White)
}

/// The text with the characters of `set` at its beginning taken away.
pub fn trim_start<'a>(s: &'a str, set: CharSet) -> (r: &'a str)
    ensures
        r@ == trim_start_of(s@, set),
{
    let v: Vec<char> = chars_of(s);
    let mut i: usize = 0;
    assert(s@.skip(0) =~= s@);
    while i < v.len() && set.has_char(v[i])
        invariant
            v@ == s@,
            i <= v@.len(),
            trim_start_of(s@.skip(i as int), set) == trim_start_of(s@, set),
        decreases v@.len() - i,
    {
        assert(s@.skip(i as int).drop_first() =~= s@.skip(i + 1));
        i = i + 1;
    }
    assert(s@.subrange(i as int, s@.len() as int) =~= s@.skip(i as int));
    s.substring_char(i, v.len())
}

/// The text with the characters of `set` at its end taken away.
pub fn trim_end<'a>(s: &'a str, set: CharSet) -> (r: &'a str)
    ensures
        r@ == trim_end_of(s@, set),
{
    let v: Vec<char> = chars_of(s);
    let mut i: usize = v.len();
    assert(s@.take(s@.len() as int) =~= s@);
    while i > 0 && set.has_char(v[i - 1])
        invariant
            v@ == s@,
            i <= v@.len(),
            trim_end_of(s@.take(i as int), set) == trim_end_of(s@, set),
        decreases i,
    {
        assert(s@.take(i as int).drop_last() =~= s@.take(i - 1));
        i = i - 1;
    }
    assert(s@.subrange(0, i as int) =~= s@.take(i as int));
    s.substring_char(0, i)
}

/// `s` without the copies of `p` that it begins with.
pub open spec fn trim_prefixes_of(s: Seq<char>, p: Seq<char>) -> Seq<char>
    decreases s.len(),
{
    if p.len() > 0 && starts_with(s, p) {
        trim_prefixes_of(s.skip(p.len() as int), p)
    } else {
        s
    }
}

/// The text with the copies of `p` at its beginning taken away.
pub fn trim_prefixes<'a>(s: &'a str, p: &str) -> (r: &'a str)
    requires
        p@.len() > 0,
    ensures
        r@ == trim_prefixes_of(s@, p@),
{
    let mut rest: &'a str = s;
    let m: usize = p.unicode_len();
    while begins(rest, p)
        invariant
            m == p@.len(),
            m > 0,
            trim_prefixes_of(rest@, p@) == trim_prefixes_of(s@, p@),
        decreases rest@.len(),
    {
        let n: usize = rest.unicode_len();
        assert(rest@.subrange(m as int, n as int) =~= rest@.skip(m as int));
        rest = rest.substring_char(m, n);
    }
    rest
}

/// The text with the characters of `set` at both ends taken away.
pub fn strip<'a>(s: &'a str, set: CharSet) -> (r: &'a str)
    ensures
        r@ == strip_of(s@, set),
{
    trim_end(trim_start(s, set), set)
}

/// The text without white space at either end.
pub fn trim<'a>(s: &'a str) -> (r: &'a str)
    ensures
        r@ == trim_of(s@),
{
    strip(s, CharSet::White)
}

/// A text whose first and last characters are not in the set is kept whole.
pub proof fn lemma_strip_keeps(s: Seq<char>, set: CharSet)
    requires
        s.len() > 0 ==> !set.has(s[0]) && !set.has(s.last()),
    ensures
        strip_of(s, set) == s,
{
}

// ---------------------------------------------------------------------------------------------
// Splitting
// ---------------------------------------------------------------------------------------------
/// The pieces of `s` between the characters of `set`; there is one piece more than separators.
pub open spec fn split_of(s: Seq<char>, set: CharSet) -> Seq<Seq<char>>
    decreases s.len(),
{
    if s.len() == 0 {
        seq![Seq::<char>::empty()]
    } else {
        let before = split_of(s.drop_last(), set);
        if set.has(s.last()) {
            before.push(Seq::<char>::empty())
        } else {
            before.drop_last().push(before.last().push(s.last()))
        }
    }
}

/// The lines of `s`: a line ends at a line feed, or at a carriage return and a line feed; what
/// follows the last line feed is a line only if it is not empty.
pub open spec fn lines_of(s: Seq<char>) -> Seq<Seq<char>> {
    let pieces = split_of(s, CharSet::One('\n'));
    let ended = (pieces.len() - 1) as nat;
    Seq::new(
        if pieces.last().len() == 0 {
            ended
        } else {
            ended + 1
        },
        |i: int|
            if i < ended {
                without_cr(pieces[i])
            } else {
                pieces[i]
            },
    )
}

/// `s` without the carriage return that it ends with, if it does.
pub open spec fn without_cr(s: Seq<char>) -> Seq<char> {
    if s.len() > 0 && s.last() == '\r' {
        s.drop_last()
    } else {
        s
    }
}

/// The words of `s`: what stands between white space.
pub open spec fn words_of(s: Seq<char>) -> Seq<Seq<char>> {
    split_of(s, CharSet::White).filter(|w: Seq<char>| w.len() > 0)
}

pub proof fn lemma_split_nonempty(s: Seq<char>, set: CharSet)
    ensures
        split_of(s, set).len() > 0,
    decreases s.len(),
{
    if s.len() > 0 {
        lemma_split_nonempty(s.drop_last(), set);
    }
}

/// No character of the set stands in `s`.
pub open spec fn free_of(s: Seq<char>, set: CharSet) -> bool {
    forall|i: int| 0 <= i < s.len() ==> !set.has(#[trigger] s[i])
}

/// A text without separators is a single piece.
pub proof fn lemma_split_free(s: Seq<char>, set: CharSet)
    requires
        free_of(s, set),
    ensures
        split_of(s, set) == seq![s],
    decreases s.len(),
{
    if s.len() > 0 {
        assert(!set.has(s[s.len() - 1]));
        assert(free_of(s.drop_last(), set)) by {
            assert forall|i: int| 0 <= i < s.drop_last().len() implies !set.has(
                #[trigger] s.drop_last()[i],
            ) by {
                assert(!set.has(s[i]));
            }
        }
        lemma_split_free(s.drop_last(), set);
        assert(s.drop_last().push(s.last()) =~= s);
        assert(seq![s.drop_last()].drop_last().push(s) =~= seq![s]);
    } else {
        assert(s =~= Seq::<char>::empty());
    }
}

/// The pieces of two texts with a separator between them are the pieces of the one and then those
/// of the other.
pub proof fn lemma_split_concat(a: Seq<char>, c: char, b: Seq<char>, set: CharSet)
    requires
        set.has(c),
    ensures
        split_of(a.push(c) + b, set) == split_of(a, set) + split_of(b, set),
    decreases b.len(),
{
    let s = a.push(c) + b;
    if b.len() == 0 {
        assert(s =~= a.push(c));
        assert(a.push(c).drop_last() =~= a);
        assert(split_of(s, set) =~= split_of(a, set) + split_of(b, set));
    } else {
        lemma_split_concat(a, c, b.drop_last(), set);
        lemma_split_nonempty(b.drop_last(), set);
        assert(s.drop_last() =~= a.push(c) + b.drop_last());
        assert(s.last() == b.last());
        let before = split_of(b.drop_last(), set);
        let all = split_of(a, set) + before;
        assert(all.last() == before.last());
        assert(split_of(s, set) =~= split_of(a, set) + split_of(b, set));
    }
}

/// The pieces of the text between the characters of `set`.
pub fn split(s: &str, set: CharSet) -> (r: Vec<String>)
    ensures
        texts(r@) == split_of(s@, set),
        r@.len() > 0,
{
    let v: Vec<char> = chars_of(s);
    let mut done: Vec<String> = Vec::new();
    let mut piece = String::new();
    assert(texts(done@).push(piece@) =~= split_of(s@.take(0), set));
    for i in 0..v.len()
        invariant
            v@ == s@,
            texts(done@).push(piece@) == split_of(s@.take(i as int), set),
    {
        let ghost before = split_of(s@.take(i as int), set);
        let ghost whole = s@.take(i + 1);
        proof {
            assert(whole.drop_last() =~= s@.take(i as int));
            assert(whole.last() == v@[i as int]);
            assert(texts(done@).push(piece@).last() == piece@);
            assert(texts(done@).push(piece@).drop_last() =~= texts(done@));
        }
        if set.has_char(v[i]) {
            let ghost done0 = done@;
            let ghost piece0 = piece@;
            done.push(piece);
            piece = String::new();
            assert(texts(done@) =~= texts(done0).push(piece0));
        } else {
            piece.push(v[i]);
        }
    }
    assert(s@.take(s@.len() as int) =~= s@);
    let ghost done0 = done@;
    let ghost piece0 = piece@;
    done.push(piece);
    assert(texts(done@) =~= texts(done0).push(piece0));
    done
}

/// The lines of the text.
pub fn lines(s: &str) -> (r: Vec<String>)
    ensures
        texts(r@) == lines_of(s@),
{
    let pieces: Vec<String> = split(s, CharSet::One('\n'));
    let ended: usize = pieces.len() - 1;
    let mut r: Vec<String> = Vec::new();
    let ghost p = split_of(s@, CharSet::One('\n'));
    for i in 0..ended
        invariant
            texts(pieces@) == p,
            ended == p.len() - 1,
            r@.len() == i,
            forall|k: int| 0 <= k < i ==> (#[trigger] r@[k])@ == without_cr(p[k]),
    {
        assert(texts(pieces@)[i as int] == pieces@[i as int]@);
        let n: usize = pieces[i].as_str().unicode_len();
        if n > 0 && pieces[i].as_str().get_char(n - 1) == '\r' {
            assert(pieces@[i as int]@.subrange(0, n - 1) =~= pieces@[i as int]@.drop_last());
            r.push(pieces[i].as_str().substring_char(0, n - 1).to_owned());
        } else {
            r.push(pieces[i].clone());
        }
    }
    assert(texts(pieces@)[ended as int] == pieces@[ended as int]@);
    if !pieces[ended].as_str().is_empty() {
        r.push(pieces[ended].clone());
    }
    assert(texts(r@) =~= lines_of(s@));
    r
}

/// The words of the text.
pub fn words(s: &str) -> (r: Vec<String>)
    ensures
        texts(r@) == words_of(s@),
{
    let pieces: Vec<String> = split(s, CharSet::White);
    let mut r: Vec<String> = Vec::new();
    let ghost p = split_of(s@, CharSet::White);
    let ghost long = |w: Seq<char>| w.len() > 0;
    proof {
        reveal(Seq::filter);
        assert(texts(r@) =~= p.take(0).filter(long));
    }
    for i in 0..pieces.len()
        invariant
            texts(pieces@) == p,
            long == (|w: Seq<char>| w.len() > 0),
            texts(r@) == p.take(i as int).filter(long),
    {
        proof {
            reveal(Seq::filter);
            assert(p.take(i + 1).drop_last() =~= p.take(i as int));
            assert(texts(pieces@)[i as int] == pieces@[i as int]@);
        }
        if !pieces[i].as_str().is_empty() {
            let ghost r0 = r@;
            r.push(pieces[i].clone());
            assert(texts(r@) =~= texts(r0).push(p[i as int]));
        }
    }
    assert(p.take(p.len() as int) =~= p);
    r
}

/// The pieces of `s` between the copies of `pat`, taken from the left and without overlap.
pub open spec fn split_at_of(s: Seq<char>, pat: Seq<char>) -> Seq<Seq<char>>
    decreases s.len(),
{
    match find_of(s, pat) {
        Some(i) => if 0 <= i <= s.len() - pat.len() && pat.len() > 0 {
            seq![s.take(i)] + split_at_of(s.skip(i + pat.len()), pat)
        } else {
            seq![s]
        },
        None => seq![s],
    }
}

/// The pieces of the text between the copies of `pat`.
pub fn split_at(s: &str, pat: &str) -> (r: Vec<String>)
    requires
        pat@.len() > 0,
    ensures
        texts(r@) == split_at_of(s@, pat@),
{
    let mut done: Vec<String> = Vec::new();
    let mut rest: &str = s;
    let m: usize = pat.unicode_len();
    assert(texts(done@) + split_at_of(rest@, pat@) =~= split_at_of(s@, pat@));
    loop
        invariant
            m == pat@.len(),
            m > 0,
            texts(done@) + split_at_of(rest@, pat@) == split_at_of(s@, pat@),
        decreases rest@.len(),
    {
        let ghost done0 = done@;
        let ghost rest0 = rest@;
        match find(rest, pat) {
            Some(i) => {
                let n: usize = rest.unicode_len();
                done.push(rest.substring_char(0, i).to_owned());
                rest = rest.substring_char(i + m, n);
                assert(rest0.subrange(0, i as int) =~= rest0.take(i as int));
                assert(rest@ =~= rest0.skip(i + m));
                assert(texts(done@) =~= texts(done0).push(rest0.take(i as int)));
                assert(texts(done@) + split_at_of(rest@, pat@) =~= texts(done0) + split_at_of(
                    rest0,
                    pat@,
                ));
            },
            None => {
                done.push(rest.to_owned());
                assert(texts(done@) =~= texts(done0) + seq![rest0]);
                return done;
            },
        }
    }
}

// ---------------------------------------------------------------------------------------------
// Replacing
// ---------------------------------------------------------------------------------------------
/// `s` with every `from`, taken from the left and without overlap, turned into `to`.
pub open spec fn replace_of(s: Seq<char>, from: Seq<char>, to: Seq<char>) -> Seq<char>
    decreases s.len(),
{
    match find_of(s, from) {
        Some(i) => if 0 <= i <= s.len() - from.len() && from.len() > 0 {
            s.take(i) + to + replace_of(s.skip(i + from.len()), from, to)
        } else {
            s
        },
        None => s,
    }
}

/// The text with every `from` turned into `to`.
pub fn replace(s: &str, from: &str, to: &str) -> (r: String)
    requires
        from@.len() > 0,
    ensures
        r@ == replace_of(s@, from@, to@),
{
    let mut out = String::new();
    let mut rest: &str = s;
    let m: usize = from.unicode_len();
    assert(out@ + replace_of(rest@, from@, to@) =~= replace_of(s@, from@, to@));
    loop
        invariant
            m == from@.len(),
            m > 0,
            out@ + replace_of(rest@, from@, to@) == replace_of(s@, from@, to@),
        decreases rest@.len(),
    {
        match find(rest, from) {
            Some(i) => {
                let n: usize = rest.unicode_len();
                let ghost out0 = out@;
                let ghost rest0 = rest@;
                out.append(rest.substring_char(0, i));
                out.append(to);
                rest = rest.substring_char(i + m, n);
                assert(rest0.subrange(0, i as int) =~= rest0.take(i as int));
                assert(rest@ =~= rest0.skip(i + m));
                assert(out@ + replace_of(rest@, from@, to@) =~= out0 + replace_of(
                    rest0,
                    from@,
                    to@,
                ));
            },
            None => {
                out.append(rest);
                return out;
            },
        }
    }
}

// ---------------------------------------------------------------------------------------------
// Joining
// ---------------------------------------------------------------------------------------------
/// The texts in order, with `sep` between neighbours.
pub open spec fn join_of(parts: Seq<Seq<char>>, sep: Seq<char>) -> Seq<char>
    decreases parts.len(),
{
    if parts.len() == 0 {
        Seq::empty()
    } else if parts.len() == 1 {
        parts[0]
    } else {
        join_of(parts.drop_last(), sep) + sep + parts.last()
    }
}

/// The strings in order, with `sep` between neighbours.
pub fn join(parts: &[String], sep: &str) -> (r: String)
    ensures
        r@ == join_of(texts(parts@), sep@),
{
    let mut out = String::new();
    let ghost p = texts(parts@);
    for i in 0..parts.len()
        invariant
            p == texts(parts@),
            out@ == join_of(p.take(i as int), sep@),
    {
        assert(p[i as int] == parts@[i as int]@);
        assert(p.take(i + 1).drop_last() =~= p.take(i as int));
        if i > 0 {
            out.append(sep);
        }
        out.append(parts[i].as_str());
        assert(out@ =~= join_of(p.take(i + 1), sep@));
    }
    assert(p.take(p.len() as int) =~= p);
    out
}

// ---------------------------------------------------------------------------------------------
// Letter case
// ---------------------------------------------------------------------------------------------
/// `s` with ASCII capitals made small.
pub open spec fn ascii_lower_of(s: Seq<char>) -> Seq<char> {
    s.map_values(|c: char| lower_char(c))
}

/// `s` with ASCII small letters made capitals.
pub open spec fn ascii_upper_of(s: Seq<char>) -> Seq<char> {
    s.map_values(|c: char| upper_char(c))
}

/// An ASCII small letter becomes its capital; any other character stays.
pub open spec fn upper_char(c: char) -> char {
    if 'a' <= c <= 'z' {
        ((c as u8) - 32) as char
    } else {
        c
    }
}

/// Every character is below 128.
pub open spec fn all_ascii(s: Seq<char>) -> bool {
    forall|i: int| 0 <= i < s.len() ==> (#[trigger] s[i]) as u32 <= 127
}

/// The two texts differ at most in the case of ASCII letters.
pub open spec fn same_but_case(a: Seq<char>, b: Seq<char>) -> bool {
    ascii_lower_of(a) == ascii_lower_of(b)
}

/// The text with ASCII capitals made small.
pub fn ascii_lower(s: &str) -> (r: String)
    ensures
        r@ == ascii_lower_of(s@),
{
    let v: Vec<char> = chars_of(s);
    let mut out = String::new();
    for i in 0..v.len()
        invariant
            v@ == s@,
            out@ == ascii_lower_of(s@.take(i as int)),
    {
        let c: char = v[i];
        let d: char = if 'A' <= c && c <= 'Z' {
            (c as u8 + 32) as char
        } else {
            c
        };
        out.push(d);
        assert(out@ =~= ascii_lower_of(s@.take(i + 1)));
    }
    assert(s@.take(s@.len() as int) =~= s@);
    out
}

/// Do the two texts differ at most in the case of ASCII letters?
pub fn equals_but_case(a: &str, b: &str) -> (r: bool)
    ensures
        r == same_but_case(a@, b@),
{
    same(ascii_lower(a).as_str(), ascii_lower(b).as_str())
}

/// The small-letter form that Unicode gives a text.
pub uninterp spec fn lowercase_of(s: Seq<char>) -> Seq<char>;

/// `str::to_lowercase`: the result is a function of the text, and for a text of ASCII characters
/// alone it is the text with `A` to `Z` made small.
#[verifier::external_body]
pub(crate) fn lowercase(s: &str) -> (r: String)
    ensures
        r@ == lowercase_of(s@),
        all_ascii(s@) ==> r@ == ascii_lower_of(s@),
{
    s.to_lowercase()
}

/// The small-letter form of a text; of ASCII characters only letters change.
pub open spec fn lower_of(s: Seq<char>) -> Seq<char> {
    if all_ascii(s) {
        ascii_lower_of(s)
    } else {
        lowercase_of(s)
    }
}

/// The small-letter form of the text.
pub fn lower(s: &str) -> (r: String)
    ensures
        r@ == lower_of(s@),
{
    lowercase(s)
}

/// The capital-letter form that Unicode gives a text.
pub uninterp spec fn uppercase_of(s: Seq<char>) -> Seq<char>;

/// `str::to_uppercase`: the result is a function of the text, and for a text of ASCII characters
/// alone it is the text with `a` to `z` made capitals.
#[verifier::external_body]
pub(crate) fn uppercase(s: &str) -> (r: String)
    ensures
        r@ == uppercase_of(s@),
        all_ascii(s@) ==> r@ == ascii_upper_of(s@),
{
    s.to_uppercase()
}

/// The capital-letter form of a text; of ASCII characters only letters change.
pub open spec fn upper_of(s: Seq<char>) -> Seq<char> {
    if all_ascii(s) {
        ascii_upper_of(s)
    } else {
        uppercase_of(s)
    }
}

/// The capital-letter form of the text.
pub fn upper(s: &str) -> (r: String)
    ensures
        r@ == upper_of(s@),
{
    uppercase(s)
}

/// The text that bytes stand for, with `U+FFFD` in place of what is not UTF-8.
pub uninterp spec fn lossy_of(bytes: Seq<u8>) -> Seq<char>;

/// `String::from_utf8_lossy`: the result is a function of the bytes, and bytes that are valid
/// UTF-8 give the text that they encode.
#[verifier::external_body]
pub(crate) fn lossy_text(bytes: &[u8]) -> (r: String)
    ensures
        r@ == lossy_of(bytes@),
        vstd::utf8::valid_utf8(bytes@) ==> r@ == vstd::utf8::decode_utf8(bytes@),
{
    String::from_utf8_lossy(bytes).into_owned()
}

/// The text that bytes stand for: what they encode where they are valid UTF-8.
pub open spec fn text_of(bytes: Seq<u8>) -> Seq<char> {
    if vstd::utf8::valid_utf8(bytes) {
        vstd::utf8::decode_utf8(bytes)
    } else {
        lossy_of(bytes)
    }
}

/// The text that the bytes stand for.
pub fn decode(bytes: &[u8]) -> (r: String)
    ensures
        r@ == text_of(bytes@),
{
    lossy_text(bytes)
}

/// `std::str::from_utf8`: the text that the bytes encode, if they are valid UTF-8.
#[verifier::external_body]
pub(crate) fn strict_text(bytes: &[u8]) -> (r: Option<String>)
    ensures
        r is Some <==> vstd::utf8::valid_utf8(bytes@),
        r matches Some(s) ==> s@ == vstd::utf8::decode_utf8(bytes@),
{
    match std::str::from_utf8(bytes) {
        Ok(s) => Some(s.to_owned()),
        Err(_) => None,
    }
}

// ---------------------------------------------------------------------------------------------
// Laws
// ---------------------------------------------------------------------------------------------
/// Of the items that `f` gives something for, the first one counts.
pub proof fn lemma_first_is<A, B>(s: Seq<A>, f: spec_fn(A) -> Option<B>, i: int)
    requires
        0 <= i < s.len(),
        f(s[i]) is Some,
        forall|j: int| 0 <= j < i ==> #[trigger] f(s[j]) is None,
    ensures
        first_some(s, f) == f(s[i]),
    decreases i,
{
    if i > 0 {
        let rest = s.drop_first();
        assert(f(s[0]) is None);
        assert forall|j: int| 0 <= j < i - 1 implies #[trigger] f(rest[j]) is None by {
            assert(f(s[j + 1]) is None);
        }
        lemma_first_is(rest, f, i - 1);
    }
}

/// Of the items that `f` gives something for, the last one counts.
pub proof fn lemma_last_is<A, B>(s: Seq<A>, f: spec_fn(A) -> Option<B>, i: int)
    requires
        0 <= i < s.len(),
        f(s[i]) is Some,
        forall|j: int| i < j < s.len() ==> #[trigger] f(s[j]) is None,
    ensures
        last_some(s, f) == f(s[i]),
    decreases s.len() - i,
{
    if i < s.len() - 1 {
        let rest = s.drop_last();
        assert(f(s[s.len() - 1]) is None);
        assert forall|j: int| i < j < rest.len() implies #[trigger] f(rest[j]) is None by {
            assert(f(s[j]) is None);
        }
        lemma_last_is(rest, f, i);
    }
}

/// Where `f` gives nothing for any item, there is no first and no last one.
pub proof fn lemma_none_is<A, B>(s: Seq<A>, f: spec_fn(A) -> Option<B>)
    requires
        forall|j: int| 0 <= j < s.len() ==> #[trigger] f(s[j]) is None,
    ensures
        first_some(s, f) is None,
        last_some(s, f) is None,
    decreases s.len(),
{
    if s.len() > 0 {
        assert(f(s[0]) is None);
        assert(f(s[s.len() - 1]) is None);
        assert forall|j: int| 0 <= j < s.len() - 1 implies #[trigger] f(
            s.drop_first()[j],
        ) is None by {
            assert(f(s[j + 1]) is None);
        }
        lemma_none_is(s.drop_first(), f);
        assert forall|j: int| 0 <= j < s.len() - 1 implies #[trigger] f(
            s.drop_last()[j],
        ) is None by {
            assert(f(s[j]) is None);
        }
        lemma_none_is(s.drop_last(), f);
    }
}

pub proof fn lemma_trim_start_is(a: Seq<char>, s: Seq<char>, set: CharSet)
    requires
        forall|i: int| 0 <= i < a.len() ==> set.has(#[trigger] a[i]),
        s.len() > 0 ==> !set.has(s[0]),
    ensures
        trim_start_of(a + s, set) == s,
    decreases a.len(),
{
    if a.len() > 0 {
        assert(set.has(a[0]));
        assert((a + s).drop_first() =~= a.drop_first() + s);
        assert forall|i: int| 0 <= i < a.len() - 1 implies set.has(
            #[trigger] a.drop_first()[i],
        ) by {
            assert(set.has(a[i + 1]));
        }
        lemma_trim_start_is(a.drop_first(), s, set);
    } else {
        assert(a + s =~= s);
    }
}

pub proof fn lemma_trim_end_is(s: Seq<char>, b: Seq<char>, set: CharSet)
    requires
        forall|i: int| 0 <= i < b.len() ==> set.has(#[trigger] b[i]),
        s.len() > 0 ==> !set.has(s.last()),
    ensures
        trim_end_of(s + b, set) == s,
    decreases b.len(),
{
    if b.len() > 0 {
        assert(set.has(b[b.len() - 1]));
        assert((s + b).drop_last() =~= s + b.drop_last());
        assert forall|i: int| 0 <= i < b.len() - 1 implies set.has(
            #[trigger] b.drop_last()[i],
        ) by {
            assert(set.has(b[i]));
        }
        lemma_trim_end_is(s, b.drop_last(), set);
    } else {
        assert(s + b =~= s);
    }
}

/// Stripping takes the characters of the set away at both ends, all of them and nothing else.
pub proof fn lemma_strip_is(a: Seq<char>, s: Seq<char>, b: Seq<char>, set: CharSet)
    requires
        forall|i: int| 0 <= i < a.len() ==> set.has(#[trigger] a[i]),
        forall|i: int| 0 <= i < b.len() ==> set.has(#[trigger] b[i]),
        s.len() > 0 ==> !set.has(s[0]) && !set.has(s.last()),
    ensures
        strip_of(a + s + b, set) == s,
{
    if s.len() > 0 {
        assert((s + b)[0] == s[0]);
        assert(a + s + b =~= a + (s + b));
        lemma_trim_start_is(a, s + b, set);
        lemma_trim_end_is(s, b, set);
    } else {
        let all = a + s + b;
        assert forall|i: int| 0 <= i < all.len() implies set.has(#[trigger] all[i]) by {
            if i < a.len() {
                assert(set.has(a[i]));
            } else {
                assert(set.has(b[i - a.len()]));
            }
        }
        assert(all + s =~= all);
        lemma_trim_start_is(all, s, set);
    }
}

/// What stands in a text is found in it.
pub proof fn lemma_contains_part(a: Seq<char>, b: Seq<char>, c: Seq<char>)
    ensures
        contains(a + b + c, b),
{
    assert((a + b + c).subrange(a.len() as int, (a.len() + b.len()) as int) =~= b);
    assert(occurs_at(a + b + c, b, a.len() as int));
}

/// What stands in a part of a text stands in the text.
pub proof fn lemma_contains_within(a: Seq<char>, b: Seq<char>, c: Seq<char>, pat: Seq<char>)
    requires
        contains(b, pat),
    ensures
        contains(a + b + c, pat),
{
    let i = choose|i: int| occurs_at(b, pat, i);
    let s = a + b + c;
    assert(s.subrange(a.len() + i, a.len() + i + pat.len()) =~= b.subrange(i, i + pat.len()));
    assert(occurs_at(s, pat, a.len() + i));
}

/// The pieces of a text hold no separator, and the text is the pieces with a separator between
/// neighbours.
pub proof fn lemma_split_joins(s: Seq<char>, c: char)
    ensures
        join_of(split_of(s, CharSet::One(c)), seq![c]) == s,
        forall|i: int|
            0 <= i < split_of(s, CharSet::One(c)).len() ==> free_of(
                #[trigger] split_of(s, CharSet::One(c))[i],
                CharSet::One(c),
            ),
    decreases s.len(),
{
    let set = CharSet::One(c);
    let all = split_of(s, set);
    if s.len() == 0 {
        assert(s =~= Seq::<char>::empty());
    } else {
        let before = split_of(s.drop_last(), set);
        lemma_split_joins(s.drop_last(), c);
        lemma_split_nonempty(s.drop_last(), set);
        assert(s =~= s.drop_last().push(s.last()));
        if set.has(s.last()) {
            assert(all.drop_last() =~= before);
            assert(join_of(all, seq![c]) =~= s);
        } else {
            assert(free_of(before.last(), set));
            assert(all.drop_last() =~= before.drop_last());
            assert(all.last() =~= before.last().push(s.last()));
            assert(free_of(all.last(), set)) by {
                assert forall|i: int| 0 <= i < all.last().len() implies !set.has(
                    #[trigger] all.last()[i],
                ) by {
                    if i < before.last().len() {
                        assert(!set.has(before.last()[i]));
                    }
                }
            }
            assert(join_of(all, seq![c]) =~= s);
        }
        assert forall|i: int| 0 <= i < all.len() implies free_of(#[trigger] all[i], set) by {
            if i < before.len() - 1 {
                assert(all[i] == before[i]);
            } else if i < before.len() {
                assert(free_of(before[i], set));
            }
        }
    }
}

/// A line that ends in a line feed, or in a carriage return and a line feed, comes before the lines
/// of what follows.
pub proof fn lemma_line_then(a: Seq<char>, b: Seq<char>)
    requires
        free_of(a, CharSet::One('\n')),
        a.len() > 0 ==> a.last() != '\r',
    ensures
        lines_of(a + "\r\n"@ + b) == seq![a] + lines_of(b),
        lines_of(a + "\n"@ + b) == seq![a] + lines_of(b),
{
    reveal_strlit("\r\n");
    reveal_strlit("\n");
    let set = CharSet::One('\n');
    let ar = a.push('\r');
    assert(free_of(ar, set)) by {
        assert forall|i: int| 0 <= i < ar.len() implies !set.has(#[trigger] ar[i]) by {
            if i < a.len() {
                assert(!set.has(a[i]));
            }
        }
    }
    lemma_split_free(a, set);
    lemma_split_free(ar, set);
    lemma_split_concat(a, '\n', b, set);
    lemma_split_concat(ar, '\n', b, set);
    lemma_split_nonempty(b, set);
    assert(a + "\r\n"@ + b =~= ar.push('\n') + b);
    assert(a + "\n"@ + b =~= a.push('\n') + b);
    assert(ar.drop_last() =~= a);
    assert(lines_of(a + "\r\n"@ + b) =~= seq![a] + lines_of(b));
    assert(lines_of(a + "\n"@ + b) =~= seq![a] + lines_of(b));
}

/// What is behind the last line feed is a line, if it is not empty.
pub proof fn lemma_last_line(a: Seq<char>)
    requires
        free_of(a, CharSet::One('\n')),
    ensures
        a.len() > 0 ==> lines_of(a) == seq![a],
        a.len() == 0 ==> lines_of(a).len() == 0,
{
    lemma_split_free(a, CharSet::One('\n'));
    if a.len() > 0 {
        assert(lines_of(a) =~= seq![a]);
    }
}

/// What follows the last separator is what stands behind it.
pub proof fn lemma_after_last_is(a: Seq<char>, c: char, b: Seq<char>)
    requires
        free_of(b, CharSet::One(c)),
    ensures
        after_last(a.push(c) + b, c) == Some(b),
{
    let s = a.push(c) + b;
    let set = CharSet::One(c);
    assert(s[a.len() as int] == c);
    assert forall|j: int| a.len() < j < s.len() implies s[j] != c by {
        assert(!set.has(b[j - a.len() - 1]));
    }
    assert(last_char_at(s, c, a.len() as int));
    let i = choose|i: int| last_char_at(s, c, i);
    assert(last_char_at(s, c, i));
    assert(i == a.len());
    assert(s.skip(i + 1) =~= b);
}

/// Making letters small adds 32 to the code of `A` to `Z` and changes nothing else; making them
/// capitals undoes it.
pub proof fn lemma_letter_case(s: Seq<char>, i: int)
    requires
        0 <= i < s.len(),
    ensures
        ascii_lower_of(s).len() == s.len(),
        ascii_upper_of(s).len() == s.len(),
        65 <= s[i] as u32 <= 90 ==> ascii_lower_of(s)[i] as u32 == s[i] as u32 + 32,
        !(65 <= s[i] as u32 <= 90) ==> ascii_lower_of(s)[i] == s[i],
        97 <= s[i] as u32 <= 122 ==> ascii_upper_of(s)[i] as u32 == s[i] as u32 - 32,
        !(97 <= s[i] as u32 <= 122) ==> ascii_upper_of(s)[i] == s[i],
        same_but_case(ascii_upper_of(s), s),
{
    assert(ascii_lower_of(ascii_upper_of(s)) =~= ascii_lower_of(s)) by {
        assert forall|k: int| 0 <= k < s.len() implies lower_char(#[trigger] upper_char(s[k]))
            == lower_char(s[k]) by {}
    }
}

/// What stands between the end of one part and the beginning of the next is found with both.
pub proof fn lemma_contains_between(
    p: Seq<char>,
    a: Seq<char>,
    x: Seq<char>,
    b: Seq<char>,
    q: Seq<char>,
    open: Seq<char>,
    close: Seq<char>,
)
    requires
        a.len() >= open.len(),
        a.skip(a.len() - open.len()) == open,
        starts_with(b, close),
    ensures
        contains(p + a + x + b + q, open + x + close),
{
    let s = p + a + x + b + q;
    let before = p + a.take(a.len() - open.len());
    let after = b.skip(close.len() as int) + q;
    assert(a =~= a.take(a.len() - open.len()) + open);
    assert(b =~= b.subrange(0, close.len() as int) + b.skip(close.len() as int));
    assert(s =~= before + (open + x + close) + after);
    lemma_contains_part(before, open + x + close, after);
}

/// A word ends at white space, and the words of what follows come behind it; white space before a
/// word does not count.
pub proof fn lemma_word_then(word: Seq<char>, gap: char, rest: Seq<char>)
    requires
        word.len() > 0,
        free_of(word, CharSet::White),
        is_white(gap),
    ensures
        words_of(word.push(gap) + rest) == seq![word] + words_of(rest),
        words_of(seq![gap] + rest) == words_of(rest),
        words_of(word) == seq![word],
{
    let full = |w: Seq<char>| w.len() > 0;
    let set = CharSet::White;
    let none = Seq::<char>::empty();
    lemma_split_free(word, set);
    lemma_split_concat(word, gap, rest, set);
    lemma_split_concat(none, gap, rest, set);
    assert(none.push(gap) + rest =~= seq![gap] + rest);
    Seq::filter_distributes_over_add(seq![word], split_of(rest, set), full);
    Seq::filter_distributes_over_add(seq![none], split_of(rest, set), full);
    assert(split_of(none, set) =~= seq![none]);
    assert(seq![word].filter(full) =~= seq![word]) by {
        reveal(Seq::filter);
        assert(seq![word].drop_last() =~= Seq::<Seq<char>>::empty());
    }
    assert(seq![none].filter(full) =~= Seq::<Seq<char>>::empty()) by {
        reveal(Seq::filter);
        assert(seq![none].drop_last() =~= Seq::<Seq<char>>::empty());
        assert(Seq::<Seq<char>>::empty().filter(full) =~= Seq::<Seq<char>>::empty());
        assert(!full(seq![none].last()));
    }
    assert(Seq::<Seq<char>>::empty() + words_of(rest) =~= words_of(rest));
}

/// A pattern that does not end before it does is found behind what stands before it.
pub proof fn lemma_found_first(before: Seq<char>, short: Seq<char>, c: char, tail: Seq<char>)
    requires
        !contains(before + short, short.push(c)),
    ensures
        find_of(before + short.push(c) + tail, short.push(c)) == Some(before.len() as int),
        (before + short.push(c) + tail).skip((before.len() + short.len() + 1) as int) == tail,
        (before + short.push(c) + tail).take(before.len() as int) == before,
{
    let pat = short.push(c);
    let output = before + pat + tail;
    let n = before.len() as int;
    let head = before + short;
    assert(output.subrange(n, n + pat.len()) =~= pat);
    assert forall|j: int| 0 <= j < n implies !occurs_at(output, pat, j) by {
        if occurs_at(output, pat, j) {
            assert(head.subrange(j, j + pat.len()) =~= output.subrange(j, j + pat.len()));
            assert(occurs_at(head, pat, j));
        }
    }
    lemma_find_is(output, pat, n);
    assert(output.skip((before.len() + short.len() + 1) as int) =~= tail);
    assert(output.take(n) =~= before);
}

/// Of the ASCII characters, white space is the space and those with the codes 9 to 13; digits are
/// those with the codes 48 to 57.
pub proof fn lemma_ascii_kinds(c: char)
    requires
        c as u32 <= 127,
    ensures
        is_white(c) <==> c as u32 == 32 || 9 <= c as u32 <= 13,
        is_digit(c) <==> 48 <= c as u32 <= 57,
{
}

/// Replacing leaves what is not replaced, and puts the new text where the old one stood.
pub proof fn lemma_replaced(a: Seq<char>, from: Seq<char>, to: Seq<char>, b: Seq<char>)
    requires
        from.len() > 0,
        first_at(a + from + b, from, a.len() as int),
    ensures
        replace_of(a + from + b, from, to) == a + to + replace_of(b, from, to),
        !contains(b, from) ==> replace_of(b, from, to) == b,
{
    let s = a + from + b;
    lemma_find_is(s, from, a.len() as int);
    assert(s.take(a.len() as int) =~= a);
    assert(s.skip((a.len() + from.len()) as int) =~= b);
}

} // verus!
