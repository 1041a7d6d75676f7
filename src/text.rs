//! Character classes and small scanners over sequences of characters.

use vstd::prelude::*;
use vstd::std_specs::iter::IteratorSpec;

verus! {

/// The characters with the Unicode `White_Space` property.
pub open spec fn is_white_space(c: char) -> bool {
    let v = c as u32;
    ||| 0x09 <= v <= 0x0D
    ||| v == 0x20
    ||| v == 0x85
    ||| v == 0xA0
    ||| v == 0x1680
    ||| 0x2000 <= v <= 0x200A
    ||| v == 0x2028
    ||| v == 0x2029
    ||| v == 0x202F
    ||| v == 0x205F
    ||| v == 0x3000
}

/// Whether `c` is white space in the Unicode sense.
pub fn is_blank(c: char) -> (r: bool)
    ensures
        r == is_white_space(c),
{
    let v = c as u32;
    (0x09 <= v && v <= 0x0D) || v == 0x20 || v == 0x85 || v == 0xA0 || v == 0x1680 || (0x2000
        <= v && v <= 0x200A) || v == 0x2028 || v == 0x2029 || v == 0x202F || v == 0x205F || v
        == 0x3000
}


/// `s` without its leading white space.
pub open spec fn trim_start(s: Seq<char>) -> Seq<char>
    decreases s.len(),
{
    if s.len() > 0 && is_white_space(s[0]) {
        trim_start(s.drop_first())
    } else {
        s
    }
}

/// `s` without its trailing white space.
pub open spec fn trim_end(s: Seq<char>) -> Seq<char>
    decreases s.len(),
{
    if s.len() > 0 && is_white_space(s.last()) {
        trim_end(s.drop_last())
    } else {
        s
    }
}

/// `s` without leading and trailing white space.
pub open spec fn trim(s: Seq<char>) -> Seq<char> {
    trim_end(trim_start(s))
}

/// Relies on std's `FromIterator<&char>` for `String`: the string holds the
/// collected characters, in order.
#[verifier::external_body]
pub(crate) fn collect_string(cs: &[char]) -> (r: String)
    ensures
        r@ == cs@,
{
    cs.iter().collect()
}

/// The characters of `s`, in order.
pub fn chars_of(s: &str) -> (r: Vec<char>)
    ensures
        r@ == s@,
{
    broadcast use vstd::string::group_string_axioms;

    let mut out: Vec<char> = Vec::new();
    let mut it = s.chars();
    loop
        invariant
            out@ + it.remaining() == s@,
            it.decrease() is Some,
        ensures
            out@ == s@,
        decreases it.decrease()->0,
    {
        match it.next() {
            Some(c) => out.push(c),
            None => {
                assert(out@ + it.remaining() =~= out@);
                break;
            },
        }
    }
    out
}

/// The bounds `(lo, hi)` of the part of `s` that is left once leading and
/// trailing white space is removed.
pub fn trim_bounds(s: &[char]) -> (r: (usize, usize))
    ensures
        r.0 <= r.1 <= s@.len(),
        s@.subrange(r.0 as int, r.1 as int) == trim(s@),
{
    let n = s.len();
    let mut lo: usize = 0;
    proof {
        assert(s@.subrange(0, n as int) =~= s@);
    }
    while lo < n && is_blank(s[lo])
        invariant
            lo <= n == s@.len(),
            trim_start(s@.subrange(lo as int, n as int)) == trim_start(s@),
        decreases n - lo,
    {
        assert(s@.subrange(lo as int, n as int).drop_first() =~= s@.subrange(lo + 1, n as int));
        lo = lo + 1;
    }
    let mut hi: usize = n;
    while hi > lo && is_blank(s[hi - 1])
        invariant
            lo <= hi <= n == s@.len(),
            trim_start(s@) == s@.subrange(lo as int, n as int),
            trim_end(s@.subrange(lo as int, hi as int)) == trim(s@),
        decreases hi - lo,
    {
        assert(s@.subrange(lo as int, hi as int).drop_last() =~= s@.subrange(
            lo as int,
            hi - 1,
        ));
        hi = hi - 1;
    }
    (lo, hi)
}


/// The value of `c` as a digit: `0`-`9` for the decimal digits, `10`-`35`
/// for the Latin letters of either case, and `36` for any other character.
pub open spec fn digit_of(c: char) -> nat {
    let v = c as u32;
    if 0x30 <= v <= 0x39 {
        (v - 0x30) as nat
    } else if 0x61 <= v <= 0x7A {
        (v - 0x61 + 10) as nat
    } else if 0x41 <= v <= 0x5A {
        (v - 0x41 + 10) as nat
    } else {
        36
    }
}

/// Every character of `s` is a digit of base `radix`.
pub open spec fn all_digits(s: Seq<char>, radix: nat) -> bool {
    forall|i: int| 0 <= i < s.len() ==> digit_of(#[trigger] s[i]) < radix
}

/// The number that the digits `s` write in base `radix`, most significant first.
pub open spec fn digits_value(s: Seq<char>, radix: nat) -> nat
    decreases s.len(),
{
    if s.len() == 0 {
        0
    } else {
        digits_value(s.drop_last(), radix) * radix + digit_of(s.last())
    }
}

/// `s` without one leading `+`, if it has one.
pub open spec fn unsigned_digits(s: Seq<char>) -> Seq<char> {
    if s.len() > 0 && s[0] == '+' {
        s.drop_first()
    } else {
        s
    }
}

/// The 32-bit unsigned integer that `s` writes in base `radix`: an optional
/// `+`, then one or more digits, with a value that fits in 32 bits.
pub open spec fn unsigned_value(s: Seq<char>, radix: nat) -> Option<u32> {
    let d = unsigned_digits(s);
    if d.len() > 0 && all_digits(d, radix) && digits_value(d, radix) <= u32::MAX {
        Some(digits_value(d, radix) as u32)
    } else {
        None
    }
}

/// The decimal 32-bit unsigned integer that `s` writes.
pub open spec fn decimal_value(s: Seq<char>) -> Option<u32> {
    unsigned_value(s, 10)
}

/// The value of `c` as a digit, as `digit_of` gives it.
fn digit(c: char) -> (r: u32)
    ensures
        r == digit_of(c),
{
    let v = c as u32;
    if 0x30 <= v && v <= 0x39 {
        v - 0x30
    } else if 0x61 <= v && v <= 0x7A {
        v - 0x61 + 10
    } else if 0x41 <= v && v <= 0x5A {
        v - 0x41 + 10
    } else {
        36
    }
}

/// Reads `s` as an unsigned 32-bit integer in base `radix`.
pub fn parse_unsigned(s: &[char], radix: u32) -> (r: Option<u32>)
    requires
        2 <= radix <= 36,
    ensures
        r == unsigned_value(s@, radix as nat),
{
    let n = s.len();
    let start: usize = if n > 0 && s[0] == '+' {
        1
    } else {
        0
    };
    let ghost d = unsigned_digits(s@);
    assert(d =~= s@.subrange(start as int, n as int));
    if start == n {
        return None;
    }
    let mut acc: u64 = 0;
    let mut big = false;
    let mut i: usize = start;
    while i < n
        invariant
            start <= i <= n == s@.len(),
            d == s@.subrange(start as int, n as int),
            d == unsigned_digits(s@),
            2 <= radix <= 36,
            all_digits(s@.subrange(start as int, i as int), radix as nat),
            big ==> digits_value(s@.subrange(start as int, i as int), radix as nat) > u32::MAX,
            !big ==> acc == digits_value(s@.subrange(start as int, i as int), radix as nat),
            acc <= u32::MAX,
        decreases n - i,
    {
        let ghost prev = s@.subrange(start as int, i as int);
        let ghost next = s@.subrange(start as int, i + 1);
        assert(next.drop_last() =~= prev);
        let dv = digit(s[i]);
        if dv >= radix {
            assert(d[i - start] == s@[i as int]);
            assert(digit_of(d[i - start]) >= radix);
            return None;
        }
        assert(all_digits(next, radix as nat));
        proof {
            let pv = digits_value(prev, radix as nat);
            assert(pv * radix <= pv * radix + dv);
            assert(pv <= pv * radix) by (nonlinear_arith)
                requires
                    radix >= 2,
            ;
        }
        if !big {
            assert(acc * (radix as u64) <= 0xFFFF_FFFFu64 * 36) by (nonlinear_arith)
                requires
                    acc <= 0xFFFF_FFFFu64,
                    radix <= 36,
            ;
            let v = acc * (radix as u64) + dv as u64;
            if v > u32::MAX as u64 {
                big = true;
            } else {
                acc = v;
            }
        }
        i = i + 1;
    }
    assert(s@.subrange(start as int, n as int) == d);
    if big {
        None
    } else {
        Some(acc as u32)
    }
}


/// The lowercase mapping of a character outside ASCII, as the Unicode
/// Character Database and its special casings give it.
pub uninterp spec fn lowercase_of(c: char) -> Seq<char>;

/// The lowercase mapping of `c`: for ASCII, the capitals `A`-`Z` go to
/// `a`-`z` and every other character to itself.
pub open spec fn lowercase(c: char) -> Seq<char> {
    let v = c as u32;
    if v < 0x80 {
        if 0x41 <= v <= 0x5A {
            seq![((v + 32) as u32) as char]
        } else {
            seq![c]
        }
    } else {
        lowercase_of(c)
    }
}

/// `a` and `b` have the same lowercase mapping.
pub open spec fn same_ignoring_case(a: char, b: char) -> bool {
    lowercase(a) == lowercase(b)
}

/// `s` starts with `p`, up to case.
pub open spec fn starts_with_ignoring_case(s: Seq<char>, p: Seq<char>) -> bool {
    &&& p.len() <= s.len()
    &&& forall|i: int| 0 <= i < p.len() ==> same_ignoring_case(#[trigger] s[i], p[i])
}

/// Relies on std's `char::to_lowercase`: the lowercase mapping of `c`, which
/// depends on `c` alone. For ASCII it is the ASCII one: capitals go to small
/// letters, and a character without case, or without a lowercase mapping,
/// maps to itself.
#[verifier::external_body]
pub(crate) fn to_lowercase(c: char) -> (r: Vec<char>)
    ensures
        r@ == lowercase(c),
        (c as u32) >= 0x80 ==> r@ == lowercase_of(c),
{
    c.to_lowercase().collect()
}

/// Whether `a` and `b` hold the same characters.
pub fn same_chars(a: &Vec<char>, b: &Vec<char>) -> (r: bool)
    ensures
        r == (a@ == b@),
{
    if a.len() != b.len() {
        return false;
    }
    let mut i: usize = 0;
    while i < a.len()
        invariant
            i <= a@.len() == b@.len(),
            forall|j: int| 0 <= j < i ==> a@[j] == b@[j],
        decreases a@.len() - i,
    {
        if a[i] != b[i] {
            return false;
        }
        i = i + 1;
    }
    assert(a@ =~= b@);
    true
}

} // verus!
