//! Decimal numerals: their values, and parsing of unsigned integers.
use vstd::prelude::*;

verus! {

/// Whether `c` is an ASCII digit.
pub open spec fn is_digit(c: char) -> bool {
    '0' <= c <= '9'
}

/// The value of the ASCII digit `c`.
pub open spec fn digit_value(c: char) -> nat {
    (c as u32 - 48) as nat
}

/// Whether `s` is made of ASCII digits only.
pub open spec fn all_digits(s: Seq<char>) -> bool {
    forall|k: int| 0 <= k < s.len() ==> is_digit(#[trigger] s[k])
}

/// The value of the digit string `s` read in base ten (0 when empty).
pub open spec fn digits_value(s: Seq<char>) -> nat
    decreases s.len(),
{
    if s.len() == 0 {
        0
    } else {
        digits_value(s.drop_last()) * 10 + digit_value(s.last())
    }
}

/// `s.parse::<u64>()`: an optional leading `+` (when something follows it),
/// then one or more ASCII digits whose value fits in a `u64`.
pub open spec fn parse_u64(s: Seq<char>) -> Option<nat> {
    let d = if s.len() > 1 && s[0] == '+' {
        s.drop_first()
    } else {
        s
    };
    if d.len() > 0 && all_digits(d) && digits_value(d) <= u64::MAX {
        Some(digits_value(d))
    } else {
        None
    }
}

/// `s.parse::<u64>().unwrap_or(0)`.
pub open spec fn parse_u64_or_zero(s: Seq<char>) -> nat {
    match parse_u64(s) {
        Some(n) => n,
        None => 0,
    }
}

pub proof fn lemma_digits_value_prefix_le(s: Seq<char>, i: int)
    requires
        0 <= i <= s.len(),
    ensures
        digits_value(s.take(i)) <= digits_value(s),
    decreases s.len() - i,
{
    if i < s.len() {
        lemma_digits_value_prefix_le(s, i + 1);
        assert(s.take(i + 1).drop_last() =~= s.take(i));
    } else {
        assert(s.take(i) =~= s);
    }
}

/// Whether `c` is an ASCII digit.
pub fn is_digit_char(c: char) -> (b: bool)
    ensures
        b == is_digit(c),
{
    '0' <= c && c <= '9'
}

/// The value of the digits `v[a..b]`, or `None` when it exceeds `u64::MAX`.
pub fn digits_value_in(v: &Vec<char>, a: usize, b: usize) -> (r: Option<u64>)
    requires
        a <= b <= v@.len(),
        all_digits(v@.subrange(a as int, b as int)),
    ensures
        match r {
            Some(n) => n == digits_value(v@.subrange(a as int, b as int)),
            None => digits_value(v@.subrange(a as int, b as int)) > u64::MAX,
        },
{
    let ghost d = v@.subrange(a as int, b as int);
    let mut acc: u64 = 0;
    let mut i = a;
    while i < b
        invariant
            a <= i <= b <= v@.len(),
            d == v@.subrange(a as int, b as int),
            all_digits(d),
            acc == digits_value(d.take(i - a)),
        decreases b - i,
    {
        assert(d[i - a] == v@[i as int]);
        assert(is_digit(d[i - a]));
        let dig = (v[i] as u32 - 48) as u64;
        assert(d.take(i - a + 1).drop_last() =~= d.take(i - a));
        match acc.checked_mul(10) {
            Some(m) => match m.checked_add(dig) {
                Some(n) => {
                    acc = n;
                },
                None => {
                    proof {
                        lemma_digits_value_prefix_le(d, i - a + 1);
                    }
                    return None;
                },
            },
            None => {
                proof {
                    lemma_digits_value_prefix_le(d, i - a + 1);
                }
                return None;
            },
        }
        i = i + 1;
    }
    assert(d.take(b - a) =~= d);
    Some(acc)
}

/// `s.parse::<u64>()` on the characters `v[a..b]`.
pub fn parse_u64_in(v: &Vec<char>, a: usize, b: usize) -> (r: Option<u64>)
    requires
        a <= b <= v@.len(),
    ensures
        r matches Some(n) ==> parse_u64(v@.subrange(a as int, b as int)) == Some(n as nat),
        r is None ==> parse_u64(v@.subrange(a as int, b as int)) is None,
{
    let ghost s = v@.subrange(a as int, b as int);
    let mut start = a;
    assert(b - a > 1 ==> s[0] == v@[a as int]);
    if b - a > 1 && v[a] == '+' {
        start = a + 1;
        assert(s.drop_first() =~= v@.subrange(start as int, b as int));
    } else {
        assert(s =~= v@.subrange(start as int, b as int));
    }
    if start == b {
        assert(s.len() == 0);
        assert(parse_u64(s) is None);
        return None;
    }
    let ghost d = v@.subrange(start as int, b as int);
    assert(d == (if s.len() > 1 && s[0] == '+' { s.drop_first() } else { s }));
    let mut i = start;
    while i < b
        invariant
            start <= i <= b <= v@.len(),
            s == v@.subrange(a as int, b as int),
            d == v@.subrange(start as int, b as int),
            d == (if s.len() > 1 && s[0] == '+' { s.drop_first() } else { s }),
            forall|k: int| start <= k < i ==> is_digit(#[trigger] v@[k]),
        decreases b - i,
    {
        if !is_digit_char(v[i]) {
            assert(v@.subrange(start as int, b as int)[i - start] == v@[i as int]);
            return None;
        }
        i = i + 1;
    }
    assert forall|k: int| 0 <= k < b - start implies is_digit(
        #[trigger] v@.subrange(start as int, b as int)[k],
    ) by {
        assert(v@.subrange(start as int, b as int)[k] == v@[k + start]);
    }
    digits_value_in(v, start, b)
}

} // verus!
