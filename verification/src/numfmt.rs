//! Decimal text of integers: `to_string` and `str::parse` for `u64`, `u16`
//! and `i64`, with the rules `core` applies.
use vstd::prelude::*;

verus! {

pub open spec fn is_digit(c: char) -> bool {
    '0' <= c && c <= '9'
}

pub open spec fn digit_val(c: char) -> int {
    (c as int) - 48
}

pub open spec fn digit_char(d: int) -> char {
    (d + 48) as char
}

/// Decimal digits of `n`, most significant first, no leading zeros.
pub open spec fn dec(n: nat) -> Seq<char>
    decreases n,
{
    if n < 10 {
        seq![digit_char(n as int)]
    } else {
        dec(n / 10).push(digit_char((n % 10) as int))
    }
}

/// Decimal text of a signed integer.
pub open spec fn idec(x: int) -> Seq<char> {
    if x < 0 {
        seq!['-'] + dec((-x) as nat)
    } else {
        dec(x as nat)
    }
}

pub open spec fn all_digits(s: Seq<char>) -> bool {
    forall|i: int| 0 <= i < s.len() ==> is_digit(s[i])
}

/// Value of a string of decimal digits.
pub open spec fn dec_val(s: Seq<char>) -> int
    decreases s.len(),
{
    if s.len() == 0 {
        0
    } else {
        dec_val(s.drop_last()) * 10 + digit_val(s.last())
    }
}

/// What `str::parse` gives for an unsigned type whose largest value is `max`.
pub open spec fn parse_unsigned(s: Seq<char>, max: int) -> Option<int> {
    let digits = if s.len() > 0 && s[0] == '+' {
        s.drop_first()
    } else {
        s
    };
    if digits.len() > 0 && all_digits(digits) && dec_val(digits) <= max {
        Some(dec_val(digits))
    } else {
        None
    }
}

/// What `str::parse::<i64>` gives.
pub open spec fn parse_signed(s: Seq<char>) -> Option<int> {
    let neg = s.len() > 0 && s[0] == '-';
    let digits = if s.len() > 0 && (s[0] == '+' || s[0] == '-') {
        s.drop_first()
    } else {
        s
    };
    let v = if neg {
        -dec_val(digits)
    } else {
        dec_val(digits)
    };
    if digits.len() > 0 && all_digits(digits) && i64::MIN <= v <= i64::MAX {
        Some(v)
    } else {
        None
    }
}

pub proof fn lemma_dec_val_nonneg(s: Seq<char>)
    requires
        all_digits(s),
    ensures
        dec_val(s) >= 0,
    decreases s.len(),
{
    if s.len() > 0 {
        lemma_dec_val_nonneg(s.drop_last());
    }
}

/// The decimal text of `n` reads back as `n`.
pub proof fn lemma_dec_roundtrip(n: nat)
    ensures
        dec(n).len() >= 1,
        all_digits(dec(n)),
        dec_val(dec(n)) == n,
        dec(n)[0] != '+' && dec(n)[0] != '-',
    decreases n,
{
    if n >= 10 {
        lemma_dec_roundtrip(n / 10);
        let d = dec(n / 10);
        let e = d.push(digit_char((n % 10) as int));
        assert(e.drop_last() == d);
        assert(digit_val(digit_char((n % 10) as int)) == n % 10);
        assert(dec_val(e) == dec_val(d) * 10 + digit_val(e.last()));
        assert(dec(n) == e);
        assert(n == (n / 10) * 10 + n % 10);
        assert(e[0] == d[0]);
        assert forall|i: int| 0 <= i < e.len() implies is_digit(e[i]) by {
            if i < d.len() {
                assert(e[i] == d[i]);
            }
        }
    } else {
        let e = dec(n);
        assert(e.drop_last() =~= Seq::<char>::empty());
        assert(digit_val(digit_char(n as int)) == n);
        assert(e.last() == digit_char(n as int));
        assert(dec_val(e) == dec_val(e.drop_last()) * 10 + digit_val(e.last()));
        assert(dec_val(e.drop_last()) == 0);
    }
}

fn digit(d: u64) -> (c: char)
    requires
        d < 10,
    ensures
        c == digit_char(d as int),
        is_digit(c),
{
    let b: u8 = (d as u8) + 48;
    b as char
}

/// `n.to_string()` as characters.
pub fn u64_chars(n: u64) -> (r: Vec<char>)
    ensures
        r@ == dec(n as nat),
    decreases n,
{
    if n < 10 {
        let mut v: Vec<char> = Vec::new();
        v.push(digit(n));
        proof {
            assert(v@ =~= seq![digit_char(n as int)]);
        }
        v
    } else {
        let mut v = u64_chars(n / 10);
        v.push(digit(n % 10));
        v
    }
}

/// `x.to_string()` as characters for a signed integer.
pub fn i64_chars(x: i64) -> (r: Vec<char>)
    ensures
        r@ == idec(x as int),
{
    if x < 0 {
        let mag: u64 = if x == i64::MIN {
            9223372036854775808u64
        } else {
            (-x) as u64
        };
        let d = u64_chars(mag);
        let mut v: Vec<char> = Vec::new();
        v.push('-');
        crate::text::extend(&mut v, &d);
        proof {
            assert(v@ =~= seq!['-'] + dec((-x) as nat));
        }
        v
    } else {
        u64_chars(x as u64)
    }
}

fn char_digit(c: char) -> (d: u64)
    requires
        is_digit(c),
    ensures
        d as int == digit_val(c),
        d < 10,
{
    ((c as u32) - 48) as u64
}

/// Value of a run of decimal digits, when it does not exceed `max`.
fn digits_value(s: &[char], from: usize, max: u64) -> (r: Option<u64>)
    requires
        from <= s.len(),
        max >= 9,
    ensures
        match r {
            Some(v) => s@.len() > from && all_digits(s@.skip(from as int)) && dec_val(
                s@.skip(from as int),
            ) <= max && v as int == dec_val(s@.skip(from as int)),
            None => !(s@.len() > from && all_digits(s@.skip(from as int)) && dec_val(
                s@.skip(from as int),
            ) <= max),
        },
{
    let ghost t = s@.skip(from as int);
    if from == s.len() {
        return None;
    }
    let mut acc: u64 = 0;
    let mut i = from;
    proof {
        assert(t.take(0) =~= Seq::<char>::empty());
    }
    while i < s.len()
        invariant
            from <= i <= s.len(),
            t == s@.skip(from as int),
            all_digits(t.take(i - from)),
            acc as int == dec_val(t.take(i - from)),
            acc <= max,
            max >= 9,
        decreases s.len() - i,
    {
        let c = s[i];
        proof {
            assert(t[i - from] == c);
            assert(t.take(i - from + 1).drop_last() == t.take(i - from));
            assert(t.take(i - from + 1).last() == c);
        }
        if !('0' <= c && c <= '9') {
            proof {
                assert(!all_digits(t)) by {
                    assert(!is_digit(t[i - from]));
                }
            }
            return None;
        }
        let d = char_digit(c);
        if acc > (max - d) / 10 {
            proof {
                lemma_prefix_value_bound(t, (i - from + 1) as int);
                assert(dec_val(t.take(i - from + 1)) == acc * 10 + d);
                assert(acc * 10 + d > max) by (nonlinear_arith)
                    requires
                        acc > (max - d) / 10,
                        d < 10,
                        d <= max || true,
                ;
            }
            return None;
        }
        proof {
            assert(acc * 10 + d <= max) by (nonlinear_arith)
                requires
                    acc <= (max - d) / 10,
                    d <= max,
            ;
        }
        acc = acc * 10 + d;
        proof {
            let u = t.take(i - from + 1);
            assert forall|k: int| 0 <= k < u.len() implies is_digit(#[trigger] u[k]) by {
                if k < i - from {
                    assert(u[k] == t.take(i - from)[k]);
                }
            }
        }
        i += 1;
    }
    proof {
        assert(t.take(s.len() - from) == t);
    }
    Some(acc)
}

/// A prefix's value never exceeds the value of the whole digit string.
proof fn lemma_prefix_value_bound(t: Seq<char>, k: int)
    requires
        0 <= k <= t.len(),
        all_digits(t.take(k)),
    ensures
        all_digits(t) ==> dec_val(t.take(k)) <= dec_val(t),
    decreases t.len() - k,
{
    if k < t.len() && all_digits(t) {
        assert(all_digits(t.take(k + 1))) by {
            let u = t.take(k + 1);
            assert forall|i: int| 0 <= i < u.len() implies is_digit(#[trigger] u[i]) by {
                assert(u[i] == t[i]);
            }
        }
        lemma_prefix_value_bound(t, k + 1);
        assert(t.take(k + 1).drop_last() == t.take(k));
        assert(t.take(k + 1).last() == t[k]);
        lemma_dec_val_nonneg(t.take(k));
        assert(is_digit(t[k]));
    } else if k == t.len() {
        assert(t.take(k) == t);
    }
}

/// `s.parse::<u64>()`.
pub fn parse_u64(s: &[char]) -> (r: Option<u64>)
    ensures
        match parse_unsigned(s@, u64::MAX as int) {
            Some(v) => r == Some(v as u64),
            None => r is None,
        },
{
    let from: usize = if s.len() > 0 && s[0] == '+' {
        1
    } else {
        0
    };
    proof {
        if from == 1 {
            assert(s@.skip(1) == s@.drop_first());
        } else {
            assert(s@.skip(0) == s@);
        }
    }
    digits_value(s, from, u64::MAX)
}

/// `s.parse::<u16>()`.
pub fn parse_u16(s: &[char]) -> (r: Option<u16>)
    ensures
        match parse_unsigned(s@, u16::MAX as int) {
            Some(v) => r == Some(v as u16),
            None => r is None,
        },
{
    let from: usize = if s.len() > 0 && s[0] == '+' {
        1
    } else {
        0
    };
    proof {
        if from == 1 {
            assert(s@.skip(1) == s@.drop_first());
        } else {
            assert(s@.skip(0) == s@);
        }
    }
    match digits_value(s, from, 65535) {
        Some(v) => Some(v as u16),
        None => None,
    }
}

/// `s.parse::<u32>()`.
pub fn parse_u32(s: &[char]) -> (r: Option<u32>)
    ensures
        match parse_unsigned(s@, u32::MAX as int) {
            Some(v) => r == Some(v as u32),
            None => r is None,
        },
{
    let from: usize = if s.len() > 0 && s[0] == '+' {
        1
    } else {
        0
    };
    proof {
        if from == 1 {
            assert(s@.skip(1) == s@.drop_first());
        } else {
            assert(s@.skip(0) == s@);
        }
    }
    match digits_value(s, from, 4294967295) {
        Some(v) => Some(v as u32),
        None => None,
    }
}

/// `s.parse::<i64>()`.
pub fn parse_i64(s: &[char]) -> (r: Option<i64>)
    ensures
        match parse_signed(s@) {
            Some(v) => r == Some(v as i64),
            None => r is None,
        },
{
    let neg = s.len() > 0 && s[0] == '-';
    let from: usize = if s.len() > 0 && (s[0] == '+' || s[0] == '-') {
        1
    } else {
        0
    };
    proof {
        if from == 1 {
            assert(s@.skip(1) == s@.drop_first());
        } else {
            assert(s@.skip(0) == s@);
        }
    }
    let limit: u64 = if neg {
        9223372036854775808u64
    } else {
        9223372036854775807u64
    };
    let ghost digits = s@.skip(from as int);
    match digits_value(s, from, limit) {
        Some(v) => {
            if neg {
                if v == 9223372036854775808u64 {
                    Some(i64::MIN)
                } else {
                    Some(-(v as i64))
                }
            } else {
                Some(v as i64)
            }
        },
        None => {
            proof {
                if digits.len() > 0 && all_digits(digits) {
                    lemma_dec_val_nonneg(digits);
                }
            }
            None
        },
    }
}

/// Decimal text of every `i64` reads back as the same value.
pub proof fn lemma_i64_roundtrip(x: i64)
    ensures
        parse_signed(idec(x as int)) == Some(x as int),
{
    if x < 0 {
        let m = (-(x as int)) as nat;
        lemma_dec_roundtrip(m);
        let s = idec(x as int);
        assert(s.drop_first() == dec(m));
    } else {
        lemma_dec_roundtrip(x as nat);
    }
}

/// Decimal text of every `u64` reads back as the same value.
pub proof fn lemma_u64_roundtrip(x: u64)
    ensures
        parse_unsigned(dec(x as nat), u64::MAX as int) == Some(x as int),
{
    lemma_dec_roundtrip(x as nat);
}

} // verus!
