//! Reading numbers from identifier text: integers in the decimal form that
//! Rust's integer parsing accepts, and recognition of the text that Rust's
//! floating-point parsing accepts (used only to word an error).
use vstd::prelude::*;
use vstd::string::StrSliceExecFns;
use crate::text::{eq_ignore_ascii_case, eq_ignore_case};

verus! {

pub open spec fn is_digit(c: char) -> bool {
    '0' <= c && c <= '9'
}

pub open spec fn is_sign(c: char) -> bool {
    c == '+' || c == '-'
}

pub open spec fn is_exp_mark(c: char) -> bool {
    c == 'e' || c == 'E'
}

pub open spec fn all_digits(s: Seq<char>) -> bool {
    forall|i: int| 0 <= i < s.len() ==> is_digit(#[trigger] s[i])
}

/// The value of a run of decimal digits.
pub open spec fn digits_value(s: Seq<char>) -> int
    decreases s.len(),
{
    if s.len() == 0 {
        0
    } else {
        digits_value(s.drop_last()) * 10 + (s.last() as int - '0' as int)
    }
}

/// The integer that `s` denotes: an optional sign (`-` only where `signed`)
/// followed by one or more decimal digits.
pub open spec fn int_literal(s: Seq<char>, signed: bool) -> Option<int> {
    if s.len() > 1 && s[0] == '+' && all_digits(s.drop_first()) {
        Some(digits_value(s.drop_first()))
    } else if signed && s.len() > 1 && s[0] == '-' && all_digits(s.drop_first()) {
        Some(-digits_value(s.drop_first()))
    } else if s.len() > 0 && all_digits(s) {
        Some(digits_value(s))
    } else {
        None
    }
}

pub open spec fn without_sign(s: Seq<char>) -> Seq<char> {
    if s.len() > 0 && is_sign(s[0]) {
        s.drop_first()
    } else {
        s
    }
}

/// Digits with at most one decimal point, and at least one digit.
pub open spec fn mantissa_ok(m: Seq<char>) -> bool {
    &&& forall|i: int| 0 <= i < m.len() ==> is_digit(#[trigger] m[i]) || m[i] == '.'
    &&& forall|i: int, j: int|
        0 <= i < m.len() && 0 <= j < m.len() && #[trigger] m[i] == '.' && #[trigger] m[j] == '.'
            ==> i == j
    &&& exists|i: int| 0 <= i < m.len() && is_digit(#[trigger] m[i])
}

pub open spec fn exponent_ok(e: Seq<char>) -> bool {
    without_sign(e).len() > 0 && all_digits(without_sign(e))
}

/// A mantissa, optionally followed by `e` or `E` and an exponent.
pub open spec fn number_ok(t: Seq<char>) -> bool {
    exists|k: int|
        0 <= k <= t.len() && mantissa_ok(#[trigger] t.take(k)) && (k == t.len() || (is_exp_mark(
            t[k],
        ) && exponent_ok(t.skip(k + 1))))
}

/// Text that denotes a real number: an optional sign, then `inf`, `infinity`,
/// `nan` (in any case) or a decimal number with an optional exponent.
pub open spec fn real_literal(s: Seq<char>) -> bool {
    let t = without_sign(s);
    eq_ignore_case(t, "inf"@) || eq_ignore_case(t, "infinity"@) || eq_ignore_case(t, "nan"@)
        || number_ok(t)
}

/// The message for text that is not a number of the required type.
pub open spec fn numeric_error(s: Seq<char>) -> Seq<char> {
    if real_literal(s) {
        "invalid number value"@
    } else {
        "expected number, found non-numeric identifier"@
    }
}

/// The characters of `s`, in order.
pub fn chars_of(s: &str) -> (r: Vec<char>)
    ensures
        r@ == s@,
{
    let n = s.unicode_len();
    let mut r: Vec<char> = Vec::new();
    let mut i: usize = 0;
    while i < n
        invariant
            n == s@.len(),
            i <= n,
            r@ == s@.take(i as int),
        decreases n - i,
    {
        r.push(s.get_char(i));
        i = i + 1;
        assert(r@ =~= s@.take(i as int));
    }
    assert(r@ =~= s@);
    r
}

proof fn lemma_digits_push(s: Seq<char>, c: char)
    ensures
        digits_value(s.push(c)) == digits_value(s) * 10 + (c as int - '0' as int),
{
    assert(s.push(c).drop_last() =~= s);
}

proof fn lemma_digits_nonneg(s: Seq<char>)
    requires
        all_digits(s),
    ensures
        digits_value(s) >= 0,
    decreases s.len(),
{
    if s.len() > 0 {
        lemma_digits_nonneg(s.drop_last());
    }
}

proof fn lemma_digits_monotone(s: Seq<char>, k: int)
    requires
        all_digits(s),
        0 <= k <= s.len(),
    ensures
        digits_value(s.take(k)) <= digits_value(s),
    decreases s.len(),
{
    if k < s.len() {
        assert(s.drop_last().take(k) =~= s.take(k));
        lemma_digits_monotone(s.drop_last(), k);
        lemma_digits_nonneg(s.drop_last());
    } else {
        assert(s.take(k) =~= s);
    }
}

proof fn lemma_unsigned_nonneg(s: Seq<char>)
    requires
        int_literal(s, false).is_some(),
    ensures
        int_literal(s, false).unwrap() >= 0,
{
    if s.len() > 1 && s[0] == '+' && all_digits(s.drop_first()) {
        lemma_digits_nonneg(s.drop_first());
    } else {
        lemma_digits_nonneg(s);
    }
}

/// The value of the digits `c[start..]`, if they are all digits and the
/// value fits in a `u64`.
fn digits_u64(c: &Vec<char>, start: usize) -> (r: Option<u64>)
    requires
        start <= c@.len(),
    ensures
        r.is_some() <==> (all_digits(c@.skip(start as int)) && digits_value(c@.skip(start as int))
            <= u64::MAX),
        r.is_some() ==> r.unwrap() == digits_value(c@.skip(start as int)),
{
    let ghost s = c@.skip(start as int);
    let mut v: u64 = 0;
    let mut i: usize = start;
    while i < c.len()
        invariant
            start <= i <= c@.len(),
            s == c@.skip(start as int),
            all_digits(s.take(i - start)),
            v == digits_value(s.take(i - start)),
        decreases c@.len() - i,
    {
        let ch = c[i];
        if !('0' <= ch && ch <= '9') {
            assert(s[i - start] == ch);
            return None;
        }
        let d = (ch as u32 - '0' as u32) as u64;
        proof {
            assert(s.take(i - start + 1) =~= s.take(i - start).push(ch));
            lemma_digits_push(s.take(i - start), ch);
        }
        if v > (u64::MAX - d) / 10 {
            proof {
                assert(all_digits(s.take(i - start + 1)));
                if all_digits(s) {
                    lemma_digits_monotone(s, i - start + 1);
                }
            }
            return None;
        }
        v = v * 10 + d;
        i = i + 1;
    }
    assert(s.take(i - start) =~= s);
    Some(v)
}

/// The integer that `c` denotes (see `int_literal`), if it lies in `lo..=hi`.
fn int_in_range(c: &Vec<char>, signed: bool, lo: i128, hi: i128) -> (r: Option<i128>)
    requires
        -u64::MAX <= lo <= 0 < hi <= u64::MAX,
    ensures
        r.is_some() <==> (int_literal(c@, signed).is_some() && lo <= int_literal(c@, signed).unwrap()
            <= hi),
        r.is_some() ==> r.unwrap() == int_literal(c@, signed).unwrap(),
{
    let ghost s = c@;
    if c.len() > 1 && c[0] == '+' {
        assert(c@.skip(1) =~= s.drop_first());
        match digits_u64(c, 1) {
            Some(v) => {
                if (v as i128) <= hi {
                    Some(v as i128)
                } else {
                    None
                }
            },
            None => {
                proof {
                    if all_digits(s.drop_first()) {
                        lemma_digits_nonneg(s.drop_first());
                    }
                }
                None
            },
        }
    } else if signed && c.len() > 1 && c[0] == '-' {
        assert(c@.skip(1) =~= s.drop_first());
        match digits_u64(c, 1) {
            Some(v) => {
                if -(v as i128) >= lo {
                    Some(-(v as i128))
                } else {
                    None
                }
            },
            None => None,
        }
    } else {
        assert(c@.skip(0) =~= s);
        if c.len() == 0 {
            return None;
        }
        proof {
            if s.len() > 0 && s[0] == '-' {
                assert(!is_digit(s[0]));
            }
            if s.len() > 0 && s[0] == '+' {
                assert(!is_digit(s[0]));
            }
        }
        match digits_u64(c, 0) {
            Some(v) => {
                if (v as i128) <= hi {
                    Some(v as i128)
                } else {
                    None
                }
            },
            None => {
                proof {
                    if all_digits(s) {
                        lemma_digits_nonneg(s);
                    }
                }
                None
            },
        }
    }
}

/// Whether `t[from..to]` consists of digits only.
fn digits_only(t: &Vec<char>, from: usize, to: usize) -> (r: bool)
    requires
        from <= to <= t@.len(),
    ensures
        r == all_digits(t@.subrange(from as int, to as int)),
{
    let mut i: usize = from;
    while i < to
        invariant
            from <= i <= to <= t@.len(),
            forall|j: int| from <= j < i ==> is_digit(#[trigger] t@[j]),
        decreases to - i,
    {
        if !('0' <= t[i] && t[i] <= '9') {
            assert(!is_digit(t@.subrange(from as int, to as int)[i - from]));
            return false;
        }
        i = i + 1;
    }
    assert forall|j: int| 0 <= j < to - from implies is_digit(
        #[trigger] t@.subrange(from as int, to as int)[j],
    ) by {
        assert(is_digit(t@[from + j]));
    }
    true
}

/// Whether `t[..k]` is a valid mantissa.
fn mantissa_check(t: &Vec<char>, k: usize) -> (r: bool)
    requires
        k <= t@.len(),
    ensures
        r == mantissa_ok(t@.take(k as int)),
{
    let ghost m = t@.take(k as int);
    let mut dot: Option<usize> = None;
    let mut digit = false;
    let mut i: usize = 0;
    while i < k
        invariant
            k <= t@.len(),
            m == t@.take(k as int),
            i <= k,
            forall|j: int| 0 <= j < i ==> is_digit(#[trigger] m[j]) || m[j] == '.',
            dot.is_none() ==> forall|j: int| 0 <= j < i ==> #[trigger] m[j] != '.',
            dot.is_some() ==> dot.unwrap() < i && m[dot.unwrap() as int] == '.' && forall|j: int|
                0 <= j < i && #[trigger] m[j] == '.' ==> j == dot.unwrap(),
            digit <==> exists|j: int| 0 <= j < i && is_digit(#[trigger] m[j]),
        decreases k - i,
    {
        let ch = t[i];
        assert(m[i as int] == ch);
        if ch == '.' {
            if dot.is_some() {
                assert(m[dot.unwrap() as int] == '.' && m[i as int] == '.');
                return false;
            }
            dot = Some(i);
        } else if '0' <= ch && ch <= '9' {
            digit = true;
        } else {
            return false;
        }
        i = i + 1;
    }
    digit
}

/// Whether `t` (without sign) is a decimal number with an optional exponent.
fn number_check(t: &Vec<char>) -> (r: bool)
    ensures
        r == number_ok(t@),
{
    let mut k: usize = 0;
    while k < t.len() && !(t[k] == 'e' || t[k] == 'E')
        invariant
            k <= t@.len(),
            forall|j: int| 0 <= j < k ==> !is_exp_mark(#[trigger] t@[j]),
        decreases t@.len() - k,
    {
        k = k + 1;
    }
    let m = mantissa_check(t, k);
    let r = if k == t.len() {
        m
    } else {
        let mut e = k + 1;
        if e < t.len() && (t[e] == '+' || t[e] == '-') {
            e = e + 1;
        }
        let ex = e < t.len() && digits_only(t, e, t.len());
        assert(without_sign(t@.skip(k + 1)) =~= t@.subrange(e as int, t@.len() as int));
        m && ex
    };
    proof {
        if r {
            assert(mantissa_ok(t@.take(k as int)));
        } else {
            assert forall|k2: int|
                0 <= k2 <= t@.len() && mantissa_ok(#[trigger] t@.take(k2)) implies !(k2 == t@.len()
                || (is_exp_mark(t@[k2]) && exponent_ok(t@.skip(k2 + 1)))) by {
                if k2 < k {
                    assert(!is_exp_mark(t@[k2]));
                } else if k2 > k {
                    assert(t@.take(k2)[k as int] == t@[k as int]);
                }
            }
        }
    }
    r
}

/// Whether `s` denotes a real number (see `real_literal`).
pub fn is_real_literal(s: &str) -> (r: bool)
    ensures
        r == real_literal(s@),
{
    let c = chars_of(s);
    let mut t: Vec<char> = Vec::new();
    let mut i: usize = if c.len() > 0 && (c[0] == '+' || c[0] == '-') {
        1
    } else {
        0
    };
    let start = i;
    let ghost w = without_sign(s@);
    assert(w =~= s@.skip(start as int));
    while i < c.len()
        invariant
            start <= i <= c@.len(),
            c@ == s@,
            w == s@.skip(start as int),
            t@ == w.take(i - start),
        decreases c@.len() - i,
    {
        t.push(c[i]);
        i = i + 1;
        assert(t@ =~= w.take(i - start));
    }
    assert(t@ =~= w);
    let word = if start == 1 {
        s.substring_char(1, c.len())
    } else {
        s
    };
    assert(word@ =~= w);
    eq_ignore_ascii_case(word, "inf") || eq_ignore_ascii_case(word, "infinity")
        || eq_ignore_ascii_case(word, "nan") || number_check(&t)
}

/// The error message for `s` where a number was expected.
fn numeric_error_message(s: &str) -> (r: String)
    ensures
        r@ == numeric_error(s@),
{
    if is_real_literal(s) {
        String::from_str("invalid number value")
    } else {
        String::from_str("expected number, found non-numeric identifier")
    }
}

/// The integer that `s` denotes, if it lies in `lo..=hi`.
pub open spec fn int_in(s: Seq<char>, signed: bool, lo: int, hi: int) -> Option<int> {
    match int_literal(s, signed) {
        Some(v) => if lo <= v <= hi {
            Some(v)
        } else {
            None
        },
        None => None,
    }
}

/// Reads an unsigned 64-bit integer.
pub fn parse_u64(s: &str) -> (r: Result<u64, String>)
    ensures
        match r {
            Ok(v) => int_in(s@, false, 0, u64::MAX as int) == Some(v as int),
            Err(e) => int_in(s@, false, 0, u64::MAX as int).is_none() && e@ == numeric_error(s@),
        },
{
    let c = chars_of(s);
    proof {
        if int_literal(s@, false).is_some() {
            lemma_unsigned_nonneg(s@);
        }
    }
    match int_in_range(&c, false, -1, u64::MAX as i128) {
        Some(v) => {
            proof {
                lemma_unsigned_nonneg(s@);
            }
            Ok(v as u64)
        },
        None => Err(numeric_error_message(s)),
    }
}

/// Reads an unsigned integer of the machine's word size.
pub fn parse_usize(s: &str) -> (r: Result<usize, String>)
    ensures
        match r {
            Ok(v) => int_in(s@, false, 0, usize::MAX as int) == Some(v as int),
            Err(e) => int_in(s@, false, 0, usize::MAX as int).is_none() && e@ == numeric_error(
                s@,
            ),
        },
{
    let c = chars_of(s);
    proof {
        if int_literal(s@, false).is_some() {
            lemma_unsigned_nonneg(s@);
        }
    }
    match int_in_range(&c, false, -1, usize::MAX as i128) {
        Some(v) => Ok(v as usize),
        None => Err(numeric_error_message(s)),
    }
}

/// Reads a signed 32-bit integer.
pub fn parse_i32(s: &str) -> (r: Result<i32, String>)
    ensures
        match r {
            Ok(v) => int_in(s@, true, i32::MIN as int, i32::MAX as int) == Some(v as int),
            Err(e) => int_in(s@, true, i32::MIN as int, i32::MAX as int).is_none() && e@
                == numeric_error(s@),
        },
{
    let c = chars_of(s);
    match int_in_range(&c, true, i32::MIN as i128, i32::MAX as i128) {
        Some(v) => Ok(v as i32),
        None => Err(numeric_error_message(s)),
    }
}

} // verus!
