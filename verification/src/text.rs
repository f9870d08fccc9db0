//! Character classification and numeric literal recognition used by the reader.
use vstd::prelude::*;

verus! {

/// The Unicode `White_Space` property, which `char::is_whitespace` tests.
pub open spec fn is_white_space(c: char) -> bool {
    let u = c as u32;
    ||| 0x09 <= u <= 0x0D
    ||| u == 0x20
    ||| u == 0x85
    ||| u == 0xA0
    ||| u == 0x1680
    ||| 0x2000 <= u <= 0x200A
    ||| u == 0x2028
    ||| u == 0x2029
    ||| u == 0x202F
    ||| u == 0x205F
    ||| u == 0x3000
}

/// Tests the Unicode `White_Space` property of `c`.
pub fn is_whitespace(c: char) -> (r: bool)
    ensures
        r == is_white_space(c),
{
    let u = c as u32;
    (0x09 <= u && u <= 0x0D) || u == 0x20 || u == 0x85 || u == 0xA0 || u == 0x1680 || (0x2000
        <= u && u <= 0x200A) || u == 0x2028 || u == 0x2029 || u == 0x202F || u == 0x205F || u
        == 0x3000
}

pub open spec fn is_ascii_digit(c: char) -> bool {
    '0' <= c <= '9'
}

pub open spec fn all_digits(s: Seq<char>) -> bool {
    forall|i: int| 0 <= i < s.len() ==> is_ascii_digit(#[trigger] s[i])
}

/// The value of a string of decimal digits.
pub open spec fn digits_value(s: Seq<char>) -> nat
    decreases s.len(),
{
    if s.len() == 0 {
        0
    } else {
        digits_value(s.drop_last()) * 10 + (s.last() as nat - '0' as nat) as nat
    }
}

/// Whether `s` starts with a `+` or `-` sign.
pub open spec fn has_sign(s: Seq<char>) -> bool {
    s.len() > 0 && (s[0] == '+' || s[0] == '-')
}

/// `s` without its leading sign, if it has one.
pub open spec fn unsigned_part(s: Seq<char>) -> Seq<char> {
    if has_sign(s) {
        s.drop_first()
    } else {
        s
    }
}

/// What `str::parse::<i64>` returns: an optional sign followed by at least one decimal
/// digit, whose value fits in an `i64`.
pub open spec fn spec_parse_i64(s: Seq<char>) -> Option<i64> {
    let digits = unsigned_part(s);
    if digits.len() > 0 && all_digits(digits) {
        let v: int = if has_sign(s) && s[0] == '-' {
            -(digits_value(digits) as int)
        } else {
            digits_value(digits) as int
        };
        if i64::MIN <= v <= i64::MAX {
            Some(v as i64)
        } else {
            None
        }
    } else {
        None
    }
}

proof fn lemma_digits_value_push(s: Seq<char>, c: char)
    ensures
        digits_value(s.push(c)) == digits_value(s) * 10 + (c as nat - '0' as nat) as nat,
{
    assert(s.push(c).drop_last() =~= s);
}

/// Parses a decimal integer literal as `str::parse::<i64>` does.
#[verifier::rlimit(40)]
#[verifier::spinoff_prover]
pub fn parse_i64(s: &[char]) -> (r: Option<i64>)
    ensures
        r == spec_parse_i64(s@),
{
    let n = s.len();
    let mut start: usize = 0;
    let mut neg = false;
    if n > 0 && (s[0] == '+' || s[0] == '-') {
        neg = s[0] == '-';
        start = 1;
    }
    let ghost digits = unsigned_part(s@);
    assert(digits =~= s@.subrange(start as int, n as int));
    if start >= n {
        return None;
    }
    // magnitude accumulated so far; `big` once it exceeds 2^63
    let mut acc: u64 = 0;
    let mut big = false;
    let mut i = start;
    while i < n
        invariant
            start <= i <= n,
            n == s@.len(),
            digits == s@.subrange(start as int, n as int),
            digits == unsigned_part(s@),
            neg == (has_sign(s@) && s@[0] == '-'),
            all_digits(s@.subrange(start as int, i as int)),
            !big ==> acc == digits_value(s@.subrange(start as int, i as int)),
            !big ==> acc <= 0x8000_0000_0000_0000u64,
            big ==> digits_value(s@.subrange(start as int, i as int)) > 0x8000_0000_0000_0000u64,
        decreases n - i,
    {
        let c = s[i];
        if !('0' <= c && c <= '9') {
            assert(digits[i - start] == c);
            assert(!is_ascii_digit(digits[i - start]));
            return None;
        }
        let d = (c as u32 - '0' as u32) as u64;
        proof {
            lemma_digits_value_push(s@.subrange(start as int, i as int), c);
            assert(s@.subrange(start as int, i + 1) =~= s@.subrange(start as int, i as int).push(
                c,
            ));
        }
        if !big {
            if acc > 0x0CCC_CCCC_CCCC_CCCCu64 || (acc == 0x0CCC_CCCC_CCCC_CCCCu64 && d > 8) {
                big = true;
            } else {
                acc = acc * 10 + d;
            }
        } else {
            assert(digits_value(s@.subrange(start as int, i + 1)) >= digits_value(
                s@.subrange(start as int, i as int),
            )) by (nonlinear_arith)
                requires
                    digits_value(s@.subrange(start as int, i + 1)) == digits_value(
                        s@.subrange(start as int, i as int),
                    ) * 10 + d,
            ;
        }
        i = i + 1;
    }
    assert(s@.subrange(start as int, n as int) == digits);
    if big {
        None
    } else if neg {
        if acc == 0x8000_0000_0000_0000u64 {
            Some(i64::MIN)
        } else {
            Some(-(acc as i64))
        }
    } else if acc <= 0x7FFF_FFFF_FFFF_FFFFu64 {
        Some(acc as i64)
    } else {
        None
    }
}

} // verus!

verus! {

/// ASCII lower-casing of one character.
pub open spec fn ascii_lower(c: char) -> char {
    if 'A' <= c <= 'Z' {
        ((c as u32) + 32) as char
    } else {
        c
    }
}

/// A decimal mantissa: digits with at most one `.`, and at least one digit.
pub open spec fn is_mantissa(m: Seq<char>) -> bool {
    ||| m.len() > 0 && all_digits(m)
    ||| exists|k: int|
        0 <= k < m.len() && #[trigger] m[k] == '.' && all_digits(m.take(k)) && all_digits(
            m.skip(k + 1),
        ) && m.len() >= 2
}

/// An exponent after `e`: an optional sign and at least one digit.
pub open spec fn is_exponent(x: Seq<char>) -> bool {
    unsigned_part(x).len() > 0 && all_digits(unsigned_part(x))
}

pub open spec fn is_exp_mark(c: char) -> bool {
    c == 'e' || c == 'E'
}

/// A decimal number: a mantissa, optionally followed by `e` or `E` and an exponent.
pub open spec fn is_number(b: Seq<char>) -> bool {
    ||| (forall|i: int| 0 <= i < b.len() ==> !is_exp_mark(#[trigger] b[i])) && is_mantissa(b)
    ||| exists|k: int|
        0 <= k < b.len() && is_exp_mark(#[trigger] b[k]) && is_mantissa(b.take(k)) && is_exponent(
            b.skip(k + 1),
        )
}

/// A decimal float literal: an optional sign, then a decimal number. (Words such as `inf`
/// and `nan` are identifiers.)
pub open spec fn is_float_literal(s: Seq<char>) -> bool {
    is_number(unsigned_part(s))
}

/// The first position in `[from, to)` that holds no decimal digit, or `to`.
fn scan_digits(s: &[char], from: usize, to: usize) -> (r: usize)
    requires
        from <= to <= s@.len(),
    ensures
        from <= r <= to,
        all_digits(s@.subrange(from as int, r as int)),
        r < to ==> !is_ascii_digit(s@[r as int]),
{
    let mut i = from;
    while i < to
        invariant
            from <= i <= to <= s@.len(),
            all_digits(s@.subrange(from as int, i as int)),
        decreases to - i,
    {
        if !('0' <= s[i] && s[i] <= '9') {
            return i;
        }
        assert(s@.subrange(from as int, i + 1) =~= s@.subrange(from as int, i as int).push(s@[i as int]));
        i = i + 1;
    }
    i
}

fn check_mantissa(s: &[char], from: usize, to: usize) -> (r: bool)
    requires
        from <= to <= s@.len(),
    ensures
        r == is_mantissa(s@.subrange(from as int, to as int)),
{
    let ghost m = s@.subrange(from as int, to as int);
    let i = scan_digits(s, from, to);
    if i == to {
        assert(m =~= s@.subrange(from as int, i as int));
        if to > from {
            return true;
        } else {
            return false;
        }
    }
    let ghost k0 = i - from;
    assert(m[k0] == s@[i as int]);
    assert(!all_digits(m)) by {
        assert(!is_ascii_digit(m[k0]));
    }
    if s[i] != '.' {
        assert forall|k: int|
            0 <= k < m.len() && #[trigger] m[k] == '.' implies !all_digits(m.take(k)) by {
            if k < k0 {
                assert(m[k] == s@.subrange(from as int, i as int)[k]);
            } else {
                assert(m.take(k)[k0] == m[k0]);
            }
        }
        return false;
    }
    let j = scan_digits(s, i + 1, to);
    assert(m.take(k0) =~= s@.subrange(from as int, i as int));
    if j == to {
        assert(m.skip(k0 + 1) =~= s@.subrange(i + 1, j as int));
        if to - from >= 2 {
            return true;
        } else {
            assert forall|k: int| 0 <= k < m.len() && #[trigger] m[k] == '.' implies m.len() < 2 by {}
            return false;
        }
    }
    assert forall|k: int|
        0 <= k < m.len() && #[trigger] m[k] == '.' && all_digits(m.take(k)) implies !all_digits(
        m.skip(k + 1),
    ) by {
        if k < k0 {
            assert(m[k] == s@.subrange(from as int, i as int)[k]);
        } else if k > k0 {
            assert(m.take(k)[k0] == m[k0]);
        } else {
            assert(m.skip(k + 1)[j - i - 1] == s@[j as int]);
        }
    }
    false
}

fn check_exponent(s: &[char], from: usize, to: usize) -> (r: bool)
    requires
        from <= to <= s@.len(),
    ensures
        r == is_exponent(s@.subrange(from as int, to as int)),
{
    let ghost x = s@.subrange(from as int, to as int);
    let mut start = from;
    if from < to && (s[from] == '+' || s[from] == '-') {
        start = from + 1;
    }
    assert(unsigned_part(x) =~= s@.subrange(start as int, to as int));
    if start == to {
        return false;
    }
    let i = scan_digits(s, start, to);
    if i == to {
        true
    } else {
        assert(unsigned_part(x)[i - start] == s@[i as int]);
        false
    }
}

fn check_number(s: &[char], from: usize, to: usize) -> (r: bool)
    requires
        from <= to <= s@.len(),
    ensures
        r == is_number(s@.subrange(from as int, to as int)),
{
    let ghost b = s@.subrange(from as int, to as int);
    let mut e = from;
    while e < to && s[e] != 'e' && s[e] != 'E'
        invariant
            from <= e <= to <= s@.len(),
            b == s@.subrange(from as int, to as int),
            forall|i: int| from <= i < e ==> !is_exp_mark(#[trigger] s@[i]),
        decreases to - e,
    {
        e = e + 1;
    }
    if e == to {
        assert forall|i: int| 0 <= i < b.len() implies !is_exp_mark(#[trigger] b[i]) by {
            assert(b[i] == s@[from + i]);
        }
        check_mantissa(s, from, to)
    } else {
        let ghost k0 = e - from;
        assert(b[k0] == s@[e as int]);
        assert(b.take(k0) =~= s@.subrange(from as int, e as int));
        assert(b.skip(k0 + 1) =~= s@.subrange(e + 1, to as int));
        let m = check_mantissa(s, from, e);
        let x = check_exponent(s, e + 1, to);
        assert forall|k: int|
            0 <= k < b.len() && is_exp_mark(#[trigger] b[k]) && is_mantissa(b.take(k))
                implies k == k0 by {
            if k < k0 {
                assert(b[k] == s@[from + k]);
            } else if k > k0 {
                lemma_mantissa_no_exp_mark(b.take(k), k0);
                assert(b.take(k)[k0] == b[k0]);
            }
        }
        assert(!(forall|i: int| 0 <= i < b.len() ==> !is_exp_mark(#[trigger] b[i])));
        m && x
    }
}

proof fn lemma_mantissa_no_exp_mark(m: Seq<char>, k: int)
    requires
        is_mantissa(m),
        0 <= k < m.len(),
    ensures
        !is_exp_mark(m[k]),
{
    if m.len() > 0 && all_digits(m) {
        assert(is_ascii_digit(m[k]));
    } else {
        let d = choose|d: int|
            0 <= d < m.len() && #[trigger] m[d] == '.' && all_digits(m.take(d)) && all_digits(
                m.skip(d + 1),
            ) && m.len() >= 2;
        if k < d {
            assert(m.take(d)[k] == m[k]);
        } else if k > d {
            assert(m.skip(d + 1)[k - d - 1] == m[k]);
        }
    }
}

/// Whether `s` is a decimal float literal.
pub fn check_float_literal(s: &[char]) -> (r: bool)
    ensures
        r == is_float_literal(s@),
{
    let n = s.len();
    let mut start: usize = 0;
    if n > 0 && (s[0] == '+' || s[0] == '-') {
        start = 1;
    }
    assert(unsigned_part(s@) =~= s@.subrange(start as int, n as int));
    check_number(s, start, n)
}

} // verus!

verus! {

/// The characters of `s`, in order.
pub fn chars_of(s: &str) -> (v: Vec<char>)
    ensures
        v@ == s@,
{
    broadcast use vstd::string::group_string_axioms;

    let mut v: Vec<char> = Vec::new();
    for c in it: s.chars()
        invariant
            v@ == it.seq().take(it.index() as int),
    {
        v.push(c);
    }
    v
}

} // verus!

verus! {

/// Appends `c` to `s`: calls `String::push`, which the standard library documents as
/// appending the given char to the end of the string.
#[verifier::external_body]
pub(crate) fn push_char(s: &mut String, c: char)
    ensures
        final(s)@ == old(s)@.push(c),
{
    s.push(c);
}

/// A `String` holding `chars[from..to]`.
pub fn string_from_chars(chars: &[char], from: usize, to: usize) -> (s: String)
    requires
        from <= to <= chars@.len(),
    ensures
        s@ == chars@.subrange(from as int, to as int),
{
    let mut s = String::new();
    let mut i = from;
    while i < to
        invariant
            from <= i <= to <= chars@.len(),
            s@ == chars@.subrange(from as int, i as int),
        decreases to - i,
    {
        push_char(&mut s, chars[i]);
        assert(chars@.subrange(from as int, i + 1) =~= chars@.subrange(from as int, i as int).push(chars@[i as int]));
        i = i + 1;
    }
    s
}

} // verus!

verus! {

/// The decimal digit for `d < 10`.
pub open spec fn digit_char(d: nat) -> char {
    (d + '0' as nat) as char
}

/// The decimal representation of `n`, without leading zeros.
pub open spec fn decimal(n: nat) -> Seq<char>
    decreases n,
{
    if n < 10 {
        seq![digit_char(n)]
    } else {
        decimal(n / 10).push(digit_char(n % 10))
    }
}

/// The decimal representation of an integer, with a `-` for a negative one.
pub open spec fn int_decimal(i: int) -> Seq<char> {
    if i < 0 {
        seq!['-'] + decimal((-i) as nat)
    } else {
        decimal(i as nat)
    }
}

pub(crate) fn push_decimal(s: &mut String, n: u64)
    ensures
        final(s)@ == old(s)@ + decimal(n as nat),
    decreases n,
{
    if n >= 10 {
        push_decimal(s, n / 10);
    }
    let d = (n % 10) as u8;
    push_char(s, (48u8 + d) as char);
    proof {
        if n >= 10 {
            assert(old(s)@ + decimal(n as nat) =~= old(s)@ + decimal((n / 10) as nat) + seq![digit_char((n % 10) as nat)]);
        } else {
            assert(old(s)@ + decimal(n as nat) =~= old(s)@ + seq![digit_char((n % 10) as nat)]);
        }
    }
}

/// Appends the decimal representation of `i` to `s`.
pub(crate) fn push_int(s: &mut String, i: i64)
    ensures
        final(s)@ == old(s)@ + int_decimal(i as int),
{
    if i < 0 {
        push_char(s, '-');
        let m: u64 = if i == i64::MIN {
            0x8000_0000_0000_0000u64
        } else {
            (-i) as u64
        };
        push_decimal(s, m);
        assert(final(s)@ =~= old(s)@ + int_decimal(i as int));
    } else {
        push_decimal(s, i as u64);
    }
}

} // verus!

verus! {

/// The decimal digits of `n` are digits, and they read back as `n`.
pub proof fn lemma_decimal_digits(n: nat)
    ensures
        decimal(n).len() > 0,
        all_digits(decimal(n)),
        digits_value(decimal(n)) == n,
    decreases n,
{
    if n < 10 {
        let s = decimal(n);
        assert(s.drop_last() =~= Seq::<char>::empty());
        assert((digit_char(n) as nat) == n + ('0' as nat));
        assert(digits_value(Seq::<char>::empty()) == 0);
        assert(digits_value(s) == digits_value(s.drop_last()) * 10 + (s.last() as nat - '0' as nat) as nat);
    } else {
        lemma_decimal_digits(n / 10);
        let p = decimal(n / 10);
        let c = digit_char(n % 10);
        lemma_digits_value_push(p, c);
        assert((c as nat) == (n % 10) + ('0' as nat));
        assert((n / 10) * 10 + n % 10 == n) by (nonlinear_arith);
        assert(decimal(n) == p.push(c));
        assert forall|i: int| 0 <= i < p.push(c).len() implies is_ascii_digit(#[trigger] p.push(c)[i]) by {
            if i < p.len() {
                assert(p.push(c)[i] == p[i]);
            }
        }
    }
}

/// An integer's decimal representation, as `Expr` displays it, is read back as the
/// integer by `str::parse::<i64>`.
pub proof fn lemma_parse_int_decimal(i: i64)
    ensures
        spec_parse_i64(int_decimal(i as int)) == Some(i),
{
    if i < 0 {
        let m = (-(i as int)) as nat;
        lemma_decimal_digits(m);
        let s = int_decimal(i as int);
        assert(s == seq!['-'] + decimal(m));
        assert(s[0] == '-');
        assert(unsigned_part(s) =~= decimal(m));
    } else {
        lemma_decimal_digits(i as nat);
        let s = int_decimal(i as int);
        assert(is_ascii_digit(s[0]));
        assert(unsigned_part(s) == s);
    }
}

} // verus!
