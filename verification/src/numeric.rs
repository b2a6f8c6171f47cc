//! Decimal text of integers, and the grammar of floating-point text.
//!
//! Integers are written without padding, with a leading `-` when negative.
//! They are read with an optional sign and one or more ASCII digits. A
//! floating-point value is never computed here: the library keeps its text
//! and only decides whether the text is well-formed.
use vstd::prelude::*;
use crate::text::{Span, has_char};

verus! {

/// `c` is one of `0` to `9`.
pub open spec fn is_digit(c: char) -> bool {
    48 <= c as u32 <= 57
}

/// The number a digit stands for.
pub open spec fn digit_value(c: char) -> nat {
    (c as u32 - 48) as nat
}

/// The digit that stands for a number below ten.
pub open spec fn digit_char(d: nat) -> char {
    if d == 0 {
        '0'
    } else if d == 1 {
        '1'
    } else if d == 2 {
        '2'
    } else if d == 3 {
        '3'
    } else if d == 4 {
        '4'
    } else if d == 5 {
        '5'
    } else if d == 6 {
        '6'
    } else if d == 7 {
        '7'
    } else if d == 8 {
        '8'
    } else {
        '9'
    }
}

/// `s` is one or more digits.
pub open spec fn is_decimal(s: Seq<char>) -> bool {
    s.len() > 0 && forall|i: int| 0 <= i < s.len() ==> is_digit(#[trigger] s[i])
}

/// The number that a run of digits denotes in base ten.
pub open spec fn decimal_value(s: Seq<char>) -> nat
    decreases s.len(),
{
    if s.len() == 0 {
        0
    } else {
        10 * decimal_value(s.drop_last()) + digit_value(s.last())
    }
}

/// `c` is `+` or `-`.
pub open spec fn is_sign(c: char) -> bool {
    c == '+' || c == '-'
}

/// The integer that `s` denotes: an optional sign, then one or more digits.
/// Nothing else is accepted, neither spaces nor an empty text.
pub open spec fn parse_int(s: Seq<char>) -> Option<int> {
    if s.len() > 0 && is_sign(s[0]) {
        let digits = s.skip(1);
        if is_decimal(digits) {
            Some(
                if s[0] == '-' {
                    -(decimal_value(digits) as int)
                } else {
                    decimal_value(digits) as int
                },
            )
        } else {
            None
        }
    } else if is_decimal(s) {
        Some(decimal_value(s) as int)
    } else {
        None
    }
}

/// The 32-bit signed integer that `s` denotes, if it denotes an integer
/// that fits.
pub open spec fn parse_i32(s: Seq<char>) -> Option<i32> {
    match parse_int(s) {
        Some(v) => if i32::MIN <= v <= i32::MAX {
            Some(v as i32)
        } else {
            None
        },
        None => None,
    }
}

/// The digits of `n` in base ten, without leading zeros.
pub open spec fn render_nat(n: nat) -> Seq<char>
    decreases n,
{
    if n < 10 {
        seq![digit_char(n)]
    } else {
        render_nat(n / 10).push(digit_char(n % 10))
    }
}

/// The decimal text of `v`.
pub open spec fn render_int(v: int) -> Seq<char> {
    if v < 0 {
        seq!['-'] + render_nat((-v) as nat)
    } else {
        render_nat(v as nat)
    }
}

/// The decimal text of a natural number is made of digits and denotes it.
pub proof fn lemma_render_nat(n: nat)
    ensures
        is_decimal(render_nat(n)),
        decimal_value(render_nat(n)) == n,
    decreases n,
{
    if n < 10 {
        let s = render_nat(n);
        assert(s.drop_last() =~= Seq::<char>::empty());
        assert(decimal_value(s.drop_last()) == 0);
        assert(s.last() == digit_char(n));
    } else {
        lemma_render_nat(n / 10);
        let s = render_nat(n);
        assert(s.drop_last() =~= render_nat(n / 10));
        assert(s.last() == digit_char(n % 10));
        assert forall|i: int| 0 <= i < s.len() implies is_digit(#[trigger] s[i]) by {
            if i < s.len() - 1 {
                assert(s[i] == render_nat(n / 10)[i]);
            }
        }
    }
}

/// Reading the decimal text of an integer gives the integer back.
pub proof fn lemma_parse_render_int(v: int)
    ensures
        parse_int(render_int(v)) == Some(v),
{
    if v < 0 {
        let n = (-v) as nat;
        lemma_render_nat(n);
        let s = render_int(v);
        assert(s.skip(1) =~= render_nat(n));
        assert(s[0] == '-');
    } else {
        lemma_render_nat(v as nat);
        let s = render_nat(v as nat);
        assert(is_digit(s[0]));
        assert(!is_sign(s[0]));
    }
}

/// The decimal text of an integer holds digits and at most a leading `-`.
pub proof fn lemma_render_int_chars(v: int)
    ensures
        forall|i: int|
            0 <= i < render_int(v).len() ==> is_digit(#[trigger] render_int(v)[i]) || render_int(
                v,
            )[i] == '-',
{
    if v < 0 {
        lemma_render_nat((-v) as nat);
        let s = render_int(v);
        assert forall|i: int| 0 <= i < s.len() implies is_digit(#[trigger] s[i]) || s[i] == '-' by {
            if i > 0 {
                assert(s[i] == render_nat((-v) as nat)[i - 1]);
            }
        }
    } else {
        lemma_render_nat(v as nat);
    }
}

/// Where the run of digits that starts at `from` ends.
pub open spec fn digit_run(s: Seq<char>, from: int) -> int
    decreases s.len() - from,
{
    if 0 <= from < s.len() && is_digit(s[from]) {
        digit_run(s, from + 1)
    } else {
        from
    }
}

/// `c` is the lower-case letter `letter` or its upper-case form.
pub open spec fn is_letter(c: char, letter: char) -> bool {
    c == letter || c as u32 + 32 == letter as u32
}

/// `s` is a number: digits with an optional point among them and at least
/// one digit, then an optional exponent (`e` or `E`, an optional sign, one
/// or more digits).
pub open spec fn is_number_text(s: Seq<char>) -> bool {
    let a = digit_run(s, 0);
    let b = if a < s.len() && s[a] == '.' {
        a + 1
    } else {
        a
    };
    let c = digit_run(s, b);
    &&& a + (c - b) > 0
    &&& c == s.len() || {
        let d = if c + 1 < s.len() && is_sign(s[c + 1]) {
            c + 2
        } else {
            c + 1
        };
        &&& is_letter(s[c], 'e')
        &&& digit_run(s, d) > d
        &&& digit_run(s, d) == s.len()
    }
}

/// `s` is `inf`, `infinity` or `nan`, in any mix of upper and lower case.
pub open spec fn is_special_text(s: Seq<char>) -> bool {
    ||| s.len() == 3 && is_letter(s[0], 'i') && is_letter(s[1], 'n') && is_letter(s[2], 'f')
    ||| s.len() == 3 && is_letter(s[0], 'n') && is_letter(s[1], 'a') && is_letter(s[2], 'n')
    ||| s.len() == 8 && is_letter(s[0], 'i') && is_letter(s[1], 'n') && is_letter(s[2], 'f')
        && is_letter(s[3], 'i') && is_letter(s[4], 'n') && is_letter(s[5], 'i') && is_letter(
        s[6],
        't',
    ) && is_letter(s[7], 'y')
}

/// `s` is the text of a floating-point value: an optional sign, then a
/// number or one of the special words.
pub open spec fn is_float_text(s: Seq<char>) -> bool {
    let body = if s.len() > 0 && is_sign(s[0]) {
        s.skip(1)
    } else {
        s
    };
    is_number_text(body) || is_special_text(body)
}

/// A run of digits stays inside the text and holds only digits.
pub proof fn lemma_digit_run(s: Seq<char>, from: int)
    requires
        0 <= from <= s.len(),
    ensures
        from <= digit_run(s, from) <= s.len(),
        forall|k: int| from <= k < digit_run(s, from) ==> is_digit(#[trigger] s[k]),
        digit_run(s, from) < s.len() ==> !is_digit(s[digit_run(s, from)]),
    decreases s.len() - from,
{
    if from < s.len() && is_digit(s[from]) {
        lemma_digit_run(s, from + 1);
    }
}

/// A run of digits ends at `to` when digits fill `from..to` and none stands
/// at `to`.
pub proof fn lemma_digit_run_to(s: Seq<char>, from: int, to: int)
    requires
        0 <= from <= to <= s.len(),
        forall|k: int| from <= k < to ==> is_digit(#[trigger] s[k]),
        to < s.len() ==> !is_digit(s[to]),
    ensures
        digit_run(s, from) == to,
    decreases to - from,
{
    if from < to {
        lemma_digit_run_to(s, from + 1, to);
    }
}

/// Floating-point text never holds a line break.
pub proof fn lemma_float_text_one_line(s: Seq<char>)
    requires
        is_float_text(s),
    ensures
        !has_char(s, '\n'),
{
    let body = if s.len() > 0 && is_sign(s[0]) {
        s.skip(1)
    } else {
        s
    };
    assert forall|k: int| 0 <= k < body.len() implies body[k] != '\n' by {
        if is_number_text(body) {
            let a = digit_run(body, 0);
            lemma_digit_run(body, 0);
            let b = if a < body.len() && body[a] == '.' {
                a + 1
            } else {
                a
            };
            lemma_digit_run(body, b);
            let c = digit_run(body, b);
            if c < body.len() {
                let d = if c + 1 < body.len() && is_sign(body[c + 1]) {
                    c + 2
                } else {
                    c + 1
                };
                lemma_digit_run(body, d);
            }
            if k < a {
                assert(is_digit(body[k]));
            } else if k < b {
            } else if k < c {
                assert(is_digit(body[k]));
            } else if k == c {
            } else if k == c + 1 && is_sign(body[c + 1]) {
            } else {
                assert(is_digit(body[k]));
            }
        }
    }
    if has_char(s, '\n') {
        let i = choose|i: int| 0 <= i < s.len() && s[i] == '\n';
        if s.len() > 0 && is_sign(s[0]) {
            assert(i > 0);
            assert(body[i - 1] == s[i]);
        }
    }
}

/// Whether `c` is a digit.
pub fn digit(c: char) -> (b: bool)
    ensures
        b == is_digit(c),
{
    '0' <= c && c <= '9'
}

/// Whether `c` is a sign.
pub fn sign(c: char) -> (b: bool)
    ensures
        b == is_sign(c),
{
    c == '+' || c == '-'
}

/// The largest magnitude a 32-bit signed integer can have, plus one: any
/// run of digits worth this much or more denotes no such integer.
const TOO_LARGE: u64 = 2147483649;

/// Reads the characters that `span` covers as a 32-bit signed integer.
pub fn read_i32(v: &Vec<char>, span: Span) -> (r: Option<i32>)
    requires
        span.within(0, v.len() as int),
    ensures
        r == parse_i32(span.of(v@)),
{
    let ghost s = span.of(v@);
    if span.start == span.end {
        return None;
    }
    let first = v[span.start];
    assert(s[0] == first);
    let signed = sign(first);
    let from: usize = if signed {
        span.start + 1
    } else {
        span.start
    };
    let ghost digits = v@.subrange(from as int, span.end as int);
    proof {
        if signed {
            assert(digits =~= s.skip(1));
        } else {
            assert(digits =~= s);
        }
    }
    if from == span.end {
        return None;
    }
    let mut acc: u64 = 0;
    let mut i: usize = from;
    proof {
        assert(v@.subrange(from as int, i as int) =~= Seq::<char>::empty());
    }
    while i < span.end
        invariant
            from <= i <= span.end <= v.len(),
            from < span.end,
            s == span.of(v@),
            s.len() > 0,
            signed == is_sign(s[0]),
            digits == if signed {
                s.skip(1)
            } else {
                s
            },
            digits == v@.subrange(from as int, span.end as int),
            forall|k: int| 0 <= k < i - from ==> is_digit(#[trigger] digits[k]),
            acc <= TOO_LARGE,
            acc == if decimal_value(v@.subrange(from as int, i as int)) < TOO_LARGE {
                decimal_value(v@.subrange(from as int, i as int))
            } else {
                TOO_LARGE as nat
            },
        decreases span.end - i,
    {
        let c = v[i];
        if !digit(c) {
            assert(!is_digit(digits[i - from]));
            return None;
        }
        proof {
            let next = v@.subrange(from as int, i + 1);
            assert(next.drop_last() =~= v@.subrange(from as int, i as int));
            assert(next.last() == c);
            assert(digits[i - from] == c);
        }
        let d: u64 = (c as u32 - 48) as u64;
        if acc < TOO_LARGE {
            acc = acc * 10 + d;
            if acc > TOO_LARGE {
                acc = TOO_LARGE;
            }
        }
        i += 1;
    }
    proof {
        assert(v@.subrange(from as int, i as int) =~= digits);
        assert(is_decimal(digits));
    }
    if signed && first == '-' {
        if acc <= 2147483648 {
            Some((-(acc as i64)) as i32)
        } else {
            None
        }
    } else {
        if acc <= 2147483647 {
            Some(acc as i32)
        } else {
            None
        }
    }
}

/// The digit for a number below ten.
fn digit_of(d: u64) -> (c: char)
    requires
        d < 10,
    ensures
        c == digit_char(d as nat),
{
    if d == 0 {
        '0'
    } else if d == 1 {
        '1'
    } else if d == 2 {
        '2'
    } else if d == 3 {
        '3'
    } else if d == 4 {
        '4'
    } else if d == 5 {
        '5'
    } else if d == 6 {
        '6'
    } else if d == 7 {
        '7'
    } else if d == 8 {
        '8'
    } else {
        '9'
    }
}

/// Appends the decimal text of `n`.
pub fn push_nat(out: &mut String, n: u64)
    ensures
        final(out)@ == old(out)@ + render_nat(n as nat),
    decreases n,
{
    if n >= 10 {
        push_nat(out, n / 10);
    }
    out.push(digit_of(n % 10));
    assert(final(out)@ =~= old(out)@ + render_nat(n as nat));
}

/// Appends the decimal text of `v`.
pub fn push_i32(out: &mut String, v: i32)
    ensures
        final(out)@ == old(out)@ + render_int(v as int),
{
    if v < 0 {
        out.push('-');
        push_nat(out, (-(v as i64)) as u64);
        assert(final(out)@ =~= old(out)@ + render_int(v as int));
    } else {
        push_nat(out, v as u64);
    }
}

/// Where the run of digits that starts at `from` ends, looking no further
/// than `end`.
fn scan_digits(v: &Vec<char>, from: usize, end: usize) -> (to: usize)
    requires
        from <= end <= v.len(),
    ensures
        from <= to <= end,
        forall|k: int| from <= k < to ==> is_digit(#[trigger] v@[k]),
        to < end ==> !is_digit(v@[to as int]),
{
    let mut i: usize = from;
    while i < end && digit(v[i])
        invariant
            from <= i <= end <= v.len(),
            forall|k: int| from <= k < i ==> is_digit(#[trigger] v@[k]),
        decreases end - i,
    {
        i += 1;
    }
    i
}

/// Whether `c` is the lower-case letter `letter` or its upper-case form.
fn letter(c: char, lower: char) -> (b: bool)
    requires
        97 <= lower as u32 <= 122,
    ensures
        b == is_letter(c, lower),
{
    c == lower || c as u32 + 32 == lower as u32
}

/// Whether `v[start..end]` is one of the special words.
fn special_text(v: &Vec<char>, start: usize, end: usize) -> (b: bool)
    requires
        start <= end <= v.len(),
    ensures
        b == is_special_text(v@.subrange(start as int, end as int)),
{
    let n = end - start;
    if n == 3 {
        (letter(v[start], 'i') && letter(v[start + 1], 'n') && letter(v[start + 2], 'f')) || (letter(
            v[start],
            'n',
        ) && letter(v[start + 1], 'a') && letter(v[start + 2], 'n'))
    } else if n == 8 {
        letter(v[start], 'i') && letter(v[start + 1], 'n') && letter(v[start + 2], 'f') && letter(
            v[start + 3],
            'i',
        ) && letter(v[start + 4], 'n') && letter(v[start + 5], 'i') && letter(v[start + 6], 't')
            && letter(v[start + 7], 'y')
    } else {
        false
    }
}

/// Where the run of digits of `v[start..end]` that starts at `from` ends.
fn scan_run(v: &Vec<char>, start: usize, end: usize, from: usize) -> (to: usize)
    requires
        start <= from <= end <= v.len(),
    ensures
        from <= to <= end,
        to - start == digit_run(v@.subrange(start as int, end as int), from - start),
{
    let to = scan_digits(v, from, end);
    proof {
        let body = v@.subrange(start as int, end as int);
        assert forall|k: int| from - start <= k < to - start implies is_digit(#[trigger] body[k]) by {
            assert(body[k] == v@[start + k]);
        }
        lemma_digit_run_to(body, from - start, to - start);
    }
    to
}

/// Whether `v[start..end]` is a number.
fn number_text(v: &Vec<char>, start: usize, end: usize) -> (b: bool)
    requires
        start <= end <= v.len(),
    ensures
        b == is_number_text(v@.subrange(start as int, end as int)),
{
    let a = scan_run(v, start, end, start);
    let b: usize = if a < end && v[a] == '.' {
        a + 1
    } else {
        a
    };
    let c = scan_run(v, start, end, b);
    if (a - start) + (c - b) == 0 {
        return false;
    }
    if c == end {
        return true;
    }
    if !letter(v[c], 'e') {
        return false;
    }
    let d: usize = if c + 1 < end && sign(v[c + 1]) {
        c + 2
    } else {
        c + 1
    };
    let e = scan_run(v, start, end, d);
    e > d && e == end
}

/// Whether the characters that `span` covers are floating-point text.
pub fn float_text(v: &Vec<char>, span: Span) -> (b: bool)
    requires
        span.within(0, v.len() as int),
    ensures
        b == is_float_text(span.of(v@)),
{
    let ghost s = span.of(v@);
    let signed = span.start < span.end && sign(v[span.start]);
    let start: usize = if signed {
        span.start + 1
    } else {
        span.start
    };
    proof {
        if span.start < span.end {
            assert(s[0] == v@[span.start as int]);
        }
        if signed {
            assert(v@.subrange(start as int, span.end as int) =~= s.skip(1));
        } else {
            assert(v@.subrange(start as int, span.end as int) =~= s);
        }
    }
    special_text(v, start, span.end) || number_text(v, start, span.end)
}

} // verus!
