//! Conversions between strings and sequences of characters, and the decimal
//! notation of integers.

use vstd::prelude::*;

verus! {

/// `String::push` appends one character to the end of the string.
pub assume_specification[ String::push ](s: &mut String, c: char)
    ensures
        final(s)@ == old(s)@.push(c),
;

/// What a list of strings stands for.
pub open spec fn texts(strings: Seq<String>) -> Seq<Seq<char>> {
    strings.map_values(|s: String| s@)
}

/// The characters of `s`, in order.
pub fn chars_of(s: &str) -> (v: Vec<char>)
    ensures
        v@ == s@,
{
    let mut v: Vec<char> = Vec::new();
    for c in it: s.chars()
        invariant
            v@ == it.seq().take(it.index() as int),
    {
        v.push(c);
    }
    v
}

/// Appends the characters `v[from..to]` to `out`.
pub(crate) fn push_chars(out: &mut String, v: &Vec<char>, from: usize, to: usize)
    requires
        from <= to <= v.len(),
    ensures
        final(out)@ == old(out)@ + v@.subrange(from as int, to as int),
{
    let mut i: usize = from;
    while i < to
        invariant
            from <= i <= to <= v.len(),
            out@ == old(out)@ + v@.subrange(from as int, i as int),
        decreases to - i,
    {
        out.push(v[i]);
        i += 1;
    }
}

/// The string made of the characters `v[from..to]`.
pub(crate) fn string_of(v: &Vec<char>, from: usize, to: usize) -> (s: String)
    requires
        from <= to <= v.len(),
    ensures
        s@ == v@.subrange(from as int, to as int),
{
    let mut s = String::new();
    push_chars(&mut s, v, from, to);
    s
}

/// Whether `c` is one of the ten decimal digits.
pub open spec fn is_digit(c: char) -> bool {
    '0' <= c <= '9'
}

/// The value of the decimal digit `c`.
pub open spec fn digit_value(c: char) -> nat {
    (c as nat - '0' as nat) as nat
}

/// Whether every character of `s` is a decimal digit.
pub open spec fn all_digits(s: Seq<char>) -> bool {
    forall|i: int| 0 <= i < s.len() ==> is_digit(#[trigger] s[i])
}

/// The number that the digits of `s` write in base ten; leading zeros count
/// for nothing and the empty sequence writes zero.
pub open spec fn digits_value(s: Seq<char>) -> nat
    decreases s.len(),
{
    if s.len() == 0 {
        0
    } else {
        digits_value(s.drop_last()) * 10 + digit_value(s.last())
    }
}

/// The digit that writes `d`, for `d` below ten.
pub open spec fn digit_char(d: nat) -> char {
    ('0' as nat + d) as char
}

/// The digits of `n` in base ten, without leading zeros; zero is written `0`.
pub open spec fn digits_of(n: nat) -> Seq<char>
    decreases n,
{
    if n < 10 {
        seq![digit_char(n)]
    } else {
        digits_of(n / 10).push(digit_char(n % 10))
    }
}

/// The decimal notation of `v`: a minus sign for a negative number, then the
/// digits of its magnitude.
pub open spec fn decimal_text(v: int) -> Seq<char> {
    if v < 0 {
        seq!['-'] + digits_of((-v) as nat)
    } else {
        digits_of(v as nat)
    }
}

/// Whether `c` is a decimal digit.
pub(crate) fn is_digit_char(c: char) -> (b: bool)
    ensures
        b == is_digit(c),
{
    '0' <= c && c <= '9'
}

/// The value of the decimal digit `c`.
pub(crate) fn digit_of_char(c: char) -> (d: u8)
    requires
        is_digit(c),
    ensures
        d == digit_value(c),
        d < 10,
{
    (c as u32 - '0' as u32) as u8
}

/// Why a sequence of characters is not the notation of an `i32`.
#[derive(Clone, Copy, Debug, PartialEq, Eq, Structural)]
pub enum NumberError {
    /// There is no character at all.
    Empty,
    /// Something other than an optional sign followed by digits.
    InvalidDigit,
    /// The number is above `i32::MAX`.
    TooLarge,
    /// The number is below `i32::MIN`.
    TooSmall,
}

/// Whether `s` begins with a plus or a minus sign.
pub open spec fn has_sign(s: Seq<char>) -> bool {
    s.len() > 0 && (s[0] == '-' || s[0] == '+')
}

/// What follows the optional sign of `s`.
pub open spec fn number_body(s: Seq<char>) -> Seq<char> {
    if has_sign(s) {
        s.skip(1)
    } else {
        s
    }
}

/// Whether `s` is an optional sign followed by one or more decimal digits.
pub open spec fn is_numeric(s: Seq<char>) -> bool {
    number_body(s).len() > 0 && all_digits(number_body(s))
}

/// The integer that a numeric `s` writes.
pub open spec fn numeric_value(s: Seq<char>) -> int {
    if s.len() > 0 && s[0] == '-' {
        -(digits_value(number_body(s)) as int)
    } else {
        digits_value(number_body(s)) as int
    }
}

/// The `i32` that `s` writes in decimal notation, or why it writes none.
pub open spec fn parse_i32_spec(s: Seq<char>) -> Result<int, NumberError> {
    if s.len() == 0 {
        Err(NumberError::Empty)
    } else if !is_numeric(s) {
        Err(NumberError::InvalidDigit)
    } else if numeric_value(s) > i32::MAX {
        Err(NumberError::TooLarge)
    } else if numeric_value(s) < i32::MIN {
        Err(NumberError::TooSmall)
    } else {
        Ok(numeric_value(s))
    }
}

/// A prefix of a digit sequence never writes a larger number than the whole.
pub proof fn lemma_digits_value_prefix(s: Seq<char>, k: int)
    requires
        0 <= k <= s.len(),
    ensures
        digits_value(s.take(k)) <= digits_value(s),
    decreases s.len(),
{
    if k == s.len() {
        assert(s.take(k) =~= s);
    } else {
        lemma_digits_value_prefix(s.drop_last(), k);
        assert(s.drop_last().take(k) =~= s.take(k));
    }
}

/// The digits of a number are digits, and write that number.
pub proof fn lemma_digits_of(n: nat)
    ensures
        digits_of(n).len() >= 1,
        all_digits(digits_of(n)),
        digits_value(digits_of(n)) == n,
    decreases n,
{
    if n < 10 {
        let s = digits_of(n);
        assert(digits_value(s.drop_last()) == 0);
    } else {
        lemma_digits_of(n / 10);
        let s = digits_of(n);
        assert(s.drop_last() =~= digits_of(n / 10));
    }
}

/// Reading back the decimal notation of an `i32` gives that number.
pub proof fn lemma_decimal_round_trip(v: int)
    requires
        i32::MIN <= v <= i32::MAX,
    ensures
        is_numeric(decimal_text(v)),
        parse_i32_spec(decimal_text(v)) == Ok::<int, NumberError>(v),
{
    let s = decimal_text(v);
    if v < 0 {
        lemma_digits_of((-v) as nat);
        assert(s.skip(1) =~= digits_of((-v) as nat));
    } else {
        lemma_digits_of(v as nat);
    }
}

/// Appends the digits of `n`.
pub(crate) fn push_digits(out: &mut String, n: u32)
    ensures
        final(out)@ == old(out)@ + digits_of(n as nat),
    decreases n,
{
    if n < 10 {
        out.push(digit_to_char(n as u8));
    } else {
        push_digits(out, n / 10);
        out.push(digit_to_char((n % 10) as u8));
    }
}

/// The digit that writes `d`.
pub(crate) fn digit_to_char(d: u8) -> (c: char)
    requires
        d < 10,
    ensures
        c == digit_char(d as nat),
{
    (('0' as u8) + d) as char
}

/// Appends the decimal notation of `v`.
pub fn push_decimal(out: &mut String, v: i32)
    ensures
        final(out)@ == old(out)@ + decimal_text(v as int),
{
    if v < 0 {
        out.push('-');
        let magnitude: u32 = (-(v as i64)) as u32;
        push_digits(out, magnitude);
    } else {
        push_digits(out, v as u32);
    }
}

/// Reads `v[from..to]` as the decimal notation of an `i32`: an optional sign,
/// then digits only.
#[verifier::loop_isolation(false)]
pub(crate) fn parse_i32(v: &Vec<char>, from: usize, to: usize) -> (r: Result<i32, NumberError>)
    requires
        from <= to <= v.len(),
    ensures
        match parse_i32_spec(v@.subrange(from as int, to as int)) {
            Ok(n) => r == Ok::<i32, NumberError>(n as i32),
            Err(e) => r == Err::<i32, NumberError>(e),
        },
{
    let ghost s = v@.subrange(from as int, to as int);
    if from == to {
        return Err(NumberError::Empty);
    }
    let negative = v[from] == '-';
    let start: usize = if negative || v[from] == '+' {
        from + 1
    } else {
        from
    };
    let ghost body = number_body(s);
    if start == to {
        return Err(NumberError::InvalidDigit);
    }
    let mut i: usize = start;
    while i < to
        invariant
            start <= i <= to <= v.len(),
            body == v@.subrange(start as int, to as int),
            all_digits(body.take(i - start)),
        decreases to - i,
    {
        if !is_digit_char(v[i]) {
            assert(!is_digit(body[i - start]));
            return Err(NumberError::InvalidDigit);
        }
        i += 1;
    }
    assert(body.take(to - start) =~= body);
    let mut acc: i64 = 0;
    let mut j: usize = start;
    while j < to
        invariant
            start <= j <= to <= v.len(),
            body == v@.subrange(start as int, to as int),
            all_digits(body),
            acc == digits_value(body.take(j - start)),
            0 <= acc <= 2147483648,
        decreases to - j,
    {
        assert(body[j - start] == v@[j as int]);
        let d = digit_of_char(v[j]);
        let ghost next = body.take(j + 1 - start);
        assert(next.drop_last() =~= body.take(j - start));
        acc = acc * 10 + d as i64;
        if acc > 2147483648 {
            proof {
                lemma_digits_value_prefix(body, j + 1 - start);
            }
            return Err(if negative { NumberError::TooSmall } else { NumberError::TooLarge });
        }
        j += 1;
    }
    if negative {
        Ok((-acc) as i32)
    } else if acc == 2147483648 {
        Err(NumberError::TooLarge)
    } else {
        Ok(acc as i32)
    }
}

/// Reads `text` as the decimal notation of an `i32`: an optional sign, then
/// digits only.
pub fn parse_decimal(text: &str) -> (r: Result<i32, NumberError>)
    ensures
        match parse_i32_spec(text@) {
            Ok(n) => r == Ok::<i32, NumberError>(n as i32),
            Err(e) => r == Err::<i32, NumberError>(e),
        },
{
    let chars = chars_of(text);
    assert(chars@.subrange(0, chars@.len() as int) =~= text@);
    parse_i32(&chars, 0, chars.len())
}

/// The index of the first `c` in `s`, or the length of `s` where it holds
/// none.
pub open spec fn first_index(s: Seq<char>, c: char) -> int
    decreases s.len(),
{
    if s.len() == 0 {
        0
    } else if s[0] == c {
        0
    } else {
        1 + first_index(s.skip(1), c)
    }
}

/// `first_index` lies within the sequence or at its end, nothing before it
/// is `c`, and what it points at is.
pub proof fn lemma_first_index(s: Seq<char>, c: char)
    ensures
        0 <= first_index(s, c) <= s.len(),
        forall|i: int| 0 <= i < first_index(s, c) ==> s[i] != c,
        first_index(s, c) < s.len() ==> s[first_index(s, c)] == c,
        first_index(s, c) == s.len() <==> !s.contains(c),
    decreases s.len(),
{
    if s.len() > 0 && s[0] != c {
        lemma_first_index(s.skip(1), c);
        let k = first_index(s.skip(1), c);
        assert forall|i: int| 0 <= i < 1 + k implies s[i] != c by {
            if i > 0 {
                assert(s.skip(1)[i - 1] == s[i]);
            }
        }
    }
}

/// An index with no `c` before it, which points at a `c` or at the end, is
/// the first index of `c`.
pub proof fn lemma_first_index_is(s: Seq<char>, c: char, k: int)
    requires
        0 <= k <= s.len(),
        forall|i: int| 0 <= i < k ==> s[i] != c,
        k < s.len() ==> s[k] == c,
    ensures
        first_index(s, c) == k,
{
    lemma_first_index(s, c);
}

/// The index in `v[from..to]` of the first `c`, counted from the start of
/// `v`, or `to` where there is none.
pub(crate) fn find_char(v: &Vec<char>, from: usize, to: usize, c: char) -> (k: usize)
    requires
        from <= to <= v.len(),
    ensures
        from <= k <= to,
        k - from == first_index(v@.subrange(from as int, to as int), c),
        forall|i: int| from <= i < k ==> v@[i] != c,
        k < to ==> v@[k as int] == c,
{
    let ghost s = v@.subrange(from as int, to as int);
    let mut k: usize = from;
    while k < to && v[k] != c
        invariant
            from <= k <= to <= v.len(),
            forall|i: int| from <= i < k ==> v@[i] != c,
        decreases to - k,
    {
        k += 1;
    }
    proof {
        assert(forall|i: int| 0 <= i < k - from ==> s[i] != c);
        lemma_first_index_is(s, c, k - from);
    }
    k
}

} // verus!
