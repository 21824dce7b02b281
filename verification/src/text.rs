//! Decimal numbers and byte searches, as the wire formats and the messages of
//! this crate use them.
use vstd::prelude::*;

verus! {

/// The position of the first `b` in `s`, or the length of `s` where there is none.
pub open spec fn first_index(s: Seq<u8>, b: u8) -> int
    decreases s.len(),
{
    if s.len() == 0 {
        0
    } else if s[0] == b {
        0
    } else {
        1 + first_index(s.skip(1), b)
    }
}

/// `first_index` is the first position at which `b` stands.
pub proof fn lemma_first_index(s: Seq<u8>, b: u8)
    ensures
        0 <= first_index(s, b) <= s.len(),
        first_index(s, b) < s.len() ==> s[first_index(s, b)] == b,
        forall|i: int| 0 <= i < first_index(s, b) ==> s[i] != b,
    decreases s.len(),
{
    if s.len() > 0 && s[0] != b {
        lemma_first_index(s.skip(1), b);
        assert forall|i: int| 0 <= i < first_index(s, b) implies s[i] != b by {
            if i > 0 {
                assert(s[i] == s.skip(1)[i - 1]);
            }
        }
    }
}

/// A position that holds `b`, with no `b` before it, is the first one.
pub proof fn lemma_first_index_is(s: Seq<u8>, b: u8, k: int)
    requires
        0 <= k <= s.len(),
        k < s.len() ==> s[k] == b,
        forall|i: int| 0 <= i < k ==> s[i] != b,
    ensures
        first_index(s, b) == k,
{
    lemma_first_index(s, b);
}

/// Finds the first `b` in `bytes[from..]`; the position counts from `from`.
pub(crate) fn position_from(bytes: &[u8], from: usize, b: u8) -> (r: Option<usize>)
    requires
        from <= bytes@.len(),
    ensures
        match r {
            Some(k) => k == first_index(bytes@.skip(from as int), b) && from + k < bytes@.len(),
            None => first_index(bytes@.skip(from as int), b) == bytes@.len() - from,
        },
{
    let ghost tail = bytes@.skip(from as int);
    let mut i: usize = from;
    while i < bytes.len()
        invariant
            from <= i <= bytes@.len(),
            tail == bytes@.skip(from as int),
            forall|j: int| 0 <= j < i - from ==> tail[j] != b,
        decreases bytes@.len() - i,
    {
        if bytes[i] == b {
            proof {
                lemma_first_index_is(tail, b, i - from);
            }
            return Some(i - from);
        }
        i = i + 1;
    }
    proof {
        lemma_first_index_is(tail, b, tail.len() as int);
    }
    None
}

/// Whether the two byte strings are the same.
pub(crate) fn bytes_equal(a: &[u8], b: &[u8]) -> (r: bool)
    ensures
        r == (a@ == b@),
{
    if a.len() != b.len() {
        return false;
    }
    let mut i: usize = 0;
    while i < a.len()
        invariant
            i <= a@.len(),
            a@.len() == b@.len(),
            forall|j: int| 0 <= j < i ==> a@[j] == b@[j],
        decreases a@.len() - i,
    {
        if a[i] != b[i] {
            return false;
        }
        i = i + 1;
    }
    assert(a@ =~= b@);
    true
}

/// Appends `extra` to `out`.
pub(crate) fn append_bytes(out: &mut Vec<u8>, extra: &[u8])
    ensures
        final(out)@ == old(out)@ + extra@,
{
    let mut i: usize = 0;
    while i < extra.len()
        invariant
            i <= extra@.len(),
            out@ == old(out)@ + extra@.take(i as int),
        decreases extra@.len() - i,
    {
        out.push(extra[i]);
        i = i + 1;
        assert(extra@.take(i as int) =~= extra@.take(i - 1).push(extra@[i - 1]));
    }
    assert(extra@.take(i as int) =~= extra@);
}

/// Whether `b` is one of the characters `0` to `9`.
pub open spec fn is_digit(b: u8) -> bool {
    0x30 <= b <= 0x39
}

/// Whether every byte of `s` is a decimal digit.
pub open spec fn all_digits(s: Seq<u8>) -> bool {
    forall|i: int| 0 <= i < s.len() ==> is_digit(#[trigger] s[i])
}

/// The number that a string of decimal digits denotes.
pub open spec fn decimal_value(s: Seq<u8>) -> int
    decreases s.len(),
{
    if s.len() == 0 {
        0
    } else {
        decimal_value(s.drop_last()) * 10 + (s.last() - 0x30)
    }
}

/// The decimal digits of `n`, without leading zeros.
pub open spec fn decimal(n: nat) -> Seq<u8>
    decreases n,
{
    if n < 10 {
        seq![(0x30 + n) as u8]
    } else {
        decimal(n / 10).push((0x30 + n % 10) as u8)
    }
}

/// Reads an unsigned number of at most `max`: digits, with one `+` before them
/// or none.
pub open spec fn unsigned_value(s: Seq<u8>, max: int) -> Option<int> {
    let digits = if s.len() > 0 && s[0] == 0x2B {
        s.skip(1)
    } else {
        s
    };
    if digits.len() > 0 && all_digits(digits) && decimal_value(digits) <= max {
        Some(decimal_value(digits))
    } else {
        None
    }
}

/// A longer string of digits does not denote a smaller number.
pub proof fn lemma_decimal_value_grows(s: Seq<u8>, k: int)
    requires
        all_digits(s),
        0 <= k <= s.len(),
    ensures
        0 <= decimal_value(s.take(k)) <= decimal_value(s),
    decreases s.len(),
{
    if s.len() == 0 {
        assert(s.take(k) =~= s);
    } else if k == s.len() {
        assert(s.take(k) =~= s);
        lemma_decimal_value_grows(s.drop_last(), 0);
        assert(s.drop_last().take(0) =~= s.take(0));
    } else {
        assert(all_digits(s.drop_last()));
        lemma_decimal_value_grows(s.drop_last(), k);
        assert(s.drop_last().take(k) =~= s.take(k));
    }
}

/// The digits of a number denote that number.
pub proof fn lemma_decimal_roundtrip(n: nat)
    ensures
        all_digits(decimal(n)),
        decimal(n).len() > 0,
        decimal_value(decimal(n)) == n,
    decreases n,
{
    if n < 10 {
        let s = decimal(n);
        assert(s.drop_last() =~= Seq::<u8>::empty());
        assert(decimal_value(s.drop_last()) == 0);
    } else {
        lemma_decimal_roundtrip(n / 10);
        let s = decimal(n);
        assert(s.drop_last() =~= decimal(n / 10));
        assert forall|i: int| 0 <= i < s.len() implies is_digit(#[trigger] s[i]) by {
            if i < s.len() - 1 {
                assert(s[i] == decimal(n / 10)[i]);
            }
        }
    }
}

/// What is printed as a number is read back as that number.
pub proof fn lemma_unsigned_of_decimal(n: nat, max: int)
    requires
        n <= max,
    ensures
        unsigned_value(decimal(n), max) == Some(n as int),
{
    lemma_decimal_roundtrip(n);
    assert(is_digit(decimal(n)[0]));
}

/// Reads an unsigned number of at most `max`.
pub(crate) fn parse_unsigned(bytes: &[u8], max: u64) -> (r: Option<u64>)
    ensures
        match r {
            Some(v) => unsigned_value(bytes@, max as int) == Some(v as int),
            None => unsigned_value(bytes@, max as int) is None,
        },
{
    let start: usize = if bytes.len() > 0 && bytes[0] == 0x2B {
        1
    } else {
        0
    };
    let ghost digits = bytes@.skip(start as int);
    assert(start == 0 ==> digits =~= bytes@);
    if bytes.len() == start {
        return None;
    }
    let mut value: u64 = 0;
    let mut i: usize = start;
    assert(digits.take(0) =~= Seq::<u8>::empty());
    while i < bytes.len()
        invariant
            start <= i <= bytes@.len(),
            digits == bytes@.skip(start as int),
            digits.len() > 0,
            digits == (if bytes@.len() > 0 && bytes@[0] == 0x2B {
                bytes@.skip(1)
            } else {
                bytes@
            }),
            all_digits(digits.take(i - start)),
            value == decimal_value(digits.take(i - start)),
            value <= max,
        decreases bytes@.len() - i,
    {
        let b: u8 = bytes[i];
        let ghost k = i - start;
        assert(b == digits[k]);
        if b < 0x30 || b > 0x39 {
            return None;
        }
        let d: u64 = (b - 0x30) as u64;
        assert(digits.take(k + 1).drop_last() =~= digits.take(k));
        assert(decimal_value(digits.take(k + 1)) == value * 10 + d);
        if max < d || value > (max - d) / 10 {
            proof {
                assert(value * 10 + d > max);
                if all_digits(digits) {
                    lemma_decimal_value_grows(digits, k + 1);
                }
            }
            return None;
        }
        value = value * 10 + d;
        i = i + 1;
        assert forall|j: int| 0 <= j < k + 1 implies is_digit(
            #[trigger] digits.take(k + 1)[j],
        ) by {
            if j < k {
                assert(digits.take(k)[j] == digits[j]);
            }
        }
    }
    assert(digits.take(i - start) =~= digits);
    Some(value)
}

/// Appends the decimal digits of `n` to `out`.
pub(crate) fn push_decimal(out: &mut Vec<u8>, n: u64)
    ensures
        final(out)@ == old(out)@ + decimal(n as nat),
    decreases n,
{
    if n >= 10 {
        push_decimal(out, n / 10);
    }
    out.push(0x30 + (n % 10) as u8);
    proof {
        if n < 10 {
            assert(decimal(n as nat) =~= seq![(0x30 + n) as u8]);
        }
    }
}

/// The character of a decimal digit.
pub open spec fn digit_char(d: int) -> char {
    if d == 0 {
        '0'
    } else if d == 1 {
        '1'
    } else if d == 2 {
        '2'
    } else if d == 3 {
        '3'
    } else if d == 4 {
        '4'
    } else if d == 5 {
        '5'
    } else if d == 6 {
        '6'
    } else if d == 7 {
        '7'
    } else if d == 8 {
        '8'
    } else {
        '9'
    }
}

/// The decimal digits of `n` as text.
pub open spec fn decimal_text(n: nat) -> Seq<char>
    decreases n,
{
    if n < 10 {
        seq![digit_char(n as int)]
    } else {
        decimal_text(n / 10).push(digit_char((n % 10) as int))
    }
}

fn digit_str(d: u64) -> (r: &'static str)
    requires
        d < 10,
    ensures
        r@ == seq![digit_char(d as int)],
{
    proof {
        reveal_strlit("0");
        reveal_strlit("1");
        reveal_strlit("2");
        reveal_strlit("3");
        reveal_strlit("4");
        reveal_strlit("5");
        reveal_strlit("6");
        reveal_strlit("7");
        reveal_strlit("8");
        reveal_strlit("9");
    }
    if d == 0 {
        "0"
    } else if d == 1 {
        "1"
    } else if d == 2 {
        "2"
    } else if d == 3 {
        "3"
    } else if d == 4 {
        "4"
    } else if d == 5 {
        "5"
    } else if d == 6 {
        "6"
    } else if d == 7 {
        "7"
    } else if d == 8 {
        "8"
    } else {
        "9"
    }
}

/// Appends the digit `d` to `out`.
pub(crate) fn append_digit(out: &mut String, d: u64)
    requires
        d < 10,
    ensures
        final(out)@ == old(out)@.push(digit_char(d as int)),
{
    out.append(digit_str(d));
    assert(out@ =~= old(out)@.push(digit_char(d as int)));
}

/// Appends the decimal digits of `n` to `out`.
pub(crate) fn append_decimal(out: &mut String, n: u64)
    ensures
        final(out)@ == old(out)@ + decimal_text(n as nat),
    decreases n,
{
    if n >= 10 {
        append_decimal(out, n / 10);
    }
    append_digit(out, n % 10);
    assert(out@ =~= old(out)@ + decimal_text(n as nat));
}

/// The decimal form of a signed number as text: a `-` before the digits where
/// it is below zero.
pub open spec fn signed_text(n: int) -> Seq<char> {
    if n < 0 {
        "-"@ + decimal_text((-n) as nat)
    } else {
        decimal_text(n as nat)
    }
}

/// Appends the decimal form of `n` to `out`.
pub(crate) fn append_signed(out: &mut String, n: i64)
    ensures
        final(out)@ == old(out)@ + signed_text(n as int),
{
    if n < 0 {
        out.append("-");
        let magnitude: i128 = -(n as i128);
        append_decimal(out, magnitude as u64);
        assert(out@ =~= old(out)@ + signed_text(n as int));
    } else {
        append_decimal(out, n as u64);
    }
}

/// Reading a number: the next digit counts once, and all before it ten times
/// what they did. It is read where there is a digit, nothing else is there, but
/// for one `+` at the start, and it is no larger than it may be.
pub proof fn law_digits_are_read_in_tens(s: Seq<u8>, digit: u8, max: int, bound: int)
    requires
        all_digits(s),
        0x30 <= digit <= 0x39,
        decimal_value(s.push(digit)) <= bound,
    ensures
        unsigned_value(s.push(digit), bound) == Some(
            (if s.len() == 0 {
                0
            } else {
                unsigned_value(s, bound)->0
            }) * 10 + (digit - 0x30),
        ),
        s.len() > 0 ==> unsigned_value(s, bound) is Some,
        unsigned_value(s.push(digit), max) == (if unsigned_value(s.push(digit), bound)->0 <= max {
            unsigned_value(s.push(digit), bound)
        } else {
            None
        }),
        unsigned_value(seq![0x2Bu8] + s.push(digit), max) == unsigned_value(s.push(digit), max),
{
    let whole = s.push(digit);
    assert(whole.drop_last() =~= s);
    lemma_decimal_value_grows(whole, s.len() as int);
    assert(whole.take(s.len() as int) =~= s);
    assert(all_digits(whole));
    assert(whole[0] != 0x2B) by {
        if s.len() > 0 {
            assert(is_digit(s[0]));
        }
    }
    assert(s.len() > 0 ==> is_digit(s[0]));
    assert((seq![0x2Bu8] + whole).skip(1) =~= whole);
}

/// What is no number is not read as one: nothing at all, a `+` alone, and
/// anything with a byte that is neither a digit nor a `+` at the start.
pub proof fn law_only_digits_are_read(s: Seq<u8>, i: int, max: int)
    requires
        0 <= i < s.len(),
        s[i] < 0x30 || s[i] > 0x39,
        i > 0 || s[i] != 0x2B || s.len() == 1,
    ensures
        unsigned_value(s, max) is None,
        unsigned_value(Seq::empty(), max) is None,
{
    if s.len() > 0 && s[0] == 0x2B {
        if i > 0 {
            assert(s.skip(1)[i - 1] == s[i]);
            assert(!is_digit(s.skip(1)[i - 1]));
        }
    } else {
        assert(!is_digit(s[i]));
    }
}

/// A number is written in digits only, without a zero at the start unless it
/// is zero, and each digit behind the first is the remainder by ten of what the
/// digits up to it denote.
pub proof fn law_number_is_written_in_digits(n: nat)
    ensures
        decimal(n).len() > 0,
        forall|i: int| 0 <= i < decimal(n).len() ==> 0x30 <= #[trigger] decimal(n)[i] <= 0x39,
        decimal(n)[0] == 0x30 ==> n == 0,
        n < 10 ==> decimal(n) == seq![(0x30 + n) as u8],
        n >= 10 ==> decimal(n).drop_last() == decimal(n / 10) && decimal(n).last() == 0x30 + n % 10,
    decreases n,
{
    lemma_decimal_roundtrip(n);
    assert forall|i: int| 0 <= i < decimal(n).len() implies 0x30 <= #[trigger] decimal(n)[i]
        <= 0x39 by {
        assert(is_digit(decimal(n)[i]));
    }
    if n >= 10 {
        law_number_is_written_in_digits(n / 10);
        assert(decimal(n).drop_last() =~= decimal(n / 10));
        assert(decimal(n)[0] == decimal(n / 10)[0]);
    }
}

/// A number as text is the same digits as its bytes, and a number below zero
/// is that of its magnitude behind a `-`.
pub proof fn law_text_has_the_same_digits(n: nat)
    ensures
        decimal_text(n).len() == decimal(n).len(),
        forall|i: int|
            0 <= i < decimal(n).len() ==> (#[trigger] decimal_text(n)[i]) as int == decimal(n)[i],
        signed_text(n as int) == decimal_text(n),
        n > 0 ==> signed_text(-(n as int)) == seq!['-'] + decimal_text(n),
    decreases n,
{
    reveal_strlit("-");
    assert("-"@ =~= seq!['-']);
    if n >= 10 {
        law_text_has_the_same_digits(n / 10);
    }
}

} // verus!
