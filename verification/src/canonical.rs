//! The canonical text that is hashed.
//!
//! Text is produced as UTF-8 bytes. Numbers are written in decimal, strings
//! are written between double quotes with `"` and `\` escaped by a backslash.

use vstd::prelude::*;
use vstd::string::StringExecFns;
use vstd::utf8::{encode_utf8, encode_utf8_decode_utf8};

verus! {

/// Byte value of the character `0`.
pub const DIGIT_ZERO: u8 = 48;

/// Byte value of the minus sign.
pub const MINUS: u8 = 45;

/// Byte value of the double quote.
pub const QUOTE: u8 = 34;

/// Byte value of the backslash.
pub const BACKSLASH: u8 = 92;

/// Decimal digits of `n`, most significant first, without leading zeros.
pub open spec fn decimal(n: nat) -> Seq<u8>
    decreases n,
{
    if n < 10 {
        seq![(DIGIT_ZERO + n) as u8]
    } else {
        decimal(n / 10).push((DIGIT_ZERO + n % 10) as u8)
    }
}

/// Decimal digits of `i`, with a leading minus sign when `i` is negative.
pub open spec fn signed_decimal(i: int) -> Seq<u8> {
    if i < 0 {
        seq![MINUS] + decimal((-i) as nat)
    } else {
        decimal(i as nat)
    }
}

/// One byte of a string as it appears between quotes.
pub open spec fn escaped_byte(b: u8) -> Seq<u8> {
    if b == QUOTE || b == BACKSLASH {
        seq![BACKSLASH, b]
    } else {
        seq![b]
    }
}

/// The bytes of a string as they appear between quotes.
pub open spec fn escaped(s: Seq<u8>) -> Seq<u8>
    decreases s.len(),
{
    if s.len() == 0 {
        Seq::<u8>::empty()
    } else {
        escaped(s.drop_last()) + escaped_byte(s.last())
    }
}

/// A string between double quotes.
pub open spec fn quoted(s: Seq<u8>) -> Seq<u8> {
    seq![QUOTE] + escaped(s) + seq![QUOTE]
}

/// Appends `src` to `out`.
pub fn push_bytes(out: &mut Vec<u8>, src: &[u8])
    ensures
        final(out)@ == old(out)@ + src@,
{
    let mut i: usize = 0;
    while i < src.len()
        invariant
            i <= src@.len(),
            out@ == old(out)@ + src@.take(i as int),
        decreases src@.len() - i,
    {
        out.push(src[i]);
        assert(src@.take(i + 1) =~= src@.take(i as int).push(src@[i as int]));
        i += 1;
    }
    assert(src@.take(i as int) =~= src@);
}

/// Appends the decimal digits of `n` to `out`.
pub fn push_decimal(out: &mut Vec<u8>, n: u128)
    ensures
        final(out)@ == old(out)@ + decimal(n as nat),
    decreases n,
{
    if n < 10 {
        out.push(DIGIT_ZERO + (n as u8));
        assert(out@ =~= old(out)@ + decimal(n as nat));
    } else {
        push_decimal(out, n / 10);
        out.push(DIGIT_ZERO + ((n % 10) as u8));
        assert(out@ =~= old(out)@ + decimal(n as nat));
    }
}

/// Appends the decimal digits of `i` to `out`, after a minus sign when `i` is
/// negative.
pub fn push_signed_decimal(out: &mut Vec<u8>, i: i64)
    ensures
        final(out)@ == old(out)@ + signed_decimal(i as int),
{
    if i < 0 {
        out.push(MINUS);
        let magnitude: u128 = (-(i as i128)) as u128;
        push_decimal(out, magnitude);
        assert(out@ =~= old(out)@ + signed_decimal(i as int));
    } else {
        push_decimal(out, i as u128);
    }
}

/// Appends `s` to `out` between double quotes, escaping `"` and `\`.
pub fn push_quoted(out: &mut Vec<u8>, s: &[u8])
    ensures
        final(out)@ == old(out)@ + quoted(s@),
{
    out.push(QUOTE);
    let mut i: usize = 0;
    while i < s.len()
        invariant
            i <= s@.len(),
            out@ == old(out)@.push(QUOTE) + escaped(s@.take(i as int)),
        decreases s@.len() - i,
    {
        let b: u8 = s[i];
        proof {
            let next = s@.take(i + 1);
            assert(next.drop_last() =~= s@.take(i as int));
            assert(next.last() == b);
        }
        if b == QUOTE || b == BACKSLASH {
            out.push(BACKSLASH);
        }
        out.push(b);
        assert(out@ =~= old(out)@.push(QUOTE) + escaped(s@.take(i + 1)));
        i += 1;
    }
    assert(s@.take(i as int) =~= s@);
    out.push(QUOTE);
    assert(out@ =~= old(out)@ + quoted(s@));
}


/// The character of a decimal digit.
pub open spec fn digit_char(digit: nat) -> char {
    seq!['0', '1', '2', '3', '4', '5', '6', '7', '8', '9'][digit as int]
}

/// Decimal digits of `n` as characters, most significant first, without
/// leading zeros.
pub open spec fn decimal_text(n: nat) -> Seq<char>
    decreases n,
{
    if n < 10 {
        seq![digit_char(n)]
    } else {
        decimal_text(n / 10).push(digit_char(n % 10))
    }
}

fn digit_str(digit: u64) -> (text: &'static str)
    requires
        digit < 10,
    ensures
        text@ == seq![digit_char(digit as nat)],
{
    proof {
        reveal_strlit("0");
        reveal_strlit("1");
        reveal_strlit("2");
        reveal_strlit("3");
        reveal_strlit("4");
        reveal_strlit("5");
        reveal_strlit("6");
        reveal_strlit("7");
        reveal_strlit("8");
        reveal_strlit("9");
    }
    let text: &'static str = if digit == 0 {
        "0"
    } else if digit == 1 {
        "1"
    } else if digit == 2 {
        "2"
    } else if digit == 3 {
        "3"
    } else if digit == 4 {
        "4"
    } else if digit == 5 {
        "5"
    } else if digit == 6 {
        "6"
    } else if digit == 7 {
        "7"
    } else if digit == 8 {
        "8"
    } else {
        "9"
    };
    assert(text@ =~= seq![digit_char(digit as nat)]);
    text
}

/// Appends the decimal digits of `n` to `text`.
pub fn append_decimal(text: &mut String, n: u64)
    ensures
        final(text)@ == old(text)@ + decimal_text(n as nat),
    decreases n,
{
    if n < 10 {
        text.append(digit_str(n));
        assert(text@ =~= old(text)@ + decimal_text(n as nat));
    } else {
        append_decimal(text, n / 10);
        text.append(digit_str(n % 10));
        assert(text@ =~= old(text)@ + decimal_text(n as nat));
    }
}

/// Whether a byte is one of the characters `0` to `9`.
pub open spec fn is_digit(b: u8) -> bool {
    DIGIT_ZERO <= b <= DIGIT_ZERO + 9
}

/// The number that a string of decimal digits stands for.
pub open spec fn digits_value(digits: Seq<u8>) -> nat
    decreases digits.len(),
{
    if digits.len() == 0 {
        0
    } else {
        digits_value(digits.drop_last()) * 10 + (digits.last() - DIGIT_ZERO) as nat
    }
}

/// The decimal text of a number is not empty, holds digits only, and stands
/// for that number.
pub proof fn lemma_decimal_digits(n: nat)
    ensures
        decimal(n).len() >= 1,
        forall|k: int| 0 <= k < decimal(n).len() ==> is_digit(#[trigger] decimal(n)[k]),
        digits_value(decimal(n)) == n,
    decreases n,
{
    let text = decimal(n);
    if n < 10 {
        assert(text.drop_last() =~= Seq::<u8>::empty());
        assert(digits_value(text.drop_last()) == 0);
        assert(text.last() == (DIGIT_ZERO + n) as u8);
    } else {
        lemma_decimal_digits(n / 10);
        assert(text.drop_last() =~= decimal(n / 10));
        assert(text.last() == (DIGIT_ZERO + n % 10) as u8);
        assert forall|k: int| 0 <= k < text.len() implies is_digit(#[trigger] text[k]) by {
            if k < text.len() - 1 {
                assert(text[k] == decimal(n / 10)[k]);
            }
        }
    }
}

/// Different numbers have different decimal texts.
pub proof fn lemma_decimal_injective(n: nat, m: nat)
    requires
        decimal(n) == decimal(m),
    ensures
        n == m,
{
    lemma_decimal_digits(n);
    lemma_decimal_digits(m);
}

/// Different integers have different signed decimal texts.
pub proof fn lemma_signed_decimal_injective(i: int, j: int)
    requires
        signed_decimal(i) == signed_decimal(j),
    ensures
        i == j,
{
    let stop = seq![MINUS];
    assert(signed_decimal(i) + stop == signed_decimal(j) + stop);
    lemma_signed_decimal_delimited(i, stop, j, stop);
}

/// Two texts with the same beginning are equal exactly when what follows that
/// beginning is equal.
pub proof fn lemma_same_start(start: Seq<u8>, a: Seq<u8>, b: Seq<u8>)
    requires
        start + a == start + b,
    ensures
        a == b,
{
    assert(a =~= (start + a).skip(start.len() as int));
    assert(b =~= (start + b).skip(start.len() as int));
}

/// Two texts with the same end are equal exactly when what comes before that
/// end is equal.
pub proof fn lemma_same_end(a: Seq<u8>, b: Seq<u8>, end: Seq<u8>)
    requires
        a + end == b + end,
    ensures
        a == b,
{
    assert((a + end).len() == a.len() + end.len());
    assert((b + end).len() == b.len() + end.len());
    assert(a =~= (a + end).take(a.len() as int));
    assert(b =~= (b + end).take(b.len() as int));
}

/// A decimal number can be read off the front of a text when something other
/// than a digit follows it: the number and what follows are both determined.
pub proof fn lemma_decimal_delimited(n: nat, after_n: Seq<u8>, m: nat, after_m: Seq<u8>)
    requires
        decimal(n) + after_n == decimal(m) + after_m,
        after_n.len() > 0,
        !is_digit(after_n[0]),
        after_m.len() > 0,
        !is_digit(after_m[0]),
    ensures
        n == m,
        after_n == after_m,
{
    lemma_decimal_digits(n);
    lemma_decimal_digits(m);
    let a = decimal(n);
    let b = decimal(m);
    let left = a + after_n;
    let right = b + after_m;
    if a.len() < b.len() {
        assert(left[a.len() as int] == after_n[0]);
        assert(right[a.len() as int] == b[a.len() as int]);
        assert(false);
    }
    if b.len() < a.len() {
        assert(right[b.len() as int] == after_m[0]);
        assert(left[b.len() as int] == a[b.len() as int]);
        assert(false);
    }
    assert(a =~= left.take(a.len() as int));
    assert(b =~= right.take(b.len() as int));
    assert(after_n =~= left.skip(a.len() as int));
    assert(after_m =~= right.skip(b.len() as int));
}

/// A signed decimal number can be read off the front of a text when
/// something other than a digit follows it.
pub proof fn lemma_signed_decimal_delimited(i: int, after_i: Seq<u8>, j: int, after_j: Seq<u8>)
    requires
        signed_decimal(i) + after_i == signed_decimal(j) + after_j,
        after_i.len() > 0,
        !is_digit(after_i[0]),
        after_j.len() > 0,
        !is_digit(after_j[0]),
    ensures
        i == j,
        after_i == after_j,
{
    let left = signed_decimal(i) + after_i;
    let right = signed_decimal(j) + after_j;
    let sign = seq![MINUS];
    if i < 0 {
        lemma_decimal_digits((-i) as nat);
        assert(left[0] == MINUS);
        if j < 0 {
            assert(left =~= sign + (decimal((-i) as nat) + after_i));
            assert(right =~= sign + (decimal((-j) as nat) + after_j));
            lemma_same_start(
                sign,
                decimal((-i) as nat) + after_i,
                decimal((-j) as nat) + after_j,
            );
            lemma_decimal_delimited((-i) as nat, after_i, (-j) as nat, after_j);
        } else {
            lemma_decimal_digits(j as nat);
            assert(right[0] == decimal(j as nat)[0]);
            assert(false);
        }
    } else {
        lemma_decimal_digits(i as nat);
        assert(left[0] == decimal(i as nat)[0]);
        if j < 0 {
            assert(right[0] == MINUS);
            assert(false);
        } else {
            lemma_decimal_delimited(i as nat, after_i, j as nat, after_j);
        }
    }
}

/// Escaping goes byte by byte: the escaped form of two strings in a row is
/// the escaped forms in a row.
pub proof fn lemma_escaped_concat(a: Seq<u8>, b: Seq<u8>)
    ensures
        escaped(a + b) == escaped(a) + escaped(b),
    decreases b.len(),
{
    if b.len() == 0 {
        assert(a + b =~= a);
        assert(escaped(a) + escaped(b) =~= escaped(a));
    } else {
        lemma_escaped_concat(a, b.drop_last());
        assert((a + b).drop_last() =~= a + b.drop_last());
        assert((a + b).last() == b.last());
        assert(escaped(a + b) =~= escaped(a) + escaped(b));
    }
}

/// The escaped form of a string that is not empty starts with the escaped
/// form of its first byte.
pub proof fn lemma_escaped_front(s: Seq<u8>)
    requires
        s.len() > 0,
    ensures
        escaped(s) == escaped_byte(s[0]) + escaped(s.drop_first()),
{
    let head = seq![s[0]];
    assert(s =~= head + s.drop_first());
    lemma_escaped_concat(head, s.drop_first());
    assert(head.drop_last() =~= Seq::<u8>::empty());
    assert(escaped(Seq::<u8>::empty()) =~= Seq::<u8>::empty());
    assert(head.last() == s[0]);
    assert(escaped(head) =~= escaped_byte(s[0]));
}

/// The inside of a quoted string can be read off the front of a text: the
/// first quote that no backslash escapes ends it.
pub proof fn lemma_escaped_delimited(s: Seq<u8>, after_s: Seq<u8>, t: Seq<u8>, after_t: Seq<u8>)
    requires
        escaped(s) + seq![QUOTE] + after_s == escaped(t) + seq![QUOTE] + after_t,
    ensures
        s == t,
        after_s == after_t,
    decreases s.len(),
{
    let left = escaped(s) + seq![QUOTE] + after_s;
    let right = escaped(t) + seq![QUOTE] + after_t;
    if s.len() == 0 {
        assert(left[0] == QUOTE);
        if t.len() > 0 {
            lemma_escaped_front(t);
            assert(right[0] == escaped_byte(t[0])[0]);
            assert(false);
        }
        assert(after_s =~= left.skip(1));
        assert(after_t =~= right.skip(1));
        assert(s =~= t);
    } else if t.len() == 0 {
        lemma_escaped_front(s);
        assert(right[0] == QUOTE);
        assert(left[0] == escaped_byte(s[0])[0]);
        assert(false);
    } else {
        lemma_escaped_front(s);
        lemma_escaped_front(t);
        let a = s[0];
        let b = t[0];
        let rest_s = escaped(s.drop_first()) + seq![QUOTE] + after_s;
        let rest_t = escaped(t.drop_first()) + seq![QUOTE] + after_t;
        assert(left =~= escaped_byte(a) + rest_s);
        assert(right =~= escaped_byte(b) + rest_t);
        assert(left[0] == escaped_byte(a)[0]);
        assert(right[0] == escaped_byte(b)[0]);
        if a == QUOTE || a == BACKSLASH {
            assert(b == QUOTE || b == BACKSLASH);
            assert(left[1] == a);
            assert(right[1] == b);
            assert(rest_s =~= left.skip(2));
            assert(rest_t =~= right.skip(2));
        } else {
            assert(!(b == QUOTE || b == BACKSLASH));
            assert(rest_s =~= left.skip(1));
            assert(rest_t =~= right.skip(1));
        }
        lemma_escaped_delimited(s.drop_first(), after_s, t.drop_first(), after_t);
        assert(s =~= seq![a] + s.drop_first());
        assert(t =~= seq![b] + t.drop_first());
    }
}

/// A quoted string can be read off the front of a text: the string and what
/// follows it are both determined.
pub proof fn lemma_quoted_delimited(s: Seq<u8>, after_s: Seq<u8>, t: Seq<u8>, after_t: Seq<u8>)
    requires
        quoted(s) + after_s == quoted(t) + after_t,
    ensures
        s == t,
        after_s == after_t,
{
    let open = seq![QUOTE];
    let inner_s = escaped(s) + seq![QUOTE] + after_s;
    let inner_t = escaped(t) + seq![QUOTE] + after_t;
    assert(quoted(s) + after_s =~= open + inner_s);
    assert(quoted(t) + after_t =~= open + inner_t);
    lemma_same_start(open, inner_s, inner_t);
    lemma_escaped_delimited(s, after_s, t, after_t);
}

/// Different strings have different UTF-8 bytes.
pub proof fn lemma_utf8_injective(s: Seq<char>, t: Seq<char>)
    requires
        encode_utf8(s) == encode_utf8(t),
    ensures
        s == t,
{
    encode_utf8_decode_utf8(s);
    encode_utf8_decode_utf8(t);
}

/// Ten to the power `exponent`.
pub open spec fn power_of_ten(exponent: nat) -> nat
    decreases exponent,
{
    if exponent == 0 {
        1
    } else {
        10 * power_of_ten((exponent - 1) as nat)
    }
}

/// A number below ten to the power `digits` has at most `digits` decimal
/// digits.
pub proof fn lemma_decimal_len(n: nat, digits: nat)
    requires
        digits >= 1,
        n < power_of_ten(digits),
    ensures
        decimal(n).len() <= digits,
    decreases digits,
{
    if n >= 10 {
        assert(power_of_ten(1) == 10) by {
            reveal_with_fuel(power_of_ten, 2);
        }
        assert(digits >= 2);
        lemma_decimal_len(n / 10, (digits - 1) as nat);
    }
}

/// A number that fits in 64 bits has at most twenty decimal digits.
pub proof fn lemma_decimal_len_u64(n: nat)
    requires
        n <= u64::MAX,
    ensures
        decimal(n).len() <= 20,
{
    assert(power_of_ten(20) == 100000000000000000000) by {
        reveal_with_fuel(power_of_ten, 21);
    }
    lemma_decimal_len(n, 20);
}

/// The signed decimal text of a number is not empty and holds nothing but
/// digits and the minus sign.
pub proof fn lemma_signed_decimal_bytes(i: int)
    ensures
        signed_decimal(i).len() >= 1,
        forall|k: int|
            0 <= k < signed_decimal(i).len() ==> is_digit(#[trigger] signed_decimal(i)[k])
                || signed_decimal(i)[k] == MINUS,
{
    if i < 0 {
        lemma_decimal_digits((-i) as nat);
        let digits = decimal((-i) as nat);
        assert forall|k: int| 0 <= k < signed_decimal(i).len() implies is_digit(
            #[trigger] signed_decimal(i)[k],
        ) || signed_decimal(i)[k] == MINUS by {
            if k > 0 {
                assert(signed_decimal(i)[k] == digits[k - 1]);
            }
        }
    } else {
        lemma_decimal_digits(i as nat);
    }
}

/// A text can be cut at the first place where a given byte stands: what comes
/// before that byte and what comes after it are both determined.
pub proof fn lemma_cut_at_first(
    mark: u8,
    before_a: Seq<u8>,
    after_a: Seq<u8>,
    before_b: Seq<u8>,
    after_b: Seq<u8>,
)
    requires
        forall|k: int| 0 <= k < before_a.len() ==> before_a[k] != mark,
        forall|k: int| 0 <= k < before_b.len() ==> before_b[k] != mark,
        before_a + (seq![mark] + after_a) == before_b + (seq![mark] + after_b),
    ensures
        before_a == before_b,
        after_a == after_b,
{
    let left = before_a + (seq![mark] + after_a);
    let right = before_b + (seq![mark] + after_b);
    if before_a.len() < before_b.len() {
        assert(left[before_a.len() as int] == mark);
        assert(right[before_a.len() as int] == before_b[before_a.len() as int]);
        assert(false);
    }
    if before_b.len() < before_a.len() {
        assert(right[before_b.len() as int] == mark);
        assert(left[before_b.len() as int] == before_a[before_b.len() as int]);
        assert(false);
    }
    assert(before_a =~= left.take(before_a.len() as int));
    assert(before_b =~= right.take(before_b.len() as int));
    assert(after_a =~= left.skip(before_a.len() as int + 1));
    assert(after_b =~= right.skip(before_b.len() as int + 1));
}

} // verus!
