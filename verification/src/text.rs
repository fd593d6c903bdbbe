//! Numerals and pieces of text, as the codecs and the statement builder
//! write and read them.

use vstd::prelude::*;
use vstd::std_specs::iter::IteratorSpec;

verus! {

/// `String::push` appends one character to the end of the string.
pub assume_specification[ String::push ](s: &mut String, ch: char)
    ensures
        final(s)@ == old(s)@.push(ch),
;

/// The character of a decimal digit `d < 10`.
pub open spec fn digit_char(d: nat) -> char {
    (('0' as u8) + (d as u8)) as char
}

/// The shortest decimal numeral of `n`.
pub open spec fn decimal(n: nat) -> Seq<char>
    decreases n,
{
    if n < 10 {
        seq![digit_char(n)]
    } else {
        decimal(n / 10).push(digit_char(n % 10))
    }
}

/// The decimal numeral of a signed number, with a leading `-` below zero.
pub open spec fn signed_decimal(i: int) -> Seq<char> {
    if i < 0 {
        seq!['-'] + decimal((-i) as nat)
    } else {
        decimal(i as nat)
    }
}

/// Whether `c` is one of `0` to `9`.
pub open spec fn is_digit(c: char) -> bool {
    '0' <= c && c <= '9'
}

/// The value of the digit `c`.
pub open spec fn digit_value(c: char) -> nat {
    (c as u8 - '0' as u8) as nat
}

/// The number that a sequence of decimal digits denotes; the empty sequence denotes 0.
pub open spec fn digits_value(digits: Seq<char>) -> nat
    decreases digits.len(),
{
    if digits.len() == 0 {
        0
    } else {
        digits_value(digits.drop_last()) * 10 + digit_value(digits.last())
    }
}

/// Whether every character of `digits` is a decimal digit.
pub open spec fn all_digits(digits: Seq<char>) -> bool {
    forall|i: int| 0 <= i < digits.len() ==> is_digit(#[trigger] digits[i])
}

/// Every numeral that `decimal` gives is made of digits, is not empty and denotes its number.
pub proof fn lemma_decimal_value(n: nat)
    ensures
        decimal(n).len() >= 1,
        all_digits(decimal(n)),
        digits_value(decimal(n)) == n,
    decreases n,
{
    if n < 10 {
        assert(decimal(n) =~= seq![digit_char(n)]);
        assert(decimal(n).drop_last() =~= Seq::<char>::empty());
        assert(digits_value(decimal(n).drop_last()) == 0);
    } else {
        lemma_decimal_value(n / 10);
        let d = decimal(n / 10);
        assert(decimal(n).drop_last() =~= d);
        assert(decimal(n).last() == digit_char(n % 10));
    }
}

/// A text has at least as many bytes as characters.
pub(crate) proof fn lemma_utf8_len_bound(chars: Seq<char>)
    ensures
        chars.len() <= vstd::utf8::encode_utf8(chars).len(),
    decreases chars.len(),
{
    if chars.len() > 0 {
        lemma_utf8_len_bound(chars.drop_first());
    }
}

/// Appends the decimal numeral of `n` to `out`.
pub fn push_decimal(out: &mut String, n: u64)
    ensures
        final(out)@ == old(out)@ + decimal(n as nat),
    decreases n,
{
    if n >= 10 {
        push_decimal(out, n / 10);
    }
    let d: u8 = (n % 10) as u8;
    out.push((0x30u8 + d) as char);
    assert(final(out)@ =~= old(out)@ + decimal(n as nat));
}

/// Appends the decimal numeral of the signed number `i` to `out`.
pub fn push_signed_decimal(out: &mut String, i: i64)
    ensures
        final(out)@ == old(out)@ + signed_decimal(i as int),
{
    if i < 0 {
        out.push('-');
        let magnitude: u64 = if i == i64::MIN {
            9223372036854775808u64
        } else {
            (-i) as u64
        };
        push_decimal(out, magnitude);
        assert(final(out)@ =~= old(out)@ + signed_decimal(i as int));
    } else {
        push_decimal(out, i as u64);
    }
}

/// The characters of `text`, first to last.
pub fn chars_of(text: &str) -> (r: Vec<char>)
    ensures
        r@ == text@,
{
    broadcast use vstd::string::group_string_axioms;

    let mut out: Vec<char> = Vec::new();
    let mut it = text.chars();
    loop
        invariant
            out@ + it.remaining() == text@,
        decreases text@.len() - out@.len(),
    {
        match it.next() {
            Some(c) => {
                out.push(c);
                assert(out@ + it.remaining() =~= text@);
            },
            None => {
                assert(out@ =~= text@);
                return out;
            },
        }
    }
}

/// The text that holds the given characters.
pub fn string_of(chars: &[char]) -> (r: String)
    ensures
        r@ == chars@,
{
    let mut out = String::new();
    let mut i: usize = 0;
    while i < chars.len()
        invariant
            i <= chars@.len(),
            out@ == chars@.subrange(0, i as int),
        decreases chars@.len() - i,
    {
        out.push(chars[i]);
        i += 1;
        assert(out@ =~= chars@.subrange(0, i as int));
    }
    assert(chars@.subrange(0, chars@.len() as int) =~= chars@);
    out
}

/// The number that a decimal numeral denotes, if it is at most 65535: an
/// optional `+` and one or more digits; zeros in front are allowed.
pub open spec fn parse_u16(text: Seq<char>) -> Option<u16> {
    let digits = if text.len() > 0 && text[0] == '+' {
        text.skip(1)
    } else {
        text
    };
    if digits.len() > 0 && all_digits(digits) && digits_value(digits) <= 65535 {
        Some(digits_value(digits) as u16)
    } else {
        None
    }
}

/// A numeral does not denote less than a numeral it starts with.
proof fn lemma_digits_value_grows(digits: Seq<char>, k: int)
    requires
        0 <= k <= digits.len(),
    ensures
        digits_value(digits.take(k)) <= digits_value(digits),
    decreases digits.len() - k,
{
    if k == digits.len() {
        assert(digits.take(k) =~= digits);
    } else {
        lemma_digits_value_grows(digits, k + 1);
        assert(digits.take(k + 1).drop_last() =~= digits.take(k));
        assert(digits_value(digits.take(k + 1)) >= 10 * digits_value(digits.take(k)));
    }
}

/// Reads a decimal numeral of at most 65535.
pub fn read_u16(text: &[char]) -> (r: Option<u16>)
    ensures
        r == parse_u16(text@),
{
    let start: usize = if text.len() > 0 && text[0] == '+' {
        1
    } else {
        0
    };
    let ghost digits = text@.skip(start as int);
    proof {
        assert(text@.skip(0) =~= text@);
        assert(digits == if text@.len() > 0 && text@[0] == '+' {
            text@.skip(1)
        } else {
            text@
        });
    }
    if start == text.len() {
        return None;
    }
    let mut value: u32 = 0;
    let mut i: usize = start;
    while i < text.len()
        invariant
            start <= i <= text@.len(),
            digits == text@.skip(start as int),
            digits == if text@.len() > 0 && text@[0] == '+' {
                text@.skip(1)
            } else {
                text@
            },
            all_digits(digits.take(i - start)),
            value == digits_value(digits.take(i - start)),
            value <= 65535,
        decreases text@.len() - i,
    {
        let c = text[i];
        assert(digits[i - start] == c);
        if c < '0' || c > '9' {
            return None;
        }
        let d = (c as u32) - ('0' as u32);
        value = value * 10 + d;
        proof {
            let longer = digits.take(i + 1 - start);
            assert(longer.drop_last() =~= digits.take(i - start));
            assert(longer.last() == c);
            assert forall|j: int| 0 <= j < longer.len() implies is_digit(#[trigger] longer[j]) by {
                if j < i - start {
                    assert(digits.take(i - start)[j] == longer[j]);
                }
            }
            assert(value == digits_value(longer));
            if value > 65535 {
                lemma_digits_value_grows(digits, i + 1 - start);
            }
        }
        if value > 65535 {
            return None;
        }
        i += 1;
    }
    assert(digits.take(i - start) =~= digits);
    Some(value as u16)
}

/// The first position of `text` that holds `sep`; the length of `text` where none does.
pub open spec fn index_of(text: Seq<char>, sep: char) -> int
    decreases text.len(),
{
    if text.len() == 0 || text[0] == sep {
        0
    } else {
        1 + index_of(text.drop_first(), sep)
    }
}

/// The pieces of `text` between the occurrences of `sep`: one more piece
/// than occurrences.
pub open spec fn split(text: Seq<char>, sep: char) -> Seq<Seq<char>>
    decreases text.len(),
{
    let i = index_of(text, sep);
    if 0 <= i < text.len() {
        seq![text.take(i)] + split(text.skip(i + 1), sep)
    } else {
        seq![text]
    }
}

/// `index_of` finds the first occurrence, or the end.
pub(crate) proof fn lemma_index_of(text: Seq<char>, sep: char, k: int)
    requires
        0 <= k <= text.len(),
        forall|j: int| 0 <= j < k ==> text[j] != sep,
        k == text.len() || text[k] == sep,
    ensures
        index_of(text, sep) == k,
    decreases k,
{
    if k > 0 {
        let rest = text.drop_first();
        assert forall|j: int| 0 <= j < k - 1 implies rest[j] != sep by {
            assert(rest[j] == text[j + 1]);
        }
        lemma_index_of(rest, sep, k - 1);
    }
}

/// The texts that the slices hold.
pub open spec fn slice_views(pieces: Seq<&[char]>) -> Seq<Seq<char>> {
    Seq::new(pieces.len(), |i: int| pieces[i]@)
}

/// Cuts `text` at every occurrence of `sep`.
pub fn split_at_each<'a>(text: &'a [char], sep: char) -> (r: Vec<&'a [char]>)
    ensures
        slice_views(r@) == split(text@, sep),
        r@.len() >= 1,
{
    let mut pieces: Vec<&'a [char]> = Vec::new();
    let mut start: usize = 0;
    let mut i: usize = 0;
    assert(text@.skip(0) =~= text@);
    assert(slice_views(pieces@) + split(text@.skip(0), sep) =~= split(text@, sep));
    while i < text.len()
        invariant
            start <= i <= text@.len(),
            slice_views(pieces@) + split(text@.skip(start as int), sep) == split(text@, sep),
            forall|j: int| start <= j < i ==> text@[j] != sep,
        decreases text@.len() - i,
    {
        if text[i] == sep {
            let piece = vstd::slice::slice_subrange(text, start, i);
            proof {
                let rest = text@.skip(start as int);
                assert forall|j: int| 0 <= j < i - start implies rest[j] != sep by {
                    assert(rest[j] == text@[start + j]);
                }
                lemma_index_of(rest, sep, i - start);
                assert(rest.take(i - start) =~= piece@);
                assert(rest.skip(i - start + 1) =~= text@.skip(i + 1));
                assert(slice_views(pieces@.push(piece)) =~= slice_views(pieces@) + seq![piece@]);
                assert(slice_views(pieces@.push(piece)) + split(text@.skip(i + 1), sep)
                    =~= slice_views(pieces@) + split(rest, sep));
            }
            pieces.push(piece);
            start = i + 1;
        }
        i += 1;
    }
    let piece = vstd::slice::slice_subrange(text, start, text.len());
    proof {
        let rest = text@.skip(start as int);
        assert forall|j: int| 0 <= j < rest.len() implies rest[j] != sep by {
            assert(rest[j] == text@[start + j]);
        }
        lemma_index_of(rest, sep, rest.len() as int);
        assert(rest =~= piece@);
        assert(slice_views(pieces@.push(piece)) =~= slice_views(pieces@) + seq![piece@]);
    }
    pieces.push(piece);
    pieces
}

} // verus!
