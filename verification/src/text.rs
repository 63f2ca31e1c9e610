//! Text: numbers written in decimal and hexadecimal, decimal numbers read
//! back, and the text that a run of bytes holds.

use vstd::prelude::*;
use vstd::string::StringSliceAdditionalSpecFns;
use vstd::utf8::{decode_utf8, encode_utf8, valid_utf8};

verus! {

/// The character of a digit, decimal or hexadecimal.
pub open spec fn digit(d: int) -> char {
    if 0 <= d < 10 {
        (0x30 + d) as char
    } else {
        (0x57 + d) as char
    }
}

/// `n` in decimal, no leading zeros.
pub open spec fn decimal(n: nat) -> Seq<char>
    decreases n,
{
    if n < 10 {
        seq![digit(n as int)]
    } else {
        decimal(n / 10).push(digit((n % 10) as int))
    }
}

/// `i` in decimal, a minus sign before it where it is negative.
pub open spec fn signed_decimal(i: int) -> Seq<char> {
    if i < 0 {
        seq!['-'] + decimal((-i) as nat)
    } else {
        decimal(i as nat)
    }
}

/// The last `width` hexadecimal digits of `n`, lower case.
pub open spec fn hex(n: nat, width: nat) -> Seq<char>
    decreases width,
{
    if width == 0 {
        Seq::empty()
    } else {
        hex(n / 16, (width - 1) as nat).push(digit((n % 16) as int))
    }
}

/// A decimal digit, as text reads one.
pub open spec fn is_digit(c: char) -> bool {
    '0' <= c <= '9'
}

/// What a run of decimal digits counts to.
pub open spec fn digits_value(text: Seq<char>) -> nat
    decreases text.len(),
{
    if text.len() == 0 {
        0
    } else {
        digits_value(text.drop_last()) * 10 + (text.last() as nat - 0x30) as nat
    }
}

/// The digits of a number: what follows the plus sign that may open it.
pub open spec fn number_digits(text: Seq<char>) -> Seq<char> {
    if text.len() > 0 && text[0] == '+' {
        text.skip(1)
    } else {
        text
    }
}

/// The number `text` is: an optional plus sign, then decimal digits, at
/// least one, that come to `max` or less; `None` where it is not one.
pub open spec fn parsed_number(text: Seq<char>, max: nat) -> Option<nat> {
    let digits = number_digits(text);
    if digits.len() > 0 && (forall|i: int| 0 <= i < digits.len() ==> is_digit(#[trigger] digits[i]))
        && digits_value(digits) <= max {
        Some(digits_value(digits))
    } else {
        None
    }
}

/// `text` begins with `prefix`.
pub open spec fn begins_with(text: Seq<char>, prefix: Seq<char>) -> bool {
    prefix.len() <= text.len() && text.take(prefix.len() as int) == prefix
}

/// The place of the first `wanted` at or after `from`, or the length of
/// the text where there is none.
pub open spec fn first_place(text: Seq<char>, wanted: char, from: int) -> int
    decreases text.len() - from,
{
    if from >= text.len() || text[from] == wanted {
        from
    } else {
        first_place(text, wanted, from + 1)
    }
}

/// The text that `String::from_utf8_lossy` makes of bytes that are not
/// UTF-8: each ill-formed run comes out as U+FFFD.
pub uninterp spec fn lossy_text(bytes: Seq<u8>) -> Seq<char>;

/// `text` as `{:?}` prints it: in quotation marks, with what is not
/// printable escaped.
pub uninterp spec fn debug_text(text: Seq<char>) -> Seq<char>;

/// The text a run of bytes holds: what they encode where they are UTF-8,
/// and the nearest text to it where they are not.
pub open spec fn text_of(bytes: Seq<u8>) -> Seq<char> {
    if valid_utf8(bytes) {
        decode_utf8(bytes)
    } else {
        lossy_text(bytes)
    }
}

/// `String::from_utf8_lossy`: bytes that are UTF-8 give the text they
/// encode; of other bytes nothing is said but that the text depends on
/// them alone.
#[verifier::external_body]
pub(crate) fn lossy(bytes: &[u8]) -> (text: String)
    ensures
        valid_utf8(bytes@) ==> text@ == decode_utf8(bytes@),
        !valid_utf8(bytes@) ==> text@ == lossy_text(bytes@),
{
    String::from_utf8_lossy(bytes).into_owned()
}

/// `format!` with `{:?}` on a `str`: the text printed depends on `text`
/// alone; how each character is escaped is not said.
#[verifier::external_body]
pub(crate) fn quoted(text: &str) -> (printed: String)
    ensures
        printed@ == debug_text(text@),
{
    format!("{text:?}")
}

/// One digit as text.
fn digit_text(d: u8) -> (text: &'static str)
    requires
        d < 16,
    ensures
        text@ == seq![digit(d as int)],
{
    proof {
        reveal_strlit("0");
        reveal_strlit("1");
        reveal_strlit("2");
        reveal_strlit("3");
        reveal_strlit("4");
        reveal_strlit("5");
        reveal_strlit("6");
        reveal_strlit("7");
        reveal_strlit("8");
        reveal_strlit("9");
        reveal_strlit("a");
        reveal_strlit("b");
        reveal_strlit("c");
        reveal_strlit("d");
        reveal_strlit("e");
        reveal_strlit("f");
    }
    match d {
        0 => "0",
        1 => "1",
        2 => "2",
        3 => "3",
        4 => "4",
        5 => "5",
        6 => "6",
        7 => "7",
        8 => "8",
        9 => "9",
        10 => "a",
        11 => "b",
        12 => "c",
        13 => "d",
        14 => "e",
        _ => "f",
    }
}

/// `n` in decimal.
pub fn decimal_text(n: u64) -> (text: String)
    ensures
        text@ == decimal(n as nat),
    decreases n,
{
    let mut text = if n < 10 {
        String::new()
    } else {
        decimal_text(n / 10)
    };
    text.append(digit_text((n % 10) as u8));
    text
}

/// `i` in decimal, signed.
pub fn signed_decimal_text(i: i64) -> (text: String)
    ensures
        text@ == signed_decimal(i as int),
{
    if i < 0 {
        proof {
            reveal_strlit("-");
        }
        let mut text = String::new();
        text.append("-");
        text.append(decimal_text((0 - i as i128) as u64).as_str());
        text
    } else {
        decimal_text(i as u64)
    }
}

/// The last `width` hexadecimal digits of `n`.
pub fn hex_text(n: u32, width: u8) -> (text: String)
    ensures
        text@ == hex(n as nat, width as nat),
    decreases width,
{
    if width == 0 {
        String::new()
    } else {
        let mut text = hex_text(n / 16, width - 1);
        text.append(digit_text((n % 16) as u8));
        text
    }
}

/// Whether two texts are the same.
pub fn same_text(a: &str, b: &str) -> (same: bool)
    ensures
        same == (a@ == b@),
{
    broadcast use vstd::utf8::encode_utf8_decode_utf8;
    assert(decode_utf8(a.spec_bytes()) == a@ && decode_utf8(b.spec_bytes()) == b@);
    same_bytes(a.as_bytes(), b.as_bytes())
}

/// Whether two runs of bytes are the same.
pub fn same_bytes(a: &[u8], b: &[u8]) -> (same: bool)
    ensures
        same == (a@ == b@),
{
    if a.len() != b.len() {
        return false;
    }
    let mut i: usize = 0;
    while i < a.len()
        invariant
            a@.len() == b@.len(),
            i <= a@.len(),
            a@.take(i as int) =~= b@.take(i as int),
        decreases a@.len() - i,
    {
        if a[i] != b[i] {
            return false;
        }
        i += 1;
    }
    assert(a@.take(i as int) =~= a@ && b@.take(i as int) =~= b@);
    true
}

/// The characters of a text, one by one.
pub(crate) fn characters(text: &str) -> (all: Vec<char>)
    ensures
        all@ == text@,
{
    let mut all: Vec<char> = Vec::new();
    for c in iter: text.chars()
        invariant
            all@ == text@.take(iter.index() as int),
            iter.seq() == text@,
    {
        all.push(c);
    }
    all
}

/// The number that the characters from `from` up to `to` write.
pub(crate) fn parse_number(text: &Vec<char>, from: usize, to: usize, max: u32) -> (number: Option<u32>)
    requires
        from <= to <= text@.len(),
    ensures
        match parsed_number(text@.subrange(from as int, to as int), max as nat) {
            Some(n) => number == Some(n as u32),
            None => number is None,
        },
{
    let ghost whole = text@.subrange(from as int, to as int);
    let ghost digits = number_digits(whole);
    let start = if from < to && text[from] == '+' {
        from + 1
    } else {
        from
    };
    assert(digits =~= text@.subrange(start as int, to as int));
    if start == to {
        return None;
    }
    let mut value: u64 = 0;
    let mut at = start;
    while at < to
        invariant
            start <= at <= to <= text@.len(),
            digits == text@.subrange(start as int, to as int),
            value == digits_value(digits.take(at - start)),
            value <= max,
            forall|i: int| 0 <= i < at - start ==> is_digit(#[trigger] digits[i]),
            whole == text@.subrange(from as int, to as int),
            digits == number_digits(whole),
        decreases to - at,
    {
        let c = text[at];
        assert(c == digits[at - start]);
        if c < '0' || c > '9' {
            return None;
        }
        assert(digits.take(at - start + 1).drop_last() =~= digits.take(at - start));
        value = value * 10 + (c as u64 - 0x30);
        assert(value == digits_value(digits.take(at - start + 1)));
        if value > max as u64 {
            proof {
                lemma_digits_value_grows(digits, at - start + 1);
            }
            return None;
        }
        at += 1;
    }
    assert(digits.take(at - start) =~= digits);
    Some(value as u32)
}

/// Where the first `wanted` from `from` on stands.
pub(crate) fn find(text: &Vec<char>, wanted: char, from: usize) -> (place: usize)
    requires
        from <= text@.len(),
    ensures
        place == first_place(text@, wanted, from as int),
        from <= place <= text@.len(),
{
    let mut at = from;
    while at < text.len() && text[at] != wanted
        invariant
            from <= at <= text@.len(),
            first_place(text@, wanted, from as int) == first_place(text@, wanted, at as int),
        decreases text@.len() - at,
    {
        at += 1;
    }
    at
}

/// Whether `text` begins with `prefix`.
pub(crate) fn starts_with(text: &Vec<char>, from: usize, prefix: &str) -> (does: bool)
    requires
        from <= text@.len(),
    ensures
        does == begins_with(text@.skip(from as int), prefix@),
{
    let wanted = characters(prefix);
    let ghost rest = text@.skip(from as int);
    let length: usize = text.len();
    if length - from < wanted.len() {
        return false;
    }
    let mut i: usize = 0;
    while i < wanted.len()
        invariant
            i <= wanted@.len(),
            wanted@ == prefix@,
            from + wanted@.len() <= length,
            length == text@.len(),
            rest == text@.skip(from as int),
            forall|j: int| 0 <= j < i ==> rest[j] == prefix@[j],
        decreases wanted@.len() - i,
    {
        if text[from + i] != wanted[i] {
            assert(rest.take(prefix@.len() as int)[i as int] != prefix@[i as int]);
            return false;
        }
        i += 1;
    }
    assert(rest.take(prefix@.len() as int) =~= prefix@);
    true
}

proof fn lemma_digits_value_grows(digits: Seq<char>, n: int)
    requires
        0 <= n <= digits.len(),
    ensures
        digits_value(digits.take(n)) <= digits_value(digits),
    decreases digits.len() - n,
{
    if n < digits.len() {
        lemma_digits_value_grows(digits, n + 1);
        assert(digits.take(n + 1).drop_last() =~= digits.take(n));
    } else {
        assert(digits.take(n) =~= digits);
    }
}

/// A number reads back from its decimal text.
pub proof fn law_decimal_reads_back(n: nat, max: nat)
    requires
        n <= max,
    ensures
        parsed_number(decimal(n), max) == Some(n),
{
    lemma_decimal(n);
    assert(is_digit(decimal(n)[0]));
    assert(number_digits(decimal(n)) == decimal(n));
}

pub(crate) proof fn lemma_decimal(n: nat)
    ensures
        decimal(n).len() > 0,
        forall|i: int| 0 <= i < decimal(n).len() ==> is_digit(#[trigger] decimal(n)[i]),
        digits_value(decimal(n)) == n,
    decreases n,
{
    let text = decimal(n);
    if n < 10 {
        assert(text.drop_last() =~= Seq::empty());
        assert(digits_value(text.drop_last()) == 0);
    } else {
        lemma_decimal(n / 10);
        assert(text.drop_last() =~= decimal(n / 10));
    }
}

/// Where no earlier character is the one wanted, it is found where it
/// stands.
pub(crate) proof fn lemma_first_place(text: Seq<char>, wanted: char, from: int, place: int)
    requires
        0 <= from <= place < text.len(),
        text[place] == wanted,
        forall|i: int| from <= i < place ==> #[trigger] text[i] != wanted,
    ensures
        first_place(text, wanted, from) == place,
    decreases place - from,
{
    if from < place {
        lemma_first_place(text, wanted, from + 1, place);
    }
}

/// A number of four bytes has at most ten digits.
pub proof fn lemma_decimal_len(n: nat)
    requires
        n <= u32::MAX,
    ensures
        decimal(n).len() <= 10,
{
    reveal_with_fuel(decimal, 10);
}

/// A number of one digit is that digit, and ten times a number and a digit is
/// the number with the digit behind it.
pub proof fn law_decimal_grows_by_a_digit(n: nat, d: nat)
    requires
        d < 10,
    ensures
        decimal(d) == seq![('0' as int + d) as char],
        n > 0 ==> decimal(10 * n + d) == decimal(n).push(('0' as int + d) as char),
{
    if n > 0 {
        assert((10 * n + d) / 10 == n && (10 * n + d) % 10 == d);
    }
}

/// A number is opened by a zero only where it is zero.
pub proof fn law_decimal_has_no_leading_zero(n: nat)
    ensures
        decimal(n).len() > 0,
        decimal(n)[0] == '0' <==> n == 0,
    decreases n,
{
    if n >= 10 {
        law_decimal_has_no_leading_zero(n / 10);
    }
}

/// A negative number is its opposite behind a minus sign, and any other has no
/// sign.
pub proof fn law_sign_opens_a_negative_number(n: nat)
    ensures
        signed_decimal(n as int) == decimal(n),
        n > 0 ==> signed_decimal(-(n as int)) == seq!['-'] + decimal(n),
{
}

/// Hexadecimal is as wide as asked, and sixteen times a number and a digit is
/// the number, one narrower, with the digit behind it: one of `0` to `9` and
/// `a` to `f`.
pub proof fn law_hex_grows_by_a_digit(n: nat, d: nat, width: nat)
    requires
        d < 16,
    ensures
        hex(n, width).len() == width,
        hex(16 * n + d, width + 1) == hex(n, width).push(
            if d < 10 {
                ('0' as int + d) as char
            } else {
                ('a' as int + d - 10) as char
            },
        ),
    decreases width,
{
    assert((16 * n + d) / 16 == n && (16 * n + d) % 16 == d);
    if width > 0 {
        law_hex_grows_by_a_digit(n / 16, n % 16, (width - 1) as nat);
    }
}

/// One digit is read as the number it is, and a digit behind a number as ten
/// times the number and the digit; a number over what is asked for is none.
pub proof fn law_number_grows_by_a_digit(text: Seq<char>, c: char, top: nat, max: nat)
    requires
        '0' <= c <= '9',
    ensures
        parsed_number(seq![c], max) == if c as int - '0' as int <= max {
            Some((c as int - '0' as int) as nat)
        } else {
            None::<nat>
        },
        parsed_number(text, top) matches Some(n) ==> parsed_number(text.push(c), max) == if 10 * n
            + (c as int - '0' as int) <= max {
            Some((10 * n + (c as int - '0' as int)) as nat)
        } else {
            None::<nat>
        },
{
    let one = seq![c];
    assert(one.drop_last() =~= Seq::empty());
    assert(digits_value(Seq::<char>::empty()) == 0);
    assert(is_digit(one[0]));
    if parsed_number(text, top) is Some {
        let digits = number_digits(text);
        let more = number_digits(text.push(c));
        assert(more =~= digits.push(c));
        assert(more.drop_last() =~= digits);
        assert forall|i: int| 0 <= i < more.len() implies is_digit(#[trigger] more[i]) by {
            if i < digits.len() {
                assert(is_digit(digits[i]));
            }
        }
    }
}

/// A plus sign may open a number and changes nothing. Left out are texts that
/// have one already.
pub proof fn law_plus_sign_changes_nothing(text: Seq<char>, max: nat)
    requires
        text.len() > 0,
        text[0] != '+',
    ensures
        parsed_number(seq!['+'] + text, max) == parsed_number(text, max),
{
    assert((seq!['+'] + text).skip(1) =~= text);
}

/// Nothing, a plus sign alone, and a text with anything else in it than digits
/// behind the sign are no number.
pub proof fn law_other_text_is_no_number(text: Seq<char>, at: int, max: nat)
    requires
        0 <= at < text.len(),
        !('0' <= text[at] <= '9'),
        at == 0 ==> text[0] != '+',
    ensures
        parsed_number(text, max) is None,
        parsed_number(Seq::empty(), max) is None,
        parsed_number(seq!['+'], max) is None,
{
    let digits = number_digits(text);
    let place = if text[0] == '+' {
        at - 1
    } else {
        at
    };
    assert(digits[place] == text[at]);
    assert(!is_digit(digits[place]));
    assert(number_digits(seq!['+']).len() == 0);
}

/// A text begins with what stands in front of it, and with nothing else.
pub proof fn law_text_begins_with_its_front(front: Seq<char>, rest: Seq<char>, text: Seq<char>)
    ensures
        begins_with(front + rest, front),
        begins_with(text, front) ==> text == front + text.skip(front.len() as int),
{
    assert((front + rest).take(front.len() as int) =~= front);
    if begins_with(text, front) {
        assert(text =~= text.take(front.len() as int) + text.skip(front.len() as int));
    }
}

/// The first place of a character has it, and none before it has; where there
/// is none the place is behind the text.
pub proof fn law_first_place_is_the_first(text: Seq<char>, wanted: char, from: int)
    requires
        0 <= from <= text.len(),
    ensures
        from <= first_place(text, wanted, from) <= text.len(),
        first_place(text, wanted, from) < text.len() ==> text[first_place(text, wanted, from)]
            == wanted,
        forall|i: int|
            from <= i < first_place(text, wanted, from) ==> #[trigger] text[i] != wanted,
    decreases text.len() - from,
{
    if from < text.len() && text[from] != wanted {
        law_first_place_is_the_first(text, wanted, from + 1);
    }
}

/// The bytes that a text encodes to hold that text.
pub proof fn law_encoded_text_is_held(text: Seq<char>)
    ensures
        text_of(encode_utf8(text)) == text,
{
    broadcast use {vstd::utf8::encode_utf8_decode_utf8, vstd::utf8::encode_utf8_valid_utf8};

}

/// Bytes that are UTF-8 hold the text they encode, however long it is, and
/// others what can be made out of them.
pub proof fn law_bytes_hold_a_text(bytes: Seq<u8>)
    ensures
        valid_utf8(bytes) ==> encode_utf8(text_of(bytes)) == bytes,
        !valid_utf8(bytes) ==> text_of(bytes) == lossy_text(bytes),
{
    broadcast use vstd::utf8::decode_utf8_encode_utf8;

}

} // verus!
