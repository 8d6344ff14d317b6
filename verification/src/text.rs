//! Plain operations on text, as sequences of characters.

use vstd::prelude::*;
use vstd::string::*;

verus! {

/// Whether `c` has the Unicode property `White_Space`.
pub open spec fn is_whitespace(c: char) -> bool {
    let code = c as u32;
    ||| 0x09 <= code <= 0x0d
    ||| code == 0x20
    ||| code == 0x85
    ||| code == 0xa0
    ||| code == 0x1680
    ||| 0x2000 <= code <= 0x200a
    ||| code == 0x2028
    ||| code == 0x2029
    ||| code == 0x202f
    ||| code == 0x205f
    ||| code == 0x3000
}

/// `text` without the white space at its start.
pub open spec fn trimmed_start(text: Seq<char>) -> Seq<char>
    decreases text.len(),
{
    if text.len() > 0 && is_whitespace(text[0]) {
        trimmed_start(text.skip(1))
    } else {
        text
    }
}

/// `text` without the white space at its end.
pub open spec fn trimmed_end(text: Seq<char>) -> Seq<char>
    decreases text.len(),
{
    if text.len() > 0 && is_whitespace(text.last()) {
        trimmed_end(text.drop_last())
    } else {
        text
    }
}

/// `text` without the white space at its start and at its end.
pub open spec fn trimmed(text: Seq<char>) -> Seq<char> {
    trimmed_end(trimmed_start(text))
}

/// The first index at or after `from` at which `target` stands, or the
/// length of `text` where it stands at none.
pub open spec fn position_from(text: Seq<char>, target: char, from: int) -> int
    decreases text.len() - from,
{
    if from >= text.len() {
        text.len() as int
    } else if from >= 0 && text[from] == target {
        from
    } else {
        position_from(text, target, from + 1)
    }
}

/// Skipping `count` leading white space characters is trimming the start,
/// where the character after them is none.
pub proof fn lemma_trimmed_start(text: Seq<char>, count: int)
    requires
        0 <= count <= text.len(),
        forall|j: int| 0 <= j < count ==> is_whitespace(#[trigger] text[j]),
        count < text.len() ==> !is_whitespace(text[count]),
    ensures
        trimmed_start(text) == text.skip(count),
    decreases count,
{
    if count == 0 {
        assert(text.skip(0) =~= text);
    } else {
        let tail = text.skip(1);
        assert forall|j: int| 0 <= j < count - 1 implies is_whitespace(#[trigger] tail[j]) by {
            assert(tail[j] == text[j + 1]);
        }
        lemma_trimmed_start(tail, count - 1);
        assert(tail.skip(count - 1) =~= text.skip(count));
    }
}

/// Keeping all but the trailing white space characters is trimming the end,
/// where the character before them is none.
pub proof fn lemma_trimmed_end(text: Seq<char>, kept: int)
    requires
        0 <= kept <= text.len(),
        forall|j: int| kept <= j < text.len() ==> is_whitespace(#[trigger] text[j]),
        kept > 0 ==> !is_whitespace(text[kept - 1]),
    ensures
        trimmed_end(text) == text.take(kept),
    decreases text.len() - kept,
{
    if kept == text.len() {
        assert(text.take(kept) =~= text);
    } else {
        let front = text.drop_last();
        lemma_trimmed_end(front, kept);
        assert(front.take(kept) =~= text.take(kept));
    }
}

/// Trimming never lengthens, and what it gives is a piece of the text.
pub proof fn lemma_trimmed_is_piece(text: Seq<char>)
    ensures
        trimmed(text).len() <= text.len(),
        exists|from: int, to: int|
            0 <= from <= to <= text.len() && trimmed(text) == #[trigger] text.subrange(from, to),
{
    lemma_trimmed_start_is_end_piece(text);
    let start = text.len() - trimmed_start(text).len();
    let middle = trimmed_start(text);
    lemma_trimmed_end_is_front_piece(middle);
    let kept = trimmed_end(middle).len() as int;
    assert(middle.take(kept) =~= text.subrange(start, start + kept));
}

/// Trimming the start gives an end piece of the text.
pub proof fn lemma_trimmed_start_is_end_piece(text: Seq<char>)
    ensures
        trimmed_start(text).len() <= text.len(),
        trimmed_start(text) == text.skip(text.len() - trimmed_start(text).len()),
    decreases text.len(),
{
    if text.len() > 0 && is_whitespace(text[0]) {
        let tail = text.skip(1);
        lemma_trimmed_start_is_end_piece(tail);
        assert(tail.skip(tail.len() - trimmed_start(tail).len()) =~= text.skip(
            text.len() - trimmed_start(tail).len(),
        ));
    } else {
        assert(text.skip(0) =~= text);
    }
}

/// Trimming the end gives a front piece of the text.
pub proof fn lemma_trimmed_end_is_front_piece(text: Seq<char>)
    ensures
        trimmed_end(text).len() <= text.len(),
        trimmed_end(text) == text.take(trimmed_end(text).len() as int),
    decreases text.len(),
{
    if text.len() > 0 && is_whitespace(text.last()) {
        let front = text.drop_last();
        lemma_trimmed_end_is_front_piece(front);
        assert(front.take(trimmed_end(front).len() as int) =~= text.take(
            trimmed_end(front).len() as int,
        ));
    } else {
        assert(text.take(text.len() as int) =~= text);
    }
}

/// What is left of a trimmed start does not start with white space.
pub proof fn lemma_trimmed_start_head(text: Seq<char>)
    ensures
        trimmed_start(text).len() > 0 ==> !is_whitespace(trimmed_start(text)[0]),
    decreases text.len(),
{
    if text.len() > 0 && is_whitespace(text[0]) {
        lemma_trimmed_start_head(text.skip(1));
    }
}

/// What is left of a trimmed end does not end with white space.
pub proof fn lemma_trimmed_end_tail(text: Seq<char>)
    ensures
        trimmed_end(text).len() > 0 ==> !is_whitespace(trimmed_end(text).last()),
    decreases text.len(),
{
    if text.len() > 0 && is_whitespace(text.last()) {
        lemma_trimmed_end_tail(text.drop_last());
    }
}

/// A trimmed text has no white space left to trim.
pub proof fn lemma_trimmed_twice(text: Seq<char>)
    ensures
        trimmed(trimmed(text)) == trimmed(text),
{
    let middle = trimmed_start(text);
    let inner = trimmed_end(middle);
    lemma_trimmed_start_head(text);
    lemma_trimmed_end_tail(middle);
    lemma_trimmed_end_is_front_piece(middle);
    if inner.len() > 0 {
        assert(inner[0] == middle[0]);
    }
}

/// `position_from` lies between `from` and the end, `target` stands at it
/// where it lies before the end, and at no index between `from` and it.
pub proof fn lemma_position_from(text: Seq<char>, target: char, from: int)
    requires
        0 <= from <= text.len(),
    ensures
        from <= position_from(text, target, from) <= text.len(),
        position_from(text, target, from) < text.len() ==> text[position_from(text, target, from)]
            == target,
        forall|j: int| from <= j < position_from(text, target, from) ==> text[j] != target,
    decreases text.len() - from,
{
    if from < text.len() && text[from] != target {
        lemma_position_from(text, target, from + 1);
    }
}

/// An index with `target` at it or at the end, and with no `target` between
/// `from` and it, is `position_from`.
pub proof fn lemma_position_from_is(text: Seq<char>, target: char, from: int, index: int)
    requires
        0 <= from <= index <= text.len(),
        forall|j: int| from <= j < index ==> text[j] != target,
        index < text.len() ==> text[index] == target,
    ensures
        position_from(text, target, from) == index,
    decreases index - from,
{
    if from < index {
        lemma_position_from_is(text, target, from + 1, index);
    }
}

/// Whether `c` is a white space character.
pub fn whitespace(c: char) -> (white: bool)
    ensures
        white == is_whitespace(c),
{
    let code: u32 = c as u32;
    (0x09 <= code && code <= 0x0d) || code == 0x20 || code == 0x85 || code == 0xa0 || code
        == 0x1680 || (0x2000 <= code && code <= 0x200a) || code == 0x2028 || code == 0x2029
        || code == 0x202f || code == 0x205f || code == 0x3000
}

/// `text` without the white space around it.
pub fn trim<'t>(text: &'t str) -> (inner: &'t str)
    ensures
        inner@ == trimmed(text@),
{
    let length = text.unicode_len();
    let mut start: usize = 0;
    while start < length && whitespace(text.get_char(start))
        invariant
            length == text@.len(),
            start <= length,
            forall|j: int| 0 <= j < start ==> is_whitespace(#[trigger] text@[j]),
        decreases length - start,
    {
        start += 1;
    }
    let mut end: usize = length;
    while end > start && whitespace(text.get_char(end - 1))
        invariant
            length == text@.len(),
            start <= end <= length,
            forall|j: int| end <= j < length ==> is_whitespace(#[trigger] text@[j]),
        decreases end,
    {
        end -= 1;
    }
    proof {
        lemma_trimmed_start(text@, start as int);
        let middle = text@.skip(start as int);
        assert forall|j: int| end - start <= j < middle.len() implies is_whitespace(
            #[trigger] middle[j],
        ) by {
            assert(middle[j] == text@[j + start]);
        }
        lemma_trimmed_end(middle, end - start);
        assert(middle.take(end - start) =~= text@.subrange(start as int, end as int));
    }
    text.substring_char(start, end)
}

/// The rest of `haystack` after `desired`, where `haystack` starts with it.
pub fn try_consume<'h>(desired: &str, haystack: &'h str) -> (remaining: Option<&'h str>)
    ensures
        match remaining {
            Some(rest) => desired@.is_prefix_of(haystack@) && rest@ == haystack@.skip(
                desired@.len() as int,
            ),
            None => !desired@.is_prefix_of(haystack@),
        },
{
    let wanted = desired.unicode_len();
    let length = haystack.unicode_len();
    if wanted > length {
        return None;
    }
    let mut i: usize = 0;
    while i < wanted
        invariant
            wanted == desired@.len(),
            length == haystack@.len(),
            wanted <= length,
            i <= wanted,
            forall|j: int| 0 <= j < i ==> desired@[j] == haystack@[j],
        decreases wanted - i,
    {
        if desired.get_char(i) != haystack.get_char(i) {
            proof {
                if desired@.is_prefix_of(haystack@) {
                    assert(desired@[i as int] == haystack@.subrange(0, wanted as int)[i as int]);
                }
            }
            return None;
        }
        i += 1;
    }
    proof {
        assert(desired@ =~= haystack@.subrange(0, wanted as int));
        assert(haystack@.subrange(wanted as int, length as int) =~= haystack@.skip(wanted as int));
    }
    Some(haystack.substring_char(wanted, length))
}

/// The first index at or after `from` at which `target` stands in `text`,
/// or the length of `text`.
pub fn find_from(text: &str, target: char, from: usize) -> (index: usize)
    requires
        from <= text@.len(),
    ensures
        index == position_from(text@, target, from as int),
        from <= index <= text@.len(),
{
    let length = text.unicode_len();
    let mut index: usize = from;
    while index < length && text.get_char(index) != target
        invariant
            length == text@.len(),
            from <= index <= length,
            forall|j: int| from <= j < index ==> text@[j] != target,
        decreases length - index,
    {
        index += 1;
    }
    proof {
        lemma_position_from_is(text@, target, from as int, index as int);
    }
    index
}

/// Whether two texts hold the same characters.
pub fn same_text(a: &str, b: &str) -> (same: bool)
    ensures
        same == (a@ == b@),
{
    if a.unicode_len() != b.unicode_len() {
        return false;
    }
    match try_consume(a, b) {
        Some(_) => {
            proof {
                assert(a@ =~= b@.subrange(0, a@.len() as int));
                assert(b@.subrange(0, a@.len() as int) =~= b@);
            }
            true
        },
        None => {
            proof {
                if a@ == b@ {
                    assert(a@ =~= b@.subrange(0, a@.len() as int));
                }
            }
            false
        },
    }
}

/// `String::push`: the character is appended to the text.
pub assume_specification[ String::push ](text: &mut String, c: char)
    ensures
        final(text)@ == old(text)@.push(c),
;

/// The character that writes the digit `digit`: `0` is character 48, and
/// the digits above nine are the lower case letters from `a`, character 97.
pub open spec fn digit_char(digit: nat) -> char {
    if digit < 10 {
        (48 + digit) as char
    } else {
        (97 + digit - 10) as char
    }
}

/// The digits of `value` in base `radix`, the least significant first.
pub open spec fn digits_from_least(value: nat, radix: nat) -> Seq<char>
    decreases value,
{
    if radix < 2 || value < radix {
        seq![digit_char(value)]
    } else {
        proof {
            assert(value / radix < value) by (nonlinear_arith)
                requires
                    radix >= 2,
                    value >= radix,
            ;
        }
        seq![digit_char(value % radix)] + digits_from_least(value / radix, radix)
    }
}

/// `value` written in base `radix`, without leading zeros.
pub open spec fn number_text(value: nat, radix: nat) -> Seq<char> {
    digits_from_least(value, radix).reverse()
}

/// `value` written in base ten, with a minus sign where it is negative.
pub open spec fn signed_text(value: int) -> Seq<char> {
    if value < 0 {
        seq!['-'] + number_text((-value) as nat, 10)
    } else {
        number_text(value as nat, 10)
    }
}

/// The character of one digit.
fn digit_to_char(digit: u8) -> (c: char)
    requires
        digit < 16,
    ensures
        c == digit_char(digit as nat),
{
    if digit < 10 {
        (48u8 + digit) as char
    } else {
        (97u8 + (digit - 10)) as char
    }
}

/// Appends `value`, written in base `radix`, to `text`.
pub fn push_number(text: &mut String, value: u128, radix: u8)
    requires
        radix == 10 || radix == 16,
    ensures
        final(text)@ == old(text)@ + number_text(value as nat, radix as nat),
{
    let mut digits: Vec<char> = Vec::new();
    let mut rest: u128 = value;
    let base: u128 = radix as u128;
    while rest >= base
        invariant
            base == radix,
            radix == 10 || radix == 16,
            digits_from_least(value as nat, radix as nat) == digits@ + digits_from_least(
                rest as nat,
                radix as nat,
            ),
        decreases rest,
    {
        let digit: u8 = (rest % base) as u8;
        proof {
            assert(digits@ + (seq![digit_char(digit as nat)] + digits_from_least(
                (rest / base) as nat,
                radix as nat,
            )) =~= digits@.push(digit_char(digit as nat)) + digits_from_least(
                (rest / base) as nat,
                radix as nat,
            ));
        }
        digits.push(digit_to_char(digit));
        rest = rest / base;
    }
    digits.push(digit_to_char(rest as u8));
    let ghost all = digits@;
    assert(all =~= digits_from_least(value as nat, radix as nat));
    let mut i: usize = digits.len();
    while i > 0
        invariant
            i <= digits.len(),
            digits@ == all,
            text@ == old(text)@ + all.reverse().take(all.len() - i),
        decreases i,
    {
        i -= 1;
        proof {
            let turned = all.reverse();
            assert(turned.take(all.len() - i) =~= turned.take(all.len() - i - 1).push(all[i as int]));
            assert((old(text)@ + turned.take(all.len() - i - 1)).push(all[i as int]) =~= old(text)@
                + turned.take(all.len() - i - 1).push(all[i as int]));
        }
        text.push(digits[i]);
    }
    proof {
        assert(all.reverse().take(all.len() as int) =~= all.reverse());
    }
}

/// Appends `value`, written in base ten, to `text`.
pub fn push_signed(text: &mut String, value: i128)
    ensures
        final(text)@ == old(text)@ + signed_text(value as int),
{
    if value < 0 {
        let magnitude: u128 = (-(value + 1)) as u128 + 1;
        text.push('-');
        push_number(text, magnitude, 10);
        proof {
            assert(old(text)@.push('-') + number_text(magnitude as nat, 10) =~= old(text)@ + (
            seq!['-'] + number_text(magnitude as nat, 10)));
        }
    } else {
        push_number(text, value as u128, 10);
    }
}

/// Why a run of characters is not a number that fits in 32 bits.
#[derive(Copy, Clone, Debug, PartialEq, Eq, Structural)]
pub enum NumberFault {
    /// There is no character.
    Empty,
    /// Some character is not a digit of the base.
    InvalidDigit,
    /// The number is larger than 32 bits hold.
    TooLarge,
}

/// Whether `c` is a digit of base `radix`: `0` to `9`, and in bases above
/// ten the letters from `a` or `A` on.
pub open spec fn is_digit(c: char, radix: nat) -> bool {
    ||| '0' <= c <= '9' && (c as nat) - 48 < radix
    ||| 'a' <= c <= 'z' && (c as nat) - 97 + 10 < radix
    ||| 'A' <= c <= 'Z' && (c as nat) - 65 + 10 < radix
}

/// The number that the digit `c` stands for.
pub open spec fn digit_of(c: char) -> nat {
    if '0' <= c <= '9' {
        ((c as nat) - 48) as nat
    } else if 'a' <= c <= 'z' {
        ((c as nat) - 97 + 10) as nat
    } else {
        ((c as nat) - 65 + 10) as nat
    }
}

/// Whether every character of `text` is a digit of base `radix`.
pub open spec fn all_digits(text: Seq<char>, radix: nat) -> bool {
    forall|i: int| 0 <= i < text.len() ==> is_digit(#[trigger] text[i], radix)
}

/// The number that the digits of `text` write in base `radix`.
pub open spec fn number_value(text: Seq<char>, radix: nat) -> nat
    decreases text.len(),
{
    if text.len() == 0 {
        0
    } else {
        number_value(text.drop_last(), radix) * radix + digit_of(text.last())
    }
}

/// The 32-bit number that `text` writes in base `radix`, or why it writes none.
pub open spec fn parsed_number(text: Seq<char>, radix: nat) -> Result<u32, NumberFault> {
    if text.len() == 0 {
        Err(NumberFault::Empty)
    } else if !all_digits(text, radix) {
        Err(NumberFault::InvalidDigit)
    } else if number_value(text, radix) > u32::MAX {
        Err(NumberFault::TooLarge)
    } else {
        Ok(number_value(text, radix) as u32)
    }
}

/// The digits up to any place write no more than all the digits do.
pub proof fn lemma_number_value_grows(text: Seq<char>, radix: nat, count: int)
    requires
        radix >= 1,
        0 <= count <= text.len(),
    ensures
        number_value(text.take(count), radix) <= number_value(text, radix),
    decreases text.len() - count,
{
    if count == text.len() {
        assert(text.take(count) =~= text);
    } else {
        lemma_number_value_grows(text, radix, count + 1);
        let longer = text.take(count + 1);
        assert(longer.drop_last() =~= text.take(count));
        let shorter = number_value(text.take(count), radix);
        assert(shorter * radix >= shorter) by (nonlinear_arith)
            requires
                radix >= 1,
                shorter >= 0,
        ;
    }
}

/// Whether `c` is a digit of base `radix`, and the number it stands for.
fn digit_value(c: char, radix: u8) -> (digit: Option<u8>)
    requires
        radix == 10 || radix == 16,
    ensures
        match digit {
            Some(d) => is_digit(c, radix as nat) && d == digit_of(c) && d < radix,
            None => !is_digit(c, radix as nat),
        },
{
    let code: u32 = c as u32;
    let digit: u32 = if 48 <= code && code <= 57 {
        code - 48
    } else if 97 <= code && code <= 122 {
        code - 97 + 10
    } else if 65 <= code && code <= 90 {
        code - 65 + 10
    } else {
        return None;
    };
    if digit < radix as u32 {
        Some(digit as u8)
    } else {
        None
    }
}

/// Reads `text` as a 32-bit number in base `radix`.
pub fn parse_number(text: &str, radix: u8) -> (number: Result<u32, NumberFault>)
    requires
        radix == 10 || radix == 16,
    ensures
        number == parsed_number(text@, radix as nat),
{
    let length = text.unicode_len();
    if length == 0 {
        return Err(NumberFault::Empty);
    }
    let mut i: usize = 0;
    while i < length
        invariant
            length == text@.len(),
            radix == 10 || radix == 16,
            i <= length,
            forall|j: int| 0 <= j < i ==> is_digit(#[trigger] text@[j], radix as nat),
        decreases length - i,
    {
        if digit_value(text.get_char(i), radix).is_none() {
            return Err(NumberFault::InvalidDigit);
        }
        i += 1;
    }
    let mut value: u64 = 0;
    let mut i: usize = 0;
    while i < length
        invariant
            length == text@.len(),
            radix == 10 || radix == 16,
            i <= length,
            all_digits(text@, radix as nat),
            value == number_value(text@.take(i as int), radix as nat),
            value <= u32::MAX,
        decreases length - i,
    {
        let digit = digit_value(text.get_char(i), radix);
        proof {
            assert(is_digit(text@[i as int], radix as nat));
            assert(text@.take(i + 1).drop_last() =~= text@.take(i as int));
            lemma_number_value_grows(text@, radix as nat, i + 1);
            assert(value * radix <= 0xffff_ffff * 16) by (nonlinear_arith)
                requires
                    value <= 0xffff_ffff,
                    radix <= 16,
            ;
        }
        match digit {
            Some(d) => {
                value = value * (radix as u64) + d as u64;
                if value > u32::MAX as u64 {
                    return Err(NumberFault::TooLarge);
                }
            },
            None => {
                return Err(NumberFault::InvalidDigit);
            },
        }
        i += 1;
    }
    proof {
        assert(text@.take(length as int) =~= text@);
    }
    Ok(value as u32)
}

} // verus!
