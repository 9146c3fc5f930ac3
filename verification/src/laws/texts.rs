//! Laws of numbers, words and lines.
use vstd::prelude::*;

use crate::laws::paths;
use crate::text;

verus! {

/// The number that digits write in a base, most significant first.
pub open spec fn value_in(digits: Seq<char>, base: nat) -> nat
    decreases digits.len(),
{
    if digits.len() == 0 {
        0
    } else {
        value_in(digits.drop_last(), base) * base + (digits.last() as nat - 48) as nat
    }
}

/// Whether a character is a digit of a base that is ten or less.
pub open spec fn is_digit_of(c: char, base: nat) -> bool {
    '0' <= c <= '9' && (c as nat) < 48 + base
}

/// Whether all characters are digits of a base that is ten or less.
pub open spec fn are_digits(digits: Seq<char>, base: nat) -> bool {
    forall|i: int| 0 <= i < digits.len() ==> is_digit_of(#[trigger] digits[i], base)
}

/// A number is written by the digits that have its value, without a zero in front but for zero
/// itself.
pub proof fn law_digits(value: nat, base: nat)
    requires
        2 <= base <= 10,
    ensures
        text::digits(value, base).len() > 0,
        are_digits(text::digits(value, base), base),
        value_in(text::digits(value, base), base) == value,
        text::digits(value, base)[0] == '0' <==> value == 0,
        value == 0 ==> text::digits(value, base) == seq!['0'],
    decreases value,
{
    let digits = text::digits(value, base);
    if value < base {
        assert(digits.drop_last() =~= Seq::empty());
        assert(value_in(digits.drop_last(), base) == 0);
        assert(0 * base == 0);
        assert(digits.last() as nat == 48 + value);
    } else {
        let front = value / base;
        assert(front < value && front > 0 && front * base + value % base == value && value % base
            < base) by (nonlinear_arith)
            requires
                value >= base,
                base >= 2,
                front == value / base,
        ;
        law_digits(front, base);
        assert(digits.drop_last() =~= text::digits(front, base));
        assert(digits.last() as nat == 48 + value % base);
        assert(digits[0] == text::digits(front, base)[0]);
        assert forall|i: int| 0 <= i < digits.len() implies is_digit_of(
            #[trigger] digits[i],
            base,
        ) by {
            if i < digits.len() - 1 {
                assert(digits[i] == text::digits(front, base)[i]);
            }
        }
    }
}

proof fn lemma_leading_zeros(count: nat, digits: Seq<char>, base: nat)
    ensures
        value_in(Seq::new(count, |i: int| '0') + digits, base) == value_in(digits, base),
    decreases count + digits.len(),
{
    let zeros = Seq::new(count, |i: int| '0');
    let whole = zeros + digits;
    if digits.len() > 0 {
        assert(whole.drop_last() =~= zeros + digits.drop_last());
        lemma_leading_zeros(count, digits.drop_last(), base);
    } else if count > 0 {
        let fewer = (count - 1) as nat;
        assert(whole.drop_last() =~= Seq::new(fewer, |i: int| '0') + digits);
        lemma_leading_zeros(fewer, digits, base);
        assert(0 * base == 0);
    } else {
        assert(whole =~= digits);
    }
}

/// A mode reads as `0o` and its octal digits. On a command line it stands in octal digits of the
/// same value, four of them unless it needs more.
pub proof fn law_mode_texts(mode: u32)
    ensures
        ({
            let shown = text::mode_text(mode);
            let argument = text::mode_argument(mode);
            &&& shown == seq!['0', 'o'] + text::digits(mode as nat, 8)
            &&& value_in(shown.skip(2), 8) == mode
            &&& are_digits(argument, 8)
            &&& value_in(argument, 8) == mode
            &&& mode <= 0o7777 ==> argument.len() == 4
            &&& mode > 0o7777 ==> argument == text::digits(mode as nat, 8)
        }),
{
    let digits = text::digits(mode as nat, 8);
    let argument = text::mode_argument(mode);
    law_digits(mode as nat, 8);
    reveal_strlit("0o");
    assert("0o"@ =~= seq!['0', 'o']);
    assert(text::mode_text(mode).skip(2) =~= digits);
    let missing: nat = (if digits.len() < 4 {
        4 - digits.len()
    } else {
        0
    }) as nat;
    lemma_leading_zeros(missing, digits, 8);
    reveal_with_fuel(text::digits, 5);
    if mode > 0o7777 {
        assert(argument =~= digits);
    }
    assert forall|i: int| 0 <= i < argument.len() implies is_digit_of(
        #[trigger] argument[i],
        8,
    ) by {
        if i >= missing {
            assert(argument[i] == digits[i - missing]);
        }
    }
}

/// A signed number reads as its decimal digits, after a `-` where it is negative.
pub proof fn law_decimal_text(value: i32)
    ensures
        value >= 0 ==> text::decimal_text(value) == text::digits(value as nat, 10),
        value < 0 ==> text::decimal_text(value) == seq!['-'] + text::digits((-value) as nat, 10),
{
    reveal_strlit("-");
    assert("-"@ =~= seq!['-']);
}

proof fn lemma_digits_value(digits: Seq<char>)
    requires
        are_digits(digits, 10),
    ensures
        text::digits_value(digits) == value_in(digits, 10),
    decreases digits.len(),
{
    if digits.len() > 0 {
        let shorter = digits.drop_last();
        assert forall|i: int| 0 <= i < shorter.len() implies is_digit_of(
            #[trigger] shorter[i],
            10,
        ) by {
            assert(shorter[i] == digits[i]);
        }
        lemma_digits_value(shorter);
    }
}

/// The numbers that are read: decimal digits, one at least, that have a value of 32 bits. A `+` may
/// stand before them.
pub proof fn law_parsed_numbers(word: Seq<char>)
    ensures
        word.len() == 0 || word[0] != '+' ==> text::parsed_u32(word) == if word.len() > 0
            && are_digits(word, 10) && value_in(word, 10) <= 0xffff_ffff {
            Some(value_in(word, 10) as u32)
        } else {
            None
        },
        word.len() > 0 && word[0] == '+' ==> text::parsed_u32(word) == if word.len() > 1
            && are_digits(word.skip(1), 10) && value_in(word.skip(1), 10) <= 0xffff_ffff {
            Some(value_in(word.skip(1), 10) as u32)
        } else {
            None
        },
{
    let body = if word.len() > 0 && word[0] == '+' {
        word.skip(1)
    } else {
        word
    };
    if are_digits(body, 10) {
        lemma_digits_value(body);
        assert forall|i: int| 0 <= i < body.len() implies text::is_digit(#[trigger] body[i]) by {
            assert(is_digit_of(body[i], 10));
        }
    } else {
        let i = choose|i: int|
            0 <= i < body.len() && !is_digit_of(#[trigger] body[i], 10);
        assert(!text::is_digit(body[i]));
    }
}

/// A number that is written out is read back.
pub proof fn law_numbers_are_read_back(number: u32)
    ensures
        text::parsed_u32(text::digits(number as nat, 10)) == Some(number),
{
    let digits = text::digits(number as nat, 10);
    law_digits(number as nat, 10);
    assert(is_digit_of(digits[0], 10));
    law_parsed_numbers(digits);
}

/// A separator parts what stands before it from what stands after it, and nothing else parts
/// anything.
pub proof fn law_split<T>(left: Seq<T>, separator: T, right: Seq<T>)
    ensures
        text::split(left.push(separator) + right, separator) == text::split(left, separator)
            + text::split(right, separator),
        (forall|i: int| 0 <= i < left.len() ==> #[trigger] left[i] != separator) ==> text::split(
            left,
            separator,
        ) == seq![left],
{
    let before = left.push(separator);
    text::lemma_split_nonempty(left, separator);
    text::lemma_split_nonempty(right, separator);
    paths::lemma_split_concat(before, right, separator);
    assert(before.drop_last() =~= left);
    let l = text::split(left, separator);
    let b = text::split(before, separator);
    let r = text::split(right, separator);
    assert(b == l.push(Seq::empty()));
    assert(b.drop_last() =~= l);
    assert(b.last() + r[0] =~= r[0]);
    assert(l + seq![r[0]] + r.drop_first() =~= l + r);
    if forall|i: int| 0 <= i < left.len() ==> #[trigger] left[i] != separator {
        paths::lemma_split_without(left, separator);
    }
}

/// White space among the first characters: the control characters from tab to carriage return,
/// and the space.
pub proof fn law_plain_spaces(c: char)
    requires
        (c as nat) < 0x80,
    ensures
        text::is_space(c) <==> (9 <= c as nat && c as nat <= 13) || c as nat == 32,
{
}

/// Whether no character is white space.
pub open spec fn is_word(word: Seq<char>) -> bool {
    forall|i: int| 0 <= i < word.len() ==> !text::is_space(#[trigger] word[i])
}

/// White space parts the words before it from those after it. What holds none is one word, or
/// none if it is empty.
pub proof fn law_words(left: Seq<char>, space: char, right: Seq<char>)
    ensures
        text::is_space(space) ==> text::words(left.push(space) + right) == text::words(left)
            + text::words(right),
        is_word(left) && left.len() > 0 ==> text::words(left) == seq![left],
        text::words(Seq::empty()) == Seq::<Seq<char>>::empty(),
    decreases left.len() + right.len(),
{
    let before = left.push(space);
    let whole = before + right;
    if text::is_space(space) {
        assert(before.drop_last() =~= left);
        if right.len() == 0 {
            assert(whole =~= before);
            assert(text::words(left) + text::words(right) =~= text::words(left));
        } else {
            let shorter = right.drop_last();
            law_words(left, space, shorter);
            assert(whole.drop_last() =~= before + shorter);
            assert(whole.last() == right.last());
            let l = text::words(left);
            let s = text::words(shorter);
            if !text::is_space(right.last()) {
                if right.len() == 1 {
                    assert(whole[whole.len() - 2] == space);
                    assert(shorter =~= Seq::empty());
                    assert((l + s).push(seq![right.last()]) =~= l + text::words(right));
                } else {
                    assert(whole[whole.len() - 2] == right[right.len() - 2]);
                    if text::is_space(right[right.len() - 2]) {
                        assert((l + s).push(seq![right.last()]) =~= l + text::words(right));
                    } else {
                        lemma_open_word(shorter);
                        assert((l + s).last() == s.last());
                        assert((l + s).drop_last().push(s.last().push(right.last())) =~= l
                            + text::words(right));
                    }
                }
            }
        }
    }
    if is_word(left) && left.len() > 0 {
        let shorter = left.drop_last();
        assert(!text::is_space(left.last()));
        if left.len() == 1 {
            assert(shorter =~= Seq::empty());
            assert(seq![left.last()] =~= left);
            assert(text::words(left) =~= seq![left]);
        } else {
            assert forall|i: int| 0 <= i < shorter.len() implies !text::is_space(
                #[trigger] shorter[i],
            ) by {
                assert(shorter[i] == left[i]);
            }
            law_words(shorter, space, Seq::empty());
            assert(!text::is_space(left[left.len() - 2]));
            assert(shorter.push(left.last()) =~= left);
            assert(text::words(left) =~= seq![left]);
        }
    }
}

proof fn lemma_open_word(text: Seq<char>)
    requires
        text.len() > 0,
        !text::is_space(text.last()),
    ensures
        text::words(text).len() > 0,
{
}

} // verus!
