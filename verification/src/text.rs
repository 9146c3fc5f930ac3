//! Text: numbers, words, and the bytes that file names are made of.
use vstd::prelude::*;
use vstd::string::*;
use vstd::utf8::*;

verus! {

/// The character of a digit below ten.
pub open spec fn digit_char(digit: nat) -> char {
    ('0' as nat + digit) as char
}

/// A number in the given base (two to ten), without leading zeros; zero is the single digit `0`.
pub open spec fn digits(value: nat, base: nat) -> Seq<char>
    decreases value,
{
    if value < base || base < 2 {
        seq![digit_char(value)]
    } else {
        proof {
            assert(value / base < value) by (nonlinear_arith)
                requires
                    value >= base,
                    base >= 2,
            ;
        }
        digits(value / base, base).push(digit_char(value % base))
    }
}

/// A mode as it stands in messages: its octal digits after `0o`.
pub open spec fn mode_text(mode: u32) -> Seq<char> {
    "0o"@ + digits(mode as nat, 8)
}

/// A mode as `install -m` takes it: octal, filled up with zeros to at least four digits.
pub open spec fn mode_argument(mode: u32) -> Seq<char> {
    let text = digits(mode as nat, 8);
    Seq::new((if text.len() < 4 { 4 - text.len() } else { 0 }) as nat, |i: int| '0') + text
}

/// A signed number in base ten.
pub open spec fn decimal_text(value: i32) -> Seq<char> {
    if value < 0 {
        "-"@ + digits((-value) as nat, 10)
    } else {
        digits(value as nat, 10)
    }
}

/// What `String::from_utf8_lossy` makes of a run of bytes.
pub uninterp spec fn lossy_text(bytes: Seq<u8>) -> Seq<char>;

/// Calls `String::from_utf8_lossy`. Its result is a function of the bytes alone; bytes that are
/// UTF-8 come back as the text they encode.
#[verifier::external_body]
pub(crate) fn lossy(bytes: &Vec<u8>) -> (text: String)
    ensures
        text@ == lossy_text(bytes@),
        valid_utf8(bytes@) ==> text@ == decode_utf8(bytes@),
{
    String::from_utf8_lossy(bytes).into_owned()
}

/// Calls `std::str::from_utf8`, which accepts exactly the byte runs that are UTF-8.
#[verifier::external_body]
pub(crate) fn is_utf8(bytes: &Vec<u8>) -> (accepted: bool)
    ensures
        accepted == valid_utf8(bytes@),
{
    std::str::from_utf8(bytes).is_ok()
}

fn digit_text(digit: u32) -> (text: &'static str)
    requires
        digit < 10,
    ensures
        text@ == seq![digit_char(digit as nat)],
{
    proof {
        reveal_strlit("0");
        reveal_strlit("1");
        reveal_strlit("2");
        reveal_strlit("3");
        reveal_strlit("4");
        reveal_strlit("5");
        reveal_strlit("6");
        reveal_strlit("7");
        reveal_strlit("8");
        reveal_strlit("9");
    }
    match digit {
        0 => "0",
        1 => "1",
        2 => "2",
        3 => "3",
        4 => "4",
        5 => "5",
        6 => "6",
        7 => "7",
        8 => "8",
        _ => "9",
    }
}

fn push_digits(text: &mut String, value: u32, base: u32)
    requires
        2 <= base <= 10,
    ensures
        final(text)@ == old(text)@ + digits(value as nat, base as nat),
    decreases value,
{
    if value < base {
        text.append(digit_text(value));
    } else {
        assert(value / base < value) by (nonlinear_arith)
            requires
                value >= base,
                base >= 2,
        ;
        push_digits(text, value / base, base);
        let digit: u32 = value % base;
        text.append(digit_text(digit));
        assert(text@ =~= old(text)@ + digits(value as nat, base as nat));
    }
}

/// The text of a mode in messages.
pub fn show_mode(mode: u32) -> (text: String)
    ensures
        text@ == mode_text(mode),
{
    let mut text = "0o".to_string();
    push_digits(&mut text, mode, 8);
    text
}

/// The text of a mode on a command line.
pub fn format_mode(mode: u32) -> (text: String)
    ensures
        text@ == mode_argument(mode),
{
    let mut plain = String::new();
    push_digits(&mut plain, mode, 8);
    assert(plain@ =~= digits(mode as nat, 8));
    let mut text = String::new();
    let length: usize = plain.as_str().unicode_len();
    let mut missing: usize = if length < 4 { 4 - length } else { 0 };
    let ghost wanted = missing as nat;
    while missing > 0
        invariant
            missing <= wanted,
            text@ =~= Seq::new((wanted - missing) as nat, |i: int| '0'),
        decreases missing,
    {
        proof {
            reveal_strlit("0");
        }
        text.append("0");
        missing = missing - 1;
    }
    text.append(plain.as_str());
    assert(text@ =~= mode_argument(mode));
    text
}

/// The text of a signed number.
pub fn show_number(value: i32) -> (text: String)
    ensures
        text@ == decimal_text(value),
{
    let mut text = String::new();
    if value < 0 {
        text.append("-");
        let magnitude: u32 = (-(value as i64)) as u32;
        push_digits(&mut text, magnitude, 10);
        assert(text@ =~= decimal_text(value));
    } else {
        push_digits(&mut text, value as u32, 10);
        assert(text@ =~= decimal_text(value));
    }
    text
}

/// The parts of a sequence between the occurrences of a separator. There is one part more than
/// there are separators.
pub open spec fn split<T>(items: Seq<T>, separator: T) -> Seq<Seq<T>>
    decreases items.len(),
{
    if items.len() == 0 {
        seq![Seq::empty()]
    } else {
        let before = split(items.drop_last(), separator);
        if items.last() == separator {
            before.push(Seq::empty())
        } else {
            before.drop_last().push(before.last().push(items.last()))
        }
    }
}

pub(crate) proof fn lemma_split_nonempty<T>(items: Seq<T>, separator: T)
    ensures
        split(items, separator).len() > 0,
    decreases items.len(),
{
    if items.len() > 0 {
        lemma_split_nonempty(items.drop_last(), separator);
    }
}

/// Whether a character has the Unicode property `White_Space`.
pub open spec fn is_space(c: char) -> bool {
    ||| '\u{9}' <= c <= '\u{d}'
    ||| c == ' '
    ||| c == '\u{85}'
    ||| c == '\u{a0}'
    ||| c == '\u{1680}'
    ||| '\u{2000}' <= c <= '\u{200a}'
    ||| c == '\u{2028}'
    ||| c == '\u{2029}'
    ||| c == '\u{202f}'
    ||| c == '\u{205f}'
    ||| c == '\u{3000}'
}

/// The longest runs of characters that are not white space, in order.
pub open spec fn words(text: Seq<char>) -> Seq<Seq<char>>
    decreases text.len(),
{
    if text.len() == 0 {
        Seq::empty()
    } else {
        let before = words(text.drop_last());
        if is_space(text.last()) {
            before
        } else if text.len() == 1 || is_space(text[text.len() - 2]) {
            before.push(seq![text.last()])
        } else {
            before.drop_last().push(before.last().push(text.last()))
        }
    }
}

pub open spec fn is_digit(c: char) -> bool {
    '0' <= c <= '9'
}

/// The number that decimal digits write.
pub open spec fn digits_value(text: Seq<char>) -> nat
    decreases text.len(),
{
    if text.len() == 0 {
        0
    } else {
        digits_value(text.drop_last()) * 10 + (text.last() as nat - '0' as nat) as nat
    }
}

/// The 32-bit number that decimal digits write, at least one of them.
pub open spec fn parsed_digits(text: Seq<char>) -> Option<u32> {
    if text.len() > 0 && (forall|i: int| 0 <= i < text.len() ==> is_digit(#[trigger] text[i]))
        && digits_value(text) <= u32::MAX {
        Some(digits_value(text) as u32)
    } else {
        None
    }
}

/// The 32-bit number that a text writes: decimal digits after an optional `+`.
pub open spec fn parsed_u32(text: Seq<char>) -> Option<u32> {
    if text.len() > 0 && text[0] == '+' {
        parsed_digits(text.skip(1))
    } else {
        parsed_digits(text)
    }
}

/// The characters of a text.
pub(crate) fn characters(text: &str) -> (chars: Vec<char>)
    ensures
        chars@ == text@,
{
    let mut chars: Vec<char> = Vec::new();
    for c in iter: text.chars()
        invariant
            iter.seq() == text@,
            chars@ == text@.take(iter.index()),
    {
        chars.push(c);
    }
    chars
}

/// The lines of a text, without their line feeds.
pub(crate) fn split_lines(text: &Vec<char>) -> (lines: Vec<Vec<char>>)
    ensures
        lines@.map_values(|line: Vec<char>| line@) == split(text@, '\n'),
{
    let mut lines: Vec<Vec<char>> = Vec::new();
    let mut line: Vec<char> = Vec::new();
    let mut i: usize = 0;
    while i < text.len()
        invariant
            i <= text.len(),
            lines@.map_values(|l: Vec<char>| l@).push(line@) == split(text@.take(i as int), '\n'),
        decreases text.len() - i,
    {
        let ghost before = lines@.map_values(|l: Vec<char>| l@);
        assert(text@.take(i + 1).drop_last() =~= text@.take(i as int));
        assert(before.push(line@).drop_last() =~= before);
        if text[i] == '\n' {
            lines.push(line);
            line = Vec::new();
            assert(lines@.map_values(|l: Vec<char>| l@).push(line@) =~= split(
                text@.take(i + 1),
                '\n',
            ));
        } else {
            line.push(text[i]);
        }
        i = i + 1;
    }
    assert(text@.take(text@.len() as int) =~= text@);
    lines.push(line);
    assert(lines@.map_values(|l: Vec<char>| l@) =~= split(text@, '\n'));
    lines
}

fn space(c: char) -> (result: bool)
    ensures
        result == is_space(c),
{
    ('\u{9}' <= c && c <= '\u{d}') || c == ' ' || c == '\u{85}' || c == '\u{a0}' || c == '\u{1680}'
        || ('\u{2000}' <= c && c <= '\u{200a}') || c == '\u{2028}' || c == '\u{2029}'
        || c == '\u{202f}' || c == '\u{205f}' || c == '\u{3000}'
}

/// The words of a text.
pub(crate) fn split_words(text: &Vec<char>) -> (result: Vec<Vec<char>>)
    ensures
        result@.map_values(|word: Vec<char>| word@) == words(text@),
{
    let mut complete: Vec<Vec<char>> = Vec::new();
    let mut word: Vec<char> = Vec::new();
    let mut i: usize = 0;
    while i < text.len()
        invariant
            i <= text.len(),
            word@.len() > 0 <==> i > 0 && !is_space(text@[i - 1]),
            words(text@.take(i as int)) == (if word@.len() > 0 {
                complete@.map_values(|w: Vec<char>| w@).push(word@)
            } else {
                complete@.map_values(|w: Vec<char>| w@)
            }),
        decreases text.len() - i,
    {
        let ghost before = complete@.map_values(|w: Vec<char>| w@);
        assert(text@.take(i + 1).drop_last() =~= text@.take(i as int));
        assert(before.push(word@).drop_last() =~= before);
        if space(text[i]) {
            if word.len() > 0 {
                complete.push(word);
                word = Vec::new();
            }
            assert(complete@.map_values(|w: Vec<char>| w@) =~= words(text@.take(i + 1)));
        } else {
            let ghost start = word@;
            word.push(text[i]);
            assert(start.len() == 0 ==> word@ =~= seq![text@[i as int]]);
        }
        i = i + 1;
    }
    assert(text@.take(text@.len() as int) =~= text@);
    if word.len() > 0 {
        complete.push(word);
    }
    assert(complete@.map_values(|w: Vec<char>| w@) =~= words(text@));
    complete
}

proof fn lemma_digits_value_grows(text: Seq<char>, n: int)
    requires
        0 <= n <= text.len(),
        forall|i: int| 0 <= i < text.len() ==> is_digit(#[trigger] text[i]),
    ensures
        digits_value(text.take(n)) <= digits_value(text),
    decreases text.len(),
{
    if n == text.len() {
        assert(text.take(n) =~= text);
    } else {
        lemma_digits_value_grows(text.drop_last(), n);
        assert(text.drop_last().take(n) =~= text.take(n));
    }
}

/// The 32-bit number that a text writes.
pub(crate) fn parse_u32(text: &Vec<char>) -> (result: Option<u32>)
    ensures
        result == parsed_u32(text@),
{
    let start: usize = if text.len() > 0 && text[0] == '+' { 1 } else { 0 };
    let ghost body = text@.skip(start as int);
    assert(text@.skip(0) =~= text@);
    if text.len() == start {
        return None;
    }
    let mut value: u64 = 0;
    let mut i: usize = start;
    while i < text.len()
        invariant
            start <= i <= text.len(),
            body == text@.skip(start as int),
            body.len() > 0,
            parsed_u32(text@) == parsed_digits(body),
            forall|j: int| 0 <= j < i - start ==> is_digit(#[trigger] body[j]),
            value == digits_value(body.take(i - start)),
            value <= u32::MAX,
        decreases text.len() - i,
    {
        let c: char = text[i];
        assert(body[i - start] == c);
        if c < '0' || '9' < c {
            assert(!is_digit(body[i - start]));
            return None;
        }
        value = value * 10 + (c as u64 - '0' as u64);
        assert(body.take(i + 1 - start).drop_last() =~= body.take(i - start));
        if value > u32::MAX as u64 {
            proof {
                if parsed_digits(body) is Some {
                    lemma_digits_value_grows(body, i + 1 - start);
                }
            }
            return None;
        }
        i = i + 1;
    }
    assert(body.take(body.len() as int) =~= body);
    Some(value as u32)
}

} // verus!
