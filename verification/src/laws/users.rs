//! Laws of the user that runs the program.
use vstd::prelude::*;

use crate::error::ErrorView;
use crate::error::IoErrorView;
use crate::laws::texts;
use crate::privilege;
use crate::text;

verus! {

/// The label of the line that names the user.
pub open spec fn label() -> Seq<char> {
    seq!['U', 'i', 'd', ':']
}

/// Whether a line starts with the label.
pub open spec fn is_labelled(line: Seq<char>) -> bool {
    line.len() >= 4 && line.take(4) == label()
}

/// Whether a text is a single line.
pub open spec fn is_line(line: Seq<char>) -> bool {
    forall|i: int| 0 <= i < line.len() ==> #[trigger] line[i] != '\n'
}

/// The user by the line that names it: the second number after the label.
pub open spec fn user_of(line: Seq<char>) -> Option<u32> {
    let numbers = text::words(line.skip(4));
    if numbers.len() >= 2 {
        text::parsed_u32(numbers[1])
    } else {
        None
    }
}

/// The first line that starts with the label names the user; the lines before it and after it do
/// not matter.
pub proof fn law_user_stands_on_its_line(line: Seq<char>, rest: Seq<char>)
    requires
        is_line(line),
    ensures
        is_labelled(line) ==> privilege::effective_user(line) == user_of(line),
        is_labelled(line) ==> privilege::effective_user(line.push('\n') + rest) == user_of(line),
        !is_labelled(line) ==> privilege::effective_user(line) is None,
        !is_labelled(line) ==> privilege::effective_user(line.push('\n') + rest)
            == privilege::effective_user(rest),
{
    reveal_strlit("Uid:");
    assert("Uid:"@ =~= label());
    texts::law_split(line, '\n', rest);
    let lines = text::split(rest, '\n');
    let all = seq![line] + lines;
    assert(all.drop_first() =~= lines);
    assert(all[0] == line);
    assert(seq![line].drop_first() =~= Seq::empty());
    reveal_with_fuel(privilege::labelled, 2);
    assert(label().is_prefix_of(line) <==> is_labelled(line)) by {
        if line.len() >= 4 {
            assert(line.take(4) =~= line.subrange(0, 4));
        }
    }
}

/// The line of a regular process, with the real and the effective user, whatever follows them,
/// names the effective one.
pub proof fn law_effective_user(owner: u32, effective: u32, more: Seq<char>, rest: Seq<char>)
    requires
        is_line(more),
        more.len() > 0 ==> text::is_space(more[0]),
    ensures
        ({
            let line = label().push('\t') + text::digits(owner as nat, 10).push('\t')
                + text::digits(effective as nat, 10) + more;
            &&& privilege::effective_user(line) == Some(effective)
            &&& privilege::effective_user(line.push('\n') + rest) == Some(effective)
        }),
{
    let first = text::digits(owner as nat, 10);
    let second = text::digits(effective as nat, 10);
    let line = label().push('\t') + first.push('\t') + second + more;
    texts::law_digits(owner as nat, 10);
    texts::law_digits(effective as nat, 10);
    assert forall|i: int| 0 <= i < line.len() implies #[trigger] line[i] != '\n' by {
        if i < 5 {
            assert(line[i] == label().push('\t')[i]);
        } else if i < 5 + first.len() {
            assert(line[i] == first[i - 5]);
        } else if i == 5 + first.len() {
            assert(line[i] == '\t');
        } else if i < 6 + first.len() + second.len() {
            assert(line[i] == second[i - 6 - first.len()]);
        } else {
            assert(line[i] == more[i - 6 - first.len() - second.len()]);
        }
    }
    assert(line.take(4) =~= label());
    law_user_stands_on_its_line(line, rest);
    let none = Seq::<char>::empty();
    let body = line.skip(4);
    let tail = second + more;
    assert(body =~= none.push('\t') + (first.push('\t') + tail));
    assert forall|i: int| 0 <= i < first.len() implies !text::is_space(#[trigger] first[i]) by {}
    assert forall|i: int| 0 <= i < second.len() implies !text::is_space(#[trigger] second[i]) by {}
    texts::law_words(none, '\t', first.push('\t') + tail);
    texts::law_words(first, '\t', tail);
    texts::law_words(second, '\t', none);
    if more.len() > 0 {
        assert(tail =~= second.push(more[0]) + more.drop_first());
        texts::law_words(second, more[0], more.drop_first());
    } else {
        assert(tail =~= second);
        assert(text::words(tail) =~= seq![second] + Seq::empty());
    }
    let numbers = text::words(body);
    assert(numbers.len() >= 2 && numbers[1] == second);
    texts::law_numbers_are_read_back(effective);
}

/// Only a known user that is not root may go on. What else there is, is refused each in its words.
pub proof fn law_only_a_regular_user_goes_on(status: Seq<char>, error: IoErrorView)
    ensures
        privilege::root_fault(Err(error)) == Some(ErrorView::Io(error)),
        privilege::root_fault(Ok(status)) is None <==> privilege::effective_user(status) is Some
            && privilege::effective_user(status)->0 != 0,
        privilege::effective_user(status) is None ==> privilege::root_fault(Ok(status)) == Some(
            ErrorView::Invalid("could not determine effective user id"@),
        ),
        privilege::effective_user(status) == Some(0u32) ==> privilege::root_fault(Ok(status))
            == Some(
            ErrorView::Invalid("refusing to run install as root; run magsys as a regular user"@),
        ),
{
}

} // verus!
