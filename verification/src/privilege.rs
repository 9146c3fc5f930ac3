//! Who runs the program.
use vstd::prelude::*;
use vstd::string::*;

use crate::entry;
use crate::error::Error;
use crate::error::ErrorView;
use crate::error::IoError;
use crate::error::IoErrorView;
use crate::request;
use crate::text;

verus! {

/// What follows a label on the first line that starts with it.
pub open spec fn labelled(lines: Seq<Seq<char>>, label: Seq<char>) -> Option<Seq<char>>
    decreases lines.len(),
{
    if lines.len() == 0 {
        None
    } else if label.is_prefix_of(lines[0]) {
        Some(lines[0].skip(label.len() as int))
    } else {
        labelled(lines.drop_first(), label)
    }
}

/// The effective user of a process by its `/proc` status: the second of the numbers after `Uid:`.
/// A carriage return at the end of a line is white space as any other.
pub open spec fn effective_user(status: Seq<char>) -> Option<u32> {
    match labelled(text::split(status, '\n'), "Uid:"@) {
        Some(line) => if text::words(line).len() > 1 {
            text::parsed_u32(text::words(line)[1])
        } else {
            None
        },
        None => None,
    }
}

/// What forbids to go on: no status, a status that does not tell the user, or root.
pub open spec fn root_fault(status: Result<Seq<char>, IoErrorView>) -> Option<ErrorView> {
    match status {
        Err(error) => Some(ErrorView::Io(error)),
        Ok(status) => match effective_user(status) {
            None => Some(ErrorView::Invalid("could not determine effective user id"@)),
            Some(user) => if user == 0 {
                Some(
                    ErrorView::Invalid(
                        "refusing to run install as root; run magsys as a regular user"@,
                    ),
                )
            } else {
                None
            },
        },
    }
}

/// What follows a label at the start of a line.
fn after_label(line: &Vec<char>, label: &Vec<char>) -> (rest: Option<Vec<char>>)
    ensures
        rest is Some == label@.is_prefix_of(line@),
        rest matches Some(rest) ==> rest@ == line@.skip(label@.len() as int),
{
    if label.len() > line.len() {
        return None;
    }
    let mut i: usize = 0;
    while i < label.len()
        invariant
            i <= label.len() <= line.len(),
            forall|j: int| 0 <= j < i ==> label@[j] == line@[j],
        decreases label.len() - i,
    {
        if label[i] != line[i] {
            assert(line@.subrange(0, label@.len() as int)[i as int] == line@[i as int]);
            return None;
        }
        i = i + 1;
    }
    assert(label@ =~= line@.subrange(0, label@.len() as int));
    let mut rest: Vec<char> = Vec::new();
    while i < line.len()
        invariant
            label.len() <= i <= line.len(),
            rest@ =~= line@.subrange(label@.len() as int, i as int),
        decreases line.len() - i,
    {
        rest.push(line[i]);
        i = i + 1;
    }
    assert(rest@ =~= line@.skip(label@.len() as int));
    Some(rest)
}

fn find_label(lines: &Vec<Vec<char>>, label: &str) -> (rest: Option<Vec<char>>)
    ensures
        request::viewed(rest) == labelled(request::each(lines@), label@),
{
    let wanted = text::characters(label);
    let ghost all = request::each(lines@);
    let mut i: usize = 0;
    assert(all.skip(0) =~= all);
    while i < lines.len()
        invariant
            i <= lines.len(),
            wanted@ == label@,
            all == request::each(lines@),
            labelled(all, label@) == labelled(all.skip(i as int), label@),
        decreases lines.len() - i,
    {
        assert(all.skip(i as int)[0] == lines@[i as int]@);
        assert(all.skip(i as int).drop_first() =~= all.skip(i + 1));
        let rest = after_label(&lines[i], &wanted);
        if rest.is_some() {
            return rest;
        }
        i = i + 1;
    }
    None
}

/// The effective user of a process by its `/proc` status.
pub fn effective_uid(status: &str) -> (user: Option<u32>)
    ensures
        user == effective_user(status@),
{
    let lines = text::split_lines(&text::characters(status));
    assert(request::each(lines@) =~= text::split(status@, '\n'));
    match find_label(&lines, "Uid:") {
        Some(line) => {
            let words = text::split_words(&line);
            assert(words@.len() == text::words(line@).len());
            if words.len() > 1 {
                assert(text::words(line@)[1] == words@[1]@);
                text::parse_u32(&words[1])
            } else {
                None
            }
        },
        None => None,
    }
}

/// Refuses to go on as root, given the text of `/proc/self/status`.
pub fn ensure_not_running_as_root(status: Result<String, IoError>) -> (result: Result<(), Error>)
    ensures
        entry::fault_of(result) == root_fault(request::answer(status)),
{
    let status = match status {
        Ok(status) => status,
        Err(error) => return Err(Error::Io(error)),
    };
    match effective_uid(status.as_str()) {
        None => Err(Error::Invalid("could not determine effective user id".to_string())),
        Some(user) => if user == 0 {
            Err(
                Error::Invalid(
                    "refusing to run install as root; run magsys as a regular user".to_string(),
                ),
            )
        } else {
            Ok(())
        },
    }
}

} // verus!
