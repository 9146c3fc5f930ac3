//! How a target compares with its entry.
use vstd::prelude::*;

use crate::entry;
use crate::entry::Entry;
use crate::entry::EntryStatus;
use crate::entry::EntryView;
use crate::error::Error;
use crate::error::ErrorView;
use crate::error::IoError;
use crate::error::IoErrorKind;
use crate::error::IoErrorView;
use crate::path;
use crate::path::UnixPath;
use crate::request;
use crate::request::Metadata;
use crate::request::NodeKind;
use crate::request::Reply;
use crate::request::ReplyView;
use crate::request::Request;
use crate::request::RequestView;

verus! {

/// What a comparison waits for.
#[derive(Debug)]
pub enum StatusState {
    /// Whether the source is there.
    Source,
    /// What stands at the target.
    Inspect,
    /// Where the link at the target leads.
    ReadLink,
    /// The canonical form of where the link leads.
    ResolveLink { actual: UnixPath },
    /// The canonical form of the source.
    ResolveSource { actual: UnixPath, resolved: Option<UnixPath> },
    /// The length of the source.
    SourceSize,
    /// The length of the target.
    TargetSize { length: u64 },
    /// The content of the source.
    SourceContent,
    /// The content of the target.
    TargetContent { content: Vec<u8> },
}

#[derive(Debug)]
pub enum StatusStep {
    Ask { request: Request, state: StatusState },
    Done(Result<EntryStatus, Error>),
}

pub enum StatusStateView {
    Source,
    Inspect,
    ReadLink,
    ResolveLink { actual: Seq<u8> },
    ResolveSource { actual: Seq<u8>, resolved: Option<Seq<u8>> },
    SourceSize,
    TargetSize { length: u64 },
    SourceContent,
    TargetContent { content: Seq<u8> },
}

pub enum StatusStepView {
    Ask { request: RequestView, state: StatusStateView },
    Done(Result<EntryStatus, ErrorView>),
}

impl View for StatusState {
    type V = StatusStateView;

    open spec fn view(&self) -> StatusStateView {
        match self {
            StatusState::Source => StatusStateView::Source,
            StatusState::Inspect => StatusStateView::Inspect,
            StatusState::ReadLink => StatusStateView::ReadLink,
            StatusState::ResolveLink { actual } => StatusStateView::ResolveLink {
                actual: actual@,
            },
            StatusState::ResolveSource { actual, resolved } => StatusStateView::ResolveSource {
                actual: actual@,
                resolved: request::viewed(*resolved),
            },
            StatusState::SourceSize => StatusStateView::SourceSize,
            StatusState::TargetSize { length } => StatusStateView::TargetSize { length: *length },
            StatusState::SourceContent => StatusStateView::SourceContent,
            StatusState::TargetContent { content } => StatusStateView::TargetContent {
                content: content@,
            },
        }
    }
}

impl View for StatusStep {
    type V = StatusStepView;

    open spec fn view(&self) -> StatusStepView {
        match self {
            StatusStep::Ask { request, state } => StatusStepView::Ask {
                request: request@,
                state: state@,
            },
            StatusStep::Done(Ok(status)) => StatusStepView::Done(Ok(*status)),
            StatusStep::Done(Err(error)) => StatusStepView::Done(Err(error@)),
        }
    }
}

/// The question whether the source of an entry is there: that of a link may be anything, that of
/// a copy has to be a regular file.
pub open spec fn source_request(entry: EntryView) -> RequestView {
    match entry {
        EntryView::Link { source, target } => RequestView::Exists(source),
        _ => RequestView::IsFile(entry.source()),
    }
}

/// What a state waits for.
pub open spec fn status_request(entry: EntryView, state: StatusStateView) -> RequestView {
    match state {
        StatusStateView::Source => source_request(entry),
        StatusStateView::Inspect => RequestView::Inspect(entry.target()),
        StatusStateView::ReadLink => RequestView::ReadLink(entry.target()),
        StatusStateView::ResolveLink { actual } => RequestView::Canonicalize(actual),
        StatusStateView::ResolveSource { actual, resolved } => RequestView::Canonicalize(
            entry.source(),
        ),
        StatusStateView::SourceSize => RequestView::FileSize(entry.source()),
        StatusStateView::TargetSize { length } => RequestView::FileSize(entry.target()),
        StatusStateView::SourceContent => RequestView::ReadBytes(entry.source()),
        StatusStateView::TargetContent { content } => RequestView::ReadBytes(entry.target()),
    }
}

pub open spec fn status_ask(entry: EntryView, state: StatusStateView) -> StatusStepView {
    StatusStepView::Ask { request: status_request(entry, state), state }
}

/// Where the link at a target leads, seen from the directory that holds it.
pub open spec fn link_destination(target: Seq<u8>, link: Seq<u8>) -> Seq<u8> {
    path::joined(
        match path::parent(target) {
            Some(directory) => directory,
            None => path::bytes_of("/"@),
        },
        link,
    )
}

/// Whether two paths lead to the same thing, by their canonical forms where both have one.
pub open spec fn same_file(
    left: Seq<u8>,
    right: Seq<u8>,
    left_resolved: Option<Seq<u8>>,
    right_resolved: Option<Seq<u8>>,
) -> bool {
    match (left_resolved, right_resolved) {
        (Some(left_resolved), Some(right_resolved)) => path::same_path(
            left_resolved,
            right_resolved,
        ),
        _ => path::same_path(left, right),
    }
}

/// What a file must be like before its content matters: its mode, and root as its owner where
/// the entry asks for that.
pub open spec fn attributes_match(entry: EntryView, metadata: Metadata) -> bool {
    &&& metadata.mode & 0o7777 == entry.mode()->0
    &&& entry.uses_sudo() ==> metadata.uid == 0 && metadata.gid == 0
}

/// What a refusal to show the target means.
pub open spec fn inspect_refused(error: IoErrorView) -> Result<EntryStatus, ErrorView> {
    match error.kind {
        IoErrorKind::NotFound => Ok(EntryStatus::Missing),
        IoErrorKind::PermissionDenied => Ok(EntryStatus::Unreadable),
        IoErrorKind::Other => Err(ErrorView::Io(error)),
    }
}

/// What a refusal to show the content of a file means.
pub open spec fn content_refused(error: IoErrorView) -> Result<EntryStatus, ErrorView> {
    if error.kind == IoErrorKind::PermissionDenied {
        Ok(EntryStatus::Unreadable)
    } else {
        Err(ErrorView::Io(error))
    }
}

pub open spec fn status_begin(entry: EntryView) -> StatusStepView {
    match entry::form_fault(entry) {
        Some(error) => StatusStepView::Done(Err(error)),
        None => status_ask(entry, StatusStateView::Source),
    }
}

/// What follows from what stands at the target.
pub open spec fn status_inspected(entry: EntryView, metadata: Metadata) -> StatusStepView {
    match entry {
        EntryView::Link { source, target } => if metadata.kind == NodeKind::Symlink {
            status_ask(entry, StatusStateView::ReadLink)
        } else {
            StatusStepView::Done(Ok(EntryStatus::Conflict))
        },
        _ => if metadata.kind != NodeKind::File {
            StatusStepView::Done(Ok(EntryStatus::Conflict))
        } else if !attributes_match(entry, metadata) {
            StatusStepView::Done(Ok(EntryStatus::Modified))
        } else {
            status_ask(entry, StatusStateView::SourceSize)
        },
    }
}

pub open spec fn in_place_or(matches: bool, otherwise: EntryStatus) -> StatusStepView {
    StatusStepView::Done(
        Ok(
            if matches {
                EntryStatus::InPlace
            } else {
                otherwise
            },
        ),
    )
}

/// What a reply leads to.
pub open spec fn status_next(
    entry: EntryView,
    state: StatusStateView,
    reply: ReplyView,
) -> StatusStepView {
    match state {
        StatusStateView::Source => match entry::entry_fault(entry, reply->Flag_0) {
            Some(error) => StatusStepView::Done(Err(error)),
            None => status_ask(entry, StatusStateView::Inspect),
        },
        StatusStateView::Inspect => match reply->Metadata_0 {
            Ok(metadata) => status_inspected(entry, metadata),
            Err(error) => StatusStepView::Done(inspect_refused(error)),
        },
        StatusStateView::ReadLink => match reply->Path_0 {
            Ok(link) => status_ask(
                entry,
                StatusStateView::ResolveLink { actual: link_destination(entry.target(), link) },
            ),
            Err(error) => StatusStepView::Done(Err(ErrorView::Io(error))),
        },
        StatusStateView::ResolveLink { actual } => status_ask(
            entry,
            StatusStateView::ResolveSource { actual, resolved: reply->Path_0.ok() },
        ),
        StatusStateView::ResolveSource { actual, resolved } => in_place_or(
            same_file(actual, entry.source(), resolved, reply->Path_0.ok()),
            EntryStatus::Conflict,
        ),
        StatusStateView::SourceSize => match reply->Size_0 {
            Ok(length) => status_ask(entry, StatusStateView::TargetSize { length }),
            Err(error) => StatusStepView::Done(content_refused(error)),
        },
        StatusStateView::TargetSize { length } => match reply->Size_0 {
            Ok(actual) => if length == actual {
                status_ask(entry, StatusStateView::SourceContent)
            } else {
                StatusStepView::Done(Ok(EntryStatus::Modified))
            },
            Err(error) => StatusStepView::Done(content_refused(error)),
        },
        StatusStateView::SourceContent => match reply->Bytes_0 {
            Ok(content) => status_ask(entry, StatusStateView::TargetContent { content }),
            Err(error) => StatusStepView::Done(content_refused(error)),
        },
        StatusStateView::TargetContent { content } => match reply->Bytes_0 {
            Ok(actual) => in_place_or(content == actual, EntryStatus::Modified),
            Err(error) => StatusStepView::Done(content_refused(error)),
        },
    }
}

/// The question whether the source of an entry is there.
pub(crate) fn ask_source(entry: &Entry) -> (request: Request)
    ensures
        request@ == source_request(entry@),
{
    match entry {
        Entry::Link(_) => Request::Exists(entry.source().clone()),
        _ => Request::IsFile(entry.source().clone()),
    }
}

/// What a state waits for.
pub(crate) fn ask_status(entry: &Entry, state: &StatusState) -> (request: Request)
    ensures
        request@ == status_request(entry@, state@),
{
    match state {
        StatusState::Source => ask_source(entry),
        StatusState::Inspect => Request::Inspect(entry.target().clone()),
        StatusState::ReadLink => Request::ReadLink(entry.target().clone()),
        StatusState::ResolveLink { actual } => Request::Canonicalize(actual.clone()),
        StatusState::ResolveSource { actual: _, resolved: _ } => Request::Canonicalize(
            entry.source().clone(),
        ),
        StatusState::SourceSize => Request::FileSize(entry.source().clone()),
        StatusState::TargetSize { length: _ } => Request::FileSize(entry.target().clone()),
        StatusState::SourceContent => Request::ReadBytes(entry.source().clone()),
        StatusState::TargetContent { content: _ } => Request::ReadBytes(entry.target().clone()),
    }
}

fn ask(entry: &Entry, state: StatusState) -> (step: StatusStep)
    ensures
        step@ == status_ask(entry@, state@),
{
    StatusStep::Ask { request: ask_status(entry, &state), state }
}

/// Whether two paths lead to the same thing, given their canonical forms where they have them.
pub fn paths_refer_to_same_file(
    left: &UnixPath,
    right: &UnixPath,
    left_resolved: &Option<UnixPath>,
    right_resolved: &Option<UnixPath>,
) -> (result: bool)
    ensures
        result == same_file(
            left@,
            right@,
            request::viewed(*left_resolved),
            request::viewed(*right_resolved),
        ),
{
    match (left_resolved, right_resolved) {
        (Some(left_resolved), Some(right_resolved)) => left_resolved.same(right_resolved),
        _ => left.same(right),
    }
}

fn refuse_content(error: IoError) -> (step: StatusStep)
    ensures
        step@ == StatusStepView::Done(content_refused(error@)),
{
    if error.kind == IoErrorKind::PermissionDenied {
        StatusStep::Done(Ok(EntryStatus::Unreadable))
    } else {
        StatusStep::Done(Err(Error::Io(error)))
    }
}

fn inspected(entry: &Entry, metadata: Metadata) -> (step: StatusStep)
    ensures
        step@ == status_inspected(entry@, metadata),
{
    match entry {
        Entry::Link(_) => {
            if metadata.kind == NodeKind::Symlink {
                ask(entry, StatusState::ReadLink)
            } else {
                StatusStep::Done(Ok(EntryStatus::Conflict))
            }
        },
        _ => {
            if metadata.kind != NodeKind::File {
                return StatusStep::Done(Ok(EntryStatus::Conflict));
            }
            let mode_matches = match entry.mode() {
                Some(mode) => metadata.mode & 0o7777 == mode,
                None => false,
            };
            let owner_matches = !entry.uses_sudo() || (metadata.uid == 0 && metadata.gid == 0);
            if mode_matches && owner_matches {
                ask(entry, StatusState::SourceSize)
            } else {
                StatusStep::Done(Ok(EntryStatus::Modified))
            }
        },
    }
}

fn compared(matches: bool, otherwise: EntryStatus) -> (step: StatusStep)
    ensures
        step@ == in_place_or(matches, otherwise),
{
    StatusStep::Done(
        Ok(
            if matches {
                EntryStatus::InPlace
            } else {
                otherwise
            },
        ),
    )
}

/// Starts to compare the target of an entry with the entry.
pub fn begin_status(entry: &Entry) -> (step: StatusStep)
    ensures
        step@ == status_begin(entry@),
        step@ matches StatusStepView::Ask { request, state } ==> request == status_request(
            entry@,
            state,
        ),
{
    match entry::validate_form(entry) {
        Ok(()) => ask(entry, StatusState::Source),
        Err(error) => StatusStep::Done(Err(error)),
    }
}

/// Goes on comparing, with the reply that the state waited for.
pub fn entry_status(entry: &Entry, state: StatusState, reply: Reply) -> (step: StatusStep)
    requires
        status_request(entry@, state@).fits(reply@),
    ensures
        step@ == status_next(entry@, state@, reply@),
        step@ matches StatusStepView::Ask { request, state } ==> request == status_request(
            entry@,
            state,
        ),
{
    match state {
        StatusState::Source => match entry::validate_entry(entry, reply.flag()) {
            Ok(()) => ask(entry, StatusState::Inspect),
            Err(error) => StatusStep::Done(Err(error)),
        },
        StatusState::Inspect => match reply.metadata() {
            Ok(metadata) => inspected(entry, metadata),
            Err(error) => match error.kind {
                IoErrorKind::NotFound => StatusStep::Done(Ok(EntryStatus::Missing)),
                IoErrorKind::PermissionDenied => StatusStep::Done(Ok(EntryStatus::Unreadable)),
                IoErrorKind::Other => StatusStep::Done(Err(Error::Io(error))),
            },
        },
        StatusState::ReadLink => match reply.path() {
            Ok(link) => {
                let directory = match entry.target().parent() {
                    Some(directory) => directory,
                    None => UnixPath::new("/"),
                };
                ask(entry, StatusState::ResolveLink { actual: directory.join(&link) })
            },
            Err(error) => StatusStep::Done(Err(Error::Io(error))),
        },
        StatusState::ResolveLink { actual } => {
            let resolved = reply.path().ok();
            ask(entry, StatusState::ResolveSource { actual, resolved })
        },
        StatusState::ResolveSource { actual, resolved } => {
            let source_resolved = reply.path().ok();
            compared(
                paths_refer_to_same_file(&actual, entry.source(), &resolved, &source_resolved),
                EntryStatus::Conflict,
            )
        },
        StatusState::SourceSize => match reply.size() {
            Ok(length) => ask(entry, StatusState::TargetSize { length }),
            Err(error) => refuse_content(error),
        },
        StatusState::TargetSize { length } => match reply.size() {
            Ok(actual) => if length == actual {
                ask(entry, StatusState::SourceContent)
            } else {
                StatusStep::Done(Ok(EntryStatus::Modified))
            },
            Err(error) => refuse_content(error),
        },
        StatusState::SourceContent => match reply.bytes() {
            Ok(content) => ask(entry, StatusState::TargetContent { content }),
            Err(error) => refuse_content(error),
        },
        StatusState::TargetContent { content } => match reply.bytes() {
            Ok(actual) => compared(path::equal_bytes(&content, &actual), EntryStatus::Modified),
            Err(error) => refuse_content(error),
        },
    }
}

} // verus!
