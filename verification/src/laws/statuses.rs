//! Laws of the comparison of targets with their entries.
use vstd::prelude::*;

use crate::entry;
use crate::entry::EntryStatus;
use crate::entry::EntryView;
use crate::error::ErrorView;
use crate::error::IoErrorKind;
use crate::error::IoErrorView;
use crate::laws::entries;
use crate::path;
use crate::request::Metadata;
use crate::request::NodeKind;
use crate::request::ReplyView;
use crate::request::RequestView;
use crate::request::World;
use crate::status;
use crate::status::StatusStepView;

verus! {

/// A comparison after some replies of a system that stands still.
pub open spec fn status_after(
    entry: EntryView,
    world: World,
    step: StatusStepView,
    count: nat,
) -> StatusStepView
    decreases count,
{
    match step {
        StatusStepView::Done(_) => step,
        StatusStepView::Ask { request, state } => if count == 0 {
            step
        } else {
            status_after(
                entry,
                world,
                status::status_next(entry, state, world(request)),
                (count - 1) as nat,
            )
        },
    }
}

/// A comparison after some replies, whatever they are.
pub open spec fn status_replied(
    entry: EntryView,
    step: StatusStepView,
    replies: Seq<ReplyView>,
) -> StatusStepView
    decreases replies.len(),
{
    match step {
        StatusStepView::Done(_) => step,
        StatusStepView::Ask { request, state } => if replies.len() == 0 {
            step
        } else {
            status_replied(
                entry,
                status::status_next(entry, state, replies[0]),
                replies.drop_first(),
            )
        },
    }
}

/// What a comparison asks for, one request after the other.
pub open spec fn status_trace(
    entry: EntryView,
    step: StatusStepView,
    replies: Seq<ReplyView>,
) -> Seq<RequestView>
    decreases replies.len(),
{
    match step {
        StatusStepView::Done(_) => Seq::empty(),
        StatusStepView::Ask { request, state } => if replies.len() == 0 {
            seq![request]
        } else {
            seq![request] + status_trace(
                entry,
                status::status_next(entry, state, replies[0]),
                replies.drop_first(),
            )
        },
    }
}

/// Whether the source of an entry is there.
pub open spec fn source_present(entry: EntryView, world: World) -> bool {
    world(status::source_request(entry))->Flag_0
}

/// Whether two paths lead to the same thing in a system that stands still.
pub open spec fn same_file_in(left: Seq<u8>, right: Seq<u8>, world: World) -> bool {
    status::same_file(
        left,
        right,
        world(RequestView::Canonicalize(left))->Path_0.ok(),
        world(RequestView::Canonicalize(right))->Path_0.ok(),
    )
}

/// Whether the canonical forms of two paths are the same, as far as both have one.
pub open spec fn forms_agree(left: Seq<u8>, right: Seq<u8>, world: World) -> bool {
    world(RequestView::Canonicalize(left))->Path_0 matches Ok(left_resolved) ==> (world(
        RequestView::Canonicalize(right),
    )->Path_0 matches Ok(right_resolved) ==> path::same_path(left_resolved, right_resolved))
}

/// To lead to the same thing goes both ways. Every path leads where it leads itself, whether
/// anything is there or not, and so do two spellings of a path, as long as the system does not
/// give them different canonical forms.
pub proof fn law_same_file(left: Seq<u8>, right: Seq<u8>, world: World)
    ensures
        same_file_in(left, right, world) == same_file_in(right, left, world),
        same_file_in(left, left, world),
        path::same_path(left, right) && forms_agree(left, right, world) ==> same_file_in(
            left,
            right,
            world,
        ),
{
}

/// How the link at the target of an entry compares with it.
pub open spec fn link_status(entry: EntryView, world: World) -> Result<EntryStatus, ErrorView> {
    match world(RequestView::ReadLink(entry.target()))->Path_0 {
        Err(error) => Err(ErrorView::Io(error)),
        Ok(link) => {
            let actual = status::link_destination(entry.target(), link);
            Ok(
                if same_file_in(actual, entry.source(), world) {
                    EntryStatus::InPlace
                } else {
                    EntryStatus::Conflict
                },
            )
        },
    }
}

/// How the content of the file at the target of an entry compares with its source. Content is
/// read only where the lengths agree.
pub open spec fn content_status(entry: EntryView, world: World) -> Result<EntryStatus, ErrorView> {
    let lengths = (
        world(RequestView::FileSize(entry.source()))->Size_0,
        world(RequestView::FileSize(entry.target()))->Size_0,
    );
    let contents = (
        world(RequestView::ReadBytes(entry.source()))->Bytes_0,
        world(RequestView::ReadBytes(entry.target()))->Bytes_0,
    );
    match lengths {
        (Err(error), _) => status::content_refused(error),
        (Ok(_), Err(error)) => status::content_refused(error),
        (Ok(wanted), Ok(actual)) => if wanted != actual {
            Ok(EntryStatus::Modified)
        } else {
            match contents {
                (Err(error), _) => status::content_refused(error),
                (Ok(_), Err(error)) => status::content_refused(error),
                (Ok(wanted), Ok(actual)) => Ok(
                    if wanted == actual {
                        EntryStatus::InPlace
                    } else {
                        EntryStatus::Modified
                    },
                ),
            }
        },
    }
}

/// How what stands at the target of an entry compares with it.
pub open spec fn found_status(entry: EntryView, metadata: Metadata, world: World) -> Result<
    EntryStatus,
    ErrorView,
> {
    match (entry, metadata.kind) {
        (EntryView::Link { source, target }, NodeKind::Symlink) => link_status(entry, world),
        (EntryView::Link { source, target }, _) => Ok(EntryStatus::Conflict),
        (_, NodeKind::File) => if status::attributes_match(entry, metadata) {
            content_status(entry, world)
        } else {
            Ok(EntryStatus::Modified)
        },
        _ => Ok(EntryStatus::Conflict),
    }
}

/// The status of an entry in a system that stands still.
pub open spec fn status_in(entry: EntryView, world: World) -> Result<EntryStatus, ErrorView> {
    match entry::entry_fault(entry, source_present(entry, world)) {
        Some(error) => Err(error),
        None => match world(RequestView::Inspect(entry.target()))->Metadata_0 {
            Err(error) => status::inspect_refused(error),
            Ok(metadata) => found_status(entry, metadata, world),
        },
    }
}

/// A comparison ends after at most six replies, with the status of the entry in that system.
pub proof fn law_status_ends(entry: EntryView, world: World)
    ensures
        status_after(entry, world, status::status_begin(entry), 6) == StatusStepView::Done(
            status_in(entry, world),
        ),
{
    reveal_with_fuel(status_after, 7);
}

/// What an installation leaves behind: a link that reads as the source, or a file with the mode
/// of the entry, root's where the entry asks for that, whose length and content are the source's.
pub open spec fn installed(entry: EntryView, world: World) -> bool {
    &&& world(RequestView::Inspect(entry.target()))->Metadata_0 matches Ok(metadata)
    &&& if entry is Link {
        &&& metadata.kind == NodeKind::Symlink
        &&& world(RequestView::ReadLink(entry.target()))->Path_0 == Ok::<_, IoErrorView>(
            entry.source(),
        )
    } else {
        &&& metadata.kind == NodeKind::File
        &&& status::attributes_match(entry, metadata)
        &&& world(RequestView::FileSize(entry.source()))->Size_0 matches Ok(length)
        &&& world(RequestView::FileSize(entry.target()))->Size_0 == Ok::<_, IoErrorView>(length)
        &&& world(RequestView::ReadBytes(entry.source()))->Bytes_0 matches Ok(content)
        &&& world(RequestView::ReadBytes(entry.target()))->Bytes_0 == Ok::<_, IoErrorView>(content)
    }
}

/// What an installation leaves behind is reported as in place, as long as the entry keeps the
/// rules and its source is there. The source of a link has to be absolute, as every loaded source
/// is: a relative one is read from the directory of the target.
pub proof fn law_installed_is_in_place(entry: EntryView, world: World)
    requires
        entry::entry_fault(entry, source_present(entry, world)) is None,
        entry is Link ==> path::is_absolute(entry.source()),
        installed(entry, world),
    ensures
        status_in(entry, world) == Ok::<EntryStatus, ErrorView>(EntryStatus::InPlace),
{
}

/// A copy is reported as in place only where its kind, mode, owner, length and content are right.
pub proof fn law_in_place_copy_is_installed(entry: EntryView, world: World)
    requires
        !(entry is Link),
        status_in(entry, world) == Ok::<EntryStatus, ErrorView>(EntryStatus::InPlace),
    ensures
        entry::entry_fault(entry, source_present(entry, world)) is None,
        installed(entry, world),
{
}

/// An entry whose source is not there, or that breaks a rule, has no status. For a link anything
/// may be there, for a copy a regular file has to be. Where the target cannot be looked at, the
/// system's reason decides.
pub proof fn law_status_without_a_look(entry: EntryView, world: World)
    ensures
        ({
            let present = if entry is Link {
                world(RequestView::Exists(entry.source()))->Flag_0
            } else {
                world(RequestView::IsFile(entry.source()))->Flag_0
            };
            let fault = entry::entry_fault(entry, present);
            let look = world(RequestView::Inspect(entry.target()))->Metadata_0;
            &&& fault is Some ==> status_in(entry, world) == Err::<EntryStatus, ErrorView>(fault->0)
            &&& fault is None && look is Err ==> status_in(entry, world) == match look->Err_0.kind {
                IoErrorKind::NotFound => Ok::<EntryStatus, ErrorView>(EntryStatus::Missing),
                IoErrorKind::PermissionDenied => Ok(EntryStatus::Unreadable),
                IoErrorKind::Other => Err(ErrorView::Io(look->Err_0)),
            }
            &&& status_in(entry, world) == Ok::<EntryStatus, ErrorView>(EntryStatus::Missing)
                ==> look is Err
        }),
{
}

/// A link is in place where a link stands that leads to the source, by the canonical forms of both
/// where they have them, else as they are written. It is read from the directory of the target.
/// Anything else that stands there is a conflict.
pub proof fn law_link_status(
    source: Seq<u8>,
    target: Seq<u8>,
    metadata: Metadata,
    link: Seq<u8>,
    world: World,
)
    requires
        entry::target_fault(target) is None,
        world(RequestView::Exists(source))->Flag_0,
        world(RequestView::Inspect(target))->Metadata_0 == Ok::<_, IoErrorView>(metadata),
        world(RequestView::ReadLink(target))->Path_0 == Ok::<_, IoErrorView>(link),
    ensures
        ({
            let actual = if link.len() > 0 && link[0] == 0x2f {
                link
            } else {
                path::joined(path::parent(target)->0, link)
            };
            let forms = (
                world(RequestView::Canonicalize(actual))->Path_0,
                world(RequestView::Canonicalize(source))->Path_0,
            );
            let same = if forms.0 is Ok && forms.1 is Ok {
                path::components(forms.0->Ok_0) == path::components(forms.1->Ok_0)
            } else {
                path::components(actual) == path::components(source)
            };
            status_in(EntryView::Link { source, target }, world) == Ok::<EntryStatus, ErrorView>(
                if metadata.kind is Symlink && same {
                    EntryStatus::InPlace
                } else {
                    EntryStatus::Conflict
                },
            )
        }),
{
    entries::law_valid_target_has_parent(target);
}

/// What a refusal to read a copy means.
pub open spec fn unread(error: IoErrorView) -> Result<EntryStatus, ErrorView> {
    if error.kind is PermissionDenied {
        Ok(EntryStatus::Unreadable)
    } else {
        Err(ErrorView::Io(error))
    }
}

/// A copy is in place where a regular file stands that has exactly the permissions of the entry,
/// root as owner and group where the entry asks for that, and the length and the content of the
/// source. A file that differs in any of this is modified, and anything that is no regular file
/// conflicts.
pub proof fn law_copy_status(entry: EntryView, metadata: Metadata, world: World)
    requires
        !(entry is Link),
        entry::form_fault(entry) is None,
        world(RequestView::IsFile(entry.source()))->Flag_0,
        world(RequestView::Inspect(entry.target()))->Metadata_0 == Ok::<_, IoErrorView>(metadata),
    ensures
        ({
            let status = status_in(entry, world);
            let attributes = metadata.mode & 0o7777 == entry.mode()->0 && (entry.uses_sudo()
                ==> metadata.uid == 0 && metadata.gid == 0);
            let wanted_size = world(RequestView::FileSize(entry.source()))->Size_0;
            let size = world(RequestView::FileSize(entry.target()))->Size_0;
            let wanted = world(RequestView::ReadBytes(entry.source()))->Bytes_0;
            let content = world(RequestView::ReadBytes(entry.target()))->Bytes_0;
            if !(metadata.kind is File) {
                status == Ok::<EntryStatus, ErrorView>(EntryStatus::Conflict)
            } else if !attributes {
                status == Ok::<EntryStatus, ErrorView>(EntryStatus::Modified)
            } else if wanted_size is Err {
                status == unread(wanted_size->Err_0)
            } else if size is Err {
                status == unread(size->Err_0)
            } else if wanted_size->Ok_0 != size->Ok_0 {
                status == Ok::<EntryStatus, ErrorView>(EntryStatus::Modified)
            } else if wanted is Err {
                status == unread(wanted->Err_0)
            } else if content is Err {
                status == unread(content->Err_0)
            } else if wanted->Ok_0 == content->Ok_0 {
                status == Ok::<EntryStatus, ErrorView>(EntryStatus::InPlace)
            } else {
                status == Ok::<EntryStatus, ErrorView>(EntryStatus::Modified)
            }
        }),
{
}

/// Where something else than a link stands at the target of a link, that is a conflict. A link
/// that cannot be read is an error.
pub proof fn law_link_status_without_a_link(
    source: Seq<u8>,
    target: Seq<u8>,
    metadata: Metadata,
    world: World,
)
    requires
        entry::target_fault(target) is None,
        world(RequestView::Exists(source))->Flag_0,
        world(RequestView::Inspect(target))->Metadata_0 == Ok::<_, IoErrorView>(metadata),
    ensures
        ({
            let status = status_in(EntryView::Link { source, target }, world);
            let link = world(RequestView::ReadLink(target))->Path_0;
            &&& !(metadata.kind is Symlink) ==> status == Ok::<EntryStatus, ErrorView>(
                EntryStatus::Conflict,
            )
            &&& metadata.kind is Symlink && link is Err ==> status == Err::<
                EntryStatus,
                ErrorView,
            >(ErrorView::Io(link->Err_0))
        }),
{
}

} // verus!
