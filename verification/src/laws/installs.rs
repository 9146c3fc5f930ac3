//! Laws of installation.
use vstd::prelude::*;
use vstd::utf8::*;

use crate::entry;
use crate::entry::EntryStatus;
use crate::entry::EntryView;
use crate::entry::InstallOptions;
use crate::error::ErrorView;
use crate::error::IoErrorView;
use crate::install;
use crate::install::InstallStateView;
use crate::install::InstallStepView;
use crate::laws::entries;
use crate::laws::statuses;
use crate::path;
use crate::request::NodeKind;
use crate::request::ReplyView;
use crate::request::RequestView;
use crate::request::World;
use crate::status;
use crate::status::StatusStepView;
use crate::text;

verus! {

/// An installation after some replies, whatever they are.
pub open spec fn install_after(
    entry: EntryView,
    options: InstallOptions,
    step: InstallStepView,
    replies: Seq<ReplyView>,
) -> InstallStepView
    decreases replies.len(),
{
    match step {
        InstallStepView::Done(_) => step,
        InstallStepView::Ask { request, state } => if replies.len() == 0 {
            step
        } else {
            install_after(
                entry,
                options,
                install::install_next(entry, options, state, replies[0]),
                replies.drop_first(),
            )
        },
    }
}

/// What an installation asks for, one request after the other.
pub open spec fn install_trace(
    entry: EntryView,
    options: InstallOptions,
    step: InstallStepView,
    replies: Seq<ReplyView>,
) -> Seq<RequestView>
    decreases replies.len(),
{
    match step {
        InstallStepView::Done(_) => Seq::empty(),
        InstallStepView::Ask { request, state } => if replies.len() == 0 {
            seq![request]
        } else {
            seq![request] + install_trace(
                entry,
                options,
                install::install_next(entry, options, state, replies[0]),
                replies.drop_first(),
            )
        },
    }
}

/// Whether a request creates the directory that the target lies in.
pub open spec fn creates_directory(entry: EntryView, request: RequestView) -> bool {
    path::parent(entry.target()) matches Some(directory) && request == install::directory_creation(
        directory,
        entry.uses_sudo(),
    )
}

/// Whether a request removes what stands at the target.
pub open spec fn removes_target(entry: EntryView, request: RequestView) -> bool {
    ||| request == install::removal(entry.target(), true, entry.uses_sudo())
    ||| request == install::removal(entry.target(), false, entry.uses_sudo())
}

/// The last request of an installation.
pub open spec fn last_request(entry: EntryView) -> RequestView {
    match entry {
        EntryView::Link { source, target } => RequestView::MakeLink { source, target },
        _ => if entry.uses_sudo() {
            install::sudo_file(entry.source(), entry.target(), entry.mode()->0)
        } else {
            RequestView::SetMode { target: entry.target(), mode: entry.mode()->0 }
        },
    }
}

/// Whether a request puts the entry at its target.
pub open spec fn places_entry(entry: EntryView, request: RequestView) -> bool {
    ||| request == last_request(entry)
    ||| !(entry is Link) && !entry.uses_sudo() && request == RequestView::CopyFile {
        source: entry.source(),
        target: entry.target(),
    }
}

/// Whether an installation may ask for this.
pub open spec fn may_ask(
    entry: EntryView,
    options: InstallOptions,
    request: RequestView,
) -> bool {
    request.changes() ==> {
        &&& !options.dry_run
        &&& creates_directory(entry, request) || places_entry(entry, request) || (options.force
            && removes_target(entry, request))
    }
}

/// Whether the status of the target is known.
pub open spec fn decided(state: InstallStateView) -> bool {
    !(state is Source || state is Status)
}

/// What holds of a state that waits.
pub open spec fn sound_state(
    entry: EntryView,
    options: InstallOptions,
    state: InstallStateView,
) -> bool {
    match state {
        InstallStateView::Source => true,
        InstallStateView::Status { state } => true,
        InstallStateView::Parent { status, directory } => {
            &&& path::parent(entry.target()) == Some(directory)
            &&& status == EntryStatus::Conflict ==> options.force
        },
        InstallStateView::ParentMade { status, directory, operations } => {
            &&& path::parent(entry.target()) == Some(directory)
            &&& status == EntryStatus::Conflict ==> options.force
            &&& !options.dry_run
        },
        InstallStateView::Conflict { operations } => options.force,
        InstallStateView::Occupied { operations } => options.force,
        InstallStateView::Remove { operations } => options.force && !options.dry_run,
        InstallStateView::Removed { is_directory, operations } => options.force
            && !options.dry_run,
        InstallStateView::Linked { operations } => {
            &&& entry is Link
            &&& !options.dry_run
            &&& operations.len() > 0
        },
        InstallStateView::Copied { mode, operations } => {
            &&& !(entry is Link)
            &&& !entry.uses_sudo()
            &&& !options.dry_run
            &&& Some(mode) == entry.mode()
            &&& operations.len() > 0
        },
        InstallStateView::ModeSet { mode, operations } => {
            &&& !(entry is Link)
            &&& !entry.uses_sudo()
            &&& !options.dry_run
            &&& Some(mode) == entry.mode()
            &&& operations.len() > 0
        },
        InstallStateView::Installed { mode, operations } => {
            &&& !(entry is Link)
            &&& entry.uses_sudo()
            &&& !options.dry_run
            &&& Some(mode) == entry.mode()
            &&& operations.len() > 0
        },
    }
}

/// What holds of every step of an installation.
pub open spec fn sound(entry: EntryView, options: InstallOptions, step: InstallStepView) -> bool {
    match step {
        InstallStepView::Done(_) => true,
        InstallStepView::Ask { request, state } => {
            &&& request == install::install_request(entry, state)
            &&& sound_state(entry, options, state)
        },
    }
}

pub(crate) proof fn lemma_sound_next(
    entry: EntryView,
    options: InstallOptions,
    state: InstallStateView,
    reply: ReplyView,
)
    requires
        sound_state(entry, options, state),
    ensures
        sound(entry, options, install::install_next(entry, options, state, reply)),
        decided(state) ==> {
            let next = install::install_next(entry, options, state, reply);
            match next {
                InstallStepView::Ask { request, state } => decided(state),
                InstallStepView::Done(Ok(operations)) => operations.len() > 0,
                InstallStepView::Done(Err(error)) => !(error is Conflict),
            }
        },
{
}

pub(crate) proof fn lemma_sound_begin(entry: EntryView, options: InstallOptions)
    ensures
        sound(entry, options, install::install_begin(entry)),
{
}

pub(crate) proof fn lemma_may_ask(entry: EntryView, options: InstallOptions, step: InstallStepView)
    requires
        sound(entry, options, step),
        step is Ask,
    ensures
        may_ask(entry, options, step->request),
        !decided(step->state) ==> !step->request.changes(),
{
}

proof fn lemma_trace_may_ask(
    entry: EntryView,
    options: InstallOptions,
    step: InstallStepView,
    replies: Seq<ReplyView>,
)
    requires
        sound(entry, options, step),
    ensures
        forall|i: int|
            0 <= i < install_trace(entry, options, step, replies).len() ==> may_ask(
                entry,
                options,
                #[trigger] install_trace(entry, options, step, replies)[i],
            ),
    decreases replies.len(),
{
    if let InstallStepView::Ask { request, state } = step {
        lemma_may_ask(entry, options, step);
        if replies.len() > 0 {
            let next = install::install_next(entry, options, state, replies[0]);
            lemma_sound_next(entry, options, state, replies[0]);
            lemma_trace_may_ask(entry, options, next, replies.drop_first());
            let rest = install_trace(entry, options, next, replies.drop_first());
            assert forall|i: int|
                0 <= i < install_trace(entry, options, step, replies).len() implies may_ask(
                entry,
                options,
                #[trigger] install_trace(entry, options, step, replies)[i],
            ) by {
                if i > 0 {
                    assert(install_trace(entry, options, step, replies)[i] == rest[i - 1]);
                }
            }
        }
    }
}

/// Whatever the system answers, an installation changes nothing but what it has to: it creates
/// the directory of the target, puts the entry there, and removes what stands there only when
/// forced. A dry run changes nothing at all.
pub proof fn law_install_changes_only_target(
    entry: EntryView,
    options: InstallOptions,
    replies: Seq<ReplyView>,
)
    ensures
        forall|i: int|
            0 <= i < install_trace(entry, options, install::install_begin(entry), replies).len()
                ==> may_ask(
                entry,
                options,
                #[trigger] install_trace(
                    entry,
                    options,
                    install::install_begin(entry),
                    replies,
                )[i],
            ),
{
    lemma_sound_begin(entry, options);
    lemma_trace_may_ask(entry, options, install::install_begin(entry), replies);
}

/// The requests of a whole installation.
pub open spec fn whole_trace(
    entry: EntryView,
    options: InstallOptions,
    replies: Seq<ReplyView>,
) -> Seq<RequestView> {
    install_trace(entry, options, install::install_begin(entry), replies)
}

/// How a whole installation stands.
pub open spec fn whole_run(
    entry: EntryView,
    options: InstallOptions,
    replies: Seq<ReplyView>,
) -> InstallStepView {
    install_after(entry, options, install::install_begin(entry), replies)
}

pub open spec fn changes_nothing(requests: Seq<RequestView>) -> bool {
    forall|i: int| 0 <= i < requests.len() ==> !(#[trigger] requests[i]).changes()
}

/// A dry run changes nothing.
pub proof fn law_dry_run_changes_nothing(
    entry: EntryView,
    options: InstallOptions,
    replies: Seq<ReplyView>,
)
    requires
        options.dry_run,
    ensures
        changes_nothing(whole_trace(entry, options, replies)),
{
    law_install_changes_only_target(entry, options, replies);
}

/// Unless forced, an installation removes nothing.
pub proof fn law_nothing_is_removed_without_force(
    entry: EntryView,
    options: InstallOptions,
    replies: Seq<ReplyView>,
)
    requires
        !options.force,
    ensures
        forall|i: int|
            0 <= i < whole_trace(entry, options, replies).len() ==> !removes_target(
                entry,
                #[trigger] whole_trace(entry, options, replies)[i],
            ),
{
    let trace = whole_trace(entry, options, replies);
    law_install_changes_only_target(entry, options, replies);
    assert forall|i: int| 0 <= i < trace.len() implies !removes_target(
        entry,
        #[trigger] trace[i],
    ) by {
        assert(may_ask(entry, options, trace[i]));
        if removes_target(entry, trace[i]) {
            lemma_removal_is_distinct(entry, trace[i]);
        }
    }
}

/// A removal is no creation of a directory, and does not put anything in place.
proof fn lemma_removal_is_distinct(entry: EntryView, request: RequestView)
    requires
        removes_target(entry, request),
    ensures
        request.changes(),
        !creates_directory(entry, request),
        !places_entry(entry, request),
{
    if entry.uses_sudo() {
        assert(request->arguments.len() == 3);
        if let Some(directory) = path::parent(entry.target()) {
            assert(install::sudo_directory(directory)->arguments.len() == 10);
        }
        assert(install::sudo_file(
            entry.source(),
            entry.target(),
            entry.mode()->0,
        )->arguments.len() == 10);
    }
}

/// Rights are raised for single operations only, and only for an entry that asks for them: all
/// its changes are then made by `/usr/bin/sudo`, and those of any other entry without it.
pub proof fn law_rights_are_raised_by_sudo_alone(
    entry: EntryView,
    options: InstallOptions,
    replies: Seq<ReplyView>,
)
    ensures
        forall|i: int|
            0 <= i < whole_trace(entry, options, replies).len() && (#[trigger] whole_trace(
                entry,
                options,
                replies,
            )[i]).changes() ==> if entry.uses_sudo() {
                whole_trace(entry, options, replies)[i] is Run && whole_trace(
                    entry,
                    options,
                    replies,
                )[i]->program == "/usr/bin/sudo"@
            } else {
                !(whole_trace(entry, options, replies)[i] is Run)
            },
{
    let trace = whole_trace(entry, options, replies);
    law_install_changes_only_target(entry, options, replies);
    assert forall|i: int|
        0 <= i < trace.len() && (#[trigger] trace[i]).changes() implies if entry.uses_sudo() {
        trace[i] is Run && trace[i]->program == "/usr/bin/sudo"@
    } else {
        !(trace[i] is Run)
    } by {
        assert(may_ask(entry, options, trace[i]));
    }
}

/// A run that has decided what to do ends, if at all, with something done or an error that is no
/// conflict.
proof fn lemma_decided_end(
    entry: EntryView,
    options: InstallOptions,
    step: InstallStepView,
    replies: Seq<ReplyView>,
)
    requires
        sound(entry, options, step),
        match step {
            InstallStepView::Ask { request, state } => decided(state),
            InstallStepView::Done(Ok(operations)) => operations.len() > 0,
            InstallStepView::Done(Err(error)) => !(error is Conflict),
        },
    ensures
        match install_after(entry, options, step, replies) {
            InstallStepView::Ask { request, state } => true,
            InstallStepView::Done(Ok(operations)) => operations.len() > 0,
            InstallStepView::Done(Err(error)) => !(error is Conflict),
        },
    decreases replies.len(),
{
    if let InstallStepView::Ask { request, state } = step {
        if replies.len() > 0 {
            lemma_sound_next(entry, options, state, replies[0]);
            lemma_decided_end(
                entry,
                options,
                install::install_next(entry, options, state, replies[0]),
                replies.drop_first(),
            );
        }
    }
}

proof fn lemma_undecided_changes_nothing(
    entry: EntryView,
    options: InstallOptions,
    step: InstallStepView,
    replies: Seq<ReplyView>,
)
    requires
        sound(entry, options, step),
        step is Ask ==> !decided(step->state),
        match install_after(entry, options, step, replies) {
            InstallStepView::Ask { request, state } => false,
            InstallStepView::Done(Ok(operations)) => operations.len() == 0,
            InstallStepView::Done(Err(error)) => error is Conflict,
        },
    ensures
        changes_nothing(install_trace(entry, options, step, replies)),
    decreases replies.len(),
{
    if let InstallStepView::Ask { request, state } = step {
        lemma_may_ask(entry, options, step);
        let next = install::install_next(entry, options, state, replies[0]);
        lemma_sound_next(entry, options, state, replies[0]);
        if next is Ask && decided(next->state) {
            lemma_decided_end(entry, options, next, replies.drop_first());
        } else {
            lemma_undecided_changes_nothing(entry, options, next, replies.drop_first());
            let trace = install_trace(entry, options, step, replies);
            let rest = install_trace(entry, options, next, replies.drop_first());
            assert forall|i: int| 0 <= i < trace.len() implies !(
            #[trigger] trace[i]).changes() by {
                if i > 0 {
                    assert(trace[i] == rest[i - 1]);
                }
            }
        }
    }
}

/// An installation that is refused because of a conflict has changed nothing.
pub proof fn law_refused_conflict_changes_nothing(
    entry: EntryView,
    options: InstallOptions,
    replies: Seq<ReplyView>,
)
    requires
        whole_run(entry, options, replies) == InstallStepView::Done(
            Err(ErrorView::Conflict(entry.target())),
        ),
    ensures
        changes_nothing(whole_trace(entry, options, replies)),
{
    lemma_sound_begin(entry, options);
    lemma_undecided_changes_nothing(entry, options, install::install_begin(entry), replies);
}

/// An installation that reports no operation has changed nothing.
pub proof fn law_nothing_reported_means_nothing_changed(
    entry: EntryView,
    options: InstallOptions,
    replies: Seq<ReplyView>,
)
    requires
        whole_run(entry, options, replies) == InstallStepView::Done(Ok(Seq::empty())),
    ensures
        changes_nothing(whole_trace(entry, options, replies)),
{
    lemma_sound_begin(entry, options);
    lemma_undecided_changes_nothing(entry, options, install::install_begin(entry), replies);
}

/// Whether the way is clear, or about to be cleared.
spec fn clearing(state: InstallStateView) -> bool {
    decided(state) && !(state is Parent || state is ParentMade || state is Conflict
        || state is Occupied)
}

proof fn lemma_clearing_asks_no_more(
    entry: EntryView,
    options: InstallOptions,
    step: InstallStepView,
    replies: Seq<ReplyView>,
)
    requires
        sound(entry, options, step),
        step is Ask ==> clearing(step->state),
    ensures
        forall|i: int|
            0 <= i < install_trace(entry, options, step, replies).len() ==> !(
            #[trigger] install_trace(entry, options, step, replies)[i] is HasEntries),
    decreases replies.len(),
{
    if let InstallStepView::Ask { request, state } = step {
        if replies.len() > 0 {
            let next = install::install_next(entry, options, state, replies[0]);
            lemma_sound_next(entry, options, state, replies[0]);
            lemma_clearing_asks_no_more(entry, options, next, replies.drop_first());
            let trace = install_trace(entry, options, step, replies);
            let rest = install_trace(entry, options, next, replies.drop_first());
            assert forall|i: int| 0 <= i < trace.len() implies !(
            #[trigger] trace[i] is HasEntries) by {
                if i > 0 {
                    assert(trace[i] == rest[i - 1]);
                }
            }
        }
    }
}

proof fn lemma_occupied(
    entry: EntryView,
    options: InstallOptions,
    step: InstallStepView,
    replies: Seq<ReplyView>,
    at: int,
)
    requires
        sound(entry, options, step),
        0 <= at < replies.len(),
        at < install_trace(entry, options, step, replies).len(),
        install_trace(entry, options, step, replies)[at] is HasEntries,
        replies[at] == ReplyView::Occupied(Ok(true)),
    ensures
        install_trace(entry, options, step, replies).len() == at + 1,
        forall|i: int|
            0 <= i <= at ==> !removes_target(
                entry,
                #[trigger] install_trace(entry, options, step, replies)[i],
            ),
        install_after(entry, options, step, replies) == InstallStepView::Done(
            Err(
                ErrorView::Invalid(
                    "refusing to remove non-empty directory: "@ + path::path_text(entry.target()),
                ),
            ),
        ),
    decreases replies.len(),
{
    let trace = install_trace(entry, options, step, replies);
    let state = step->state;
    let next = install::install_next(entry, options, state, replies[0]);
    let rest = install_trace(entry, options, next, replies.drop_first());
    assert(trace == seq![step->request] + rest);
    if at == 0 {
        assert(trace[0] == step->request);
        assert(state is Occupied);
        assert(rest.len() == 0);
    } else {
        assert(trace[at] == rest[at - 1]);
        lemma_sound_next(entry, options, state, replies[0]);
        if next is Ask && clearing(next->state) {
            lemma_clearing_asks_no_more(entry, options, next, replies.drop_first());
        }
        if clearing(state) {
            lemma_clearing_asks_no_more(entry, options, step, replies);
        }
        lemma_occupied(entry, options, next, replies.drop_first(), at - 1);
        assert forall|i: int| 0 <= i <= at implies !removes_target(entry, #[trigger] trace[i]) by {
            if i > 0 {
                assert(trace[i] == rest[i - 1]);
            } else if removes_target(entry, trace[0]) {
                lemma_removal_is_distinct(entry, trace[0]);
                lemma_may_ask(entry, options, step);
            }
        }
    }
}

/// A directory that holds anything is not removed, whatever the options: once the system says so
/// the installation ends with a refusal, and no removal came before.
pub proof fn law_occupied_directory_stays(
    entry: EntryView,
    options: InstallOptions,
    replies: Seq<ReplyView>,
    at: int,
)
    requires
        0 <= at < replies.len(),
        at < whole_trace(entry, options, replies).len(),
        whole_trace(entry, options, replies)[at] == RequestView::HasEntries(entry.target()),
        replies[at] == ReplyView::Occupied(Ok(true)),
    ensures
        forall|i: int|
            0 <= i < whole_trace(entry, options, replies).len() ==> !removes_target(
                entry,
                #[trigger] whole_trace(entry, options, replies)[i],
            ),
        whole_run(entry, options, replies) == InstallStepView::Done(
            Err(
                ErrorView::Invalid(
                    "refusing to remove non-empty directory: "@ + path::path_text(entry.target()),
                ),
            ),
        ),
{
    lemma_sound_begin(entry, options);
    lemma_occupied(entry, options, install::install_begin(entry), replies, at);
}

/// Whether the system said that what stands at the target may go: it is no directory, or an
/// empty one.
pub open spec fn may_go(entry: EntryView, request: RequestView, reply: ReplyView) -> bool {
    ||| request == RequestView::Inspect(entry.target()) && (reply->Metadata_0 matches Ok(metadata)
        && metadata.kind != NodeKind::Directory)
    ||| request == RequestView::HasEntries(entry.target()) && (reply->Occupied_0 matches Ok(
        occupied,
    ) && !occupied)
}

spec fn removing(step: InstallStepView) -> bool {
    step is Ask && (step->state is Remove || step->state is Removed)
}

proof fn lemma_removal_follows_check(
    entry: EntryView,
    options: InstallOptions,
    step: InstallStepView,
    replies: Seq<ReplyView>,
    at: int,
)
    requires
        sound(entry, options, step),
        0 <= at < install_trace(entry, options, step, replies).len(),
        removes_target(entry, install_trace(entry, options, step, replies)[at]),
        !removing(step),
    ensures
        exists|i: int|
            0 <= i < at && i < replies.len() && may_go(
                entry,
                #[trigger] install_trace(entry, options, step, replies)[i],
                replies[i],
            ),
    decreases replies.len(),
{
    let trace = install_trace(entry, options, step, replies);
    lemma_removal_is_distinct(entry, trace[at]);
    if at == 0 {
        assert(trace[0] == step->request);
        lemma_may_ask(entry, options, step);
        lemma_only_removing_removes(entry, options, step);
    } else {
        let next = install::install_next(entry, options, step->state, replies[0]);
        let rest = install_trace(entry, options, next, replies.drop_first());
        assert(trace == seq![step->request] + rest);
        assert(trace[at] == rest[at - 1]);
        lemma_sound_next(entry, options, step->state, replies[0]);
        if removing(next) {
            assert(may_go(entry, trace[0], replies[0]));
        } else {
            lemma_removal_follows_check(entry, options, next, replies.drop_first(), at - 1);
            let i = choose|i: int|
                0 <= i < at - 1 && i < replies.drop_first().len() && may_go(
                    entry,
                    #[trigger] rest[i],
                    replies.drop_first()[i],
                );
            assert(trace[i + 1] == rest[i]);
            assert(replies[i + 1] == replies.drop_first()[i]);
        }
    }
}

proof fn lemma_only_removing_removes(
    entry: EntryView,
    options: InstallOptions,
    step: InstallStepView,
)
    requires
        sound(entry, options, step),
        step is Ask,
        removes_target(entry, step->request),
    ensures
        removing(step),
{
    lemma_removal_is_distinct(entry, step->request);
}

/// Nothing is removed before the system said that it may go.
pub proof fn law_removal_follows_check(
    entry: EntryView,
    options: InstallOptions,
    replies: Seq<ReplyView>,
    at: int,
)
    requires
        0 <= at < whole_trace(entry, options, replies).len(),
        removes_target(entry, whole_trace(entry, options, replies)[at]),
    ensures
        exists|i: int|
            0 <= i < at && i < replies.len() && may_go(
                entry,
                #[trigger] whole_trace(entry, options, replies)[i],
                replies[i],
            ),
{
    lemma_sound_begin(entry, options);
    lemma_removal_follows_check(entry, options, install::install_begin(entry), replies, at);
}

/// Whether a reply says that a change was made.
pub open spec fn succeeded(request: RequestView, reply: ReplyView) -> bool {
    if request is Run {
        reply->Exit_0 == Ok::<Option<i32>, IoErrorView>(Some(0i32))
    } else {
        reply->Done_0 is Ok
    }
}

/// The reply that ends an installation with something done is the one to its last request.
proof fn lemma_final_reply(
    entry: EntryView,
    options: InstallOptions,
    state: InstallStateView,
    reply: ReplyView,
)
    requires
        sound_state(entry, options, state),
        !options.dry_run,
        install::install_next(entry, options, state, reply) matches InstallStepView::Done(
            Ok(operations),
        ) && operations.len() > 0,
    ensures
        state is Linked || state is ModeSet || state is Installed,
        install::install_request(entry, state) == last_request(entry),
        succeeded(last_request(entry), reply),
{
}

#[verifier::rlimit(60)]
proof fn lemma_last_request(
    entry: EntryView,
    options: InstallOptions,
    step: InstallStepView,
    replies: Seq<ReplyView>,
)
    requires
        sound(entry, options, step),
        step is Ask,
        !options.dry_run,
        install_after(entry, options, step, replies) matches InstallStepView::Done(
            Ok(operations),
        ) && operations.len() > 0,
    ensures
        ({
            let trace = install_trace(entry, options, step, replies);
            &&& 0 < trace.len() <= replies.len()
            &&& trace.last() == last_request(entry)
            &&& succeeded(trace.last(), replies[trace.len() - 1])
            &&& !(entry is Link) && !entry.uses_sudo() && !(step->state is ModeSet) ==> trace.len()
                > 1 && trace[trace.len() - 2] == RequestView::CopyFile {
                source: entry.source(),
                target: entry.target(),
            }
        }),
    decreases replies.len(),
{
    let trace = install_trace(entry, options, step, replies);
    let next = install::install_next(entry, options, step->state, replies[0]);
    let rest = install_trace(entry, options, next, replies.drop_first());
    assert(trace == seq![step->request] + rest);
    lemma_sound_next(entry, options, step->state, replies[0]);
    if next is Ask {
        lemma_last_request(entry, options, next, replies.drop_first());
        assert(trace.last() == rest.last());
        assert(replies[trace.len() - 1] == replies.drop_first()[rest.len() - 1]);
        if next->state is ModeSet {
            lemma_mode_set_is_last(entry, options, next, replies.drop_first());
            assert(trace[trace.len() - 2] == step->request);
        } else if rest.len() > 1 {
            assert(trace[trace.len() - 2] == rest[rest.len() - 2]);
        }
    } else {
        assert(install_after(entry, options, next, replies.drop_first()) == next);
        lemma_final_reply(entry, options, step->state, replies[0]);
        assert(rest.len() == 0);
        assert(trace.last() == step->request);
    }
}

proof fn lemma_mode_set_is_last(
    entry: EntryView,
    options: InstallOptions,
    step: InstallStepView,
    replies: Seq<ReplyView>,
)
    requires
        step is Ask,
        step->state is ModeSet,
    ensures
        install_trace(entry, options, step, replies).len() == 1,
{
    if replies.len() > 0 {
        let next = install::install_next(entry, options, step->state, replies[0]);
        assert(install_trace(entry, options, next, replies.drop_first()).len() == 0);
    }
}

/// An installation that succeeds and reports operations ends by putting the entry in place: it
/// makes the link, or copies the file and then gives it its mode, or has root do both at once. The
/// system said that this was done.
pub proof fn law_install_ends_in_place(
    entry: EntryView,
    options: InstallOptions,
    replies: Seq<ReplyView>,
)
    requires
        !options.dry_run,
        whole_run(entry, options, replies) matches InstallStepView::Done(Ok(operations))
            && operations.len() > 0,
    ensures
        ({
            let trace = whole_trace(entry, options, replies);
            &&& 0 < trace.len() <= replies.len()
            &&& trace.last() == last_request(entry)
            &&& succeeded(trace.last(), replies[trace.len() - 1])
            &&& !(entry is Link) && !entry.uses_sudo() ==> trace.len() > 1 && trace[trace.len() - 2]
                == RequestView::CopyFile { source: entry.source(), target: entry.target() }
        }),
{
    lemma_sound_begin(entry, options);
    lemma_last_request(entry, options, install::install_begin(entry), replies);
}

proof fn lemma_left_alone(
    entry: EntryView,
    options: InstallOptions,
    step: StatusStepView,
    replies: Seq<ReplyView>,
)
    requires
        step matches StatusStepView::Ask { request, state } ==> request == status::status_request(
            entry,
            state,
        ),
        install_after(entry, options, install::follow_status(entry, options, step), replies)
            == InstallStepView::Done(Ok(Seq::empty())),
    ensures
        statuses::status_replied(entry, step, replies) == StatusStepView::Done(
            Ok(EntryStatus::InPlace),
        ),
        install_trace(entry, options, install::follow_status(entry, options, step), replies)
            == statuses::status_trace(entry, step, replies),
    decreases replies.len(),
{
    match step {
        StatusStepView::Ask { request, state } => {
            let next = status::status_next(entry, state, replies[0]);
            lemma_left_alone(entry, options, next, replies.drop_first());
        },
        StatusStepView::Done(Ok(status)) => {
            let decision = install::decide(entry, options, status);
            if status != EntryStatus::InPlace {
                lemma_decided_end(entry, options, decision, replies);
            }
        },
        StatusStepView::Done(Err(_)) => {},
    }
}

/// An installation that succeeds and reports no operation has compared the target with the entry
/// and found it in place. It asks for nothing else.
pub proof fn law_nothing_reported_means_in_place(
    entry: EntryView,
    options: InstallOptions,
    replies: Seq<ReplyView>,
)
    requires
        whole_run(entry, options, replies) == InstallStepView::Done(Ok(Seq::empty())),
    ensures
        replies.len() > 0,
        statuses::status_replied(entry, status::status_begin(entry), replies.drop_first())
            == StatusStepView::Done(Ok(EntryStatus::InPlace)),
        whole_trace(entry, options, replies) == seq![status::source_request(entry)]
            + statuses::status_trace(entry, status::status_begin(entry), replies.drop_first()),
{
    let first = install::install_begin(entry);
    let begin = status::status_begin(entry);
    assert(first is Ask && first->state is Source);
    let next = install::install_next(entry, options, InstallStateView::Source, replies[0]);
    let rest = replies.drop_first();
    assert(install_after(entry, options, first, replies) == install_after(
        entry,
        options,
        next,
        rest,
    ));
    if entry::entry_fault(entry, replies[0]->Flag_0) is Some {
        assert(next is Done && next->Done_0 is Err);
        assert(install_after(entry, options, next, rest) == next);
    }
    assert(next == install::follow_status(entry, options, begin));
    lemma_left_alone(entry, options, begin, rest);
}

/// An installation after some replies of a system that stands still.
pub open spec fn install_settled(
    entry: EntryView,
    options: InstallOptions,
    world: World,
    step: InstallStepView,
    count: nat,
) -> InstallStepView
    decreases count,
{
    match step {
        InstallStepView::Done(_) => step,
        InstallStepView::Ask { request, state } => if count == 0 {
            step
        } else {
            install_settled(
                entry,
                options,
                world,
                install::install_next(entry, options, state, world(request)),
                (count - 1) as nat,
            )
        },
    }
}

/// The operations of an installation.
pub open spec fn planned_operations(
    entry: EntryView,
    missing_directory: bool,
    conflict: bool,
) -> Seq<Seq<char>> {
    let first = if missing_directory {
        seq![install::directory_text(path::parent(entry.target())->0)]
    } else {
        Seq::empty()
    };
    let second = if conflict {
        first.push(install::removal_text(entry.target()))
    } else {
        first
    };
    second.push(install::placing_text(entry))
}

/// What forbids to remove what stands at the target.
pub open spec fn obstacle(entry: EntryView, world: World) -> Option<ErrorView> {
    match world(RequestView::Inspect(entry.target()))->Metadata_0 {
        Err(error) => Some(ErrorView::Io(error)),
        Ok(metadata) => if metadata.kind != NodeKind::Directory {
            None
        } else {
            match world(RequestView::HasEntries(entry.target()))->Occupied_0 {
                Err(error) => Some(ErrorView::Io(error)),
                Ok(occupied) => if occupied {
                    Some(
                        ErrorView::Invalid(
                            "refusing to remove non-empty directory: "@ + path::path_text(
                                entry.target(),
                            ),
                        ),
                    )
                } else {
                    None
                },
            }
        },
    }
}

/// What goes wrong with the creation of the directory of the target.
pub open spec fn creation_fault(entry: EntryView, world: World) -> Option<ErrorView> {
    install::change_fault(
        entry,
        "/usr/bin/install"@,
        world(install::directory_creation(path::parent(entry.target())->0, entry.uses_sudo())),
    )
}

/// What goes wrong with the removal of what stands at the target.
pub open spec fn removal_fault(entry: EntryView, world: World) -> Option<ErrorView> {
    match world(RequestView::Inspect(entry.target()))->Metadata_0 {
        Err(error) => Some(ErrorView::Io(error)),
        Ok(metadata) => {
            let is_directory = metadata.kind == NodeKind::Directory;
            install::change_fault(
                entry,
                install::removal_program(is_directory),
                world(install::removal(entry.target(), is_directory, entry.uses_sudo())),
            )
        },
    }
}

/// What goes wrong with putting the entry in place.
pub open spec fn placing_fault(entry: EntryView, world: World) -> Option<ErrorView> {
    let last = world(last_request(entry));
    if entry is Link {
        install::done_fault(last->Done_0)
    } else if entry.uses_sudo() {
        install::exit_fault("/usr/bin/install"@, last->Exit_0)
    } else {
        match install::done_fault(
            world(
                RequestView::CopyFile { source: entry.source(), target: entry.target() },
            )->Done_0,
        ) {
            Some(error) => Some(error),
            None => install::done_fault(last->Done_0),
        }
    }
}

pub open spec fn first_of(
    first: Option<ErrorView>,
    second: Option<ErrorView>,
) -> Option<ErrorView> {
    match first {
        Some(error) => Some(error),
        None => second,
    }
}

/// What an installation over a known status comes to, in a system that stands still: what goes
/// wrong first, or the operations.
pub open spec fn installed_over(
    entry: EntryView,
    options: InstallOptions,
    conflict: bool,
    world: World,
) -> Result<Seq<Seq<char>>, ErrorView> {
    match path::parent(entry.target()) {
        None => Err(
            ErrorView::Invalid("target has no parent: "@ + path::path_text(entry.target())),
        ),
        Some(directory) => {
            let missing = !world(RequestView::Exists(directory))->Flag_0;
            let creation = if missing && !options.dry_run {
                creation_fault(entry, world)
            } else {
                None
            };
            let clearance = if !conflict {
                None
            } else if options.dry_run {
                obstacle(entry, world)
            } else {
                first_of(obstacle(entry, world), removal_fault(entry, world))
            };
            let placing = if options.dry_run {
                None
            } else {
                placing_fault(entry, world)
            };
            match first_of(creation, first_of(clearance, placing)) {
                Some(error) => Err(error),
                None => Ok(planned_operations(entry, missing, conflict)),
            }
        },
    }
}

/// What an installation comes to once the status of the target is known.
pub open spec fn decided_in(
    entry: EntryView,
    options: InstallOptions,
    status: EntryStatus,
    world: World,
) -> Result<Seq<Seq<char>>, ErrorView> {
    match status {
        EntryStatus::InPlace => Ok(Seq::empty()),
        EntryStatus::Conflict => if options.force {
            installed_over(entry, options, true, world)
        } else {
            Err(ErrorView::Conflict(entry.target()))
        },
        _ => installed_over(entry, options, false, world),
    }
}

/// What an installation comes to in a system that stands still.
pub open spec fn installed_in(entry: EntryView, options: InstallOptions, world: World) -> Result<
    Seq<Seq<char>>,
    ErrorView,
> {
    match statuses::status_in(entry, world) {
        Err(error) => Err(error),
        Ok(status) => decided_in(entry, options, status, world),
    }
}

/// A word of a command line.
pub open spec fn word(text: Seq<char>) -> Seq<u8> {
    encode_utf8(text)
}

/// How the directory of a target is created: by the system, or by `install` as root, for root.
pub open spec fn creation(entry: EntryView) -> RequestView {
    let directory = path::parent(entry.target())->0;
    if entry.uses_sudo() {
        RequestView::Run {
            program: "/usr/bin/sudo"@,
            arguments: seq![
                word("/usr/bin/install"@),
                word("-d"@),
                word("-m"@),
                word("0755"@),
                word("-o"@),
                word("root"@),
                word("-g"@),
                word("root"@),
                word("--"@),
                directory,
            ],
        }
    } else {
        RequestView::CreateDirectories(directory)
    }
}

/// How what stands at a target is removed: a directory as such, and anything else as a file.
pub open spec fn clearance(entry: EntryView, kind: NodeKind) -> RequestView {
    if entry.uses_sudo() {
        RequestView::Run {
            program: "/usr/bin/sudo"@,
            arguments: seq![
                if kind is Directory {
                    word("/usr/bin/rmdir"@)
                } else {
                    word("/usr/bin/rm"@)
                },
                word("--"@),
                entry.target(),
            ],
        }
    } else if kind is Directory {
        RequestView::RemoveDirectory(entry.target())
    } else {
        RequestView::RemoveFile(entry.target())
    }
}

/// How an entry is put in place: a link by the system, a copy of root by `install`, and any other
/// copy by the system, which then sets its permissions.
pub open spec fn placement(entry: EntryView, world: World) -> Seq<RequestView> {
    let copy = RequestView::CopyFile { source: entry.source(), target: entry.target() };
    if entry is Link {
        seq![RequestView::MakeLink { source: entry.source(), target: entry.target() }]
    } else if entry.uses_sudo() {
        seq![
            RequestView::Run {
                program: "/usr/bin/sudo"@,
                arguments: seq![
                    word("/usr/bin/install"@),
                    word("-m"@),
                    word(text::mode_argument(entry.mode()->0)),
                    word("-o"@),
                    word("root"@),
                    word("-g"@),
                    word("root"@),
                    word("--"@),
                    entry.source(),
                    entry.target(),
                ],
            },
        ]
    } else if world(copy)->Done_0 is Err {
        seq![copy]
    } else {
        seq![copy, RequestView::SetMode { target: entry.target(), mode: entry.mode()->0 }]
    }
}

/// The changes from where the directory of the target is there.
pub open spec fn changes_at(entry: EntryView, conflict: bool, world: World) -> Seq<RequestView> {
    if !conflict {
        placement(entry, world)
    } else if obstacle(entry, world) is Some {
        Seq::empty()
    } else {
        let removal = clearance(
            entry,
            world(RequestView::Inspect(entry.target()))->Metadata_0->Ok_0.kind,
        );
        if removal_fault(entry, world) is Some {
            seq![removal]
        } else {
            seq![removal] + placement(entry, world)
        }
    }
}

/// The changes that an installation asks for in a system that stands still, in their order: the
/// directory where it is missing, then the removal of what is in the way, then the entry itself.
/// The first that fails is the last. Nothing is asked for in a dry run, where the entry is in
/// place, or where it cannot be installed.
pub open spec fn changes_in(entry: EntryView, options: InstallOptions, world: World) -> Seq<
    RequestView,
> {
    match statuses::status_in(entry, world) {
        Err(_) => Seq::empty(),
        Ok(status) => decided_changes(entry, options, status, world),
    }
}

/// The changes once the status of the target is known.
pub open spec fn decided_changes(
    entry: EntryView,
    options: InstallOptions,
    status: EntryStatus,
    world: World,
) -> Seq<RequestView> {
    let conflict = status is Conflict;
    if options.dry_run || status is InPlace || (conflict && !options.force) || path::parent(
        entry.target(),
    ) is None {
        Seq::empty()
    } else if world(RequestView::Exists(path::parent(entry.target())->0))->Flag_0 {
        changes_at(entry, conflict, world)
    } else if creation_fault(entry, world) is Some {
        seq![creation(entry)]
    } else {
        seq![creation(entry)] + changes_at(entry, conflict, world)
    }
}

proof fn lemma_changes_are_asked_for(entry: EntryView, kind: NodeKind)
    ensures
        path::parent(entry.target()) is Some ==> install::directory_creation(
            path::parent(entry.target())->0,
            entry.uses_sudo(),
        ) == creation(entry),
        install::removal(entry.target(), kind == NodeKind::Directory, entry.uses_sudo())
            == clearance(entry, kind),
        creation(entry).changes(),
        clearance(entry, kind).changes(),
        install::sudo_file(entry.source(), entry.target(), entry.mode()->0) == (RequestView::Run {
            program: "/usr/bin/sudo"@,
            arguments: seq![
                word("/usr/bin/install"@),
                word("-m"@),
                word(text::mode_argument(entry.mode()->0)),
                word("-o"@),
                word("root"@),
                word("-g"@),
                word("root"@),
                word("--"@),
                entry.source(),
                entry.target(),
            ],
        }),
{
    let directory = path::parent(entry.target())->0;
    assert(install::sudo_directory(directory)->arguments =~= seq![
        word("/usr/bin/install"@),
        word("-d"@),
        word("-m"@),
        word("0755"@),
        word("-o"@),
        word("root"@),
        word("-g"@),
        word("root"@),
        word("--"@),
        directory,
    ]);
    let program = install::removal_program(kind == NodeKind::Directory);
    assert(install::sudo(program, seq![word("--"@), entry.target()])->arguments =~= seq![
        word(program),
        word("--"@),
        entry.target(),
    ]);
    assert(install::sudo_file(entry.source(), entry.target(), entry.mode()->0)->arguments =~= seq![
        word("/usr/bin/install"@),
        word("-m"@),
        word(text::mode_argument(entry.mode()->0)),
        word("-o"@),
        word("root"@),
        word("-g"@),
        word("root"@),
        word("--"@),
        entry.source(),
        entry.target(),
    ]);
}

/// The changes that an installation asks for on the way.
pub open spec fn asked_changes(
    entry: EntryView,
    options: InstallOptions,
    world: World,
    step: InstallStepView,
    count: nat,
) -> Seq<RequestView>
    decreases count,
{
    match step {
        InstallStepView::Done(_) => Seq::empty(),
        InstallStepView::Ask { request, state } => if count == 0 {
            Seq::empty()
        } else {
            let rest = asked_changes(
                entry,
                options,
                world,
                install::install_next(entry, options, state, world(request)),
                (count - 1) as nat,
            );
            if request.changes() {
                seq![request] + rest
            } else {
                rest
            }
        },
    }
}

/// Whether a run comes to an end, with these changes on the way.
spec fn settles(
    entry: EntryView,
    options: InstallOptions,
    world: World,
    step: InstallStepView,
    changes: Seq<RequestView>,
    end: Result<Seq<Seq<char>>, ErrorView>,
) -> bool {
    exists|count: nat|
        #[trigger] install_settled(entry, options, world, step, count) == InstallStepView::Done(
            end,
        ) && asked_changes(entry, options, world, step, count) == changes
}

proof fn lemma_settles_done(
    entry: EntryView,
    options: InstallOptions,
    world: World,
    end: Result<Seq<Seq<char>>, ErrorView>,
)
    ensures
        settles(entry, options, world, InstallStepView::Done(end), Seq::empty(), end),
{
    assert(install_settled(entry, options, world, InstallStepView::Done(end), 0)
        == InstallStepView::Done(end));
    assert(asked_changes(entry, options, world, InstallStepView::Done(end), 0)
        == Seq::<RequestView>::empty());
}

proof fn lemma_settles_ask(
    entry: EntryView,
    options: InstallOptions,
    world: World,
    state: InstallStateView,
    changes: Seq<RequestView>,
    end: Result<Seq<Seq<char>>, ErrorView>,
)
    requires
        settles(
            entry,
            options,
            world,
            install::install_next(
                entry,
                options,
                state,
                world(install::install_request(entry, state)),
            ),
            changes,
            end,
        ),
    ensures
        settles(
            entry,
            options,
            world,
            install::install_ask(entry, state),
            if install::install_request(entry, state).changes() {
                seq![install::install_request(entry, state)] + changes
            } else {
                changes
            },
            end,
        ),
        seq![install::install_request(entry, state)] + Seq::<RequestView>::empty() == seq![
            install::install_request(entry, state),
        ],
{
    let request = install::install_request(entry, state);
    let next = install::install_next(entry, options, state, world(request));
    let step = install::install_ask(entry, state);
    let count = choose|count: nat|
        #[trigger] install_settled(entry, options, world, next, count) == InstallStepView::Done(
            end,
        ) && asked_changes(entry, options, world, next, count) == changes;
    assert(install_settled(entry, options, world, step, count + 1) == InstallStepView::Done(end));
    assert(seq![request] + Seq::<RequestView>::empty() =~= seq![request]);
}

spec fn placed_end(
    entry: EntryView,
    options: InstallOptions,
    operations: Seq<Seq<char>>,
    world: World,
) -> Result<Seq<Seq<char>>, ErrorView> {
    if !options.dry_run && placing_fault(entry, world) is Some {
        Err(placing_fault(entry, world)->0)
    } else {
        Ok(operations.push(install::placing_text(entry)))
    }
}

spec fn placed_changes(entry: EntryView, options: InstallOptions, world: World) -> Seq<
    RequestView,
> {
    if options.dry_run {
        Seq::empty()
    } else {
        placement(entry, world)
    }
}

#[verifier::rlimit(60)]
proof fn lemma_place_settles(
    entry: EntryView,
    options: InstallOptions,
    operations: Seq<Seq<char>>,
    world: World,
)
    ensures
        settles(
            entry,
            options,
            world,
            install::place(entry, options, operations),
            placed_changes(entry, options, world),
            placed_end(entry, options, operations, world),
        ),
{
    let none = Seq::<RequestView>::empty();
    let end = placed_end(entry, options, operations, world);
    let operations = operations.push(install::placing_text(entry));
    lemma_settles_done(entry, options, world, end);
    lemma_changes_are_asked_for(entry, NodeKind::File);
    if !options.dry_run {
        if entry is Link {
            lemma_settles_ask(
                entry,
                options,
                world,
                InstallStateView::Linked { operations },
                none,
                end,
            );
        } else if entry.uses_sudo() {
            lemma_settles_ask(
                entry,
                options,
                world,
                InstallStateView::Installed { mode: entry.mode()->0, operations },
                none,
                end,
            );
        } else {
            let mode = entry.mode()->0;
            let copied = InstallStateView::Copied { mode, operations };
            let copy = world(install::install_request(entry, copied));
            if install::done_fault(copy->Done_0) is None {
                let last = InstallStateView::ModeSet { mode, operations };
                let request = install::install_request(entry, last);
                lemma_settles_ask(entry, options, world, last, none, end);
                lemma_settles_ask(entry, options, world, copied, seq![request], end);
                assert(seq![install::install_request(entry, copied)] + seq![request] =~= placement(
                    entry,
                    world,
                ));
            } else {
                lemma_settles_ask(entry, options, world, copied, none, end);
            }
        }
    }
}

spec fn cleared_end(
    entry: EntryView,
    options: InstallOptions,
    conflict: bool,
    operations: Seq<Seq<char>>,
    world: World,
) -> Result<Seq<Seq<char>>, ErrorView> {
    if !conflict {
        placed_end(entry, options, operations, world)
    } else if obstacle(entry, world) is Some {
        Err(obstacle(entry, world)->0)
    } else if !options.dry_run && removal_fault(entry, world) is Some {
        Err(removal_fault(entry, world)->0)
    } else {
        placed_end(
            entry,
            options,
            operations.push(install::removal_text(entry.target())),
            world,
        )
    }
}

spec fn cleared_changes(
    entry: EntryView,
    options: InstallOptions,
    conflict: bool,
    world: World,
) -> Seq<RequestView> {
    if options.dry_run {
        Seq::empty()
    } else {
        changes_at(entry, conflict, world)
    }
}

#[verifier::rlimit(60)]
proof fn lemma_remove_settles(
    entry: EntryView,
    options: InstallOptions,
    operations: Seq<Seq<char>>,
    world: World,
)
    requires
        obstacle(entry, world) is None,
    ensures
        settles(
            entry,
            options,
            world,
            install::remove(entry, options, operations),
            cleared_changes(entry, options, true, world),
            cleared_end(entry, options, true, operations, world),
        ),
{
    let none = Seq::<RequestView>::empty();
    let changes = cleared_changes(entry, options, true, world);
    let end = cleared_end(entry, options, true, operations, world);
    let operations = operations.push(install::removal_text(entry.target()));
    lemma_place_settles(entry, options, operations, world);
    if !options.dry_run {
        lemma_settles_done(entry, options, world, end);
        let remove = InstallStateView::Remove { operations };
        let metadata = world(RequestView::Inspect(entry.target()))->Metadata_0->Ok_0;
        let is_directory = metadata.kind == NodeKind::Directory;
        let removed = InstallStateView::Removed { is_directory, operations };
        lemma_changes_are_asked_for(entry, metadata.kind);
        let later = if removal_fault(entry, world) is Some {
            none
        } else {
            placement(entry, world)
        };
        lemma_settles_ask(entry, options, world, removed, later, end);
        lemma_settles_ask(entry, options, world, remove, changes, end);
    }
}

#[verifier::rlimit(60)]
proof fn lemma_clear_settles(
    entry: EntryView,
    options: InstallOptions,
    status: EntryStatus,
    operations: Seq<Seq<char>>,
    world: World,
)
    ensures
        settles(
            entry,
            options,
            world,
            install::clear(entry, options, status, operations),
            cleared_changes(entry, options, status == EntryStatus::Conflict, world),
            cleared_end(
                entry,
                options,
                status == EntryStatus::Conflict,
                operations,
                world,
            ),
        ),
{
    if status != EntryStatus::Conflict {
        lemma_place_settles(entry, options, operations, world);
    } else {
        let changes = cleared_changes(entry, options, true, world);
        let end = cleared_end(entry, options, true, operations, world);
        lemma_settles_done(entry, options, world, end);
        if obstacle(entry, world) is None {
            lemma_remove_settles(entry, options, operations, world);
        }
        if let Ok(metadata) = world(RequestView::Inspect(entry.target()))->Metadata_0 {
            if metadata.kind == NodeKind::Directory {
                lemma_settles_ask(
                    entry,
                    options,
                    world,
                    InstallStateView::Occupied { operations },
                    changes,
                    end,
                );
            }
        }
        lemma_settles_ask(
            entry,
            options,
            world,
            InstallStateView::Conflict { operations },
            changes,
            end,
        );
    }
}

#[verifier::rlimit(60)]
proof fn lemma_decide_settles(
    entry: EntryView,
    options: InstallOptions,
    status: EntryStatus,
    world: World,
)
    ensures
        settles(
            entry,
            options,
            world,
            install::decide(entry, options, status),
            decided_changes(entry, options, status, world),
            decided_in(entry, options, status, world),
        ),
{
    let none = Seq::<RequestView>::empty();
    let end = decided_in(entry, options, status, world);
    let changes = decided_changes(entry, options, status, world);
    let conflict = status == EntryStatus::Conflict;
    lemma_settles_done(entry, options, world, end);
    if status != EntryStatus::InPlace && !(conflict && !options.force) {
        if let Some(directory) = path::parent(entry.target()) {
            let missing = !world(RequestView::Exists(directory))->Flag_0;
            let operations = if missing {
                seq![install::directory_text(directory)]
            } else {
                Seq::empty()
            };
            lemma_clear_settles(entry, options, status, operations, world);
            lemma_changes_are_asked_for(entry, NodeKind::File);
            if missing && !options.dry_run {
                lemma_settles_ask(
                    entry,
                    options,
                    world,
                    InstallStateView::ParentMade { status, directory, operations },
                    if creation_fault(entry, world) is Some {
                        none
                    } else {
                        changes_at(entry, conflict, world)
                    },
                    end,
                );
            }
            lemma_settles_ask(
                entry,
                options,
                world,
                InstallStateView::Parent { status, directory },
                changes,
                end,
            );
        }
    }
}

proof fn lemma_follow_settles(
    entry: EntryView,
    options: InstallOptions,
    world: World,
    step: StatusStepView,
    count: nat,
    result: Result<EntryStatus, ErrorView>,
)
    requires
        step matches StatusStepView::Ask { request, state } ==> request == status::status_request(
            entry,
            state,
        ),
        statuses::status_after(entry, world, step, count) == StatusStepView::Done(result),
    ensures
        settles(
            entry,
            options,
            world,
            install::follow_status(entry, options, step),
            match result {
                Ok(status) => decided_changes(entry, options, status, world),
                Err(_) => Seq::empty(),
            },
            match result {
                Ok(status) => decided_in(entry, options, status, world),
                Err(error) => Err(error),
            },
        ),
    decreases count,
{
    let changes = match result {
        Ok(status) => decided_changes(entry, options, status, world),
        Err(_) => Seq::empty(),
    };
    let end = match result {
        Ok(status) => decided_in(entry, options, status, world),
        Err(error) => Err(error),
    };
    match step {
        StatusStepView::Done(_) => {
            lemma_settles_done(entry, options, world, end);
            if let Ok(status) = result {
                lemma_decide_settles(entry, options, status, world);
            }
        },
        StatusStepView::Ask { request, state } => {
            let next = status::status_next(entry, state, world(request));
            lemma_follow_settles(entry, options, world, next, (count - 1) as nat, result);
            lemma_settles_ask(
                entry,
                options,
                world,
                InstallStateView::Status { state },
                changes,
                end,
            );
        },
    }
}

proof fn lemma_install_settles(entry: EntryView, options: InstallOptions, world: World)
    ensures
        settles(
            entry,
            options,
            world,
            install::install_begin(entry),
            changes_in(entry, options, world),
            installed_in(entry, options, world),
        ),
{
    let changes = changes_in(entry, options, world);
    let end = installed_in(entry, options, world);
    let present = statuses::source_present(entry, world);
    lemma_settles_done(entry, options, world, end);
    if entry::form_fault(entry) is None {
        if entry::entry_fault(entry, present) is None {
            statuses::law_status_ends(entry, world);
            lemma_follow_settles(
                entry,
                options,
                world,
                status::status_begin(entry),
                6,
                statuses::status_in(entry, world),
            );
        }
        lemma_settles_ask(entry, options, world, InstallStateView::Source, changes, end);
    }
}

/// An installation ends, in a system that stands still, with what the status of the target, the
/// options and the answers of the system make of it.
pub proof fn law_install_ends(entry: EntryView, options: InstallOptions, world: World)
    ensures
        exists|count: nat|
            #[trigger] install_settled(
                entry,
                options,
                world,
                install::install_begin(entry),
                count,
            ) == InstallStepView::Done(installed_in(entry, options, world)),
{
    lemma_install_settles(entry, options, world);
}

/// The changes that an installation asks for until it ends, in a system that stands still, are
/// these and no others, in this order.
pub proof fn law_changes_of_an_installation(
    entry: EntryView,
    options: InstallOptions,
    world: World,
)
    ensures
        exists|count: nat|
            #[trigger] install_settled(
                entry,
                options,
                world,
                install::install_begin(entry),
                count,
            ) is Done && asked_changes(
                entry,
                options,
                world,
                install::install_begin(entry),
                count,
            ) == changes_in(entry, options, world),
{
    lemma_install_settles(entry, options, world);
}

/// Whether a system makes every change that it is asked for.
pub open spec fn obliging(world: World) -> bool {
    forall|request: RequestView|
        #![trigger world(request)]
        request.changes() ==> if request is Run {
            world(request) == ReplyView::Exit(Ok(Some(0i32)))
        } else {
            world(request) == ReplyView::Done(Ok(()))
        }
}

/// A dry run foretells: it reports the operations of every installation that succeeds. Where the
/// system makes every change, it reports the errors as well.
pub proof fn law_dry_run_foretells(entry: EntryView, force: bool, world: World)
    ensures
        ({
            let foretold = installed_in(entry, InstallOptions { dry_run: true, force }, world);
            let actual = installed_in(entry, InstallOptions { dry_run: false, force }, world);
            &&& actual is Ok ==> foretold == actual
            &&& obliging(world) ==> foretold == actual
        }),
{
}

/// Whether a file stands at a target with the content of another, as far as both can be read.
pub open spec fn copy_stands(source: Seq<u8>, target: Seq<u8>, world: World) -> bool {
    &&& world(RequestView::Inspect(target))->Metadata_0 matches Ok(metadata) && metadata.kind
        == NodeKind::File
    &&& world(RequestView::FileSize(source))->Size_0 matches Ok(wanted) ==> (world(
        RequestView::FileSize(target),
    )->Size_0 matches Ok(length) ==> length == wanted)
    &&& world(RequestView::ReadBytes(source))->Bytes_0 matches Ok(wanted) ==> (world(
        RequestView::ReadBytes(target),
    )->Bytes_0 matches Ok(content) ==> content == wanted)
}

/// Whether the permissions of what stands at a target are these.
pub open spec fn mode_stands(target: Seq<u8>, mode: u32, world: World) -> bool {
    world(RequestView::Inspect(target))->Metadata_0 matches Ok(metadata) && metadata.mode & 0o7777
        == mode & 0o7777
}

/// Whether root owns what stands at a target.
pub open spec fn root_owns(target: Seq<u8>, world: World) -> bool {
    world(RequestView::Inspect(target))->Metadata_0 matches Ok(metadata) && metadata.uid == 0
        && metadata.gid == 0
}

/// Whether what a request puts somewhere stands there: a link, a copy, permissions, or all that
/// `install` is told. Of other requests this says nothing.
pub open spec fn stands(request: RequestView, world: World) -> bool {
    match request {
        RequestView::MakeLink { source, target } => {
            &&& world(RequestView::Inspect(target))->Metadata_0 matches Ok(metadata)
                && metadata.kind == NodeKind::Symlink
            &&& world(RequestView::ReadLink(target))->Path_0 == Ok::<_, IoErrorView>(source)
        },
        RequestView::CopyFile { source, target } => copy_stands(source, target, world),
        RequestView::SetMode { target, mode } => mode_stands(target, mode, world),
        RequestView::Run { program, arguments } => forall|
            source: Seq<u8>,
            target: Seq<u8>,
            mode: u32,
        |
            request == #[trigger] install::sudo_file(source, target, mode) ==> copy_stands(
                source,
                target,
                world,
            ) && mode_stands(target, mode, world) && root_owns(target, world),
        _ => true,
    }
}

/// Whether all that some requests put somewhere stands there.
pub open spec fn all_stand(requests: Seq<RequestView>, world: World) -> bool {
    forall|i: int| 0 <= i < requests.len() ==> stands(#[trigger] requests[i], world)
}

/// Whether replies are those that a system that stands still gives.
pub open spec fn all_answered(
    requests: Seq<RequestView>,
    replies: Seq<ReplyView>,
    world: World,
) -> bool {
    forall|i: int|
        0 <= i < requests.len() && i < replies.len() ==> replies[i] == world(
            #[trigger] requests[i],
        )
}

/// Whether the length and the content of a file can be read.
pub open spec fn readable(file: Seq<u8>, world: World) -> bool {
    &&& world(RequestView::FileSize(file))->Size_0 is Ok
    &&& world(RequestView::ReadBytes(file))->Bytes_0 is Ok
}

/// A run on the replies of a system that stands still is the run in that system.
proof fn lemma_answered_run(
    entry: EntryView,
    options: InstallOptions,
    step: InstallStepView,
    replies: Seq<ReplyView>,
    world: World,
)
    requires
        all_answered(install_trace(entry, options, step, replies), replies, world),
    ensures
        install_settled(entry, options, world, step, replies.len()) == install_after(
            entry,
            options,
            step,
            replies,
        ),
    decreases replies.len(),
{
    if let InstallStepView::Ask { request, state } = step {
        if replies.len() > 0 {
            let trace = install_trace(entry, options, step, replies);
            let next = install::install_next(entry, options, state, replies[0]);
            let others = replies.drop_first();
            let rest = install_trace(entry, options, next, others);
            assert(trace == seq![request] + rest);
            assert(trace[0] == request);
            assert forall|i: int| 0 <= i < rest.len() && i < others.len() implies others[i]
                == world(#[trigger] rest[i]) by {
                assert(trace[i + 1] == rest[i]);
                assert(replies[i + 1] == others[i]);
            }
            lemma_answered_run(entry, options, next, others, world);
        }
    }
}

/// A run in a system that stands still has one end.
proof fn lemma_one_end(
    entry: EntryView,
    options: InstallOptions,
    world: World,
    step: InstallStepView,
    first: nat,
    second: nat,
)
    requires
        install_settled(entry, options, world, step, first) is Done,
        install_settled(entry, options, world, step, second) is Done,
    ensures
        install_settled(entry, options, world, step, first) == install_settled(
            entry,
            options,
            world,
            step,
            second,
        ),
    decreases first,
{
    if let InstallStepView::Ask { request, state } = step {
        lemma_one_end(
            entry,
            options,
            world,
            install::install_next(entry, options, state, world(request)),
            (first - 1) as nat,
            (second - 1) as nat,
        );
    }
}

/// An installation that succeeded is followed by the status in place, whatever the status was
/// before. Of the system afterwards this supposes that what was put somewhere stands there, that
/// it answers as before where nothing was changed, that the source is still there, and that both
/// files can be read. The source of a link has to be absolute, as every loaded source is. Where
/// anything was done for a link, the link reads as the source.
pub proof fn law_install_then_status(
    entry: EntryView,
    options: InstallOptions,
    replies: Seq<ReplyView>,
    operations: Seq<Seq<char>>,
    world: World,
)
    requires
        !options.dry_run,
        whole_run(entry, options, replies) == InstallStepView::Done(Ok(operations)),
        all_stand(whole_trace(entry, options, replies), world),
        changes_nothing(whole_trace(entry, options, replies)) ==> all_answered(
            whole_trace(entry, options, replies),
            replies,
            world,
        ),
        statuses::source_present(entry, world),
        !(entry is Link) ==> readable(entry.source(), world) && readable(entry.target(), world),
        entry is Link ==> path::is_absolute(entry.source()),
    ensures
        statuses::status_in(entry, world) == Ok::<EntryStatus, ErrorView>(EntryStatus::InPlace),
        entry is Link && operations.len() > 0 ==> world(
            RequestView::ReadLink(entry.target()),
        )->Path_0 == Ok::<_, IoErrorView>(entry.source()),
{
    let begin = install::install_begin(entry);
    let trace = whole_trace(entry, options, replies);
    if operations.len() == 0 {
        assert(operations =~= Seq::empty());
        law_nothing_reported_means_nothing_changed(entry, options, replies);
        lemma_answered_run(entry, options, begin, replies, world);
        law_install_ends(entry, options, world);
        let count = choose|count: nat|
            #[trigger] install_settled(entry, options, world, begin, count)
                == InstallStepView::Done(installed_in(entry, options, world));
        lemma_one_end(entry, options, world, begin, replies.len(), count);
        assert(installed_in(entry, options, world) == Ok::<Seq<Seq<char>>, ErrorView>(operations));
    } else {
        law_install_ends_in_place(entry, options, replies);
        assert(entry::form_fault(entry) is None);
        assert(stands(trace[trace.len() - 1], world));
        if !(entry is Link) {
            let mode = entry.mode()->0;
            entries::law_allowed_modes(mode);
            if entry.uses_sudo() {
                assert(last_request(entry) == install::sudo_file(
                    entry.source(),
                    entry.target(),
                    mode,
                ));
            } else {
                assert(stands(trace[trace.len() - 2], world));
            }
        }
        statuses::law_installed_is_in_place(entry, world);
    }
}

/// An entry that is in place is left alone; a conflict without force is refused; everything else
/// is installed where the system makes every change and nothing that is in the way has to stay.
pub proof fn law_install_by_status(entry: EntryView, options: InstallOptions, world: World)
    ensures
        statuses::status_in(entry, world) == Ok::<EntryStatus, ErrorView>(EntryStatus::InPlace)
            ==> installed_in(entry, options, world) == Ok::<Seq<Seq<char>>, ErrorView>(
            Seq::empty(),
        ),
        statuses::status_in(entry, world) == Ok::<EntryStatus, ErrorView>(EntryStatus::Conflict)
            && !options.force ==> installed_in(entry, options, world) == Err::<
            Seq<Seq<char>>,
            ErrorView,
        >(ErrorView::Conflict(entry.target())),
        obliging(world) && (statuses::status_in(entry, world) matches Ok(status) && status
            != EntryStatus::InPlace && (status == EntryStatus::Conflict ==> options.force
            && obstacle(entry, world) is None)) ==> (installed_in(
            entry,
            options,
            world,
        ) matches Ok(operations) && operations.len() > 0 && operations.last()
            == install::placing_text(entry)),
{
    if let Ok(status) = statuses::status_in(entry, world) {
        assert(entry::target_fault(entry.target()) is None);
        entries::law_valid_target_has_parent(entry.target());
    }
}

/// How the operations of an installation read.
pub proof fn law_operations(entry: EntryView, options: InstallOptions, world: World)
    ensures
        ({
            let source = text::lossy_text(entry.source());
            let target = text::lossy_text(entry.target());
            let directory = path::parent(entry.target())->0;
            let created = "create directory "@ + text::lossy_text(directory);
            let removed = "remove conflicting "@ + target;
            let placed = if entry is Link {
                "link "@ + target + " -> "@ + source
            } else {
                "install "@ + source + " -> "@ + target + " (mode "@ + text::mode_text(
                    entry.mode()->0,
                ) + ")"@
            };
            let status = statuses::status_in(entry, world)->Ok_0;
            installed_in(entry, options, world) matches Ok(operations) ==> if status is InPlace {
                operations.len() == 0
            } else {
                let missing = !world(RequestView::Exists(directory))->Flag_0;
                &&& missing && status is Conflict ==> operations == seq![created, removed, placed]
                &&& missing && !(status is Conflict) ==> operations == seq![created, placed]
                &&& !missing && status is Conflict ==> operations == seq![removed, placed]
                &&& !missing && !(status is Conflict) ==> operations == seq![placed]
            }
        }),
{
    if let Ok(operations) = installed_in(entry, options, world) {
        let status = statuses::status_in(entry, world)->Ok_0;
        if !(status is InPlace) {
            let directory = path::parent(entry.target())->0;
            let missing = !world(RequestView::Exists(directory))->Flag_0;
            let created = install::directory_text(directory);
            let removed = install::removal_text(entry.target());
            let placed = install::placing_text(entry);
            assert(operations == planned_operations(entry, missing, status is Conflict));
            assert(planned_operations(entry, true, true) =~= seq![created, removed, placed]);
            assert(planned_operations(entry, true, false) =~= seq![created, placed]);
            assert(planned_operations(entry, false, true) =~= seq![removed, placed]);
            assert(planned_operations(entry, false, false) =~= seq![placed]);
        }
    }
}

/// Whether a request removes something: by the system, or by a command of root of three words.
pub open spec fn is_removal(request: RequestView) -> bool {
    request is RemoveDirectory || request is RemoveFile || (request is Run
        && request->arguments.len() == 3)
}

/// Whether a removal fits what the system said stands at the target: a directory is removed as
/// such, anything else as a file.
pub open spec fn removal_fits(
    entry: EntryView,
    asked: RequestView,
    reply: ReplyView,
    request: RequestView,
) -> bool {
    &&& asked == RequestView::Inspect(entry.target())
    &&& reply->Metadata_0 matches Ok(metadata) && if entry.uses_sudo() {
        request == (RequestView::Run {
            program: "/usr/bin/sudo"@,
            arguments: seq![
                if metadata.kind is Directory {
                    word("/usr/bin/rmdir"@)
                } else {
                    word("/usr/bin/rm"@)
                },
                word("--"@),
                entry.target(),
            ],
        })
    } else if metadata.kind is Directory {
        request == RequestView::RemoveDirectory(entry.target())
    } else {
        request == RequestView::RemoveFile(entry.target())
    }
}

proof fn lemma_only_removed_removes(
    entry: EntryView,
    options: InstallOptions,
    step: InstallStepView,
)
    requires
        sound(entry, options, step),
        step is Ask,
        is_removal(step->request),
    ensures
        step->state is Removed,
{
    if step->state is ParentMade && entry.uses_sudo() {
        assert(install::sudo_directory(path::parent(entry.target())->0)->arguments.len() == 10);
    }
    if step->state is Installed {
        assert(install::sudo_file(
            entry.source(),
            entry.target(),
            entry.mode()->0,
        )->arguments.len() == 10);
    }
}

/// What is removed was looked at just before.
proof fn lemma_removed_follows_look(
    entry: EntryView,
    options: InstallOptions,
    state: InstallStateView,
    reply: ReplyView,
)
    requires
        sound_state(entry, options, state),
        install::install_next(entry, options, state, reply) matches InstallStepView::Ask {
            request,
            state: next,
        } && next is Removed,
    ensures
        removal_fits(
            entry,
            install::install_request(entry, state),
            reply,
            install::install_next(entry, options, state, reply)->request,
        ),
{
    assert(state is Remove);
    let metadata = reply->Metadata_0->Ok_0;
    lemma_changes_are_asked_for(entry, metadata.kind);
    assert(install::install_next(entry, options, state, reply)->request == clearance(
        entry,
        metadata.kind,
    ));
}

#[verifier::rlimit(60)]
proof fn lemma_removal_fits(
    entry: EntryView,
    options: InstallOptions,
    step: InstallStepView,
    replies: Seq<ReplyView>,
    at: int,
)
    requires
        sound(entry, options, step),
        !(step is Ask && step->state is Removed),
        0 <= at < install_trace(entry, options, step, replies).len(),
        is_removal(install_trace(entry, options, step, replies)[at]),
    ensures
        0 < at <= replies.len(),
        removal_fits(
            entry,
            install_trace(entry, options, step, replies)[at - 1],
            replies[at - 1],
            install_trace(entry, options, step, replies)[at],
        ),
    decreases replies.len(),
{
    let trace = install_trace(entry, options, step, replies);
    if at == 0 {
        assert(trace[0] == step->request);
        lemma_only_removed_removes(entry, options, step);
    } else {
        let others = replies.drop_first();
        let next = install::install_next(entry, options, step->state, replies[0]);
        let rest = install_trace(entry, options, next, others);
        assert(trace == seq![step->request] + rest);
        assert(trace[at] == rest[at - 1]);
        assert(trace[0] == step->request);
        lemma_sound_next(entry, options, step->state, replies[0]);
        if next is Ask && next->state is Removed {
            if at == 1 {
                assert(rest[0] == next->request);
                lemma_removed_follows_look(entry, options, step->state, replies[0]);
            } else {
                let after = install::install_next(entry, options, next->state, others[0]);
                let tail = install_trace(entry, options, after, others.drop_first());
                assert(rest == seq![next->request] + tail);
                assert(rest[at - 1] == tail[at - 2]);
                lemma_sound_next(entry, options, next->state, others[0]);
                lemma_removal_fits(entry, options, after, others.drop_first(), at - 2);
                assert(trace[at - 1] == tail[at - 3]);
                assert(replies[at - 1] == others.drop_first()[at - 3]);
            }
        } else {
            lemma_removal_fits(entry, options, next, others, at - 1);
            assert(trace[at - 1] == rest[at - 2]);
            assert(replies[at - 1] == others[at - 2]);
        }
    }
}

/// Whatever the system answers, a removal comes right after a look at the target, and fits what
/// the system then said: a directory is removed as a directory, and anything else as a file.
pub proof fn law_removal_fits_what_stands(
    entry: EntryView,
    options: InstallOptions,
    replies: Seq<ReplyView>,
    at: int,
)
    requires
        0 <= at < whole_trace(entry, options, replies).len(),
        is_removal(whole_trace(entry, options, replies)[at]),
    ensures
        0 < at <= replies.len(),
        removal_fits(
            entry,
            whole_trace(entry, options, replies)[at - 1],
            replies[at - 1],
            whole_trace(entry, options, replies)[at],
        ),
{
    lemma_sound_begin(entry, options);
    lemma_removal_fits(entry, options, install::install_begin(entry), replies, at);
}

/// What a failed change is reported as: the reason of the system, or the program of root with its
/// exit code, which is none where a signal ended it.
pub open spec fn is_failure(request: RequestView, reply: ReplyView, error: ErrorView) -> bool {
    if request is Run {
        match reply->Exit_0 {
            Err(refused) => error == ErrorView::Io(refused),
            Ok(code) => code != Some(0i32) && (error matches ErrorView::CommandFailed {
                program,
                code: shown,
            } && shown == code && word(program) == request->arguments[0]),
        }
    } else {
        reply->Done_0 is Err && error == ErrorView::Io(reply->Done_0->Err_0)
    }
}

#[verifier::rlimit(60)]
proof fn lemma_change_reply(
    entry: EntryView,
    options: InstallOptions,
    state: InstallStateView,
    reply: ReplyView,
)
    requires
        sound_state(entry, options, state),
        install::install_request(entry, state).changes(),
    ensures
        ({
            let request = install::install_request(entry, state);
            let next = install::install_next(entry, options, state, reply);
            &&& succeeded(request, reply) <==> !(next is Done && next->Done_0 is Err)
            &&& !succeeded(request, reply) ==> is_failure(request, reply, next->Done_0->Err_0)
        }),
{
    match state {
        InstallStateView::ParentMade { status, directory, operations } => {
            if entry.uses_sudo() {
                assert(install::sudo_directory(directory)->arguments[0] == word(
                    "/usr/bin/install"@,
                ));
            }
        },
        InstallStateView::Removed { is_directory, operations } => {
            if entry.uses_sudo() {
                let program = install::removal_program(is_directory);
                assert(install::sudo(program, seq![word("--"@), entry.target()])->arguments[0]
                    == word(program));
            }
        },
        InstallStateView::Installed { mode, operations } => {
            assert(install::sudo_file(entry.source(), entry.target(), mode)->arguments[0] == word(
                "/usr/bin/install"@,
            ));
        },
        _ => {},
    }
}

#[verifier::rlimit(60)]
proof fn lemma_failure_ends(
    entry: EntryView,
    options: InstallOptions,
    step: InstallStepView,
    replies: Seq<ReplyView>,
    at: int,
)
    requires
        sound(entry, options, step),
        0 <= at < install_trace(entry, options, step, replies).len(),
        at < replies.len(),
        install_trace(entry, options, step, replies)[at].changes(),
    ensures
        ({
            let trace = install_trace(entry, options, step, replies);
            let run = install_after(entry, options, step, replies);
            &&& !succeeded(trace[at], replies[at]) ==> trace.len() == at + 1 && (run matches
                InstallStepView::Done(Err(error)) && is_failure(trace[at], replies[at], error))
            &&& succeeded(trace[at], replies[at]) && trace.len() == at + 1 ==> run is Done
                && run->Done_0 is Ok
        }),
    decreases replies.len(),
{
    let trace = install_trace(entry, options, step, replies);
    let others = replies.drop_first();
    let next = install::install_next(entry, options, step->state, replies[0]);
    let rest = install_trace(entry, options, next, others);
    assert(trace == seq![step->request] + rest);
    assert(trace[0] == step->request);
    if at == 0 {
        lemma_change_reply(entry, options, step->state, replies[0]);
        if next is Done {
            assert(rest.len() == 0);
        } else {
            assert(rest.len() > 0);
        }
    } else {
        assert(trace[at] == rest[at - 1]);
        assert(replies[at] == others[at - 1]);
        lemma_sound_next(entry, options, step->state, replies[0]);
        lemma_failure_ends(entry, options, next, others, at - 1);
    }
}

/// Whatever the system answers, a change that fails ends the installation, with what went wrong
/// and nothing else asked for. A change that succeeds does not end it but with success.
pub proof fn law_failed_change_ends(
    entry: EntryView,
    options: InstallOptions,
    replies: Seq<ReplyView>,
    at: int,
)
    requires
        0 <= at < whole_trace(entry, options, replies).len(),
        at < replies.len(),
        whole_trace(entry, options, replies)[at].changes(),
    ensures
        ({
            let trace = whole_trace(entry, options, replies);
            let run = whole_run(entry, options, replies);
            &&& !succeeded(trace[at], replies[at]) ==> trace.len() == at + 1 && (run matches
                InstallStepView::Done(Err(error)) && is_failure(trace[at], replies[at], error))
            &&& succeeded(trace[at], replies[at]) && trace.len() == at + 1 ==> run is Done
                && run->Done_0 is Ok
        }),
{
    lemma_sound_begin(entry, options);
    lemma_failure_ends(entry, options, install::install_begin(entry), replies, at);
}

/// How outcomes are judged: a change by whether the system refused it, a program by whether it
/// ended with the code zero, and a directory in the way by whether it holds anything.
pub proof fn law_outcomes(
    program: Seq<char>,
    code: Option<i32>,
    refused: IoErrorView,
    directory: Seq<u8>,
)
    ensures
        install::done_fault(Ok(())) is None,
        install::done_fault(Err(refused)) == Some(ErrorView::Io(refused)),
        install::exit_fault(program, Err(refused)) == Some(ErrorView::Io(refused)),
        code == Some(0i32) ==> install::exit_fault(program, Ok(code)) is None,
        code != Some(0i32) ==> install::exit_fault(program, Ok(code)) == Some(
            ErrorView::CommandFailed { program, code },
        ),
        install::occupied_fault(directory, false) is None,
        install::occupied_fault(directory, true) == Some(
            ErrorView::Invalid(
                "refusing to remove non-empty directory: "@ + text::lossy_text(directory),
            ),
        ),
{
}

} // verus!
