//! Laws of a session that installs, whatever the system answers and however it changes.
use vstd::prelude::*;

use crate::entry::EntryStatus;
use crate::entry::EntryView;
use crate::entry::InstallOptions;
use crate::install;
use crate::install::InstallStepView;
use crate::laws::installs;
use crate::laws::loads;
use crate::laws::sessions;
use crate::laws::statuses;
use crate::load;
use crate::load::LoadStateView;
use crate::load::LoadStepView;
use crate::request::ReplyView;
use crate::request::RequestView;
use crate::session;
use crate::session::Command;
use crate::session::PlanView;
use crate::session::SessionStateView;
use crate::session::SessionStepView;
use crate::status;
use crate::status::StatusStepView;

verus! {

/// A session after some replies, whatever they are.
pub open spec fn session_after(step: SessionStepView, replies: Seq<ReplyView>) -> SessionStepView
    decreases replies.len(),
{
    match step {
        SessionStepView::Ask { request, state } => if replies.len() == 0 {
            step
        } else {
            session_after(session::session_next(state, replies[0]), replies.drop_first())
        },
        _ => step,
    }
}

/// The configuration file that a session loads, and the replies from there on.
pub open spec fn loading_from(step: SessionStepView, replies: Seq<ReplyView>) -> Option<
    (Seq<u8>, Seq<ReplyView>),
>
    decreases replies.len(),
{
    match step {
        SessionStepView::Ask { request, state } => match state {
            SessionStateView::Load { command, config, state: LoadStateView::Text } => Some(
                (config, replies),
            ),
            _ => if replies.len() == 0 {
                None
            } else {
                loading_from(session::session_next(state, replies[0]), replies.drop_first())
            },
        },
        _ => None,
    }
}

/// The entries that a session goes on to install.
pub open spec fn loaded_entries(step: SessionStepView, replies: Seq<ReplyView>) -> Option<
    Seq<EntryView>,
>
    decreases replies.len(),
{
    match step {
        SessionStepView::Ask { request, state } => match state {
            SessionStateView::User { options, entries } => Some(entries),
            _ => if replies.len() == 0 {
                None
            } else {
                loaded_entries(session::session_next(state, replies[0]), replies.drop_first())
            },
        },
        _ => None,
    }
}

/// Whether requests and replies start with the whole installation of an entry, which succeeds,
/// and the lines on what it did.
pub open spec fn installs_first(
    options: InstallOptions,
    entry: EntryView,
    requests: Seq<RequestView>,
    replies: Seq<ReplyView>,
    count: int,
) -> bool {
    &&& 0 <= count < replies.len()
    &&& count < requests.len()
    &&& requests.take(count) == installs::whole_trace(entry, options, replies.take(count))
    &&& installs::whole_run(entry, options, replies.take(count)) matches InstallStepView::Done(
        Ok(operations),
    ) && requests[count] == RequestView::Print(
        session::operation_lines(options.dry_run, operations),
    )
}

/// Whether requests and replies are the installations of entries, one after the other, and
/// nothing else.
pub open spec fn installs_in_order(
    options: InstallOptions,
    entries: Seq<EntryView>,
    requests: Seq<RequestView>,
    replies: Seq<ReplyView>,
) -> bool
    decreases entries.len(),
{
    if entries.len() == 0 {
        requests.len() == 0
    } else {
        exists|count: int|
            #[trigger] installs_first(options, entries[0], requests, replies, count)
                && installs_in_order(
                options,
                entries.drop_first(),
                requests.skip(count + 1),
                replies.skip(count + 1),
            )
    }
}

/// Whether the system was asked to put an entry in place, and said that this was done.
pub open spec fn placed(
    entry: EntryView,
    requests: Seq<RequestView>,
    replies: Seq<ReplyView>,
) -> bool {
    exists|at: int|
        0 <= at < requests.len() && at < replies.len() && #[trigger] requests[at]
            == installs::last_request(entry) && installs::succeeded(requests[at], replies[at])
}

/// Whether some of the requests and replies are a comparison of an entry that ends with the status
/// in place.
pub open spec fn compared_in_place(
    entry: EntryView,
    requests: Seq<RequestView>,
    replies: Seq<ReplyView>,
    from: int,
    to: int,
) -> bool {
    &&& 0 <= from <= to <= requests.len()
    &&& to <= replies.len()
    &&& statuses::status_replied(entry, status::status_begin(entry), replies.subrange(from, to))
        == StatusStepView::Done(Ok(EntryStatus::InPlace))
    &&& requests.subrange(from, to) == statuses::status_trace(
        entry,
        status::status_begin(entry),
        replies.subrange(from, to),
    )
}

/// Whether an entry was put in place, or found there.
pub open spec fn settled(
    entry: EntryView,
    requests: Seq<RequestView>,
    replies: Seq<ReplyView>,
) -> bool {
    ||| placed(entry, requests, replies)
    ||| exists|from: int, to: int| compared_in_place(entry, requests, replies, from, to)
}

/// Whether a session goes over into a later step after some replies.
spec fn passes(
    step: SessionStepView,
    replies: Seq<ReplyView>,
    count: int,
    later: SessionStepView,
) -> bool {
    &&& 0 <= count <= replies.len()
    &&& count <= sessions::session_trace(step, replies).len()
    &&& session_after(step, replies) == session_after(later, replies.skip(count))
    &&& sessions::session_trace(step, replies).skip(count) == sessions::session_trace(
        later,
        replies.skip(count),
    )
}

proof fn lemma_passes_here(step: SessionStepView, replies: Seq<ReplyView>)
    ensures
        passes(step, replies, 0, step),
{
    let trace = sessions::session_trace(step, replies);
    assert(replies.skip(0) =~= replies);
    assert(trace.skip(0) =~= trace);
}

proof fn lemma_passes_step(
    step: SessionStepView,
    replies: Seq<ReplyView>,
    count: int,
    later: SessionStepView,
)
    requires
        step is Ask,
        replies.len() > 0,
        passes(
            session::session_next(step->state, replies[0]),
            replies.drop_first(),
            count,
            later,
        ),
    ensures
        passes(step, replies, count + 1, later),
{
    let others = replies.drop_first();
    let next = session::session_next(step->state, replies[0]);
    let rest = sessions::session_trace(next, others);
    lemma_first_reply(step, replies);
    assert(replies.skip(count + 1) =~= others.skip(count));
    lemma_skip_after_first(step->request, rest, count);
}

proof fn lemma_first_reply(step: SessionStepView, replies: Seq<ReplyView>)
    requires
        step is Ask,
        replies.len() > 0,
    ensures
        session_after(step, replies) == session_after(
            session::session_next(step->state, replies[0]),
            replies.drop_first(),
        ),
        sessions::session_trace(step, replies) == seq![step->request] + sessions::session_trace(
            session::session_next(step->state, replies[0]),
            replies.drop_first(),
        ),
{
}

proof fn lemma_skip_after_first(request: RequestView, rest: Seq<RequestView>, count: int)
    requires
        0 <= count <= rest.len(),
    ensures
        (seq![request] + rest).skip(count + 1) == rest.skip(count),
{
    assert((seq![request] + rest).skip(count + 1) =~= rest.skip(count));
}

/// Whether a session compares all targets before it installs, or has just done so.
spec fn surveying(options: InstallOptions, all: Seq<EntryView>, step: SessionStepView) -> bool {
    match step {
        SessionStepView::Ask {
            request,
            state: SessionStateView::Survey { options: o, surveyed, current, rest, state },
        } => o == options && surveyed.push(current) + rest == all,
        SessionStepView::Fail(_) => true,
        _ => step == session::install_take(options, all),
    }
}

proof fn lemma_surveying_take(
    options: InstallOptions,
    surveyed: Seq<EntryView>,
    rest: Seq<EntryView>,
)
    ensures
        surveying(options, surveyed + rest, session::survey_take(options, surveyed, rest)),
{
    let all = surveyed + rest;
    if rest.len() == 0 {
        assert(all =~= surveyed);
        let step = session::install_take(options, surveyed);
        if step is Ask {
            assert(step->state is Install);
        }
    } else {
        assert(surveyed.push(rest[0]) + rest.drop_first() =~= all);
    }
}

proof fn lemma_survey_passes(
    options: InstallOptions,
    all: Seq<EntryView>,
    step: SessionStepView,
    replies: Seq<ReplyView>,
) -> (count: int)
    requires
        surveying(options, all, step),
        session_after(step, replies) is Exit,
    ensures
        passes(step, replies, count, session::install_take(options, all)),
    decreases replies.len(),
{
    if step == session::install_take(options, all) {
        lemma_passes_here(step, replies);
        0
    } else {
        let next = session::session_next(step->state, replies[0]);
        if let SessionStateView::Survey { options: o, surveyed, current, rest, state } =
            step->state {
            lemma_surveying_take(options, surveyed.push(current), rest);
            assert(surveying(options, all, next));
        }
        let count = lemma_survey_passes(options, all, next, replies.drop_first());
        lemma_passes_step(step, replies, count, session::install_take(options, all));
        count + 1
    }
}

/// Whether a session that is to install has not loaded its entries yet, or just has.
spec fn preparing(options: InstallOptions, step: SessionStepView) -> bool {
    match step {
        SessionStepView::Ask { request, state } => match state {
            SessionStateView::Directory { command } => command == Command::Install(options),
            SessionStateView::Search { command, start, state } => command == Command::Install(
                options,
            ),
            SessionStateView::Load { command, config, state } => command == Command::Install(
                options,
            ),
            SessionStateView::User { options: o, entries } => o == options,
            _ => false,
        },
        SessionStepView::Fail(_) => true,
        SessionStepView::Exit(_) => false,
    }
}

proof fn lemma_preparation_passes(
    options: InstallOptions,
    step: SessionStepView,
    replies: Seq<ReplyView>,
) -> (count: int)
    requires
        preparing(options, step),
        session_after(step, replies) is Exit,
    ensures
        loaded_entries(step, replies) matches Some(entries) && passes(
            step,
            replies,
            count,
            session::install_take(options, entries),
        ),
    decreases replies.len(),
{
    let others = replies.drop_first();
    let next = session::session_next(step->state, replies[0]);
    if let SessionStateView::User { options: o, entries } = step->state {
        lemma_surveying_take(options, Seq::empty(), entries);
        assert(Seq::<EntryView>::empty() + entries =~= entries);
        let count = lemma_survey_passes(options, entries, next, others);
        lemma_passes_step(step, replies, count, session::install_take(options, entries));
        count + 1
    } else {
        let count = lemma_preparation_passes(options, next, others);
        let entries = loaded_entries(next, others)->0;
        lemma_passes_step(step, replies, count, session::install_take(options, entries));
        count + 1
    }
}

/// The entries that a session goes on with are those that loading came to.
proof fn lemma_loaded(
    options: InstallOptions,
    config: Seq<u8>,
    step: LoadStepView,
    replies: Seq<ReplyView>,
)
    requires
        loaded_entries(
            session::follow_load(Command::Install(options), config, step),
            replies,
        ) is Some,
    ensures
        loads::load_after(config, step, replies) == LoadStepView::Done(
            Ok(
                loaded_entries(
                    session::follow_load(Command::Install(options), config, step),
                    replies,
                )->0,
            ),
        ),
    decreases replies.len(),
{
    if let LoadStepView::Ask { request, state } = step {
        let next = load::load_next(config, state, replies[0]);
        lemma_loaded(options, config, next, replies.drop_first());
    }
}

/// Whether loading has not got further than its start.
spec fn before_loading(options: InstallOptions, step: SessionStepView) -> bool {
    match step {
        SessionStepView::Ask { request, state } => match state {
            SessionStateView::Directory { command } => command == Command::Install(options),
            SessionStateView::Search { command, start, state } => command == Command::Install(
                options,
            ),
            SessionStateView::Load { command, config, state } => step == session::load_config(
                Command::Install(options),
                config,
            ),
            _ => false,
        },
        SessionStepView::Fail(_) => true,
        SessionStepView::Exit(_) => false,
    }
}

proof fn lemma_loaded_from_file(
    options: InstallOptions,
    step: SessionStepView,
    replies: Seq<ReplyView>,
)
    requires
        before_loading(options, step),
        loaded_entries(step, replies) is Some,
    ensures
        loading_from(step, replies) matches Some((file, rest)) && loads::load_after(
            file,
            load::load_ask(file, LoadStateView::Text),
            rest,
        ) == LoadStepView::Done(Ok(loaded_entries(step, replies)->0)),
    decreases replies.len(),
{
    if let SessionStateView::Load { command, config, state } = step->state {
        lemma_loaded(options, config, load::load_ask(config, LoadStateView::Text), replies);
    } else {
        let next = session::session_next(step->state, replies[0]);
        lemma_loaded_from_file(options, next, replies.drop_first());
    }
}

/// An installation within a session that comes to its end is a whole installation, and the session
/// then prints what was done and goes on with the other entries.
#[verifier::rlimit(60)]
proof fn lemma_installation_passes(
    options: InstallOptions,
    current: EntryView,
    rest: Seq<EntryView>,
    step: InstallStepView,
    replies: Seq<ReplyView>,
) -> (count: int)
    requires
        session_after(session::follow_install(options, current, rest, step), replies) is Exit,
    ensures
        ({
            let begin = session::follow_install(options, current, rest, step);
            let trace = sessions::session_trace(begin, replies);
            &&& 0 <= count < replies.len()
            &&& count < trace.len()
            &&& trace.take(count) == installs::install_trace(
                current,
                options,
                step,
                replies.take(count),
            )
            &&& installs::install_after(current, options, step, replies.take(count)) matches
                InstallStepView::Done(Ok(operations)) && trace[count] == RequestView::Print(
                session::operation_lines(options.dry_run, operations),
            )
            &&& passes(begin, replies, count + 1, session::install_take(options, rest))
        }),
    decreases replies.len(),
{
    let begin = session::follow_install(options, current, rest, step);
    let others = replies.drop_first();
    let trace = sessions::session_trace(begin, replies);
    let later = session::install_take(options, rest);
    match step {
        InstallStepView::Done(Ok(operations)) => {
            lemma_passes_here(later, others);
            lemma_passes_step(begin, replies, 0, later);
            assert(trace.take(0) =~= Seq::empty());
            assert(trace[0] == begin->request);
            0
        },
        InstallStepView::Done(Err(_)) => 0,
        InstallStepView::Ask { request, state } => {
            let next = install::install_next(current, options, state, replies[0]);
            let count = lemma_installation_passes(options, current, rest, next, others);
            let following = session::follow_install(options, current, rest, next);
            assert(session::session_next(begin->state, replies[0]) == following);
            lemma_passes_step(begin, replies, count + 1, later);
            let tail = sessions::session_trace(following, others);
            assert(trace == seq![request] + tail);
            assert(replies.take(count + 1).drop_first() =~= others.take(count));
            assert(replies.take(count + 1)[0] == replies[0]);
            assert(trace.take(count + 1) =~= seq![request] + tail.take(count));
            assert(trace[count + 1] == tail[count]);
            count + 1
        },
    }
}

proof fn lemma_installs_in_order(
    options: InstallOptions,
    entries: Seq<EntryView>,
    replies: Seq<ReplyView>,
)
    requires
        session_after(session::install_take(options, entries), replies) is Exit,
    ensures
        session_after(session::install_take(options, entries), replies)
            == SessionStepView::Exit(0),
        installs_in_order(
            options,
            entries,
            sessions::session_trace(session::install_take(options, entries), replies),
            replies,
        ),
    decreases entries.len(),
{
    if entries.len() > 0 {
        let trace = sessions::session_trace(session::install_take(options, entries), replies);
        let others = entries.drop_first();
        let count = lemma_installation_passes(
            options,
            entries[0],
            others,
            install::install_begin(entries[0]),
            replies,
        );
        lemma_installs_in_order(options, others, replies.skip(count + 1));
        assert(installs_first(options, entries[0], trace, replies, count));
    }
}

proof fn lemma_settled_later(
    entry: EntryView,
    requests: Seq<RequestView>,
    replies: Seq<ReplyView>,
    start: int,
)
    requires
        0 <= start <= requests.len(),
        start <= replies.len(),
        settled(entry, requests.skip(start), replies.skip(start)),
    ensures
        settled(entry, requests, replies),
{
    let later = requests.skip(start);
    let rest = replies.skip(start);
    if placed(entry, later, rest) {
        let at = choose|at: int|
            0 <= at < later.len() && at < rest.len() && #[trigger] later[at]
                == installs::last_request(entry) && installs::succeeded(later[at], rest[at]);
        assert(requests[start + at] == later[at]);
        assert(replies[start + at] == rest[at]);
    } else {
        let (from, to) = choose|from: int, to: int| compared_in_place(entry, later, rest, from, to);
        assert(rest.subrange(from, to) =~= replies.subrange(start + from, start + to));
        assert(later.subrange(from, to) =~= requests.subrange(start + from, start + to));
        assert(compared_in_place(entry, requests, replies, start + from, start + to));
    }
}

proof fn lemma_installed_is_settled(
    options: InstallOptions,
    entry: EntryView,
    requests: Seq<RequestView>,
    replies: Seq<ReplyView>,
    count: int,
)
    requires
        !options.dry_run,
        installs_first(options, entry, requests, replies, count),
    ensures
        settled(entry, requests, replies),
{
    let given = replies.take(count);
    let asked = requests.take(count);
    let operations = installs::whole_run(entry, options, given)->Done_0->Ok_0;
    if operations.len() > 0 {
        installs::law_install_ends_in_place(entry, options, given);
        let at = asked.len() - 1;
        assert(requests[at] == asked[at]);
        assert(replies[at] == given[at]);
        assert(placed(entry, requests, replies));
    } else {
        assert(operations =~= Seq::empty());
        installs::law_nothing_reported_means_in_place(entry, options, given);
        let begin = status::status_begin(entry);
        let inner = statuses::status_trace(entry, begin, given.drop_first());
        assert(given.drop_first() =~= replies.subrange(1, count));
        assert(asked == seq![status::source_request(entry)] + inner);
        assert(requests.subrange(1, count) =~= asked.drop_first());
        assert(asked.drop_first() =~= inner);
        assert(compared_in_place(entry, requests, replies, 1, count));
    }
}

proof fn lemma_all_settled(
    options: InstallOptions,
    entries: Seq<EntryView>,
    requests: Seq<RequestView>,
    replies: Seq<ReplyView>,
)
    requires
        !options.dry_run,
        installs_in_order(options, entries, requests, replies),
    ensures
        forall|i: int|
            0 <= i < entries.len() ==> settled(#[trigger] entries[i], requests, replies),
    decreases entries.len(),
{
    if entries.len() > 0 {
        let others = entries.drop_first();
        let count = choose|count: int|
            #[trigger] installs_first(options, entries[0], requests, replies, count)
                && installs_in_order(
                options,
                others,
                requests.skip(count + 1),
                replies.skip(count + 1),
            );
        lemma_installed_is_settled(options, entries[0], requests, replies, count);
        lemma_all_settled(options, others, requests.skip(count + 1), replies.skip(count + 1));
        assert forall|i: int| 0 <= i < entries.len() implies settled(
            #[trigger] entries[i],
            requests,
            replies,
        ) by {
            if i > 0 {
                assert(others[i - 1] == entries[i]);
                lemma_settled_later(entries[i], requests, replies, count + 1);
            }
        }
    }
}

/// Whatever the system answers, and however it changes on the way, a session that installs and
/// comes to an exit code has loaded the entries of its configuration file and then made one whole
/// installation after the other, of each entry in order, all of which succeeded. The code is zero.
/// Unless it was a dry run, every entry was put in place, or found there.
pub proof fn law_session_installs_every_entry(
    options: InstallOptions,
    config: Option<Seq<u8>>,
    replies: Seq<ReplyView>,
)
    requires
        session_after(
            session::session_begin(
                PlanView::Run { command: Command::Install(options), config },
            ),
            replies,
        ) is Exit,
    ensures
        ({
            let begin = session::session_begin(
                PlanView::Run { command: Command::Install(options), config },
            );
            let trace = sessions::session_trace(begin, replies);
            &&& session_after(begin, replies) == SessionStepView::Exit(0)
            &&& loading_from(begin, replies) matches Some((file, rest)) && loaded_entries(
                begin,
                replies,
            ) matches Some(entries) && {
                &&& config matches Some(given) ==> file == given && rest == replies
                &&& loads::load_after(file, load::load_ask(file, LoadStateView::Text), rest)
                    == LoadStepView::Done(Ok(entries))
                &&& exists|start: int|
                    0 <= start <= trace.len() && start <= replies.len() && installs_in_order(
                        options,
                        entries,
                        #[trigger] trace.skip(start),
                        replies.skip(start),
                    )
                &&& !options.dry_run ==> forall|i: int|
                    0 <= i < entries.len() ==> settled(#[trigger] entries[i], trace, replies)
            }
        }),
{
    let begin = session::session_begin(
        PlanView::Run { command: Command::Install(options), config },
    );
    let trace = sessions::session_trace(begin, replies);
    let start = lemma_preparation_passes(options, begin, replies);
    let entries = loaded_entries(begin, replies)->0;
    lemma_loaded_from_file(options, begin, replies);
    lemma_installs_in_order(options, entries, replies.skip(start));
    assert(installs_in_order(options, entries, trace.skip(start), replies.skip(start)));
    if !options.dry_run {
        lemma_all_settled(options, entries, trace.skip(start), replies.skip(start));
        assert forall|i: int| 0 <= i < entries.len() implies settled(
            #[trigger] entries[i],
            trace,
            replies,
        ) by {
            lemma_settled_later(entries[i], trace, replies, start);
        }
    }
}

} // verus!
