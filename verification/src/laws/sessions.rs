//! Laws of the program as a whole.
use vstd::prelude::*;

use crate::entry::EntryStatus;
use crate::entry::EntryView;
use crate::entry::InstallOptions;
use crate::error;
use crate::error::ErrorView;
use crate::install;
use crate::install::InstallStepView;
use crate::laws::installs;
use crate::laws::loads;
use crate::laws::searches;
use crate::laws::statuses;
use crate::load;
use crate::load::LoadStateView;
use crate::load::LoadStepView;
use crate::path;
use crate::privilege;
use crate::request::ReplyView;
use crate::request::RequestView;
use crate::request::World;
use crate::search;
use crate::search::SearchStateView;
use crate::search::SearchStepView;
use crate::session;
use crate::session::Command;
use crate::session::PlanView;
use crate::session::SessionStateView;
use crate::session::SessionStepView;
use crate::status;
use crate::status::StatusStepView;

verus! {

/// What a session asks for, one request after the other, whatever the replies are.
pub open spec fn session_trace(step: SessionStepView, replies: Seq<ReplyView>) -> Seq<RequestView>
    decreases replies.len(),
{
    match step {
        SessionStepView::Ask { request, state } => if replies.len() == 0 {
            seq![request]
        } else {
            seq![request] + session_trace(
                session::session_next(state, replies[0]),
                replies.drop_first(),
            )
        },
        _ => Seq::empty(),
    }
}

/// What holds of every step of a session with a command.
spec fn sound(command: Command, step: SessionStepView) -> bool {
    match step {
        SessionStepView::Ask { request, state } => match state {
            SessionStateView::Leave { code } => request is Print,
            SessionStateView::Directory { command: c } => c == command && request
                == RequestView::CurrentDirectory,
            SessionStateView::Search { command: c, start, state } => c == command && request
                == search::search_request(start, state),
            SessionStateView::Load { command: c, config, state } => c == command && request
                == load::load_request(config, state),
            SessionStateView::Report { current, rest, clean, state } => command is Status && request
                == status::status_request(current, state),
            SessionStateView::Reported { rest, clean } => command is Status && request is Print,
            SessionStateView::User { options, entries } => command == Command::Install(options)
                && request == session::process_status(),
            SessionStateView::Survey { options, surveyed, current, rest, state } => command
                == Command::Install(options) && request == status::status_request(current, state),
            SessionStateView::Install { options, current, rest, state } => command
                == Command::Install(options) && installs::sound(
                current,
                options,
                InstallStepView::Ask { request, state },
            ),
            SessionStateView::Installed { options, rest } => command == Command::Install(options)
                && request is Print,
        },
        _ => true,
    }
}

proof fn lemma_sound_install_take(options: InstallOptions, rest: Seq<EntryView>)
    ensures
        sound(Command::Install(options), session::install_take(options, rest)),
{
    if rest.len() > 0 {
        installs::lemma_sound_begin(rest[0], options);
    }
}

proof fn lemma_sound_survey_take(
    options: InstallOptions,
    surveyed: Seq<EntryView>,
    rest: Seq<EntryView>,
)
    ensures
        sound(Command::Install(options), session::survey_take(options, surveyed, rest)),
{
    lemma_sound_install_take(options, surveyed);
}

proof fn lemma_sound_next(command: Command, step: SessionStepView, reply: ReplyView)
    requires
        sound(command, step),
        step is Ask,
    ensures
        sound(command, session::session_next(step->state, reply)),
{
    match step->state {
        SessionStateView::User { options, entries } => {
            lemma_sound_survey_take(options, Seq::empty(), entries);
        },
        SessionStateView::Survey { options, surveyed, current, rest, state } => {
            lemma_sound_survey_take(options, surveyed.push(current), rest);
        },
        SessionStateView::Install { options, current, rest, state } => {
            installs::lemma_sound_next(current, options, state, reply);
        },
        SessionStateView::Installed { options, rest } => {
            lemma_sound_install_take(options, rest);
        },
        _ => {},
    }
}

/// What a session with a command may ask for: only an installation that is no dry run changes
/// anything.
pub open spec fn may_ask(command: Command, request: RequestView) -> bool {
    request.changes() ==> (command matches Command::Install(options) && !options.dry_run)
}

proof fn lemma_may_ask(command: Command, step: SessionStepView)
    requires
        sound(command, step),
        step is Ask,
    ensures
        may_ask(command, step->request),
{
    if let SessionStateView::Install { options, current, rest, state } = step->state {
        installs::lemma_may_ask(
            current,
            options,
            InstallStepView::Ask { request: step->request, state },
        );
    }
}

proof fn lemma_trace_may_ask(command: Command, step: SessionStepView, replies: Seq<ReplyView>)
    requires
        sound(command, step),
    ensures
        forall|i: int|
            0 <= i < session_trace(step, replies).len() ==> may_ask(
                command,
                #[trigger] session_trace(step, replies)[i],
            ),
    decreases replies.len(),
{
    if let SessionStepView::Ask { request, state } = step {
        lemma_may_ask(command, step);
        if replies.len() > 0 {
            let next = session::session_next(state, replies[0]);
            lemma_sound_next(command, step, replies[0]);
            lemma_trace_may_ask(command, next, replies.drop_first());
            let trace = session_trace(step, replies);
            let rest = session_trace(next, replies.drop_first());
            assert forall|i: int| 0 <= i < trace.len() implies may_ask(
                command,
                #[trigger] trace[i],
            ) by {
                if i > 0 {
                    assert(trace[i] == rest[i - 1]);
                }
            }
        }
    }
}

/// Whatever the system answers, a session asks for a change only to install, and not in a dry
/// run. Nothing else, least of all a report, changes anything.
pub proof fn law_only_install_changes(plan: PlanView, replies: Seq<ReplyView>, at: int)
    requires
        0 <= at < session_trace(session::session_begin(plan), replies).len(),
        session_trace(session::session_begin(plan), replies)[at].changes(),
    ensures
        plan matches PlanView::Run { command, config } && (command matches Command::Install(options)
            && !options.dry_run),
{
    let begin = session::session_begin(plan);
    match plan {
        PlanView::Run { command, config } => {
            lemma_trace_may_ask(command, begin, replies);
        },
        PlanView::Usage { code } => {
            lemma_trace_may_ask(Command::Status, begin, replies);
        },
        PlanView::Refused(_) => {},
    }
}

/// Whether the system said that it is no root who runs the program.
pub open spec fn is_regular_user(request: RequestView, reply: ReplyView) -> bool {
    request == session::process_status() && privilege::root_fault(reply->Text_0) is None
}

/// Whether the user is known to be a regular one.
spec fn trusted(step: SessionStepView) -> bool {
    step is Ask && (step->state is Survey || step->state is Install
        || step->state is Installed)
}

proof fn lemma_change_follows_check(
    command: Command,
    step: SessionStepView,
    replies: Seq<ReplyView>,
    at: int,
)
    requires
        sound(command, step),
        !trusted(step),
        0 <= at < session_trace(step, replies).len(),
        session_trace(step, replies)[at].changes(),
    ensures
        exists|i: int|
            0 <= i < at && i < replies.len() && is_regular_user(
                #[trigger] session_trace(step, replies)[i],
                replies[i],
            ),
    decreases replies.len(),
{
    let trace = session_trace(step, replies);
    if at == 0 {
        assert(trace[0] == step->request);
    } else {
        let next = session::session_next(step->state, replies[0]);
        let rest = session_trace(next, replies.drop_first());
        assert(trace == seq![step->request] + rest);
        assert(trace[at] == rest[at - 1]);
        lemma_sound_next(command, step, replies[0]);
        if trusted(next) {
            assert(is_regular_user(trace[0], replies[0]));
        } else {
            lemma_change_follows_check(command, next, replies.drop_first(), at - 1);
            let i = choose|i: int|
                0 <= i < at - 1 && i < replies.drop_first().len() && is_regular_user(
                    #[trigger] rest[i],
                    replies.drop_first()[i],
                );
            assert(trace[i + 1] == rest[i]);
            assert(replies[i + 1] == replies.drop_first()[i]);
        }
    }
}

/// Root changes nothing: before any change the system said that a regular user runs the program.
pub proof fn law_root_changes_nothing(plan: PlanView, replies: Seq<ReplyView>, at: int)
    requires
        0 <= at < session_trace(session::session_begin(plan), replies).len(),
        session_trace(session::session_begin(plan), replies)[at].changes(),
    ensures
        exists|i: int|
            0 <= i < at && i < replies.len() && is_regular_user(
                #[trigger] session_trace(session::session_begin(plan), replies)[i],
                replies[i],
            ),
{
    law_only_install_changes(plan, replies, at);
    if let PlanView::Run { command, config } = plan {
        lemma_change_follows_check(command, session::session_begin(plan), replies, at);
    }
}

/// A session after some replies of a system that stands still.
pub open spec fn session_settled(
    world: World,
    step: SessionStepView,
    count: nat,
) -> SessionStepView
    decreases count,
{
    match step {
        SessionStepView::Ask { request, state } => if count == 0 {
            step
        } else {
            session_settled(
                world,
                session::session_next(state, world(request)),
                (count - 1) as nat,
            )
        },
        _ => step,
    }
}

/// Whether a session asks for no change on the way.
pub open spec fn quiet(world: World, step: SessionStepView, count: nat) -> bool
    decreases count,
{
    match step {
        SessionStepView::Ask { request, state } => count == 0 || (!request.changes() && quiet(
            world,
            session::session_next(state, world(request)),
            (count - 1) as nat,
        )),
        _ => true,
    }
}

/// The lines that a request prints.
pub open spec fn lines_of(request: RequestView) -> Seq<Seq<char>> {
    match request {
        RequestView::Print(lines) => lines,
        _ => Seq::empty(),
    }
}

/// The lines that a session prints on the way.
pub open spec fn printed(world: World, step: SessionStepView, count: nat) -> Seq<Seq<char>>
    decreases count,
{
    match step {
        SessionStepView::Ask { request, state } => if count == 0 {
            Seq::empty()
        } else {
            lines_of(request) + printed(
                world,
                session::session_next(state, world(request)),
                (count - 1) as nat,
            )
        },
        _ => Seq::empty(),
    }
}

/// Whether a session gets from one step to another, in a system that stands still, and prints
/// these lines on the way.
pub open spec fn leads(
    world: World,
    from: SessionStepView,
    lines: Seq<Seq<char>>,
    to: SessionStepView,
) -> bool {
    exists|count: nat|
        #[trigger] session_settled(world, from, count) == to && printed(world, from, count)
            == lines
}

/// Whether a session also asks for no change on that way.
pub open spec fn leads_quietly(
    world: World,
    from: SessionStepView,
    lines: Seq<Seq<char>>,
    to: SessionStepView,
) -> bool {
    exists|count: nat|
        #[trigger] session_settled(world, from, count) == to && printed(world, from, count)
            == lines && quiet(world, from, count)
}

#[verifier::rlimit(60)]
proof fn lemma_settled_sum(world: World, from: SessionStepView, first: nat, second: nat)
    ensures
        session_settled(world, from, first + second) == session_settled(
            world,
            session_settled(world, from, first),
            second,
        ),
        printed(world, from, first + second) == printed(world, from, first) + printed(
            world,
            session_settled(world, from, first),
            second,
        ),
        quiet(world, from, first) && quiet(world, session_settled(world, from, first), second)
            ==> quiet(world, from, first + second),
    decreases first,
{
    let middle = session_settled(world, from, first);
    match from {
        SessionStepView::Ask { request, state } => if first > 0 {
            let next = session::session_next(state, world(request));
            lemma_settled_sum(world, next, (first - 1) as nat, second);
            assert(printed(world, from, first + second) =~= printed(world, from, first) + printed(
                world,
                middle,
                second,
            ));
        } else {
            assert(printed(world, from, first) + printed(world, middle, second) =~= printed(
                world,
                middle,
                second,
            ));
        },
        _ => {
            assert(printed(world, from, first) + printed(world, middle, second) =~= Seq::empty());
        },
    }
}

proof fn lemma_leads_on(
    world: World,
    from: SessionStepView,
    before: Seq<Seq<char>>,
    middle: SessionStepView,
    after: Seq<Seq<char>>,
    to: SessionStepView,
)
    ensures
        leads(world, from, before, middle) && leads(world, middle, after, to) ==> leads(
            world,
            from,
            before + after,
            to,
        ),
        leads_quietly(world, from, before, middle) && leads_quietly(world, middle, after, to)
            ==> leads_quietly(world, from, before + after, to),
        leads_quietly(world, from, before, middle) ==> leads(world, from, before, middle),
        leads_quietly(world, middle, after, to) ==> leads(world, middle, after, to),
        before.len() == 0 ==> before + after == after,
        after.len() == 0 ==> before + after == before,
{
    if leads(world, from, before, middle) && leads(world, middle, after, to) {
        let first = choose|count: nat|
            #[trigger] session_settled(world, from, count) == middle && printed(world, from, count)
                == before;
        let second = choose|count: nat|
            #[trigger] session_settled(world, middle, count) == to && printed(world, middle, count)
                == after;
        lemma_settled_sum(world, from, first, second);
        assert(session_settled(world, from, first + second) == to);
    }
    if leads_quietly(world, from, before, middle) && leads_quietly(world, middle, after, to) {
        let first = choose|count: nat|
            #[trigger] session_settled(world, from, count) == middle && printed(world, from, count)
                == before && quiet(world, from, count);
        let second = choose|count: nat|
            #[trigger] session_settled(world, middle, count) == to && printed(world, middle, count)
                == after && quiet(world, middle, count);
        lemma_settled_sum(world, from, first, second);
        assert(session_settled(world, from, first + second) == to);
    }
    assert(before.len() == 0 ==> before + after =~= after);
    assert(after.len() == 0 ==> before + after =~= before);
}

/// One reply leads to the next step.
proof fn lemma_leads_step(world: World, step: SessionStepView)
    requires
        step is Ask,
    ensures
        leads(
            world,
            step,
            lines_of(step->request),
            session::session_next(step->state, world(step->request)),
        ),
        !step->request.changes() ==> leads_quietly(
            world,
            step,
            lines_of(step->request),
            session::session_next(step->state, world(step->request)),
        ),
{
    let next = session::session_next(step->state, world(step->request));
    reveal_with_fuel(session_settled, 2);
    reveal_with_fuel(printed, 2);
    reveal_with_fuel(quiet, 2);
    assert(session_settled(world, step, 1) == next);
    assert(printed(world, step, 1) =~= lines_of(step->request));
}

proof fn lemma_leads_here(world: World, step: SessionStepView)
    ensures
        leads_quietly(world, step, Seq::empty(), step),
        leads(world, step, Seq::empty(), step),
{
    assert(session_settled(world, step, 0) == step);
    assert(printed(world, step, 0) == Seq::<Seq<char>>::empty());
}

/// The report on entries in a system that stands still: the exit code, or the first error.
pub open spec fn reported_in(rest: Seq<EntryView>, clean: bool, world: World) -> SessionStepView
    decreases rest.len(),
{
    if rest.len() == 0 {
        SessionStepView::Exit(
            if clean {
                0
            } else {
                1
            },
        )
    } else {
        match statuses::status_in(rest[0], world) {
            Err(error) => session::fail(error),
            Ok(status) => reported_in(
                rest.drop_first(),
                clean && status == EntryStatus::InPlace,
                world,
            ),
        }
    }
}

/// The lines of the report on entries in a system that stands still: one for each, in order, up
/// to the first that cannot be compared.
pub open spec fn reported_lines(rest: Seq<EntryView>, world: World) -> Seq<Seq<char>>
    decreases rest.len(),
{
    if rest.len() == 0 {
        Seq::empty()
    } else {
        match statuses::status_in(rest[0], world) {
            Err(_) => Seq::empty(),
            Ok(status) => seq![session::report_line(status, rest[0].target())] + reported_lines(
                rest.drop_first(),
                world,
            ),
        }
    }
}

proof fn lemma_report_follows(
    world: World,
    current: EntryView,
    rest: Seq<EntryView>,
    clean: bool,
    step: StatusStepView,
    count: nat,
    result: Result<EntryStatus, ErrorView>,
)
    requires
        statuses::status_after(current, world, step, count) == StatusStepView::Done(result),
        step matches StatusStepView::Ask { request, state } ==> request == status::status_request(
            current,
            state,
        ),
    ensures
        leads_quietly(
            world,
            session::follow_report(current, rest, clean, step),
            Seq::empty(),
            session::follow_report(current, rest, clean, StatusStepView::Done(result)),
        ),
    decreases count,
{
    let from = session::follow_report(current, rest, clean, step);
    let to = session::follow_report(current, rest, clean, StatusStepView::Done(result));
    match step {
        StatusStepView::Done(_) => {
            lemma_leads_here(world, from);
        },
        StatusStepView::Ask { request, state } => {
            let next = status::status_next(current, state, world(request));
            lemma_report_follows(world, current, rest, clean, next, (count - 1) as nat, result);
            lemma_leads_step(world, from);
            lemma_leads_on(
                world,
                from,
                Seq::empty(),
                session::follow_report(current, rest, clean, next),
                Seq::empty(),
                to,
            );
        },
    }
}

proof fn lemma_report_ends(world: World, rest: Seq<EntryView>, clean: bool)
    ensures
        leads_quietly(
            world,
            session::report_take(rest, clean),
            reported_lines(rest, world),
            reported_in(rest, clean, world),
        ),
    decreases rest.len(),
{
    let from = session::report_take(rest, clean);
    let end = reported_in(rest, clean, world);
    if rest.len() == 0 {
        lemma_leads_here(world, from);
    } else {
        let current = rest[0];
        let others = rest.drop_first();
        let result = statuses::status_in(current, world);
        let middle = session::follow_report(
            current,
            others,
            clean,
            StatusStepView::Done(result),
        );
        statuses::law_status_ends(current, world);
        lemma_report_follows(
            world,
            current,
            others,
            clean,
            status::status_begin(current),
            6,
            result,
        );
        if let Ok(status) = result {
            let still_clean = clean && status == EntryStatus::InPlace;
            lemma_leads_step(world, middle);
            lemma_report_ends(world, others, still_clean);
            lemma_leads_on(
                world,
                middle,
                seq![session::report_line(status, current.target())],
                session::report_take(others, still_clean),
                reported_lines(others, world),
                end,
            );
        } else {
            lemma_leads_here(world, middle);
        }
        lemma_leads_on(world, from, Seq::empty(), middle, reported_lines(rest, world), end);
    }
}

proof fn lemma_reported_code(rest: Seq<EntryView>, clean: bool, world: World)
    ensures
        (forall|i: int|
            0 <= i < rest.len() ==> statuses::status_in(#[trigger] rest[i], world) is Ok)
            ==> reported_in(rest, clean, world) == SessionStepView::Exit(
            if clean && forall|i: int|
                0 <= i < rest.len() ==> statuses::status_in(#[trigger] rest[i], world) == Ok::<
                    EntryStatus,
                    ErrorView,
                >(EntryStatus::InPlace) {
                0
            } else {
                1
            },
        ),
    decreases rest.len(),
{
    if rest.len() > 0 {
        let others = rest.drop_first();
        if let Ok(status) = statuses::status_in(rest[0], world) {
            lemma_reported_code(others, clean && status == EntryStatus::InPlace, world);
            assert forall|i: int| 0 <= i < others.len() implies #[trigger] others[i] == rest[i
                + 1] by {}
            if forall|i: int|
                0 <= i < rest.len() ==> statuses::status_in(#[trigger] rest[i], world) is Ok {
                assert forall|i: int| 0 <= i < others.len() implies statuses::status_in(
                    #[trigger] others[i],
                    world,
                ) is Ok by {
                    assert(others[i] == rest[i + 1]);
                }
            }
            let good = Ok::<EntryStatus, ErrorView>(EntryStatus::InPlace);
            if forall|i: int|
                0 <= i < others.len() ==> statuses::status_in(#[trigger] others[i], world) == good {
                assert forall|i: int| 1 <= i < rest.len() implies statuses::status_in(
                    #[trigger] rest[i],
                    world,
                ) == good by {
                    assert(rest[i] == others[i - 1]);
                }
            }
            if forall|i: int|
                0 <= i < rest.len() ==> statuses::status_in(#[trigger] rest[i], world) == good {
                assert forall|i: int| 0 <= i < others.len() implies statuses::status_in(
                    #[trigger] others[i],
                    world,
                ) == good by {
                    assert(others[i] == rest[i + 1]);
                }
            }
        }
    }
}

proof fn lemma_reported_lines(rest: Seq<EntryView>, world: World)
    requires
        forall|i: int|
            0 <= i < rest.len() ==> statuses::status_in(#[trigger] rest[i], world) is Ok,
    ensures
        reported_lines(rest, world) == Seq::new(
            rest.len(),
            |i: int|
                session::report_line(
                    statuses::status_in(rest[i], world)->Ok_0,
                    rest[i].target(),
                ),
        ),
    decreases rest.len(),
{
    let wanted = Seq::new(
        rest.len(),
        |i: int|
            session::report_line(statuses::status_in(rest[i], world)->Ok_0, rest[i].target()),
    );
    if rest.len() > 0 {
        let others = rest.drop_first();
        assert forall|i: int| 0 <= i < others.len() implies statuses::status_in(
            #[trigger] others[i],
            world,
        ) is Ok by {
            assert(others[i] == rest[i + 1]);
        }
        assert(statuses::status_in(rest[0], world) is Ok);
        lemma_reported_lines(others, world);
    }
    assert(reported_lines(rest, world) =~= wanted);
}

/// A report ends, without asking for a change. Where every target can be compared, it prints one
/// line for each entry, in order, and the exit code is zero if all are in place and one otherwise.
pub proof fn law_report(entries: Seq<EntryView>, world: World)
    ensures
        leads_quietly(
            world,
            session::report_take(entries, true),
            reported_lines(entries, world),
            reported_in(entries, true, world),
        ),
        (forall|i: int|
            0 <= i < entries.len() ==> statuses::status_in(#[trigger] entries[i], world) is Ok)
            ==> reported_lines(entries, world) == Seq::new(
            entries.len(),
            |i: int|
                session::report_line(
                    statuses::status_in(entries[i], world)->Ok_0,
                    entries[i].target(),
                ),
        ),
        (forall|i: int|
            0 <= i < entries.len() ==> statuses::status_in(#[trigger] entries[i], world) is Ok)
            ==> reported_in(entries, true, world) == SessionStepView::Exit(
            if forall|i: int|
                0 <= i < entries.len() ==> statuses::status_in(#[trigger] entries[i], world)
                    == Ok::<EntryStatus, ErrorView>(EntryStatus::InPlace) {
                0
            } else {
                1
            },
        ),
{
    lemma_report_ends(world, entries, true);
    lemma_reported_code(entries, true, world);
    if forall|i: int|
        0 <= i < entries.len() ==> statuses::status_in(#[trigger] entries[i], world) is Ok {
        lemma_reported_lines(entries, world);
    }
}

/// What keeps an installation from starting: a target that cannot be compared, or, unless forced,
/// one that conflicts.
pub open spec fn survey_fault(
    options: InstallOptions,
    entries: Seq<EntryView>,
    world: World,
) -> Option<ErrorView>
    decreases entries.len(),
{
    if entries.len() == 0 {
        None
    } else {
        match statuses::status_in(entries[0], world) {
            Err(error) => Some(error),
            Ok(status) => if status == EntryStatus::Conflict && !options.force {
                Some(ErrorView::Conflict(entries[0].target()))
            } else {
                survey_fault(options, entries.drop_first(), world)
            },
        }
    }
}

/// A step of the survey of an entry, by the step of its comparison.
spec fn follow_survey(
    options: InstallOptions,
    surveyed: Seq<EntryView>,
    current: EntryView,
    rest: Seq<EntryView>,
    step: StatusStepView,
) -> SessionStepView {
    match step {
        StatusStepView::Ask { request, state } => SessionStepView::Ask {
            request,
            state: SessionStateView::Survey { options, surveyed, current, rest, state },
        },
        StatusStepView::Done(Ok(status)) => if status == EntryStatus::Conflict && !options.force {
            session::fail(ErrorView::Conflict(current.target()))
        } else {
            session::survey_take(options, surveyed.push(current), rest)
        },
        StatusStepView::Done(Err(error)) => session::fail(error),
    }
}

proof fn lemma_survey_follows(
    world: World,
    options: InstallOptions,
    surveyed: Seq<EntryView>,
    current: EntryView,
    rest: Seq<EntryView>,
    step: StatusStepView,
    count: nat,
    result: Result<EntryStatus, ErrorView>,
)
    requires
        statuses::status_after(current, world, step, count) == StatusStepView::Done(result),
        step matches StatusStepView::Ask { request, state } ==> request == status::status_request(
            current,
            state,
        ),
    ensures
        leads_quietly(
            world,
            follow_survey(options, surveyed, current, rest, step),
            Seq::empty(),
            follow_survey(options, surveyed, current, rest, StatusStepView::Done(result)),
        ),
    decreases count,
{
    let from = follow_survey(options, surveyed, current, rest, step);
    let to = follow_survey(options, surveyed, current, rest, StatusStepView::Done(result));
    match step {
        StatusStepView::Done(_) => {
            lemma_leads_here(world, from);
        },
        StatusStepView::Ask { request, state } => {
            let next = status::status_next(current, state, world(request));
            lemma_survey_follows(
                world,
                options,
                surveyed,
                current,
                rest,
                next,
                (count - 1) as nat,
                result,
            );
            lemma_leads_step(world, from);
            lemma_leads_on(
                world,
                from,
                Seq::empty(),
                follow_survey(options, surveyed, current, rest, next),
                Seq::empty(),
                to,
            );
        },
    }
}

proof fn lemma_survey_ends(
    world: World,
    options: InstallOptions,
    surveyed: Seq<EntryView>,
    rest: Seq<EntryView>,
)
    ensures
        leads_quietly(
            world,
            session::survey_take(options, surveyed, rest),
            Seq::empty(),
            match survey_fault(options, rest, world) {
                Some(error) => session::fail(error),
                None => session::install_take(options, surveyed + rest),
            },
        ),
    decreases rest.len(),
{
    let from = session::survey_take(options, surveyed, rest);
    let end = match survey_fault(options, rest, world) {
        Some(error) => session::fail(error),
        None => session::install_take(options, surveyed + rest),
    };
    if rest.len() == 0 {
        assert(surveyed + rest =~= surveyed);
        lemma_leads_here(world, from);
    } else {
        let current = rest[0];
        let others = rest.drop_first();
        let result = statuses::status_in(current, world);
        let middle = follow_survey(
            options,
            surveyed,
            current,
            others,
            StatusStepView::Done(result),
        );
        statuses::law_status_ends(current, world);
        lemma_survey_follows(
            world,
            options,
            surveyed,
            current,
            others,
            status::status_begin(current),
            6,
            result,
        );
        assert(from == follow_survey(
            options,
            surveyed,
            current,
            others,
            status::status_begin(current),
        ));
        if result matches Ok(status) && !(status == EntryStatus::Conflict && !options.force) {
            lemma_survey_ends(world, options, surveyed.push(current), others);
            assert(surveyed.push(current) + others =~= surveyed + rest);
        } else {
            lemma_leads_here(world, middle);
        }
        lemma_leads_on(world, from, Seq::empty(), middle, Seq::empty(), end);
    }
}

/// Whether an entry is the first that conflicts, and those before it can be compared.
pub open spec fn first_conflict(entries: Seq<EntryView>, at: int, world: World) -> bool {
    &&& 0 <= at < entries.len()
    &&& statuses::status_in(entries[at], world) == Ok::<EntryStatus, ErrorView>(
        EntryStatus::Conflict,
    )
    &&& forall|i: int|
        0 <= i < at ==> (statuses::status_in(#[trigger] entries[i], world) matches Ok(status)
            && status != EntryStatus::Conflict)
}

/// Before anything is installed, all targets are compared. Where one cannot be, or conflicts
/// without force, the session ends with that error; it has printed nothing and asked for no
/// change, not even for the entries before it. The error names the first entry that conflicts,
/// where those before it can be compared.
pub proof fn law_conflict_stops_before_any_change(
    options: InstallOptions,
    entries: Seq<EntryView>,
    world: World,
)
    ensures
        leads_quietly(
            world,
            session::survey_take(options, Seq::empty(), entries),
            Seq::empty(),
            match survey_fault(options, entries, world) {
                Some(error) => session::fail(error),
                None => session::install_take(options, entries),
            },
        ),
        !options.force && (exists|i: int|
            0 <= i < entries.len() && #[trigger] statuses::status_in(entries[i], world) == Ok::<
                EntryStatus,
                ErrorView,
            >(EntryStatus::Conflict)) ==> survey_fault(options, entries, world) is Some,
        forall|at: int|
            !options.force && #[trigger] first_conflict(entries, at, world) ==> survey_fault(
                options,
                entries,
                world,
            ) == Some(ErrorView::Conflict(entries[at].target())),
{
    lemma_survey_ends(world, options, Seq::empty(), entries);
    assert(Seq::<EntryView>::empty() + entries =~= entries);
    lemma_survey_fault(options, entries, world);
    assert forall|at: int|
        !options.force && #[trigger] first_conflict(entries, at, world) implies survey_fault(
        options,
        entries,
        world,
    ) == Some(ErrorView::Conflict(entries[at].target())) by {
        lemma_first_conflict(options, entries, at, world);
    }
}

proof fn lemma_first_conflict(
    options: InstallOptions,
    entries: Seq<EntryView>,
    at: int,
    world: World,
)
    requires
        !options.force,
        first_conflict(entries, at, world),
    ensures
        survey_fault(options, entries, world) == Some(ErrorView::Conflict(entries[at].target())),
    decreases entries.len(),
{
    if at > 0 {
        let others = entries.drop_first();
        assert(statuses::status_in(entries[0], world) is Ok);
        assert forall|i: int| 0 <= i < at - 1 implies (statuses::status_in(
            #[trigger] others[i],
            world,
        ) matches Ok(status) && status != EntryStatus::Conflict) by {
            assert(others[i] == entries[i + 1]);
        }
        lemma_first_conflict(options, others, at - 1, world);
    }
}

proof fn lemma_survey_fault(options: InstallOptions, entries: Seq<EntryView>, world: World)
    ensures
        !options.force && (exists|i: int|
            0 <= i < entries.len() && #[trigger] statuses::status_in(entries[i], world) == Ok::<
                EntryStatus,
                ErrorView,
            >(EntryStatus::Conflict)) ==> survey_fault(options, entries, world) is Some,
    decreases entries.len(),
{
    let conflict = Ok::<EntryStatus, ErrorView>(EntryStatus::Conflict);
    if !options.force && exists|i: int|
        0 <= i < entries.len() && #[trigger] statuses::status_in(entries[i], world) == conflict {
        let i = choose|i: int|
            0 <= i < entries.len() && #[trigger] statuses::status_in(entries[i], world) == conflict;
        let others = entries.drop_first();
        if i > 0 {
            assert(others[i - 1] == entries[i]);
            assert(statuses::status_in(others[i - 1], world) == conflict);
            lemma_survey_fault(options, others, world);
        }
    }
}

/// The installation of entries in a system that stands still: the exit code, or the first error.
pub open spec fn all_installed_in(
    options: InstallOptions,
    rest: Seq<EntryView>,
    world: World,
) -> SessionStepView
    decreases rest.len(),
{
    if rest.len() == 0 {
        SessionStepView::Exit(0)
    } else {
        match installs::installed_in(rest[0], options, world) {
            Err(error) => session::fail(error),
            Ok(_) => all_installed_in(options, rest.drop_first(), world),
        }
    }
}

/// The lines on the installation of entries in a system that stands still, up to the first that
/// fails.
pub open spec fn installed_lines(
    options: InstallOptions,
    rest: Seq<EntryView>,
    world: World,
) -> Seq<Seq<char>>
    decreases rest.len(),
{
    if rest.len() == 0 {
        Seq::empty()
    } else {
        match installs::installed_in(rest[0], options, world) {
            Err(_) => Seq::empty(),
            Ok(operations) => session::operation_lines(options.dry_run, operations)
                + installed_lines(options, rest.drop_first(), world),
        }
    }
}

proof fn lemma_install_follows(
    world: World,
    options: InstallOptions,
    current: EntryView,
    rest: Seq<EntryView>,
    step: InstallStepView,
    count: nat,
    result: Result<Seq<Seq<char>>, ErrorView>,
)
    requires
        installs::install_settled(current, options, world, step, count) == InstallStepView::Done(
            result,
        ),
        step matches InstallStepView::Ask { request, state } ==> request
            == install::install_request(current, state),
    ensures
        leads(
            world,
            session::follow_install(options, current, rest, step),
            Seq::empty(),
            session::follow_install(options, current, rest, InstallStepView::Done(result)),
        ),
    decreases count,
{
    let from = session::follow_install(options, current, rest, step);
    let to = session::follow_install(options, current, rest, InstallStepView::Done(result));
    match step {
        InstallStepView::Done(_) => {
            lemma_leads_here(world, from);
        },
        InstallStepView::Ask { request, state } => {
            let next = install::install_next(current, options, state, world(request));
            lemma_install_follows(world, options, current, rest, next, (count - 1) as nat, result);
            lemma_leads_step(world, from);
            lemma_leads_on(
                world,
                from,
                Seq::empty(),
                session::follow_install(options, current, rest, next),
                Seq::empty(),
                to,
            );
        },
    }
}

proof fn lemma_installs_end(world: World, options: InstallOptions, rest: Seq<EntryView>)
    ensures
        leads(
            world,
            session::install_take(options, rest),
            installed_lines(options, rest, world),
            all_installed_in(options, rest, world),
        ),
    decreases rest.len(),
{
    let from = session::install_take(options, rest);
    let end = all_installed_in(options, rest, world);
    if rest.len() == 0 {
        lemma_leads_here(world, from);
    } else {
        let current = rest[0];
        let others = rest.drop_first();
        let begin = install::install_begin(current);
        let result = installs::installed_in(current, options, world);
        let middle = session::follow_install(
            options,
            current,
            others,
            InstallStepView::Done(result),
        );
        installs::law_install_ends(current, options, world);
        let count = choose|count: nat|
            #[trigger] installs::install_settled(current, options, world, begin, count)
                == InstallStepView::Done(result);
        lemma_install_follows(world, options, current, others, begin, count, result);
        if let Ok(operations) = result {
            lemma_leads_step(world, middle);
            lemma_installs_end(world, options, others);
            lemma_leads_on(
                world,
                middle,
                session::operation_lines(options.dry_run, operations),
                session::install_take(options, others),
                installed_lines(options, others, world),
                end,
            );
        } else {
            lemma_leads_here(world, middle);
        }
        lemma_leads_on(
            world,
            from,
            Seq::empty(),
            middle,
            installed_lines(options, rest, world),
            end,
        );
    }
}

proof fn lemma_load_follows(
    world: World,
    command: Command,
    config: Seq<u8>,
    step: LoadStepView,
    count: nat,
    result: Result<Seq<EntryView>, ErrorView>,
)
    requires
        loads::load_settled(config, world, step, count) == LoadStepView::Done(result),
        step matches LoadStepView::Ask { request, state } ==> request == load::load_request(
            config,
            state,
        ),
    ensures
        leads_quietly(
            world,
            session::follow_load(command, config, step),
            Seq::empty(),
            session::follow_load(command, config, LoadStepView::Done(result)),
        ),
    decreases count,
{
    let from = session::follow_load(command, config, step);
    let to = session::follow_load(command, config, LoadStepView::Done(result));
    match step {
        LoadStepView::Done(_) => {
            lemma_leads_here(world, from);
        },
        LoadStepView::Ask { request, state } => {
            let next = load::load_next(config, state, world(request));
            lemma_load_follows(world, command, config, next, (count - 1) as nat, result);
            lemma_leads_step(world, from);
            lemma_leads_on(
                world,
                from,
                Seq::empty(),
                session::follow_load(command, config, next),
                Seq::empty(),
                to,
            );
        },
    }
}

/// What keeps an installation from starting, in a system that stands still: entries that cannot
/// be loaded, root, or a target in the way.
pub open spec fn refusal_in(options: InstallOptions, config: Seq<u8>, world: World) -> Option<
    ErrorView,
> {
    match loads::loaded_in(config, world) {
        Err(error) => Some(error),
        Ok(entries) => match privilege::root_fault(world(session::process_status())->Text_0) {
            Some(error) => Some(error),
            None => survey_fault(options, entries, world),
        },
    }
}

/// What a command on a configuration file comes to in a system that stands still.
pub open spec fn commanded_in(command: Command, config: Seq<u8>, world: World) -> SessionStepView {
    match command {
        Command::Status => match loads::loaded_in(config, world) {
            Err(error) => session::fail(error),
            Ok(entries) => reported_in(entries, true, world),
        },
        Command::Install(options) => match refusal_in(options, config, world) {
            Some(error) => session::fail(error),
            None => all_installed_in(options, loads::loaded_in(config, world)->Ok_0, world),
        },
    }
}

/// What a command on a configuration file prints in a system that stands still.
pub open spec fn commanded_lines(command: Command, config: Seq<u8>, world: World) -> Seq<
    Seq<char>,
> {
    match (command, loads::loaded_in(config, world)) {
        (_, Err(_)) => Seq::empty(),
        (Command::Status, Ok(entries)) => reported_lines(entries, world),
        (Command::Install(options), Ok(entries)) => if refusal_in(options, config, world) is Some {
            Seq::empty()
        } else {
            installed_lines(options, entries, world)
        },
    }
}

/// The start of a command on a configuration file, up to where its entries are loaded.
proof fn lemma_session_loads(command: Command, config: Seq<u8>, world: World)
    ensures
        leads_quietly(
            world,
            session::session_begin(PlanView::Run { command, config: Some(config) }),
            Seq::empty(),
            session::follow_load(
                command,
                config,
                LoadStepView::Done(loads::loaded_in(config, world)),
            ),
        ),
{
    let begin = load::load_ask(config, LoadStateView::Text);
    let result = loads::loaded_in(config, world);
    loads::law_loading_ends(config, world);
    let count = choose|count: nat|
        #[trigger] loads::load_settled(config, world, begin, count) == LoadStepView::Done(result);
    lemma_load_follows(world, command, config, begin, count, result);
}

/// The start of an installation, up to its refusal or its first entry.
proof fn lemma_session_prepares(options: InstallOptions, config: Seq<u8>, world: World)
    ensures
        leads_quietly(
            world,
            session::session_begin(
                PlanView::Run { command: Command::Install(options), config: Some(config) },
            ),
            Seq::empty(),
            match refusal_in(options, config, world) {
                Some(error) => session::fail(error),
                None => session::install_take(options, loads::loaded_in(config, world)->Ok_0),
            },
        ),
{
    let command = Command::Install(options);
    let none = Seq::<Seq<char>>::empty();
    let begin = session::session_begin(PlanView::Run { command, config: Some(config) });
    let result = loads::loaded_in(config, world);
    let loaded = session::follow_load(command, config, LoadStepView::Done(result));
    let end = match refusal_in(options, config, world) {
        Some(error) => session::fail(error),
        None => session::install_take(options, result->Ok_0),
    };
    lemma_session_loads(command, config, world);
    lemma_leads_here(world, loaded);
    if let Ok(entries) = result {
        lemma_leads_step(world, loaded);
        let survey = session::survey_take(options, Seq::empty(), entries);
        if privilege::root_fault(world(session::process_status())->Text_0) is None {
            law_conflict_stops_before_any_change(options, entries, world);
            lemma_leads_on(world, loaded, none, survey, none, end);
        }
    }
    lemma_leads_on(world, begin, none, loaded, none, end);
}

/// A session on a configuration file ends, in a system that stands still, as its entries and
/// their statuses say, and prints the lines that they call for.
pub proof fn law_session_ends(command: Command, config: Seq<u8>, world: World)
    ensures
        leads(
            world,
            session::session_begin(PlanView::Run { command, config: Some(config) }),
            commanded_lines(command, config, world),
            commanded_in(command, config, world),
        ),
{
    let none = Seq::<Seq<char>>::empty();
    let begin = session::session_begin(PlanView::Run { command, config: Some(config) });
    let result = loads::loaded_in(config, world);
    let end = commanded_in(command, config, world);
    let lines = commanded_lines(command, config, world);
    match command {
        Command::Status => {
            let loaded = session::follow_load(command, config, LoadStepView::Done(result));
            lemma_session_loads(command, config, world);
            match result {
                Ok(entries) => {
                    lemma_report_ends(world, entries, true);
                },
                Err(_) => {
                    lemma_leads_here(world, loaded);
                },
            }
            lemma_leads_on(world, begin, none, loaded, lines, end);
        },
        Command::Install(options) => {
            lemma_session_prepares(options, config, world);
            match refusal_in(options, config, world) {
                Some(_) => {
                    lemma_leads_here(world, end);
                    lemma_leads_on(world, begin, none, end, none, end);
                },
                None => {
                    let ready = session::install_take(options, result->Ok_0);
                    lemma_installs_end(world, options, result->Ok_0);
                    lemma_leads_on(world, begin, none, ready, lines, end);
                },
            }
        },
    }
}

/// An installation that is refused before it starts prints nothing and asks for no change. It
/// ends with what it is refused for.
pub proof fn law_refused_installation_does_nothing(
    options: InstallOptions,
    config: Seq<u8>,
    world: World,
)
    ensures
        refusal_in(options, config, world) matches Some(error) ==> leads_quietly(
            world,
            session::session_begin(
                PlanView::Run { command: Command::Install(options), config: Some(config) },
            ),
            Seq::empty(),
            session::fail(error),
        ),
{
    lemma_session_prepares(options, config, world);
}

proof fn lemma_search_follows(
    world: World,
    command: Command,
    start: Seq<u8>,
    step: SearchStepView,
    count: nat,
)
    requires
        step matches SearchStepView::Ask { request, state } ==> request == search::search_request(
            start,
            state,
        ),
    ensures
        leads(
            world,
            session::follow_search(command, start, step),
            Seq::empty(),
            session::follow_search(
                command,
                start,
                searches::search_after(start, world, step, count),
            ),
        ),
    decreases count,
{
    let from = session::follow_search(command, start, step);
    let to = session::follow_search(
        command,
        start,
        searches::search_after(start, world, step, count),
    );
    lemma_leads_here(world, from);
    if let SearchStepView::Ask { request, state } = step {
        if count > 0 {
            let next = search::search_next(start, state, world(request));
            lemma_search_follows(world, command, start, next, (count - 1) as nat);
            lemma_leads_step(world, from);
            lemma_leads_on(
                world,
                from,
                Seq::empty(),
                session::follow_search(command, start, next),
                Seq::empty(),
                to,
            );
        }
    }
}

/// Without a configuration file among its arguments, a session goes on with the file of the
/// nearest directory, from the current one upwards, that holds one. The search prints nothing.
pub proof fn law_session_searches_upwards(command: Command, world: World)
    ensures
        ({
            let begin = session::session_begin(PlanView::Run { command, config: None });
            match world(RequestView::CurrentDirectory)->Path_0 {
                Err(error) => leads(
                    world,
                    begin,
                    Seq::empty(),
                    session::fail(ErrorView::Io(error)),
                ),
                Ok(start) => match world(RequestView::Canonicalize(start))->Path_0 {
                    Err(error) => leads(
                        world,
                        begin,
                        Seq::empty(),
                        session::fail(
                            ErrorView::Invalid(
                                "invalid configuration search path "@ + path::path_text(start)
                                    + ": "@ + error.message,
                            ),
                        ),
                    ),
                    Ok(directory) => exists|end: SearchStepView|
                        #[trigger] searches::search_ended(start, directory, world, end) && leads(
                            world,
                            begin,
                            Seq::empty(),
                            session::follow_search(command, start, end),
                        ),
                },
            }
        }),
{
    let begin = session::session_begin(PlanView::Run { command, config: None });
    lemma_leads_step(world, begin);
    if let Ok(start) = world(RequestView::CurrentDirectory)->Path_0 {
        let first = search::search_ask(start, SearchStateView::Start);
        let middle = session::follow_search(command, start, first);
        searches::law_search_finds_nearest(start, world);
        match world(RequestView::Canonicalize(start))->Path_0 {
            Err(error) => {
                let end = searches::search_after(start, world, first, 1);
                lemma_search_follows(world, command, start, first, 1);
                lemma_leads_on(
                    world,
                    begin,
                    Seq::empty(),
                    middle,
                    Seq::empty(),
                    session::follow_search(command, start, end),
                );
            },
            Ok(directory) => {
                let count = choose|count: nat|
                    searches::search_ended(
                        start,
                        directory,
                        world,
                        #[trigger] searches::search_after(start, world, first, count),
                    );
                let end = searches::search_after(start, world, first, count);
                lemma_search_follows(world, command, start, first, count);
                lemma_leads_on(
                    world,
                    begin,
                    Seq::empty(),
                    middle,
                    Seq::empty(),
                    session::follow_search(command, start, end),
                );
                assert(searches::search_ended(start, directory, world, end));
            },
        }
    }
}

} // verus!
