//! Laws of the arguments of the program and of the lines that it prints.
use vstd::prelude::*;

use crate::entry::EntryStatus;
use crate::laws::entries;
use crate::laws::installs;
use crate::laws::sessions;
use crate::path;
use crate::privilege;
use crate::request::ReplyView;
use crate::request::RequestView;
use crate::session;
use crate::session::Command;
use crate::session::Options;
use crate::session::Parsed;
use crate::session::PlanView;
use crate::session::SessionStateView;
use crate::session::SessionStepView;
use crate::text;

verus! {

/// Whether an argument announces the path of the configuration file.
pub open spec fn announces_path(argument: Seq<char>) -> bool {
    argument == "--config"@ || argument == "-c"@
}

/// Whether the argument at a place is the path that the one before it announces. The first
/// argument is the command.
pub open spec fn is_value(arguments: Seq<Seq<char>>, at: int) -> bool
    decreases at,
{
    at > 1 && announces_path(arguments[at - 1]) && !is_value(arguments, at - 1)
}

/// Whether the argument at a place is an option.
pub open spec fn is_option(arguments: Seq<Seq<char>>, at: int) -> bool {
    1 <= at < arguments.len() && !is_value(arguments, at)
}

/// Whether an option of this name is given, in whatever place.
pub open spec fn is_given(arguments: Seq<Seq<char>>, name: Seq<char>) -> bool {
    exists|at: int| #[trigger] is_option(arguments, at) && arguments[at] == name
}

/// Whether the option at a place is one that the command takes: the path of the configuration file
/// with that path, or `--dry-run` and `--force` for an installation.
pub open spec fn is_taken(arguments: Seq<Seq<char>>, at: int) -> bool {
    ||| announces_path(arguments[at]) && at + 1 < arguments.len()
    ||| arguments[0] == "install"@ && (arguments[at] == "--dry-run"@ || arguments[at]
        == "--force"@)
}

/// Whether all options are ones that the command takes.
pub open spec fn all_taken(arguments: Seq<Seq<char>>) -> bool {
    forall|at: int| #[trigger] is_option(arguments, at) ==> is_taken(arguments, at)
}

/// Whether the option at a place is the first that the command does not take.
pub open spec fn is_first_strange(arguments: Seq<Seq<char>>, at: int) -> bool {
    &&& is_option(arguments, at)
    &&& !is_taken(arguments, at)
    &&& forall|i: int| i < at && #[trigger] is_option(arguments, i) ==> is_taken(arguments, i)
}

/// Whether the argument at a place is the last path of a configuration file that is given.
pub open spec fn is_last_value(arguments: Seq<Seq<char>>, at: int) -> bool {
    &&& 0 <= at < arguments.len()
    &&& is_value(arguments, at)
    &&& forall|i: int| at < i < arguments.len() ==> !#[trigger] is_value(arguments, i)
}

proof fn lemma_options_differ()
    ensures
        !announces_path("--dry-run"@),
        !announces_path("--force"@),
        !announces_path("--help"@),
        !announces_path("-h"@),
        "--dry-run"@ != "--force"@,
        "--dry-run"@ != "--help"@,
        "--dry-run"@ != "-h"@,
        "--force"@ != "--help"@,
        "--force"@ != "-h"@,
        "status"@ != "install"@,
        "help"@ != "status"@,
        "help"@ != "install"@,
        "--help"@ != "status"@,
        "--help"@ != "install"@,
        "-h"@ != "status"@,
        "-h"@ != "install"@,
{
    reveal_strlit("--config");
    reveal_strlit("-c");
    reveal_strlit("--dry-run");
    reveal_strlit("--force");
    reveal_strlit("--help");
    reveal_strlit("-h");
    reveal_strlit("status");
    reveal_strlit("install");
    reveal_strlit("help");
    assert("--config"@.len() == 8 && "-c"@.len() == 2);
    assert("--dry-run"@.len() == 9 && "--force"@.len() == 7);
    assert("--help"@.len() == 6 && "-h"@.len() == 2);
    assert("status"@.len() == 6 && "install"@.len() == 7 && "help"@.len() == 4);
    assert("-c"@[1] != "-h"@[1]);
    assert("--help"@[0] != "status"@[0]);
}

/// What the options from a place on come to, given what those before it say.
proof fn lemma_options_from(arguments: Seq<Seq<char>>, from: int, options: Options)
    requires
        1 <= from <= arguments.len(),
        !is_value(arguments, from),
    ensures
        ({
            let parsed = session::parsed_options(arguments[0], arguments.skip(from), options);
            &&& (forall|i: int|
                from <= i && #[trigger] is_option(arguments, i) ==> is_taken(arguments, i))
                <==> parsed is Options
            &&& parsed matches Parsed::Options(found) ==> {
                &&& found.dry_run <==> options.dry_run || exists|i: int|
                    from <= i && #[trigger] is_option(arguments, i) && arguments[i]
                        == "--dry-run"@
                &&& found.force <==> options.force || exists|i: int|
                    from <= i && #[trigger] is_option(arguments, i) && arguments[i] == "--force"@
                &&& (forall|i: int|
                    from <= i < arguments.len() ==> !#[trigger] is_value(arguments, i))
                    ==> found.config == options.config
                &&& forall|i: int|
                    from <= i && #[trigger] is_last_value(arguments, i) ==> found.config == Some(
                        arguments[i],
                    )
            }
            &&& forall|at: int|
                from <= at && #[trigger] is_option(arguments, at) && !is_taken(arguments, at) && (
                forall|i: int|
                    from <= i < at && #[trigger] is_option(arguments, i) ==> is_taken(arguments, i))
                    ==> parsed == stopped_by(arguments[at])
        }),
    decreases arguments.len() - from,
{
    let rest = arguments.skip(from);
    let parsed = session::parsed_options(arguments[0], rest, options);
    lemma_options_differ();
    if from < arguments.len() {
        let argument = arguments[from];
        assert(rest[0] == argument);
        assert(is_option(arguments, from));
        if announces_path(argument) {
            assert(is_value(arguments, from + 1));
            assert(!is_value(arguments, from + 2));
            if from + 1 < arguments.len() {
                let next = Options { config: Some(arguments[from + 1]), ..options };
                assert(rest.skip(2) =~= arguments.skip(from + 2));
                assert(rest[1] == arguments[from + 1]);
                lemma_options_from(arguments, from + 2, next);
                lemma_skip_places(arguments, from, from + 2);
                assert(parsed == session::parsed_options(
                    arguments[0],
                    arguments.skip(from + 2),
                    next,
                ));
            }
        } else if arguments[0] == "install"@ && (argument == "--dry-run"@ || argument
            == "--force"@) {
            let next = if argument == "--dry-run"@ {
                Options { dry_run: true, ..options }
            } else {
                Options { force: true, ..options }
            };
            assert(!is_value(arguments, from + 1));
            assert(rest.skip(1) =~= arguments.skip(from + 1));
            lemma_options_from(arguments, from + 1, next);
            lemma_skip_places(arguments, from, from + 1);
            assert(parsed == session::parsed_options(arguments[0], arguments.skip(from + 1), next));
        } else {
            assert(!is_taken(arguments, from));
        }
    }
}

/// The places from one on are that one, those up to the next, and those from there on.
proof fn lemma_skip_places(arguments: Seq<Seq<char>>, from: int, next: int)
    requires
        1 <= from < next <= from + 2,
        from < arguments.len(),
        is_option(arguments, from),
        next == from + 2 ==> is_value(arguments, from + 1),
    ensures
        forall|i: int|
            from <= i && #[trigger] is_option(arguments, i) ==> i == from || i >= next,
{
}

/// What an option comes to that the command does not take: help if it asks for that, else a
/// complaint.
pub open spec fn stopped_by(argument: Seq<char>) -> Parsed {
    if argument == "--help"@ || argument == "-h"@ {
        Parsed::Help
    } else if announces_path(argument) {
        Parsed::Refused("--config requires a path"@)
    } else {
        Parsed::Refused("unknown argument: "@ + argument)
    }
}

/// What arguments ask for that are all taken: `dry_run` and `force` hold if and only if `--dry-run`
/// and `--force` are given, in whatever order and number and not as the path of a configuration
/// file, and the last such path counts.
pub proof fn law_plan_of_a_run(arguments: Seq<Seq<char>>)
    ensures
        session::planned(arguments) is Run <==> arguments.len() > 0 && (arguments[0] == "status"@
            || arguments[0] == "install"@) && all_taken(arguments),
        session::planned(arguments) matches PlanView::Run { command, config } ==> {
            &&& command is Status <==> arguments[0] == "status"@
            &&& command is Install <==> arguments[0] == "install"@
            &&& command matches Command::Install(options) ==> {
                &&& options.dry_run <==> is_given(arguments, "--dry-run"@)
                &&& options.force <==> is_given(arguments, "--force"@)
            }
            &&& (forall|i: int| 0 <= i < arguments.len() ==> !#[trigger] is_value(arguments, i))
                ==> config is None
            &&& forall|i: int| #[trigger]
                is_last_value(arguments, i) ==> config == Some(path::bytes_of(arguments[i]))
        },
{
    lemma_options_differ();
    if arguments.len() > 0 {
        lemma_options_from(arguments, 1, session::no_options());
        assert(!is_value(arguments, 0) && !is_value(arguments, 1));
        assert(forall|i: int| #[trigger] is_option(arguments, i) ==> 1 <= i);
        assert forall|i: int| #[trigger] is_last_value(arguments, i) implies 1 <= i by {}
    }
}

/// What arguments ask for that are no command on entries: without any, the usage and the code two;
/// the first option that is not taken asks for help or is refused; then a command that asks for
/// help, or is none.
pub proof fn law_plan_of_no_run(arguments: Seq<Seq<char>>)
    ensures
        arguments.len() == 0 ==> session::planned(arguments) == (PlanView::Usage { code: 2 }),
        forall|at: int| #[trigger]
            is_first_strange(arguments, at) ==> session::planned(arguments) == if arguments[at]
                == "--help"@ || arguments[at] == "-h"@ {
                PlanView::Usage { code: 0 }
            } else if announces_path(arguments[at]) {
                PlanView::Refused("--config requires a path"@)
            } else {
                PlanView::Refused("unknown argument: "@ + arguments[at])
            },
        arguments.len() > 0 && all_taken(arguments) && (arguments[0] == "help"@ || arguments[0]
            == "--help"@ || arguments[0] == "-h"@) ==> session::planned(arguments)
            == (PlanView::Usage { code: 0 }),
        arguments.len() > 0 && all_taken(arguments) && !(arguments[0] == "help"@ || arguments[0]
            == "--help"@ || arguments[0] == "-h"@ || arguments[0] == "status"@ || arguments[0]
            == "install"@) ==> session::planned(arguments) == PlanView::Refused(
            "unknown command: "@ + arguments[0],
        ),
{
    lemma_options_differ();
    if arguments.len() > 0 {
        lemma_options_from(arguments, 1, session::no_options());
        assert(!is_value(arguments, 0) && !is_value(arguments, 1));
        assert(forall|i: int| #[trigger] is_option(arguments, i) ==> 1 <= i);
        assert forall|at: int| #[trigger] is_first_strange(arguments, at) implies
            session::parsed_options(arguments[0], arguments.skip(1), session::no_options())
            == stopped_by(arguments[at]) by {
            assert(is_option(arguments, at));
        }
    }
}

/// From the arguments on: a session that is given `--dry-run` asks for no change, whatever else it
/// is given and whatever the system answers.
pub proof fn law_dry_run_is_dry(arguments: Seq<Seq<char>>, replies: Seq<ReplyView>)
    requires
        is_given(arguments, "--dry-run"@),
    ensures
        installs::changes_nothing(
            sessions::session_trace(
                session::session_begin(session::planned(arguments)),
                replies,
            ),
        ),
{
    let plan = session::planned(arguments);
    let trace = sessions::session_trace(session::session_begin(plan), replies);
    law_plan_of_a_run(arguments);
    assert forall|at: int| 0 <= at < trace.len() implies !(#[trigger] trace[at]).changes() by {
        if trace[at].changes() {
            sessions::law_only_install_changes(plan, replies, at);
        }
    }
}

/// A session that is not to install asks for no change either.
pub proof fn law_only_install_changes_anything(
    arguments: Seq<Seq<char>>,
    replies: Seq<ReplyView>,
)
    requires
        arguments.len() == 0 || arguments[0] != "install"@,
    ensures
        installs::changes_nothing(
            sessions::session_trace(
                session::session_begin(session::planned(arguments)),
                replies,
            ),
        ),
{
    let plan = session::planned(arguments);
    let trace = sessions::session_trace(session::session_begin(plan), replies);
    law_plan_of_a_run(arguments);
    assert forall|at: int| 0 <= at < trace.len() implies !(#[trigger] trace[at]).changes() by {
        if trace[at].changes() {
            sessions::law_only_install_changes(plan, replies, at);
        }
    }
}

/// The usage is printed in these lines, and then the program ends with the code of the plan. A
/// refusal ends it at once.
pub proof fn law_usage(code: u8, message: Seq<char>, reply: ReplyView)
    ensures
        ({
            let step = session::session_begin(PlanView::Usage { code });
            &&& step is Ask && step->request == RequestView::Print(
                seq![
                    "Usage:"@,
                    "  magsys status [--config PATH]"@,
                    "  magsys install [--dry-run] [--force] [--config PATH]"@,
                ],
            )
            &&& session::session_next(step->state, reply) == SessionStepView::Exit(code)
        }),
        session::session_begin(PlanView::Refused(message)) == SessionStepView::Fail(message),
{
}

/// The word for a status in a report.
pub open spec fn status_word(status: EntryStatus) -> Seq<char> {
    match status {
        EntryStatus::InPlace => "ok"@,
        EntryStatus::Missing => "missing"@,
        EntryStatus::Modified => "modified"@,
        EntryStatus::Conflict => "conflict"@,
        EntryStatus::Unreadable => "unreadable"@,
    }
}

/// A line of the report is the word for the status, a space, and the target. So a line starts with
/// `ok` and a space if and only if the target is in place, and lines on one target differ where the
/// statuses do.
pub proof fn law_report_lines(status: EntryStatus, other: EntryStatus, target: Seq<u8>)
    ensures
        session::report_line(status, target) == status_word(status) + seq![' '] + text::lossy_text(
            target,
        ),
        session::report_line(status, target).take(3) == seq!['o', 'k', ' '] <==> status is InPlace,
        status != other ==> session::report_line(status, target) != session::report_line(
            other,
            target,
        ),
{
    entries::law_status_names();
    reveal_strlit(" ");
    reveal_strlit("ok");
    reveal_strlit("missing");
    reveal_strlit("modified");
    reveal_strlit("conflict");
    reveal_strlit("unreadable");
    assert(" "@ =~= seq![' ']);
    let line = session::report_line(status, target);
    let second = session::report_line(other, target);
    let word = status_word(status);
    assert(forall|i: int| 0 <= i < word.len() ==> line[i] == #[trigger] word[i]);
    assert(line[0] == word[0]);
    assert(line[1] == word[1]);
    if status is InPlace {
        assert(line.take(3) =~= seq!['o', 'k', ' ']);
    } else {
        assert(line.take(3)[0] == line[0]);
        assert(seq!['o', 'k', ' '][0] == 'o');
    }
    assert(second[0] == status_word(other)[0]);
    assert(second[1] == status_word(other)[1]);
}

/// The lines on an installation are its operations, one for one, each after `would` and a space in
/// a dry run.
pub proof fn law_operation_lines(operations: Seq<Seq<char>>)
    ensures
        session::operation_lines(false, operations) == operations,
        session::operation_lines(true, operations).len() == operations.len(),
        forall|i: int|
            0 <= i < operations.len() ==> #[trigger] session::operation_lines(true, operations)[i]
                == seq!['w', 'o', 'u', 'l', 'd', ' '] + operations[i],
{
    reveal_strlit("would ");
    assert("would "@ =~= seq!['w', 'o', 'u', 'l', 'd', ' ']);
    assert(session::operation_lines(false, operations) =~= operations);
}

/// Before any change the session has read `/proc/self/status`, and that named a user other than
/// root as the effective one.
pub proof fn law_no_change_as_root(plan: PlanView, replies: Seq<ReplyView>, at: int)
    requires
        0 <= at < sessions::session_trace(session::session_begin(plan), replies).len(),
        sessions::session_trace(session::session_begin(plan), replies)[at].changes(),
    ensures
        exists|i: int|
            0 <= i < at && i < replies.len() && #[trigger] sessions::session_trace(
                session::session_begin(plan),
                replies,
            )[i] == RequestView::ReadText(path::bytes_of("/proc/self/status"@)) && (
            replies[i]->Text_0 matches Ok(status) && (privilege::effective_user(
                status,
            ) matches Some(user) && user != 0)),
{
    let trace = sessions::session_trace(session::session_begin(plan), replies);
    sessions::law_root_changes_nothing(plan, replies, at);
    let i = choose|i: int|
        0 <= i < at && i < replies.len() && sessions::is_regular_user(
            #[trigger] trace[i],
            replies[i],
        );
    assert(trace[i] == RequestView::ReadText(path::bytes_of("/proc/self/status"@)));
}

/// What a command does first: it loads the configuration file that it is given, or asks for the
/// current directory and searches from there.
pub proof fn law_command_starts(
    command: Command,
    config: Seq<u8>,
    start: Seq<u8>,
)
    ensures
        session::session_begin(PlanView::Run { command, config: Some(config) })->request
            == RequestView::ReadText(config),
        session::session_begin(PlanView::Run { command, config: None })->request
            == RequestView::CurrentDirectory,
        session::session_next(
            SessionStateView::Directory { command },
            ReplyView::Path(Ok(start)),
        )->request == RequestView::Canonicalize(start),
{
}

} // verus!
