//! The program from its arguments to its exit code.
use vstd::pervasive::unreached;
use vstd::prelude::*;
use vstd::string::*;

use crate::entry;
use crate::entry::Entry;
use crate::entry::EntryStatus;
use crate::entry::EntryView;
use crate::entry::InstallOptions;
use crate::error;
use crate::error::Error;
use crate::error::ErrorView;
use crate::install;
use crate::install::InstallState;
use crate::install::InstallStateView;
use crate::install::InstallStep;
use crate::install::InstallStepView;
use crate::load;
use crate::load::LoadState;
use crate::load::LoadStateView;
use crate::load::LoadStep;
use crate::load::LoadStepView;
use crate::path;
use crate::path::UnixPath;
use crate::privilege;
use crate::request;
use crate::request::Reply;
use crate::request::ReplyView;
use crate::request::Request;
use crate::request::RequestView;
use crate::search;
use crate::search::SearchState;
use crate::search::SearchStateView;
use crate::search::SearchStep;
use crate::search::SearchStepView;
use crate::status;
use crate::status::StatusState;
use crate::status::StatusStateView;
use crate::status::StatusStep;
use crate::status::StatusStepView;

verus! {

/// What the program is to do with the entries.
#[derive(Debug, Clone, Copy)]
pub enum Command {
    Status,
    Install(InstallOptions),
}

/// What the arguments ask for.
#[derive(Debug)]
pub enum Plan {
    /// To show how the program is used.
    Usage { code: u8 },
    /// Something that there is not.
    Refused(String),
    /// A command on the entries of a configuration file, which may have to be looked for.
    Run { command: Command, config: Option<UnixPath> },
}

/// What a session waits for.
#[derive(Debug)]
#[allow(inconsistent_fields)]
pub enum SessionState {
    /// The end of the usage text.
    Leave { code: u8 },
    /// The current directory.
    Directory { command: Command },
    /// What the search for the configuration file waits for.
    Search { command: Command, start: UnixPath, state: SearchState },
    /// What the loading of the entries waits for.
    Load { command: Command, config: UnixPath, state: LoadState },
    /// What the comparison of the current target waits for.
    Report { current: Entry, rest: Vec<Entry>, clean: bool, state: StatusState },
    /// The end of a line of the report.
    Reported { rest: Vec<Entry>, clean: bool },
    /// The status of the process.
    User { options: InstallOptions, entries: Vec<Entry> },
    /// What the comparison of the current target waits for, before anything is installed.
    Survey {
        options: InstallOptions,
        surveyed: Vec<Entry>,
        current: Entry,
        rest: Vec<Entry>,
        state: StatusState,
    },
    /// What the installation of the current entry waits for.
    Install { options: InstallOptions, current: Entry, rest: Vec<Entry>, state: InstallState },
    /// The end of the lines on what was done.
    Installed { options: InstallOptions, rest: Vec<Entry> },
}

#[derive(Debug)]
pub enum SessionStep {
    Ask { request: Request, state: SessionState },
    /// The end, with an exit code.
    Exit(u8),
    /// The end, with a complaint.
    Fail(String),
}

pub enum PlanView {
    Usage { code: u8 },
    Refused(Seq<char>),
    Run { command: Command, config: Option<Seq<u8>> },
}

#[allow(inconsistent_fields)]
pub enum SessionStateView {
    Leave { code: u8 },
    Directory { command: Command },
    Search { command: Command, start: Seq<u8>, state: SearchStateView },
    Load { command: Command, config: Seq<u8>, state: LoadStateView },
    Report { current: EntryView, rest: Seq<EntryView>, clean: bool, state: StatusStateView },
    Reported { rest: Seq<EntryView>, clean: bool },
    User { options: InstallOptions, entries: Seq<EntryView> },
    Survey {
        options: InstallOptions,
        surveyed: Seq<EntryView>,
        current: EntryView,
        rest: Seq<EntryView>,
        state: StatusStateView,
    },
    Install {
        options: InstallOptions,
        current: EntryView,
        rest: Seq<EntryView>,
        state: InstallStateView,
    },
    Installed { options: InstallOptions, rest: Seq<EntryView> },
}

pub enum SessionStepView {
    Ask { request: RequestView, state: SessionStateView },
    Exit(u8),
    Fail(Seq<char>),
}

impl View for Plan {
    type V = PlanView;

    open spec fn view(&self) -> PlanView {
        match self {
            Plan::Usage { code } => PlanView::Usage { code: *code },
            Plan::Refused(message) => PlanView::Refused(message@),
            Plan::Run { command, config } => PlanView::Run {
                command: *command,
                config: request::viewed(*config),
            },
        }
    }
}

impl View for SessionState {
    type V = SessionStateView;

    open spec fn view(&self) -> SessionStateView {
        match self {
            SessionState::Leave { code } => SessionStateView::Leave { code: *code },
            SessionState::Directory { command } => SessionStateView::Directory {
                command: *command,
            },
            SessionState::Search { command, start, state } => SessionStateView::Search {
                command: *command,
                start: start@,
                state: state@,
            },
            SessionState::Load { command, config, state } => SessionStateView::Load {
                command: *command,
                config: config@,
                state: state@,
            },
            SessionState::Report { current, rest, clean, state } => SessionStateView::Report {
                current: current@,
                rest: request::each(rest@),
                clean: *clean,
                state: state@,
            },
            SessionState::Reported { rest, clean } => SessionStateView::Reported {
                rest: request::each(rest@),
                clean: *clean,
            },
            SessionState::User { options, entries } => SessionStateView::User {
                options: *options,
                entries: request::each(entries@),
            },
            SessionState::Survey {
                options,
                surveyed,
                current,
                rest,
                state,
            } => SessionStateView::Survey {
                options: *options,
                surveyed: request::each(surveyed@),
                current: current@,
                rest: request::each(rest@),
                state: state@,
            },
            SessionState::Install { options, current, rest, state } => SessionStateView::Install {
                options: *options,
                current: current@,
                rest: request::each(rest@),
                state: state@,
            },
            SessionState::Installed { options, rest } => SessionStateView::Installed {
                options: *options,
                rest: request::each(rest@),
            },
        }
    }
}

impl View for SessionStep {
    type V = SessionStepView;

    open spec fn view(&self) -> SessionStepView {
        match self {
            SessionStep::Ask { request, state } => SessionStepView::Ask {
                request: request@,
                state: state@,
            },
            SessionStep::Exit(code) => SessionStepView::Exit(*code),
            SessionStep::Fail(message) => SessionStepView::Fail(message@),
        }
    }
}

/// What the options so far say.
pub struct Options {
    pub config: Option<Seq<char>>,
    pub dry_run: bool,
    pub force: bool,
}

/// What a list of options comes to.
pub enum Parsed {
    Options(Options),
    Help,
    Refused(Seq<char>),
}

/// The options after a command, from left to right. The first that is wrong, or asks for help,
/// ends the matter; of those that are given twice the last counts.
pub open spec fn parsed_options(
    command: Seq<char>,
    rest: Seq<Seq<char>>,
    options: Options,
) -> Parsed
    decreases rest.len(),
{
    if rest.len() == 0 {
        Parsed::Options(options)
    } else if rest[0] == "--config"@ || rest[0] == "-c"@ {
        if rest.len() == 1 {
            Parsed::Refused("--config requires a path"@)
        } else {
            parsed_options(command, rest.skip(2), Options { config: Some(rest[1]), ..options })
        }
    } else if rest[0] == "--dry-run"@ && command == "install"@ {
        parsed_options(command, rest.skip(1), Options { dry_run: true, ..options })
    } else if rest[0] == "--force"@ && command == "install"@ {
        parsed_options(command, rest.skip(1), Options { force: true, ..options })
    } else if rest[0] == "--help"@ || rest[0] == "-h"@ {
        Parsed::Help
    } else {
        Parsed::Refused("unknown argument: "@ + rest[0])
    }
}

pub open spec fn no_options() -> Options {
    Options { config: None, dry_run: false, force: false }
}

/// What a command with its options asks for.
pub open spec fn command_plan(command: Seq<char>, options: Options) -> PlanView {
    let config = match options.config {
        Some(text) => Some(path::bytes_of(text)),
        None => None,
    };
    if command == "help"@ || command == "--help"@ || command == "-h"@ {
        PlanView::Usage { code: 0 }
    } else if command == "status"@ {
        PlanView::Run { command: Command::Status, config }
    } else if command == "install"@ {
        PlanView::Run {
            command: Command::Install(
                InstallOptions { dry_run: options.dry_run, force: options.force },
            ),
            config,
        }
    } else {
        PlanView::Refused("unknown command: "@ + command)
    }
}

/// What the arguments, without the name of the program, ask for.
pub open spec fn planned(arguments: Seq<Seq<char>>) -> PlanView {
    if arguments.len() == 0 {
        PlanView::Usage { code: 2 }
    } else {
        match parsed_options(arguments[0], arguments.skip(1), no_options()) {
            Parsed::Help => PlanView::Usage { code: 0 },
            Parsed::Refused(message) => PlanView::Refused(message),
            Parsed::Options(options) => command_plan(arguments[0], options),
        }
    }
}

fn equals(text: &String, literal: &str) -> (result: bool)
    ensures
        result == (text@ == literal@),
{
    *text == literal.to_string()
}

/// Reads the arguments, without the name of the program.
pub fn plan(arguments: &Vec<String>) -> (result: Plan)
    ensures
        result@ == planned(request::each(arguments@)),
{
    let ghost all = request::each(arguments@);
    if arguments.len() == 0 {
        return Plan::Usage { code: 2 };
    }
    let command = &arguments[0];
    let install = equals(command, "install");
    let mut config: Option<UnixPath> = None;
    let ghost mut config_text: Option<Seq<char>> = None;
    let mut dry_run = false;
    let mut force = false;
    let mut index: usize = 1;
    while index < arguments.len()
        invariant
            1 <= index <= arguments.len(),
            all == request::each(arguments@),
            command@ == all[0],
            install == (all[0] == "install"@),
            request::viewed(config) == (match config_text {
                Some(text) => Some(path::bytes_of(text)),
                None => None,
            }),
            parsed_options(all[0], all.skip(1), no_options()) == parsed_options(
                all[0],
                all.skip(index as int),
                Options { config: config_text, dry_run, force },
            ),
        decreases arguments.len() - index,
    {
        let ghost rest = all.skip(index as int);
        let argument = &arguments[index];
        assert(rest[0] == argument@);
        assert(rest.skip(1) =~= all.skip(index + 1));
        if equals(argument, "--config") || equals(argument, "-c") {
            if index + 1 >= arguments.len() {
                return Plan::Refused("--config requires a path".to_string());
            }
            assert(rest.skip(2) =~= all.skip(index + 2));
            assert(rest[1] == arguments@[index + 1]@);
            config = Some(UnixPath::new(arguments[index + 1].as_str()));
            proof {
                config_text = Some(arguments@[index + 1]@);
            }
            index = index + 2;
        } else if install && equals(argument, "--dry-run") {
            dry_run = true;
            index = index + 1;
        } else if install && equals(argument, "--force") {
            force = true;
            index = index + 1;
        } else if equals(argument, "--help") || equals(argument, "-h") {
            return Plan::Usage { code: 0 };
        } else {
            return Plan::Refused("unknown argument: ".to_string().concat(argument.as_str()));
        }
    }
    if equals(command, "help") || equals(command, "--help") || equals(command, "-h") {
        return Plan::Usage { code: 0 };
    }
    if equals(command, "status") {
        return Plan::Run { command: Command::Status, config };
    }
    if install {
        let options = InstallOptions { dry_run, force };
        return Plan::Run { command: Command::Install(options), config };
    }
    Plan::Refused("unknown command: ".to_string().concat(command.as_str()))
}

/// The lines that show how the program is used.
pub open spec fn usage() -> Seq<Seq<char>> {
    seq![
        "Usage:"@,
        "  magsys status [--config PATH]"@,
        "  magsys install [--dry-run] [--force] [--config PATH]"@,
    ]
}

/// A line of the report.
pub open spec fn report_line(status: EntryStatus, target: Seq<u8>) -> Seq<char> {
    entry::status_name(status) + " "@ + path::path_text(target)
}

/// A line on what was done, or would be.
pub open spec fn operation_line(dry_run: bool, operation: Seq<char>) -> Seq<char> {
    if dry_run {
        "would "@ + operation
    } else {
        operation
    }
}

pub open spec fn operation_lines(dry_run: bool, operations: Seq<Seq<char>>) -> Seq<Seq<char>> {
    operations.map_values(|operation: Seq<char>| operation_line(dry_run, operation))
}

/// The file that tells who runs the program.
pub open spec fn process_status() -> RequestView {
    RequestView::ReadText(path::bytes_of("/proc/self/status"@))
}

pub open spec fn fail(error: ErrorView) -> SessionStepView {
    SessionStepView::Fail(error::error_text(error))
}

/// Whether a reply is of the kind that a state waits for.
pub open spec fn session_fits(state: SessionStateView, reply: ReplyView) -> bool {
    match state {
        SessionStateView::Leave { code } => reply is Printed,
        SessionStateView::Directory { command } => reply is Path,
        SessionStateView::Search { command, start, state } => search::search_request(
            start,
            state,
        ).fits(reply),
        SessionStateView::Load { command, config, state } => load::load_request(
            config,
            state,
        ).fits(reply),
        SessionStateView::Report { current, rest, clean, state } => status::status_request(
            current,
            state,
        ).fits(reply),
        SessionStateView::Reported { rest, clean } => reply is Printed,
        SessionStateView::User { options, entries } => reply is Text,
        SessionStateView::Survey { options, surveyed, current, rest, state } =>
            status::status_request(current, state).fits(reply),
        SessionStateView::Install { options, current, rest, state } => install::install_request(
            current,
            state,
        ).fits(reply),
        SessionStateView::Installed { options, rest } => reply is Printed,
    }
}

/// Whether every reply that fits the request of a step is of the kind that its state waits for.
pub open spec fn asks_in_kind(step: SessionStepView) -> bool {
    step matches SessionStepView::Ask { request, state } ==> forall|reply: ReplyView|
        request.fits(reply) ==> #[trigger] session_fits(state, reply)
}

/// Compares the next target for the report, or ends where there is none.
pub open spec fn report_take(rest: Seq<EntryView>, clean: bool) -> SessionStepView {
    if rest.len() == 0 {
        SessionStepView::Exit(
            if clean {
                0
            } else {
                1
            },
        )
    } else {
        follow_report(rest[0], rest.drop_first(), clean, status::status_begin(rest[0]))
    }
}

pub open spec fn follow_report(
    current: EntryView,
    rest: Seq<EntryView>,
    clean: bool,
    step: StatusStepView,
) -> SessionStepView {
    match step {
        StatusStepView::Ask { request, state } => SessionStepView::Ask {
            request,
            state: SessionStateView::Report { current, rest, clean, state },
        },
        StatusStepView::Done(Ok(status)) => SessionStepView::Ask {
            request: RequestView::Print(seq![report_line(status, current.target())]),
            state: SessionStateView::Reported {
                rest,
                clean: clean && status == EntryStatus::InPlace,
            },
        },
        StatusStepView::Done(Err(error)) => fail(error),
    }
}

/// Installs the next entry, or ends where there is none.
pub open spec fn install_take(options: InstallOptions, rest: Seq<EntryView>) -> SessionStepView {
    if rest.len() == 0 {
        SessionStepView::Exit(0)
    } else {
        follow_install(options, rest[0], rest.drop_first(), install::install_begin(rest[0]))
    }
}

pub open spec fn follow_install(
    options: InstallOptions,
    current: EntryView,
    rest: Seq<EntryView>,
    step: InstallStepView,
) -> SessionStepView {
    match step {
        InstallStepView::Ask { request, state } => SessionStepView::Ask {
            request,
            state: SessionStateView::Install { options, current, rest, state },
        },
        InstallStepView::Done(Ok(operations)) => SessionStepView::Ask {
            request: RequestView::Print(operation_lines(options.dry_run, operations)),
            state: SessionStateView::Installed { options, rest },
        },
        InstallStepView::Done(Err(error)) => fail(error),
    }
}

/// Looks at the next target before anything is installed; starts to install where there is none.
pub open spec fn survey_take(
    options: InstallOptions,
    surveyed: Seq<EntryView>,
    rest: Seq<EntryView>,
) -> SessionStepView {
    if rest.len() == 0 {
        install_take(options, surveyed)
    } else {
        match status::status_begin(rest[0]) {
            StatusStepView::Ask { request, state } => SessionStepView::Ask {
                request,
                state: SessionStateView::Survey {
                    options,
                    surveyed,
                    current: rest[0],
                    rest: rest.drop_first(),
                    state,
                },
            },
            StatusStepView::Done(result) => fail(result->Err_0),
        }
    }
}

/// Goes over to the command once the entries are loaded.
pub open spec fn follow_load(
    command: Command,
    config: Seq<u8>,
    step: LoadStepView,
) -> SessionStepView {
    match step {
        LoadStepView::Ask { request, state } => SessionStepView::Ask {
            request,
            state: SessionStateView::Load { command, config, state },
        },
        LoadStepView::Done(Ok(entries)) => match command {
            Command::Status => report_take(entries, true),
            Command::Install(options) => SessionStepView::Ask {
                request: process_status(),
                state: SessionStateView::User { options, entries },
            },
        },
        LoadStepView::Done(Err(error)) => fail(error),
    }
}

pub open spec fn load_config(command: Command, config: Seq<u8>) -> SessionStepView {
    follow_load(command, config, load::load_ask(config, LoadStateView::Text))
}

pub open spec fn follow_search(
    command: Command,
    start: Seq<u8>,
    step: SearchStepView,
) -> SessionStepView {
    match step {
        SearchStepView::Ask { request, state } => SessionStepView::Ask {
            request,
            state: SessionStateView::Search { command, start, state },
        },
        SearchStepView::Done(Ok(config)) => load_config(command, config),
        SearchStepView::Done(Err(error)) => fail(error),
    }
}

/// The start of a session with a plan.
pub open spec fn session_begin(plan: PlanView) -> SessionStepView {
    match plan {
        PlanView::Usage { code } => SessionStepView::Ask {
            request: RequestView::Print(usage()),
            state: SessionStateView::Leave { code },
        },
        PlanView::Refused(message) => SessionStepView::Fail(message),
        PlanView::Run { command, config } => match config {
            Some(config) => load_config(command, config),
            None => SessionStepView::Ask {
                request: RequestView::CurrentDirectory,
                state: SessionStateView::Directory { command },
            },
        },
    }
}

/// What a reply leads to.
pub open spec fn session_next(state: SessionStateView, reply: ReplyView) -> SessionStepView {
    match state {
        SessionStateView::Leave { code } => SessionStepView::Exit(code),
        SessionStateView::Directory { command } => match reply->Path_0 {
            Ok(start) => follow_search(
                command,
                start,
                search::search_ask(start, SearchStateView::Start),
            ),
            Err(error) => fail(ErrorView::Io(error)),
        },
        SessionStateView::Search { command, start, state } => follow_search(
            command,
            start,
            search::search_next(start, state, reply),
        ),
        SessionStateView::Load { command, config, state } => follow_load(
            command,
            config,
            load::load_next(config, state, reply),
        ),
        SessionStateView::Report { current, rest, clean, state } => follow_report(
            current,
            rest,
            clean,
            status::status_next(current, state, reply),
        ),
        SessionStateView::Reported { rest, clean } => report_take(rest, clean),
        SessionStateView::User { options, entries } => match privilege::root_fault(
            reply->Text_0,
        ) {
            Some(error) => fail(error),
            None => survey_take(options, Seq::empty(), entries),
        },
        SessionStateView::Survey {
            options,
            surveyed,
            current,
            rest,
            state,
        } => match status::status_next(current, state, reply) {
            StatusStepView::Ask { request, state } => SessionStepView::Ask {
                request,
                state: SessionStateView::Survey { options, surveyed, current, rest, state },
            },
            StatusStepView::Done(Ok(status)) => if status == EntryStatus::Conflict
                && !options.force {
                fail(ErrorView::Conflict(current.target()))
            } else {
                survey_take(options, surveyed.push(current), rest)
            },
            StatusStepView::Done(Err(error)) => fail(error),
        },
        SessionStateView::Install { options, current, rest, state } => follow_install(
            options,
            current,
            rest,
            install::install_next(current, options, state, reply),
        ),
        SessionStateView::Installed { options, rest } => install_take(options, rest),
    }
}

fn fail_with(error: Error) -> (step: SessionStep)
    ensures
        step@ == fail(error@),
{
    SessionStep::Fail(error.message())
}

/// The line of the report on a target.
pub fn status_line(status: EntryStatus, target: &UnixPath) -> (line: String)
    ensures
        line@ == report_line(status, target@),
{
    status.name().to_string().concat(" ").concat(target.display().as_str())
}

fn lines_on(dry_run: bool, operations: &Vec<String>) -> (lines: Vec<String>)
    ensures
        request::each(lines@) == operation_lines(dry_run, request::each(operations@)),
{
    broadcast use request::lemma_each_push;

    let ghost wanted = operation_lines(dry_run, request::each(operations@));
    let mut lines: Vec<String> = Vec::new();
    let mut i: usize = 0;
    while i < operations.len()
        invariant
            i <= operations.len(),
            wanted == operation_lines(dry_run, request::each(operations@)),
            request::each(lines@) =~= wanted.take(i as int),
        decreases operations.len() - i,
    {
        let operation = &operations[i];
        let line = if dry_run {
            "would ".to_string().concat(operation.as_str())
        } else {
            operation.clone()
        };
        assert(wanted[i as int] == line@);
        lines.push(line);
        assert(wanted.take(i + 1) =~= wanted.take(i as int).push(wanted[i as int]));
        i = i + 1;
    }
    assert(wanted.take(wanted.len() as int) =~= wanted);
    lines
}

fn take_report(rest: Vec<Entry>, clean: bool) -> (step: SessionStep)
    ensures
        step@ == report_take(request::each(rest@), clean),
{
    if rest.len() == 0 {
        return SessionStep::Exit(
            if clean {
                0
            } else {
                1
            },
        );
    }
    let mut rest = rest;
    let current = load::take_first(&mut rest);
    let step = status::begin_status(&current);
    go_on_report(current, rest, clean, step)
}

fn go_on_report(current: Entry, rest: Vec<Entry>, clean: bool, step: StatusStep) -> (result:
    SessionStep)
    ensures
        result@ == follow_report(current@, request::each(rest@), clean, step@),
{
    broadcast use request::lemma_each_push;

    match step {
        StatusStep::Ask { request, state } => SessionStep::Ask {
            request,
            state: SessionState::Report { current, rest, clean, state },
        },
        StatusStep::Done(Ok(status)) => {
            let mut lines: Vec<String> = Vec::new();
            lines.push(status_line(status, current.target()));
            assert(request::each(lines@) =~= seq![report_line(status, current@.target())]);
            SessionStep::Ask {
                request: Request::Print(lines),
                state: SessionState::Reported {
                    rest,
                    clean: clean && status == EntryStatus::InPlace,
                },
            }
        },
        StatusStep::Done(Err(error)) => fail_with(error),
    }
}

fn take_install(options: InstallOptions, rest: Vec<Entry>) -> (step: SessionStep)
    ensures
        step@ == install_take(options, request::each(rest@)),
{
    if rest.len() == 0 {
        return SessionStep::Exit(0);
    }
    let mut rest = rest;
    let current = load::take_first(&mut rest);
    let step = install::begin_install(&current);
    go_on_install(options, current, rest, step)
}

fn go_on_install(
    options: InstallOptions,
    current: Entry,
    rest: Vec<Entry>,
    step: InstallStep,
) -> (result: SessionStep)
    ensures
        result@ == follow_install(options, current@, request::each(rest@), step@),
{
    match step {
        InstallStep::Ask { request, state } => SessionStep::Ask {
            request,
            state: SessionState::Install { options, current, rest, state },
        },
        InstallStep::Done(Ok(operations)) => SessionStep::Ask {
            request: Request::Print(lines_on(options.dry_run, &operations)),
            state: SessionState::Installed { options, rest },
        },
        InstallStep::Done(Err(error)) => fail_with(error),
    }
}

fn take_survey(options: InstallOptions, surveyed: Vec<Entry>, rest: Vec<Entry>) -> (step:
    SessionStep)
    ensures
        step@ == survey_take(options, request::each(surveyed@), request::each(rest@)),
{
    if rest.len() == 0 {
        return take_install(options, surveyed);
    }
    let mut rest = rest;
    let current = load::take_first(&mut rest);
    match status::begin_status(&current) {
        StatusStep::Ask { request, state } => SessionStep::Ask {
            request,
            state: SessionState::Survey { options, surveyed, current, rest, state },
        },
        StatusStep::Done(Err(error)) => fail_with(error),
        StatusStep::Done(Ok(_)) => unreached(),
    }
}

fn go_on_load(command: Command, config: UnixPath, step: LoadStep) -> (result: SessionStep)
    ensures
        result@ == follow_load(command, config@, step@),
{
    match step {
        LoadStep::Ask { request, state } => SessionStep::Ask {
            request,
            state: SessionState::Load { command, config, state },
        },
        LoadStep::Done(Ok(entries)) => match command {
            Command::Status => take_report(entries, true),
            Command::Install(options) => SessionStep::Ask {
                request: Request::ReadText(UnixPath::new("/proc/self/status")),
                state: SessionState::User { options, entries },
            },
        },
        LoadStep::Done(Err(error)) => fail_with(error),
    }
}

fn go_on_search(command: Command, start: UnixPath, step: SearchStep) -> (result: SessionStep)
    ensures
        result@ == follow_search(command, start@, step@),
{
    match step {
        SearchStep::Ask { request, state } => SessionStep::Ask {
            request,
            state: SessionState::Search { command, start, state },
        },
        SearchStep::Done(Ok(config)) => {
            let step = load::begin_load(&config);
            go_on_load(command, config, step)
        },
        SearchStep::Done(Err(error)) => fail_with(error),
    }
}

/// Starts a session with the arguments of the program, without its name.
pub fn begin_session(arguments: &Vec<String>) -> (step: SessionStep)
    ensures
        step@ == session_begin(planned(request::each(arguments@))),
        asks_in_kind(step@),
{
    broadcast use request::lemma_each_push;

    match plan(arguments) {
        Plan::Usage { code } => {
            let mut lines: Vec<String> = Vec::new();
            lines.push("Usage:".to_string());
            lines.push("  magsys status [--config PATH]".to_string());
            lines.push("  magsys install [--dry-run] [--force] [--config PATH]".to_string());
            assert(request::each(lines@) =~= usage());
            SessionStep::Ask {
                request: Request::Print(lines),
                state: SessionState::Leave { code },
            }
        },
        Plan::Refused(message) => SessionStep::Fail(message),
        Plan::Run { command, config } => match config {
            Some(config) => {
                let step = load::begin_load(&config);
                go_on_load(command, config, step)
            },
            None => SessionStep::Ask {
                request: Request::CurrentDirectory,
                state: SessionState::Directory { command },
            },
        },
    }
}

/// Goes on with a session, with the reply that the state waited for.
pub fn run(state: SessionState, reply: Reply) -> (step: SessionStep)
    requires
        session_fits(state@, reply@),
    ensures
        step@ == session_next(state@, reply@),
        asks_in_kind(step@),
{
    broadcast use request::lemma_each_push;

    match state {
        SessionState::Leave { code } => SessionStep::Exit(code),
        SessionState::Directory { command } => match reply.path() {
            Ok(start) => {
                let step = search::begin_search(&start);
                go_on_search(command, start, step)
            },
            Err(error) => fail_with(Error::Io(error)),
        },
        SessionState::Search { command, start, state } => {
            let step = search::find_config_upwards(&start, state, reply);
            go_on_search(command, start, step)
        },
        SessionState::Load { command, config, state } => {
            let step = load::load_entries(&config, state, reply);
            go_on_load(command, config, step)
        },
        SessionState::Report { current, rest, clean, state } => {
            let step = status::entry_status(&current, state, reply);
            go_on_report(current, rest, clean, step)
        },
        SessionState::Reported { rest, clean } => take_report(rest, clean),
        SessionState::User { options, entries } => match privilege::ensure_not_running_as_root(
            reply.text(),
        ) {
            Ok(()) => {
                let surveyed: Vec<Entry> = Vec::new();
                assert(request::each(surveyed@) =~= Seq::empty());
                take_survey(options, surveyed, entries)
            },
            Err(error) => fail_with(error),
        },
        SessionState::Survey {
            options,
            surveyed,
            current,
            rest,
            state,
        } => match status::entry_status(&current, state, reply) {
            StatusStep::Ask { request, state } => SessionStep::Ask {
                request,
                state: SessionState::Survey { options, surveyed, current, rest, state },
            },
            StatusStep::Done(Ok(status)) => {
                if status == EntryStatus::Conflict && !options.force {
                    return fail_with(Error::Conflict(current.target().clone()));
                }
                let mut surveyed = surveyed;
                surveyed.push(current);
                take_survey(options, surveyed, rest)
            },
            StatusStep::Done(Err(error)) => fail_with(error),
        },
        SessionState::Install { options, current, rest, state } => {
            let step = install::install_entry(&current, options, state, reply);
            go_on_install(options, current, rest, step)
        },
        SessionState::Installed { options, rest } => take_install(options, rest),
    }
}

} // verus!
