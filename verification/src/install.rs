//! What brings a target into the state that its entry wants.
use vstd::prelude::*;
use vstd::string::*;

use crate::entry;
use crate::entry::Entry;
use crate::entry::EntryStatus;
use crate::entry::EntryView;
use crate::entry::InstallOptions;
use crate::error::Error;
use crate::error::ErrorView;
use crate::error::IoError;
use crate::error::IoErrorView;
use crate::path;
use crate::path::UnixPath;
use crate::request;
use crate::request::NodeKind;
use crate::request::Reply;
use crate::request::ReplyView;
use crate::request::Request;
use crate::request::RequestView;
use crate::status;
use crate::status::StatusState;
use crate::status::StatusStateView;
use crate::status::StatusStep;
use crate::status::StatusStepView;
use crate::text;

verus! {

/// What an installation waits for. The operations so far are those that a report names.
#[derive(Debug)]
pub enum InstallState {
    /// Whether the source is there.
    Source,
    /// What the comparison of the target waits for.
    Status { state: StatusState },
    /// Whether the directory of the target is there.
    Parent { status: EntryStatus, directory: UnixPath },
    /// The end of the creation of that directory.
    ParentMade { status: EntryStatus, directory: UnixPath, operations: Vec<String> },
    /// What stands in the way.
    Conflict { operations: Vec<String> },
    /// Whether the directory that stands in the way holds anything.
    Occupied { operations: Vec<String> },
    /// What is to be removed.
    Remove { operations: Vec<String> },
    /// The end of the removal.
    Removed { is_directory: bool, operations: Vec<String> },
    /// The end of the creation of the link.
    Linked { operations: Vec<String> },
    /// The end of the copy.
    Copied { mode: u32, operations: Vec<String> },
    /// The end of the change of permissions.
    ModeSet { mode: u32, operations: Vec<String> },
    /// The end of the installation as root.
    Installed { mode: u32, operations: Vec<String> },
}

#[derive(Debug)]
pub enum InstallStep {
    Ask { request: Request, state: InstallState },
    Done(Result<Vec<String>, Error>),
}

pub enum InstallStateView {
    Source,
    Status { state: StatusStateView },
    Parent { status: EntryStatus, directory: Seq<u8> },
    ParentMade { status: EntryStatus, directory: Seq<u8>, operations: Seq<Seq<char>> },
    Conflict { operations: Seq<Seq<char>> },
    Occupied { operations: Seq<Seq<char>> },
    Remove { operations: Seq<Seq<char>> },
    Removed { is_directory: bool, operations: Seq<Seq<char>> },
    Linked { operations: Seq<Seq<char>> },
    Copied { mode: u32, operations: Seq<Seq<char>> },
    ModeSet { mode: u32, operations: Seq<Seq<char>> },
    Installed { mode: u32, operations: Seq<Seq<char>> },
}

pub enum InstallStepView {
    Ask { request: RequestView, state: InstallStateView },
    Done(Result<Seq<Seq<char>>, ErrorView>),
}

impl View for InstallState {
    type V = InstallStateView;

    open spec fn view(&self) -> InstallStateView {
        match self {
            InstallState::Source => InstallStateView::Source,
            InstallState::Status { state } => InstallStateView::Status { state: state@ },
            InstallState::Parent { status, directory } => InstallStateView::Parent {
                status: *status,
                directory: directory@,
            },
            InstallState::ParentMade {
                status,
                directory,
                operations,
            } => InstallStateView::ParentMade {
                status: *status,
                directory: directory@,
                operations: request::each(operations@),
            },
            InstallState::Conflict { operations } => InstallStateView::Conflict {
                operations: request::each(operations@),
            },
            InstallState::Occupied { operations } => InstallStateView::Occupied {
                operations: request::each(operations@),
            },
            InstallState::Remove { operations } => InstallStateView::Remove {
                operations: request::each(operations@),
            },
            InstallState::Removed { is_directory, operations } => InstallStateView::Removed {
                is_directory: *is_directory,
                operations: request::each(operations@),
            },
            InstallState::Linked { operations } => InstallStateView::Linked {
                operations: request::each(operations@),
            },
            InstallState::Copied { mode, operations } => InstallStateView::Copied {
                mode: *mode,
                operations: request::each(operations@),
            },
            InstallState::ModeSet { mode, operations } => InstallStateView::ModeSet {
                mode: *mode,
                operations: request::each(operations@),
            },
            InstallState::Installed { mode, operations } => InstallStateView::Installed {
                mode: *mode,
                operations: request::each(operations@),
            },
        }
    }
}

impl View for InstallStep {
    type V = InstallStepView;

    open spec fn view(&self) -> InstallStepView {
        match self {
            InstallStep::Ask { request, state } => InstallStepView::Ask {
                request: request@,
                state: state@,
            },
            InstallStep::Done(Ok(operations)) => InstallStepView::Done(
                Ok(request::each(operations@)),
            ),
            InstallStep::Done(Err(error)) => InstallStepView::Done(Err(error@)),
        }
    }
}

/// Running a program as root.
pub open spec fn sudo(program: Seq<char>, arguments: Seq<Seq<u8>>) -> RequestView {
    RequestView::Run {
        program: "/usr/bin/sudo"@,
        arguments: seq![path::bytes_of(program)] + arguments,
    }
}

/// The creation of a directory that belongs to root.
pub open spec fn sudo_directory(directory: Seq<u8>) -> RequestView {
    sudo(
        "/usr/bin/install"@,
        seq![
            path::bytes_of("-d"@),
            path::bytes_of("-m"@),
            path::bytes_of("0755"@),
            path::bytes_of("-o"@),
            path::bytes_of("root"@),
            path::bytes_of("-g"@),
            path::bytes_of("root"@),
            path::bytes_of("--"@),
            directory,
        ],
    )
}

/// A copy that belongs to root.
pub open spec fn sudo_file(source: Seq<u8>, target: Seq<u8>, mode: u32) -> RequestView {
    sudo(
        "/usr/bin/install"@,
        seq![
            path::bytes_of("-m"@),
            path::bytes_of(text::mode_argument(mode)),
            path::bytes_of("-o"@),
            path::bytes_of("root"@),
            path::bytes_of("-g"@),
            path::bytes_of("root"@),
            path::bytes_of("--"@),
            source,
            target,
        ],
    )
}

/// The program that removes a thing as root.
pub open spec fn removal_program(directory: bool) -> Seq<char> {
    if directory {
        "/usr/bin/rmdir"@
    } else {
        "/usr/bin/rm"@
    }
}

/// The removal of what stands at a target.
pub open spec fn removal(target: Seq<u8>, directory: bool, as_root: bool) -> RequestView {
    if as_root {
        sudo(removal_program(directory), seq![path::bytes_of("--"@), target])
    } else if directory {
        RequestView::RemoveDirectory(target)
    } else {
        RequestView::RemoveFile(target)
    }
}

/// The creation of the directory of a target.
pub open spec fn directory_creation(directory: Seq<u8>, as_root: bool) -> RequestView {
    if as_root {
        sudo_directory(directory)
    } else {
        RequestView::CreateDirectories(directory)
    }
}

/// What a state waits for.
pub open spec fn install_request(entry: EntryView, state: InstallStateView) -> RequestView {
    match state {
        InstallStateView::Source => status::source_request(entry),
        InstallStateView::Status { state } => status::status_request(entry, state),
        InstallStateView::Parent { status, directory } => RequestView::Exists(directory),
        InstallStateView::ParentMade { status, directory, operations } => directory_creation(
            directory,
            entry.uses_sudo(),
        ),
        InstallStateView::Conflict { operations } => RequestView::Inspect(entry.target()),
        InstallStateView::Occupied { operations } => RequestView::HasEntries(entry.target()),
        InstallStateView::Remove { operations } => RequestView::Inspect(entry.target()),
        InstallStateView::Removed { is_directory, operations } => removal(
            entry.target(),
            is_directory,
            entry.uses_sudo(),
        ),
        InstallStateView::Linked { operations } => RequestView::MakeLink {
            source: entry.source(),
            target: entry.target(),
        },
        InstallStateView::Copied { mode, operations } => RequestView::CopyFile {
            source: entry.source(),
            target: entry.target(),
        },
        InstallStateView::ModeSet { mode, operations } => RequestView::SetMode {
            target: entry.target(),
            mode,
        },
        InstallStateView::Installed { mode, operations } => sudo_file(
            entry.source(),
            entry.target(),
            mode,
        ),
    }
}

pub open spec fn install_ask(entry: EntryView, state: InstallStateView) -> InstallStepView {
    InstallStepView::Ask { request: install_request(entry, state), state }
}

pub open spec fn directory_text(directory: Seq<u8>) -> Seq<char> {
    "create directory "@ + path::path_text(directory)
}

pub open spec fn removal_text(target: Seq<u8>) -> Seq<char> {
    "remove conflicting "@ + path::path_text(target)
}

/// The operation that puts an entry in place.
pub open spec fn placing_text(entry: EntryView) -> Seq<char> {
    match entry {
        EntryView::Link { source, target } => "link "@ + path::path_text(target) + " -> "@
            + path::path_text(source),
        _ => "install "@ + path::path_text(entry.source()) + " -> "@ + path::path_text(
            entry.target(),
        ) + " (mode "@ + text::mode_text(entry.mode()->0) + ")"@,
    }
}

/// What forbids to remove a directory: that it holds anything.
pub open spec fn occupied_fault(directory: Seq<u8>, occupied: bool) -> Option<ErrorView> {
    if occupied {
        Some(
            ErrorView::Invalid(
                "refusing to remove non-empty directory: "@ + path::path_text(directory),
            ),
        )
    } else {
        None
    }
}

/// What went wrong with a change that the system itself made.
pub open spec fn done_fault(result: Result<(), IoErrorView>) -> Option<ErrorView> {
    match result {
        Ok(()) => None,
        Err(error) => Some(ErrorView::Io(error)),
    }
}

/// What went wrong with a program that was run as root.
pub open spec fn exit_fault(
    program: Seq<char>,
    result: Result<Option<i32>, IoErrorView>,
) -> Option<ErrorView> {
    match result {
        Ok(code) => if code == Some(0i32) {
            None
        } else {
            Some(ErrorView::CommandFailed { program, code })
        },
        Err(error) => Some(ErrorView::Io(error)),
    }
}

/// What went wrong with a change.
pub open spec fn change_fault(entry: EntryView, program: Seq<char>, reply: ReplyView) -> Option<
    ErrorView,
> {
    if entry.uses_sudo() {
        exit_fault(program, reply->Exit_0)
    } else {
        done_fault(reply->Done_0)
    }
}

/// Puts the entry in place, or only says so.
pub open spec fn place(
    entry: EntryView,
    options: InstallOptions,
    operations: Seq<Seq<char>>,
) -> InstallStepView {
    let operations = operations.push(placing_text(entry));
    if options.dry_run {
        InstallStepView::Done(Ok(operations))
    } else if entry is Link {
        install_ask(entry, InstallStateView::Linked { operations })
    } else if entry.uses_sudo() {
        install_ask(entry, InstallStateView::Installed { mode: entry.mode()->0, operations })
    } else {
        install_ask(entry, InstallStateView::Copied { mode: entry.mode()->0, operations })
    }
}

/// Clears the way where something stands in it.
pub open spec fn clear(
    entry: EntryView,
    options: InstallOptions,
    status: EntryStatus,
    operations: Seq<Seq<char>>,
) -> InstallStepView {
    if status == EntryStatus::Conflict {
        install_ask(entry, InstallStateView::Conflict { operations })
    } else {
        place(entry, options, operations)
    }
}

/// Removes what may be removed, or only says so.
pub open spec fn remove(
    entry: EntryView,
    options: InstallOptions,
    operations: Seq<Seq<char>>,
) -> InstallStepView {
    let operations = operations.push(removal_text(entry.target()));
    if options.dry_run {
        place(entry, options, operations)
    } else {
        install_ask(entry, InstallStateView::Remove { operations })
    }
}

/// Decides by the status what is to be done.
pub open spec fn decide(
    entry: EntryView,
    options: InstallOptions,
    status: EntryStatus,
) -> InstallStepView {
    if status == EntryStatus::InPlace {
        InstallStepView::Done(Ok(Seq::empty()))
    } else if status == EntryStatus::Conflict && !options.force {
        InstallStepView::Done(Err(ErrorView::Conflict(entry.target())))
    } else {
        match path::parent(entry.target()) {
            Some(directory) => install_ask(entry, InstallStateView::Parent { status, directory }),
            None => InstallStepView::Done(
                Err(
                    ErrorView::Invalid("target has no parent: "@ + path::path_text(entry.target())),
                ),
            ),
        }
    }
}

/// Goes along with the comparison of the target.
pub open spec fn follow_status(
    entry: EntryView,
    options: InstallOptions,
    step: StatusStepView,
) -> InstallStepView {
    match step {
        StatusStepView::Ask { request, state } => InstallStepView::Ask {
            request,
            state: InstallStateView::Status { state },
        },
        StatusStepView::Done(Ok(status)) => decide(entry, options, status),
        StatusStepView::Done(Err(error)) => InstallStepView::Done(Err(error)),
    }
}

/// Ends with an error, or goes on.
pub open spec fn unless(fault: Option<ErrorView>, step: InstallStepView) -> InstallStepView {
    match fault {
        Some(error) => InstallStepView::Done(Err(error)),
        None => step,
    }
}

pub open spec fn install_begin(entry: EntryView) -> InstallStepView {
    unless(entry::form_fault(entry), install_ask(entry, InstallStateView::Source))
}

/// What a reply leads to.
pub open spec fn install_next(
    entry: EntryView,
    options: InstallOptions,
    state: InstallStateView,
    reply: ReplyView,
) -> InstallStepView {
    match state {
        InstallStateView::Source => unless(
            entry::entry_fault(entry, reply->Flag_0),
            follow_status(entry, options, status::status_begin(entry)),
        ),
        InstallStateView::Status { state } => follow_status(
            entry,
            options,
            status::status_next(entry, state, reply),
        ),
        InstallStateView::Parent { status, directory } => if reply->Flag_0 {
            clear(entry, options, status, Seq::empty())
        } else {
            let operations = seq![directory_text(directory)];
            if options.dry_run {
                clear(entry, options, status, operations)
            } else {
                install_ask(entry, InstallStateView::ParentMade { status, directory, operations })
            }
        },
        InstallStateView::ParentMade { status, directory, operations } => unless(
            change_fault(entry, "/usr/bin/install"@, reply),
            clear(entry, options, status, operations),
        ),
        InstallStateView::Conflict { operations } => match reply->Metadata_0 {
            Ok(metadata) => if metadata.kind == NodeKind::Directory {
                install_ask(entry, InstallStateView::Occupied { operations })
            } else {
                remove(entry, options, operations)
            },
            Err(error) => InstallStepView::Done(Err(ErrorView::Io(error))),
        },
        InstallStateView::Occupied { operations } => match reply->Occupied_0 {
            Ok(occupied) => unless(
                occupied_fault(entry.target(), occupied),
                remove(entry, options, operations),
            ),
            Err(error) => InstallStepView::Done(Err(ErrorView::Io(error))),
        },
        InstallStateView::Remove { operations } => match reply->Metadata_0 {
            Ok(metadata) => install_ask(
                entry,
                InstallStateView::Removed {
                    is_directory: metadata.kind == NodeKind::Directory,
                    operations,
                },
            ),
            Err(error) => InstallStepView::Done(Err(ErrorView::Io(error))),
        },
        InstallStateView::Removed { is_directory, operations } => unless(
            change_fault(entry, removal_program(is_directory), reply),
            place(entry, options, operations),
        ),
        InstallStateView::Linked { operations } => unless(
            done_fault(reply->Done_0),
            InstallStepView::Done(Ok(operations)),
        ),
        InstallStateView::Copied { mode, operations } => unless(
            done_fault(reply->Done_0),
            install_ask(entry, InstallStateView::ModeSet { mode, operations }),
        ),
        InstallStateView::ModeSet { mode, operations } => unless(
            done_fault(reply->Done_0),
            InstallStepView::Done(Ok(operations)),
        ),
        InstallStateView::Installed { mode, operations } => unless(
            exit_fault("/usr/bin/install"@, reply->Exit_0),
            InstallStepView::Done(Ok(operations)),
        ),
    }
}

fn run_sudo(program: &str, arguments: Vec<Vec<u8>>) -> (request: Request)
    ensures
        request@ == sudo(program@, request::each(arguments@)),
{
    broadcast use request::lemma_each_push;

    let mut all: Vec<Vec<u8>> = Vec::new();
    all.push(argument(program));
    let mut arguments = arguments;
    let ghost given = arguments@;
    all.append(&mut arguments);
    assert(request::each(all@) =~= seq![path::bytes_of(program@)] + request::each(given));
    Request::Run { program: "/usr/bin/sudo", arguments: all }
}

fn argument(text: &str) -> (bytes: Vec<u8>)
    ensures
        bytes@ == path::bytes_of(text@),
{
    text.as_bytes_vec()
}

/// The creation of a directory that belongs to root.
pub fn sudo_create_directory(directory: &UnixPath) -> (request: Request)
    ensures
        request@ == sudo_directory(directory@),
{
    broadcast use request::lemma_each_push;

    let mut arguments: Vec<Vec<u8>> = Vec::new();
    arguments.push(argument("-d"));
    arguments.push(argument("-m"));
    arguments.push(argument("0755"));
    arguments.push(argument("-o"));
    arguments.push(argument("root"));
    arguments.push(argument("-g"));
    arguments.push(argument("root"));
    arguments.push(argument("--"));
    arguments.push(path::clone_bytes(&directory.bytes));
    let request = run_sudo("/usr/bin/install", arguments);
    assert(request@->arguments =~= sudo_directory(directory@)->arguments);
    request
}

/// A copy that belongs to root.
pub fn sudo_install_file(source: &UnixPath, target: &UnixPath, mode: u32) -> (request: Request)
    ensures
        request@ == sudo_file(source@, target@, mode),
{
    broadcast use request::lemma_each_push;

    let mut arguments: Vec<Vec<u8>> = Vec::new();
    arguments.push(argument("-m"));
    arguments.push(argument(text::format_mode(mode).as_str()));
    arguments.push(argument("-o"));
    arguments.push(argument("root"));
    arguments.push(argument("-g"));
    arguments.push(argument("root"));
    arguments.push(argument("--"));
    arguments.push(path::clone_bytes(&source.bytes));
    arguments.push(path::clone_bytes(&target.bytes));
    let request = run_sudo("/usr/bin/install", arguments);
    assert(request@->arguments =~= sudo_file(source@, target@, mode)->arguments);
    request
}

fn removing_program(directory: bool) -> (program: &'static str)
    ensures
        program@ == removal_program(directory),
{
    if directory {
        "/usr/bin/rmdir"
    } else {
        "/usr/bin/rm"
    }
}

/// The removal of what stands at a target, a directory or anything else.
pub fn remove_target(target: &UnixPath, directory: bool, as_root: bool) -> (request: Request)
    ensures
        request@ == removal(target@, directory, as_root),
{
    broadcast use request::lemma_each_push;

    if as_root {
        let mut arguments: Vec<Vec<u8>> = Vec::new();
        arguments.push(argument("--"));
        arguments.push(path::clone_bytes(&target.bytes));
        let request = run_sudo(removing_program(directory), arguments);
        assert(request@->arguments =~= removal(target@, directory, as_root)->arguments);
        request
    } else if directory {
        Request::RemoveDirectory(target.clone())
    } else {
        Request::RemoveFile(target.clone())
    }
}

fn ask(entry: &Entry, state: InstallState) -> (step: InstallStep)
    ensures
        step@ == install_ask(entry@, state@),
{
    let request = match &state {
        InstallState::Source => status::ask_source(entry),
        InstallState::Status { state } => status::ask_status(entry, state),
        InstallState::Parent { status: _, directory } => Request::Exists(directory.clone()),
        InstallState::ParentMade { status: _, directory, operations: _ } => if entry.uses_sudo() {
            sudo_create_directory(directory)
        } else {
            Request::CreateDirectories(directory.clone())
        },
        InstallState::Conflict { operations: _ } => Request::Inspect(entry.target().clone()),
        InstallState::Occupied { operations: _ } => Request::HasEntries(entry.target().clone()),
        InstallState::Remove { operations: _ } => Request::Inspect(entry.target().clone()),
        InstallState::Removed { is_directory, operations: _ } => remove_target(
            entry.target(),
            *is_directory,
            entry.uses_sudo(),
        ),
        InstallState::Linked { operations: _ } => Request::MakeLink {
            source: entry.source().clone(),
            target: entry.target().clone(),
        },
        InstallState::Copied { mode: _, operations: _ } => Request::CopyFile {
            source: entry.source().clone(),
            target: entry.target().clone(),
        },
        InstallState::ModeSet { mode, operations: _ } => Request::SetMode {
            target: entry.target().clone(),
            mode: *mode,
        },
        InstallState::Installed { mode, operations: _ } => sudo_install_file(
            entry.source(),
            entry.target(),
            *mode,
        ),
    };
    InstallStep::Ask { request, state }
}

fn placing_operation(entry: &Entry) -> (text: String)
    ensures
        text@ == placing_text(entry@),
{
    match entry.mode() {
        None => "link ".to_string().concat(entry.target().display().as_str()).concat(
            " -> ",
        ).concat(entry.source().display().as_str()),
        Some(mode) => "install ".to_string().concat(entry.source().display().as_str()).concat(
            " -> ",
        ).concat(entry.target().display().as_str()).concat(" (mode ").concat(
            text::show_mode(mode).as_str(),
        ).concat(")"),
    }
}

fn place_entry(entry: &Entry, options: InstallOptions, operations: Vec<String>) -> (step:
    InstallStep)
    ensures
        step@ == place(entry@, options, request::each(operations@)),
{
    broadcast use request::lemma_each_push;

    let mut operations = operations;
    operations.push(placing_operation(entry));
    if options.dry_run {
        return InstallStep::Done(Ok(operations));
    }
    match entry.mode() {
        None => ask(entry, InstallState::Linked { operations }),
        Some(mode) => if entry.uses_sudo() {
            ask(entry, InstallState::Installed { mode, operations })
        } else {
            ask(entry, InstallState::Copied { mode, operations })
        },
    }
}

fn clear_target(
    entry: &Entry,
    options: InstallOptions,
    status: EntryStatus,
    operations: Vec<String>,
) -> (step: InstallStep)
    ensures
        step@ == clear(entry@, options, status, request::each(operations@)),
{
    if status == EntryStatus::Conflict {
        ask(entry, InstallState::Conflict { operations })
    } else {
        place_entry(entry, options, operations)
    }
}

/// Refuses to remove a directory that holds anything.
pub fn ensure_removable_conflict(directory: &UnixPath, occupied: bool) -> (result: Result<
    (),
    Error,
>)
    ensures
        entry::fault_of(result) == occupied_fault(directory@, occupied),
{
    if occupied {
        Err(entry::invalid_path("refusing to remove non-empty directory: ", directory))
    } else {
        Ok(())
    }
}

fn remove_conflict(entry: &Entry, options: InstallOptions, operations: Vec<String>) -> (step:
    InstallStep)
    ensures
        step@ == remove(entry@, options, request::each(operations@)),
{
    broadcast use request::lemma_each_push;

    let mut operations = operations;
    operations.push("remove conflicting ".to_string().concat(entry.target().display().as_str()));
    if options.dry_run {
        place_entry(entry, options, operations)
    } else {
        ask(entry, InstallState::Remove { operations })
    }
}

fn decide_by(entry: &Entry, options: InstallOptions, status: EntryStatus) -> (step: InstallStep)
    ensures
        step@ == decide(entry@, options, status),
{
    if status == EntryStatus::InPlace {
        let operations: Vec<String> = Vec::new();
        assert(request::each(operations@) =~= Seq::empty());
        return InstallStep::Done(Ok(operations));
    }
    if status == EntryStatus::Conflict && !options.force {
        return InstallStep::Done(Err(Error::Conflict(entry.target().clone())));
    }
    match entry.target().parent() {
        Some(directory) => ask(entry, InstallState::Parent { status, directory }),
        None => InstallStep::Done(
            Err(entry::invalid_path("target has no parent: ", entry.target())),
        ),
    }
}

fn follow(entry: &Entry, options: InstallOptions, step: StatusStep) -> (result: InstallStep)
    ensures
        result@ == follow_status(entry@, options, step@),
{
    match step {
        StatusStep::Ask { request, state } => InstallStep::Ask {
            request,
            state: InstallState::Status { state },
        },
        StatusStep::Done(Ok(status)) => decide_by(entry, options, status),
        StatusStep::Done(Err(error)) => InstallStep::Done(Err(error)),
    }
}

fn check_done(result: Result<(), IoError>) -> (checked: Result<(), Error>)
    ensures
        entry::fault_of(checked) == done_fault(request::plain_answer(result)),
{
    match result {
        Ok(()) => Ok(()),
        Err(error) => Err(Error::Io(error)),
    }
}

/// Judges how a program that was run as root ended.
pub fn check_exit(program: &'static str, result: Result<Option<i32>, IoError>) -> (checked: Result<
    (),
    Error,
>)
    ensures
        entry::fault_of(checked) == exit_fault(program@, request::plain_answer(result)),
{
    match result {
        Ok(Some(0)) => Ok(()),
        Ok(code) => Err(Error::CommandFailed { program, code }),
        Err(error) => Err(Error::Io(error)),
    }
}

fn check_change(entry: &Entry, program: &'static str, reply: Reply) -> (checked: Result<(), Error>)
    requires
        if entry@.uses_sudo() {
            reply@ is Exit
        } else {
            reply@ is Done
        },
    ensures
        entry::fault_of(checked) == change_fault(entry@, program@, reply@),
{
    if entry.uses_sudo() {
        check_exit(program, reply.exit())
    } else {
        check_done(reply.done())
    }
}

/// Starts to bring the target of an entry into the state that the entry wants.
pub fn begin_install(entry: &Entry) -> (step: InstallStep)
    ensures
        step@ == install_begin(entry@),
        step@ matches InstallStepView::Ask { request, state } ==> request == install_request(
            entry@,
            state,
        ),
{
    match entry::validate_form(entry) {
        Ok(()) => ask(entry, InstallState::Source),
        Err(error) => InstallStep::Done(Err(error)),
    }
}

/// Goes on with an installation, with the reply that the state waited for.
pub fn install_entry(
    entry: &Entry,
    options: InstallOptions,
    state: InstallState,
    reply: Reply,
) -> (step: InstallStep)
    requires
        install_request(entry@, state@).fits(reply@),
    ensures
        step@ == install_next(entry@, options, state@, reply@),
        step@ matches InstallStepView::Ask { request, state } ==> request == install_request(
            entry@,
            state,
        ),
{
    broadcast use request::lemma_each_push;

    match state {
        InstallState::Source => match entry::validate_entry(entry, reply.flag()) {
            Ok(()) => follow(entry, options, status::begin_status(entry)),
            Err(error) => InstallStep::Done(Err(error)),
        },
        InstallState::Status { state } => follow(
            entry,
            options,
            status::entry_status(entry, state, reply),
        ),
        InstallState::Parent { status, directory } => {
            let mut operations: Vec<String> = Vec::new();
            assert(request::each(operations@) =~= Seq::empty());
            if reply.flag() {
                return clear_target(entry, options, status, operations);
            }
            operations.push("create directory ".to_string().concat(directory.display().as_str()));
            assert(request::each(operations@) =~= seq![directory_text(directory@)]);
            if options.dry_run {
                clear_target(entry, options, status, operations)
            } else {
                ask(entry, InstallState::ParentMade { status, directory, operations })
            }
        },
        InstallState::ParentMade { status, directory: _, operations } => match check_change(
            entry,
            "/usr/bin/install",
            reply,
        ) {
            Ok(()) => clear_target(entry, options, status, operations),
            Err(error) => InstallStep::Done(Err(error)),
        },
        InstallState::Conflict { operations } => match reply.metadata() {
            Ok(metadata) => if metadata.kind == NodeKind::Directory {
                ask(entry, InstallState::Occupied { operations })
            } else {
                remove_conflict(entry, options, operations)
            },
            Err(error) => InstallStep::Done(Err(Error::Io(error))),
        },
        InstallState::Occupied { operations } => match reply.occupied() {
            Ok(occupied) => match ensure_removable_conflict(entry.target(), occupied) {
                Ok(()) => remove_conflict(entry, options, operations),
                Err(error) => InstallStep::Done(Err(error)),
            },
            Err(error) => InstallStep::Done(Err(Error::Io(error))),
        },
        InstallState::Remove { operations } => match reply.metadata() {
            Ok(metadata) => {
                let is_directory = metadata.kind == NodeKind::Directory;
                ask(entry, InstallState::Removed { is_directory, operations })
            },
            Err(error) => InstallStep::Done(Err(Error::Io(error))),
        },
        InstallState::Removed { is_directory, operations } => match check_change(
            entry,
            removing_program(is_directory),
            reply,
        ) {
            Ok(()) => place_entry(entry, options, operations),
            Err(error) => InstallStep::Done(Err(error)),
        },
        InstallState::Linked { operations } => match check_done(reply.done()) {
            Ok(()) => InstallStep::Done(Ok(operations)),
            Err(error) => InstallStep::Done(Err(error)),
        },
        InstallState::Copied { mode, operations } => match check_done(reply.done()) {
            Ok(()) => ask(entry, InstallState::ModeSet { mode, operations }),
            Err(error) => InstallStep::Done(Err(error)),
        },
        InstallState::ModeSet { mode: _, operations } => match check_done(reply.done()) {
            Ok(()) => InstallStep::Done(Ok(operations)),
            Err(error) => InstallStep::Done(Err(error)),
        },
        InstallState::Installed { mode: _, operations } => match check_exit(
            "/usr/bin/install",
            reply.exit(),
        ) {
            Ok(()) => InstallStep::Done(Ok(operations)),
            Err(error) => InstallStep::Done(Err(error)),
        },
    }
}

} // verus!
