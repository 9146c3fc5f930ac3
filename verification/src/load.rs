//! From a configuration file to entries that keep the rules.
use vstd::prelude::*;
use vstd::string::*;

use crate::entry;
use crate::entry::Entry;
use crate::entry::EntryView;
use crate::error::Error;
use crate::error::ErrorView;
use crate::error::IoError;
use crate::error::IoErrorView;
use crate::path;
use crate::path::UnixPath;
use crate::request;
use crate::request::Config;
use crate::request::ConfigView;
use crate::request::Reply;
use crate::request::ReplyView;
use crate::request::Request;
use crate::request::RequestView;
use crate::status;

verus! {

/// The entries whose paths are still as written, and those whose paths are resolved.
#[derive(Debug)]
pub struct Resolution {
    pub repository: UnixPath,
    pub home: Option<UnixPath>,
    pub rest: Vec<Entry>,
    pub entries: Vec<Entry>,
}

/// What loading waits for.
#[derive(Debug)]
pub enum LoadState {
    /// The text of the configuration file.
    Text,
    /// The entries that the text writes.
    Parse { text: String },
    /// The canonical form of the directory that holds the file.
    Repository { config: Config },
    /// The home directory.
    Home { config: Config, repository: UnixPath },
    /// The canonical form of the source of the current entry.
    Source { work: Resolution, current: Entry },
    /// Whether the source of the current entry is a regular file.
    Regular { work: Resolution, current: Entry, source: UnixPath },
    /// Whether the source of the current entry is there.
    Check { checked: Vec<Entry>, current: Entry, rest: Vec<Entry> },
}

#[derive(Debug)]
pub enum LoadStep {
    Ask { request: Request, state: LoadState },
    Done(Result<Vec<Entry>, Error>),
}

pub struct ResolutionView {
    pub repository: Seq<u8>,
    pub home: Option<Seq<u8>>,
    pub rest: Seq<EntryView>,
    pub entries: Seq<EntryView>,
}

pub enum LoadStateView {
    Text,
    Parse { text: Seq<char> },
    Repository { config: ConfigView },
    Home { config: ConfigView, repository: Seq<u8> },
    Source { work: ResolutionView, current: EntryView },
    Regular { work: ResolutionView, current: EntryView, source: Seq<u8> },
    Check { checked: Seq<EntryView>, current: EntryView, rest: Seq<EntryView> },
}

pub enum LoadStepView {
    Ask { request: RequestView, state: LoadStateView },
    Done(Result<Seq<EntryView>, ErrorView>),
}

impl View for Resolution {
    type V = ResolutionView;

    open spec fn view(&self) -> ResolutionView {
        ResolutionView {
            repository: self.repository@,
            home: request::viewed(self.home),
            rest: request::each(self.rest@),
            entries: request::each(self.entries@),
        }
    }
}

impl View for LoadState {
    type V = LoadStateView;

    open spec fn view(&self) -> LoadStateView {
        match self {
            LoadState::Text => LoadStateView::Text,
            LoadState::Parse { text } => LoadStateView::Parse { text: text@ },
            LoadState::Repository { config } => LoadStateView::Repository { config: config@ },
            LoadState::Home { config, repository } => LoadStateView::Home {
                config: config@,
                repository: repository@,
            },
            LoadState::Source { work, current } => LoadStateView::Source {
                work: work@,
                current: current@,
            },
            LoadState::Regular { work, current, source } => LoadStateView::Regular {
                work: work@,
                current: current@,
                source: source@,
            },
            LoadState::Check { checked, current, rest } => LoadStateView::Check {
                checked: request::each(checked@),
                current: current@,
                rest: request::each(rest@),
            },
        }
    }
}

impl View for LoadStep {
    type V = LoadStepView;

    open spec fn view(&self) -> LoadStepView {
        match self {
            LoadStep::Ask { request, state } => LoadStepView::Ask {
                request: request@,
                state: state@,
            },
            LoadStep::Done(Ok(entries)) => LoadStepView::Done(Ok(request::each(entries@))),
            LoadStep::Done(Err(error)) => LoadStepView::Done(Err(error@)),
        }
    }
}

/// The directory that sources are read from: the one that holds the configuration file. For a
/// bare file name that is the current one.
pub open spec fn repository_of(config_path: Seq<u8>) -> Seq<u8> {
    match path::parent(config_path) {
        Some(directory) => if directory.len() > 0 {
            directory
        } else {
            path::bytes_of("."@)
        },
        None => path::bytes_of("."@),
    }
}

/// Where a source is looked for.
pub open spec fn candidate_source(repository: Seq<u8>, source: Seq<u8>) -> Result<
    Seq<u8>,
    ErrorView,
> {
    if source.len() == 0 {
        Err(ErrorView::Invalid("source path must not be empty"@))
    } else if path::has_parent_dir(source) {
        Err(ErrorView::Invalid("source path must not contain '..': "@ + path::path_text(source)))
    } else {
        Ok(path::joined(repository, source))
    }
}

/// The canonical form of a source, which has to lie in the repository.
pub open spec fn resolved_source(
    repository: Seq<u8>,
    source: Seq<u8>,
    canonical: Result<Seq<u8>, IoErrorView>,
) -> Result<Seq<u8>, ErrorView> {
    match candidate_source(repository, source) {
        Err(error) => Err(error),
        Ok(candidate) => match canonical {
            Err(error) => Err(
                ErrorView::Invalid(
                    "invalid source "@ + path::path_text(candidate) + ": "@ + error.message,
                ),
            ),
            Ok(resolved) => if path::starts_with(resolved, repository) {
                Ok(resolved)
            } else {
                Err(
                    ErrorView::Invalid(
                        "source is outside the dotfiles repository: "@ + path::path_text(source),
                    ),
                )
            },
        },
    }
}

/// Whether two entries want the same target.
pub open spec fn same_target(left: EntryView, right: EntryView) -> bool {
    path::same_path(left.target(), right.target())
}

pub open spec fn duplicates(entries: Seq<EntryView>, entry: EntryView) -> bool {
    exists|i: int| 0 <= i < entries.len() && same_target(#[trigger] entries[i], entry)
}

/// What a state waits for.
pub open spec fn load_request(config_path: Seq<u8>, state: LoadStateView) -> RequestView {
    match state {
        LoadStateView::Text => RequestView::ReadText(config_path),
        LoadStateView::Parse { text } => RequestView::ParseConfig(text),
        LoadStateView::Repository { config } => RequestView::Canonicalize(
            repository_of(config_path),
        ),
        LoadStateView::Home { config, repository } => RequestView::HomeDirectory,
        LoadStateView::Source { work, current } => RequestView::Canonicalize(
            path::joined(work.repository, current.source()),
        ),
        LoadStateView::Regular { work, current, source } => RequestView::IsFile(source),
        LoadStateView::Check { checked, current, rest } => status::source_request(current),
    }
}

pub open spec fn load_ask(config_path: Seq<u8>, state: LoadStateView) -> LoadStepView {
    LoadStepView::Ask { request: load_request(config_path, state), state }
}

/// Checks the next entry, or ends where there is none.
pub open spec fn check_take(
    config_path: Seq<u8>,
    checked: Seq<EntryView>,
    rest: Seq<EntryView>,
) -> LoadStepView {
    if rest.len() == 0 {
        LoadStepView::Done(Ok(checked))
    } else {
        match entry::form_fault(rest[0]) {
            Some(error) => LoadStepView::Done(Err(error)),
            None => load_ask(
                config_path,
                LoadStateView::Check { checked, current: rest[0], rest: rest.drop_first() },
            ),
        }
    }
}

/// Resolves the next entry, or goes over to the checks where there is none.
pub open spec fn resolve_take(config_path: Seq<u8>, work: ResolutionView) -> LoadStepView {
    if work.rest.len() == 0 {
        check_take(config_path, Seq::empty(), work.entries)
    } else {
        match candidate_source(work.repository, work.rest[0].source()) {
            Err(error) => LoadStepView::Done(Err(error)),
            Ok(_) => load_ask(
                config_path,
                LoadStateView::Source {
                    work: ResolutionView { rest: work.rest.drop_first(), ..work },
                    current: work.rest[0],
                },
            ),
        }
    }
}

/// Takes an entry over with its resolved source.
pub open spec fn resolve_accept(
    config_path: Seq<u8>,
    work: ResolutionView,
    current: EntryView,
    source: Seq<u8>,
) -> LoadStepView {
    match entry::expanded_target(current.target(), work.home) {
        Err(error) => LoadStepView::Done(Err(error)),
        Ok(target) => resolve_take(
            config_path,
            ResolutionView {
                entries: work.entries.push(current.with_paths(source, target)),
                ..work
            },
        ),
    }
}

/// What a reply leads to.
pub open spec fn load_next(
    config_path: Seq<u8>,
    state: LoadStateView,
    reply: ReplyView,
) -> LoadStepView {
    match state {
        LoadStateView::Text => match reply->Text_0 {
            Ok(text) => load_ask(config_path, LoadStateView::Parse { text }),
            Err(error) => LoadStepView::Done(Err(ErrorView::Io(error))),
        },
        LoadStateView::Parse { text } => match reply->Config_0 {
            Ok(config) => load_ask(config_path, LoadStateView::Repository { config }),
            Err(message) => LoadStepView::Done(Err(ErrorView::Config(message))),
        },
        LoadStateView::Repository { config } => match reply->Path_0 {
            Ok(repository) => load_ask(config_path, LoadStateView::Home { config, repository }),
            Err(error) => LoadStepView::Done(Err(ErrorView::Io(error))),
        },
        LoadStateView::Home { config, repository } => resolve_take(
            config_path,
            ResolutionView {
                repository,
                home: reply->Home_0,
                rest: config.entries(),
                entries: Seq::empty(),
            },
        ),
        LoadStateView::Source { work, current } => match resolved_source(
            work.repository,
            current.source(),
            reply->Path_0,
        ) {
            Err(error) => LoadStepView::Done(Err(error)),
            Ok(source) => if current is Link {
                resolve_accept(config_path, work, current, source)
            } else {
                load_ask(config_path, LoadStateView::Regular { work, current, source })
            },
        },
        LoadStateView::Regular { work, current, source } => if reply->Flag_0 {
            resolve_accept(config_path, work, current, source)
        } else {
            LoadStepView::Done(
                Err(
                    ErrorView::Invalid(
                        "source is not a regular file: "@ + path::path_text(source),
                    ),
                ),
            )
        },
        LoadStateView::Check { checked, current, rest } => match entry::entry_fault(
            current,
            reply->Flag_0,
        ) {
            Some(error) => LoadStepView::Done(Err(error)),
            None => if duplicates(checked, current) {
                LoadStepView::Done(
                    Err(
                        ErrorView::Invalid(
                            "duplicate target in configuration: "@ + path::path_text(
                                current.target(),
                            ),
                        ),
                    ),
                )
            } else {
                check_take(config_path, checked.push(current), rest)
            },
        },
    }
}

/// Where a source is looked for. Refuses an empty one, and one that goes up.
pub fn source_candidate(repository: &UnixPath, source: &UnixPath) -> (result: Result<
    UnixPath,
    Error,
>)
    ensures
        match candidate_source(repository@, source@) {
            Ok(path) => result matches Ok(candidate) && candidate@ == path,
            Err(error) => entry::fault_of(result) == Some(error),
        },
{
    if source.bytes.len() == 0 {
        return Err(Error::Invalid("source path must not be empty".to_string()));
    }
    if source.has_parent_dir() {
        return Err(entry::invalid_path("source path must not contain '..': ", source));
    }
    Ok(repository.join(source))
}

/// The canonical form of a source, given what the system says it is. Refuses one that lies
/// outside the repository.
pub fn resolve_source(
    repository: &UnixPath,
    source: &UnixPath,
    canonical: Result<UnixPath, IoError>,
) -> (result: Result<UnixPath, Error>)
    ensures
        match resolved_source(repository@, source@, request::answer(canonical)) {
            Ok(path) => result matches Ok(resolved) && resolved@ == path,
            Err(error) => entry::fault_of(result) == Some(error),
        },
{
    let candidate = match source_candidate(repository, source) {
        Ok(candidate) => candidate,
        Err(error) => return Err(error),
    };
    match canonical {
        Err(error) => Err(
            Error::Invalid(
                "invalid source ".to_string().concat(candidate.display().as_str()).concat(
                    ": ",
                ).concat(error.message.as_str()),
            ),
        ),
        Ok(resolved) => if resolved.starts_with(repository) {
            Ok(resolved)
        } else {
            Err(entry::invalid_path("source is outside the dotfiles repository: ", source))
        },
    }
}

fn has_duplicate(entries: &Vec<Entry>, entry: &Entry) -> (result: bool)
    ensures
        result == duplicates(request::each(entries@), entry@),
{
    let ghost seen = request::each(entries@);
    let mut i: usize = 0;
    while i < entries.len()
        invariant
            i <= entries.len(),
            seen == request::each(entries@),
            forall|j: int| 0 <= j < i ==> !same_target(#[trigger] seen[j], entry@),
        decreases entries.len() - i,
    {
        if entries[i].target().same(entry.target()) {
            assert(same_target(seen[i as int], entry@));
            return true;
        }
        i = i + 1;
    }
    false
}

/// The directory that sources are read from.
fn repository(config_path: &UnixPath) -> (directory: UnixPath)
    ensures
        directory@ == repository_of(config_path@),
{
    match config_path.parent() {
        Some(directory) => if directory.bytes.len() > 0 {
            directory
        } else {
            UnixPath::new(".")
        },
        None => UnixPath::new("."),
    }
}

fn ask(config_path: &UnixPath, state: LoadState) -> (step: LoadStep)
    ensures
        step@ == load_ask(config_path@, state@),
{
    let request = match &state {
        LoadState::Text => Request::ReadText(config_path.clone()),
        LoadState::Parse { text } => Request::ParseConfig(text.clone()),
        LoadState::Repository { config: _ } => Request::Canonicalize(repository(config_path)),
        LoadState::Home { config: _, repository: _ } => Request::HomeDirectory,
        LoadState::Source { work, current } => Request::Canonicalize(
            work.repository.join(current.source()),
        ),
        LoadState::Regular { work: _, current: _, source } => Request::IsFile(source.clone()),
        LoadState::Check { checked: _, current, rest: _ } => status::ask_source(current),
    };
    LoadStep::Ask { request, state }
}

/// The first of some entries, and the others.
pub(crate) fn take_first(entries: &mut Vec<Entry>) -> (first: Entry)
    requires
        old(entries)@.len() > 0,
    ensures
        first@ == request::each(old(entries)@)[0],
        request::each(final(entries)@) == request::each(old(entries)@).drop_first(),
{
    let first = entries.remove(0);
    assert(request::each(entries@) =~= request::each(old(entries)@).drop_first());
    first
}

fn take_check(config_path: &UnixPath, checked: Vec<Entry>, rest: Vec<Entry>) -> (step: LoadStep)
    ensures
        step@ == check_take(config_path@, request::each(checked@), request::each(rest@)),
{
    if rest.len() == 0 {
        return LoadStep::Done(Ok(checked));
    }
    let mut rest = rest;
    let current = take_first(&mut rest);
    match entry::validate_form(&current) {
        Ok(()) => ask(config_path, LoadState::Check { checked, current, rest }),
        Err(error) => LoadStep::Done(Err(error)),
    }
}

fn take_resolve(config_path: &UnixPath, work: Resolution) -> (step: LoadStep)
    ensures
        step@ == resolve_take(config_path@, work@),
{
    if work.rest.len() == 0 {
        let checked: Vec<Entry> = Vec::new();
        assert(request::each(checked@) =~= Seq::empty());
        return take_check(config_path, checked, work.entries);
    }
    let mut work = work;
    let current = take_first(&mut work.rest);
    match source_candidate(&work.repository, current.source()) {
        Ok(_) => ask(config_path, LoadState::Source { work, current }),
        Err(error) => LoadStep::Done(Err(error)),
    }
}

fn accept(config_path: &UnixPath, work: Resolution, current: Entry, source: UnixPath) -> (step:
    LoadStep)
    ensures
        step@ == resolve_accept(config_path@, work@, current@, source@),
{
    broadcast use request::lemma_each_push;

    match entry::expand_target(current.target(), work.home.as_ref()) {
        Ok(target) => {
            let mut work = work;
            work.entries.push(current.with_paths(source, target));
            take_resolve(config_path, work)
        },
        Err(error) => LoadStep::Done(Err(error)),
    }
}

/// Starts to load the entries of a configuration file.
pub fn begin_load(config_path: &UnixPath) -> (step: LoadStep)
    ensures
        step@ == load_ask(config_path@, LoadStateView::Text),
        step@ matches LoadStepView::Ask { request, state } ==> request == load_request(
            config_path@,
            state,
        ),
{
    ask(config_path, LoadState::Text)
}

/// Goes on loading, with the reply that the state waited for.
pub fn load_entries(config_path: &UnixPath, state: LoadState, reply: Reply) -> (step: LoadStep)
    requires
        load_request(config_path@, state@).fits(reply@),
    ensures
        step@ == load_next(config_path@, state@, reply@),
        step@ matches LoadStepView::Ask { request, state } ==> request == load_request(
            config_path@,
            state,
        ),
{
    broadcast use request::lemma_each_push;

    match state {
        LoadState::Text => match reply.text() {
            Ok(text) => ask(config_path, LoadState::Parse { text }),
            Err(error) => LoadStep::Done(Err(Error::Io(error))),
        },
        LoadState::Parse { text: _ } => match reply.config() {
            Ok(config) => ask(config_path, LoadState::Repository { config }),
            Err(message) => LoadStep::Done(Err(Error::Config(message))),
        },
        LoadState::Repository { config } => match reply.path() {
            Ok(repository) => ask(config_path, LoadState::Home { config, repository }),
            Err(error) => LoadStep::Done(Err(Error::Io(error))),
        },
        LoadState::Home { config, repository } => {
            let home = reply.home();
            let entries: Vec<Entry> = Vec::new();
            assert(request::each(entries@) =~= Seq::empty());
            take_resolve(
                config_path,
                Resolution { repository, home, rest: config.entries(), entries },
            )
        },
        LoadState::Source { work, current } => match resolve_source(
            &work.repository,
            current.source(),
            reply.path(),
        ) {
            Ok(source) => match &current {
                Entry::Link(_) => accept(config_path, work, current, source),
                _ => ask(config_path, LoadState::Regular { work, current, source }),
            },
            Err(error) => LoadStep::Done(Err(error)),
        },
        LoadState::Regular { work, current, source } => if reply.flag() {
            accept(config_path, work, current, source)
        } else {
            LoadStep::Done(Err(entry::invalid_path("source is not a regular file: ", &source)))
        },
        LoadState::Check { checked, current, rest } => {
            if let Err(error) = entry::validate_entry(&current, reply.flag()) {
                return LoadStep::Done(Err(error));
            }
            if has_duplicate(&checked, &current) {
                return LoadStep::Done(
                    Err(
                        entry::invalid_path(
                            "duplicate target in configuration: ",
                            current.target(),
                        ),
                    ),
                );
            }
            let mut checked = checked;
            checked.push(current);
            take_check(config_path, checked, rest)
        },
    }
}

} // verus!
