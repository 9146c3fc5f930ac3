//! What is asked of the system, and what it answers.
//!
//! Every procedure of this library is a state machine: it hands out a request, and goes on when
//! it is handed the reply.
use vstd::pervasive::unreached;
use vstd::prelude::*;

use crate::entry::Entry;
use crate::entry::EntryView;
use crate::entry::FileEntry;
use crate::entry::LinkEntry;
use crate::error::IoError;
use crate::error::IoErrorView;
use crate::path::UnixPath;

verus! {

/// What stands at a path.
#[derive(Debug, Clone, Copy, PartialEq, Eq, Structural)]
pub enum NodeKind {
    File,
    Directory,
    Symlink,
    Other,
}

/// What the system knows of the thing at a path; a link stands for itself.
#[derive(Debug, Clone, Copy, PartialEq, Eq, Structural)]
pub struct Metadata {
    pub kind: NodeKind,
    pub mode: u32,
    pub uid: u32,
    pub gid: u32,
}

/// The entries of a configuration file as they are written there.
#[derive(Debug)]
pub struct Config {
    pub links: Vec<LinkEntry>,
    pub configs: Vec<FileEntry>,
    pub scripts: Vec<FileEntry>,
}

#[derive(Debug)]
pub enum Request {
    /// The absolute path, without links, of what a path leads to.
    Canonicalize(UnixPath),
    /// Whether a path leads to a regular file.
    IsFile(UnixPath),
    /// Whether a path leads to anything.
    Exists(UnixPath),
    /// What stands at a path.
    Inspect(UnixPath),
    /// Where a link leads.
    ReadLink(UnixPath),
    /// The length of the file that a path leads to.
    FileSize(UnixPath),
    /// The content of a file.
    ReadBytes(UnixPath),
    /// The content of a text file.
    ReadText(UnixPath),
    /// Whether a directory holds anything.
    HasEntries(UnixPath),
    /// The current directory.
    CurrentDirectory,
    /// The home directory, where it is set.
    HomeDirectory,
    /// The entries that the text of a configuration file writes.
    ParseConfig(String),
    /// To create a directory and those above it.
    CreateDirectories(UnixPath),
    /// To remove an empty directory.
    RemoveDirectory(UnixPath),
    /// To remove a file or a link.
    RemoveFile(UnixPath),
    /// To create a link.
    MakeLink { source: UnixPath, target: UnixPath },
    /// To copy a file.
    CopyFile { source: UnixPath, target: UnixPath },
    /// To set the permissions of a file.
    SetMode { target: UnixPath, mode: u32 },
    /// To run a program to its end.
    Run { program: &'static str, arguments: Vec<Vec<u8>> },
    /// To print lines.
    Print(Vec<String>),
}

#[derive(Debug)]
pub enum Reply {
    Path(Result<UnixPath, IoError>),
    Flag(bool),
    Metadata(Result<Metadata, IoError>),
    Size(Result<u64, IoError>),
    Bytes(Result<Vec<u8>, IoError>),
    Text(Result<String, IoError>),
    Occupied(Result<bool, IoError>),
    Home(Option<UnixPath>),
    /// The configuration, or what is wrong with its text.
    Config(Result<Config, String>),
    Done(Result<(), IoError>),
    /// The exit code of a program; none where a signal ended it.
    Exit(Result<Option<i32>, IoError>),
    Printed,
}

pub struct ConfigView {
    pub links: Seq<EntryView>,
    pub configs: Seq<EntryView>,
    pub scripts: Seq<EntryView>,
}

pub enum RequestView {
    Canonicalize(Seq<u8>),
    IsFile(Seq<u8>),
    Exists(Seq<u8>),
    Inspect(Seq<u8>),
    ReadLink(Seq<u8>),
    FileSize(Seq<u8>),
    ReadBytes(Seq<u8>),
    ReadText(Seq<u8>),
    HasEntries(Seq<u8>),
    CurrentDirectory,
    HomeDirectory,
    ParseConfig(Seq<char>),
    CreateDirectories(Seq<u8>),
    RemoveDirectory(Seq<u8>),
    RemoveFile(Seq<u8>),
    MakeLink { source: Seq<u8>, target: Seq<u8> },
    CopyFile { source: Seq<u8>, target: Seq<u8> },
    SetMode { target: Seq<u8>, mode: u32 },
    Run { program: Seq<char>, arguments: Seq<Seq<u8>> },
    Print(Seq<Seq<char>>),
}

pub enum ReplyView {
    Path(Result<Seq<u8>, IoErrorView>),
    Flag(bool),
    Metadata(Result<Metadata, IoErrorView>),
    Size(Result<u64, IoErrorView>),
    Bytes(Result<Seq<u8>, IoErrorView>),
    Text(Result<Seq<char>, IoErrorView>),
    Occupied(Result<bool, IoErrorView>),
    Home(Option<Seq<u8>>),
    Config(Result<ConfigView, Seq<char>>),
    Done(Result<(), IoErrorView>),
    Exit(Result<Option<i32>, IoErrorView>),
    Printed,
}

/// A system that stands still: what it answers to each request.
pub type World = spec_fn(RequestView) -> ReplyView;

/// The views of a list.
pub open spec fn each<T: View>(items: Seq<T>) -> Seq<T::V> {
    items.map_values(|item: T| item@)
}

pub(crate) broadcast proof fn lemma_each_push<T: View>(items: Seq<T>, item: T)
    ensures
        #[trigger] each(items.push(item)) == each(items).push(item@),
{
    assert(each(items.push(item)) =~= each(items).push(item@));
}

/// An answer of the system by its view.
pub open spec fn answer<T: View>(result: Result<T, IoError>) -> Result<T::V, IoErrorView> {
    match result {
        Ok(value) => Ok(value@),
        Err(error) => Err(error@),
    }
}

/// A value that may be missing, by its view.
pub open spec fn viewed<T: View>(value: Option<T>) -> Option<T::V> {
    match value {
        Some(value) => Some(value@),
        None => None,
    }
}

/// A configuration by its view, or what is wrong with its text.
pub open spec fn parsed(result: Result<Config, String>) -> Result<ConfigView, Seq<char>> {
    match result {
        Ok(config) => Ok(config@),
        Err(message) => Err(message@),
    }
}

/// An answer of the system that is a plain value.
pub open spec fn plain_answer<T>(result: Result<T, IoError>) -> Result<T, IoErrorView> {
    match result {
        Ok(value) => Ok(value),
        Err(error) => Err(error@),
    }
}

impl View for Config {
    type V = ConfigView;

    open spec fn view(&self) -> ConfigView {
        ConfigView {
            links: each(self.links@),
            configs: self.configs@.map_values(|file: FileEntry| EntryView::Config(file@)),
            scripts: self.scripts@.map_values(|file: FileEntry| EntryView::Script(file@)),
        }
    }
}

impl ConfigView {
    /// All entries: the links, then the configuration files, then the scripts.
    pub open spec fn entries(self) -> Seq<EntryView> {
        self.links + self.configs + self.scripts
    }
}

impl View for Request {
    type V = RequestView;

    open spec fn view(&self) -> RequestView {
        match self {
            Request::Canonicalize(path) => RequestView::Canonicalize(path@),
            Request::IsFile(path) => RequestView::IsFile(path@),
            Request::Exists(path) => RequestView::Exists(path@),
            Request::Inspect(path) => RequestView::Inspect(path@),
            Request::ReadLink(path) => RequestView::ReadLink(path@),
            Request::FileSize(path) => RequestView::FileSize(path@),
            Request::ReadBytes(path) => RequestView::ReadBytes(path@),
            Request::ReadText(path) => RequestView::ReadText(path@),
            Request::HasEntries(path) => RequestView::HasEntries(path@),
            Request::CurrentDirectory => RequestView::CurrentDirectory,
            Request::HomeDirectory => RequestView::HomeDirectory,
            Request::ParseConfig(text) => RequestView::ParseConfig(text@),
            Request::CreateDirectories(path) => RequestView::CreateDirectories(path@),
            Request::RemoveDirectory(path) => RequestView::RemoveDirectory(path@),
            Request::RemoveFile(path) => RequestView::RemoveFile(path@),
            Request::MakeLink { source, target } => RequestView::MakeLink {
                source: source@,
                target: target@,
            },
            Request::CopyFile { source, target } => RequestView::CopyFile {
                source: source@,
                target: target@,
            },
            Request::SetMode { target, mode } => RequestView::SetMode {
                target: target@,
                mode: *mode,
            },
            Request::Run { program, arguments } => RequestView::Run {
                program: program@,
                arguments: each(arguments@),
            },
            Request::Print(lines) => RequestView::Print(each(lines@)),
        }
    }
}

impl View for Reply {
    type V = ReplyView;

    open spec fn view(&self) -> ReplyView {
        match self {
            Reply::Path(result) => ReplyView::Path(answer(*result)),
            Reply::Flag(value) => ReplyView::Flag(*value),
            Reply::Metadata(result) => ReplyView::Metadata(plain_answer(*result)),
            Reply::Size(result) => ReplyView::Size(plain_answer(*result)),
            Reply::Bytes(result) => ReplyView::Bytes(answer(*result)),
            Reply::Text(result) => ReplyView::Text(answer(*result)),
            Reply::Occupied(result) => ReplyView::Occupied(plain_answer(*result)),
            Reply::Home(home) => ReplyView::Home(viewed(*home)),
            Reply::Config(result) => ReplyView::Config(parsed(*result)),
            Reply::Done(result) => ReplyView::Done(plain_answer(*result)),
            Reply::Exit(result) => ReplyView::Exit(plain_answer(*result)),
            Reply::Printed => ReplyView::Printed,
        }
    }
}

impl RequestView {
    /// Whether a reply is of the kind that this request asks for.
    pub open spec fn fits(self, reply: ReplyView) -> bool {
        match self {
            RequestView::Canonicalize(_) => reply is Path,
            RequestView::IsFile(_) => reply is Flag,
            RequestView::Exists(_) => reply is Flag,
            RequestView::Inspect(_) => reply is Metadata,
            RequestView::ReadLink(_) => reply is Path,
            RequestView::FileSize(_) => reply is Size,
            RequestView::ReadBytes(_) => reply is Bytes,
            RequestView::ReadText(_) => reply is Text,
            RequestView::HasEntries(_) => reply is Occupied,
            RequestView::CurrentDirectory => reply is Path,
            RequestView::HomeDirectory => reply is Home,
            RequestView::ParseConfig(_) => reply is Config,
            RequestView::CreateDirectories(_) => reply is Done,
            RequestView::RemoveDirectory(_) => reply is Done,
            RequestView::RemoveFile(_) => reply is Done,
            RequestView::MakeLink { source, target } => reply is Done,
            RequestView::CopyFile { source, target } => reply is Done,
            RequestView::SetMode { target, mode } => reply is Done,
            RequestView::Run { program, arguments } => reply is Exit,
            RequestView::Print(_) => reply is Printed,
        }
    }

    /// Whether this request changes anything in the file system. A program that is run may.
    pub open spec fn changes(self) -> bool {
        match self {
            RequestView::CreateDirectories(_) => true,
            RequestView::RemoveDirectory(_) => true,
            RequestView::RemoveFile(_) => true,
            RequestView::MakeLink { source, target } => true,
            RequestView::CopyFile { source, target } => true,
            RequestView::SetMode { target, mode } => true,
            RequestView::Run { program, arguments } => true,
            _ => false,
        }
    }
}

impl Request {
    /// Whether a reply is of the kind that this request asks for.
    pub fn fits(&self, reply: &Reply) -> (result: bool)
        ensures
            result == self@.fits(reply@),
    {
        match (self, reply) {
            (Request::Canonicalize(_), Reply::Path(_)) => true,
            (Request::IsFile(_), Reply::Flag(_)) => true,
            (Request::Exists(_), Reply::Flag(_)) => true,
            (Request::Inspect(_), Reply::Metadata(_)) => true,
            (Request::ReadLink(_), Reply::Path(_)) => true,
            (Request::FileSize(_), Reply::Size(_)) => true,
            (Request::ReadBytes(_), Reply::Bytes(_)) => true,
            (Request::ReadText(_), Reply::Text(_)) => true,
            (Request::HasEntries(_), Reply::Occupied(_)) => true,
            (Request::CurrentDirectory, Reply::Path(_)) => true,
            (Request::HomeDirectory, Reply::Home(_)) => true,
            (Request::ParseConfig(_), Reply::Config(_)) => true,
            (Request::CreateDirectories(_), Reply::Done(_)) => true,
            (Request::RemoveDirectory(_), Reply::Done(_)) => true,
            (Request::RemoveFile(_), Reply::Done(_)) => true,
            (Request::MakeLink { source: _, target: _ }, Reply::Done(_)) => true,
            (Request::CopyFile { source: _, target: _ }, Reply::Done(_)) => true,
            (Request::SetMode { target: _, mode: _ }, Reply::Done(_)) => true,
            (Request::Run { program: _, arguments: _ }, Reply::Exit(_)) => true,
            (Request::Print(_), Reply::Printed) => true,
            _ => false,
        }
    }
}

impl Reply {
    pub(crate) fn path(self) -> (value: Result<UnixPath, IoError>)
        requires
            self@ is Path,
        ensures
            self@ == ReplyView::Path(answer(value)),
    {
        match self {
            Reply::Path(value) => value,
            _ => unreached(),
        }
    }

    pub(crate) fn flag(self) -> (value: bool)
        requires
            self@ is Flag,
        ensures
            self@ == ReplyView::Flag(value),
    {
        match self {
            Reply::Flag(value) => value,
            _ => unreached(),
        }
    }

    pub(crate) fn metadata(self) -> (value: Result<Metadata, IoError>)
        requires
            self@ is Metadata,
        ensures
            self@ == ReplyView::Metadata(plain_answer(value)),
    {
        match self {
            Reply::Metadata(value) => value,
            _ => unreached(),
        }
    }

    pub(crate) fn size(self) -> (value: Result<u64, IoError>)
        requires
            self@ is Size,
        ensures
            self@ == ReplyView::Size(plain_answer(value)),
    {
        match self {
            Reply::Size(value) => value,
            _ => unreached(),
        }
    }

    pub(crate) fn bytes(self) -> (value: Result<Vec<u8>, IoError>)
        requires
            self@ is Bytes,
        ensures
            self@ == ReplyView::Bytes(answer(value)),
    {
        match self {
            Reply::Bytes(value) => value,
            _ => unreached(),
        }
    }

    pub(crate) fn text(self) -> (value: Result<String, IoError>)
        requires
            self@ is Text,
        ensures
            self@ == ReplyView::Text(answer(value)),
    {
        match self {
            Reply::Text(value) => value,
            _ => unreached(),
        }
    }

    pub(crate) fn occupied(self) -> (value: Result<bool, IoError>)
        requires
            self@ is Occupied,
        ensures
            self@ == ReplyView::Occupied(plain_answer(value)),
    {
        match self {
            Reply::Occupied(value) => value,
            _ => unreached(),
        }
    }

    pub(crate) fn done(self) -> (value: Result<(), IoError>)
        requires
            self@ is Done,
        ensures
            self@ == ReplyView::Done(plain_answer(value)),
    {
        match self {
            Reply::Done(value) => value,
            _ => unreached(),
        }
    }

    pub(crate) fn exit(self) -> (value: Result<Option<i32>, IoError>)
        requires
            self@ is Exit,
        ensures
            self@ == ReplyView::Exit(plain_answer(value)),
    {
        match self {
            Reply::Exit(value) => value,
            _ => unreached(),
        }
    }

    pub(crate) fn home(self) -> (value: Option<UnixPath>)
        requires
            self@ is Home,
        ensures
            self@ == ReplyView::Home(viewed(value)),
    {
        match self {
            Reply::Home(value) => value,
            _ => unreached(),
        }
    }

    pub(crate) fn config(self) -> (value: Result<Config, String>)
        requires
            self@ is Config,
        ensures
            self@ == ReplyView::Config(parsed(value)),
    {
        match self {
            Reply::Config(value) => value,
            _ => unreached(),
        }
    }
}

impl Config {
    /// All entries, the links first and the scripts last.
    pub fn entries(self) -> (entries: Vec<Entry>)
        ensures
            each(entries@) == self@.entries(),
    {
        broadcast use lemma_each_push;

        let ghost wanted = self@.entries();
        let mut entries: Vec<Entry> = Vec::new();
        let mut i: usize = 0;
        while i < self.links.len()
            invariant
                i <= self.links@.len(),
                each(entries@) =~= self@.links.take(i as int),
            decreases self.links@.len() - i,
        {
            let link = &self.links[i];
            entries.push(Entry::Link(link.clone()));
            assert(self@.links.take(i + 1) =~= self@.links.take(i as int).push(link@));
            i = i + 1;
        }
        let mut i: usize = 0;
        while i < self.configs.len()
            invariant
                i <= self.configs@.len(),
                each(entries@) =~= self@.links + self@.configs.take(i as int),
            decreases self.configs@.len() - i,
        {
            let file = self.configs[i].clone();
            let ghost before = self@.links + self@.configs.take(i as int);
            entries.push(Entry::Config(file));
            assert(self@.configs.take(i + 1) =~= self@.configs.take(i as int).push(
                EntryView::Config(file@),
            ));
            assert(self@.links + self@.configs.take(i + 1) =~= before.push(
                EntryView::Config(file@),
            ));
            i = i + 1;
        }
        let mut i: usize = 0;
        while i < self.scripts.len()
            invariant
                i <= self.scripts@.len(),
                each(entries@) =~= self@.links + self@.configs + self@.scripts.take(i as int),
            decreases self.scripts@.len() - i,
        {
            let file = self.scripts[i].clone();
            let ghost before = self@.links + self@.configs + self@.scripts.take(i as int);
            entries.push(Entry::Script(file));
            assert(self@.scripts.take(i + 1) =~= self@.scripts.take(i as int).push(
                EntryView::Script(file@),
            ));
            assert(self@.links + self@.configs + self@.scripts.take(i + 1) =~= before.push(
                EntryView::Script(file@),
            ));
            i = i + 1;
        }
        assert(each(entries@) =~= wanted);
        entries
    }
}

} // verus!
