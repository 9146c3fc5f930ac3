//! The entries of a configuration and the rules they keep.
use vstd::prelude::*;
use vstd::string::*;
use vstd::utf8::*;

use crate::error::Error;
use crate::error::ErrorView;
use crate::path;
use crate::path::UnixPath;
use crate::text;

verus! {

/// A symbolic link that is to stand at `target` and lead to `source`.
#[derive(Debug, PartialEq, Eq)]
pub struct LinkEntry {
    pub source: UnixPath,
    pub target: UnixPath,
}

/// A copy of `source` that is to stand at `target`.
#[derive(Debug, PartialEq, Eq)]
pub struct FileEntry {
    pub source: UnixPath,
    pub target: UnixPath,
    /// The permissions of the copy, where they are not the usual ones.
    pub mode: Option<u32>,
    /// Whether the copy belongs to root.
    pub sudo: bool,
}

#[derive(Debug, PartialEq, Eq)]
pub enum Entry {
    Link(LinkEntry),
    Config(FileEntry),
    Script(FileEntry),
}

/// The two kinds of files that are copied.
#[derive(Debug, Clone, Copy, PartialEq, Eq, Structural)]
pub enum FileKind {
    Config,
    Script,
}

/// How a target compares with its entry.
#[derive(Debug, Clone, Copy, PartialEq, Eq, Structural)]
pub enum EntryStatus {
    /// The target is as the entry wants it.
    InPlace,
    /// There is nothing at the target.
    Missing,
    /// There is a file of other content, mode or owner.
    Modified,
    /// There is something of another kind.
    Conflict,
    /// What is there cannot be read without more rights.
    Unreadable,
}

#[derive(Debug, Clone, Copy)]
pub struct InstallOptions {
    /// Only say what would be done.
    pub dry_run: bool,
    /// Replace what is in the way.
    pub force: bool,
}

pub struct FileView {
    pub source: Seq<u8>,
    pub target: Seq<u8>,
    pub mode: Option<u32>,
    pub sudo: bool,
}

pub enum EntryView {
    Link { source: Seq<u8>, target: Seq<u8> },
    Config(FileView),
    Script(FileView),
}

impl View for LinkEntry {
    type V = EntryView;

    open spec fn view(&self) -> EntryView {
        EntryView::Link { source: self.source@, target: self.target@ }
    }
}

impl View for FileEntry {
    type V = FileView;

    open spec fn view(&self) -> FileView {
        FileView {
            source: self.source@,
            target: self.target@,
            mode: self.mode,
            sudo: self.sudo,
        }
    }
}

impl View for Entry {
    type V = EntryView;

    open spec fn view(&self) -> EntryView {
        match self {
            Entry::Link(entry) => entry@,
            Entry::Config(entry) => EntryView::Config(entry@),
            Entry::Script(entry) => EntryView::Script(entry@),
        }
    }
}

impl EntryView {
    pub open spec fn source(self) -> Seq<u8> {
        match self {
            EntryView::Link { source, target } => source,
            EntryView::Config(file) => file.source,
            EntryView::Script(file) => file.source,
        }
    }

    pub open spec fn target(self) -> Seq<u8> {
        match self {
            EntryView::Link { source, target } => target,
            EntryView::Config(file) => file.target,
            EntryView::Script(file) => file.target,
        }
    }

    pub open spec fn uses_sudo(self) -> bool {
        match self {
            EntryView::Link { source, target } => false,
            EntryView::Config(file) => file.sudo,
            EntryView::Script(file) => file.sudo,
        }
    }

    /// The permissions that the copy gets; a link has none of its own.
    pub open spec fn mode(self) -> Option<u32> {
        match self {
            EntryView::Link { source, target } => None,
            EntryView::Config(file) => Some(
                match file.mode {
                    Some(mode) => mode,
                    None => 0o644,
                },
            ),
            EntryView::Script(file) => Some(
                match file.mode {
                    Some(mode) => mode,
                    None => 0o755,
                },
            ),
        }
    }

    /// The same entry with other paths.
    pub open spec fn with_paths(self, source: Seq<u8>, target: Seq<u8>) -> EntryView {
        match self {
            EntryView::Link { source: _, target: _ } => EntryView::Link { source, target },
            EntryView::Config(file) => EntryView::Config(FileView { source, target, ..file }),
            EntryView::Script(file) => EntryView::Script(FileView { source, target, ..file }),
        }
    }
}

/// The error of a result, if it is one.
pub open spec fn fault_of<T>(result: Result<T, Error>) -> Option<ErrorView> {
    match result {
        Ok(_) => None,
        Err(error) => Some(error@),
    }
}

pub open spec fn status_name(status: EntryStatus) -> Seq<char> {
    match status {
        EntryStatus::InPlace => "ok"@,
        EntryStatus::Missing => "missing"@,
        EntryStatus::Modified => "modified"@,
        EntryStatus::Conflict => "conflict"@,
        EntryStatus::Unreadable => "unreadable"@,
    }
}

/// What is wrong with a mode: a bit that is no permission, a permission to execute on a
/// configuration file, or none for the owner on a script.
pub open spec fn mode_fault(mode: u32, kind: FileKind) -> Option<ErrorView> {
    if mode & !0o777u32 != 0 {
        Some(
            ErrorView::Invalid(
                "mode "@ + text::mode_text(mode) + " contains forbidden special or invalid bits"@,
            ),
        )
    } else if kind == FileKind::Config && mode & 0o111 != 0 {
        Some(
            ErrorView::Invalid(
                "config mode must not contain executable bits: "@ + text::mode_text(mode),
            ),
        )
    } else if kind == FileKind::Script && mode & 0o100 == 0 {
        Some(
            ErrorView::Invalid(
                "script mode must contain the owner executable bit: "@ + text::mode_text(mode),
            ),
        )
    } else {
        None
    }
}

/// What is wrong with the mode of an entry.
pub open spec fn entry_mode_fault(entry: EntryView) -> Option<ErrorView> {
    match entry {
        EntryView::Link { source, target } => None,
        EntryView::Config(_) => mode_fault(entry.mode()->0, FileKind::Config),
        EntryView::Script(_) => mode_fault(entry.mode()->0, FileKind::Script),
    }
}

/// The directories that no entry may replace.
pub open spec fn is_dangerous(target: Seq<u8>) -> bool {
    ||| path::same_path(target, path::bytes_of("/"@))
    ||| path::same_path(target, path::bytes_of("/etc"@))
    ||| path::same_path(target, path::bytes_of("/usr"@))
}

/// What is wrong with a target.
pub open spec fn target_fault(target: Seq<u8>) -> Option<ErrorView> {
    if !path::is_absolute(target) {
        Some(
            ErrorView::Invalid(
                "target must be an absolute path (or start with ~/$HOME): "@ + path::path_text(
                    target,
                ),
            ),
        )
    } else if is_dangerous(target) {
        Some(ErrorView::Invalid("refusing dangerous target path: "@ + path::path_text(target)))
    } else if path::has_parent_dir(target) {
        Some(ErrorView::Invalid("target path must not contain '..': "@ + path::path_text(target)))
    } else {
        None
    }
}

/// What is wrong with an entry, whatever stands in the file system.
pub open spec fn form_fault(entry: EntryView) -> Option<ErrorView> {
    match target_fault(entry.target()) {
        Some(error) => Some(error),
        None => entry_mode_fault(entry),
    }
}

/// What is wrong with an entry whose source is, or is not, there: for a link anything will do,
/// a file that is copied has to be a regular one.
pub open spec fn entry_fault(entry: EntryView, source_present: bool) -> Option<ErrorView> {
    match form_fault(entry) {
        Some(error) => Some(error),
        None => if source_present {
            None
        } else {
            match entry {
                EntryView::Link { source, target } => Some(
                    ErrorView::Invalid("link source does not exist: "@ + path::path_text(source)),
                ),
                _ => Some(
                    ErrorView::Invalid(
                        "source is not a regular file: "@ + path::path_text(entry.source()),
                    ),
                ),
            }
        },
    }
}

pub open spec fn no_home() -> ErrorView {
    ErrorView::Invalid("HOME is not set"@)
}

/// A target with the home directory in place of a leading `~` or `$HOME`.
pub open spec fn expanded_target(target: Seq<u8>, home: Option<Seq<u8>>) -> Result<
    Seq<u8>,
    ErrorView,
> {
    let tilde = path::bytes_of("~/"@);
    let variable = path::bytes_of("$HOME/"@);
    if !valid_utf8(target) {
        Err(ErrorView::Invalid("target is not valid UTF-8: "@ + path::path_text(target)))
    } else if target == path::bytes_of("~"@) || target == path::bytes_of("$HOME"@) {
        match home {
            Some(home) => Ok(home),
            None => Err(no_home()),
        }
    } else if tilde.is_prefix_of(target) {
        match home {
            Some(home) => Ok(path::joined(home, target.skip(tilde.len() as int))),
            None => Err(no_home()),
        }
    } else if variable.is_prefix_of(target) {
        match home {
            Some(home) => Ok(path::joined(home, target.skip(variable.len() as int))),
            None => Err(no_home()),
        }
    } else {
        Ok(target)
    }
}

impl Clone for LinkEntry {
    fn clone(&self) -> (copy: LinkEntry)
        ensures
            copy@ == self@,
    {
        LinkEntry { source: self.source.clone(), target: self.target.clone() }
    }
}

impl Clone for FileEntry {
    fn clone(&self) -> (copy: FileEntry)
        ensures
            copy@ == self@,
    {
        FileEntry {
            source: self.source.clone(),
            target: self.target.clone(),
            mode: self.mode,
            sudo: self.sudo,
        }
    }
}

impl Clone for Entry {
    fn clone(&self) -> (copy: Entry)
        ensures
            copy@ == self@,
    {
        match self {
            Entry::Link(entry) => Entry::Link(entry.clone()),
            Entry::Config(entry) => Entry::Config(entry.clone()),
            Entry::Script(entry) => Entry::Script(entry.clone()),
        }
    }
}

impl EntryStatus {
    /// The name of this status in a report.
    pub fn name(&self) -> (name: &'static str)
        ensures
            name@ == status_name(*self),
    {
        match self {
            EntryStatus::InPlace => "ok",
            EntryStatus::Missing => "missing",
            EntryStatus::Modified => "modified",
            EntryStatus::Conflict => "conflict",
            EntryStatus::Unreadable => "unreadable",
        }
    }
}

impl Entry {
    pub fn source(&self) -> (source: &UnixPath)
        ensures
            source@ == self@.source(),
    {
        match self {
            Entry::Link(entry) => &entry.source,
            Entry::Config(entry) => &entry.source,
            Entry::Script(entry) => &entry.source,
        }
    }

    pub fn target(&self) -> (target: &UnixPath)
        ensures
            target@ == self@.target(),
    {
        match self {
            Entry::Link(entry) => &entry.target,
            Entry::Config(entry) => &entry.target,
            Entry::Script(entry) => &entry.target,
        }
    }

    /// The permissions that the copy gets: those of the entry, else `0644` for a configuration
    /// file and `0755` for a script.
    pub fn mode(&self) -> (mode: Option<u32>)
        ensures
            mode == self@.mode(),
    {
        match self {
            Entry::Link(_) => None,
            Entry::Config(entry) => Some(
                match entry.mode {
                    Some(mode) => mode,
                    None => 0o644,
                },
            ),
            Entry::Script(entry) => Some(
                match entry.mode {
                    Some(mode) => mode,
                    None => 0o755,
                },
            ),
        }
    }

    /// The permissions that the copy gets, where they are allowed.
    pub fn effective_mode(&self) -> (result: Result<Option<u32>, Error>)
        ensures
            fault_of(result) == entry_mode_fault(self@),
            result matches Ok(mode) ==> mode == self@.mode(),
    {
        let mode = self.mode();
        let kind = match self {
            Entry::Link(_) => return Ok(None),
            Entry::Config(_) => FileKind::Config,
            Entry::Script(_) => FileKind::Script,
        };
        match mode {
            Some(bits) => match validate_file_mode(bits, kind) {
                Ok(()) => Ok(mode),
                Err(error) => Err(error),
            },
            None => Ok(None),
        }
    }

    /// The same entry with other paths.
    pub(crate) fn with_paths(self, source: UnixPath, target: UnixPath) -> (entry: Entry)
        ensures
            entry@ == self@.with_paths(source@, target@),
    {
        match self {
            Entry::Link(_) => Entry::Link(LinkEntry { source, target }),
            Entry::Config(file) => Entry::Config(
                FileEntry { source, target, mode: file.mode, sudo: file.sudo },
            ),
            Entry::Script(file) => Entry::Script(
                FileEntry { source, target, mode: file.mode, sudo: file.sudo },
            ),
        }
    }

    /// Whether the operations on the target need root.
    pub fn uses_sudo(&self) -> (result: bool)
        ensures
            result == self@.uses_sudo(),
    {
        match self {
            Entry::Link(_) => false,
            Entry::Config(entry) => entry.sudo,
            Entry::Script(entry) => entry.sudo,
        }
    }
}

/// An error whose text is a sentence and a path.
pub(crate) fn invalid_path(sentence: &str, subject: &UnixPath) -> (error: Error)
    ensures
        error@ == ErrorView::Invalid(sentence@ + path::path_text(subject@)),
{
    Error::Invalid(sentence.to_string().concat(subject.display().as_str()))
}

pub fn validate_file_mode(mode: u32, kind: FileKind) -> (result: Result<(), Error>)
    ensures
        fault_of(result) == mode_fault(mode, kind),
{
    if mode & !0o777u32 != 0 {
        return Err(
            Error::Invalid(
                "mode ".to_string().concat(text::show_mode(mode).as_str()).concat(
                    " contains forbidden special or invalid bits",
                ),
            ),
        );
    }
    match kind {
        FileKind::Config => if mode & 0o111 != 0 {
            Err(
                Error::Invalid(
                    "config mode must not contain executable bits: ".to_string().concat(
                        text::show_mode(mode).as_str(),
                    ),
                ),
            )
        } else {
            Ok(())
        },
        FileKind::Script => if mode & 0o100 == 0 {
            Err(
                Error::Invalid(
                    "script mode must contain the owner executable bit: ".to_string().concat(
                        text::show_mode(mode).as_str(),
                    ),
                ),
            )
        } else {
            Ok(())
        },
    }
}

pub fn validate_target(target: &UnixPath) -> (result: Result<(), Error>)
    ensures
        fault_of(result) == target_fault(target@),
{
    if !target.is_absolute() {
        return Err(
            invalid_path("target must be an absolute path (or start with ~/$HOME): ", target),
        );
    }
    if target.same(&UnixPath::new("/")) || target.same(&UnixPath::new("/etc")) || target.same(
        &UnixPath::new("/usr"),
    ) {
        return Err(invalid_path("refusing dangerous target path: ", target));
    }
    if target.has_parent_dir() {
        return Err(invalid_path("target path must not contain '..': ", target));
    }
    Ok(())
}

/// The rules of an entry that need no look at the file system.
pub fn validate_form(entry: &Entry) -> (result: Result<(), Error>)
    ensures
        fault_of(result) == form_fault(entry@),
{
    match validate_target(entry.target()) {
        Ok(()) => match entry.effective_mode() {
            Ok(_) => Ok(()),
            Err(error) => Err(error),
        },
        Err(error) => Err(error),
    }
}

/// All rules of an entry. Whether the source is there is the system's answer: for a link whether
/// it exists, for a file whether it is a regular one.
pub fn validate_entry(entry: &Entry, source_present: bool) -> (result: Result<(), Error>)
    ensures
        fault_of(result) == entry_fault(entry@, source_present),
{
    if let Err(error) = validate_form(entry) {
        return Err(error);
    }
    if source_present {
        return Ok(());
    }
    match entry {
        Entry::Link(_) => Err(invalid_path("link source does not exist: ", entry.source())),
        _ => Err(invalid_path("source is not a regular file: ", entry.source())),
    }
}

/// What follows a prefix.
fn strip_prefix(bytes: &Vec<u8>, prefix: &str) -> (rest: Option<UnixPath>)
    ensures
        rest is Some == path::bytes_of(prefix@).is_prefix_of(bytes@),
        rest matches Some(path) ==> path@ == bytes@.skip(path::bytes_of(prefix@).len() as int),
{
    let prefix = UnixPath::new(prefix).bytes;
    if prefix.len() > bytes.len() {
        return None;
    }
    let mut start = path::clone_bytes(bytes);
    let rest = start.split_off(prefix.len());
    assert(start@ =~= bytes@.subrange(0, prefix@.len() as int));
    if path::equal_bytes(&start, &prefix) {
        assert(rest@ =~= bytes@.skip(prefix@.len() as int));
        Some(UnixPath { bytes: rest })
    } else {
        None
    }
}

/// Puts the home directory in place of a leading `~` or `$HOME`.
pub fn expand_target(target: &UnixPath, home: Option<&UnixPath>) -> (result: Result<
    UnixPath,
    Error,
>)
    ensures
        match expanded_target(
            target@,
            match home {
                Some(home) => Some(home@),
                None => None,
            },
        ) {
            Ok(path) => result matches Ok(expanded) && expanded@ == path,
            Err(error) => fault_of(result) == Some(error),
        },
{
    if !text::is_utf8(&target.bytes) {
        return Err(invalid_path("target is not valid UTF-8: ", target));
    }
    if path::equal_bytes(&target.bytes, &UnixPath::new("~").bytes) || path::equal_bytes(
        &target.bytes,
        &UnixPath::new("$HOME").bytes,
    ) {
        return match home {
            Some(home) => Ok(home.clone()),
            None => Err(Error::Invalid("HOME is not set".to_string())),
        };
    }
    if let Some(suffix) = strip_prefix(&target.bytes, "~/") {
        return match home {
            Some(home) => Ok(home.join(&suffix)),
            None => Err(Error::Invalid("HOME is not set".to_string())),
        };
    }
    if let Some(suffix) = strip_prefix(&target.bytes, "$HOME/") {
        return match home {
            Some(home) => Ok(home.join(&suffix)),
            None => Err(Error::Invalid("HOME is not set".to_string())),
        };
    }
    Ok(target.clone())
}

} // verus!
