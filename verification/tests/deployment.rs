use magsys::entry::{expand_target, validate_entry, validate_file_mode, validate_target, FileKind};
use magsys::error::{IoError, IoErrorKind};
use magsys::install::{begin_install, check_exit, InstallStep};
use magsys::load::{begin_load, resolve_source, source_candidate, LoadStep};
use magsys::request::{Config, Metadata, NodeKind, Reply, Request};
use magsys::search::{begin_search, SearchStep};
use magsys::session::{begin_session, plan, run, Command, Plan, SessionStep};
use magsys::status::{begin_status, paths_refer_to_same_file, StatusStep};
use magsys::{
    ensure_not_running_as_root, entry_status, find_config_upwards, install_entry, load_entries,
    Entry, EntryStatus, Error, FileEntry, InstallOptions, LinkEntry, UnixPath,
};
use std::collections::BTreeMap;

#[derive(Clone, Debug, PartialEq)]
enum Node {
    Directory,
    File { content: String, mode: u32, owner: u32, readable: bool },
    Link(String),
    Socket,
}

/// A file system in memory, with what a program sees of the rest of the system.
#[derive(Clone)]
struct Machine {
    nodes: BTreeMap<String, Node>,
    directory: String,
    home: Option<String>,
    process: String,
    printed: Vec<String>,
    changes: Vec<String>,
}

fn refusal(kind: IoErrorKind) -> IoError {
    let message = match kind {
        IoErrorKind::NotFound => "No such file or directory (os error 2)",
        IoErrorKind::PermissionDenied => "Permission denied (os error 13)",
        IoErrorKind::Other => "Input/output error (os error 5)",
    };
    IoError { kind, message: message.to_string() }
}

fn text_of(path: &UnixPath) -> String {
    String::from_utf8(path.bytes.clone()).unwrap()
}

fn at(text: &str) -> UnixPath {
    UnixPath::new(text)
}

impl Machine {
    fn new() -> Machine {
        let mut machine = Machine {
            nodes: BTreeMap::new(),
            directory: "/work".to_string(),
            home: Some("/home/user".to_string()),
            process: "Name:\tmagsys\nUid:\t1000\t1000\t1000\t1000\n".to_string(),
            printed: Vec::new(),
            changes: Vec::new(),
        };
        machine.directories("/work");
        machine
    }

    fn directories(&mut self, path: &str) {
        let mut so_far = String::new();
        for part in path.split('/').filter(|part| !part.is_empty()) {
            so_far = format!("{so_far}/{part}");
            self.nodes.entry(so_far.clone()).or_insert(Node::Directory);
        }
    }

    fn file(&mut self, path: &str, content: &str, mode: u32) {
        let end = path.rfind('/').unwrap();
        self.directories(&path[..end]);
        let node = Node::File { content: content.to_string(), mode, owner: 1000, readable: true };
        self.nodes.insert(path.to_string(), node);
    }

    /// Where a path leads; the last name may be a link that stands for itself.
    fn walk(&self, path: &str, follow: bool) -> Result<String, IoError> {
        if path.is_empty() {
            return Err(refusal(IoErrorKind::NotFound));
        }
        let mut rest: Vec<String> = path.split('/').rev().map(|part| part.to_string()).collect();
        let mut place = if path.starts_with('/') { String::new() } else { self.directory.clone() };
        let mut links = 0;
        while let Some(part) = rest.pop() {
            if part.is_empty() || part == "." {
                continue;
            }
            if part == ".." {
                let end = place.rfind('/').unwrap_or(0);
                place.truncate(end);
                continue;
            }
            let next = format!("{place}/{part}");
            let last = rest.iter().all(|part| part.is_empty());
            match self.nodes.get(&next) {
                None => return Err(refusal(IoErrorKind::NotFound)),
                Some(Node::Link(target)) if follow || !last => {
                    links += 1;
                    if links > 40 {
                        return Err(refusal(IoErrorKind::Other));
                    }
                    if target.starts_with('/') {
                        place = String::new();
                    }
                    rest.extend(target.split('/').rev().map(|part| part.to_string()));
                }
                Some(Node::Directory) => place = next,
                Some(_) if last => place = next,
                Some(_) => return Err(refusal(IoErrorKind::Other)),
            }
        }
        if place.is_empty() {
            place = "/".to_string();
        }
        Ok(place)
    }

    fn find(&self, path: &UnixPath) -> Option<&Node> {
        self.walk(&text_of(path), true).ok().and_then(|place| self.nodes.get(&place))
    }

    fn read(&self, path: &UnixPath) -> Result<String, IoError> {
        match self.nodes.get(&self.walk(&text_of(path), true)?) {
            Some(Node::File { content, readable: true, .. }) => Ok(content.clone()),
            Some(Node::File { .. }) => Err(refusal(IoErrorKind::PermissionDenied)),
            _ => Err(refusal(IoErrorKind::Other)),
        }
    }

    fn inspect(&self, path: &UnixPath) -> Result<Metadata, IoError> {
        let place = self.walk(&text_of(path), false)?;
        let (kind, mode, owner) = match &self.nodes[&place] {
            Node::Directory => (NodeKind::Directory, 0o40755, 1000),
            Node::File { mode, owner, .. } => (NodeKind::File, 0o100000 | mode, *owner),
            Node::Link(_) => (NodeKind::Symlink, 0o120777, 1000),
            Node::Socket => (NodeKind::Other, 0o140755, 1000),
        };
        Ok(Metadata { kind, mode, uid: owner, gid: owner })
    }

    fn copy(&mut self, source: &str, target: &str, owner: u32, mode: u32) {
        let content = self.read(&at(source)).unwrap();
        let node = Node::File { content, mode, owner, readable: owner == 1000 || mode & 4 != 0 };
        self.nodes.insert(target.to_string(), node);
    }

    fn occupied(&self, path: &str) -> bool {
        let prefix = format!("{path}/");
        self.nodes.keys().any(|key| key.starts_with(&prefix))
    }

    fn run(&mut self, program: &str, arguments: &[Vec<u8>]) -> Option<i32> {
        let words: Vec<String> =
            arguments.iter().map(|word| String::from_utf8(word.clone()).unwrap()).collect();
        self.changes.push(format!("{program} {}", words.join(" ")));
        let words: Vec<&str> = words.iter().map(|word| word.as_str()).collect();
        match words.as_slice() {
            ["/usr/bin/install", "-d", "-m", "0755", "-o", "root", "-g", "root", "--", path] => {
                self.directories(path);
            }
            ["/usr/bin/install", "-m", mode, "-o", "root", "-g", "root", "--", from, to] => {
                self.copy(from, to, 0, u32::from_str_radix(mode, 8).unwrap());
            }
            ["/usr/bin/rm", "--", path] | ["/usr/bin/rmdir", "--", path] => {
                self.nodes.remove(*path);
            }
            _ => return Some(64),
        }
        Some(0)
    }

    fn perform(&mut self, request: &Request) -> Reply {
        match request {
            Request::Canonicalize(path) => {
                Reply::Path(self.walk(&text_of(path), true).map(|place| at(&place)))
            }
            Request::IsFile(path) => Reply::Flag(matches!(self.find(path), Some(Node::File { .. }))),
            Request::Exists(path) => Reply::Flag(self.find(path).is_some()),
            Request::Inspect(path) => Reply::Metadata(self.inspect(path)),
            Request::ReadLink(path) => Reply::Path(match self.walk(&text_of(path), false) {
                Ok(place) => match &self.nodes[&place] {
                    Node::Link(target) => Ok(at(target)),
                    _ => Err(refusal(IoErrorKind::Other)),
                },
                Err(error) => Err(error),
            }),
            Request::FileSize(path) => Reply::Size(match self.find(path) {
                Some(Node::File { content, .. }) => Ok(content.len() as u64),
                _ => Err(refusal(IoErrorKind::NotFound)),
            }),
            Request::ReadBytes(path) => Reply::Bytes(self.read(path).map(|text| text.into_bytes())),
            Request::ReadText(path) if text_of(path) == "/proc/self/status" => {
                Reply::Text(Ok(self.process.clone()))
            }
            Request::ReadText(path) => Reply::Text(self.read(path)),
            Request::HasEntries(path) => Reply::Occupied(Ok(self.occupied(&text_of(path)))),
            Request::CurrentDirectory => Reply::Path(Ok(at(&self.directory))),
            Request::HomeDirectory => Reply::Home(self.home.as_ref().map(|home| at(home))),
            Request::ParseConfig(text) => Reply::Config(parse(text)),
            Request::CreateDirectories(path) => {
                self.changes.push(format!("create {}", text_of(path)));
                self.directories(&text_of(path));
                Reply::Done(Ok(()))
            }
            Request::RemoveDirectory(path) | Request::RemoveFile(path) => {
                self.changes.push(format!("remove {}", text_of(path)));
                self.nodes.remove(&text_of(path));
                Reply::Done(Ok(()))
            }
            Request::MakeLink { source, target } => {
                self.changes.push(format!("link {}", text_of(target)));
                self.nodes.insert(text_of(target), Node::Link(text_of(source)));
                Reply::Done(Ok(()))
            }
            Request::CopyFile { source, target } => {
                self.changes.push(format!("copy {}", text_of(target)));
                self.copy(&text_of(source), &text_of(target), 1000, 0o600);
                Reply::Done(Ok(()))
            }
            Request::SetMode { target, mode } => {
                self.changes.push(format!("mode {} {mode:o}", text_of(target)));
                if let Some(Node::File { mode: old, readable, .. }) =
                    self.nodes.get_mut(&text_of(target))
                {
                    *old = *mode;
                    *readable = mode & 0o400 != 0;
                }
                Reply::Done(Ok(()))
            }
            Request::Run { program, arguments } => {
                Reply::Exit(Ok(self.run(program, arguments)))
            }
            Request::Print(lines) => {
                self.printed.extend(lines.iter().cloned());
                Reply::Printed
            }
        }
    }

    fn answer(&mut self, request: &Request) -> Reply {
        let reply = self.perform(request);
        assert!(request.fits(&reply));
        reply
    }
}

/// The entries of a configuration in the usual form, read from the tables of its text.
fn parse(text: &str) -> Result<Config, String> {
    let table: toml::Table = toml::from_str(text).map_err(|error| error.to_string())?;
    let mut config = Config { links: Vec::new(), configs: Vec::new(), scripts: Vec::new() };
    for (name, value) in &table {
        for item in value.as_array().ok_or("an array is wanted")? {
            let item = item.as_table().ok_or("a table is wanted")?;
            let word = |key: &str| item.get(key).and_then(|word| word.as_str());
            let source = at(word("source").ok_or("no source")?);
            let target = at(word("target").ok_or("no target")?);
            let mode = item.get("mode").and_then(|mode| mode.as_integer()).map(|mode| mode as u32);
            let sudo = item.get("sudo").and_then(|sudo| sudo.as_bool()).unwrap_or(false);
            match name.as_str() {
                "link" => config.links.push(LinkEntry { source, target }),
                "config" => config.configs.push(FileEntry { source, target, mode, sudo }),
                "script" => config.scripts.push(FileEntry { source, target, mode, sudo }),
                _ => return Err(format!("unknown field `{name}`")),
            }
        }
    }
    Ok(config)
}

fn status(machine: &mut Machine, entry: &Entry) -> Result<EntryStatus, Error> {
    let mut step = begin_status(entry);
    loop {
        match step {
            StatusStep::Ask { request, state } => {
                let reply = machine.answer(&request);
                step = entry_status(entry, state, reply);
            }
            StatusStep::Done(result) => return result,
        }
    }
}

fn install_with(
    machine: &mut Machine,
    entry: &Entry,
    options: InstallOptions,
) -> Result<Vec<String>, Error> {
    let mut step = begin_install(entry);
    loop {
        match step {
            InstallStep::Ask { request, state } => {
                let reply = machine.answer(&request);
                step = install_entry(entry, options, state, reply);
            }
            InstallStep::Done(result) => return result,
        }
    }
}

fn install(machine: &mut Machine, entry: &Entry, force: bool) -> Result<Vec<String>, Error> {
    install_with(machine, entry, InstallOptions { dry_run: false, force })
}

fn load(machine: &mut Machine, config: &str) -> Result<Vec<Entry>, Error> {
    let config = at(config);
    let mut step = begin_load(&config);
    loop {
        match step {
            LoadStep::Ask { request, state } => {
                let reply = machine.answer(&request);
                step = load_entries(&config, state, reply);
            }
            LoadStep::Done(result) => return result,
        }
    }
}

fn search(machine: &mut Machine, start: &str) -> Result<UnixPath, Error> {
    let start = at(start);
    let mut step = begin_search(&start);
    loop {
        match step {
            SearchStep::Ask { request, state } => {
                let reply = machine.answer(&request);
                step = find_config_upwards(&start, state, reply);
            }
            SearchStep::Done(result) => return result,
        }
    }
}

fn call(machine: &mut Machine, arguments: &[&str]) -> Result<u8, String> {
    let arguments: Vec<String> = arguments.iter().map(|word| word.to_string()).collect();
    let mut step = begin_session(&arguments);
    loop {
        match step {
            SessionStep::Ask { request, state } => {
                let reply = machine.answer(&request);
                step = run(state, reply);
            }
            SessionStep::Exit(code) => return Ok(code),
            SessionStep::Fail(message) => return Err(message),
        }
    }
}

fn message<T: std::fmt::Debug>(result: Result<T, Error>) -> String {
    result.unwrap_err().message()
}

fn file_entry(source: &str, target: &str, mode: Option<u32>) -> FileEntry {
    FileEntry { source: at(source), target: at(target), mode, sudo: false }
}

fn config_entry(machine: &mut Machine, mode: Option<u32>) -> Entry {
    machine.file("/work/repo/config", "managed\n", 0o644);
    Entry::Config(file_entry("/work/repo/config", "/work/home/config", mode))
}

fn script_entry(machine: &mut Machine, mode: Option<u32>) -> Entry {
    machine.file("/work/repo/script", "managed\n", 0o644);
    Entry::Script(file_entry("/work/repo/script", "/work/home/script", mode))
}

fn link_entry(machine: &mut Machine) -> Entry {
    machine.directories("/work/repo/niri");
    Entry::Link(LinkEntry { source: at("/work/repo/niri"), target: at("/work/home/niri") })
}

#[test]
fn parses_all_three_entry_types() {
    let mut machine = Machine::new();
    machine.directories("/work/repo/niri");
    machine.file("/work/repo/zramen/zramen.conf", "config", 0o644);
    machine.file("/work/repo/openrc/internal-keyboard-guard", "script", 0o644);
    machine.file(
        "/work/repo/dotfiles.toml",
        "[[link]]\nsource = \"niri\"\ntarget = \"/work/niri-target\"\n\n[[config]]\nsource = \"zramen/zramen.conf\"\ntarget = \"/work/config-target\"\nsudo = true\n\n[[script]]\nsource = \"openrc/internal-keyboard-guard\"\ntarget = \"/work/script-target\"\nsudo = true\n",
        0o644,
    );

    let entries = load(&mut machine, "/work/repo/dotfiles.toml").unwrap();
    assert_eq!(entries.len(), 3);
    assert!(matches!(&entries[0], Entry::Link(_)));
    assert!(matches!(&entries[1], Entry::Config(FileEntry { mode: None, sudo: true, .. })));
    assert!(matches!(&entries[2], Entry::Script(FileEntry { mode: None, sudo: true, .. })));
    assert_eq!(text_of(entries[1].source()), "/work/repo/zramen/zramen.conf");
    assert_eq!(text_of(entries[2].target()), "/work/script-target");
}

#[test]
fn applies_default_modes() {
    let mut machine = Machine::new();
    let config = config_entry(&mut machine, None);
    let script = script_entry(&mut machine, None);

    install(&mut machine, &config, false).unwrap();
    install(&mut machine, &script, false).unwrap();

    assert_eq!(machine.inspect(config.target()).unwrap().mode & 0o7777, 0o644);
    assert_eq!(machine.inspect(script.target()).unwrap().mode & 0o7777, 0o755);
    assert_eq!(status(&mut machine, &config).unwrap(), EntryStatus::InPlace);
    assert_eq!(status(&mut machine, &script).unwrap(), EntryStatus::InPlace);
}

#[test]
fn rejects_executable_config_mode() {
    let mut machine = Machine::new();
    let entry = config_entry(&mut machine, Some(0o744));
    assert!(status(&mut machine, &entry).is_err());
    assert_eq!(
        message(status(&mut machine, &entry)),
        "config mode must not contain executable bits: 0o744"
    );
}

#[test]
fn rejects_non_executable_script_mode() {
    let mut machine = Machine::new();
    let entry = script_entry(&mut machine, Some(0o644));
    assert!(status(&mut machine, &entry).is_err());
    assert_eq!(
        message(status(&mut machine, &entry)),
        "script mode must contain the owner executable bit: 0o644"
    );
}

#[test]
fn rejects_special_mode_bits() {
    for mode in [0o4644, 0o2644, 0o1644] {
        let mut machine = Machine::new();
        let entry = config_entry(&mut machine, Some(mode));
        assert!(status(&mut machine, &entry).is_err(), "mode {mode:#o} was accepted");
        assert_eq!(
            message(status(&mut machine, &entry)),
            format!("mode {mode:#o} contains forbidden special or invalid bits")
        );
    }
    let mut machine = Machine::new();
    let entry = script_entry(&mut machine, Some(0o4755));
    assert!(status(&mut machine, &entry).is_err());
}

#[test]
fn installs_and_reports_a_directory_link() {
    let mut machine = Machine::new();
    let entry = link_entry(&mut machine);

    assert_eq!(status(&mut machine, &entry).unwrap(), EntryStatus::Missing);
    install(&mut machine, &entry, false).unwrap();
    assert_eq!(status(&mut machine, &entry).unwrap(), EntryStatus::InPlace);
    assert_eq!(machine.nodes["/work/home/niri"], Node::Link("/work/repo/niri".to_string()));
}

#[test]
fn dry_run_does_not_change_the_filesystem() {
    let mut machine = Machine::new();
    let entry = config_entry(&mut machine, Some(0o640));
    let options = InstallOptions { dry_run: true, force: false };
    let operations = install_with(&mut machine, &entry, options).unwrap();

    assert_eq!(operations.len(), 2);
    assert!(machine.find(entry.target()).is_none());
    assert!(machine.find(&entry.target().parent().unwrap()).is_none());
    assert!(machine.changes.is_empty());
    assert_eq!(
        operations,
        vec![
            "create directory /work/home".to_string(),
            "install /work/repo/config -> /work/home/config (mode 0o640)".to_string(),
        ]
    );
}

#[test]
fn conflict_requires_force() {
    let mut machine = Machine::new();
    let entry = link_entry(&mut machine);
    machine.file("/work/home/niri", "unknown", 0o644);

    assert_eq!(status(&mut machine, &entry).unwrap(), EntryStatus::Conflict);
    assert!(install(&mut machine, &entry, false).is_err());
    assert_eq!(
        message(install(&mut machine, &entry, false)),
        "refusing to replace conflicting path /work/home/niri (use --force)"
    );
    assert_eq!(machine.read(entry.target()).unwrap(), "unknown");
    assert!(machine.changes.is_empty());
    let operations = install(&mut machine, &entry, true).unwrap();
    assert_eq!(
        operations,
        vec![
            "remove conflicting /work/home/niri".to_string(),
            "link /work/home/niri -> /work/repo/niri".to_string(),
        ]
    );
    assert_eq!(status(&mut machine, &entry).unwrap(), EntryStatus::InPlace);
}

#[test]
fn force_does_not_remove_a_non_empty_directory() {
    let mut machine = Machine::new();
    let entry = link_entry(&mut machine);
    machine.file("/work/home/niri/unknown", "data", 0o644);

    assert!(install(&mut machine, &entry, true).is_err());
    assert_eq!(
        message(install(&mut machine, &entry, true)),
        "refusing to remove non-empty directory: /work/home/niri"
    );
    assert!(machine.nodes.contains_key("/work/home/niri/unknown"));
    assert!(machine.changes.is_empty());
}

#[test]
fn status_checks_file_content_and_mode() {
    let mut machine = Machine::new();
    let entry = config_entry(&mut machine, Some(0o640));
    install(&mut machine, &entry, false).unwrap();

    machine.file("/work/home/config", "managed\n", 0o600);
    assert_eq!(status(&mut machine, &entry).unwrap(), EntryStatus::Modified);
    machine.file("/work/home/config", "managed\n", 0o640);
    assert_eq!(status(&mut machine, &entry).unwrap(), EntryStatus::InPlace);
    machine.file("/work/home/config", "changed", 0o640);
    assert_eq!(status(&mut machine, &entry).unwrap(), EntryStatus::Modified);
    machine.file("/work/home/config", "Managed\n", 0o640);
    assert_eq!(status(&mut machine, &entry).unwrap(), EntryStatus::Modified);
}

#[test]
fn rejects_sources_outside_repository() {
    let mut machine = Machine::new();
    machine.file("/work/outside", "data", 0o644);
    machine.file(
        "/work/repo/dotfiles.toml",
        "[[config]]\nsource = \"/work/outside\"\ntarget = \"/work/target\"\n",
        0o644,
    );

    let result = load(&mut machine, "/work/repo/dotfiles.toml");
    assert!(result.is_err());
    assert_eq!(message(result), "source is outside the dotfiles repository: /work/outside");
}

#[test]
fn finds_config_in_parent_directory() {
    let mut machine = Machine::new();
    machine.directories("/work/niri/deeper");
    machine.file("/work/dotfiles.toml", "", 0o644);

    assert_eq!(search(&mut machine, "/work/niri/deeper").unwrap(), at("/work/dotfiles.toml"));
    assert_eq!(text_of(&search(&mut machine, "niri/deeper").unwrap()), "/work/dotfiles.toml");
}

#[test]
fn parses_octal_modes() {
    let mut machine = Machine::new();
    machine.file("/work/repo/config", "data", 0o644);
    machine.file("/work/repo/script", "data", 0o644);
    machine.file(
        "/work/repo/dotfiles.toml",
        "[[config]]\nsource = \"config\"\ntarget = \"/work/config-target\"\nmode = 0o640\n\n[[script]]\nsource = \"script\"\ntarget = \"/work/script-target\"\nmode = 0o750\n",
        0o644,
    );

    let entries = load(&mut machine, "/work/repo/dotfiles.toml").unwrap();
    assert!(matches!(&entries[0], Entry::Config(FileEntry { mode: Some(0o640), .. })));
    assert!(matches!(&entries[1], Entry::Script(FileEntry { mode: Some(0o750), .. })));
}

#[test]
fn sudo_entry_requires_root_ownership() {
    let mut machine = Machine::new();
    let mut entry = config_entry(&mut machine, None);
    let Entry::Config(file) = &mut entry else {
        unreachable!();
    };
    file.sudo = true;
    machine.file("/work/home/config", "managed\n", 0o644);

    assert_eq!(status(&mut machine, &entry).unwrap(), EntryStatus::Modified);
}

#[test]
fn reports_unreadable_file_without_failing_status() {
    let mut machine = Machine::new();
    let entry = config_entry(&mut machine, Some(0o000));
    install(&mut machine, &entry, false).unwrap();

    assert_eq!(status(&mut machine, &entry).unwrap(), EntryStatus::Unreadable);
}

fn user_machine(config: &str) -> Machine {
    let mut machine = Machine::new();
    machine.file("/work/repo/config", "managed\n", 0o644);
    machine.file("/work/repo/script", "managed\n", 0o644);
    machine.directories("/work/repo/niri");
    machine.directories("/home/user");
    machine.file("/work/repo/dotfiles.toml", config, 0o644);
    machine
}

const THREE: &str = "[[script]]\nsource = \"script\"\ntarget = \"/etc/init.d/script\"\nsudo = true\n\n[[link]]\nsource = \"niri\"\ntarget = \"~/.config/niri\"\n\n[[config]]\nsource = \"config\"\ntarget = \"$HOME/config\"\n";

#[test]
fn loads_links_first_and_expands_home() {
    let mut machine = user_machine(THREE);
    let entries = load(&mut machine, "/work/repo/dotfiles.toml").unwrap();
    let targets: Vec<String> = entries.iter().map(|entry| text_of(entry.target())).collect();
    assert_eq!(targets, vec!["/home/user/.config/niri", "/home/user/config", "/etc/init.d/script"]);
    assert_eq!(
        entries[0],
        Entry::Link(LinkEntry {
            source: at("/work/repo/niri"),
            target: at("/home/user/.config/niri")
        })
    );
    assert!(entries[2].uses_sudo());
    assert_eq!(entries[2].effective_mode().unwrap(), Some(0o755));
    assert_eq!(entries[1].effective_mode().unwrap(), Some(0o644));
    assert_eq!(entries[0].effective_mode().unwrap(), None);
}

fn load_error(config: &str) -> String {
    message(load(&mut user_machine(config), "/work/repo/dotfiles.toml"))
}

fn one(source: &str, target: &str) -> String {
    format!("[[config]]\nsource = \"{source}\"\ntarget = \"{target}\"\n")
}

#[test]
fn loading_refuses_what_breaks_a_rule() {
    assert_eq!(load_error(&one("", "/t")), "source path must not be empty");
    assert_eq!(
        load_error(&one("a/../config", "/t")),
        "source path must not contain '..': a/../config"
    );
    assert_eq!(
        load_error(&one("nothing", "/t")),
        "invalid source /work/repo/nothing: No such file or directory (os error 2)"
    );
    assert_eq!(
        load_error(&one("niri", "/t")),
        "source is not a regular file: /work/repo/niri"
    );
    assert_eq!(
        load_error(&one("config", "t")),
        "target must be an absolute path (or start with ~/$HOME): t"
    );
    assert_eq!(
        load_error(&one("config", "")),
        "target must be an absolute path (or start with ~/$HOME): "
    );
    for target in ["/", "/etc", "/usr", "//usr/./", "/etc/"] {
        assert_eq!(
            load_error(&one("config", target)),
            format!("refusing dangerous target path: {target}")
        );
    }
    assert_eq!(
        load_error(&one("config", "/a/../b")),
        "target path must not contain '..': /a/../b"
    );
    let twice = format!("{}{}", one("config", "/a/b"), one("script", "/a//./b/"));
    assert_eq!(load_error(&twice), "duplicate target in configuration: /a//./b/");
}

#[test]
fn loading_reports_the_first_trouble() {
    let mut machine = user_machine("[[nothing");
    let error = load(&mut machine, "/work/repo/dotfiles.toml").unwrap_err();
    assert!(matches!(&error, Error::Config(_)));
    assert!(error.message().starts_with("invalid configuration: "));

    let error = load(&mut machine, "/work/repo/absent.toml").unwrap_err();
    assert!(matches!(&error, Error::Io(IoError { kind: IoErrorKind::NotFound, .. })));
    assert_eq!(error.message(), "No such file or directory (os error 2)");

    let mut machine = user_machine(&one("config", "~/x"));
    machine.home = None;
    assert_eq!(message(load(&mut machine, "/work/repo/dotfiles.toml")), "HOME is not set");

    let mut machine = user_machine("");
    assert_eq!(load(&mut machine, "/work/repo/dotfiles.toml").unwrap().len(), 0);
    machine.file("/work/dotfiles.toml", "", 0o644);
    assert_eq!(load(&mut machine, "dotfiles.toml").unwrap().len(), 0);
    assert_eq!(load(&mut machine, "./dotfiles.toml").unwrap().len(), 0);
}

#[test]
fn a_bare_file_name_stands_in_the_current_directory() {
    let mut machine = Machine::new();
    machine.directories("/r/repo/niri");
    let config = "[[link]]\nsource='niri'\ntarget='/t/niri'\n";
    machine.file("/r/repo/dotfiles.toml", config, 0o644);
    machine.directory = "/r/repo".to_string();
    let wanted = vec![Entry::Link(LinkEntry {
        source: at("/r/repo/niri"),
        target: at("/t/niri"),
    })];
    for path in ["dotfiles.toml", "./dotfiles.toml", "/r/repo/dotfiles.toml"] {
        let entries = load(&mut machine, path).unwrap();
        assert_eq!(entries, wanted);
        assert_eq!(text_of(entries[0].source()), "/r/repo/niri");
    }
    assert_eq!(call(&mut machine, &["install", "--config", "dotfiles.toml"]), Ok(0));
    assert_eq!(call(&mut machine, &["status", "-c", "dotfiles.toml"]), Ok(0));
    assert_eq!(machine.printed.last().unwrap(), "ok /t/niri");
}

#[test]
fn a_search_on_the_way_finds_the_same_file() {
    let mut machine = Machine::new();
    machine.directories("/work/a/b/c");
    machine.file("/work/dotfiles.toml", "", 0o644);
    machine.file("/dotfiles.toml", "", 0o644);
    for start in ["/work/a/b/c", "/work/a/b", "/work/a", "/work"] {
        assert_eq!(text_of(&search(&mut machine, start).unwrap()), "/work/dotfiles.toml");
    }
    let found = search(&mut machine, "/work/a/b/c").unwrap();
    let home = text_of(&found.parent().unwrap());
    assert_eq!(text_of(&search(&mut machine, &home).unwrap()), text_of(&found));
}

#[test]
fn a_resolved_source_resolves_to_itself() {
    let repository = at("/work/repo");
    let resolved =
        resolve_source(&repository, &at("alias"), Ok(at("/work/repo/config"))).unwrap();
    let candidate = source_candidate(&repository, &resolved).unwrap();
    assert_eq!(text_of(&candidate), "/work/repo/config");
    let again = resolve_source(&repository, &resolved, Ok(candidate)).unwrap();
    assert_eq!(text_of(&again), "/work/repo/config");
}

#[test]
fn the_same_file_both_ways() {
    let (left, right) = (at("/a/b"), at("/c"));
    let forms = [None, Some(at("/x")), Some(at("/x/")), Some(at("/y"))];
    for first in &forms {
        for second in &forms {
            assert_eq!(
                paths_refer_to_same_file(&left, &right, first, second),
                paths_refer_to_same_file(&right, &left, second, first)
            );
        }
        assert!(paths_refer_to_same_file(&left, &at("/a//b/."), first, first));
        assert!(paths_refer_to_same_file(&left, &at("/a//b/."), first, &None));
    }
    assert!(paths_refer_to_same_file(&left, &right, &forms[1], &forms[2]));
    assert!(!paths_refer_to_same_file(&left, &left, &forms[1], &forms[3]));
}

#[test]
fn a_success_is_followed_by_the_status_in_place() {
    let mut machine = Machine::new();
    let mut rooted = file_entry("/work/repo/config", "/etc/conf.d/config", Some(0o604));
    rooted.sudo = true;
    for entry in [
        link_entry(&mut machine),
        config_entry(&mut machine, Some(0o640)),
        script_entry(&mut machine, None),
        Entry::Config(rooted),
    ] {
        let target = text_of(entry.target());
        let stale =
            Node::File { content: "stale".to_string(), mode: 0o600, owner: 7, readable: true };
        for before in [None, Some(stale), Some(Node::Socket), Some(Node::Directory)] {
            machine.nodes.remove(&target);
            if let Some(node) = before {
                machine.directories(&text_of(&entry.target().parent().unwrap()));
                machine.nodes.insert(target.clone(), node);
            }
            assert!(!install(&mut machine, &entry, true).unwrap().is_empty());
            assert_eq!(status(&mut machine, &entry).unwrap(), EntryStatus::InPlace);
            if let Entry::Link(link) = &entry {
                let text = text_of(&link.source);
                assert_eq!(machine.nodes[&target], Node::Link(text));
            }
        }
    }
}

#[test]
fn sources_are_judged_by_where_they_lead() {
    let mut machine = user_machine(&one("alias", "/t"));
    machine.nodes.insert("/work/repo/alias".to_string(), Node::Link("config".to_string()));
    let entries = load(&mut machine, "/work/repo/dotfiles.toml").unwrap();
    assert_eq!(text_of(entries[0].source()), "/work/repo/config");
    machine.file("/work/secret", "", 0o600);
    machine.nodes.insert("/work/repo/alias".to_string(), Node::Link("../secret".to_string()));
    assert_eq!(
        message(load(&mut machine, "/work/repo/dotfiles.toml")),
        "source is outside the dotfiles repository: alias"
    );
}

#[test]
fn a_search_stops_at_the_nearest_file() {
    let mut machine = Machine::new();
    machine.directories("/work/a/b/c");
    machine.file("/work/a/dotfiles.toml", "", 0o644);
    machine.file("/dotfiles.toml", "", 0o644);
    machine.directories("/work/a/b/dotfiles.toml");
    assert_eq!(text_of(&search(&mut machine, "/work/a/b/c").unwrap()), "/work/a/dotfiles.toml");
    assert_eq!(text_of(&search(&mut machine, "/work").unwrap()), "/dotfiles.toml");
    machine.nodes.remove("/dotfiles.toml");
    assert_eq!(message(search(&mut machine, "/work/")), "could not find dotfiles.toml from /work/");
    assert_eq!(
        message(search(&mut machine, "/absent")),
        "invalid configuration search path /absent: No such file or directory (os error 2)"
    );
}

#[test]
fn status_of_every_kind() {
    let mut machine = Machine::new();
    let link = link_entry(&mut machine);
    let config = config_entry(&mut machine, None);
    machine.directories("/work/home");
    assert_eq!(status(&mut machine, &config).unwrap(), EntryStatus::Missing);
    machine.nodes.insert("/work/home/config".to_string(), Node::Socket);
    assert_eq!(status(&mut machine, &config).unwrap(), EntryStatus::Conflict);
    machine.nodes.insert("/work/home/config".to_string(), Node::Link("/work/repo/config".into()));
    assert_eq!(status(&mut machine, &config).unwrap(), EntryStatus::Conflict);
    machine.nodes.insert("/work/home/niri".to_string(), Node::Link("../repo/niri".to_string()));
    assert_eq!(status(&mut machine, &link).unwrap(), EntryStatus::InPlace);
    machine.nodes.insert("/work/home/niri".to_string(), Node::Link("nowhere".to_string()));
    assert_eq!(status(&mut machine, &link).unwrap(), EntryStatus::Conflict);
    machine.nodes.remove("/work/repo/niri");
    assert_eq!(message(status(&mut machine, &link)), "link source does not exist: /work/repo/niri");
    machine.nodes.remove("/work/repo/config");
    assert_eq!(
        message(status(&mut machine, &config)),
        "source is not a regular file: /work/repo/config"
    );
}

#[test]
fn status_follows_what_the_system_says() {
    let mut machine = Machine::new();
    let entry = config_entry(&mut machine, None);
    for (kind, wanted) in [
        (IoErrorKind::NotFound, Some(EntryStatus::Missing)),
        (IoErrorKind::PermissionDenied, Some(EntryStatus::Unreadable)),
        (IoErrorKind::Other, None),
    ] {
        let StatusStep::Ask { state, .. } = begin_status(&entry) else { panic!() };
        let StatusStep::Ask { request, state } = entry_status(&entry, state, Reply::Flag(true))
        else {
            panic!()
        };
        assert!(matches!(&request, Request::Inspect(path) if text_of(path) == "/work/home/config"));
        let step = entry_status(&entry, state, Reply::Metadata(Err(refusal(kind))));
        match (step, wanted) {
            (StatusStep::Done(Ok(status)), Some(wanted)) => assert_eq!(status, wanted),
            (StatusStep::Done(Err(Error::Io(error))), None) => assert_eq!(error.kind, kind),
            _ => panic!(),
        }
    }
    let names: Vec<&str> = [
        EntryStatus::InPlace,
        EntryStatus::Missing,
        EntryStatus::Modified,
        EntryStatus::Conflict,
        EntryStatus::Unreadable,
    ]
    .iter()
    .map(|status| status.name())
    .collect();
    assert_eq!(names, vec!["ok", "missing", "modified", "conflict", "unreadable"]);
}

#[test]
fn root_entries_are_changed_through_sudo_alone() {
    let mut machine = Machine::new();
    machine.file("/work/repo/script", "managed\n", 0o644);
    let mut file = file_entry("/work/repo/script", "/etc/init.d/script", Some(0o711));
    file.sudo = true;
    let entry = Entry::Script(file);
    assert_eq!(
        install(&mut machine, &entry, false).unwrap(),
        vec![
            "create directory /etc/init.d".to_string(),
            "install /work/repo/script -> /etc/init.d/script (mode 0o711)".to_string(),
        ]
    );
    assert_eq!(
        machine.changes,
        vec![
            "/usr/bin/sudo /usr/bin/install -d -m 0755 -o root -g root -- /etc/init.d".to_string(),
            "/usr/bin/sudo /usr/bin/install -m 0711 -o root -g root -- /work/repo/script /etc/init.d/script"
                .to_string(),
        ]
    );
    machine.nodes.insert("/etc/init.d/script".to_string(), Node::Directory);
    machine.changes.clear();
    install(&mut machine, &entry, true).unwrap();
    assert_eq!(machine.changes[0], "/usr/bin/sudo /usr/bin/rmdir -- /etc/init.d/script");
    machine.nodes.insert("/etc/init.d/script".to_string(), Node::Socket);
    machine.changes.clear();
    install(&mut machine, &entry, true).unwrap();
    assert_eq!(machine.changes[0], "/usr/bin/sudo /usr/bin/rm -- /etc/init.d/script");
}

#[test]
fn failed_commands_are_reported() {
    assert!(check_exit("/usr/bin/rm", Ok(Some(0))).is_ok());
    assert_eq!(
        message(check_exit("/usr/bin/rm", Ok(Some(1)))),
        "/usr/bin/rm failed with exit status 1"
    );
    assert_eq!(
        message(check_exit("/usr/bin/install", Ok(None))),
        "/usr/bin/install failed with exit status unknown"
    );
    let error = check_exit("/usr/bin/rm", Err(refusal(IoErrorKind::PermissionDenied)));
    assert_eq!(message(error), "Permission denied (os error 13)");
}

#[test]
fn failed_changes_end_an_installation() {
    let mut machine = Machine::new();
    let entry = link_entry(&mut machine);
    let options = InstallOptions { dry_run: false, force: false };
    let mut step = begin_install(&entry);
    let mut asked = 0;
    let result = loop {
        match step {
            InstallStep::Ask { request, state } => {
                asked += 1;
                let reply = match &request {
                    Request::MakeLink { .. } => Reply::Done(Err(refusal(IoErrorKind::Other))),
                    _ => machine.answer(&request),
                };
                step = install_entry(&entry, options, state, reply);
            }
            InstallStep::Done(result) => break result,
        }
    };
    assert_eq!(asked, 6);
    assert!(matches!(result, Err(Error::Io(IoError { kind: IoErrorKind::Other, .. }))));
}

#[test]
fn installing_twice_changes_nothing_the_second_time() {
    let mut machine = Machine::new();
    for entry in
        [link_entry(&mut machine), config_entry(&mut machine, None), script_entry(&mut machine, None)]
    {
        assert!(!install(&mut machine, &entry, false).unwrap().is_empty());
        machine.changes.clear();
        assert!(install(&mut machine, &entry, true).unwrap().is_empty());
        assert!(machine.changes.is_empty());
    }
}

#[test]
fn a_dry_run_foretells_the_operations() {
    let mut machine = Machine::new();
    let entry = script_entry(&mut machine, None);
    for obstacle in [None, Some(Node::Directory), Some(Node::Socket)] {
        if let Some(node) = obstacle {
            machine.nodes.insert("/work/home/script".to_string(), node);
        }
        let dry = InstallOptions { dry_run: true, force: true };
        let before = machine.nodes.clone();
        let foretold = install_with(&mut machine, &entry, dry).unwrap();
        assert_eq!(machine.nodes, before);
        assert_eq!(install(&mut machine, &entry, true).unwrap(), foretold);
        machine.nodes.remove("/work/home/script");
    }
}

#[test]
fn session_reports_and_installs() {
    let mut machine = user_machine(THREE);
    let arguments = ["status", "--config", "/work/repo/dotfiles.toml"];
    assert_eq!(call(&mut machine, &arguments), Ok(1));
    assert_eq!(
        machine.printed,
        vec![
            "missing /home/user/.config/niri",
            "missing /home/user/config",
            "missing /etc/init.d/script",
        ]
    );
    machine.printed.clear();
    machine.directory = "/work/repo/niri".to_string();
    assert_eq!(call(&mut machine, &["install", "--dry-run"]), Ok(0));
    assert!(machine.changes.is_empty());
    assert_eq!(
        machine.printed,
        vec![
            "would create directory /home/user/.config",
            "would link /home/user/.config/niri -> /work/repo/niri",
            "would install /work/repo/config -> /home/user/config (mode 0o644)",
            "would create directory /etc/init.d",
            "would install /work/repo/script -> /etc/init.d/script (mode 0o755)",
        ]
    );
    machine.printed.clear();
    assert_eq!(call(&mut machine, &["install"]), Ok(0));
    assert_eq!(machine.printed[1], "link /home/user/.config/niri -> /work/repo/niri");
    machine.printed.clear();
    assert_eq!(call(&mut machine, &["status"]), Ok(0));
    assert_eq!(machine.printed[2], "ok /etc/init.d/script");
}

#[test]
fn root_installs_nothing() {
    let mut machine = user_machine(THREE);
    machine.process = "Uid:\t1000\t0\t0\t0\n".to_string();
    assert_eq!(
        call(&mut machine, &["install", "-c", "/work/repo/dotfiles.toml"]),
        Err("refusing to run install as root; run magsys as a regular user".to_string())
    );
    machine.process = "Gid:\t1\n".to_string();
    assert_eq!(
        call(&mut machine, &["install", "-c", "/work/repo/dotfiles.toml"]),
        Err("could not determine effective user id".to_string())
    );
    assert!(machine.changes.is_empty());
    assert_eq!(call(&mut machine, &["status", "-c", "/work/repo/dotfiles.toml"]), Ok(1));
}

#[test]
fn a_conflict_anywhere_stops_everything() {
    let mut machine = user_machine(THREE);
    machine.directories("/etc/init.d/script");
    let arguments = ["install", "--config", "/work/repo/dotfiles.toml"];
    assert_eq!(
        call(&mut machine, &arguments),
        Err("refusing to replace conflicting path /etc/init.d/script (use --force)".to_string())
    );
    assert!(machine.changes.is_empty());
    assert!(machine.printed.is_empty());
    let arguments = ["install", "--force", "--config", "/work/repo/dotfiles.toml"];
    assert_eq!(call(&mut machine, &arguments), Ok(0));
}

#[test]
fn entries_may_share_a_missing_directory() {
    let config = "[[link]]\nsource = \"niri\"\ntarget = \"~/new/niri\"\n\n[[config]]\nsource = \"config\"\ntarget = \"~/new/config\"\n\n[[script]]\nsource = \"script\"\ntarget = \"~/new/script\"\n";
    let mut machine = user_machine(config);
    let arguments = ["install", "--config", "/work/repo/dotfiles.toml"];
    assert_eq!(call(&mut machine, &arguments), Ok(0));
    assert_eq!(
        machine.printed,
        vec![
            "create directory /home/user/new",
            "link /home/user/new/niri -> /work/repo/niri",
            "install /work/repo/config -> /home/user/new/config (mode 0o644)",
            "install /work/repo/script -> /home/user/new/script (mode 0o755)",
        ]
    );
    assert_eq!(
        machine.changes,
        vec![
            "create /home/user/new",
            "link /home/user/new/niri",
            "copy /home/user/new/config",
            "mode /home/user/new/config 644",
            "copy /home/user/new/script",
            "mode /home/user/new/script 755",
        ]
    );
    machine.printed.clear();
    machine.changes.clear();
    assert_eq!(call(&mut machine, &arguments), Ok(0));
    assert!(machine.printed.is_empty());
    assert!(machine.changes.is_empty());
}

#[test]
fn the_first_conflict_is_named() {
    let mut machine = user_machine(THREE);
    machine.directories("/etc/init.d/script");
    machine.directories("/home/user/config");
    assert_eq!(
        call(&mut machine, &["install", "--config", "/work/repo/dotfiles.toml"]),
        Err("refusing to replace conflicting path /home/user/config (use --force)".to_string())
    );
    assert!(machine.changes.is_empty());
    assert!(machine.printed.is_empty());
}

#[test]
fn usage_and_wrong_arguments() {
    let usage = vec![
        "Usage:",
        "  magsys status [--config PATH]",
        "  magsys install [--dry-run] [--force] [--config PATH]",
    ];
    for (arguments, code) in [
        (vec![], 2),
        (vec!["help"], 0),
        (vec!["--help"], 0),
        (vec!["-h"], 0),
        (vec!["nonsense", "--help"], 0),
        (vec!["install", "--force", "-h", "nonsense"], 0),
    ] {
        let mut machine = Machine::new();
        assert_eq!(call(&mut machine, &arguments), Ok(code));
        assert_eq!(machine.printed, usage);
    }
    for (arguments, complaint) in [
        (vec!["nonsense"], "unknown command: nonsense"),
        (vec!["help", "me"], "unknown argument: me"),
        (vec!["status", "--dry-run"], "unknown argument: --dry-run"),
        (vec!["status", "--force"], "unknown argument: --force"),
        (vec!["install", "--config"], "--config requires a path"),
    ] {
        let mut machine = Machine::new();
        assert_eq!(call(&mut machine, &arguments), Err(complaint.to_string()));
        assert!(machine.printed.is_empty());
    }
}

#[test]
fn plans_hold_the_last_of_each_option() {
    let words = |list: &[&str]| list.iter().map(|word| word.to_string()).collect::<Vec<String>>();
    let Plan::Run { command, config } =
        plan(&words(&["install", "-c", "a", "--force", "--config", "b"]))
    else {
        panic!()
    };
    assert!(matches!(command, Command::Install(InstallOptions { dry_run: false, force: true })));
    assert_eq!(text_of(&config.unwrap()), "b");
    let Plan::Run { command, config } = plan(&words(&["status"])) else { panic!() };
    assert!(matches!(command, Command::Status));
    assert!(config.is_none());
}

#[test]
fn single_rules() {
    assert!(validate_file_mode(0o666, FileKind::Config).is_ok());
    assert!(validate_file_mode(0o667, FileKind::Config).is_err());
    assert!(validate_file_mode(0o100, FileKind::Script).is_ok());
    assert!(validate_file_mode(0o677, FileKind::Script).is_err());
    assert!(validate_file_mode(0o1000, FileKind::Script).is_err());
    assert!(validate_target(&at("/etc/passwd")).is_ok());
    assert!(validate_target(&at("/usrlocal")).is_ok());
    let link = Entry::Link(LinkEntry { source: at("/s"), target: at("/t/x") });
    assert!(validate_entry(&link, true).is_ok());
    assert_eq!(message(validate_entry(&link, false)), "link source does not exist: /s");
    assert_eq!(
        text_of(&source_candidate(&at("/repo"), &at("./a")).unwrap()),
        "/repo/./a"
    );
    let resolved = resolve_source(&at("/repo"), &at("a"), Ok(at("/repository/a")));
    assert_eq!(message(resolved), "source is outside the dotfiles repository: a");
    let same = |left: &str, right: &str| {
        let none: Option<UnixPath> = None;
        paths_refer_to_same_file(&at(left), &at(right), &Some(at("/x")), &none)
    };
    assert!(same("/a//b", "/a/b/"));
    assert!(!same("/x", "/y"));
    let regular = ensure_not_running_as_root(Ok("Uid: 5 7\n".to_string()));
    assert!(regular.is_ok());
    let unknown = ensure_not_running_as_root(Err(refusal(IoErrorKind::NotFound)));
    assert_eq!(message(unknown), "No such file or directory (os error 2)");
}

#[test]
fn targets_in_the_home_directory() {
    let home = at("/home/user");
    let expand = |target: &str| text_of(&expand_target(&at(target), Some(&home)).unwrap());
    assert_eq!(expand("~"), "/home/user");
    assert_eq!(expand("$HOME"), "/home/user");
    assert_eq!(expand("~/a/b"), "/home/user/a/b");
    assert_eq!(expand("$HOME/a"), "/home/user/a");
    assert_eq!(expand("~/"), "/home/user/");
    assert_eq!(expand("~//etc"), "/etc");
    assert_eq!(expand("~a"), "~a");
    assert_eq!(expand("$HOMER"), "$HOMER");
    assert_eq!(expand("/a/~"), "/a/~");
    assert_eq!(message(expand_target(&at("~"), None)), "HOME is not set");
    assert_eq!(message(expand_target(&at("$HOME/a"), None)), "HOME is not set");
    assert_eq!(text_of(&expand_target(&at("/a"), None).unwrap()), "/a");
    let odd = UnixPath { bytes: vec![0x2f, 0xff] };
    assert_eq!(
        message(expand_target(&odd, None)),
        "target is not valid UTF-8: /\u{fffd}"
    );
}
