//! Laws of entries.
use vstd::prelude::*;
use vstd::string::*;
use vstd::utf8::*;

use crate::entry;
use crate::entry::EntryStatus;
use crate::entry::EntryView;
use crate::entry::FileKind;
use crate::error::ErrorView;
use crate::laws::paths;
use crate::path;
use crate::path::ComponentView;
use crate::path::SLASH;
use crate::text;

verus! {

/// The modes that are allowed: for a configuration file any permissions to read and write, for a
/// script any permissions that let the owner execute it. Neither may hold a set-user, set-group
/// or sticky bit, nor any other.
pub proof fn law_allowed_modes(mode: u32)
    ensures
        entry::mode_fault(mode, FileKind::Config) is None <==> mode & !0o666u32 == 0,
        entry::mode_fault(mode, FileKind::Script) is None <==> mode & !0o777u32 == 0 && mode & 0o100
            == 0o100,
        entry::mode_fault(mode, FileKind::Config) is None || entry::mode_fault(
            mode,
            FileKind::Script,
        ) is None ==> mode & 0o7000 == 0 && mode & 0o7777 == mode && mode <= 0o777,
{
    assert(mode & !0o777u32 == 0 && mode & 0o111 == 0 <==> mode & !0o666u32 == 0)
        by (bit_vector);
    assert(mode & 0o100 == 0 || mode & 0o100 == 0o100) by (bit_vector);
    assert(mode & !0o777u32 == 0 ==> mode & 0o7000 == 0 && mode & 0o7777 == mode && mode <= 0o777)
        by (bit_vector);
}

/// The usual modes are allowed.
pub proof fn law_default_modes(source: Seq<u8>, target: Seq<u8>, sudo: bool)
    ensures
        ({
            let file = entry::FileView { source, target, mode: None, sudo };
            &&& EntryView::Config(file).mode() == Some(0o644u32)
            &&& EntryView::Script(file).mode() == Some(0o755u32)
            &&& entry::entry_mode_fault(EntryView::Config(file)) is None
            &&& entry::entry_mode_fault(EntryView::Script(file)) is None
        }),
{
    assert(0o644u32 & !0o777u32 == 0 && 0o644u32 & 0o111 == 0) by (bit_vector);
    assert(0o755u32 & !0o777u32 == 0 && 0o755u32 & 0o100 != 0) by (bit_vector);
}

/// The bytes of the root directory.
pub(crate) proof fn lemma_root_bytes()
    ensures
        path::bytes_of("/"@) == seq![SLASH],
{
    reveal_strlit("/");
    assert("/"@ =~= seq!['/']);
    is_ascii_chars_encode_utf8("/"@);
    assert(path::bytes_of("/"@) =~= seq![SLASH]);
}

/// A target that keeps the rules lies in a directory.
pub proof fn law_valid_target_has_parent(target: Seq<u8>)
    requires
        entry::target_fault(target) is None,
    ensures
        path::parent(target) is Some,
        path::is_absolute(path::parent(target)->0),
{
    lemma_root_bytes();
    paths::law_parent(target);
    paths::lemma_short_components();
    assert(path::components(target)[0] == ComponentView::RootDir);
    paths::law_parent_is_prefix(target);
}

/// The bytes of `etc`.
pub open spec fn etc() -> Seq<u8> {
    seq![0x65, 0x74, 0x63]
}

/// The bytes of `usr`.
pub open spec fn usr() -> Seq<u8> {
    seq![0x75, 0x73, 0x72]
}

proof fn lemma_dangerous_components()
    ensures
        path::components(path::bytes_of("/"@)) == seq![ComponentView::RootDir],
        path::components(path::bytes_of("/etc"@)) == seq![
            ComponentView::RootDir,
            ComponentView::Normal(etc()),
        ],
        path::components(path::bytes_of("/usr"@)) == seq![
            ComponentView::RootDir,
            ComponentView::Normal(usr()),
        ],
{
    let root = seq![0x2fu8];
    lemma_root_bytes();
    reveal_strlit("/etc");
    reveal_strlit("/usr");
    is_ascii_chars_encode_utf8("/etc"@);
    is_ascii_chars_encode_utf8("/usr"@);
    assert(path::bytes_of("/etc"@) =~= root + etc());
    assert(path::bytes_of("/usr"@) =~= root + usr());
    paths::law_components(root, etc());
    paths::law_components(root, usr());
    assert(path::components(root + etc()) =~= seq![
        ComponentView::RootDir,
        ComponentView::Normal(etc()),
    ]);
    assert(path::components(root + usr()) =~= seq![
        ComponentView::RootDir,
        ComponentView::Normal(usr()),
    ]);
}

/// The targets that are accepted: the absolute ones, without a step up, but for `/`, `/etc` and
/// `/usr` themselves. Whatever lies deeper is no danger. Anything else is refused, with the first
/// of these rules that it breaks.
pub proof fn law_accepted_targets(target: Seq<u8>)
    ensures
        ({
            let steps = path::components(target);
            let absolute = target.len() > 0 && target[0] == 0x2f;
            let goes_up = exists|i: int| 0 <= i < steps.len() && #[trigger] steps[i] is ParentDir;
            let dangerous = steps.len() == 1 || (steps.len() == 2 && (steps[1]
                == ComponentView::Normal(etc()) || steps[1] == ComponentView::Normal(usr())));
            let shown = text::lossy_text(target);
            &&& entry::target_fault(target) is None <==> absolute && !goes_up && !dangerous
            &&& absolute && !goes_up && steps.len() >= 3 ==> entry::target_fault(target) is None
            &&& !absolute ==> entry::target_fault(target) == Some(
                ErrorView::Invalid(
                    "target must be an absolute path (or start with ~/$HOME): "@ + shown,
                ),
            )
            &&& absolute && dangerous ==> entry::target_fault(target) == Some(
                ErrorView::Invalid("refusing dangerous target path: "@ + shown),
            )
            &&& absolute && !dangerous && goes_up ==> entry::target_fault(target) == Some(
                ErrorView::Invalid("target path must not contain '..': "@ + shown),
            )
        }),
{
    let steps = path::components(target);
    lemma_dangerous_components();
    paths::law_absolute(target);
    paths::law_comparisons(target, target);
    let root = seq![ComponentView::RootDir];
    let in_etc = seq![ComponentView::RootDir, ComponentView::Normal(etc())];
    let in_usr = seq![ComponentView::RootDir, ComponentView::Normal(usr())];
    if path::is_absolute(target) {
        assert(steps == root <==> steps =~= root);
        assert(steps == in_etc <==> steps =~= in_etc);
        assert(steps == in_usr <==> steps =~= in_usr);
        assert(steps.len() == 1 ==> steps =~= root);
        assert(steps.len() == 2 && steps[1] == ComponentView::Normal(etc()) ==> steps =~= in_etc);
        assert(steps.len() == 2 && steps[1] == ComponentView::Normal(usr()) ==> steps =~= in_usr);
    }
}

/// What is wrong with a mode, and how it reads. The digits are those of the mode in base eight.
pub proof fn law_mode_faults(mode: u32)
    ensures
        ({
            let shown = seq!['0', 'o'] + text::digits(mode as nat, 8);
            let special = ErrorView::Invalid(
                "mode "@ + shown + " contains forbidden special or invalid bits"@,
            );
            &&& mode > 0o777 ==> entry::mode_fault(mode, FileKind::Config) == Some(special)
                && entry::mode_fault(mode, FileKind::Script) == Some(special)
            &&& mode <= 0o777 && mode & 0o111 != 0 ==> entry::mode_fault(mode, FileKind::Config)
                == Some(
                ErrorView::Invalid("config mode must not contain executable bits: "@ + shown),
            )
            &&& mode <= 0o777 && mode & 0o100 == 0 ==> entry::mode_fault(mode, FileKind::Script)
                == Some(
                ErrorView::Invalid("script mode must contain the owner executable bit: "@ + shown),
            )
        }),
{
    assert(mode & !0o777u32 == 0 <==> mode <= 0o777) by (bit_vector);
    reveal_strlit("0o");
    assert("0o"@ =~= seq!['0', 'o']);
}

/// What an entry says of its copy: the mode that it gives, else the usual one, and root as the
/// owner where it asks for that. The rules for its mode are those of its kind. A link has none.
pub proof fn law_entry_attributes(file: entry::FileView, source: Seq<u8>, target: Seq<u8>)
    ensures
        ({
            let link = EntryView::Link { source, target };
            let config = EntryView::Config(file);
            let script = EntryView::Script(file);
            let config_mode: u32 = if file.mode is Some { file.mode->0 } else { 0o644 };
            let script_mode: u32 = if file.mode is Some { file.mode->0 } else { 0o755 };
            &&& link.mode() is None && config.mode() == Some(config_mode) && script.mode()
                == Some(script_mode)
            &&& !link.uses_sudo() && config.uses_sudo() == file.sudo && script.uses_sudo()
                == file.sudo
            &&& link.source() == source && config.source() == file.source && script.source()
                == file.source
            &&& link.target() == target && config.target() == file.target && script.target()
                == file.target
            &&& entry::entry_mode_fault(link) is None
            &&& entry::entry_mode_fault(config) == entry::mode_fault(config_mode, FileKind::Config)
            &&& entry::entry_mode_fault(script) == entry::mode_fault(script_mode, FileKind::Script)
            &&& config.with_paths(source, target) == EntryView::Config(
                entry::FileView { source, target, mode: file.mode, sudo: file.sudo },
            )
            &&& script.with_paths(source, target) == EntryView::Script(
                entry::FileView { source, target, mode: file.mode, sudo: file.sudo },
            )
            &&& EntryView::Link { source: file.source, target: file.target }.with_paths(
                source,
                target,
            ) == link
        }),
{
}

/// An entry is accepted when its target and its mode are and its source is there. Of what is wrong
/// the target comes first, and the source last.
pub proof fn law_accepted_entries(entry: EntryView, present: bool)
    ensures
        ({
            let fault = entry::entry_fault(entry, present);
            let shown = text::lossy_text(entry.source());
            &&& fault is None <==> entry::target_fault(entry.target()) is None
                && entry::entry_mode_fault(entry) is None && present
            &&& entry::target_fault(entry.target()) is Some ==> fault == entry::target_fault(
                entry.target(),
            )
            &&& entry::target_fault(entry.target()) is None && entry::entry_mode_fault(
                entry,
            ) is Some ==> fault == entry::entry_mode_fault(entry)
            &&& entry::form_fault(entry) == entry::entry_fault(entry, true)
            &&& entry::form_fault(entry) is None && !present ==> fault == Some(
                ErrorView::Invalid(
                    (if entry is Link {
                        "link source does not exist: "@
                    } else {
                        "source is not a regular file: "@
                    }) + shown,
                ),
            )
        }),
{
}

/// The word for each status.
pub proof fn law_status_names()
    ensures
        entry::status_name(EntryStatus::InPlace) == "ok"@,
        entry::status_name(EntryStatus::Missing) == "missing"@,
        entry::status_name(EntryStatus::Modified) == "modified"@,
        entry::status_name(EntryStatus::Conflict) == "conflict"@,
        entry::status_name(EntryStatus::Unreadable) == "unreadable"@,
{
}

/// What stands for the home directory at the start of a target: `~`.
pub open spec fn tilde() -> Seq<u8> {
    seq![0x7e]
}

/// What else stands for the home directory at the start of a target: `$HOME`.
pub open spec fn variable() -> Seq<u8> {
    seq![0x24, 0x48, 0x4f, 0x4d, 0x45]
}

proof fn lemma_home_bytes()
    ensures
        path::bytes_of("~"@) == tilde(),
        path::bytes_of("$HOME"@) == variable(),
        path::bytes_of("~/"@) == tilde().push(0x2f),
        path::bytes_of("$HOME/"@) == variable().push(0x2f),
{
    reveal_strlit("~");
    reveal_strlit("$HOME");
    reveal_strlit("~/");
    reveal_strlit("$HOME/");
    is_ascii_chars_encode_utf8("~"@);
    is_ascii_chars_encode_utf8("$HOME"@);
    is_ascii_chars_encode_utf8("~/"@);
    is_ascii_chars_encode_utf8("$HOME/"@);
    assert(path::bytes_of("~"@) =~= tilde());
    assert(path::bytes_of("$HOME"@) =~= variable());
    assert(path::bytes_of("~/"@) =~= tilde().push(0x2f));
    assert(path::bytes_of("$HOME/"@) =~= variable().push(0x2f));
}

/// Whether a target starts with some bytes and then a slash.
pub open spec fn starts_below(target: Seq<u8>, start: Seq<u8>) -> bool {
    &&& target.len() > start.len()
    &&& target.take(start.len() as int) == start
    &&& target[start.len() as int] == 0x2f
}

/// How a target is expanded: `~` and `$HOME` are the home directory, what follows them after a
/// slash is read from there, and any other target stays as it is. Without a home directory the
/// first two are refused, and a target that is no UTF-8 always is.
pub proof fn law_expansion(target: Seq<u8>, home: Seq<u8>)
    ensures
        ({
            let expanded = entry::expanded_target(target, Some(home));
            let homeless = entry::expanded_target(target, None);
            let alone = target == tilde() || target == variable();
            let below_tilde = starts_below(target, tilde());
            let below_variable = starts_below(target, variable());
            let at_home = alone || below_tilde || below_variable;
            if !valid_utf8(target) {
                &&& expanded == Err::<Seq<u8>, ErrorView>(
                    ErrorView::Invalid("target is not valid UTF-8: "@ + text::lossy_text(target)),
                )
                &&& homeless == expanded
            } else {
                &&& alone ==> expanded == Ok::<Seq<u8>, ErrorView>(home)
                &&& below_tilde ==> expanded == Ok::<Seq<u8>, ErrorView>(
                    path::joined(home, target.skip(2)),
                )
                &&& below_variable ==> expanded == Ok::<Seq<u8>, ErrorView>(
                    path::joined(home, target.skip(6)),
                )
                &&& !at_home ==> expanded == Ok::<Seq<u8>, ErrorView>(target) && homeless == Ok::<
                    Seq<u8>,
                    ErrorView,
                >(target)
                &&& at_home ==> homeless == Err::<Seq<u8>, ErrorView>(
                    ErrorView::Invalid("HOME is not set"@),
                )
            }
        }),
{
    lemma_home_bytes();
    let first = tilde().push(0x2f);
    let second = variable().push(0x2f);
    if starts_below(target, tilde()) {
        assert(first =~= target.subrange(0, 2)) by {
            assert(target.take(1)[0] == target[0]);
        }
    }
    if first.is_prefix_of(target) {
        assert(target.take(1) =~= tilde()) by {
            assert(target.subrange(0, 2)[0] == target[0]);
        }
        assert(target.subrange(0, 2)[1] == target[1]);
    }
    if starts_below(target, variable()) {
        assert(second =~= target.subrange(0, 6)) by {
            assert(target.take(5)[0] == target[0]);
            assert(target.take(5)[1] == target[1]);
            assert(target.take(5)[2] == target[2]);
            assert(target.take(5)[3] == target[3]);
            assert(target.take(5)[4] == target[4]);
        }
        assert(target[0] == 0x24) by {
            assert(target.take(5)[0] == target[0]);
        }
    }
    if second.is_prefix_of(target) {
        assert(target.take(5) =~= variable()) by {
            assert(target.subrange(0, 6)[0] == target[0]);
            assert(target.subrange(0, 6)[1] == target[1]);
            assert(target.subrange(0, 6)[2] == target[2]);
            assert(target.subrange(0, 6)[3] == target[3]);
            assert(target.subrange(0, 6)[4] == target[4]);
        }
        assert(target.subrange(0, 6)[5] == target[5]);
    }
}

} // verus!
