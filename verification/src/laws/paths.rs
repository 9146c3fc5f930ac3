//! Laws of paths.
use vstd::prelude::*;
use vstd::std_specs::cmp::PartialEqSpec;
use vstd::utf8::*;

use crate::path;
use crate::path::ComponentView;
use crate::path::DOT;
use crate::path::SLASH;
use crate::path::UnixPath;
use crate::text;

verus! {

/// Splitting a concatenation splits its halves, but for the parts that meet.
pub(crate) proof fn lemma_split_concat<T>(left: Seq<T>, right: Seq<T>, separator: T)
    ensures
        text::split(left + right, separator) == text::split(left, separator).drop_last() + seq![
            text::split(left, separator).last() + text::split(right, separator)[0],
        ] + text::split(right, separator).drop_first(),
    decreases right.len(),
{
    text::lemma_split_nonempty(left, separator);
    text::lemma_split_nonempty(right, separator);
    let l = text::split(left, separator);
    let r = text::split(right, separator);
    if right.len() == 0 {
        assert(left + right =~= left);
        assert(l.last() + r[0] =~= l.last());
        assert(l =~= l.drop_last() + seq![l.last() + r[0]] + r.drop_first());
    } else {
        let shorter = right.drop_last();
        lemma_split_concat(left, shorter, separator);
        text::lemma_split_nonempty(shorter, separator);
        let s = text::split(shorter, separator);
        let both = text::split(left + shorter, separator);
        assert((left + right).drop_last() =~= left + shorter);
        if right.last() == separator {
            assert(r =~= s.push(Seq::empty()));
            assert(both.push(Seq::empty()) =~= l.drop_last() + seq![l.last() + r[0]]
                + r.drop_first());
        } else {
            let last = s.last().push(right.last());
            assert(r =~= s.drop_last().push(last));
            if s.len() == 1 {
                assert(both.last() =~= l.last() + s[0]);
                assert(both.last().push(right.last()) =~= l.last() + r[0]);
            } else {
                assert(both.last() =~= s.last());
            }
            assert(both.drop_last().push(both.last().push(right.last())) =~= l.drop_last() + seq![
                l.last() + r[0],
            ] + r.drop_first());
        }
    }
}

proof fn lemma_part_components_concat(left: Seq<Seq<u8>>, right: Seq<Seq<u8>>)
    ensures
        path::part_components(left + right) == path::part_components(left)
            + path::part_components(right),
    decreases right.len(),
{
    if right.len() == 0 {
        assert(left + right =~= left);
        assert(path::part_components(left) + path::part_components(right) =~=
            path::part_components(left));
    } else {
        lemma_part_components_concat(left, right.drop_last());
        assert((left + right).drop_last() =~= left + right.drop_last());
        assert(path::part_components(left + right) =~= path::part_components(left)
            + path::part_components(right));
    }
}

pub(crate) proof fn lemma_drop_slash(path: Seq<u8>)
    requires
        path.len() > 1,
        path.last() == SLASH,
    ensures
        path::components(path.drop_last()) == path::components(path),
{
    let shorter = path.drop_last();
    let parts = text::split(shorter, SLASH);
    text::lemma_split_nonempty(shorter, SLASH);
    assert(text::split(path, SLASH).drop_last() =~= parts);
}

proof fn lemma_drop_dot(path: Seq<u8>)
    requires
        path.len() > 1,
        path.last() == DOT,
        path[path.len() - 2] == SLASH,
    ensures
        path::components(path.drop_last()) == path::components(path),
{
    let shorter = path.drop_last();
    let rest = shorter.drop_last();
    let parts = text::split(rest, SLASH);
    text::lemma_split_nonempty(rest, SLASH);
    assert(text::split(shorter, SLASH) == parts.push(Seq::empty()));
    assert(text::split(shorter, SLASH).drop_last() =~= parts);
    assert(text::split(path, SLASH) == parts.push(Seq::<u8>::empty().push(DOT)));
    assert(Seq::<u8>::empty().push(DOT) =~= seq![DOT]);
    assert(text::split(path, SLASH).drop_last() =~= parts);
    assert(text::split(path, SLASH).last() == seq![DOT]);
}

/// Trailing slashes and dots make no difference to what a path names.
pub proof fn law_trimming_keeps_components(path: Seq<u8>)
    ensures
        path::components(path::trimmed(path)) == path::components(path),
        path::same_path(path::trimmed(path), path),
        path::trimmed(path).len() <= path.len(),
        path.len() > 0 ==> path::trimmed(path).len() > 0,
    decreases path.len(),
{
    if path.len() > 1 && path.last() == SLASH {
        lemma_drop_slash(path);
        law_trimming_keeps_components(path.drop_last());
    } else if path.len() > 1 && path.last() == DOT && path[path.len() - 2] == SLASH {
        lemma_drop_dot(path);
        law_trimming_keeps_components(path.drop_last());
    }
}

/// A trimmed path has nothing left to trim.
pub(crate) proof fn lemma_trimmed_is_tight(path: Seq<u8>)
    ensures
        ({
            let t = path::trimmed(path);
            t.len() > 1 ==> t.last() != SLASH && !(t.last() == DOT && t[t.len() - 2] == SLASH)
        }),
    decreases path.len(),
{
    if path.len() > 1 && (path.last() == SLASH || (path.last() == DOT && path[path.len() - 2]
        == SLASH)) {
        lemma_trimmed_is_tight(path.drop_last());
    }
}

/// A path is what precedes its last name, and that name.
proof fn lemma_up_to_slash(path: Seq<u8>)
    ensures
        ({
            let front = path::up_to_slash(path);
            &&& front.len() <= path.len()
            &&& path.take(front.len() as int) == front
            &&& front.len() > 0 ==> front.last() == SLASH
            &&& forall|i: int| front.len() <= i < path.len() ==> #[trigger] path[i] != SLASH
        }),
    decreases path.len(),
{
    if path.len() == 0 || path.last() == SLASH {
        assert(path.take(path.len() as int) =~= path);
    } else {
        let shorter = path.drop_last();
        lemma_up_to_slash(shorter);
        let front = path::up_to_slash(shorter);
        assert(path.take(front.len() as int) =~= shorter.take(front.len() as int));
        assert forall|i: int| front.len() <= i < path.len() implies #[trigger] path[i] != SLASH by {
            if i < shorter.len() {
                assert(shorter[i] == path[i]);
            }
        }
    }
}

pub(crate) proof fn lemma_split_without<T>(items: Seq<T>, separator: T)
    requires
        forall|i: int| 0 <= i < items.len() ==> #[trigger] items[i] != separator,
    ensures
        text::split(items, separator) == seq![items],
    decreases items.len(),
{
    if items.len() == 0 {
        assert(items =~= Seq::empty());
    } else {
        let shorter = items.drop_last();
        assert forall|i: int| 0 <= i < shorter.len() implies #[trigger] shorter[i] != separator by {
            assert(shorter[i] == items[i]);
        }
        lemma_split_without(shorter, separator);
        assert(shorter.push(items.last()) =~= items);
        assert(seq![shorter].drop_last().push(items) =~= seq![items]);
    }
}

/// What a slash ends, and what follows it.
proof fn lemma_components_after_slash(front: Seq<u8>, rest: Seq<u8>)
    requires
        front.len() > 0,
        front.last() == SLASH,
    ensures
        path::components(front + rest) == path::components(front) + path::part_components(
            text::split(rest, SLASH),
        ),
{
    let before = text::split(front, SLASH);
    let after = text::split(rest, SLASH);
    let head = before.drop_last();
    lemma_split_concat(front, rest, SLASH);
    text::lemma_split_nonempty(front.drop_last(), SLASH);
    text::lemma_split_nonempty(rest, SLASH);
    assert(before.last() == Seq::<u8>::empty());
    assert(before.last() + after[0] =~= after[0]);
    assert(text::split(front + rest, SLASH) =~= head + after);
    lemma_part_components_concat(head, after);
    assert(path::part_components(before) == path::part_components(head));
    assert(head =~= text::split(front.drop_last(), SLASH));
    assert((front + rest)[0] == front[0]);
    assert((head + after)[0] == before[0]);
    assert(path::leading_component(front + rest) == path::leading_component(front));
    assert(path::components(front + rest) =~= path::components(front) + path::part_components(
        after,
    ));
}

pub(crate) proof fn lemma_short_components()
    ensures
        path::components(Seq::empty()) == Seq::<ComponentView>::empty(),
        path::components(seq![SLASH]) == seq![ComponentView::RootDir],
{
    let none = Seq::<u8>::empty();
    let root = seq![SLASH];
    assert(path::part_components(Seq::empty()) == Seq::<ComponentView>::empty());
    assert(text::split(none, SLASH) == seq![none]);
    assert(seq![none].drop_last() =~= Seq::empty());
    assert(path::part_components(seq![none]) == Seq::<ComponentView>::empty());
    assert(none != seq![DOT]) by {
        assert(none.len() == 0);
    }
    assert(path::components(none) =~= Seq::empty());
    assert(root.drop_last() =~= none);
    assert(text::split(root, SLASH) == seq![none].push(none));
    assert(seq![none].push(none).drop_last() =~= seq![none]);
    assert(path::components(root) =~= seq![ComponentView::RootDir]);
}

/// The parent of a path names all of its steps but the last. Only what has no step, or the root
/// alone, has no parent. A parent is shorter than the path.
pub proof fn law_parent(path: Seq<u8>)
    ensures
        path::parent(path) is None <==> path::components(path).len() == 0
            || path::components(path) == seq![ComponentView::RootDir],
        path::parent(path) matches Some(parent) ==> {
            &&& path::components(parent) == path::components(path).drop_last()
            &&& parent.len() < path.len()
        },
{
    let tight = path::trimmed(path);
    law_trimming_keeps_components(path);
    lemma_trimmed_is_tight(path);
    lemma_short_components();
    if tight.len() == 0 {
        assert(tight =~= Seq::empty());
    } else if tight == seq![SLASH] {
    } else {
        let front = path::up_to_slash(tight);
        let name = tight.skip(front.len() as int);
        lemma_up_to_slash(tight);
        assert(tight =~= front + name);
        law_trimming_keeps_components(front);
        assert(tight.last() != SLASH) by {
            if tight.len() == 1 {
                assert(tight =~= seq![tight.last()]);
            }
        }
        assert(name.len() > 0) by {
            if name.len() == 0 {
                assert(front =~= tight);
            }
        }
        assert forall|i: int| 0 <= i < name.len() implies #[trigger] name[i] != SLASH by {
            assert(name[i] == tight[front.len() + i]);
        }
        lemma_split_without(name, SLASH);
        let parts = seq![name];
        assert(parts.drop_last() =~= Seq::empty());
        let step = if name == seq![DOT, DOT] {
            ComponentView::ParentDir
        } else {
            ComponentView::Normal(name)
        };
        let none = Seq::<ComponentView>::empty();
        assert(path::part_components(parts.drop_last()) == none);
        assert(parts.last() == name);
        assert(path::part_components(parts) =~= if name == seq![DOT] {
            none
        } else {
            seq![step]
        });
        if front.len() == 0 {
            assert(name =~= tight);
            assert(!path::is_absolute(tight)) by {
                assert(name[0] != SLASH);
            }
            assert(front =~= Seq::empty());
            if tight == seq![DOT] {
                assert(path::components(tight) =~= seq![ComponentView::CurDir]);
            } else {
                assert(path::components(tight) =~= seq![step]);
            }
            assert(path::components(tight).drop_last() =~= Seq::empty());
        } else {
            lemma_components_after_slash(front, name);
            assert(name != seq![DOT]) by {
                if name == seq![DOT] {
                    assert(tight.last() == name[0]);
                    assert(tight[tight.len() - 2] == front.last());
                }
            }
            assert(path::components(tight) =~= path::components(front).push(step));
            assert(path::components(tight).drop_last() =~= path::components(front));
        }
        assert(path::components(tight).last() != ComponentView::RootDir);
    }
}

proof fn lemma_trimmed_is_prefix(path: Seq<u8>)
    ensures
        path::trimmed(path).len() <= path.len(),
        path::trimmed(path) == path.take(path::trimmed(path).len() as int),
    decreases path.len(),
{
    if path.len() > 1 && (path.last() == SLASH || (path.last() == DOT && path[path.len() - 2]
        == SLASH)) {
        let shorter = path.drop_last();
        lemma_trimmed_is_prefix(shorter);
        let n = path::trimmed(shorter).len() as int;
        assert(shorter.take(n) =~= path.take(n));
    } else {
        assert(path.take(path.len() as int) =~= path);
    }
}

/// The parent of an absolute path is absolute. A parent is written in the same bytes, and ends in
/// no slash but that of the root.
pub proof fn law_parent_is_prefix(path: Seq<u8>)
    ensures
        path::parent(path) matches Some(parent) ==> {
            &&& parent.len() <= path.len()
            &&& parent == path.take(parent.len() as int)
            &&& path::is_absolute(path) ==> path::is_absolute(parent)
            &&& parent.len() > 1 ==> parent.last() != 0x2f
        },
{
    if path::parent(path) is Some {
        let tight = path::trimmed(path);
        let front = path::up_to_slash(tight);
        let parent = path::trimmed(front);
        let n = parent.len() as int;
        lemma_trimmed_is_prefix(path);
        lemma_up_to_slash(tight);
        lemma_trimmed_is_prefix(front);
        law_trimming_keeps_components(front);
        lemma_trimmed_is_tight(front);
        assert(front.take(n) =~= tight.take(n));
        assert(tight.take(n) =~= path.take(n));
        if path::is_absolute(path) {
            law_trimming_keeps_components(path);
            assert(tight[0] == path[0]);
            assert(front.len() > 0);
            assert(parent[0] == path[0]);
        }
    }
}

/// Reading a relative path from a base adds its steps to those of the base; it never leads out
/// of the base but by a `..`.
pub proof fn law_join(base: Seq<u8>, path: Seq<u8>)
    requires
        base.len() > 0,
        !path::is_absolute(path),
    ensures
        path::components(path::joined(base, path)) == path::components(base)
            + path::part_components(text::split(path, SLASH)),
        path::starts_with(path::joined(base, path), base),
{
    let front = if base.last() == SLASH {
        base
    } else {
        base.push(SLASH)
    };
    if base.last() != SLASH {
        lemma_drop_slash(front);
        assert(front.drop_last() =~= base);
    }
    lemma_components_after_slash(front, path);
    assert(path::components(path::joined(base, path)).subrange(
        0,
        path::components(base).len() as int,
    ) =~= path::components(base));
}

proof fn lemma_parts_hold_no_root(parts: Seq<Seq<u8>>)
    ensures
        !path::part_components(parts).contains(ComponentView::RootDir),
        !path::part_components(parts).contains(ComponentView::CurDir),
    decreases parts.len(),
{
    if parts.len() > 0 {
        let before = path::part_components(parts.drop_last());
        let after = path::part_components(parts);
        lemma_parts_hold_no_root(parts.drop_last());
        assert forall|i: int| 0 <= i < after.len() implies after[i] != ComponentView::RootDir
            && after[i] != ComponentView::CurDir by {
            if i < before.len() {
                assert(after[i] == before[i]);
                assert(before.contains(before[i]));
            }
        }
    }
}

/// What lies at or below an absolute path is absolute.
pub proof fn law_below_absolute_is_absolute(path: Seq<u8>, base: Seq<u8>)
    requires
        path::is_absolute(base),
        path::starts_with(path, base),
    ensures
        path::is_absolute(path),
{
    let below = path::components(path);
    let above = path::components(base);
    assert(above[0] == ComponentView::RootDir);
    assert(below[0] == above[0]) by {
        assert(below.subrange(0, above.len() as int)[0] == below[0]);
    }
    lemma_parts_hold_no_root(text::split(path, SLASH));
    if !path::is_absolute(path) {
        let parts = path::part_components(text::split(path, SLASH));
        if path::leading_component(path).len() == 0 {
            assert(below[0] == parts[0]);
            assert(parts.contains(parts[0]));
        }
    }
}

/// The step that a part between slashes names: none if it is empty or a `.`.
pub open spec fn named(part: Seq<u8>) -> Seq<ComponentView> {
    if part.len() == 0 || (part.len() == 1 && part[0] == 0x2e) {
        Seq::empty()
    } else if part.len() == 2 && part[0] == 0x2e && part[1] == 0x2e {
        seq![ComponentView::ParentDir]
    } else {
        seq![ComponentView::Normal(part)]
    }
}

/// Whether a part holds no slash.
pub open spec fn is_part(part: Seq<u8>) -> bool {
    forall|i: int| 0 <= i < part.len() ==> #[trigger] part[i] != 0x2f
}

/// How components grow with a path, part by part: a slash at the start is the root, any other
/// slash is no step, and each part is the step that it names. A `.` counts only as the first part
/// of a relative path.
pub proof fn law_components(path: Seq<u8>, part: Seq<u8>)
    requires
        is_part(part),
    ensures
        path::components(Seq::empty()) == Seq::<ComponentView>::empty(),
        path::components(seq![0x2fu8]) == seq![ComponentView::RootDir],
        path.len() > 0 ==> path::components(path.push(0x2f)) == path::components(path),
        path.len() > 0 && path.last() == 0x2f ==> path::components(path + part)
            == path::components(path) + named(part),
        part.len() > 0 ==> path::components(part) == if part == seq![0x2eu8] {
            seq![ComponentView::CurDir]
        } else {
            named(part)
        },
{
    lemma_short_components();
    if path.len() > 0 {
        assert(path.push(SLASH).drop_last() =~= path);
        lemma_drop_slash(path.push(SLASH));
    }
    lemma_split_without(part, SLASH);
    let parts = seq![part];
    assert(parts.drop_last() =~= Seq::empty());
    assert(path::part_components(parts.drop_last()) == Seq::<ComponentView>::empty());
    assert(part.len() == 1 && part[0] == DOT <==> part =~= seq![DOT]);
    assert(part.len() == 2 && part[0] == DOT && part[1] == DOT <==> part =~= seq![DOT, DOT]);
    assert(path::part_components(parts) =~= named(part));
    if path.len() > 0 && path.last() == SLASH {
        lemma_components_after_slash(path, part);
    }
    if part.len() > 0 {
        assert(!path::is_absolute(part));
        assert(path::components(part) =~= path::leading_component(part) + named(part));
        assert(path::components(part) =~= if part == seq![DOT] {
            seq![ComponentView::CurDir]
        } else {
            named(part)
        });
    }
}

/// A path is absolute when its first byte is a slash, which is when its first step is the root.
pub proof fn law_absolute(path: Seq<u8>)
    ensures
        path::is_absolute(path) <==> path.len() > 0 && path[0] == 0x2f,
        path::is_absolute(path) <==> path::components(path).len() > 0 && path::components(path)[0]
            == ComponentView::RootDir,
        path.len() > 0 <==> path::components(path).len() > 0,
{
    let parts = path::part_components(text::split(path, SLASH));
    lemma_parts_hold_no_root(text::split(path, SLASH));
    lemma_short_components();
    if path.len() == 0 {
        assert(path =~= Seq::empty());
    } else if !path::is_absolute(path) {
        lemma_relative_has_a_step(path);
        if path::leading_component(path).len() == 0 {
            assert(path::components(path)[0] == parts[0]);
            assert(parts.contains(parts[0]));
        }
    }
}

proof fn lemma_relative_has_a_step(path: Seq<u8>)
    requires
        path.len() > 0,
        path[0] != SLASH,
    ensures
        path::components(path).len() > 0,
    decreases path.len(),
{
    let front = path::up_to_slash(path);
    lemma_up_to_slash(path);
    if front.len() == 0 {
        assert forall|i: int| 0 <= i < path.len() implies #[trigger] path[i] != 0x2f by {}
        law_components(Seq::empty(), path);
        assert(path.len() == 1 && path[0] == 0x2e ==> path =~= seq![0x2eu8]);
    } else {
        let part = path.skip(front.len() as int);
        assert(path =~= front + part);
        assert forall|i: int| 0 <= i < part.len() implies #[trigger] part[i] != 0x2f by {
            assert(part[i] == path[front.len() + i]);
        }
        law_components(front, part);
        assert(front[0] == path[0]);
        let shorter = front.drop_last();
        assert(shorter.push(0x2f) =~= front);
        assert(shorter[0] == path[0]);
        lemma_relative_has_a_step(shorter);
        law_components(shorter, part);
    }
}

/// How paths compare, step by step: two are the same when all their steps are, one lies at or
/// below another when it starts with its steps, and a path goes up when one of its steps does.
pub proof fn law_comparisons(left: Seq<u8>, right: Seq<u8>)
    ensures
        ({
            let l = path::components(left);
            let r = path::components(right);
            &&& path::same_path(left, right) <==> l.len() == r.len() && forall|i: int|
                0 <= i < l.len() ==> #[trigger] l[i] == r[i]
            &&& path::starts_with(left, right) <==> r.len() <= l.len() && forall|i: int|
                0 <= i < r.len() ==> #[trigger] r[i] == l[i]
            &&& path::has_parent_dir(left) <==> exists|i: int|
                0 <= i < l.len() && #[trigger] l[i] is ParentDir
        }),
{
    let l = path::components(left);
    let r = path::components(right);
    if l.len() == r.len() && forall|i: int| 0 <= i < l.len() ==> #[trigger] l[i] == r[i] {
        assert(l =~= r);
    }
    if r.len() <= l.len() {
        let start = l.subrange(0, r.len() as int);
        if forall|i: int| 0 <= i < r.len() ==> #[trigger] r[i] == l[i] {
            assert(start =~= r);
        }
        if path::starts_with(left, right) {
            assert forall|i: int| 0 <= i < r.len() implies #[trigger] r[i] == l[i] by {
                assert(start[i] == l[i]);
            }
        }
    }
    if path::has_parent_dir(left) {
        let i = choose|i: int| 0 <= i < l.len() && l[i] == ComponentView::ParentDir;
        assert(l[i] is ParentDir);
    }
    if exists|i: int| 0 <= i < l.len() && #[trigger] l[i] is ParentDir {
        let i = choose|i: int| 0 <= i < l.len() && #[trigger] l[i] is ParentDir;
        assert(l[i] == ComponentView::ParentDir);
    }
}

/// How a path is written that is read from a base: an absolute one as it is, a relative one after
/// the base, with a slash between them where the base is not empty and ends in none.
pub proof fn law_join_is_written(base: Seq<u8>, path: Seq<u8>)
    ensures
        ({
            let whole = path::joined(base, path);
            let between: nat = if base.len() > 0 && base[base.len() - 1] != 0x2f {
                1
            } else {
                0
            };
            if path.len() > 0 && path[0] == 0x2f {
                whole == path
            } else {
                &&& whole.len() == base.len() + between + path.len()
                &&& forall|i: int| 0 <= i < base.len() ==> #[trigger] whole[i] == base[i]
                &&& between == 1 ==> whole[base.len() as int] == 0x2f
                &&& forall|i: int|
                    0 <= i < path.len() ==> whole[base.len() + between + i] == #[trigger] path[i]
            }
        }),
{
}

/// Paths are equal where all their steps are the same, however they are written.
pub proof fn law_path_equality(left: UnixPath, right: UnixPath)
    ensures
        left.eq_spec(&right) <==> path::components(left.bytes@) == path::components(right.bytes@),
        left@ == left.bytes@,
{
}

/// A path is written in the bytes of its text, and reads as what is made of its bytes.
pub proof fn law_path_texts(text: Seq<char>, path: Seq<u8>)
    ensures
        path::bytes_of(text) == encode_utf8(text),
        path::path_text(path) == text::lossy_text(path),
{
}

} // verus!
