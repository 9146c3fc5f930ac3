//! Unix paths as the byte strings they are, and the components they are compared by.
use vstd::prelude::*;
use vstd::string::*;
use vstd::utf8::*;

use crate::text;

verus! {

/// The byte that separates the parts of a path.
pub const SLASH: u8 = 0x2f;

/// The byte `.`.
pub const DOT: u8 = 0x2e;

/// A path of a Unix file system.
#[derive(Debug)]
pub struct UnixPath {
    pub bytes: Vec<u8>,
}

/// One step of a path.
#[derive(Debug)]
pub enum Component {
    /// The `/` that an absolute path starts with.
    RootDir,
    /// A `.` that a relative path starts with.
    CurDir,
    /// A `..`.
    ParentDir,
    /// A name.
    Normal(Vec<u8>),
}

pub enum ComponentView {
    RootDir,
    CurDir,
    ParentDir,
    Normal(Seq<u8>),
}

impl View for UnixPath {
    type V = Seq<u8>;

    open spec fn view(&self) -> Seq<u8> {
        self.bytes@
    }
}

impl View for Component {
    type V = ComponentView;

    open spec fn view(&self) -> ComponentView {
        match self {
            Component::RootDir => ComponentView::RootDir,
            Component::CurDir => ComponentView::CurDir,
            Component::ParentDir => ComponentView::ParentDir,
            Component::Normal(name) => ComponentView::Normal(name@),
        }
    }
}

/// The bytes of a text.
pub open spec fn bytes_of(text: Seq<char>) -> Seq<u8> {
    encode_utf8(text)
}

pub open spec fn is_absolute(path: Seq<u8>) -> bool {
    path.len() > 0 && path[0] == SLASH
}

/// What the parts between slashes contribute: nothing for an empty part and for a `.`.
pub open spec fn part_components(parts: Seq<Seq<u8>>) -> Seq<ComponentView>
    decreases parts.len(),
{
    if parts.len() == 0 {
        Seq::empty()
    } else {
        let before = part_components(parts.drop_last());
        let part = parts.last();
        if part.len() == 0 || part == seq![DOT] {
            before
        } else if part == seq![DOT, DOT] {
            before.push(ComponentView::ParentDir)
        } else {
            before.push(ComponentView::Normal(part))
        }
    }
}

/// What a path starts with before its first name.
pub open spec fn leading_component(path: Seq<u8>) -> Seq<ComponentView> {
    if is_absolute(path) {
        seq![ComponentView::RootDir]
    } else if text::split(path, SLASH)[0] == seq![DOT] {
        seq![ComponentView::CurDir]
    } else {
        Seq::empty()
    }
}

/// The components of a path: repeated and trailing slashes do not count, nor does a `.` except
/// at the start of a relative path.
pub open spec fn components(path: Seq<u8>) -> Seq<ComponentView> {
    leading_component(path) + part_components(text::split(path, SLASH))
}

/// Two paths are the same when their components are.
pub open spec fn same_path(left: Seq<u8>, right: Seq<u8>) -> bool {
    components(left) == components(right)
}

/// Whether a path lies at or below a base, component by component.
pub open spec fn starts_with(path: Seq<u8>, base: Seq<u8>) -> bool {
    components(base).is_prefix_of(components(path))
}

pub open spec fn has_parent_dir(path: Seq<u8>) -> bool {
    components(path).contains(ComponentView::ParentDir)
}

/// A path read relative to a base. An absolute path stands for itself.
pub open spec fn joined(base: Seq<u8>, path: Seq<u8>) -> Seq<u8> {
    if is_absolute(path) {
        path
    } else if base.len() == 0 || base.last() == SLASH {
        base + path
    } else {
        base.push(SLASH) + path
    }
}

/// A path without the trailing slashes and `.` parts that no component stands for.
pub open spec fn trimmed(path: Seq<u8>) -> Seq<u8>
    decreases path.len(),
{
    if path.len() > 1 && (path.last() == SLASH || (path.last() == DOT && path[path.len() - 2]
        == SLASH)) {
        trimmed(path.drop_last())
    } else {
        path
    }
}

/// A path up to and including its last slash.
pub open spec fn up_to_slash(path: Seq<u8>) -> Seq<u8>
    decreases path.len(),
{
    if path.len() == 0 || path.last() == SLASH {
        path
    } else {
        up_to_slash(path.drop_last())
    }
}

/// The path one component up. The root and the empty path have none.
pub open spec fn parent(path: Seq<u8>) -> Option<Seq<u8>> {
    let path = trimmed(path);
    if path.len() == 0 || path == seq![SLASH] {
        None
    } else {
        Some(trimmed(up_to_slash(path)))
    }
}

/// A path as it stands in messages.
pub open spec fn path_text(path: Seq<u8>) -> Seq<char> {
    text::lossy_text(path)
}

pub(crate) fn clone_bytes(bytes: &Vec<u8>) -> (copy: Vec<u8>)
    ensures
        copy@ == bytes@,
{
    let copy = bytes.clone();
    assert(copy@ =~= bytes@);
    copy
}

pub(crate) fn equal_bytes(left: &Vec<u8>, right: &Vec<u8>) -> (equal: bool)
    ensures
        equal == (left@ == right@),
{
    if left.len() != right.len() {
        return false;
    }
    let mut i: usize = 0;
    while i < left.len()
        invariant
            i <= left.len(),
            left.len() == right.len(),
            forall|j: int| 0 <= j < i ==> left@[j] == right@[j],
        decreases left.len() - i,
    {
        if left[i] != right[i] {
            assert(left@[i as int] != right@[i as int]);
            return false;
        }
        i = i + 1;
    }
    assert(left@ =~= right@);
    true
}

/// The parts of a byte string between its slashes.
fn split_slashes(bytes: &Vec<u8>) -> (parts: Vec<Vec<u8>>)
    ensures
        parts@.map_values(|part: Vec<u8>| part@) == text::split(bytes@, SLASH),
{
    let mut parts: Vec<Vec<u8>> = Vec::new();
    let mut part: Vec<u8> = Vec::new();
    let mut i: usize = 0;
    while i < bytes.len()
        invariant
            i <= bytes.len(),
            parts@.map_values(|p: Vec<u8>| p@).push(part@) == text::split(
                bytes@.take(i as int),
                SLASH,
            ),
        decreases bytes.len() - i,
    {
        let ghost before = parts@.map_values(|p: Vec<u8>| p@);
        assert(bytes@.take(i + 1).drop_last() =~= bytes@.take(i as int));
        assert(before.push(part@).drop_last() =~= before);
        if bytes[i] == SLASH {
            parts.push(part);
            part = Vec::new();
            assert(parts@.map_values(|p: Vec<u8>| p@).push(part@) =~= text::split(
                bytes@.take(i + 1),
                SLASH,
            ));
        } else {
            part.push(bytes[i]);
        }
        i = i + 1;
    }
    assert(bytes@.take(bytes@.len() as int) =~= bytes@);
    parts.push(part);
    assert(parts@.map_values(|p: Vec<u8>| p@) =~= text::split(bytes@, SLASH));
    parts
}

fn equal_components(left: &Component, right: &Component) -> (equal: bool)
    ensures
        equal == (left@ == right@),
{
    match (left, right) {
        (Component::RootDir, Component::RootDir) => true,
        (Component::CurDir, Component::CurDir) => true,
        (Component::ParentDir, Component::ParentDir) => true,
        (Component::Normal(l), Component::Normal(r)) => equal_bytes(l, r),
        _ => false,
    }
}

/// Whether one list of components starts another.
fn is_prefix(prefix: &Vec<Component>, whole: &Vec<Component>) -> (result: bool)
    ensures
        result == prefix@.map_values(|c: Component| c@).is_prefix_of(
            whole@.map_values(|c: Component| c@),
        ),
{
    let ghost p = prefix@.map_values(|c: Component| c@);
    let ghost w = whole@.map_values(|c: Component| c@);
    if prefix.len() > whole.len() {
        return false;
    }
    let mut i: usize = 0;
    while i < prefix.len()
        invariant
            i <= prefix.len() <= whole.len(),
            p == prefix@.map_values(|c: Component| c@),
            w == whole@.map_values(|c: Component| c@),
            forall|j: int| 0 <= j < i ==> p[j] == w[j],
        decreases prefix.len() - i,
    {
        if !equal_components(&prefix[i], &whole[i]) {
            assert(p[i as int] != w[i as int]);
            assert(w.subrange(0, p.len() as int)[i as int] == w[i as int]);
            return false;
        }
        i = i + 1;
    }
    assert(p =~= w.subrange(0, p.len() as int));
    true
}

impl Clone for UnixPath {
    fn clone(&self) -> (copy: UnixPath)
        ensures
            copy@ == self@,
    {
        UnixPath { bytes: clone_bytes(&self.bytes) }
    }
}

impl PartialEq for UnixPath {
    fn eq(&self, other: &UnixPath) -> (equal: bool) {
        self.same(other)
    }
}

impl vstd::std_specs::cmp::PartialEqSpecImpl for UnixPath {
    open spec fn obeys_eq_spec() -> bool {
        true
    }

    open spec fn eq_spec(&self, other: &UnixPath) -> bool {
        same_path(self@, other@)
    }
}

impl Eq for UnixPath {

}

impl UnixPath {
    /// The path that a text writes.
    pub fn new(text: &str) -> (path: UnixPath)
        ensures
            path@ == bytes_of(text@),
    {
        UnixPath { bytes: text.as_bytes_vec() }
    }

    pub fn is_absolute(&self) -> (result: bool)
        ensures
            result == is_absolute(self@),
    {
        self.bytes.len() > 0 && self.bytes[0] == SLASH
    }

    /// The components of this path.
    pub fn components(&self) -> (result: Vec<Component>)
        ensures
            result@.map_values(|c: Component| c@) == components(self@),
    {
        let parts = split_slashes(&self.bytes);
        let ghost names = text::split(self@, SLASH);
        proof {
            text::lemma_split_nonempty(self@, SLASH);
            assert(parts@.map_values(|p: Vec<u8>| p@)[0] == parts@[0]@);
        }
        let mut result: Vec<Component> = Vec::new();
        if self.is_absolute() {
            result.push(Component::RootDir);
        } else if parts[0].len() == 1 && parts[0][0] == DOT {
            assert(parts@[0]@ =~= seq![DOT]);
            result.push(Component::CurDir);
        }
        assert(result@.map_values(|c: Component| c@) =~= leading_component(self@));
        assert(names.take(0) =~= Seq::<Seq<u8>>::empty());
        let mut i: usize = 0;
        while i < parts.len()
            invariant
                i <= parts.len(),
                names == text::split(self@, SLASH),
                names == parts@.map_values(|p: Vec<u8>| p@),
                result@.map_values(|c: Component| c@) =~= leading_component(self@)
                    + part_components(names.take(i as int)),
            decreases parts.len() - i,
        {
            let part = &parts[i];
            assert(names[i as int] == part@);
            assert(names.take(i + 1).drop_last() =~= names.take(i as int));
            assert(names.take(i + 1).last() == part@);
            let ghost before = part_components(names.take(i as int));
            let ghost after = part_components(names.take(i + 1));
            if part.len() == 0 || (part.len() == 1 && part[0] == DOT) {
                assert(part@.len() == 1 ==> part@ =~= seq![DOT]);
                assert(after == before);
            } else if part.len() == 2 && part[0] == DOT && part[1] == DOT {
                assert(part@ =~= seq![DOT, DOT]);
                assert(part@ != seq![DOT]);
                assert(after == before.push(ComponentView::ParentDir));
                result.push(Component::ParentDir);
                assert(result@.map_values(|c: Component| c@) =~= (leading_component(self@)
                    + before).push(ComponentView::ParentDir));
            } else {
                assert(part@ != seq![DOT]);
                assert(part@ != seq![DOT, DOT]);
                assert(after == before.push(ComponentView::Normal(part@)));
                let name = clone_bytes(part);
                result.push(Component::Normal(name));
                assert(result@.map_values(|c: Component| c@) =~= (leading_component(self@)
                    + before).push(ComponentView::Normal(part@)));
            }
            assert(result@.map_values(|c: Component| c@) =~= leading_component(self@) + after);
            i = i + 1;
        }
        assert(names.take(names.len() as int) =~= names);
        result
    }

    /// Whether this path names the same steps as another.
    pub fn same(&self, other: &UnixPath) -> (result: bool)
        ensures
            result == same_path(self@, other@),
    {
        let left = self.components();
        let right = other.components();
        let result = left.len() == right.len() && is_prefix(&left, &right);
        proof {
            let l = left@.map_values(|c: Component| c@);
            let r = right@.map_values(|c: Component| c@);
            if result {
                assert(r.subrange(0, l.len() as int) =~= r);
            } else if l == r {
                assert(r.subrange(0, l.len() as int) =~= r);
            }
        }
        result
    }

    /// Whether this path lies at or below a base.
    pub fn starts_with(&self, base: &UnixPath) -> (result: bool)
        ensures
            result == starts_with(self@, base@),
    {
        is_prefix(&base.components(), &self.components())
    }

    /// Whether a component of this path is `..`.
    pub fn has_parent_dir(&self) -> (result: bool)
        ensures
            result == has_parent_dir(self@),
    {
        let parts = self.components();
        let ghost seen = parts@.map_values(|c: Component| c@);
        let mut i: usize = 0;
        while i < parts.len()
            invariant
                i <= parts.len(),
                seen == parts@.map_values(|c: Component| c@),
                seen == components(self@),
                forall|j: int| 0 <= j < i ==> seen[j] != ComponentView::ParentDir,
            decreases parts.len() - i,
        {
            if let Component::ParentDir = &parts[i] {
                assert(seen[i as int] == ComponentView::ParentDir);
                return true;
            }
            i = i + 1;
        }
        false
    }

    /// A path read relative to this one.
    pub fn join(&self, path: &UnixPath) -> (result: UnixPath)
        ensures
            result@ == joined(self@, path@),
    {
        if path.is_absolute() {
            return path.clone();
        }
        let mut bytes = clone_bytes(&self.bytes);
        if bytes.len() > 0 && bytes[bytes.len() - 1] != SLASH {
            bytes.push(SLASH);
        }
        let mut rest = clone_bytes(&path.bytes);
        bytes.append(&mut rest);
        UnixPath { bytes }
    }

    /// The path one component up.
    pub fn parent(&self) -> (result: Option<UnixPath>)
        ensures
            result is Some == parent(self@) is Some,
            result matches Some(path) ==> path@ == parent(self@)->0,
    {
        let end = trimmed_end(&self.bytes, self.bytes.len());
        let ghost kept = self@.take(end as int);
        assert(self@.take(self@.len() as int) =~= self@);
        if end == 0 || (end == 1 && self.bytes[0] == SLASH) {
            assert(end == 1 ==> kept =~= seq![SLASH]);
            return None;
        }
        assert(kept.len() == end && kept[0] == self@[0]);
        assert(kept == seq![SLASH] ==> kept.len() == 1 && kept[0] == SLASH);
        let mut i: usize = end;
        while i > 0 && self.bytes[i - 1] != SLASH
            invariant
                i <= end <= self.bytes@.len(),
                kept == self@.take(end as int),
                up_to_slash(self@.take(i as int)) == up_to_slash(kept),
            decreases i,
        {
            assert(self@.take(i as int).drop_last() =~= self@.take(i - 1));
            i = i - 1;
        }
        assert(up_to_slash(kept) == self@.take(i as int));
        let end = trimmed_end(&self.bytes, i);
        let mut bytes = clone_bytes(&self.bytes);
        bytes.truncate(end);
        assert(bytes@ =~= self@.take(end as int));
        Some(UnixPath { bytes })
    }

    /// This path as it stands in messages.
    pub fn display(&self) -> (text: String)
        ensures
            text@ == path_text(self@),
            valid_utf8(self@) ==> text@ == decode_utf8(self@),
    {
        text::lossy(&self.bytes)
    }
}

/// How much of the first `end` bytes stays when redundant slashes and dots are dropped.
fn trimmed_end(bytes: &Vec<u8>, end: usize) -> (kept: usize)
    requires
        end <= bytes@.len(),
    ensures
        kept <= end,
        bytes@.take(kept as int) == trimmed(bytes@.take(end as int)),
{
    let mut kept: usize = end;
    while kept > 1 && (bytes[kept - 1] == SLASH || (bytes[kept - 1] == DOT && bytes[kept - 2]
        == SLASH))
        invariant
            kept <= end <= bytes@.len(),
            trimmed(bytes@.take(kept as int)) == trimmed(bytes@.take(end as int)),
        decreases kept,
    {
        assert(bytes@.take(kept as int).drop_last() =~= bytes@.take(kept - 1));
        kept = kept - 1;
    }
    kept
}

} // verus!
