//! Local paths as the bytes of a Linux path, and what their text means.
use vstd::prelude::*;
use vstd::slice::{slice_subrange, slice_to_vec};
use vstd::utf8::encode_utf8;

use crate::text::{
    joined, lemma_split_concat, lemma_split_joined, lemma_split_none, lemma_split_parts,
    lossy_text, split_on, text_lossy,
};

verus! {

/// The byte that separates the components of a path.
pub const SLASH: u8 = 47;

/// The byte `.`.
pub const DOT: u8 = 46;

/// A path of the local file system. It need not be valid UTF-8.
#[derive(Debug, PartialEq, Eq)]
pub struct LocalPath {
    pub bytes: Vec<u8>,
}

impl View for LocalPath {
    type V = Seq<u8>;

    open spec fn view(&self) -> Seq<u8> {
        self.bytes@
    }
}

impl Clone for LocalPath {
    fn clone(&self) -> (r: Self)
        ensures
            r@ == self@,
    {
        LocalPath { bytes: slice_to_vec(self.bytes.as_slice()) }
    }
}

/// One component of a path.
#[derive(Debug, PartialEq, Eq)]
pub enum Component<B> {
    /// The leading separator of an absolute path.
    RootDir,
    /// A leading `.`.
    CurDir,
    /// `..`.
    ParentDir,
    /// Any other name.
    Normal(B),
}

/// The component that the part with index `i` between separators stands for.
/// Empty parts stand for none, and `.` only where the path begins with it.
pub open spec fn part_component(i: int, part: Seq<u8>) -> Option<Component<Seq<u8>>> {
    if part.len() == 0 {
        None
    } else if part == seq![DOT] {
        if i == 0 {
            Some(Component::CurDir)
        } else {
            None
        }
    } else if part == seq![DOT, DOT] {
        Some(Component::ParentDir)
    } else {
        Some(Component::Normal(part))
    }
}

/// The components of the parts between separators.
pub open spec fn part_components(parts: Seq<Seq<u8>>) -> Seq<Component<Seq<u8>>>
    decreases parts.len(),
{
    if parts.len() == 0 {
        Seq::empty()
    } else {
        let before = part_components(parts.drop_last());
        match part_component(parts.len() - 1, parts.last()) {
            Some(component) => before.push(component),
            None => before,
        }
    }
}

/// Whether the path begins at the root.
pub open spec fn absolute(path: Seq<u8>) -> bool {
    path.len() > 0 && path[0] == SLASH
}

/// The components of a path. Repeated and trailing separators, and `.` but at
/// the beginning of a relative path, do not show in them.
pub open spec fn components(path: Seq<u8>) -> Seq<Component<Seq<u8>>> {
    let named = part_components(split_on(path, SLASH));
    if absolute(path) {
        seq![Component::RootDir] + named
    } else {
        named
    }
}

/// Whether two paths have the same components.
pub open spec fn same_path(a: Seq<u8>, b: Seq<u8>) -> bool {
    components(a) == components(b)
}

/// Whether `path` is `base` or lies below it.
pub open spec fn within(path: Seq<u8>, base: Seq<u8>) -> bool {
    components(base).is_prefix_of(components(path))
}

/// The path `tail` seen from `path`: `tail` itself where it is absolute, else
/// what stands at `tail` below `path`.
pub open spec fn pushed(path: Seq<u8>, tail: Seq<u8>) -> Seq<u8> {
    if absolute(tail) {
        tail
    } else if path.len() > 0 && path.last() != SLASH {
        path.push(SLASH) + tail
    } else {
        path + tail
    }
}

/// The names among the components.
pub open spec fn names(list: Seq<Component<Seq<u8>>>) -> Seq<Seq<u8>>
    decreases list.len(),
{
    if list.len() == 0 {
        Seq::empty()
    } else {
        match list.last() {
            Component::Normal(name) => names(list.drop_last()).push(name),
            _ => names(list.drop_last()),
        }
    }
}

/// The path without trailing separators and trailing `/.`.
pub open spec fn without_tail(path: Seq<u8>) -> Seq<u8>
    decreases path.len(),
{
    if path.len() > 1 && (path.last() == SLASH || (path.last() == DOT && path[path.len() - 2]
        == SLASH)) {
        without_tail(path.drop_last())
    } else {
        path
    }
}

/// The longest suffix without the byte `sep`.
pub open spec fn after_last(s: Seq<u8>, sep: u8) -> Seq<u8>
    decreases s.len(),
{
    if s.len() == 0 || s.last() == sep {
        Seq::empty()
    } else {
        after_last(s.drop_last(), sep).push(s.last())
    }
}

/// The directory that a path names an entry of, if it names one.
pub open spec fn parent_of(path: Seq<u8>) -> Option<Seq<u8>> {
    let whole = without_tail(path);
    if whole.len() == 0 || whole == seq![SLASH] {
        None
    } else {
        Some(without_tail(whole.take(whole.len() - after_last(whole, SLASH).len())))
    }
}

/// The name that a path ends in, if its last component is a name.
pub open spec fn file_name_of(path: Seq<u8>) -> Option<Seq<u8>> {
    let name = after_last(without_tail(path), SLASH);
    if name.len() == 0 || name == seq![DOT] || name == seq![DOT, DOT] {
        None
    } else {
        Some(name)
    }
}

/// A file name cut at its last dot: what stands before it and, unless the dot
/// is missing or the first byte, what follows.
pub open spec fn cut_at_dot(name: Seq<u8>) -> (Seq<u8>, Option<Seq<u8>>) {
    let ext = after_last(name, DOT);
    if ext.len() + 1 >= name.len() {
        (name, None)
    } else {
        (name.take(name.len() - ext.len() - 1), Some(ext))
    }
}

/// The view of one component.
pub open spec fn component_view(component: Component<Vec<u8>>) -> Component<Seq<u8>> {
    match component {
        Component::RootDir => Component::RootDir,
        Component::CurDir => Component::CurDir,
        Component::ParentDir => Component::ParentDir,
        Component::Normal(name) => Component::Normal(name@),
    }
}

/// The views of a list of components.
pub open spec fn component_views(list: Seq<Component<Vec<u8>>>) -> Seq<Component<Seq<u8>>> {
    list.map_values(|component: Component<Vec<u8>>| component_view(component))
}

/// The views of a list of byte strings.
pub open spec fn byte_lists(list: Seq<Vec<u8>>) -> Seq<Seq<u8>> {
    list.map_values(|bytes: Vec<u8>| bytes@)
}

/// Whether two byte strings are equal.
pub fn same_bytes(a: &[u8], b: &[u8]) -> (r: bool)
    ensures
        r == (a@ == b@),
{
    if a.len() != b.len() {
        return false;
    }
    let mut i: usize = 0;
    while i < a.len()
        invariant
            i <= a.len(),
            a.len() == b.len(),
            a@.take(i as int) == b@.take(i as int),
        decreases a.len() - i,
    {
        if a[i] != b[i] {
            assert(a@[i as int] != b@[i as int]);
            return false;
        }
        assert(a@.take(i + 1) == a@.take(i as int).push(a@[i as int]));
        assert(b@.take(i + 1) == b@.take(i as int).push(b@[i as int]));
        i += 1;
    }
    assert(a@.take(i as int) == a@);
    assert(b@.take(i as int) == b@);
    true
}

/// Splits a byte string at each separator.
fn split_bytes(bytes: &[u8], sep: u8) -> (parts: Vec<Vec<u8>>)
    ensures
        byte_lists(parts@) == split_on(bytes@, sep),
{
    let mut parts: Vec<Vec<u8>> = Vec::new();
    let mut current: Vec<u8> = Vec::new();
    let mut i: usize = 0;
    assert(byte_lists(parts@).push(current@) == split_on(bytes@.take(0), sep));
    while i < bytes.len()
        invariant
            i <= bytes.len(),
            byte_lists(parts@).push(current@) == split_on(bytes@.take(i as int), sep),
        decreases bytes.len() - i,
    {
        assert(bytes@.take(i + 1).drop_last() == bytes@.take(i as int));
        assert(byte_lists(parts@).push(current@).drop_last() == byte_lists(parts@));
        if bytes[i] == sep {
            let ghost before = parts@;
            let ghost last = current;
            parts.push(current);
            current = Vec::new();
            assert(byte_lists(parts@) == byte_lists(before).push(last@));
        } else {
            current.push(bytes[i]);
        }
        i += 1;
    }
    assert(bytes@.take(i as int) == bytes@);
    let ghost before = parts@;
    let ghost last = current;
    parts.push(current);
    assert(byte_lists(parts@) == byte_lists(before).push(last@));
    parts
}

/// Appends the bytes of `tail`.
fn append_bytes(bytes: &mut Vec<u8>, tail: &[u8])
    ensures
        final(bytes)@ == old(bytes)@ + tail@,
{
    let ghost before = bytes@;
    let mut i: usize = 0;
    while i < tail.len()
        invariant
            i <= tail.len(),
            bytes@ == before + tail@.take(i as int),
        decreases tail.len() - i,
    {
        bytes.push(tail[i]);
        assert(tail@.take(i + 1) == tail@.take(i as int).push(tail@[i as int]));
        i += 1;
    }
    assert(tail@.take(i as int) == tail@);
}

/// Joins byte strings with one separator between each two.
pub fn join_bytes(parts: &Vec<Vec<u8>>, sep: u8) -> (r: Vec<u8>)
    ensures
        r@ == joined(byte_lists(parts@), sep),
{
    let mut r: Vec<u8> = Vec::new();
    let mut i: usize = 0;
    while i < parts.len()
        invariant
            i <= parts.len(),
            r@ == joined(byte_lists(parts@).take(i as int), sep),
        decreases parts.len() - i,
    {
        let ghost done = byte_lists(parts@).take(i + 1);
        assert(done.drop_last() == byte_lists(parts@).take(i as int));
        assert(done.last() == parts@[i as int]@);
        if i > 0 {
            r.push(sep);
        }
        append_bytes(&mut r, parts[i].as_slice());
        i += 1;
    }
    assert(byte_lists(parts@).take(i as int) == byte_lists(parts@));
    r
}

/// Whether two components are equal.
fn same_component(a: &Component<Vec<u8>>, b: &Component<Vec<u8>>) -> (r: bool)
    ensures
        r == (component_view(*a) == component_view(*b)),
{
    match (a, b) {
        (Component::RootDir, Component::RootDir) => true,
        (Component::CurDir, Component::CurDir) => true,
        (Component::ParentDir, Component::ParentDir) => true,
        (Component::Normal(x), Component::Normal(y)) => same_bytes(x.as_slice(), y.as_slice()),
        _ => false,
    }
}

/// How many bytes of the longest suffix do without the byte `sep`.
fn after_last_len(s: &[u8], sep: u8) -> (n: usize)
    ensures
        n == after_last(s@, sep).len(),
        n <= s@.len(),
        after_last(s@, sep) == s@.skip(s@.len() - n),
        n < s@.len() ==> s@[s@.len() - n - 1] == sep,
{
    let mut n: usize = 0;
    assert(s@.take(s@.len() as int) == s@);
    assert(after_last(s@, sep) == after_last(s@.take(s@.len() as int), sep) + s@.skip(
        s@.len() as int,
    ));
    while n < s.len() && s[s.len() - 1 - n] != sep
        invariant
            n <= s.len(),
            after_last(s@, sep) == after_last(s@.take(s@.len() - n), sep) + s@.skip(s@.len() - n),
        decreases s.len() - n,
    {
        let ghost head = s@.take(s@.len() - n);
        assert(head.drop_last() == s@.take(s@.len() - n - 1));
        assert(after_last(head, sep) == after_last(head.drop_last(), sep).push(head.last()));
        assert(after_last(head.drop_last(), sep).push(head.last()) + s@.skip(s@.len() - n)
            == after_last(head.drop_last(), sep) + s@.skip(s@.len() - n - 1));
        n += 1;
    }
    assert(after_last(s@.take(s@.len() - n), sep) == Seq::<u8>::empty());
    n
}

impl LocalPath {
    /// The path with the given text.
    pub fn new(text: &str) -> (r: Self)
        ensures
            r@ == encode_utf8(text@),
    {
        LocalPath { bytes: slice_to_vec(text.as_bytes()) }
    }

    /// The path with the given bytes.
    pub fn from_bytes(bytes: Vec<u8>) -> (r: Self)
        ensures
            r@ == bytes@,
    {
        LocalPath { bytes }
    }

    /// The text of the path, with a replacement character for what is not
    /// valid UTF-8.
    pub fn to_text(&self) -> (s: String)
        ensures
            s@ == lossy_text(self@),
    {
        text_lossy(self.bytes.as_slice())
    }

    /// Whether the path begins at the root.
    pub fn is_absolute(&self) -> (r: bool)
        ensures
            r == absolute(self@),
    {
        self.bytes.len() > 0 && self.bytes[0] == SLASH
    }

    /// The components of the path.
    pub fn components(&self) -> (list: Vec<Component<Vec<u8>>>)
        ensures
            component_views(list@) == components(self@),
    {
        let mut list: Vec<Component<Vec<u8>>> = Vec::new();
        let ghost root: Seq<Component<Seq<u8>>> = if absolute(self@) {
            seq![Component::RootDir]
        } else {
            Seq::empty()
        };
        if self.is_absolute() {
            list.push(Component::RootDir);
        }
        let parts = split_bytes(self.bytes.as_slice(), SLASH);
        let ghost all = byte_lists(parts@);
        assert(component_views(list@) == root + part_components(all.take(0)));
        let mut i: usize = 0;
        while i < parts.len()
            invariant
                i <= parts.len(),
                all == byte_lists(parts@),
                component_views(list@) == root + part_components(all.take(i as int)),
            decreases parts.len() - i,
        {
            let part = &parts[i];
            let ghost before = list@;
            assert(all.take(i + 1).drop_last() == all.take(i as int));
            assert(all.take(i + 1).last() == part@);
            if part.len() == 0 {
            } else if part.len() == 1 && part[0] == DOT {
                assert(part@ == seq![DOT]);
                if i == 0 {
                    list.push(Component::CurDir);
                    assert(component_views(list@) == component_views(before).push(
                        Component::CurDir,
                    ));
                }
            } else if part.len() == 2 && part[0] == DOT && part[1] == DOT {
                assert(part@ == seq![DOT, DOT]);
                list.push(Component::ParentDir);
                assert(component_views(list@) == component_views(before).push(
                    Component::ParentDir,
                ));
            } else {
                list.push(Component::Normal(slice_to_vec(part.as_slice())));
                assert(component_views(list@) == component_views(before).push(
                    Component::Normal(part@),
                ));
            }
            i += 1;
        }
        assert(all.take(i as int) == all);
        assert(component_views(list@) == components(self@));
        list
    }

    /// Whether the path is `base` or lies below it.
    pub fn starts_with(&self, base: &LocalPath) -> (r: bool)
        ensures
            r == within(self@, base@),
    {
        let ours = self.components();
        let theirs = base.components();
        let ghost a = components(self@);
        let ghost b = components(base@);
        if theirs.len() > ours.len() {
            assert(a.len() == ours.len() && b.len() == theirs.len());
            return false;
        }
        let mut i: usize = 0;
        while i < theirs.len()
            invariant
                i <= theirs.len() <= ours.len(),
                a == components(self@),
                b == components(base@),
                a == component_views(ours@),
                b == component_views(theirs@),
                forall|j: int| 0 <= j < i ==> a[j] == b[j],
            decreases theirs.len() - i,
        {
            if !same_component(&ours[i], &theirs[i]) {
                assert(a[i as int] != b[i as int]);
                return false;
            }
            i += 1;
        }
        assert(b == a.take(b.len() as int));
        true
    }

    /// Whether the two paths have the same components.
    pub fn same_as(&self, other: &LocalPath) -> (r: bool)
        ensures
            r == same_path(self@, other@),
    {
        let ours = self.components();
        let theirs = other.components();
        let ghost a = components(self@);
        let ghost b = components(other@);
        if theirs.len() != ours.len() {
            assert(a.len() == ours.len() && b.len() == theirs.len());
            return false;
        }
        let mut i: usize = 0;
        while i < theirs.len()
            invariant
                i <= theirs.len() == ours.len(),
                a == components(self@),
                b == components(other@),
                a == component_views(ours@),
                b == component_views(theirs@),
                forall|j: int| 0 <= j < i ==> a[j] == b[j],
            decreases theirs.len() - i,
        {
            if !same_component(&ours[i], &theirs[i]) {
                assert(a[i as int] != b[i as int]);
                return false;
            }
            i += 1;
        }
        assert(a == b);
        true
    }

    /// The path `tail` seen from this one.
    pub fn join(&self, tail: &LocalPath) -> (r: LocalPath)
        ensures
            r@ == pushed(self@, tail@),
    {
        if tail.is_absolute() {
            return tail.clone();
        }
        let mut bytes = slice_to_vec(self.bytes.as_slice());
        if bytes.len() > 0 && bytes[bytes.len() - 1] != SLASH {
            bytes.push(SLASH);
        }
        append_bytes(&mut bytes, tail.bytes.as_slice());
        LocalPath { bytes }
    }

    /// The path with the given text seen from this one.
    pub fn join_text(&self, tail: &str) -> (r: LocalPath)
        ensures
            r@ == pushed(self@, encode_utf8(tail@)),
    {
        self.join(&LocalPath::new(tail))
    }

    /// How long the path is without trailing separators and trailing `/.`.
    fn len_without_tail(&self) -> (n: usize)
        ensures
            n <= self@.len(),
            without_tail(self@) == self@.take(n as int),
    {
        let mut n: usize = self.bytes.len();
        assert(self@.take(n as int) == self@);
        while n > 1 && (self.bytes[n - 1] == SLASH || (self.bytes[n - 1] == DOT && self.bytes[n - 2]
            == SLASH))
            invariant
                n <= self@.len(),
                without_tail(self@) == without_tail(self@.take(n as int)),
            decreases n,
        {
            assert(self@.take(n as int).drop_last() == self@.take(n - 1));
            n -= 1;
        }
        n
    }

    /// The directory that the path names an entry of, if it names one.
    pub fn parent(&self) -> (r: Option<LocalPath>)
        ensures
            r is Some <==> parent_of(self@) is Some,
            r is Some ==> r->0@ == parent_of(self@)->0,
    {
        let n = self.len_without_tail();
        let whole = slice_subrange(self.bytes.as_slice(), 0, n);
        assert(whole@ == without_tail(self@));
        if n == 0 {
            return None;
        }
        if n == 1 && whole[0] == SLASH {
            assert(whole@ == seq![SLASH]);
            return None;
        }
        assert(n == 1 ==> whole@[0] != seq![SLASH][0]);
        let m = after_last_len(whole, SLASH);
        let head = LocalPath { bytes: slice_to_vec(slice_subrange(whole, 0, n - m)) };
        assert(head@ == whole@.take(n - m));
        let k = head.len_without_tail();
        let r = LocalPath { bytes: slice_to_vec(slice_subrange(head.bytes.as_slice(), 0, k)) };
        assert(r@ == head@.take(k as int));
        Some(r)
    }

    /// The name that the path ends in, if its last component is a name.
    pub fn file_name(&self) -> (r: Option<Vec<u8>>)
        ensures
            r is Some <==> file_name_of(self@) is Some,
            r is Some ==> r->0@ == file_name_of(self@)->0,
    {
        let n = self.len_without_tail();
        let whole = slice_subrange(self.bytes.as_slice(), 0, n);
        assert(whole@ == without_tail(self@));
        let m = after_last_len(whole, SLASH);
        let name = slice_to_vec(slice_subrange(whole, n - m, n));
        assert(name@ == after_last(whole@, SLASH));
        if name.len() == 0 {
            return None;
        }
        if name.len() == 1 && name[0] == DOT {
            assert(name@ == seq![DOT]);
            return None;
        }
        if name.len() == 2 && name[0] == DOT && name[1] == DOT {
            assert(name@ == seq![DOT, DOT]);
            return None;
        }
        assert(name@.len() == 1 ==> name@[0] != seq![DOT][0]);
        assert(name@.len() == 2 ==> name@[0] != seq![DOT, DOT][0] || name@[1] != seq![DOT, DOT][1]);
        Some(name)
    }
}

/// Whether the bytes can stand as a name between separators.
pub open spec fn is_name(part: Seq<u8>) -> bool {
    part.len() > 0 && !part.contains(SLASH) && part != seq![DOT] && part != seq![DOT, DOT]
}

/// The components that name the given names.
pub open spec fn named(parts: Seq<Seq<u8>>) -> Seq<Component<Seq<u8>>> {
    parts.map_values(|part: Seq<u8>| Component::Normal(part))
}

/// Names that follow other parts are components of their own.
proof fn lemma_part_components_names(before: Seq<Seq<u8>>, parts: Seq<Seq<u8>>)
    requires
        forall|i: int| 0 <= i < parts.len() ==> is_name(#[trigger] parts[i]),
    ensures
        part_components(before + parts) == part_components(before) + named(parts),
    decreases parts.len(),
{
    if parts.len() == 0 {
        assert(before + parts == before);
        assert(named(parts) == Seq::<Component<Seq<u8>>>::empty());
    } else {
        let head = parts.drop_last();
        assert forall|i: int| 0 <= i < head.len() implies is_name(#[trigger] head[i]) by {
            assert(head[i] == parts[i]);
        }
        lemma_part_components_names(before, head);
        assert((before + parts).drop_last() == before + head);
        assert((before + parts).last() == parts.last());
        assert(is_name(parts.last()));
        assert(named(parts) == named(head).push(Component::Normal(parts.last())));
    }
}

/// A path that is extended by names has their components after its own.
pub proof fn lemma_components_of_pushed(path: Seq<u8>, parts: Seq<Seq<u8>>)
    requires
        parts.len() > 0,
        forall|i: int| 0 <= i < parts.len() ==> is_name(#[trigger] parts[i]),
    ensures
        !absolute(joined(parts, SLASH)),
        components(pushed(path, joined(parts, SLASH))) == components(path) + named(parts),
{
    let tail = joined(parts, SLASH);
    assert forall|i: int| 0 <= i < parts.len() implies !(#[trigger] parts[i]).contains(SLASH) by {
        assert(is_name(parts[i]));
    }
    lemma_split_joined(parts, SLASH);
    lemma_joined_start(parts, SLASH);
    let whole = pushed(path, tail);
    if path.len() == 0 {
        assert(whole == tail);
        lemma_part_components_names(Seq::empty(), parts);
        assert(Seq::<Seq<u8>>::empty() + parts == parts);
        assert(part_components(Seq::<Seq<u8>>::empty()) == Seq::<Component<Seq<u8>>>::empty());
        assert(split_on(path, SLASH) == seq![Seq::<u8>::empty()]);
        assert(seq![Seq::<u8>::empty()].drop_last() == Seq::<Seq<u8>>::empty());
        assert(part_components(split_on(path, SLASH)) == Seq::<Component<Seq<u8>>>::empty());
        assert(components(whole) == components(path) + named(parts));
    } else {
        let stem = if path.last() == SLASH {
            path.drop_last()
        } else {
            path
        };
        assert(stem.push(SLASH) + tail == whole);
        lemma_split_concat(stem, SLASH, tail);
        lemma_part_components_names(split_on(stem, SLASH), parts);
        assert(absolute(whole) == absolute(path));
        if path.last() == SLASH {
            let before = split_on(stem, SLASH);
            assert(split_on(path, SLASH) == before.push(Seq::<u8>::empty()));
            assert(before.push(Seq::<u8>::empty()).drop_last() == before);
            assert(part_components(split_on(path, SLASH)) == part_components(before));
        }
        assert(part_components(split_on(whole, SLASH)) == part_components(split_on(path, SLASH))
            + named(parts));
        assert(components(whole) == components(path) + named(parts));
    }
}

/// A component that is a name can stand between separators.
pub proof fn lemma_normal_components_are_names(path: Seq<u8>)
    ensures
        forall|i: int|
            0 <= i < components(path).len() && #[trigger] components(path)[i] is Normal ==> is_name(
                components(path)[i]->Normal_0,
            ),
{
    let parts = split_on(path, SLASH);
    lemma_split_parts(path, SLASH);
    lemma_part_names(parts);
    let list = part_components(parts);
    let whole = components(path);
    assert forall|i: int| 0 <= i < whole.len() && #[trigger] whole[i] is Normal implies is_name(
        whole[i]->Normal_0,
    ) by {
        if absolute(path) {
            assert(whole[i] == list[i - 1]);
        }
    }
}

/// The names among the components of a path can stand between separators.
pub proof fn lemma_names_are_names(path: Seq<u8>)
    ensures
        forall|i: int|
            0 <= i < names(components(path)).len() ==> is_name(#[trigger] names(components(path))[i]),
{
    lemma_normal_components_are_names(path);
    lemma_names_from(components(path));
}

/// The named components of parts without separators.
proof fn lemma_part_names(parts: Seq<Seq<u8>>)
    requires
        forall|i: int| 0 <= i < parts.len() ==> !(#[trigger] parts[i]).contains(SLASH),
    ensures
        forall|i: int|
            0 <= i < part_components(parts).len() && #[trigger] part_components(parts)[i] is Normal
                ==> is_name(part_components(parts)[i]->Normal_0),
    decreases parts.len(),
{
    if parts.len() > 0 {
        let head = parts.drop_last();
        assert forall|i: int| 0 <= i < head.len() implies !(#[trigger] head[i]).contains(SLASH) by {
            assert(head[i] == parts[i]);
        }
        lemma_part_names(head);
        assert(!parts.last().contains(SLASH));
    }
}

/// Names come from named components.
proof fn lemma_names_from(list: Seq<Component<Seq<u8>>>)
    requires
        forall|i: int|
            0 <= i < list.len() && #[trigger] list[i] is Normal ==> is_name(list[i]->Normal_0),
    ensures
        forall|i: int| 0 <= i < names(list).len() ==> is_name(#[trigger] names(list)[i]),
    decreases list.len(),
{
    if list.len() > 0 {
        let head = list.drop_last();
        assert forall|i: int| 0 <= i < head.len() && #[trigger] head[i] is Normal implies is_name(
            head[i]->Normal_0,
        ) by {
            assert(head[i] == list[i]);
        }
        lemma_names_from(head);
        match list.last() {
            Component::Normal(name) => {
                assert(list[list.len() - 1] is Normal);
                assert(names(list) == names(head).push(name));
                assert forall|i: int| 0 <= i < names(list).len() implies is_name(
                    #[trigger] names(list)[i],
                ) by {
                    if i < names(head).len() {
                        assert(names(list)[i] == names(head)[i]);
                    }
                }
            },
            _ => {},
        }
    }
}

/// A text joined from parts begins as its first part does.
proof fn lemma_joined_start(parts: Seq<Seq<u8>>, sep: u8)
    requires
        parts.len() > 0,
        parts[0].len() > 0,
    ensures
        joined(parts, sep).len() > 0,
        joined(parts, sep)[0] == parts[0][0],
    decreases parts.len(),
{
    if parts.len() > 1 {
        lemma_joined_start(parts.drop_last(), sep);
    }
}

/// The part after the last separator is the last part of the split.
proof fn lemma_after_last(s: Seq<u8>, sep: u8)
    ensures
        split_on(s, sep).last() == after_last(s, sep),
        !after_last(s, sep).contains(sep),
    decreases s.len(),
{
    lemma_split_parts(s, sep);
    if s.len() > 0 {
        lemma_after_last(s.drop_last(), sep);
    }
}

/// Trailing separators and trailing `/.` do not show in the components.
proof fn lemma_components_without_tail(path: Seq<u8>)
    ensures
        components(without_tail(path)) == components(path),
    decreases path.len(),
{
    if path.len() > 1 && (path.last() == SLASH || (path.last() == DOT && path[path.len() - 2]
        == SLASH)) {
        let head = path.drop_last();
        lemma_components_without_tail(head);
        assert(absolute(head) == absolute(path));
        let before = split_on(head, SLASH);
        if path.last() == SLASH {
            let parts = before.push(Seq::<u8>::empty());
            assert(split_on(path, SLASH) == parts);
            assert(parts.drop_last() == before);
        } else {
            let stem = head.drop_last();
            assert(head.last() == SLASH);
            let names = split_on(stem, SLASH);
            lemma_split_parts(stem, SLASH);
            assert(before == names.push(Seq::<u8>::empty()));
            assert(before.drop_last() == names);
            assert(before.last().push(DOT) == seq![DOT]);
            let parts = names.push(seq![DOT]);
            assert(split_on(path, SLASH) == parts);
            assert(parts.drop_last() == names);
            assert(part_components(before) == part_components(names));
        }
        assert(part_components(split_on(path, SLASH)) == part_components(before));
    }
}

/// What [`without_tail`] leaves has nothing more to take off.
proof fn lemma_without_tail_end(path: Seq<u8>)
    ensures
        without_tail(path).len() > 1 ==> without_tail(path).last() != SLASH && !(without_tail(
            path,
        ).last() == DOT && without_tail(path)[without_tail(path).len() - 2] == SLASH),
    decreases path.len(),
{
    if path.len() > 1 && (path.last() == SLASH || (path.last() == DOT && path[path.len() - 2]
        == SLASH)) {
        lemma_without_tail_end(path.drop_last());
    }
}

/// A path whose last component is a name ends in that file name.
pub proof fn lemma_last_component_is_the_file_name(path: Seq<u8>)
    requires
        components(path).len() > 0,
        components(path).last() is Normal,
    ensures
        file_name_of(path) == Some(components(path).last()->Normal_0),
{
    let whole = without_tail(path);
    let name = after_last(whole, SLASH);
    let parts = split_on(whole, SLASH);
    lemma_components_without_tail(path);
    lemma_without_tail_end(path);
    lemma_after_last(whole, SLASH);
    lemma_split_parts(whole, SLASH);
    let list = part_components(parts);
    assert(components(whole).len() > 0 && components(whole).last() is Normal);
    assert(list.len() > 0 && list.last() == components(path).last());
    if name.len() == 0 {
        if whole.len() > 0 {
            assert(whole.last() == SLASH);
            assert(whole.len() == 1);
            assert(whole.drop_last() == Seq::<u8>::empty());
            reveal_with_fuel(split_on, 2);
            reveal_with_fuel(part_components, 3);
            assert(parts == seq![Seq::<u8>::empty(), Seq::<u8>::empty()]);
            assert(parts.drop_last() == seq![Seq::<u8>::empty()]);
            assert(parts.drop_last().drop_last() == Seq::<Seq<u8>>::empty());
            assert(list.len() == 0);
        } else {
            assert(parts == seq![Seq::<u8>::empty()]);
            assert(parts.drop_last() == Seq::<Seq<u8>>::empty());
            reveal_with_fuel(part_components, 2);
        }
    } else if name == seq![DOT] {
        assert(whole.last() == DOT) by {
            assert(name.last() == whole.last());
        }
        reveal_with_fuel(after_last, 2);
        if whole.len() > 1 {
            assert(whole.drop_last().last() == whole[whole.len() - 2]);
            assert(after_last(whole.drop_last(), SLASH).len() == 0);
        }
        assert(whole == seq![DOT]);
        assert(whole.drop_last() == Seq::<u8>::empty());
        assert(!whole.contains(SLASH));
        lemma_split_none(whole, SLASH);
        assert(parts == seq![seq![DOT]]);
        assert(parts.drop_last() == Seq::<Seq<u8>>::empty());
        reveal_with_fuel(part_components, 2);
        assert(list.last() == Component::<Seq<u8>>::CurDir);
    } else if name == seq![DOT, DOT] {
        assert(list.last() == Component::<Seq<u8>>::ParentDir);
    } else {
        assert(list.last() == Component::Normal(name));
    }
}

/// A file name can stand between separators.
pub proof fn lemma_file_name_is_a_name(path: Seq<u8>)
    requires
        file_name_of(path) is Some,
    ensures
        is_name(file_name_of(path)->0),
{
    lemma_after_last(without_tail(path), SLASH);
}

/// A file name is its stem, with its extension behind a dot if it has one.
pub proof fn lemma_cut_at_dot(name: Seq<u8>)
    ensures
        match cut_at_dot(name) {
            (stem, Some(ext)) => {
                &&& stem.len() < name.len()
                &&& name[stem.len() as int] == DOT
                &&& stem == name.take(stem.len() as int)
                &&& ext == name.skip(stem.len() as int + 1)
            },
            (stem, None) => stem == name,
        },
{
    let ext = after_last(name, DOT);
    lemma_after_last_suffix(name, DOT);
    if ext.len() + 1 < name.len() {
        let k = name.len() - ext.len() - 1;
        assert(name.skip(k + 1) == ext);
    }
}

/// What [`after_last`] gives is a suffix, behind a separator if it is not all.
proof fn lemma_after_last_suffix(s: Seq<u8>, sep: u8)
    ensures
        after_last(s, sep).len() <= s.len(),
        after_last(s, sep) == s.skip(s.len() - after_last(s, sep).len()),
        after_last(s, sep).len() < s.len() ==> s[s.len() - after_last(s, sep).len() - 1] == sep,
    decreases s.len(),
{
    if s.len() > 0 && s.last() != sep {
        let head = s.drop_last();
        lemma_after_last_suffix(head, sep);
        assert(after_last(s, sep) == s.skip(s.len() - after_last(s, sep).len()));
    }
}

/// Cuts a file name at its last dot.
pub fn stem_and_extension(name: &Vec<u8>) -> (r: (Vec<u8>, Option<Vec<u8>>))
    ensures
        r.0@ == cut_at_dot(name@).0,
        r.1 is Some <==> cut_at_dot(name@).1 is Some,
        r.1 is Some ==> r.1->0@ == cut_at_dot(name@).1->0,
{
    let n = name.len();
    let m = after_last_len(name.as_slice(), DOT);
    if m >= n || m + 1 >= n {
        (slice_to_vec(name.as_slice()), None)
    } else {
        let stem = slice_to_vec(slice_subrange(name.as_slice(), 0, n - m - 1));
        let ext = slice_to_vec(slice_subrange(name.as_slice(), n - m, n));
        assert(stem@ == name@.take(n - m - 1));
        assert(ext@ == name@.skip(n - m));
        (stem, Some(ext))
    }
}

/// A path that ends in a file name has a parent, and is that parent's path followed by the
/// name.
pub proof fn law_parent_and_name_make_the_path(path: Seq<u8>)
    requires
        file_name_of(path) is Some,
    ensures
        parent_of(path) is Some,
        components(path) == components(parent_of(path)->0).push(
            Component::Normal(file_name_of(path)->0),
        ),
{
    let whole = without_tail(path);
    let name = after_last(whole, SLASH);
    let head = whole.take(whole.len() - name.len());
    let parts = seq![name];
    lemma_file_name_is_a_name(path);
    lemma_components_without_tail(path);
    lemma_after_last_suffix(whole, SLASH);
    assert(parts.drop_last().len() == 0);
    assert(joined(parts, SLASH) == name);
    assert(is_name(parts[0]));
    assert(head + name == whole);
    assert(head.len() > 0 ==> head.last() == SLASH);
    assert(name[0] != SLASH) by {
        assert(name.contains(name[0]));
    }
    assert(pushed(head, name) == whole);
    lemma_components_of_pushed(head, parts);
    lemma_components_without_tail(head);
    assert(named(parts) == seq![Component::Normal(name)]);
    assert(components(head) + named(parts) == components(head).push(Component::Normal(name)));
    if whole == seq![SLASH] {
        reveal_with_fuel(after_last, 2);
    }
}

/// A part that is empty or `.`, behind another one, shows in no component.
proof fn lemma_silent_part(x: Seq<Seq<u8>>, part: Seq<u8>, y: Seq<Seq<u8>>)
    requires
        x.len() > 0,
        part.len() == 0 || part == seq![DOT],
    ensures
        part_components(x.push(part) + y) == part_components(x + y),
    decreases y.len(),
{
    let with = x.push(part) + y;
    let without = x + y;
    if y.len() == 0 {
        assert(with == x.push(part));
        assert(with.drop_last() == x);
        assert(without == x);
    } else {
        lemma_silent_part(x, part, y.drop_last());
        assert(with.drop_last() == x.push(part) + y.drop_last());
        assert(without.drop_last() == x + y.drop_last());
        assert(with.last() == y.last() && without.last() == y.last());
        assert(part_component(with.len() - 1, y.last()) == part_component(
            without.len() - 1,
            y.last(),
        ));
    }
}

/// Redundant parts of a path do not count: `a//b` and `a/./b` have the components of `a/b`.
pub proof fn law_redundant_parts_do_not_count(a: Seq<u8>, b: Seq<u8>)
    ensures
        components(a.push(SLASH).push(SLASH) + b) == components(a.push(SLASH) + b),
        components(a.push(SLASH).push(DOT).push(SLASH) + b) == components(a.push(SLASH) + b),
{
    let none = Seq::<u8>::empty();
    let dot = seq![DOT];
    let x = split_on(a, SLASH);
    let y = split_on(b, SLASH);
    let plain = a.push(SLASH) + b;
    let doubled = a.push(SLASH).push(SLASH) + b;
    let dotted = a.push(SLASH).push(DOT).push(SLASH) + b;
    lemma_split_parts(a, SLASH);
    lemma_split_concat(a, SLASH, b);
    lemma_split_concat(none, SLASH, b);
    lemma_split_concat(dot, SLASH, b);
    assert(split_on(none, SLASH) == seq![none]);
    assert(!dot.contains(SLASH));
    lemma_split_none(dot, SLASH);
    let after_none = none.push(SLASH) + b;
    let after_dot = dot.push(SLASH) + b;
    assert(doubled == a.push(SLASH) + after_none);
    assert(dotted == a.push(SLASH) + after_dot);
    lemma_split_concat(a, SLASH, after_none);
    lemma_split_concat(a, SLASH, after_dot);
    assert(x + (seq![none] + y) == x.push(none) + y);
    assert(x + (seq![dot] + y) == x.push(dot) + y);
    lemma_silent_part(x, none, y);
    lemma_silent_part(x, dot, y);
    assert(absolute(doubled) == absolute(plain));
    assert(absolute(dotted) == absolute(plain));
}

} // verus!
