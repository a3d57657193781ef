//! File paths as the library reads them: bytes as they were written, and the
//! root and parts that they name.
//!
//! Paths are written with `/`. Doubled separators, a separator at the end and
//! `.` parts other than a leading one carry no meaning: paths that differ in
//! them only name the same file, and each is shown as it was written.

use vstd::prelude::*;
use vstd::std_specs::cmp::PartialEqSpecImpl;
use vstd::utf8::*;
use crate::text::{bytes_of, from_utf8, from_utf8_lossy};
use crate::text::{lossy_text, utf8_text};

verus! {

broadcast use crate::text::lemma_bytes_deep_view;

/// A path as it is written. A file name need not be valid UTF-8.
#[derive(Clone, Debug)]
pub struct FilePath {
    pub bytes: Vec<u8>,
}

/// How a path is written.
#[verifier::ext_equal]
pub struct PathView {
    pub bytes: Seq<u8>,
}

impl View for FilePath {
    type V = PathView;

    open spec fn view(&self) -> PathView {
        PathView { bytes: self.bytes@ }
    }
}

impl DeepView for FilePath {
    type V = PathView;

    open spec fn deep_view(&self) -> PathView {
        self@
    }
}

/// What a path names: whether it starts at the root, and its parts. A part is a
/// name, a `..`, or a `.` at the start of a relative path.
#[verifier::ext_equal]
pub struct Route {
    pub absolute: bool,
    pub parts: Seq<Seq<u8>>,
}

/// The part `.`.
pub open spec fn dot() -> Seq<u8> {
    seq![46u8]
}

/// The part `..`.
pub open spec fn dot_dot() -> Seq<u8> {
    seq![46u8, 46u8]
}

/// The byte `/`.
pub open spec fn separator() -> u8 {
    47u8
}

/// The runs of bytes between the separators of `bytes`.
pub open spec fn segments(bytes: Seq<u8>) -> Seq<Seq<u8>>
    decreases bytes.len(),
{
    if bytes.len() == 0 {
        seq![Seq::<u8>::empty()]
    } else {
        let before = segments(bytes.drop_last());
        if bytes.last() == separator() {
            before.push(Seq::empty())
        } else {
            before.drop_last().push(before.last().push(bytes.last()))
        }
    }
}

/// Whether the segment at `index` is a part of the path.
pub open spec fn is_kept(segment: Seq<u8>, index: int) -> bool {
    segment.len() > 0 && (segment != dot() || index == 0)
}

/// The segments that are parts of the path.
pub open spec fn kept(segments: Seq<Seq<u8>>) -> Seq<Seq<u8>>
    decreases segments.len(),
{
    if segments.len() == 0 {
        Seq::empty()
    } else if is_kept(segments.last(), segments.len() - 1) {
        kept(segments.drop_last()).push(segments.last())
    } else {
        kept(segments.drop_last())
    }
}

/// The path that `bytes` write.
pub open spec fn written(bytes: Seq<u8>) -> PathView {
    PathView { bytes }
}

/// A path without what carries no meaning at its end: separators and `.` parts.
pub open spec fn trimmed_end(bytes: Seq<u8>) -> Seq<u8>
    decreases bytes.len(),
{
    if bytes.len() >= 2 && (bytes.last() == separator() || (bytes.last() == 46u8
        && bytes[bytes.len() - 2] == separator())) {
        trimmed_end(bytes.drop_last())
    } else {
        bytes
    }
}

/// Where the bytes behind the last separator start.
pub open spec fn last_start(bytes: Seq<u8>) -> int
    decreases bytes.len(),
{
    if bytes.len() == 0 || bytes.last() == separator() {
        bytes.len() as int
    } else {
        last_start(bytes.drop_last())
    }
}

/// Where the last `count` parts of a path start.
pub open spec fn tail_start(bytes: Seq<u8>, count: int) -> int
    decreases count,
{
    let end = trimmed_end(bytes);
    if count <= 1 {
        last_start(end)
    } else {
        tail_start(end.take(last_start(end)), count - 1)
    }
}

/// The last `count` parts of a path, as they are written.
pub open spec fn tail(bytes: Seq<u8>, count: int) -> Seq<u8> {
    if count <= 0 {
        Seq::empty()
    } else {
        trimmed_end(bytes).skip(tail_start(bytes, count))
    }
}

/// The parts with a separator between each two.
pub open spec fn joined(parts: Seq<Seq<u8>>) -> Seq<u8>
    decreases parts.len(),
{
    if parts.len() == 0 {
        Seq::empty()
    } else if parts.len() == 1 {
        parts[0]
    } else {
        joined(parts.drop_last()).push(separator()) + parts.last()
    }
}

/// The position of the last dot of a file name that has a name before it.
pub open spec fn dot_position(name: Seq<u8>, end: int) -> Option<int>
    decreases end,
{
    if end <= 1 {
        None
    } else if name[end - 1] == 46u8 {
        Some(end - 1)
    } else {
        dot_position(name, end - 1)
    }
}

/// What stands before the last dot of a file name. A name without a dot, or
/// with none but a leading one, is all stem.
pub open spec fn stem_of(name: Seq<u8>) -> Seq<u8> {
    match dot_position(name, name.len() as int) {
        Some(at) => name.take(at),
        None => name,
    }
}

/// What stands after the last dot of a file name that has a name before it.
pub open spec fn extension_of(name: Seq<u8>) -> Option<Seq<u8>> {
    match dot_position(name, name.len() as int) {
        Some(at) => Some(name.skip(at + 1)),
        None => None,
    }
}

/// `byte` with an ASCII capital letter replaced by its small letter.
pub open spec fn lower_byte(byte: u8) -> u8 {
    if 65 <= byte <= 90 {
        (byte + 32) as u8
    } else {
        byte
    }
}

/// `bytes` with the ASCII capital letters replaced by small letters.
pub open spec fn lower_bytes(bytes: Seq<u8>) -> Seq<u8> {
    Seq::new(bytes.len(), |i: int| lower_byte(bytes[i]))
}

impl Route {
    /// Whether the parts are parts: not empty, without separators, and `.` only
    /// at the start of a relative path.
    pub open spec fn wf(self) -> bool {
        forall|i: int|
            0 <= i < self.parts.len() ==> {
                &&& #[trigger] self.parts[i].len() > 0
                &&& !self.parts[i].contains(separator())
                &&& self.parts[i] == dot() ==> i == 0 && !self.absolute
            }
    }

    /// The shortest bytes that write a path with this root and these parts.
    pub open spec fn bytes(self) -> Seq<u8> {
        if self.absolute {
            seq![separator()] + joined(self.parts)
        } else {
            joined(self.parts)
        }
    }

    /// Whether there is neither a root nor a part.
    pub open spec fn is_empty(self) -> bool {
        !self.absolute && self.parts.len() == 0
    }

    /// The last part, if it is a name.
    pub open spec fn file_name(self) -> Option<Seq<u8>> {
        if self.parts.len() > 0 && self.parts.last() != dot() && self.parts.last() != dot_dot() {
            Some(self.parts.last())
        } else {
            None
        }
    }

    /// Whether the parts of `base` start this path.
    pub open spec fn starts_with(self, base: Route) -> bool {
        &&& base.absolute ==> self.absolute
        &&& self.absolute && !base.absolute ==> base.parts.len() == 0
        &&& base.parts.len() <= self.parts.len()
        &&& self.parts.take(base.parts.len() as int) == base.parts
    }

    /// What follows `base`.
    pub open spec fn behind(self, base: Route) -> Route {
        Route {
            absolute: self.absolute && !base.absolute,
            parts: self.parts.skip(base.parts.len() as int),
        }
    }

    /// `other` seen from here.
    pub open spec fn join(self, other: Route) -> Route {
        if other.absolute || self.is_empty() {
            other
        } else if other.parts.len() > 0 && other.parts[0] == dot() {
            Route { absolute: self.absolute, parts: self.parts + other.parts.skip(1) }
        } else {
            Route { absolute: self.absolute, parts: self.parts + other.parts }
        }
    }
}

impl PathView {
    /// What the path names. Two paths are the same if they name the same.
    pub open spec fn route(self) -> Route {
        Route {
            absolute: self.bytes.len() > 0 && self.bytes[0] == separator(),
            parts: kept(segments(self.bytes)),
        }
    }

    /// The path as text.
    pub open spec fn shown(self) -> Seq<char> {
        lossy_text(self.bytes)
    }

    /// The path without its last part, and without what carries no meaning at
    /// its end.
    pub open spec fn parent(self) -> Option<PathView> {
        let end = trimmed_end(self.bytes);
        if end.len() == 0 || end.last() == separator() {
            None
        } else {
            Some(written(trimmed_end(end.take(last_start(end)))))
        }
    }

    /// The last part, if it is a name.
    pub open spec fn file_name(self) -> Option<Seq<u8>> {
        self.route().file_name()
    }

    /// The last part as text, if it is a name and valid UTF-8.
    pub open spec fn file_name_text(self) -> Option<Seq<char>> {
        match self.file_name() {
            Some(name) => utf8_text(name),
            None => None,
        }
    }

    /// The stem of the file name as text.
    pub open spec fn stem_text(self) -> Option<Seq<char>> {
        match self.file_name() {
            Some(name) => utf8_text(stem_of(name)),
            None => None,
        }
    }

    /// The extension of the file name.
    pub open spec fn extension(self) -> Option<Seq<u8>> {
        match self.file_name() {
            Some(name) => extension_of(name),
            None => None,
        }
    }

    /// The extension of the file name as text.
    pub open spec fn extension_text(self) -> Option<Seq<char>> {
        match self.extension() {
            Some(extension) => utf8_text(extension),
            None => None,
        }
    }

    /// Whether the file name has the extension `m4a`, in any case.
    pub open spec fn is_m4a(self) -> bool {
        match self.extension() {
            Some(extension) => lower_bytes(extension) == encode_utf8("m4a"@),
            None => false,
        }
    }

    /// Whether the parts of `base` start this path.
    pub open spec fn starts_with(self, base: PathView) -> bool {
        self.route().starts_with(base.route())
    }

    /// What follows `base` in this path, as it is written there.
    pub open spec fn strip_prefix(self, base: PathView) -> Option<PathView> {
        if !self.starts_with(base) {
            None
        } else if base.bytes.len() == 0 {
            Some(written(trimmed_end(self.bytes)))
        } else {
            Some(
                written(
                    tail(
                        self.bytes,
                        self.route().parts.len() - base.route().parts.len(),
                    ),
                ),
            )
        }
    }

    /// Whether the path is the empty one.
    pub open spec fn is_empty(self) -> bool {
        self.bytes.len() == 0
    }

    /// `other` seen from this path: behind a separator, unless there is one.
    pub open spec fn join(self, other: PathView) -> PathView {
        if other.route().absolute || self.bytes.len() == 0 {
            other
        } else if self.bytes.last() == separator() {
            written(self.bytes + other.bytes)
        } else {
            written(self.bytes.push(separator()) + other.bytes)
        }
    }

    /// The path with the extension of its file name replaced or added.
    pub open spec fn with_extension(self, extension: Seq<u8>) -> PathView {
        let end = trimmed_end(self.bytes);
        match self.file_name() {
            Some(name) => written(
                end.take(last_start(end)) + (stem_of(name).push(46u8) + extension),
            ),
            None => self,
        }
    }

    /// The path with its file name replaced or added.
    pub open spec fn with_file_name(self, name: Seq<u8>) -> PathView {
        let folder = if self.file_name() is Some {
            match self.parent() {
                Some(parent) => parent,
                None => self,
            }
        } else {
            self
        };
        folder.join(written(name))
    }
}

/// What the paths of a list name.
pub open spec fn routes(paths: Seq<PathView>) -> Seq<Route> {
    Seq::new(paths.len(), |i: int| paths[i].route())
}

/// Whether a path, however it is written, is in a list.
pub open spec fn holds(paths: Seq<PathView>, path: PathView) -> bool {
    routes(paths).contains(path.route())
}

// ---------------------------------------------------------------------------
// Laws of paths
// ---------------------------------------------------------------------------

pub(crate) proof fn lemma_segments_not_empty(bytes: Seq<u8>)
    ensures
        segments(bytes).len() > 0,
        forall|i: int|
            0 <= i < segments(bytes).len() ==> !(#[trigger] segments(bytes)[i]).contains(
                separator(),
            ),
    decreases bytes.len(),
{
    if bytes.len() > 0 {
        lemma_segments_not_empty(bytes.drop_last());
        let before = segments(bytes.drop_last());
        let after = segments(bytes);
        if bytes.last() != separator() {
            assert forall|i: int| 0 <= i < after.len() implies !(#[trigger] after[i]).contains(
                separator(),
            ) by {
                if i == after.len() - 1 {
                    let grown = before.last().push(bytes.last());
                    assert(!before[before.len() - 1].contains(separator()));
                    if grown.contains(separator()) {
                        let k = choose|k: int| 0 <= k < grown.len() && grown[k] == separator();
                        assert(before.last()[k] == separator());
                    }
                } else {
                    assert(after[i] == before[i]);
                }
            }
        } else {
            assert forall|i: int| 0 <= i < after.len() implies !(#[trigger] after[i]).contains(
                separator(),
            ) by {
                if i < before.len() {
                    assert(after[i] == before[i]);
                }
            }
        }
    }
}

pub(crate) proof fn lemma_segments_of_part(part: Seq<u8>)
    requires
        !part.contains(separator()),
    ensures
        segments(part) == seq![part],
    decreases part.len(),
{
    if part.len() == 0 {
        assert(part =~= Seq::empty());
    } else {
        assert(part[part.len() - 1] == part.last());
        assert forall|i: int| 0 <= i < part.drop_last().len() implies part.drop_last()[i]
            != separator() by {
            assert(part[i] == part.drop_last()[i]);
        }
        lemma_segments_of_part(part.drop_last());
        assert(seq![part.drop_last()].drop_last() =~= Seq::empty());
        assert(part.drop_last().push(part.last()) =~= part);
        assert(segments(part) =~= seq![part]);
    }
}

pub(crate) proof fn lemma_segments_concat(left: Seq<u8>, right: Seq<u8>)
    ensures
        segments(left.push(separator()) + right) == segments(left) + segments(right),
    decreases right.len(),
{
    let whole = left.push(separator()) + right;
    lemma_segments_not_empty(left);
    lemma_segments_not_empty(right);
    if right.len() == 0 {
        assert(whole =~= left.push(separator()));
        assert(whole.drop_last() =~= left);
        assert(segments(whole) =~= segments(left) + segments(right));
    } else {
        lemma_segments_concat(left, right.drop_last());
        lemma_segments_not_empty(right.drop_last());
        assert(whole.drop_last() =~= left.push(separator()) + right.drop_last());
        let l = segments(left);
        let r = segments(right.drop_last());
        assert((l + r).drop_last() =~= l + r.drop_last());
        assert((l + r).last() == r.last());
        assert(segments(whole) =~= l + segments(right));
    }
}

proof fn lemma_segments_of_joined(parts: Seq<Seq<u8>>)
    requires
        parts.len() > 0,
        forall|i: int|
            0 <= i < parts.len() ==> !(#[trigger] parts[i]).contains(separator()),
    ensures
        segments(joined(parts)) == parts,
    decreases parts.len(),
{
    if parts.len() == 1 {
        lemma_segments_of_part(parts[0]);
        assert(parts =~= seq![parts[0]]);
    } else {
        assert forall|i: int| 0 <= i < parts.drop_last().len() implies !(
        #[trigger] parts.drop_last()[i]).contains(separator()) by {
            assert(parts[i] == parts.drop_last()[i]);
        }
        lemma_segments_of_joined(parts.drop_last());
        assert(parts[parts.len() - 1] == parts.last());
        lemma_segments_of_part(parts.last());
        lemma_segments_concat(joined(parts.drop_last()), parts.last());
        assert(parts =~= parts.drop_last() + seq![parts.last()]);
    }
}

proof fn lemma_kept_all(list: Seq<Seq<u8>>)
    requires
        forall|i: int| 0 <= i < list.len() ==> is_kept(#[trigger] list[i], i),
    ensures
        kept(list) == list,
    decreases list.len(),
{
    if list.len() > 0 {
        assert forall|i: int| 0 <= i < list.drop_last().len() implies is_kept(
            #[trigger] list.drop_last()[i],
            i,
        ) by {
            assert(list[i] == list.drop_last()[i]);
        }
        lemma_kept_all(list.drop_last());
        assert(is_kept(list[list.len() - 1], list.len() - 1));
        assert(list.drop_last().push(list.last()) =~= list);
    } else {
        assert(list =~= Seq::empty());
    }
}

proof fn lemma_kept_behind_root(list: Seq<Seq<u8>>)
    requires
        forall|i: int| 0 <= i < list.len() ==> is_kept(#[trigger] list[i], i + 1),
    ensures
        kept(seq![Seq::<u8>::empty()] + list) == list,
    decreases list.len(),
{
    let whole = seq![Seq::<u8>::empty()] + list;
    if list.len() > 0 {
        assert forall|i: int| 0 <= i < list.drop_last().len() implies is_kept(
            #[trigger] list.drop_last()[i],
            i + 1,
        ) by {
            assert(list[i] == list.drop_last()[i]);
        }
        lemma_kept_behind_root(list.drop_last());
        assert(whole.drop_last() =~= seq![Seq::<u8>::empty()] + list.drop_last());
        assert(is_kept(list[list.len() - 1], list.len() as int));
        assert(whole.last() == list.last());
        assert(list.drop_last().push(list.last()) =~= list);
    } else {
        assert(whole =~= seq![Seq::<u8>::empty()]);
        assert(whole.drop_last() =~= Seq::empty());
        assert(kept(whole.drop_last()) =~= Seq::empty());
        assert(list =~= Seq::empty());
    }
}

/// The bytes that write a root and parts name them.
pub proof fn law_path_round_trip(path: Route)
    requires
        path.wf(),
    ensures
        written(path.bytes()).route() == path,
{
    let parts = path.parts;
    assert forall|i: int| 0 <= i < parts.len() implies !(#[trigger] parts[i]).contains(
        separator(),
    ) by {}
    if path.absolute {
        let bytes = path.bytes();
        assert(bytes[0] == separator());
        assert(bytes =~= Seq::<u8>::empty().push(separator()) + joined(parts));
        lemma_segments_concat(Seq::empty(), joined(parts));
        if parts.len() > 0 {
            lemma_segments_of_joined(parts);
            assert forall|i: int| 0 <= i < parts.len() implies is_kept(
                #[trigger] parts[i],
                i + 1,
            ) by {}
            lemma_kept_behind_root(parts);
        } else {
            let both = seq![Seq::<u8>::empty()] + seq![Seq::<u8>::empty()];
            assert(segments(bytes) =~= both);
            assert(both.drop_last() =~= seq![Seq::<u8>::empty()]);
            assert(both.drop_last().drop_last() =~= Seq::empty());
            assert(kept(both.drop_last().drop_last()) =~= Seq::empty());
            assert(kept(both.drop_last()) =~= Seq::empty());
            assert(kept(both) =~= parts);
        }
    } else if parts.len() > 0 {
        lemma_segments_of_joined(parts);
        lemma_kept_all(parts);
        lemma_joined_first(parts);
        assert(parts[0][0] != separator()) by {
            if parts[0][0] == separator() {
                assert(parts[0].contains(separator()));
            }
        }
    } else {
        let only = seq![Seq::<u8>::empty()];
        assert(path.bytes() =~= Seq::empty());
        assert(segments(path.bytes()) =~= only);
        assert(only.drop_last() =~= Seq::empty());
        assert(kept(only.drop_last()) =~= Seq::empty());
        assert(kept(only) =~= parts);
    }
    assert(written(path.bytes()).route() =~= path);
}

proof fn lemma_joined_first(parts: Seq<Seq<u8>>)
    requires
        parts.len() > 0,
        parts[0].len() > 0,
    ensures
        joined(parts).len() > 0,
        joined(parts)[0] == parts[0][0],
    decreases parts.len(),
{
    if parts.len() > 1 {
        assert(parts.drop_last()[0] == parts[0]);
        lemma_joined_first(parts.drop_last());
    }
}

proof fn lemma_kept_segments(list: Seq<Seq<u8>>)
    requires
        forall|i: int| 0 <= i < list.len() ==> !(#[trigger] list[i]).contains(separator()),
    ensures
        forall|i: int|
            0 <= i < kept(list).len() ==> {
                &&& #[trigger] kept(list)[i].len() > 0
                &&& !kept(list)[i].contains(separator())
                &&& kept(list)[i] == dot() ==> i == 0 && list[0] == dot()
            },
    decreases list.len(),
{
    if list.len() > 0 {
        let shorter = list.drop_last();
        assert forall|i: int| 0 <= i < shorter.len() implies !(#[trigger] shorter[i]).contains(
            separator(),
        ) by {
            assert(list[i] == shorter[i]);
        }
        lemma_kept_segments(shorter);
        let last = list[list.len() - 1];
        assert(!last.contains(separator()));
        assert forall|i: int| 0 <= i < kept(list).len() implies {
            &&& #[trigger] kept(list)[i].len() > 0
            &&& !kept(list)[i].contains(separator())
            &&& kept(list)[i] == dot() ==> i == 0 && list[0] == dot()
        } by {
            if i < kept(shorter).len() {
                assert(kept(list)[i] == kept(shorter)[i]);
                if kept(shorter)[i] == dot() {
                    assert(shorter[0] == dot());
                    assert(shorter.len() > 0) by {
                        if shorter.len() == 0 {
                            assert(kept(shorter).len() == 0);
                        }
                    }
                    assert(list[0] == shorter[0]);
                }
            } else if kept(list)[i] == dot() {
                assert(list.len() == 1);
                assert(shorter.len() == 0);
            }
        }
    }
}

proof fn lemma_first_segment(bytes: Seq<u8>)
    requires
        bytes.len() > 0,
        bytes[0] == separator(),
    ensures
        segments(bytes)[0].len() == 0,
        segments(bytes).len() > 1,
    decreases bytes.len(),
{
    if bytes.len() == 1 {
        assert(bytes.drop_last() =~= Seq::empty());
        assert(segments(bytes.drop_last()) =~= seq![Seq::<u8>::empty()]);
    } else {
        lemma_first_segment(bytes.drop_last());
    }
}

/// A name without separators, longer than the names of the folder and the one
/// above it, is a path of one part.
pub(crate) proof fn lemma_single_part(name: Seq<u8>)
    requires
        name.len() > 2,
        !name.contains(separator()),
    ensures
        written(name).route() == (Route { absolute: false, parts: seq![name] }),
{
    lemma_segments_of_part(name);
    assert(name[0] != separator()) by {
        assert(name.contains(name[0]));
    }
    let list = segments(name);
    assert(list.drop_last() =~= Seq::empty());
    assert(dot().len() == 1);
    assert(kept(list.drop_last()) =~= Seq::empty());
    assert(kept(list) =~= seq![name]);
}

/// However a path is written, it names proper parts.
pub proof fn law_route_wf(path: PathView)
    ensures
        path.route().wf(),
{
    let bytes = path.bytes;
    lemma_segments_not_empty(bytes);
    lemma_kept_segments(segments(bytes));
    if bytes.len() > 0 && bytes[0] == separator() {
        lemma_first_segment(bytes);
    }
}

/// The segments behind the first one that are parts.
spec fn inner(list: Seq<Seq<u8>>) -> Seq<Seq<u8>>
    decreases list.len(),
{
    if list.len() == 0 {
        Seq::empty()
    } else if is_kept(list.last(), 1) {
        inner(list.drop_last()).push(list.last())
    } else {
        inner(list.drop_last())
    }
}

proof fn lemma_kept_concat(left: Seq<Seq<u8>>, right: Seq<Seq<u8>>)
    requires
        left.len() > 0,
    ensures
        kept(left + right) == kept(left) + inner(right),
    decreases right.len(),
{
    if right.len() == 0 {
        assert(left + right =~= left);
        assert(kept(left) + inner(right) =~= kept(left));
    } else {
        lemma_kept_concat(left, right.drop_last());
        assert((left + right).drop_last() =~= left + right.drop_last());
        assert(kept(left + right) =~= kept(left) + inner(right));
    }
}

proof fn lemma_kept_inner(list: Seq<Seq<u8>>)
    requires
        list.len() > 0,
    ensures
        list[0] != dot() ==> inner(list) == kept(list),
        list[0] == dot() ==> kept(list).len() > 0 && kept(list)[0] == dot() && inner(list)
            == kept(list).skip(1),
    decreases list.len(),
{
    let shorter = list.drop_last();
    if list.len() == 1 {
        assert(shorter =~= Seq::empty());
        assert(kept(shorter) =~= Seq::empty());
        assert(inner(shorter) =~= Seq::empty());
        if list[0] == dot() {
            assert(kept(list) =~= seq![dot()]);
            assert(kept(list).skip(1) =~= Seq::empty());
        }
    } else {
        lemma_kept_inner(shorter);
        assert(shorter[0] == list[0]);
        if list[0] == dot() {
            assert(inner(list) =~= kept(list).skip(1));
        }
    }
}

/// What a separator adds at the end of a path carries no meaning.
proof fn lemma_separator_at_end(bytes: Seq<u8>)
    ensures
        kept(segments(bytes.push(separator()))) == kept(segments(bytes)),
{
    let longer = bytes.push(separator());
    assert(longer.drop_last() =~= bytes);
    assert(segments(longer).drop_last() =~= segments(bytes));
}

/// What is left out at the end of a path carries no meaning.
pub proof fn law_trimming_keeps_the_route(bytes: Seq<u8>)
    ensures
        written(trimmed_end(bytes)).route() == written(bytes).route(),
        trimmed_end(bytes).len() <= bytes.len(),
        trimmed_end(bytes) == bytes.take(trimmed_end(bytes).len() as int),
        trimmed_end(bytes).len() >= 2 ==> trimmed_end(bytes).last() != separator(),
        trimmed_end(trimmed_end(bytes)) == trimmed_end(bytes),
    decreases bytes.len(),
{
    let shorter = bytes.drop_last();
    if bytes.len() >= 2 && bytes.last() == separator() {
        law_trimming_keeps_the_route(shorter);
        lemma_separator_at_end(shorter);
        assert(shorter.push(separator()) =~= bytes);
        assert(bytes.take(trimmed_end(bytes).len() as int) =~= shorter.take(
            trimmed_end(bytes).len() as int,
        ));
    } else if bytes.len() >= 2 && bytes.last() == 46u8 && bytes[bytes.len() - 2] == separator() {
        law_trimming_keeps_the_route(shorter);
        assert(bytes.take(trimmed_end(bytes).len() as int) =~= shorter.take(
            trimmed_end(bytes).len() as int,
        ));
        let before = shorter.drop_last();
        assert(shorter =~= before.push(separator()));
        let part = seq![46u8];
        assert(bytes =~= before.push(separator()) + part);
        lemma_segments_concat(before, part);
        lemma_segments_of_part(part);
        lemma_segments_not_empty(before);
        lemma_kept_concat(segments(before), seq![part]);
        assert(part =~= dot());
        assert(inner(seq![part].drop_last()) =~= Seq::empty());
        assert(inner(seq![part]) =~= Seq::empty());
        lemma_separator_at_end(before);
        assert(kept(segments(bytes)) =~= kept(segments(shorter)));
    } else {
        assert(bytes.take(bytes.len() as int) =~= bytes);
    }
}

proof fn lemma_last_start(bytes: Seq<u8>)
    ensures
        0 <= last_start(bytes) <= bytes.len(),
        last_start(bytes) > 0 ==> bytes[last_start(bytes) - 1] == separator(),
        forall|i: int| last_start(bytes) <= i < bytes.len() ==> bytes[i] != separator(),
    decreases bytes.len(),
{
    if bytes.len() > 0 && bytes.last() != separator() {
        let shorter = bytes.drop_last();
        lemma_last_start(shorter);
        assert forall|i: int| last_start(bytes) <= i < bytes.len() implies bytes[i]
            != separator() by {
            if i < shorter.len() {
                assert(shorter[i] == bytes[i]);
            }
        }
    }
}

/// A part behind what is empty or ends with a separator is the last part.
proof fn lemma_part_added(head: Seq<u8>, part: Seq<u8>)
    requires
        head.len() == 0 || head.last() == separator(),
        part.len() > 0,
        !part.contains(separator()),
        part != dot() || head.len() == 0,
    ensures
        written(head + part).route() == (Route {
            absolute: written(head).route().absolute,
            parts: written(head).route().parts.push(part),
        }),
{
    let whole = head + part;
    lemma_segments_of_part(part);
    assert(part[0] != separator()) by {
        assert(part.contains(part[0]));
    }
    if head.len() == 0 {
        assert(whole =~= part);
        assert(head =~= Seq::empty());
        let none = seq![Seq::<u8>::empty()];
        assert(segments(head) =~= none);
        assert(none.drop_last() =~= Seq::empty());
        assert(kept(none.drop_last()) =~= Seq::empty());
        assert(kept(none) =~= Seq::empty());
        assert(seq![part].drop_last() =~= Seq::empty());
        assert(kept(segments(whole)) =~= seq![part]);
        assert(kept(segments(head)).push(part) =~= seq![part]);
    } else {
        let left = head.drop_last();
        assert(left.push(separator()) =~= head);
        lemma_segments_concat(left, part);
        lemma_segments_not_empty(left);
        lemma_kept_concat(segments(left), seq![part]);
        assert(inner(seq![part].drop_last()) =~= Seq::empty());
        assert(inner(seq![part]) =~= seq![part]);
        lemma_separator_at_end(left);
        assert(kept(segments(whole)) =~= kept(segments(head)).push(part));
    }
}

/// The last part of a path that ends with one.
proof fn lemma_last_part(bytes: Seq<u8>)
    requires
        trimmed_end(bytes) == bytes,
        bytes.len() > 0,
        bytes.last() != separator(),
    ensures
        ({
            let start = last_start(bytes);
            let head = written(bytes.take(start)).route();
            &&& 0 <= start < bytes.len()
            &&& start > 0 ==> bytes[start - 1] == separator()
            &&& written(bytes).route().absolute == head.absolute
            &&& written(bytes).route().parts == head.parts.push(bytes.skip(start))
        }),
{
    lemma_last_start(bytes);
    let start = last_start(bytes);
    assert(start < bytes.len()) by {
        assert(bytes[bytes.len() - 1] != separator());
        if start == bytes.len() {
            assert(bytes[start - 1] == separator());
        }
    }
    let head = bytes.take(start);
    let part = bytes.skip(start);
    assert(head + part =~= bytes);
    assert(!part.contains(separator())) by {
        if part.contains(separator()) {
            let i = choose|i: int| 0 <= i < part.len() && part[i] == separator();
            assert(bytes[start + i] == separator());
        }
    }
    if part == dot() && start > 0 {
        assert(part.len() == 1);
        assert(part[0] == 46u8);
        assert(bytes.last() == 46u8 && bytes[bytes.len() - 2] == separator());
        lemma_trimmed_shorter(bytes);
    }
    lemma_part_added(head, part);
}

proof fn lemma_trimmed_shorter(bytes: Seq<u8>)
    requires
        bytes.len() >= 2,
        bytes.last() == separator() || (bytes.last() == 46u8 && bytes[bytes.len() - 2]
            == separator()),
    ensures
        trimmed_end(bytes).len() < bytes.len(),
{
    law_trimming_keeps_the_route(bytes.drop_last());
}

/// Whether a path has parts shows at its end.
proof fn lemma_has_parts(path: PathView)
    ensures
        ({
            let end = trimmed_end(path.bytes);
            (end.len() == 0 || end.last() == separator()) <==> path.route().parts.len() == 0
        }),
{
    law_trimming_keeps_the_route(path.bytes);
    let end = trimmed_end(path.bytes);
    let none = seq![Seq::<u8>::empty()];
    assert(none.drop_last() =~= Seq::empty());
    assert(kept(none.drop_last()) =~= Seq::empty());
    assert(kept(none) =~= Seq::empty());
    if end.len() == 0 {
        assert(end =~= Seq::empty());
        assert(segments(end) =~= none);
    } else if end.last() == separator() {
        assert(end =~= Seq::<u8>::empty().push(separator()));
        lemma_separator_at_end(Seq::empty());
        assert(segments(Seq::<u8>::empty()) =~= none);
    } else {
        lemma_last_part(end);
    }
}

/// Taking the folder of a path leaves out its last part.
pub proof fn law_parent_leaves_out_the_last_part(path: PathView)
    ensures
        match path.parent() {
            Some(parent) => path.route().parts.len() > 0 && parent.route() == (Route {
                absolute: path.route().absolute,
                parts: path.route().parts.drop_last(),
            }),
            None => path.route().parts.len() == 0,
        },
{
    lemma_has_parts(path);
    law_trimming_keeps_the_route(path.bytes);
    if path.parent() is Some {
        let end = trimmed_end(path.bytes);
        lemma_last_part(end);
        let head = end.take(last_start(end));
        law_trimming_keeps_the_route(head);
        let parts = written(head).route().parts;
        assert(parts.push(end.skip(last_start(end))).drop_last() =~= parts);
    }
}

/// Joining paths joins what they name.
pub proof fn law_join_joins_routes(base: PathView, other: PathView)
    ensures
        base.join(other).route() == base.route().join(other.route()),
        base.is_empty() == base.route().is_empty(),
{
    lemma_empty_route(base);
    if !other.route().absolute && base.bytes.len() > 0 {
        let left = if base.bytes.last() == separator() {
            base.bytes.drop_last()
        } else {
            base.bytes
        };
        let whole = left.push(separator()) + other.bytes;
        if base.bytes.last() == separator() {
            assert(left.push(separator()) =~= base.bytes);
            lemma_separator_at_end(left);
        }
        assert(base.join(other).bytes =~= whole);
        lemma_segments_concat(left, other.bytes);
        lemma_segments_not_empty(left);
        lemma_segments_not_empty(other.bytes);
        let list = segments(other.bytes);
        lemma_kept_concat(segments(left), list);
        lemma_kept_inner(list);
        law_route_wf(other);
        lemma_kept_first_dot(other);
        assert(base.join(other).route() =~= base.route().join(other.route()));
    }
}

proof fn lemma_kept_first_dot(path: PathView)
    ensures
        path.route().parts.len() > 0 && path.route().parts[0] == dot() ==> segments(
            path.bytes,
        )[0] == dot(),
{
    lemma_segments_not_empty(path.bytes);
    lemma_kept_segments(segments(path.bytes));
    if path.route().parts.len() > 0 && path.route().parts[0] == dot() {
        assert(kept(segments(path.bytes))[0] == dot());
    }
}

proof fn lemma_empty_route(path: PathView)
    ensures
        path.is_empty() == path.route().is_empty(),
{
    lemma_has_parts(path);
    law_trimming_keeps_the_route(path.bytes);
    let end = trimmed_end(path.bytes);
    if path.bytes.len() > 0 {
        lemma_trimmed_not_empty(path.bytes);
        if path.route().parts.len() == 0 {
            assert(end.len() == 1);
            assert(end[0] == separator());
            assert(path.bytes.take(1)[0] == path.bytes[0]);
        }
    }
}

proof fn lemma_trimmed_not_empty(bytes: Seq<u8>)
    requires
        bytes.len() > 0,
    ensures
        trimmed_end(bytes).len() > 0,
    decreases bytes.len(),
{
    if bytes.len() >= 2 {
        lemma_trimmed_not_empty(bytes.drop_last());
    }
}

/// A path whose last part is replaced, where the new one is a proper part.
pub(crate) proof fn lemma_last_part_replaced(path: PathView, part: Seq<u8>)
    requires
        path.route().parts.len() > 0,
        part.len() > 0,
        !part.contains(separator()),
        part != dot(),
    ensures
        ({
            let end = trimmed_end(path.bytes);
            written(end.take(last_start(end)) + part).route() == (Route {
                absolute: path.route().absolute,
                parts: path.route().parts.drop_last().push(part),
            })
        }),
{
    lemma_has_parts(path);
    law_trimming_keeps_the_route(path.bytes);
    let end = trimmed_end(path.bytes);
    lemma_last_part(end);
    let head = end.take(last_start(end));
    let parts = written(head).route().parts;
    assert(parts.push(end.skip(last_start(end))).drop_last() =~= parts);
    lemma_part_added(head, part);
}

/// The last parts of a path name the last of what it names.
proof fn lemma_tail(bytes: Seq<u8>, count: int)
    requires
        0 < count <= written(bytes).route().parts.len(),
    ensures
        ({
            let start = tail_start(bytes, count);
            let end = trimmed_end(bytes);
            let all = written(bytes).route().parts;
            &&& 0 <= start < end.len()
            &&& start > 0 ==> end[start - 1] == separator()
            &&& end[start] != separator()
            &&& written(end.take(start)).route().parts == all.take(all.len() - count)
        }),
    decreases count,
{
    let end = trimmed_end(bytes);
    let all = written(bytes).route().parts;
    lemma_has_parts(written(bytes));
    law_trimming_keeps_the_route(bytes);
    lemma_last_part(end);
    lemma_last_start(end);
    let start = last_start(end);
    let head = end.take(start);
    let before = written(head).route().parts;
    assert(before =~= all.take(all.len() - 1));
    if count > 1 {
        lemma_tail(head, count - 1);
        law_trimming_keeps_the_route(head);
        let at = tail_start(bytes, count);
        let shorter = trimmed_end(head);
        assert(shorter == head.take(shorter.len() as int));
        assert(shorter[at] == head[at]);
        assert(head[at] == end[at]);
        if at > 0 {
            assert(shorter[at - 1] == head[at - 1]);
            assert(head[at - 1] == end[at - 1]);
        }
        assert(end.take(at) =~= shorter.take(at));
        assert(before.take(before.len() - (count - 1)) =~= all.take(all.len() - count));
    }
}

/// What follows a prefix is what the path names behind it.
pub proof fn law_strip_leaves_what_follows(path: PathView, base: PathView)
    requires
        path.starts_with(base),
    ensures
        path.strip_prefix(base) matches Some(rest) && rest.route() == path.route().behind(
            base.route(),
        ),
{
    lemma_empty_route(base);
    let all = path.route().parts;
    let given = base.route().parts;
    let count = all.len() - given.len();
    if base.bytes.len() == 0 {
        law_trimming_keeps_the_route(path.bytes);
        assert(all.skip(0) =~= all);
    } else if count == 0 {
        let rest = Seq::<u8>::empty();
        lemma_has_parts(written(rest));
        assert(trimmed_end(rest) =~= rest);
        assert(all.skip(given.len() as int) =~= written(rest).route().parts);
        lemma_base_decides(path, base);
    } else {
        lemma_tail(path.bytes, count);
        law_trimming_keeps_the_route(path.bytes);
        lemma_base_decides(path, base);
        let end = trimmed_end(path.bytes);
        let start = tail_start(path.bytes, count);
        let head = end.take(start);
        let rest = end.skip(start);
        assert(rest[0] == end[start]);
        assert(head + rest =~= end);
        lemma_segments_not_empty(rest);
        let list = segments(rest);
        if start == 0 {
            assert(head =~= Seq::empty());
            lemma_has_parts(written(head));
            assert(trimmed_end(head) =~= head);
            assert(given.len() == 0);
            assert(rest =~= end);
            assert(path.bytes.take(end.len() as int)[0] == path.bytes[0]);
            assert(all.skip(0) =~= all);
        } else {
            let left = head.drop_last();
            assert(left.push(separator()) =~= head);
            assert(left.push(separator()) + rest =~= end);
            lemma_segments_concat(left, rest);
            lemma_segments_not_empty(left);
            lemma_kept_concat(segments(left), list);
            lemma_separator_at_end(left);
            lemma_kept_inner(list);
            let front = written(head).route().parts;
            assert(all == front + inner(list));
            assert(inner(list) =~= all.skip(given.len() as int));
            if list[0] == dot() {
                lemma_tail_not_dot(path.bytes, count);
            }
        }
    }
}

/// Which of two paths starts at the root, where one starts with the other.
proof fn lemma_base_decides(path: PathView, base: PathView)
    requires
        path.starts_with(base),
        base.bytes.len() > 0,
    ensures
        path.route().absolute == base.route().absolute,
{
    lemma_empty_route(base);
}

/// The last parts of a path do not start with `.` unless they are all of it.
proof fn lemma_tail_not_dot(bytes: Seq<u8>, count: int)
    requires
        0 < count <= written(bytes).route().parts.len(),
        tail_start(bytes, count) > 0,
    ensures
        segments(tail(bytes, count))[0] != dot(),
    decreases count,
{
    let end = trimmed_end(bytes);
    lemma_tail(bytes, count);
    lemma_has_parts(written(bytes));
    law_trimming_keeps_the_route(bytes);
    lemma_last_part(end);
    lemma_last_start(end);
    let start = last_start(end);
    let head = end.take(start);
    let at = tail_start(bytes, count);
    let rest = end.skip(at);
    if count == 1 {
        assert(!rest.contains(separator())) by {
            if rest.contains(separator()) {
                let i = choose|i: int| 0 <= i < rest.len() && rest[i] == separator();
                assert(end[at + i] == separator());
            }
        }
        lemma_segments_of_part(rest);
        if rest == dot() {
            assert(rest.len() == 1 && rest[0] == 46u8);
            lemma_trimmed_shorter(end);
        }
    } else {
        let all = written(bytes).route().parts;
        assert(written(head).route().parts =~= all.drop_last());
        lemma_tail_not_dot(head, count - 1);
        lemma_tail(head, count - 1);
        law_trimming_keeps_the_route(head);
        let shorter = trimmed_end(head);
        let first = shorter.skip(at);
        assert(shorter == head.take(shorter.len() as int));
        assert(first == tail(head, count - 1));
        // What follows `first` starts with a separator.
        let more = end.skip(shorter.len() as int + 1);
        assert(shorter.len() < start) by {
            if shorter.len() == head.len() {
                assert(head.last() == separator());
                assert(head.len() == 1);
                assert(shorter =~= head);
                lemma_has_parts(written(head));
            }
        }
        assert(head[shorter.len() as int] == separator()) by {
            lemma_trimmed_before_separator(head);
        }
        assert(first.push(separator()) + more =~= rest);
        lemma_segments_concat(first, more);
        lemma_segments_not_empty(first);
        assert(segments(rest)[0] == segments(first)[0]);
    }
}

/// What is left out at the end of a path with parts starts with a separator.
proof fn lemma_trimmed_before_separator(bytes: Seq<u8>)
    requires
        trimmed_end(bytes).len() < bytes.len(),
        trimmed_end(bytes).len() > 0,
        trimmed_end(bytes).last() != separator(),
    ensures
        bytes[trimmed_end(bytes).len() as int] == separator(),
    decreases bytes.len(),
{
    let shorter = bytes.drop_last();
    law_trimming_keeps_the_route(bytes);
    law_trimming_keeps_the_route(shorter);
    if trimmed_end(bytes).len() < shorter.len() {
        lemma_trimmed_before_separator(shorter);
    } else {
        assert(trimmed_end(bytes) =~= shorter);
    }
}

/// A path follows its prefix: joining what follows to the prefix names what the
/// path names.
pub proof fn law_strip_then_join(path: PathView, base: PathView)
    requires
        path.starts_with(base),
    ensures
        path.strip_prefix(base) matches Some(rest) && base.join(rest).route() == path.route(),
{
    law_strip_leaves_what_follows(path, base);
    law_route_wf(path);
    let rest = path.strip_prefix(base).unwrap();
    law_join_joins_routes(base, rest);
    let whole = path.route();
    let given = base.route();
    let following = rest.route();
    assert(given.parts + following.parts =~= whole.parts);
    if !given.is_empty() && following.parts.len() > 0 {
        assert(following.parts[0] == whole.parts[given.parts.len() as int]);
    }
    assert(base.join(rest).route() =~= whole);
}

/// What is joined to a path is found below it, unless it starts at the root.
pub proof fn law_join_starts_with(base: PathView, other: PathView)
    requires
        !other.route().absolute,
    ensures
        base.join(other).starts_with(base),
{
    law_join_joins_routes(base, other);
    let whole = base.join(other).route();
    assert(whole.parts.take(base.route().parts.len() as int) =~= base.route().parts);
}

// ---------------------------------------------------------------------------
// Executable paths
// ---------------------------------------------------------------------------

fn same_bytes(left: &Vec<u8>, right: &Vec<u8>) -> (same: bool)
    ensures
        same == (left@ == right@),
{
    if left.len() != right.len() {
        return false;
    }
    let mut i: usize = 0;
    while i < left.len()
        invariant
            i <= left.len(),
            left@.len() == right@.len(),
            forall|j: int| 0 <= j < i ==> left@[j] == right@[j],
        decreases left.len() - i,
    {
        if left[i] != right[i] {
            return false;
        }
        i += 1;
    }
    assert(left@ =~= right@);
    true
}

fn copy_bytes(bytes: &Vec<u8>, start: usize, end: usize) -> (copy: Vec<u8>)
    requires
        start <= end <= bytes@.len(),
    ensures
        copy@ == bytes@.subrange(start as int, end as int),
{
    let mut copy: Vec<u8> = Vec::new();
    let mut i: usize = start;
    while i < end
        invariant
            start <= i <= end <= bytes@.len(),
            copy@ == bytes@.subrange(start as int, i as int),
        decreases end - i,
    {
        copy.push(bytes[i]);
        i += 1;
    }
    copy
}

fn is_dot(part: &Vec<u8>) -> (is: bool)
    ensures
        is == (part@ == dot()),
{
    let is = part.len() == 1 && part[0] == 46u8;
    assert(is ==> part@ =~= dot());
    is
}

fn is_dot_dot(part: &Vec<u8>) -> (is: bool)
    ensures
        is == (part@ == dot_dot()),
{
    let is = part.len() == 2 && part[0] == 46u8 && part[1] == 46u8;
    assert(is ==> part@ =~= dot_dot());
    is
}

/// Where a path ends without what carries no meaning there.
fn trimmed_len(bytes: &Vec<u8>) -> (len: usize)
    ensures
        len == trimmed_end(bytes@).len(),
        len <= bytes@.len(),
        trimmed_end(bytes@) == bytes@.take(len as int),
{
    let mut len: usize = bytes.len();
    assert(bytes@.take(len as int) =~= bytes@);
    while len >= 2 && (bytes[len - 1] == 47u8 || (bytes[len - 1] == 46u8 && bytes[len - 2]
        == 47u8))
        invariant
            len <= bytes@.len(),
            trimmed_end(bytes@) == trimmed_end(bytes@.take(len as int)),
        decreases len,
    {
        assert(bytes@.take(len as int).drop_last() =~= bytes@.take(len - 1));
        len -= 1;
    }
    len
}

/// Where the bytes behind the last separator before `end` start.
fn start_before(bytes: &Vec<u8>, end: usize) -> (start: usize)
    requires
        end <= bytes@.len(),
    ensures
        start == last_start(bytes@.take(end as int)),
        start <= end,
{
    let mut start: usize = end;
    while start > 0 && bytes[start - 1] != 47u8
        invariant
            start <= end <= bytes@.len(),
            last_start(bytes@.take(end as int)) == last_start(bytes@.take(start as int)),
        decreases start,
    {
        assert(bytes@.take(start as int).drop_last() =~= bytes@.take(start - 1));
        start -= 1;
    }
    start
}

/// The shortest bytes that write a path with this root and these parts.
pub(crate) fn route_bytes(absolute: bool, parts: &Vec<Vec<u8>>) -> (bytes: Vec<u8>)
    ensures
        bytes@ == (Route { absolute, parts: parts.deep_view() }).bytes(),
{
    let ghost all = parts.deep_view();
    let mut bytes: Vec<u8> = Vec::new();
    let mut next: usize = 0;
    if absolute {
        bytes.push(47u8);
    }
    let ghost root = bytes@;
    assert(all.take(0) =~= Seq::empty());
    while next < parts.len()
        invariant
            next <= parts@.len(),
            all == parts.deep_view(),
            bytes@ == root + joined(all.take(next as int)),
        decreases parts.len() - next,
    {
        proof {
            let longer = all.take(next + 1);
            assert(longer.drop_last() =~= all.take(next as int));
            assert(longer.last() == parts@[next as int]@);
            if next == 0 {
                assert(longer[0] == parts@[0]@);
            }
        }
        if next > 0 {
            bytes.push(47u8);
        }
        let mut part = copy_bytes(&parts[next], 0, parts[next].len());
        assert(part@ =~= parts@[next as int]@);
        bytes.append(&mut part);
        assert(bytes@ =~= root + joined(all.take(next + 1)));
        next += 1;
    }
    assert(all.take(all.len() as int) =~= all);
    assert(bytes@ =~= (Route { absolute, parts: all }).bytes());
    bytes
}

/// Whether the parts of `base` start `parts`.
fn begins_with(parts: &Vec<Vec<u8>>, base: &Vec<Vec<u8>>) -> (begins: bool)
    requires
        base@.len() <= parts@.len(),
    ensures
        begins == (parts.deep_view().take(base@.len() as int) == base.deep_view()),
{
    let ghost head = parts.deep_view().take(base@.len() as int);
    let mut i: usize = 0;
    while i < base.len()
        invariant
            i <= base@.len() <= parts@.len(),
            head == parts.deep_view().take(base@.len() as int),
            forall|j: int| 0 <= j < i ==> head[j] == base.deep_view()[j],
        decreases base.len() - i,
    {
        assert(head[i as int] == parts@[i as int]@);
        assert(base.deep_view()[i as int] == base@[i as int]@);
        if !same_bytes(&parts[i], &base[i]) {
            return false;
        }
        i += 1;
    }
    assert(head =~= base.deep_view());
    true
}

/// The position of the last dot of a file name that has a name before it.
fn find_dot(name: &Vec<u8>) -> (position: Option<usize>)
    ensures
        match position {
            Some(at) => {
                &&& dot_position(name@, name@.len() as int) == Some(at as int)
                &&& 0 < at < name@.len()
            },
            None => dot_position(name@, name@.len() as int) is None,
        },
{
    let mut end: usize = name.len();
    while end > 1
        invariant
            end <= name@.len(),
            dot_position(name@, name@.len() as int) == dot_position(name@, end as int),
        decreases end,
    {
        if name[end - 1] == 46u8 {
            return Some(end - 1);
        }
        end -= 1;
    }
    None
}

impl FilePath {
    /// The path that `bytes` write.
    pub fn parse(bytes: &Vec<u8>) -> (path: FilePath)
        ensures
            path@ == written(bytes@),
    {
        let copy = copy_bytes(bytes, 0, bytes.len());
        assert(copy@ =~= bytes@);
        FilePath { bytes: copy }
    }

    /// The path that `text` writes.
    pub fn from_text(text: &str) -> (path: FilePath)
        ensures
            path@ == written(encode_utf8(text@)),
    {
        FilePath { bytes: bytes_of(text) }
    }

    /// The path without parts: the folder from which relative paths are seen.
    pub fn empty() -> (path: FilePath)
        ensures
            path@ == written(Seq::empty()),
    {
        let path = FilePath { bytes: Vec::new() };
        assert(path@.bytes =~= Seq::empty());
        path
    }

    /// The bytes that write the path.
    pub fn to_bytes(&self) -> (bytes: Vec<u8>)
        ensures
            bytes@ == self@.bytes,
    {
        let bytes = copy_bytes(&self.bytes, 0, self.bytes.len());
        assert(bytes@ =~= self@.bytes);
        bytes
    }

    /// The path as text, with U+FFFD for what is not valid UTF-8.
    pub fn display(&self) -> (text: String)
        ensures
            text@ == self@.shown(),
            utf8_text(self@.bytes) matches Some(exact) ==> text@ == exact,
    {
        from_utf8_lossy(&self.bytes)
    }

    /// A copy of the path.
    pub fn copy(&self) -> (copy: FilePath)
        ensures
            copy@ == self@,
    {
        FilePath::parse(&self.bytes)
    }

    /// Whether the path starts at the root.
    pub fn is_absolute(&self) -> (is: bool)
        ensures
            is == self@.route().absolute,
    {
        self.bytes.len() > 0 && self.bytes[0] == 47u8
    }

    /// The parts that the path names.
    pub fn parts(&self) -> (parts: Vec<Vec<u8>>)
        ensures
            parts.deep_view() == self@.route().parts,
    {
        let bytes = &self.bytes;
        let mut list: Vec<Vec<u8>> = Vec::new();
        let mut current: Vec<u8> = Vec::new();
        let mut i: usize = 0;
        assert(bytes@.take(0) =~= Seq::empty());
        assert(segments(bytes@.take(0)) =~= list.deep_view().push(current@));
        while i < bytes.len()
            invariant
                i <= bytes.len(),
                segments(bytes@.take(i as int)) == list.deep_view().push(current@),
            decreases bytes.len() - i,
        {
            let ghost before = list.deep_view().push(current@);
            assert(bytes@.take(i + 1).drop_last() =~= bytes@.take(i as int));
            assert(before.drop_last() =~= list.deep_view());
            let byte = bytes[i];
            if byte == 47u8 {
                list.push(current);
                current = Vec::new();
                assert(list.deep_view() =~= before);
                assert(current@ =~= Seq::empty());
            } else {
                current.push(byte);
            }
            i += 1;
        }
        let ghost last = list.deep_view().push(current@);
        list.push(current);
        assert(list.deep_view() =~= last);
        assert(bytes@.take(bytes@.len() as int) =~= bytes@);
        let ghost all = list.deep_view();
        let mut parts: Vec<Vec<u8>> = Vec::new();
        let mut next: usize = 0;
        assert(all.take(0) =~= Seq::empty());
        assert(parts.deep_view() =~= Seq::empty());
        while next < list.len()
            invariant
                next <= list.len(),
                all == list.deep_view(),
                parts.deep_view() == kept(all.take(next as int)),
            decreases list.len() - next,
        {
            let ghost before = parts.deep_view();
            proof {
                assert(all.take(next + 1).drop_last() =~= all.take(next as int));
                assert(all.take(next + 1).last() == list@[next as int]@);
            }
            if list[next].len() > 0 && (!is_dot(&list[next]) || next == 0) {
                let part = copy_bytes(&list[next], 0, list[next].len());
                assert(part@ =~= list@[next as int]@);
                parts.push(part);
                assert(parts.deep_view() =~= before.push(list@[next as int]@));
            }
            next += 1;
        }
        assert(all.take(all.len() as int) =~= all);
        parts
    }

    /// Whether two paths name the same, however they are written.
    pub fn same(&self, other: &FilePath) -> (same: bool)
        ensures
            same == (self@.route() == other@.route()),
    {
        if same_bytes(&self.bytes, &other.bytes) {
            return true;
        }
        let parts = self.parts();
        let others = other.parts();
        assert(parts.deep_view().len() == parts@.len());
        assert(others.deep_view().len() == others@.len());
        if self.is_absolute() != other.is_absolute() || parts.len() != others.len() {
            return false;
        }
        let same = begins_with(&parts, &others);
        proof {
            assert(parts.deep_view().take(others@.len() as int) =~= parts.deep_view());
            if same {
                assert(self@.route() =~= other@.route());
            }
        }
        same
    }

    /// The path without its last part.
    pub fn parent(&self) -> (parent: Option<FilePath>)
        ensures
            parent.deep_view() == self@.parent(),
    {
        let ghost end = trimmed_end(self@.bytes);
        let len = trimmed_len(&self.bytes);
        if len == 0 || self.bytes[len - 1] == 47u8 {
            return None;
        }
        let start = start_before(&self.bytes, len);
        let head = copy_bytes(&self.bytes, 0, start);
        assert(head@ =~= end.take(last_start(end)));
        let bytes = copy_bytes(&head, 0, trimmed_len(&head));
        assert(bytes@ =~= trimmed_end(head@));
        Some(FilePath { bytes })
    }

    /// The last part, if it is a name.
    pub fn file_name(&self) -> (name: Option<Vec<u8>>)
        ensures
            name.deep_view() == self@.file_name(),
    {
        let parts = self.parts();
        let ghost all = parts.deep_view();
        assert(all.len() == parts@.len());
        if parts.len() == 0 {
            return None;
        }
        let last: usize = parts.len() - 1;
        assert(all.last() == parts@[last as int]@);
        if is_dot(&parts[last]) || is_dot_dot(&parts[last]) {
            return None;
        }
        let name = copy_bytes(&parts[last], 0, parts[last].len());
        assert(name.deep_view() =~= all.last());
        Some(name)
    }

    /// The last part as text, if it is a name and valid UTF-8.
    pub fn file_name_text(&self) -> (name: Option<String>)
        ensures
            name.deep_view() == self@.file_name_text(),
    {
        match self.file_name() {
            Some(name) => {
                assert(name.deep_view() =~= name@);
                from_utf8(name)
            },
            None => None,
        }
    }

    /// The stem of the file name as text.
    pub fn stem_text(&self) -> (stem: Option<String>)
        ensures
            stem.deep_view() == self@.stem_text(),
    {
        match self.file_name() {
            Some(name) => {
                assert(name.deep_view() =~= name@);
                from_utf8(stem_bytes(&name))
            },
            None => None,
        }
    }

    /// The extension of the file name.
    pub fn extension(&self) -> (extension: Option<Vec<u8>>)
        ensures
            extension.deep_view() == self@.extension(),
    {
        match self.file_name() {
            Some(name) => {
                assert(name.deep_view() =~= name@);
                match find_dot(&name) {
                    Some(at) => {
                        assert(at < name.len());
                        let extension = copy_bytes(&name, at + 1, name.len());
                        assert(extension.deep_view() =~= name@.skip(at + 1));
                        Some(extension)
                    },
                    None => None,
                }
            },
            None => None,
        }
    }

    /// The extension of the file name as text.
    pub fn extension_text(&self) -> (extension: Option<String>)
        ensures
            extension.deep_view() == self@.extension_text(),
    {
        match self.extension() {
            Some(extension) => {
                assert(extension.deep_view() =~= extension@);
                from_utf8(extension)
            },
            None => None,
        }
    }

    /// The extension of the file name in small letters.
    pub fn lower_extension(&self) -> (extension: Option<Vec<u8>>)
        ensures
            match self@.extension() {
                Some(given) => extension matches Some(lower) && lower@ == lower_bytes(given),
                None => extension is None,
            },
    {
        match self.extension() {
            Some(extension) => {
                assert(extension.deep_view() =~= extension@);
                let mut lower: Vec<u8> = Vec::new();
                let mut i: usize = 0;
                while i < extension.len()
                    invariant
                        i <= extension@.len(),
                        lower@ == lower_bytes(extension@).take(i as int),
                    decreases extension.len() - i,
                {
                    let byte = extension[i];
                    if 65 <= byte && byte <= 90 {
                        lower.push(byte + 32);
                    } else {
                        lower.push(byte);
                    }
                    assert(lower@ =~= lower_bytes(extension@).take(i + 1));
                    i += 1;
                }
                assert(lower@ =~= lower_bytes(extension@));
                Some(lower)
            },
            None => None,
        }
    }

    /// Whether the file name has the extension `m4a`, in any case.
    pub fn is_m4a(&self) -> (is: bool)
        ensures
            is == self@.is_m4a(),
    {
        match self.lower_extension() {
            Some(extension) => same_bytes(&extension, &bytes_of("m4a")),
            None => false,
        }
    }

    /// Whether the parts of `base` start this path.
    pub fn starts_with(&self, base: &FilePath) -> (starts: bool)
        ensures
            starts == self@.starts_with(base@),
    {
        let parts = self.parts();
        let given = base.parts();
        assert(parts.deep_view().len() == parts@.len());
        assert(given.deep_view().len() == given@.len());
        if base.is_absolute() && !self.is_absolute() {
            return false;
        }
        if self.is_absolute() && !base.is_absolute() && given.len() > 0 {
            return false;
        }
        if given.len() > parts.len() {
            return false;
        }
        begins_with(&parts, &given)
    }

    /// What follows `base` in this path.
    pub fn strip_prefix(&self, base: &FilePath) -> (rest: Option<FilePath>)
        ensures
            rest.deep_view() == self@.strip_prefix(base@),
    {
        if !self.starts_with(base) {
            return None;
        }
        let ghost end = trimmed_end(self@.bytes);
        let len = trimmed_len(&self.bytes);
        if base.bytes.len() == 0 {
            let bytes = copy_bytes(&self.bytes, 0, len);
            assert(bytes@ =~= end);
            return Some(FilePath { bytes });
        }
        let parts = self.parts();
        let given = base.parts();
        assert(parts.deep_view().len() == parts@.len());
        assert(given.deep_view().len() == given@.len());
        let count: usize = parts.len() - given.len();
        if count == 0 {
            let bytes: Vec<u8> = Vec::new();
            assert(bytes@ =~= Seq::empty());
            return Some(FilePath { bytes });
        }
        let mut head = copy_bytes(&self.bytes, 0, self.bytes.len());
        assert(head@ =~= self@.bytes);
        let mut left: usize = count;
        while left > 1
            invariant
                1 <= left <= count,
                tail_start(head@, left as int) == tail_start(self@.bytes, count as int),
            decreases left,
        {
            let end_len = trimmed_len(&head);
            let start = start_before(&head, end_len);
            let ghost shorter = trimmed_end(head@);
            let next = copy_bytes(&head, 0, start);
            assert(next@ =~= shorter.take(last_start(shorter)));
            head = next;
            left -= 1;
        }
        let start = start_before(&head, trimmed_len(&head));
        proof {
            lemma_tail(self@.bytes, count as int);
        }
        let bytes = copy_bytes(&self.bytes, start, len);
        assert(bytes@ =~= tail(self@.bytes, count as int));
        Some(FilePath { bytes })
    }

    /// Whether the path has neither a root nor parts.
    pub fn is_empty(&self) -> (is: bool)
        ensures
            is == self@.is_empty(),
    {
        self.bytes.len() == 0
    }

    /// `other` seen from this path.
    pub fn join(&self, other: &FilePath) -> (path: FilePath)
        ensures
            path@ == self@.join(other@),
    {
        if other.is_absolute() || self.bytes.len() == 0 {
            return other.copy();
        }
        let mut bytes = copy_bytes(&self.bytes, 0, self.bytes.len());
        assert(bytes@ =~= self@.bytes);
        if self.bytes[self.bytes.len() - 1] != 47u8 {
            bytes.push(47u8);
        }
        let mut added = copy_bytes(&other.bytes, 0, other.bytes.len());
        assert(added@ =~= other@.bytes);
        bytes.append(&mut added);
        FilePath { bytes }
    }

    /// The path with the extension of its file name replaced or added.
    pub fn with_extension(&self, extension: &str) -> (path: FilePath)
        ensures
            path@ == self@.with_extension(encode_utf8(extension@)),
    {
        match self.file_name() {
            Some(name) => {
                assert(name.deep_view() =~= name@);
                let ghost end = trimmed_end(self@.bytes);
                let len = trimmed_len(&self.bytes);
                let start = start_before(&self.bytes, len);
                let mut bytes = copy_bytes(&self.bytes, 0, start);
                assert(bytes@ =~= end.take(last_start(end)));
                let mut last = stem_bytes(&name);
                last.push(46u8);
                let mut added = bytes_of(extension);
                last.append(&mut added);
                bytes.append(&mut last);
                FilePath { bytes }
            },
            None => self.copy(),
        }
    }

    /// The path with its file name replaced or added.
    pub fn with_file_name(&self, name: &str) -> (path: FilePath)
        ensures
            path@ == self@.with_file_name(encode_utf8(name@)),
    {
        let added = FilePath::from_text(name);
        if self.file_name().is_some() {
            match self.parent() {
                Some(folder) => folder.join(&added),
                None => self.join(&added),
            }
        } else {
            self.join(&added)
        }
    }
}

impl PartialEq for FilePath {
    fn eq(&self, other: &FilePath) -> (same: bool) {
        self.same(other)
    }
}

impl Eq for FilePath {

}

impl PartialEqSpecImpl for FilePath {
    open spec fn obeys_eq_spec() -> bool {
        true
    }

    open spec fn eq_spec(&self, other: &FilePath) -> bool {
        self@.route() == other@.route()
    }
}

/// What stands before the last dot of a file name.
fn stem_bytes(name: &Vec<u8>) -> (stem: Vec<u8>)
    ensures
        stem@ == stem_of(name@),
{
    match find_dot(name) {
        Some(at) => {
            let stem = copy_bytes(name, 0, at);
            assert(stem@ =~= name@.take(at as int));
            stem
        },
        None => {
            let stem = copy_bytes(name, 0, name.len());
            assert(stem@ =~= name@);
            stem
        },
    }
}

} // verus!
