//! What renaming and converting would do: previews that are confirmed before
//! anything is written.

use vstd::prelude::*;
use vstd::utf8::*;
use crate::conversion::{output_path, CompletedConversion};
use crate::library::Track;
use crate::path::FilePath;
use crate::text::{chars_of, trim, two_digit_text, white_space};
use crate::conversion::{converted_path, lemma_dot_position_absent, lemma_dot_position_range};
use crate::conversion::{law_output_preserves_subfolders, law_with_m4a_extension};
use crate::conversion::{lemma_output_has_parent, m4a, planned_job, CompletedView};
use crate::library::TrackView;
use crate::path::{dot, dot_dot, extension_of, holds, routes, separator, written, PathView};
use crate::path::{law_join_joins_routes, law_parent_leaves_out_the_last_part, law_route_wf};
use crate::text::{is_white_space, lemma_encode_concat, trimmed, two_digits};

verus! {

broadcast use crate::text::lemma_bytes_deep_view;

// ---------------------------------------------------------------------------
// File names from titles
// ---------------------------------------------------------------------------

/// Whether a character of a title cannot stand in a file name.
pub open spec fn is_separator(c: char) -> bool {
    ||| c == '/' || c == '\\' || c == ':' || c == '*' || c == '?' || c == '"' || c == '<'
    ||| c == '>' || c == '|' || c == '\0'
    ||| is_white_space(c)
}

/// `text` without the dots at its start.
pub open spec fn trim_leading_dots(text: Seq<char>) -> Seq<char>
    decreases text.len(),
{
    if text.len() > 0 && text[0] == '.' {
        trim_leading_dots(text.skip(1))
    } else {
        text
    }
}

/// `text` without the dots at its end.
pub open spec fn trim_trailing_dots(text: Seq<char>) -> Seq<char>
    decreases text.len(),
{
    if text.len() > 0 && text.last() == '.' {
        trim_trailing_dots(text.drop_last())
    } else {
        text
    }
}

/// `text` with each run of separators, and what underscore precedes it, as one
/// underscore.
pub open spec fn underscored(text: Seq<char>) -> Seq<char>
    decreases text.len(),
{
    if text.len() == 0 {
        Seq::empty()
    } else {
        let before = underscored(text.drop_last());
        if !is_separator(text.last()) {
            before.push(text.last())
        } else if before.len() > 0 && before.last() == '_' {
            before
        } else {
            before.push('_')
        }
    }
}

/// A title as the stem of a file name.
pub open spec fn sanitized(title: Seq<char>) -> Seq<char> {
    let stem = underscored(trim_trailing_dots(trim_leading_dots(trimmed(title))));
    if stem.len() == 0 {
        "Untitled"@
    } else {
        stem
    }
}

proof fn lemma_underscored(text: Seq<char>)
    ensures
        forall|i: int|
            0 <= i < underscored(text).len() ==> !is_separator(#[trigger] underscored(text)[i]),
    decreases text.len(),
{
    if text.len() > 0 {
        lemma_underscored(text.drop_last());
        let before = underscored(text.drop_last());
        assert forall|i: int| 0 <= i < underscored(text).len() implies !is_separator(
            #[trigger] underscored(text)[i],
        ) by {
            if i < before.len() {
                assert(underscored(text)[i] == before[i]);
            }
        }
    }
}

/// A title makes a stem that is not empty and holds nothing that cannot stand
/// in a file name.
pub proof fn law_sanitized_is_plain(title: Seq<char>)
    ensures
        sanitized(title).len() > 0,
        forall|i: int|
            0 <= i < sanitized(title).len() ==> !is_separator(#[trigger] sanitized(title)[i]),
{
    reveal_strlit("Untitled");
    lemma_underscored(trim_trailing_dots(trim_leading_dots(trimmed(title))));
}

fn separates(c: char) -> (is: bool)
    ensures
        is == is_separator(c),
{
    c == '/' || c == '\\' || c == ':' || c == '*' || c == '?' || c == '"' || c == '<' || c == '>'
        || c == '|' || c == '\0' || white_space(c)
}

/// `title` as the stem of a file name: without white space and dots at its
/// ends, with `_` for what cannot stand in a file name.
pub fn sanitized_file_stem(title: &str) -> (stem: String)
    ensures
        stem@ == sanitized(title@),
{
    let text = trim(title);
    let chars = chars_of(text.as_str());
    let ghost all = chars@;
    let mut start: usize = 0;
    assert(all.skip(0) =~= all);
    while start < chars.len() && chars[start] == '.'
        invariant
            start <= chars@.len(),
            chars@ == all,
            trim_leading_dots(all) == trim_leading_dots(all.skip(start as int)),
        decreases chars.len() - start,
    {
        assert(all.skip(start as int).skip(1) =~= all.skip(start + 1));
        start += 1;
    }
    let ghost led = all.skip(start as int);
    assert(trim_leading_dots(all) == led);
    let mut end: usize = chars.len();
    assert(all.subrange(start as int, end as int) =~= led);
    while start < end && chars[end - 1] == '.'
        invariant
            start <= end <= chars@.len(),
            chars@ == all,
            trim_trailing_dots(led) == trim_trailing_dots(all.subrange(start as int, end as int)),
        decreases end - start,
    {
        assert(all.subrange(start as int, end as int).drop_last() =~= all.subrange(
            start as int,
            end - 1,
        ));
        end -= 1;
    }
    let ghost bare = all.subrange(start as int, end as int);
    assert(trim_trailing_dots(led) == bare);
    let mut stem = String::new();
    let mut ends_in_underscore = false;
    let mut i: usize = start;
    proof {
        assert(bare.take(0) =~= Seq::empty());
        assert(stem@ =~= Seq::empty());
    }
    while i < end
        invariant
            start <= i <= end <= chars@.len(),
            chars@ == all,
            bare == all.subrange(start as int, end as int),
            stem@ == underscored(bare.take(i - start)),
            ends_in_underscore == (stem@.len() > 0 && stem@.last() == '_'),
        decreases end - i,
    {
        assert(bare.take(i - start + 1).drop_last() =~= bare.take(i - start));
        let c = chars[i];
        if separates(c) {
            if !ends_in_underscore {
                stem.push('_');
                ends_in_underscore = true;
            }
        } else {
            stem.push(c);
            ends_in_underscore = c == '_';
        }
        i += 1;
    }
    assert(bare.take(bare.len() as int) =~= bare);
    if stem.as_str().is_empty() {
        "Untitled".to_owned()
    } else {
        stem
    }
}

// ---------------------------------------------------------------------------
// Renaming
// ---------------------------------------------------------------------------

/// The file name for a track with a number.
pub open spec fn renamed_name(track: TrackView, number: u32) -> Seq<char> {
    let stem = two_digits(number as nat) + "_"@ + sanitized(track.title);
    match track.path.extension_text() {
        Some(extension) => if extension.len() > 0 {
            stem + "."@ + extension
        } else {
            stem
        },
        None => stem,
    }
}

/// The path that a track is renamed to: a track without a number is not.
pub open spec fn renamed(track: TrackView) -> Option<PathView> {
    match track.track_number {
        Some(number) => Some(track.path.with_file_name(encode_utf8(renamed_name(track, number)))),
        None => None,
    }
}

/// The path of `track` with a file name made of its number, its title and the
/// extension it had. A track without a number has none.
pub fn renamed_track_path(track: &Track) -> (path: Result<FilePath, ()>)
    ensures
        match renamed(track@) {
            Some(target) => path matches Ok(path) && path@ == target,
            None => path is Err,
        },
{
    match track.track_number {
        Some(number) => {
            let mut name = two_digit_text(number as u64);
            name.append("_");
            name.append(sanitized_file_stem(track.title.as_str()).as_str());
            match track.path.extension_text() {
                Some(extension) => if !extension.as_str().is_empty() {
                    name.append(".");
                    name.append(extension.as_str());
                },
                None => {},
            }
            Ok(track.path.with_file_name(name.as_str()))
        },
        None => Err(()),
    }
}

/// The encoding of text without an ASCII character does not hold its byte.
pub(crate) proof fn lemma_encoding_lacks(text: Seq<char>, byte: u8)
    requires
        byte < 0x80,
        forall|i: int| 0 <= i < text.len() ==> #[trigger] text[i] as u32 != byte,
    ensures
        !encode_utf8(text).contains(byte),
    decreases text.len(),
{
    if text.len() > 0 {
        let first = text[0] as u32;
        assert(first != byte);
        lemma_encoding_lacks(text.drop_first(), byte);
        lemma_scalar_lacks(first, byte);
        char_is_scalar(text[0]);
        let head = encode_scalar(first);
        let tail = encode_utf8(text.drop_first());
        if encode_utf8(text).contains(byte) {
            let i = choose|i: int| 0 <= i < encode_utf8(text).len() && encode_utf8(text)[i] == byte;
            if i < head.len() {
                assert(head[i] == byte);
            } else {
                assert(tail[i - head.len()] == byte);
                assert(tail.contains(byte));
            }
        }
    }
}

proof fn lemma_scalar_lacks(scalar: u32, byte: u8)
    requires
        byte < 0x80,
        scalar != byte,
    ensures
        forall|i: int|
            0 <= i < encode_scalar(scalar).len() ==> #[trigger] encode_scalar(scalar)[i] != byte,
{
    assert(scalar <= 0x7F && scalar != byte && byte < 0x80 ==> (scalar & 0x7F) as u8 != byte)
        by (bit_vector);
    let a = ((scalar >> 6) & 0x1F) as u8;
    let b = ((scalar >> 12) & 0x0F) as u8;
    let c = ((scalar >> 18) & 0x7) as u8;
    let d = (scalar & 0x3F) as u8;
    let e = ((scalar >> 6) & 0x3F) as u8;
    let f = ((scalar >> 12) & 0x3F) as u8;
    assert(0xC0u8 | a >= 0x80) by (bit_vector);
    assert(0xE0u8 | b >= 0x80) by (bit_vector);
    assert(0xF0u8 | c >= 0x80) by (bit_vector);
    assert(0x80u8 | d >= 0x80) by (bit_vector);
    assert(0x80u8 | e >= 0x80) by (bit_vector);
    assert(0x80u8 | f >= 0x80) by (bit_vector);
}

proof fn lemma_two_digits(number: nat)
    ensures
        two_digits(number).len() >= 2,
        forall|i: int|
            0 <= i < two_digits(number).len() ==> '0' as u32 <= #[trigger] two_digits(number)[i] as u32
                <= '9' as u32,
{
    lemma_decimal(number);
    if number >= 10 {
        lemma_decimal(number / 10);
    }
}

proof fn lemma_decimal(number: nat)
    ensures
        crate::text::decimal(number).len() >= 1,
        forall|i: int|
            0 <= i < crate::text::decimal(number).len() ==> '0' as u32
                <= #[trigger] crate::text::decimal(number)[i] as u32 <= '9' as u32,
    decreases number,
{
    if number >= 10 {
        lemma_decimal(number / 10);
    }
}

/// The file of a track that is renamed stays in its folder and keeps its
/// extension. Its name is the track number in at least two digits, `_`, and the
/// title as far as it can stand in a file name.
pub proof fn law_renamed_stays_in_folder(track: TrackView)
    requires
        track.path.file_name() is Some,
        track.track_number is Some,
    ensures
        renamed(track) matches Some(target) && {
            &&& target.parent() matches Some(folder) && folder.route()
                == track.path.parent().unwrap().route()
            &&& (track.path.extension_text() matches Some(extension) && extension.len() > 0)
                ==> target.extension() == track.path.extension()
            &&& (track.path.extension_text() matches Some(extension) && extension.len() > 0)
                ==> target.file_name() == Some(
                encode_utf8(
                    two_digits(track.track_number.unwrap() as nat) + "_"@ + sanitized(track.title)
                        + "."@ + track.path.extension_text().unwrap(),
                ),
            )
            &&& !(track.path.extension_text() matches Some(extension) && extension.len() > 0)
                ==> target.file_name() == Some(
                encode_utf8(
                    two_digits(track.track_number.unwrap() as nat) + "_"@ + sanitized(track.title),
                ),
            )
        },
{
    let number = track.track_number.unwrap();
    let name = renamed_name(track, number);
    let bytes = encode_utf8(name);
    let parts = track.path.route().parts;
    law_route_wf(track.path);
    law_parent_leaves_out_the_last_part(track.path);
    let folder = track.path.parent().unwrap();
    law_join_joins_routes(folder, written(bytes));
    let old_name = parts.last();
    assert(old_name == parts[parts.len() - 1]);
    assert(!old_name.contains(separator()));
    lemma_two_digits(number as nat);
    law_sanitized_is_plain(track.title);
    reveal_strlit("_");
    reveal_strlit(".");
    let stem = two_digits(number as nat) + "_"@ + sanitized(track.title);
    assert forall|i: int| 0 <= i < stem.len() implies #[trigger] stem[i] as u32 != 47 by {
        let lead = two_digits(number as nat);
        if i < lead.len() {
            assert(stem[i] == lead[i]);
            assert('0' as u32 <= lead[i] as u32);
        } else if i == lead.len() {
            assert(stem[i] == '_');
        } else {
            assert(stem[i] == sanitized(track.title)[i - lead.len() - 1]);
            assert(!is_separator(stem[i]));
        }
        if stem[i] as u32 == 47 {
            char_u32_cast(stem[i], 47);
        }
    }
    lemma_encoding_lacks(stem, separator());
    lemma_encoding_longer(stem);
    let target = renamed(track).unwrap();
    if track.path.extension_text() matches Some(extension) && extension.len() > 0 {
        let extension = track.path.extension_text().unwrap();
        let ending = track.path.extension().unwrap();
        decode_utf8_encode_utf8(ending);
        assert(encode_utf8(extension) == ending);
        lemma_dot_position_range(old_name, old_name.len() as int);
        let at = crate::path::dot_position(old_name, old_name.len() as int).unwrap();
        assert(ending =~= old_name.skip(at + 1));
        lemma_no_dot_after(old_name, old_name.len() as int);
        lemma_encode_concat(stem + "."@, extension);
        lemma_encode_concat(stem, "."@);
        is_ascii_chars_encode_utf8("."@);
        let dotted = encode_utf8("."@);
        assert(dotted =~= seq![46u8]);
        let head = encode_utf8(stem);
        assert(bytes =~= head + seq![46u8] + ending);
        assert(!bytes.contains(separator())) by {
            if bytes.contains(separator()) {
                let i = choose|i: int| 0 <= i < bytes.len() && bytes[i] == separator();
                if i < head.len() {
                    assert(head.contains(head[i]));
                } else if i > head.len() {
                    assert(old_name[at + 1 + (i - head.len() - 1)] == separator());
                    assert(old_name.contains(separator()));
                }
            }
        }
        crate::path::lemma_single_part(bytes);
        assert(dot().len() == 1 && dot_dot().len() == 2);
        assert(ending.len() > 0) by {
            if ending.len() == 0 {
                assert(ending =~= Seq::empty());
            }
        }
        assert forall|i: int| head.len() < i < bytes.len() implies bytes[i] != 46u8 by {
            assert(bytes[i] == old_name[at + 1 + (i - head.len() - 1)]);
        }
        lemma_dot_position_absent(bytes, head.len() as int, bytes.len() as int);
        assert(bytes.skip(head.len() as int + 1) =~= ending);
        assert(extension_of(bytes) == Some(ending));
    } else {
        assert(name == stem);
        crate::path::lemma_single_part(bytes);
    }
    assert(dot().len() == 1 && dot_dot().len() == 2);
    assert(target.route().parts =~= folder.route().parts.push(bytes));
    assert(target.route().parts.drop_last() =~= folder.route().parts);
    assert(target.route().absolute == folder.route().absolute);
    law_parent_leaves_out_the_last_part(target);
}

proof fn lemma_encoding_longer(text: Seq<char>)
    ensures
        encode_utf8(text).len() >= text.len(),
{
    crate::text::lemma_bytes_before(text, 0, text.len() as int);
    assert(text.take(text.len() as int) =~= text);
}

proof fn lemma_no_dot_after(name: Seq<u8>, end: int)
    requires
        end <= name.len(),
    ensures
        crate::path::dot_position(name, end) matches Some(at) ==> forall|i: int|
            at < i < end ==> name[i] != 46u8,
    decreases end,
{
    if end > 1 && name[end - 1] != 46u8 {
        lemma_no_dot_after(name, end - 1);
    }
}

/// What becomes of one file when tracks are renamed.
#[derive(Clone, Copy, Debug, PartialEq, Eq, Structural)]
pub enum RenameStatus {
    Ready,
    Unchanged,
    MissingTrackNumber,
    Conflict,
}

/// One file of a rename preview.
pub struct RenamePlan {
    pub source: FilePath,
    pub target: Option<FilePath>,
    pub status: RenameStatus,
}

/// What a rename plan says.
#[verifier::ext_equal]
pub struct RenamePlanView {
    pub source: PathView,
    pub target: Option<PathView>,
    pub status: RenameStatus,
}

impl View for RenamePlan {
    type V = RenamePlanView;

    open spec fn view(&self) -> RenamePlanView {
        RenamePlanView {
            source: self.source@,
            target: self.target.deep_view(),
            status: self.status,
        }
    }
}

impl DeepView for RenamePlan {
    type V = RenamePlanView;

    open spec fn deep_view(&self) -> RenamePlanView {
        self@
    }
}

/// What renaming would do, file by file, and how far it is scrolled.
pub struct RenamePreview {
    pub plans: Vec<RenamePlan>,
    pub scroll: usize,
}

/// What a rename preview says.
#[verifier::ext_equal]
pub struct RenamePreviewView {
    pub plans: Seq<RenamePlanView>,
    pub scroll: usize,
}

impl View for RenamePreview {
    type V = RenamePreviewView;

    open spec fn view(&self) -> RenamePreviewView {
        RenamePreviewView { plans: self.plans.deep_view(), scroll: self.scroll }
    }
}

impl DeepView for RenamePreview {
    type V = RenamePreviewView;

    open spec fn deep_view(&self) -> RenamePreviewView {
        self@
    }
}

/// Whether a track is to be renamed to `target`.
pub open spec fn is_proposed(track: TrackView, target: PathView) -> bool {
    renamed(track) matches Some(own) && own.route() == target.route() && target.route()
        != track.path.route()
}

/// The paths that tracks are to be renamed to.
pub open spec fn proposals(tracks: Seq<TrackView>) -> Seq<PathView>
    decreases tracks.len(),
{
    if tracks.len() == 0 {
        Seq::empty()
    } else {
        let before = proposals(tracks.drop_last());
        match renamed(tracks.last()) {
            Some(target) => if target.route() != tracks.last().path.route() {
                before.push(target)
            } else {
                before
            },
            None => before,
        }
    }
}

/// Whether another track than the one at `index` is to be renamed to `target`.
pub open spec fn is_contested(tracks: Seq<TrackView>, index: int, target: PathView) -> bool {
    exists|other: int|
        0 <= other < tracks.len() && other != index && is_proposed(#[trigger] tracks[other], target)
}

/// What becomes of the file of the track at `index`, where the files at
/// `existing` exist.
pub open spec fn rename_plan(
    tracks: Seq<TrackView>,
    existing: Seq<PathView>,
    index: int,
) -> RenamePlanView {
    let track = tracks[index];
    let target = renamed(track);
    RenamePlanView {
        source: track.path,
        target,
        status: match target {
            None => RenameStatus::MissingTrackNumber,
            Some(target) => if target.route() == track.path.route() {
                RenameStatus::Unchanged
            } else if holds(existing, target) || is_contested(tracks, index, target) {
                RenameStatus::Conflict
            } else {
                RenameStatus::Ready
            },
        },
    }
}

/// What renaming tracks would do, where the files at `existing` exist.
pub open spec fn rename_plans(tracks: Seq<TrackView>, existing: Seq<PathView>) -> Seq<
    RenamePlanView,
> {
    Seq::new(tracks.len(), |i: int| rename_plan(tracks, existing, i))
}

/// Renaming is safe: a file that is to be renamed keeps no other from its name
/// and takes none that exists.
pub proof fn law_ready_renames_are_safe(tracks: Seq<TrackView>, existing: Seq<PathView>, i: int)
    requires
        0 <= i < tracks.len(),
        rename_plans(tracks, existing)[i].status == RenameStatus::Ready,
    ensures
        rename_plans(tracks, existing)[i].target matches Some(target) && {
            &&& target.route() != rename_plans(tracks, existing)[i].source.route()
            &&& !holds(existing, target)
            &&& forall|j: int|
                0 <= j < tracks.len() && j != i && (#[trigger] rename_plans(
                    tracks,
                    existing,
                )[j]).status == RenameStatus::Ready ==> (rename_plans(
                    tracks,
                    existing,
                )[j].target matches Some(other) && other.route() != target.route())
        },
{
    let target = rename_plans(tracks, existing)[i].target.unwrap();
    assert forall|j: int|
        0 <= j < tracks.len() && j != i && (#[trigger] rename_plans(tracks, existing)[j]).status
            == RenameStatus::Ready implies (rename_plans(tracks, existing)[j].target matches Some(
        other,
    ) && other.route() != target.route()) by {
        if renamed(tracks[j]).unwrap().route() == target.route() {
            assert(is_proposed(tracks[j], target));
            assert(is_contested(tracks, i, target));
        }
    }
}

/// Whether `path` is one of `paths`.
pub fn contains_path(paths: &Vec<FilePath>, path: &FilePath) -> (contained: bool)
    ensures
        contained == holds(paths.deep_view(), path@),
{
    let mut i: usize = 0;
    while i < paths.len()
        invariant
            i <= paths@.len(),
            forall|j: int|
                0 <= j < i ==> #[trigger] routes(paths.deep_view())[j] != path@.route(),
        decreases paths.len() - i,
    {
        if paths[i].same(path) {
            assert(routes(paths.deep_view())[i as int] == path@.route());
            return true;
        }
        i += 1;
    }
    false
}

fn contested(tracks: &Vec<Track>, index: usize, target: &FilePath) -> (contested: bool)
    ensures
        contested == is_contested(tracks.deep_view(), index as int, target@),
{
    let ghost views = tracks.deep_view();
    let mut other: usize = 0;
    while other < tracks.len()
        invariant
            other <= tracks@.len(),
            views == tracks.deep_view(),
            forall|j: int|
                0 <= j < other && j != index ==> !is_proposed(#[trigger] views[j], target@),
        decreases tracks.len() - other,
    {
        if other != index {
            match renamed_track_path(&tracks[other]) {
                Ok(path) => {
                    if path.same(target) && !target.same(&tracks[other].path) {
                        assert(is_proposed(views[other as int], target@));
                        return true;
                    }
                },
                Err(_) => {},
            }
        }
        other += 1;
    }
    false
}

/// The paths that `tracks` are to be renamed to: those of which it must be known
/// whether they exist before a preview is made.
pub fn proposed_targets(tracks: &Vec<Track>) -> (targets: Vec<FilePath>)
    ensures
        targets.deep_view() == proposals(tracks.deep_view()),
{
    let ghost views = tracks.deep_view();
    let mut targets: Vec<FilePath> = Vec::new();
    let mut next: usize = 0;
    proof {
        assert(views.take(0) =~= Seq::empty());
        assert(targets.deep_view() =~= Seq::empty());
    }
    while next < tracks.len()
        invariant
            next <= tracks@.len(),
            views == tracks.deep_view(),
            targets.deep_view() == proposals(views.take(next as int)),
        decreases tracks.len() - next,
    {
        assert(views.take(next + 1).drop_last() =~= views.take(next as int));
        match renamed_track_path(&tracks[next]) {
            Ok(target) => {
                if !target.same(&tracks[next].path) {
                    let ghost before = targets.deep_view();
                    let ghost view = target@;
                    targets.push(target);
                    assert(targets.deep_view() =~= before.push(view));
                }
            },
            Err(_) => {},
        }
        next += 1;
    }
    assert(views.take(views.len() as int) =~= views);
    targets
}

/// What renaming `tracks` would do, where the files at `existing` exist.
pub fn build_rename_preview(tracks: &Vec<Track>, existing: &Vec<FilePath>) -> (preview:
    RenamePreview)
    ensures
        preview@.plans == rename_plans(tracks.deep_view(), existing.deep_view()),
        renames_complete(preview@.plans),
        preview@.scroll == 0,
{
    let ghost views = tracks.deep_view();
    let ghost wanted = rename_plans(views, existing.deep_view());
    let mut plans: Vec<RenamePlan> = Vec::new();
    let mut next: usize = 0;
    while next < tracks.len()
        invariant
            next <= tracks@.len(),
            views == tracks.deep_view(),
            wanted == rename_plans(views, existing.deep_view()),
            plans.deep_view() == wanted.take(next as int),
        decreases tracks.len() - next,
    {
        let ghost before = plans.deep_view();
        let source = tracks[next].path.copy();
        let plan = match renamed_track_path(&tracks[next]) {
            Err(_) => RenamePlan {
                source,
                target: None,
                status: RenameStatus::MissingTrackNumber,
            },
            Ok(target) => {
                let status = if target.same(&source) {
                    RenameStatus::Unchanged
                } else if contains_path(existing, &target) || contested(tracks, next, &target) {
                    RenameStatus::Conflict
                } else {
                    RenameStatus::Ready
                };
                RenamePlan { source, target: Some(target), status }
            },
        };
        assert(plan@ =~= wanted[next as int]);
        plans.push(plan);
        assert(plans.deep_view() =~= before.push(wanted[next as int]));
        assert(plans.deep_view() =~= wanted.take(next + 1));
        next += 1;
    }
    assert(plans.deep_view() =~= wanted);
    RenamePreview { plans, scroll: 0 }
}

/// Whether every plan whose status speaks of a target has one.
pub open spec fn renames_complete(plans: Seq<RenamePlanView>) -> bool {
    forall|i: int|
        0 <= i < plans.len() ==> {
            let plan = #[trigger] plans[i];
            plan.status == RenameStatus::Ready || plan.status == RenameStatus::Conflict
                ==> plan.target is Some
        }
}

/// How many files are ready to be renamed.
pub open spec fn ready_renames(plans: Seq<RenamePlanView>) -> nat
    decreases plans.len(),
{
    if plans.len() == 0 {
        0
    } else {
        ready_renames(plans.drop_last()) + (if plans.last().status == RenameStatus::Ready {
            1nat
        } else {
            0nat
        })
    }
}

/// No more files are ready than there are.
pub proof fn lemma_ready_renames(plans: Seq<RenamePlanView>)
    ensures
        ready_renames(plans) <= plans.len(),
    decreases plans.len(),
{
    if plans.len() > 0 {
        lemma_ready_renames(plans.drop_last());
    }
}

impl RenamePreview {
    /// How many files are ready to be renamed.
    pub fn ready_count(&self) -> (count: usize)
        ensures
            count == ready_renames(self@.plans),
            count <= self@.plans.len(),
    {
        let ghost plans = self@.plans;
        let mut count: usize = 0;
        let mut next: usize = 0;
        assert(plans.take(0) =~= Seq::empty());
        while next < self.plans.len()
            invariant
                count <= next <= self.plans@.len(),
                plans == self.plans.deep_view(),
                count == ready_renames(plans.take(next as int)),
            decreases self.plans.len() - next,
        {
            assert(plans.take(next + 1).drop_last() =~= plans.take(next as int));
            if self.plans[next].status == RenameStatus::Ready {
                count += 1;
            }
            next += 1;
        }
        assert(plans.take(plans.len() as int) =~= plans);
        count
    }

    /// How many files are not.
    pub fn skipped_count(&self) -> (count: usize)
        ensures
            count == self@.plans.len() - ready_renames(self@.plans),
    {
        self.plans.len() - self.ready_count()
    }
}

// ---------------------------------------------------------------------------
// Converting
// ---------------------------------------------------------------------------

/// What becomes of one file when the queue is converted.
#[derive(Clone, Copy, Debug, PartialEq, Eq, Structural)]
pub enum ConversionPlanStatus {
    Ready,
    AlreadyM4a,
    OutputExists,
    OutsideLibrary,
}

/// One file of a conversion preview.
pub struct ConversionPlan {
    pub source: FilePath,
    pub output: Option<FilePath>,
    pub status: ConversionPlanStatus,
}

/// What a conversion plan says.
#[verifier::ext_equal]
pub struct ConversionPlanView {
    pub source: PathView,
    pub output: Option<PathView>,
    pub status: ConversionPlanStatus,
}

impl View for ConversionPlan {
    type V = ConversionPlanView;

    open spec fn view(&self) -> ConversionPlanView {
        ConversionPlanView {
            source: self.source@,
            output: self.output.deep_view(),
            status: self.status,
        }
    }
}

impl DeepView for ConversionPlan {
    type V = ConversionPlanView;

    open spec fn deep_view(&self) -> ConversionPlanView {
        self@
    }
}

/// What converting the queue would do, file by file, and how far it is
/// scrolled.
pub struct ConversionPreview {
    pub plans: Vec<ConversionPlan>,
    pub scroll: usize,
}

/// What a conversion preview says.
#[verifier::ext_equal]
pub struct ConversionPreviewView {
    pub plans: Seq<ConversionPlanView>,
    pub scroll: usize,
}

impl View for ConversionPreview {
    type V = ConversionPreviewView;

    open spec fn view(&self) -> ConversionPreviewView {
        ConversionPreviewView { plans: self.plans.deep_view(), scroll: self.scroll }
    }
}

impl DeepView for ConversionPreview {
    type V = ConversionPreviewView;

    open spec fn deep_view(&self) -> ConversionPreviewView {
        self@
    }
}

/// The place beside a source, with the extension `m4a`: the output that a
/// preview shows.
pub open spec fn beside(source: PathView) -> PathView {
    source.with_extension(m4a())
}

/// What becomes of `source` when it is converted for the library at `root`,
/// where the files at `existing` exist. It is ready if neither the place beside
/// it nor its place in the library of converted files, to which a conversion
/// writes, is taken; where one is, that one is shown.
pub open spec fn conversion_plan(
    root: PathView,
    source: PathView,
    existing: Seq<PathView>,
) -> ConversionPlanView {
    if source.is_m4a() {
        ConversionPlanView {
            source,
            output: Some(source),
            status: ConversionPlanStatus::AlreadyM4a,
        }
    } else {
        match converted_path(root, source) {
            None => ConversionPlanView {
                source,
                output: None,
                status: ConversionPlanStatus::OutsideLibrary,
            },
            Some(output) => if holds(existing, beside(source)) {
                ConversionPlanView {
                    source,
                    output: Some(beside(source)),
                    status: ConversionPlanStatus::OutputExists,
                }
            } else if holds(existing, output) {
                ConversionPlanView {
                    source,
                    output: Some(output),
                    status: ConversionPlanStatus::OutputExists,
                }
            } else {
                ConversionPlanView {
                    source,
                    output: Some(beside(source)),
                    status: ConversionPlanStatus::Ready,
                }
            },
        }
    }
}

/// What converting the queue would do, where the files at `existing` exist.
pub open spec fn conversion_plans(
    root: PathView,
    queued: Seq<PathView>,
    existing: Seq<PathView>,
) -> Seq<ConversionPlanView> {
    Seq::new(queued.len(), |i: int| conversion_plan(root, queued[i], existing))
}

/// Whether every plan whose status speaks of an output has one.
pub open spec fn conversions_complete(plans: Seq<ConversionPlanView>) -> bool {
    forall|i: int|
        0 <= i < plans.len() ==> {
            let plan = #[trigger] plans[i];
            plan.status == ConversionPlanStatus::Ready || plan.status
                == ConversionPlanStatus::OutputExists ==> plan.output is Some
        }
}

/// The places that the conversion of the queue looks at: for each source the
/// one beside it and, if it is in the library, the one to which a conversion
/// writes.
pub open spec fn outputs(root: PathView, queued: Seq<PathView>) -> Seq<PathView>
    decreases queued.len(),
{
    if queued.len() == 0 {
        Seq::empty()
    } else {
        let source = queued.last();
        let before = outputs(root, queued.drop_last()).push(beside(source));
        match converted_path(root, source) {
            Some(target) => before.push(target),
            None => before,
        }
    }
}

/// The places that the conversion of the queue looks at: the files of which it
/// must be known whether they exist before a preview is made.
pub fn proposed_outputs(root: &FilePath, queued: &Vec<FilePath>) -> (paths: Vec<FilePath>)
    ensures
        paths.deep_view() == outputs(root@, queued.deep_view()),
{
    let ghost views = queued.deep_view();
    let mut paths: Vec<FilePath> = Vec::new();
    let mut next: usize = 0;
    proof {
        assert(views.take(0) =~= Seq::empty());
        assert(paths.deep_view() =~= Seq::empty());
    }
    while next < queued.len()
        invariant
            next <= queued@.len(),
            views == queued.deep_view(),
            paths.deep_view() == outputs(root@, views.take(next as int)),
        decreases queued.len() - next,
    {
        let ghost before = paths.deep_view();
        assert(views.take(next + 1).drop_last() =~= views.take(next as int));
        paths.push(queued[next].with_extension("m4a"));
        assert(paths.deep_view() =~= before.push(beside(views[next as int])));
        match output_path(root, &queued[next]) {
            Ok(target) => {
                let ghost so_far = paths.deep_view();
                let ghost view = target@;
                paths.push(target);
                assert(paths.deep_view() =~= so_far.push(view));
            },
            Err(_) => {},
        }
        next += 1;
    }
    assert(views.take(views.len() as int) =~= views);
    paths
}

/// What converting the files in `queued` would do, where the files at
/// `existing` exist: one that is in the library at `root` and not M4A yet is
/// ready, unless there is an M4A file beside it or at the place to which it would
/// be written. What is ready is shown with the place beside it.
pub fn build_conversion_preview(
    root: &FilePath,
    queued: &Vec<FilePath>,
    existing: &Vec<FilePath>,
) -> (preview: ConversionPreview)
    ensures
        preview@.plans == conversion_plans(root@, queued.deep_view(), existing.deep_view()),
        conversions_complete(preview@.plans),
        preview@.scroll == 0,
{
    let ghost wanted = conversion_plans(root@, queued.deep_view(), existing.deep_view());
    let mut plans: Vec<ConversionPlan> = Vec::new();
    let mut next: usize = 0;
    while next < queued.len()
        invariant
            next <= queued@.len(),
            wanted == conversion_plans(root@, queued.deep_view(), existing.deep_view()),
            plans.deep_view() == wanted.take(next as int),
        decreases queued.len() - next,
    {
        let ghost before = plans.deep_view();
        let source = queued[next].copy();
        let plan = if source.is_m4a() {
            let output = source.copy();
            ConversionPlan {
                source,
                output: Some(output),
                status: ConversionPlanStatus::AlreadyM4a,
            }
        } else {
            match output_path(root, &source) {
                Err(_) => ConversionPlan {
                    source,
                    output: None,
                    status: ConversionPlanStatus::OutsideLibrary,
                },
                Ok(target) => {
                    let output = source.with_extension("m4a");
                    if contains_path(existing, &output) {
                        ConversionPlan {
                            source,
                            output: Some(output),
                            status: ConversionPlanStatus::OutputExists,
                        }
                    } else if contains_path(existing, &target) {
                        ConversionPlan {
                            source,
                            output: Some(target),
                            status: ConversionPlanStatus::OutputExists,
                        }
                    } else {
                        ConversionPlan {
                            source,
                            output: Some(output),
                            status: ConversionPlanStatus::Ready,
                        }
                    }
                },
            }
        };
        assert(plan@ =~= wanted[next as int]);
        plans.push(plan);
        assert(plans.deep_view() =~= before.push(wanted[next as int]));
        assert(plans.deep_view() =~= wanted.take(next + 1));
        next += 1;
    }
    assert(plans.deep_view() =~= wanted);
    ConversionPreview { plans, scroll: 0 }
}

/// Converting is safe: a file is ready exactly if it is in the library and not
/// M4A yet, and neither the place beside it, which the preview shows, nor its
/// place in the library of converted files is taken.
pub proof fn law_ready_conversions_are_safe(
    root: PathView,
    source: PathView,
    existing: Seq<PathView>,
)
    ensures
        conversion_plan(root, source, existing).status == ConversionPlanStatus::Ready <==> {
            &&& source.starts_with(root)
            &&& !source.is_m4a()
            &&& !holds(existing, beside(source))
            &&& !holds(existing, converted_path(root, source).unwrap())
        },
        conversion_plan(root, source, existing).status == ConversionPlanStatus::Ready
            ==> conversion_plan(root, source, existing).output == Some(beside(source)),
{
}

/// What is ready can be converted: for a file that is ready there is a job, and
/// the file that the job writes takes the place of none. The job writes into the
/// library of converted files, which is not the place that the preview shows.
pub proof fn law_ready_conversions_write_to_a_free_place(
    root: PathView,
    source: PathView,
    existing: Seq<PathView>,
)
    ensures
        conversion_plan(root, source, existing).status == ConversionPlanStatus::Ready
            ==> !holds(existing, converted_path(root, source).unwrap()),
        conversion_plan(root, source, existing).status == ConversionPlanStatus::Ready
            && source.file_name() is Some ==> (planned_job(root, source) matches Ok(job) && Some(
            job.output,
        ) == converted_path(root, source) && !holds(existing, job.output)),
        conversion_plan(root, source, existing).status == ConversionPlanStatus::Ready
            && source.file_name() is Some && source.route().parts.len() > root.route().parts.len()
            && !root.is_empty() ==> (conversion_plan(root, source, existing).output matches Some(
            shown,
        ) && shown.route() != converted_path(root, source).unwrap().route()),
{
    if conversion_plan(root, source, existing).status == ConversionPlanStatus::Ready
        && source.file_name() is Some {
        lemma_output_has_parent(root, source);
        if source.route().parts.len() > root.route().parts.len() && !root.is_empty() {
            law_output_preserves_subfolders(root, source);
            law_with_m4a_extension(source);
            law_parent_leaves_out_the_last_part(source);
            law_parent_leaves_out_the_last_part(beside(source));
            let base = root.route().parts;
            let shown = beside(source).route();
            let given = source.route();
            assert(shown.absolute == given.absolute);
            assert(shown.parts.drop_last() == given.parts.drop_last());
            assert(shown.parts.drop_last().len() == shown.parts.len() - 1);
            assert(shown.parts.take(base.len() as int) =~= given.parts.take(base.len() as int)) by {
                assert forall|i: int| 0 <= i < base.len() implies shown.parts[i]
                    == given.parts[i] by {
                    assert(shown.parts.drop_last()[i] == given.parts.drop_last()[i]);
                }
            }
            assert(beside(source).starts_with(root));
        }
    }
}

/// The sources that are ready to be converted, or those that are not.
pub open spec fn sources_where(plans: Seq<ConversionPlanView>, ready: bool) -> Seq<PathView>
    decreases plans.len(),
{
    if plans.len() == 0 {
        Seq::empty()
    } else {
        let before = sources_where(plans.drop_last(), ready);
        if (plans.last().status == ConversionPlanStatus::Ready) == ready {
            before.push(plans.last().source)
        } else {
            before
        }
    }
}

/// A preview parts its files into those that are ready and those that are not,
/// and loses none.
pub proof fn law_preview_parts_the_queue(plans: Seq<ConversionPlanView>)
    ensures
        sources_where(plans, true).len() + sources_where(plans, false).len() == plans.len(),
        forall|i: int|
            0 <= i < plans.len() ==> sources_where(
                plans,
                (#[trigger] plans[i]).status == ConversionPlanStatus::Ready,
            ).contains(plans[i].source),
    decreases plans.len(),
{
    if plans.len() > 0 {
        let before = plans.drop_last();
        law_preview_parts_the_queue(before);
        assert forall|i: int| 0 <= i < plans.len() implies sources_where(
            plans,
            (#[trigger] plans[i]).status == ConversionPlanStatus::Ready,
        ).contains(plans[i].source) by {
            let ready = plans[i].status == ConversionPlanStatus::Ready;
            let all = sources_where(plans, ready);
            if i < before.len() {
                assert(before[i] == plans[i]);
                let part = sources_where(before, ready);
                let k = choose|k: int| 0 <= k < part.len() && part[k] == plans[i].source;
                assert(all[k] == part[k]);
            } else {
                assert(all[all.len() - 1] == plans[i].source);
            }
        }
    }
}

impl ConversionPreview {
    /// How many files are ready to be converted.
    pub fn ready_count(&self) -> (count: usize)
        ensures
            count == sources_where(self@.plans, true).len(),
            count <= self@.plans.len(),
    {
        self.sources(true).len()
    }

    /// How many files are not.
    pub fn skipped_count(&self) -> (count: usize)
        ensures
            count == self@.plans.len() - sources_where(self@.plans, true).len(),
            count == sources_where(self@.plans, false).len(),
    {
        proof {
            law_preview_parts_the_queue(self@.plans);
        }
        self.plans.len() - self.ready_count()
    }

    /// The sources that are ready to be converted, or those that are not.
    pub fn sources(&self, ready: bool) -> (paths: Vec<FilePath>)
        ensures
            paths.deep_view() == sources_where(self@.plans, ready),
            paths@.len() <= self@.plans.len(),
    {
        let ghost plans = self@.plans;
        let mut paths: Vec<FilePath> = Vec::new();
        let mut next: usize = 0;
        proof {
            assert(plans.take(0) =~= Seq::empty());
            assert(paths.deep_view() =~= Seq::empty());
        }
        while next < self.plans.len()
            invariant
                next <= self.plans@.len(),
                paths@.len() <= next,
                plans == self.plans.deep_view(),
                paths.deep_view() == sources_where(plans.take(next as int), ready),
            decreases self.plans.len() - next,
        {
            assert(plans.take(next + 1).drop_last() =~= plans.take(next as int));
            if (self.plans[next].status == ConversionPlanStatus::Ready) == ready {
                let ghost before = paths.deep_view();
                paths.push(self.plans[next].source.copy());
                assert(paths.deep_view() =~= before.push(plans[next as int].source));
            }
            next += 1;
        }
        assert(plans.take(plans.len() as int) =~= plans);
        paths
    }
}

/// A conversion under way: how many files it has, how many were processed, how
/// many of these with and how many without success, and the current one.
pub struct ConversionProgress {
    pub total: usize,
    pub processed: usize,
    pub successful: usize,
    pub unsuccessful: usize,
    pub current_path: Option<FilePath>,
}

/// What the progress of a conversion says.
#[verifier::ext_equal]
pub struct ProgressView {
    pub total: usize,
    pub processed: usize,
    pub successful: usize,
    pub unsuccessful: usize,
    pub current_path: Option<PathView>,
}

impl View for ConversionProgress {
    type V = ProgressView;

    open spec fn view(&self) -> ProgressView {
        ProgressView {
            total: self.total,
            processed: self.processed,
            successful: self.successful,
            unsuccessful: self.unsuccessful,
            current_path: self.current_path.deep_view(),
        }
    }
}

impl DeepView for ConversionProgress {
    type V = ProgressView;

    open spec fn deep_view(&self) -> ProgressView {
        self@
    }
}

/// What a conversion under way reports.
pub enum ConversionUpdate {
    Started(FilePath),
    Finished { source: FilePath, result: Result<CompletedConversion, String> },
}

/// What a report says.
pub enum UpdateView {
    Started(PathView),
    Finished { source: PathView, result: Result<CompletedView, Seq<char>> },
}

impl View for ConversionUpdate {
    type V = UpdateView;

    open spec fn view(&self) -> UpdateView {
        match self {
            ConversionUpdate::Started(path) => UpdateView::Started(path@),
            ConversionUpdate::Finished { source, result } => UpdateView::Finished {
                source: source@,
                result: match result {
                    Ok(completed) => Ok(completed@),
                    Err(error) => Err(error@),
                },
            },
        }
    }
}

impl DeepView for ConversionUpdate {
    type V = UpdateView;

    open spec fn deep_view(&self) -> UpdateView {
        self@
    }
}

/// A file that was not converted, and why.
pub struct ConversionFailure {
    pub source: FilePath,
    pub error: String,
}

/// What a failed conversion says.
#[verifier::ext_equal]
pub struct FailureView {
    pub source: PathView,
    pub error: Seq<char>,
}

impl View for ConversionFailure {
    type V = FailureView;

    open spec fn view(&self) -> FailureView {
        FailureView { source: self.source@, error: self.error@ }
    }
}

impl DeepView for ConversionFailure {
    type V = FailureView;

    open spec fn deep_view(&self) -> FailureView {
        self@
    }
}

/// What came of a conversion, and how far it is scrolled.
pub struct ConversionResult {
    pub successful: Vec<CompletedConversion>,
    pub failures: Vec<ConversionFailure>,
    pub remaining_queued: usize,
    pub scroll: usize,
}

/// What the result of a conversion says.
#[verifier::ext_equal]
pub struct ResultView {
    pub successful: Seq<CompletedView>,
    pub failures: Seq<FailureView>,
    pub remaining_queued: usize,
    pub scroll: usize,
}

impl View for ConversionResult {
    type V = ResultView;

    open spec fn view(&self) -> ResultView {
        ResultView {
            successful: self.successful.deep_view(),
            failures: self.failures.deep_view(),
            remaining_queued: self.remaining_queued,
            scroll: self.scroll,
        }
    }
}

impl DeepView for ConversionResult {
    type V = ResultView;

    open spec fn deep_view(&self) -> ResultView {
        self@
    }
}

impl ResultView {
    /// How many files the conversion had.
    pub open spec fn total(self) -> nat {
        self.successful.len() + self.failures.len()
    }
}

impl ConversionResult {
    /// How many files the conversion had.
    pub fn total(&self) -> (total: usize)
        requires
            self@.total() <= usize::MAX,
        ensures
            total == self@.total(),
    {
        self.successful.len() + self.failures.len()
    }
}

// ---------------------------------------------------------------------------
// Scrolling
// ---------------------------------------------------------------------------

/// Where a list of `count` entries is scrolled to, one entry further down.
pub open spec fn one_down(scroll: int, count: int) -> int {
    if scroll + 1 < count {
        scroll + 1
    } else if count > 0 {
        count - 1
    } else {
        0
    }
}

/// Where a list is scrolled to, one entry further up.
pub open spec fn one_up(scroll: int) -> int {
    if scroll > 0 {
        scroll - 1
    } else {
        0
    }
}

/// Scrolls a list of `count` entries down by one.
pub fn scroll_down(scroll: usize, count: usize) -> (result: usize)
    ensures
        result == one_down(scroll as int, count as int),
{
    if count == 0 {
        0
    } else if scroll < count - 1 {
        scroll + 1
    } else {
        count - 1
    }
}

/// Scrolls a list up by one.
pub fn scroll_up(scroll: usize) -> (result: usize)
    ensures
        result == one_up(scroll as int),
{
    if scroll > 0 {
        scroll - 1
    } else {
        0
    }
}

} // verus!
