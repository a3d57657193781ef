//! Converting tracks to M4A: where the output goes, in which steps a track is
//! converted, and when the output counts as verified.

use vstd::prelude::*;
use vstd::utf8::*;
use crate::path::FilePath;
use crate::path::{dot, dot_dot, dot_position, extension_of, lower_bytes, separator, stem_of};
use crate::path::{law_join_joins_routes, law_parent_leaves_out_the_last_part, law_route_wf};
use crate::path::{law_strip_leaves_what_follows, lemma_last_part_replaced, written};
use crate::path::{PathView, Route};
use crate::text::{bytes_of, chars_of, from_utf8_lossy, text_between};
use crate::text::lossy_text;

verus! {

broadcast use crate::text::lemma_bytes_deep_view;

/// A track that was converted, and the file it was converted to.
#[derive(Clone, Debug)]
pub struct CompletedConversion {
    pub original: FilePath,
    pub output: FilePath,
}

/// What a completed conversion says.
#[verifier::ext_equal]
pub struct CompletedView {
    pub original: PathView,
    pub output: PathView,
}

impl View for CompletedConversion {
    type V = CompletedView;

    open spec fn view(&self) -> CompletedView {
        CompletedView { original: self.original@, output: self.output@ }
    }
}

impl DeepView for CompletedConversion {
    type V = CompletedView;

    open spec fn deep_view(&self) -> CompletedView {
        self@
    }
}

impl CompletedConversion {
    /// A copy of the completed conversion.
    pub fn copy(&self) -> (copy: CompletedConversion)
        ensures
            copy@ == self@,
    {
        CompletedConversion { original: self.original.copy(), output: self.output.copy() }
    }
}

// ---------------------------------------------------------------------------
// Where the output goes
// ---------------------------------------------------------------------------

/// The extension of the converted files.
pub open spec fn m4a() -> Seq<u8> {
    encode_utf8("m4a"@)
}

/// The library of converted files beside the library at `root`.
pub open spec fn converted_library(root: PathView) -> PathView {
    let name = match root.file_name_text() {
        Some(name) => name,
        None => "music"@,
    };
    let parent = match root.parent() {
        Some(parent) => parent,
        None => written(encode_utf8("."@)),
    };
    parent.join(written(encode_utf8(name + "-m4a"@)))
}

/// The place of a converted file in the library of converted files.
pub open spec fn converted_path(root: PathView, source: PathView) -> Option<PathView> {
    match source.strip_prefix(root) {
        Some(relative) => Some(converted_library(root).join(relative).with_extension(m4a())),
        None => None,
    }
}

/// The library of converted files: the sibling of the library at
/// `library_root` whose name ends in `-m4a`.
pub fn output_root(library_root: &FilePath) -> (root: FilePath)
    ensures
        root@ == converted_library(library_root@),
{
    let mut name = match library_root.file_name_text() {
        Some(name) => name,
        None => "music".to_owned(),
    };
    name.append("-m4a");
    let parent = match library_root.parent() {
        Some(parent) => parent,
        None => FilePath::from_text("."),
    };
    parent.join(&FilePath::from_text(name.as_str()))
}

/// The place of the converted `source` in the library of converted files: in
/// the same subfolder, with the extension `m4a`. A source outside the library
/// has none.
pub fn output_path(library_root: &FilePath, source: &FilePath) -> (output: Result<FilePath, String>)
    ensures
        match converted_path(library_root@, source@) {
            Some(path) => output matches Ok(output) && output@ == path,
            None => output matches Err(error) && error@
                == "source is outside the selected music library"@,
        },
{
    match source.strip_prefix(library_root) {
        Some(relative) => Ok(output_root(library_root).join(&relative).with_extension("m4a")),
        None => Err("source is outside the selected music library".to_owned()),
    }
}

pub(crate) proof fn lemma_m4a_bytes()
    ensures
        m4a() == seq![109u8, 52u8, 97u8],
        lower_bytes(m4a()) == m4a(),
        !m4a().contains(46u8),
        !m4a().contains(47u8),
{
    reveal_strlit("m4a");
    is_ascii_chars_encode_utf8("m4a"@);
    assert(m4a() =~= seq![109u8, 52u8, 97u8]);
    assert(lower_bytes(m4a()) =~= m4a());
}

pub(crate) proof fn lemma_dot_position_absent(name: Seq<u8>, start: int, end: int)
    requires
        0 < start < end <= name.len(),
        name[start] == 46u8,
        forall|i: int| start < i < end ==> name[i] != 46u8,
    ensures
        dot_position(name, end) == Some(start),
    decreases end - start,
{
    if end - 1 > start {
        lemma_dot_position_absent(name, start, end - 1);
    }
}

pub(crate) proof fn lemma_dot_position_range(name: Seq<u8>, end: int)
    requires
        end <= name.len(),
    ensures
        dot_position(name, end) matches Some(at) ==> 0 < at < end,
    decreases end,
{
    if end > 1 && name[end - 1] != 46u8 {
        lemma_dot_position_range(name, end - 1);
    }
}

/// A name given an extension without a dot has that extension, and the stem it
/// had before.
pub proof fn law_extension_given(name: Seq<u8>, extension: Seq<u8>)
    requires
        name.len() > 0,
        !extension.contains(46u8),
    ensures
        extension_of(stem_of(name).push(46u8) + extension) == Some(extension),
        stem_of(stem_of(name).push(46u8) + extension) == stem_of(name),
{
    lemma_dot_position_range(name, name.len() as int);
    let stem = stem_of(name);
    let whole = stem.push(46u8) + extension;
    assert forall|i: int| stem.len() < i < whole.len() implies whole[i] != 46u8 by {
        assert(whole[i] == extension[i - stem.len() - 1]);
        assert(extension.contains(extension[i - stem.len() - 1]));
    }
    lemma_dot_position_absent(whole, stem.len() as int, whole.len() as int);
    assert(whole.skip(stem.len() as int + 1) =~= extension);
    assert(whole.take(stem.len() as int) =~= stem);
}

/// The name of a file with the extension `m4a` is a proper one.
proof fn lemma_m4a_name(path: PathView)
    requires
        path.file_name() is Some,
    ensures
        ({
            let name = stem_of(path.file_name().unwrap()).push(46u8) + m4a();
            &&& name.len() > 4
            &&& !name.contains(separator())
            &&& name != dot()
            &&& name != dot_dot()
            &&& extension_of(name) == Some(m4a())
            &&& stem_of(name) == stem_of(path.file_name().unwrap())
        }),
{
    lemma_m4a_bytes();
    law_route_wf(path);
    let parts = path.route().parts;
    let name = path.file_name().unwrap();
    assert(parts[parts.len() - 1].len() > 0);
    assert(!name.contains(separator()));
    law_extension_given(name, m4a());
    lemma_dot_position_range(name, name.len() as int);
    let stem = stem_of(name);
    let whole = stem.push(46u8) + m4a();
    assert(dot().len() == 1 && dot_dot().len() == 2);
    if whole.contains(separator()) {
        let k = choose|k: int| 0 <= k < whole.len() && whole[k] == separator();
        if k < stem.len() {
            assert(name[k] == separator());
        } else if k > stem.len() {
            assert(m4a()[k - stem.len() - 1] == separator());
        }
    }
}

/// What a path names once its extension is `m4a`.
proof fn lemma_m4a_route(path: PathView)
    requires
        path.file_name() is Some,
    ensures
        path.with_extension(m4a()).route() == (Route {
            absolute: path.route().absolute,
            parts: path.route().parts.drop_last().push(
                stem_of(path.file_name().unwrap()).push(46u8) + m4a(),
            ),
        }),
{
    lemma_m4a_name(path);
    lemma_last_part_replaced(path, stem_of(path.file_name().unwrap()).push(46u8) + m4a());
}

/// Replacing the extension of a path by `m4a` gives an M4A path in the same
/// folder with the same stem.
pub proof fn law_with_m4a_extension(path: PathView)
    requires
        path.file_name() is Some,
    ensures
        path.with_extension(m4a()).is_m4a(),
        path.with_extension(m4a()).stem_text() == path.stem_text(),
        path.with_extension(m4a()).parent() matches Some(folder) && folder.route()
            == path.parent().unwrap().route(),
{
    lemma_m4a_bytes();
    lemma_m4a_name(path);
    lemma_m4a_route(path);
    let after = path.with_extension(m4a());
    law_parent_leaves_out_the_last_part(path);
    law_parent_leaves_out_the_last_part(after);
    assert(after.route().parts.drop_last() =~= path.route().parts.drop_last());
}

/// Converting preserves subfolders: the output stands in the library of
/// converted files, and so outside the library, in the folder that the source
/// has in its library, and has its stem and the extension `m4a`.
pub proof fn law_output_preserves_subfolders(root: PathView, source: PathView)
    requires
        !root.is_empty(),
        source.starts_with(root),
        source.route().parts.len() > root.route().parts.len(),
        source.file_name() is Some,
    ensures
        ({
            let relative = source.strip_prefix(root).unwrap();
            let output = converted_path(root, source).unwrap();
            &&& output.route() == converted_library(root).join(
                relative.with_extension(m4a()),
            ).route()
            &&& output.starts_with(converted_library(root))
            &&& !output.starts_with(root)
            &&& output.parent() matches Some(folder) && folder.route() == converted_library(
                root,
            ).join(relative.parent().unwrap()).route()
            &&& output.stem_text() == source.stem_text()
            &&& output.is_m4a()
        }),
{
    let relative = source.strip_prefix(root).unwrap();
    let library = converted_library(root);
    let whole = library.join(relative);
    let output = converted_path(root, source).unwrap();
    let given = relative.with_extension(m4a());
    let name = source.file_name().unwrap();
    law_strip_leaves_what_follows(source, root);
    law_route_wf(source);
    law_join_joins_routes(root, relative);
    let base = root.route().parts;
    let parts = relative.route().parts;
    assert(!relative.route().absolute);
    assert(parts.last() == source.route().parts.last());
    assert(relative.file_name() == source.file_name());
    assert(parts[0] == source.route().parts[base.len() as int]);
    assert(parts[0] != dot());
    lemma_library_name(root);
    law_join_joins_routes(library, relative);
    law_join_joins_routes(library, given);
    assert(whole.route().parts == library.route().parts + parts);
    assert(whole.file_name() == source.file_name());
    lemma_m4a_name(source);
    lemma_m4a_route(relative);
    lemma_m4a_route(whole);
    law_with_m4a_extension(whole);
    assert(given.route().parts[0] != dot()) by {
        if parts.len() > 1 {
            assert(given.route().parts[0] == parts[0]);
        }
    }
    assert(output.route().parts =~= library.route().parts + given.route().parts);
    assert(output.route() =~= library.join(given).route());
    assert(output.route().parts.take(library.route().parts.len() as int)
        =~= library.route().parts);
    law_parent_leaves_out_the_last_part(whole);
    law_parent_leaves_out_the_last_part(relative);
    let above = relative.parent().unwrap();
    law_join_joins_routes(library, above);
    assert(above.route().parts.len() > 0 ==> above.route().parts[0] == parts[0]);
    assert(whole.parent().unwrap().route() =~= library.join(above).route()) by {
        assert(whole.route().parts.drop_last() =~= library.route().parts + above.route().parts);
    }
    if base.len() > 0 {
        let last = base.len() - 1;
        assert(output.route().parts.take(base.len() as int)[last] == library.route().parts[last]);
        if output.starts_with(root) {
            assert(output.route().parts.take(base.len() as int) == base);
        }
    }
}

/// The library of converted files is not the library: its name differs, or it
/// is relative where the library is the root.
pub(crate) proof fn lemma_library_name(root: PathView)
    ensures
        root.route().parts.len() > 0 ==> converted_library(root).route() == (Route {
            absolute: root.route().absolute,
            parts: root.route().parts.drop_last().push(
                encode_utf8(
                    (match root.file_name_text() {
                        Some(name) => name,
                        None => "music"@,
                    }) + "-m4a"@,
                ),
            ),
        }),
        !converted_library(root).is_empty(),
        !converted_library(root).route().is_empty(),
        root.route().parts.len() == 0 ==> !converted_library(root).route().absolute,
        root.route().parts.len() > 0 ==> {
            let library = converted_library(root).route().parts;
            library.len() == root.route().parts.len() && library.last() != root.route().parts.last()
        },
{
    reveal_strlit("-m4a");
    reveal_strlit("music");
    reveal_strlit(".");
    is_ascii_chars_encode_utf8("-m4a"@);
    is_ascii_chars_encode_utf8("music"@);
    is_ascii_chars_encode_utf8("."@);
    law_route_wf(root);
    let parts = root.route().parts;
    let head = match root.file_name_text() {
        Some(name) => name,
        None => "music"@,
    };
    let bytes = encode_utf8(head + "-m4a"@);
    crate::text::lemma_encode_concat(head, "-m4a"@);
    let start = encode_utf8(head);
    let tail = encode_utf8("-m4a"@);
    assert(tail =~= seq![45u8, 109u8, 52u8, 97u8]);
    assert(encode_utf8("."@) =~= seq![46u8]);
    assert(dot().len() == 1 && dot_dot().len() == 2);
    if root.file_name_text() is Some {
        let name = root.file_name().unwrap();
        decode_utf8_encode_utf8(name);
        assert(start == name);
        assert(name == parts[parts.len() - 1]);
        assert(!name.contains(separator()));
    } else {
        assert(start =~= seq![109u8, 117u8, 115u8, 105u8, 99u8]);
        encode_utf8_valid_utf8(head + "-m4a"@);
    }
    assert(!bytes.contains(separator())) by {
        if bytes.contains(separator()) {
            let i = choose|i: int| 0 <= i < bytes.len() && bytes[i] == separator();
            if i < start.len() {
                assert(start.contains(start[i]));
            } else {
                assert(tail[i - start.len()] == separator());
            }
        }
    }
    crate::path::lemma_single_part(bytes);
    let library = converted_library(root);
    law_parent_leaves_out_the_last_part(root);
    let folder = match root.parent() {
        Some(parent) => parent,
        None => written(encode_utf8("."@)),
    };
    law_join_joins_routes(folder, written(bytes));
    law_join_joins_routes(library, library);
    assert(library.route().parts =~= folder.route().parts.push(bytes)) by {
        assert(bytes.len() > 1);
        if folder.route().is_empty() {
            assert(folder.route().parts =~= Seq::empty());
        }
    }
    if parts.len() > 0 {
        if root.file_name_text() is Some {
            assert(bytes.len() == parts.last().len() + 4);
        } else if root.file_name() is Some {
            assert(!valid_utf8(parts.last()));
        }
    } else {
        assert(!folder.route().absolute);
    }
}

/// The output of a file has a folder.
pub(crate) proof fn lemma_output_has_parent(root: PathView, source: PathView)
    requires
        source.file_name() is Some,
        source.starts_with(root),
    ensures
        converted_path(root, source).unwrap().parent() is Some,
{
    lemma_library_name(root);
    law_strip_leaves_what_follows(source, root);
    let relative = source.strip_prefix(root).unwrap();
    let library = converted_library(root);
    let whole = library.join(relative);
    law_join_joins_routes(library, relative);
    if relative.route().absolute {
        assert(root.route().parts.len() == 0);
        assert(relative.route().parts =~= source.route().parts);
    } else {
        assert(whole.route().parts.len() >= library.route().parts.len());
        assert(library.route().parts.len() > 0);
    }
    if whole.file_name() is Some {
        lemma_m4a_route(whole);
    }
    law_parent_leaves_out_the_last_part(converted_path(root, source).unwrap());
}

// ---------------------------------------------------------------------------
// Converting a track, step by step
// ---------------------------------------------------------------------------

/// The files of one conversion: the source, the output, the folder of the
/// output, and the hidden file beside the output that is written first.
pub struct ConversionJob {
    pub source: FilePath,
    pub output: FilePath,
    pub folder: FilePath,
    pub temporary: FilePath,
}

/// The files of one conversion.
#[verifier::ext_equal]
pub struct JobView {
    pub source: PathView,
    pub output: PathView,
    pub folder: PathView,
    pub temporary: PathView,
}

impl View for ConversionJob {
    type V = JobView;

    open spec fn view(&self) -> JobView {
        JobView {
            source: self.source@,
            output: self.output@,
            folder: self.folder@,
            temporary: self.temporary@,
        }
    }
}

/// The hidden file beside `output` that a conversion writes first.
pub open spec fn temporary_path(output: PathView) -> PathView {
    let stem = match output.stem_text() {
        Some(stem) => stem,
        None => "output"@,
    };
    output.with_file_name(encode_utf8("."@ + stem + ".partial.m4a"@))
}

/// The files of the conversion of `source`, or why it cannot be converted.
pub open spec fn planned_job(root: PathView, source: PathView) -> Result<JobView, Seq<char>> {
    if source.is_m4a() {
        Err("the source is already an M4A file"@)
    } else {
        match converted_path(root, source) {
            None => Err("source is outside the selected music library"@),
            Some(output) => match output.parent() {
                None => Err("output path has no parent"@),
                Some(folder) => Ok(
                    JobView { source, output, folder, temporary: temporary_path(output) },
                ),
            },
        }
    }
}

/// Plans the conversion of `source`: an M4A file and a file outside the library
/// are refused.
pub fn plan_conversion(library_root: &FilePath, source: &FilePath) -> (job: Result<
    ConversionJob,
    String,
>)
    ensures
        match planned_job(library_root@, source@) {
            Ok(planned) => job matches Ok(job) && job@ == planned,
            Err(reason) => job matches Err(error) && error@ == reason,
        },
{
    if source.is_m4a() {
        return Err("the source is already an M4A file".to_owned());
    }
    let output = match output_path(library_root, source) {
        Ok(output) => output,
        Err(error) => return Err(error),
    };
    let folder = match output.parent() {
        Some(folder) => folder,
        None => return Err("output path has no parent".to_owned()),
    };
    let mut name = ".".to_owned();
    match output.stem_text() {
        Some(stem) => name.append(stem.as_str()),
        None => name.append("output"),
    }
    name.append(".partial.m4a");
    let temporary = output.with_file_name(name.as_str());
    Ok(ConversionJob { source: source.copy(), output, folder, temporary })
}

/// What a run of FFmpeg came to.
pub enum FfmpegOutcome {
    /// It could not be started, for this reason.
    NotStarted(String),
    /// It failed, and wrote this to its standard error.
    Failed(Vec<u8>),
    Succeeded,
}

/// What came of a step of a conversion.
pub enum ConversionEvent {
    OutputChecked { exists: bool },
    FolderCreated(Result<(), String>),
    TemporaryChecked { exists: bool },
    FfmpegRan(FfmpegOutcome),
    TemporaryVerified(Result<(), String>),
    Moved(Result<(), String>),
}

/// The next step of a conversion.
pub enum ConversionStep {
    CreateFolder,
    CheckTemporary,
    RunFfmpeg,
    VerifyTemporary,
    MoveIntoPlace,
    Finished(CompletedConversion),
    Failed(String),
}

/// What a step says.
pub enum StepView {
    CreateFolder,
    CheckTemporary,
    RunFfmpeg,
    VerifyTemporary,
    MoveIntoPlace,
    Finished(CompletedView),
    Failed(Seq<char>),
}

impl View for ConversionStep {
    type V = StepView;

    open spec fn view(&self) -> StepView {
        match self {
            ConversionStep::CreateFolder => StepView::CreateFolder,
            ConversionStep::CheckTemporary => StepView::CheckTemporary,
            ConversionStep::RunFfmpeg => StepView::RunFfmpeg,
            ConversionStep::VerifyTemporary => StepView::VerifyTemporary,
            ConversionStep::MoveIntoPlace => StepView::MoveIntoPlace,
            ConversionStep::Finished(completed) => StepView::Finished(completed@),
            ConversionStep::Failed(error) => StepView::Failed(error@),
        }
    }
}

/// The first line of a text, without what ends it.
pub open spec fn first_line(text: Seq<char>) -> Option<Seq<char>> {
    if text.len() == 0 {
        None
    } else {
        Some(line_from(text, 0))
    }
}

/// The first line of a text whose first `from` characters end no line.
pub open spec fn line_from(text: Seq<char>, from: int) -> Seq<char>
    decreases text.len() - from,
{
    if from >= text.len() {
        text
    } else if text[from] == '\n' {
        if from > 0 && text[from - 1] == '\r' {
            text.take(from - 1)
        } else {
            text.take(from)
        }
    } else {
        line_from(text, from + 1)
    }
}

fn first_line_of(text: &str) -> (line: Option<String>)
    ensures
        line.deep_view() == first_line(text@),
{
    let chars = chars_of(text);
    if chars.len() == 0 {
        return None;
    }
    let mut i: usize = 0;
    while i < chars.len()
        invariant
            i <= chars@.len(),
            chars@ == text@,
            chars@.len() > 0,
            first_line(text@) == Some(line_from(chars@, i as int)),
        decreases chars.len() - i,
    {
        if chars[i] == '\n' {
            if i > 0 && chars[i - 1] == '\r' {
                let line = text_between(&chars, 0, i - 1);
                assert(line@ =~= chars@.take(i - 1));
                return Some(line);
            }
            let line = text_between(&chars, 0, i);
            assert(line@ =~= chars@.take(i as int));
            return Some(line);
        }
        i += 1;
    }
    let line = text_between(&chars, 0, chars.len());
    assert(line@ =~= chars@);
    Some(line)
}

/// Why a conversion fails after an event, if it does.
pub open spec fn failure_after(job: JobView, event: ConversionEvent) -> Option<Seq<char>> {
    match event {
        ConversionEvent::OutputChecked { exists } => if exists {
            Some("output already exists: "@ + job.output.shown())
        } else {
            None
        },
        ConversionEvent::FolderCreated(Err(error)) => Some(error@),
        ConversionEvent::TemporaryChecked { exists } => if exists {
            Some("temporary output already exists: "@ + job.temporary.shown())
        } else {
            None
        },
        ConversionEvent::FfmpegRan(FfmpegOutcome::NotStarted(error)) => Some(
            "could not run ffmpeg: "@ + error@,
        ),
        ConversionEvent::FfmpegRan(FfmpegOutcome::Failed(stderr)) => Some(
            "ffmpeg failed: "@ + match first_line(lossy_text(stderr@)) {
                Some(line) => line,
                None => "unknown error"@,
            },
        ),
        ConversionEvent::TemporaryVerified(Err(error)) => Some(error@),
        ConversionEvent::Moved(Err(error)) => Some(error@),
        _ => None,
    }
}

/// The step that follows an event of a conversion.
pub open spec fn step_after(job: JobView, event: ConversionEvent) -> StepView {
    match failure_after(job, event) {
        Some(reason) => StepView::Failed(reason),
        None => match event {
            ConversionEvent::OutputChecked { .. } => StepView::CreateFolder,
            ConversionEvent::FolderCreated(_) => StepView::CheckTemporary,
            ConversionEvent::TemporaryChecked { .. } => StepView::RunFfmpeg,
            ConversionEvent::FfmpegRan(_) => StepView::VerifyTemporary,
            ConversionEvent::TemporaryVerified(_) => StepView::MoveIntoPlace,
            ConversionEvent::Moved(_) => StepView::Finished(
                CompletedView { original: job.source, output: job.output },
            ),
        },
    }
}

/// Decides what follows an event of a conversion. A conversion is finished only
/// when its verified output was moved into place; an output that exists is
/// never replaced.
pub fn next_step(job: &ConversionJob, event: &ConversionEvent) -> (step: ConversionStep)
    ensures
        step@ == step_after(job@, *event),
{
    match event {
        ConversionEvent::OutputChecked { exists } => if *exists {
            let mut error = "output already exists: ".to_owned();
            error.append(job.output.display().as_str());
            ConversionStep::Failed(error)
        } else {
            ConversionStep::CreateFolder
        },
        ConversionEvent::FolderCreated(result) => match result {
            Ok(_) => ConversionStep::CheckTemporary,
            Err(error) => ConversionStep::Failed(error.clone()),
        },
        ConversionEvent::TemporaryChecked { exists } => if *exists {
            let mut error = "temporary output already exists: ".to_owned();
            error.append(job.temporary.display().as_str());
            ConversionStep::Failed(error)
        } else {
            ConversionStep::RunFfmpeg
        },
        ConversionEvent::FfmpegRan(outcome) => match outcome {
            FfmpegOutcome::NotStarted(reason) => {
                let mut error = "could not run ffmpeg: ".to_owned();
                error.append(reason.as_str());
                ConversionStep::Failed(error)
            },
            FfmpegOutcome::Failed(stderr) => {
                let message = from_utf8_lossy(stderr);
                let mut error = "ffmpeg failed: ".to_owned();
                match first_line_of(message.as_str()) {
                    Some(line) => error.append(line.as_str()),
                    None => error.append("unknown error"),
                }
                ConversionStep::Failed(error)
            },
            FfmpegOutcome::Succeeded => ConversionStep::VerifyTemporary,
        },
        ConversionEvent::TemporaryVerified(result) => match result {
            Ok(_) => ConversionStep::MoveIntoPlace,
            Err(error) => ConversionStep::Failed(error.clone()),
        },
        ConversionEvent::Moved(result) => match result {
            Ok(_) => ConversionStep::Finished(
                CompletedConversion { original: job.source.copy(), output: job.output.copy() },
            ),
            Err(error) => ConversionStep::Failed(error.clone()),
        },
    }
}

/// Whether an event tells what came of a step.
pub open spec fn answers(step: StepView, event: ConversionEvent) -> bool {
    match step {
        StepView::CreateFolder => event is FolderCreated,
        StepView::CheckTemporary => event is TemporaryChecked,
        StepView::RunFfmpeg => event is FfmpegRan,
        StepView::VerifyTemporary => event is TemporaryVerified,
        StepView::MoveIntoPlace => event is Moved,
        StepView::Finished(_) => false,
        StepView::Failed(_) => false,
    }
}

/// Whether events are those of a run of a conversion: it starts by looking
/// whether the output exists, and each later event tells what came of the step
/// before.
pub open spec fn is_run(job: JobView, events: Seq<ConversionEvent>) -> bool {
    &&& events.len() > 0
    &&& events[0] is OutputChecked
    &&& forall|i: int|
        0 < i < events.len() ==> answers(step_after(job, events[i - 1]), #[trigger] events[i])
}

/// A conversion that is finished went all the way: the output was free, its
/// folder was made, the temporary file was free, FFmpeg succeeded, what it wrote
/// was verified, and then it was moved into place, in this order.
pub proof fn law_finished_conversions_went_all_the_way(job: JobView, events: Seq<ConversionEvent>)
    requires
        is_run(job, events),
        step_after(job, events.last()) is Finished,
    ensures
        step_after(job, events.last()) == StepView::Finished(
            CompletedView { original: job.source, output: job.output },
        ),
        events.len() == 6,
        events[0] == (ConversionEvent::OutputChecked { exists: false }),
        events[1] matches ConversionEvent::FolderCreated(Ok(_)),
        events[2] == (ConversionEvent::TemporaryChecked { exists: false }),
        events[3] matches ConversionEvent::FfmpegRan(FfmpegOutcome::Succeeded),
        events[4] matches ConversionEvent::TemporaryVerified(Ok(_)),
        events[5] matches ConversionEvent::Moved(Ok(_)),
{
    lemma_run_place(job, events, events.len() - 1);
    assert(events.len() == 6);
    assert(answers(step_after(job, events[0]), events[1]));
    assert(answers(step_after(job, events[1]), events[2]));
    assert(answers(step_after(job, events[2]), events[3]));
    assert(answers(step_after(job, events[3]), events[4]));
    assert(answers(step_after(job, events[4]), events[5]));
}

/// A run that has failed is over, and nothing was moved into place.
pub proof fn law_failed_conversions_are_over(job: JobView, events: Seq<ConversionEvent>, at: int)
    requires
        is_run(job, events),
        0 <= at < events.len(),
        step_after(job, events[at]) is Failed,
    ensures
        at == events.len() - 1,
        forall|i: int|
            0 <= i < events.len() ==> !(#[trigger] events[i] matches ConversionEvent::Moved(Ok(_))),
{
    lemma_run_place(job, events, at);
    if at + 1 < events.len() {
        assert(answers(step_after(job, events[at]), events[at + 1]));
    }
    assert forall|i: int| 0 <= i < events.len() implies !(#[trigger] events[i]
        matches ConversionEvent::Moved(Ok(_))) by {
        lemma_run_place(job, events, i);
    }
}

/// Which step an event of a run tells of, by its place.
proof fn lemma_run_place(job: JobView, events: Seq<ConversionEvent>, at: int)
    requires
        is_run(job, events),
        0 <= at < events.len(),
    ensures
        at < 6,
        match events[at] {
            ConversionEvent::OutputChecked { .. } => at == 0,
            ConversionEvent::FolderCreated(_) => at == 1,
            ConversionEvent::TemporaryChecked { .. } => at == 2,
            ConversionEvent::FfmpegRan(_) => at == 3,
            ConversionEvent::TemporaryVerified(_) => at == 4,
            ConversionEvent::Moved(_) => at == 5,
        },
    decreases at,
{
    if at > 0 {
        lemma_run_place(job, events, at - 1);
        assert(answers(step_after(job, events[at - 1]), events[at]));
    }
}

/// The arguments with which FFmpeg converts a job: it never overwrites a file,
/// keeps the metadata and the cover, and encodes the sound as AAC.
pub open spec fn ffmpeg_command(job: JobView) -> Seq<Seq<u8>> {
    seq![
        encode_utf8("-n"@),
        encode_utf8("-i"@),
        job.source.bytes,
        encode_utf8("-map"@),
        encode_utf8("0:a?"@),
        encode_utf8("-map"@),
        encode_utf8("0:v?"@),
        encode_utf8("-map_metadata"@),
        encode_utf8("0"@),
        encode_utf8("-c:a"@),
        encode_utf8("aac"@),
        encode_utf8("-b:a"@),
        encode_utf8("192k"@),
        encode_utf8("-c:v"@),
        encode_utf8("copy"@),
        job.temporary.bytes,
    ]
}

/// The arguments with which FFmpeg converts the source of `job` to its
/// temporary file.
pub fn ffmpeg_arguments(job: &ConversionJob) -> (arguments: Vec<Vec<u8>>)
    ensures
        arguments.deep_view() == ffmpeg_command(job@),
{
    let mut arguments: Vec<Vec<u8>> = Vec::new();
    arguments.push(bytes_of("-n"));
    arguments.push(bytes_of("-i"));
    arguments.push(job.source.to_bytes());
    arguments.push(bytes_of("-map"));
    arguments.push(bytes_of("0:a?"));
    arguments.push(bytes_of("-map"));
    arguments.push(bytes_of("0:v?"));
    arguments.push(bytes_of("-map_metadata"));
    arguments.push(bytes_of("0"));
    arguments.push(bytes_of("-c:a"));
    arguments.push(bytes_of("aac"));
    arguments.push(bytes_of("-b:a"));
    arguments.push(bytes_of("192k"));
    arguments.push(bytes_of("-c:v"));
    arguments.push(bytes_of("copy"));
    arguments.push(job.temporary.to_bytes());
    assert(arguments.deep_view() =~= ffmpeg_command(job@));
    arguments
}

/// Decides whether an output counts as verified, given the size of the file and
/// whether its metadata could be read: it must not be empty, and its metadata
/// must be readable.
pub fn verify_output(size: Result<u64, String>, metadata: Result<(), String>) -> (verified: Result<
    (),
    String,
>)
    ensures
        match size {
            Err(error) => verified matches Err(reason) && reason@ == error@,
            Ok(size) => if size == 0 {
                verified matches Err(reason) && reason@ == "FFmpeg produced an empty file"@
            } else {
                match metadata {
                    Ok(_) => verified is Ok,
                    Err(error) => verified matches Err(reason) && reason@
                        == "output metadata verification failed: "@ + error@,
                }
            },
        },
{
    match size {
        Err(error) => Err(error),
        Ok(size) => if size == 0 {
            Err("FFmpeg produced an empty file".to_owned())
        } else {
            match metadata {
                Ok(_) => Ok(()),
                Err(error) => {
                    let mut reason = "output metadata verification failed: ".to_owned();
                    reason.append(error.as_str());
                    Err(reason)
                },
            }
        },
    }
}

} // verus!
