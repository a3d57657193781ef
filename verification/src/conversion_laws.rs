//! Where a conversion reads and writes, and in which steps it goes.

use vstd::prelude::*;
use vstd::utf8::*;
use crate::actions::player_command;
use crate::conversion::{converted_library, converted_path, ffmpeg_command, first_line};
use crate::conversion::{line_from, lemma_dot_position_range, lemma_library_name, planned_job};
use crate::conversion::{step_after, temporary_path, CompletedView, ConversionEvent, JobView};
use crate::conversion::{FfmpegOutcome, StepView};
use crate::path::{law_join_joins_routes, law_parent_leaves_out_the_last_part};
use crate::path::{law_route_wf, law_strip_leaves_what_follows, separator, stem_of, written};
use crate::path::{PathView, Route};

verus! {

/// The library of converted files lies beside the library and has its name,
/// followed by `-m4a`. A name that is no text is `music`.
pub proof fn law_converted_library_lies_beside(root: PathView)
    requires
        root.route().parts.len() > 0,
    ensures
        ({
            let library = converted_library(root).route();
            let parts = root.route().parts;
            &&& library.absolute == root.route().absolute
            &&& library.parts.len() == parts.len()
            &&& forall|i: int|
                0 <= i < parts.len() - 1 ==> #[trigger] library.parts[i] == parts[i]
            &&& root.file_name_text() is Some ==> library.parts.last() == encode_utf8(
                root.file_name_text()->0 + "-m4a"@,
            )
            &&& root.file_name_text() is None ==> library.parts.last() == encode_utf8(
                "music"@ + "-m4a"@,
            )
        }),
{
    lemma_library_name(root);
}

/// The bytes of a name that is a dot, a stem and an ending hold no separator
/// where the stem holds none.
proof fn lemma_temporary_name(stem: Seq<char>)
    requires
        !encode_utf8(stem).contains(separator()),
    ensures
        encode_utf8("."@ + stem + ".partial.m4a"@).len() > 2,
        !encode_utf8("."@ + stem + ".partial.m4a"@).contains(separator()),
{
    reveal_strlit(".");
    reveal_strlit(".partial.m4a");
    let ending = ".partial.m4a"@;
    crate::preview::lemma_encoding_lacks("."@, separator());
    crate::preview::lemma_encoding_lacks(ending, separator());
    crate::text::lemma_encode_concat("."@ + stem, ending);
    crate::text::lemma_encode_concat("."@, stem);
    is_ascii_chars_encode_utf8(ending);
    let all = encode_utf8("."@ + stem + ending);
    let one = encode_utf8("."@);
    let two = encode_utf8(stem);
    let three = encode_utf8(ending);
    assert(all =~= one + two + three);
    if all.contains(separator()) {
        let i = choose|i: int| 0 <= i < all.len() && all[i] == separator();
        if i < one.len() {
            assert(one.contains(one[i]));
        } else if i < one.len() + two.len() {
            assert(two.contains(two[i - one.len()]));
        } else {
            assert(three.contains(three[i - one.len() - two.len()]));
        }
    }
}

/// What a conversion writes first lies beside its output, under a name of its
/// own: the stem of the output between a dot and `.partial.m4a`.
pub proof fn law_temporary_file_lies_beside(output: PathView)
    requires
        output.file_name() is Some,
        output.stem_text() is Some,
    ensures
        temporary_path(output).route() == (Route {
            absolute: output.route().absolute,
            parts: output.route().parts.drop_last().push(
                encode_utf8("."@ + output.stem_text()->0 + ".partial.m4a"@),
            ),
        }),
{
    let stem = output.stem_text()->0;
    let name = output.file_name()->0;
    let parts = output.route().parts;
    law_route_wf(output);
    assert(name == parts[parts.len() - 1]);
    assert(!name.contains(separator()));
    lemma_dot_position_range(name, name.len() as int);
    let bytes = stem_of(name);
    decode_utf8_encode_utf8(bytes);
    assert(encode_utf8(stem) == bytes);
    assert(!bytes.contains(separator())) by {
        if bytes.contains(separator()) {
            let i = choose|i: int| 0 <= i < bytes.len() && bytes[i] == separator();
            assert(name[i] == separator());
        }
    }
    lemma_temporary_name(stem);
    let own = encode_utf8("."@ + stem + ".partial.m4a"@);
    crate::path::lemma_single_part(own);
    law_parent_leaves_out_the_last_part(output);
    let folder = output.parent()->0;
    law_join_joins_routes(folder, written(own));
    assert(temporary_path(output).route().parts =~= parts.drop_last().push(own)) by {
        assert(crate::path::dot().len() == 1);
        if folder.route().is_empty() {
            assert(folder.route().parts =~= Seq::empty());
        }
    }
}

/// A file is converted unless it is M4A already or lies outside the library. The
/// job reads the file, writes its place in the library of converted files, in
/// the folder of that place, by way of the temporary file.
pub proof fn law_jobs_are_planned(root: PathView, source: PathView)
    ensures
        planned_job(root, source) is Ok <==> !source.is_m4a() && source.starts_with(root)
            && converted_path(root, source)->0.parent() is Some,
        source.is_m4a() ==> planned_job(root, source) == Err::<JobView, _>(
            "the source is already an M4A file"@,
        ),
        !source.is_m4a() && !source.starts_with(root) ==> planned_job(root, source) == Err::<
            JobView,
            _,
        >("source is outside the selected music library"@),
        planned_job(root, source) is Ok ==> ({
            let job = planned_job(root, source)->Ok_0;
            &&& job.source == source
            &&& Some(job.output) == converted_path(root, source)
            &&& Some(job.folder) == job.output.parent()
            &&& job.temporary == temporary_path(job.output)
        }),
{
    if source.starts_with(root) {
        law_strip_leaves_what_follows(source, root);
    }
}

/// The steps of a conversion follow each other as long as each succeeds, and the
/// first that does not ends it. An output or a temporary file that exists is not
/// touched.
pub proof fn law_steps_follow_each_other(job: JobView, event: ConversionEvent)
    ensures
        event == (ConversionEvent::OutputChecked { exists: false }) ==> step_after(job, event)
            is CreateFolder,
        event == (ConversionEvent::OutputChecked { exists: true }) ==> step_after(job, event)
            == StepView::Failed("output already exists: "@ + job.output.shown()),
        event matches ConversionEvent::FolderCreated(Ok(_)) ==> step_after(job, event)
            is CheckTemporary,
        event matches ConversionEvent::FolderCreated(Err(error)) ==> step_after(job, event)
            == StepView::Failed(error@),
        event == (ConversionEvent::TemporaryChecked { exists: false }) ==> step_after(job, event)
            is RunFfmpeg,
        event == (ConversionEvent::TemporaryChecked { exists: true }) ==> step_after(job, event)
            == StepView::Failed("temporary output already exists: "@ + job.temporary.shown()),
        event matches ConversionEvent::FfmpegRan(FfmpegOutcome::Succeeded) ==> step_after(
            job,
            event,
        ) is VerifyTemporary,
        event matches ConversionEvent::FfmpegRan(FfmpegOutcome::NotStarted(error)) ==> step_after(
            job,
            event,
        ) == StepView::Failed("could not run ffmpeg: "@ + error@),
        event matches ConversionEvent::FfmpegRan(FfmpegOutcome::Failed(_)) ==> step_after(
            job,
            event,
        ) is Failed,
        event matches ConversionEvent::TemporaryVerified(Ok(_)) ==> step_after(job, event)
            is MoveIntoPlace,
        event matches ConversionEvent::TemporaryVerified(Err(error)) ==> step_after(job, event)
            == StepView::Failed(error@),
        event matches ConversionEvent::Moved(Ok(_)) ==> step_after(job, event)
            == StepView::Finished(CompletedView { original: job.source, output: job.output }),
        event matches ConversionEvent::Moved(Err(error)) ==> step_after(job, event)
            == StepView::Failed(error@),
{
}

proof fn lemma_line_from(text: Seq<char>, from: int, end: int)
    requires
        0 <= from <= end <= text.len(),
        forall|i: int| from <= i < end ==> #[trigger] text[i] != '\n',
        end < text.len() ==> text[end] == '\n',
    ensures
        line_from(text, from) == (if end == text.len() {
            text
        } else if end > 0 && text[end - 1] == '\r' {
            text.take(end - 1)
        } else {
            text.take(end)
        }),
    decreases end - from,
{
    if from < end {
        assert(text[from] != '\n');
        lemma_line_from(text, from + 1, end);
    }
}

/// The first line of a text is what stands before its first line end, which is
/// one character or a carriage return and that. A text without a line end is its
/// first line, and an empty one has none.
pub proof fn law_first_line_stands_before_the_line_end(line: Seq<char>, rest: Seq<char>)
    requires
        !line.contains('\n'),
    ensures
        line.len() > 0 ==> first_line(line) == Some(line),
        line.len() == 0 ==> first_line(line) is None,
        line.len() == 0 || line.last() != '\r' ==> first_line(line.push('\n') + rest) == Some(line),
        first_line(line.push('\r').push('\n') + rest) == Some(line),
{
    let count = line.len() as int;
    assert forall|i: int| 0 <= i < count implies line[i] != '\n' by {
        assert(line.contains(line[i]));
    }
    if count > 0 {
        lemma_line_from(line, 0, count);
    }
    let text = line.push('\n') + rest;
    assert forall|i: int| 0 <= i < count implies #[trigger] text[i] != '\n' by {
        assert(text[i] == line[i]);
    }
    assert(text[count] == '\n');
    lemma_line_from(text, 0, count);
    assert(text.take(count) =~= line);
    if count > 0 {
        assert(text[count - 1] == line.last());
    }
    let text = line.push('\r').push('\n') + rest;
    assert forall|i: int| 0 <= i < count + 1 implies #[trigger] text[i] != '\n' by {
        if i < count {
            assert(text[i] == line[i]);
        }
    }
    assert(text[count + 1] == '\n');
    lemma_line_from(text, 0, count + 1);
    assert(text[count] == '\r');
    assert(text.take(count) =~= line);
}

/// FFmpeg reads the source and writes the temporary file alone, and is told
/// first never to overwrite a file. The player is given the file last.
pub proof fn law_commands_name_their_files(job: JobView, path: PathView)
    ensures
        ({
            let arguments = ffmpeg_command(job);
            &&& arguments.len() > 3
            &&& arguments[0] == encode_utf8("-n"@)
            &&& arguments[1] == encode_utf8("-i"@)
            &&& arguments[2] == job.source.bytes
            &&& arguments.last() == job.temporary.bytes
        }),
        player_command(path).len() > 0,
        player_command(path).last() == path.bytes,
{
}

} // verus!
