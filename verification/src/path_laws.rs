//! What the bytes of a path name, said of the separators and dots in them.

use vstd::prelude::*;
use crate::conversion::lemma_dot_position_absent;
use crate::path::{dot, dot_dot, dot_position, extension_of, lemma_segments_concat, lower_bytes};
use crate::path::{lemma_segments_not_empty, lemma_segments_of_part, segments, stem_of, written};
use crate::path::{holds, kept, PathView};
use crate::queue_laws::{leads_there, lemma_leads_there};

verus! {

/// A name alone is a path of one part.
pub proof fn law_a_name_is_one_part(name: Seq<u8>)
    requires
        name.len() > 0,
        !name.contains('/' as u8),
    ensures
        written(name).route().parts == seq![name],
        !written(name).route().absolute,
        written(Seq::empty()).route().parts.len() == 0,
        !written(Seq::empty()).route().absolute,
{
    lemma_segments_of_part(name);
    assert(name.contains(name[0]));
    assert(seq![name].drop_last() =~= Seq::empty());
    assert(kept(seq![name].drop_last()) =~= Seq::empty());
    assert(kept(segments(name)) =~= seq![name]);
    let none = Seq::<u8>::empty();
    lemma_segments_of_part(none);
    assert(seq![none].drop_last() =~= Seq::empty());
    assert(kept(seq![none].drop_last()).len() == 0);
}

/// A separator and a name behind a path add the name to its parts. A separator
/// and nothing, or a dot, add nothing. A path that starts with a separator is
/// absolute.
pub proof fn law_separators_part_a_path(before: Seq<u8>, name: Seq<u8>)
    requires
        !name.contains('/' as u8),
    ensures
        ({
            let whole = written(before.push('/' as u8) + name).route();
            let parts = written(before).route().parts;
            &&& name.len() > 0 && name != seq!['.' as u8] ==> whole.parts == parts.push(name)
            &&& name.len() == 0 || name == seq!['.' as u8] ==> whole.parts == parts
            &&& before.len() > 0 ==> whole.absolute == written(before).route().absolute
            &&& before.len() == 0 ==> whole.absolute
        }),
{
    let whole = before.push('/' as u8) + name;
    lemma_segments_concat(before, name);
    lemma_segments_of_part(name);
    lemma_segments_not_empty(before);
    let list = segments(before);
    assert(segments(whole) =~= list.push(name));
    assert(list.push(name).drop_last() =~= list);
    assert(dot() =~= seq!['.' as u8]);
    assert(whole[0] == (if before.len() > 0 {
        before[0]
    } else {
        '/' as u8
    }));
}

/// The name of the file at a path is its last part, unless that leads to a
/// folder by dots.
pub proof fn law_last_part_is_the_name(path: PathView)
    ensures
        ({
            let parts = path.route().parts;
            let dots = parts.last() == seq!['.' as u8] || parts.last() == seq![
                '.' as u8,
                '.' as u8,
            ];
            &&& parts.len() > 0 && !dots ==> path.file_name() == Some(parts.last())
            &&& parts.len() == 0 || dots ==> path.file_name() is None
        }),
{
    assert(dot() =~= seq!['.' as u8]);
    assert(dot_dot() =~= seq!['.' as u8, '.' as u8]);
}

proof fn lemma_no_dot(name: Seq<u8>, end: int)
    requires
        end <= name.len(),
        forall|i: int| 0 < i < end ==> name[i] != 46u8,
    ensures
        dot_position(name, end) is None,
    decreases end,
{
    if end > 1 {
        lemma_no_dot(name, end - 1);
    }
}

/// The last dot of a name parts its stem from its extension. A name without a
/// dot, but for one at its start, has no extension and is its own stem.
pub proof fn law_last_dot_parts_the_extension(stem: Seq<u8>, extension: Seq<u8>, name: Seq<u8>)
    requires
        stem.len() > 0,
        !extension.contains('.' as u8),
        forall|i: int| 0 < i < name.len() ==> name[i] != '.' as u8,
    ensures
        extension_of(stem.push('.' as u8) + extension) == Some(extension),
        stem_of(stem.push('.' as u8) + extension) == stem,
        extension_of(name) is None,
        stem_of(name) == name,
{
    let whole = stem.push('.' as u8) + extension;
    assert forall|i: int| stem.len() < i < whole.len() implies whole[i] != 46u8 by {
        assert(whole[i] == extension[i - stem.len() - 1]);
        assert(extension.contains(extension[i - stem.len() - 1]));
    }
    lemma_dot_position_absent(whole, stem.len() as int, whole.len() as int);
    assert(whole.skip(stem.len() as int + 1) =~= extension);
    assert(whole.take(stem.len() as int) =~= stem);
    lemma_no_dot(name, name.len() as int);
}

/// The case of the ASCII letters in an extension is lowered, and nothing else of
/// it changes.
pub proof fn law_extensions_are_lowered(bytes: Seq<u8>, i: int)
    requires
        0 <= i < bytes.len(),
    ensures
        lower_bytes(bytes).len() == bytes.len(),
        'A' as u8 <= bytes[i] <= 'Z' as u8 ==> lower_bytes(bytes)[i] - 'a' as u8 == bytes[i]
            - 'A' as u8,
        !('A' as u8 <= bytes[i] <= 'Z' as u8) ==> lower_bytes(bytes)[i] == bytes[i],
{
}

/// A list of paths holds a path where one of them leads to the same place,
/// however it is written.
pub proof fn law_lists_hold_places(paths: Seq<PathView>, path: PathView)
    ensures
        holds(paths, path) <==> leads_there(paths, path),
{
    lemma_leads_there(paths, path);
}

} // verus!
