//! The orders in which tracks and albums come, said of their numbers, names
//! and titles.

use vstd::prelude::*;
use crate::albums::{album_names, albums_of, distinct, folder_key, folders_of, number_key};
use crate::albums::{placed_album, places, sorted_by_folder, sorted_tracks, titled_album};
use crate::albums::{with_sorted_tracks, AlbumView};
use crate::library::{scan_key, sorted_scan, TrackView};
use crate::order::{field_le, key_le, law_stable_order, stable_order, text_field};
use crate::path::PathView;

verus! {

/// Whether `left` does not come after `right` in a dictionary: it is a prefix
/// of `right`, or has the smaller character at the first place at which they
/// differ.
pub open spec fn no_later(left: Seq<char>, right: Seq<char>) -> bool {
    exists|same: int|
        0 <= same <= left.len() && same <= right.len() && #[trigger] left.take(same) == right.take(
            same,
        ) && (same == left.len() || (same < right.len() && (left[same] as u32) < (
        right[same] as u32)))
}

proof fn lemma_same_code(left: char, right: char)
    requires
        left as u32 == right as u32,
    ensures
        left == right,
{
}

proof fn lemma_text_fields(left: Seq<char>, right: Seq<char>)
    requires
        field_le(text_field(left), text_field(right)),
    ensures
        no_later(left, right),
    decreases left.len(),
{
    if left.len() == 0 {
        assert(left.take(0) =~= right.take(0));
    } else if (left[0] as u32) < (right[0] as u32) {
        assert(left.take(0) =~= right.take(0));
    } else {
        let shorter = left.skip(1);
        let other = right.skip(1);
        assert(text_field(left).skip(1) =~= text_field(shorter));
        assert(text_field(right).skip(1) =~= text_field(other));
        lemma_text_fields(shorter, other);
        assert(text_field(left)[0] == left[0] as u32);
        assert(text_field(right)[0] == right[0] as u32);
        lemma_same_code(left[0], right[0]);
        let same = choose|same: int|
            0 <= same <= shorter.len() && same <= other.len() && #[trigger] shorter.take(same)
                == other.take(same) && (same == shorter.len() || (same < other.len() && (
            shorter[same] as u32) < (other[same] as u32)));
        assert forall|i: int| 0 <= i < same + 1 implies left[i] == right[i] by {
            if i > 0 {
                assert(shorter.take(same)[i - 1] == left[i]);
                assert(other.take(same)[i - 1] == right[i]);
            }
        }
        assert(left.take(same + 1) =~= right.take(same + 1));
    }
}

proof fn lemma_same_field(left: Seq<char>, right: Seq<char>)
    requires
        text_field(left) == text_field(right),
    ensures
        left == right,
{
    assert(left.len() == text_field(left).len());
    assert(right.len() == text_field(right).len());
    assert forall|i: int| 0 <= i < left.len() implies left[i] == right[i] by {
        assert(text_field(left)[i] == left[i] as u32);
        assert(text_field(right)[i] == right[i] as u32);
        lemma_same_code(left[i], right[i]);
    }
    assert(left =~= right);
}

/// Whether two tracks share a place by number: their numbers are the same, or
/// one has the largest number there is and the other none.
pub open spec fn numbered_alike(first: Option<u32>, second: Option<u32>) -> bool {
    ||| first == second
    ||| first is None && second == Some(u32::MAX)
    ||| first == Some(u32::MAX) && second is None
}

/// Whether tracks are in the order of their numbers, as numbers. Tracks without
/// a number come last, beside those with the largest number there is. Tracks
/// with the same number are in the order of their titles.
pub open spec fn in_track_order(tracks: Seq<TrackView>) -> bool {
    forall|i: int, j: int|
        0 <= i < j < tracks.len() ==> ({
            let first = (#[trigger] tracks[i]).track_number;
            let second = (#[trigger] tracks[j]).track_number;
            &&& first is Some && second is Some ==> first->0 <= second->0
            &&& first is None && second is Some ==> second->0 == u32::MAX
            &&& numbered_alike(first, second) ==> no_later(tracks[i].title, tracks[j].title)
        })
}

/// Whether albums are in the order of their groups, those without a group
/// first, then of their artists, then of their titles.
pub open spec fn in_folder_order(albums: Seq<AlbumView>) -> bool {
    forall|i: int, j: int|
        0 <= i < j < albums.len() ==> ({
            let first = #[trigger] albums[i];
            let second = #[trigger] albums[j];
            &&& first.group is Some ==> second.group is Some && no_later(
                first.group->0,
                second.group->0,
            )
            &&& first.group == second.group ==> no_later(first.artist, second.artist)
            &&& first.group == second.group && first.artist == second.artist ==> no_later(
                first.title,
                second.title,
            )
        })
}

/// Whether tracks are in the order of their artists, then of their albums, then
/// of their titles.
pub open spec fn in_scan_order(tracks: Seq<TrackView>) -> bool {
    forall|i: int, j: int|
        0 <= i < j < tracks.len() ==> ({
            let first = #[trigger] tracks[i];
            let second = #[trigger] tracks[j];
            &&& no_later(first.artist, second.artist)
            &&& first.artist == second.artist ==> no_later(first.album, second.album)
            &&& first.artist == second.artist && first.album == second.album ==> no_later(
                first.title,
                second.title,
            )
        })
}

/// Whether `order` lists the positions of a list with `count` entries, each
/// once.
pub open spec fn lists_each_once(order: Seq<int>, count: int) -> bool {
    &&& order.len() == count
    &&& forall|i: int| 0 <= i < count ==> 0 <= #[trigger] order[i] < count
    &&& forall|i: int, j: int| 0 <= i < j < count ==> #[trigger] order[i] != #[trigger] order[j]
}

proof fn lemma_text_order(left: Seq<char>, right: Seq<char>)
    ensures
        field_le(text_field(left), text_field(right)) ==> no_later(left, right),
        text_field(left) == text_field(right) ==> left == right,
{
    if field_le(text_field(left), text_field(right)) {
        lemma_text_fields(left, right);
    }
    if text_field(left) == text_field(right) {
        lemma_same_field(left, right);
    }
}

proof fn lemma_equal_fields(field: Seq<u32>)
    ensures
        field_le(field, field),
    decreases field.len(),
{
    if field.len() > 0 {
        lemma_equal_fields(field.skip(1));
    }
}

/// The first field in which two keys differ decides.
proof fn lemma_first_field(left: Seq<Seq<u32>>, right: Seq<Seq<u32>>)
    requires
        key_le(left, right),
        left.len() > 0,
        right.len() > 0,
    ensures
        field_le(left[0], right[0]),
        left[0] == right[0] ==> key_le(left.skip(1), right.skip(1)),
{
    lemma_equal_fields(left[0]);
}

proof fn lemma_number_order(first: TrackView, second: TrackView)
    requires
        key_le(number_key(first), number_key(second)),
    ensures
        first.track_number is Some && second.track_number is Some ==> first.track_number->0
            <= second.track_number->0,
        first.track_number is None && second.track_number is Some ==> second.track_number->0
            == u32::MAX,
        numbered_alike(first.track_number, second.track_number) ==> no_later(
            first.title,
            second.title,
        ),
{
    let left = number_key(first);
    let right = number_key(second);
    lemma_first_field(left, right);
    assert(left[0][0] <= right[0][0]);
    if numbered_alike(first.track_number, second.track_number) {
        assert(left[0] =~= right[0]);
        lemma_first_field(left.skip(1), right.skip(1));
        lemma_text_order(first.title, second.title);
    }
}

/// The tracks of an album are in the order of their numbers and titles. They
/// are the given tracks, each once, and those with the same number and the same
/// title stay in the order in which they were given.
pub proof fn law_tracks_are_sorted_by_number(tracks: Seq<TrackView>)
    ensures
        in_track_order(sorted_tracks(tracks)),
        exists|order: Seq<int>|
            #![trigger lists_each_once(order, tracks.len() as int)]
            {
                &&& lists_each_once(order, tracks.len() as int)
                &&& sorted_tracks(tracks) == Seq::new(tracks.len(), |i: int| tracks[order[i]])
                &&& forall|i: int, j: int|
                    #![trigger order[i], order[j]]
                    0 <= i < j < tracks.len() && numbered_alike(
                        tracks[order[i]].track_number,
                        tracks[order[j]].track_number,
                    ) && tracks[order[i]].title
                        == tracks[order[j]].title ==> order[i] < order[j]
            },
{
    let keys = Seq::new(tracks.len(), |i: int| number_key(tracks[i]));
    let order = stable_order(keys);
    law_stable_order(keys);
    let sorted = sorted_tracks(tracks);
    assert forall|i: int, j: int| 0 <= i < j < tracks.len() implies ({
        let first = (#[trigger] sorted[i]).track_number;
        let second = (#[trigger] sorted[j]).track_number;
        &&& first is Some && second is Some ==> first->0 <= second->0
        &&& first is None && second is Some ==> second->0 == u32::MAX
        &&& numbered_alike(first, second) ==> no_later(sorted[i].title, sorted[j].title)
    }) by {
        assert(key_le(keys[order[i]], keys[order[j]]));
        lemma_number_order(sorted[i], sorted[j]);
    }
    assert(lists_each_once(order, tracks.len() as int));
    assert(sorted =~= Seq::new(tracks.len(), |i: int| tracks[order[i]]));
    assert forall|i: int, j: int|
        #![trigger order[i], order[j]]
        0 <= i < j < tracks.len() && numbered_alike(
            tracks[order[i]].track_number,
            tracks[order[j]].track_number,
        ) && tracks[order[i]].title == tracks[order[j]].title implies order[i] < order[j] by {
        assert(keys[order[i]] =~= keys[order[j]]);
    }
}

proof fn lemma_folder_order(first: AlbumView, second: AlbumView)
    requires
        key_le(folder_key(first), folder_key(second)),
    ensures
        first.group is Some ==> second.group is Some && no_later(first.group->0, second.group->0),
        first.group == second.group ==> no_later(first.artist, second.artist),
        first.group == second.group && first.artist == second.artist ==> no_later(
            first.title,
            second.title,
        ),
{
    let left = folder_key(first);
    let right = folder_key(second);
    lemma_first_field(left, right);
    assert(left[0][0] <= right[0][0]);
    if first.group is Some {
        assert(second.group is Some);
        assert(left[0] =~= right[0]);
        lemma_first_field(left.skip(1), right.skip(1));
        lemma_text_order(first.group->0, second.group->0);
    }
    if first.group == second.group {
        assert(left[0] =~= right[0]);
        lemma_first_field(left.skip(1), right.skip(1));
        lemma_first_field(left.skip(1).skip(1), right.skip(1).skip(1));
        lemma_text_order(first.artist, second.artist);
        if first.artist == second.artist {
            lemma_first_field(left.skip(1).skip(1).skip(1), right.skip(1).skip(1).skip(1));
            lemma_text_order(first.title, second.title);
        }
    }
}

/// The albums by folder are in the order of their groups, artists and titles.
pub proof fn law_folder_albums_are_sorted(root: PathView, tracks: Seq<TrackView>)
    ensures
        in_folder_order(folders_of(root, tracks)),
{
    let all = distinct(places(root, tracks));
    let albums = Seq::new(
        all.len(),
        |i: int| with_sorted_tracks(placed_album(root, tracks, all[i])),
    );
    let keys = Seq::new(albums.len(), |i: int| folder_key(albums[i]));
    let order = stable_order(keys);
    law_stable_order(keys);
    let sorted = folders_of(root, tracks);
    assert(sorted == sorted_by_folder(albums));
    assert forall|i: int, j: int| 0 <= i < j < sorted.len() implies ({
        let first = #[trigger] sorted[i];
        let second = #[trigger] sorted[j];
        &&& first.group is Some ==> second.group is Some && no_later(
            first.group->0,
            second.group->0,
        )
        &&& first.group == second.group ==> no_later(first.artist, second.artist)
        &&& first.group == second.group && first.artist == second.artist ==> no_later(
            first.title,
            second.title,
        )
    }) by {
        assert(key_le(keys[order[i]], keys[order[j]]));
        lemma_folder_order(sorted[i], sorted[j]);
    }
}

/// The tracks of every album, by metadata and by folder, are in the order of
/// their numbers and titles.
pub proof fn law_every_album_is_sorted(root: PathView, tracks: Seq<TrackView>)
    ensures
        forall|a: int|
            0 <= a < albums_of(tracks).len() ==> in_track_order(
                (#[trigger] albums_of(tracks)[a]).tracks,
            ),
        forall|a: int|
            0 <= a < folders_of(root, tracks).len() ==> in_track_order(
                (#[trigger] folders_of(root, tracks)[a]).tracks,
            ),
{
    assert forall|a: int| 0 <= a < albums_of(tracks).len() implies in_track_order(
        (#[trigger] albums_of(tracks)[a]).tracks,
    ) by {
        let titles = distinct(album_names(tracks));
        law_tracks_are_sorted_by_number(titled_album(tracks, titles[a]).tracks);
    }
    let all = distinct(places(root, tracks));
    let albums = Seq::new(
        all.len(),
        |i: int| with_sorted_tracks(placed_album(root, tracks, all[i])),
    );
    let keys = Seq::new(albums.len(), |i: int| folder_key(albums[i]));
    let order = stable_order(keys);
    law_stable_order(keys);
    assert forall|a: int| 0 <= a < folders_of(root, tracks).len() implies in_track_order(
        (#[trigger] folders_of(root, tracks)[a]).tracks,
    ) by {
        assert(folders_of(root, tracks)[a] == albums[order[a]]);
        law_tracks_are_sorted_by_number(placed_album(root, tracks, all[order[a]]).tracks);
    }
}

/// Scanned tracks are in the order of their artists, albums and titles, each
/// track once, and those that agree in all three stay in the order in which
/// they were read.
pub proof fn law_scan_is_sorted(tracks: Seq<TrackView>)
    ensures
        in_scan_order(sorted_scan(tracks)),
        exists|order: Seq<int>|
            #![trigger lists_each_once(order, tracks.len() as int)]
            {
                &&& lists_each_once(order, tracks.len() as int)
                &&& sorted_scan(tracks) == Seq::new(tracks.len(), |i: int| tracks[order[i]])
                &&& forall|i: int, j: int|
                    #![trigger order[i], order[j]]
                    0 <= i < j < tracks.len() && tracks[order[i]].artist
                        == tracks[order[j]].artist && tracks[order[i]].album
                        == tracks[order[j]].album && tracks[order[i]].title
                        == tracks[order[j]].title ==> order[i] < order[j]
            },
{
    let keys = Seq::new(tracks.len(), |i: int| scan_key(tracks[i]));
    let order = stable_order(keys);
    law_stable_order(keys);
    let sorted = sorted_scan(tracks);
    assert forall|i: int, j: int| 0 <= i < j < tracks.len() implies ({
        let first = #[trigger] sorted[i];
        let second = #[trigger] sorted[j];
        &&& no_later(first.artist, second.artist)
        &&& first.artist == second.artist ==> no_later(first.album, second.album)
        &&& first.artist == second.artist && first.album == second.album ==> no_later(
            first.title,
            second.title,
        )
    }) by {
        assert(key_le(keys[order[i]], keys[order[j]]));
        let left = scan_key(sorted[i]);
        let right = scan_key(sorted[j]);
        lemma_first_field(left, right);
        lemma_text_order(sorted[i].artist, sorted[j].artist);
        if sorted[i].artist == sorted[j].artist {
            lemma_first_field(left.skip(1), right.skip(1));
            lemma_text_order(sorted[i].album, sorted[j].album);
            if sorted[i].album == sorted[j].album {
                lemma_first_field(left.skip(1).skip(1), right.skip(1).skip(1));
                lemma_text_order(sorted[i].title, sorted[j].title);
            }
        }
    }
    assert(lists_each_once(order, tracks.len() as int));
    assert(sorted =~= Seq::new(tracks.len(), |i: int| tracks[order[i]]));
    assert forall|i: int, j: int|
        #![trigger order[i], order[j]]
        0 <= i < j < tracks.len() && tracks[order[i]].artist == tracks[order[j]].artist
            && tracks[order[i]].album == tracks[order[j]].album && tracks[order[i]].title
            == tracks[order[j]].title implies order[i] < order[j] by {
        assert(keys[order[i]] =~= keys[order[j]]);
    }
}

} // verus!
