//! What holds of grouping: no track is lost or counted twice, and albums and
//! their tracks are in order.

use vstd::prelude::*;
use vstd::set_lib::*;
use crate::albums::{album_names, albums_of, distinct, folders_of, grouped_count, members};
use crate::albums::{law_distinct, law_grouping_is_partition, number_key, placed_album, places};
use crate::albums::{place_of, sorted_by_folder, sorted_tracks, titled_album, with_sorted_tracks};
use crate::albums::{folder_key, AlbumView, FolderPlace};
use crate::library::TrackView;
use crate::order::{arranged, is_permutation, key_le, law_stable_order, stable_order};
use crate::path::PathView;
use crate::totals::{library_tracks, total_bytes};

verus! {

/// An order that lists as many positions as there are, each once, lists all.
proof fn lemma_permutation_lists_all(order: Seq<int>, count: int, position: int)
    requires
        is_permutation(order, count),
        0 <= position < count,
    ensures
        order.contains(position),
{
    assert(order.no_duplicates());
    order.unique_seq_to_set();
    lemma_int_range(0, count);
    let listed = order.to_set();
    let all = set_int_range(0, count);
    assert forall|p: int| listed.contains(p) implies all.contains(p) by {
        assert(order.contains(p));
        let i = choose|i: int| 0 <= i < order.len() && order[i] == p;
        assert(0 <= order[i] < count);
    }
    vstd::seq_lib::seq_to_set_is_finite(order);
    lemma_subset_equality(listed, all);
    assert(all.contains(position));
    assert(listed.contains(position));
}

/// Numbers together.
spec fn sum(numbers: Seq<nat>) -> nat
    decreases numbers.len(),
{
    if numbers.len() == 0 {
        0
    } else {
        sum(numbers.drop_last()) + numbers.last()
    }
}

proof fn lemma_sum_remove(numbers: Seq<nat>, at: int)
    requires
        0 <= at < numbers.len(),
    ensures
        sum(numbers) == sum(numbers.remove(at)) + numbers[at],
    decreases numbers.len(),
{
    if at == numbers.len() - 1 {
        assert(numbers.remove(at) =~= numbers.drop_last());
    } else {
        lemma_sum_remove(numbers.drop_last(), at);
        assert(numbers.remove(at).drop_last() =~= numbers.drop_last().remove(at));
    }
}

proof fn lemma_sum_arranged(numbers: Seq<nat>, order: Seq<int>)
    requires
        is_permutation(order, numbers.len() as int),
    ensures
        sum(arranged(numbers, order)) == sum(numbers),
    decreases numbers.len(),
{
    if numbers.len() > 0 {
        let last = numbers.len() - 1;
        lemma_permutation_lists_all(order, numbers.len() as int, last);
        let at = choose|at: int| 0 <= at < order.len() && order[at] == last;
        let fewer = order.remove(at);
        assert forall|i: int| 0 <= i < fewer.len() implies 0 <= #[trigger] fewer[i] < last by {
            let j = if i < at {
                i
            } else {
                i + 1
            };
            assert(fewer[i] == order[j]);
            assert(0 <= order[j] < numbers.len());
            if j < at {
                assert(order[j] != order[at]);
            } else {
                assert(order[at] != order[j]);
            }
        }
        assert forall|i: int, j: int| 0 <= i < j < fewer.len() implies #[trigger] fewer[i]
            != #[trigger] fewer[j] by {
            let k = if i < at {
                i
            } else {
                i + 1
            };
            let l = if j < at {
                j
            } else {
                j + 1
            };
            assert(order[k] != order[l]);
        }
        let rest = numbers.drop_last();
        lemma_sum_arranged(rest, fewer);
        lemma_sum_remove(arranged(numbers, order), at);
        assert(arranged(numbers, order).remove(at) =~= arranged(rest, fewer));
    } else {
        assert(arranged(numbers, order) =~= numbers);
    }
}

spec fn sizes(tracks: Seq<TrackView>) -> Seq<nat> {
    Seq::new(tracks.len(), |i: int| tracks[i].bytes as nat)
}

proof fn lemma_total_bytes_is_sum(tracks: Seq<TrackView>)
    ensures
        total_bytes(tracks) == sum(sizes(tracks)),
    decreases tracks.len(),
{
    if tracks.len() > 0 {
        lemma_total_bytes_is_sum(tracks.drop_last());
        assert(sizes(tracks).drop_last() =~= sizes(tracks.drop_last()));
    }
}

/// Sorting the tracks of an album keeps each of them, and their bytes.
pub proof fn law_sorting_keeps_tracks(tracks: Seq<TrackView>)
    ensures
        sorted_tracks(tracks).len() == tracks.len(),
        forall|track: TrackView| #[trigger]
            sorted_tracks(tracks).contains(track) <==> tracks.contains(track),
        total_bytes(sorted_tracks(tracks)) == total_bytes(tracks),
{
    let keys = Seq::new(tracks.len(), |i: int| number_key(tracks[i]));
    let order = stable_order(keys);
    law_stable_order(keys);
    let sorted = sorted_tracks(tracks);
    assert forall|track: TrackView| #[trigger]
        sorted.contains(track) <==> tracks.contains(track) by {
        if sorted.contains(track) {
            let i = choose|i: int| 0 <= i < sorted.len() && sorted[i] == track;
            assert(tracks[order[i]] == track);
        }
        if tracks.contains(track) {
            let p = choose|p: int| 0 <= p < tracks.len() && tracks[p] == track;
            lemma_permutation_lists_all(order, tracks.len() as int, p);
            let i = choose|i: int| 0 <= i < order.len() && order[i] == p;
            assert(sorted[i] == track);
        }
    }
    lemma_total_bytes_is_sum(tracks);
    lemma_total_bytes_is_sum(sorted);
    lemma_sum_arranged(sizes(tracks), order);
    assert(arranged(sizes(tracks), order) =~= sizes(sorted));
}

/// The tracks of an album are in the order of their numbers and titles.
pub proof fn law_album_tracks_are_in_order(tracks: Seq<TrackView>, i: int, j: int)
    requires
        0 <= i < j < tracks.len(),
    ensures
        key_le(number_key(sorted_tracks(tracks)[i]), number_key(sorted_tracks(tracks)[j])),
{
    let keys = Seq::new(tracks.len(), |i: int| number_key(tracks[i]));
    let order = stable_order(keys);
    law_stable_order(keys);
    assert(key_le(keys[order[i]], keys[order[j]]));
}

/// The albums by folder are in the order of their groups, artists and titles.
pub proof fn law_folder_albums_are_in_order(albums: Seq<AlbumView>, i: int, j: int)
    requires
        0 <= i < j < albums.len(),
    ensures
        key_le(folder_key(sorted_by_folder(albums)[i]), folder_key(sorted_by_folder(albums)[j])),
{
    let keys = Seq::new(albums.len(), |i: int| folder_key(albums[i]));
    let order = stable_order(keys);
    law_stable_order(keys);
    assert(key_le(keys[order[i]], keys[order[j]]));
}

/// Each track stands in the album of its title, and there is one such album.
pub proof fn law_tracks_stand_in_their_album(tracks: Seq<TrackView>, at: int)
    requires
        0 <= at < tracks.len(),
    ensures
        exists|a: int|
            0 <= a < albums_of(tracks).len() && (#[trigger] albums_of(tracks)[a]).title
                == tracks[at].album && albums_of(tracks)[a].tracks.contains(tracks[at]),
        forall|a: int, b: int|
            0 <= a < b < albums_of(tracks).len() ==> (#[trigger] albums_of(tracks)[a]).title != (
            #[trigger] albums_of(tracks)[b]).title,
{
    let names = album_names(tracks);
    let titles = distinct(names);
    law_distinct(names);
    law_grouping_is_partition(tracks, names);
    assert(titles.contains(names[at]));
    let a = choose|a: int| 0 <= a < titles.len() && titles[a] == names[at];
    let own = members(tracks, names, names[at]);
    law_sorting_keeps_tracks(own);
    assert(own.contains(tracks[at]));
    assert(albums_of(tracks)[a].title == tracks[at].album);
    assert forall|a: int, b: int| 0 <= a < b < albums_of(tracks).len() implies (
    #[trigger] albums_of(tracks)[a]).title != (#[trigger] albums_of(tracks)[b]).title by {
        assert(titles[a] != titles[b]);
    }
}

/// Each track stands in the album of its folders.
pub proof fn law_tracks_stand_in_their_folder(root: PathView, tracks: Seq<TrackView>, at: int)
    requires
        0 <= at < tracks.len(),
    ensures
        exists|a: int|
            0 <= a < folders_of(root, tracks).len() && is_at(
                #[trigger] folders_of(root, tracks)[a],
                place_of(root, tracks[at].path),
            ) && folders_of(root, tracks)[a].tracks.contains(tracks[at]),
{
    let all = places(root, tracks);
    let keys = distinct(all);
    law_distinct(all);
    law_grouping_is_partition(tracks, all);
    let place = all[at];
    assert(keys.contains(place));
    let k = choose|k: int| 0 <= k < keys.len() && keys[k] == place;
    let albums = Seq::new(
        keys.len(),
        |i: int| with_sorted_tracks(placed_album(root, tracks, keys[i])),
    );
    let order = stable_order(Seq::new(albums.len(), |i: int| folder_key(albums[i])));
    law_stable_order(Seq::new(albums.len(), |i: int| folder_key(albums[i])));
    lemma_permutation_lists_all(order, albums.len() as int, k);
    let a = choose|a: int| 0 <= a < order.len() && order[a] == k;
    let own = members(tracks, all, place);
    law_sorting_keeps_tracks(own);
    assert(own.contains(tracks[at]));
    assert(folders_of(root, tracks)[a] == albums[k]);
}

/// Whether an album is that of a place.
pub open spec fn is_at(album: AlbumView, place: FolderPlace) -> bool {
    album.group == place.group && album.artist == place.artist && album.title == place.title
}

spec fn lengths(albums: Seq<AlbumView>) -> Seq<nat> {
    Seq::new(albums.len(), |i: int| albums[i].tracks.len())
}

proof fn lemma_library_tracks_is_sum(albums: Seq<AlbumView>)
    ensures
        library_tracks(albums) == sum(lengths(albums)),
    decreases albums.len(),
{
    if albums.len() > 0 {
        lemma_library_tracks_is_sum(albums.drop_last());
        assert(lengths(albums).drop_last() =~= lengths(albums.drop_last()));
    }
}

proof fn lemma_lengths_are_grouped<K>(
    tracks: Seq<TrackView>,
    keys: Seq<K>,
    list: Seq<K>,
    albums: Seq<AlbumView>,
    count: int,
)
    requires
        0 <= count <= list.len() == albums.len(),
        forall|i: int|
            0 <= i < albums.len() ==> (#[trigger] albums[i]).tracks.len() == members(
                tracks,
                keys,
                list[i],
            ).len(),
    ensures
        sum(lengths(albums).take(count)) == grouped_count(tracks, keys, list, count),
    decreases count,
{
    if count > 0 {
        lemma_lengths_are_grouped(tracks, keys, list, albums, count - 1);
        assert(lengths(albums).take(count).drop_last() =~= lengths(albums).take(count - 1));
        assert(albums[count - 1].tracks.len() == members(tracks, keys, list[count - 1]).len());
    }
}

/// The albums by metadata have as many tracks together as were scanned.
pub proof fn law_albums_hold_every_track(tracks: Seq<TrackView>)
    ensures
        library_tracks(albums_of(tracks)) == tracks.len(),
{
    let names = album_names(tracks);
    let titles = distinct(names);
    let albums = albums_of(tracks);
    law_grouping_is_partition(tracks, names);
    assert forall|i: int| 0 <= i < albums.len() implies (#[trigger] albums[i]).tracks.len()
        == members(tracks, names, titles[i]).len() by {
        law_sorting_keeps_tracks(titled_album(tracks, titles[i]).tracks);
    }
    lemma_lengths_are_grouped(tracks, names, titles, albums, titles.len() as int);
    lemma_library_tracks_is_sum(albums);
    assert(lengths(albums).take(titles.len() as int) =~= lengths(albums));
}

/// The albums by folder have as many tracks together as were scanned.
pub proof fn law_folders_hold_every_track(root: PathView, tracks: Seq<TrackView>)
    ensures
        library_tracks(folders_of(root, tracks)) == tracks.len(),
{
    let all = places(root, tracks);
    let keys = distinct(all);
    law_grouping_is_partition(tracks, all);
    let albums = Seq::new(
        keys.len(),
        |i: int| with_sorted_tracks(placed_album(root, tracks, keys[i])),
    );
    assert forall|i: int| 0 <= i < albums.len() implies (#[trigger] albums[i]).tracks.len()
        == members(tracks, all, keys[i]).len() by {
        law_sorting_keeps_tracks(placed_album(root, tracks, keys[i]).tracks);
    }
    lemma_lengths_are_grouped(tracks, all, keys, albums, keys.len() as int);
    assert(lengths(albums).take(keys.len() as int) =~= lengths(albums));
    let order = stable_order(Seq::new(albums.len(), |i: int| folder_key(albums[i])));
    law_stable_order(Seq::new(albums.len(), |i: int| folder_key(albums[i])));
    lemma_sum_arranged(lengths(albums), order);
    let sorted = folders_of(root, tracks);
    lemma_library_tracks_is_sum(sorted);
    assert(arranged(lengths(albums), order) =~= lengths(sorted));
}

} // verus!
