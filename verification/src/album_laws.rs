//! What albums and groups are made of, said of the tracks and their paths.

use vstd::prelude::*;
use crate::albums::{album_names, albums_of, distinct, folder_key, folders_of, group_titles};
use crate::albums::{groups_of, law_distinct, members, place_of, placed_album, places, positions};
use crate::albums::{titled_album, with_sorted_tracks, AlbumView, FolderPlace};
use crate::library::TrackView;
use crate::order::{law_stable_order, stable_order};
use crate::path::{dot, dot_dot, law_parent_leaves_out_the_last_part, PathView, Route};
use crate::path::law_strip_leaves_what_follows;
use crate::sorting::{law_tracks_are_sorted_by_number, lists_each_once};
use crate::text::utf8_text;

verus! {

/// Whether `list` holds the entries of `own`, each once, in some order.
pub open spec fn rearranged<T>(list: Seq<T>, own: Seq<T>) -> bool {
    exists|order: Seq<int>|
        #![trigger lists_each_once(order, own.len() as int)]
        lists_each_once(order, own.len() as int) && list == Seq::new(
            own.len(),
            |i: int| own[order[i]],
        )
}

proof fn lemma_titled_tracks(tracks: Seq<TrackView>, title: Seq<char>)
    ensures
        members(tracks, album_names(tracks), title) == tracks.filter(
            |track: TrackView| track.album == title,
        ),
    decreases tracks.len(),
{
    reveal(Seq::filter);
    if tracks.len() > 0 {
        lemma_titled_tracks(tracks.drop_last(), title);
        assert(album_names(tracks).drop_last() =~= album_names(tracks.drop_last()));
    } else {
        assert(tracks.filter(|track: TrackView| track.album == title) =~= Seq::empty());
    }
}

proof fn lemma_first_places<K>(keys: Seq<K>, a: int, b: int)
    requires
        0 <= a < b < distinct(keys).len(),
    ensures
        exists|i: int|
            0 <= i < keys.len() && #[trigger] keys[i] == distinct(keys)[a] && forall|j: int|
                0 <= j <= i ==> #[trigger] keys[j] != distinct(keys)[b],
    decreases keys.len(),
{
    let shorter = keys.drop_last();
    let before = distinct(shorter);
    law_distinct(shorter);
    if b < before.len() {
        lemma_first_places(shorter, a, b);
        let i = choose|i: int|
            0 <= i < shorter.len() && #[trigger] shorter[i] == before[a] && forall|j: int|
                0 <= j <= i ==> #[trigger] shorter[j] != before[b];
        assert(keys[i] == distinct(keys)[a]);
        assert forall|j: int| 0 <= j <= i implies #[trigger] keys[j] != distinct(keys)[b] by {
            assert(shorter[j] == keys[j]);
        }
    } else {
        assert(before.contains(before[a]));
        assert(shorter.contains(before[a]));
        let i = choose|i: int| 0 <= i < shorter.len() && shorter[i] == before[a];
        assert(keys[i] == distinct(keys)[a]);
        assert forall|j: int| 0 <= j <= i implies #[trigger] keys[j] != distinct(keys)[b] by {
            if keys[j] == keys.last() {
                assert(shorter[j] == keys.last());
                assert(shorter.contains(keys.last()));
            }
        }
    }
}

/// An album by metadata holds the tracks that name its title, each once. Its
/// artist is the album artist that all of them name, or `Various Artists` where
/// they name several.
pub proof fn law_albums_hold_the_tracks_of_their_titles(tracks: Seq<TrackView>, a: int)
    requires
        0 <= a < albums_of(tracks).len(),
    ensures
        ({
            let album = albums_of(tracks)[a];
            let own = tracks.filter(|track: TrackView| track.album == album.title);
            &&& own.len() > 0
            &&& rearranged(album.tracks, own)
            &&& album.group is None
            &&& (forall|i: int, j: int|
                0 <= i < j < own.len() ==> (#[trigger] own[i]).album_artist == (
                #[trigger] own[j]).album_artist) ==> album.artist == own[0].album_artist
            &&& (exists|i: int, j: int|
                0 <= i < j < own.len() && (#[trigger] own[i]).album_artist != (
                #[trigger] own[j]).album_artist) ==> album.artist == "Various Artists"@
        }),
{
    let names = album_names(tracks);
    let titles = distinct(names);
    law_distinct(names);
    let album = albums_of(tracks)[a];
    let own = tracks.filter(|track: TrackView| track.album == album.title);
    lemma_titled_tracks(tracks, titles[a]);
    assert(titled_album(tracks, titles[a]).tracks == own);
    law_tracks_are_sorted_by_number(own);
    assert(titles.contains(titles[a]));
    let i = choose|i: int| 0 <= i < names.len() && names[i] == titles[a];
    crate::albums::law_grouping_is_partition(tracks, names);
    assert(names[i] == titles[a]);
    assert(own.contains(tracks[i]));
    if forall|i: int, j: int|
        0 <= i < j < own.len() ==> (#[trigger] own[i]).album_artist == (
        #[trigger] own[j]).album_artist {
        assert forall|i: int| 0 <= i < own.len() implies (#[trigger] own[i]).album_artist
            == own[0].album_artist by {
            if i > 0 {
                assert(own[0].album_artist == own[i].album_artist);
            }
        }
    }
}

/// The albums by metadata come in the order of the first tracks that name their
/// titles, and every title that a track names has one album.
pub proof fn law_albums_come_by_their_first_tracks(tracks: Seq<TrackView>)
    ensures
        forall|a: int, b: int|
            0 <= a < b < albums_of(tracks).len() ==> exists|i: int|
                0 <= i < tracks.len() && (#[trigger] tracks[i]).album == (
                #[trigger] albums_of(tracks)[a]).title && forall|j: int|
                    0 <= j <= i ==> (#[trigger] tracks[j]).album != (
                    #[trigger] albums_of(tracks)[b]).title,
        forall|i: int|
            0 <= i < tracks.len() ==> exists|a: int|
                0 <= a < albums_of(tracks).len() && (#[trigger] albums_of(tracks)[a]).title == (
                #[trigger] tracks[i]).album,
{
    let names = album_names(tracks);
    let titles = distinct(names);
    law_distinct(names);
    assert forall|a: int, b: int| 0 <= a < b < albums_of(tracks).len() implies exists|i: int|
        0 <= i < tracks.len() && (#[trigger] tracks[i]).album == (
        #[trigger] albums_of(tracks)[a]).title && forall|j: int|
            0 <= j <= i ==> (#[trigger] tracks[j]).album != (
            #[trigger] albums_of(tracks)[b]).title by {
        lemma_first_places(names, a, b);
        let i = choose|i: int|
            0 <= i < names.len() && #[trigger] names[i] == titles[a] && forall|j: int|
                0 <= j <= i ==> #[trigger] names[j] != titles[b];
        assert(tracks[i].album == albums_of(tracks)[a].title);
        assert forall|j: int| 0 <= j <= i implies (#[trigger] tracks[j]).album
            != albums_of(tracks)[b].title by {
            assert(names[j] != titles[b]);
        }
    }
    assert forall|i: int| 0 <= i < tracks.len() implies exists|a: int|
        0 <= a < albums_of(tracks).len() && (#[trigger] albums_of(tracks)[a]).title == (
        #[trigger] tracks[i]).album by {
        assert(names.contains(names[i]));
        assert(titles.contains(names[i]));
        let a = choose|a: int| 0 <= a < titles.len() && titles[a] == names[i];
        assert(albums_of(tracks)[a].title == tracks[i].album);
    }
}

proof fn lemma_placed_tracks(root: PathView, tracks: Seq<TrackView>, place: FolderPlace)
    ensures
        members(tracks, places(root, tracks), place) == tracks.filter(
            |track: TrackView| place_of(root, track.path) == place,
        ),
    decreases tracks.len(),
{
    reveal(Seq::filter);
    if tracks.len() > 0 {
        lemma_placed_tracks(root, tracks.drop_last(), place);
        assert(places(root, tracks).drop_last() =~= places(root, tracks.drop_last()));
    } else {
        assert(tracks.filter(|track: TrackView| place_of(root, track.path) == place)
            =~= Seq::empty());
    }
}

/// An album by folder holds the tracks that lie at its place, each once, and no
/// two albums are of one place.
pub proof fn law_folder_albums_hold_the_tracks_of_their_places(
    root: PathView,
    tracks: Seq<TrackView>,
)
    ensures
        forall|a: int|
            0 <= a < folders_of(root, tracks).len() ==> ({
                let album = #[trigger] folders_of(root, tracks)[a];
                let own = tracks.filter(
                    |track: TrackView|
                        {
                            let place = place_of(root, track.path);
                            place.group == album.group && place.artist == album.artist
                                && place.title == album.title
                        },
                );
                own.len() > 0 && rearranged(album.tracks, own)
            }),
        forall|a: int, b: int|
            0 <= a < b < folders_of(root, tracks).len() ==> ({
                let one = #[trigger] folders_of(root, tracks)[a];
                let other = #[trigger] folders_of(root, tracks)[b];
                one.group != other.group || one.artist != other.artist || one.title != other.title
            }),
{
    let all = places(root, tracks);
    let keys = distinct(all);
    law_distinct(all);
    let albums = Seq::new(
        keys.len(),
        |i: int| with_sorted_tracks(placed_album(root, tracks, keys[i])),
    );
    let sort_keys = Seq::new(albums.len(), |i: int| folder_key(albums[i]));
    let order = stable_order(sort_keys);
    law_stable_order(sort_keys);
    let sorted = folders_of(root, tracks);
    assert forall|a: int| 0 <= a < sorted.len() implies ({
        let album = #[trigger] sorted[a];
        let own = tracks.filter(
            |track: TrackView|
                {
                    let place = place_of(root, track.path);
                    place.group == album.group && place.artist == album.artist && place.title
                        == album.title
                },
        );
        own.len() > 0 && rearranged(album.tracks, own)
    }) by {
        let album = sorted[a];
        let place = keys[order[a]];
        assert(album == albums[order[a]]);
        let one = |track: TrackView|
            {
                let place = place_of(root, track.path);
                place.group == album.group && place.artist == album.artist && place.title
                    == album.title
            };
        let other = |track: TrackView| place_of(root, track.path) == place;
        assert forall|track: TrackView| #[trigger] one(track) == other(track) by {
            if one(track) {
                assert(place_of(root, track.path) =~= place);
            }
        }
        assert(one =~= other);
        let own = tracks.filter(one);
        lemma_placed_tracks(root, tracks, place);
        assert(placed_album(root, tracks, place).tracks == own);
        law_tracks_are_sorted_by_number(own);
        assert(keys.contains(place));
        let i = choose|i: int| 0 <= i < all.len() && all[i] == place;
        crate::albums::law_grouping_is_partition(tracks, all);
        assert(all[i] == place);
        assert(own.contains(tracks[i]));
    }
    assert forall|a: int, b: int| 0 <= a < b < sorted.len() implies ({
        let one = #[trigger] sorted[a];
        let other = #[trigger] sorted[b];
        one.group != other.group || one.artist != other.artist || one.title != other.title
    }) by {
        let one = keys[order[a]];
        let other = keys[order[b]];
        assert(order[a] != order[b]);
        assert(one != other);
        assert(sorted[a] == albums[order[a]]);
        assert(sorted[b] == albums[order[b]]);
        if one.group == other.group && one.artist == other.artist && one.title == other.title {
            assert(one =~= other);
        }
    }
}

/// The text of a part of a path, if it is a name that can be shown.
pub open spec fn part_text(part: Seq<u8>) -> Option<Seq<char>> {
    if part == dot() || part == dot_dot() {
        None
    } else {
        match utf8_text(part) {
            Some(text) => if text.len() > 0 {
                Some(text)
            } else {
                None
            },
            None => None,
        }
    }
}

/// Where a track lies three folders or deeper: its file lies in the folder of
/// the album, and that in the folder of the artist. The group is what stands
/// between the root of the library and the folder of the artist, and there is
/// none if nothing stands there.
pub proof fn law_folders_name_album_and_artist(root: PathView, path: PathView)
    requires
        path.route().parts.len() >= 3,
    ensures
        ({
            let place = place_of(root, path);
            let parts = path.route().parts;
            let count = parts.len() as int;
            let depth = root.route().parts.len() as int;
            let above = Route { absolute: path.route().absolute, parts: parts.take(count - 3) };
            &&& place.title == (match part_text(parts[count - 2]) {
                Some(name) => name,
                None => "Unknown album folder"@,
            })
            &&& place.artist == (match part_text(parts[count - 3]) {
                Some(name) => name,
                None => "Unknown artist folder"@,
            })
            &&& !above.starts_with(root.route()) ==> place.group is None
            &&& above == root.route() ==> place.group is None
            &&& above.starts_with(root.route()) && above.parts.len() > depth ==> exists|
                rest: PathView,
            |
                place.group == Some(#[trigger] rest.shown()) && rest.route().parts
                    == parts.subrange(depth, count - 3)
        }),
{
    let parts = path.route().parts;
    let count = parts.len() as int;
    let depth = root.route().parts.len() as int;
    law_parent_leaves_out_the_last_part(path);
    let album = path.parent()->0;
    law_parent_leaves_out_the_last_part(album);
    let artist = album.parent()->0;
    law_parent_leaves_out_the_last_part(artist);
    let group = artist.parent()->0;
    assert(album.route().parts.last() == parts[count - 2]);
    assert(artist.route().parts.last() == parts[count - 3]);
    assert(group.route().parts =~= parts.take(count - 3));
    let above = Route { absolute: path.route().absolute, parts: parts.take(count - 3) };
    assert(group.route() == above);
    if above.starts_with(root.route()) {
        law_strip_leaves_what_follows(group, root);
        let rest = group.strip_prefix(root)->0;
        assert(rest.route().parts =~= parts.subrange(depth, count - 3));
        if above == root.route() {
            assert(rest.route().parts =~= Seq::empty());
            crate::path::law_join_joins_routes(rest, rest);
        }
        if above.parts.len() > depth {
            crate::path::law_join_joins_routes(rest, rest);
            assert(rest.route().parts.len() > 0);
            if rest.bytes.len() == 0 {
                assert(rest.is_empty());
            }
            assert(place_of(root, path).group == Some(rest.shown()));
        }
    }
}

proof fn lemma_listed_positions<K>(keys: Seq<K>, key: K, count: int)
    requires
        0 <= count <= keys.len() <= usize::MAX,
    ensures
        ({
            let list = members(positions(count as nat), keys.take(count), key);
            &&& forall|k: int|
                0 <= k < list.len() ==> (#[trigger] list[k]) < count && keys[list[k] as int] == key
            &&& forall|k: int, l: int|
                0 <= k < l < list.len() ==> (#[trigger] list[k]) < (#[trigger] list[l])
            &&& forall|at: int|
                0 <= at < count && #[trigger] keys[at] == key ==> list.contains(at as usize)
        }),
    decreases count,
{
    if count > 0 {
        lemma_listed_positions(keys, key, count - 1);
        let before = members(positions((count - 1) as nat), keys.take(count - 1), key);
        let list = members(positions(count as nat), keys.take(count), key);
        assert(positions(count as nat).drop_last() =~= positions((count - 1) as nat));
        assert(keys.take(count).drop_last() =~= keys.take(count - 1));
        assert forall|at: int| 0 <= at < count && #[trigger] keys[at] == key implies list.contains(
            at as usize,
        ) by {
            if at == count - 1 {
                assert(list[list.len() - 1] == at as usize);
            } else {
                assert(before.contains(at as usize));
                let k = choose|k: int| 0 <= k < before.len() && before[k] == at as usize;
                assert(list[k] == at as usize);
            }
        }
    }
}

/// A group lists the albums that name it, in their order, each once. An album
/// without a group stands in `Library root`.
pub proof fn law_groups_list_their_albums(albums: Seq<AlbumView>, g: int)
    requires
        albums.len() <= usize::MAX,
        0 <= g < groups_of(albums).len(),
    ensures
        ({
            let group = groups_of(albums)[g];
            &&& group.albums.len() > 0
            &&& forall|k: int, l: int|
                0 <= k < l < group.albums.len() ==> (#[trigger] group.albums[k]) < (
                #[trigger] group.albums[l])
            &&& forall|a: usize| #[trigger]
                group.albums.contains(a) <==> a < albums.len() && ({
                    ||| albums[a as int].group == Some(group.title)
                    ||| albums[a as int].group is None && group.title == "Library root"@
                })
            &&& forall|h: int|
                0 <= h < groups_of(albums).len() && h != g ==> (#[trigger] groups_of(
                    albums,
                )[h]).title != group.title
        }),
{
    let names = group_titles(albums);
    let titles = distinct(names);
    law_distinct(names);
    let group = groups_of(albums)[g];
    let count = names.len() as int;
    lemma_listed_positions(names, titles[g], count);
    assert(names.take(count) =~= names);
    let list = members(positions(count as nat), names.take(count), titles[g]);
    assert(group.albums == list);
    assert forall|a: usize| #[trigger] group.albums.contains(a) <==> a < albums.len() && ({
        ||| albums[a as int].group == Some(group.title)
        ||| albums[a as int].group is None && group.title == "Library root"@
    }) by {
        if group.albums.contains(a) {
            let k = choose|k: int| 0 <= k < group.albums.len() && group.albums[k] == a;
            assert(list[k] < count);
            assert(names[a as int] == titles[g]);
        }
        if a < albums.len() && names[a as int] == titles[g] {
            assert(group.albums.contains(a as int as usize));
        }
    }
    assert(titles.contains(titles[g]));
    let i = choose|i: int| 0 <= i < names.len() && names[i] == titles[g];
    assert(names[i] == titles[g]);
    assert(group.albums.contains(i as usize));
}

} // verus!
