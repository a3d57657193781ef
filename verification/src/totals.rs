//! How many albums, tracks and bytes the library has, and how many of them are
//! shown.

use vstd::prelude::*;
use crate::albums::Album;
use crate::browser::App;
use crate::format::checked_album_duration;
use crate::library::Track;
use crate::albums::AlbumView;
use crate::browser::AppView;
use crate::format::duration_fits;
use crate::library::TrackView;

verus! {

/// The bytes of tracks together.
pub open spec fn total_bytes(tracks: Seq<TrackView>) -> nat
    decreases tracks.len(),
{
    if tracks.len() == 0 {
        0
    } else {
        total_bytes(tracks.drop_last()) + tracks.last().bytes as nat
    }
}

/// The tracks of albums together.
pub open spec fn library_tracks(albums: Seq<AlbumView>) -> nat
    decreases albums.len(),
{
    if albums.len() == 0 {
        0
    } else {
        library_tracks(albums.drop_last()) + albums.last().tracks.len()
    }
}

/// The bytes of albums together.
pub open spec fn library_bytes(albums: Seq<AlbumView>) -> nat
    decreases albums.len(),
{
    if albums.len() == 0 {
        0
    } else {
        library_bytes(albums.drop_last()) + total_bytes(albums.last().tracks)
    }
}

/// Counts of albums, tracks and bytes.
pub struct Totals {
    pub albums: nat,
    pub tracks: nat,
    pub bytes: nat,
}

impl AppView {
    /// The tracks that pass the filter.
    pub open spec fn shown_tracks(self, tracks: Seq<TrackView>) -> Seq<TrackView>
        decreases tracks.len(),
    {
        if tracks.len() == 0 {
            Seq::empty()
        } else {
            let before = self.shown_tracks(tracks.drop_last());
            if self.track_shown(tracks.last()) {
                before.push(tracks.last())
            } else {
                before
            }
        }
    }

    /// The totals of what is shown of albums: of those that are shown, the
    /// tracks that pass the filter.
    pub open spec fn shown_totals(self, albums: Seq<AlbumView>) -> Totals
        decreases albums.len(),
    {
        if albums.len() == 0 {
            Totals { albums: 0, tracks: 0, bytes: 0 }
        } else {
            let before = self.shown_totals(albums.drop_last());
            if self.album_shown(albums.last()) {
                let tracks = self.shown_tracks(albums.last().tracks);
                Totals {
                    albums: before.albums + 1,
                    tracks: before.tracks + tracks.len(),
                    bytes: before.bytes + total_bytes(tracks),
                }
            } else {
                before
            }
        }
    }

    /// The totals of what is shown.
    pub open spec fn visible_totals(self) -> Totals {
        self.shown_totals(self.active_albums())
    }

    /// Whether the totals of the current view can be told: its tracks, its
    /// bytes, and the length of each of its albums.
    pub open spec fn totals_fit(self) -> bool {
        &&& library_tracks(self.active_albums()) <= usize::MAX
        &&& library_bytes(self.active_albums()) <= u64::MAX
        &&& forall|i: int|
            0 <= i < self.active_albums().len() ==> duration_fits(
                (#[trigger] self.active_albums()[i]).tracks,
            )
    }
}

proof fn lemma_total_bytes_grow(tracks: Seq<TrackView>, count: int)
    requires
        0 <= count <= tracks.len(),
    ensures
        total_bytes(tracks.take(count)) <= total_bytes(tracks),
    decreases tracks.len() - count,
{
    if count == tracks.len() {
        assert(tracks.take(count) =~= tracks);
    } else {
        lemma_total_bytes_grow(tracks, count + 1);
        assert(tracks.take(count + 1).drop_last() =~= tracks.take(count));
    }
}

proof fn lemma_library_grows(albums: Seq<AlbumView>, count: int)
    requires
        0 <= count <= albums.len(),
    ensures
        library_tracks(albums.take(count)) <= library_tracks(albums),
        library_bytes(albums.take(count)) <= library_bytes(albums),
    decreases albums.len() - count,
{
    if count == albums.len() {
        assert(albums.take(count) =~= albums);
    } else {
        lemma_library_grows(albums, count + 1);
        assert(albums.take(count + 1).drop_last() =~= albums.take(count));
    }
}

/// The bytes of one album are among those of the library.
pub proof fn lemma_album_bytes(albums: Seq<AlbumView>, index: int)
    requires
        0 <= index < albums.len(),
    ensures
        total_bytes(albums[index].tracks) <= library_bytes(albums),
{
    lemma_library_grows(albums, index + 1);
    assert(albums.take(index + 1).last() == albums[index]);
}

proof fn lemma_shown_totals_grow(app: AppView, albums: Seq<AlbumView>, count: int)
    requires
        0 <= count <= albums.len(),
    ensures
        app.shown_totals(albums.take(count)).tracks <= app.shown_totals(albums).tracks,
        app.shown_totals(albums.take(count)).bytes <= app.shown_totals(albums).bytes,
        app.shown_totals(albums.take(count)).albums <= count,
    decreases albums.len() - count,
{
    lemma_shown_albums(app, albums.take(count));
    if count == albums.len() {
        assert(albums.take(count) =~= albums);
    } else {
        lemma_shown_totals_grow(app, albums, count + 1);
        assert(albums.take(count + 1).drop_last() =~= albums.take(count));
    }
}

proof fn lemma_shown_albums(app: AppView, albums: Seq<AlbumView>)
    ensures
        app.shown_totals(albums).albums <= albums.len(),
    decreases albums.len(),
{
    if albums.len() > 0 {
        lemma_shown_albums(app, albums.drop_last());
    }
}

proof fn lemma_shown_tracks(app: AppView, tracks: Seq<TrackView>)
    ensures
        app.shown_tracks(tracks).len() <= tracks.len(),
        total_bytes(app.shown_tracks(tracks)) <= total_bytes(tracks),
        app.active_filter is None ==> app.shown_tracks(tracks) == tracks,
    decreases tracks.len(),
{
    if tracks.len() > 0 {
        lemma_shown_tracks(app, tracks.drop_last());
        let before = app.shown_tracks(tracks.drop_last());
        if app.track_shown(tracks.last()) {
            assert(before.push(tracks.last()).drop_last() =~= before);
            if app.active_filter is None {
                assert(tracks.drop_last().push(tracks.last()) =~= tracks);
            }
        }
    }
}

/// What is shown is part of the library: its totals are at most those of the
/// library.
pub proof fn law_shown_at_most_all(app: AppView, albums: Seq<AlbumView>)
    ensures
        app.shown_totals(albums).albums <= albums.len(),
        app.shown_totals(albums).tracks <= library_tracks(albums),
        app.shown_totals(albums).bytes <= library_bytes(albums),
    decreases albums.len(),
{
    if albums.len() > 0 {
        law_shown_at_most_all(app, albums.drop_last());
        lemma_shown_tracks(app, albums.last().tracks);
    }
}

/// Without a search and a filter everything is shown: the totals are those of
/// the library, as far as albums have tracks.
pub proof fn law_all_shown_unfiltered(app: AppView, albums: Seq<AlbumView>)
    requires
        app.search is None,
        app.active_filter is None,
        forall|i: int| 0 <= i < albums.len() ==> (#[trigger] albums[i]).tracks.len() > 0,
    ensures
        app.shown_totals(albums).albums == albums.len(),
        app.shown_totals(albums).tracks == library_tracks(albums),
        app.shown_totals(albums).bytes == library_bytes(albums),
    decreases albums.len(),
{
    if albums.len() > 0 {
        let before = albums.drop_last();
        assert forall|i: int| 0 <= i < before.len() implies (#[trigger] before[i]).tracks.len()
            > 0 by {
            assert(before[i] == albums[i]);
        }
        law_all_shown_unfiltered(app, before);
        lemma_shown_tracks(app, albums.last().tracks);
        assert(albums[albums.len() - 1].tracks.len() > 0);
        assert(app.track_shown(albums.last().tracks[0]));
        assert(app.album_shown(albums.last()));
    }
}

/// The bytes of `tracks` together, unless they are more than can be told.
pub fn checked_bytes(tracks: &Vec<Track>) -> (bytes: Option<u64>)
    ensures
        match bytes {
            Some(bytes) => bytes == total_bytes(tracks.deep_view()),
            None => total_bytes(tracks.deep_view()) > u64::MAX,
        },
{
    let ghost views = tracks.deep_view();
    let mut bytes: u64 = 0;
    let mut next: usize = 0;
    assert(views.take(0) =~= Seq::empty());
    while next < tracks.len()
        invariant
            next <= tracks@.len(),
            views == tracks.deep_view(),
            bytes == total_bytes(views.take(next as int)),
        decreases tracks.len() - next,
    {
        assert(views.take(next + 1).drop_last() =~= views.take(next as int));
        proof {
            lemma_total_bytes_grow(views, next + 1);
        }
        bytes = match bytes.checked_add(tracks[next].bytes) {
            Some(sum) => sum,
            None => {
                return None;
            },
        };
        next += 1;
    }
    assert(views.take(views.len() as int) =~= views);
    Some(bytes)
}

/// The tracks and bytes of `albums` together, unless they are more than can be
/// told.
pub fn checked_totals(albums: &Vec<Album>) -> (totals: Option<(usize, u64)>)
    ensures
        match totals {
            Some(totals) => totals.0 == library_tracks(albums.deep_view()) && totals.1
                == library_bytes(albums.deep_view()),
            None => library_tracks(albums.deep_view()) > usize::MAX || library_bytes(
                albums.deep_view(),
            ) > u64::MAX,
        },
{
    let ghost views = albums.deep_view();
    let mut tracks: usize = 0;
    let mut bytes: u64 = 0;
    let mut next: usize = 0;
    assert(views.take(0) =~= Seq::empty());
    while next < albums.len()
        invariant
            next <= albums@.len(),
            views == albums.deep_view(),
            tracks == library_tracks(views.take(next as int)),
            bytes == library_bytes(views.take(next as int)),
        decreases albums.len() - next,
    {
        assert(views.take(next + 1).drop_last() =~= views.take(next as int));
        assert(views[next as int] == albums@[next as int]@);
        proof {
            lemma_library_grows(views, next + 1);
        }
        tracks = match tracks.checked_add(albums[next].tracks.len()) {
            Some(sum) => sum,
            None => {
                return None;
            },
        };
        let more = match checked_bytes(&albums[next].tracks) {
            Some(more) => more,
            None => {
                return None;
            },
        };
        bytes = match bytes.checked_add(more) {
            Some(sum) => sum,
            None => {
                return None;
            },
        };
        next += 1;
    }
    assert(views.take(views.len() as int) =~= views);
    Some((tracks, bytes))
}

impl App {
    fn shown_of(&self, tracks: &Vec<Track>) -> (counts: (usize, u64))
        requires
            total_bytes(self@.shown_tracks(tracks.deep_view())) <= u64::MAX,
        ensures
            counts.0 == self@.shown_tracks(tracks.deep_view()).len(),
            counts.1 == total_bytes(self@.shown_tracks(tracks.deep_view())),
    {
        let ghost views = tracks.deep_view();
        let mut count: usize = 0;
        let mut bytes: u64 = 0;
        let mut next: usize = 0;
        assert(views.take(0) =~= Seq::empty());
        while next < tracks.len()
            invariant
                count <= next <= tracks@.len(),
                views == tracks.deep_view(),
                total_bytes(self@.shown_tracks(views)) <= u64::MAX,
                count == self@.shown_tracks(views.take(next as int)).len(),
                bytes == total_bytes(self@.shown_tracks(views.take(next as int))),
            decreases tracks.len() - next,
        {
            assert(views.take(next + 1).drop_last() =~= views.take(next as int));
            assert(views[next as int] == tracks@[next as int]@);
            proof {
                lemma_shown_prefix(self@, views, next + 1);
            }
            let ghost before = self@.shown_tracks(views.take(next as int));
            if self.track_matches_filter(&tracks[next]) {
                assert(before.push(views[next as int]).drop_last() =~= before);
                count += 1;
                bytes += tracks[next].bytes;
            }
            next += 1;
        }
        assert(views.take(views.len() as int) =~= views);
        (count, bytes)
    }

    /// How many albums, tracks and bytes are shown.
    pub fn visible_library_totals(&self) -> (totals: (usize, usize, u64))
        requires
            self@.visible_totals().tracks <= usize::MAX,
            self@.visible_totals().bytes <= u64::MAX,
        ensures
            totals.0 == self@.visible_totals().albums,
            totals.1 == self@.visible_totals().tracks,
            totals.2 == self@.visible_totals().bytes,
    {
        let active = self.active_albums();
        let ghost views = active.deep_view();
        let mut albums: usize = 0;
        let mut tracks: usize = 0;
        let mut bytes: u64 = 0;
        let mut next: usize = 0;
        assert(views.take(0) =~= Seq::empty());
        while next < active.len()
            invariant
                next <= active@.len(),
                views == active.deep_view(),
                self@.shown_totals(views).tracks <= usize::MAX,
                self@.shown_totals(views).bytes <= u64::MAX,
                albums == self@.shown_totals(views.take(next as int)).albums,
                tracks == self@.shown_totals(views.take(next as int)).tracks,
                bytes == self@.shown_totals(views.take(next as int)).bytes,
            decreases active.len() - next,
        {
            assert(views.take(next + 1).drop_last() =~= views.take(next as int));
            assert(views[next as int] == active@[next as int]@);
            proof {
                lemma_shown_totals_grow(self@, views, next as int);
                lemma_shown_totals_grow(self@, views, next + 1);
            }
            if self.album_matches(&active[next]) {
                let shown = self.shown_of(&active[next].tracks);
                albums += 1;
                tracks += shown.0;
                bytes += shown.1;
            }
            next += 1;
        }
        assert(views.take(views.len() as int) =~= views);
        (albums, tracks, bytes)
    }

    /// Whether the totals of the current view can be told.
    pub fn totals_fit(&self) -> (fit: bool)
        ensures
            fit == self@.totals_fit(),
    {
        let active = self.active_albums();
        let ghost views = active.deep_view();
        if checked_totals(active).is_none() {
            return false;
        }
        let mut next: usize = 0;
        while next < active.len()
            invariant
                next <= active@.len(),
                views == active.deep_view(),
                views == self@.active_albums(),
                forall|i: int| 0 <= i < next ==> duration_fits((#[trigger] views[i]).tracks),
            decreases active.len() - next,
        {
            assert(views[next as int] == active@[next as int]@);
            if checked_album_duration(&active[next].tracks).is_err() {
                return false;
            }
            next += 1;
        }
        true
    }
}

proof fn lemma_shown_prefix(app: AppView, tracks: Seq<TrackView>, count: int)
    requires
        0 <= count <= tracks.len(),
    ensures
        total_bytes(app.shown_tracks(tracks.take(count))) <= total_bytes(app.shown_tracks(tracks)),
    decreases tracks.len() - count,
{
    if count == tracks.len() {
        assert(tracks.take(count) =~= tracks);
    } else {
        lemma_shown_prefix(app, tracks, count + 1);
        assert(tracks.take(count + 1).drop_last() =~= tracks.take(count));
        let before = app.shown_tracks(tracks.take(count));
        assert(before.push(tracks[count]).drop_last() =~= before);
    }
}

} // verus!
