//! Track records and the sort preference that orders them.

use vstd::prelude::*;

verus! {

/// The mathematical value of a [`Track`]: every text field is abstracted to
/// its character sequence, so contracts can speak of equality of contents
/// rather than of `String` values.
pub struct TrackData {
    pub id: Seq<char>,
    pub title: Seq<char>,
    pub artist: Seq<char>,
    pub album: Seq<char>,
    pub duration: u64,
}

/// One track as reported by the backend.  Identity is the backend `id`;
/// the remaining fields are the data a list row shows and sorts by.
#[derive(Debug, PartialEq, Eq)]
pub struct Track {
    pub id: String,
    pub title: String,
    pub artist: String,
    pub album: String,
    pub duration: u64,
}

impl View for Track {
    type V = TrackData;

    open spec fn view(&self) -> TrackData {
        TrackData {
            id: self.id@,
            title: self.title@,
            artist: self.artist@,
            album: self.album@,
            duration: self.duration,
        }
    }
}

impl Clone for Track {
    fn clone(&self) -> (res: Self)
        ensures
            res@ == self@,
    {
        Track {
            id: self.id.clone(),
            title: self.title.clone(),
            artist: self.artist.clone(),
            album: self.album.clone(),
            duration: self.duration,
        }
    }
}

/// The field a sort reorders the list by.
#[derive(Clone, Copy, Debug, PartialEq, Eq, Structural)]
pub enum SortKey {
    Title,
    Artist,
    Album,
    Duration,
}

/// Whether a sort puts the smallest or the largest value first.
#[derive(Clone, Copy, Debug, PartialEq, Eq, Structural)]
pub enum SortDirection {
    Ascending,
    Descending,
}

/// A user's chosen ordering: the pair persisted across restarts.
#[derive(Clone, Copy, Debug, PartialEq, Eq, Structural)]
pub struct SortPreference {
    pub key: SortKey,
    pub direction: SortDirection,
}

/// The sequence of track values that a sequence of tracks denotes.
pub open spec fn track_views(s: Seq<Track>) -> Seq<TrackData> {
    Seq::new(s.len(), |i: int| s[i]@)
}

/// A cloned track sequence denotes the same track values.
pub(crate) proof fn lemma_cloned_track_views(a: Seq<Track>, b: Seq<Track>)
    requires
        a.len() == b.len(),
        forall|i: int| #![all_triggers] 0 <= i < a.len() ==> cloned::<Track>(a[i], b[i]),
    ensures
        track_views(a) == track_views(b),
{
    assert forall|i: int| 0 <= i < a.len() implies a[i]@ == b[i]@ by {
        assert(cloned::<Track>(a[i], b[i]));
    }
    assert(track_views(a) =~= track_views(b));
}

} // verus!
