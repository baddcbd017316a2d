//! The playlist domain entity: identity, name, the loaded track sequence,
//! and the sort preference carried for persistence.

use vstd::prelude::*;

use crate::order::{sort_spec, sort_tracks};
use crate::track::{
    lemma_cloned_track_views, track_views, SortDirection, SortKey, SortPreference, Track, TrackData,
};

verus! {

/// A playlist as this core sees it.  `tracks` is absent until a load has
/// populated it; a load either fully populates it or leaves it absent.
/// `sort_preference` is the entity's own carried copy of the user's chosen
/// order, the primary record a surrounding shell persists.
pub struct PlaylistEntity {
    pub id: String,
    pub name: String,
    pub tracks: Option<Vec<Track>>,
    pub sort_preference: Option<SortPreference>,
}

impl PlaylistEntity {
    /// Whether a load has populated the track sequence.
    pub open spec fn loaded(self) -> bool {
        self.tracks is Some
    }

    /// The value sequence of the loaded tracks.
    pub open spec fn tracks_view(self) -> Seq<TrackData>
        recommends
            self.loaded(),
    {
        track_views(self.tracks->Some_0@)
    }

    /// The number of loaded tracks.
    pub fn track_count(&self) -> (n: usize)
        requires
            self.loaded(),
        ensures
            n == self.tracks_view().len(),
    {
        match &self.tracks {
            Some(t) => t.len(),
            None => 0,
        }
    }

    /// Reorders the loaded tracks by the given key and direction with a
    /// stable sort, and records the preference on the entity.  An entity
    /// whose tracks were never loaded only records the preference.
    pub fn sort(&mut self, key: SortKey, direction: SortDirection)
        ensures
            final(self).id == old(self).id,
            final(self).name == old(self).name,
            final(self).sort_preference == Some(SortPreference { key, direction }),
            final(self).loaded() == old(self).loaded(),
            old(self).loaded() ==> final(self).tracks_view() == sort_spec(
                key,
                direction,
                old(self).tracks_view(),
            ),
    {
        self.sort_preference = Some(SortPreference { key, direction });
        let sorted = match &self.tracks {
            Some(t) => Some(sort_tracks(key, direction, t)),
            None => None,
        };
        self.tracks = sorted;
    }

    /// Removes the track at `pos` from the loaded sequence.
    pub fn remove_track(&mut self, pos: usize)
        requires
            old(self).loaded(),
            pos < old(self).tracks_view().len(),
        ensures
            final(self).id == old(self).id,
            final(self).name == old(self).name,
            final(self).sort_preference == old(self).sort_preference,
            final(self).loaded(),
            final(self).tracks_view() == old(self).tracks_view().remove(pos as int),
    {
        let ghost before = self.tracks->Some_0@;
        match &mut self.tracks {
            Some(t) => {
                t.remove(pos);
                proof {
                    assert(track_views(t@) =~= track_views(before).remove(pos as int));
                }
            },
            None => {},
        }
    }
}

impl Clone for PlaylistEntity {
    /// Clones the entity; the copy denotes the same playlist value.
    fn clone(&self) -> (res: Self)
        ensures
            res.id@ == self.id@,
            res.name@ == self.name@,
            res.sort_preference == self.sort_preference,
            res.loaded() == self.loaded(),
            self.loaded() ==> res.tracks_view() == self.tracks_view(),
    {
        let tracks = match &self.tracks {
            Some(t) => {
                let copy = t.clone();
                proof {
                    lemma_cloned_track_views(t@, copy@);
                }
                Some(copy)
            },
            None => None,
        };
        PlaylistEntity {
            id: self.id.clone(),
            name: self.name.clone(),
            tracks,
            sort_preference: self.sort_preference,
        }
    }
}

} // verus!
