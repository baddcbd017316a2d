//! The view-model binding a playlist entity to the track buffer that a
//! selectable list widget renders, together with the widget's selection
//! cursor.  Construction loads and pre-sorts the list; Delete and Sort
//! commands mutate entity, buffer, and cursor in lockstep.

use vstd::prelude::*;

use crate::order::{lemma_sort_spec_keeps_track, sort_spec};
use crate::playlist::PlaylistEntity;
use crate::track::{
    lemma_cloned_track_views, track_views, SortDirection, SortKey, SortPreference, Track, TrackData,
};

verus! {

/// A command reaching the view while it has focus.  Anything the view does
/// not recognize as Delete or Sort is opaque to it.
#[derive(Clone, Copy, Debug, PartialEq, Eq, Structural)]
pub enum Command {
    Delete,
    Sort(SortKey, SortDirection),
    Other,
}

/// What the view did with a command: absorbed it, or left it to the
/// wrapped list widget.
#[derive(Clone, Copy, Debug, PartialEq, Eq, Structural)]
pub enum CommandResult {
    Consumed,
    Forwarded,
}

/// The preference that orders a freshly constructed view: the entity's own
/// carried preference, falling back to the one read from the store.
pub open spec fn effective_preference(
    carried: Option<SortPreference>,
    stored: Option<SortPreference>,
) -> Option<SortPreference> {
    if carried is Some {
        carried
    } else {
        stored
    }
}

/// Where the cursor lands after the entry at its position is removed:
/// unchanged while still in range, clamped to the new last entry, or reset
/// when the list became empty.
pub open spec fn clamped_selection(old_sel: nat, new_len: nat) -> nat {
    if new_len == 0 {
        0
    } else if old_sel < new_len {
        old_sel
    } else {
        (new_len - 1) as nat
    }
}

/// The playlist screen's state: the domain entity, the ordered buffer the
/// list widget renders, and the widget's selection cursor.
pub struct PlaylistView {
    pub playlist: PlaylistEntity,
    pub buffer: Vec<Track>,
    pub selection: usize,
}

/// How a Delete command changes the view, given the backend's verdict on
/// the request: on success the selected track leaves the entity and the
/// buffer in the same step and the cursor is clamped; on failure, or with
/// nothing to delete, nothing changes.
pub open spec fn delete_transition(
    pre: PlaylistView,
    post: PlaylistView,
    backend_ok: bool,
) -> bool {
    &&& post.playlist.id == pre.playlist.id
    &&& post.playlist.name == pre.playlist.name
    &&& post.playlist.sort_preference == pre.playlist.sort_preference
    &&& if backend_ok && pre.buffer_view().len() > 0 {
        &&& post.buffer_view() == pre.buffer_view().remove(pre.selection as int)
        &&& post.playlist.tracks_view() == pre.playlist.tracks_view().remove(pre.selection as int)
        &&& post.selection == clamped_selection(pre.selection as nat, post.buffer_view().len())
    } else {
        &&& post.buffer_view() == pre.buffer_view()
        &&& post.playlist.tracks_view() == pre.playlist.tracks_view()
        &&& post.selection == pre.selection
    }
}

/// How a Sort command changes the view: entity tracks and buffer are
/// stably re-sorted to the same order, the preference is recorded on the
/// entity, and the cursor follows the identity of the track it was on —
/// it points at that track's backend id, at its first position in the new
/// order, never at a mere numeric slot.
pub open spec fn sort_transition(
    pre: PlaylistView,
    post: PlaylistView,
    key: SortKey,
    direction: SortDirection,
) -> bool {
    &&& post.playlist.id == pre.playlist.id
    &&& post.playlist.name == pre.playlist.name
    &&& post.playlist.sort_preference == Some(SortPreference { key, direction })
    &&& post.buffer_view() == sort_spec(key, direction, pre.buffer_view())
    &&& post.playlist.tracks_view() == post.buffer_view()
    &&& if pre.buffer_view().len() > 0 {
        let moved_id = pre.buffer_view()[pre.selection as int].id;
        &&& post.selection < post.buffer_view().len()
        &&& post.buffer_view()[post.selection as int].id == moved_id
        &&& forall|m: int|
            0 <= m < post.selection ==> post.buffer_view()[m].id != moved_id
    } else {
        post.selection == 0
    }
}

/// First position in `v` of the track with backend id `id`.
fn find_track_index(v: &Vec<Track>, id: &String) -> (r: usize)
    requires
        exists|j: int| 0 <= j < v@.len() && track_views(v@)[j].id == id@,
    ensures
        r < v@.len(),
        track_views(v@)[r as int].id == id@,
        forall|m: int| 0 <= m < r ==> track_views(v@)[m].id != id@,
{
    let mut i: usize = 0;
    while i < v.len()
        invariant
            i <= v@.len(),
            forall|m: int| 0 <= m < i ==> track_views(v@)[m].id != id@,
        decreases v@.len() - i,
    {
        if v[i].id == *id {
            return i;
        }
        i = i + 1;
    }
    // Never reached: the loop invariant contradicts the existence premise.
    proof {
        let j = choose|j: int| 0 <= j < v@.len() && track_views(v@)[j].id == id@;
        assert(false);
    }
    0
}

impl PlaylistView {
    /// The track values the widget renders, in display order.
    pub open spec fn buffer_view(self) -> Seq<TrackData> {
        track_views(self.buffer@)
    }

    /// Well-formed: the entity's tracks are loaded, the buffer mirrors
    /// them exactly, and the cursor is in range whenever the buffer is
    /// non-empty.
    pub open spec fn wf(self) -> bool {
        &&& self.playlist.loaded()
        &&& self.buffer_view() == self.playlist.tracks_view()
        &&& self.buffer_view().len() == 0 ==> self.selection == 0
        &&& self.buffer_view().len() > 0 ==> self.selection < self.buffer_view().len()
    }

    /// Builds the view for one playlist.  `backend_tracks` is the track
    /// sequence the backend returned for the playlist's id (empty when the
    /// load failed); `stored_preference` is what the persistence store
    /// holds under that id.  The effective preference is applied before
    /// the buffer exists, so no unsorted state is ever rendered, and is
    /// recorded on the entity as the carried copy.
    pub fn new(
        playlist: &PlaylistEntity,
        backend_tracks: Vec<Track>,
        stored_preference: Option<SortPreference>,
    ) -> (view: PlaylistView)
        ensures
            view.wf(),
            view.playlist.id@ == playlist.id@,
            view.playlist.name@ == playlist.name@,
            view.playlist.sort_preference == effective_preference(
                playlist.sort_preference,
                stored_preference,
            ),
            view.selection == 0,
            ({
                let loaded = track_views(backend_tracks@);
                match effective_preference(playlist.sort_preference, stored_preference) {
                    Some(p) => view.buffer_view() == sort_spec(p.key, p.direction, loaded),
                    None => view.buffer_view() == loaded,
                }
            }),
    {
        let mut entity = playlist.clone();
        entity.tracks = Some(backend_tracks);
        let pref = match entity.sort_preference {
            Some(p) => Some(p),
            None => stored_preference,
        };
        if let Some(p) = pref {
            entity.sort(p.key, p.direction);
        }
        let buffer = match &entity.tracks {
            Some(t) => {
                let copy = t.clone();
                proof {
                    lemma_cloned_track_views(t@, copy@);
                }
                copy
            },
            None => Vec::new(),
        };
        PlaylistView { playlist: entity, buffer, selection: 0 }
    }

    /// The playlist's display name, for the surrounding tab chrome.
    pub fn title(&self) -> (t: String)
        ensures
            t@ == self.playlist.name@,
    {
        self.playlist.name.clone()
    }

    /// The widget's cursor position.
    pub fn selected_index(&self) -> (i: usize)
        ensures
            i == self.selection,
    {
        self.selection
    }

    /// Moves the widget's cursor to `index`.
    pub fn select(&mut self, index: usize)
        requires
            old(self).wf(),
            index < old(self).buffer_view().len(),
        ensures
            final(self).wf(),
            final(self).playlist == old(self).playlist,
            final(self).buffer == old(self).buffer,
            final(self).selection == index,
    {
        self.selection = index;
    }

    /// The track the cursor rests on: what a Delete would send to the
    /// backend, together with its position.
    pub fn selected_track(&self) -> (t: Option<&Track>)
        requires
            self.wf(),
        ensures
            match t {
                Some(tr) => self.buffer_view().len() > 0 && tr@ == self.buffer_view()[self.selection as int],
                None => self.buffer_view().len() == 0,
            },
    {
        if self.buffer.len() > 0 {
            Some(&self.buffer[self.selection])
        } else {
            None
        }
    }

    /// Applies a Delete command.  `backend_ok` is the verdict the backend
    /// returned for deleting the selected track at its position; only on
    /// success does the track leave the entity and the buffer, in the same
    /// step, with the cursor clamped to the shortened list.  The command
    /// is consumed either way.
    pub fn handle_delete(&mut self, backend_ok: bool) -> (res: CommandResult)
        requires
            old(self).wf(),
        ensures
            final(self).wf(),
            res == CommandResult::Consumed,
            delete_transition(*old(self), *final(self), backend_ok),
    {
        if self.buffer.is_empty() || !backend_ok {
            return CommandResult::Consumed;
        }
        let pos = self.selection;
        let ghost pre_buffer = self.buffer@;
        self.playlist.remove_track(pos);
        self.buffer.remove(pos);
        proof {
            assert(track_views(self.buffer@) =~= track_views(pre_buffer).remove(pos as int));
        }
        let new_len = self.buffer.len();
        if new_len == 0 {
            self.selection = 0;
        } else if pos >= new_len {
            self.selection = new_len - 1;
        }
        CommandResult::Consumed
    }

    /// Applies a Sort command: stably reorders the entity's tracks and the
    /// buffer to the identical order, records the preference on the entity
    /// for persistence, and moves the cursor to the first position of the
    /// track it was resting on.  The command is consumed.
    pub fn handle_sort(&mut self, key: SortKey, direction: SortDirection) -> (res: CommandResult)
        requires
            old(self).wf(),
        ensures
            final(self).wf(),
            res == CommandResult::Consumed,
            sort_transition(*old(self), *final(self), key, direction),
    {
        let sel_id: Option<String> = if !self.buffer.is_empty() {
            Some(self.buffer[self.selection].id.clone())
        } else {
            None
        };
        self.playlist.sort(key, direction);
        let sorted = match &self.playlist.tracks {
            Some(t) => {
                let copy = t.clone();
                proof {
                    lemma_cloned_track_views(t@, copy@);
                }
                copy
            },
            None => Vec::new(),
        };
        self.buffer = sorted;
        match sel_id {
            Some(id) => {
                proof {
                    lemma_sort_spec_keeps_track(
                        key,
                        direction,
                        old(self).buffer_view(),
                        old(self).selection as int,
                    );
                }
                let idx = find_track_index(&self.buffer, &id);
                self.selection = idx;
            },
            None => {
                self.selection = 0;
            },
        }
        CommandResult::Consumed
    }

    /// Routes one command.  Delete and Sort are handled here and consumed;
    /// any other command is not the view's business: the state is left
    /// untouched and the result says the command goes to the wrapped list
    /// widget.  For a Delete, `backend_ok` carries the backend's verdict
    /// on deleting the selected track; other commands ignore it.
    pub fn on_command(&mut self, cmd: &Command, backend_ok: bool) -> (res: CommandResult)
        requires
            old(self).wf(),
        ensures
            final(self).wf(),
            match *cmd {
                Command::Delete => res == CommandResult::Consumed && delete_transition(
                    *old(self),
                    *final(self),
                    backend_ok,
                ),
                Command::Sort(key, direction) => res == CommandResult::Consumed
                    && sort_transition(*old(self), *final(self), key, direction),
                Command::Other => res == CommandResult::Forwarded && *final(self) == *old(self),
            },
    {
        match cmd {
            Command::Delete => self.handle_delete(backend_ok),
            Command::Sort(key, direction) => self.handle_sort(*key, *direction),
            Command::Other => CommandResult::Forwarded,
        }
    }
}

/// Buffer/entity agreement: a well-formed view never lets the rendered
/// buffer and the entity's tracks diverge — same length, same track values
/// in the same order.  Every operation above takes and returns a
/// well-formed view, so this holds at every observable point of any
/// sequence of load, sort, and delete steps.
pub proof fn lemma_buffer_entity_agree(v: PlaylistView)
    requires
        v.wf(),
    ensures
        v.buffer_view().len() == v.playlist.tracks_view().len(),
        forall|i: int|
            0 <= i < v.buffer_view().len() ==> v.buffer_view()[i] == v.playlist.tracks_view()[i],
{
}

} // verus!
