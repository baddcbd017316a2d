//! Tests for the playlist entity's own mutation helpers.

use playlist_view::playlist::PlaylistEntity;
use playlist_view::track::{SortDirection, SortKey, SortPreference, Track};

fn track(id: &str, title: &str, duration: u64) -> Track {
    Track {
        id: id.to_string(),
        title: title.to_string(),
        artist: "X".to_string(),
        album: "M".to_string(),
        duration,
    }
}

#[test]
fn sort_on_unloaded_entity_only_records_preference() {
    let mut e = PlaylistEntity {
        id: "p1".to_string(),
        name: "Mix".to_string(),
        tracks: None,
        sort_preference: None,
    };
    e.sort(SortKey::Title, SortDirection::Ascending);
    assert!(e.tracks.is_none());
    assert_eq!(
        e.sort_preference,
        Some(SortPreference {
            key: SortKey::Title,
            direction: SortDirection::Ascending,
        })
    );
}

#[test]
fn sort_reorders_loaded_tracks() {
    let mut e = PlaylistEntity {
        id: "p1".to_string(),
        name: "Mix".to_string(),
        tracks: Some(vec![track("1", "B", 2), track("2", "A", 1)]),
        sort_preference: None,
    };
    e.sort(SortKey::Title, SortDirection::Ascending);
    let titles: Vec<String> = e
        .tracks
        .as_ref()
        .unwrap()
        .iter()
        .map(|t| t.title.clone())
        .collect();
    assert_eq!(titles, vec!["A", "B"]);
    assert_eq!(e.track_count(), 2);
}

#[test]
fn remove_track_drops_exactly_one_position() {
    let mut e = PlaylistEntity {
        id: "p1".to_string(),
        name: "Mix".to_string(),
        tracks: Some(vec![track("1", "A", 1), track("2", "B", 2), track("3", "C", 3)]),
        sort_preference: None,
    };
    e.remove_track(1);
    let ids: Vec<String> = e
        .tracks
        .as_ref()
        .unwrap()
        .iter()
        .map(|t| t.id.clone())
        .collect();
    assert_eq!(ids, vec!["1", "3"]);
}

#[test]
fn clone_copies_the_playlist_value() {
    let e = PlaylistEntity {
        id: "p1".to_string(),
        name: "Mix".to_string(),
        tracks: Some(vec![track("1", "A", 1)]),
        sort_preference: Some(SortPreference {
            key: SortKey::Duration,
            direction: SortDirection::Descending,
        }),
    };
    let c = e.clone();
    assert_eq!(c.id, e.id);
    assert_eq!(c.name, e.name);
    assert_eq!(c.sort_preference, e.sort_preference);
    assert_eq!(c.tracks.as_ref().unwrap(), e.tracks.as_ref().unwrap());
}
