//! Tests for the stable comparator-driven sort itself.

use playlist_view::order::{compare_tracks, sort_tracks, str_le};
use playlist_view::track::{SortDirection, SortKey, Track};

fn track(id: &str, title: &str, artist: &str, album: &str, duration: u64) -> Track {
    Track {
        id: id.to_string(),
        title: title.to_string(),
        artist: artist.to_string(),
        album: album.to_string(),
        duration,
    }
}

fn ids(v: &[Track]) -> Vec<String> {
    v.iter().map(|t| t.id.clone()).collect()
}

#[test]
fn str_le_orders_lexicographically() {
    assert!(str_le("abc", "abd"));
    assert!(!str_le("abd", "abc"));
    assert!(str_le("abc", "abc"));
    assert!(str_le("", "a"));
    assert!(!str_le("a", ""));
    assert!(str_le("ab", "abc"));
    assert!(!str_le("abc", "ab"));
    assert!(str_le("Zoo", "apple"));
}

#[test]
fn compare_tracks_respects_key_and_direction() {
    let a = track("1", "Alpha", "Zed", "M", 10);
    let b = track("2", "Beta", "Ann", "M", 5);
    assert!(compare_tracks(
        SortKey::Title,
        SortDirection::Ascending,
        &a,
        &b
    ));
    assert!(!compare_tracks(
        SortKey::Title,
        SortDirection::Descending,
        &a,
        &b
    ));
    assert!(!compare_tracks(
        SortKey::Artist,
        SortDirection::Ascending,
        &a,
        &b
    ));
    assert!(compare_tracks(
        SortKey::Duration,
        SortDirection::Descending,
        &a,
        &b
    ));
}

#[test]
fn sort_by_title_ascending() {
    let v = vec![
        track("1", "Gamma", "X", "M", 1),
        track("2", "Alpha", "X", "M", 2),
        track("3", "Beta", "X", "M", 3),
    ];
    let sorted = sort_tracks(SortKey::Title, SortDirection::Ascending, &v);
    assert_eq!(ids(&sorted), vec!["2", "3", "1"]);
}

#[test]
fn sort_by_duration_descending() {
    let v = vec![
        track("1", "A", "X", "M", 30),
        track("2", "B", "X", "M", 90),
        track("3", "C", "X", "M", 60),
    ];
    let sorted = sort_tracks(SortKey::Duration, SortDirection::Descending, &v);
    assert_eq!(ids(&sorted), vec!["2", "3", "1"]);
}

#[test]
fn sort_is_stable_on_tied_keys() {
    let v = vec![
        track("1", "Same", "B", "M", 1),
        track("2", "Same", "A", "M", 2),
        track("3", "Earlier", "C", "M", 3),
        track("4", "Same", "D", "M", 4),
    ];
    let sorted = sort_tracks(SortKey::Title, SortDirection::Ascending, &v);
    // The three tied "Same" tracks keep their pre-sort relative order.
    assert_eq!(ids(&sorted), vec!["3", "1", "2", "4"]);
}

#[test]
fn descending_sort_is_also_stable_on_ties() {
    let v = vec![
        track("1", "A", "X", "M", 5),
        track("2", "B", "X", "M", 9),
        track("3", "C", "X", "M", 5),
    ];
    let sorted = sort_tracks(SortKey::Duration, SortDirection::Descending, &v);
    assert_eq!(ids(&sorted), vec!["2", "1", "3"]);
}

#[test]
fn sorting_twice_gives_the_same_order() {
    let v = vec![
        track("1", "Same", "B", "M", 1),
        track("2", "Same", "A", "M", 2),
        track("3", "Other", "C", "M", 3),
    ];
    let once = sort_tracks(SortKey::Title, SortDirection::Ascending, &v);
    let twice = sort_tracks(SortKey::Title, SortDirection::Ascending, &once);
    assert_eq!(once, twice);
}

#[test]
fn str_le_compares_by_code_point_beyond_ascii() {
    assert!(str_le("eclair", "\u{e9}clair"));
    assert!(!str_le("\u{e9}clair", "eclair"));
    assert!(str_le("caf\u{e9}", "caf\u{e9}s"));
}

#[test]
fn sort_of_single_track_is_unchanged() {
    let v = vec![track("1", "Only", "X", "M", 1)];
    let sorted = sort_tracks(SortKey::Title, SortDirection::Descending, &v);
    assert_eq!(ids(&sorted), vec!["1"]);
}

#[test]
fn sort_of_empty_is_empty() {
    let sorted = sort_tracks(SortKey::Album, SortDirection::Ascending, &Vec::new());
    assert!(sorted.is_empty());
}
