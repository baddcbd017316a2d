//! A verified view-model for an interactive playlist screen.
//!
//! The crate binds a playlist's track list (as last reported by a backend)
//! to the ordered buffer that a selectable list widget renders, and keeps
//! the two in lockstep while the user deletes tracks and re-sorts the list.
//! The sort preference chosen by the user is carried on the playlist entity
//! so that a surrounding shell can persist it across restarts.

pub mod order;
pub mod playlist;
pub mod track;
pub mod view;
