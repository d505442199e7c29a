//! Builds setlist-shaped playlists from the setlists that artists played.
pub mod analysis;
pub mod api;
pub mod models;
pub mod ordering;
pub mod processor;
pub mod reducer;
pub mod report;
pub mod secrets_manager;
pub mod song_stats;
pub mod text;
pub mod validator;
