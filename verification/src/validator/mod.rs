//! Checks and sanitizes the command-line arguments.
pub mod arg_validator;
pub mod artist_validator;
pub mod playlist_name_validator;
