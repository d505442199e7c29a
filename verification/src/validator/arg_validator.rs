//! Validates all command-line arguments together.
use crate::models::{Args, StreamingService};
use crate::secrets_manager::KeyType;
use crate::text::string_views;
use crate::validator::artist_validator::{artist_validation, ArtistValidator};
use crate::validator::playlist_name_validator::{
    option_view, playlist_name_validation, PlaylistNameValidator,
};
use vstd::prelude::*;

verus! {

/// The arguments once checked and cleaned.
pub struct SanitizedArgs {
    pub artists: Vec<String>,
    pub playlist_name: String,
    pub service: StreamingService,
    pub page_depth: u16,
    /// Secrets given on the command line, each kind at most once.
    pub secrets_by_type: Vec<(KeyType, String)>,
}

/// The secrets given on the command line.
pub open spec fn secrets_given(args: &Args) -> Seq<(KeyType, Seq<char>)> {
    match args.setlist_api_key {
        Some(key) => seq![(KeyType::SetlistFmApiKey, key@)],
        None => Seq::empty(),
    }
}

pub open spec fn secret_views(s: Seq<(KeyType, String)>) -> Seq<(KeyType, Seq<char>)> {
    Seq::new(s.len(), |i: int| (s[i].0, s[i].1@))
}

pub struct ArgValidator {}

impl ArgValidator {
    /// The sanitized arguments, or the message of the first check that fails: the
    /// artists are checked first, then the playlist name.
    pub fn validate(args: &Args) -> (r: Result<SanitizedArgs, String>)
        ensures
            match r {
                Ok(sanitized) => {
                    &&& artist_validation(args.artists@) == Ok::<Seq<Seq<char>>, Seq<char>>(
                        string_views(sanitized.artists@),
                    )
                    &&& playlist_name_validation(
                        option_view(args.playlist_name),
                        string_views(sanitized.artists@),
                    ) == Ok::<Seq<char>, Seq<char>>(sanitized.playlist_name@)
                    &&& sanitized.service == args.service
                    &&& sanitized.page_depth == args.page_depth
                    &&& secret_views(sanitized.secrets_by_type@) == secrets_given(args)
                },
                Err(e) => match artist_validation(args.artists@) {
                    Err(msg) => e@ == msg,
                    Ok(artists) => playlist_name_validation(option_view(args.playlist_name), artists)
                        == Err::<Seq<char>, Seq<char>>(e@),
                },
            },
    {
        let artists = match ArtistValidator::validate(args) {
            Ok(a) => a,
            Err(e) => {
                return Err(e);
            },
        };
        let playlist_name = match PlaylistNameValidator::validate(args, &artists) {
            Ok(n) => n,
            Err(e) => {
                return Err(e);
            },
        };
        let secrets_by_type = build_secrets_by_type(args);
        Ok(
            SanitizedArgs {
                artists,
                playlist_name,
                service: args.service,
                page_depth: args.page_depth,
                secrets_by_type,
            },
        )
    }
}

/// The secrets given on the command line, by kind.
fn build_secrets_by_type(args: &Args) -> (secrets: Vec<(KeyType, String)>)
    ensures
        secret_views(secrets@) == secrets_given(args),
{
    let mut secrets_by_type: Vec<(KeyType, String)> = Vec::new();
    if let Some(setlist_api_key) = &args.setlist_api_key {
        secrets_by_type.push((KeyType::SetlistFmApiKey, setlist_api_key.clone()));
    }
    assert(secret_views(secrets_by_type@) =~= secrets_given(args));
    secrets_by_type
}

} // verus!
