//! Cleans the playlist name, or makes one up from the artist names.
use crate::models::Args;
use crate::text::{
    all_ascii, ascii_only, ascii_only_chars, chars_of, collapse_white_space,
    collapse_white_space_chars, first_chars, join, lemma_ascii_only_is_ascii, push_decimal,
    push_text, string_of, string_views, trim, trim_chars, decimal, lens_before,
    lemma_comma_join_len, lemma_comma_join_piece, lemma_comma_join_sep, lemma_lens_before_grows,
    lemma_lens_before_prefix, lemma_subrange_of_left, lemma_ascii_only_of_ascii,
    lemma_collapse_is_single_spaced, lemma_collapse_keeps_ascii, lemma_trim_keeps_ascii,
    single_spaced,
};
use vstd::prelude::*;

verus! {

/// A playlist name may take at most this many bytes.
pub const MAX_PLAYLIST_NAME_LENGTH: usize = 100;

/// The number of bytes that a character takes in UTF-8 (`char::len_utf8`).
pub open spec fn utf8_width(c: char) -> nat {
    let u = c as u32;
    if u < 0x80 {
        1
    } else if u < 0x800 {
        2
    } else if u < 0x10000 {
        3
    } else {
        4
    }
}

/// The number of bytes of a text in UTF-8 (what `str::len` counts).
pub open spec fn byte_len(s: Seq<char>) -> nat
    decreases s.len(),
{
    if s.len() == 0 {
        0
    } else {
        byte_len(s.drop_last()) + utf8_width(s.last())
    }
}

/// A given name trimmed, with its white space collapsed and its non-ASCII characters dropped.
pub open spec fn cleaned_playlist_name(raw: Seq<char>) -> Seq<char> {
    ascii_only(collapse_white_space(trim(raw)))
}

/// "A Setlist" for one artist, "A, B and C Setlist" for several.
pub open spec fn default_playlist_name(artists: Seq<Seq<char>>) -> Seq<char> {
    if artists.len() == 1 {
        artists[0] + " Setlist"@
    } else {
        join(artists.drop_last(), ", "@) + " and "@ + artists.last() + " Setlist"@
    }
}

/// The default name, cut to its first 100 characters when it takes more than 100 bytes.
pub open spec fn generated_playlist_name(artists: Seq<Seq<char>>) -> Seq<char> {
    let name = default_playlist_name(artists);
    if byte_len(name) > MAX_PLAYLIST_NAME_LENGTH {
        first_chars(name, MAX_PLAYLIST_NAME_LENGTH as nat)
    } else {
        name
    }
}

pub open spec fn playlist_name_too_long_message() -> Seq<char> {
    "Playlist name is too long (greater than "@ + decimal(MAX_PLAYLIST_NAME_LENGTH as nat)
        + " characters). Please provide a shorter playlist name."@
}

/// The outcome of validating the playlist name argument.
pub open spec fn playlist_name_validation(raw: Option<Seq<char>>, artists: Seq<Seq<char>>) -> Result<
    Seq<char>,
    Seq<char>,
> {
    match raw {
        Some(name) => {
            let cleaned = cleaned_playlist_name(name);
            if byte_len(cleaned) > MAX_PLAYLIST_NAME_LENGTH {
                Err(playlist_name_too_long_message())
            } else {
                Ok(cleaned)
            }
        },
        None => Ok(generated_playlist_name(artists)),
    }
}

pub open spec fn option_view(o: Option<String>) -> Option<Seq<char>> {
    match o {
        Some(s) => Some(s@),
        None => None,
    }
}

proof fn lemma_ascii_byte_len(s: Seq<char>)
    requires
        all_ascii(s),
    ensures
        byte_len(s) == s.len(),
    decreases s.len(),
{
    if s.len() > 0 {
        assert(all_ascii(s.drop_last()));
        lemma_ascii_byte_len(s.drop_last());
        assert(crate::text::is_ascii_char(s[s.len() - 1]));
    }
}

/// Each character takes at least one byte.
proof fn lemma_chars_at_most_bytes(s: Seq<char>)
    ensures
        s.len() <= byte_len(s),
    decreases s.len(),
{
    if s.len() > 0 {
        lemma_chars_at_most_bytes(s.drop_last());
    }
}

/// Law: the name made up for two or more artists names every one of them, in order:
/// the first ones separated by ", ", then " and ", the last one and " Setlist", so that
/// it is as long as the names together plus two characters per ", " and 13 more. A name
/// longer than 100 characters is cut to 100.
pub proof fn lemma_default_name_lists_every_artist(artists: Seq<Seq<char>>)
    requires
        artists.len() >= 2,
    ensures
        ({
            let n = artists.len() as int;
            let full = lens_before(artists, n) + 2 * (n - 2) + 13;
            let g = generated_playlist_name(artists);
            let and_at = lens_before(artists, n - 1) + 2 * (n - 2);
            &&& g.len() == if full <= 100 {
                full
            } else {
                100
            }
            &&& full <= 100 ==> forall|i: int|
                0 <= i < n - 1 ==> g.subrange(
                    lens_before(artists, i) + 2 * i,
                    lens_before(artists, i) + 2 * i + artists[i].len(),
                ) == #[trigger] artists[i]
            &&& full <= 100 ==> forall|i: int|
                0 <= i < n - 2 ==> #[trigger] g.subrange(
                    lens_before(artists, i + 1) + 2 * i,
                    lens_before(artists, i + 1) + 2 * i + 2,
                ) == ", "@
            &&& full <= 100 ==> g.subrange(and_at, and_at + 5) == " and "@
            &&& full <= 100 ==> g.subrange(and_at + 5, and_at + 5 + artists[n - 1].len())
                == artists[n - 1]
            &&& full <= 100 ==> g.subrange(full - 8, full) == " Setlist"@
        }),
{
    reveal_strlit(" and ");
    reveal_strlit(" Setlist");
    reveal_strlit(", ");
    let n = artists.len() as int;
    let init = artists.drop_last();
    assert(init =~= artists.take(n - 1));
    let j = join(init, ", "@);
    let last = artists[n - 1];
    let f = default_playlist_name(artists);
    assert(f == j + " and "@ + last + " Setlist"@);
    assert(f =~= j + (" and "@ + last + " Setlist"@));
    lemma_comma_join_len(init);
    lemma_lens_before_prefix(artists, n - 1, n - 1);
    assert(lens_before(artists, n) == lens_before(artists, n - 1) + last.len());
    let full = lens_before(artists, n) + 2 * (n - 2) + 13;
    assert(f.len() == full);
    lemma_chars_at_most_bytes(f);
    let g = generated_playlist_name(artists);
    if full <= 100 {
        assert(g == f);
        assert forall|i: int| 0 <= i < n - 1 implies g.subrange(
            lens_before(artists, i) + 2 * i,
            lens_before(artists, i) + 2 * i + artists[i].len(),
        ) == #[trigger] artists[i] by {
            lemma_comma_join_piece(init, i);
            lemma_lens_before_prefix(artists, n - 1, i);
            lemma_lens_before_grows(artists, i + 1, n - 1);
            lemma_lens_before_grows(artists, 0, i);
            assert(lens_before(artists, 0) == 0);
            assert(lens_before(artists, i + 1) == lens_before(artists, i) + artists[i].len());
            assert(init[i] == artists[i]);
            lemma_subrange_of_left(
                j,
                " and "@ + last + " Setlist"@,
                lens_before(artists, i) + 2 * i,
                lens_before(artists, i) + 2 * i + artists[i].len(),
            );
        }
        assert forall|i: int| 0 <= i < n - 2 implies #[trigger] g.subrange(
            lens_before(artists, i + 1) + 2 * i,
            lens_before(artists, i + 1) + 2 * i + 2,
        ) == ", "@ by {
            lemma_comma_join_sep(init, i);
            lemma_lens_before_prefix(artists, n - 1, i + 1);
            lemma_lens_before_grows(artists, i + 2, n - 1);
            lemma_lens_before_grows(artists, 0, i + 1);
            assert(lens_before(artists, 0) == 0);
            assert(lens_before(artists, i + 2) == lens_before(artists, i + 1) + artists[i + 1].len());
            lemma_subrange_of_left(
                j,
                " and "@ + last + " Setlist"@,
                lens_before(artists, i + 1) + 2 * i,
                lens_before(artists, i + 1) + 2 * i + 2,
            );
        }
        let and_at = lens_before(artists, n - 1) + 2 * (n - 2);
        assert(j.len() == and_at);
        assert(g.subrange(and_at, and_at + 5) =~= " and "@);
        assert(g.subrange(and_at + 5, and_at + 5 + last.len()) =~= last);
        assert(g.subrange(full - 8, full) =~= " Setlist"@);
    } else {
        assert(byte_len(f) > MAX_PLAYLIST_NAME_LENGTH);
    }
}

/// Law: the name made up for one artist is that artist's name followed by " Setlist",
/// cut to 100 characters where it is longer.
pub proof fn lemma_default_name_of_one_artist(artists: Seq<Seq<char>>)
    requires
        artists.len() == 1,
    ensures
        ({
            let g = generated_playlist_name(artists);
            let full = artists[0].len() + 8int;
            &&& g.len() == if full <= 100 {
                full
            } else {
                100
            }
            &&& full <= 100 ==> g.subrange(0, artists[0].len() as int) == artists[0]
            &&& full <= 100 ==> g.subrange(artists[0].len() as int, full) == " Setlist"@
        }),
{
    reveal_strlit(" Setlist");
    let f = default_playlist_name(artists);
    assert(f == artists[0] + " Setlist"@);
    lemma_chars_at_most_bytes(f);
    let g = generated_playlist_name(artists);
    if f.len() <= 100 {
        assert(g == f);
        assert(g.subrange(0, artists[0].len() as int) =~= artists[0]);
        assert(g.subrange(artists[0].len() as int, f.len() as int) =~= " Setlist"@);
    }
}

/// Law: a given ASCII playlist name, once accepted, is single-spaced: no white space
/// at either end, no two white-space characters in a row, and only plain spaces.
pub proof fn lemma_given_ascii_name_single_spaced(raw: Seq<char>, artists: Seq<Seq<char>>)
    requires
        all_ascii(raw),
    ensures
        playlist_name_validation(Some(raw), artists) matches Ok(name) ==> single_spaced(name),
{
    lemma_trim_keeps_ascii(raw);
    lemma_collapse_keeps_ascii(trim(raw));
    lemma_ascii_only_of_ascii(collapse_white_space(trim(raw)));
    lemma_collapse_is_single_spaced(trim(raw));
}

/// Whether the text takes more than `limit` bytes in UTF-8.
fn exceeds_bytes(s: &Vec<char>, limit: usize) -> (b: bool)
    ensures
        b == (byte_len(s@) > limit),
{
    let mut total: usize = 0;
    let mut i: usize = 0;
    while i < s.len()
        invariant
            i <= s.len(),
            total == byte_len(s@.take(i as int)),
            total <= limit,
        decreases s.len() - i,
    {
        assert(s@.take(i + 1).drop_last() =~= s@.take(i as int));
        let u = s[i] as u32;
        let w: usize = if u < 0x80 {
            1
        } else if u < 0x800 {
            2
        } else if u < 0x10000 {
            3
        } else {
            4
        };
        if w > limit - total {
            proof {
                lemma_byte_len_prefix_monotone(s@, i + 1);
            }
            return true;
        }
        total = total + w;
        i += 1;
    }
    assert(s@.take(s.len() as int) =~= s@);
    false
}

/// A text takes at least as many bytes as any of its beginnings.
proof fn lemma_byte_len_prefix_monotone(s: Seq<char>, k: int)
    requires
        0 <= k <= s.len(),
    ensures
        byte_len(s.take(k)) <= byte_len(s),
    decreases s.len() - k,
{
    if k < s.len() {
        lemma_byte_len_prefix_monotone(s, k + 1);
        assert(s.take(k + 1).drop_last() =~= s.take(k));
    } else {
        assert(s.take(k) =~= s);
    }
}

/// Validates the playlist name argument.
pub struct PlaylistNameValidator {}

impl PlaylistNameValidator {
    /// The cleaned playlist name, or a name made from the artists when none was given.
    /// A given name is refused when it takes more than 100 bytes once cleaned; a name made
    /// up is cut to 100 characters instead.
    pub fn validate(args: &Args, sanitized_artist: &Vec<String>) -> (r: Result<String, String>)
        requires
            args.playlist_name is None ==> sanitized_artist.len() >= 1,
        ensures
            match r {
                Ok(name) => playlist_name_validation(
                    option_view(args.playlist_name),
                    string_views(sanitized_artist@),
                ) == Ok::<Seq<char>, Seq<char>>(name@),
                Err(e) => playlist_name_validation(
                    option_view(args.playlist_name),
                    string_views(sanitized_artist@),
                ) == Err::<Seq<char>, Seq<char>>(e@),
            },
            args.playlist_name is None ==> r is Ok,
            match r {
                Ok(name) => name@.len() <= MAX_PLAYLIST_NAME_LENGTH && (args.playlist_name is Some
                    ==> all_ascii(name@)),
                Err(_) => true,
            },
    {
        match &args.playlist_name {
            Some(playlist_name) => {
                let raw = chars_of(playlist_name.as_str());
                let normalized_name = Self::normalize_whitespace(&raw);
                let collapsed_name = Self::collapse_whitespace(&normalized_name);
                let stripped_name = Self::strip_non_unicode(&collapsed_name);
                let name = string_of(&stripped_name);
                proof {
                    lemma_ascii_only_is_ascii(collapse_white_space(trim(raw@)));
                    lemma_ascii_byte_len(name@);
                }
                match Self::validate_length(&name) {
                    Ok(()) => Ok(name),
                    Err(e) => Err(e),
                }
            },
            None => {
                let name = Self::generate_default_name(sanitized_artist);
                Ok(name)
            },
        }
    }

    /// Whether the name made up from the artists is cut to 100 characters: exactly when
    /// it takes more than 100 bytes.
    pub fn default_name_is_truncated(artists: &Vec<String>) -> (cut: bool)
        requires
            artists.len() >= 1,
        ensures
            cut == (byte_len(default_playlist_name(string_views(artists@)))
                > MAX_PLAYLIST_NAME_LENGTH),
    {
        let name = Self::default_name(artists);
        let chars = chars_of(name.as_str());
        exceeds_bytes(&chars, MAX_PLAYLIST_NAME_LENGTH)
    }

    /// The name made up from the artists.
    fn generate_default_name(artists: &Vec<String>) -> (name: String)
        requires
            artists.len() >= 1,
        ensures
            name@ == generated_playlist_name(string_views(artists@)),
            name@.len() <= MAX_PLAYLIST_NAME_LENGTH,
    {
        let playlist_name = Self::default_name(artists);
        Self::cut_to_length(playlist_name)
    }

    /// "A Setlist" for one artist, "A, B and C Setlist" for several.
    fn default_name(artists: &Vec<String>) -> (playlist_name: String)
        requires
            artists.len() >= 1,
        ensures
            playlist_name@ == default_playlist_name(string_views(artists@)),
    {
        let ghost views = string_views(artists@);
        let n = artists.len();
        let mut playlist_name = String::new();
        if n == 1 {
            push_text(&mut playlist_name, artists[0].as_str());
            push_text(&mut playlist_name, " Setlist");
            assert(playlist_name@ =~= default_playlist_name(views));
        } else {
            let mut i: usize = 0;
            assert(playlist_name@ =~= join(views.drop_last().take(0), ", "@));
            while i < n - 1
                invariant
                    n == artists.len(),
                    n >= 2,
                    i <= n - 1,
                    views == string_views(artists@),
                    playlist_name@ == join(views.drop_last().take(i as int), ", "@),
                decreases n - 1 - i,
            {
                let ghost before = playlist_name@;
                let ghost firsts = views.drop_last();
                assert(firsts.take(i + 1).drop_last() =~= firsts.take(i as int));
                assert(firsts.take(i + 1).last() == artists@[i as int]@);
                if i > 0 {
                    push_text(&mut playlist_name, ", ");
                }
                push_text(&mut playlist_name, artists[i].as_str());
                if i == 0 {
                    assert(firsts.take(1) =~= seq![firsts[0]]);
                    assert(playlist_name@ =~= join(firsts.take(1), ", "@));
                } else {
                    assert(playlist_name@ =~= join(firsts.take(i + 1), ", "@));
                }
                i += 1;
            }
            assert(views.drop_last().take((n - 1) as int) =~= views.drop_last());
            push_text(&mut playlist_name, " and ");
            push_text(&mut playlist_name, artists[n - 1].as_str());
            push_text(&mut playlist_name, " Setlist");
            assert(playlist_name@ =~= default_playlist_name(views));
        }
        playlist_name
    }

    /// The name as it is, or its first 100 characters when it takes more than 100 bytes.
    fn cut_to_length(playlist_name: String) -> (name: String)
        ensures
            name@ == (if byte_len(playlist_name@) > MAX_PLAYLIST_NAME_LENGTH {
                first_chars(playlist_name@, MAX_PLAYLIST_NAME_LENGTH as nat)
            } else {
                playlist_name@
            }),
            name@.len() <= MAX_PLAYLIST_NAME_LENGTH,
    {
        match Self::validate_length(&playlist_name) {
            Ok(()) => {
                proof {
                    lemma_chars_at_most_bytes(playlist_name@);
                }
                playlist_name
            },
            Err(_) => {
                let chars = chars_of(playlist_name.as_str());
                let mut kept: Vec<char> = Vec::new();
                let mut k: usize = 0;
                while k < chars.len() && k < MAX_PLAYLIST_NAME_LENGTH
                    invariant
                        k <= chars.len(),
                        k <= MAX_PLAYLIST_NAME_LENGTH,
                        kept@ == chars@.take(k as int),
                    decreases chars.len() - k,
                {
                    kept.push(chars[k]);
                    k += 1;
                    assert(kept@ =~= chars@.take(k as int));
                }
                proof {
                    if chars@.len() <= MAX_PLAYLIST_NAME_LENGTH {
                        assert(chars@.take(k as int) =~= chars@);
                    }
                }
                string_of(&kept)
            },
        }
    }

    /// The name without white space at its ends.
    fn normalize_whitespace(name: &Vec<char>) -> (out: Vec<char>)
        ensures
            out@ == trim(name@),
    {
        trim_chars(name)
    }

    /// White space collapsed to single spaces.
    fn collapse_whitespace(name: &Vec<char>) -> (out: Vec<char>)
        ensures
            out@ == collapse_white_space(name@),
    {
        collapse_white_space_chars(name)
    }

    /// The ASCII characters of the name.
    fn strip_non_unicode(name: &Vec<char>) -> (out: Vec<char>)
        ensures
            out@ == ascii_only(name@),
    {
        ascii_only_chars(name)
    }

    /// Whether the name fits in 100 bytes.
    fn validate_length(name: &String) -> (r: Result<(), String>)
        ensures
            match r {
                Ok(()) => byte_len(name@) <= MAX_PLAYLIST_NAME_LENGTH,
                Err(e) => byte_len(name@) > MAX_PLAYLIST_NAME_LENGTH && e@
                    == playlist_name_too_long_message(),
            },
    {
        let chars = chars_of(name.as_str());
        if exceeds_bytes(&chars, MAX_PLAYLIST_NAME_LENGTH) {
            let mut msg = String::from_str("Playlist name is too long (greater than ");
            push_decimal(&mut msg, MAX_PLAYLIST_NAME_LENGTH);
            push_text(&mut msg, " characters). Please provide a shorter playlist name.");
            return Err(msg);
        }
        Ok(())
    }
}

} // verus!
