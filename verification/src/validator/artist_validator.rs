//! Turns the comma-separated artist argument into a clean list of artist names.
use crate::models::Args;
use crate::text::{
    all_ascii, append_chars, ascii_only, ascii_only_chars, char_views, chars_equal, chars_of,
    collapse_white_space, collapse_white_space_chars, decimal, join, join_pieces,
    lemma_ascii_only_is_ascii, lemma_collapse_is_single_spaced, lemma_collapse_keeps_ascii,
    lemma_non_empty_members, lemma_non_empty_no_duplicates, non_empty, single_spaced,
    non_empty_pieces, push_decimal, push_text, split_by, split_chars, string_of, string_views,
    trim_each, trim_pieces, Separator,
};
use vstd::prelude::*;

verus! {

/// At most this many artists are accepted.
pub const MAX_ARTISTS: usize = 10;

/// An artist name may have at most this many characters.
pub const MAX_ARTIST_NAME_LENGTH: usize = 100;

/// A name with its white space collapsed and its non-ASCII characters dropped; the white
/// space is collapsed once more, so that a word made only of dropped characters leaves
/// no double space behind.
pub open spec fn cleaned_artist(s: Seq<char>) -> Seq<char> {
    collapse_white_space(ascii_only(collapse_white_space(s)))
}

/// Each name cleaned.
pub open spec fn clean_each(ss: Seq<Seq<char>>) -> Seq<Seq<char>>
    decreases ss.len(),
{
    if ss.len() == 0 {
        ss
    } else {
        clean_each(ss.drop_last()).push(cleaned_artist(ss.last()))
    }
}

/// The names with every repetition of an earlier name left out.
pub open spec fn dedup(ss: Seq<Seq<char>>) -> Seq<Seq<char>>
    decreases ss.len(),
{
    if ss.len() == 0 {
        ss
    } else {
        let prev = dedup(ss.drop_last());
        if prev.contains(ss.last()) {
            prev
        } else {
            prev.push(ss.last())
        }
    }
}

/// The names longer than the limit, in order.
pub open spec fn too_long_names(ss: Seq<Seq<char>>) -> Seq<Seq<char>>
    decreases ss.len(),
{
    if ss.len() == 0 {
        ss
    } else if ss.last().len() > MAX_ARTIST_NAME_LENGTH {
        too_long_names(ss.drop_last()).push(ss.last())
    } else {
        too_long_names(ss.drop_last())
    }
}

/// The pieces of the argument between commas, trimmed, without the empty ones.
pub open spec fn separated_artists(raw: Seq<char>) -> Seq<Seq<char>> {
    non_empty(trim_each(split_by(raw, Separator::Comma)))
}

/// The artist names that remain once each is cleaned, repetitions are dropped
/// and names that became empty are left out.
pub open spec fn sanitized_artists(raw: Seq<char>) -> Seq<Seq<char>> {
    non_empty(dedup(clean_each(separated_artists(raw))))
}

pub open spec fn no_artists_message() -> Seq<char> {
    "No artists provided. Please provide at least one artist."@
}

pub open spec fn no_valid_artists_message() -> Seq<char> {
    "No valid artists provided after processing. Please provide at least one valid artist."@
}

pub open spec fn too_many_artists_message(count: nat) -> Seq<char> {
    "Too many artists provided. Please provide "@ + decimal(MAX_ARTISTS as nat)
        + " or fewer artists. You provided "@ + decimal(count) + " artists."@
}

pub open spec fn too_long_names_message(names: Seq<Seq<char>>) -> Seq<char> {
    "The following artist names are too long (greater than "@ + decimal(
        MAX_ARTIST_NAME_LENGTH as nat,
    ) + " characters): "@ + join(names, ", "@)
}

/// The outcome of validating the artist argument `raw`: the sanitized names, or the
/// message of the first check that fails.
pub open spec fn artist_validation(raw: Seq<char>) -> Result<Seq<Seq<char>>, Seq<char>> {
    let separated = separated_artists(raw);
    let artists = sanitized_artists(raw);
    if separated.len() == 0 {
        Err(no_artists_message())
    } else if artists.len() == 0 {
        Err(no_valid_artists_message())
    } else if artists.len() > MAX_ARTISTS {
        Err(too_many_artists_message(artists.len()))
    } else if too_long_names(artists).len() > 0 {
        Err(too_long_names_message(too_long_names(artists)))
    } else {
        Ok(artists)
    }
}

pub proof fn lemma_dedup(ss: Seq<Seq<char>>)
    ensures
        dedup(ss).no_duplicates(),
        forall|i: int| 0 <= i < dedup(ss).len() ==> ss.contains(#[trigger] dedup(ss)[i]),
        forall|x: Seq<char>| ss.contains(x) ==> #[trigger] dedup(ss).contains(x),
    decreases ss.len(),
{
    if ss.len() > 0 {
        let p = ss.drop_last();
        lemma_dedup(p);
        let prev = dedup(p);
        assert forall|i: int| 0 <= i < dedup(ss).len() implies ss.contains(
            #[trigger] dedup(ss)[i],
        ) by {
            if i < prev.len() {
                let j = choose|j: int| 0 <= j < p.len() && p[j] == prev[i];
                assert(ss[j] == prev[i]);
            } else {
                assert(ss[ss.len() - 1] == dedup(ss)[i]);
            }
        }
        assert forall|x: Seq<char>| ss.contains(x) implies #[trigger] dedup(ss).contains(x) by {
            let j = choose|j: int| 0 <= j < ss.len() && ss[j] == x;
            if j < p.len() {
                assert(p[j] == x);
                assert(p.contains(x));
                assert(prev.contains(x));
                let k = choose|k: int| 0 <= k < prev.len() && prev[k] == x;
                assert(dedup(ss)[k] == x);
            } else if prev.contains(x) {
                let k = choose|k: int| 0 <= k < prev.len() && prev[k] == x;
                assert(dedup(ss)[k] == x);
            } else {
                assert(dedup(ss)[prev.len() as int] == x);
            }
        }
    }
}

pub proof fn lemma_clean_each_ascii(ss: Seq<Seq<char>>)
    ensures
        clean_each(ss).len() == ss.len(),
        forall|i: int| 0 <= i < clean_each(ss).len() ==> all_ascii(#[trigger] clean_each(ss)[i]),
        forall|i: int| 0 <= i < clean_each(ss).len() ==> single_spaced(#[trigger] clean_each(ss)[i]),
    decreases ss.len(),
{
    if ss.len() > 0 {
        lemma_clean_each_ascii(ss.drop_last());
        lemma_ascii_only_is_ascii(collapse_white_space(ss.last()));
        lemma_collapse_keeps_ascii(ascii_only(collapse_white_space(ss.last())));
        lemma_collapse_is_single_spaced(ascii_only(collapse_white_space(ss.last())));
    }
}

pub proof fn lemma_too_long_names(ss: Seq<Seq<char>>)
    ensures
        too_long_names(ss).len() == 0 <==> forall|i: int|
            0 <= i < ss.len() ==> (#[trigger] ss[i]).len() <= MAX_ARTIST_NAME_LENGTH,
    decreases ss.len(),
{
    if ss.len() > 0 {
        lemma_too_long_names(ss.drop_last());
        if too_long_names(ss).len() == 0 {
            assert forall|i: int| 0 <= i < ss.len() implies (#[trigger] ss[i]).len()
                <= MAX_ARTIST_NAME_LENGTH by {
                if i < ss.len() - 1 {
                    assert(ss.drop_last()[i] == ss[i]);
                }
            }
        } else {
            if too_long_names(ss.drop_last()).len() > 0 {
                let i = choose|i: int|
                    0 <= i < ss.drop_last().len() && (#[trigger] ss.drop_last()[i]).len()
                        > MAX_ARTIST_NAME_LENGTH;
                assert(ss[i] == ss.drop_last()[i]);
            }
        }
    }
}

/// Law: every accepted artist name is single-spaced: no white space at either end, no
/// two white-space characters in a row, and only plain spaces; and it is ASCII.
pub proof fn lemma_artist_names_single_spaced(raw: Seq<char>)
    ensures
        artist_validation(raw) matches Ok(v) ==> forall|i: int|
            0 <= i < v.len() ==> single_spaced(#[trigger] v[i]) && all_ascii(v[i]),
{
    ArtistValidator::lemma_sanitized(raw);
}

/// Validates the artist argument.
pub struct ArtistValidator;

impl ArtistValidator {
    /// The sanitized artist names, or why there are none.
    ///
    /// The argument is split at commas and each piece trimmed; pieces left empty are
    /// dropped. If none remain, no artists were provided. Each name then has its white
    /// space collapsed and its non-ASCII characters dropped; repeated names keep their
    /// first occurrence and names left empty are dropped. If none remain, no valid artists
    /// were provided. Then there may be at most ten artists, each of at most 100 characters.
    pub fn validate(args: &Args) -> (r: Result<Vec<String>, String>)
        ensures
            match r {
                Ok(v) => artist_validation(args.artists@) == Ok::<Seq<Seq<char>>, Seq<char>>(
                    string_views(v@),
                ),
                Err(e) => artist_validation(args.artists@) == Err::<Seq<Seq<char>>, Seq<char>>(
                    e@,
                ),
            },
            match r {
                Ok(v) => {
                    &&& 1 <= v@.len() <= MAX_ARTISTS
                    &&& string_views(v@).no_duplicates()
                    &&& forall|i: int|
                        0 <= i < v@.len() ==> {
                            &&& 0 < (#[trigger] v@[i])@.len() <= MAX_ARTIST_NAME_LENGTH
                            &&& all_ascii(v@[i]@)
                            &&& single_spaced(v@[i]@)
                        }
                },
                Err(_) => true,
            },
    {
        let raw = chars_of(args.artists.as_str());
        let separated = Self::separate_artists(&raw);
        if separated.len() == 0 {
            return Err(String::from_str("No artists provided. Please provide at least one artist."));
        }
        let normalized = Self::normalize_names(&separated);
        let unique = Self::remove_duplicates(normalized);
        let artists = Self::filter_empty_artists(unique);
        proof {
            Self::lemma_sanitized(raw@);
        }
        if artists.len() == 0 {
            return Err(
                String::from_str(
                    "No valid artists provided after processing. Please provide at least one valid artist.",
                ),
            );
        }
        let artists = match Self::validate_amount_of_artists(artists) {
            Ok(a) => a,
            Err(e) => {
                return Err(e);
            },
        };
        let artists = match Self::validate_artist_names(artists) {
            Ok(a) => a,
            Err(e) => {
                return Err(e);
            },
        };
        let mut names: Vec<String> = Vec::new();
        let mut i: usize = 0;
        while i < artists.len()
            invariant
                i <= artists.len(),
                string_views(names@) =~= char_views(artists@).take(i as int),
            decreases artists.len() - i,
        {
            let ghost before = string_views(names@);
            let name = string_of(&artists[i]);
            names.push(name);
            assert(string_views(names@) =~= before.push(artists@[i as int]@));
            assert(char_views(artists@).take(i + 1) =~= char_views(artists@).take(i as int).push(
                artists@[i as int]@,
            ));
            i += 1;
        }
        assert(string_views(names@) =~= char_views(artists@));
        proof {
            lemma_too_long_names(char_views(artists@));
            assert forall|i: int| 0 <= i < names@.len() implies {
                &&& 0 < (#[trigger] names@[i])@.len() <= MAX_ARTIST_NAME_LENGTH
                &&& all_ascii(names@[i]@)
                &&& single_spaced(names@[i]@)
            } by {
                assert(string_views(names@)[i] == names@[i]@);
                assert(char_views(artists@)[i] == names@[i]@);
            }
        }
        Ok(names)
    }

    proof fn lemma_sanitized(raw: Seq<char>)
        ensures
            sanitized_artists(raw).no_duplicates(),
            forall|i: int|
                0 <= i < sanitized_artists(raw).len() ==> {
                    &&& (#[trigger] sanitized_artists(raw)[i]).len() > 0
                    &&& all_ascii(sanitized_artists(raw)[i])
                    &&& single_spaced(sanitized_artists(raw)[i])
                },
    {
        let cleaned = clean_each(separated_artists(raw));
        lemma_clean_each_ascii(separated_artists(raw));
        lemma_dedup(cleaned);
        lemma_non_empty_no_duplicates(dedup(cleaned));
        lemma_non_empty_members(dedup(cleaned));
        assert forall|i: int| 0 <= i < sanitized_artists(raw).len() implies all_ascii(
            #[trigger] sanitized_artists(raw)[i],
        ) && single_spaced(sanitized_artists(raw)[i]) by {
            let x = sanitized_artists(raw)[i];
            assert(dedup(cleaned).contains(x));
            let j = choose|j: int| 0 <= j < dedup(cleaned).len() && dedup(cleaned)[j] == x;
            assert(cleaned.contains(dedup(cleaned)[j]));
            let k = choose|k: int| 0 <= k < cleaned.len() && cleaned[k] == x;
            assert(all_ascii(cleaned[k]));
            assert(single_spaced(cleaned[k]));
        }
    }

    /// The pieces between commas, trimmed, without the empty ones.
    fn separate_artists(raw: &Vec<char>) -> (out: Vec<Vec<char>>)
        ensures
            char_views(out@) == separated_artists(raw@),
    {
        let pieces = split_chars(raw, Separator::Comma);
        let trimmed = trim_pieces(&pieces);
        non_empty_pieces(trimmed)
    }

    /// White space collapsed to single spaces.
    fn normalize_whitespace(name: &Vec<char>) -> (out: Vec<char>)
        ensures
            out@ == collapse_white_space(name@),
    {
        collapse_white_space_chars(name)
    }

    /// Each name normalized and stripped of non-ASCII characters.
    fn normalize_names(names: &Vec<Vec<char>>) -> (out: Vec<Vec<char>>)
        ensures
            char_views(out@) == clean_each(char_views(names@)),
    {
        let mut out: Vec<Vec<char>> = Vec::new();
        let mut i: usize = 0;
        let n = names.len();
        let ghost all = char_views(names@);
        assert(char_views(out@) =~= clean_each(all.take(0)));
        while i < n
            invariant
                n == names.len(),
                i <= n,
                all == char_views(names@),
                char_views(out@) == clean_each(all.take(i as int)),
            decreases n - i,
        {
            assert(all.take(i + 1).drop_last() =~= all.take(i as int));
            assert(all.take(i + 1).last() == names@[i as int]@);
            let ghost before = char_views(out@);
            let collapsed = Self::normalize_whitespace(&names[i]);
            let stripped = ascii_only_chars(&collapsed);
            let cleaned = Self::normalize_whitespace(&stripped);
            out.push(cleaned);
            assert(char_views(out@) =~= before.push(cleaned_artist(all[i as int])));
            i += 1;
        }
        assert(all.take(n as int) =~= all);
        out
    }

    /// Whether `name` is among `names`.
    fn contains_name(names: &Vec<Vec<char>>, name: &Vec<char>) -> (b: bool)
        ensures
            b == char_views(names@).contains(name@),
    {
        let mut i: usize = 0;
        while i < names.len()
            invariant
                i <= names.len(),
                forall|j: int| 0 <= j < i ==> names@[j]@ != name@,
            decreases names.len() - i,
        {
            if chars_equal(&names[i], name) {
                assert(char_views(names@)[i as int] == name@);
                return true;
            }
            i += 1;
        }
        proof {
            if char_views(names@).contains(name@) {
                let j = choose|j: int|
                    0 <= j < char_views(names@).len() && char_views(names@)[j] == name@;
                assert(names@[j]@ == name@);
            }
        }
        false
    }

    /// The names with later repetitions left out.
    fn remove_duplicates(names: Vec<Vec<char>>) -> (out: Vec<Vec<char>>)
        ensures
            char_views(out@) == dedup(char_views(names@)),
    {
        let mut out: Vec<Vec<char>> = Vec::new();
        let mut i: usize = 0;
        let n = names.len();
        let ghost all = char_views(names@);
        assert(char_views(out@) =~= dedup(all.take(0)));
        while i < n
            invariant
                n == names.len(),
                i <= n,
                all == char_views(names@),
                char_views(out@) == dedup(all.take(i as int)),
            decreases n - i,
        {
            assert(all.take(i + 1).drop_last() =~= all.take(i as int));
            assert(all.take(i + 1).last() == names@[i as int]@);
            let ghost before = char_views(out@);
            if !Self::contains_name(&out, &names[i]) {
                let name = names[i].clone();
                out.push(name);
                assert(char_views(out@) =~= before.push(all[i as int]));
            }
            i += 1;
        }
        assert(all.take(n as int) =~= all);
        out
    }

    /// The names that are not empty.
    fn filter_empty_artists(names: Vec<Vec<char>>) -> (out: Vec<Vec<char>>)
        ensures
            char_views(out@) == non_empty(char_views(names@)),
    {
        non_empty_pieces(names)
    }

    /// The names, or an error when there are more than ten.
    fn validate_amount_of_artists(names: Vec<Vec<char>>) -> (r: Result<Vec<Vec<char>>, String>)
        ensures
            match r {
                Ok(v) => names.len() <= MAX_ARTISTS && v@ == names@,
                Err(e) => names.len() > MAX_ARTISTS && e@ == too_many_artists_message(
                    names.len() as nat,
                ),
            },
    {
        if names.len() > MAX_ARTISTS {
            let mut msg = String::from_str("Too many artists provided. Please provide ");
            push_decimal(&mut msg, MAX_ARTISTS);
            push_text(&mut msg, " or fewer artists. You provided ");
            push_decimal(&mut msg, names.len());
            push_text(&mut msg, " artists.");
            return Err(msg);
        }
        Ok(names)
    }

    /// The names, or an error listing those longer than 100 characters.
    fn validate_artist_names(names: Vec<Vec<char>>) -> (r: Result<Vec<Vec<char>>, String>)
        ensures
            match r {
                Ok(v) => too_long_names(char_views(names@)).len() == 0 && v@ == names@,
                Err(e) => too_long_names(char_views(names@)).len() > 0 && e@
                    == too_long_names_message(too_long_names(char_views(names@))),
            },
    {
        let mut long_names: Vec<Vec<char>> = Vec::new();
        let mut i: usize = 0;
        let n = names.len();
        let ghost all = char_views(names@);
        assert(char_views(long_names@) =~= too_long_names(all.take(0)));
        while i < n
            invariant
                n == names.len(),
                i <= n,
                all == char_views(names@),
                char_views(long_names@) == too_long_names(all.take(i as int)),
            decreases n - i,
        {
            assert(all.take(i + 1).drop_last() =~= all.take(i as int));
            assert(all.take(i + 1).last() == names@[i as int]@);
            let ghost before = char_views(long_names@);
            if names[i].len() > MAX_ARTIST_NAME_LENGTH {
                let name = names[i].clone();
                long_names.push(name);
                assert(char_views(long_names@) =~= before.push(all[i as int]));
            }
            i += 1;
        }
        assert(all.take(n as int) =~= all);
        if long_names.len() > 0 {
            let mut msg = String::from_str("The following artist names are too long (greater than ");
            push_decimal(&mut msg, MAX_ARTIST_NAME_LENGTH);
            push_text(&mut msg, " characters): ");
            let sep = chars_of(", ");
            let joined = join_pieces(&long_names, &sep);
            append_chars(&mut msg, &joined);
            return Err(msg);
        }
        Ok(names)
    }
}

} // verus!
