//! Character-level text handling: whitespace, trimming, splitting, joining,
//! ASCII filtering and decimal rendering, each with its mathematical meaning.
use vstd::prelude::*;

verus! {

/// The Unicode `White_Space` property, which `char::is_whitespace` tests.
pub open spec fn is_white_space(c: char) -> bool {
    let u = c as u32;
    ||| 0x9 <= u <= 0xD
    ||| u == 0x20 || u == 0x85 || u == 0xA0 || u == 0x1680
    ||| 0x2000 <= u <= 0x200A
    ||| u == 0x2028 || u == 0x2029 || u == 0x202F || u == 0x205F || u == 0x3000
}

pub open spec fn is_ascii_char(c: char) -> bool {
    (c as u32) < 0x80
}

/// What separates the pieces of a text.
#[derive(Clone, Copy, PartialEq, Eq, Structural, Debug)]
pub enum Separator {
    Comma,
    WhiteSpace,
}

pub open spec fn is_separator(kind: Separator, c: char) -> bool {
    match kind {
        Separator::Comma => c == ',',
        Separator::WhiteSpace => is_white_space(c),
    }
}

/// Drops the leading white space.
pub open spec fn trim_start(s: Seq<char>) -> Seq<char>
    decreases s.len(),
{
    if s.len() > 0 && is_white_space(s[0]) {
        trim_start(s.drop_first())
    } else {
        s
    }
}

/// Drops the trailing white space.
pub open spec fn trim_end(s: Seq<char>) -> Seq<char>
    decreases s.len(),
{
    if s.len() > 0 && is_white_space(s.last()) {
        trim_end(s.drop_last())
    } else {
        s
    }
}

/// Drops the white space at both ends (what `str::trim` does).
pub open spec fn trim(s: Seq<char>) -> Seq<char> {
    trim_end(trim_start(s))
}

/// The pieces between separators, empty pieces included (what `str::split` yields):
/// there is always one piece more than there are separators.
pub open spec fn split_by(s: Seq<char>, kind: Separator) -> Seq<Seq<char>>
    decreases s.len(),
{
    if s.len() == 0 {
        seq![Seq::<char>::empty()]
    } else {
        let prev = split_by(s.drop_last(), kind);
        if is_separator(kind, s.last()) {
            prev.push(Seq::<char>::empty())
        } else {
            prev.update(prev.len() - 1, prev.last().push(s.last()))
        }
    }
}

/// The pieces that are not empty, in order.
pub open spec fn non_empty(ss: Seq<Seq<char>>) -> Seq<Seq<char>>
    decreases ss.len(),
{
    if ss.len() == 0 {
        ss
    } else {
        let prev = non_empty(ss.drop_last());
        if ss.last().len() > 0 {
            prev.push(ss.last())
        } else {
            prev
        }
    }
}

/// Each piece trimmed.
pub open spec fn trim_each(ss: Seq<Seq<char>>) -> Seq<Seq<char>>
    decreases ss.len(),
{
    if ss.len() == 0 {
        ss
    } else {
        trim_each(ss.drop_last()).push(trim(ss.last()))
    }
}

/// The pieces joined, with `sep` between each two of them.
pub open spec fn join(ss: Seq<Seq<char>>, sep: Seq<char>) -> Seq<char>
    decreases ss.len(),
{
    if ss.len() == 0 {
        Seq::empty()
    } else if ss.len() == 1 {
        ss[0]
    } else {
        join(ss.drop_last(), sep) + sep + ss.last()
    }
}

/// The words of a text: the maximal runs of characters that are not white space
/// (what `str::split_whitespace` yields).
pub open spec fn words(s: Seq<char>) -> Seq<Seq<char>> {
    non_empty(split_by(s, Separator::WhiteSpace))
}

/// The words joined by single spaces.
pub open spec fn collapse_white_space(s: Seq<char>) -> Seq<char> {
    join(words(s), seq![' '])
}

/// The ASCII characters of a text, in order.
pub open spec fn ascii_only(s: Seq<char>) -> Seq<char>
    decreases s.len(),
{
    if s.len() == 0 {
        s
    } else if is_ascii_char(s.last()) {
        ascii_only(s.drop_last()).push(s.last())
    } else {
        ascii_only(s.drop_last())
    }
}

pub open spec fn all_ascii(s: Seq<char>) -> bool {
    forall|i: int| 0 <= i < s.len() ==> is_ascii_char(#[trigger] s[i])
}

/// The character of a decimal digit.
pub open spec fn digit_char(d: nat) -> char {
    if d == 0 { '0' }
    else if d == 1 { '1' }
    else if d == 2 { '2' }
    else if d == 3 { '3' }
    else if d == 4 { '4' }
    else if d == 5 { '5' }
    else if d == 6 { '6' }
    else if d == 7 { '7' }
    else if d == 8 { '8' }
    else { '9' }
}

/// The decimal notation of a number, without leading zeros.
pub open spec fn decimal(n: nat) -> Seq<char>
    decreases n,
{
    if n < 10 {
        seq![digit_char(n)]
    } else {
        decimal(n / 10).push(digit_char(n % 10))
    }
}

/// The first `n` characters (all of them where there are fewer).
pub open spec fn first_chars(s: Seq<char>, n: nat) -> Seq<char> {
    if s.len() <= n { s } else { s.take(n as int) }
}

/// The views of a sequence of character vectors.
pub open spec fn char_views(v: Seq<Vec<char>>) -> Seq<Seq<char>> {
    Seq::new(v.len(), |i: int| v[i]@)
}

/// The views of a sequence of strings.
pub open spec fn string_views(v: Seq<String>) -> Seq<Seq<char>> {
    Seq::new(v.len(), |i: int| v[i]@)
}

// ----------------------------------------------------------------------------
// Lemmas
// ----------------------------------------------------------------------------

/// The total length of the first `i` pieces.
pub open spec fn lens_before(ss: Seq<Seq<char>>, i: int) -> int
    decreases i,
{
    if i <= 0 {
        0
    } else {
        lens_before(ss, i - 1) + ss[i - 1].len()
    }
}

pub proof fn lemma_lens_before_prefix(ss: Seq<Seq<char>>, n: int, i: int)
    requires
        0 <= i <= n <= ss.len(),
    ensures
        lens_before(ss.take(n), i) == lens_before(ss, i),
    decreases i,
{
    if i > 0 {
        lemma_lens_before_prefix(ss, n, i - 1);
    }
}

pub proof fn lemma_lens_before_grows(ss: Seq<Seq<char>>, i: int, j: int)
    requires
        0 <= i <= j <= ss.len(),
    ensures
        lens_before(ss, i) <= lens_before(ss, j),
    decreases j,
{
    if i < j {
        lemma_lens_before_grows(ss, i, j - 1);
    }
}

pub proof fn lemma_subrange_of_left(a: Seq<char>, b: Seq<char>, x: int, y: int)
    requires
        0 <= x <= y <= a.len(),
    ensures
        (a + b).subrange(x, y) == a.subrange(x, y),
{
    assert((a + b).subrange(x, y) =~= a.subrange(x, y));
}

pub proof fn lemma_comma_join_len(ss: Seq<Seq<char>>)
    requires
        ss.len() >= 1,
    ensures
        join(ss, ", "@).len() == lens_before(ss, ss.len() as int) + 2 * (ss.len() - 1),
    decreases ss.len(),
{
    reveal_strlit(", ");
    if ss.len() > 1 {
        let n = ss.len() as int;
        let init = ss.drop_last();
        lemma_comma_join_len(init);
        assert(init =~= ss.take(n - 1));
        lemma_lens_before_prefix(ss, n - 1, n - 1);
        assert(join(ss, ", "@) == join(init, ", "@) + ", "@ + ss.last());
        assert(lens_before(ss, n) == lens_before(ss, n - 1) + ss[n - 1].len());
        assert(join(init, ", "@).len() == lens_before(ss, n - 1) + 2 * (n - 2));
        assert(", "@.len() == 2);
        assert(join(ss, ", "@).len() == join(init, ", "@).len() + 2 + ss[n - 1].len());
    } else {
        assert(lens_before(ss, 0) == 0);
    }
}

pub proof fn lemma_comma_join_piece(ss: Seq<Seq<char>>, i: int)
    requires
        0 <= i < ss.len(),
    ensures
        join(ss, ", "@).subrange(lens_before(ss, i) + 2 * i, lens_before(ss, i) + 2 * i + ss[i].len())
            == ss[i],
    decreases ss.len(),
{
    reveal_strlit(", ");
    let n = ss.len() as int;
    if n == 1 {
        assert(lens_before(ss, 0) == 0);
        assert(ss[0].subrange(0, ss[0].len() as int) =~= ss[0]);
    } else {
        let init = ss.drop_last();
        assert(init =~= ss.take(n - 1));
        lemma_comma_join_len(init);
        lemma_lens_before_prefix(ss, n - 1, n - 1);
        let a = join(init, ", "@);
        if i < n - 1 {
            lemma_comma_join_piece(init, i);
            lemma_lens_before_prefix(ss, n - 1, i);
            lemma_lens_before_grows(ss, i + 1, n - 1);
            lemma_lens_before_grows(ss, 0, i);
            assert(lens_before(ss, 0) == 0);
            assert(lens_before(ss, i + 1) == lens_before(ss, i) + ss[i].len());
            lemma_subrange_of_left(a, ", "@ + ss.last(), lens_before(ss, i) + 2 * i, lens_before(ss, i) + 2 * i + ss[i].len());
            assert(a + ", "@ + ss.last() =~= a + (", "@ + ss.last()));
        } else {
            assert(join(ss, ", "@) == a + ", "@ + ss.last());
            assert((a + ", "@ + ss.last()).subrange(a.len() + 2int, a.len() + 2int + ss.last().len())
                =~= ss.last());
        }
    }
}

pub proof fn lemma_comma_join_sep(ss: Seq<Seq<char>>, i: int)
    requires
        0 <= i < ss.len() - 1,
    ensures
        join(ss, ", "@).subrange(lens_before(ss, i + 1) + 2 * i, lens_before(ss, i + 1) + 2 * i + 2)
            == ", "@,
    decreases ss.len(),
{
    reveal_strlit(", ");
    let n = ss.len() as int;
    let init = ss.drop_last();
    assert(init =~= ss.take(n - 1));
    lemma_comma_join_len(init);
    lemma_lens_before_prefix(ss, n - 1, n - 1);
    let a = join(init, ", "@);
    if i < n - 2 {
        lemma_comma_join_sep(init, i);
        lemma_lens_before_prefix(ss, n - 1, i + 1);
        lemma_lens_before_grows(ss, i + 2, n - 1);
        lemma_lens_before_grows(ss, 0, i + 1);
        assert(lens_before(ss, 0) == 0);
        assert(lens_before(ss, i + 2) == lens_before(ss, i + 1) + ss[i + 1].len());
        lemma_subrange_of_left(a, ", "@ + ss.last(), lens_before(ss, i + 1) + 2 * i, lens_before(ss, i + 1) + 2 * i + 2);
        assert(a + ", "@ + ss.last() =~= a + (", "@ + ss.last()));
    } else {
        assert(join(ss, ", "@) == a + ", "@ + ss.last());
        assert((a + ", "@ + ss.last()).subrange(a.len() as int, a.len() + 2int) =~= ", "@);
    }
}

/// The text has no white space at either end, no two white-space characters in a row,
/// and no white space other than plain spaces.
pub open spec fn single_spaced(s: Seq<char>) -> bool {
    &&& s.len() > 0 ==> !is_white_space(s[0]) && !is_white_space(s[s.len() - 1])
    &&& forall|k: int|
        0 <= k < s.len() - 1 ==> !(is_white_space(#[trigger] s[k]) && is_white_space(s[k + 1]))
    &&& forall|k: int| 0 <= k < s.len() && is_white_space(#[trigger] s[k]) ==> s[k] == ' '
}

/// There is always at least one piece.
proof fn lemma_split_has_a_piece(s: Seq<char>, kind: Separator)
    ensures
        split_by(s, kind).len() >= 1,
    decreases s.len(),
{
    if s.len() > 0 {
        lemma_split_has_a_piece(s.drop_last(), kind);
    }
}

/// No piece holds a separator, and every character of a piece is one of the text.
proof fn lemma_split_pieces(s: Seq<char>, kind: Separator)
    ensures
        forall|i: int, k: int|
            0 <= i < split_by(s, kind).len() && 0 <= k < split_by(s, kind)[i].len() ==> {
                &&& !is_separator(kind, #[trigger] split_by(s, kind)[i][k])
                &&& s.contains(split_by(s, kind)[i][k])
            },
    decreases s.len(),
{
    if s.len() > 0 {
        let init = s.drop_last();
        lemma_split_pieces(init, kind);
        lemma_split_has_a_piece(init, kind);
        let prev = split_by(init, kind);
        assert forall|i: int, k: int|
            0 <= i < split_by(s, kind).len() && 0 <= k < split_by(s, kind)[i].len() implies {
                &&& !is_separator(kind, #[trigger] split_by(s, kind)[i][k])
                &&& s.contains(split_by(s, kind)[i][k])
            } by {
            let c = split_by(s, kind)[i][k];
            if is_separator(kind, s.last()) {
                if i < prev.len() {
                    assert(split_by(s, kind)[i] == prev[i]);
                }
            } else {
                assert(split_by(s, kind) == prev.update(prev.len() - 1, prev.last().push(s.last())));
                if i < prev.len() - 1 {
                    assert(split_by(s, kind)[i] == prev[i]);
                } else if k < prev.last().len() {
                    assert(split_by(s, kind)[i][k] == prev[prev.len() - 1][k]);
                } else {
                    assert(c == s.last());
                }
            }
            if c != s.last() {
                let j = choose|j: int| 0 <= j < init.len() && init[j] == c;
                assert(s[j] == c);
            } else {
                assert(s[s.len() - 1] == c);
            }
        }
    }
}

/// The words of a text are not empty, hold no white space, and are made of the
/// text's characters.
pub proof fn lemma_words_are_clean(s: Seq<char>)
    ensures
        forall|i: int| 0 <= i < words(s).len() ==> (#[trigger] words(s)[i]).len() > 0,
        forall|i: int, k: int|
            0 <= i < words(s).len() && 0 <= k < words(s)[i].len() ==> {
                &&& !is_white_space(#[trigger] words(s)[i][k])
                &&& s.contains(words(s)[i][k])
            },
{
    let pieces = split_by(s, Separator::WhiteSpace);
    lemma_split_pieces(s, Separator::WhiteSpace);
    lemma_non_empty_members(pieces);
    assert forall|i: int, k: int|
        0 <= i < words(s).len() && 0 <= k < words(s)[i].len() implies {
            &&& !is_white_space(#[trigger] words(s)[i][k])
            &&& s.contains(words(s)[i][k])
        } by {
        let w = words(s)[i];
        assert(pieces.contains(w));
        let j = choose|j: int| 0 <= j < pieces.len() && pieces[j] == w;
        assert(pieces[j][k] == w[k]);
    }
}

/// Pieces that are not empty and hold no white space, joined by single spaces, make a
/// single-spaced text.
proof fn lemma_join_single_spaced(ss: Seq<Seq<char>>)
    requires
        forall|i: int| 0 <= i < ss.len() ==> (#[trigger] ss[i]).len() > 0,
        forall|i: int, k: int|
            0 <= i < ss.len() && 0 <= k < ss[i].len() ==> !is_white_space(#[trigger] ss[i][k]),
    ensures
        single_spaced(join(ss, seq![' '])),
    decreases ss.len(),
{
    let j = join(ss, seq![' ']);
    if ss.len() == 1 {
        assert(j == ss[0]);
        assert(!is_white_space(ss[0][0]));
        assert(!is_white_space(ss[0][ss[0].len() - 1]));
    } else if ss.len() > 1 {
        let init = ss.drop_last();
        let last = ss.last();
        assert forall|i: int| 0 <= i < init.len() implies (#[trigger] init[i]).len() > 0 by {
            assert(init[i] == ss[i]);
        }
        assert forall|i: int, k: int|
            0 <= i < init.len() && 0 <= k < init[i].len() implies !is_white_space(
                #[trigger] init[i][k],
            ) by {
            assert(init[i] == ss[i]);
        }
        lemma_join_single_spaced(init);
        let a = join(init, seq![' ']);
        assert(j == a + seq![' '] + last);
        assert(a.len() > 0) by {
            if a.len() == 0 {
                lemma_join_len_positive(init);
            }
        }
        assert(last == ss[ss.len() - 1]);
        assert forall|k: int| 0 <= k < last.len() implies !is_white_space(#[trigger] last[k]) by {
            assert(last[k] == ss[ss.len() - 1][k]);
        }
        assert(!is_white_space(j[0])) by {
            assert(j[0] == a[0]);
        }
        assert(!is_white_space(j[j.len() - 1])) by {
            assert(j[j.len() - 1] == last[last.len() - 1]);
        }
        assert forall|k: int| 0 <= k < j.len() - 1 implies !(is_white_space(#[trigger] j[k])
            && is_white_space(j[k + 1])) by {
            if k < a.len() - 1 {
                assert(j[k] == a[k] && j[k + 1] == a[k + 1]);
            } else if k == a.len() - 1 {
                assert(j[k] == a[a.len() - 1]);
            } else if k == a.len() {
                assert(j[k + 1] == last[0]);
            } else {
                assert(j[k] == last[k - a.len() - 1]);
            }
        }
        assert forall|k: int| 0 <= k < j.len() && is_white_space(#[trigger] j[k]) implies j[k]
            == ' ' by {
            if k < a.len() {
                assert(j[k] == a[k]);
            } else if k > a.len() {
                assert(j[k] == last[k - a.len() - 1]);
            }
        }
    }
}

proof fn lemma_join_len_positive(ss: Seq<Seq<char>>)
    requires
        ss.len() > 0,
        forall|i: int| 0 <= i < ss.len() ==> (#[trigger] ss[i]).len() > 0,
    ensures
        join(ss, seq![' ']).len() > 0,
    decreases ss.len(),
{
    if ss.len() > 1 {
        assert(ss[ss.len() - 1].len() > 0);
    } else {
        assert(ss[0].len() > 0);
    }
}

/// Law: collapsing the white space of any text leaves it single-spaced.
pub proof fn lemma_collapse_is_single_spaced(s: Seq<char>)
    ensures
        single_spaced(collapse_white_space(s)),
{
    lemma_words_are_clean(s);
    lemma_join_single_spaced(words(s));
}

/// Collapsing the white space of an ASCII text keeps it ASCII.
pub proof fn lemma_collapse_keeps_ascii(s: Seq<char>)
    requires
        all_ascii(s),
    ensures
        all_ascii(collapse_white_space(s)),
{
    lemma_words_are_clean(s);
    let ws = words(s);
    assert forall|i: int, k: int| 0 <= i < ws.len() && 0 <= k < ws[i].len() implies is_ascii_char(
        #[trigger] ws[i][k],
    ) by {
        let j = choose|j: int| 0 <= j < s.len() && s[j] == ws[i][k];
        assert(is_ascii_char(s[j]));
    }
    lemma_join_ascii(ws);
}

proof fn lemma_join_ascii(ss: Seq<Seq<char>>)
    requires
        forall|i: int, k: int| 0 <= i < ss.len() && 0 <= k < ss[i].len() ==> is_ascii_char(
            #[trigger] ss[i][k],
        ),
    ensures
        all_ascii(join(ss, seq![' '])),
    decreases ss.len(),
{
    if ss.len() == 1 {
        assert forall|k: int| 0 <= k < ss[0].len() implies is_ascii_char(#[trigger] ss[0][k]) by {}
    } else if ss.len() > 1 {
        let init = ss.drop_last();
        assert forall|i: int, k: int| 0 <= i < init.len() && 0 <= k < init[i].len() implies is_ascii_char(
            #[trigger] init[i][k],
        ) by {
            assert(init[i] == ss[i]);
        }
        lemma_join_ascii(init);
        let a = join(init, seq![' ']);
        let last = ss[ss.len() - 1];
        let j = join(ss, seq![' ']);
        assert(j == a + seq![' '] + ss.last());
        assert forall|k: int| 0 <= k < j.len() implies is_ascii_char(#[trigger] j[k]) by {
            if k < a.len() {
                assert(j[k] == a[k]);
            } else if k > a.len() {
                assert(j[k] == last[k - a.len() - 1]);
            }
        }
    }
}

/// Dropping the non-ASCII characters of an ASCII text leaves it as it is.
pub proof fn lemma_ascii_only_of_ascii(s: Seq<char>)
    requires
        all_ascii(s),
    ensures
        ascii_only(s) == s,
    decreases s.len(),
{
    if s.len() > 0 {
        assert(all_ascii(s.drop_last()));
        lemma_ascii_only_of_ascii(s.drop_last());
        assert(is_ascii_char(s[s.len() - 1]));
        assert(s.drop_last().push(s.last()) =~= s);
    }
}

/// Trimming an ASCII text keeps it ASCII.
pub proof fn lemma_trim_keeps_ascii(s: Seq<char>)
    requires
        all_ascii(s),
    ensures
        all_ascii(trim(s)),
{
    lemma_trim_start_keeps_ascii(s);
    lemma_trim_end_keeps_ascii(trim_start(s));
}

proof fn lemma_trim_start_keeps_ascii(s: Seq<char>)
    requires
        all_ascii(s),
    ensures
        all_ascii(trim_start(s)),
    decreases s.len(),
{
    if s.len() > 0 && is_white_space(s[0]) {
        assert forall|i: int| 0 <= i < s.drop_first().len() implies is_ascii_char(
            #[trigger] s.drop_first()[i],
        ) by {
            assert(s.drop_first()[i] == s[i + 1]);
        }
        lemma_trim_start_keeps_ascii(s.drop_first());
    }
}

proof fn lemma_trim_end_keeps_ascii(s: Seq<char>)
    requires
        all_ascii(s),
    ensures
        all_ascii(trim_end(s)),
    decreases s.len(),
{
    if s.len() > 0 && is_white_space(s.last()) {
        assert(all_ascii(s.drop_last()));
        lemma_trim_end_keeps_ascii(s.drop_last());
    }
}

pub proof fn lemma_non_empty_members(ss: Seq<Seq<char>>)
    ensures
        forall|i: int| 0 <= i < non_empty(ss).len() ==> (#[trigger] non_empty(ss)[i]).len() > 0,
        forall|i: int| 0 <= i < non_empty(ss).len() ==> ss.contains(#[trigger] non_empty(ss)[i]),
        non_empty(ss).len() <= ss.len(),
    decreases ss.len(),
{
    if ss.len() > 0 {
        lemma_non_empty_members(ss.drop_last());
        let prev = non_empty(ss.drop_last());
        assert forall|i: int| 0 <= i < non_empty(ss).len() implies ss.contains(
            #[trigger] non_empty(ss)[i],
        ) by {
            if i < prev.len() {
                let j = choose|j: int| 0 <= j < ss.drop_last().len() && ss.drop_last()[j] == prev[i];
                assert(ss[j] == prev[i]);
            } else {
                assert(ss[ss.len() - 1] == non_empty(ss)[i]);
            }
        }
    }
}

/// A sequence without repeated members keeps that property when pieces are dropped.
pub proof fn lemma_non_empty_no_duplicates(ss: Seq<Seq<char>>)
    requires
        ss.no_duplicates(),
    ensures
        non_empty(ss).no_duplicates(),
    decreases ss.len(),
{
    if ss.len() > 0 {
        assert(ss.drop_last().no_duplicates());
        lemma_non_empty_no_duplicates(ss.drop_last());
        lemma_non_empty_members(ss.drop_last());
        let prev = non_empty(ss.drop_last());
        if ss.last().len() > 0 {
            assert forall|i: int, j: int|
                0 <= i < j < non_empty(ss).len() implies non_empty(ss)[i] != non_empty(ss)[j] by {
                if j == prev.len() {
                    if prev[i] == ss.last() {
                        let k = choose|k: int| 0 <= k < ss.drop_last().len() && ss.drop_last()[k] == prev[i];
                        assert(ss[k] == ss[ss.len() - 1]);
                    }
                }
            }
        }
    }
}

pub proof fn lemma_ascii_only_is_ascii(s: Seq<char>)
    ensures
        all_ascii(ascii_only(s)),
        ascii_only(s).len() <= s.len(),
    decreases s.len(),
{
    if s.len() > 0 {
        lemma_ascii_only_is_ascii(s.drop_last());
    }
}

// ----------------------------------------------------------------------------
// Executable functions
// ----------------------------------------------------------------------------

pub fn char_is_white_space(c: char) -> (b: bool)
    ensures
        b == is_white_space(c),
{
    let u = c as u32;
    (0x9 <= u && u <= 0xD) || u == 0x20 || u == 0x85 || u == 0xA0 || u == 0x1680 || (0x2000
        <= u && u <= 0x200A) || u == 0x2028 || u == 0x2029 || u == 0x202F || u == 0x205F || u
        == 0x3000
}

pub fn char_is_separator(kind: Separator, c: char) -> (b: bool)
    ensures
        b == is_separator(kind, c),
{
    match kind {
        Separator::Comma => c == ',',
        Separator::WhiteSpace => char_is_white_space(c),
    }
}

/// Appends one character (`String::push`).
#[verifier::external_body]
fn push_char(s: &mut String, c: char)
    ensures
        final(s)@ == old(s)@.push(c),
{
    s.push(c);
}

/// The characters of a text.
pub fn chars_of(s: &str) -> (v: Vec<char>)
    ensures
        v@ == s@,
{
    let mut v: Vec<char> = Vec::new();
    for c in it: s.chars()
        invariant
            v@ == it.seq().take(it.index() as int),
    {
        v.push(c);
    }
    v
}

/// A string of the given characters.
pub fn string_of(v: &Vec<char>) -> (s: String)
    ensures
        s@ == v@,
{
    let mut s = String::new();
    let mut i: usize = 0;
    while i < v.len()
        invariant
            i <= v.len(),
            s@ == v@.take(i as int),
        decreases v.len() - i,
    {
        push_char(&mut s, v[i]);
        i += 1;
        assert(s@ =~= v@.take(i as int));
    }
    assert(v@.take(v.len() as int) =~= v@);
    s
}

/// Appends the characters of `v` to `s`.
pub fn append_chars(s: &mut String, v: &Vec<char>)
    ensures
        final(s)@ == old(s)@ + v@,
{
    let mut i: usize = 0;
    while i < v.len()
        invariant
            i <= v.len(),
            s@ == old(s)@ + v@.take(i as int),
        decreases v.len() - i,
    {
        push_char(s, v[i]);
        i += 1;
        assert(s@ =~= old(s)@ + v@.take(i as int));
    }
    assert(v@.take(v.len() as int) =~= v@);
}

pub fn chars_equal(a: &Vec<char>, b: &Vec<char>) -> (eq: bool)
    ensures
        eq == (a@ == b@),
{
    if a.len() != b.len() {
        return false;
    }
    let mut i: usize = 0;
    while i < a.len()
        invariant
            a.len() == b.len(),
            i <= a.len(),
            forall|j: int| 0 <= j < i ==> a@[j] == b@[j],
        decreases a.len() - i,
    {
        if a[i] != b[i] {
            return false;
        }
        i += 1;
    }
    assert(a@ =~= b@);
    true
}

proof fn lemma_trim_start_step(s: Seq<char>, i: int)
    requires
        0 <= i < s.len(),
        is_white_space(s[i]),
    ensures
        trim_start(s.subrange(i, s.len() as int)) == trim_start(s.subrange(i + 1, s.len() as int)),
{
    assert(s.subrange(i, s.len() as int).drop_first() =~= s.subrange(i + 1, s.len() as int));
}

proof fn lemma_trim_end_step(s: Seq<char>, i: int, j: int)
    requires
        0 <= i < j <= s.len(),
        is_white_space(s[j - 1]),
    ensures
        trim_end(s.subrange(i, j)) == trim_end(s.subrange(i, j - 1)),
{
    assert(s.subrange(i, j).drop_last() =~= s.subrange(i, j - 1));
}

/// The text without white space at either end.
pub fn trim_chars(s: &Vec<char>) -> (t: Vec<char>)
    ensures
        t@ == trim(s@),
{
    let n = s.len();
    let mut i: usize = 0;
    assert(s@.subrange(0, n as int) =~= s@);
    while i < n && char_is_white_space(s[i])
        invariant
            n == s.len(),
            i <= n,
            trim_start(s@) == trim_start(s@.subrange(i as int, n as int)),
        decreases n - i,
    {
        proof {
            lemma_trim_start_step(s@, i as int);
        }
        i += 1;
    }
    let ghost start = s@.subrange(i as int, n as int);
    assert(trim_start(s@) == start);
    let mut j: usize = n;
    assert(start =~= s@.subrange(i as int, j as int));
    while j > i && char_is_white_space(s[j - 1])
        invariant
            n == s.len(),
            i <= j <= n,
            start == s@.subrange(i as int, n as int),
            trim_end(start) == trim_end(s@.subrange(i as int, j as int)),
        decreases j,
    {
        proof {
            lemma_trim_end_step(s@, i as int, j as int);
        }
        j -= 1;
    }
    let mut t: Vec<char> = Vec::new();
    let mut k: usize = i;
    while k < j
        invariant
            i <= k <= j <= n,
            n == s.len(),
            t@ == s@.subrange(i as int, k as int),
        decreases j - k,
    {
        t.push(s[k]);
        k += 1;
        assert(t@ =~= s@.subrange(i as int, k as int));
    }
    t
}

/// The pieces of a text between separators (`str::split`).
pub fn split_chars(s: &Vec<char>, kind: Separator) -> (pieces: Vec<Vec<char>>)
    ensures
        char_views(pieces@) == split_by(s@, kind),
{
    let mut pieces: Vec<Vec<char>> = Vec::new();
    let mut cur: Vec<char> = Vec::new();
    let mut i: usize = 0;
    assert(char_views(pieces@).push(cur@) =~= split_by(s@.take(0), kind));
    while i < s.len()
        invariant
            i <= s.len(),
            char_views(pieces@).push(cur@) == split_by(s@.take(i as int), kind),
        decreases s.len() - i,
    {
        let c = s[i];
        let ghost prev = char_views(pieces@).push(cur@);
        assert(s@.take(i + 1).drop_last() =~= s@.take(i as int));
        if char_is_separator(kind, c) {
            pieces.push(cur);
            cur = Vec::new();
            assert(char_views(pieces@).push(cur@) =~= prev.push(Seq::<char>::empty()));
        } else {
            cur.push(c);
            assert(char_views(pieces@).push(cur@) =~= prev.update(
                prev.len() - 1,
                prev.last().push(c),
            ));
        }
        i += 1;
    }
    let ghost before = char_views(pieces@).push(cur@);
    pieces.push(cur);
    assert(char_views(pieces@) =~= before);
    assert(s@.take(s.len() as int) =~= s@);
    pieces
}

/// The pieces that are not empty.
pub fn non_empty_pieces(ss: Vec<Vec<char>>) -> (out: Vec<Vec<char>>)
    ensures
        char_views(out@) == non_empty(char_views(ss@)),
{
    let mut out: Vec<Vec<char>> = Vec::new();
    let mut i: usize = 0;
    let n = ss.len();
    let ghost all = char_views(ss@);
    assert(char_views(out@) =~= non_empty(all.take(0)));
    while i < n
        invariant
            n == ss.len(),
            i <= n,
            all == char_views(ss@),
            char_views(out@) == non_empty(all.take(i as int)),
        decreases n - i,
    {
        assert(all.take(i + 1).drop_last() =~= all.take(i as int));
        assert(all.take(i + 1).last() == ss@[i as int]@);
        let ghost before = char_views(out@);
        if ss[i].len() > 0 {
            let p = ss[i].clone();
            out.push(p);
            assert(char_views(out@) =~= before.push(all[i as int]));
        }
        i += 1;
    }
    assert(all.take(n as int) =~= all);
    out
}

/// Each piece trimmed.
pub fn trim_pieces(ss: &Vec<Vec<char>>) -> (out: Vec<Vec<char>>)
    ensures
        char_views(out@) == trim_each(char_views(ss@)),
{
    let mut out: Vec<Vec<char>> = Vec::new();
    let mut i: usize = 0;
    let n = ss.len();
    let ghost all = char_views(ss@);
    assert(char_views(out@) =~= trim_each(all.take(0)));
    while i < n
        invariant
            n == ss.len(),
            i <= n,
            all == char_views(ss@),
            char_views(out@) == trim_each(all.take(i as int)),
        decreases n - i,
    {
        assert(all.take(i + 1).drop_last() =~= all.take(i as int));
        assert(all.take(i + 1).last() == ss@[i as int]@);
        let ghost before = char_views(out@);
        let t = trim_chars(&ss[i]);
        out.push(t);
        assert(char_views(out@) =~= before.push(trim(all[i as int])));
        i += 1;
    }
    assert(all.take(n as int) =~= all);
    out
}

/// The pieces joined with `sep` between each two.
pub fn join_pieces(ss: &Vec<Vec<char>>, sep: &Vec<char>) -> (out: Vec<char>)
    ensures
        out@ == join(char_views(ss@), sep@),
{
    let mut out: Vec<char> = Vec::new();
    let mut i: usize = 0;
    let n = ss.len();
    let ghost all = char_views(ss@);
    assert(out@ =~= join(all.take(0), sep@));
    while i < n
        invariant
            n == ss.len(),
            i <= n,
            all == char_views(ss@),
            out@ == join(all.take(i as int), sep@),
        decreases n - i,
    {
        assert(all.take(i + 1).drop_last() =~= all.take(i as int));
        assert(all.take(i + 1).last() == ss@[i as int]@);
        let ghost before = out@;
        if i > 0 {
            let mut k: usize = 0;
            while k < sep.len()
                invariant
                    k <= sep.len(),
                    out@ == before + sep@.take(k as int),
                decreases sep.len() - k,
            {
                out.push(sep[k]);
                k += 1;
                assert(out@ =~= before + sep@.take(k as int));
            }
            assert(sep@.take(sep.len() as int) =~= sep@);
        }
        let ghost middle = out@;
        let piece = &ss[i];
        let mut k: usize = 0;
        while k < piece.len()
            invariant
                k <= piece.len(),
                out@ == middle + piece@.take(k as int),
            decreases piece.len() - k,
        {
            out.push(piece[k]);
            k += 1;
            assert(out@ =~= middle + piece@.take(k as int));
        }
        assert(piece@.take(piece.len() as int) =~= piece@);
        if i == 0 {
            assert(all.take(1) =~= seq![all[0]]);
            assert(out@ =~= join(all.take(1), sep@));
        } else {
            assert(out@ =~= join(all.take(i + 1), sep@));
        }
        i += 1;
    }
    assert(all.take(n as int) =~= all);
    out
}

/// The words of a text joined by single spaces
/// (`split_whitespace` followed by `join(" ")`).
pub fn collapse_white_space_chars(s: &Vec<char>) -> (out: Vec<char>)
    ensures
        out@ == collapse_white_space(s@),
{
    let pieces = split_chars(s, Separator::WhiteSpace);
    let ws = non_empty_pieces(pieces);
    let sep = vec![' '];
    assert(sep@ =~= seq![' ']);
    join_pieces(&ws, &sep)
}

/// The ASCII characters of a text.
pub fn ascii_only_chars(s: &Vec<char>) -> (out: Vec<char>)
    ensures
        out@ == ascii_only(s@),
{
    let mut out: Vec<char> = Vec::new();
    let mut i: usize = 0;
    assert(out@ =~= ascii_only(s@.take(0)));
    while i < s.len()
        invariant
            i <= s.len(),
            out@ == ascii_only(s@.take(i as int)),
        decreases s.len() - i,
    {
        assert(s@.take(i + 1).drop_last() =~= s@.take(i as int));
        let c = s[i];
        if (c as u32) < 0x80 {
            out.push(c);
        }
        i += 1;
    }
    assert(s@.take(s.len() as int) =~= s@);
    out
}

fn digit(d: usize) -> (c: char)
    requires
        d < 10,
    ensures
        c == digit_char(d as nat),
{
    if d == 0 { '0' }
    else if d == 1 { '1' }
    else if d == 2 { '2' }
    else if d == 3 { '3' }
    else if d == 4 { '4' }
    else if d == 5 { '5' }
    else if d == 6 { '6' }
    else if d == 7 { '7' }
    else if d == 8 { '8' }
    else { '9' }
}

/// Appends the decimal notation of `n`.
pub fn push_decimal(s: &mut String, n: usize)
    ensures
        final(s)@ == old(s)@ + decimal(n as nat),
    decreases n,
{
    if n >= 10 {
        push_decimal(s, n / 10);
    }
    push_char(s, digit(n % 10));
    assert(s@ =~= old(s)@ + decimal(n as nat));
}

/// Appends the characters of a string slice.
pub fn push_text(s: &mut String, t: &str)
    ensures
        final(s)@ == old(s)@ + t@,
{
    let v = chars_of(t);
    append_chars(s, &v);
}

} // verus!
