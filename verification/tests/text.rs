use setlister::ordering::{compare_u128, compare_u64, flip_rank, then_rank, Rank};
use setlister::text::{
    ascii_only_chars, char_is_white_space, chars_of, collapse_white_space_chars, join_pieces,
    push_decimal, push_text, split_chars, string_of, trim_chars, Separator,
};

fn chars(s: &str) -> Vec<char> {
    s.chars().collect()
}

#[test]
fn white_space_is_unicode_white_space() {
    assert!(char_is_white_space(' '));
    assert!(char_is_white_space('\t'));
    assert!(char_is_white_space('\u{3000}'));
    assert!(char_is_white_space('\u{a0}'));
    assert!(!char_is_white_space('a'));
    assert!(!char_is_white_space('\u{200b}'));
}

#[test]
fn trim_and_collapse_white_space() {
    assert_eq!(trim_chars(&chars("\u{3000} a b \n")), chars("a b"));
    assert_eq!(collapse_white_space_chars(&chars("  Late \t  Night  ")), chars("Late Night"));
    assert!(trim_chars(&chars("   ")).is_empty());
}

#[test]
fn split_keeps_empty_pieces_and_join_inverts_it() {
    let pieces = split_chars(&chars("a,,b,"), Separator::Comma);
    assert_eq!(pieces, vec![chars("a"), Vec::new(), chars("b"), Vec::new()]);
    assert_eq!(join_pieces(&pieces, &chars(",")), chars("a,,b,"));
}

#[test]
fn ascii_only_drops_other_characters() {
    assert_eq!(ascii_only_chars(&chars("Artïst 2")), chars("Artst 2"));
    assert!(ascii_only_chars(&chars("ïüé")).is_empty());
}

#[test]
fn decimal_and_text_are_appended() {
    let mut s = String::new();
    push_decimal(&mut s, 0);
    push_text(&mut s, "-");
    push_decimal(&mut s, 1203);
    assert_eq!(s, "0-1203");
    assert_eq!(string_of(&chars_of("Muse")), "Muse");
}

#[test]
fn ranks_compare_flip_and_chain() {
    assert_eq!(compare_u64(1, 2), Rank::Before);
    assert_eq!(compare_u64(2, 2), Rank::Tie);
    assert_eq!(compare_u128(3, 2), Rank::After);
    assert_eq!(flip_rank(Rank::Before), Rank::After);
    assert_eq!(flip_rank(Rank::Tie), Rank::Tie);
    assert_eq!(then_rank(Rank::Tie, Rank::After), Rank::After);
    assert_eq!(then_rank(Rank::Before, Rank::After), Rank::Before);
}
