use setlister::validator::playlist_name_validator::PlaylistNameValidator;

#[test]
fn default_name_of_exactly_one_hundred_bytes_is_not_cut() {
    let artists = vec!["A".repeat(92)];
    assert!(!PlaylistNameValidator::default_name_is_truncated(&artists));
}

#[test]
fn default_name_past_one_hundred_bytes_is_cut() {
    let artists = vec!["A".repeat(93)];
    assert!(PlaylistNameValidator::default_name_is_truncated(&artists));
    let two = vec!["A".repeat(50), "B".repeat(50)];
    assert!(PlaylistNameValidator::default_name_is_truncated(&two));
}

#[test]
fn short_default_name_is_not_cut() {
    let artists = vec!["Radiohead".to_string(), "Muse".to_string()];
    assert!(!PlaylistNameValidator::default_name_is_truncated(&artists));
}

#[test]
fn default_name_counts_bytes_not_characters() {
    // 46 two-byte characters and " Setlist" make 54 characters but 100 bytes.
    let artists = vec!["é".repeat(46)];
    assert!(!PlaylistNameValidator::default_name_is_truncated(&artists));
    let artists = vec!["é".repeat(47)];
    assert!(PlaylistNameValidator::default_name_is_truncated(&artists));
}
