use setlister::api::{
    next_allowed_request, pages_to_fetch, request_wait, setlist_search_url, REQUEST_INTERVAL_MS,
};

#[test]
fn search_url_names_artist_and_page() {
    assert_eq!(
        setlist_search_url("Radiohead", 2),
        "https://api.setlist.fm/rest/1.0/search/setlists?artistName=Radiohead&p=2"
    );
    assert_eq!(
        setlist_search_url("The National", 10),
        "https://api.setlist.fm/rest/1.0/search/setlists?artistName=The National&p=10"
    );
}

#[test]
fn search_url_writes_the_largest_page() {
    assert_eq!(
        setlist_search_url("Muse", u16::MAX),
        "https://api.setlist.fm/rest/1.0/search/setlists?artistName=Muse&p=65535"
    );
}

#[test]
fn request_waits_only_while_the_slot_is_ahead() {
    assert_eq!(request_wait(1_000, 1_500), Some(1_500));
    assert_eq!(request_wait(1_500, 1_500), None);
    assert_eq!(request_wait(2_000, 1_500), None);
}

#[test]
fn requests_are_half_a_second_apart() {
    assert_eq!(REQUEST_INTERVAL_MS, 500);
    assert_eq!(next_allowed_request(1_000), 1_500);
    assert_eq!(next_allowed_request(0), 500);
    assert_eq!(next_allowed_request(u64::MAX - 100), u64::MAX);
}

#[test]
fn pages_run_from_one_to_the_depth() {
    assert_eq!(pages_to_fetch(3), vec![1, 2, 3]);
    assert_eq!(pages_to_fetch(1), vec![1]);
    assert!(pages_to_fetch(0).is_empty());
}
