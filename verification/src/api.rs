//! What the setlist.fm client decides: which address to ask for a page of an artist's
//! setlists, and when the next request may go out.
use crate::text::{decimal, push_decimal, push_text};
use vstd::prelude::*;

verus! {

/// Requests are at least this many milliseconds apart: setlist.fm allows two per second.
pub const REQUEST_INTERVAL_MS: u64 = 500;

/// The address of page `page` of the setlists of `artist` (the name is put in as it is).
pub open spec fn search_url(artist: Seq<char>, page: nat) -> Seq<char> {
    "https://api.setlist.fm/rest/1.0/search/setlists?artistName="@ + artist + "&p="@ + decimal(page)
}

/// Returns the address of one page of an artist's setlists.
pub fn setlist_search_url(artist: &str, page: u16) -> (url: String)
    ensures
        url@ == search_url(artist@, page as nat),
{
    let mut url = String::from_str("https://api.setlist.fm/rest/1.0/search/setlists?artistName=");
    push_text(&mut url, artist);
    push_text(&mut url, "&p=");
    push_decimal(&mut url, page as usize);
    url
}

/// Until when a request that is due at `now_ms` waits: until the earliest time at which
/// the next request may go out, where that time is still ahead.
pub open spec fn wait_until(now_ms: u64, next_allowed_ms: u64) -> Option<u64> {
    if next_allowed_ms > now_ms {
        Some(next_allowed_ms)
    } else {
        None
    }
}

/// The earliest time for the request after one sent at `sent_ms`: half a second later,
/// or the last representable time.
pub open spec fn next_slot(sent_ms: u64) -> u64 {
    if sent_ms + REQUEST_INTERVAL_MS <= u64::MAX {
        (sent_ms + REQUEST_INTERVAL_MS) as u64
    } else {
        u64::MAX
    }
}

/// When a request that is due at `now_ms` goes out.
pub open spec fn departure(now_ms: u64, next_allowed_ms: u64) -> u64 {
    match wait_until(now_ms, next_allowed_ms) {
        Some(t) => t,
        None => now_ms,
    }
}

/// Law: requests keep their pace. A request that comes due no earlier than the one
/// before it was sent goes out half a second after it or later (or at the last
/// representable time), and never before it comes due.
pub proof fn lemma_requests_keep_pace(sent_ms: u64, now_ms: u64)
    requires
        sent_ms <= now_ms,
    ensures
        departure(now_ms, next_slot(sent_ms)) >= now_ms,
        sent_ms + REQUEST_INTERVAL_MS <= u64::MAX ==> departure(now_ms, next_slot(sent_ms))
            >= sent_ms + REQUEST_INTERVAL_MS,
        sent_ms + REQUEST_INTERVAL_MS > u64::MAX ==> departure(now_ms, next_slot(sent_ms))
            == u64::MAX,
{
}

/// Until when a request that is due at `now_ms` has to wait, given the earliest time at
/// which the next request may go out: it waits exactly when that time is still ahead.
pub fn request_wait(now_ms: u64, next_allowed_ms: u64) -> (wait: Option<u64>)
    ensures
        wait == wait_until(now_ms, next_allowed_ms),
{
    if next_allowed_ms > now_ms {
        Some(next_allowed_ms)
    } else {
        None
    }
}

/// The earliest time for the request after one sent at `sent_ms`.
pub fn next_allowed_request(sent_ms: u64) -> (next_ms: u64)
    ensures
        next_ms == next_slot(sent_ms),
{
    sent_ms.saturating_add(REQUEST_INTERVAL_MS)
}

/// The pages to ask for: 1 to `page_depth`.
pub fn pages_to_fetch(page_depth: u16) -> (pages: Vec<u16>)
    ensures
        pages.len() == page_depth,
        forall|i: int| 0 <= i < pages.len() ==> #[trigger] pages@[i] == i + 1,
{
    let mut pages: Vec<u16> = Vec::new();
    let mut done: u16 = 0;
    while done < page_depth
        invariant
            done <= page_depth,
            pages.len() == done,
            forall|i: int| 0 <= i < pages.len() ==> #[trigger] pages@[i] == i + 1,
        decreases page_depth - done,
    {
        done += 1;
        pages.push(done);
    }
    pages
}

} // verus!
