use scrap_markdown::fetch::{endpoint, first_page, list_url, next_page, thread_url};

#[test]
fn listing_begins_at_page_zero() {
    assert_eq!(first_page(), 0);
    assert_eq!(list_url(endpoint(), first_page()), "https://zenn.dev/api/me/scraps?page=0");
}

#[test]
fn page_number_is_written_in_decimal() {
    assert_eq!(list_url("e", 7), "e/me/scraps?page=7");
    assert_eq!(list_url("e", 10), "e/me/scraps?page=10");
    assert_eq!(list_url("e", 1205), "e/me/scraps?page=1205");
    assert_eq!(list_url("e", u32::MAX), "e/me/scraps?page=4294967295");
}

#[test]
fn thread_is_asked_for_by_its_slug() {
    assert_eq!(
        thread_url(endpoint(), "0123456789abcdef"),
        "https://zenn.dev/api/scraps/0123456789abcdef/blob.json"
    );
}

#[test]
fn listing_goes_on_while_a_next_page_is_named() {
    assert_eq!(next_page(0, true), Some(1));
    assert_eq!(next_page(41, true), Some(42));
    assert_eq!(next_page(0, false), None);
    assert_eq!(next_page(u32::MAX, false), None);
}
