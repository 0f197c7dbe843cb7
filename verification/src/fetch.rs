//! What is asked of the remote service, and when the listing ends.
//!
//! The threads of a user are listed page by page, from page 0 on, until a
//! page names no next page. Each thread is then fetched by its identifier.
//! This module says which address is asked for and which page comes next;
//! the requests themselves are made by the caller.

use vstd::prelude::*;

verus! {

/// The character of a decimal digit.
pub open spec fn digit_char(d: nat) -> char
    recommends
        d < 10,
{
    if d == 0 {
        '0'
    } else if d == 1 {
        '1'
    } else if d == 2 {
        '2'
    } else if d == 3 {
        '3'
    } else if d == 4 {
        '4'
    } else if d == 5 {
        '5'
    } else if d == 6 {
        '6'
    } else if d == 7 {
        '7'
    } else if d == 8 {
        '8'
    } else {
        '9'
    }
}

/// The decimal digits of `n`, without leading zeros; of zero, one `0`.
pub open spec fn decimal(n: nat) -> Seq<char>
    decreases n,
{
    if n < 10 {
        seq![digit_char(n)]
    } else {
        decimal(n / 10).push(digit_char(n % 10))
    }
}

/// The address of page `page` of the listing.
pub open spec fn list_address(endpoint: Seq<char>, page: nat) -> Seq<char> {
    endpoint + "/me/scraps?page="@ + decimal(page)
}

/// The address of the thread `slug`.
pub open spec fn thread_address(endpoint: Seq<char>, slug: Seq<char>) -> Seq<char> {
    endpoint + "/scraps/"@ + slug + "/blob.json"@
}

/// The page to ask for after page `page`: the next one where the answer
/// named a next page, none where it did not.
pub open spec fn page_after(page: nat, has_next: bool) -> Option<nat> {
    if has_next {
        Some(page + 1)
    } else {
        None
    }
}

/// The character of the decimal digit `d`.
fn digit(d: u32) -> (c: char)
    requires
        d < 10,
    ensures
        c == digit_char(d as nat),
{
    match d {
        0 => '0',
        1 => '1',
        2 => '2',
        3 => '3',
        4 => '4',
        5 => '5',
        6 => '6',
        7 => '7',
        8 => '8',
        _ => '9',
    }
}

/// Appends the decimal digits of `n` to `out`.
fn append_decimal(out: &mut String, n: u32)
    ensures
        final(out)@ == old(out)@ + decimal(n as nat),
    decreases n,
{
    if n >= 10 {
        append_decimal(out, n / 10);
    }
    out.push(digit(n % 10));
    assert(final(out)@ =~= old(out)@ + decimal(n as nat));
}

/// The address of the service.
pub fn endpoint() -> (address: &'static str)
    ensures
        address@ == "https://zenn.dev/api"@,
{
    "https://zenn.dev/api"
}

/// The page with which the listing begins.
pub fn first_page() -> (page: u32)
    ensures
        page == 0,
{
    0
}

/// The address of page `page` of the listing.
pub fn list_url(endpoint: &str, page: u32) -> (url: String)
    ensures
        url@ == list_address(endpoint@, page as nat),
{
    let mut url = endpoint.to_string();
    url.append("/me/scraps?page=");
    append_decimal(&mut url, page);
    url
}

/// The address of the thread `slug`.
pub fn thread_url(endpoint: &str, slug: &str) -> (url: String)
    ensures
        url@ == thread_address(endpoint@, slug@),
{
    let mut url = endpoint.to_string();
    url.append("/scraps/");
    url.append(slug);
    url.append("/blob.json");
    url
}

/// The page to ask for after page `page`, where `has_next` says whether the
/// answer to it named a next page.
pub fn next_page(page: u32, has_next: bool) -> (next: Option<u32>)
    requires
        has_next ==> page < u32::MAX,
    ensures
        next is Some == has_next,
        next matches Some(p) ==> page_after(page as nat, has_next) == Some(p as nat),
{
    if has_next {
        Some(page + 1)
    } else {
        None
    }
}

} // verus!
