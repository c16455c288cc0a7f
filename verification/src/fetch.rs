//! The origin gate in front of the fetch capability. Every resource
//! discovered inside fetched content is requested through one of these two
//! functions, whose preconditions confine the request to the page's origin:
//! a reference that resolves off-origin cannot be fetched at all.
use crate::types::Fetcher;
use crate::urls::{same_origin, UrlParts};
use vstd::prelude::*;

verus! {

/// Fetches `target` as text; callable only for a target on `base`'s origin.
pub fn fetch_text_same_origin<T: Fetcher>(
    fetcher: &mut T,
    base: &UrlParts,
    target: &UrlParts,
) -> (r: Option<String>)
    requires
        same_origin(target@, base@),
{
    fetcher.get_text(target.url.as_str())
}

/// Fetches `target` as bytes; callable only for a target on `base`'s origin.
pub fn fetch_bytes_same_origin<T: Fetcher>(
    fetcher: &mut T,
    base: &UrlParts,
    target: &UrlParts,
) -> (r: Option<Vec<u8>>)
    requires
        same_origin(target@, base@),
{
    fetcher.get_bytes(target.url.as_str())
}

} // verus!
