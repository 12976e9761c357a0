//! Classification of a candidate URL: a host that blocks hotlinking needs its
//! bytes downloaded; any other URL is handed on as a link.

use vstd::prelude::*;
use crate::text::{chars_of, contains, contains_chars};

verus! {

/// How a candidate URL is turned into something deliverable.
#[derive(PartialEq, Eq, Structural, Debug, Clone, Copy)]
pub enum SourceKind {
    /// The URL itself is delivered; the transport fetches it.
    DirectLink,
    /// The bytes must be downloaded first, with a browser's headers.
    RequiresDownload,
}

/// Whether `url::Url::parse` accepts a text as an absolute URL.
pub uninterp spec fn url_accepts(s: Seq<char>) -> bool;

/// Relies on `url::Url::parse`: whether the text parses as an absolute URL.
#[verifier::external_body]
pub(crate) fn url_parses(s: &str) -> (r: bool)
    ensures
        r == url_accepts(s@),
{
    url::Url::parse(s).is_ok()
}

/// A URL of the image host that refuses hotlinked requests.
pub open spec fn imgur(u: Seq<char>) -> bool {
    contains(u, "imgur.com"@) || contains(u, "i.imgur.com"@)
}

/// Whether a URL belongs to the image host that refuses hotlinked requests.
pub fn is_imgur_url(url: &str) -> (r: bool)
    ensures
        r == imgur(url@),
{
    let u = chars_of(url);
    contains_chars(&u, &chars_of("imgur.com")) || contains_chars(&u, &chars_of("i.imgur.com"))
}

/// How a candidate URL is delivered.
pub fn classify(url: &str) -> (r: SourceKind)
    ensures
        r == (if imgur(url@) {
            SourceKind::RequiresDownload
        } else {
            SourceKind::DirectLink
        }),
{
    if is_imgur_url(url) {
        SourceKind::RequiresDownload
    } else {
        SourceKind::DirectLink
    }
}

} // verus!
