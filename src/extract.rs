//! Extraction of candidate image URLs from a search results page: four
//! strategies tried in a fixed order, the first that yields a URL wins; each
//! drops the provider's own images and keeps at most ten, in page order.

use vstd::prelude::*;
use vstd::string::StringExecFns;
use crate::text::{chars_of, contains, contains_chars, matches_at, occurs_at, push_char};

verus! {

/// The most URLs that one extraction returns.
pub const MAX_URLS: usize = 10;

/// A JSON-like triple `["url", width, height]` whose URL names an image file.
pub const ARRAY_PATTERN: &'static str =
    r#"\["(https?://[^"]+\.(?:jpg|jpeg|png|gif)[^"]*)"\s*,\s*\d+\s*,\s*\d+\]"#;

/// A quoted absolute URL that names an image file.
pub const QUOTED_PATTERN: &'static str = r#""(https?://[^"]+\.(?:jpg|jpeg|png|gif)[^"]*)""#;

/// The redirect link parameter that carries the percent-encoded full-size image URL.
pub const REDIRECT_PATTERN: &'static str = r#"imgurl=([^&"\s]+)"#;

/// The attribute that carries the full-size image URL in some page variants.
pub const ATTRIBUTE_PATTERN: &'static str = r#"data-ou="(.*?)""#;

/// The first capture group of each successive non-overlapping match of the
/// regular expression `pattern` in `text`; empty where `pattern` does not
/// compile.
pub uninterp spec fn group_matches(pattern: Seq<char>, text: Seq<char>) -> Seq<Seq<char>>;

/// The text that `%XX` escapes in `s` stand for, where the bytes form UTF-8.
pub uninterp spec fn percent_decoded(s: Seq<char>) -> Option<Seq<char>>;

/// The views of a sequence of strings.
pub open spec fn texts(v: Seq<String>) -> Seq<Seq<char>> {
    v.map_values(|s: String| s@)
}

/// Relies on `regex::Regex::new` to compile `pattern`, and on
/// `Regex::captures_iter` for the successive matches, of which the first
/// group is kept.
#[verifier::external_body]
fn first_groups(pattern: &str, text: &str) -> (r: Vec<String>)
    ensures
        texts(r@) == group_matches(pattern@, text@),
{
    match regex::Regex::new(pattern) {
        Ok(re) => re.captures_iter(text).filter_map(|c| c.get(1)).map(
            |m| m.as_str().to_string(),
        ).collect(),
        Err(_) => Vec::new(),
    }
}

/// Relies on `urlencoding::decode`: `None` where the decoded bytes are not
/// UTF-8; a text without '%' comes back as it is.
#[verifier::external_body]
fn percent_decode(s: &str) -> (r: Option<String>)
    ensures
        match r {
            Some(d) => percent_decoded(s@) == Some(d@),
            None => percent_decoded(s@) is None,
        },
        !s@.contains('%') ==> r is Some && r->0@ == s@,
{
    match urlencoding::decode(s) {
        Ok(d) => Some(d.into_owned()),
        Err(_) => None,
    }
}

/// A URL of the provider's own thumbnails, logos or static assets.
pub open spec fn provider_asset(u: Seq<char>) -> bool {
    contains(u, "encrypted-tbn"@) || contains(u, "gstatic"@) || contains(u, "googlelogo"@)
}

/// Whether a URL is one of the provider's own images.
pub fn is_provider_asset(u: &str) -> (r: bool)
    ensures
        r == provider_asset(u@),
{
    let c = chars_of(u);
    contains_chars(&c, &chars_of("encrypted-tbn")) || contains_chars(&c, &chars_of("gstatic"))
        || contains_chars(&c, &chars_of("googlelogo"))
}

/// The first URLs of a sequence that are not the provider's own, at most
/// ten, in order.
pub open spec fn first_kept(c: Seq<Seq<char>>) -> Seq<Seq<char>>
    decreases c.len(),
{
    if c.len() == 0 {
        Seq::empty()
    } else {
        let prev = first_kept(c.drop_last());
        if prev.len() < MAX_URLS && !provider_asset(c.last()) {
            prev.push(c.last())
        } else {
            prev
        }
    }
}

/// What `first_kept` returns: at most ten URLs, none the provider's own.
pub proof fn lemma_first_kept(c: Seq<Seq<char>>)
    ensures
        first_kept(c).len() <= MAX_URLS,
        forall|i: int| 0 <= i < first_kept(c).len() ==> !provider_asset(#[trigger] first_kept(c)[i]),
    decreases c.len(),
{
    if c.len() > 0 {
        lemma_first_kept(c.drop_last());
    }
}

/// Drops the provider's own images and keeps the first ten of the rest.
pub fn keep_image_urls(candidates: &Vec<String>) -> (r: Vec<String>)
    ensures
        texts(r@) == first_kept(texts(candidates@)),
{
    let ghost cv = texts(candidates@);
    let mut r: Vec<String> = Vec::new();
    let mut i: usize = 0;
    assert(texts(r@) =~= first_kept(cv.take(0)));
    while i < candidates.len()
        invariant
            cv == texts(candidates@),
            i <= candidates@.len(),
            texts(r@) == first_kept(cv.take(i as int)),
        decreases candidates@.len() - i,
    {
        assert(cv.take(i + 1).drop_last() =~= cv.take(i as int));
        assert(cv[i as int] == candidates@[i as int]@);
        if r.len() < MAX_URLS && !is_provider_asset(candidates[i].as_str()) {
            let ghost before = r@;
            r.push(candidates[i].clone());
            assert(texts(r@) =~= texts(before).push(cv[i as int]));
        }
        i = i + 1;
    }
    assert(cv.take(candidates@.len() as int) =~= cv);
    r
}

/// The escaped ampersand `&` of JSON strings.
pub open spec fn amp_escape() -> Seq<char> {
    seq!['\\', 'u', '0', '0', '2', '6']
}

/// The escaped equals sign `=` of JSON strings.
pub open spec fn eq_escape() -> Seq<char> {
    seq!['\\', 'u', '0', '0', '3', 'd']
}

/// A text with each escaped ampersand and equals sign replaced by the
/// character it stands for, read from the left.
pub open spec fn unescaped(s: Seq<char>) -> Seq<char>
    decreases s.len(),
{
    if s.len() == 0 {
        s
    } else if occurs_at(s, amp_escape(), 0) {
        seq!['&'] + unescaped(s.skip(6))
    } else if occurs_at(s, eq_escape(), 0) {
        seq!['='] + unescaped(s.skip(6))
    } else {
        seq![s[0]] + unescaped(s.skip(1))
    }
}

/// Replaces each escaped ampersand and equals sign by the character.
pub fn unescape(s: &str) -> (r: String)
    ensures
        r@ == unescaped(s@),
{
    let c = chars_of(s);
    let amp: Vec<char> = vec!['\\', 'u', '0', '0', '2', '6'];
    let eq: Vec<char> = vec!['\\', 'u', '0', '0', '3', 'd'];
    assert(amp@ =~= amp_escape());
    assert(eq@ =~= eq_escape());
    let mut r = String::new();
    let mut i: usize = 0;
    assert(c@.skip(0) =~= c@);
    while i < c.len()
        invariant
            amp@ == amp_escape(),
            eq@ == eq_escape(),
            i <= c@.len(),
            r@ + unescaped(c@.skip(i as int)) == unescaped(c@),
        decreases c@.len() - i,
    {
        let ghost rest = c@.skip(i as int);
        if c.len() - i >= 6 && matches_at(&c, &amp, i) {
            assert(rest.subrange(0, 6) =~= c@.subrange(i as int, i + 6));
            assert(rest.skip(6) =~= c@.skip(i + 6));
            push_char(&mut r, '&');
            assert(r@ + unescaped(c@.skip(i + 6)) =~= unescaped(c@));
            i = i + 6;
        } else if c.len() - i >= 6 && matches_at(&c, &eq, i) {
            assert(rest.subrange(0, 6) =~= c@.subrange(i as int, i + 6));
            assert(rest.skip(6) =~= c@.skip(i + 6));
            assert(!occurs_at(rest, amp_escape(), 0));
            push_char(&mut r, '=');
            assert(r@ + unescaped(c@.skip(i + 6)) =~= unescaped(c@));
            i = i + 6;
        } else {
            if c.len() - i >= 6 {
                assert(rest.subrange(0, 6) =~= c@.subrange(i as int, i + 6));
            }
            assert(!occurs_at(rest, amp_escape(), 0));
            assert(!occurs_at(rest, eq_escape(), 0));
            assert(rest.skip(1) =~= c@.skip(i + 1));
            push_char(&mut r, c[i]);
            assert(r@ + unescaped(c@.skip(i + 1)) =~= unescaped(c@));
            i = i + 1;
        }
    }
    assert(r@ + unescaped(c@.skip(i as int)) =~= r@);
    r
}

/// Each text unescaped.
pub open spec fn unescaped_all(v: Seq<Seq<char>>) -> Seq<Seq<char>> {
    v.map_values(|u: Seq<char>| unescaped(u))
}

/// Unescapes each captured URL.
pub fn unescape_all(v: &Vec<String>) -> (r: Vec<String>)
    ensures
        texts(r@) == unescaped_all(texts(v@)),
{
    let mut r: Vec<String> = Vec::new();
    let mut i: usize = 0;
    while i < v.len()
        invariant
            i <= v@.len(),
            texts(r@) == unescaped_all(texts(v@).take(i as int)),
        decreases v@.len() - i,
    {
        let ghost before = r@;
        let u = unescape(v[i].as_str());
        r.push(u);
        assert(texts(r@) =~= texts(before).push(u@));
        assert(unescaped_all(texts(v@).take(i + 1)) =~= unescaped_all(texts(v@).take(i as int)).push(
            unescaped(v@[i as int]@),
        ));
        i = i + 1;
    }
    assert(texts(v@).take(v@.len() as int) =~= texts(v@));
    r
}

/// A URL up to its query string: the part before the first '?'.
pub open spec fn before_query(s: Seq<char>) -> Seq<char>
    decreases s.len(),
{
    if s.len() == 0 {
        s
    } else if s[0] == '?' {
        Seq::empty()
    } else {
        seq![s[0]] + before_query(s.skip(1))
    }
}

/// Drops a URL's query string.
pub fn strip_query(s: &str) -> (r: String)
    ensures
        r@ == before_query(s@),
{
    let c = chars_of(s);
    let mut r = String::new();
    let mut i: usize = 0;
    assert(c@.skip(0) =~= c@);
    while i < c.len()
        invariant
            c@ == s@,
            i <= c@.len(),
            r@ + before_query(c@.skip(i as int)) == before_query(c@),
        decreases c@.len() - i,
    {
        if c[i] == '?' {
            assert(c@.skip(i as int)[0] == '?');
            assert(r@ + Seq::<char>::empty() =~= r@);
            return r;
        }
        assert(c@.skip(i as int).skip(1) =~= c@.skip(i + 1));
        push_char(&mut r, c[i]);
        assert(r@ + before_query(c@.skip(i + 1)) =~= before_query(c@));
        i = i + 1;
    }
    assert(r@ + before_query(c@.skip(i as int)) =~= r@);
    r
}

/// The full-size images that redirect parameters carry: each one decoded
/// and cut before its query string; one that does not decode is skipped.
pub open spec fn redirect_targets_of(caps: Seq<Seq<char>>) -> Seq<Seq<char>>
    decreases caps.len(),
{
    if caps.len() == 0 {
        Seq::empty()
    } else {
        let prev = redirect_targets_of(caps.drop_last());
        match percent_decoded(caps.last()) {
            Some(d) => prev.push(before_query(d)),
            None => prev,
        }
    }
}

/// Decodes the captured redirect parameters into image URLs.
pub fn redirect_targets(caps: &Vec<String>) -> (r: Vec<String>)
    ensures
        texts(r@) == redirect_targets_of(texts(caps@)),
{
    let ghost cv = texts(caps@);
    let mut r: Vec<String> = Vec::new();
    let mut i: usize = 0;
    assert(texts(r@) =~= redirect_targets_of(cv.take(0)));
    while i < caps.len()
        invariant
            cv == texts(caps@),
            i <= caps@.len(),
            texts(r@) == redirect_targets_of(cv.take(i as int)),
        decreases caps@.len() - i,
    {
        assert(cv.take(i + 1).drop_last() =~= cv.take(i as int));
        assert(cv[i as int] == caps@[i as int]@);
        match percent_decode(caps[i].as_str()) {
            Some(d) => {
                let ghost before = r@;
                let u = strip_query(d.as_str());
                r.push(u);
                assert(texts(r@) =~= texts(before).push(u@));
            },
            None => {},
        }
        i = i + 1;
    }
    assert(cv.take(caps@.len() as int) =~= cv);
    r
}

/// The strategies' outputs in priority order, given what each one scanned:
/// the JSON-like triples, the quoted URLs, the decoded redirect targets and
/// the attribute values. The first that keeps a URL is the result.
pub open spec fn picked(
    array: Seq<Seq<char>>,
    quoted: Seq<Seq<char>>,
    redirect: Seq<Seq<char>>,
    attribute: Seq<Seq<char>>,
) -> Seq<Seq<char>> {
    let a = first_kept(unescaped_all(array));
    let q = first_kept(unescaped_all(quoted));
    let r = first_kept(redirect);
    if a.len() > 0 {
        a
    } else if q.len() > 0 {
        q
    } else if r.len() > 0 {
        r
    } else {
        first_kept(attribute)
    }
}

/// The URLs that extraction finds in a page.
pub open spec fn extracted(text: Seq<char>) -> Seq<Seq<char>> {
    picked(
        group_matches(ARRAY_PATTERN@, text),
        group_matches(QUOTED_PATTERN@, text),
        redirect_targets_of(group_matches(REDIRECT_PATTERN@, text)),
        group_matches(ATTRIBUTE_PATTERN@, text),
    )
}

/// What the strategies give, in priority order: the first that keeps a URL
/// wins, and no strategy's output is merged with another's.
pub fn pick_urls(
    array: &Vec<String>,
    quoted: &Vec<String>,
    redirect: &Vec<String>,
    attribute: &Vec<String>,
) -> (r: Vec<String>)
    ensures
        texts(r@) == picked(texts(array@), texts(quoted@), texts(redirect@), texts(attribute@)),
        r@.len() <= MAX_URLS,
        forall|i: int| 0 <= i < r@.len() ==> !provider_asset(#[trigger] r@[i]@),
{
    let a = keep_image_urls(&unescape_all(array));
    let r = if a.len() > 0 {
        a
    } else {
        let q = keep_image_urls(&unescape_all(quoted));
        if q.len() > 0 {
            q
        } else {
            let d = keep_image_urls(redirect);
            if d.len() > 0 {
                d
            } else {
                keep_image_urls(attribute)
            }
        }
    };
    proof {
        lemma_first_kept(unescaped_all(texts(array@)));
        lemma_first_kept(unescaped_all(texts(quoted@)));
        lemma_first_kept(texts(redirect@));
        lemma_first_kept(texts(attribute@));
        assert forall|i: int| 0 <= i < r@.len() implies !provider_asset(#[trigger] r@[i]@) by {
            assert(texts(r@)[i] == r@[i]@);
        }
    }
    r
}

/// Extracts candidate image URLs from a search results page, at most ten,
/// none of them the provider's own images, in page order.
pub fn extract_image_urls(text: &str) -> (r: Vec<String>)
    ensures
        texts(r@) == extracted(text@),
        r@.len() <= MAX_URLS,
        forall|i: int| 0 <= i < r@.len() ==> !provider_asset(#[trigger] r@[i]@),
{
    let array = first_groups(ARRAY_PATTERN, text);
    let quoted = first_groups(QUOTED_PATTERN, text);
    let redirect = redirect_targets(&first_groups(REDIRECT_PATTERN, text));
    let attribute = first_groups(ATTRIBUTE_PATTERN, text);
    pick_urls(&array, &quoted, &redirect, &attribute)
}

/// Why a search yields nothing.
#[derive(PartialEq, Eq, Structural, Debug, Clone, Copy)]
pub enum SearchError {
    /// No strategy found an image URL in the page.
    NoCandidates,
}

impl SearchError {
    /// A sentence that describes the error.
    pub fn message(&self) -> String {
        match self {
            SearchError::NoCandidates => String::from_str(
                "no image URL found; the page format may have changed",
            ),
        }
    }
}

/// The candidate URLs of a search results page, or `NoCandidates` where no
/// strategy finds one.
pub fn urls_from_page(html: &str) -> (r: Result<Vec<String>, SearchError>)
    ensures
        match r {
            Ok(v) => texts(v@) == extracted(html@) && 0 < v@.len() <= MAX_URLS && forall|i: int|
                0 <= i < v@.len() ==> !provider_asset(#[trigger] v@[i]@),
            Err(e) => e == SearchError::NoCandidates && extracted(html@).len() == 0,
        },
{
    let urls = extract_image_urls(html);
    if urls.len() == 0 {
        Err(SearchError::NoCandidates)
    } else {
        Ok(urls)
    }
}

/// Where the structured-array strategy keeps a URL, the page's result is
/// its output alone, whatever the other strategies would find.
pub proof fn lemma_array_strategy_wins(text: Seq<char>)
    requires
        first_kept(unescaped_all(group_matches(ARRAY_PATTERN@, text))).len() > 0,
    ensures
        extracted(text) == first_kept(unescaped_all(group_matches(ARRAY_PATTERN@, text))),
{
}

/// Whatever the page holds, extraction returns at most ten URLs and none of
/// the provider's own images.
pub proof fn lemma_extracted_bounded(text: Seq<char>)
    ensures
        extracted(text).len() <= MAX_URLS,
        forall|i: int| 0 <= i < extracted(text).len() ==> !provider_asset(#[trigger] extracted(text)[i]),
{
    lemma_first_kept(unescaped_all(group_matches(ARRAY_PATTERN@, text)));
    lemma_first_kept(unescaped_all(group_matches(QUOTED_PATTERN@, text)));
    lemma_first_kept(redirect_targets_of(group_matches(REDIRECT_PATTERN@, text)));
    lemma_first_kept(group_matches(ATTRIBUTE_PATTERN@, text));
}

/// The view of a list of name and value pairs.
pub open spec fn pair_texts(v: Seq<(String, String)>) -> Seq<(Seq<char>, Seq<char>)> {
    v.map_values(|p: (String, String)| (p.0@, p.1@))
}

/// The query parameters of an image search: the query, the format filter
/// (animated or static), the image result scope and the locale.
pub fn search_params(query: &str, is_gif: bool) -> (r: Vec<(String, String)>)
    ensures
        pair_texts(r@) == seq![
            ("q"@, query@),
            ("tbs"@, if is_gif { "ift:gif"@ } else { "ift:jpg"@ }),
            ("tbm"@, "isch"@),
            ("hl"@, "zh-TW"@),
        ],
{
    let format = if is_gif {
        "ift:gif"
    } else {
        "ift:jpg"
    };
    let mut r: Vec<(String, String)> = Vec::new();
    r.push(("q".to_owned(), query.to_owned()));
    r.push(("tbs".to_owned(), format.to_owned()));
    r.push(("tbm".to_owned(), "isch".to_owned()));
    r.push(("hl".to_owned(), "zh-TW".to_owned()));
    assert(pair_texts(r@) =~= seq![
        ("q"@, query@),
        ("tbs"@, if is_gif { "ift:gif"@ } else { "ift:jpg"@ }),
        ("tbm"@, "isch"@),
        ("hl"@, "zh-TW"@),
    ]);
    r
}

} // verus!
