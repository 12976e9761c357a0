//! Inline results for the best local matches: each file is offered by the
//! raw URL of its place in the published repository.

use vstd::prelude::*;
use vstd::string::StringExecFns;
use crate::delivery::{animated_name, is_animated_name};
use crate::fetch::{url_accepts, url_parses};
use crate::matcher::{file_stem, scored_views, stem_of_name, AssetFile};
use crate::text::{chars_of, contains, matches_at, occurs_at, push_char, string_of};

verus! {

/// The most inline results offered for one query.
pub const MAX_INLINE_RESULTS: usize = 10;

/// Where the repository's source tree is served raw.
pub const RAW_BASE_URL: &'static str = "https://raw.githubusercontent.com/akira02/rust-tg.jpg/main/src/";

/// The percent-encoded form of a text.
pub uninterp spec fn percent_encoded(s: Seq<char>) -> Seq<char>;

/// Relies on `urlencoding::encode`: every byte but ASCII letters, digits
/// and `-`, `_`, `.`, `~` becomes a `%XX` escape.
#[verifier::external_body]
fn url_encode(s: &str) -> (r: String)
    ensures
        r@ == percent_encoded(s@),
{
    urlencoding::encode(s).into_owned()
}

/// `p` stands in `t` first at position `i`.
pub open spec fn first_at(t: Seq<char>, p: Seq<char>, i: int) -> bool {
    occurs_at(t, p, i) && forall|j: int| 0 <= j < i ==> !#[trigger] occurs_at(t, p, j)
}

/// Where `p` first stands in `t`.
fn find_first(t: &Vec<char>, p: &Vec<char>) -> (r: Option<usize>)
    ensures
        match r {
            Some(i) => first_at(t@, p@, i as int),
            None => !contains(t@, p@),
        },
{
    if p.len() > t.len() {
        return None;
    }
    let last = t.len() - p.len();
    let mut i: usize = 0;
    loop
        invariant
            last == t@.len() - p@.len(),
            i <= last,
            forall|k: int| 0 <= k < i ==> !#[trigger] occurs_at(t@, p@, k),
        decreases last - i,
    {
        if matches_at(t, p, i) {
            return Some(i);
        }
        if i == last {
            assert forall|k: int| #[trigger] occurs_at(t@, p@, k) implies false by {
                assert(k <= last);
            }
            return None;
        }
        i = i + 1;
    }
}

/// Reading a path on '/' from the left: the segments completed so far and
/// the one being read.
pub open spec fn slash_scan(s: Seq<char>) -> (Seq<Seq<char>>, Seq<char>)
    decreases s.len(),
{
    if s.len() == 0 {
        (Seq::empty(), Seq::empty())
    } else {
        let (done, cur) = slash_scan(s.drop_last());
        if s.last() == '/' {
            (done.push(cur), Seq::empty())
        } else {
            (done, cur.push(s.last()))
        }
    }
}

/// Each segment followed by '/'.
pub open spec fn slash_prefix(w: Seq<Seq<char>>) -> Seq<char>
    decreases w.len(),
{
    if w.len() == 0 {
        Seq::empty()
    } else {
        slash_prefix(w.drop_last()) + w.last() + seq!['/']
    }
}

/// Each segment percent-encoded.
pub open spec fn encoded_all(w: Seq<Seq<char>>) -> Seq<Seq<char>> {
    w.map_values(|x: Seq<char>| percent_encoded(x))
}

/// A path with each '/'-separated segment percent-encoded and the slashes
/// kept.
pub open spec fn encoded_path(s: Seq<char>) -> Seq<char> {
    let (done, cur) = slash_scan(s);
    slash_prefix(encoded_all(done)) + percent_encoded(cur)
}

/// Percent-encodes each segment of a path, keeping the slashes.
pub fn encode_path(s: &Vec<char>) -> (r: String)
    ensures
        r@ == encoded_path(s@),
{
    let mut out = String::new();
    let mut cur: Vec<char> = Vec::new();
    let mut i: usize = 0;
    while i < s.len()
        invariant
            i <= s@.len(),
            out@ == slash_prefix(encoded_all(slash_scan(s@.take(i as int)).0)),
            cur@ == slash_scan(s@.take(i as int)).1,
        decreases s@.len() - i,
    {
        assert(s@.take(i + 1).drop_last() =~= s@.take(i as int));
        let ghost done = slash_scan(s@.take(i as int)).0;
        if s[i] == '/' {
            let seg = url_encode(string_of(&cur).as_str());
            out.append(seg.as_str());
            push_char(&mut out, '/');
            let ghost w = encoded_all(done).push(percent_encoded(cur@));
            assert(encoded_all(done.push(cur@)) =~= w);
            assert(w.drop_last() =~= encoded_all(done));
            assert(slash_prefix(w) == slash_prefix(encoded_all(done)) + percent_encoded(cur@) + seq!['/']);
            cur = Vec::new();
        } else {
            cur.push(s[i]);
        }
        i = i + 1;
    }
    assert(s@.take(s@.len() as int) =~= s@);
    let last = url_encode(string_of(&cur).as_str());
    out.append(last.as_str());
    out
}

/// The inline result for a scored file, where it has one: its stem as the
/// title, the raw URL of its path from the first "assets" on, and whether
/// it is an animation. A path without "assets", or whose URL does not
/// parse, has none.
pub open spec fn inline_entry(path: Seq<char>, name: Seq<char>) -> Option<
    (Seq<char>, Seq<char>, bool),
> {
    if contains(path, "assets"@) {
        let i = choose|i: int| first_at(path, "assets"@, i);
        let url = RAW_BASE_URL@ + encoded_path(path.skip(i));
        if url_accepts(url) {
            Some((stem_of_name(name), url, animated_name(name)))
        } else {
            None
        }
    } else {
        None
    }
}

/// The inline results of scored files, in order.
pub open spec fn inline_entries_of(ms: Seq<(Seq<char>, Seq<char>, int)>) -> Seq<
    (Seq<char>, Seq<char>, bool),
>
    decreases ms.len(),
{
    if ms.len() == 0 {
        Seq::empty()
    } else {
        let prev = inline_entries_of(ms.drop_last());
        match inline_entry(ms.last().0, ms.last().1) {
            Some(e) => prev.push(e),
            None => prev,
        }
    }
}

/// One inline result: a title, the image's URL, and its format.
pub struct InlineEntry {
    pub title: String,
    pub url: String,
    pub animated: bool,
}

/// The plain values of inline results.
pub open spec fn entry_views(v: Seq<InlineEntry>) -> Seq<(Seq<char>, Seq<char>, bool)> {
    v.map_values(|e: InlineEntry| (e.title@, e.url@, e.animated))
}

/// Two first positions are the same position.
proof fn lemma_first_unique(t: Seq<char>, p: Seq<char>, i: int, j: int)
    requires
        first_at(t, p, i),
        first_at(t, p, j),
    ensures
        i == j,
{
    if i < j {
        assert(!occurs_at(t, p, i));
    } else if j < i {
        assert(!occurs_at(t, p, j));
    }
}

/// The inline result for one file, where it has one.
fn entry_for(file: &AssetFile) -> (r: Option<InlineEntry>)
    ensures
        match r {
            Some(e) => inline_entry(file.path@, file.name@) == Some((e.title@, e.url@, e.animated)),
            None => inline_entry(file.path@, file.name@) is None,
        },
{
    let p = chars_of(file.path.as_str());
    let marker = chars_of("assets");
    let i = match find_first(&p, &marker) {
        Some(i) => i,
        None => return None,
    };
    proof {
        assert(contains(p@, "assets"@));
        let k = choose|k: int| first_at(p@, "assets"@, k);
        lemma_first_unique(p@, "assets"@, i as int, k);
    }
    let mut rel: Vec<char> = Vec::new();
    let mut j: usize = i;
    while j < p.len()
        invariant
            i <= j <= p@.len(),
            rel@ == p@.subrange(i as int, j as int),
        decreases p@.len() - j,
    {
        rel.push(p[j]);
        assert(p@.subrange(i as int, j + 1) =~= p@.subrange(i as int, j as int).push(p@[j as int]));
        j = j + 1;
    }
    assert(p@.subrange(i as int, p@.len() as int) =~= p@.skip(i as int));
    let mut url = String::from_str(RAW_BASE_URL);
    let encoded = encode_path(&rel);
    url.append(encoded.as_str());
    if !url_parses(url.as_str()) {
        return None;
    }
    let title = file_stem(file.name.as_str());
    let animated = is_animated_name(file.name.as_str());
    Some(InlineEntry { title, url, animated })
}

/// The inline results for the best local matches: the first ten scored
/// files are taken, in order, and those without a result are left out.
pub fn inline_entries(matches: &Vec<(AssetFile, usize)>) -> (r: Vec<InlineEntry>)
    ensures
        entry_views(r@) == inline_entries_of(
            scored_views(matches@).take(
                if matches@.len() < MAX_INLINE_RESULTS {
                    matches@.len() as int
                } else {
                    MAX_INLINE_RESULTS as int
                },
            ),
        ),
{
    let ghost sv = scored_views(matches@);
    let n = if matches.len() < MAX_INLINE_RESULTS {
        matches.len()
    } else {
        MAX_INLINE_RESULTS
    };
    let mut r: Vec<InlineEntry> = Vec::new();
    let mut i: usize = 0;
    assert(entry_views(r@) =~= inline_entries_of(sv.take(0)));
    while i < n
        invariant
            sv == scored_views(matches@),
            n <= matches@.len(),
            i <= n,
            entry_views(r@) == inline_entries_of(sv.take(i as int)),
        decreases n - i,
    {
        assert(sv.take(i + 1).drop_last() =~= sv.take(i as int));
        assert(sv[i as int].0 == matches@[i as int].0.path@);
        assert(sv[i as int].1 == matches@[i as int].0.name@);
        match entry_for(&matches[i].0) {
            Some(e) => {
                let ghost before = r@;
                let ghost ev = (e.title@, e.url@, e.animated);
                r.push(e);
                assert(entry_views(r@) =~= entry_views(before).push(ev));
            },
            None => {},
        }
        i = i + 1;
    }
    r
}

} // verus!
