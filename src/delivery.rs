//! The decisions of one resolution, from the incoming text to a delivered
//! image or to exhaustion. The caller performs each action (reading the
//! corpus, fetching the page, downloading, sending) and reports its result
//! back as the next event; candidates are tried one at a time, in rank
//! order, and the first that is delivered ends the resolution.

use vstd::prelude::*;
use crate::extract::{extract_image_urls, extracted, texts};
use crate::fetch::{classify, imgur, url_accepts, url_parses, SourceKind};
use crate::matcher::{
    corpus_views, discovered, extension_of_name, file_extension, find_last_dot, find_local_image,
    last_dot, ranked, same_chars, AssetFile,
};
use crate::normalize::normalized;
use crate::text::{chars_of, lower_of, lowercase, string_of};

verus! {

/// `e` spells `lo` with any of its letters in upper case (`up`).
pub open spec fn ext_is(e: Seq<char>, lo: Seq<char>, up: Seq<char>) -> bool {
    e.len() == lo.len() && forall|i: int| 0 <= i < e.len() ==> e[i] == lo[i] || e[i] == up[i]
}

/// The animated image extension, in any case.
pub open spec fn gif_ext(e: Seq<char>) -> bool {
    ext_is(e, seq!['g', 'i', 'f'], seq!['G', 'I', 'F'])
}

/// A recognized image extension, in any case.
pub open spec fn image_ext(e: Seq<char>) -> bool {
    ||| ext_is(e, seq!['j', 'p', 'g'], seq!['J', 'P', 'G'])
    ||| ext_is(e, seq!['j', 'p', 'e', 'g'], seq!['J', 'P', 'E', 'G'])
    ||| ext_is(e, seq!['p', 'n', 'g'], seq!['P', 'N', 'G'])
    ||| gif_ext(e)
}

/// A text that asks for an image: a stem of at least one character and no
/// line break, a '.', and a recognized extension. The result is the stem and
/// whether the extension names an animation.
pub open spec fn parsed_query(t: Seq<char>) -> Option<(Seq<char>, bool)> {
    let d = last_dot(t);
    if d >= 1 && !t.take(d).contains('\n') && image_ext(t.skip(d + 1)) {
        Some((t.take(d), gif_ext(t.skip(d + 1))))
    } else {
        None
    }
}

/// A request for an image: what to search for, and whether it is animated.
pub struct ImageQuery {
    pub text: String,
    pub animated: bool,
}

/// Whether `e` spells `lo` with any letter in upper case (`up`).
fn ext_matches(e: &Vec<char>, lo: &Vec<char>, up: &Vec<char>) -> (r: bool)
    requires
        lo@.len() == up@.len(),
    ensures
        r == ext_is(e@, lo@, up@),
{
    if e.len() != lo.len() {
        return false;
    }
    let mut i: usize = 0;
    while i < e.len()
        invariant
            e@.len() == lo@.len(),
            lo@.len() == up@.len(),
            i <= e@.len(),
            forall|k: int| 0 <= k < i ==> e@[k] == lo@[k] || e@[k] == up@[k],
        decreases e@.len() - i,
    {
        if e[i] != lo[i] && e[i] != up[i] {
            return false;
        }
        i = i + 1;
    }
    true
}

/// Reads a text as a request for an image, where it is one.
pub fn parse_query(text: &str) -> (r: Option<ImageQuery>)
    ensures
        match r {
            Some(q) => parsed_query(text@) == Some((q.text@, q.animated)),
            None => parsed_query(text@) is None,
        },
{
    let t = chars_of(text);
    let d = match find_last_dot(&t) {
        Some(d) => d,
        None => return None,
    };
    if d == 0 {
        return None;
    }
    let mut stem: Vec<char> = Vec::new();
    let mut i: usize = 0;
    while i < d
        invariant
            t@ == text@,
            last_dot(t@) == d as int,
            d < t@.len(),
            i <= d,
            stem@ == t@.take(i as int),
            !stem@.contains('\n'),
        decreases d - i,
    {
        if t[i] == '\n' {
            assert(t@.take(d as int)[i as int] == '\n');
            return None;
        }
        stem.push(t[i]);
        assert(t@.take(i + 1) =~= t@.take(i as int).push(t@[i as int]));
        i = i + 1;
    }
    let mut ext: Vec<char> = Vec::new();
    let n = t.len();
    assert(d < n);
    let mut j: usize = d + 1;
    while j < t.len()
        invariant
            d < t@.len(),
            d + 1 <= j <= t@.len(),
            ext@ == t@.subrange(d + 1, j as int),
        decreases t@.len() - j,
    {
        ext.push(t[j]);
        assert(t@.subrange(d + 1, j + 1) =~= t@.subrange(d + 1, j as int).push(t@[j as int]));
        j = j + 1;
    }
    assert(t@.subrange(d + 1, t@.len() as int) =~= t@.skip(d + 1));
    let jpg_lo: Vec<char> = vec!['j', 'p', 'g'];
    let jpg_up: Vec<char> = vec!['J', 'P', 'G'];
    let jpeg_lo: Vec<char> = vec!['j', 'p', 'e', 'g'];
    let jpeg_up: Vec<char> = vec!['J', 'P', 'E', 'G'];
    let png_lo: Vec<char> = vec!['p', 'n', 'g'];
    let png_up: Vec<char> = vec!['P', 'N', 'G'];
    let gif_lo: Vec<char> = vec!['g', 'i', 'f'];
    let gif_up: Vec<char> = vec!['G', 'I', 'F'];
    assert(jpg_lo@ =~= seq!['j', 'p', 'g'] && jpg_up@ =~= seq!['J', 'P', 'G']);
    assert(jpeg_lo@ =~= seq!['j', 'p', 'e', 'g'] && jpeg_up@ =~= seq!['J', 'P', 'E', 'G']);
    assert(png_lo@ =~= seq!['p', 'n', 'g'] && png_up@ =~= seq!['P', 'N', 'G']);
    assert(gif_lo@ =~= seq!['g', 'i', 'f'] && gif_up@ =~= seq!['G', 'I', 'F']);
    let animated = ext_matches(&ext, &gif_lo, &gif_up);
    if animated || ext_matches(&ext, &jpg_lo, &jpg_up) || ext_matches(&ext, &jpeg_lo, &jpeg_up)
        || ext_matches(&ext, &png_lo, &png_up) {
        Some(ImageQuery { text: string_of(&stem), animated })
    } else {
        None
    }
}

/// A file whose extension, lower-cased, is the animated format's.
pub open spec fn animated_name(name: Seq<char>) -> bool {
    match extension_of_name(name) {
        Some(e) => lower_of(e) == "gif"@,
        None => false,
    }
}

/// Whether a corpus file is an animation, by its extension.
pub fn is_animated_name(name: &str) -> (r: bool)
    ensures
        r == animated_name(name@),
{
    match file_extension(name) {
        Some(e) => {
            let lowered = lowercase(e.as_str());
            same_chars(&chars_of(lowered.as_str()), &chars_of("gif"))
        },
        None => false,
    }
}

/// Where a resolution stands.
#[derive(PartialEq, Eq, Structural, Debug, Clone, Copy)]
pub enum Phase {
    /// Nothing has been done yet.
    Start,
    /// The corpus is being read.
    AwaitCorpus,
    /// The best local file is being sent.
    AwaitLocalSend,
    /// The search results page is being fetched.
    AwaitPage,
    /// The current candidate's bytes are being downloaded.
    AwaitDownload,
    /// The current candidate is being sent.
    AwaitSend,
    /// The resolution is over.
    Done,
}

/// How a resolution ended.
#[derive(PartialEq, Eq, Structural, Debug, Clone, Copy)]
pub enum Outcome {
    /// A candidate was delivered.
    Delivered,
    /// Every candidate failed, or there was none.
    Exhausted,
    /// The text asks for no image.
    Ignored,
    /// Reading the corpus failed part way.
    CorpusFault,
    /// The search results page could not be fetched.
    SearchFailed,
}

/// What the caller is to do next.
#[derive(Debug)]
pub enum Action {
    /// Read every file of the corpus.
    ReadCorpus,
    /// Send the local file at `path`, as an animation or a still image.
    SendLocal { path: String, animated: bool },
    /// Fetch the search results page for `query`.
    FetchPage { query: String, animated: bool },
    /// Download the bytes at `url`.
    Download { url: String },
    /// Send the bytes just downloaded.
    SendDownloaded { animated: bool },
    /// Send the image at `url` by reference.
    SendUrl { url: String, animated: bool },
    /// Stop: the resolution is over.
    Finish { outcome: Outcome },
    /// Nothing: the event did not fit the resolution's phase.
    Idle,
}

/// One resolution of an incoming text.
pub struct Resolution {
    pub text: String,
    pub local_enabled: bool,
    pub phase: Phase,
    pub urls: Vec<String>,
    pub index: usize,
    pub animated: bool,
}

/// The action stops the resolution with the given outcome.
pub open spec fn finishes(a: Action, o: Outcome) -> bool {
    a matches Action::Finish { outcome } && outcome == o
}

/// A candidate that can be tried: one to download, or a well-formed URL.
pub open spec fn sendable(u: Seq<char>) -> bool {
    imgur(u) || url_accepts(u)
}

/// The first candidate from `i` on that can be tried, or the count of
/// candidates where none can.
pub open spec fn next_sendable(urls: Seq<Seq<char>>, i: int) -> int
    decreases urls.len() - i,
{
    if i >= urls.len() {
        urls.len() as int
    } else if sendable(urls[i]) {
        i
    } else {
        next_sendable(urls, i + 1)
    }
}

impl Resolution {
    /// The current candidate exists while one is being tried.
    pub open spec fn wf(&self) -> bool {
        (self.phase == Phase::AwaitDownload || self.phase == Phase::AwaitSend) ==> self.index
            < self.urls@.len()
    }

    /// The text, the mode, the candidates and the format stay as they were.
    pub open spec fn same_request(&self, other: Resolution) -> bool {
        &&& self.text@ == other.text@
        &&& self.local_enabled == other.local_enabled
    }

    /// After the local step, the remote one starts: a text that asks for no
    /// image ends the resolution, any other has its page fetched.
    pub open spec fn started_remote(&self, after: Resolution, a: Action) -> bool {
        &&& after.same_request(*self)
        &&& after.wf()
        &&& match parsed_query(self.text@) {
            None => after.phase == Phase::Done && finishes(a, Outcome::Ignored),
            Some((q, anim)) => {
                &&& after.phase == Phase::AwaitPage
                &&& after.animated == anim
                &&& a matches Action::FetchPage { query, animated } && query@ == q && animated
                    == anim
            },
        }
    }

    /// The candidates from `from` on are tried in order: the first that can
    /// be is downloaded or sent; where none can, the resolution is exhausted.
    pub open spec fn attempted(&self, after: Resolution, a: Action, from: int) -> bool {
        let urls = texts(self.urls@);
        let j = next_sendable(urls, from);
        &&& after.same_request(*self)
        &&& texts(after.urls@) == urls
        &&& after.animated == self.animated
        &&& after.wf()
        &&& if j >= urls.len() {
            after.phase == Phase::Done && finishes(a, Outcome::Exhausted)
        } else if imgur(urls[j]) {
            &&& after.phase == Phase::AwaitDownload
            &&& after.index == j
            &&& a matches Action::Download { url } && url@ == urls[j]
        } else {
            &&& after.phase == Phase::AwaitSend
            &&& after.index == j
            &&& a matches Action::SendUrl { url, animated } && url@ == urls[j] && animated
                == self.animated
        }
    }

    /// A resolution of `text`, with the local corpus tried first where
    /// `local_enabled`.
    pub fn new(text: String, local_enabled: bool) -> (r: Resolution)
        ensures
            r.wf(),
            r.phase == Phase::Start,
            r.text@ == text@,
            r.local_enabled == local_enabled,
    {
        Resolution { text, local_enabled, phase: Phase::Start, urls: Vec::new(), index: 0, animated: false }
    }

    /// Starts the remote step.
    fn start_remote(&mut self) -> (a: Action)
        ensures
            old(self).started_remote(*final(self), a),
    {
        match parse_query(self.text.as_str()) {
            None => {
                self.phase = Phase::Done;
                Action::Finish { outcome: Outcome::Ignored }
            },
            Some(q) => {
                self.phase = Phase::AwaitPage;
                self.animated = q.animated;
                Action::FetchPage { query: q.text, animated: q.animated }
            },
        }
    }

    /// Tries the candidates from `from` on.
    fn attempt_from(&mut self, from: usize) -> (a: Action)
        requires
            from <= old(self).urls@.len(),
        ensures
            old(self).attempted(*final(self), a, from as int),
    {
        let ghost urls = texts(self.urls@);
        let ghost before = *self;
        let mut i = from;
        while i < self.urls.len()
            invariant
                *self == before,
                before == *old(self),
                urls == texts(self.urls@),
                from <= i <= self.urls@.len(),
                next_sendable(urls, from as int) == next_sendable(urls, i as int),
            decreases self.urls@.len() - i,
        {
            assert(urls[i as int] == self.urls@[i as int]@);
            if classify(self.urls[i].as_str()) == SourceKind::RequiresDownload {
                self.phase = Phase::AwaitDownload;
                self.index = i;
                return Action::Download { url: self.urls[i].clone() };
            }
            if url_parses(self.urls[i].as_str()) {
                self.phase = Phase::AwaitSend;
                self.index = i;
                return Action::SendUrl { url: self.urls[i].clone(), animated: self.animated };
            }
            i = i + 1;
        }
        self.phase = Phase::Done;
        Action::Finish { outcome: Outcome::Exhausted }
    }

    /// Begins: reads the corpus where the local mode is on, else starts the
    /// remote step.
    pub fn begin(&mut self) -> (a: Action)
        requires
            old(self).wf(),
        ensures
            old(self).phase != Phase::Start ==> *final(self) == *old(self) && a is Idle,
            old(self).phase == Phase::Start && old(self).local_enabled ==> final(self).phase
                == Phase::AwaitCorpus && final(self).same_request(*old(self)) && final(self).wf()
                && a is ReadCorpus,
            old(self).phase == Phase::Start && !old(self).local_enabled ==> old(self).started_remote(
                *final(self),
                a,
            ),
    {
        if self.phase != Phase::Start {
            return Action::Idle;
        }
        if self.local_enabled {
            self.phase = Phase::AwaitCorpus;
            Action::ReadCorpus
        } else {
            self.start_remote()
        }
    }

    /// The corpus has been read: its best match is sent, or, where nothing
    /// matches, the remote step starts.
    pub fn on_corpus(&mut self, corpus: &Vec<AssetFile>) -> (a: Action)
        requires
            old(self).wf(),
        ensures
            old(self).phase != Phase::AwaitCorpus ==> *final(self) == *old(self) && a is Idle,
            old(self).phase == Phase::AwaitCorpus ==> ({
                let best = ranked(discovered(normalized(old(self).text@), corpus_views(corpus@)));
                if best.len() > 0 {
                    &&& final(self).phase == Phase::AwaitLocalSend
                    &&& final(self).same_request(*old(self))
                    &&& final(self).wf()
                    &&& a matches Action::SendLocal { path, animated } && path@ == best[0].0
                        && animated == animated_name(best[0].1)
                } else {
                    old(self).started_remote(*final(self), a)
                }
            }),
    {
        if self.phase != Phase::AwaitCorpus {
            return Action::Idle;
        }
        match find_local_image(self.text.as_str(), corpus) {
            Some(f) => {
                self.phase = Phase::AwaitLocalSend;
                let animated = is_animated_name(f.name.as_str());
                Action::SendLocal { path: f.path, animated }
            },
            None => self.start_remote(),
        }
    }

    /// Reading the corpus failed part way: the resolution ends.
    pub fn on_corpus_fault(&mut self) -> (a: Action)
        requires
            old(self).wf(),
        ensures
            old(self).phase != Phase::AwaitCorpus ==> *final(self) == *old(self) && a is Idle,
            old(self).phase == Phase::AwaitCorpus ==> final(self).phase == Phase::Done
                && final(self).same_request(*old(self)) && finishes(a, Outcome::CorpusFault),
    {
        if self.phase != Phase::AwaitCorpus {
            return Action::Idle;
        }
        self.phase = Phase::Done;
        Action::Finish { outcome: Outcome::CorpusFault }
    }

    /// The search results page has arrived: its candidate URLs are tried in
    /// order.
    pub fn on_page(&mut self, html: &str) -> (a: Action)
        requires
            old(self).wf(),
        ensures
            old(self).phase != Phase::AwaitPage ==> *final(self) == *old(self) && a is Idle,
            old(self).phase == Phase::AwaitPage ==> texts(final(self).urls@) == extracted(html@)
                && (Resolution { urls: final(self).urls, ..*old(self) }).attempted(
                *final(self),
                a,
                0,
            ),
    {
        if self.phase != Phase::AwaitPage {
            return Action::Idle;
        }
        self.urls = extract_image_urls(html);
        self.attempt_from(0)
    }

    /// The search results page could not be fetched: the resolution ends.
    pub fn on_page_failed(&mut self) -> (a: Action)
        requires
            old(self).wf(),
        ensures
            old(self).phase != Phase::AwaitPage ==> *final(self) == *old(self) && a is Idle,
            old(self).phase == Phase::AwaitPage ==> final(self).phase == Phase::Done
                && final(self).same_request(*old(self)) && finishes(a, Outcome::SearchFailed),
    {
        if self.phase != Phase::AwaitPage {
            return Action::Idle;
        }
        self.phase = Phase::Done;
        Action::Finish { outcome: Outcome::SearchFailed }
    }

    /// The download of the current candidate ended: its bytes are sent, or,
    /// where it failed, the next candidate is tried.
    pub fn on_downloaded(&mut self, ok: bool) -> (a: Action)
        requires
            old(self).wf(),
        ensures
            old(self).phase != Phase::AwaitDownload ==> *final(self) == *old(self) && a is Idle,
            old(self).phase == Phase::AwaitDownload && ok ==> final(self).phase == Phase::AwaitSend
                && final(self).same_request(*old(self)) && final(self).urls@ == old(self).urls@
                && final(self).index == old(self).index && final(self).wf()
                && (a matches Action::SendDownloaded { animated } && animated == old(self).animated),
            old(self).phase == Phase::AwaitDownload && !ok ==> old(self).attempted(
                *final(self),
                a,
                old(self).index + 1,
            ),
    {
        if self.phase != Phase::AwaitDownload {
            return Action::Idle;
        }
        if ok {
            self.phase = Phase::AwaitSend;
            Action::SendDownloaded { animated: self.animated }
        } else {
            let n = self.urls.len();
            assert(self.index < n);
            let next = self.index + 1;
            self.attempt_from(next)
        }
    }

    /// The send of the local file or of the current candidate ended: a
    /// success ends the resolution; a failed local send starts the remote
    /// step, a failed candidate gives way to the next.
    pub fn on_sent(&mut self, ok: bool) -> (a: Action)
        requires
            old(self).wf(),
        ensures
            old(self).phase != Phase::AwaitLocalSend && old(self).phase != Phase::AwaitSend
                ==> *final(self) == *old(self) && a is Idle,
            (old(self).phase == Phase::AwaitLocalSend || old(self).phase == Phase::AwaitSend) && ok
                ==> final(self).phase == Phase::Done && final(self).same_request(*old(self))
                && finishes(a, Outcome::Delivered),
            old(self).phase == Phase::AwaitLocalSend && !ok ==> old(self).started_remote(
                *final(self),
                a,
            ),
            old(self).phase == Phase::AwaitSend && !ok ==> old(self).attempted(
                *final(self),
                a,
                old(self).index + 1,
            ),
    {
        if self.phase != Phase::AwaitLocalSend && self.phase != Phase::AwaitSend {
            return Action::Idle;
        }
        if ok {
            self.phase = Phase::Done;
            return Action::Finish { outcome: Outcome::Delivered };
        }
        if self.phase == Phase::AwaitLocalSend {
            self.start_remote()
        } else {
            let n = self.urls.len();
            assert(self.index < n);
            let next = self.index + 1;
            self.attempt_from(next)
        }
    }
}

} // verus!
