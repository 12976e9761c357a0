//! Fuzzy matching of a query against a corpus of named files: the scoring
//! rules, and the stable ranking of the files that scored.

use vstd::prelude::*;
use vstd::utf8::encode_utf8;
use crate::normalize::{normalize_text, normalized};
use crate::text::{chars_of, contains, contains_chars, split_words, string_of, views, words};

verus! {

/// Normalized stems shorter than this many characters must equal the query.
pub const SHORT_STEM_LEN: usize = 3;

/// Score of a short stem equal to the query.
pub const SHORT_EXACT_SCORE: usize = 2000;

/// Base score of a stem that stands inside the query.
pub const STEM_IN_QUERY_BASE: usize = 1000;

/// Base score of a query that stands inside the stem.
pub const QUERY_IN_STEM_BASE: usize = 900;

/// Points for two equal words, and the whole of a word-overlap score.
pub const FULL_POINTS: usize = 100;

/// Points for two words one of which stands inside the other.
pub const PARTIAL_POINTS: usize = 50;

/// One file of the corpus: where it is, and its name (the last component).
pub struct AssetFile {
    pub path: String,
    pub name: String,
}

impl View for AssetFile {
    type V = (Seq<char>, Seq<char>);

    open spec fn view(&self) -> (Seq<char>, Seq<char>) {
        (self.path@, self.name@)
    }
}

impl AssetFile {
    /// A file of the corpus.
    pub fn new(path: String, name: String) -> (r: AssetFile)
        ensures
            r@ == (path@, name@),
    {
        AssetFile { path, name }
    }

    /// A copy with the same path and name.
    pub fn copy(&self) -> (r: AssetFile)
        ensures
            r@ == self@,
    {
        AssetFile { path: self.path.clone(), name: self.name.clone() }
    }
}

/// A scored file as plain values: path, name and score.
pub open spec fn scored_view(m: (AssetFile, usize)) -> (Seq<char>, Seq<char>, int) {
    (m.0.path@, m.0.name@, m.1 as int)
}

/// The plain values of a sequence of scored files.
pub open spec fn scored_views(v: Seq<(AssetFile, usize)>) -> Seq<(Seq<char>, Seq<char>, int)> {
    v.map_values(|m: (AssetFile, usize)| scored_view(m))
}

/// The position of the last '.' of a name, or -1.
pub open spec fn last_dot(s: Seq<char>) -> int
    decreases s.len(),
{
    if s.len() == 0 {
        -1
    } else if s.last() == '.' {
        s.len() - 1
    } else {
        last_dot(s.drop_last())
    }
}

/// A file name without its extension: the part before the last '.', or the
/// whole name where it has no '.' but a leading one.
pub open spec fn stem_of_name(name: Seq<char>) -> Seq<char> {
    if last_dot(name) <= 0 {
        name
    } else {
        name.take(last_dot(name))
    }
}

/// The extension of a file name: what follows the last '.', where that '.'
/// does not lead the name.
pub open spec fn extension_of_name(name: Seq<char>) -> Option<Seq<char>> {
    if last_dot(name) <= 0 {
        None
    } else {
        Some(name.skip(last_dot(name) + 1))
    }
}

/// The position of the last '.' of a name.
pub(crate) fn find_last_dot(s: &Vec<char>) -> (r: Option<usize>)
    ensures
        match r {
            Some(d) => last_dot(s@) == d as int && d < s@.len(),
            None => last_dot(s@) == -1,
        },
{
    let mut i = s.len();
    assert(s@.take(i as int) =~= s@);
    while i > 0
        invariant
            i <= s@.len(),
            last_dot(s@) == last_dot(s@.take(i as int)),
        decreases i,
    {
        assert(s@.take(i as int).drop_last() =~= s@.take(i - 1));
        if s[i - 1] == '.' {
            return Some(i - 1);
        }
        i = i - 1;
    }
    None
}

/// The stem of a file name.
pub fn file_stem(name: &str) -> (r: String)
    ensures
        r@ == stem_of_name(name@),
{
    let chars = chars_of(name);
    match find_last_dot(&chars) {
        Some(d) if d > 0 => {
            let mut stem: Vec<char> = Vec::new();
            let mut i: usize = 0;
            while i < d
                invariant
                    d <= chars@.len(),
                    i <= d,
                    stem@ == chars@.take(i as int),
                decreases d - i,
            {
                stem.push(chars[i]);
                assert(chars@.take(i + 1) =~= chars@.take(i as int).push(chars@[i as int]));
                i = i + 1;
            }
            string_of(&stem)
        },
        _ => string_of(&chars),
    }
}

/// The extension of a file name.
pub fn file_extension(name: &str) -> (r: Option<String>)
    ensures
        match r {
            Some(e) => extension_of_name(name@) == Some(e@),
            None => extension_of_name(name@) is None,
        },
{
    let chars = chars_of(name);
    match find_last_dot(&chars) {
        Some(d) if d > 0 => {
            let mut ext: Vec<char> = Vec::new();
            let n = chars.len();
            assert(d < n);
            let mut i: usize = d + 1;
            while i < chars.len()
                invariant
                    d < chars@.len(),
                    d + 1 <= i <= chars@.len(),
                    ext@ == chars@.subrange(d + 1, i as int),
                decreases chars@.len() - i,
            {
                ext.push(chars[i]);
                assert(chars@.subrange(d + 1, i + 1) =~= chars@.subrange(d + 1, i as int).push(
                    chars@[i as int],
                ));
                i = i + 1;
            }
            assert(chars@.subrange(d + 1, chars@.len() as int) =~= chars@.skip(d + 1));
            Some(string_of(&ext))
        },
        _ => None,
    }
}

/// A score held to the largest `usize`.
pub open spec fn sat(x: int) -> int {
    if x <= usize::MAX {
        x
    } else {
        usize::MAX as int
    }
}

/// The length of a text in UTF-8 bytes.
pub open spec fn byte_len(s: Seq<char>) -> int {
    encode_utf8(s).len() as int
}

/// Points for a pair of words: equal, or one inside the other.
pub open spec fn pair_points(a: Seq<char>, b: Seq<char>) -> nat {
    if a == b {
        FULL_POINTS as nat
    } else if contains(a, b) || contains(b, a) {
        PARTIAL_POINTS as nat
    } else {
        0
    }
}

/// Points of one word against each of a list of words.
pub open spec fn row_points(a: Seq<char>, fw: Seq<Seq<char>>) -> nat
    decreases fw.len(),
{
    if fw.len() == 0 {
        0
    } else {
        row_points(a, fw.drop_last()) + pair_points(a, fw.last())
    }
}

/// Points of every pair of a word of `tw` and a word of `fw`.
pub open spec fn word_points(tw: Seq<Seq<char>>, fw: Seq<Seq<char>>) -> nat
    decreases tw.len(),
{
    if tw.len() == 0 {
        0
    } else {
        word_points(tw.drop_last(), fw) + row_points(tw.last(), fw)
    }
}

/// The score of a file name against a text: containment of the name in the
/// text, then of the text in the name, then the points of their word pairs.
pub open spec fn match_score(text: Seq<char>, file_name: Seq<char>) -> int {
    if contains(text, file_name) {
        sat(STEM_IN_QUERY_BASE + byte_len(file_name))
    } else if contains(file_name, text) {
        sat(QUERY_IN_STEM_BASE + byte_len(text))
    } else {
        sat(word_points(words(text), words(file_name)) as int)
    }
}

/// Whether two character vectors hold the same characters.
pub(crate) fn same_chars(a: &Vec<char>, b: &Vec<char>) -> (r: bool)
    ensures
        r == (a@ == b@),
{
    if a.len() != b.len() {
        return false;
    }
    let mut i: usize = 0;
    while i < a.len()
        invariant
            a@.len() == b@.len(),
            i <= a@.len(),
            forall|k: int| 0 <= k < i ==> a@[k] == b@[k],
        decreases a@.len() - i,
    {
        if a[i] != b[i] {
            return false;
        }
        i = i + 1;
    }
    assert(a@ =~= b@);
    true
}

/// Points for a pair of words.
fn pair_points_of(a: &Vec<char>, b: &Vec<char>) -> (r: usize)
    ensures
        r == pair_points(a@, b@),
{
    if same_chars(a, b) {
        FULL_POINTS
    } else if contains_chars(a, b) || contains_chars(b, a) {
        PARTIAL_POINTS
    } else {
        0
    }
}

/// Adding a non-negative amount to a held score holds the sum.
proof fn lemma_sat_add(a: int, b: int)
    requires
        a >= 0,
        b >= 0,
    ensures
        sat(sat(a) + b) == sat(a + b),
{
}

/// Scores a file name against a text, both normalized: 1000 plus the name's
/// length in bytes where the text holds the name, else 900 plus the text's
/// length where the name holds the text, else 100 for each equal pair of
/// words and 50 for each pair where one word holds the other.
pub fn calculate_match_score(text: &str, file_name: &str) -> (r: usize)
    ensures
        r == match_score(text@, file_name@),
{
    let t = chars_of(text);
    let f = chars_of(file_name);
    if contains_chars(&t, &f) {
        return STEM_IN_QUERY_BASE.saturating_add(file_name.as_bytes().len());
    }
    if contains_chars(&f, &t) {
        return QUERY_IN_STEM_BASE.saturating_add(text.as_bytes().len());
    }
    let tw = split_words(&t);
    let fw = split_words(&f);
    let ghost tv = views(tw@);
    let ghost fv = views(fw@);
    let mut score: usize = 0;
    let mut i: usize = 0;
    while i < tw.len()
        invariant
            tv == views(tw@),
            fv == views(fw@),
            i <= tw@.len(),
            score == sat(word_points(tv.take(i as int), fv) as int),
        decreases tw@.len() - i,
    {
        let mut j: usize = 0;
        let ghost before = word_points(tv.take(i as int), fv) as int;
        while j < fw.len()
            invariant
                tv == views(tw@),
                fv == views(fw@),
                i < tw@.len(),
                j <= fw@.len(),
                score == sat(before + row_points(tv[i as int], fv.take(j as int))),
            decreases fw@.len() - j,
        {
            let p = pair_points_of(&tw[i], &fw[j]);
            assert(fv.take(j + 1).drop_last() =~= fv.take(j as int));
            assert(fv[j as int] == fw@[j as int]@);
            assert(tv[i as int] == tw@[i as int]@);
            proof {
                lemma_sat_add(before + row_points(tv[i as int], fv.take(j as int)), p as int);
            }
            score = score.saturating_add(p);
            j = j + 1;
        }
        assert(fv.take(fw@.len() as int) =~= fv);
        assert(tv.take(i + 1).drop_last() =~= tv.take(i as int));
        i = i + 1;
    }
    assert(tv.take(tw@.len() as int) =~= tv);
    score
}

/// Some word of `tw` holds `fw`, or stands inside it.
pub open spec fn word_hit(fw: Seq<char>, tw: Seq<Seq<char>>) -> bool {
    exists|j: int| 0 <= j < tw.len() && (contains(#[trigger] tw[j], fw) || contains(fw, tw[j]))
}

/// How many words of `fws` meet some word of `tws`.
pub open spec fn hit_count(fws: Seq<Seq<char>>, tws: Seq<Seq<char>>) -> nat
    decreases fws.len(),
{
    if fws.len() == 0 {
        0
    } else {
        hit_count(fws.drop_last(), tws) + if word_hit(fws.last(), tws) {
            1nat
        } else {
            0nat
        }
    }
}

/// The share, in hundredths rounded down, of the stem's words that meet a
/// word of the text.
pub open spec fn overlap_score(text: Seq<char>, stem: Seq<char>) -> int {
    let n = words(stem).len();
    (hit_count(words(stem), words(text)) * FULL_POINTS) as int / (if n > 0 {
        n
    } else {
        1
    }) as int
}

/// The score of a stem of normal length, if it matches at all.
pub open spec fn normal_score(text: Seq<char>, stem: Seq<char>) -> Option<int> {
    if contains(text, stem) || contains(stem, text) {
        Some(match_score(text, stem))
    } else if hit_count(words(stem), words(text)) > 0 {
        Some(overlap_score(text, stem))
    } else {
        None
    }
}

/// The score of a short stem, which must equal the text.
pub open spec fn short_score(text: Seq<char>, stem: Seq<char>) -> Option<int> {
    if text == stem {
        Some(SHORT_EXACT_SCORE as int)
    } else {
        None
    }
}

/// The score of a normalized stem against a normalized text, if it matches.
pub open spec fn stem_score(text: Seq<char>, stem: Seq<char>) -> Option<int> {
    if stem.len() < SHORT_STEM_LEN {
        short_score(text, stem)
    } else {
        normal_score(text, stem)
    }
}

/// The score of a file name against a normalized text, if it matches; a
/// name whose stem normalizes to nothing never does.
pub open spec fn file_score(text: Seq<char>, name: Seq<char>) -> Option<int> {
    let ns = normalized(stem_of_name(name));
    if ns.len() == 0 {
        None
    } else {
        stem_score(text, ns)
    }
}

/// Adds a scored file to a sequence, where there is a score.
pub open spec fn pushed(
    m: Seq<(Seq<char>, Seq<char>, int)>,
    f: (Seq<char>, Seq<char>),
    score: Option<int>,
) -> Seq<(Seq<char>, Seq<char>, int)> {
    match score {
        Some(sc) => m.push((f.0, f.1, sc)),
        None => m,
    }
}

/// Appends a file with its score.
fn push_scored(file: &AssetFile, score: usize, matches: &mut Vec<(AssetFile, usize)>)
    ensures
        scored_views(final(matches)@) == scored_views(old(matches)@).push(
            (file.path@, file.name@, score as int),
        ),
{
    let ghost before = matches@;
    matches.push((file.copy(), score));
    assert(scored_views(matches@) =~= scored_views(before).push(
        (file.path@, file.name@, score as int),
    ));
}

/// A short stem matches only a text equal to it, with the highest score.
pub fn handle_short_filename(
    file: &AssetFile,
    normalized_text: &str,
    normalized_file_stem: &str,
    matches: &mut Vec<(AssetFile, usize)>,
)
    ensures
        scored_views(final(matches)@) == pushed(
            scored_views(old(matches)@),
            file@,
            short_score(normalized_text@, normalized_file_stem@),
        ),
{
    let t = chars_of(normalized_text);
    let f = chars_of(normalized_file_stem);
    if same_chars(&t, &f) {
        push_scored(file, SHORT_EXACT_SCORE, matches);
    }
}

/// Whether some word of `tw` holds `fw` or stands inside it.
fn word_hit_of(fw: &Vec<char>, tw: &Vec<Vec<char>>) -> (r: bool)
    ensures
        r == word_hit(fw@, views(tw@)),
{
    let ghost tv = views(tw@);
    let mut j: usize = 0;
    while j < tw.len()
        invariant
            tv == views(tw@),
            j <= tw@.len(),
            forall|k: int|
                0 <= k < j ==> !(contains(#[trigger] tv[k], fw@) || contains(fw@, tv[k])),
        decreases tw@.len() - j,
    {
        assert(tv[j as int] == tw@[j as int]@);
        if contains_chars(&tw[j], fw) || contains_chars(fw, &tw[j]) {
            return true;
        }
        j = j + 1;
    }
    false
}

/// A stem of normal length matches by containment either way, scored by
/// `calculate_match_score`, or else by the share of its words that meet a
/// word of the text, where there is at least one.
pub fn handle_normal_filename(
    file: &AssetFile,
    normalized_text: &str,
    normalized_file_stem: &str,
    matches: &mut Vec<(AssetFile, usize)>,
)
    ensures
        scored_views(final(matches)@) == pushed(
            scored_views(old(matches)@),
            file@,
            normal_score(normalized_text@, normalized_file_stem@),
        ),
{
    let t = chars_of(normalized_text);
    let f = chars_of(normalized_file_stem);
    if contains_chars(&t, &f) || contains_chars(&f, &t) {
        let score = calculate_match_score(normalized_text, normalized_file_stem);
        push_scored(file, score, matches);
        return;
    }
    let fw = split_words(&f);
    let tw = split_words(&t);
    let ghost fv = views(fw@);
    let ghost tv = views(tw@);
    let mut count: usize = 0;
    let mut i: usize = 0;
    while i < fw.len()
        invariant
            fv == views(fw@),
            tv == views(tw@),
            i <= fw@.len(),
            count <= i,
            count == hit_count(fv.take(i as int), tv),
        decreases fw@.len() - i,
    {
        assert(fv.take(i + 1).drop_last() =~= fv.take(i as int));
        assert(fv[i as int] == fw@[i as int]@);
        if word_hit_of(&fw[i], &tw) {
            count = count + 1;
        }
        i = i + 1;
    }
    assert(fv.take(fw@.len() as int) =~= fv);
    if count > 0 {
        let n: usize = if fw.len() > 0 {
            fw.len()
        } else {
            1
        };
        assert((count as int) * 100 / (n as int) <= 100) by (nonlinear_arith)
            requires
                count <= n,
                n >= 1,
        ;
        let wide: u128 = (count as u128) * (FULL_POINTS as u128) / (n as u128);
        let score = wide as usize;
        push_scored(file, score, matches);
    }
}

/// Scores one file of the corpus against a normalized text and appends it
/// where it matches.
pub fn process_file(file: &AssetFile, normalized_text: &str, matches: &mut Vec<(AssetFile, usize)>)
    ensures
        scored_views(final(matches)@) == pushed(
            scored_views(old(matches)@),
            file@,
            file_score(normalized_text@, file.name@),
        ),
{
    let stem = file_stem(file.name.as_str());
    let normalized_stem = normalize_text(stem.as_str());
    let n = chars_of(normalized_stem.as_str()).len();
    if n == 0 {
        return;
    }
    if n < SHORT_STEM_LEN {
        handle_short_filename(file, normalized_text, normalized_stem.as_str(), matches);
    } else {
        handle_normal_filename(file, normalized_text, normalized_stem.as_str(), matches);
    }
}

/// The plain values of a corpus.
pub open spec fn corpus_views(c: Seq<AssetFile>) -> Seq<(Seq<char>, Seq<char>)> {
    c.map_values(|f: AssetFile| f@)
}

/// The files of a corpus that match a normalized text, with their scores,
/// in the order of the corpus.
pub open spec fn discovered(text: Seq<char>, corpus: Seq<(Seq<char>, Seq<char>)>) -> Seq<
    (Seq<char>, Seq<char>, int),
>
    decreases corpus.len(),
{
    if corpus.len() == 0 {
        Seq::empty()
    } else {
        pushed(
            discovered(text, corpus.drop_last()),
            corpus.last(),
            file_score(text, corpus.last().1),
        )
    }
}

/// Where a scored file goes in a list ranked by score: after every file that
/// scored at least as much.
pub open spec fn insert_pos(r: Seq<(Seq<char>, Seq<char>, int)>, x: (Seq<char>, Seq<char>, int)) -> int
    decreases r.len(),
{
    if r.len() == 0 {
        0
    } else if r.last().2 >= x.2 {
        r.len() as int
    } else {
        insert_pos(r.drop_last(), x)
    }
}

/// A ranked list with one more scored file.
pub open spec fn insert_ranked(
    r: Seq<(Seq<char>, Seq<char>, int)>,
    x: (Seq<char>, Seq<char>, int),
) -> Seq<(Seq<char>, Seq<char>, int)> {
    r.insert(insert_pos(r, x), x)
}

/// Scored files ordered by score, highest first; equal scores keep their
/// order.
pub open spec fn ranked(s: Seq<(Seq<char>, Seq<char>, int)>) -> Seq<(Seq<char>, Seq<char>, int)>
    decreases s.len(),
{
    if s.len() == 0 {
        s
    } else {
        insert_ranked(ranked(s.drop_last()), s.last())
    }
}

/// Scores never rise from one entry to the next.
pub open spec fn descending(r: Seq<(Seq<char>, Seq<char>, int)>) -> bool {
    forall|i: int| 0 <= i < r.len() - 1 ==> #[trigger] r[i].2 >= r[i + 1].2
}

/// Inserts a scored file into a ranked list after every file that scored at
/// least as much.
fn insert_by_score(list: &mut Vec<(AssetFile, usize)>, item: (AssetFile, usize))
    ensures
        scored_views(final(list)@) == insert_ranked(scored_views(old(list)@), scored_view(item)),
{
    let ghost sv = scored_views(list@);
    let ghost x = scored_view(item);
    let mut pos = list.len();
    assert(sv.take(pos as int) =~= sv);
    while pos > 0 && list[pos - 1].1 < item.1
        invariant
            sv == scored_views(list@),
            x == scored_view(item),
            pos <= list@.len(),
            insert_pos(sv, x) == insert_pos(sv.take(pos as int), x),
        decreases pos,
    {
        assert(sv.take(pos as int).drop_last() =~= sv.take(pos - 1));
        pos = pos - 1;
    }
    if pos > 0 {
        assert(sv.take(pos as int).last() == sv[pos - 1]);
    }
    list.insert(pos, item);
    assert(scored_views(list@) =~= sv.insert(pos as int, x));
}

/// Where the insertion position stands against the scores around it.
proof fn lemma_insert_pos(r: Seq<(Seq<char>, Seq<char>, int)>, x: (Seq<char>, Seq<char>, int))
    ensures
        0 <= insert_pos(r, x) <= r.len(),
        insert_pos(r, x) > 0 ==> r[insert_pos(r, x) - 1].2 >= x.2,
        forall|k: int| insert_pos(r, x) <= k < r.len() ==> #[trigger] r[k].2 < x.2,
    decreases r.len(),
{
    if r.len() > 0 && r.last().2 < x.2 {
        let r0 = r.drop_last();
        lemma_insert_pos(r0, x);
        assert forall|k: int| insert_pos(r, x) <= k < r.len() implies #[trigger] r[k].2 < x.2 by {
            if k < r.len() - 1 {
                assert(r[k] == r0[k]);
            }
        }
    }
}

/// Ranking keeps the number of entries and orders them by score.
pub proof fn lemma_ranked_descending(s: Seq<(Seq<char>, Seq<char>, int)>)
    ensures
        ranked(s).len() == s.len(),
        descending(ranked(s)),
    decreases s.len(),
{
    if s.len() > 0 {
        let r = ranked(s.drop_last());
        let x = s.last();
        lemma_ranked_descending(s.drop_last());
        lemma_insert_pos(r, x);
        let p = insert_pos(r, x);
        r.insert_ensures(p, x);
        let y = r.insert(p, x);
        assert forall|i: int| 0 <= i < y.len() - 1 implies #[trigger] y[i].2 >= y[i + 1].2 by {
            if i + 1 < p {
                assert(r[i].2 >= r[i + 1].2);
            } else if i + 1 == p {
                assert(y[i] == r[p - 1]);
            } else if i == p {
                assert(y[i + 1] == r[p]);
            } else {
                assert(y[i] == r[i - 1]);
                assert(y[i + 1] == r[i]);
                assert(r[i - 1].2 >= r[(i - 1) + 1].2);
            }
        }
    }
}

/// Ranking neither adds nor loses a scored file.
pub proof fn lemma_ranked_members(s: Seq<(Seq<char>, Seq<char>, int)>)
    ensures
        forall|e: (Seq<char>, Seq<char>, int)| ranked(s).contains(e) <==> s.contains(e),
    decreases s.len(),
{
    if s.len() > 0 {
        let s0 = s.drop_last();
        let r = ranked(s0);
        let x = s.last();
        lemma_ranked_members(s0);
        lemma_insert_pos(r, x);
        let p = insert_pos(r, x);
        r.insert_ensures(p, x);
        let y = r.insert(p, x);
        assert forall|e: (Seq<char>, Seq<char>, int)| y.contains(e) <==> s.contains(e) by {
            if y.contains(e) {
                let i = choose|i: int| 0 <= i < y.len() && y[i] == e;
                if i < p {
                    assert(r[i] == e);
                    assert(r.contains(e));
                    assert(s0.contains(e));
                    let j = choose|j: int| 0 <= j < s0.len() && s0[j] == e;
                    assert(s0[j] == s[j]);
                    assert(s[j] == e);
                } else if i == p {
                    assert(s[s.len() - 1] == e);
                } else {
                    assert(r[i - 1] == e);
                    assert(r.contains(e));
                    assert(s0.contains(e));
                    let j = choose|j: int| 0 <= j < s0.len() && s0[j] == e;
                    assert(s0[j] == s[j]);
                    assert(s[j] == e);
                }
            }
            if s.contains(e) {
                let j = choose|j: int| 0 <= j < s.len() && s[j] == e;
                if j == s.len() - 1 {
                    assert(y[p] == e);
                } else {
                    assert(s0[j] == e);
                    assert(s0.contains(e));
                    assert(r.contains(e));
                    let i = choose|i: int| 0 <= i < r.len() && r[i] == e;
                    if i < p {
                        assert(y[i] == e);
                    } else {
                        assert(y[i + 1] == e);
                    }
                }
            }
        }
    }
}

/// Orders scored files by score, highest first, keeping the order of equal
/// scores.
pub fn rank_matches(matches: &Vec<(AssetFile, usize)>) -> (r: Vec<(AssetFile, usize)>)
    ensures
        scored_views(r@) == ranked(scored_views(matches@)),
{
    let ghost sv = scored_views(matches@);
    let mut r: Vec<(AssetFile, usize)> = Vec::new();
    let mut i: usize = 0;
    assert(scored_views(r@) =~= ranked(sv.take(0)));
    while i < matches.len()
        invariant
            sv == scored_views(matches@),
            i <= matches@.len(),
            scored_views(r@) == ranked(sv.take(i as int)),
        decreases matches@.len() - i,
    {
        let item = (matches[i].0.copy(), matches[i].1);
        assert(sv.take(i + 1).drop_last() =~= sv.take(i as int));
        assert(scored_view(item) == sv[i as int]);
        insert_by_score(&mut r, item);
        i = i + 1;
    }
    assert(sv.take(matches@.len() as int) =~= sv);
    r
}

/// Every file of the corpus that matches the query, with its score, ordered
/// by score, highest first; equal scores keep the corpus order.
pub fn find_matching_images(text: &str, corpus: &Vec<AssetFile>) -> (r: Vec<(AssetFile, usize)>)
    ensures
        scored_views(r@) == ranked(discovered(normalized(text@), corpus_views(corpus@))),
        forall|i: int| 0 <= i < r@.len() - 1 ==> #[trigger] r@[i].1 >= r@[i + 1].1,
{
    let normalized_text = normalize_text(text);
    let ghost cv = corpus_views(corpus@);
    let mut found: Vec<(AssetFile, usize)> = Vec::new();
    let mut i: usize = 0;
    assert(scored_views(found@) =~= discovered(normalized_text@, cv.take(0)));
    while i < corpus.len()
        invariant
            cv == corpus_views(corpus@),
            i <= corpus@.len(),
            scored_views(found@) == discovered(normalized_text@, cv.take(i as int)),
        decreases corpus@.len() - i,
    {
        assert(cv.take(i + 1).drop_last() =~= cv.take(i as int));
        assert(cv[i as int] == corpus@[i as int]@);
        process_file(&corpus[i], normalized_text.as_str(), &mut found);
        i = i + 1;
    }
    assert(cv.take(corpus@.len() as int) =~= cv);
    let r = rank_matches(&found);
    proof {
        lemma_ranked_descending(scored_views(found@));
        assert forall|i: int| 0 <= i < r@.len() - 1 implies #[trigger] r@[i].1 >= r@[i + 1].1 by {
            assert(scored_views(r@)[i].2 >= scored_views(r@)[i + 1].2);
        }
    }
    r
}

/// The best-scoring file of the corpus for the query, if any matches; of
/// equal scores, the first in corpus order.
pub fn find_local_image(text: &str, corpus: &Vec<AssetFile>) -> (r: Option<AssetFile>)
    ensures
        ({
            let best = ranked(discovered(normalized(text@), corpus_views(corpus@)));
            match r {
                Some(f) => best.len() > 0 && f@ == (best[0].0, best[0].1),
                None => best.len() == 0,
            }
        }),
{
    let matches = find_matching_images(text, corpus);
    if matches.len() == 0 {
        None
    } else {
        assert(scored_views(matches@)[0] == scored_view(matches@[0]));
        Some(matches[0].0.copy())
    }
}

/// Some entry of a scored list is the given file.
pub open spec fn lists(r: Seq<(Seq<char>, Seq<char>, int)>, f: (Seq<char>, Seq<char>)) -> bool {
    exists|i: int| 0 <= i < r.len() && (#[trigger] r[i]).0 == f.0 && r[i].1 == f.1
}

/// The discovered entries are exactly the corpus files that score, each with
/// its score.
proof fn lemma_discovered_members(text: Seq<char>, corpus: Seq<(Seq<char>, Seq<char>)>)
    ensures
        forall|e: (Seq<char>, Seq<char>, int)|
            #[trigger] discovered(text, corpus).contains(e) <==> exists|j: int|
                0 <= j < corpus.len() && corpus[j] == (e.0, e.1) && file_score(text, e.1) == Some(
                    e.2,
                ),
    decreases corpus.len(),
{
    if corpus.len() > 0 {
        let c0 = corpus.drop_last();
        let d0 = discovered(text, c0);
        let d = discovered(text, corpus);
        lemma_discovered_members(text, c0);
        assert forall|e: (Seq<char>, Seq<char>, int)| #[trigger] d.contains(e) <==> exists|j: int|
            0 <= j < corpus.len() && corpus[j] == (e.0, e.1) && file_score(text, e.1) == Some(
                e.2,
            ) by {
            let last = corpus.last();
            if d.contains(e) {
                let i = choose|i: int| 0 <= i < d.len() && d[i] == e;
                if i < d0.len() {
                    assert(d0[i] == e);
                    assert(d0.contains(e));
                    let j = choose|j: int|
                        0 <= j < c0.len() && c0[j] == (e.0, e.1) && file_score(text, e.1) == Some(
                            e.2,
                        );
                    assert(corpus[j] == c0[j]);
                } else {
                    assert(corpus[corpus.len() - 1] == last);
                }
            }
            if exists|j: int|
                0 <= j < corpus.len() && corpus[j] == (e.0, e.1) && file_score(text, e.1) == Some(
                    e.2,
                ) {
                let j = choose|j: int|
                    0 <= j < corpus.len() && corpus[j] == (e.0, e.1) && file_score(text, e.1)
                        == Some(e.2);
                if j == corpus.len() - 1 {
                    assert(d[d.len() - 1] == e);
                } else {
                    assert(c0[j] == corpus[j]);
                    assert(d0.contains(e));
                    let i = choose|i: int| 0 <= i < d0.len() && d0[i] == e;
                    assert(d[i] == e);
                }
            }
        }
    }
}

/// A file whose stem normalizes to fewer than three characters is among the
/// matches of a query exactly when the normalized query equals its
/// normalized stem.
pub proof fn lemma_short_stem_exact(
    query: Seq<char>,
    corpus: Seq<(Seq<char>, Seq<char>)>,
    k: int,
)
    requires
        0 <= k < corpus.len(),
        0 < normalized(stem_of_name(corpus[k].1)).len() < SHORT_STEM_LEN,
    ensures
        lists(ranked(discovered(normalized(query), corpus)), corpus[k]) <==> normalized(query)
            == normalized(stem_of_name(corpus[k].1)),
{
    let nq = normalized(query);
    let d = discovered(nq, corpus);
    let r = ranked(d);
    let f = corpus[k];
    lemma_discovered_members(nq, corpus);
    lemma_ranked_members(d);
    if lists(r, f) {
        let i = choose|i: int| 0 <= i < r.len() && (#[trigger] r[i]).0 == f.0 && r[i].1 == f.1;
        let e = r[i];
        assert(r.contains(e));
        assert(d.contains(e));
    }
    if nq == normalized(stem_of_name(f.1)) {
        let e = (f.0, f.1, SHORT_EXACT_SCORE as int);
        assert(corpus[k] == (e.0, e.1));
        assert(d.contains(e));
        assert(r.contains(e));
        let i = choose|i: int| 0 <= i < r.len() && r[i] == e;
        assert(r[i].0 == f.0 && r[i].1 == f.1);
    }
}

/// No more words meet than there are.
proof fn lemma_hit_count_bound(fws: Seq<Seq<char>>, tws: Seq<Seq<char>>)
    ensures
        hit_count(fws, tws) <= fws.len(),
    decreases fws.len(),
{
    if fws.len() > 0 {
        lemma_hit_count_bound(fws.drop_last(), tws);
    }
}

/// A stem that stands inside the query, or holds it, outscores every stem
/// that matches by shared words alone.
pub proof fn lemma_containment_outranks_overlap(text: Seq<char>, a: Seq<char>, b: Seq<char>)
    requires
        contains(text, a) || contains(a, text),
        !(contains(text, b) || contains(b, text)),
        normal_score(text, b) is Some,
    ensures
        normal_score(text, a) is Some,
        normal_score(text, a)->0 > normal_score(text, b)->0,
{
    let h = hit_count(words(b), words(text));
    let n = words(b).len();
    lemma_hit_count_bound(words(b), words(text));
    let m: int = if n > 0 {
        n as int
    } else {
        1
    };
    assert(h <= m);
    assert((h * 100) as int / m <= 100) by (nonlinear_arith)
        requires
            h <= m,
            m >= 1,
    ;
}

} // verus!
