//! Canonical form of free text for comparison: lower case, letters, digits and
//! white space only, runs of white space collapsed to one space, trimmed.

use vstd::prelude::*;
use crate::text::{
    alnum_of, chars_of, is_alnum, is_white, join_with_spaces, join_words, lower_of, lowercase,
    scan, split_words, white_space, words,
};

verus! {

/// A character that normalization keeps.
pub open spec fn kept(c: char) -> bool {
    alnum_of(c) || white_space(c)
}

/// The kept characters of a text, in order.
pub open spec fn keep(s: Seq<char>) -> Seq<char>
    decreases s.len(),
{
    if s.len() == 0 {
        s
    } else if kept(s.last()) {
        keep(s.drop_last()).push(s.last())
    } else {
        keep(s.drop_last())
    }
}

/// Kept characters only, words joined by single spaces.
pub open spec fn tidy(s: Seq<char>) -> Seq<char> {
    join_words(words(keep(s)))
}

/// The normalized form of a text.
pub open spec fn normalized(text: Seq<char>) -> Seq<char> {
    tidy(lower_of(text))
}

/// Keeps letters, digits and white space, collapses each run of white space
/// into one space and trims both ends.
pub fn tidy_text(text: &str) -> (r: String)
    ensures
        r@ == tidy(text@),
{
    let chars = chars_of(text);
    let mut kept_chars: Vec<char> = Vec::new();
    let mut i: usize = 0;
    while i < chars.len()
        invariant
            i <= chars@.len(),
            kept_chars@ == keep(chars@.subrange(0, i as int)),
        decreases chars@.len() - i,
    {
        let c = chars[i];
        assert(chars@.subrange(0, i + 1).drop_last() =~= chars@.subrange(0, i as int));
        if is_alnum(c) || is_white(c) {
            kept_chars.push(c);
        }
        i = i + 1;
    }
    assert(chars@.subrange(0, chars@.len() as int) =~= chars@);
    let w = split_words(&kept_chars);
    join_with_spaces(&w)
}

/// Lower-cases, keeps letters, digits and white space, collapses each run of
/// white space into one space and trims both ends.
pub fn normalize_text(text: &str) -> (r: String)
    ensures
        r@ == normalized(text@),
{
    let lowered = lowercase(text);
    tidy_text(lowered.as_str())
}

/// Every character of `keep(s)` is kept.
proof fn lemma_keep_chars(s: Seq<char>)
    ensures
        forall|i: int| 0 <= i < keep(s).len() ==> kept(#[trigger] keep(s)[i]),
    decreases s.len(),
{
    if s.len() > 0 {
        let p = s.drop_last();
        lemma_keep_chars(p);
        assert forall|i: int| 0 <= i < keep(s).len() implies kept(#[trigger] keep(s)[i]) by {
            if i < keep(p).len() {
                assert(keep(s)[i] == keep(p)[i]);
            }
        }
    }
}

/// A text made of kept characters is its own `keep`.
proof fn lemma_keep_all(s: Seq<char>)
    requires
        forall|i: int| 0 <= i < s.len() ==> kept(#[trigger] s[i]),
    ensures
        keep(s) == s,
    decreases s.len(),
{
    if s.len() > 0 {
        lemma_keep_all(s.drop_last());
        assert(s.drop_last().push(s.last()) =~= s);
    }
}

/// The words read so far are non-empty and made of characters of `s` that
/// are not white space.
proof fn lemma_scan_shape(s: Seq<char>)
    ensures
        forall|i: int| 0 <= i < scan(s).0.len() ==> (#[trigger] scan(s).0[i]).len() > 0,
        forall|i: int, j: int|
            0 <= i < scan(s).0.len() && 0 <= j < scan(s).0[i].len() ==> !white_space(
                #[trigger] scan(s).0[i][j],
            ) && s.contains(scan(s).0[i][j]),
        forall|j: int|
            0 <= j < scan(s).1.len() ==> !white_space(#[trigger] scan(s).1[j]) && s.contains(
                scan(s).1[j],
            ),
    decreases s.len(),
{
    if s.len() > 0 {
        let p = s.drop_last();
        lemma_scan_shape(p);
        assert forall|c: char| p.contains(c) implies s.contains(c) by {
            let k = choose|k: int| 0 <= k < p.len() && p[k] == c;
            assert(s[k] == c);
        }
        assert(s[s.len() - 1] == s.last());
        let d0 = scan(p).0;
        let c0 = scan(p).1;
        let d = scan(s).0;
        let c = scan(s).1;
        assert forall|i: int| 0 <= i < d.len() implies (#[trigger] d[i]).len() > 0 && (forall|j: int|
            0 <= j < d[i].len() ==> !white_space(#[trigger] d[i][j]) && s.contains(d[i][j])) by {
            if i < d0.len() {
                assert(d[i] == d0[i]);
                assert forall|j: int| 0 <= j < d[i].len() implies !white_space(
                    #[trigger] d[i][j],
                ) && s.contains(d[i][j]) by {
                    assert(p.contains(d0[i][j]));
                }
            } else {
                assert(d[i] == c0);
                assert forall|j: int| 0 <= j < d[i].len() implies !white_space(
                    #[trigger] d[i][j],
                ) && s.contains(d[i][j]) by {
                    assert(p.contains(c0[j]));
                }
            }
        }
        assert forall|j: int| 0 <= j < c.len() implies !white_space(#[trigger] c[j]) && s.contains(
            c[j],
        ) by {
            if j < c0.len() {
                assert(c[j] == c0[j]);
                assert(p.contains(c0[j]));
            } else {
                assert(c[j] == s.last());
            }
        }
    }
}

/// The words of `s` are non-empty and made of characters of `s` that are
/// not white space.
proof fn lemma_words_shape(s: Seq<char>)
    ensures
        forall|i: int| 0 <= i < words(s).len() ==> (#[trigger] words(s)[i]).len() > 0,
        forall|i: int, j: int|
            0 <= i < words(s).len() && 0 <= j < words(s)[i].len() ==> !white_space(
                #[trigger] words(s)[i][j],
            ) && s.contains(words(s)[i][j]),
{
    lemma_scan_shape(s);
    let (done, cur) = scan(s);
    assert forall|i: int| 0 <= i < words(s).len() implies (#[trigger] words(s)[i]).len() > 0 by {
        if i < done.len() {
            assert(words(s)[i] == done[i]);
        }
    }
    assert forall|i: int, j: int|
        0 <= i < words(s).len() && 0 <= j < words(s)[i].len() implies !white_space(
            #[trigger] words(s)[i][j],
        ) && s.contains(words(s)[i][j]) by {
        if i < done.len() {
            assert(words(s)[i] == done[i]);
        } else {
            assert(words(s)[i] == cur);
        }
    }
}

/// Reading a run of characters that holds no white space extends the word
/// being read.
proof fn lemma_scan_append_run(a: Seq<char>, y: Seq<char>)
    requires
        forall|j: int| 0 <= j < y.len() ==> !white_space(#[trigger] y[j]),
    ensures
        scan(a + y) == (scan(a).0, scan(a).1 + y),
    decreases y.len(),
{
    if y.len() == 0 {
        assert(a + y =~= a);
        assert(scan(a).1 + y =~= scan(a).1);
    } else {
        let y0 = y.drop_last();
        lemma_scan_append_run(a, y0);
        assert((a + y).drop_last() =~= a + y0);
        assert((a + y).last() == y.last());
        assert(scan(a).1 + y0 + seq![y.last()] =~= scan(a).1 + y);
    }
}

/// Scanning words joined by spaces stops inside the last word.
proof fn lemma_scan_join(w: Seq<Seq<char>>)
    requires
        w.len() > 0,
        forall|i: int| 0 <= i < w.len() ==> (#[trigger] w[i]).len() > 0,
        forall|i: int, j: int|
            0 <= i < w.len() && 0 <= j < w[i].len() ==> !white_space(#[trigger] w[i][j]),
    ensures
        scan(join_words(w)) == (w.drop_last(), w.last()),
    decreases w.len(),
{
    if w.len() == 1 {
        let y = w[0];
        assert forall|j: int| 0 <= j < y.len() implies !white_space(#[trigger] y[j]) by {
            assert(!white_space(w[0][j]));
        }
        lemma_scan_append_run(Seq::empty(), y);
        assert(Seq::<char>::empty() + y =~= y);
        assert(Seq::<char>::empty() + y =~= y);
        assert(w.drop_last() =~= Seq::<Seq<char>>::empty());
    } else {
        let w0 = w.drop_last();
        assert forall|i: int| 0 <= i < w0.len() implies (#[trigger] w0[i]).len() > 0 by {
            assert(w0[i] == w[i]);
        }
        assert forall|i: int, j: int|
            0 <= i < w0.len() && 0 <= j < w0[i].len() implies !white_space(#[trigger] w0[i][j]) by {
            assert(w0[i] == w[i]);
        }
        lemma_scan_join(w0);
        let j0 = join_words(w0);
        let js = j0 + seq![' '];
        assert(js.drop_last() =~= j0);
        assert(js.last() == ' ');
        assert(w0.last() == w[w.len() - 2]);
        assert(w0.drop_last().push(w0.last()) =~= w0);
        assert(scan(js) == (w0, Seq::<char>::empty()));
        let y = w.last();
        assert forall|j: int| 0 <= j < y.len() implies !white_space(#[trigger] y[j]) by {
            assert(!white_space(w[w.len() - 1][j]));
        }
        lemma_scan_append_run(js, y);
        assert(Seq::<char>::empty() + y =~= y);
    }
}

/// Splitting words that were joined by spaces gives the words back.
proof fn lemma_words_of_join(w: Seq<Seq<char>>)
    requires
        forall|i: int| 0 <= i < w.len() ==> (#[trigger] w[i]).len() > 0,
        forall|i: int, j: int|
            0 <= i < w.len() && 0 <= j < w[i].len() ==> !white_space(#[trigger] w[i][j]),
    ensures
        words(join_words(w)) == w,
{
    if w.len() == 0 {
        assert(words(join_words(w)) =~= w);
    } else {
        lemma_scan_join(w);
        assert(w.drop_last().push(w.last()) =~= w);
    }
}

/// Joining words made of kept characters gives a text of kept characters.
proof fn lemma_join_kept(w: Seq<Seq<char>>)
    requires
        forall|i: int, j: int| 0 <= i < w.len() && 0 <= j < w[i].len() ==> kept(#[trigger] w[i][j]),
    ensures
        forall|k: int| 0 <= k < join_words(w).len() ==> kept(#[trigger] join_words(w)[k]),
    decreases w.len(),
{
    if w.len() == 1 {
        assert forall|k: int| 0 <= k < join_words(w).len() implies kept(#[trigger] join_words(w)[k]) by {
            assert(kept(w[0][k]));
        }
    } else if w.len() > 1 {
        let w0 = w.drop_last();
        assert forall|i: int, j: int| 0 <= i < w0.len() && 0 <= j < w0[i].len() implies kept(
            #[trigger] w0[i][j],
        ) by {
            assert(w0[i] == w[i]);
        }
        lemma_join_kept(w0);
        let j0 = join_words(w0);
        let last = w.last();
        assert forall|k: int| 0 <= k < join_words(w).len() implies kept(#[trigger] join_words(w)[k]) by {
            if k < j0.len() {
                assert(join_words(w)[k] == j0[k]);
            } else if k == j0.len() {
                assert(join_words(w)[k] == ' ');
            } else {
                assert(join_words(w)[k] == last[k - j0.len() - 1]);
                assert(kept(w[w.len() - 1][k - j0.len() - 1]));
            }
        }
    }
}

/// Tidying a tidy text changes nothing.
pub proof fn lemma_tidy_idempotent(s: Seq<char>)
    ensures
        tidy(tidy(s)) == tidy(s),
{
    let k = keep(s);
    let w = words(k);
    lemma_keep_chars(s);
    lemma_words_shape(k);
    assert forall|i: int, j: int| 0 <= i < w.len() && 0 <= j < w[i].len() implies kept(
        #[trigger] w[i][j],
    ) by {
        assert(k.contains(w[i][j]));
        let m = choose|m: int| 0 <= m < k.len() && k[m] == w[i][j];
        assert(kept(k[m]));
    }
    lemma_join_kept(w);
    lemma_keep_all(join_words(w));
    lemma_words_of_join(w);
}

/// Normalizing twice gives what normalizing once gives, wherever lower-casing
/// leaves a normalized text unchanged (as it does for the lower-case letters,
/// digits and spaces that make one up).
pub proof fn lemma_normalize_idempotent(x: Seq<char>)
    requires
        lower_of(normalized(x)) == normalized(x),
    ensures
        normalized(normalized(x)) == normalized(x),
{
    lemma_tidy_idempotent(lower_of(x));
}

} // verus!
