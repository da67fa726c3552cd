//! Grapheme-cluster and word segmentation of text, as computed by the
//! `unicode-segmentation` crate (UAX #29), and the navigation decisions
//! taken over the segment offsets it reports.
use unicode_segmentation::UnicodeSegmentation;
use vstd::prelude::*;

use crate::utf8_model::{is_boundary, utf8_len};

verus! {

/// Byte offsets at which the extended grapheme clusters of a text start, in
/// the order `UnicodeSegmentation::grapheme_indices(text, true)` yields them.
pub uninterp spec fn grapheme_starts(text: Seq<char>) -> Seq<usize>;

/// `(start, byte length)` of each word of a text, in the order
/// `UnicodeSegmentation::unicode_word_indices` yields them.
pub uninterp spec fn word_spans(text: Seq<char>) -> Seq<(usize, usize)>;

/// Every reported grapheme start is a character boundary inside the text.
pub open spec fn grapheme_starts_in_text(text: Seq<char>, starts: Seq<usize>) -> bool {
    forall|i: int|
        0 <= i < starts.len() ==> is_boundary(text, #[trigger] starts[i] as int) && starts[i]
            < utf8_len(text)
}

/// The starts come in strictly increasing order.
pub open spec fn strictly_increasing(starts: Seq<usize>) -> bool {
    forall|i: int, j: int| 0 <= i < j < starts.len() ==> starts[i] < starts[j]
}

/// Words come in order of strictly increasing start, and none is empty.
pub open spec fn words_ordered(spans: Seq<(usize, usize)>) -> bool {
    &&& forall|i: int, j: int| 0 <= i < j < spans.len() ==> spans[i].0 < spans[j].0
    &&& forall|i: int| 0 <= i < spans.len() ==> (#[trigger] spans[i]).1 > 0
}

/// Every reported word is a slice of the text between two character boundaries.
pub open spec fn word_spans_in_text(text: Seq<char>, spans: Seq<(usize, usize)>) -> bool {
    forall|i: int|
        0 <= i < spans.len() ==> {
            &&& is_boundary(text, (#[trigger] spans[i]).0 as int)
            &&& is_boundary(text, spans[i].0 + spans[i].1)
            &&& spans[i].0 + spans[i].1 <= utf8_len(text)
        }
}

/// Start offsets of the extended grapheme clusters of `text`.
///
/// Calls `UnicodeSegmentation::grapheme_indices(text, true)` and keeps the
/// offsets. Each offset is that of a subslice of `text`, so it is a
/// character boundary strictly inside the text; the clusters are yielded
/// front to back and none is empty, so the offsets strictly increase. The
/// segmentation itself (UAX #29) is named, not stated.
#[verifier::external_body]
pub(crate) fn grapheme_start_offsets(text: &str) -> (v: Vec<usize>)
    ensures
        v@ == grapheme_starts(text@),
        grapheme_starts_in_text(text@, v@),
        strictly_increasing(v@),
{
    text.grapheme_indices(true).map(|(idx, _)| idx).collect()
}

/// `(start, byte length)` of each word of `text`.
///
/// Calls `UnicodeSegmentation::unicode_word_indices(text)` and keeps each
/// word's offset and length. Each word is a subslice of `text`, so both of
/// its ends are character boundaries within the text. The words are the
/// non-empty segments between word boundaries that hold a letter or digit,
/// yielded front to back, so they are not empty and their starts strictly
/// increase. Which substrings count as words (UAX #29) is named, not stated.
#[verifier::external_body]
pub(crate) fn word_offsets(text: &str) -> (v: Vec<(usize, usize)>)
    ensures
        v@ == word_spans(text@),
        word_spans_in_text(text@, v@),
        words_ordered(v@),
{
    text.unicode_word_indices().map(|(idx, word)| (idx, word.len())).collect()
}

/// The last start (in order) that lies strictly before `s`, or 0.
pub open spec fn last_start_before(starts: Seq<usize>, s: int) -> int
    decreases starts.len(),
{
    if starts.len() == 0 {
        0
    } else if starts.last() < s {
        starts.last() as int
    } else {
        last_start_before(starts.drop_last(), s)
    }
}

/// The first start (in order) that lies strictly after `s`, or `end`.
pub open spec fn first_start_after(starts: Seq<usize>, s: int, end: int) -> int
    decreases starts.len(),
{
    if starts.len() == 0 {
        end
    } else if starts[0] > s {
        starts[0] as int
    } else {
        first_start_after(starts.drop_first(), s, end)
    }
}

/// The start of the word that contains or precedes `s`: words are visited in
/// order, each word that ends at or before `s`, or starts before it, becomes
/// the candidate; the walk stops at the first word that does neither.
pub open spec fn word_start_before(spans: Seq<(usize, usize)>, s: int, last: int) -> int
    decreases spans.len(),
{
    if spans.len() == 0 {
        last
    } else if spans[0].0 + spans[0].1 <= s || spans[0].0 < s {
        word_start_before(spans.drop_first(), s, spans[0].0 as int)
    } else {
        last
    }
}

/// The start of the first word that starts strictly after `s`, or `end`.
pub open spec fn word_start_after(spans: Seq<(usize, usize)>, s: int, end: int) -> int
    decreases spans.len(),
{
    if spans.len() == 0 {
        end
    } else if spans[0].0 > s {
        spans[0].0 as int
    } else {
        word_start_after(spans.drop_first(), s, end)
    }
}

/// The last grapheme start strictly before `start`, or 0 when there is none.
pub fn previous_start(starts: &[usize], start: usize) -> (r: usize)
    ensures
        r == last_start_before(starts@, start as int),
{
    let mut i = starts.len();
    assert(starts@.take(i as int) =~= starts@);
    while i > 0
        invariant
            i <= starts@.len(),
            last_start_before(starts@, start as int) == last_start_before(
                starts@.take(i as int),
                start as int,
            ),
        decreases i,
    {
        let ghost t = starts@.take(i as int);
        assert(t.drop_last() =~= starts@.take(i - 1));
        if starts[i - 1] < start {
            return starts[i - 1];
        }
        i = i - 1;
    }
    0
}

/// The first grapheme start strictly after `start`, or `end` when there is none.
pub fn next_start(starts: &[usize], start: usize, end: usize) -> (r: usize)
    ensures
        r == first_start_after(starts@, start as int, end as int),
{
    let mut i: usize = 0;
    assert(starts@.skip(0) =~= starts@);
    while i < starts.len()
        invariant
            i <= starts@.len(),
            first_start_after(starts@, start as int, end as int) == first_start_after(
                starts@.skip(i as int),
                start as int,
                end as int,
            ),
        decreases starts@.len() - i,
    {
        let ghost t = starts@.skip(i as int);
        assert(t.drop_first() =~= starts@.skip(i + 1));
        if starts[i] > start {
            return starts[i];
        }
        i = i + 1;
    }
    assert(starts@.skip(i as int) =~= Seq::<usize>::empty());
    end
}

/// The start of the word containing or preceding `start`, or 0.
pub fn previous_word_start(spans: &[(usize, usize)], start: usize) -> (r: usize)
    requires
        forall|i: int| 0 <= i < spans@.len() ==> (#[trigger] spans@[i]).0 + spans@[i].1 <= usize::MAX,
    ensures
        r == word_start_before(spans@, start as int, 0),
{
    let mut last: usize = 0;
    let mut i: usize = 0;
    assert(spans@.skip(0) =~= spans@);
    while i < spans.len()
        invariant
            i <= spans@.len(),
            forall|j: int| 0 <= j < spans@.len() ==> (#[trigger] spans@[j]).0 + spans@[j].1 <= usize::MAX,
            word_start_before(spans@, start as int, 0) == word_start_before(
                spans@.skip(i as int),
                start as int,
                last as int,
            ),
        decreases spans@.len() - i,
    {
        let ghost t = spans@.skip(i as int);
        assert(t.drop_first() =~= spans@.skip(i + 1));
        assert(t[0] == spans@[i as int]);
        let (idx, len) = spans[i];
        let end = idx + len;
        if end <= start {
            last = idx;
        } else if idx < start {
            last = idx;
        } else {
            return last;
        }
        i = i + 1;
    }
    assert(spans@.skip(i as int) =~= Seq::<(usize, usize)>::empty());
    last
}

/// The start of the first word that starts strictly after `start`, or `end`.
pub fn next_word_start(spans: &[(usize, usize)], start: usize, end: usize) -> (r: usize)
    ensures
        r == word_start_after(spans@, start as int, end as int),
{
    let mut i: usize = 0;
    assert(spans@.skip(0) =~= spans@);
    while i < spans.len()
        invariant
            i <= spans@.len(),
            word_start_after(spans@, start as int, end as int) == word_start_after(
                spans@.skip(i as int),
                start as int,
                end as int,
            ),
        decreases spans@.len() - i,
    {
        let ghost t = spans@.skip(i as int);
        assert(t.drop_first() =~= spans@.skip(i + 1));
        assert(t[0] == spans@[i as int]);
        if spans[i].0 > start {
            return spans[i].0;
        }
        i = i + 1;
    }
    assert(spans@.skip(i as int) =~= Seq::<(usize, usize)>::empty());
    end
}

/// What `last_start_before` returns is one of the starts, or 0, and lies before `s` when `s > 0`.
pub proof fn lemma_last_start_before(starts: Seq<usize>, s: int)
    ensures
        last_start_before(starts, s) == 0 || exists|i: int|
            0 <= i < starts.len() && starts[i] == last_start_before(starts, s),
        s > 0 ==> last_start_before(starts, s) < s,
        s <= 0 ==> last_start_before(starts, s) == 0,
    decreases starts.len(),
{
    if starts.len() > 0 {
        lemma_last_start_before(starts.drop_last(), s);
        if !(starts.last() < s) {
            let r = last_start_before(starts.drop_last(), s);
            if r != 0 {
                let i = choose|i: int| 0 <= i < starts.drop_last().len() && starts.drop_last()[i] == r;
                assert(starts[i] == r);
            }
        }
    }
}

/// What `first_start_after` returns is one of the starts, or `end`, and lies after `s`.
pub proof fn lemma_first_start_after(starts: Seq<usize>, s: int, end: int)
    ensures
        first_start_after(starts, s, end) == end || exists|i: int|
            0 <= i < starts.len() && starts[i] == first_start_after(starts, s, end),
        first_start_after(starts, s, end) == end || first_start_after(starts, s, end) > s,
    decreases starts.len(),
{
    if starts.len() > 0 && !(starts[0] > s) {
        lemma_first_start_after(starts.drop_first(), s, end);
        let r = first_start_after(starts.drop_first(), s, end);
        if r != end {
            let i = choose|i: int| 0 <= i < starts.drop_first().len() && starts.drop_first()[i] == r;
            assert(starts[i + 1] == r);
        }
    }
}

/// What `word_start_before` returns is the start of one of the words, or the
/// initial candidate, and never lies after `s` when the candidate does not.
pub proof fn lemma_word_start_before(spans: Seq<(usize, usize)>, s: int, last: int)
    requires
        last <= s,
    ensures
        word_start_before(spans, s, last) == last || exists|i: int|
            0 <= i < spans.len() && spans[i].0 == word_start_before(spans, s, last),
        word_start_before(spans, s, last) <= s,
    decreases spans.len(),
{
    if spans.len() > 0 && (spans[0].0 + spans[0].1 <= s || spans[0].0 < s) {
        lemma_word_start_before(spans.drop_first(), s, spans[0].0 as int);
        let r = word_start_before(spans.drop_first(), s, spans[0].0 as int);
        if r != spans[0].0 {
            let i = choose|i: int| 0 <= i < spans.drop_first().len() && spans.drop_first()[i].0 == r;
            assert(spans[i + 1].0 == r);
        }
    }
}

/// What `word_start_after` returns is the start of one of the words, or `end`, and lies after `s`.
pub proof fn lemma_word_start_after(spans: Seq<(usize, usize)>, s: int, end: int)
    ensures
        word_start_after(spans, s, end) == end || exists|i: int|
            0 <= i < spans.len() && spans[i].0 == word_start_after(spans, s, end),
        word_start_after(spans, s, end) == end || word_start_after(spans, s, end) > s,
    decreases spans.len(),
{
    if spans.len() > 0 && !(spans[0].0 > s) {
        lemma_word_start_after(spans.drop_first(), s, end);
        let r = word_start_after(spans.drop_first(), s, end);
        if r != end {
            let i = choose|i: int| 0 <= i < spans.drop_first().len() && spans.drop_first()[i].0 == r;
            assert(spans[i + 1].0 == r);
        }
    }
}

/// Among increasing starts, `first_start_after` is the least start after `s`.
pub proof fn lemma_first_start_after_least(starts: Seq<usize>, s: int, end: int)
    requires
        strictly_increasing(starts),
    ensures
        forall|i: int|
            0 <= i < starts.len() && #[trigger] starts[i] > s ==> starts[i] >= first_start_after(starts, s, end),
    decreases starts.len(),
{
    if starts.len() > 0 {
        if starts[0] > s {
            assert forall|i: int| 0 <= i < starts.len() && #[trigger] starts[i] > s implies starts[i] >= starts[0] by {
                if i > 0 {
                    assert(starts[0] < starts[i]);
                }
            }
        } else {
            let d = starts.drop_first();
            assert forall|i: int, j: int| 0 <= i < j < d.len() implies d[i] < d[j] by {
                assert(starts[i + 1] < starts[j + 1]);
            }
            lemma_first_start_after_least(d, s, end);
            assert forall|i: int| 0 <= i < starts.len() && #[trigger] starts[i] > s implies starts[i]
                >= first_start_after(starts, s, end) by {
                if i > 0 {
                    assert(starts[i] == d[i - 1]);
                }
            }
        }
    }
}

/// Among increasing starts, `last_start_before` is the greatest start before
/// `s` (or 0 when there is none).
pub proof fn lemma_last_start_before_greatest(starts: Seq<usize>, s: int)
    requires
        strictly_increasing(starts),
    ensures
        forall|i: int| 0 <= i < starts.len() && #[trigger] starts[i] < s ==> starts[i] <= last_start_before(starts, s),
    decreases starts.len(),
{
    if starts.len() > 0 {
        let n = starts.len() - 1;
        if starts.last() < s {
            assert forall|i: int| 0 <= i < starts.len() && #[trigger] starts[i] < s implies starts[i] <= starts[n] by {
                if i < n {
                    assert(starts[i] < starts[n]);
                }
            }
        } else {
            let d = starts.drop_last();
            assert forall|i: int, j: int| 0 <= i < j < d.len() implies d[i] < d[j] by {
                assert(starts[i] < starts[j]);
            }
            lemma_last_start_before_greatest(d, s);
            assert forall|i: int| 0 <= i < starts.len() && #[trigger] starts[i] < s implies starts[i]
                <= last_start_before(starts, s) by {
                if i < n {
                    assert(starts[i] == d[i]);
                }
            }
        }
    }
}

/// Among ordered words, `word_start_after` is the least word start after `s`.
pub proof fn lemma_word_start_after_least(spans: Seq<(usize, usize)>, s: int, end: int)
    requires
        words_ordered(spans),
    ensures
        forall|i: int|
            0 <= i < spans.len() && #[trigger] spans[i].0 > s ==> spans[i].0 >= word_start_after(spans, s, end),
    decreases spans.len(),
{
    if spans.len() > 0 {
        if spans[0].0 > s {
            assert forall|i: int| 0 <= i < spans.len() && #[trigger] spans[i].0 > s implies spans[i].0
                >= spans[0].0 by {
                if i > 0 {
                    assert(spans[0].0 < spans[i].0);
                }
            }
        } else {
            let d = spans.drop_first();
            assert forall|i: int, j: int| 0 <= i < j < d.len() implies d[i].0 < d[j].0 by {
                assert(spans[i + 1].0 < spans[j + 1].0);
            }
            assert forall|i: int| 0 <= i < d.len() implies (#[trigger] d[i]).1 > 0 by {
                assert(d[i] == spans[i + 1]);
            }
            lemma_word_start_after_least(d, s, end);
            assert forall|i: int| 0 <= i < spans.len() && #[trigger] spans[i].0 > s implies spans[i].0
                >= word_start_after(spans, s, end) by {
                if i > 0 {
                    assert(spans[i] == d[i - 1]);
                }
            }
        }
    }
}

/// Among ordered words, `word_start_before` from a candidate `last` (no word
/// starting before it) is the greatest word start before `s`, or `last`.
pub proof fn lemma_word_start_before_greatest(spans: Seq<(usize, usize)>, s: int, last: int)
    requires
        words_ordered(spans),
        forall|i: int| 0 <= i < spans.len() ==> (#[trigger] spans[i]).0 >= last,
    ensures
        word_start_before(spans, s, last) >= last,
        last < s ==> word_start_before(spans, s, last) < s,
        forall|i: int|
            0 <= i < spans.len() && #[trigger] spans[i].0 < s ==> spans[i].0 <= word_start_before(spans, s, last),
    decreases spans.len(),
{
    if spans.len() > 0 {
        if spans[0].0 + spans[0].1 <= s || spans[0].0 < s {
            assert(spans[0].1 > 0);
            let d = spans.drop_first();
            assert forall|i: int, j: int| 0 <= i < j < d.len() implies d[i].0 < d[j].0 by {
                assert(spans[i + 1].0 < spans[j + 1].0);
            }
            assert forall|i: int| 0 <= i < d.len() implies (#[trigger] d[i]).1 > 0 by {
                assert(d[i] == spans[i + 1]);
            }
            assert forall|i: int| 0 <= i < d.len() implies (#[trigger] d[i]).0 >= spans[0].0 by {
                assert(d[i] == spans[i + 1]);
                assert(spans[0].0 < spans[i + 1].0);
            }
            lemma_word_start_before_greatest(d, s, spans[0].0 as int);
            assert forall|i: int| 0 <= i < spans.len() && #[trigger] spans[i].0 < s implies spans[i].0
                <= word_start_before(spans, s, last) by {
                if i > 0 {
                    assert(spans[i] == d[i - 1]);
                }
            }
        } else {
            assert forall|i: int| 0 <= i < spans.len() && #[trigger] spans[i].0 < s implies spans[i].0
                <= last by {
                if i > 0 {
                    assert(spans[0].0 < spans[i].0);
                }
            }
        }
    }
}

} // verus!
