//! Byte ranges of a text, and what it means for them to lie end to end.

use vstd::prelude::*;
use vstd::utf8::is_char_boundary;

verus! {

/// The byte range `start..end` of a text, marked with a kind.
#[derive(Clone, Copy, Debug, PartialEq, Eq)]
pub struct Span<K> {
    pub start: usize,
    pub end: usize,
    pub kind: K,
}

/// The spans lie end to end from `from` to `to`: the first starts at `from`,
/// each next one where the one before ended, and the last ends at `to`.
pub open spec fn covers<K>(spans: Seq<Span<K>>, from: int, to: int) -> bool {
    &&& forall|i: int| 0 <= i < spans.len() ==> (#[trigger] spans[i]).start <= spans[i].end
    &&& forall|i: int, j: int|
        0 <= i && j == i + 1 && j < spans.len() ==> (#[trigger] spans[i]).end == (
        #[trigger] spans[j]).start
    &&& if spans.len() == 0 {
        from == to
    } else {
        spans[0].start == from && spans.last().end == to
    }
}

/// No span is empty.
pub open spec fn all_nonempty<K>(spans: Seq<Span<K>>) -> bool {
    forall|i: int| 0 <= i < spans.len() ==> (#[trigger] spans[i]).start < spans[i].end
}

/// Every span starts and ends where a character of the text begins, or at
/// the end of the text: none cuts a character in two.
pub open spec fn on_char_boundaries<K>(bytes: Seq<u8>, spans: Seq<Span<K>>) -> bool {
    forall|i: int|
        0 <= i < spans.len() ==> is_char_boundary(bytes, (#[trigger] spans[i]).start as int)
            && is_char_boundary(bytes, spans[i].end as int)
}

/// Spans that lie end to end up to `mid`, followed by spans that lie end to
/// end from `mid`, lie end to end.
pub proof fn lemma_covers_concat<K>(
    left: Seq<Span<K>>,
    right: Seq<Span<K>>,
    from: int,
    mid: int,
    to: int,
)
    requires
        covers(left, from, mid),
        covers(right, mid, to),
    ensures
        covers(left + right, from, to),
{
    let all = left + right;
    assert forall|i: int| 0 <= i < all.len() implies (#[trigger] all[i]).start <= all[i].end by {
        if i < left.len() {
            assert(all[i] == left[i]);
        } else {
            assert(all[i] == right[i - left.len()]);
        }
    }
    assert forall|i: int, j: int| 0 <= i && j == i + 1 && j < all.len() implies (#[trigger] all[i]).end
        == (#[trigger] all[j]).start by {
        if j < left.len() {
            assert(all[i] == left[i] && all[j] == left[j]);
        } else if i < left.len() {
            assert(all[i] == left.last() && all[j] == right[0]);
        } else {
            assert(all[i] == right[i - left.len()] && all[j] == right[j - left.len()]);
        }
    }
    if all.len() > 0 {
        if left.len() == 0 {
            assert(all =~= right);
        } else if right.len() == 0 {
            assert(all =~= left);
        } else {
            assert(all[0] == left[0]);
            assert(all.last() == right.last());
        }
    }
}

/// Of two or more spans that lie end to end, all but the last lie end to end
/// up to where the last begins.
pub proof fn lemma_covers_front<K>(spans: Seq<Span<K>>, from: int, to: int)
    requires
        covers(spans, from, to),
        spans.len() > 1,
    ensures
        covers(spans.drop_last(), from, spans.last().start as int),
{
    let last = spans.len() - 1;
    let front = spans.drop_last();
    assert(spans[last - 1].end == spans[last].start);
    assert forall|i: int, j: int| 0 <= i && j == i + 1 && j < front.len() implies (
    #[trigger] front[i]).end == (#[trigger] front[j]).start by {
        assert(front[i] == spans[i] && front[j] == spans[j]);
    }
}

/// Spans that lie end to end from `from` to `to` stay between the two, and
/// every byte between the two lies in exactly one of them.
pub proof fn lemma_covers_each_byte<K>(spans: Seq<Span<K>>, from: int, to: int, byte: int)
    requires
        covers(spans, from, to),
        from <= byte < to,
    ensures
        exists|i: int| 0 <= i < spans.len() && (#[trigger] spans[i]).start <= byte < spans[i].end,
        forall|i: int, j: int|
            0 <= i < spans.len() && 0 <= j < spans.len() && (#[trigger] spans[i]).start <= byte
                < spans[i].end && (#[trigger] spans[j]).start <= byte < spans[j].end ==> i == j,
    decreases spans.len(),
{
    lemma_covers_ordered(spans, from, to);
    if spans.len() > 0 {
        let last = spans.len() - 1;
        if spans[last].start <= byte {
            assert(spans[last].start <= byte < spans[last].end);
        } else {
            let front = spans.drop_last();
            assert(front.len() > 0);
            lemma_covers_front(spans, from, to);
            lemma_covers_each_byte(front, from, spans[last].start as int, byte);
            let i = choose|i: int|
                0 <= i < front.len() && (#[trigger] front[i]).start <= byte < front[i].end;
            assert(spans[i] == front[i]);
        }
    }
}

/// Spans that lie end to end are in order: one that comes earlier in the list
/// ends at or before the start of one that comes later.
pub proof fn lemma_covers_ordered<K>(spans: Seq<Span<K>>, from: int, to: int)
    requires
        covers(spans, from, to),
    ensures
        forall|i: int, j: int|
            0 <= i < j < spans.len() ==> (#[trigger] spans[i]).end <= (#[trigger] spans[j]).start,
        forall|i: int| 0 <= i < spans.len() ==> from <= (#[trigger] spans[i]).start,
        forall|i: int| 0 <= i < spans.len() ==> (#[trigger] spans[i]).end <= to,
    decreases spans.len(),
{
    if spans.len() > 1 {
        let last = spans.len() - 1;
        let front = spans.drop_last();
        lemma_covers_front(spans, from, to);
        lemma_covers_ordered(front, from, spans[last].start as int);
        assert forall|i: int, j: int| 0 <= i < j < spans.len() implies (#[trigger] spans[i]).end <= (
        #[trigger] spans[j]).start by {
            assert(spans[i] == front[i]);
            if j < last {
                assert(spans[j] == front[j]);
            }
        }
        assert forall|i: int| 0 <= i < spans.len() implies from <= (#[trigger] spans[i]).start by {
            if i < last {
                assert(spans[i] == front[i]);
            }
        }
        assert forall|i: int| 0 <= i < spans.len() implies (#[trigger] spans[i]).end <= to by {
            if i < last {
                assert(spans[i] == front[i]);
            }
        }
    }
}

} // verus!
