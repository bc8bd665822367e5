//! Search highlighting: which byte ranges of a text match a query, ignoring
//! case. The text is compared in lowercase, character by character, and what
//! matches is marked in the text itself: a character is highlighted as a
//! whole where any part of its lowercase form lies in a match.

use crate::span::{all_nonempty, covers, lemma_covers_concat, on_char_boundaries, Span};
use vstd::prelude::*;
use vstd::std_specs::iter::IteratorSpec;
use vstd::string::StrSliceExecFns;
use vstd::utf8::{
    encode_scalar, encode_utf8, encode_utf8_first_scalar, encode_utf8_valid_utf8, is_char_boundary,
    is_char_boundary_start_end_of_seq, length_of_first_scalar, pop_first_scalar, valid_utf8,
};

verus! {

/// How a section of text is drawn.
#[derive(Clone, Copy, Debug, PartialEq, Eq, Structural)]
pub enum SectionStyle {
    /// Drawn in the text's own colour.
    Plain,
    /// Drawn as a search match.
    Highlighted,
}

/// A byte range of a text and the style it is drawn in.
pub type LayoutSection = Span<SectionStyle>;

/// One character of a text as the search sees it.
#[derive(Debug, PartialEq, Eq)]
pub struct Piece {
    /// How many bytes the character takes in the text.
    pub width: usize,
    /// The bytes that the character is compared by: those of its lowercase
    /// form.
    pub lowered: Vec<u8>,
}

/// The mathematical form of a [`Piece`].
pub struct PieceView {
    pub width: nat,
    pub lowered: Seq<u8>,
}

impl View for Piece {
    type V = PieceView;

    open spec fn view(&self) -> PieceView {
        PieceView { width: self.width as nat, lowered: self.lowered@ }
    }
}

/// The views of the pieces of a list.
pub open spec fn piece_views(pieces: Seq<Piece>) -> Seq<PieceView> {
    Seq::new(pieces.len(), |i: int| pieces[i]@)
}

/// The plain section `start..end`.
pub open spec fn plain(start: int, end: int) -> LayoutSection {
    Span { start: start as usize, end: end as usize, kind: SectionStyle::Plain }
}

/// The highlighted section `start..end`.
pub open spec fn highlighted(start: int, end: int) -> LayoutSection {
    Span { start: start as usize, end: end as usize, kind: SectionStyle::Highlighted }
}

/// The plain section between two matches: nothing where they touch.
pub open spec fn gap(start: int, end: int) -> Seq<LayoutSection> {
    if start < end {
        seq![plain(start, end)]
    } else {
        Seq::empty()
    }
}

/// `needle` stands in `hay` at position `at`.
pub open spec fn occurs_at(hay: Seq<u8>, needle: Seq<u8>, at: int) -> bool {
    &&& 0 <= at
    &&& at + needle.len() <= hay.len()
    &&& hay.subrange(at, at + needle.len()) =~= needle
}

/// The first position at or after `from` where `needle` stands in `hay`.
pub open spec fn first_occurrence(hay: Seq<u8>, needle: Seq<u8>, from: int) -> Option<int>
    decreases hay.len() - from,
{
    if from < 0 || from + needle.len() > hay.len() {
        None
    } else if occurs_at(hay, needle, from) {
        Some(from)
    } else {
        first_occurrence(hay, needle, from + 1)
    }
}

/// What `first_occurrence` finds is an occurrence at or after `from`, and the
/// earliest one; where it finds nothing there is none.
pub proof fn lemma_first_occurrence(hay: Seq<u8>, needle: Seq<u8>, from: int)
    requires
        0 <= from,
    ensures
        match first_occurrence(hay, needle, from) {
            Some(at) => {
                &&& from <= at
                &&& occurs_at(hay, needle, at)
                &&& forall|p: int| from <= p < at ==> !occurs_at(hay, needle, p)
            },
            None => forall|p: int| from <= p ==> !occurs_at(hay, needle, p),
        },
    decreases hay.len() - from,
{
    if from + needle.len() > hay.len() {
    } else if occurs_at(hay, needle, from) {
    } else {
        lemma_first_occurrence(hay, needle, from + 1);
    }
}

/// The byte of the text at which its character `i` begins: the widths of the
/// characters before it, added up.
pub open spec fn offset(pieces: Seq<PieceView>, i: int) -> int
    decreases i,
{
    if i <= 0 {
        0
    } else {
        offset(pieces, i - 1) + pieces[i - 1].width
    }
}

/// The lowercase forms of the first `i` characters, one after the other.
pub open spec fn folded_upto(pieces: Seq<PieceView>, i: int) -> Seq<u8>
    decreases i,
{
    if i <= 0 {
        Seq::empty()
    } else {
        folded_upto(pieces, i - 1) + pieces[i - 1].lowered
    }
}

/// The lowercase form of the whole text.
pub open spec fn folded(pieces: Seq<PieceView>) -> Seq<u8> {
    folded_upto(pieces, pieces.len() as int)
}

/// The byte of the lowercase text at which the lowercase form of the text's
/// character `i` begins.
pub open spec fn start(pieces: Seq<PieceView>, i: int) -> int {
    folded_upto(pieces, i).len() as int
}

/// The last of the first `count` characters whose lowercase form begins at
/// or before the byte `at` of the lowercase text.
pub open spec fn origin_below(pieces: Seq<PieceView>, at: int, count: int) -> int
    decreases count,
{
    if count <= 1 {
        0
    } else if start(pieces, count - 1) <= at {
        count - 1
    } else {
        origin_below(pieces, at, count - 1)
    }
}

/// The character of the text from whose lowercase form the byte `at` of the
/// lowercase text comes.
pub open spec fn origin(pieces: Seq<PieceView>, at: int) -> int {
    origin_below(pieces, at, pieces.len() as int)
}

/// Offsets and starts grow with the characters.
pub proof fn lemma_grows(pieces: Seq<PieceView>, i: int, j: int)
    requires
        0 <= i <= j,
    ensures
        0 <= offset(pieces, i) <= offset(pieces, j),
        0 <= start(pieces, i) <= start(pieces, j),
    decreases j,
{
    if i < j {
        lemma_grows(pieces, i, j - 1);
    } else if 0 < j {
        lemma_grows(pieces, i - 1, j - 1);
    }
}

/// Where every width is positive, a later character begins at a later byte.
pub proof fn lemma_offsets_rise(pieces: Seq<PieceView>, i: int, j: int)
    requires
        0 <= i < j <= pieces.len(),
        forall|k: int| 0 <= k < pieces.len() ==> (#[trigger] pieces[k]).width > 0,
    ensures
        offset(pieces, i) < offset(pieces, j),
    decreases j,
{
    if i < j - 1 {
        lemma_offsets_rise(pieces, i, j - 1);
    }
}

/// The origin of a byte is one of the first `count` characters, and its
/// lowercase form begins at or before that byte.
pub proof fn lemma_origin_below(pieces: Seq<PieceView>, at: int, count: int)
    requires
        0 <= at,
    ensures
        0 <= origin_below(pieces, at, count),
        count >= 1 ==> origin_below(pieces, at, count) < count,
        start(pieces, origin_below(pieces, at, count)) <= at,
    decreases count,
{
    if count > 1 && start(pieces, count - 1) > at {
        lemma_origin_below(pieces, at, count - 1);
    }
}

/// A character whose lowercase form begins at or before a byte is not behind
/// the origin of that byte.
pub proof fn lemma_origin_at_least(pieces: Seq<PieceView>, at: int, k: int, count: int)
    requires
        0 <= k < count,
        start(pieces, k) <= at,
    ensures
        k <= origin_below(pieces, at, count),
    decreases count,
{
    if count > 1 && start(pieces, count - 1) > at {
        lemma_origin_at_least(pieces, at, k, count - 1);
    }
}

/// The character in whose lowercase form a byte lies is the origin of that
/// byte.
pub proof fn lemma_origin_is(pieces: Seq<PieceView>, at: int, k: int, count: int)
    requires
        0 <= k < count,
        start(pieces, k) <= at < start(pieces, k + 1),
    ensures
        origin_below(pieces, at, count) == k,
    decreases count,
{
    if count > k + 1 {
        lemma_grows(pieces, k + 1, count - 1);
        lemma_origin_is(pieces, at, k, count - 1);
    }
}

/// A match that begins at or after the lowercase form of character `k`
/// comes from characters at or after `k`: its first byte from one that is
/// not behind the one its last byte comes from.
pub proof fn lemma_match_chars(pieces: Seq<PieceView>, len: int, k: int, at: int)
    requires
        0 <= k <= pieces.len(),
        0 < len,
        start(pieces, k) <= at,
        at + len <= folded(pieces).len(),
    ensures
        k <= origin(pieces, at) <= origin(pieces, at + len - 1) < pieces.len(),
{
    let n = pieces.len() as int;
    lemma_grows(pieces, 0, k);
    lemma_grows(pieces, k, n);
    assert(k < n);
    lemma_origin_at_least(pieces, at, k, n);
    lemma_origin_below(pieces, at, n);
    lemma_origin_at_least(pieces, at + len - 1, origin(pieces, at), n);
    lemma_origin_below(pieces, at + len - 1, n);
}

/// The sections of the text from its character `k` on, for a needle that is
/// not empty: before each match the plain text since the last one, then the
/// characters that the match comes from, and after the last match the plain
/// rest. Matches are taken left to right; the search goes on behind the last
/// character of a match.
pub open spec fn sections_from(pieces: Seq<PieceView>, needle: Seq<u8>, k: int) -> Seq<
    LayoutSection,
>
    decreases pieces.len() - k,
{
    if needle.len() == 0 || k < 0 || k > pieces.len() {
        Seq::empty()
    } else {
        match first_occurrence(folded(pieces), needle, start(pieces, k)) {
            Some(at) => {
                proof {
                    lemma_grows(pieces, 0, k);
                    lemma_first_occurrence(folded(pieces), needle, start(pieces, k));
                    lemma_match_chars(pieces, needle.len() as int, k, at);
                }
                gap(offset(pieces, k), offset(pieces, origin(pieces, at))).push(
                    highlighted(
                        offset(pieces, origin(pieces, at)),
                        offset(pieces, origin(pieces, at + needle.len() - 1) + 1),
                    ),
                ) + sections_from(pieces, needle, origin(pieces, at + needle.len() - 1) + 1)
            },
            None => gap(offset(pieces, k), offset(pieces, pieces.len() as int)),
        }
    }
}

/// The sections of a text, given character by character, for a needle in
/// lowercase. An empty needle matches nothing: the text is one plain section.
pub open spec fn sections_for(pieces: Seq<PieceView>, needle: Seq<u8>) -> Seq<LayoutSection> {
    if needle.len() == 0 {
        seq![plain(0, offset(pieces, pieces.len() as int))]
    } else {
        sections_from(pieces, needle, 0)
    }
}

/// `at` is the byte at which some character of the text begins, or the end
/// of the text.
pub open spec fn is_offset(pieces: Seq<PieceView>, at: int) -> bool {
    exists|i: int| 0 <= i <= pieces.len() && #[trigger] offset(pieces, i) == at
}

/// Every section starts and ends where a character of the text begins, or at
/// the end of the text.
pub open spec fn on_offsets(pieces: Seq<PieceView>, sections: Seq<LayoutSection>) -> bool {
    forall|i: int|
        0 <= i < sections.len() ==> is_offset(pieces, (#[trigger] sections[i]).start as int)
            && is_offset(pieces, sections[i].end as int)
}

/// Every width is positive.
pub open spec fn widths_positive(pieces: Seq<PieceView>) -> bool {
    forall|k: int| 0 <= k < pieces.len() ==> (#[trigger] pieces[k]).width > 0
}

/// From character `k` on the sections lie end to end up to the end of the
/// text, each starts and ends where a character begins, and none is empty
/// where no character is.
pub proof fn lemma_sections_from(pieces: Seq<PieceView>, needle: Seq<u8>, k: int)
    requires
        needle.len() > 0,
        0 <= k <= pieces.len(),
        offset(pieces, pieces.len() as int) <= usize::MAX,
    ensures
        covers(
            sections_from(pieces, needle, k),
            offset(pieces, k),
            offset(pieces, pieces.len() as int),
        ),
        on_offsets(pieces, sections_from(pieces, needle, k)),
        widths_positive(pieces) ==> all_nonempty(sections_from(pieces, needle, k)),
    decreases pieces.len() - k,
{
    let n = pieces.len() as int;
    let all = sections_from(pieces, needle, k);
    lemma_grows(pieces, 0, k);
    lemma_grows(pieces, k, n);
    lemma_first_occurrence(folded(pieces), needle, start(pieces, k));
    match first_occurrence(folded(pieces), needle, start(pieces, k)) {
        Some(at) => {
            lemma_match_chars(pieces, needle.len() as int, k, at);
            let s = origin(pieces, at);
            let e = origin(pieces, at + needle.len() - 1) + 1;
            lemma_grows(pieces, k, s);
            lemma_grows(pieces, s, e);
            lemma_grows(pieces, e, n);
            let head = gap(offset(pieces, k), offset(pieces, s)).push(
                highlighted(offset(pieces, s), offset(pieces, e)),
            );
            let rest = sections_from(pieces, needle, e);
            lemma_sections_from(pieces, needle, e);
            assert(all == head + rest);
            assert(covers(head, offset(pieces, k), offset(pieces, e)));
            lemma_covers_concat(head, rest, offset(pieces, k), offset(pieces, e), offset(pieces, n));
            assert(is_offset(pieces, offset(pieces, k)));
            assert(is_offset(pieces, offset(pieces, s)));
            assert(is_offset(pieces, offset(pieces, e)));
            assert(on_offsets(pieces, head));
            assert forall|i: int| 0 <= i < all.len() implies is_offset(
                pieces,
                (#[trigger] all[i]).start as int,
            ) && is_offset(pieces, all[i].end as int) by {
                if i >= head.len() {
                    assert(all[i] == rest[i - head.len()]);
                } else {
                    assert(all[i] == head[i]);
                }
            }
            if widths_positive(pieces) {
                lemma_offsets_rise(pieces, s, e);
                assert forall|i: int| 0 <= i < all.len() implies (#[trigger] all[i]).start
                    < all[i].end by {
                    if i >= head.len() {
                        assert(all[i] == rest[i - head.len()]);
                    }
                }
            }
        },
        None => {
            assert(is_offset(pieces, offset(pieces, k)));
            assert(is_offset(pieces, offset(pieces, n)));
        },
    }
}

/// Whatever the needle, the sections lie end to end from the first byte of
/// the text to its last, and each starts and ends where a character begins.
/// For a needle that is not empty none is empty, where no character is.
pub proof fn lemma_sections_for(pieces: Seq<PieceView>, needle: Seq<u8>)
    requires
        offset(pieces, pieces.len() as int) <= usize::MAX,
    ensures
        covers(sections_for(pieces, needle), 0, offset(pieces, pieces.len() as int)),
        on_offsets(pieces, sections_for(pieces, needle)),
        needle.len() > 0 && widths_positive(pieces) ==> all_nonempty(sections_for(pieces, needle)),
{
    let n = pieces.len() as int;
    lemma_grows(pieces, 0, n);
    if needle.len() == 0 {
        assert(is_offset(pieces, offset(pieces, 0)));
        assert(is_offset(pieces, offset(pieces, n)));
    } else {
        lemma_sections_from(pieces, needle, 0);
    }
}

/// The section is the highlight of the occurrence at `at`: it runs from the
/// first character that the occurrence comes from to behind the last.
pub open spec fn marks(pieces: Seq<PieceView>, len: int, section: LayoutSection, at: int) -> bool {
    &&& section.kind == SectionStyle::Highlighted
    &&& section.start == offset(pieces, origin(pieces, at))
    &&& section.end == offset(pieces, origin(pieces, at + len - 1) + 1)
}

/// Every highlighted section marks an occurrence of the needle in the
/// lowercase text.
pub proof fn lemma_highlighted_are_matches(pieces: Seq<PieceView>, needle: Seq<u8>, k: int)
    requires
        needle.len() > 0,
        0 <= k <= pieces.len(),
        offset(pieces, pieces.len() as int) <= usize::MAX,
    ensures
        forall|i: int|
            0 <= i < sections_from(pieces, needle, k).len() && (#[trigger] sections_from(
                pieces,
                needle,
                k,
            )[i]).kind == SectionStyle::Highlighted ==> exists|at: int|
                occurs_at(folded(pieces), needle, at) && #[trigger] marks(
                    pieces,
                    needle.len() as int,
                    sections_from(pieces, needle, k)[i],
                    at,
                ),
    decreases pieces.len() - k,
{
    let n = pieces.len() as int;
    let all = sections_from(pieces, needle, k);
    lemma_grows(pieces, 0, k);
    lemma_grows(pieces, 0, n);
    lemma_first_occurrence(folded(pieces), needle, start(pieces, k));
    match first_occurrence(folded(pieces), needle, start(pieces, k)) {
        Some(first) => {
            lemma_match_chars(pieces, needle.len() as int, k, first);
            let s = origin(pieces, first);
            let e = origin(pieces, first + needle.len() - 1) + 1;
            lemma_grows(pieces, s, n);
            lemma_grows(pieces, e, n);
            let head = gap(offset(pieces, k), offset(pieces, s)).push(
                highlighted(offset(pieces, s), offset(pieces, e)),
            );
            let rest = sections_from(pieces, needle, e);
            lemma_highlighted_are_matches(pieces, needle, e);
            assert(all == head + rest);
            assert forall|i: int|
                0 <= i < all.len() && (#[trigger] all[i]).kind
                    == SectionStyle::Highlighted implies exists|at: int|
                occurs_at(folded(pieces), needle, at) && #[trigger] marks(
                    pieces,
                    needle.len() as int,
                    all[i],
                    at,
                ) by {
                if i >= head.len() {
                    assert(all[i] == rest[i - head.len()]);
                } else {
                    assert(all[i] == head[i]);
                    assert(marks(pieces, needle.len() as int, all[i], first));
                }
            }
        },
        None => {},
    }
}

/// Every occurrence of the needle in the lowercase text is highlighted, at
/// least in part: the characters that it comes from share bytes with a
/// highlighted section.
pub proof fn lemma_occurrences_are_highlighted(
    pieces: Seq<PieceView>,
    needle: Seq<u8>,
    k: int,
    at: int,
)
    requires
        needle.len() > 0,
        0 <= k <= pieces.len(),
        offset(pieces, pieces.len() as int) <= usize::MAX,
        widths_positive(pieces),
        start(pieces, k) <= at,
        occurs_at(folded(pieces), needle, at),
    ensures
        exists|i: int|
            0 <= i < sections_from(pieces, needle, k).len() && (#[trigger] sections_from(
                pieces,
                needle,
                k,
            )[i]).kind == SectionStyle::Highlighted && sections_from(pieces, needle, k)[i].start
                < offset(pieces, origin(pieces, at + needle.len() - 1) + 1) && offset(
                pieces,
                origin(pieces, at),
            ) < sections_from(pieces, needle, k)[i].end,
    decreases pieces.len() - k,
{
    let n = pieces.len() as int;
    let m = needle.len() as int;
    let all = sections_from(pieces, needle, k);
    lemma_grows(pieces, 0, k);
    lemma_grows(pieces, 0, n);
    lemma_first_occurrence(folded(pieces), needle, start(pieces, k));
    match first_occurrence(folded(pieces), needle, start(pieces, k)) {
        Some(first) => {
            lemma_match_chars(pieces, m, k, first);
            lemma_match_chars(pieces, m, k, at);
            let s = origin(pieces, first);
            let e = origin(pieces, first + m - 1) + 1;
            lemma_grows(pieces, s, n);
            lemma_grows(pieces, e, n);
            let head = gap(offset(pieces, k), offset(pieces, s)).push(
                highlighted(offset(pieces, s), offset(pieces, e)),
            );
            let rest = sections_from(pieces, needle, e);
            assert(all == head + rest);
            if at < start(pieces, e) {
                let i = head.len() - 1;
                assert(all[i] == highlighted(offset(pieces, s), offset(pieces, e)));
                lemma_origin_below(pieces, at, n);
                lemma_origin_below(pieces, first, n);
                if origin(pieces, at) >= e {
                    lemma_grows(pieces, e, origin(pieces, at));
                }
                lemma_offsets_rise(pieces, origin(pieces, at), e);
                lemma_origin_at_least(pieces, at + m - 1, s, n);
                lemma_offsets_rise(pieces, s, origin(pieces, at + m - 1) + 1);
            } else {
                lemma_occurrences_are_highlighted(pieces, needle, e, at);
                let j = choose|j: int|
                    0 <= j < rest.len() && (#[trigger] rest[j]).kind == SectionStyle::Highlighted
                        && rest[j].start < offset(pieces, origin(pieces, at + m - 1) + 1) && offset(
                        pieces,
                        origin(pieces, at),
                    ) < rest[j].end;
                assert(all[head.len() + j] == rest[j]);
            }
        },
        None => {},
    }
}

/// The lowercase form of a character, as `char::to_lowercase` gives it.
pub uninterp spec fn lowercased_char(c: char) -> Seq<char>;

/// The lowercase form of an ASCII byte: the letters `A` to `Z` become `a` to
/// `z`, every other byte stays.
pub open spec fn ascii_lower_byte(byte: u8) -> u8 {
    if 0x41 <= byte <= 0x5a {
        (byte + 0x20) as u8
    } else {
        byte
    }
}

/// The character is one of ASCII.
pub open spec fn is_ascii_char(c: char) -> bool {
    (c as u32) < 0x80
}

/// The bytes that a character is compared by: an ASCII character by its
/// lowercase byte, any other by the bytes of its lowercase form.
pub open spec fn lower_bytes(c: char) -> Seq<u8> {
    if is_ascii_char(c) {
        seq![ascii_lower_byte(c as u8)]
    } else {
        encode_utf8(lowercased_char(c))
    }
}

/// A text as the search sees it: for each character its width in the text
/// and the bytes that it is compared by.
pub open spec fn pieces_of(text: Seq<char>) -> Seq<PieceView> {
    Seq::new(
        text.len(),
        |i: int|
            PieceView { width: encode_scalar(text[i] as u32).len(), lowered: lower_bytes(text[i]) },
    )
}

/// Every character of the text is one of ASCII.
pub open spec fn is_ascii_text(text: Seq<char>) -> bool {
    forall|i: int| 0 <= i < text.len() ==> is_ascii_char(#[trigger] text[i])
}

/// Two ASCII texts differ in the case of their letters at most.
pub open spec fn same_but_for_case(left: Seq<char>, right: Seq<char>) -> bool {
    &&& is_ascii_text(left)
    &&& is_ascii_text(right)
    &&& left.len() == right.len()
    &&& forall|i: int|
        0 <= i < left.len() ==> ascii_lower_byte((#[trigger] left[i]) as u8) == ascii_lower_byte(
            right[i] as u8,
        )
}

/// The lowercase form of a text: that of each of its characters, one after
/// the other.
pub open spec fn lowered(text: Seq<char>) -> Seq<u8> {
    folded(pieces_of(text))
}

/// The sections of `text` for the search `query`: the whole text as one plain
/// section where the query is empty, else the characters of the text whose
/// lowercase forms the lowercase query is found in.
pub open spec fn sections_of(text: Seq<char>, query: Seq<char>) -> Seq<LayoutSection> {
    if query.len() == 0 {
        seq![plain(0, encode_utf8(text).len() as int)]
    } else {
        sections_for(pieces_of(text), lowered(query))
    }
}

/// The search ignores the case of ASCII letters, in the text and in the
/// query: texts and queries that differ in case at most are laid out alike.
pub proof fn lemma_case_is_ignored(
    text: Seq<char>,
    query: Seq<char>,
    other_text: Seq<char>,
    other_query: Seq<char>,
)
    requires
        same_but_for_case(text, other_text),
        same_but_for_case(query, other_query),
        query.len() > 0,
    ensures
        sections_of(other_text, other_query) == sections_of(text, query),
{
    assert(pieces_of(other_text) =~= pieces_of(text));
    assert(pieces_of(other_query) =~= pieces_of(query));
}

/// The bytes of two texts, one after the other, are the bytes of the two
/// put together.
pub proof fn lemma_encode_concat(front: Seq<char>, back: Seq<char>)
    ensures
        encode_utf8(front + back) == encode_utf8(front) + encode_utf8(back),
    decreases front.len(),
{
    if front.len() == 0 {
        assert(front + back =~= back);
        assert(encode_utf8(front) + encode_utf8(back) =~= encode_utf8(back));
    } else {
        lemma_encode_concat(front.drop_first(), back);
        assert((front + back).drop_first() =~= front.drop_first() + back);
        assert(encode_utf8(front + back) =~= encode_utf8(front) + encode_utf8(back));
    }
}

/// A character begins in the bytes of a text where the bytes of the
/// characters before it end.
pub proof fn lemma_boundary_between(front: Seq<char>, back: Seq<char>)
    ensures
        is_char_boundary(encode_utf8(front + back), encode_utf8(front).len() as int),
    decreases front.len(),
{
    let bytes = encode_utf8(front + back);
    encode_utf8_valid_utf8(front + back);
    if front.len() == 0 {
        is_char_boundary_start_end_of_seq(bytes);
    } else {
        let rest = front.drop_first();
        lemma_boundary_between(rest, back);
        lemma_encode_concat(front, back);
        encode_utf8_first_scalar(front + back);
        encode_utf8_valid_utf8(rest + back);
        assert((front + back).drop_first() =~= rest + back);
        assert(pop_first_scalar(bytes) =~= encode_utf8(rest + back));
        assert(encode_utf8(front).len() == encode_scalar(front[0] as u32).len() + encode_utf8(
            rest,
        ).len());
        reveal_with_fuel(is_char_boundary, 2);
    }
}

/// The offset of character `i` of a text is the length of the bytes of the
/// characters before it, and a character begins there or the text ends.
pub proof fn lemma_text_offset(text: Seq<char>, i: int)
    requires
        0 <= i <= text.len(),
    ensures
        offset(pieces_of(text), i) == encode_utf8(text.take(i)).len(),
        is_char_boundary(encode_utf8(text), offset(pieces_of(text), i)),
    decreases i,
{
    if i > 0 {
        lemma_text_offset(text, i - 1);
        lemma_encode_concat(text.take(i - 1), seq![text[i - 1]]);
        assert(text.take(i) =~= text.take(i - 1) + seq![text[i - 1]]);
        assert(encode_utf8(seq![text[i - 1]]) =~= encode_scalar(text[i - 1] as u32)) by {
            reveal_with_fuel(encode_utf8, 2);
            assert(seq![text[i - 1]].drop_first() =~= Seq::<char>::empty());
        }
    } else {
        assert(text.take(0) =~= Seq::<char>::empty());
    }
    lemma_boundary_between(text.take(i), text.skip(i));
    assert(text.take(i) + text.skip(i) =~= text);
}

/// Sections that start and end at the offsets of a text's characters cut no
/// character of the text in two.
pub proof fn lemma_offsets_are_boundaries(text: Seq<char>, sections: Seq<LayoutSection>)
    requires
        on_offsets(pieces_of(text), sections),
    ensures
        on_char_boundaries(encode_utf8(text), sections),
{
    let pieces = pieces_of(text);
    assert forall|i: int| 0 <= i < sections.len() implies is_char_boundary(
        encode_utf8(text),
        (#[trigger] sections[i]).start as int,
    ) && is_char_boundary(encode_utf8(text), sections[i].end as int) by {
        let a = choose|a: int|
            0 <= a <= pieces.len() && #[trigger] offset(pieces, a) == sections[i].start as int;
        lemma_text_offset(text, a);
        let b = choose|b: int|
            0 <= b <= pieces.len() && #[trigger] offset(pieces, b) == sections[i].end as int;
        lemma_text_offset(text, b);
    }
}

/// Whatever the text and the query, the sections lie end to end from the
/// first byte of the text to its last, and none cuts a character in two.
pub proof fn lemma_sections_of(text: Seq<char>, query: Seq<char>)
    requires
        encode_utf8(text).len() <= usize::MAX,
    ensures
        covers(sections_of(text, query), 0, encode_utf8(text).len() as int),
        on_char_boundaries(encode_utf8(text), sections_of(text, query)),
{
    assert(text.take(text.len() as int) =~= text);
    lemma_text_offset(text, text.len() as int);
    if query.len() == 0 {
        encode_utf8_valid_utf8(text);
        is_char_boundary_start_end_of_seq(encode_utf8(text));
    } else {
        lemma_sections_for(pieces_of(text), lowered(query));
        lemma_offsets_are_boundaries(text, sections_of(text, query));
    }
}

/// Calls `char::to_lowercase` and collects what its iterator yields. Trusted:
/// the result is the lowercase form of the character, a function of the
/// character alone, and holds one character or more.
#[verifier::external_body]
fn lowercase_char(c: char) -> (lowered: String)
    ensures
        lowered@ == lowercased_char(c),
        lowered@.len() >= 1,
{
    c.to_lowercase().collect()
}

/// The bytes that a character is compared by.
pub fn lower_bytes_of(c: char) -> (bytes: Vec<u8>)
    ensures
        bytes@ == lower_bytes(c),
        bytes@.len() > 0,
{
    let code: u32 = c as u32;
    if code < 0x80 {
        let byte: u8 = code as u8;
        let lower: u8 = if 0x41 <= byte && byte <= 0x5a {
            byte + 0x20
        } else {
            byte
        };
        let mut bytes: Vec<u8> = Vec::new();
        bytes.push(lower);
        assert(bytes@ =~= seq![ascii_lower_byte(c as u8)]);
        bytes
    } else {
        let lowered = lowercase_char(c);
        let bytes = lowered.as_str().as_bytes_vec();
        assert(bytes@.len() > 0) by {
            reveal_with_fuel(encode_utf8, 1);
        }
        bytes
    }
}

/// How many bytes a character takes in a text.
pub fn char_width(c: char) -> (width: usize)
    ensures
        width == encode_scalar(c as u32).len(),
        1 <= width <= 4,
{
    let code: u32 = c as u32;
    if code < 0x80 {
        1
    } else if code < 0x800 {
        2
    } else if code < 0x10000 {
        3
    } else {
        4
    }
}

/// Takes a text apart for the search: for each character its width and the
/// bytes of its lowercase form.
pub fn fold_text(text: &str) -> (pieces: Vec<Piece>)
    ensures
        piece_views(pieces@) == pieces_of(text@),
        widths_positive(piece_views(pieces@)),
        forall|i: int| 0 <= i < pieces@.len() ==> (#[trigger] pieces@[i]).lowered@.len() > 0,
        offset(piece_views(pieces@), pieces@.len() as int) == encode_utf8(text@).len(),
        encode_utf8(text@).len() <= usize::MAX,
{
    broadcast use vstd::string::group_string_axioms;

    let mut pieces: Vec<Piece> = Vec::new();
    proof {
        assert(text@.take(text@.len() as int) =~= text@);
        lemma_text_offset(text@, text@.len() as int);
    }
    if text.as_bytes().len() == 0 {
        assert(text@.len() == 0) by {
            reveal_with_fuel(encode_utf8, 1);
        }
        assert(piece_views(pieces@) =~= pieces_of(text@));
        return pieces;
    }
    for c in it: text.chars()
        invariant
            it.seq() == text@,
            pieces@.len() == it.index(),
            forall|i: int|
                0 <= i < pieces@.len() ==> (#[trigger] pieces@[i])@ == pieces_of(text@)[i]
                    && pieces@[i].width > 0 && pieces@[i].lowered@.len() > 0,
    {
        let bytes = lower_bytes_of(c);
        pieces.push(Piece { width: char_width(c), lowered: bytes });
    }
    assert(piece_views(pieces@) =~= pieces_of(text@));
    pieces
}

/// Whether `needle` stands in `hay` at `at`.
pub fn occurs_here(hay: &[u8], needle: &[u8], at: usize) -> (found: bool)
    ensures
        found == occurs_at(hay@, needle@, at as int),
{
    if needle.len() > hay.len() || at > hay.len() - needle.len() {
        return false;
    }
    let mut k: usize = 0;
    while k < needle.len()
        invariant
            k <= needle@.len(),
            at + needle@.len() <= hay@.len() <= usize::MAX,
            forall|j: int| 0 <= j < k ==> hay@[at + j] == needle@[j],
        decreases needle@.len() - k,
    {
        if hay[at + k] != needle[k] {
            assert(hay@.subrange(at as int, at + needle@.len())[k as int] != needle@[k as int]);
            return false;
        }
        k = k + 1;
    }
    true
}

/// The lowercase text with, for each character and for the end of the text,
/// where its lowercase form begins and where the character itself begins.
struct Tables {
    hay: Vec<u8>,
    starts: Vec<usize>,
    offsets: Vec<usize>,
}

/// Lays the pieces out in a row.
fn lay_out(pieces: &Vec<Piece>) -> (tables: Tables)
    requires
        offset(piece_views(pieces@), pieces@.len() as int) <= usize::MAX,
    ensures
        tables.hay@ == folded(piece_views(pieces@)),
        tables.starts@.len() == pieces@.len() + 1,
        tables.offsets@.len() == pieces@.len() + 1,
        forall|k: int|
            0 <= k <= pieces@.len() ==> (#[trigger] tables.starts@[k]) == start(
                piece_views(pieces@),
                k,
            ),
        forall|k: int|
            0 <= k <= pieces@.len() ==> (#[trigger] tables.offsets@[k]) == offset(
                piece_views(pieces@),
                k,
            ),
{
    let ghost views = piece_views(pieces@);
    let mut hay: Vec<u8> = Vec::new();
    let mut starts: Vec<usize> = Vec::new();
    let mut offsets: Vec<usize> = Vec::new();
    let mut total: usize = 0;
    starts.push(0);
    offsets.push(0);
    let mut i: usize = 0;
    while i < pieces.len()
        invariant
            i <= pieces@.len(),
            views == piece_views(pieces@),
            offset(views, pieces@.len() as int) <= usize::MAX,
            hay@ == folded_upto(views, i as int),
            total == offset(views, i as int),
            starts@.len() == i + 1,
            offsets@.len() == i + 1,
            forall|k: int| 0 <= k <= i ==> (#[trigger] starts@[k]) == start(views, k),
            forall|k: int| 0 <= k <= i ==> (#[trigger] offsets@[k]) == offset(views, k),
        decreases pieces@.len() - i,
    {
        let piece = &pieces[i];
        let ghost before = hay@;
        let mut b: usize = 0;
        while b < piece.lowered.len()
            invariant
                b <= piece.lowered@.len(),
                hay@ == before + piece.lowered@.take(b as int),
            decreases piece.lowered@.len() - b,
        {
            hay.push(piece.lowered[b]);
            assert(hay@ =~= before + piece.lowered@.take(b + 1));
            b = b + 1;
        }
        proof {
            assert(piece.lowered@.take(piece.lowered@.len() as int) =~= piece.lowered@);
            assert(views[i as int] == piece@);
            lemma_grows(views, i + 1, pieces@.len() as int);
        }
        total = total + piece.width;
        starts.push(hay.len());
        offsets.push(total);
        i = i + 1;
    }
    Tables { hay, starts, offsets }
}

/// Lays out a text, given character by character, for a needle in lowercase.
pub fn scan_sections(pieces: &Vec<Piece>, needle: &[u8]) -> (sections: Vec<LayoutSection>)
    requires
        offset(piece_views(pieces@), pieces@.len() as int) <= usize::MAX,
    ensures
        sections@ == sections_for(piece_views(pieces@), needle@),
        covers(sections@, 0, offset(piece_views(pieces@), pieces@.len() as int)),
        on_offsets(piece_views(pieces@), sections@),
        needle@.len() > 0 && widths_positive(piece_views(pieces@)) ==> all_nonempty(sections@),
{
    let ghost views = piece_views(pieces@);
    let n: usize = pieces.len();
    let m: usize = needle.len();
    let tables = lay_out(pieces);
    let mut sections: Vec<LayoutSection> = Vec::new();
    proof {
        lemma_sections_for(views, needle@);
    }
    if m == 0 {
        sections.push(Span { start: 0, end: tables.offsets[n], kind: SectionStyle::Plain });
        assert(sections@ =~= seq![plain(0, offset(views, n as int))]);
        return sections;
    }
    let hay_len: usize = tables.hay.len();
    let mut k: usize = 0;
    let mut at: usize = 0;
    let mut s: usize = 0;
    while m <= hay_len && at <= hay_len - m
        invariant
            views == piece_views(pieces@),
            n == pieces@.len(),
            m == needle@.len(),
            m > 0,
            hay_len == tables.hay@.len(),
            tables.hay@ == folded(views),
            tables.starts@.len() == n + 1,
            tables.offsets@.len() == n + 1,
            forall|i: int| 0 <= i <= n ==> (#[trigger] tables.starts@[i]) == start(views, i),
            forall|i: int| 0 <= i <= n ==> (#[trigger] tables.offsets@[i]) == offset(views, i),
            k <= n,
            s < n || s == 0,
            start(views, k as int) <= at,
            start(views, s as int) <= at,
            first_occurrence(folded(views), needle@, start(views, k as int)) == first_occurrence(
                folded(views),
                needle@,
                at as int,
            ),
            sections_for(views, needle@) == sections@ + sections_from(views, needle@, k as int),
        decreases hay_len - at,
    {
        if occurs_here(tables.hay.as_slice(), needle, at) {
            proof {
                lemma_grows(views, 0, n as int);
                lemma_match_chars(views, m as int, k as int, at as int);
            }
            while s + 1 < n && tables.starts[s + 1] <= at
                invariant
                    s < n,
                    tables.starts@.len() == n + 1,
                    forall|i: int| 0 <= i <= n ==> (#[trigger] tables.starts@[i]) == start(views, i),
                    start(views, s as int) <= at,
                decreases n - s,
            {
                s = s + 1;
            }
            let last: usize = at + (m - 1);
            let mut t: usize = s;
            while t + 1 < n && tables.starts[t + 1] <= last
                invariant
                    s <= t < n,
                    tables.starts@.len() == n + 1,
                    forall|i: int| 0 <= i <= n ==> (#[trigger] tables.starts@[i]) == start(views, i),
                    start(views, t as int) <= last,
                decreases n - t,
            {
                t = t + 1;
            }
            let e: usize = t + 1;
            proof {
                lemma_origin_is(views, at as int, s as int, n as int);
                lemma_origin_is(views, last as int, t as int, n as int);
                lemma_grows(views, k as int, s as int);
                lemma_grows(views, s as int, e as int);
                lemma_grows(views, e as int, n as int);
            }
            let ghost before = sections@;
            if tables.offsets[k] < tables.offsets[s] {
                sections.push(
                    Span {
                        start: tables.offsets[k],
                        end: tables.offsets[s],
                        kind: SectionStyle::Plain,
                    },
                );
            }
            sections.push(
                Span {
                    start: tables.offsets[s],
                    end: tables.offsets[e],
                    kind: SectionStyle::Highlighted,
                },
            );
            proof {
                assert(sections@ =~= before + gap(offset(views, k as int), offset(views, s as int)).push(
                    highlighted(offset(views, s as int), offset(views, e as int)),
                ));
                assert(before + sections_from(views, needle@, k as int) =~= sections@
                    + sections_from(views, needle@, e as int));
            }
            k = e;
            at = tables.starts[e];
            s = if e < n {
                e
            } else {
                0
            };
        } else {
            at = at + 1;
        }
    }
    let ghost before = sections@;
    if tables.offsets[k] < tables.offsets[n] {
        sections.push(
            Span { start: tables.offsets[k], end: tables.offsets[n], kind: SectionStyle::Plain },
        );
    }
    proof {
        lemma_grows(views, 0, k as int);
        assert(sections@ =~= before + gap(offset(views, k as int), offset(views, n as int)));
    }
    sections
}

/// The lowercase bytes of a text that was taken apart.
fn needle_of(pieces: &Vec<Piece>) -> (needle: Vec<u8>)
    requires
        offset(piece_views(pieces@), pieces@.len() as int) <= usize::MAX,
    ensures
        needle@ == folded(piece_views(pieces@)),
{
    lay_out(pieces).hay
}

/// The sections in which `full_text_content` is drawn while `search_query` is
/// searched for.
pub fn create_highlighted_layout_sections(full_text_content: &str, search_query: &str) -> (sections:
    Vec<LayoutSection>)
    ensures
        sections@ == sections_of(full_text_content@, search_query@),
        search_query@.len() == 0 ==> sections@ == seq![
            plain(0, encode_utf8(full_text_content@).len() as int),
        ],
        covers(sections@, 0, encode_utf8(full_text_content@).len() as int),
        search_query@.len() > 0 ==> all_nonempty(sections@),
        on_char_boundaries(encode_utf8(full_text_content@), sections@),
{
    let len: usize = full_text_content.as_bytes().len();
    proof {
        encode_utf8_valid_utf8(full_text_content@);
        is_char_boundary_start_end_of_seq(encode_utf8(full_text_content@));
    }
    let query_len: usize = search_query.as_bytes().len();
    if query_len == 0 {
        let mut sections: Vec<LayoutSection> = Vec::new();
        sections.push(Span { start: 0, end: len, kind: SectionStyle::Plain });
        assert(sections@ =~= seq![plain(0, len as int)]);
        assert(search_query@.len() == 0) by {
            reveal_with_fuel(encode_utf8, 1);
        }
        return sections;
    }
    let text = fold_text(full_text_content);
    let query = fold_text(search_query);
    let needle = needle_of(&query);
    let sections = scan_sections(&text, needle.as_slice());
    proof {
        lemma_offsets_are_boundaries(full_text_content@, sections@);
        let views = piece_views(query@);
        assert(views[search_query@.len() - 1] == query@[search_query@.len() - 1]@);
        assert(needle@.len() > 0);
    }
    sections
}

} // verus!
