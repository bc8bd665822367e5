//! Syntax colouring of raw JSON text: the text is cut into tokens, each a
//! keyword, a string, a number or a single other character.

use crate::highlight::{occurs_at, occurs_here};
use crate::span::{all_nonempty, covers, lemma_covers_concat, on_char_boundaries, Span};
use vstd::prelude::*;
use vstd::utf8::{
    encode_utf8, encode_utf8_valid_utf8, is_char_boundary, is_char_boundary_iff_not_is_continuation_byte,
    is_char_boundary_start_end_of_seq, is_continuation_byte, length_of_first_scalar, pop_first_scalar,
    valid_utf8,
};

verus! {

/// What a token of raw JSON text is; the window picks its colour by it.
#[derive(Clone, Copy, Debug, PartialEq, Eq, Structural)]
pub enum TokenKind {
    /// `true` or `false`.
    Boolean,
    /// `null`.
    Null,
    /// A string with both its quotes.
    Text,
    /// A run of digits, signs and dots.
    Number,
    /// Anything else: one character, or a string that is never closed.
    Plain,
}

/// A byte range of raw JSON text and what stands there.
pub type Token = Span<TokenKind>;

/// The byte `"`.
pub const QUOTE: u8 = 0x22;

/// The byte `\`.
pub const BACKSLASH: u8 = 0x5c;

/// The byte `+`.
pub const PLUS: u8 = 0x2b;

/// The byte `-`.
pub const MINUS: u8 = 0x2d;

/// The byte `.`.
pub const DOT: u8 = 0x2e;

/// The bytes of `true`.
pub open spec fn true_word() -> Seq<u8> {
    seq![0x74u8, 0x72u8, 0x75u8, 0x65u8]
}

/// The bytes of `false`.
pub open spec fn false_word() -> Seq<u8> {
    seq![0x66u8, 0x61u8, 0x6cu8, 0x73u8, 0x65u8]
}

/// The bytes of `null`.
pub open spec fn null_word() -> Seq<u8> {
    seq![0x6eu8, 0x75u8, 0x6cu8, 0x6cu8]
}

/// A decimal digit.
pub open spec fn is_digit(byte: u8) -> bool {
    0x30 <= byte <= 0x39
}

/// A byte that a number may begin with: a digit or a sign.
pub open spec fn is_number_start(byte: u8) -> bool {
    is_digit(byte) || byte == MINUS || byte == PLUS
}

/// A byte that a number goes on with: a digit, a sign or a dot.
pub open spec fn is_number_part(byte: u8) -> bool {
    is_digit(byte) || byte == DOT || byte == MINUS || byte == PLUS
}

/// Where the run of number bytes that holds `at` ends.
pub open spec fn number_end(bytes: Seq<u8>, at: int) -> int
    decreases bytes.len() - at,
{
    if 0 <= at < bytes.len() && is_number_part(bytes[at]) {
        number_end(bytes, at + 1)
    } else {
        at
    }
}

/// Where the search for a string's closing quote stops when it starts at
/// `at`: at the first quote that no backslash stands before, or at the end
/// of the text. A backslash takes the byte behind it along, bar the last
/// byte of the text.
pub open spec fn string_stop(bytes: Seq<u8>, at: int) -> int
    decreases bytes.len() - at,
{
    if at < 0 || at >= bytes.len() || bytes[at] == QUOTE {
        at
    } else if bytes[at] == BACKSLASH && at + 1 < bytes.len() {
        string_stop(bytes, at + 2)
    } else {
        string_stop(bytes, at + 1)
    }
}

/// Where the character ends of which `at` is the second byte or a later one:
/// at the first byte from `at` on that begins a character, or at the end of
/// the text.
pub open spec fn char_end(bytes: Seq<u8>, at: int) -> int
    decreases bytes.len() - at,
{
    if 0 <= at < bytes.len() && is_continuation_byte(bytes[at]) {
        char_end(bytes, at + 1)
    } else {
        at
    }
}

/// The kind and the end of the token that starts at `at`. The keywords come
/// first, wherever they stand; then a string, which runs to its closing
/// quote, or to the end of the text as plain text where it has none; then a
/// number; anything else is one character of plain text.
pub open spec fn token_at(bytes: Seq<u8>, at: int) -> (TokenKind, int) {
    if occurs_at(bytes, true_word(), at) {
        (TokenKind::Boolean, at + 4)
    } else if occurs_at(bytes, false_word(), at) {
        (TokenKind::Boolean, at + 5)
    } else if occurs_at(bytes, null_word(), at) {
        (TokenKind::Null, at + 4)
    } else if bytes[at] == QUOTE {
        if string_stop(bytes, at + 1) < bytes.len() {
            (TokenKind::Text, string_stop(bytes, at + 1) + 1)
        } else {
            (TokenKind::Plain, bytes.len() as int)
        }
    } else if is_number_start(bytes[at]) {
        (TokenKind::Number, number_end(bytes, at + 1))
    } else {
        (TokenKind::Plain, char_end(bytes, at + 1))
    }
}

/// The scans stop between where they start and the end of the text.
pub proof fn lemma_scans_stop(bytes: Seq<u8>, at: int)
    requires
        0 <= at <= bytes.len(),
    ensures
        at <= number_end(bytes, at) <= bytes.len(),
        at <= string_stop(bytes, at) <= bytes.len(),
        at <= char_end(bytes, at) <= bytes.len(),
    decreases bytes.len() - at,
{
    if at < bytes.len() {
        lemma_scans_stop(bytes, at + 1);
        if at + 1 < bytes.len() {
            lemma_scans_stop(bytes, at + 2);
        }
    }
}

/// A token is not empty and ends within the text.
pub proof fn lemma_token_advances(bytes: Seq<u8>, at: int)
    requires
        0 <= at < bytes.len(),
    ensures
        at < token_at(bytes, at).1 <= bytes.len(),
{
    lemma_scans_stop(bytes, at + 1);
}

/// The tokens of the text from byte `at` on, one after the other.
pub open spec fn tokens_from(bytes: Seq<u8>, at: int) -> Seq<Token>
    decreases bytes.len() - at,
{
    if at < 0 || at >= bytes.len() {
        Seq::empty()
    } else {
        proof {
            lemma_token_advances(bytes, at);
        }
        seq![
            Span { start: at as usize, end: token_at(bytes, at).1 as usize, kind: token_at(bytes, at).0 },
        ] + tokens_from(bytes, token_at(bytes, at).1)
    }
}

/// The tokens of a text.
pub open spec fn tokens_of(text: Seq<char>) -> Seq<Token> {
    tokens_from(encode_utf8(text), 0)
}

/// From `at` on the tokens lie end to end up to the end of the text, and none
/// is empty.
pub proof fn lemma_tokens_cover(bytes: Seq<u8>, at: int)
    requires
        0 <= at <= bytes.len() <= usize::MAX,
    ensures
        covers(tokens_from(bytes, at), at, bytes.len() as int),
        all_nonempty(tokens_from(bytes, at)),
    decreases bytes.len() - at,
{
    if at < bytes.len() {
        lemma_token_advances(bytes, at);
        let end = token_at(bytes, at).1;
        let head = seq![Span { start: at as usize, end: end as usize, kind: token_at(bytes, at).0 }];
        let rest = tokens_from(bytes, end);
        let all = tokens_from(bytes, at);
        lemma_tokens_cover(bytes, end);
        assert(all == head + rest);
        assert(covers(head, at, end));
        lemma_covers_concat(head, rest, at, end, bytes.len() as int);
        assert forall|i: int| 0 <= i < all.len() implies (#[trigger] all[i]).start
            < all[i].end by {
            if i >= head.len() {
                assert(all[i] == rest[i - head.len()]);
            }
        }
    }
}

/// In well-formed UTF-8 a character begins behind every ASCII byte, or the
/// text ends there.
pub proof fn lemma_boundary_after_ascii(bytes: Seq<u8>, at: int)
    requires
        valid_utf8(bytes),
        0 <= at < bytes.len(),
        bytes[at] <= 0x7f,
    ensures
        is_char_boundary(bytes, at + 1),
    decreases bytes.len(),
{
    reveal_with_fuel(valid_utf8, 2);
    reveal_with_fuel(is_char_boundary, 2);
    let first = length_of_first_scalar(bytes);
    let rest = pop_first_scalar(bytes);
    if at < first {
        assert(at == 0);
        is_char_boundary_start_end_of_seq(rest);
    } else {
        assert(rest[at - first] == bytes[at]);
        lemma_boundary_after_ascii(rest, at - first);
    }
}

/// What the scans stop at: a number's scan behind a number byte, a string's
/// scan at a quote, a character's scan at the first byte of a character,
/// unless the text ends there.
pub proof fn lemma_scans_stop_at(bytes: Seq<u8>, at: int)
    requires
        0 <= at <= bytes.len(),
    ensures
        at < number_end(bytes, at) ==> is_number_part(bytes[number_end(bytes, at) - 1]),
        string_stop(bytes, at) < bytes.len() ==> bytes[string_stop(bytes, at)] == QUOTE,
        char_end(bytes, at) < bytes.len() ==> !is_continuation_byte(bytes[char_end(bytes, at)]),
    decreases bytes.len() - at,
{
    lemma_scans_stop(bytes, at);
    if at < bytes.len() {
        lemma_scans_stop_at(bytes, at + 1);
        lemma_scans_stop(bytes, at + 1);
        if at + 1 < bytes.len() {
            lemma_scans_stop_at(bytes, at + 2);
            lemma_scans_stop(bytes, at + 2);
        }
    }
}

/// In well-formed UTF-8 a token that starts at a byte ends where a character
/// begins, or at the end of the text.
pub proof fn lemma_token_ends_on_boundary(bytes: Seq<u8>, at: int)
    requires
        valid_utf8(bytes),
        0 <= at < bytes.len(),
    ensures
        is_char_boundary(bytes, token_at(bytes, at).1),
{
    let end = token_at(bytes, at).1;
    lemma_token_advances(bytes, at);
    lemma_scans_stop(bytes, at + 1);
    lemma_scans_stop_at(bytes, at + 1);
    is_char_boundary_start_end_of_seq(bytes);
    if occurs_at(bytes, true_word(), at) {
        assert(bytes.subrange(at, at + 4)[3] == true_word()[3]);
        lemma_boundary_after_ascii(bytes, at + 3);
    } else if occurs_at(bytes, false_word(), at) {
        assert(bytes.subrange(at, at + 5)[4] == false_word()[4]);
        lemma_boundary_after_ascii(bytes, at + 4);
    } else if occurs_at(bytes, null_word(), at) {
        assert(bytes.subrange(at, at + 4)[3] == null_word()[3]);
        lemma_boundary_after_ascii(bytes, at + 3);
    } else if bytes[at] == QUOTE {
        let stop = string_stop(bytes, at + 1);
        if stop < bytes.len() {
            lemma_boundary_after_ascii(bytes, stop);
        }
    } else if is_number_start(bytes[at]) {
        lemma_boundary_after_ascii(bytes, end - 1);
    } else {
        if end < bytes.len() {
            is_char_boundary_iff_not_is_continuation_byte(bytes, end);
        }
    }
}

/// In well-formed UTF-8 no token cuts a character in two.
pub proof fn lemma_tokens_on_boundaries(bytes: Seq<u8>, at: int)
    requires
        valid_utf8(bytes),
        0 <= at <= bytes.len() <= usize::MAX,
        is_char_boundary(bytes, at),
    ensures
        on_char_boundaries(bytes, tokens_from(bytes, at)),
    decreases bytes.len() - at,
{
    if at < bytes.len() {
        lemma_token_advances(bytes, at);
        lemma_token_ends_on_boundary(bytes, at);
        let end = token_at(bytes, at).1;
        let head = seq![Span { start: at as usize, end: end as usize, kind: token_at(bytes, at).0 }];
        let rest = tokens_from(bytes, end);
        let all = tokens_from(bytes, at);
        lemma_tokens_on_boundaries(bytes, end);
        assert(all == head + rest);
        assert forall|i: int| 0 <= i < all.len() implies is_char_boundary(
            bytes,
            (#[trigger] all[i]).start as int,
        ) && is_char_boundary(bytes, all[i].end as int) by {
            if i >= head.len() {
                assert(all[i] == rest[i - head.len()]);
            }
        }
    }
}

/// The tokens of a text lie end to end from its first byte to its last, none
/// is empty, and none cuts a character in two.
pub proof fn lemma_tokens_of_text(text: Seq<char>)
    requires
        encode_utf8(text).len() <= usize::MAX,
    ensures
        covers(tokens_of(text), 0, encode_utf8(text).len() as int),
        all_nonempty(tokens_of(text)),
        on_char_boundaries(encode_utf8(text), tokens_of(text)),
{
    let bytes = encode_utf8(text);
    encode_utf8_valid_utf8(text);
    is_char_boundary_start_end_of_seq(bytes);
    lemma_tokens_cover(bytes, 0);
    lemma_tokens_on_boundaries(bytes, 0);
}

/// Whether `true` stands at `at`.
fn true_at(bytes: &[u8], at: usize) -> (found: bool)
    ensures
        found == occurs_at(bytes@, true_word(), at as int),
{
    let word: [u8; 4] = [0x74, 0x72, 0x75, 0x65];
    assert(word@ =~= true_word());
    occurs_here(bytes, word.as_slice(), at)
}

/// Whether `false` stands at `at`.
fn false_at(bytes: &[u8], at: usize) -> (found: bool)
    ensures
        found == occurs_at(bytes@, false_word(), at as int),
{
    let word: [u8; 5] = [0x66, 0x61, 0x6c, 0x73, 0x65];
    assert(word@ =~= false_word());
    occurs_here(bytes, word.as_slice(), at)
}

/// Whether `null` stands at `at`.
fn null_at(bytes: &[u8], at: usize) -> (found: bool)
    ensures
        found == occurs_at(bytes@, null_word(), at as int),
{
    let word: [u8; 4] = [0x6e, 0x75, 0x6c, 0x6c];
    assert(word@ =~= null_word());
    occurs_here(bytes, word.as_slice(), at)
}

/// Whether `byte` is a digit, a sign or a dot.
fn number_part(byte: u8) -> (yes: bool)
    ensures
        yes == is_number_part(byte),
{
    (0x30 <= byte && byte <= 0x39) || byte == DOT || byte == MINUS || byte == PLUS
}

/// Whether `byte` is the second byte of a character or a later one.
fn continuation(byte: u8) -> (yes: bool)
    ensures
        yes == is_continuation_byte(byte),
{
    0x80 <= byte && byte <= 0xbf
}

/// Scans the token that starts at `at`.
fn scan_token(bytes: &[u8], at: usize) -> (token: Token)
    requires
        at < bytes@.len(),
    ensures
        token.start == at,
        token.kind == token_at(bytes@, at as int).0,
        token.end == token_at(bytes@, at as int).1,
{
    let len: usize = bytes.len();
    proof {
        lemma_token_advances(bytes@, at as int);
    }
    if true_at(bytes, at) {
        return Span { start: at, end: at + 4, kind: TokenKind::Boolean };
    }
    if false_at(bytes, at) {
        return Span { start: at, end: at + 5, kind: TokenKind::Boolean };
    }
    if null_at(bytes, at) {
        return Span { start: at, end: at + 4, kind: TokenKind::Null };
    }
    let first: u8 = bytes[at];
    let mut pos: usize = at + 1;
    if first == QUOTE {
        while pos < len && bytes[pos] != QUOTE
            invariant
                len == bytes@.len(),
                at < pos <= len,
                string_stop(bytes@, pos as int) == string_stop(bytes@, at + 1),
            decreases len - pos,
        {
            if bytes[pos] == BACKSLASH && pos + 1 < len {
                pos = pos + 1;
            }
            pos = pos + 1;
        }
        if pos < len {
            Span { start: at, end: pos + 1, kind: TokenKind::Text }
        } else {
            Span { start: at, end: len, kind: TokenKind::Plain }
        }
    } else if (0x30 <= first && first <= 0x39) || first == MINUS || first == PLUS {
        while pos < len && number_part(bytes[pos])
            invariant
                len == bytes@.len(),
                at < pos <= len,
                number_end(bytes@, pos as int) == number_end(bytes@, at + 1),
            decreases len - pos,
        {
            pos = pos + 1;
        }
        Span { start: at, end: pos, kind: TokenKind::Number }
    } else {
        while pos < len && continuation(bytes[pos])
            invariant
                len == bytes@.len(),
                at < pos <= len,
                char_end(bytes@, pos as int) == char_end(bytes@, at + 1),
            decreases len - pos,
        {
            pos = pos + 1;
        }
        Span { start: at, end: pos, kind: TokenKind::Plain }
    }
}

/// Cuts raw text, given as its bytes, into tokens.
pub fn tokenize(bytes: &[u8]) -> (tokens: Vec<Token>)
    ensures
        tokens@ == tokens_from(bytes@, 0),
        bytes@.len() <= usize::MAX,
        covers(tokens@, 0, bytes@.len() as int),
        all_nonempty(tokens@),
{
    let len: usize = bytes.len();
    proof {
        lemma_tokens_cover(bytes@, 0);
    }
    let mut tokens: Vec<Token> = Vec::new();
    let mut current_pos: usize = 0;
    while current_pos < len
        invariant
            len == bytes@.len(),
            current_pos <= len,
            tokens_from(bytes@, 0) == tokens@ + tokens_from(bytes@, current_pos as int),
        decreases len - current_pos,
    {
        let token = scan_token(bytes, current_pos);
        proof {
            lemma_token_advances(bytes@, current_pos as int);
            assert(tokens@ + tokens_from(bytes@, current_pos as int) =~= tokens@.push(token)
                + tokens_from(bytes@, token.end as int));
        }
        current_pos = token.end;
        tokens.push(token);
    }
    assert(tokens@ + tokens_from(bytes@, current_pos as int) =~= tokens@);
    tokens
}

/// Cuts the raw text of the editor into the tokens that it is coloured by.
pub fn json_highlighter(text: &str) -> (tokens: Vec<Token>)
    ensures
        tokens@ == tokens_of(text@),
        encode_utf8(text@).len() <= usize::MAX,
        covers(tokens@, 0, encode_utf8(text@).len() as int),
        all_nonempty(tokens@),
        on_char_boundaries(encode_utf8(text@), tokens@),
{
    let bytes = text.as_bytes();
    let tokens = tokenize(bytes);
    proof {
        lemma_tokens_of_text(text@);
    }
    tokens
}

} // verus!
