use json_formatter::highlight::{
    char_width, create_highlighted_layout_sections, fold_text, lower_bytes_of, occurs_here,
    scan_sections, LayoutSection, Piece, SectionStyle,
};
use json_formatter::span::Span;

fn plain(start: usize, end: usize) -> LayoutSection {
    Span { start, end, kind: SectionStyle::Plain }
}

fn hit(start: usize, end: usize) -> LayoutSection {
    Span { start, end, kind: SectionStyle::Highlighted }
}

fn lies_end_to_end(sections: &[LayoutSection], len: usize) -> bool {
    let mut at = 0;
    for section in sections {
        if section.start != at || section.end < section.start {
            return false;
        }
        at = section.end;
    }
    at == len
}

#[test]
fn empty_query_gives_one_plain_section() {
    assert_eq!(create_highlighted_layout_sections("Hello", ""), vec![plain(0, 5)]);
    assert_eq!(create_highlighted_layout_sections("héllo wörld", ""), vec![plain(0, 13)]);
}

#[test]
fn empty_query_on_empty_text_gives_one_empty_section() {
    assert_eq!(create_highlighted_layout_sections("", ""), vec![plain(0, 0)]);
}

#[test]
fn empty_text_with_a_query_gives_no_section() {
    assert_eq!(create_highlighted_layout_sections("", "a"), Vec::<LayoutSection>::new());
}

#[test]
fn matches_alternate_with_plain_text() {
    assert_eq!(
        create_highlighted_layout_sections("Hello World", "o"),
        vec![plain(0, 4), hit(4, 5), plain(5, 7), hit(7, 8), plain(8, 11)]
    );
}

#[test]
fn match_at_both_ends_leaves_no_empty_section() {
    assert_eq!(
        create_highlighted_layout_sections("abcab", "ab"),
        vec![hit(0, 2), plain(2, 3), hit(3, 5)]
    );
}

#[test]
fn search_ignores_case_of_text_and_query() {
    assert_eq!(create_highlighted_layout_sections("HELLO", "hello"), vec![hit(0, 5)]);
    assert_eq!(create_highlighted_layout_sections("hello", "HELLO"), vec![hit(0, 5)]);
    assert_eq!(
        create_highlighted_layout_sections("\"UserName\":", "NAME"),
        vec![plain(0, 5), hit(5, 9), plain(9, 11)]
    );
}

#[test]
fn overlapping_matches_take_the_leftmost() {
    assert_eq!(create_highlighted_layout_sections("aaa", "aa"), vec![hit(0, 2), plain(2, 3)]);
    assert_eq!(create_highlighted_layout_sections("aaaa", "aa"), vec![hit(0, 2), hit(2, 4)]);
}

#[test]
fn touching_matches_have_no_plain_section_between() {
    assert_eq!(create_highlighted_layout_sections("aa", "a"), vec![hit(0, 1), hit(1, 2)]);
}

#[test]
fn text_without_a_match_is_one_plain_section() {
    assert_eq!(create_highlighted_layout_sections("abc", "x"), vec![plain(0, 3)]);
    assert_eq!(create_highlighted_layout_sections("ab", "abc"), vec![plain(0, 2)]);
}

#[test]
fn sections_are_byte_ranges() {
    assert_eq!(
        create_highlighted_layout_sections("née Müller", "mü"),
        vec![plain(0, 5), hit(5, 8), plain(8, 12)]
    );
}

#[test]
fn sections_lie_end_to_end_over_the_text() {
    let cases = [
        ("Hello World", "o"),
        ("abcab", "ab"),
        ("aaaa", "aa"),
        ("{\"key\": \"value\"}", "E"),
        ("no match here", "zzz"),
        ("x", "x"),
    ];
    for (text, query) in cases {
        let sections = create_highlighted_layout_sections(text, query);
        assert!(lies_end_to_end(&sections, text.len()));
        assert!(sections.iter().all(|section| section.start < section.end));
    }
}

fn piece(width: usize, lowered: &str) -> Piece {
    Piece { width, lowered: lowered.as_bytes().to_vec() }
}

fn on_char_boundaries(text: &str, sections: &[LayoutSection]) -> bool {
    sections.iter().all(|s| text.is_char_boundary(s.start) && text.is_char_boundary(s.end))
}

#[test]
fn offsets_are_those_of_the_text_where_lowercase_is_longer() {
    // U+0130 takes two bytes and its lowercase form three.
    assert_eq!(create_highlighted_layout_sections("\u{130}a", "a"), vec![plain(0, 2), hit(2, 3)]);
    assert_eq!(create_highlighted_layout_sections("\u{130}", "\u{307}"), vec![hit(0, 2)]);
    assert_eq!(create_highlighted_layout_sections("\u{130}", "i"), vec![hit(0, 2)]);
    assert_eq!(
        create_highlighted_layout_sections("a\u{130}\u{130}b", "\u{307}i"),
        vec![plain(0, 1), hit(1, 5), plain(5, 6)]
    );
}

#[test]
fn offsets_are_those_of_the_text_where_lowercase_is_shorter() {
    // U+212A takes three bytes and its lowercase form one.
    assert_eq!(
        create_highlighted_layout_sections("\u{212a}a", "a"),
        vec![plain(0, 3), hit(3, 4)]
    );
    assert_eq!(create_highlighted_layout_sections("\u{212a}a", "k"), vec![hit(0, 3), plain(3, 4)]);
    assert_eq!(create_highlighted_layout_sections("\u{212a}a", "KA"), vec![hit(0, 4)]);
}

#[test]
fn every_letter_is_compared_in_lowercase_by_itself() {
    // each of the four letters takes two bytes
    assert_eq!(
        create_highlighted_layout_sections("\u{39f}\u{394}\u{39f}\u{3a3}", "\u{3c3}"),
        vec![plain(0, 6), hit(6, 8)]
    );
    assert_eq!(
        create_highlighted_layout_sections("\u{3bf}\u{3b4}\u{3bf}\u{3c3}", "\u{3a3}"),
        vec![plain(0, 6), hit(6, 8)]
    );
}

#[test]
fn sections_cover_any_text_on_character_boundaries() {
    let cases = [
        ("\u{130}a", "a"),
        ("\u{130}", "\u{307}"),
        ("\u{130}\u{130}", "i\u{307}i"),
        ("\u{212a}a\u{212a}", "a"),
        ("\u{212a}\u{130}x", "k"),
        ("née Müller", "É"),
        ("日本語のテキスト", "の"),
        ("𝄞a𝄞", "A"),
        ("", "x"),
    ];
    for (text, query) in cases {
        let sections = create_highlighted_layout_sections(text, query);
        assert!(lies_end_to_end(&sections, text.len()));
        assert!(sections.iter().all(|section| section.start < section.end));
        assert!(on_char_boundaries(text, &sections));
    }
}

#[test]
fn changing_case_leaves_the_sections_of_ascii_text_alone() {
    let cases = [("Hello World", "lO"), ("{\"Key\": \"VALUE\"}", "e"), ("aAaA", "Aa")];
    for (text, query) in cases {
        let want = create_highlighted_layout_sections(text, query);
        assert_eq!(create_highlighted_layout_sections(text, &query.to_uppercase()), want);
        assert_eq!(create_highlighted_layout_sections(text, &query.to_lowercase()), want);
        assert_eq!(create_highlighted_layout_sections(&text.to_uppercase(), query), want);
        assert_eq!(create_highlighted_layout_sections(&text.to_lowercase(), query), want);
    }
}

#[test]
fn char_width_counts_the_bytes_of_a_character() {
    for c in ['a', '\u{7f}', '\u{80}', 'é', '\u{7ff}', '\u{800}', '€', '\u{ffff}', '\u{10000}', '𝄞'] {
        assert_eq!(char_width(c), c.len_utf8());
    }
}

#[test]
fn fold_text_takes_a_text_apart() {
    assert_eq!(fold_text(""), Vec::<Piece>::new());
    assert_eq!(
        fold_text("Aé\u{130}\u{212a}"),
        vec![piece(1, "a"), piece(2, "é"), piece(2, "i\u{307}"), piece(3, "k")]
    );
}

#[test]
fn occurs_here_compares_bytes() {
    assert!(occurs_here(b"hello", b"ll", 2));
    assert!(!occurs_here(b"hello", b"ll", 1));
    assert!(!occurs_here(b"hello", b"lo!", 3));
    assert!(occurs_here(b"hello", b"", 5));
    assert!(!occurs_here(b"hello", b"", 6));
    assert!(!occurs_here(b"", b"a", 0));
}

#[test]
fn scan_lays_out_given_pieces() {
    let hello = vec![piece(1, "h"), piece(1, "e"), piece(1, "l"), piece(1, "l"), piece(1, "o")];
    assert_eq!(scan_sections(&hello, b"l"), vec![plain(0, 2), hit(2, 3), hit(3, 4), plain(4, 5)]);
    assert_eq!(scan_sections(&hello, b""), vec![plain(0, 5)]);
    assert_eq!(scan_sections(&hello, b"lo"), vec![plain(0, 3), hit(3, 5)]);
    assert_eq!(scan_sections(&hello, b"x"), vec![plain(0, 5)]);
    assert_eq!(scan_sections(&Vec::new(), b"a"), Vec::<LayoutSection>::new());
    assert_eq!(scan_sections(&Vec::new(), b""), vec![plain(0, 0)]);
}

#[test]
fn scan_marks_whole_characters() {
    // a character of two bytes with a lowercase form of three, then one of one
    let pieces = vec![piece(2, "abc"), piece(1, "d")];
    assert_eq!(scan_sections(&pieces, b"b"), vec![hit(0, 2), plain(2, 3)]);
    assert_eq!(scan_sections(&pieces, b"cd"), vec![hit(0, 3)]);
    assert_eq!(scan_sections(&pieces, b"d"), vec![plain(0, 2), hit(2, 3)]);
    // the search goes on behind the character of the last match
    let twice = vec![piece(4, "aa"), piece(1, "a")];
    assert_eq!(scan_sections(&twice, b"a"), vec![hit(0, 4), hit(4, 5)]);
}

#[test]
fn ascii_is_compared_as_the_lowercase_of_its_letters() {
    for code in 0u8..128 {
        let c = code as char;
        let want: String = c.to_lowercase().collect();
        assert_eq!(lower_bytes_of(c), want.into_bytes());
    }
    assert_eq!(lower_bytes_of('A'), b"a".to_vec());
    assert_eq!(lower_bytes_of('Z'), b"z".to_vec());
    assert_eq!(lower_bytes_of('@'), b"@".to_vec());
    assert_eq!(lower_bytes_of('['), b"[".to_vec());
}

#[test]
fn other_characters_are_compared_as_their_lowercase_form() {
    assert_eq!(lower_bytes_of('É'), "é".as_bytes().to_vec());
    assert_eq!(lower_bytes_of('é'), "é".as_bytes().to_vec());
    assert_eq!(lower_bytes_of('\u{130}'), "i\u{307}".as_bytes().to_vec());
    assert_eq!(lower_bytes_of('\u{212a}'), b"k".to_vec());
    assert_eq!(lower_bytes_of('日'), "日".as_bytes().to_vec());
}
