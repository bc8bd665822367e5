use json_formatter::highlight::SectionStyle;
use json_formatter::palette::{section_colors, token_color, Rgb};
use json_formatter::syntax::TokenKind;

#[test]
fn tokens_have_their_colours() {
    assert_eq!(token_color(TokenKind::Text), Some(Rgb { red: 255, green: 150, blue: 80 }));
    assert_eq!(token_color(TokenKind::Number), Some(Rgb { red: 150, green: 200, blue: 255 }));
    assert_eq!(token_color(TokenKind::Boolean), Some(Rgb { red: 150, green: 255, blue: 150 }));
    assert_eq!(token_color(TokenKind::Null), Some(Rgb { red: 255, green: 150, blue: 255 }));
    assert_eq!(token_color(TokenKind::Plain), None);
}

#[test]
fn a_match_is_black_on_yellow() {
    assert_eq!(
        section_colors(SectionStyle::Highlighted),
        Some((Rgb { red: 0, green: 0, blue: 0 }, Rgb { red: 255, green: 255, blue: 0 }))
    );
    assert_eq!(section_colors(SectionStyle::Plain), None);
}
