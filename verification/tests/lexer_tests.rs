use epubcontract::cfi::Token;
use epubcontract::lexer::{
    att_to_token, html_to_token, tag_to_token, trim_quotes_str, Attribute, Html, LexicalError,
    ModeAdapter, ModeToken, ModesType, Script, Style, Tag, Tokens,
};

#[test]
fn a_new_adapter_has_no_mode() {
    let a = ModeAdapter::new();
    assert_eq!(a.current_mode, ModesType::NoMode);
    assert_eq!(a.lexers_stack, vec![ModesType::NoMode]);
    let d = ModeAdapter::default();
    assert_eq!(d.lexers_stack, vec![ModesType::NoMode]);
}

#[test]
fn opening_a_tag_and_closing_it_returns_to_markup() {
    let mut a = ModeAdapter::new();
    a.initialize(ModesType::Html);
    assert_eq!(a.lexers_stack, vec![ModesType::NoMode, ModesType::Html]);
    let r = a.next(Some(ModeToken::Html(Html::TagOpen("<p"))), 0, 2);
    assert!(matches!(r, Some(Ok((0, Tokens::TagOpen("<p"), 2)))));
    assert_eq!(a.current_mode, ModesType::Tag);
    assert_eq!(a.lexers_stack, vec![ModesType::NoMode, ModesType::Html, ModesType::Tag]);
    let r = a.next(Some(ModeToken::Tag(Tag::TagName("p"))), 2, 3);
    assert!(matches!(r, Some(Ok((2, Tokens::TagName("p"), 3)))));
    assert_eq!(a.current_mode, ModesType::Tag);
    let r = a.next(Some(ModeToken::Tag(Tag::TagClose(">"))), 3, 4);
    assert!(matches!(r, Some(Ok((3, Tokens::TagClose(">"), 4)))));
    assert_eq!(a.current_mode, ModesType::Html);
    assert_eq!(a.lexers_stack, vec![ModesType::NoMode, ModesType::Html]);
}

#[test]
fn an_attribute_value_is_read_in_its_own_mode_without_quotes() {
    let mut a = ModeAdapter::new();
    a.initialize(ModesType::Html);
    a.next(Some(ModeToken::Html(Html::TagOpen("<a"))), 0, 2);
    a.next(Some(ModeToken::Tag(Tag::TagEquals("="))), 7, 8);
    assert_eq!(a.current_mode, ModesType::Attribute);
    let r = a.next(Some(ModeToken::Attribute(Attribute::Attribute("\"x.html\""))), 8, 16);
    assert!(matches!(r, Some(Ok((8, Tokens::AttributeValue("x.html"), 16)))));
    assert_eq!(a.current_mode, ModesType::Tag);
    a.next(Some(ModeToken::Tag(Tag::TagSlashClose("/>"))), 16, 18);
    assert_eq!(a.current_mode, ModesType::Html);
}

#[test]
fn scripts_and_styles_end_with_their_body() {
    let mut a = ModeAdapter::new();
    a.initialize(ModesType::Html);
    a.next(Some(ModeToken::Html(Html::ScriptOpen("<script"))), 0, 7);
    assert_eq!(a.current_mode, ModesType::Script);
    let r = a.next(Some(ModeToken::Script(Script::ScriptBody("x()</script>"))), 7, 19);
    assert!(matches!(r, Some(Ok((7, Tokens::ScriptBody(_), 19)))));
    assert_eq!(a.current_mode, ModesType::Html);
    a.next(Some(ModeToken::Html(Html::StyleOpen("<style"))), 19, 25);
    assert_eq!(a.current_mode, ModesType::Style);
    a.next(Some(ModeToken::Style(Style::StyleShortBody("/>"))), 25, 27);
    assert_eq!(a.current_mode, ModesType::Html);
    assert_eq!(a.lexers_stack, vec![ModesType::NoMode, ModesType::Html]);
}

#[test]
fn the_end_of_the_text_gives_no_token() {
    let mut a = ModeAdapter::new();
    a.initialize(ModesType::Html);
    assert!(a.next(None, 5, 5).is_none());
    assert_eq!(a.current_mode, ModesType::Html);
}

#[test]
fn errors_and_white_space_are_unexpected() {
    assert!(matches!(html_to_token(Html::SeaWS, 0, 1), Err(LexicalError::UnexpectedConversionToken)));
    assert!(matches!(html_to_token(Html::Error, 0, 1), Err(LexicalError::UnexpectedConversionToken)));
    assert!(matches!(tag_to_token(Tag::Error, 0, 1), Err(LexicalError::UnexpectedConversionToken)));
    assert!(matches!(att_to_token(Attribute::Error, 0, 1), Err(LexicalError::UnexpectedConversionToken)));
    assert!(matches!(tag_to_token(Tag::TagWhiteSpace, 1, 2), Ok((1, Tokens::TagWhiteSpace, 2))));
    assert!(matches!(
        html_to_token(Html::HtmlComment("<!-- c -->"), 0, 10),
        Ok((0, Tokens::HtmlConditionalComment("<!-- c -->"), 10))
    ));
}

#[test]
fn trim_quotes_removes_the_surrounding_quotes() {
    assert_eq!(trim_quotes_str("\"abc\""), "abc");
    assert_eq!(trim_quotes_str("\"\"a\"b\"\""), "a\"b");
    assert_eq!(trim_quotes_str("abc"), "abc");
    assert_eq!(trim_quotes_str("\"\"\""), "");
    assert_eq!(trim_quotes_str(""), "");
}

#[test]
fn cfi_tokens_carry_their_text() {
    let t = Token::Integer("12");
    assert!(matches!(t, Token::Integer("12")));
    assert!(matches!(Token::Slash, Token::Slash));
}
