use ppl::syntax::keyword::Keyword;
use ppl::syntax::ranged::Ranged;
use ppl::syntax::token::Token;

#[test]
fn keyword_len() {
    let keyword = Keyword::at("loop", 0);
    assert_eq!(keyword.len(), 4);
}

#[test]
fn keyword_as_ref() {
    let keyword = Keyword::at("loop", 0);
    assert_eq!(keyword.as_str(), "loop");
}

#[test]
fn keyword_range() {
    let keyword = Keyword::at("loop", 0);
    assert_eq!(keyword.range(), 0..4);
}

#[test]
fn keyword_as_token_and_offset() {
    let keyword = Keyword::at("return", 7);
    assert_eq!(keyword.as_token(), Token::Return);
    assert_eq!(keyword.as_str(), "return");
    assert_eq!(keyword.range(), 7..13);
    assert_eq!(keyword.offset, 7);
}

#[test]
fn keyword_tokens_show_their_words() {
    for word in [
        "none", "let", "mut", "type", "fn", "return", "if", "else", "true", "false", "loop",
        "while", "trait", "use",
    ] {
        let keyword = Keyword::at(word, 0);
        assert_eq!(keyword.as_token().to_string(), word);
    }
}

#[test]
fn any_word_has_a_range() {
    let keyword = Keyword::at("dëf", 3);
    assert_eq!(keyword.len(), 4);
    assert_eq!(keyword.range(), 3..7);
}
