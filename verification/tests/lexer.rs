use yada_lang::lexer::{find_first_match, render_listing, Lexer};
use yada_lang::token::{generate_token_patterns, Token, TokenKind, TokenPattern};

fn kinds(tokens: &[Token]) -> Vec<TokenKind> {
    tokens.iter().map(|t| t.kind).collect()
}

fn spans(tokens: &[Token]) -> Vec<(usize, usize)> {
    tokens.iter().map(|t| (t.span.start, t.span.end)).collect()
}

fn table(rules: &[(&str, TokenKind)]) -> Vec<TokenPattern> {
    rules
        .iter()
        .map(|(pattern, kind)| TokenPattern::new(pattern, *kind).unwrap())
        .collect()
}

fn lex(source: &str) -> Vec<Token> {
    Lexer::default().unwrap().tokenize(source).unwrap()
}

#[test]
fn keyword_prefix_of_identifier_is_an_identifier() {
    let tokens = lex("formula");
    assert_eq!(kinds(&tokens), vec![TokenKind::IDENTIFIER, TokenKind::EOF]);
    assert_eq!(spans(&tokens), vec![(0, 7), (7, 7)]);
}

#[test]
fn keyword_alone_is_a_keyword() {
    let tokens = lex("for x");
    assert_eq!(
        kinds(&tokens),
        vec![TokenKind::FOR_KEYWORD, TokenKind::IDENTIFIER, TokenKind::EOF]
    );
    assert_eq!(spans(&tokens), vec![(0, 3), (4, 5), (5, 5)]);
}

#[test]
fn identifiers_that_start_like_keywords() {
    let tokens = lex(
        "iffy constant variable returns elsewhere matches whiles fnord structs enums for_x",
    );
    let mut expected = vec![TokenKind::IDENTIFIER; 11];
    expected.push(TokenKind::EOF);
    assert_eq!(kinds(&tokens), expected);
}

#[test]
fn else_if_is_one_token() {
    let tokens = lex("else if (x) {}");
    assert_eq!(
        kinds(&tokens),
        vec![
            TokenKind::ELSEIF_KEYWORD,
            TokenKind::L_PAREN,
            TokenKind::IDENTIFIER,
            TokenKind::R_PAREN,
            TokenKind::L_CURLY,
            TokenKind::R_CURLY,
            TokenKind::EOF,
        ]
    );
    assert_eq!(
        spans(&tokens),
        vec![(0, 7), (8, 9), (9, 10), (10, 11), (12, 13), (13, 14), (14, 14)]
    );
}

#[test]
fn else_alone_is_else() {
    let tokens = lex("else {}");
    assert_eq!(
        kinds(&tokens),
        vec![
            TokenKind::ELSE_KEYWORD,
            TokenKind::L_CURLY,
            TokenKind::R_CURLY,
            TokenKind::EOF
        ]
    );
}

#[test]
fn unmatched_input_is_an_error_at_its_position() {
    let mut lexer = Lexer::default().unwrap();
    let error = lexer.tokenize("@@@").unwrap_err();
    assert_eq!(error.position, 0);
    assert_eq!(error.remainder, "@@@");
    assert_eq!(lexer.position(), 0);
}

#[test]
fn error_in_the_middle_carries_position_and_remainder() {
    let mut lexer = Lexer::default().unwrap();
    let error = lexer.tokenize("var x = @ 1").unwrap_err();
    assert_eq!(error.position, 8);
    assert_eq!(error.remainder, "@ 1");
    assert_eq!(lexer.position(), 8);
}

#[test]
fn error_does_not_spoil_the_lexer() {
    let mut lexer = Lexer::default().unwrap();
    assert!(lexer.tokenize("a $").is_err());
    lexer.reset_position();
    let tokens = lexer.tokenize("a b").unwrap();
    assert_eq!(
        kinds(&tokens),
        vec![TokenKind::IDENTIFIER, TokenKind::IDENTIFIER, TokenKind::EOF]
    );
}

#[test]
fn empty_source_is_one_end_of_input_token() {
    let tokens = lex("");
    assert_eq!(kinds(&tokens), vec![TokenKind::EOF]);
    assert_eq!(spans(&tokens), vec![(0, 0)]);
}

#[test]
fn blanks_only_is_one_end_of_input_token() {
    let tokens = lex(" \t\n ");
    assert_eq!(kinds(&tokens), vec![TokenKind::EOF]);
    assert_eq!(spans(&tokens), vec![(4, 4)]);
}

#[test]
fn spans_and_blanks_cover_the_source() {
    let source = "fn main() -> int {\n    return 40 + 2; // answer\n}\n";
    let tokens = lex(source);
    let mut position = 0;
    for token in &tokens[..tokens.len() - 1] {
        assert!(token.span.start >= position);
        assert!(source[position..token.span.start].chars().all(char::is_whitespace));
        assert!(token.span.start < token.span.end);
        position = token.span.end;
    }
    assert!(source[position..].chars().all(char::is_whitespace));
    let last = tokens.last().unwrap();
    assert_eq!((last.span.start, last.span.end), (source.len(), source.len()));
}

#[test]
fn exact_tokens_of_a_small_function() {
    let tokens = lex("fn f() -> x { return 1.5; }");
    assert_eq!(
        kinds(&tokens),
        vec![
            TokenKind::FN_KEYWORD,
            TokenKind::IDENTIFIER,
            TokenKind::L_PAREN,
            TokenKind::R_PAREN,
            TokenKind::RETURNS_OP,
            TokenKind::IDENTIFIER,
            TokenKind::L_CURLY,
            TokenKind::RETURN_KEYWORD,
            TokenKind::FLOAT_LITERAL,
            TokenKind::SEMICOLON,
            TokenKind::R_CURLY,
            TokenKind::EOF,
        ]
    );
    assert_eq!(
        spans(&tokens),
        vec![
            (0, 2),
            (3, 4),
            (4, 5),
            (5, 6),
            (7, 9),
            (10, 11),
            (12, 13),
            (14, 20),
            (21, 24),
            (24, 25),
            (26, 27),
            (27, 27),
        ]
    );
}

#[test]
fn output_ends_with_exactly_one_end_of_input_token() {
    let tokens = lex("const a = b ** 2;");
    let count = tokens.iter().filter(|t| t.kind == TokenKind::EOF).count();
    assert_eq!(count, 1);
    assert_eq!(tokens.last().unwrap().kind, TokenKind::EOF);
}

#[test]
fn output_holds_no_blank() {
    let tokens = lex("  a \t b \n c  ");
    assert!(tokens.iter().all(|t| t.kind != TokenKind::WHITESPACE));
    assert_eq!(tokens.len(), 4);
}

#[test]
fn retokenizing_after_reset_gives_the_same_tokens() {
    let source = "while x >= 10 { x -= 1; }";
    let mut lexer = Lexer::default().unwrap();
    let first = lexer.tokenize(source).unwrap();
    lexer.reset_position();
    let second = lexer.tokenize(source).unwrap();
    assert_eq!(kinds(&first), kinds(&second));
    assert_eq!(spans(&first), spans(&second));
    let other = Lexer::default().unwrap().tokenize(source).unwrap();
    assert_eq!(kinds(&first), kinds(&other));
    assert_eq!(spans(&first), spans(&other));
}

#[test]
fn position_stays_at_the_end_without_reset() {
    let mut lexer = Lexer::default().unwrap();
    assert_eq!(lexer.position(), 0);
    lexer.tokenize("a b").unwrap();
    assert_eq!(lexer.position(), 3);
    let again = lexer.tokenize("a b").unwrap();
    assert_eq!(kinds(&again), vec![TokenKind::EOF]);
    assert_eq!(spans(&again), vec![(3, 3)]);
    lexer.reset_position();
    assert_eq!(lexer.position(), 0);
}

#[test]
fn scan_starts_at_the_position_left_behind() {
    let mut lexer = Lexer::default().unwrap();
    lexer.tokenize("ab").unwrap();
    let tokens = lexer.tokenize("xy + z").unwrap();
    assert_eq!(
        kinds(&tokens),
        vec![TokenKind::ADD, TokenKind::IDENTIFIER, TokenKind::EOF]
    );
    assert_eq!(spans(&tokens), vec![(3, 4), (5, 6), (6, 6)]);
}

#[test]
fn position_past_the_end_gives_end_of_input_there() {
    let mut lexer = Lexer::default().unwrap();
    lexer.tokenize("abcdef").unwrap();
    let tokens = lexer.tokenize("ab").unwrap();
    assert_eq!(spans(&tokens), vec![(6, 6)]);
    assert_eq!(lexer.position(), 6);
}

#[test]
fn position_inside_a_character_is_an_error() {
    let mut lexer = Lexer::default().unwrap();
    lexer.tokenize("a").unwrap();
    let error = lexer.tokenize("\u{e9}t\u{e9}").unwrap_err();
    assert_eq!(error.position, 1);
    assert_eq!(error.remainder, "");
    assert_eq!(lexer.position(), 1);
}

#[test]
fn spans_are_byte_offsets() {
    let source = "\"h\u{e9}\" // caf\u{e9}\nx";
    let tokens = lex(source);
    assert_eq!(
        kinds(&tokens),
        vec![
            TokenKind::STRING_LITERAL,
            TokenKind::COMMENT,
            TokenKind::IDENTIFIER,
            TokenKind::EOF
        ]
    );
    assert_eq!(spans(&tokens), vec![(0, 5), (6, 14), (15, 16), (16, 16)]);
    assert_eq!(&source[tokens[0].span.clone()], "\"h\u{e9}\"");
    assert_eq!(&source[tokens[1].span.clone()], "// caf\u{e9}");
}

#[test]
fn character_outside_the_grammar_is_an_error() {
    let mut lexer = Lexer::default().unwrap();
    let error = lexer.tokenize("x \u{e9}").unwrap_err();
    assert_eq!(error.position, 2);
    assert_eq!(error.remainder, "\u{e9}");
}

#[test]
fn literals() {
    assert_eq!(kinds(&lex("12")), vec![TokenKind::INT_LITERAL, TokenKind::EOF]);
    assert_eq!(kinds(&lex("1.25")), vec![TokenKind::FLOAT_LITERAL, TokenKind::EOF]);
    assert_eq!(kinds(&lex(".5")), vec![TokenKind::FLOAT_LITERAL, TokenKind::EOF]);
    assert_eq!(
        kinds(&lex("1.")),
        vec![TokenKind::INT_LITERAL, TokenKind::DOT, TokenKind::EOF]
    );
    assert_eq!(kinds(&lex("\"a b\"")), vec![TokenKind::STRING_LITERAL, TokenKind::EOF]);
    assert_eq!(kinds(&lex("// a b")), vec![TokenKind::COMMENT, TokenKind::EOF]);
    assert_eq!(
        kinds(&lex("// a\nb")),
        vec![TokenKind::COMMENT, TokenKind::IDENTIFIER, TokenKind::EOF]
    );
}

#[test]
fn operators_of_several_characters_win_over_their_prefixes() {
    let cases = [
        ("==", TokenKind::EQ),
        ("!=", TokenKind::NOT_EQ),
        (">=", TokenKind::GREATER_EQ),
        ("<=", TokenKind::LESS_EQ),
        ("+=", TokenKind::ADD_ASSIGN),
        ("-=", TokenKind::SUB_ASSIGN),
        ("/=", TokenKind::DIV_ASSIGN),
        ("*=", TokenKind::MUL_ASSIGN),
        ("%=", TokenKind::MOD_ASSIGN),
        ("**=", TokenKind::POW_ASSIGN),
        ("&=", TokenKind::AND_ASSIGN),
        ("|=", TokenKind::OR_ASSIGN),
        ("^=", TokenKind::XOR_ASSIGN),
        ("**", TokenKind::POW),
        ("->", TokenKind::RETURNS_OP),
    ];
    for (source, kind) in cases {
        let tokens = lex(source);
        assert_eq!(kinds(&tokens), vec![kind, TokenKind::EOF], "{}", source);
        assert_eq!(spans(&tokens), vec![(0, source.len()), (source.len(), source.len())]);
    }
}

#[test]
fn operators_and_punctuation_of_one_character() {
    let cases = [
        ("=", TokenKind::ASSIGN),
        ("+", TokenKind::ADD),
        ("-", TokenKind::SUB),
        ("/", TokenKind::DIV),
        ("*", TokenKind::MUL),
        ("%", TokenKind::MOD),
        ("&", TokenKind::AND),
        ("|", TokenKind::OR),
        ("^", TokenKind::XOR),
        ("!", TokenKind::NOT),
        (">", TokenKind::GREATER),
        ("<", TokenKind::LESS),
        ("[", TokenKind::L_BRACKET),
        ("]", TokenKind::R_BRACKET),
        ("{", TokenKind::L_CURLY),
        ("}", TokenKind::R_CURLY),
        ("(", TokenKind::L_PAREN),
        (")", TokenKind::R_PAREN),
        (",", TokenKind::COMMA),
        (".", TokenKind::DOT),
        (":", TokenKind::COLON),
        (";", TokenKind::SEMICOLON),
    ];
    for (source, kind) in cases {
        assert_eq!(kinds(&lex(source)), vec![kind, TokenKind::EOF], "{}", source);
    }
}

#[test]
fn keywords() {
    let cases = [
        ("const", TokenKind::CONST_KEYWORD),
        ("var", TokenKind::VAR_KEYWORD),
        ("return", TokenKind::RETURN_KEYWORD),
        ("if", TokenKind::IF_KEYWORD),
        ("else", TokenKind::ELSE_KEYWORD),
        ("else if", TokenKind::ELSEIF_KEYWORD),
        ("match", TokenKind::MATCH_KEYWORD),
        ("while", TokenKind::WHILE_KEYWORD),
        ("for", TokenKind::FOR_KEYWORD),
        ("fn", TokenKind::FN_KEYWORD),
        ("struct", TokenKind::STRUCT_KEYWORD),
        ("enum", TokenKind::ENUM_KEYWORD),
        ("from", TokenKind::IDENTIFIER),
        ("import", TokenKind::IDENTIFIER),
    ];
    for (source, kind) in cases {
        assert_eq!(kinds(&lex(source)), vec![kind, TokenKind::EOF], "{}", source);
    }
}

#[test]
fn first_rule_wins_whatever_the_length() {
    let mut lexer = Lexer::new(table(&[
        ("^a", TokenKind::ADD),
        ("^ab", TokenKind::SUB),
        ("^b", TokenKind::MUL),
    ]));
    let tokens = lexer.tokenize("ab").unwrap();
    assert_eq!(
        kinds(&tokens),
        vec![TokenKind::ADD, TokenKind::MUL, TokenKind::EOF]
    );
    assert_eq!(spans(&tokens), vec![(0, 1), (1, 2), (2, 2)]);

    let mut reordered = Lexer::new(table(&[
        ("^ab", TokenKind::SUB),
        ("^a", TokenKind::ADD),
        ("^b", TokenKind::MUL),
    ]));
    let tokens = reordered.tokenize("ab").unwrap();
    assert_eq!(kinds(&tokens), vec![TokenKind::SUB, TokenKind::EOF]);
}

#[test]
fn match_behind_the_scan_position_does_not_count() {
    let mut lexer = Lexer::new(table(&[("b", TokenKind::MUL)]));
    let error = lexer.tokenize("ab").unwrap_err();
    assert_eq!(error.position, 0);
    assert_eq!(error.remainder, "ab");
}

#[test]
fn empty_match_does_not_count() {
    let mut lexer = Lexer::new(table(&[
        ("^x*", TokenKind::MUL),
        ("^a", TokenKind::ADD),
    ]));
    let tokens = lexer.tokenize("axx").unwrap();
    assert_eq!(
        kinds(&tokens),
        vec![TokenKind::ADD, TokenKind::MUL, TokenKind::EOF]
    );
    assert_eq!(spans(&tokens), vec![(0, 1), (1, 3), (3, 3)]);

    let mut only_empty = Lexer::new(table(&[("^x*", TokenKind::MUL)]));
    let error = only_empty.tokenize("a").unwrap_err();
    assert_eq!(error.position, 0);
}

#[test]
fn empty_table_matches_nothing() {
    let mut lexer = Lexer::new(Vec::new());
    assert_eq!(kinds(&lexer.tokenize("").unwrap()), vec![TokenKind::EOF]);
    let error = lexer.tokenize("a").unwrap_err();
    assert_eq!(error.position, 0);
    assert_eq!(error.remainder, "a");
}

#[test]
fn rule_of_the_end_of_input_kind_yields_it_in_the_middle() {
    let mut lexer = Lexer::new(table(&[
        ("^;", TokenKind::EOF),
        ("^a", TokenKind::ADD),
    ]));
    let tokens = lexer.tokenize("a;a").unwrap();
    assert_eq!(
        kinds(&tokens),
        vec![TokenKind::ADD, TokenKind::EOF, TokenKind::ADD, TokenKind::EOF]
    );
}

#[test]
fn find_first_match_gives_kind_and_length() {
    let patterns = generate_token_patterns().unwrap();
    assert_eq!(
        find_first_match(&patterns, "return x"),
        Some((TokenKind::RETURN_KEYWORD, 6))
    );
    assert_eq!(
        find_first_match(&patterns, "returned"),
        Some((TokenKind::IDENTIFIER, 8))
    );
    assert_eq!(find_first_match(&patterns, "  x"), Some((TokenKind::WHITESPACE, 2)));
    assert_eq!(find_first_match(&patterns, "#"), None);
    assert_eq!(find_first_match(&patterns, ""), None);
}

#[test]
fn listing_has_one_line_for_each_token() {
    let mut lexer = Lexer::default().unwrap();
    let text = lexer.tokenize_and_pretty_print("var x = \"h\u{e9}\";").unwrap();
    let lines = [
        "VAR_KEYWORD: var\n",
        "IDENTIFIER: x\n",
        "ASSIGN: =\n",
        "STRING_LITERAL: \"h\u{e9}\"\n",
        "SEMICOLON: ;\n",
        "EOF: \n",
    ];
    assert_eq!(text, lines.concat());
    assert_eq!(lexer.position(), 14);
}

#[test]
fn listing_of_an_unmatched_source_is_the_error() {
    let mut lexer = Lexer::default().unwrap();
    let error = lexer.tokenize_and_pretty_print("x ?").unwrap_err();
    assert_eq!(error.position, 2);
    assert_eq!(error.remainder, "?");
}

#[test]
fn listing_shows_nothing_for_a_span_outside_the_text() {
    let tokens = vec![
        Token::new(TokenKind::IDENTIFIER, 0..2),
        Token::new(TokenKind::INT_LITERAL, 1..9),
        Token::new(TokenKind::ADD, 2..1),
        Token::new(TokenKind::COMMENT, 1..2),
        Token::new(TokenKind::EOF, 7..7),
    ];
    let text = render_listing(&tokens, "a\u{e9}b");
    assert_eq!(text, "IDENTIFIER: \nINT_LITERAL: \nADD: \nCOMMENT: \nEOF: \n");
    let inside = vec![
        Token::new(TokenKind::IDENTIFIER, 0..3),
        Token::new(TokenKind::COMMENT, 1..3),
        Token::new(TokenKind::EOF, 4..4),
    ];
    let text = render_listing(&inside, "a\u{e9}b");
    assert_eq!(text, "IDENTIFIER: a\u{e9}\nCOMMENT: \u{e9}\nEOF: \n");
}
