//! The lexer's token streams, exercised through the public stream helpers.

use rlox::lexer::get_tokens;
use rlox::lexer::get_tokens_no_trivia;
use rlox::token::Token;
use rlox::token::TokenType;

#[test]
fn lexer_delimeters() {
    let tokens = get_tokens("(   ) {   } ,   . -   + ;   / *   ");
    let expected_tokens = vec![
        Token::new(TokenType::LeftParen, "(", 1),
        Token::new(TokenType::Whitespace, "   ", 1),
        Token::new(TokenType::RightParen, ")", 1),
        Token::new(TokenType::Whitespace, " ", 1),
        Token::new(TokenType::LeftBrace, "{", 1),
        Token::new(TokenType::Whitespace, "   ", 1),
        Token::new(TokenType::RightBrace, "}", 1),
        Token::new(TokenType::Whitespace, " ", 1),
        Token::new(TokenType::Comma, ",", 1),
        Token::new(TokenType::Whitespace, "   ", 1),
        Token::new(TokenType::Dot, ".", 1),
        Token::new(TokenType::Whitespace, " ", 1),
        Token::new(TokenType::Minus, "-", 1),
        Token::new(TokenType::Whitespace, "   ", 1),
        Token::new(TokenType::Plus, "+", 1),
        Token::new(TokenType::Whitespace, " ", 1),
        Token::new(TokenType::Semicolon, ";", 1),
        Token::new(TokenType::Whitespace, "   ", 1),
        Token::new(TokenType::Slash, "/", 1),
        Token::new(TokenType::Whitespace, " ", 1),
        Token::new(TokenType::Star, "*", 1),
        Token::new(TokenType::Whitespace, "   ", 1),
    ];
    assert_eq!(tokens, expected_tokens);
}

#[test]
fn lexer_comparators() {
    let tokens = get_tokens("   ! != = == > >= < <=   \n");
    let expected_tokens = vec![
        Token::new(TokenType::Whitespace, "   ", 1),
        Token::new(TokenType::Bang, "!", 1),
        Token::new(TokenType::Whitespace, " ", 1),
        Token::new(TokenType::BangEqual, "!=", 1),
        Token::new(TokenType::Whitespace, " ", 1),
        Token::new(TokenType::Equal, "=", 1),
        Token::new(TokenType::Whitespace, " ", 1),
        Token::new(TokenType::EqualEqual, "==", 1),
        Token::new(TokenType::Whitespace, " ", 1),
        Token::new(TokenType::Greater, ">", 1),
        Token::new(TokenType::Whitespace, " ", 1),
        Token::new(TokenType::GreaterEqual, ">=", 1),
        Token::new(TokenType::Whitespace, " ", 1),
        Token::new(TokenType::Less, "<", 1),
        Token::new(TokenType::Whitespace, " ", 1),
        Token::new(TokenType::LessEqual, "<=", 1),
        Token::new(TokenType::Whitespace, "   ", 1),
        Token::new(TokenType::Newline, "\n", 2),
    ];
    assert_eq!(tokens, expected_tokens);
}

#[test]
fn lexer_identifiers() {
    let tokens = get_tokens(" x * 5 - foo   /bar + baz\n");
    let expected_tokens = vec![
        Token::new(TokenType::Whitespace, " ", 1),
        Token::new(TokenType::Identifier, "x", 1),
        Token::new(TokenType::Whitespace, " ", 1),
        Token::new(TokenType::Star, "*", 1),
        Token::new(TokenType::Whitespace, " ", 1),
        Token::new(TokenType::Number, "5", 1),
        Token::new(TokenType::Whitespace, " ", 1),
        Token::new(TokenType::Minus, "-", 1),
        Token::new(TokenType::Whitespace, " ", 1),
        Token::new(TokenType::Identifier, "foo", 1),
        Token::new(TokenType::Whitespace, "   ", 1),
        Token::new(TokenType::Slash, "/", 1),
        Token::new(TokenType::Identifier, "bar", 1),
        Token::new(TokenType::Whitespace, " ", 1),
        Token::new(TokenType::Plus, "+", 1),
        Token::new(TokenType::Whitespace, " ", 1),
        Token::new(TokenType::Identifier, "baz", 1),
        Token::new(TokenType::Newline, "\n", 2),
    ];
    assert_eq!(tokens, expected_tokens);
}

#[test]
fn lexer_numbers() {
    let tokens = get_tokens(" x * 1.1/ 52.68 *654.7 - 7");
    let expected_tokens = vec![
        Token::new(TokenType::Whitespace, " ", 1),
        Token::new(TokenType::Identifier, "x", 1),
        Token::new(TokenType::Whitespace, " ", 1),
        Token::new(TokenType::Star, "*", 1),
        Token::new(TokenType::Whitespace, " ", 1),
        Token::new(TokenType::Number, "1.1", 1),
        Token::new(TokenType::Slash, "/", 1),
        Token::new(TokenType::Whitespace, " ", 1),
        Token::new(TokenType::Number, "52.68", 1),
        Token::new(TokenType::Whitespace, " ", 1),
        Token::new(TokenType::Star, "*", 1),
        Token::new(TokenType::Number, "654.7", 1),
        Token::new(TokenType::Whitespace, " ", 1),
        Token::new(TokenType::Minus, "-", 1),
        Token::new(TokenType::Whitespace, " ", 1),
        Token::new(TokenType::Number, "7", 1),
    ];
    assert_eq!(tokens, expected_tokens);
}

#[test]
fn lexer_strings() {
    let tokens = get_tokens("  \"Hello World!\"  ");
    let expected_tokens = vec![
        Token::new(TokenType::Whitespace, "  ", 1),
        Token::new(TokenType::String, "\"Hello World!\"", 1),
        Token::new(TokenType::Whitespace, "  ", 1),
    ];
    assert_eq!(tokens, expected_tokens);
}

#[test]
fn lexer_multiline_strings() {
    let tokens = get_tokens("  \"Hello World! \n after newline \"  ");
    let expected_tokens = vec![
        Token::new(TokenType::Whitespace, "  ", 1),
        Token::new(TokenType::String, "\"Hello World! \n after newline \"", 2),
        Token::new(TokenType::Whitespace, "  ", 2),
    ];
    assert_eq!(tokens, expected_tokens);
}

#[test]
fn lexer_keywords() {
    let tokens = get_tokens("and class else false for fun if nil or print return super this true var while");
    let expected_tokens = vec![
        Token::new(TokenType::And, "and", 1),
        Token::new(TokenType::Whitespace, " ", 1),
        Token::new(TokenType::Class, "class", 1),
        Token::new(TokenType::Whitespace, " ", 1),
        Token::new(TokenType::Else, "else", 1),
        Token::new(TokenType::Whitespace, " ", 1),
        Token::new(TokenType::False, "false", 1),
        Token::new(TokenType::Whitespace, " ", 1),
        Token::new(TokenType::For, "for", 1),
        Token::new(TokenType::Whitespace, " ", 1),
        Token::new(TokenType::Fun, "fun", 1),
        Token::new(TokenType::Whitespace, " ", 1),
        Token::new(TokenType::If, "if", 1),
        Token::new(TokenType::Whitespace, " ", 1),
        Token::new(TokenType::Nil, "nil", 1),
        Token::new(TokenType::Whitespace, " ", 1),
        Token::new(TokenType::Or, "or", 1),
        Token::new(TokenType::Whitespace, " ", 1),
        Token::new(TokenType::Print, "print", 1),
        Token::new(TokenType::Whitespace, " ", 1),
        Token::new(TokenType::Return, "return", 1),
        Token::new(TokenType::Whitespace, " ", 1),
        Token::new(TokenType::Super, "super", 1),
        Token::new(TokenType::Whitespace, " ", 1),
        Token::new(TokenType::This, "this", 1),
        Token::new(TokenType::Whitespace, " ", 1),
        Token::new(TokenType::True, "true", 1),
        Token::new(TokenType::Whitespace, " ", 1),
        Token::new(TokenType::Var, "var", 1),
        Token::new(TokenType::Whitespace, " ", 1),
        Token::new(TokenType::While, "while", 1),
    ];
    assert_eq!(tokens, expected_tokens);
}

#[test]
fn lexer_not_keywords_long() {
    let tokens = get_tokens("andy classy elset falset forum funny iffy nilli ores prints returning superstition thisx truex variation whilex");
    let expected_tokens = vec![
        Token::new(TokenType::Identifier, "andy", 1),
        Token::new(TokenType::Whitespace, " ", 1),
        Token::new(TokenType::Identifier, "classy", 1),
        Token::new(TokenType::Whitespace, " ", 1),
        Token::new(TokenType::Identifier, "elset", 1),
        Token::new(TokenType::Whitespace, " ", 1),
        Token::new(TokenType::Identifier, "falset", 1),
        Token::new(TokenType::Whitespace, " ", 1),
        Token::new(TokenType::Identifier, "forum", 1),
        Token::new(TokenType::Whitespace, " ", 1),
        Token::new(TokenType::Identifier, "funny", 1),
        Token::new(TokenType::Whitespace, " ", 1),
        Token::new(TokenType::Identifier, "iffy", 1),
        Token::new(TokenType::Whitespace, " ", 1),
        Token::new(TokenType::Identifier, "nilli", 1),
        Token::new(TokenType::Whitespace, " ", 1),
        Token::new(TokenType::Identifier, "ores", 1),
        Token::new(TokenType::Whitespace, " ", 1),
        Token::new(TokenType::Identifier, "prints", 1),
        Token::new(TokenType::Whitespace, " ", 1),
        Token::new(TokenType::Identifier, "returning", 1),
        Token::new(TokenType::Whitespace, " ", 1),
        Token::new(TokenType::Identifier, "superstition", 1),
        Token::new(TokenType::Whitespace, " ", 1),
        Token::new(TokenType::Identifier, "thisx", 1),
        Token::new(TokenType::Whitespace, " ", 1),
        Token::new(TokenType::Identifier, "truex", 1),
        Token::new(TokenType::Whitespace, " ", 1),
        Token::new(TokenType::Identifier, "variation", 1),
        Token::new(TokenType::Whitespace, " ", 1),
        Token::new(TokenType::Identifier, "whilex", 1),
    ];
    assert_eq!(tokens, expected_tokens);
}

#[test]
fn lexer_not_keywords_short() {
    let tokens = get_tokens("an clas els fals fo fu i ni o prin retur supe thi tru va whil");
    let expected_tokens = vec![
        Token::new(TokenType::Identifier, "an", 1),
        Token::new(TokenType::Whitespace, " ", 1),
        Token::new(TokenType::Identifier, "clas", 1),
        Token::new(TokenType::Whitespace, " ", 1),
        Token::new(TokenType::Identifier, "els", 1),
        Token::new(TokenType::Whitespace, " ", 1),
        Token::new(TokenType::Identifier, "fals", 1),
        Token::new(TokenType::Whitespace, " ", 1),
        Token::new(TokenType::Identifier, "fo", 1),
        Token::new(TokenType::Whitespace, " ", 1),
        Token::new(TokenType::Identifier, "fu", 1),
        Token::new(TokenType::Whitespace, " ", 1),
        Token::new(TokenType::Identifier, "i", 1),
        Token::new(TokenType::Whitespace, " ", 1),
        Token::new(TokenType::Identifier, "ni", 1),
        Token::new(TokenType::Whitespace, " ", 1),
        Token::new(TokenType::Identifier, "o", 1),
        Token::new(TokenType::Whitespace, " ", 1),
        Token::new(TokenType::Identifier, "prin", 1),
        Token::new(TokenType::Whitespace, " ", 1),
        Token::new(TokenType::Identifier, "retur", 1),
        Token::new(TokenType::Whitespace, " ", 1),
        Token::new(TokenType::Identifier, "supe", 1),
        Token::new(TokenType::Whitespace, " ", 1),
        Token::new(TokenType::Identifier, "thi", 1),
        Token::new(TokenType::Whitespace, " ", 1),
        Token::new(TokenType::Identifier, "tru", 1),
        Token::new(TokenType::Whitespace, " ", 1),
        Token::new(TokenType::Identifier, "va", 1),
        Token::new(TokenType::Whitespace, " ", 1),
        Token::new(TokenType::Identifier, "whil", 1),
    ];
    assert_eq!(tokens, expected_tokens);
}

#[test]
fn lexer_for_loop() {
    let tokens = get_tokens_no_trivia("for (var i = 1; i < 5; i = i + 1) {\n        print i * i;\n      }");
    let expected_tokens = vec![
        Token::new(TokenType::For, "for", 1),
        Token::new(TokenType::LeftParen, "(", 1),
        Token::new(TokenType::Var, "var", 1),
        Token::new(TokenType::Identifier, "i", 1),
        Token::new(TokenType::Equal, "=", 1),
        Token::new(TokenType::Number, "1", 1),
        Token::new(TokenType::Semicolon, ";", 1),
        Token::new(TokenType::Identifier, "i", 1),
        Token::new(TokenType::Less, "<", 1),
        Token::new(TokenType::Number, "5", 1),
        Token::new(TokenType::Semicolon, ";", 1),
        Token::new(TokenType::Identifier, "i", 1),
        Token::new(TokenType::Equal, "=", 1),
        Token::new(TokenType::Identifier, "i", 1),
        Token::new(TokenType::Plus, "+", 1),
        Token::new(TokenType::Number, "1", 1),
        Token::new(TokenType::RightParen, ")", 1),
        Token::new(TokenType::LeftBrace, "{", 1),
        Token::new(TokenType::Print, "print", 2),
        Token::new(TokenType::Identifier, "i", 2),
        Token::new(TokenType::Star, "*", 2),
        Token::new(TokenType::Identifier, "i", 2),
        Token::new(TokenType::Semicolon, ";", 2),
        Token::new(TokenType::RightBrace, "}", 3),
    ];
    assert_eq!(tokens, expected_tokens);
}

#[test]
fn lexer_class() {
    let tokens = get_tokens_no_trivia("class Duck {\n        init(name) {\n          this.name = name;\n        }\n\n        quack() {\n          print this.name + \" quacks\";\n        }\n      }");
    let expected_tokens = vec![
        Token::new(TokenType::Class, "class", 1),
        Token::new(TokenType::Identifier, "Duck", 1),
        Token::new(TokenType::LeftBrace, "{", 1),
        Token::new(TokenType::Identifier, "init", 2),
        Token::new(TokenType::LeftParen, "(", 2),
        Token::new(TokenType::Identifier, "name", 2),
        Token::new(TokenType::RightParen, ")", 2),
        Token::new(TokenType::LeftBrace, "{", 2),
        Token::new(TokenType::This, "this", 3),
        Token::new(TokenType::Dot, ".", 3),
        Token::new(TokenType::Identifier, "name", 3),
        Token::new(TokenType::Equal, "=", 3),
        Token::new(TokenType::Identifier, "name", 3),
        Token::new(TokenType::Semicolon, ";", 3),
        Token::new(TokenType::RightBrace, "}", 4),
        Token::new(TokenType::Identifier, "quack", 6),
        Token::new(TokenType::LeftParen, "(", 6),
        Token::new(TokenType::RightParen, ")", 6),
        Token::new(TokenType::LeftBrace, "{", 6),
        Token::new(TokenType::Print, "print", 7),
        Token::new(TokenType::This, "this", 7),
        Token::new(TokenType::Dot, ".", 7),
        Token::new(TokenType::Identifier, "name", 7),
        Token::new(TokenType::Plus, "+", 7),
        Token::new(TokenType::String, "\" quacks\"", 7),
        Token::new(TokenType::Semicolon, ";", 7),
        Token::new(TokenType::RightBrace, "}", 8),
        Token::new(TokenType::RightBrace, "}", 9),
    ];
    assert_eq!(tokens, expected_tokens);
}

#[test]
fn lexer_function() {
    let tokens = get_tokens_no_trivia("fun make_adder(n) {\n        fun adder(i) {\n          return n + i;\n        }\n        return adder;\n      }\n\n      var add5 = make_adder(5);\n      print add5(1);\n      print add5(100);");
    let expected_tokens = vec![
        Token::new(TokenType::Fun, "fun", 1),
        Token::new(TokenType::Identifier, "make_adder", 1),
        Token::new(TokenType::LeftParen, "(", 1),
        Token::new(TokenType::Identifier, "n", 1),
        Token::new(TokenType::RightParen, ")", 1),
        Token::new(TokenType::LeftBrace, "{", 1),
        Token::new(TokenType::Fun, "fun", 2),
        Token::new(TokenType::Identifier, "adder", 2),
        Token::new(TokenType::LeftParen, "(", 2),
        Token::new(TokenType::Identifier, "i", 2),
        Token::new(TokenType::RightParen, ")", 2),
        Token::new(TokenType::LeftBrace, "{", 2),
        Token::new(TokenType::Return, "return", 3),
        Token::new(TokenType::Identifier, "n", 3),
        Token::new(TokenType::Plus, "+", 3),
        Token::new(TokenType::Identifier, "i", 3),
        Token::new(TokenType::Semicolon, ";", 3),
        Token::new(TokenType::RightBrace, "}", 4),
        Token::new(TokenType::Return, "return", 5),
        Token::new(TokenType::Identifier, "adder", 5),
        Token::new(TokenType::Semicolon, ";", 5),
        Token::new(TokenType::RightBrace, "}", 6),
        Token::new(TokenType::Var, "var", 8),
        Token::new(TokenType::Identifier, "add5", 8),
        Token::new(TokenType::Equal, "=", 8),
        Token::new(TokenType::Identifier, "make_adder", 8),
        Token::new(TokenType::LeftParen, "(", 8),
        Token::new(TokenType::Number, "5", 8),
        Token::new(TokenType::RightParen, ")", 8),
        Token::new(TokenType::Semicolon, ";", 8),
        Token::new(TokenType::Print, "print", 9),
        Token::new(TokenType::Identifier, "add5", 9),
        Token::new(TokenType::LeftParen, "(", 9),
        Token::new(TokenType::Number, "1", 9),
        Token::new(TokenType::RightParen, ")", 9),
        Token::new(TokenType::Semicolon, ";", 9),
        Token::new(TokenType::Print, "print", 10),
        Token::new(TokenType::Identifier, "add5", 10),
        Token::new(TokenType::LeftParen, "(", 10),
        Token::new(TokenType::Number, "100", 10),
        Token::new(TokenType::RightParen, ")", 10),
        Token::new(TokenType::Semicolon, ";", 10),
    ];
    assert_eq!(tokens, expected_tokens);
}
