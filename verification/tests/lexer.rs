use compiler::token::{try_tokenize, tokenize, Token};

fn ident(s: &str) -> Token {
    Token::Identifier(s.to_string())
}

#[test]
fn keywords_and_punctuation() {
    let toks = tokenize("func main() { int i = 0 }");
    assert_eq!(
        toks,
        vec![
            Token::Func,
            ident("main"),
            Token::Lparen,
            Token::Rparen,
            Token::Lcurly,
            Token::Int,
            ident("i"),
            Token::Assign,
            Token::Number(0),
            Token::Rcurly,
            Token::EOF,
        ]
    );
}

#[test]
fn every_keyword() {
    let toks = tokenize("return int str float func if while continue else loop break char");
    assert_eq!(
        toks,
        vec![
            Token::Return,
            Token::Int,
            Token::Str,
            Token::Float,
            Token::Func,
            Token::If,
            Token::While,
            Token::Continue,
            Token::Else,
            Token::Loop,
            Token::Break,
            Token::Char,
            Token::EOF,
        ]
    );
}

#[test]
fn operators() {
    let toks = tokenize("a == b != c < d > e && f || g + h - i * j / k = l , ( )");
    assert_eq!(
        toks,
        vec![
            ident("a"),
            Token::Equal,
            ident("b"),
            Token::NotEqual,
            ident("c"),
            Token::Less,
            ident("d"),
            Token::Greater,
            ident("e"),
            Token::And,
            ident("f"),
            Token::Or,
            ident("g"),
            Token::Add,
            ident("h"),
            Token::Mines,
            ident("i"),
            Token::Mul,
            ident("j"),
            Token::Div,
            ident("k"),
            Token::Assign,
            ident("l"),
            Token::Comma,
            Token::Lparen,
            Token::Rparen,
            Token::EOF,
        ]
    );
}

#[test]
fn names_stop_at_digits() {
    assert_eq!(tokenize("x1_y"), vec![ident("x"), Token::Number(1), ident("_y"), Token::EOF]);
}

#[test]
fn bool_is_a_name() {
    assert_eq!(tokenize("bool true"), vec![ident("bool"), ident("true"), Token::EOF]);
}

#[test]
fn literals() {
    let toks = tokenize("42 3.25 7. 'a' '5' \"hello world\"");
    assert_eq!(
        toks,
        vec![
            Token::Number(42),
            Token::FloatValue("3.25".to_string()),
            Token::FloatValue("7.".to_string()),
            Token::CharValue('a'),
            Token::CharValue('5'),
            Token::String("hello world".to_string()),
            Token::EOF,
        ]
    );
}

#[test]
fn largest_integer() {
    assert_eq!(tokenize("9223372036854775807"), vec![Token::Number(i64::MAX), Token::EOF]);
}

#[test]
fn integer_overflow_stops_the_lexer() {
    assert_eq!(try_tokenize("9223372036854775808"), None);
}

#[test]
fn unterminated_string_runs_to_the_end() {
    assert_eq!(tokenize("\"abc"), vec![Token::String("abc".to_string()), Token::EOF]);
}

#[test]
fn string_keeps_any_characters() {
    assert_eq!(tokenize("\"é ! &\""), vec![Token::String("é ! &".to_string()), Token::EOF]);
}

#[test]
fn whitespace_only() {
    assert_eq!(tokenize(" \t\r\n"), vec![Token::EOF]);
    assert_eq!(tokenize(""), vec![Token::EOF]);
}

#[test]
fn inputs_the_lexer_rejects() {
    assert_eq!(try_tokenize("a = !b"), None);
    assert_eq!(try_tokenize("a & b"), None);
    assert_eq!(try_tokenize("a |"), None);
    assert_eq!(try_tokenize("a ="), None);
    assert_eq!(try_tokenize("'ab'"), None);
    assert_eq!(try_tokenize("'!'"), None);
    assert_eq!(try_tokenize("1.2.3"), None);
    assert_eq!(try_tokenize("x;"), None);
    assert_eq!(try_tokenize("é"), None);
}

#[test]
fn texts_joined_by_a_blank_lex_one_after_the_other() {
    let a = "int a = 1 print(\"x y\")";
    let b = "while a < 2 { a = a + 1 }";
    let mut want = tokenize(a);
    want.pop();
    want.extend(tokenize(b));
    assert_eq!(tokenize(&format!("{} {}", a, b)), want);
}
