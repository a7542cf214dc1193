use vstd::prelude::*;

verus! {

/// A lexical token of the source language.
///
/// Names, string literals and float literals carry their source text.
#[derive(Debug, Clone, PartialEq)]
pub enum Token {
    Func,
    Return,
    Rparen,
    Lparen,
    Lcurly,
    Rcurly,
    Comma,
    Assign,
    Mines,
    Float,
    Add,
    Char,
    Mul,
    Loop,
    Div,
    Identifier(String),
    Number(i64),
    String(String),
    Int,
    CharValue(char),
    Str,
    Else,
    While,
    And,
    Break,
    Continue,
    Or,
    If,
    FloatValue(String),
    Less,
    Greater,
    Equal,
    NotEqual,
    EOF,
}

/// The mathematical value of a [`Token`]: text payloads become character sequences.
pub enum TokenView {
    Func,
    Return,
    Rparen,
    Lparen,
    Lcurly,
    Rcurly,
    Comma,
    Assign,
    Mines,
    Float,
    Add,
    Char,
    Mul,
    Loop,
    Div,
    Identifier(Seq<char>),
    Number(i64),
    String(Seq<char>),
    Int,
    CharValue(char),
    Str,
    Else,
    While,
    And,
    Break,
    Continue,
    Or,
    If,
    FloatValue(Seq<char>),
    Less,
    Greater,
    Equal,
    NotEqual,
    EOF,
}

impl View for Token {
    type V = TokenView;

    open spec fn view(&self) -> TokenView {
        match self {
            Token::Func => TokenView::Func,
            Token::Return => TokenView::Return,
            Token::Rparen => TokenView::Rparen,
            Token::Lparen => TokenView::Lparen,
            Token::Lcurly => TokenView::Lcurly,
            Token::Rcurly => TokenView::Rcurly,
            Token::Comma => TokenView::Comma,
            Token::Assign => TokenView::Assign,
            Token::Mines => TokenView::Mines,
            Token::Float => TokenView::Float,
            Token::Add => TokenView::Add,
            Token::Char => TokenView::Char,
            Token::Mul => TokenView::Mul,
            Token::Loop => TokenView::Loop,
            Token::Div => TokenView::Div,
            Token::Identifier(s) => TokenView::Identifier(s@),
            Token::Number(n) => TokenView::Number(*n),
            Token::String(s) => TokenView::String(s@),
            Token::Int => TokenView::Int,
            Token::CharValue(c) => TokenView::CharValue(*c),
            Token::Str => TokenView::Str,
            Token::Else => TokenView::Else,
            Token::While => TokenView::While,
            Token::And => TokenView::And,
            Token::Break => TokenView::Break,
            Token::Continue => TokenView::Continue,
            Token::Or => TokenView::Or,
            Token::If => TokenView::If,
            Token::FloatValue(s) => TokenView::FloatValue(s@),
            Token::Less => TokenView::Less,
            Token::Greater => TokenView::Greater,
            Token::Equal => TokenView::Equal,
            Token::NotEqual => TokenView::NotEqual,
            Token::EOF => TokenView::EOF,
        }
    }
}

/// The characters of `code`, in order.
fn collect_chars(code: &str) -> (r: Vec<char>)
    ensures
        r@ == code@,
{
    let mut out: Vec<char> = Vec::new();
    for c in it: code.chars()
        invariant
            out@ == it.seq().take(it.index() as int),
    {
        out.push(c);
    }
    out
}


/// `c` is one of the five ASCII whitespace characters.
pub open spec fn is_space(c: char) -> bool {
    c == ' ' || c == '\t' || c == '\n' || c == '\x0C' || c == '\r'
}

pub open spec fn is_digit(c: char) -> bool {
    '0' <= c && c <= '9'
}

pub open spec fn is_letter(c: char) -> bool {
    ('a' <= c && c <= 'z') || ('A' <= c && c <= 'Z')
}

/// A character that may occur in a name.
pub open spec fn is_name_char(c: char) -> bool {
    is_letter(c) || c == '_'
}

/// The token of a character that stands alone as a token.
pub open spec fn single_char_token(c: char) -> Option<TokenView> {
    if c == '>' {
        Some(TokenView::Greater)
    } else if c == '<' {
        Some(TokenView::Less)
    } else if c == '+' {
        Some(TokenView::Add)
    } else if c == '-' {
        Some(TokenView::Mines)
    } else if c == '*' {
        Some(TokenView::Mul)
    } else if c == '/' {
        Some(TokenView::Div)
    } else if c == ')' {
        Some(TokenView::Rparen)
    } else if c == '}' {
        Some(TokenView::Rcurly)
    } else if c == ',' {
        Some(TokenView::Comma)
    } else if c == '{' {
        Some(TokenView::Lcurly)
    } else if c == '(' {
        Some(TokenView::Lparen)
    } else {
        None
    }
}

/// End of the numeric literal that continues at `j`: digits, with at most one
/// dot overall (`dot` tells whether one was already seen).
pub open spec fn number_end(s: Seq<char>, j: int, dot: bool) -> int
    decreases s.len() - j,
{
    if j < 0 || j >= s.len() {
        j
    } else if is_digit(s[j]) {
        number_end(s, j + 1, dot)
    } else if s[j] == '.' && !dot {
        number_end(s, j + 1, true)
    } else {
        j
    }
}

/// End of the run of name characters that starts at `j`.
pub open spec fn name_end(s: Seq<char>, j: int) -> int
    decreases s.len() - j,
{
    if 0 <= j < s.len() && is_name_char(s[j]) {
        name_end(s, j + 1)
    } else {
        j
    }
}

/// Index of the first `"` at or after `j`, or the length of `s` when there is none.
pub open spec fn quote_end(s: Seq<char>, j: int) -> int
    decreases s.len() - j,
{
    if 0 <= j < s.len() && s[j] != '"' {
        quote_end(s, j + 1)
    } else {
        j
    }
}

/// Numeric value of a decimal digit.
pub open spec fn digit_value(c: char) -> int {
    (c as int) - ('0' as int)
}

/// Value of a sequence of decimal digits, most significant first.
pub open spec fn decimal_value(d: Seq<char>) -> int
    decreases d.len(),
{
    if d.len() == 0 {
        0
    } else {
        decimal_value(d.drop_last()) * 10 + digit_value(d.last())
    }
}

/// The keyword spelled by `w`, if any.
pub open spec fn keyword(w: Seq<char>) -> Option<TokenView> {
    if w == seq!['r', 'e', 't', 'u', 'r', 'n'] {
        Some(TokenView::Return)
    } else if w == seq!['i', 'n', 't'] {
        Some(TokenView::Int)
    } else if w == seq!['s', 't', 'r'] {
        Some(TokenView::Str)
    } else if w == seq!['f', 'l', 'o', 'a', 't'] {
        Some(TokenView::Float)
    } else if w == seq!['f', 'u', 'n', 'c'] {
        Some(TokenView::Func)
    } else if w == seq!['i', 'f'] {
        Some(TokenView::If)
    } else if w == seq!['w', 'h', 'i', 'l', 'e'] {
        Some(TokenView::While)
    } else if w == seq!['c', 'o', 'n', 't', 'i', 'n', 'u', 'e'] {
        Some(TokenView::Continue)
    } else if w == seq!['e', 'l', 's', 'e'] {
        Some(TokenView::Else)
    } else if w == seq!['l', 'o', 'o', 'p'] {
        Some(TokenView::Loop)
    } else if w == seq!['b', 'r', 'e', 'a', 'k'] {
        Some(TokenView::Break)
    } else if w == seq!['c', 'h', 'a', 'r'] {
        Some(TokenView::Char)
    } else {
        None
    }
}

/// The token of a name or keyword spelled by `w`.
pub open spec fn word_token(w: Seq<char>) -> TokenView {
    match keyword(w) {
        Some(t) => t,
        None => TokenView::Identifier(w),
    }
}

/// `t` followed by the tokens of `rest`, when `rest` lexes.
pub open spec fn cons_token(t: TokenView, rest: Option<Seq<TokenView>>) -> Option<Seq<TokenView>> {
    match rest {
        Some(r) => Some(seq![t] + r),
        None => None,
    }
}

pub proof fn lemma_number_end_bounds(s: Seq<char>, j: int, dot: bool)
    requires
        0 <= j <= s.len(),
    ensures
        j <= number_end(s, j, dot) <= s.len(),
    decreases s.len() - j,
{
    if j < s.len() {
        if is_digit(s[j]) {
            lemma_number_end_bounds(s, j + 1, dot);
        } else if s[j] == '.' && !dot {
            lemma_number_end_bounds(s, j + 1, true);
        }
    }
}

pub proof fn lemma_name_end_bounds(s: Seq<char>, j: int)
    requires
        0 <= j <= s.len(),
    ensures
        j <= name_end(s, j) <= s.len(),
    decreases s.len() - j,
{
    if j < s.len() && is_name_char(s[j]) {
        lemma_name_end_bounds(s, j + 1);
    }
}

pub proof fn lemma_quote_end_bounds(s: Seq<char>, j: int)
    requires
        0 <= j <= s.len(),
    ensures
        j <= quote_end(s, j) <= s.len(),
        quote_end(s, j) < s.len() ==> s[quote_end(s, j)] == '"',
    decreases s.len() - j,
{
    if j < s.len() && s[j] != '"' {
        lemma_quote_end_bounds(s, j + 1);
    }
}

/// The tokens of `s` from index `i` on, ending in `EOF`; `None` where the
/// lexer cannot go on: an operator cut short by the end of the input, `!`
/// without `=`, a malformed character literal, an integer literal beyond
/// `i64::MAX`, or a character that starts no token (a lone `&` or `|` too).
pub open spec fn lex_from(s: Seq<char>, i: int) -> Option<Seq<TokenView>>
    decreases s.len() - i,
{
    if i < 0 || i >= s.len() {
        Some(seq![TokenView::EOF])
    } else {
        let c = s[i];
        if is_space(c) {
            lex_from(s, i + 1)
        } else if c == '=' {
            if i + 1 >= s.len() {
                None
            } else if s[i + 1] == '=' {
                cons_token(TokenView::Equal, lex_from(s, i + 2))
            } else {
                cons_token(TokenView::Assign, lex_from(s, i + 1))
            }
        } else if single_char_token(c) is Some {
            cons_token(single_char_token(c)->0, lex_from(s, i + 1))
        } else if c == '&' {
            if i + 1 < s.len() && s[i + 1] == '&' {
                cons_token(TokenView::And, lex_from(s, i + 2))
            } else {
                None
            }
        } else if c == '|' {
            if i + 1 < s.len() && s[i + 1] == '|' {
                cons_token(TokenView::Or, lex_from(s, i + 2))
            } else {
                None
            }
        } else if c == '!' {
            if i + 1 < s.len() && s[i + 1] == '=' {
                cons_token(TokenView::NotEqual, lex_from(s, i + 2))
            } else {
                None
            }
        } else if is_digit(c) {
            proof {
                lemma_number_end_bounds(s, i + 1, false);
            }
            let e = number_end(s, i, false);
            let text = s.subrange(i, e);
            if text.contains('.') {
                cons_token(TokenView::FloatValue(text), lex_from(s, e))
            } else if decimal_value(text) <= i64::MAX {
                cons_token(TokenView::Number(decimal_value(text) as i64), lex_from(s, e))
            } else {
                None
            }
        } else if c == '\'' {
            if i + 2 < s.len() && (is_digit(s[i + 1]) || is_letter(s[i + 1])) && s[i + 2] == '\'' {
                cons_token(TokenView::CharValue(s[i + 1]), lex_from(s, i + 3))
            } else {
                None
            }
        } else if c == '"' {
            proof {
                lemma_quote_end_bounds(s, i + 1);
            }
            let e = quote_end(s, i + 1);
            let t = TokenView::String(s.subrange(i + 1, e));
            if e < s.len() {
                cons_token(t, lex_from(s, e + 1))
            } else {
                Some(seq![t, TokenView::EOF])
            }
        } else if is_name_char(c) {
            proof {
                lemma_name_end_bounds(s, i + 1);
            }
            let e = name_end(s, i);
            cons_token(word_token(s.subrange(i, e)), lex_from(s, e))
        } else {
            None
        }
    }
}

/// The tokens of a whole source text.
pub open spec fn lex(s: Seq<char>) -> Option<Seq<TokenView>> {
    lex_from(s, 0)
}


/// A well-formed token stream: it ends with `EOF`, which occurs nowhere
/// else; every name is a non-empty run of letters and underscores that is not
/// a keyword; every integer literal is non-negative; every float literal
/// holds a dot.
pub open spec fn tokens_wf(ts: Seq<TokenView>) -> bool {
    &&& ts.len() >= 1
    &&& ts.last() == TokenView::EOF
    &&& forall|k: int| 0 <= k < ts.len() - 1 ==> token_wf(#[trigger] ts[k])
}

/// A token that may stand before the end of a token stream.
pub open spec fn token_wf(t: TokenView) -> bool {
    match t {
        TokenView::EOF => false,
        TokenView::Identifier(w) => {
            &&& w.len() > 0
            &&& forall|j: int| 0 <= j < w.len() ==> is_name_char(#[trigger] w[j])
            &&& keyword(w) is None
        },
        TokenView::Number(n) => n >= 0,
        TokenView::FloatValue(f) => f.contains('.'),
        _ => true,
    }
}

proof fn lemma_cons_wf(t: TokenView, r: Option<Seq<TokenView>>)
    requires
        token_wf(t),
        r matches Some(x) ==> tokens_wf(x),
    ensures
        cons_token(t, r) matches Some(x) ==> tokens_wf(x),
{
    if let Some(x) = r {
        let y = seq![t] + x;
        assert forall|k: int| 0 <= k < y.len() - 1 implies token_wf(#[trigger] y[k]) by {
            if k > 0 {
                assert(y[k] == x[k - 1]);
            }
        }
    }
}

proof fn lemma_word_token_wf(s: Seq<char>, i: int)
    requires
        0 <= i < s.len(),
        is_name_char(s[i]),
    ensures
        token_wf(word_token(s.subrange(i, name_end(s, i)))),
    decreases s.len() - i,
{
    lemma_name_end_bounds(s, i + 1);
    let e = name_end(s, i);
    let w = s.subrange(i, e);
    assert forall|j: int| 0 <= j < w.len() implies is_name_char(#[trigger] w[j]) by {
        lemma_name_run(s, i, i + j);
    }
}

proof fn lemma_name_run(s: Seq<char>, i: int, k: int)
    requires
        0 <= i <= k < name_end(s, i),
        i < s.len(),
    ensures
        k < s.len() && is_name_char(s[k]),
    decreases k - i,
{
    if 0 <= i < s.len() && is_name_char(s[i]) {
        if k > i {
            lemma_name_end_bounds(s, i + 1);
            lemma_name_run(s, i + 1, k);
        }
    }
}

/// Law: whatever text lexes, lexes to a well-formed token stream (see
/// [`tokens_wf`]).
pub proof fn law_lex_wf(s: Seq<char>)
    ensures
        lex(s) matches Some(ts) ==> tokens_wf(ts),
{
    lemma_lex_from_wf(s, 0);
}

proof fn lemma_lex_from_wf(s: Seq<char>, i: int)
    ensures
        lex_from(s, i) matches Some(ts) ==> tokens_wf(ts),
    decreases s.len() - i,
{
    if 0 <= i < s.len() {
        let c = s[i];
        if is_space(c) {
            lemma_lex_from_wf(s, i + 1);
        } else if c == '=' {
            if i + 1 < s.len() {
                lemma_lex_from_wf(s, i + 2);
                lemma_lex_from_wf(s, i + 1);
                lemma_cons_wf(TokenView::Equal, lex_from(s, i + 2));
                lemma_cons_wf(TokenView::Assign, lex_from(s, i + 1));
            }
        } else if single_char_token(c) is Some {
            lemma_lex_from_wf(s, i + 1);
            lemma_cons_wf(single_char_token(c)->0, lex_from(s, i + 1));
        } else if c == '&' || c == '|' || c == '!' {
            if i + 1 < s.len() {
                lemma_lex_from_wf(s, i + 2);
            }
            lemma_cons_wf(TokenView::And, lex_from(s, i + 2));
            lemma_cons_wf(TokenView::Or, lex_from(s, i + 2));
            lemma_cons_wf(TokenView::NotEqual, lex_from(s, i + 2));
        } else if is_digit(c) {
            lemma_number_end_bounds(s, i + 1, false);
            let e = number_end(s, i, false);
            let text = s.subrange(i, e);
            lemma_lex_from_wf(s, e);
            if text.contains('.') {
                lemma_cons_wf(TokenView::FloatValue(text), lex_from(s, e));
            }
            if !text.contains('.') && decimal_value(text) <= i64::MAX {
                assert forall|k: int| 0 <= k < text.len() implies is_digit(#[trigger] text[k]) by {
                    assert(text[k] != '.');
                    lemma_number_run(s, i, i + k, false);
                }
                lemma_decimal_nonneg(text);
                lemma_cons_wf(TokenView::Number(decimal_value(text) as i64), lex_from(s, e));
            }
        } else if c == '\'' {
            if i + 2 < s.len() {
                lemma_lex_from_wf(s, i + 3);
                lemma_cons_wf(TokenView::CharValue(s[i + 1]), lex_from(s, i + 3));
            }
        } else if c == '"' {
            lemma_quote_end_bounds(s, i + 1);
            let e = quote_end(s, i + 1);
            let t = TokenView::String(s.subrange(i + 1, e));
            if e < s.len() {
                lemma_lex_from_wf(s, e + 1);
                lemma_cons_wf(t, lex_from(s, e + 1));
            } else {
                let y = seq![t, TokenView::EOF];
                assert forall|k: int| 0 <= k < y.len() - 1 implies token_wf(#[trigger] y[k]) by {}
            }
        } else if is_name_char(c) {
            lemma_name_end_bounds(s, i + 1);
            let e = name_end(s, i);
            lemma_lex_from_wf(s, e);
            lemma_word_token_wf(s, i);
            lemma_cons_wf(word_token(s.subrange(i, e)), lex_from(s, e));
        }
    } else {
        let y = seq![TokenView::EOF];
        assert forall|k: int| 0 <= k < y.len() - 1 implies token_wf(#[trigger] y[k]) by {}
    }
}

/// Every character of a numeric literal is a digit or a dot.
proof fn lemma_number_run(s: Seq<char>, i: int, k: int, dot: bool)
    requires
        0 <= i <= k < number_end(s, i, dot),
    ensures
        k < s.len() && (is_digit(s[k]) || s[k] == '.'),
    decreases k - i,
{
    if 0 <= i < s.len() {
        if is_digit(s[i]) {
            if k > i {
                lemma_number_run(s, i + 1, k, dot);
            }
        } else if s[i] == '.' && !dot {
            if k > i {
                lemma_number_run(s, i + 1, k, true);
            }
        }
    }
}

/// The views of a sequence of tokens.
pub open spec fn tokens_view(ts: Seq<Token>) -> Seq<TokenView> {
    ts.map_values(|t: Token| t@)
}

/// The tokens `p`, followed by those of `r` when `r` lexes.
pub open spec fn glue(p: Seq<TokenView>, r: Option<Seq<TokenView>>) -> Option<Seq<TokenView>> {
    match r {
        Some(x) => Some(p + x),
        None => None,
    }
}

proof fn lemma_glue_cons(p: Seq<TokenView>, t: TokenView, r: Option<Seq<TokenView>>)
    ensures
        glue(p, cons_token(t, r)) == glue(p.push(t), r),
{
    if let Some(x) = r {
        assert(p + (seq![t] + x) =~= p.push(t) + x);
    }
}

proof fn lemma_decimal_nonneg(d: Seq<char>)
    requires
        forall|k: int| 0 <= k < d.len() ==> is_digit(#[trigger] d[k]),
    ensures
        decimal_value(d) >= 0,
    decreases d.len(),
{
    if d.len() > 0 {
        lemma_decimal_nonneg(d.drop_last());
    }
}

/// A prefix of a digit string has no larger value than the whole string.
proof fn lemma_decimal_prefix_le(d: Seq<char>, m: int)
    requires
        0 <= m <= d.len(),
        forall|k: int| 0 <= k < d.len() ==> is_digit(#[trigger] d[k]),
    ensures
        decimal_value(d.take(m)) <= decimal_value(d),
    decreases d.len(),
{
    if m < d.len() {
        let q = d.drop_last();
        assert(q.take(m) =~= d.take(m));
        lemma_decimal_prefix_le(q, m);
        lemma_decimal_nonneg(q);
    } else {
        assert(d.take(m) =~= d);
    }
}

fn is_space_char(c: char) -> (b: bool)
    ensures
        b == is_space(c),
{
    c == ' ' || c == '\t' || c == '\n' || c == '\x0C' || c == '\r'
}

fn is_digit_char(c: char) -> (b: bool)
    ensures
        b == is_digit(c),
{
    '0' <= c && c <= '9'
}

fn is_letter_char(c: char) -> (b: bool)
    ensures
        b == is_letter(c),
{
    ('a' <= c && c <= 'z') || ('A' <= c && c <= 'Z')
}

fn single_char(c: char) -> (t: Option<Token>)
    ensures
        match single_char_token(c) {
            Some(v) => t matches Some(x) && x@ == v,
            None => t is None,
        },
{
    if c == '>' {
        Some(Token::Greater)
    } else if c == '<' {
        Some(Token::Less)
    } else if c == '+' {
        Some(Token::Add)
    } else if c == '-' {
        Some(Token::Mines)
    } else if c == '*' {
        Some(Token::Mul)
    } else if c == '/' {
        Some(Token::Div)
    } else if c == ')' {
        Some(Token::Rparen)
    } else if c == '}' {
        Some(Token::Rcurly)
    } else if c == ',' {
        Some(Token::Comma)
    } else if c == '{' {
        Some(Token::Lcurly)
    } else if c == '(' {
        Some(Token::Lparen)
    } else {
        None
    }
}

/// Whether `chars[start..end]` spells `word`.
fn spells(chars: &Vec<char>, start: usize, end: usize, word: &[char]) -> (b: bool)
    requires
        start <= end <= chars@.len(),
    ensures
        b == (chars@.subrange(start as int, end as int) == word@),
{
    if end - start != word.len() {
        return false;
    }
    let mut k: usize = 0;
    while k < word.len()
        invariant
            start <= end <= chars@.len(),
            end - start == word@.len(),
            0 <= k <= word@.len(),
            forall|m: int| 0 <= m < k ==> chars@[start + m] == word@[m],
        decreases word@.len() - k,
    {
        if chars[start + k] != word[k] {
            assert(chars@.subrange(start as int, end as int)[k as int] != word@[k as int]);
            return false;
        }
        k = k + 1;
    }
    assert(chars@.subrange(start as int, end as int) =~= word@);
    true
}

/// The token of the name or keyword `chars[start..end]`.
fn word_at(code: &str, chars: &Vec<char>, start: usize, end: usize) -> (t: Token)
    requires
        chars@ == code@,
        start <= end <= chars@.len(),
    ensures
        t@ == word_token(chars@.subrange(start as int, end as int)),
{
    let ghost w = chars@.subrange(start as int, end as int);
    assert(['r', 'e', 't', 'u', 'r', 'n']@ =~= seq!['r', 'e', 't', 'u', 'r', 'n']);
    assert(['i', 'n', 't']@ =~= seq!['i', 'n', 't']);
    assert(['s', 't', 'r']@ =~= seq!['s', 't', 'r']);
    assert(['f', 'l', 'o', 'a', 't']@ =~= seq!['f', 'l', 'o', 'a', 't']);
    assert(['f', 'u', 'n', 'c']@ =~= seq!['f', 'u', 'n', 'c']);
    assert(['i', 'f']@ =~= seq!['i', 'f']);
    assert(['w', 'h', 'i', 'l', 'e']@ =~= seq!['w', 'h', 'i', 'l', 'e']);
    assert(['c', 'o', 'n', 't', 'i', 'n', 'u', 'e']@ =~= seq!['c', 'o', 'n', 't', 'i', 'n', 'u', 'e']);
    assert(['e', 'l', 's', 'e']@ =~= seq!['e', 'l', 's', 'e']);
    assert(['l', 'o', 'o', 'p']@ =~= seq!['l', 'o', 'o', 'p']);
    assert(['b', 'r', 'e', 'a', 'k']@ =~= seq!['b', 'r', 'e', 'a', 'k']);
    assert(['c', 'h', 'a', 'r']@ =~= seq!['c', 'h', 'a', 'r']);
    if spells(chars, start, end, &['r', 'e', 't', 'u', 'r', 'n']) {
        Token::Return
    } else if spells(chars, start, end, &['i', 'n', 't']) {
        Token::Int
    } else if spells(chars, start, end, &['s', 't', 'r']) {
        Token::Str
    } else if spells(chars, start, end, &['f', 'l', 'o', 'a', 't']) {
        Token::Float
    } else if spells(chars, start, end, &['f', 'u', 'n', 'c']) {
        Token::Func
    } else if spells(chars, start, end, &['i', 'f']) {
        Token::If
    } else if spells(chars, start, end, &['w', 'h', 'i', 'l', 'e']) {
        Token::While
    } else if spells(chars, start, end, &['c', 'o', 'n', 't', 'i', 'n', 'u', 'e']) {
        Token::Continue
    } else if spells(chars, start, end, &['e', 'l', 's', 'e']) {
        Token::Else
    } else if spells(chars, start, end, &['l', 'o', 'o', 'p']) {
        Token::Loop
    } else if spells(chars, start, end, &['b', 'r', 'e', 'a', 'k']) {
        Token::Break
    } else if spells(chars, start, end, &['c', 'h', 'a', 'r']) {
        Token::Char
    } else {
        Token::Identifier(code.substring_char(start, end).to_owned())
    }
}


/// The value of the digits `chars[start..end]`, unless it exceeds `i64::MAX`.
fn parse_decimal(chars: &Vec<char>, start: usize, end: usize) -> (r: Option<i64>)
    requires
        start <= end <= chars@.len(),
        forall|m: int| start <= m < end ==> is_digit(chars@[m]),
    ensures
        ({
            let d = decimal_value(chars@.subrange(start as int, end as int));
            if d <= i64::MAX {
                r == Some(d as i64)
            } else {
                r is None
            }
        }),
{
    let ghost s = chars@;
    let ghost text = s.subrange(start as int, end as int);
    proof {
        assert forall|m: int| 0 <= m < text.len() implies is_digit(#[trigger] text[m]) by {
            assert(text[m] == s[start + m]);
        }
        lemma_decimal_nonneg(text);
    }
    let mut v: i64 = 0;
    let mut k: usize = start;
    while k < end
        invariant
            s == chars@,
            start <= k <= end <= s.len(),
            text == s.subrange(start as int, end as int),
            forall|m: int| 0 <= m < text.len() ==> is_digit(#[trigger] text[m]),
            forall|m: int| start <= m < end ==> is_digit(s[m]),
            v as int == decimal_value(s.subrange(start as int, k as int)),
        decreases end - k,
    {
        let ghost pre = s.subrange(start as int, k as int);
        let ghost next = s.subrange(start as int, k + 1);
        assert(next.drop_last() =~= pre);
        let d = (chars[k] as u32 - '0' as u32) as i64;
        assert(d as int == digit_value(s[k as int]));
        proof {
            assert(text.take(k - start + 1) =~= next);
            lemma_decimal_prefix_le(text, k - start + 1);
            assert forall|m: int| 0 <= m < pre.len() implies is_digit(#[trigger] pre[m]) by {
                assert(pre[m] == s[start + m]);
            }
            lemma_decimal_nonneg(pre);
        }
        match v.checked_mul(10) {
            Some(m) => match m.checked_add(d) {
                Some(x) => {
                    v = x;
                },
                None => {
                    return None;
                },
            },
            None => {
                return None;
            },
        }
        k = k + 1;
    }
    assert(s.subrange(start as int, k as int) =~= text);
    Some(v)
}

/// The numeric literal that starts at `start`, and where it ends.
fn lex_number(code: &str, chars: &Vec<char>, start: usize) -> (r: Option<(Token, usize)>)
    requires
        chars@ == code@,
        start < chars@.len(),
        is_digit(chars@[start as int]),
    ensures
        lex_from(chars@, start as int) == match r {
            Some((t, e)) => cons_token(t@, lex_from(chars@, e as int)),
            None => None,
        },
        r matches Some((t, e)) ==> start < e <= chars@.len(),
{
    let ghost s = chars@;
    let n = chars.len();
    let mut i = start;
    let mut dots = false;
    while i < n
        invariant
            s == chars@,
            n == s.len(),
            start < n,
            is_digit(s[start as int]),
            start <= i <= n,
            number_end(s, start as int, false) == number_end(s, i as int, dots),
            start == i ==> !dots,
            forall|k: int| start <= k < i ==> is_digit(s[k]) || s[k] == '.',
            !dots ==> forall|k: int| start <= k < i ==> is_digit(s[k]),
            dots ==> exists|k: int| start <= k < i && s[k] == '.',
        ensures
            start < i <= n,
            i < n ==> !is_digit(s[i as int]) && (s[i as int] != '.' || dots),
            number_end(s, start as int, false) == number_end(s, i as int, dots),
            !dots ==> forall|k: int| start <= k < i ==> is_digit(s[k]),
            dots ==> exists|k: int| start <= k < i && s[k] == '.',
        decreases n - i,
    {
        if is_digit_char(chars[i]) {
            i = i + 1;
        } else if chars[i] == '.' && !dots {
            dots = true;
            i = i + 1;
        } else {
            break;
        }
    }
    let ghost text = s.subrange(start as int, i as int);
    assert(number_end(s, start as int, false) == i);
    if dots {
        let ghost k = choose|k: int| start <= k < i && s[k] == '.';
        assert(text[k - start] == '.');
        return Some((Token::FloatValue(code.substring_char(start, i).to_owned()), i));
    }
    assert(!text.contains('.')) by {
        if text.contains('.') {
            let k = choose|k: int| 0 <= k < text.len() && text[k] == '.';
            assert(is_digit(s[start + k]));
        }
    }
    match parse_decimal(chars, start, i) {
        Some(v) => Some((Token::Number(v), i)),
        None => None,
    }
}

/// The string literal whose opening quote is at `start`, and the index after
/// its closing quote (the length of the input when it is unterminated).
fn lex_string(code: &str, chars: &Vec<char>, start: usize) -> (r: (Token, usize))
    requires
        chars@ == code@,
        start < chars@.len(),
        chars@[start as int] == '"',
    ensures
        lex_from(chars@, start as int) == cons_token(r.0@, lex_from(chars@, r.1 as int)),
        start < r.1 <= chars@.len(),
{
    let ghost s = chars@;
    let n = chars.len();
    proof {
        lemma_quote_end_bounds(s, start + 1);
    }
    let mut j = start + 1;
    while j < n && chars[j] != '"'
        invariant
            s == chars@,
            n == s.len(),
            start < j <= n,
            quote_end(s, start + 1) == quote_end(s, j as int),
        decreases n - j,
    {
        j = j + 1;
    }
    let t = Token::String(code.substring_char(start + 1, j).to_owned());
    if j < n {
        (t, j + 1)
    } else {
        (t, n)
    }
}

/// The name or keyword that starts at `start`, and where it ends.
fn lex_word(code: &str, chars: &Vec<char>, start: usize) -> (r: (Token, usize))
    requires
        chars@ == code@,
        start < chars@.len(),
        is_name_char(chars@[start as int]),
    ensures
        lex_from(chars@, start as int) == cons_token(r.0@, lex_from(chars@, r.1 as int)),
        start < r.1 <= chars@.len(),
{
    let ghost s = chars@;
    let n = chars.len();
    let mut i = start;
    while i < n && (is_letter_char(chars[i]) || chars[i] == '_')
        invariant
            s == chars@,
            n == s.len(),
            start <= i <= n,
            i == start ==> is_name_char(s[start as int]),
            name_end(s, start as int) == name_end(s, i as int),
        decreases n - i,
    {
        i = i + 1;
    }
    (word_at(code, chars, start, i), i)
}

/// One step of the lexer at index `i`: `Some((t, j))` when the input goes on
/// at `j` after the token `t` (none for whitespace), `None` when it stops.
fn next_token(code: &str, chars: &Vec<char>, i: usize) -> (r: Option<(Option<Token>, usize)>)
    requires
        chars@ == code@,
        i < chars@.len(),
    ensures
        lex_from(chars@, i as int) == match r {
            Some((Some(t), j)) => cons_token(t@, lex_from(chars@, j as int)),
            Some((None, j)) => lex_from(chars@, j as int),
            None => None,
        },
        r matches Some((t, j)) ==> i < j <= chars@.len(),
{
    let n = chars.len();
    let c = chars[i];
    if is_space_char(c) {
        return Some((None, i + 1));
    }
    if c == '=' {
        if i + 1 >= n {
            return None;
        }
        if chars[i + 1] == '=' {
            return Some((Some(Token::Equal), i + 2));
        } else {
            return Some((Some(Token::Assign), i + 1));
        }
    }
    if let Some(t) = single_char(c) {
        return Some((Some(t), i + 1));
    }
    if c == '&' || c == '|' || c == '!' {
        let second = if c == '!' { '=' } else { c };
        if i + 1 < n && chars[i + 1] == second {
            let t = if c == '&' {
                Token::And
            } else if c == '|' {
                Token::Or
            } else {
                Token::NotEqual
            };
            return Some((Some(t), i + 2));
        }
        return None;
    }
    if is_digit_char(c) {
        return match lex_number(code, chars, i) {
            Some((t, e)) => Some((Some(t), e)),
            None => None,
        };
    }
    if c == '\'' {
        if n - i > 2 && (is_digit_char(chars[i + 1]) || is_letter_char(chars[i + 1]))
            && chars[i + 2] == '\'' {
            return Some((Some(Token::CharValue(chars[i + 1])), i + 3));
        }
        return None;
    }
    if c == '"' {
        let (t, e) = lex_string(code, chars, i);
        return Some((Some(t), e));
    }
    if is_letter_char(c) || c == '_' {
        let (t, e) = lex_word(code, chars, i);
        return Some((Some(t), e));
    }
    None
}

/// Splits `code` into tokens, the last of which is `EOF`; `None` exactly where
/// [`lex`] is undefined, that is where the lexer of the language stops
/// without a result (see [`lex_from`]).
pub fn try_tokenize(code: &str) -> (r: Option<Vec<Token>>)
    ensures
        match lex(code@) {
            Some(ts) => r matches Some(v) && tokens_view(v@) == ts,
            None => r is None,
        },
{
    let chars = collect_chars(code);
    let n = chars.len();
    let ghost s = chars@;
    let mut tokens: Vec<Token> = Vec::new();
    let mut i: usize = 0;
    assert(tokens_view(tokens@) + seq![] =~= seq![]);
    while i < n
        invariant
            s == chars@,
            s == code@,
            n == s.len(),
            0 <= i <= n,
            lex(s) == glue(tokens_view(tokens@), lex_from(s, i as int)),
        decreases n - i,
    {
        let ghost tv = tokens_view(tokens@);
        match next_token(code, &chars, i) {
            Some((Some(t), j)) => {
                proof {
                    lemma_glue_cons(tv, t@, lex_from(s, j as int));
                }
                tokens.push(t);
                assert(tokens_view(tokens@) =~= tv.push(t@));
                i = j;
            },
            Some((None, j)) => {
                i = j;
            },
            None => {
                return None;
            },
        }
    }
    let ghost tv = tokens_view(tokens@);
    tokens.push(Token::EOF);
    assert(tokens_view(tokens@) =~= tv.push(TokenView::EOF));
    assert(tv + seq![TokenView::EOF] =~= tv.push(TokenView::EOF));
    Some(tokens)
}

/// The tokens of `code`, ending in `EOF`.
pub fn tokenize(code: &str) -> (r: Vec<Token>)
    requires
        lex(code@) is Some,
    ensures
        tokens_view(r@) == lex(code@)->0,
{
    match try_tokenize(code) {
        Some(v) => v,
        None => Vec::new(),
    }
}


proof fn lemma_number_end_shift(p: Seq<char>, b: Seq<char>, j: int, dot: bool)
    requires
        0 <= j <= b.len(),
    ensures
        number_end(p + b, p.len() + j, dot) == p.len() + number_end(b, j, dot),
    decreases b.len() - j,
{
    if j < b.len() {
        assert((p + b)[p.len() + j] == b[j]);
        if is_digit(b[j]) {
            lemma_number_end_shift(p, b, j + 1, dot);
        } else if b[j] == '.' && !dot {
            lemma_number_end_shift(p, b, j + 1, true);
        }
    }
}

proof fn lemma_name_end_shift(p: Seq<char>, b: Seq<char>, j: int)
    requires
        0 <= j <= b.len(),
    ensures
        name_end(p + b, p.len() + j) == p.len() + name_end(b, j),
    decreases b.len() - j,
{
    if j < b.len() {
        assert((p + b)[p.len() + j] == b[j]);
        lemma_name_end_shift(p, b, j + 1);
    }
}

proof fn lemma_quote_end_shift(p: Seq<char>, b: Seq<char>, j: int)
    requires
        0 <= j <= b.len(),
    ensures
        quote_end(p + b, p.len() + j) == p.len() + quote_end(b, j),
    decreases b.len() - j,
{
    if j < b.len() {
        assert((p + b)[p.len() + j] == b[j]);
        lemma_quote_end_shift(p, b, j + 1);
    }
}

/// Lemma: text before `b` does not change how `b` lexes from `j` on.
proof fn lemma_lex_shift(p: Seq<char>, b: Seq<char>, j: int)
    requires
        0 <= j,
    ensures
        lex_from(p + b, p.len() + j) == lex_from(b, j),
    decreases b.len() - j,
{
    let s = p + b;
    let k = p.len() + j;
    if j < b.len() {
        assert forall|d: int| 0 <= d && j + d < b.len() implies #[trigger] s[k + d] == b[j + d] by {}
        assert(s[k] == b[j]);
        if j + 1 < b.len() {
            assert(s[k + 1] == b[j + 1]);
        }
        if j + 2 < b.len() {
            assert(s[k + 2] == b[j + 2]);
        }
        if j + 1 <= b.len() {
            lemma_lex_shift(p, b, j + 1);
        }
        if j + 2 <= b.len() {
            lemma_lex_shift(p, b, j + 2);
        }
        if j + 3 <= b.len() {
            lemma_lex_shift(p, b, j + 3);
        }
        let c = b[j];
        if is_digit(c) {
            lemma_number_end_bounds(b, j + 1, false);
            lemma_number_end_shift(p, b, j, false);
            let e = number_end(b, j, false);
            assert(s.subrange(k, p.len() + e) =~= b.subrange(j, e));
            lemma_lex_shift(p, b, e);
        } else if c == '"' {
            lemma_quote_end_bounds(b, j + 1);
            lemma_quote_end_shift(p, b, j + 1);
            let e = quote_end(b, j + 1);
            assert(s.subrange(k + 1, p.len() + e) =~= b.subrange(j + 1, e));
            if e < b.len() {
                lemma_lex_shift(p, b, e + 1);
            }
        } else if is_name_char(c) {
            lemma_name_end_bounds(b, j + 1);
            lemma_name_end_shift(p, b, j);
            let e = name_end(b, j);
            assert(s.subrange(k, p.len() + e) =~= b.subrange(j, e));
            lemma_lex_shift(p, b, e);
        }
    }
}

proof fn lemma_number_end_prefix(a: Seq<char>, s: Seq<char>, j: int, dot: bool)
    requires
        0 <= j <= a.len(),
        a.len() < s.len(),
        s.subrange(0, a.len() as int) == a,
        s[a.len() as int] == ' ',
    ensures
        number_end(s, j, dot) == number_end(a, j, dot),
    decreases a.len() - j,
{
    if j < a.len() {
        assert(s[j] == s.subrange(0, a.len() as int)[j]);
        lemma_number_end_prefix(a, s, j + 1, true);
        lemma_number_end_prefix(a, s, j + 1, dot);
    }
}

proof fn lemma_name_end_prefix(a: Seq<char>, s: Seq<char>, j: int)
    requires
        0 <= j <= a.len(),
        a.len() < s.len(),
        s.subrange(0, a.len() as int) == a,
        s[a.len() as int] == ' ',
    ensures
        name_end(s, j) == name_end(a, j),
    decreases a.len() - j,
{
    if j < a.len() {
        assert(s[j] == s.subrange(0, a.len() as int)[j]);
        lemma_name_end_prefix(a, s, j + 1);
    }
}

/// The number of `"` in `a` from `i` on.
pub open spec fn quote_count(a: Seq<char>, i: int) -> nat
    decreases a.len() - i,
{
    if i < 0 || i >= a.len() {
        0
    } else {
        (if a[i] == '"' {
            1nat
        } else {
            0nat
        }) + quote_count(a, i + 1)
    }
}

proof fn lemma_quote_count_skip(a: Seq<char>, i: int, j: int)
    requires
        0 <= i <= j <= a.len(),
        forall|k: int| i <= k < j ==> a[k] != '"',
    ensures
        quote_count(a, i) == quote_count(a, j),
    decreases j - i,
{
    if i < j {
        lemma_quote_count_skip(a, i + 1, j);
    }
}

proof fn lemma_number_end_chars(s: Seq<char>, j: int, dot: bool)
    requires
        0 <= j <= s.len(),
    ensures
        forall|k: int| j <= k < number_end(s, j, dot) ==> s[k] != '"',
    decreases s.len() - j,
{
    if j < s.len() {
        if is_digit(s[j]) {
            lemma_number_end_chars(s, j + 1, dot);
        } else if s[j] == '.' && !dot {
            lemma_number_end_chars(s, j + 1, true);
        }
    }
}

proof fn lemma_name_end_chars(s: Seq<char>, j: int)
    requires
        0 <= j <= s.len(),
    ensures
        forall|k: int| j <= k < name_end(s, j) ==> s[k] != '"',
    decreases s.len() - j,
{
    if j < s.len() && is_name_char(s[j]) {
        lemma_name_end_chars(s, j + 1);
    }
}

proof fn lemma_quote_end_chars(s: Seq<char>, j: int)
    requires
        0 <= j <= s.len(),
    ensures
        forall|k: int| j <= k < quote_end(s, j) ==> s[k] != '"',
    decreases s.len() - j,
{
    if j < s.len() && s[j] != '"' {
        lemma_quote_end_chars(s, j + 1);
    }
}

proof fn lemma_quote_end_prefix(a: Seq<char>, s: Seq<char>, j: int)
    requires
        0 <= j <= a.len(),
        a.len() < s.len(),
        s.subrange(0, a.len() as int) == a,
        quote_end(a, j) < a.len(),
    ensures
        quote_end(s, j) == quote_end(a, j),
    decreases a.len() - j,
{
    assert(s[j] == s.subrange(0, a.len() as int)[j]);
    if a[j] != '"' {
        lemma_quote_end_prefix(a, s, j + 1);
    }
}

proof fn lemma_cons_glue(t: TokenView, r: Seq<TokenView>, lb: Option<Seq<TokenView>>)
    requires
        r.len() >= 1,
    ensures
        cons_token(t, glue(r.drop_last(), lb)) == glue((seq![t] + r).drop_last(), lb),
{
    assert((seq![t] + r).drop_last() =~= seq![t] + r.drop_last());
    if let Some(x) = lb {
        assert(seq![t] + (r.drop_last() + x) =~= (seq![t] + r.drop_last()) + x);
    }
}

/// Lemma: in `a` joined to more text by a blank, the tokens of `a` from `i` on
/// come first, when `a` holds an even number of `"` from `i` on.
proof fn lemma_lex_prefix(a: Seq<char>, b: Seq<char>, i: int)
    requires
        0 <= i <= a.len(),
        quote_count(a, i) % 2 == 0,
    ensures
        lex_from(a, i) matches Some(ts) ==> lex_from(a + seq![' '] + b, i) == glue(
            ts.drop_last(),
            lex(b),
        ),
    decreases a.len() - i,
{
    let s = a + seq![' '] + b;
    let n = a.len() as int;
    assert(s.subrange(0, n) =~= a);
    assert(s[n] == ' ');
    if i == n {
        assert(s =~= (a + seq![' ']) + b);
        lemma_lex_shift(a + seq![' '], b, 0);
        assert(seq![TokenView::EOF].drop_last() =~= Seq::<TokenView>::empty());
        if let Some(x) = lex(b) {
            assert(Seq::<TokenView>::empty() + x =~= x);
        }
    } else if let Some(ts) = lex_from(a, i) {
        assert forall|k: int| 0 <= k < n implies #[trigger] s[k] == a[k] by {
            assert(s[k] == s.subrange(0, n)[k]);
        }
        let c = a[i];
        assert(s[i] == c);
        if i + 1 < n {
            assert(s[i + 1] == a[i + 1]);
        }
        if i + 2 < n {
            assert(s[i + 2] == a[i + 2]);
        }
        if c != '"' {
            lemma_quote_count_skip(a, i, i + 1);
        }
        if i + 2 <= n && c != '"' && a[i + 1] != '"' {
            lemma_quote_count_skip(a, i, i + 2);
        }
        if i + 3 <= n && c != '"' && a[i + 1] != '"' && a[i + 2] != '"' {
            lemma_quote_count_skip(a, i, i + 3);
        }
        if is_space(c) {
            lemma_lex_prefix(a, b, i + 1);
        } else if c == '=' {
            if s[i + 1] == '=' {
                lemma_lex_prefix(a, b, i + 2);
                lemma_lex_from_wf(a, i + 2);
                lemma_cons_glue(TokenView::Equal, lex_from(a, i + 2)->0, lex(b));
            } else {
                lemma_lex_prefix(a, b, i + 1);
                lemma_lex_from_wf(a, i + 1);
                lemma_cons_glue(TokenView::Assign, lex_from(a, i + 1)->0, lex(b));
            }
        } else if single_char_token(c) is Some {
            lemma_lex_prefix(a, b, i + 1);
            lemma_lex_from_wf(a, i + 1);
            lemma_cons_glue(single_char_token(c)->0, lex_from(a, i + 1)->0, lex(b));
        } else if c == '&' {
            lemma_lex_prefix(a, b, i + 2);
            lemma_lex_from_wf(a, i + 2);
            lemma_cons_glue(TokenView::And, lex_from(a, i + 2)->0, lex(b));
        } else if c == '|' {
            lemma_lex_prefix(a, b, i + 2);
            lemma_lex_from_wf(a, i + 2);
            lemma_cons_glue(TokenView::Or, lex_from(a, i + 2)->0, lex(b));
        } else if c == '!' {
            lemma_lex_prefix(a, b, i + 2);
            lemma_lex_from_wf(a, i + 2);
            lemma_cons_glue(TokenView::NotEqual, lex_from(a, i + 2)->0, lex(b));
        } else if is_digit(c) {
            lemma_number_end_bounds(a, i + 1, false);
            lemma_number_end_prefix(a, s, i, false);
            lemma_number_end_chars(a, i, false);
            let e = number_end(a, i, false);
            lemma_quote_count_skip(a, i, e);
            let text = a.subrange(i, e);
            assert(s.subrange(i, e) =~= text);
            lemma_lex_prefix(a, b, e);
            lemma_lex_from_wf(a, e);
            if text.contains('.') {
                lemma_cons_glue(TokenView::FloatValue(text), lex_from(a, e)->0, lex(b));
            } else {
                lemma_cons_glue(TokenView::Number(decimal_value(text) as i64), lex_from(a, e)->0, lex(b));
            }
        } else if c == '\'' {
            lemma_lex_prefix(a, b, i + 3);
            lemma_lex_from_wf(a, i + 3);
            lemma_cons_glue(TokenView::CharValue(a[i + 1]), lex_from(a, i + 3)->0, lex(b));
        } else if c == '"' {
            lemma_quote_end_bounds(a, i + 1);
            lemma_quote_end_chars(a, i + 1);
            let e = quote_end(a, i + 1);
            lemma_quote_count_skip(a, i + 1, e);
            if e < n {
                lemma_quote_end_prefix(a, s, i + 1);
                assert(s.subrange(i + 1, e) =~= a.subrange(i + 1, e));
                lemma_lex_prefix(a, b, e + 1);
                lemma_lex_from_wf(a, e + 1);
                lemma_cons_glue(TokenView::String(a.subrange(i + 1, e)), lex_from(a, e + 1)->0, lex(b));
            }
        } else if is_name_char(c) {
            lemma_name_end_bounds(a, i + 1);
            lemma_name_end_prefix(a, s, i);
            lemma_name_end_chars(a, i);
            let e = name_end(a, i);
            lemma_quote_count_skip(a, i, e);
            assert(s.subrange(i, e) =~= a.subrange(i, e));
            lemma_lex_prefix(a, b, e);
            lemma_lex_from_wf(a, e);
            lemma_cons_glue(word_token(a.subrange(i, e)), lex_from(a, e)->0, lex(b));
        }
    }
}

/// Law: two texts joined by a blank lex to the tokens of the first, without
/// its `EOF`, followed by the tokens of the second, when the first lexes and
/// closes every string literal it opens, that is, holds an even number of `"`
/// (a literal left open at its end would run on into the second). Where the
/// second does not lex, neither does the whole.
pub proof fn law_lex_join(a: Seq<char>, b: Seq<char>)
    requires
        lex(a) is Some,
        quote_count(a, 0) % 2 == 0,
    ensures
        lex(a + seq![' '] + b) == glue(lex(a)->0.drop_last(), lex(b)),
{
    lemma_lex_prefix(a, b, 0);
}


/// `c` is an ASCII letter of either case, or `_`.
pub open spec fn ascii_word_char(c: char) -> bool {
    ('a' <= c && c <= 'z') || ('A' <= c && c <= 'Z') || c == '_'
}

proof fn lemma_name_end_all(w: Seq<char>, j: int)
    requires
        0 <= j <= w.len(),
        forall|k: int| 0 <= k < w.len() ==> ascii_word_char(#[trigger] w[k]),
    ensures
        name_end(w, j) == w.len(),
    decreases w.len() - j,
{
    if j < w.len() {
        assert(ascii_word_char(w[j]));
        lemma_name_end_all(w, j + 1);
    }
}

/// Law: a text that is one run of ASCII letters (of either case) and
/// underscores, and no keyword, lexes to one name that holds exactly that
/// text, then `EOF`.
pub proof fn law_word_is_one_name(w: Seq<char>)
    requires
        w.len() > 0,
        forall|k: int| 0 <= k < w.len() ==> ascii_word_char(#[trigger] w[k]),
        keyword(w) is None,
    ensures
        lex(w) == Some(seq![TokenView::Identifier(w), TokenView::EOF]),
{
    let c = w[0];
    assert(ascii_word_char(c));
    assert(!is_space(c) && c != '=' && single_char_token(c) is None && c != '&' && c != '|' && c
        != '!' && !is_digit(c) && c != '\'' && c != '"' && is_name_char(c));
    lemma_name_end_all(w, 0);
    assert(w.subrange(0, w.len() as int) =~= w);
    assert(word_token(w) == TokenView::Identifier(w));
    assert(lex_from(w, w.len() as int) == Some(seq![TokenView::EOF]));
    assert(seq![TokenView::Identifier(w)] + seq![TokenView::EOF] =~= seq![
        TokenView::Identifier(w),
        TokenView::EOF,
    ]);
}

/// Law: a quoted ASCII letter (of either case) or digit lexes to that
/// character literal, then `EOF`.
pub proof fn law_char_literal(c: char)
    requires
        ('a' <= c && c <= 'z') || ('A' <= c && c <= 'Z') || ('0' <= c && c <= '9'),
    ensures
        lex(seq!['\'', c, '\'']) == Some(seq![TokenView::CharValue(c), TokenView::EOF]),
{
    let s = seq!['\'', c, '\''];
    assert(s[0] == '\'' && s[1] == c && s[2] == '\'');
    assert(lex_from(s, 3) == Some(seq![TokenView::EOF]));
    assert(seq![TokenView::CharValue(c)] + seq![TokenView::EOF] =~= seq![
        TokenView::CharValue(c),
        TokenView::EOF,
    ]);
}

} // verus!
