//! Tokenizer: turns source text into an ordered token sequence terminated
//! by a sentinel `End` token. Identifiers are classified against the fixed
//! keyword set; a digit run directly followed by a letter or underscore,
//! and any unrecognized character, are rejected.

use vstd::prelude::*;

verus! {

#[derive(Debug, Clone, PartialEq)]
pub enum Token {
    Plus,
    Subtract,
    Multiply,
    Divide,
    Modulus,
    Assign,
    Less,
    LessEqual,
    Greater,
    GreaterEqual,
    Equality,
    NotEqual,
    Num(i32),
    Ident(String),
    If,
    While,
    Read,
    Func,
    Return,
    Int,
    Print,
    Else,
    Break,
    Continue,
    LeftParen,
    RightParen,
    LeftCurly,
    RightCurly,
    LeftBracket,
    RightBracket,
    Comma,
    Semicolon,
    End,
}

/// Ghost counterpart of `Token`: identifier text as a character sequence,
/// numeric value as an unbounded integer.
pub enum TokenV {
    Plus,
    Subtract,
    Multiply,
    Divide,
    Modulus,
    Assign,
    Less,
    LessEqual,
    Greater,
    GreaterEqual,
    Equality,
    NotEqual,
    Num(int),
    Ident(Seq<char>),
    If,
    While,
    Read,
    Func,
    Return,
    Int,
    Print,
    Else,
    Break,
    Continue,
    LeftParen,
    RightParen,
    LeftCurly,
    RightCurly,
    LeftBracket,
    RightBracket,
    Comma,
    Semicolon,
    End,
}

impl View for Token {
    type V = TokenV;

    open spec fn view(&self) -> TokenV {
        match *self {
            Token::Plus => TokenV::Plus,
            Token::Subtract => TokenV::Subtract,
            Token::Multiply => TokenV::Multiply,
            Token::Divide => TokenV::Divide,
            Token::Modulus => TokenV::Modulus,
            Token::Assign => TokenV::Assign,
            Token::Less => TokenV::Less,
            Token::LessEqual => TokenV::LessEqual,
            Token::Greater => TokenV::Greater,
            Token::GreaterEqual => TokenV::GreaterEqual,
            Token::Equality => TokenV::Equality,
            Token::NotEqual => TokenV::NotEqual,
            Token::Num(n) => TokenV::Num(n as int),
            Token::Ident(s) => TokenV::Ident(s@),
            Token::If => TokenV::If,
            Token::While => TokenV::While,
            Token::Read => TokenV::Read,
            Token::Func => TokenV::Func,
            Token::Return => TokenV::Return,
            Token::Int => TokenV::Int,
            Token::Print => TokenV::Print,
            Token::Else => TokenV::Else,
            Token::Break => TokenV::Break,
            Token::Continue => TokenV::Continue,
            Token::LeftParen => TokenV::LeftParen,
            Token::RightParen => TokenV::RightParen,
            Token::LeftCurly => TokenV::LeftCurly,
            Token::RightCurly => TokenV::RightCurly,
            Token::LeftBracket => TokenV::LeftBracket,
            Token::RightBracket => TokenV::RightBracket,
            Token::Comma => TokenV::Comma,
            Token::Semicolon => TokenV::Semicolon,
            Token::End => TokenV::End,
        }
    }
}

/// The ghost views of a token sequence.
pub open spec fn token_views(tokens: Seq<Token>) -> Seq<TokenV> {
    tokens.map_values(|t: Token| t@)
}

pub broadcast proof fn lemma_token_views_push(tokens: Seq<Token>, t: Token)
    ensures
        #[trigger] token_views(tokens.push(t)) =~= token_views(tokens).push(t@),
{
}

// ---------------------------------------------------------------------
// Character classes (ASCII, as the language's lexical grammar uses them)
// ---------------------------------------------------------------------

pub open spec fn is_letter(c: char) -> bool {
    (97 <= c as u32 && c as u32 <= 122) || (65 <= c as u32 && c as u32 <= 90)
}

pub open spec fn is_digit(c: char) -> bool {
    48 <= c as u32 && c as u32 <= 57
}

pub open spec fn is_ident_char(c: char) -> bool {
    is_letter(c) || is_digit(c) || c == '_'
}

pub open spec fn digit_val(c: char) -> nat {
    (c as u32 - 48) as nat
}

fn letter(c: char) -> (r: bool)
    ensures
        r == is_letter(c),
{
    let u = c as u32;
    (97 <= u && u <= 122) || (65 <= u && u <= 90)
}

fn digit(c: char) -> (r: bool)
    ensures
        r == is_digit(c),
{
    let u = c as u32;
    48 <= u && u <= 57
}

fn ident_char(c: char) -> (r: bool)
    ensures
        r == is_ident_char(c),
{
    letter(c) || digit(c) || c == '_'
}

// ---------------------------------------------------------------------
// Scanning: where an identifier, digit run, or comment ends
// ---------------------------------------------------------------------

/// First position at or after `i` that does not continue an identifier.
pub open spec fn ident_end(s: Seq<char>, i: int) -> int
    decreases s.len() - i,
{
    if i < 0 {
        0
    } else if i >= s.len() {
        s.len() as int
    } else if is_ident_char(s[i]) {
        ident_end(s, i + 1)
    } else {
        i
    }
}

/// First position at or after `i` that is not a decimal digit.
pub open spec fn digits_end(s: Seq<char>, i: int) -> int
    decreases s.len() - i,
{
    if i < 0 {
        0
    } else if i >= s.len() {
        s.len() as int
    } else if is_digit(s[i]) {
        digits_end(s, i + 1)
    } else {
        i
    }
}

/// First position at or after `i` holding a newline.
pub open spec fn comment_end(s: Seq<char>, i: int) -> int
    decreases s.len() - i,
{
    if i < 0 {
        0
    } else if i >= s.len() {
        s.len() as int
    } else if s[i] == '\n' {
        i
    } else {
        comment_end(s, i + 1)
    }
}

pub proof fn lemma_ident_end(s: Seq<char>, i: int)
    requires
        0 <= i <= s.len(),
    ensures
        i <= ident_end(s, i) <= s.len(),
        forall|k: int| i <= k < ident_end(s, i) ==> is_ident_char(s[k]),
        ident_end(s, i) < s.len() ==> !is_ident_char(s[ident_end(s, i)]),
    decreases s.len() - i,
{
    if i < s.len() && is_ident_char(s[i]) {
        lemma_ident_end(s, i + 1);
    }
}

pub proof fn lemma_digits_end(s: Seq<char>, i: int)
    requires
        0 <= i <= s.len(),
    ensures
        i <= digits_end(s, i) <= s.len(),
        forall|k: int| i <= k < digits_end(s, i) ==> is_digit(s[k]),
        digits_end(s, i) < s.len() ==> !is_digit(s[digits_end(s, i)]),
    decreases s.len() - i,
{
    if i < s.len() && is_digit(s[i]) {
        lemma_digits_end(s, i + 1);
    }
}

pub proof fn lemma_comment_end(s: Seq<char>, i: int)
    requires
        0 <= i <= s.len(),
    ensures
        i <= comment_end(s, i) <= s.len(),
        forall|k: int| i <= k < comment_end(s, i) ==> s[k] != '\n',
        comment_end(s, i) < s.len() ==> s[comment_end(s, i)] == '\n',
    decreases s.len() - i,
{
    if i < s.len() && s[i] != '\n' {
        lemma_comment_end(s, i + 1);
    }
}

/// Numeric value of a digit run, most significant digit first.
pub open spec fn digits_val(s: Seq<char>) -> nat
    decreases s.len(),
{
    if s.len() == 0 {
        0
    } else {
        digits_val(s.drop_last()) * 10 + digit_val(s.last())
    }
}

// ---------------------------------------------------------------------
// Keywords
// ---------------------------------------------------------------------

pub open spec fn spec_keyword(s: Seq<char>) -> Option<TokenV> {
    if s == "func"@ {
        Some(TokenV::Func)
    } else if s == "return"@ {
        Some(TokenV::Return)
    } else if s == "int"@ {
        Some(TokenV::Int)
    } else if s == "print"@ {
        Some(TokenV::Print)
    } else if s == "else"@ {
        Some(TokenV::Else)
    } else if s == "break"@ {
        Some(TokenV::Break)
    } else if s == "continue"@ {
        Some(TokenV::Continue)
    } else if s == "while"@ {
        Some(TokenV::While)
    } else if s == "if"@ {
        Some(TokenV::If)
    } else if s == "read"@ {
        Some(TokenV::Read)
    } else {
        None
    }
}

/// The token a word lexes to: its keyword token, or an identifier.
pub open spec fn spec_create_identifier(s: Seq<char>) -> TokenV {
    match spec_keyword(s) {
        Some(t) => t,
        None => TokenV::Ident(s),
    }
}

fn str_eq(a: &str, b: &str) -> (r: bool)
    ensures
        r == (a@ == b@),
{
    let la = a.unicode_len();
    let lb = b.unicode_len();
    if la != lb {
        return false;
    }
    let mut i: usize = 0;
    while i < la
        invariant
            la == a@.len(),
            lb == b@.len(),
            la == lb,
            i <= la,
            forall|j: int| 0 <= j < i ==> a@[j] == b@[j],
        decreases la - i,
    {
        if a.get_char(i) != b.get_char(i) {
            return false;
        }
        i = i + 1;
    }
    proof {
        assert(a@ =~= b@);
    }
    true
}

/// Classifies a word: a keyword token where the word is a keyword,
/// otherwise an identifier token holding the word itself.
pub fn create_identifier(code: &str) -> (t: Token)
    ensures
        t@ == spec_create_identifier(code@),
{
    if str_eq(code, "func") {
        Token::Func
    } else if str_eq(code, "return") {
        Token::Return
    } else if str_eq(code, "int") {
        Token::Int
    } else if str_eq(code, "print") {
        Token::Print
    } else if str_eq(code, "else") {
        Token::Else
    } else if str_eq(code, "break") {
        Token::Break
    } else if str_eq(code, "continue") {
        Token::Continue
    } else if str_eq(code, "while") {
        Token::While
    } else if str_eq(code, "if") {
        Token::If
    } else if str_eq(code, "read") {
        Token::Read
    } else {
        Token::Ident(code.to_owned())
    }
}

// ---------------------------------------------------------------------
// The tokenizer itself
// ---------------------------------------------------------------------

/// What `lex` returns for the input suffix starting at position `i`:
/// the tokens of the suffix followed by `End`, or the first error.
pub open spec fn spec_lex_from(s: Seq<char>, i: int) -> Result<Seq<TokenV>, Seq<char>>
    decreases s.len() - i when i <= s.len()
{
    if i < 0 || i >= s.len() {
        Ok(seq![TokenV::End])
    } else {
        let c = s[i];
        if is_letter(c) {
            let j = ident_end(s, i + 1);
            let j2 = if i + 1 <= j && j <= s.len() {
                j
            } else {
                i + 1
            };
            cons_token(spec_create_identifier(s.subrange(i, j2)), spec_lex_from(s, j2))
        } else if is_digit(c) {
            let j = digits_end(s, i + 1);
            let j2 = if i + 1 <= j && j <= s.len() {
                j
            } else {
                i + 1
            };
            if j2 < s.len() && (is_letter(s[j2]) || s[j2] == '_') {
                Err("Lexer: Invalid variable name starting with a number at: "@ + s.subrange(i, j2 + 1))
            } else if digits_val(s.subrange(i, j2)) > 0x7fff_ffff {
                Err("Lexer: Number too large for a 32-bit integer"@)
            } else {
                cons_token(TokenV::Num(digits_val(s.subrange(i, j2)) as int), spec_lex_from(s, j2))
            }
        } else if c == '#' {
            let j = comment_end(s, i + 1);
            let j2 = if i + 1 <= j && j <= s.len() {
                j
            } else {
                i + 1
            };
            spec_lex_from(s, j2)
        } else if c == '<' {
            if i + 1 < s.len() && s[i + 1] == '=' {
                cons_token(TokenV::LessEqual, spec_lex_from(s, i + 2))
            } else {
                cons_token(TokenV::Less, spec_lex_from(s, i + 1))
            }
        } else if c == '>' {
            if i + 1 < s.len() && s[i + 1] == '=' {
                cons_token(TokenV::GreaterEqual, spec_lex_from(s, i + 2))
            } else {
                cons_token(TokenV::Greater, spec_lex_from(s, i + 1))
            }
        } else if c == '!' {
            if i + 1 < s.len() && s[i + 1] == '=' {
                cons_token(TokenV::NotEqual, spec_lex_from(s, i + 2))
            } else {
                Err("Lexer: Unrecognized symbol '"@ + seq![c] + "'"@)
            }
        } else if c == '=' {
            if i + 1 < s.len() && s[i + 1] == '=' {
                cons_token(TokenV::Equality, spec_lex_from(s, i + 2))
            } else {
                cons_token(TokenV::Assign, spec_lex_from(s, i + 1))
            }
        } else if c == ' ' || c == '\n' {
            spec_lex_from(s, i + 1)
        } else if c == '+' {
            cons_token(TokenV::Plus, spec_lex_from(s, i + 1))
        } else if c == '-' {
            cons_token(TokenV::Subtract, spec_lex_from(s, i + 1))
        } else if c == '*' {
            cons_token(TokenV::Multiply, spec_lex_from(s, i + 1))
        } else if c == '/' {
            cons_token(TokenV::Divide, spec_lex_from(s, i + 1))
        } else if c == '%' {
            cons_token(TokenV::Modulus, spec_lex_from(s, i + 1))
        } else if c == '(' {
            cons_token(TokenV::LeftParen, spec_lex_from(s, i + 1))
        } else if c == ')' {
            cons_token(TokenV::RightParen, spec_lex_from(s, i + 1))
        } else if c == '{' {
            cons_token(TokenV::LeftCurly, spec_lex_from(s, i + 1))
        } else if c == '}' {
            cons_token(TokenV::RightCurly, spec_lex_from(s, i + 1))
        } else if c == '[' {
            cons_token(TokenV::LeftBracket, spec_lex_from(s, i + 1))
        } else if c == ']' {
            cons_token(TokenV::RightBracket, spec_lex_from(s, i + 1))
        } else if c == ',' {
            cons_token(TokenV::Comma, spec_lex_from(s, i + 1))
        } else if c == ';' {
            cons_token(TokenV::Semicolon, spec_lex_from(s, i + 1))
        } else {
            Err("Lexer: Unrecognized symbol '"@ + seq![c] + "'"@)
        }
    }
}

pub open spec fn cons_token(t: TokenV, rest: Result<Seq<TokenV>, Seq<char>>) -> Result<
    Seq<TokenV>,
    Seq<char>,
> {
    match rest {
        Ok(ts) => Ok(seq![t] + ts),
        Err(m) => Err(m),
    }
}

/// Relates the tokens already produced to the tokens of the remaining
/// suffix: together they are exactly what `lex` yields for the whole input.
pub open spec fn lex_prefix_ok(s: Seq<char>, done: Seq<TokenV>, i: int) -> bool {
    match spec_lex_from(s, i) {
        Ok(rest) => spec_lex_from(s, 0) == Ok::<Seq<TokenV>, Seq<char>>(done + rest),
        Err(m) => spec_lex_from(s, 0) == Err::<Seq<TokenV>, Seq<char>>(m),
    }
}

/// Tokenizes the whole input. On success the token sequence is exactly
/// `spec_lex_from(code@, 0)`, which always ends with the `End` sentinel.
pub fn lex(code: &str) -> (r: Result<Vec<Token>, String>)
    ensures
        ({
            let m = spec_lex_from(code@, 0);
            match r {
                Ok(tokens) => m is Ok && token_views(tokens@) == m->Ok_0,
                Err(e) => m is Err && e@ == m->Err_0,
            }
        }),
{
    broadcast use lemma_token_views_push;

    let n = code.unicode_len();
    let mut tokens: Vec<Token> = Vec::new();
    let mut i: usize = 0;
    proof {
        assert(token_views(tokens@) =~= Seq::<TokenV>::empty());
        match spec_lex_from(code@, 0) {
            Ok(rest) => {
                assert(Seq::<TokenV>::empty() + rest =~= rest);
            },
            Err(m) => {},
        }
    }
    while i < n
        invariant
            n == code@.len(),
            i <= n,
            lex_prefix_ok(code@, token_views(tokens@), i as int),
        decreases n - i,
    {
        let ghost s = code@;
        let ghost done0 = token_views(tokens@);
        let ghost i0 = i as int;
        let c = code.get_char(i);
        if letter(c) {
            let start = i;
            i = i + 1;
            loop
                invariant
                    n == s.len(),
                    s == code@,
                    start < i <= n,
                    ident_end(s, start + 1) == ident_end(s, i as int),
                ensures
                    i as int == ident_end(s, start + 1),
                    start < i <= n,
                decreases n - i,
            {
                if i >= n {
                    break;
                }
                let ch = code.get_char(i);
                if !ident_char(ch) {
                    break;
                }
                i = i + 1;
            }
            let word = code.substring_char(start, i);
            let tok = create_identifier(word);
            tokens.push(tok);
            proof {
                lemma_ident_end(s, i0 + 1);
                lemma_prefix_cons(s, done0, token_views(tokens@), i0, i as int, spec_create_identifier(s.subrange(i0, i as int)));
            }
        } else if digit(c) {
            let start = i;
            i = i + 1;
            loop
                invariant
                    n == s.len(),
                    s == code@,
                    start < i <= n,
                    digits_end(s, start + 1) == digits_end(s, i as int),
                    forall|k: int| start <= k < i ==> is_digit(s[k]),
                ensures
                    i as int == digits_end(s, start + 1),
                    start < i <= n,
                    forall|k: int| start <= k < i ==> is_digit(s[k]),
                decreases n - i,
            {
                if i >= n {
                    break;
                }
                let ch = code.get_char(i);
                if !digit(ch) {
                    break;
                }
                i = i + 1;
            }
            proof {
                lemma_digits_end(s, i0 + 1);
            }
            if i < n {
                let ch = code.get_char(i);
                if letter(ch) || ch == '_' {
                    return Err(
                        String::from_str(
                            "Lexer: Invalid variable name starting with a number at: ",
                        ).concat(code.substring_char(start, i + 1)),
                    );
                }
            }
            // value of the digit run, frozen once it exceeds the i32 range
            let mut acc: u64 = 0;
            let mut k: usize = start;
            while k < i
                invariant
                    n == s.len(),
                    s == code@,
                    start <= k <= i <= n,
                    forall|j: int| start <= j < i ==> is_digit(s[j]),
                    acc <= 0x7fff_ffff ==> acc as nat == digits_val(s.subrange(start as int, k as int)),
                    acc > 0x7fff_ffff ==> digits_val(s.subrange(start as int, k as int)) > 0x7fff_ffff,
                    acc <= 0x4_ffff_ffff,
                decreases i - k,
            {
                let ch = code.get_char(k);
                let d = (ch as u32) - 48;
                proof {
                    assert(s.subrange(start as int, k + 1).drop_last() =~= s.subrange(
                        start as int,
                        k as int,
                    ));
                    assert(s.subrange(start as int, k + 1).last() == s[k as int]);
                }
                if acc <= 0x7fff_ffff {
                    acc = acc * 10 + (d as u64);
                }
                k = k + 1;
            }
            if acc > 0x7fff_ffff {
                return Err(String::from_str("Lexer: Number too large for a 32-bit integer"));
            }
            tokens.push(Token::Num(acc as i32));
            proof {
                lemma_prefix_cons(
                    s,
                    done0,
                    token_views(tokens@),
                    i0,
                    i as int,
                    TokenV::Num(digits_val(s.subrange(i0, i as int)) as int),
                );
            }
        } else if c == '#' {
            i = i + 1;
            loop
                invariant
                    n == s.len(),
                    s == code@,
                    i0 < i <= n,
                    comment_end(s, i0 + 1) == comment_end(s, i as int),
                ensures
                    i as int == comment_end(s, i0 + 1),
                    i0 < i <= n,
                decreases n - i,
            {
                if i >= n {
                    break;
                }
                let ch = code.get_char(i);
                if ch == '\n' {
                    break;
                }
                i = i + 1;
            }
            proof {
                lemma_comment_end(s, i0 + 1);
                lemma_prefix_skip(s, done0, i0, i as int);
            }
        } else if c == '<' {
            if i + 1 < n && code.get_char(i + 1) == '=' {
                tokens.push(Token::LessEqual);
                i = i + 2;
                proof {
                    lemma_prefix_cons(s, done0, token_views(tokens@), i0, i as int, TokenV::LessEqual);
                }
            } else {
                tokens.push(Token::Less);
                i = i + 1;
                proof {
                    lemma_prefix_cons(s, done0, token_views(tokens@), i0, i as int, TokenV::Less);
                }
            }
        } else if c == '>' {
            if i + 1 < n && code.get_char(i + 1) == '=' {
                tokens.push(Token::GreaterEqual);
                i = i + 2;
                proof {
                    lemma_prefix_cons(s, done0, token_views(tokens@), i0, i as int, TokenV::GreaterEqual);
                }
            } else {
                tokens.push(Token::Greater);
                i = i + 1;
                proof {
                    lemma_prefix_cons(s, done0, token_views(tokens@), i0, i as int, TokenV::Greater);
                }
            }
        } else if c == '!' {
            if i + 1 < n && code.get_char(i + 1) == '=' {
                tokens.push(Token::NotEqual);
                i = i + 2;
                proof {
                    lemma_prefix_cons(s, done0, token_views(tokens@), i0, i as int, TokenV::NotEqual);
                }
            } else {
                let e = String::from_str("Lexer: Unrecognized symbol '").concat(
                    code.substring_char(i, i + 1),
                ).concat("'");
                proof {
                    assert(s.subrange(i0, i0 + 1) =~= seq![s[i0]]);
                }
                return Err(e);
            }
        } else if c == '=' {
            if i + 1 < n && code.get_char(i + 1) == '=' {
                tokens.push(Token::Equality);
                i = i + 2;
                proof {
                    lemma_prefix_cons(s, done0, token_views(tokens@), i0, i as int, TokenV::Equality);
                }
            } else {
                tokens.push(Token::Assign);
                i = i + 1;
                proof {
                    lemma_prefix_cons(s, done0, token_views(tokens@), i0, i as int, TokenV::Assign);
                }
            }
        } else if c == ' ' || c == '\n' {
            i = i + 1;
            proof {
                lemma_prefix_skip(s, done0, i0, i as int);
            }
        } else if c == '+' {
            tokens.push(Token::Plus);
            i = i + 1;
            proof {
                lemma_prefix_cons(s, done0, token_views(tokens@), i0, i as int, TokenV::Plus);
            }
        } else if c == '-' {
            tokens.push(Token::Subtract);
            i = i + 1;
            proof {
                lemma_prefix_cons(s, done0, token_views(tokens@), i0, i as int, TokenV::Subtract);
            }
        } else if c == '*' {
            tokens.push(Token::Multiply);
            i = i + 1;
            proof {
                lemma_prefix_cons(s, done0, token_views(tokens@), i0, i as int, TokenV::Multiply);
            }
        } else if c == '/' {
            tokens.push(Token::Divide);
            i = i + 1;
            proof {
                lemma_prefix_cons(s, done0, token_views(tokens@), i0, i as int, TokenV::Divide);
            }
        } else if c == '%' {
            tokens.push(Token::Modulus);
            i = i + 1;
            proof {
                lemma_prefix_cons(s, done0, token_views(tokens@), i0, i as int, TokenV::Modulus);
            }
        } else if c == '(' {
            tokens.push(Token::LeftParen);
            i = i + 1;
            proof {
                lemma_prefix_cons(s, done0, token_views(tokens@), i0, i as int, TokenV::LeftParen);
            }
        } else if c == ')' {
            tokens.push(Token::RightParen);
            i = i + 1;
            proof {
                lemma_prefix_cons(s, done0, token_views(tokens@), i0, i as int, TokenV::RightParen);
            }
        } else if c == '{' {
            tokens.push(Token::LeftCurly);
            i = i + 1;
            proof {
                lemma_prefix_cons(s, done0, token_views(tokens@), i0, i as int, TokenV::LeftCurly);
            }
        } else if c == '}' {
            tokens.push(Token::RightCurly);
            i = i + 1;
            proof {
                lemma_prefix_cons(s, done0, token_views(tokens@), i0, i as int, TokenV::RightCurly);
            }
        } else if c == '[' {
            tokens.push(Token::LeftBracket);
            i = i + 1;
            proof {
                lemma_prefix_cons(s, done0, token_views(tokens@), i0, i as int, TokenV::LeftBracket);
            }
        } else if c == ']' {
            tokens.push(Token::RightBracket);
            i = i + 1;
            proof {
                lemma_prefix_cons(s, done0, token_views(tokens@), i0, i as int, TokenV::RightBracket);
            }
        } else if c == ',' {
            tokens.push(Token::Comma);
            i = i + 1;
            proof {
                lemma_prefix_cons(s, done0, token_views(tokens@), i0, i as int, TokenV::Comma);
            }
        } else if c == ';' {
            tokens.push(Token::Semicolon);
            i = i + 1;
            proof {
                lemma_prefix_cons(s, done0, token_views(tokens@), i0, i as int, TokenV::Semicolon);
            }
        } else {
            let e = String::from_str("Lexer: Unrecognized symbol '").concat(
                code.substring_char(i, i + 1),
            ).concat("'");
            proof {
                assert(s.subrange(i0, i0 + 1) =~= seq![s[i0]]);
            }
            return Err(e);
        }
    }
    tokens.push(Token::End);
    proof {
        assert(spec_lex_from(code@, i as int) == Ok::<Seq<TokenV>, Seq<char>>(seq![TokenV::End]));
        match spec_lex_from(code@, 0) {
            Ok(all) => {
                assert(token_views(tokens@) =~= all);
            },
            Err(m) => {
                assert(false);
            },
        }
    }
    Ok(tokens)
}

/// One token was recognized at `i0` and the scan moved to `i1`:
/// the prefix relation carries over with that token appended.
proof fn lemma_prefix_cons(
    s: Seq<char>,
    done: Seq<TokenV>,
    done2: Seq<TokenV>,
    i0: int,
    i1: int,
    t: TokenV,
)
    requires
        lex_prefix_ok(s, done, i0),
        spec_lex_from(s, i0) == cons_token(t, spec_lex_from(s, i1)),
        done2 =~= done.push(t),
    ensures
        lex_prefix_ok(s, done2, i1),
{
    match spec_lex_from(s, i1) {
        Ok(rest) => {
            assert(done + (seq![t] + rest) =~= done2 + rest);
        },
        Err(m) => {},
    }
}

/// Whitespace or a comment was skipped from `i0` to `i1`: the prefix
/// relation carries over unchanged.
proof fn lemma_prefix_skip(s: Seq<char>, done: Seq<TokenV>, i0: int, i1: int)
    requires
        lex_prefix_ok(s, done, i0),
        spec_lex_from(s, i0) == spec_lex_from(s, i1),
    ensures
        lex_prefix_ok(s, done, i1),
{
}

} // verus!
