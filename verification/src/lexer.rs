//! Tokens of the small C-like source language, and the lexer that produces
//! them from source text.
//!
//! The lexer walks the characters once, left to right: whitespace is
//! skipped, line (`//`) and block (`/* */`) comments and preprocessor
//! lines (`#`) are discarded, number literals accumulate decimal digits,
//! string literals translate the usual backslash escapes, identifiers
//! collect ASCII letters, digits and underscores and are matched against
//! the keywords, and every other character becomes its own token.
//! Nothing here can abort: unknown characters are kept as
//! [`Token::Unknown`].
//!
//! The whole lexing discipline is written down once, as the
//! specification function [`lex_spec`]; [`tokenize`] is verified to
//! return exactly that token sequence.

use vstd::prelude::*;

verus! {

/// The tokens recognized by the lexer.
#[derive(Debug, PartialEq, Clone)]
pub enum Token {
    Int,
    Return,
    Identifier(String),
    Number(i64),
    LParen,
    RParen,
    LBrace,
    RBrace,
    Semicolon,
    Plus,
    Star,
    Minus,
    Divide,
    Mod,
    Equal,
    Less,
    Greater,
    If,
    Else,
    While,
    Assign,
    Comma,
    Div,
    StringLiteral(String),
    Unknown(char),
}

/// The mathematical shape of a [`Token`]: names and literal text as
/// character sequences.
pub enum TokenView {
    Int,
    Return,
    Identifier(Seq<char>),
    Number(i64),
    LParen,
    RParen,
    LBrace,
    RBrace,
    Semicolon,
    Plus,
    Star,
    Minus,
    Divide,
    Mod,
    Equal,
    Less,
    Greater,
    If,
    Else,
    While,
    Assign,
    Comma,
    Div,
    StringLiteral(Seq<char>),
    Unknown(char),
}

impl View for Token {
    type V = TokenView;

    open spec fn view(&self) -> TokenView {
        match self {
            Token::Int => TokenView::Int,
            Token::Return => TokenView::Return,
            Token::Identifier(s) => TokenView::Identifier(s@),
            Token::Number(n) => TokenView::Number(*n),
            Token::LParen => TokenView::LParen,
            Token::RParen => TokenView::RParen,
            Token::LBrace => TokenView::LBrace,
            Token::RBrace => TokenView::RBrace,
            Token::Semicolon => TokenView::Semicolon,
            Token::Plus => TokenView::Plus,
            Token::Star => TokenView::Star,
            Token::Minus => TokenView::Minus,
            Token::Divide => TokenView::Divide,
            Token::Mod => TokenView::Mod,
            Token::Equal => TokenView::Equal,
            Token::Less => TokenView::Less,
            Token::Greater => TokenView::Greater,
            Token::If => TokenView::If,
            Token::Else => TokenView::Else,
            Token::While => TokenView::While,
            Token::Assign => TokenView::Assign,
            Token::Comma => TokenView::Comma,
            Token::Div => TokenView::Div,
            Token::StringLiteral(s) => TokenView::StringLiteral(s@),
            Token::Unknown(c) => TokenView::Unknown(*c),
        }
    }
}

/// Whitespace skipped between tokens.
pub open spec fn is_ws_char(c: char) -> bool {
    c == ' ' || c == '\n' || c == '\r' || c == '\t'
}

/// A decimal digit.
pub open spec fn is_digit_char(c: char) -> bool {
    '0' <= c <= '9'
}

/// A character that may start an identifier: an ASCII letter or an
/// underscore.
pub open spec fn is_ident_start_char(c: char) -> bool {
    ('a' <= c <= 'z') || ('A' <= c <= 'Z') || c == '_'
}

/// A character that may continue an identifier: an ASCII letter, a
/// digit, or an underscore.
pub open spec fn is_ident_char(c: char) -> bool {
    is_ident_start_char(c) || is_digit_char(c)
}

/// The numeric value of a digit character.
pub open spec fn digit_val(c: char) -> i64 {
    ((c as u32) - ('0' as u32)) as i64
}

/// The first position at or after `i` that does not hold a digit.
pub open spec fn digits_end(s: Seq<char>, i: nat) -> nat
    decreases s.len() - i,
{
    if i < s.len() && is_digit_char(s[i as int]) {
        digits_end(s, (i + 1) as nat)
    } else {
        i
    }
}

/// The value of the digit run from `i` on, accumulated onto `acc` in
/// base ten with wrapping 64-bit arithmetic.
pub open spec fn scan_num(s: Seq<char>, i: nat, acc: i64) -> i64
    decreases s.len() - i,
{
    if i < s.len() && is_digit_char(s[i as int]) {
        scan_num(s, (i + 1) as nat, acc.wrapping_mul(10).wrapping_add(digit_val(s[i as int])))
    } else {
        acc
    }
}

/// The first position at or after `i` that cannot continue an
/// identifier.
pub open spec fn ident_end(s: Seq<char>, i: nat) -> nat
    decreases s.len() - i,
{
    if i < s.len() && is_ident_char(s[i as int]) {
        ident_end(s, (i + 1) as nat)
    } else {
        i
    }
}

/// The keyword token for a maximal identifier run, or the identifier
/// itself when it is none of the keywords.
pub open spec fn ident_token(name: Seq<char>) -> TokenView {
    if name == "int"@ {
        TokenView::Int
    } else if name == "return"@ {
        TokenView::Return
    } else if name == "if"@ {
        TokenView::If
    } else if name == "else"@ {
        TokenView::Else
    } else if name == "while"@ {
        TokenView::While
    } else {
        TokenView::Identifier(name)
    }
}

/// The decoded text of a string literal from `i` on (the opening quote
/// already consumed), together with the position after the closing quote:
/// `\n`, `\t`, `\r`, `\\` and `\"` decode to their characters, any other
/// escape keeps the backslash, a trailing backslash is kept literally,
/// and an unterminated literal runs to the end of the input.
pub open spec fn scan_string(s: Seq<char>, i: nat, acc: Seq<char>) -> (Seq<char>, nat)
    decreases s.len() - i,
{
    if i >= s.len() {
        (acc, i)
    } else {
        let c = s[i as int];
        if c == '"' {
            (acc, (i + 1) as nat)
        } else if c == '\\' {
            if i + 1 < s.len() {
                let esc = s[i + 1int];
                let dec = if esc == 'n' {
                    seq!['\n']
                } else if esc == 't' {
                    seq!['\t']
                } else if esc == 'r' {
                    seq!['\r']
                } else if esc == '\\' {
                    seq!['\\']
                } else if esc == '"' {
                    seq!['"']
                } else {
                    seq!['\\', esc]
                };
                scan_string(s, (i + 2) as nat, acc + dec)
            } else {
                (acc.push('\\'), (i + 1) as nat)
            }
        } else {
            scan_string(s, (i + 1) as nat, acc.push(c))
        }
    }
}

/// The position after a `//` comment from `i` on: the next newline is
/// left in place.
pub open spec fn skip_line(s: Seq<char>, i: nat) -> nat
    decreases s.len() - i,
{
    if i < s.len() && s[i as int] != '\n' {
        skip_line(s, (i + 1) as nat)
    } else {
        i
    }
}

/// The position after a `/* */` comment body from `i` on: right past the
/// closing `*/`, or the end of the input when it never closes.
pub open spec fn skip_block(s: Seq<char>, i: nat) -> nat
    decreases s.len() - i,
{
    if i >= s.len() {
        i
    } else if s[i as int] == '*' && i + 1 < s.len() && s[i + 1int] == '/' {
        (i + 2) as nat
    } else {
        skip_block(s, (i + 1) as nat)
    }
}

/// The position after a `#` preprocessor line from `i` on: right past the
/// next newline, or the end of the input.
pub open spec fn skip_hash(s: Seq<char>, i: nat) -> nat
    decreases s.len() - i,
{
    if i >= s.len() {
        i
    } else if s[i as int] == '\n' {
        (i + 1) as nat
    } else {
        skip_hash(s, (i + 1) as nat)
    }
}

/// The token sequence of the source text from `i` on.  The scans above
/// always advance; the index guards only make that structural for the
/// termination check, and their fallback arms are unreachable.
pub open spec fn lex_spec(s: Seq<char>, i: nat) -> Seq<TokenView>
    decreases s.len() - i,
{
    if i >= s.len() {
        Seq::empty()
    } else {
        let c = s[i as int];
        if is_ws_char(c) {
            lex_spec(s, (i + 1) as nat)
        } else if c == '(' {
            seq![TokenView::LParen] + lex_spec(s, (i + 1) as nat)
        } else if c == ')' {
            seq![TokenView::RParen] + lex_spec(s, (i + 1) as nat)
        } else if c == '{' {
            seq![TokenView::LBrace] + lex_spec(s, (i + 1) as nat)
        } else if c == '}' {
            seq![TokenView::RBrace] + lex_spec(s, (i + 1) as nat)
        } else if c == ';' {
            seq![TokenView::Semicolon] + lex_spec(s, (i + 1) as nat)
        } else if is_digit_char(c) {
            let end = digits_end(s, (i + 1) as nat);
            let num = scan_num(s, (i + 1) as nat, digit_val(c));
            if i < end <= s.len() {
                seq![TokenView::Number(num)] + lex_spec(s, end)
            } else {
                Seq::empty()
            }
        } else if c == '+' {
            seq![TokenView::Plus] + lex_spec(s, (i + 1) as nat)
        } else if c == '*' {
            seq![TokenView::Star] + lex_spec(s, (i + 1) as nat)
        } else if c == '-' {
            seq![TokenView::Minus] + lex_spec(s, (i + 1) as nat)
        } else if c == '%' {
            seq![TokenView::Mod] + lex_spec(s, (i + 1) as nat)
        } else if c == '=' {
            if i + 1 < s.len() && s[i + 1int] == '=' {
                seq![TokenView::Equal] + lex_spec(s, (i + 2) as nat)
            } else {
                seq![TokenView::Assign] + lex_spec(s, (i + 1) as nat)
            }
        } else if c == '<' {
            seq![TokenView::Less] + lex_spec(s, (i + 1) as nat)
        } else if c == '>' {
            seq![TokenView::Greater] + lex_spec(s, (i + 1) as nat)
        } else if c == ',' {
            seq![TokenView::Comma] + lex_spec(s, (i + 1) as nat)
        } else if c == '"' {
            let p = scan_string(s, (i + 1) as nat, Seq::empty());
            if i < p.1 <= s.len() {
                seq![TokenView::StringLiteral(p.0)] + lex_spec(s, p.1)
            } else {
                Seq::empty()
            }
        } else if c == '/' {
            if i + 1 < s.len() && s[i + 1int] == '/' {
                let end = skip_line(s, (i + 2) as nat);
                if i < end <= s.len() {
                    lex_spec(s, end)
                } else {
                    Seq::empty()
                }
            } else if i + 1 < s.len() && s[i + 1int] == '*' {
                let end = skip_block(s, (i + 2) as nat);
                if i < end <= s.len() {
                    lex_spec(s, end)
                } else {
                    Seq::empty()
                }
            } else {
                seq![TokenView::Div] + lex_spec(s, (i + 1) as nat)
            }
        } else if c == '#' {
            let end = skip_hash(s, (i + 1) as nat);
            if i < end <= s.len() {
                lex_spec(s, end)
            } else {
                Seq::empty()
            }
        } else if is_ident_start_char(c) {
            let end = ident_end(s, (i + 1) as nat);
            if i < end <= s.len() {
                seq![ident_token(s.subrange(i as int, end as int))] + lex_spec(s, end)
            } else {
                Seq::empty()
            }
        } else {
            seq![TokenView::Unknown(c)] + lex_spec(s, (i + 1) as nat)
        }
    }
}

/// Relies on `String::push`: appends exactly one character.
#[verifier::external_body]
fn push_char(s: &mut String, c: char)
    ensures
        final(s)@ == old(s)@.push(c),
{
    s.push(c);
}

/// Whether the character at `i` is a decimal digit.
fn is_digit_at(s: &str, i: usize) -> (r: bool)
    requires
        i < s@.len(),
    ensures
        r == is_digit_char(s@[i as int]),
{
    let c = s.get_char(i);
    let u = c as u32;
    u >= '0' as u32 && u <= '9' as u32
}

/// Whether the character at `i` may continue an identifier.
fn is_ident_char_at(s: &str, i: usize) -> (r: bool)
    requires
        i < s@.len(),
    ensures
        r == is_ident_char(s@[i as int]),
{
    let c = s.get_char(i);
    let u = c as u32;
    (u >= 'a' as u32 && u <= 'z' as u32) || (u >= 'A' as u32 && u <= 'Z' as u32) || (u >= '0'
        as u32 && u <= '9' as u32) || c == '_'
}

/// Whether the string equals the literal, character for character.
pub(crate) fn str_matches(a: &String, b: &str) -> (r: bool)
    ensures
        r == (a@ == b@),
{
    let bs = b.to_owned();
    *a == bs
}

/// Converts source text into its token sequence: exactly [`lex_spec`].
/// The lexer never fails: characters outside the language come back as
/// [`Token::Unknown`], and a number literal wider than 64 bits wraps.
/// Identifiers are deliberately ASCII: letters, digits and underscores;
/// any other character ends the identifier and stands alone.
pub fn tokenize(source: &str) -> (tokens: Vec<Token>)
    ensures
        tokens@.map_values(|t: Token| t@) == lex_spec(source@, 0),
{
    let n = source.unicode_len();
    let mut tokens: Vec<Token> = Vec::new();
    let mut i: usize = 0;
    proof {
        assert(tokens@.map_values(|t: Token| t@) =~= Seq::<TokenView>::empty());
    }
    while i < n
        invariant
            n == source@.len(),
            i <= n,
            lex_spec(source@, 0) == tokens@.map_values(|t: Token| t@) + lex_spec(
                source@,
                i as nat,
            ),
        decreases n - i,
    {
        let ghost s = source@;
        let ghost head = i as nat;
        let ghost toks0 = tokens@;
        let c = source.get_char(i);
        let u = c as u32;
        if c == ' ' || c == '\n' || c == '\r' || c == '\t' {
            i = i + 1;
            proof {
                lemma_lex_skip(s, head, tokens@, i as nat);
            }
        } else if c == '(' {
            i = i + 1;
            tokens.push(Token::LParen);
            proof {
                lemma_lex_push(s, head, toks0, tokens@, i as nat);
            }
        } else if c == ')' {
            i = i + 1;
            tokens.push(Token::RParen);
            proof {
                lemma_lex_push(s, head, toks0, tokens@, i as nat);
            }
        } else if c == '{' {
            i = i + 1;
            tokens.push(Token::LBrace);
            proof {
                lemma_lex_push(s, head, toks0, tokens@, i as nat);
            }
        } else if c == '}' {
            i = i + 1;
            tokens.push(Token::RBrace);
            proof {
                lemma_lex_push(s, head, toks0, tokens@, i as nat);
            }
        } else if c == ';' {
            i = i + 1;
            tokens.push(Token::Semicolon);
            proof {
                lemma_lex_push(s, head, toks0, tokens@, i as nat);
            }
        } else if u >= '0' as u32 && u <= '9' as u32 {
            let mut num: i64 = ((u - '0' as u32) as i64);
            i = i + 1;
            let ghost i0 = i as nat;
            let ghost acc0 = num;
            while i < n && is_digit_at(source, i)
                invariant
                    n == source@.len(),
                    i0 <= i <= n,
                    digits_end(source@, i0) == digits_end(source@, i as nat),
                    scan_num(source@, i0, acc0) == scan_num(source@, i as nat, num),
                decreases n - i,
            {
                let d = source.get_char(i) as u32;
                num = num.wrapping_mul(10).wrapping_add(((d - '0' as u32) as i64));
                i = i + 1;
            }
            tokens.push(Token::Number(num));
            proof {
                assert(digits_end(s, i0) == i as nat);
                assert(scan_num(s, i0, acc0) == num);
                lemma_lex_push(s, head, toks0, tokens@, i as nat);
            }
        } else if c == '+' {
            i = i + 1;
            tokens.push(Token::Plus);
            proof {
                lemma_lex_push(s, head, toks0, tokens@, i as nat);
            }
        } else if c == '*' {
            i = i + 1;
            tokens.push(Token::Star);
            proof {
                lemma_lex_push(s, head, toks0, tokens@, i as nat);
            }
        } else if c == '-' {
            i = i + 1;
            tokens.push(Token::Minus);
            proof {
                lemma_lex_push(s, head, toks0, tokens@, i as nat);
            }
        } else if c == '%' {
            i = i + 1;
            tokens.push(Token::Mod);
            proof {
                lemma_lex_push(s, head, toks0, tokens@, i as nat);
            }
        } else if c == '=' {
            i = i + 1;
            let mut doubled = false;
            if i < n {
                if source.get_char(i) == '=' {
                    doubled = true;
                }
            }
            if doubled {
                i = i + 1;
                tokens.push(Token::Equal);
                proof {
                    lemma_lex_push(s, head, toks0, tokens@, i as nat);
                }
            } else {
                tokens.push(Token::Assign);
                proof {
                    lemma_lex_push(s, head, toks0, tokens@, i as nat);
                }
            }
        } else if c == '<' {
            i = i + 1;
            tokens.push(Token::Less);
            proof {
                lemma_lex_push(s, head, toks0, tokens@, i as nat);
            }
        } else if c == '>' {
            i = i + 1;
            tokens.push(Token::Greater);
            proof {
                lemma_lex_push(s, head, toks0, tokens@, i as nat);
            }
        } else if c == ',' {
            i = i + 1;
            tokens.push(Token::Comma);
            proof {
                lemma_lex_push(s, head, toks0, tokens@, i as nat);
            }
        } else if c == '"' {
            i = i + 1;
            let mut lit = String::new();
            let ghost i0 = i as nat;
            while i < n
                invariant_except_break
                    scan_string(source@, i0, Seq::empty()) == scan_string(
                        source@,
                        i as nat,
                        lit@,
                    ),
                invariant
                    n == source@.len(),
                    i0 <= i <= n,
                ensures
                    i0 <= i <= n,
                    n == source@.len(),
                    scan_string(source@, i0, Seq::empty()) == (lit@, i as nat),
                decreases n - i,
            {
                let c2 = source.get_char(i);
                i = i + 1;
                if c2 == '"' {
                    break ;
                }
                if c2 == '\\' {
                    if i < n {
                        let esc = source.get_char(i);
                        i = i + 1;
                        let ghost lit0 = lit@;
                        if esc == 'n' {
                            push_char(&mut lit, '\n');
                        } else if esc == 't' {
                            push_char(&mut lit, '\t');
                        } else if esc == 'r' {
                            push_char(&mut lit, '\r');
                        } else if esc == '\\' {
                            push_char(&mut lit, '\\');
                        } else if esc == '"' {
                            push_char(&mut lit, '"');
                        } else {
                            push_char(&mut lit, '\\');
                            push_char(&mut lit, esc);
                        }
                        proof {
                            if esc == 'n' || esc == 't' || esc == 'r' || esc == '\\' || esc
                                == '"' {
                                assert(lit@ =~= lit0 + seq![lit@[lit0.len() as int]]);
                            } else {
                                assert(lit@ =~= lit0 + seq!['\\', esc]);
                            }
                        }
                    } else {
                        push_char(&mut lit, '\\');
                        break ;
                    }
                } else {
                    push_char(&mut lit, c2);
                }
            }
            tokens.push(Token::StringLiteral(lit));
            proof {
                lemma_lex_push(s, head, toks0, tokens@, i as nat);
            }
        } else if c == '/' {
            i = i + 1;
            if i < n && source.get_char(i) == '/' {
                i = i + 1;
                let ghost i0 = i as nat;
                while i < n && source.get_char(i) != '\n'
                    invariant
                        n == source@.len(),
                        i0 <= i <= n,
                        skip_line(source@, i0) == skip_line(source@, i as nat),
                    decreases n - i,
                {
                    i = i + 1;
                }
                proof {
                    assert(skip_line(s, i0) == i as nat);
                    lemma_lex_skip(s, head, tokens@, i as nat);
                }
            } else if i < n && source.get_char(i) == '*' {
                i = i + 1;
                let ghost i0 = i as nat;
                while i < n
                    invariant_except_break
                        skip_block(source@, i0) == skip_block(source@, i as nat),
                    invariant
                        n == source@.len(),
                        i0 <= i <= n,
                    ensures
                        i0 <= i <= n,
                        n == source@.len(),
                        skip_block(source@, i0) == i as nat,
                    decreases n - i,
                {
                    let c2 = source.get_char(i);
                    i = i + 1;
                    if c2 == '*' && i < n && source.get_char(i) == '/' {
                        i = i + 1;
                        break ;
                    }
                }
                proof {
                    lemma_lex_skip(s, head, tokens@, i as nat);
                }
            } else {
                tokens.push(Token::Div);
                proof {
                    lemma_lex_push(s, head, toks0, tokens@, i as nat);
                }
            }
        } else if c == '#' {
            i = i + 1;
            let ghost i0 = i as nat;
            while i < n
                invariant_except_break
                    skip_hash(source@, i0) == skip_hash(source@, i as nat),
                invariant
                    n == source@.len(),
                    i0 <= i <= n,
                ensures
                    i0 <= i <= n,
                    n == source@.len(),
                    skip_hash(source@, i0) == i as nat,
                decreases n - i,
            {
                let c2 = source.get_char(i);
                i = i + 1;
                if c2 == '\n' {
                    break ;
                }
            }
            proof {
                lemma_lex_skip(s, head, tokens@, i as nat);
            }
        } else if (u >= 'a' as u32 && u <= 'z' as u32) || (u >= 'A' as u32 && u <= 'Z' as u32)
            || c == '_' {
            let start = i;
            i = i + 1;
            while i < n && is_ident_char_at(source, i)
                invariant
                    n == source@.len(),
                    start < i <= n,
                    ident_end(source@, (start + 1) as nat) == ident_end(source@, i as nat),
                decreases n - i,
            {
                i = i + 1;
            }
            proof {
                assert(ident_end(s, (start + 1) as nat) == i as nat);
            }
            let ident = source.substring_char(start, i).to_owned();
            let tok = if str_matches(&ident, "int") {
                Token::Int
            } else if str_matches(&ident, "return") {
                Token::Return
            } else if str_matches(&ident, "if") {
                Token::If
            } else if str_matches(&ident, "else") {
                Token::Else
            } else if str_matches(&ident, "while") {
                Token::While
            } else {
                Token::Identifier(ident)
            };
            tokens.push(tok);
            proof {
                assert(tok@ == ident_token(s.subrange(head as int, i as int)));
                lemma_lex_push(s, head, toks0, tokens@, i as nat);
            }
        } else {
            i = i + 1;
            tokens.push(Token::Unknown(c));
            proof {
                lemma_lex_push(s, head, toks0, tokens@, i as nat);
            }
        }
    }
    tokens
}

/// One token-emitting step of the outer lexing loop: the spec consumes
/// the text from `head` to `next` emitting exactly the token just
/// pushed, so the running equation is maintained.
proof fn lemma_lex_push(
    s: Seq<char>,
    head: nat,
    tokens0: Seq<Token>,
    tokens: Seq<Token>,
    next: nat,
)
    requires
        tokens.len() == tokens0.len() + 1,
        tokens == tokens0.push(tokens.last()),
        lex_spec(s, head) == seq![tokens.last()@] + lex_spec(s, next),
        lex_spec(s, 0) == tokens0.map_values(|t: Token| t@) + lex_spec(s, head),
    ensures
        lex_spec(s, 0) == tokens.map_values(|t: Token| t@) + lex_spec(s, next),
{
    let f = |t: Token| t@;
    assert(tokens.map_values(f) =~= tokens0.map_values(f).push(tokens.last()@));
    assert(tokens0.map_values(f) + (seq![tokens.last()@] + lex_spec(s, next))
        =~= tokens.map_values(f) + lex_spec(s, next));
}

/// One token-free step of the outer lexing loop: whitespace, a comment
/// or a preprocessor line was consumed.
proof fn lemma_lex_skip(s: Seq<char>, head: nat, tokens: Seq<Token>, next: nat)
    requires
        lex_spec(s, head) == lex_spec(s, next),
        lex_spec(s, 0) == tokens.map_values(|t: Token| t@) + lex_spec(s, head),
    ensures
        lex_spec(s, 0) == tokens.map_values(|t: Token| t@) + lex_spec(s, next),
{
}

} // verus!
