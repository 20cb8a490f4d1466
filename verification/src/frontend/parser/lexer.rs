//! Lexical analysis of Latte source code: tokens with their byte offsets.
use vstd::prelude::*;

use crate::frontend::error::{FrontendError, FrontendErrorKind};
use crate::meta::{LocationMeta, Meta};

verus! {

/// keywords of the language
#[derive(Debug, PartialEq, Eq, Structural, Clone, Copy)]
pub enum Word {
    Int,
    Str,
    Boolean,
    Void,
    True,
    False,
    Null,
    Return,
    If,
    Else,
    While,
    For,
    New,
    Class,
    Extends,
    SelfObj,
}

/// punctuation and operators
#[derive(Debug, PartialEq, Eq, Structural, Clone, Copy)]
pub enum Sym {
    LParen,
    RParen,
    LBrace,
    RBrace,
    LBracket,
    RBracket,
    Semi,
    Comma,
    Dot,
    Colon,
    Assign,
    Incr,
    Decr,
    Plus,
    Minus,
    Star,
    Slash,
    Percent,
    Lt,
    Le,
    Gt,
    Ge,
    EqEq,
    Ne,
    AndAnd,
    OrOr,
    Bang,
}

/// a token of the source code
#[derive(Debug)]
pub enum Token {
    Ident { name: String },
    IntLit { value: i32 },
    /// a string literal, with its quotes
    StrLit { text: String },
    Word { w: Word },
    Sym { s: Sym },
}

/// the character can start an identifier
pub open spec fn is_ident_start(c: char) -> bool {
    ('a' <= c && c <= 'z') || ('A' <= c && c <= 'Z')
}

/// the character can continue an identifier
pub open spec fn is_ident_char(c: char) -> bool {
    is_ident_start(c) || ('0' <= c && c <= '9') || c == '_' || c == '\''
}

/// the character is a decimal digit
pub open spec fn is_digit(c: char) -> bool {
    '0' <= c && c <= '9'
}

/// the character separates tokens
pub open spec fn is_space(c: char) -> bool {
    c == ' ' || c == '\t' || c == '\n' || c == '\r'
}

/// the keyword spelled by `text`, if any
pub open spec fn keyword_of(text: Seq<char>) -> Option<Word> {
    if text == "int"@ {
        Some(Word::Int)
    } else if text == "string"@ {
        Some(Word::Str)
    } else if text == "boolean"@ {
        Some(Word::Boolean)
    } else if text == "void"@ {
        Some(Word::Void)
    } else if text == "true"@ {
        Some(Word::True)
    } else if text == "false"@ {
        Some(Word::False)
    } else if text == "null"@ {
        Some(Word::Null)
    } else if text == "return"@ {
        Some(Word::Return)
    } else if text == "if"@ {
        Some(Word::If)
    } else if text == "else"@ {
        Some(Word::Else)
    } else if text == "while"@ {
        Some(Word::While)
    } else if text == "for"@ {
        Some(Word::For)
    } else if text == "new"@ {
        Some(Word::New)
    } else if text == "class"@ {
        Some(Word::Class)
    } else if text == "extends"@ {
        Some(Word::Extends)
    } else if text == "self"@ {
        Some(Word::SelfObj)
    } else {
        None
    }
}

/// the characters of a symbol
pub open spec fn sym_text(s: Sym) -> Seq<char> {
    match s {
        Sym::LParen => seq!['('],
        Sym::RParen => seq![')'],
        Sym::LBrace => seq!['{'],
        Sym::RBrace => seq!['}'],
        Sym::LBracket => seq!['['],
        Sym::RBracket => seq![']'],
        Sym::Semi => seq![';'],
        Sym::Comma => seq![','],
        Sym::Dot => seq!['.'],
        Sym::Colon => seq![':'],
        Sym::Assign => seq!['='],
        Sym::Incr => seq!['+', '+'],
        Sym::Decr => seq!['-', '-'],
        Sym::Plus => seq!['+'],
        Sym::Minus => seq!['-'],
        Sym::Star => seq!['*'],
        Sym::Slash => seq!['/'],
        Sym::Percent => seq!['%'],
        Sym::Lt => seq!['<'],
        Sym::Le => seq!['<', '='],
        Sym::Gt => seq!['>'],
        Sym::Ge => seq!['>', '='],
        Sym::EqEq => seq!['=', '='],
        Sym::Ne => seq!['!', '='],
        Sym::AndAnd => seq!['&', '&'],
        Sym::OrOr => seq!['|', '|'],
        Sym::Bang => seq!['!'],
    }
}

/// number of characters that can continue an identifier, from position `k` on
pub open spec fn ident_run(src: Seq<char>, k: int) -> int
    decreases src.len() - k,
{
    if 0 <= k < src.len() && is_ident_char(src[k]) {
        1 + ident_run(src, k + 1)
    } else {
        0
    }
}

/// number of decimal digits from position `k` on
pub open spec fn digit_run(src: Seq<char>, k: int) -> int
    decreases src.len() - k,
{
    if 0 <= k < src.len() && is_digit(src[k]) {
        1 + digit_run(src, k + 1)
    } else {
        0
    }
}

/// the number written by decimal digits
pub open spec fn decimal_value(digits: Seq<char>) -> int
    decreases digits.len(),
{
    if digits.len() == 0 {
        0
    } else {
        decimal_value(digits.drop_last()) * 10 + (digits.last() as int - '0' as int)
    }
}

/// the token is written in the source from character `c` on, and ends at or before `limit`;
/// words (keywords and identifiers) and numbers are the longest possible
pub open spec fn spells(src: Seq<char>, c: int, limit: int, t: Token) -> bool {
    &&& 0 <= c < limit <= src.len()
    &&& match t {
        Token::Ident { name } => is_ident_start(src[c]) && name@ == src.subrange(c, c + 1 + ident_run(src, c + 1))
            && keyword_of(name@) is None && c + name@.len() <= limit,
        Token::Word { w } => is_ident_start(src[c]) && keyword_of(src.subrange(c, c + 1 + ident_run(src, c + 1))) == Some(w)
            && c + 1 + ident_run(src, c + 1) <= limit,
        Token::IntLit { value } => is_digit(src[c]) && value == decimal_value(src.subrange(c, c + digit_run(src, c)))
            && c + digit_run(src, c) <= limit,
        Token::StrLit { text } => text@.len() >= 2 && c + text@.len() <= limit && text@ == src.subrange(c, c + text@.len())
            && text@[0] == '"' && text@.last() == '"',
        Token::Sym { s } => c + sym_text(s).len() <= limit && src.subrange(c, c + sym_text(s).len()) == sym_text(s),
    }
}

/// where the token after the `n`-th one starts (`end` after the last one)
pub open spec fn next_start(starts: Seq<int>, n: int, end: int) -> int {
    if n + 1 < starts.len() {
        starts[n + 1]
    } else {
        end
    }
}

/// position after the token written from character `c` on
pub open spec fn token_end(src: Seq<char>, c: int, t: Token) -> int {
    match t {
        Token::Ident { name } => c + name@.len(),
        Token::Word { .. } => c + 1 + ident_run(src, c + 1),
        Token::IntLit { .. } => c + digit_run(src, c),
        Token::StrLit { text } => c + text@.len(),
        Token::Sym { s } => c + sym_text(s).len(),
    }
}

/// the characters at `k` and after it are `*/`
pub open spec fn closes_comment(src: Seq<char>, k: int) -> bool {
    0 <= k && k + 1 < src.len() && src[k] == '*' && src[k + 1] == '/'
}

/// the characters from `m` up to `b` are one white space character, one comment to the end of
/// the line (from `#` or `//`, up to a new line or the end of the source), or one comment from
/// `/*` to the first `*/` after it
pub open spec fn separator(src: Seq<char>, m: int, b: int) -> bool {
    &&& 0 <= m < b <= src.len()
    &&& {
        ||| b == m + 1 && is_space(src[m])
        ||| (src[m] == '#' || (src[m] == '/' && m + 1 < src.len() && src[m + 1] == '/'))
            && (forall|k: int| m < k < b ==> src[k] != '\n') && (b == src.len() || src[b] == '\n')
        ||| src[m] == '/' && b >= m + 4 && src[m + 1] == '*' && closes_comment(src, b - 2)
            && forall|k: int| m + 2 <= k < b - 2 ==> !#[trigger] closes_comment(src, k)
    }
}

/// the characters from `a` up to `b` are separators: white space and comments
pub open spec fn separators(src: Seq<char>, a: int, b: int) -> bool
    decreases b - a,
{
    if 0 <= a <= b <= src.len() {
        a == b || exists|m: int| #![trigger separator(src, m, b)] a <= m < b && separators(src, a, m) && separator(src, m, b)
    } else {
        false
    }
}

/// the tokens are written in the source in their order, the `n`-th from character `starts[n]`
/// on, and only separators stand before, between and after them
pub open spec fn lexes(src: Seq<char>, toks: Seq<(Token, usize)>, starts: Seq<int>) -> bool {
    &&& starts.len() == toks.len()
    &&& forall|n: int| 0 <= n < toks.len() ==> spells(src, starts[n], next_start(starts, n, src.len() as int), #[trigger] toks[n].0)
    &&& separators(src, 0, if toks.len() > 0 { starts[0] } else { src.len() as int })
    &&& forall|n: int| 0 <= n < toks.len() - 1 ==> separators(src, token_end(src, starts[n], #[trigger] toks[n].0), starts[n + 1])
    &&& toks.len() > 0 ==> separators(src, token_end(src, starts[toks.len() - 1], toks[toks.len() - 1].0), src.len() as int)
}

/// a run of characters that continue an identifier, up to one that does not (or the end)
pub proof fn lemma_ident_run(src: Seq<char>, a: int, b: int)
    requires
        0 <= a <= b <= src.len(),
        forall|k: int| a <= k < b ==> is_ident_char(#[trigger] src[k]),
        b == src.len() || !is_ident_char(src[b]),
    ensures
        ident_run(src, a) == b - a,
    decreases b - a,
{
    if a < b {
        lemma_ident_run(src, a + 1, b);
    }
}

/// a run of digits, up to a character that is not one (or the end)
pub proof fn lemma_digit_run(src: Seq<char>, a: int, b: int)
    requires
        0 <= a <= b <= src.len(),
        forall|k: int| a <= k < b ==> is_digit(#[trigger] src[k]),
        b == src.len() || !is_digit(src[b]),
    ensures
        digit_run(src, a) == b - a,
    decreases b - a,
{
    if a < b {
        lemma_digit_run(src, a + 1, b);
    }
}

/// number of bytes of the UTF-8 encoding of a character
pub(crate) fn utf8_len(c: char) -> (r: usize)
    ensures
        r == vstd::utf8::encode_scalar(c as u32).len(),
{
    let v = c as u32;
    if v < 0x80 {
        1
    } else if v < 0x800 {
        2
    } else if v < 0x10000 {
        3
    } else {
        4
    }
}

/// the two strings have the same characters
fn same_chars(s: &str, lit: &str) -> (r: bool)
    ensures
        r == (s@ == lit@),
{
    let n = s.unicode_len();
    if n != lit.unicode_len() {
        return false;
    }
    let mut i: usize = 0;
    while i < n
        invariant
            n == s@.len(),
            n == lit@.len(),
            i <= n,
            s@.subrange(0, i as int) == lit@.subrange(0, i as int),
        decreases n - i,
    {
        if s.get_char(i) != lit.get_char(i) {
            return false;
        }
        i += 1;
        assert(s@.subrange(0, i as int) =~= s@.subrange(0, i - 1).push(s@[i - 1]));
        assert(lit@.subrange(0, i as int) =~= lit@.subrange(0, i - 1).push(lit@[i - 1]));
    }
    assert(s@ =~= s@.subrange(0, n as int));
    assert(lit@ =~= lit@.subrange(0, n as int));
    true
}

/// the keyword spelled by `s`, if any
fn keyword(s: &str) -> (r: Option<Word>)
    ensures
        r == keyword_of(s@),
{
    if same_chars(s, "int") {
        Some(Word::Int)
    } else if same_chars(s, "string") {
        Some(Word::Str)
    } else if same_chars(s, "boolean") {
        Some(Word::Boolean)
    } else if same_chars(s, "void") {
        Some(Word::Void)
    } else if same_chars(s, "true") {
        Some(Word::True)
    } else if same_chars(s, "false") {
        Some(Word::False)
    } else if same_chars(s, "null") {
        Some(Word::Null)
    } else if same_chars(s, "return") {
        Some(Word::Return)
    } else if same_chars(s, "if") {
        Some(Word::If)
    } else if same_chars(s, "else") {
        Some(Word::Else)
    } else if same_chars(s, "while") {
        Some(Word::While)
    } else if same_chars(s, "for") {
        Some(Word::For)
    } else if same_chars(s, "new") {
        Some(Word::New)
    } else if same_chars(s, "class") {
        Some(Word::Class)
    } else if same_chars(s, "extends") {
        Some(Word::Extends)
    } else if same_chars(s, "self") {
        Some(Word::SelfObj)
    } else {
        None
    }
}

/// a symbol spelled by one character is one of those that the lexer reads alone
pub proof fn lemma_one_char_sym_text(s: Sym, c: char)
    requires
        sym_text(s) == seq![c],
    ensures
        c == '(' || c == ')' || c == '{' || c == '}' || c == '[' || c == ']' || c == ';' || c == ',' || c == '.' || c == ':' || c == '=' || c == '+' || c == '-' || c == '*' || c == '/' || c == '%' || c == '<' || c == '>' || c == '!',
{
    match s {
        Sym::LParen => {
            assert(sym_text(s).len() == 1);
            assert(sym_text(s)[0] == c);
        },
        Sym::RParen => {
            assert(sym_text(s).len() == 1);
            assert(sym_text(s)[0] == c);
        },
        Sym::LBrace => {
            assert(sym_text(s).len() == 1);
            assert(sym_text(s)[0] == c);
        },
        Sym::RBrace => {
            assert(sym_text(s).len() == 1);
            assert(sym_text(s)[0] == c);
        },
        Sym::LBracket => {
            assert(sym_text(s).len() == 1);
            assert(sym_text(s)[0] == c);
        },
        Sym::RBracket => {
            assert(sym_text(s).len() == 1);
            assert(sym_text(s)[0] == c);
        },
        Sym::Semi => {
            assert(sym_text(s).len() == 1);
            assert(sym_text(s)[0] == c);
        },
        Sym::Comma => {
            assert(sym_text(s).len() == 1);
            assert(sym_text(s)[0] == c);
        },
        Sym::Dot => {
            assert(sym_text(s).len() == 1);
            assert(sym_text(s)[0] == c);
        },
        Sym::Colon => {
            assert(sym_text(s).len() == 1);
            assert(sym_text(s)[0] == c);
        },
        Sym::Assign => {
            assert(sym_text(s).len() == 1);
            assert(sym_text(s)[0] == c);
        },
        Sym::Incr => {
            assert(sym_text(s).len() == 1);
            assert(sym_text(s)[0] == c);
        },
        Sym::Decr => {
            assert(sym_text(s).len() == 1);
            assert(sym_text(s)[0] == c);
        },
        Sym::Plus => {
            assert(sym_text(s).len() == 1);
            assert(sym_text(s)[0] == c);
        },
        Sym::Minus => {
            assert(sym_text(s).len() == 1);
            assert(sym_text(s)[0] == c);
        },
        Sym::Star => {
            assert(sym_text(s).len() == 1);
            assert(sym_text(s)[0] == c);
        },
        Sym::Slash => {
            assert(sym_text(s).len() == 1);
            assert(sym_text(s)[0] == c);
        },
        Sym::Percent => {
            assert(sym_text(s).len() == 1);
            assert(sym_text(s)[0] == c);
        },
        Sym::Lt => {
            assert(sym_text(s).len() == 1);
            assert(sym_text(s)[0] == c);
        },
        Sym::Le => {
            assert(sym_text(s).len() == 1);
            assert(sym_text(s)[0] == c);
        },
        Sym::Gt => {
            assert(sym_text(s).len() == 1);
            assert(sym_text(s)[0] == c);
        },
        Sym::Ge => {
            assert(sym_text(s).len() == 1);
            assert(sym_text(s)[0] == c);
        },
        Sym::EqEq => {
            assert(sym_text(s).len() == 1);
            assert(sym_text(s)[0] == c);
        },
        Sym::Ne => {
            assert(sym_text(s).len() == 1);
            assert(sym_text(s)[0] == c);
        },
        Sym::AndAnd => {
            assert(sym_text(s).len() == 1);
            assert(sym_text(s)[0] == c);
        },
        Sym::OrOr => {
            assert(sym_text(s).len() == 1);
            assert(sym_text(s)[0] == c);
        },
        Sym::Bang => {
            assert(sym_text(s).len() == 1);
            assert(sym_text(s)[0] == c);
        },
    }
}

/// a symbol spelled by two characters is one of those that the lexer reads in pairs
pub proof fn lemma_two_char_sym_text(s: Sym, c: char, next: char)
    requires
        sym_text(s) == seq![c, next],
    ensures
        (c == '+' && next == '+')
            || (c == '-' && next == '-')
            || (c == '<' && next == '=')
            || (c == '>' && next == '=')
            || (c == '=' && next == '=')
            || (c == '!' && next == '=')
            || (c == '&' && next == '&')
            || (c == '|' && next == '|'),
{
    match s {
        Sym::LParen => {
            assert(sym_text(s).len() == 2);
            assert(sym_text(s)[0] == c);
            assert(sym_text(s)[1] == next);
        },
        Sym::RParen => {
            assert(sym_text(s).len() == 2);
            assert(sym_text(s)[0] == c);
            assert(sym_text(s)[1] == next);
        },
        Sym::LBrace => {
            assert(sym_text(s).len() == 2);
            assert(sym_text(s)[0] == c);
            assert(sym_text(s)[1] == next);
        },
        Sym::RBrace => {
            assert(sym_text(s).len() == 2);
            assert(sym_text(s)[0] == c);
            assert(sym_text(s)[1] == next);
        },
        Sym::LBracket => {
            assert(sym_text(s).len() == 2);
            assert(sym_text(s)[0] == c);
            assert(sym_text(s)[1] == next);
        },
        Sym::RBracket => {
            assert(sym_text(s).len() == 2);
            assert(sym_text(s)[0] == c);
            assert(sym_text(s)[1] == next);
        },
        Sym::Semi => {
            assert(sym_text(s).len() == 2);
            assert(sym_text(s)[0] == c);
            assert(sym_text(s)[1] == next);
        },
        Sym::Comma => {
            assert(sym_text(s).len() == 2);
            assert(sym_text(s)[0] == c);
            assert(sym_text(s)[1] == next);
        },
        Sym::Dot => {
            assert(sym_text(s).len() == 2);
            assert(sym_text(s)[0] == c);
            assert(sym_text(s)[1] == next);
        },
        Sym::Colon => {
            assert(sym_text(s).len() == 2);
            assert(sym_text(s)[0] == c);
            assert(sym_text(s)[1] == next);
        },
        Sym::Assign => {
            assert(sym_text(s).len() == 2);
            assert(sym_text(s)[0] == c);
            assert(sym_text(s)[1] == next);
        },
        Sym::Incr => {
            assert(sym_text(s).len() == 2);
            assert(sym_text(s)[0] == c);
            assert(sym_text(s)[1] == next);
        },
        Sym::Decr => {
            assert(sym_text(s).len() == 2);
            assert(sym_text(s)[0] == c);
            assert(sym_text(s)[1] == next);
        },
        Sym::Plus => {
            assert(sym_text(s).len() == 2);
            assert(sym_text(s)[0] == c);
            assert(sym_text(s)[1] == next);
        },
        Sym::Minus => {
            assert(sym_text(s).len() == 2);
            assert(sym_text(s)[0] == c);
            assert(sym_text(s)[1] == next);
        },
        Sym::Star => {
            assert(sym_text(s).len() == 2);
            assert(sym_text(s)[0] == c);
            assert(sym_text(s)[1] == next);
        },
        Sym::Slash => {
            assert(sym_text(s).len() == 2);
            assert(sym_text(s)[0] == c);
            assert(sym_text(s)[1] == next);
        },
        Sym::Percent => {
            assert(sym_text(s).len() == 2);
            assert(sym_text(s)[0] == c);
            assert(sym_text(s)[1] == next);
        },
        Sym::Lt => {
            assert(sym_text(s).len() == 2);
            assert(sym_text(s)[0] == c);
            assert(sym_text(s)[1] == next);
        },
        Sym::Le => {
            assert(sym_text(s).len() == 2);
            assert(sym_text(s)[0] == c);
            assert(sym_text(s)[1] == next);
        },
        Sym::Gt => {
            assert(sym_text(s).len() == 2);
            assert(sym_text(s)[0] == c);
            assert(sym_text(s)[1] == next);
        },
        Sym::Ge => {
            assert(sym_text(s).len() == 2);
            assert(sym_text(s)[0] == c);
            assert(sym_text(s)[1] == next);
        },
        Sym::EqEq => {
            assert(sym_text(s).len() == 2);
            assert(sym_text(s)[0] == c);
            assert(sym_text(s)[1] == next);
        },
        Sym::Ne => {
            assert(sym_text(s).len() == 2);
            assert(sym_text(s)[0] == c);
            assert(sym_text(s)[1] == next);
        },
        Sym::AndAnd => {
            assert(sym_text(s).len() == 2);
            assert(sym_text(s)[0] == c);
            assert(sym_text(s)[1] == next);
        },
        Sym::OrOr => {
            assert(sym_text(s).len() == 2);
            assert(sym_text(s)[0] == c);
            assert(sym_text(s)[1] == next);
        },
        Sym::Bang => {
            assert(sym_text(s).len() == 2);
            assert(sym_text(s)[0] == c);
            assert(sym_text(s)[1] == next);
        },
    }
}

/// the symbol made of `c` followed by `next` (two characters), if any
fn two_char_symbol(c: char, next: char) -> (r: Option<Sym>)
    ensures
        r matches Some(s) ==> sym_text(s) == seq![c, next],
        r is None ==> forall|s: Sym| sym_text(s) != seq![c, next],
{
    if c == '+' && next == '+' {
        Some(Sym::Incr)
    } else if c == '-' && next == '-' {
        Some(Sym::Decr)
    } else if c == '<' && next == '=' {
        Some(Sym::Le)
    } else if c == '>' && next == '=' {
        Some(Sym::Ge)
    } else if c == '=' && next == '=' {
        Some(Sym::EqEq)
    } else if c == '!' && next == '=' {
        Some(Sym::Ne)
    } else if c == '&' && next == '&' {
        Some(Sym::AndAnd)
    } else if c == '|' && next == '|' {
        Some(Sym::OrOr)
    } else {
        proof {
            assert forall|s: Sym| sym_text(s) != seq![c, next] by {
                if sym_text(s) == seq![c, next] {
                    lemma_two_char_sym_text(s, c, next);
                }
            }
        }
        None
    }
}

/// the symbol made of the character `c`, if any
fn one_char_symbol(c: char) -> (r: Option<Sym>)
    ensures
        r matches Some(s) ==> sym_text(s) == seq![c],
        r is None ==> forall|s: Sym| sym_text(s) != seq![c],
{
    match c {
        '(' => Some(Sym::LParen),
        ')' => Some(Sym::RParen),
        '{' => Some(Sym::LBrace),
        '}' => Some(Sym::RBrace),
        '[' => Some(Sym::LBracket),
        ']' => Some(Sym::RBracket),
        ';' => Some(Sym::Semi),
        ',' => Some(Sym::Comma),
        '.' => Some(Sym::Dot),
        ':' => Some(Sym::Colon),
        '=' => Some(Sym::Assign),
        '+' => Some(Sym::Plus),
        '-' => Some(Sym::Minus),
        '*' => Some(Sym::Star),
        '/' => Some(Sym::Slash),
        '%' => Some(Sym::Percent),
        '<' => Some(Sym::Lt),
        '>' => Some(Sym::Gt),
        '!' => Some(Sym::Bang),
        _ => {
            proof {
                assert forall|s: Sym| sym_text(s) != seq![c] by {
                    if sym_text(s) == seq![c] {
                        lemma_one_char_sym_text(s, c);
                    }
                }
            }
            None
        },
    }
}

/// the characters of the source code
fn chars_of(src: &str) -> (r: Vec<char>)
    ensures
        r@ == src@,
{
    let n = src.unicode_len();
    let mut r: Vec<char> = Vec::new();
    let mut i: usize = 0;
    while i < n
        invariant
            n == src@.len(),
            i <= n,
            r@ == src@.subrange(0, i as int),
        decreases n - i,
    {
        r.push(src.get_char(i));
        i += 1;
        proof {
            assert(r@ =~= src@.subrange(0, i as int));
        }
    }
    proof {
        assert(src@.subrange(0, n as int) =~= src@);
    }
    r
}

/// an error of the lexer at the given byte offset
fn lex_error(message: &str, offset: usize) -> (r: FrontendError<LocationMeta>)
    ensures
        r.meta.offset == offset,
        r.item matches FrontendErrorKind::ParseError { message: m } && m@ == message@,
{
    Meta::new(FrontendErrorKind::ParseError { message: String::from_str(message) }, LocationMeta { offset })
}

/// the tokens lexed from the characters before position `i`: each is spelled in its place,
/// separators stand before the first one and between each two, and `gap_start` (the end of the
/// last token, or the start) is followed by separators up to `i`
pub open spec fn lexed_upto(src: Seq<char>, toks: Seq<(Token, usize)>, starts: Seq<int>, gap_start: int, i: int) -> bool {
    &&& starts.len() == toks.len()
    &&& forall|n: int| 0 <= n < toks.len() ==> spells(src, starts[n], next_start(starts, n, i), #[trigger] toks[n].0)
    &&& 0 <= gap_start <= i <= src.len()
    &&& separators(src, gap_start, i)
    &&& toks.len() == 0 ==> gap_start == 0
    &&& toks.len() > 0 ==> gap_start == token_end(src, starts[toks.len() - 1], toks[toks.len() - 1].0)
        && separators(src, 0, starts[0])
    &&& forall|n: int| 0 <= n < toks.len() - 1 ==> separators(src, token_end(src, starts[n], #[trigger] toks[n].0), starts[n + 1])
}

/// no token is written in the source from character `i` on
pub open spec fn no_token_at(src: Seq<char>, i: int) -> bool {
    forall|t: Token| !#[trigger] spells(src, i, src.len() as int, t)
}

/// the lexer fails with `message` at character `i`, where a token or a separator should start:
/// the character can start neither a token nor a separator, a comment from `/*` is never
/// closed, the number written there does not fit `i32`, or a string literal opened there is
/// not closed
pub open spec fn lex_failure_at(src: Seq<char>, i: int, message: Seq<char>) -> bool {
    ||| message == "InvalidToken"@ && !is_space(src[i]) && src[i] != '#' && no_token_at(src, i)
    ||| message == "Unterminated comment"@ && src[i] == '/' && i + 1 < src.len() && src[i + 1] == '*'
        && forall|k: int| i + 2 <= k ==> !#[trigger] closes_comment(src, k)
    ||| message == "Integer literal out of range"@ && is_digit(src[i])
        && decimal_value(src.subrange(i, i + digit_run(src, i))) > i32::MAX
    ||| message == "Unterminated string literal"@ && src[i] == '"'
}

/// the lexer fails with `message`: the source is lexed up to some character, where it fails
pub open spec fn lexing_fails(src: Seq<char>, message: Seq<char>) -> bool {
    exists|toks: Seq<(Token, usize)>, starts: Seq<int>, g: int, i: int| #![trigger lexed_upto(src, toks, starts, g, i)]
        lexed_upto(src, toks, starts, g, i) && i < src.len() && lex_failure_at(src, i, message)
}

/// a symbol is written with one or two characters
pub proof fn lemma_sym_text_len(s: Sym)
    ensures
        1 <= sym_text(s).len() <= 2,
{
}

/// the number written by digits is not negative
pub proof fn lemma_decimal_value_nonneg(digits: Seq<char>)
    requires
        forall|k: int| 0 <= k < digits.len() ==> is_digit(#[trigger] digits[k]),
    ensures
        decimal_value(digits) >= 0,
    decreases digits.len(),
{
    if digits.len() > 0 {
        lemma_decimal_value_nonneg(digits.drop_last());
        assert(is_digit(digits[digits.len() - 1]));
    }
}

/// separators followed by one more separator
proof fn lemma_separators_push(src: Seq<char>, a: int, m: int, b: int)
    requires
        separators(src, a, m),
        separator(src, m, b),
    ensures
        separators(src, a, b),
{
}

/// lexing goes on over a separator
proof fn lemma_lexed_skip(src: Seq<char>, toks: Seq<(Token, usize)>, starts: Seq<int>, g: int, i: int, i2: int)
    requires
        lexed_upto(src, toks, starts, g, i),
        separator(src, i, i2),
    ensures
        lexed_upto(src, toks, starts, g, i2),
{
    lemma_separators_push(src, g, i, i2);
}

/// lexing goes on over one more token
proof fn lemma_lexed_token(src: Seq<char>, toks: Seq<(Token, usize)>, starts: Seq<int>, g: int, i: int,
    tok: (Token, usize), i2: int)
    requires
        lexed_upto(src, toks, starts, g, i),
        spells(src, i, i2, tok.0),
        token_end(src, i, tok.0) == i2,
    ensures
        lexed_upto(src, toks.push(tok), starts.push(i), i2, i2),
{
    let t2 = toks.push(tok);
    let s2 = starts.push(i);
    assert forall|n: int| 0 <= n < t2.len() implies spells(src, s2[n], next_start(s2, n, i2), #[trigger] t2[n].0) by {
        if n < toks.len() {
            assert(t2[n] == toks[n]);
            assert(next_start(s2, n, i2) == next_start(starts, n, i));
        }
    }
    assert forall|n: int| 0 <= n < t2.len() - 1 implies separators(src, token_end(src, s2[n], #[trigger] t2[n].0), s2[n + 1]) by {
        assert(t2[n] == toks[n]);
    }
}

/// lexing that reached the end of the source
proof fn lemma_lexed_all(src: Seq<char>, toks: Seq<(Token, usize)>, starts: Seq<int>, g: int)
    requires
        lexed_upto(src, toks, starts, g, src.len() as int),
    ensures
        lexes(src, toks, starts),
{
}

/// split the source code into tokens, each with the byte offset where it begins; comments
/// (`//` and `#` to the end of the line, `/* */`) and white space separate tokens; the byte
/// length of the source is returned too
pub fn tokenize(src: &str) -> (r: Result<(Vec<(Token, usize)>, usize), FrontendError<LocationMeta>>)
    ensures
        src@.len() == 0 ==> (r matches Ok((toks, end)) && toks@.len() == 0 && end == 0),
        r matches Ok((toks, end)) ==> forall|i: int| 0 <= i < toks@.len() ==> (#[trigger] toks@[i]).1 <= end,
        r matches Ok((toks, end)) ==> exists|starts: Seq<int>| #[trigger] lexes(src@, toks@, starts),
        r matches Err(e) ==> e.item is ParseError,
        r matches Err(e) ==> (e.item matches FrontendErrorKind::ParseError { message } && lexing_fails(src@, message@)),
{
    let cs = chars_of(src);
    let n = cs.len();
    let mut toks: Vec<(Token, usize)> = Vec::new();
    let ghost mut starts: Seq<int> = Seq::empty();
    let ghost mut gap_start: int = 0;
    let mut i: usize = 0;
    let mut offset: usize = 0;
    while i < n
        invariant
            n == cs@.len(),
            cs@ == src@,
            i <= n,
            i == 0 ==> toks@.len() == 0 && offset == 0,
            forall|j: int| 0 <= j < toks@.len() ==> (#[trigger] toks@[j]).1 <= offset,
            lexed_upto(src@, toks@, starts, gap_start, i as int),
        decreases n - i,
    {
        let c = cs[i];
        let start = offset;
        let i0 = i;
        if c == ' ' || c == '\t' || c == '\n' || c == '\r' {
            i += 1;
            offset = offset.saturating_add(1);
            proof {
                lemma_lexed_skip(src@, toks@, starts, gap_start, i0 as int, i as int);
            }
        } else if c == '#' || (c == '/' && i + 1 < n && cs[i + 1] == '/') {
            // a comment to the end of the line
            i += 1;
            offset = offset.saturating_add(1);
            while i < n && cs[i] != '\n'
                invariant
                    n == cs@.len(),
                    cs@ == src@,
                    i0 < i <= n,
                    start <= offset,
                    forall|k: int| i0 < k < i ==> src@[k] != '\n',
                decreases n - i,
            {
                offset = offset.saturating_add(utf8_len(cs[i]));
                i += 1;
            }
            proof {
                assert(separator(src@, i0 as int, i as int));
                lemma_lexed_skip(src@, toks@, starts, gap_start, i0 as int, i as int);
            }
        } else if c == '/' && i + 1 < n && cs[i + 1] == '*' {
            // a comment to the closing `*/`
            i += 2;
            offset = offset.saturating_add(2);
            let mut closed = false;
            while i < n && !closed
                invariant
                    n == cs@.len(),
                    cs@ == src@,
                    i0 + 2 <= i <= n,
                    start <= offset,
                    !closed ==> forall|k: int| i0 + 2 <= k < i ==> !#[trigger] closes_comment(src@, k),
                    closed ==> i >= i0 + 4 && closes_comment(src@, i - 2)
                        && forall|k: int| i0 + 2 <= k < i - 2 ==> !#[trigger] closes_comment(src@, k),
                decreases n - i,
            {
                if cs[i] == '*' && i + 1 < n && cs[i + 1] == '/' {
                    closed = true;
                    i += 2;
                    offset = offset.saturating_add(2);
                } else {
                    offset = offset.saturating_add(utf8_len(cs[i]));
                    i += 1;
                }
            }
            if !closed {
                proof {
                    assert(lexed_upto(src@, toks@, starts, gap_start, i0 as int));
                    assert forall|k: int| i0 + 2 <= k implies !#[trigger] closes_comment(src@, k) by {}
                    assert(lex_failure_at(src@, i0 as int, "Unterminated comment"@));
                }
                return Err(lex_error("Unterminated comment", start));
            }
            proof {
                assert(separator(src@, i0 as int, i as int));
                lemma_lexed_skip(src@, toks@, starts, gap_start, i0 as int, i as int);
            }
        } else if ('a' <= c && c <= 'z') || ('A' <= c && c <= 'Z') {
            let first = i;
            i += 1;
            offset = offset.saturating_add(1);
            while i < n && (('a' <= cs[i] && cs[i] <= 'z') || ('A' <= cs[i] && cs[i] <= 'Z') || ('0' <= cs[i] && cs[i] <= '9')
                || cs[i] == '_' || cs[i] == '\'')
                invariant
                    n == cs@.len(),
                    cs@ == src@,
                    first < i <= n,
                    start <= offset,
                    forall|k: int| first < k < i ==> is_ident_char(#[trigger] src@[k]),
                decreases n - i,
            {
                offset = offset.saturating_add(1);
                i += 1;
            }
            proof {
                lemma_ident_run(src@, first + 1, i as int);
            }
            let text = src.substring_char(first, i);
            let tok = match keyword(text) {
                Some(w) => Token::Word { w },
                None => Token::Ident { name: String::from_str(text) },
            };
            proof {
                assert(spells(src@, first as int, i as int, tok));
                lemma_lexed_token(src@, toks@, starts, gap_start, first as int, (tok, start), i as int);
                starts = starts.push(first as int);
                gap_start = i as int;
            }
            toks.push((tok, start));
        } else if '0' <= c && c <= '9' {
            let first = i;
            let mut value: i64 = (c as u32 - '0' as u32) as i64;
            let mut too_big = false;
            i += 1;
            offset = offset.saturating_add(1);
            proof {
                let one = src@.subrange(first as int, i as int);
                assert(one.drop_last() =~= Seq::<char>::empty());
                assert(one.last() == c);
                assert(decimal_value(one.drop_last()) == 0);
                assert(value == c as int - '0' as int);
                assert(decimal_value(one) == decimal_value(one.drop_last()) * 10 + (one.last() as int - '0' as int));
            }
            while i < n && '0' <= cs[i] && cs[i] <= '9'
                invariant
                    n == cs@.len(),
                    cs@ == src@,
                    first < i <= n,
                    0 <= value <= i32::MAX,
                    start <= offset,
                    forall|k: int| first <= k < i ==> is_digit(#[trigger] src@[k]),
                    !too_big ==> value == decimal_value(src@.subrange(first as int, i as int)),
                    too_big ==> decimal_value(src@.subrange(first as int, i as int)) > i32::MAX,
                decreases n - i,
            {
                let d = (cs[i] as u32 - '0' as u32) as i64;
                proof {
                    assert(src@.subrange(first as int, i + 1).drop_last() =~= src@.subrange(first as int, i as int));
                    let prev = src@.subrange(first as int, i as int);
                    assert forall|k: int| 0 <= k < prev.len() implies is_digit(#[trigger] prev[k]) by {
                        assert(prev[k] == src@[first + k]);
                    }
                    lemma_decimal_value_nonneg(prev);
                    assert(src@.subrange(first as int, i + 1).last() == cs@[i as int]);
                }
                if value * 10 + d > i32::MAX as i64 {
                    too_big = true;
                } else {
                    value = value * 10 + d;
                }
                offset = offset.saturating_add(1);
                i += 1;
            }
            if too_big {
                proof {
                    lemma_digit_run(src@, first as int, i as int);
                    assert(lexed_upto(src@, toks@, starts, gap_start, first as int));
                    assert(lex_failure_at(src@, first as int, "Integer literal out of range"@));
                }
                return Err(lex_error("Integer literal out of range", start));
            }
            proof {
                lemma_digit_run(src@, first as int, i as int);
            }
            let tok = Token::IntLit { value: value as i32 };
            proof {
                assert(spells(src@, first as int, i as int, tok));
                lemma_lexed_token(src@, toks@, starts, gap_start, first as int, (tok, start), i as int);
                starts = starts.push(first as int);
                gap_start = i as int;
            }
            toks.push((tok, start));
        } else if c == '"' {
            // a string literal, kept with its quotes (and escape sequences as they are written)
            let first = i;
            i += 1;
            offset = offset.saturating_add(1);
            let mut closed = false;
            while i < n && !closed
                invariant
                    n == cs@.len(),
                    cs@ == src@,
                    first < i <= n,
                    start <= offset,
                    closed ==> i >= first + 2 && src@[i - 1] == '"',
                decreases n - i,
            {
                if cs[i] == '\\' && i + 1 < n {
                    offset = offset.saturating_add(1).saturating_add(utf8_len(cs[i + 1]));
                    i += 2;
                } else {
                    if cs[i] == '"' {
                        closed = true;
                    }
                    offset = offset.saturating_add(utf8_len(cs[i]));
                    i += 1;
                }
            }
            if !closed {
                proof {
                    assert(lexed_upto(src@, toks@, starts, gap_start, first as int));
                    assert(lex_failure_at(src@, first as int, "Unterminated string literal"@));
                }
                return Err(lex_error("Unterminated string literal", start));
            }
            let text = src.substring_char(first, i);
            let tok = Token::StrLit { text: String::from_str(text) };
            proof {
                assert(spells(src@, first as int, i as int, tok));
                lemma_lexed_token(src@, toks@, starts, gap_start, first as int, (tok, start), i as int);
                starts = starts.push(first as int);
                gap_start = i as int;
            }
            toks.push((tok, start));
        } else {
            let two = if i + 1 < n { two_char_symbol(c, cs[i + 1]) } else { None };
            match two {
                Some(s) => {
                    let tok = Token::Sym { s };
                    proof {
                        assert(src@.subrange(i as int, i + 2) =~= seq![c, src@[i + 1]]);
                        assert(spells(src@, i as int, i + 2, tok));
                        lemma_lexed_token(src@, toks@, starts, gap_start, i as int, (tok, start), i + 2);
                        starts = starts.push(i as int);
                        gap_start = i + 2;
                    }
                    toks.push((tok, start));
                    i += 2;
                    offset = offset.saturating_add(2);
                },
                None => match one_char_symbol(c) {
                    Some(s) => {
                        let tok = Token::Sym { s };
                        proof {
                            assert(src@.subrange(i as int, i + 1) =~= seq![c]);
                            assert(spells(src@, i as int, i + 1, tok));
                            lemma_lexed_token(src@, toks@, starts, gap_start, i as int, (tok, start), i + 1);
                            starts = starts.push(i as int);
                            gap_start = i + 1;
                        }
                        toks.push((tok, start));
                        i += 1;
                        offset = offset.saturating_add(1);
                    },
                    None => {
                        proof {
                            assert forall|t: Token| !#[trigger] spells(src@, i as int, src@.len() as int, t) by {
                                match t {
                                    Token::Sym { s } => {
                                        lemma_sym_text_len(s);
                                        if spells(src@, i as int, src@.len() as int, t) {
                                            if sym_text(s).len() == 1 {
                                                assert(src@.subrange(i as int, i + 1) =~= seq![c]);
                                            } else {
                                                assert(src@.subrange(i as int, i + 2) =~= seq![c, src@[i + 1]]);
                                            }
                                        }
                                    },
                                    Token::StrLit { text } => {
                                        if spells(src@, i as int, src@.len() as int, t) {
                                            assert(text@[0] == src@.subrange(i as int, i + text@.len())[0]);
                                        }
                                    },
                                    _ => {},
                                }
                            }
                            assert(lexed_upto(src@, toks@, starts, gap_start, i as int));
                            assert(lex_failure_at(src@, i as int, "InvalidToken"@));
                        }
                        return Err(lex_error("InvalidToken", start));
                    },
                },
            }
        }
    }
    let ghost lexed = toks@;
    proof {
        lemma_lexed_all(src@, lexed, starts, gap_start);
    }
    let res = Ok((toks, offset));
    assert(res matches Ok((t, _)) && t@ == lexed);
    res
}

} // verus!
