use vstd::prelude::*;
use crate::utils::{FileInfo, TextLoc, TextPos, spec_get_loc};
use crate::lexing::char_reader::is_whitespace;
use super::token::{Token, TokenType, TokenValue, token_text, punct_spelling, lemma_punct_spelling_injective, keyword_spelling, lemma_keyword_spelling_injective};
use crate::parsing::syntax::{token_valued, tokens_valued};
use crate::compiler::CompilerError;
use crate::text::push_str;
use super::keywords::{keyword_type, chars_eq_str, spec_keyword};

verus! {

/// What can go wrong while splitting a text into tokens.
#[derive(Debug, Clone)]
pub enum LexerError {
    UnexpectedChar(char, TextLoc),
    UnterminatedString(TextLoc),
    IntegerTooLarge(TextLoc),
}

pub type LexerResult = Result<Vec<Token>, Vec<LexerError>>;

/// What a lexer error says.
pub open spec fn lexer_error_msg(e: LexerError) -> Seq<char> {
    match e {
        LexerError::UnexpectedChar(c, _) => "Unexpected character `"@ + seq![c] + "`"@,
        LexerError::UnterminatedString(_) => "Unterminated string literal"@,
        LexerError::IntegerTooLarge(_) => "Integer literal does not fit in 64 bits"@,
    }
}

/// Where a lexer error is.
pub open spec fn lexer_error_loc(e: LexerError) -> TextLoc {
    match e {
        LexerError::UnexpectedChar(_, l) => l,
        LexerError::UnterminatedString(l) => l,
        LexerError::IntegerTooLarge(l) => l,
    }
}

impl CompilerError for LexerError {
    open spec fn error_msg(&self) -> Seq<char> {
        lexer_error_msg(*self)
    }

    open spec fn error_loc(&self) -> Option<TextLoc> {
        Some(lexer_error_loc(*self))
    }

    fn msg(&self) -> (r: String) {
        let mut out = String::new();
        match self {
            LexerError::UnexpectedChar(c, _) => {
                push_str(&mut out, "Unexpected character `");
                crate::text::push_char(&mut out, *c);
                push_str(&mut out, "`");
            },
            LexerError::UnterminatedString(_) => push_str(&mut out, "Unterminated string literal"),
            LexerError::IntegerTooLarge(_) => push_str(&mut out, "Integer literal does not fit in 64 bits"),
        }
        out
    }

    fn loc(&self) -> (r: Option<TextLoc>) {
        match self {
            LexerError::UnexpectedChar(_, l) => Some(l.clone()),
            LexerError::UnterminatedString(l) => Some(l.clone()),
            LexerError::IntegerTooLarge(l) => Some(l.clone()),
        }
    }
}

pub open spec fn is_ident_start(c: char) -> bool {
    ('a' <= c && c <= 'z') || ('A' <= c && c <= 'Z') || c == '_'
}

pub open spec fn is_digit(c: char) -> bool {
    '0' <= c && c <= '9'
}

pub open spec fn is_ident_char(c: char) -> bool {
    is_ident_start(c) || is_digit(c)
}

/// The token kind of a word: a keyword, one of the literal words `self`,
/// `null`, `continue` and `mut`, or else an identifier.
pub open spec fn word_kind(word: Seq<char>) -> TokenType {
    match spec_keyword(word) {
        Some(t) => t,
        None => if word == "self"@ {
            TokenType::SelfVal
        } else if word == "null"@ {
            TokenType::Null
        } else if word == "continue"@ {
            TokenType::Continue
        } else if word == "mut"@ {
            TokenType::Mut
        } else {
            TokenType::Identifier
        },
    }
}

/// Token positions are well ordered: each token covers a non-empty range of the
/// text, tokens come in increasing order without overlapping, and the list ends
/// with a single end-of-file token placed at the end of the text.
pub open spec fn well_placed(tokens: Seq<Token>, len: nat) -> bool {
    &&& tokens.len() >= 1
    &&& tokens.last().token_type == TokenType::EOF
    &&& tokens.last().pos == TextPos { begin: len as usize, end: len as usize }
    &&& forall|i: int| 0 <= i < tokens.len() - 1 ==> {
        &&& (#[trigger] tokens[i]).token_type != TokenType::EOF
        &&& tokens[i].pos.begin < tokens[i].pos.end <= len
    }
    &&& forall|i: int, j: int| 0 <= i < j < tokens.len() ==> (#[trigger] tokens[i]).pos.end <= (
    #[trigger] tokens[j]).pos.begin
}

/// Every word token is classified by its characters, and names carry their text.
pub open spec fn words_classified(tokens: Seq<Token>, chars: Seq<char>) -> bool {
    forall|i: int|
        0 <= i < tokens.len() - 1 && is_ident_start(chars[(#[trigger] tokens[i]).pos.begin as int])
            ==> {
            let word = chars.subrange(tokens[i].pos.begin as int, tokens[i].pos.end as int);
            &&& tokens[i].token_type == word_kind(word)
            &&& tokens[i].token_type == TokenType::Identifier ==> token_text(tokens[i]) == Some(word)
        }
}


/// A line comment that starts at `s` (with `//`) reaches position `p`: no
/// newline lies between them.
pub open spec fn comment_at(chars: Seq<char>, s: int, p: int) -> bool {
    &&& 0 <= s <= p
    &&& s + 1 < chars.len()
    &&& chars[s] == '/'
    &&& chars[s + 1] == '/'
    &&& forall|q: int| s <= q <= p ==> #[trigger] chars[q] != '\n'
}

/// `chars[a..b]` holds only whitespace and line comments that start in it.
#[verifier::opaque]
pub open spec fn blank(chars: Seq<char>, a: int, b: int) -> bool {
    forall|p: int|
        a <= p < b ==> is_whitespace(#[trigger] chars[p]) || exists|s: int| a <= s && #[trigger] comment_at(chars, s, p)
}

/// Where the text before token `k` starts: at the beginning, or where token
/// `k - 1` ends.
pub open spec fn gap_start(tokens: Seq<Token>, k: int) -> int {
    if k == 0 {
        0
    } else {
        tokens[k - 1].pos.end as int
    }
}

/// The text before each token holds only whitespace and line comments.
#[verifier::opaque]
pub open spec fn gaps_blank(tokens: Seq<Token>, chars: Seq<char>) -> bool {
    forall|k: int| 0 <= k < tokens.len() ==> blank(chars, gap_start(tokens, k), (#[trigger] tokens[k]).pos.begin as int)
}

/// The value a word token carries: its text for a name, the boolean for `true`
/// and `false`, and nothing for another keyword.
pub open spec fn word_value_ok(t: Token, word: Seq<char>) -> bool {
    match t.token_type {
        TokenType::Identifier => token_text(t) == Some(word),
        TokenType::True => t.value == Some(TokenValue::Bool(true)),
        TokenType::False => t.value == Some(TokenValue::Bool(false)),
        _ => t.value is None,
    }
}

/// A number token: the longest run of digits, with a fractional part when a dot
/// and a digit follow; an integer carries its value, a float its text.
pub open spec fn number_read(t: Token, chars: Seq<char>) -> bool {
    let b = t.pos.begin as int;
    let e = t.pos.end as int;
    &&& (e == chars.len() || !is_digit(chars[e]))
    &&& match t.token_type {
        TokenType::IntegerLiteral => {
            &&& all_digits(chars.subrange(b, e))
            &&& !(e + 1 < chars.len() && chars[e] == '.' && is_digit(chars[e + 1]))
            &&& t.value matches Some(TokenValue::Int(v)) && v as int == decimal_value(chars.subrange(b, e))
        },
        TokenType::FloatLiteral => exists|m: int|
            b < m < e - 1 && #[trigger] chars[m] == '.' && all_digits(chars.subrange(b, m)) && all_digits(
                chars.subrange(m + 1, e),
            ) && (t.value matches Some(TokenValue::Float(f)) && f@ == chars.subrange(b, e)),
        _ => false,
    }
}

/// A token is what the text it covers spells: a word (the longest run of word
/// characters), a number, a string literal (up to its first unescaped closing
/// quote, carrying its contents with escapes translated), or punctuation (two
/// characters when they spell a token, else one).
#[verifier::opaque]
pub open spec fn token_read(t: Token, chars: Seq<char>) -> bool {
    let b = t.pos.begin as int;
    let e = t.pos.end as int;
    let c = chars[b];
    &&& 0 <= b < e <= chars.len()
    &&& if is_ident_start(c) {
        &&& forall|j: int| b < j < e ==> is_ident_char(#[trigger] chars[j])
        &&& (e == chars.len() || !is_ident_char(chars[e]))
        &&& t.token_type == word_kind(chars.subrange(b, e))
        &&& word_value_ok(t, chars.subrange(b, e))
    } else if is_digit(c) {
        number_read(t, chars)
    } else if c == '"' {
        &&& b + 2 <= e
        &&& chars[e - 1] == '"'
        &&& inner_ok(chars, b + 1, e - 1)
        &&& t.token_type == TokenType::StringLiteral
        &&& token_text(t) == Some(inner_text(chars, b + 1, e - 1))
    } else {
        &&& t.value is None
        &&& !(c == '/' && b + 1 < chars.len() && chars[b + 1] == '/')
        &&& if b + 1 < chars.len() && symbol2(c, chars[b + 1]) is Some {
            e == b + 2 && t.token_type == symbol2(c, chars[b + 1])->0
        } else {
            e == b + 1 && symbol1(c) == Some(t.token_type)
        }
    }
}

/// The character at `p` is not whitespace and starts no token and no comment.
pub open spec fn stray(chars: Seq<char>, p: int) -> bool {
    let c = chars[p];
    &&& !is_whitespace(c)
    &&& !is_ident_start(c)
    &&& !is_digit(c)
    &&& c != '"'
    &&& symbol1(c) is None
    &&& !(p + 1 < chars.len() && symbol2(c, chars[p + 1]) is Some)
}

/// An error the lexer reports points at a fault of the text, and at its place:
/// a stray character, a string literal never closed, or a run of digits whose
/// value does not fit in an `i64`.
#[verifier::opaque]
pub open spec fn error_justified(e: LexerError, file: FileInfo) -> bool {
    let chars = file.chars@;
    match e {
        LexerError::UnexpectedChar(c, l) => exists|p: int|
            0 <= p < chars.len() && #[trigger] chars[p] == c && stray(chars, p) && l == spec_get_loc(
                TextPos { begin: p as usize, end: p as usize },
                file,
            ),
        LexerError::UnterminatedString(l) => exists|p: int|
            0 <= p < chars.len() && #[trigger] chars[p] == '"' && unclosed(chars, p) && l == spec_get_loc(
                TextPos { begin: p as usize, end: chars.len() as usize },
                file,
            ),
        LexerError::IntegerTooLarge(l) => exists|b: int, e: int|
            0 <= b < e <= chars.len() && all_digits(#[trigger] chars.subrange(b, e)) && decimal_value(
                chars.subrange(b, e),
            ) > i64::MAX && l == spec_get_loc(TextPos { begin: b as usize, end: e as usize }, file),
    }
}

pub fn char_is_ident_start(c: char) -> (r: bool)
    ensures
        r == is_ident_start(c),
{
    ('a' <= c && c <= 'z') || ('A' <= c && c <= 'Z') || c == '_'
}

pub fn char_is_digit(c: char) -> (r: bool)
    ensures
        r == is_digit(c),
{
    '0' <= c && c <= '9'
}

/// The end of the word that starts at `start`.
fn word_end(chars: &Vec<char>, start: usize) -> (r: usize)
    requires
        start < chars@.len(),
    ensures
        start < r <= chars@.len(),
        forall|j: int| start < j < r ==> is_ident_char(#[trigger] chars@[j]),
        r < chars@.len() ==> !is_ident_char(chars@[r as int]),
{
    let n = chars.len();
    let mut i = start + 1;
    while i < n && (char_is_ident_start(chars[i]) || char_is_digit(chars[i]))
        invariant
            n == chars@.len(),
            start < i <= chars@.len(),
            forall|j: int| start < j < i ==> is_ident_char(#[trigger] chars@[j]),
        decreases chars@.len() - i,
    {
        i += 1;
    }
    i
}

/// The characters `chars[start..end]`.
fn slice_chars(chars: &Vec<char>, start: usize, end: usize) -> (r: Vec<char>)
    requires
        start <= end <= chars@.len(),
    ensures
        r@ == chars@.subrange(start as int, end as int),
{
    let mut r: Vec<char> = Vec::new();
    let mut i = start;
    while i < end
        invariant
            start <= i <= end <= chars@.len(),
            r@ == chars@.subrange(start as int, i as int),
        decreases end - i,
    {
        r.push(chars[i]);
        i += 1;
        assert(r@ =~= chars@.subrange(start as int, i as int));
    }
    r
}

/// The token kind of a word.
pub fn word_token_type(word: &Vec<char>) -> (r: TokenType)
    ensures
        r == word_kind(word@),
{
    match keyword_type(word) {
        Some(t) => t,
        None => {
            if chars_eq_str(word, "self") {
                TokenType::SelfVal
            } else if chars_eq_str(word, "null") {
                TokenType::Null
            } else if chars_eq_str(word, "continue") {
                TokenType::Continue
            } else if chars_eq_str(word, "mut") {
                TokenType::Mut
            } else {
                TokenType::Identifier
            }
        },
    }
}

/// The two-character punctuation token that `c` followed by `d` spells, if any.
pub open spec fn symbol2(c: char, d: char) -> Option<TokenType> {
    if c == '-' && d == '>' {
        Some(TokenType::ThinArrow)
    } else if c == '=' && d == '>' {
        Some(TokenType::ThickArrow)
    } else if c == '=' && d == '=' {
        Some(TokenType::EqualEqual)
    } else if c == '!' && d == '=' {
        Some(TokenType::BangEqual)
    } else if c == '>' && d == '=' {
        Some(TokenType::GreaterEqual)
    } else if c == '<' && d == '=' {
        Some(TokenType::LessEqual)
    } else if c == '&' && d == '&' {
        Some(TokenType::AndAnd)
    } else if c == '|' && d == '|' {
        Some(TokenType::PipePipe)
    } else if c == '+' && d == '=' {
        Some(TokenType::PlusEqual)
    } else if c == '-' && d == '=' {
        Some(TokenType::MinusEqual)
    } else if c == '*' && d == '=' {
        Some(TokenType::MultiplyEqual)
    } else if c == '/' && d == '=' {
        Some(TokenType::DivideEqual)
    } else if c == '%' && d == '=' {
        Some(TokenType::ModulusEqual)
    } else {
        None
    }
}

/// The one-character punctuation token that `c` is, if any.
pub open spec fn symbol1(c: char) -> Option<TokenType> {
    if c == '(' {
        Some(TokenType::OpenParen)
    } else if c == ')' {
        Some(TokenType::CloseParen)
    } else if c == '{' {
        Some(TokenType::OpenBrace)
    } else if c == '}' {
        Some(TokenType::CloseBrace)
    } else if c == '[' {
        Some(TokenType::OpenBracket)
    } else if c == ']' {
        Some(TokenType::CloseBracket)
    } else if c == ',' {
        Some(TokenType::Comma)
    } else if c == '.' {
        Some(TokenType::Dot)
    } else if c == ':' {
        Some(TokenType::Colon)
    } else if c == ';' {
        Some(TokenType::SemiColon)
    } else if c == '?' {
        Some(TokenType::Question)
    } else if c == '|' {
        Some(TokenType::Pipe)
    } else if c == '!' {
        Some(TokenType::Bang)
    } else if c == '=' {
        Some(TokenType::Equal)
    } else if c == '>' {
        Some(TokenType::GreaterThan)
    } else if c == '<' {
        Some(TokenType::LessThan)
    } else if c == '+' {
        Some(TokenType::Plus)
    } else if c == '-' {
        Some(TokenType::Minus)
    } else if c == '*' {
        Some(TokenType::Multiply)
    } else if c == '/' {
        Some(TokenType::Divide)
    } else if c == '%' {
        Some(TokenType::Modulus)
    } else {
        None
    }
}

/// A word is a keyword exactly when it is written as one: the lexer gives a
/// word kind `t` other than a name if and only if `t` is the keyword spelled
/// as that word.
pub proof fn lemma_word_kind_spelled(w: Seq<char>, t: TokenType)
    ensures
        (word_kind(w) == t && t != TokenType::Identifier) <==> keyword_spelling(t) == Some(w),
{
    reveal_strlit("as");
    reveal_strlit("break");
    reveal_strlit("const");
    reveal_strlit("continue");
    reveal_strlit("else");
    reveal_strlit("false");
    reveal_strlit("fn");
    reveal_strlit("Fn");
    reveal_strlit("for");
    reveal_strlit("if");
    reveal_strlit("in");
    reveal_strlit("let");
    reveal_strlit("return");
    reveal_strlit("pub");
    reveal_strlit("self");
    reveal_strlit("struct");
    reveal_strlit("true");
    reveal_strlit("use");
    reveal_strlit("while");
    reveal_strlit("mut");
    reveal_strlit("null");
    assert forall|u: TokenType| word_kind(w) == u && u != TokenType::Identifier implies keyword_spelling(u) == Some(w) by {}
    if keyword_spelling(t) == Some(w) {
        let u = word_kind(w);
        if u != TokenType::Identifier {
            lemma_keyword_spelling_injective(t, u);
        }
    }
}

/// A one-character punctuation token is exactly the token written as that
/// character: `symbol1(c)` gives `t` if and only if `t` is spelled `c`.
pub proof fn lemma_symbol1_spelled(c: char, t: TokenType)
    ensures
        symbol1(c) == Some(t) <==> punct_spelling(t) == Some(seq![c]),
{
    if symbol1(c) == Some(t) {
        assert(punct_spelling(t)->0 =~= seq![c]);
        assert(punct_spelling(t) == Some(seq![c]));
    }
    if punct_spelling(t) == Some(seq![c]) {
        let sp = punct_spelling(t)->0;
        assert(sp[0] == c && sp.len() == 1);
        assert(symbol1(sp[0]) == Some(t));
    }
}

/// A two-character punctuation token is exactly the token written as those
/// two characters.
pub proof fn lemma_symbol2_spelled(c: char, d: char, t: TokenType)
    ensures
        symbol2(c, d) == Some(t) <==> punct_spelling(t) == Some(seq![c, d]),
{
    if symbol2(c, d) == Some(t) {
        assert(punct_spelling(t)->0 =~= seq![c, d]);
    }
    if punct_spelling(t) == Some(seq![c, d]) {
        assert(punct_spelling(t)->0[0] == c);
        assert(punct_spelling(t)->0[1] == d);
        assert(punct_spelling(t)->0.len() == 2);
    }
}

/// Distinct punctuation characters give distinct token kinds.
pub proof fn lemma_symbol1_injective(c1: char, c2: char)
    ensures
        symbol1(c1) is Some && symbol1(c1) == symbol1(c2) ==> c1 == c2,
{
    if symbol1(c1) is Some && symbol1(c1) == symbol1(c2) {
        let t = symbol1(c1)->0;
        lemma_symbol1_spelled(c1, t);
        lemma_symbol1_spelled(c2, t);
        assert(seq![c1][0] == seq![c2][0]);
    }
}

/// Distinct pairs of punctuation characters give distinct token kinds.
pub proof fn lemma_symbol2_injective(c1: char, d1: char, c2: char, d2: char)
    ensures
        symbol2(c1, d1) is Some && symbol2(c1, d1) == symbol2(c2, d2) ==> c1 == c2 && d1 == d2,
{
    if symbol2(c1, d1) is Some && symbol2(c1, d1) == symbol2(c2, d2) {
        let t = symbol2(c1, d1)->0;
        lemma_symbol2_spelled(c1, d1, t);
        lemma_symbol2_spelled(c2, d2, t);
        assert(seq![c1, d1][0] == seq![c2, d2][0]);
        assert(seq![c1, d1][1] == seq![c2, d2][1]);
    }
}

fn symbol2_of(c: char, d: char) -> (r: Option<TokenType>)
    ensures
        r == symbol2(c, d),
{
    if c == '-' && d == '>' {
        Some(TokenType::ThinArrow)
    } else if c == '=' && d == '>' {
        Some(TokenType::ThickArrow)
    } else if c == '=' && d == '=' {
        Some(TokenType::EqualEqual)
    } else if c == '!' && d == '=' {
        Some(TokenType::BangEqual)
    } else if c == '>' && d == '=' {
        Some(TokenType::GreaterEqual)
    } else if c == '<' && d == '=' {
        Some(TokenType::LessEqual)
    } else if c == '&' && d == '&' {
        Some(TokenType::AndAnd)
    } else if c == '|' && d == '|' {
        Some(TokenType::PipePipe)
    } else if c == '+' && d == '=' {
        Some(TokenType::PlusEqual)
    } else if c == '-' && d == '=' {
        Some(TokenType::MinusEqual)
    } else if c == '*' && d == '=' {
        Some(TokenType::MultiplyEqual)
    } else if c == '/' && d == '=' {
        Some(TokenType::DivideEqual)
    } else if c == '%' && d == '=' {
        Some(TokenType::ModulusEqual)
    } else {
        None
    }
}

fn symbol1_of(c: char) -> (r: Option<TokenType>)
    ensures
        r == symbol1(c),
{
    if c == '(' {
        Some(TokenType::OpenParen)
    } else if c == ')' {
        Some(TokenType::CloseParen)
    } else if c == '{' {
        Some(TokenType::OpenBrace)
    } else if c == '}' {
        Some(TokenType::CloseBrace)
    } else if c == '[' {
        Some(TokenType::OpenBracket)
    } else if c == ']' {
        Some(TokenType::CloseBracket)
    } else if c == ',' {
        Some(TokenType::Comma)
    } else if c == '.' {
        Some(TokenType::Dot)
    } else if c == ':' {
        Some(TokenType::Colon)
    } else if c == ';' {
        Some(TokenType::SemiColon)
    } else if c == '?' {
        Some(TokenType::Question)
    } else if c == '|' {
        Some(TokenType::Pipe)
    } else if c == '!' {
        Some(TokenType::Bang)
    } else if c == '=' {
        Some(TokenType::Equal)
    } else if c == '>' {
        Some(TokenType::GreaterThan)
    } else if c == '<' {
        Some(TokenType::LessThan)
    } else if c == '+' {
        Some(TokenType::Plus)
    } else if c == '-' {
        Some(TokenType::Minus)
    } else if c == '*' {
        Some(TokenType::Multiply)
    } else if c == '/' {
        Some(TokenType::Divide)
    } else if c == '%' {
        Some(TokenType::Modulus)
    } else {
        None
    }
}

/// The punctuation token at `start`, if any, and how many characters it covers:
/// a two-character token is preferred to a one-character one.
fn symbol_at(chars: &Vec<char>, start: usize) -> (r: Option<(TokenType, usize)>)
    requires
        start < chars@.len(),
    ensures
        r == (if start + 1 < chars@.len() && symbol2(chars@[start as int], chars@[start + 1]) is Some {
            Some((symbol2(chars@[start as int], chars@[start + 1])->0, 2usize))
        } else {
            match symbol1(chars@[start as int]) {
                Some(t) => Some((t, 1usize)),
                None => None,
            }
        }),
{
    let c = chars[start];
    if chars.len() - start >= 2 {
        if let Some(t) = symbol2_of(c, chars[start + 1]) {
            return Some((t, 2));
        }
    }
    match symbol1_of(c) {
        Some(t) => Some((t, 1)),
        None => None,
    }
}

/// The number that a run of decimal digits spells.
pub open spec fn decimal_value(s: Seq<char>) -> nat
    decreases s.len(),
{
    if s.len() == 0 {
        0
    } else {
        decimal_value(s.drop_last()) * 10 + ((s.last() as int - '0' as int) as nat)
    }
}

/// All characters are decimal digits.
pub open spec fn all_digits(s: Seq<char>) -> bool {
    forall|j: int| 0 <= j < s.len() ==> is_digit(#[trigger] s[j])
}

/// Appending digits never makes a number smaller.
proof fn lemma_decimal_grows(chars: Seq<char>, a: int, b: int, c: int)
    requires
        0 <= a <= b <= c <= chars.len(),
        all_digits(chars.subrange(a, c)),
    ensures
        decimal_value(chars.subrange(a, b)) <= decimal_value(chars.subrange(a, c)),
    decreases c - b,
{
    if b < c {
        lemma_decimal_grows(chars, a, b, c - 1);
        let s = chars.subrange(a, c);
        assert(s.drop_last() =~= chars.subrange(a, c - 1));
        assert(is_digit(s[c - a - 1]));
    }
}

/// The value of the decimal digits `chars[start..end]`, when it fits in an `i64`.
fn digits_value(chars: &Vec<char>, start: usize, end: usize) -> (r: Option<i64>)
    requires
        start <= end <= chars@.len(),
        forall|j: int| start <= j < end ==> is_digit(#[trigger] chars@[j]),
    ensures
        r matches Some(v) ==> v >= 0 && v as int == decimal_value(chars@.subrange(start as int, end as int)),
        r is None ==> decimal_value(chars@.subrange(start as int, end as int)) > i64::MAX,
{
    let mut v: i64 = 0;
    let mut i = start;
    while i < end
        invariant
            start <= i <= end <= chars@.len(),
            v >= 0,
            v as int == decimal_value(chars@.subrange(start as int, i as int)),
            forall|j: int| start <= j < end ==> is_digit(#[trigger] chars@[j]),
        decreases end - i,
    {
        let d = (chars[i] as u32 - '0' as u32) as i64;
        assert(0 <= d <= 9) by {
            assert(is_digit(chars@[i as int]));
        }
        let ghost next = chars@.subrange(start as int, i + 1);
        assert(next.drop_last() =~= chars@.subrange(start as int, i as int));
        assert(decimal_value(next) == v * 10 + d);
        if v > (i64::MAX - d) / 10 {
            proof {
                assert(v * 10 + d > i64::MAX) by (nonlinear_arith)
                    requires
                        v > (i64::MAX - d) / 10,
                        0 <= d <= 9,
                ;
                assert(all_digits(chars@.subrange(start as int, end as int)));
                lemma_decimal_grows(chars@, start as int, i + 1, end as int);
            }
            return None;
        }
        assert(v * 10 + d <= i64::MAX) by (nonlinear_arith)
            requires
                v <= (i64::MAX - d) / 10,
                0 <= d <= 9,
                v >= 0,
        ;
        v = v * 10 + d;
        i += 1;
    }
    Some(v)
}

/// The end of the line comment that starts at `start`: the offset of the next
/// newline, or the end of the text.
fn comment_end(chars: &Vec<char>, start: usize) -> (r: usize)
    requires
        start + 1 < chars@.len(),
        chars@[start as int] == '/',
    ensures
        start < r <= chars@.len(),
        r < chars@.len() ==> chars@[r as int] == '\n',
        forall|q: int| start <= q < r ==> #[trigger] chars@[q] != '\n',
{
    let n = chars.len();
    let mut i = start + 1;
    while i < n && chars[i] != '\n'
        invariant
            n == chars@.len(),
            start < i <= n,
            chars@[start as int] == '/',
            forall|q: int| start <= q < i ==> #[trigger] chars@[q] != '\n',
        decreases n - i,
    {
        i += 1;
    }
    i
}

/// The character that an escape `\e` stands for: `\n`, `\t`, `\r` and `\0`
/// are translated, and any other escaped character stands for itself.
pub open spec fn escaped(e: char) -> char {
    if e == 'n' {
        '\n'
    } else if e == 't' {
        '\t'
    } else if e == 'r' {
        '\r'
    } else if e == '0' {
        '\0'
    } else {
        e
    }
}

/// `chars[i..j]` can stand between the quotes of a string literal: read from the
/// left, a backslash and the character after it form an escape, and no other
/// character is a double quote.
pub open spec fn inner_ok(chars: Seq<char>, i: int, j: int) -> bool
    decreases j - i,
{
    if i >= j {
        i == j
    } else if chars[i] == '\\' {
        i + 2 <= j && inner_ok(chars, i + 2, j)
    } else {
        chars[i] != '"' && inner_ok(chars, i + 1, j)
    }
}

/// The characters that `chars[i..j]` stands for inside a string literal.
pub open spec fn inner_text(chars: Seq<char>, i: int, j: int) -> Seq<char>
    decreases j - i,
{
    if i >= j {
        Seq::empty()
    } else if chars[i] == '\\' && i + 1 < j {
        seq![escaped(chars[i + 1])] + inner_text(chars, i + 2, j)
    } else {
        seq![chars[i]] + inner_text(chars, i + 1, j)
    }
}

/// A string literal opened at `start` is never closed: no double quote ends a
/// well-formed string body that starts after it.
pub open spec fn unclosed(chars: Seq<char>, start: int) -> bool {
    forall|j: int| start < j < chars.len() && #[trigger] inner_ok(chars, start + 1, j) ==> chars[j] != '"'
}

/// A string body extends by one plain character.
proof fn lemma_inner_plain(chars: Seq<char>, i: int, j: int)
    requires
        i <= j < chars.len(),
        inner_ok(chars, i, j),
        chars[j] != '\\',
        chars[j] != '"',
    ensures
        inner_ok(chars, i, j + 1),
        inner_text(chars, i, j + 1) == inner_text(chars, i, j).push(chars[j]),
    decreases j - i,
{
    if i < j {
        if chars[i] == '\\' {
            lemma_inner_plain(chars, i + 2, j);
            assert(seq![escaped(chars[i + 1])] + inner_text(chars, i + 2, j).push(chars[j]) =~= (seq![
                escaped(chars[i + 1]),
            ] + inner_text(chars, i + 2, j)).push(chars[j]));
        } else {
            lemma_inner_plain(chars, i + 1, j);
            assert(seq![chars[i]] + inner_text(chars, i + 1, j).push(chars[j]) =~= (seq![chars[i]] + inner_text(
                chars,
                i + 1,
                j,
            )).push(chars[j]));
        }
    } else {
        assert(inner_ok(chars, j + 1, j + 1));
        assert(inner_text(chars, j + 1, j + 1) =~= Seq::<char>::empty());
        assert(inner_text(chars, j, j + 1) =~= seq![chars[j]]);
    }
}

/// A string body extends by one escape.
proof fn lemma_inner_escape(chars: Seq<char>, i: int, j: int)
    requires
        i <= j,
        j + 1 < chars.len(),
        inner_ok(chars, i, j),
        chars[j] == '\\',
    ensures
        inner_ok(chars, i, j + 2),
        inner_text(chars, i, j + 2) == inner_text(chars, i, j).push(escaped(chars[j + 1])),
    decreases j - i,
{
    if i < j {
        if chars[i] == '\\' {
            lemma_inner_escape(chars, i + 2, j);
            assert(seq![escaped(chars[i + 1])] + inner_text(chars, i + 2, j).push(escaped(chars[j + 1])) =~= (seq![
                escaped(chars[i + 1]),
            ] + inner_text(chars, i + 2, j)).push(escaped(chars[j + 1])));
        } else {
            lemma_inner_escape(chars, i + 1, j);
            assert(seq![chars[i]] + inner_text(chars, i + 1, j).push(escaped(chars[j + 1])) =~= (seq![
                chars[i],
            ] + inner_text(chars, i + 1, j)).push(escaped(chars[j + 1])));
        }
    } else {
        assert(inner_ok(chars, j + 2, j + 2));
        assert(inner_text(chars, j + 2, j + 2) =~= Seq::<char>::empty());
        assert(inner_text(chars, j, j + 2) =~= seq![escaped(chars[j + 1])]);
    }
}

/// Two ends of well-formed string bodies from the same start: the later one ends
/// a well-formed body that starts at the earlier one.
proof fn lemma_inner_suffix(chars: Seq<char>, i: int, a: int, b: int)
    requires
        i <= a <= b,
        inner_ok(chars, i, a),
        inner_ok(chars, i, b),
    ensures
        inner_ok(chars, a, b),
    decreases a - i,
{
    if i < a {
        if chars[i] == '\\' {
            lemma_inner_suffix(chars, i + 2, a, b);
        } else {
            lemma_inner_suffix(chars, i + 1, a, b);
        }
    }
}

/// The closing quote of the string literal opened at `start` and the literal's
/// contents, with escapes translated; `None` when the text ends first.
fn scan_string(chars: &Vec<char>, start: usize) -> (r: Option<(usize, String)>)
    requires
        start < chars@.len(),
    ensures
        r matches Some((e, content)) ==> start < e < chars@.len() && chars@[e as int] == '"' && inner_ok(
            chars@,
            start + 1,
            e as int,
        ) && content@ == inner_text(chars@, start + 1, e as int),
        r is None ==> unclosed(chars@, start as int),
{
    let n = chars.len();
    let mut j = start + 1;
    let mut content = String::new();
    while j < n
        invariant
            n == chars@.len(),
            start < j <= n,
            inner_ok(chars@, start + 1, j as int),
            content@ == inner_text(chars@, start + 1, j as int),
            forall|q: int| start < q < j && #[trigger] inner_ok(chars@, start + 1, q) ==> chars@[q] != '"',
        decreases n - j,
    {
        let d = chars[j];
        if d == '"' {
            return Some((j, content));
        }
        if d == '\\' && n - j >= 2 {
            let e = chars[j + 1];
            let esc = if e == 'n' {
                '\n'
            } else if e == 't' {
                '\t'
            } else if e == 'r' {
                '\r'
            } else if e == '0' {
                '\0'
            } else {
                e
            };
            proof {
                lemma_inner_escape(chars@, start + 1, j as int);
                if inner_ok(chars@, start + 1, j + 1) {
                    lemma_inner_suffix(chars@, start + 1, j as int, j + 1);
                }
            }
            crate::text::push_char(&mut content, esc);
            j += 2;
        } else if d == '\\' {
            proof {
                assert forall|q: int| start < q < n && #[trigger] inner_ok(chars@, start + 1, q) implies chars@[q] != '"' by {
                    if q > j {
                        lemma_inner_suffix(chars@, start + 1, j as int, q);
                    }
                }
            }
            return None;
        } else {
            proof {
                lemma_inner_plain(chars@, start + 1, j as int);
            }
            crate::text::push_char(&mut content, d);
            j += 1;
        }
    }
    None
}

/// The word token that starts at `start`.
fn lex_word(chars: &Vec<char>, start: usize) -> (r: Token)
    requires
        start < chars@.len(),
        is_ident_start(chars@[start as int]),
    ensures
        r.pos.begin == start,
        start < r.pos.end <= chars@.len(),
        token_read(r, chars@),
        token_valued(r),
        r.token_type != TokenType::EOF,
{
    proof {
        reveal(token_read);
    }
    let end = word_end(chars, start);
    let word = slice_chars(chars, start, end);
    let tt = word_token_type(&word);
    let value = if tt == TokenType::Identifier {
        Some(TokenValue::String(crate::text::string_from_chars(&word)))
    } else if tt == TokenType::True {
        Some(TokenValue::Bool(true))
    } else if tt == TokenType::False {
        Some(TokenValue::Bool(false))
    } else {
        None
    };
    proof {
        reveal_strlit("true");
        reveal_strlit("false");
        reveal_strlit("self");
        reveal_strlit("null");
        reveal_strlit("continue");
        reveal_strlit("mut");
    }
    Token { token_type: tt, pos: TextPos { begin: start, end }, value }
}

/// The number token that starts at `start`, or, when its digits do not fit in
/// an `i64`, where the digits end.
fn lex_number(chars: &Vec<char>, start: usize) -> (r: Result<Token, usize>)
    requires
        start < chars@.len(),
        is_digit(chars@[start as int]),
    ensures
        r matches Ok(t) ==> t.pos.begin == start && start < t.pos.end <= chars@.len() && token_read(t, chars@) && token_valued(t) && t.token_type
            != TokenType::EOF,
        r matches Err(end) ==> start < end <= chars@.len() && all_digits(chars@.subrange(start as int, end as int))
            && decimal_value(chars@.subrange(start as int, end as int)) > i64::MAX,
{
    proof {
        reveal(token_read);
    }
    let n = chars.len();
    let mut end = start;
    while end < n && char_is_digit(chars[end])
        invariant
            n == chars@.len(),
            start <= end <= n,
            forall|j: int| start <= j < end ==> is_digit(#[trigger] chars@[j]),
        decreases n - end,
    {
        end += 1;
    }
    assert(all_digits(chars@.subrange(start as int, end as int)));
    if n - end >= 2 && chars[end] == '.' && char_is_digit(chars[end + 1]) {
        let mut fend = end + 1;
        while fend < n && char_is_digit(chars[fend])
            invariant
                n == chars@.len(),
                end < fend <= n,
                forall|j: int| end < j < fend ==> is_digit(#[trigger] chars@[j]),
            decreases n - fend,
        {
            fend += 1;
        }
        let text = slice_chars(chars, start, fend);
        let t = Token {
            token_type: TokenType::FloatLiteral,
            pos: TextPos { begin: start, end: fend },
            value: Some(TokenValue::Float(crate::text::string_from_chars(&text))),
        };
        proof {
            assert(all_digits(chars@.subrange(end + 1, fend as int)));
            assert(chars@[end as int] == '.');
        }
        Ok(t)
    } else {
        match digits_value(chars, start, end) {
            Some(v) => Ok(Token { token_type: TokenType::IntegerLiteral, pos: TextPos { begin: start, end }, value: Some(TokenValue::Int(v)) }),
            None => Err(end),
        }
    }
}

/// The string literal token that starts at `start`, if the literal is closed.
fn lex_string(chars: &Vec<char>, start: usize) -> (r: Option<Token>)
    requires
        start < chars@.len() < usize::MAX,
        chars@[start as int] == '"',
    ensures
        r matches Some(t) ==> t.pos.begin == start && start < t.pos.end <= chars@.len() && token_read(t, chars@) && token_valued(t) && t.token_type
            != TokenType::EOF,
        r is None ==> unclosed(chars@, start as int),
{
    proof {
        reveal(token_read);
    }
    match scan_string(chars, start) {
        Some((j, content)) => Some(Token {
            token_type: TokenType::StringLiteral,
            pos: TextPos { begin: start, end: j + 1 },
            value: Some(TokenValue::String(content)),
        }),
        None => None,
    }
}

/// The punctuation token that starts at `start`, if one does.
fn lex_symbol(chars: &Vec<char>, start: usize) -> (r: Option<Token>)
    requires
        start < chars@.len() < usize::MAX,
        !is_whitespace(chars@[start as int]),
        !is_ident_start(chars@[start as int]),
        !is_digit(chars@[start as int]),
        chars@[start as int] != '"',
        !(chars@[start as int] == '/' && start + 1 < chars@.len() && chars@[start + 1] == '/'),
    ensures
        r matches Some(t) ==> t.pos.begin == start && start < t.pos.end <= chars@.len() && token_read(t, chars@) && token_valued(t) && t.token_type
            != TokenType::EOF,
        r is None ==> stray(chars@, start as int),
{
    proof {
        reveal(token_read);
    }
    match symbol_at(chars, start) {
        Some((tt, len)) => {
            let t = Token { token_type: tt, pos: TextPos { begin: start, end: start + len }, value: None };
            Some(t)
        },
        None => None,
    }
}

/// A gap extends over one more whitespace character.
proof fn lemma_blank_ws(chars: Seq<char>, a: int, i: int)
    requires
        a <= i < chars.len(),
        blank(chars, a, i),
        is_whitespace(chars[i]),
    ensures
        blank(chars, a, i + 1),
{
    reveal(blank);
}

/// A gap extends over a line comment that starts where it ends.
proof fn lemma_blank_comment(chars: Seq<char>, a: int, i: int, e: int)
    requires
        0 <= a <= i < e <= chars.len(),
        i + 1 < chars.len(),
        chars[i] == '/',
        chars[i + 1] == '/',
        blank(chars, a, i),
        forall|q: int| i <= q < e ==> #[trigger] chars[q] != '\n',
    ensures
        blank(chars, a, e),
{
    reveal(blank);
    assert forall|p: int| a <= p < e implies is_whitespace(#[trigger] chars[p]) || exists|s: int|
        a <= s && #[trigger] comment_at(chars, s, p) by {
        if p >= i {
            assert(comment_at(chars, i, p));
        }
    }
}

/// An empty gap is blank.
proof fn lemma_blank_empty(chars: Seq<char>, a: int)
    ensures
        blank(chars, a, a),
{
    reveal(blank);
}

/// A token placed after a blank gap keeps every gap blank, and opens an empty gap.
proof fn lemma_gaps_push(tokens: Seq<Token>, t: Token, chars: Seq<char>)
    requires
        gaps_blank(tokens, chars),
        blank(chars, gap_start(tokens, tokens.len() as int), t.pos.begin as int),
    ensures
        gaps_blank(tokens.push(t), chars),
        blank(chars, gap_start(tokens.push(t), tokens.len() + 1int), t.pos.end as int),
{
    reveal(gaps_blank);
    let ts = tokens.push(t);
    assert forall|k: int| 0 <= k < ts.len() implies blank(chars, gap_start(ts, k), (#[trigger] ts[k]).pos.begin as int) by {
        if k < tokens.len() {
            assert(ts[k] == tokens[k]);
            if k > 0 {
                assert(ts[k - 1] == tokens[k - 1]);
            }
            assert(blank(chars, gap_start(tokens, k), tokens[k].pos.begin as int));
        } else if k > 0 {
            assert(ts[k - 1] == tokens[k - 1]);
        }
    }
    lemma_blank_empty(chars, t.pos.end as int);
}

/// No tokens means no gaps.
proof fn lemma_gaps_empty(chars: Seq<char>)
    ensures
        gaps_blank(Seq::<Token>::empty(), chars),
{
    reveal(gaps_blank);
}

/// Tokens read from the text classify their words.
proof fn lemma_words_classified(read: Seq<Token>, tokens: Seq<Token>, chars: Seq<char>)
    requires
        tokens.len() == read.len() + 1,
        forall|k: int| 0 <= k < read.len() ==> tokens[k] == read[k],
        forall|k: int| 0 <= k < read.len() ==> token_read(#[trigger] read[k], chars),
    ensures
        words_classified(tokens, chars),
        forall|k: int| 0 <= k < tokens.len() - 1 ==> token_read(#[trigger] tokens[k], chars),
{
    reveal(token_read);
    assert forall|k: int| 0 <= k < tokens.len() - 1 implies token_read(#[trigger] tokens[k], chars) by {
        assert(tokens[k] == read[k]);
    }
}

/// The errors with one more, justified one at the end.
fn with_error(errors: Vec<LexerError>, e: LexerError, file: &FileInfo) -> (r: Vec<LexerError>)
    requires
        forall|k: int| 0 <= k < errors@.len() ==> error_justified(#[trigger] errors@[k], *file),
        error_justified(e, *file),
    ensures
        r@.len() > 0,
        forall|k: int| 0 <= k < r@.len() ==> error_justified(#[trigger] r@[k], *file),
{
    let ghost pre = errors@;
    let mut errors = errors;
    errors.push(e);
    proof {
        lemma_justified_push(pre, e, *file);
    }
    errors
}

/// Adding a justified error to justified errors keeps them all justified.
proof fn lemma_justified_push(pre: Seq<LexerError>, e: LexerError, file: FileInfo)
    requires
        forall|k: int| 0 <= k < pre.len() ==> error_justified(#[trigger] pre[k], file),
        error_justified(e, file),
    ensures
        forall|k: int| 0 <= k < pre.push(e).len() ==> error_justified(#[trigger] pre.push(e)[k], file),
{
    assert forall|k: int| 0 <= k < pre.push(e).len() implies error_justified(#[trigger] pre.push(e)[k], file) by {
        if k < pre.len() {
            assert(pre.push(e)[k] == pre[k]);
        }
    }
}

/// `tokens` is the reading of `chars`: tokens in order, each what the text it
/// covers spells, only whitespace and comments between them, and an end-of-file
/// token at the end.
pub open spec fn lexed_from(tokens: Seq<Token>, chars: Seq<char>) -> bool {
    &&& well_placed(tokens, chars.len())
    &&& words_classified(tokens, chars)
    &&& tokens_valued(tokens)
    &&& gaps_blank(tokens, chars)
    &&& forall|k: int| 0 <= k < tokens.len() - 1 ==> token_read(#[trigger] tokens[k], chars)
}

/// Splits a source file into tokens. Whitespace and `//` comments separate
/// tokens; words, numbers, strings and punctuation become tokens; an end-of-file
/// token closes the list. Every fault of the text is reported, each at its place.
pub fn lex_text(file: &FileInfo) -> (r: LexerResult)
    requires
        file.chars@.len() < usize::MAX,
    ensures
        r matches Ok(tokens) ==> lexed_from(tokens@, file.chars@),
        r matches Err(errs) ==> errs@.len() > 0 && forall|k: int| 0 <= k < errs@.len() ==> error_justified(
            #[trigger] errs@[k],
            *file,
        ),
{
    let chars = &file.chars;
    let n = chars.len();
    let mut tokens: Vec<Token> = Vec::new();
    let mut errors: Vec<LexerError> = Vec::new();
    let mut i: usize = 0;
    proof {
        lemma_gaps_empty(chars@);
        lemma_blank_empty(chars@, 0);
    }
    while i < n
        invariant
            n == chars@.len(),
            chars == &file.chars,
            n < usize::MAX,
            i <= n,
            forall|k: int| 0 <= k < tokens@.len() ==> {
                &&& (#[trigger] tokens@[k]).token_type != TokenType::EOF
                &&& tokens@[k].pos.begin < tokens@[k].pos.end <= i
                &&& token_read(tokens@[k], chars@)
            },
            forall|k: int, j: int|
                0 <= k < j < tokens@.len() ==> (#[trigger] tokens@[k]).pos.end <= (
                #[trigger] tokens@[j]).pos.begin,
            tokens_valued(tokens@),
            gap_start(tokens@, tokens@.len() as int) <= i,
            errors@.len() == 0 ==> gaps_blank(tokens@, chars@) && blank(
                chars@,
                gap_start(tokens@, tokens@.len() as int),
                i as int,
            ),
            forall|k: int| 0 <= k < errors@.len() ==> error_justified(#[trigger] errors@[k], *file),
        decreases n - i,
    {
        let c = chars[i];
        let ghost g = gap_start(tokens@, tokens@.len() as int);
        if crate::lexing::char_reader::char_is_whitespace(c) {
            proof {
                if errors@.len() == 0 {
                    lemma_blank_ws(chars@, g, i as int);
                }
            }
            i += 1;
            continue;
        }
        if c == '/' && n - i >= 2 && chars[i + 1] == '/' {
            let e = comment_end(chars, i);
            proof {
                if errors@.len() == 0 {
                    lemma_blank_comment(chars@, g, i as int, e as int);
                }
            }
            i = e;
            continue;
        }
        let start = i;
        let ghost before = tokens@;
        let next: Result<Token, (LexerError, usize)> = if char_is_ident_start(c) {
            Ok(lex_word(chars, start))
        } else if char_is_digit(c) {
            match lex_number(chars, start) {
                Ok(t) => Ok(t),
                Err(end) => {
                    let l = TextPos { begin: start, end }.get_loc(file);
                    let err = LexerError::IntegerTooLarge(l);
                    proof {
                        assert(all_digits(file.chars@.subrange(start as int, end as int)));
                        reveal(error_justified);
                        assert(error_justified(err, *file));
                    }
                    Err((err, end))
                },
            }
        } else if c == '"' {
            match lex_string(chars, start) {
                Some(t) => Ok(t),
                None => {
                    let l = TextPos { begin: start, end: n }.get_loc(file);
                    let err = LexerError::UnterminatedString(l);
                    proof {
                        assert(file.chars@[start as int] == '"');
                        reveal(error_justified);
                        assert(error_justified(err, *file));
                    }
                    Err((err, n))
                },
            }
        } else {
            match lex_symbol(chars, start) {
                Some(t) => Ok(t),
                None => {
                    let l = TextPos::uniform(start).get_loc(file);
                    let err = LexerError::UnexpectedChar(c, l);
                    proof {
                        assert(file.chars@[start as int] == c && stray(file.chars@, start as int));
                        reveal(error_justified);
                        assert(error_justified(err, *file));
                    }
                    Err((err, start + 1))
                },
            }
        };
        match next {
            Ok(t) => {
                let ghost tv = t;
                i = t.pos.end;
                tokens.push(t);
                proof {
                    assert(tokens@ == before.push(tv));
                    if errors@.len() == 0 {
                        lemma_gaps_push(before, tv, chars@);
                    }
                }
            },
            Err(pair) => {
                let (err, next_i) = pair;
                errors = with_error(errors, err, file);
                i = next_i;
            },
        }
    }
    if errors.len() > 0 {
        return Err(errors);
    }
    let ghost before = tokens@;
    let eof = Token { token_type: TokenType::EOF, pos: TextPos::uniform(n), value: None };
    let ghost eof_v = eof;
    tokens.push(eof);
    proof {
        lemma_gaps_push(before, eof_v, chars@);
        assert(tokens@ == before.push(eof_v));
        lemma_words_classified(before, tokens@, chars@);
    }
    Ok(tokens)
}

} // verus!
