use vstd::prelude::*;
use crate::utils::{FileInfo, TextLoc, TextPos};

verus! {

/// The kinds of lexical tokens.
#[derive(Debug, Clone, Copy, PartialEq, Eq, Hash, Structural)]
pub enum TokenType {
    // literals and names
    Identifier,
    IntegerLiteral,
    FloatLiteral,
    StringLiteral,
    // keywords
    As,
    Break,
    Const,
    Continue,
    Else,
    False,
    Fn,
    FnType,
    For,
    If,
    In,
    Let,
    Return,
    Pub,
    SelfVal,
    Struct,
    True,
    Use,
    While,
    Mut,
    Null,
    // punctuation
    OpenParen,
    CloseParen,
    OpenBrace,
    CloseBrace,
    OpenBracket,
    CloseBracket,
    Comma,
    Dot,
    Colon,
    SemiColon,
    Question,
    ThinArrow,
    ThickArrow,
    Pipe,
    PipePipe,
    AndAnd,
    Bang,
    BangEqual,
    Equal,
    EqualEqual,
    GreaterThan,
    GreaterEqual,
    LessThan,
    LessEqual,
    Plus,
    Minus,
    Multiply,
    Divide,
    Modulus,
    PlusEqual,
    MinusEqual,
    MultiplyEqual,
    DivideEqual,
    ModulusEqual,
    EOF,
}

/// The value a token carries: the text of a name or string, a number, or a boolean.
/// A float literal keeps its source text.
#[derive(Debug)]
pub enum TokenValue {
    String(String),
    Int(i64),
    Float(String),
    Bool(bool),
}

impl Clone for TokenValue {
    fn clone(&self) -> (r: Self)
        ensures
            r == *self,
    {
        match self {
            TokenValue::String(s) => TokenValue::String(s.clone()),
            TokenValue::Int(i) => TokenValue::Int(*i),
            TokenValue::Float(s) => TokenValue::Float(s.clone()),
            TokenValue::Bool(b) => TokenValue::Bool(*b),
        }
    }
}

/// A lexical token: its kind, the span it covers and its value, if any.
#[derive(Debug)]
pub struct Token {
    pub token_type: TokenType,
    pub pos: TextPos,
    pub value: Option<TokenValue>,
}

impl Clone for Token {
    fn clone(&self) -> (r: Self)
        ensures
            r == *self,
    {
        let value = match &self.value {
            Some(v) => Some(v.clone()),
            None => None,
        };
        Token { token_type: self.token_type, pos: self.pos, value }
    }
}

/// The text a token carries, when its value is a name or a string.
pub open spec fn token_text(t: Token) -> Option<Seq<char>> {
    match t.value {
        Some(TokenValue::String(s)) => Some(s@),
        _ => None,
    }
}

impl Token {
    pub fn value_string(&self) -> (r: Option<&String>)
        ensures
            match r {
                Some(s) => token_text(*self) == Some(s@),
                None => token_text(*self) is None,
            },
    {
        match &self.value {
            Some(TokenValue::String(s)) => Some(s),
            _ => None,
        }
    }

    pub fn get_loc(&self, file: &FileInfo) -> (r: TextLoc)
        ensures
            r == crate::utils::spec_get_loc(self.pos, *file),
    {
        self.pos.get_loc(file)
    }
}

/// The token kinds that may stand between an assigned place and its value.
pub open spec fn is_assignment_token(t: TokenType) -> bool {
    t == TokenType::Equal || t == TokenType::PlusEqual || t == TokenType::MinusEqual
        || t == TokenType::MultiplyEqual || t == TokenType::DivideEqual || t
        == TokenType::ModulusEqual
}

/// The assignment token kinds, in a fixed order.
pub open spec fn assignment_token_seq() -> Seq<TokenType> {
    seq![
        TokenType::Equal,
        TokenType::PlusEqual,
        TokenType::MinusEqual,
        TokenType::MultiplyEqual,
        TokenType::DivideEqual,
        TokenType::ModulusEqual,
    ]
}

pub proof fn lemma_assignment_seq(t: TokenType)
    ensures
        assignment_token_seq().contains(t) <==> is_assignment_token(t),
{
    let s = assignment_token_seq();
    if s.contains(t) {
        let i = choose|i: int| 0 <= i < s.len() && s[i] == t;
        assert(i == 0 || i == 1 || i == 2 || i == 3 || i == 4 || i == 5);
    }
    if is_assignment_token(t) {
        if t == TokenType::Equal { assert(s[0] == t); }
        if t == TokenType::PlusEqual { assert(s[1] == t); }
        if t == TokenType::MinusEqual { assert(s[2] == t); }
        if t == TokenType::MultiplyEqual { assert(s[3] == t); }
        if t == TokenType::DivideEqual { assert(s[4] == t); }
        if t == TokenType::ModulusEqual { assert(s[5] == t); }
    }
}

/// The assignment token kinds: `=`, `+=`, `-=`, `*=`, `/=`, `%=`.
pub fn assignment_tokens() -> (r: Vec<TokenType>)
    ensures
        r@ == assignment_token_seq(),
{
    let r = vec![
        TokenType::Equal,
        TokenType::PlusEqual,
        TokenType::MinusEqual,
        TokenType::MultiplyEqual,
        TokenType::DivideEqual,
        TokenType::ModulusEqual,
    ];
    assert(r@ =~= assignment_token_seq());
    r
}

/// Whether a token kind is an assignment.
pub fn is_assignment_type(t: TokenType) -> (r: bool)
    ensures
        r == is_assignment_token(t),
{
    match t {
        TokenType::Equal | TokenType::PlusEqual | TokenType::MinusEqual | TokenType::MultiplyEqual
        | TokenType::DivideEqual | TokenType::ModulusEqual => true,
        _ => false,
    }
}

/// How a punctuation token kind is written in the source: its one or two
/// characters; `None` for names, literals, keywords and the end of file.
pub open spec fn punct_spelling(t: TokenType) -> Option<Seq<char>> {
    match t {
        TokenType::OpenParen => Some(seq!['(']),
        TokenType::CloseParen => Some(seq![')']),
        TokenType::OpenBrace => Some(seq!['{']),
        TokenType::CloseBrace => Some(seq!['}']),
        TokenType::OpenBracket => Some(seq!['[']),
        TokenType::CloseBracket => Some(seq![']']),
        TokenType::Comma => Some(seq![',']),
        TokenType::Dot => Some(seq!['.']),
        TokenType::Colon => Some(seq![':']),
        TokenType::SemiColon => Some(seq![';']),
        TokenType::Question => Some(seq!['?']),
        TokenType::ThinArrow => Some(seq!['-', '>']),
        TokenType::ThickArrow => Some(seq!['=', '>']),
        TokenType::Pipe => Some(seq!['|']),
        TokenType::PipePipe => Some(seq!['|', '|']),
        TokenType::AndAnd => Some(seq!['&', '&']),
        TokenType::Bang => Some(seq!['!']),
        TokenType::BangEqual => Some(seq!['!', '=']),
        TokenType::Equal => Some(seq!['=']),
        TokenType::EqualEqual => Some(seq!['=', '=']),
        TokenType::GreaterThan => Some(seq!['>']),
        TokenType::GreaterEqual => Some(seq!['>', '=']),
        TokenType::LessThan => Some(seq!['<']),
        TokenType::LessEqual => Some(seq!['<', '=']),
        TokenType::Plus => Some(seq!['+']),
        TokenType::Minus => Some(seq!['-']),
        TokenType::Multiply => Some(seq!['*']),
        TokenType::Divide => Some(seq!['/']),
        TokenType::Modulus => Some(seq!['%']),
        TokenType::PlusEqual => Some(seq!['+', '=']),
        TokenType::MinusEqual => Some(seq!['-', '=']),
        TokenType::MultiplyEqual => Some(seq!['*', '=']),
        TokenType::DivideEqual => Some(seq!['/', '=']),
        TokenType::ModulusEqual => Some(seq!['%', '=']),
        _ => None,
    }
}

/// How a keyword token kind is written in the source; `None` for the other kinds.
pub open spec fn keyword_spelling(t: TokenType) -> Option<Seq<char>> {
    match t {
        TokenType::As => Some("as"@),
        TokenType::Break => Some("break"@),
        TokenType::Const => Some("const"@),
        TokenType::Continue => Some("continue"@),
        TokenType::Else => Some("else"@),
        TokenType::False => Some("false"@),
        TokenType::Fn => Some("fn"@),
        TokenType::FnType => Some("Fn"@),
        TokenType::For => Some("for"@),
        TokenType::If => Some("if"@),
        TokenType::In => Some("in"@),
        TokenType::Let => Some("let"@),
        TokenType::Return => Some("return"@),
        TokenType::Pub => Some("pub"@),
        TokenType::SelfVal => Some("self"@),
        TokenType::Struct => Some("struct"@),
        TokenType::True => Some("true"@),
        TokenType::Use => Some("use"@),
        TokenType::While => Some("while"@),
        TokenType::Mut => Some("mut"@),
        TokenType::Null => Some("null"@),
        _ => None,
    }
}

/// Distinct keywords are written differently.
pub proof fn lemma_keyword_spelling_injective(a: TokenType, b: TokenType)
    ensures
        keyword_spelling(a) is Some && keyword_spelling(a) == keyword_spelling(b) ==> a == b,
{
    reveal_strlit("as");
    reveal_strlit("break");
    reveal_strlit("const");
    reveal_strlit("continue");
    reveal_strlit("else");
    reveal_strlit("false");
    reveal_strlit("fn");
    reveal_strlit("Fn");
    reveal_strlit("for");
    reveal_strlit("if");
    reveal_strlit("in");
    reveal_strlit("let");
    reveal_strlit("return");
    reveal_strlit("pub");
    reveal_strlit("self");
    reveal_strlit("struct");
    reveal_strlit("true");
    reveal_strlit("use");
    reveal_strlit("while");
    reveal_strlit("mut");
    reveal_strlit("null");
    if keyword_spelling(a) is Some && keyword_spelling(a) == keyword_spelling(b) {
        let sa = keyword_spelling(a)->0;
        let sb = keyword_spelling(b)->0;
        assert(sa.len() == sb.len());
        if sa.len() > 0 {
            assert(sa[0] == sb[0]);
        }
        if sa.len() > 1 {
            assert(sa[1] == sb[1]);
        }
        if sa.len() > 2 {
            assert(sa[2] == sb[2]);
        }
        if sa.len() > 3 {
            assert(sa[3] == sb[3]);
        }
        if sa.len() > 4 {
            assert(sa[4] == sb[4]);
        }
        if sa.len() > 5 {
            assert(sa[5] == sb[5]);
        }
        if sa.len() > 6 {
            assert(sa[6] == sb[6]);
        }
        if sa.len() > 7 {
            assert(sa[7] == sb[7]);
        }
    }
}

/// Distinct punctuation token kinds are written differently.
pub proof fn lemma_punct_spelling_injective(a: TokenType, b: TokenType)
    ensures
        punct_spelling(a) is Some && punct_spelling(a) == punct_spelling(b) ==> a == b,
{
    if punct_spelling(a) is Some && punct_spelling(a) == punct_spelling(b) {
        let sa = punct_spelling(a)->0;
        assert(sa.len() >= 1);
        assert(sa[0] == punct_spelling(b)->0[0]);
        if sa.len() == 2 {
            assert(sa[1] == punct_spelling(b)->0[1]);
        }
    }
}

/// The name of a token kind, as its variant is written.
pub open spec fn token_type_name(t: TokenType) -> Seq<char> {
    match t {
        TokenType::Identifier => "Identifier"@,
        TokenType::IntegerLiteral => "IntegerLiteral"@,
        TokenType::FloatLiteral => "FloatLiteral"@,
        TokenType::StringLiteral => "StringLiteral"@,
        TokenType::As => "As"@,
        TokenType::Break => "Break"@,
        TokenType::Const => "Const"@,
        TokenType::Continue => "Continue"@,
        TokenType::Else => "Else"@,
        TokenType::False => "False"@,
        TokenType::Fn => "Fn"@,
        TokenType::FnType => "FnType"@,
        TokenType::For => "For"@,
        TokenType::If => "If"@,
        TokenType::In => "In"@,
        TokenType::Let => "Let"@,
        TokenType::Return => "Return"@,
        TokenType::Pub => "Pub"@,
        TokenType::SelfVal => "SelfVal"@,
        TokenType::Struct => "Struct"@,
        TokenType::True => "True"@,
        TokenType::Use => "Use"@,
        TokenType::While => "While"@,
        TokenType::Mut => "Mut"@,
        TokenType::Null => "Null"@,
        TokenType::OpenParen => "OpenParen"@,
        TokenType::CloseParen => "CloseParen"@,
        TokenType::OpenBrace => "OpenBrace"@,
        TokenType::CloseBrace => "CloseBrace"@,
        TokenType::OpenBracket => "OpenBracket"@,
        TokenType::CloseBracket => "CloseBracket"@,
        TokenType::Comma => "Comma"@,
        TokenType::Dot => "Dot"@,
        TokenType::Colon => "Colon"@,
        TokenType::SemiColon => "SemiColon"@,
        TokenType::Question => "Question"@,
        TokenType::ThinArrow => "ThinArrow"@,
        TokenType::ThickArrow => "ThickArrow"@,
        TokenType::Pipe => "Pipe"@,
        TokenType::PipePipe => "PipePipe"@,
        TokenType::AndAnd => "AndAnd"@,
        TokenType::Bang => "Bang"@,
        TokenType::BangEqual => "BangEqual"@,
        TokenType::Equal => "Equal"@,
        TokenType::EqualEqual => "EqualEqual"@,
        TokenType::GreaterThan => "GreaterThan"@,
        TokenType::GreaterEqual => "GreaterEqual"@,
        TokenType::LessThan => "LessThan"@,
        TokenType::LessEqual => "LessEqual"@,
        TokenType::Plus => "Plus"@,
        TokenType::Minus => "Minus"@,
        TokenType::Multiply => "Multiply"@,
        TokenType::Divide => "Divide"@,
        TokenType::Modulus => "Modulus"@,
        TokenType::PlusEqual => "PlusEqual"@,
        TokenType::MinusEqual => "MinusEqual"@,
        TokenType::MultiplyEqual => "MultiplyEqual"@,
        TokenType::DivideEqual => "DivideEqual"@,
        TokenType::ModulusEqual => "ModulusEqual"@,
        TokenType::EOF => "EOF"@,
    }
}

impl TokenType {
    /// The name of this token kind, as its variant is written.
    pub fn name(&self) -> (r: &'static str)
        ensures
            r@ == token_type_name(*self),
    {
        match self {
            TokenType::Identifier => "Identifier",
            TokenType::IntegerLiteral => "IntegerLiteral",
            TokenType::FloatLiteral => "FloatLiteral",
            TokenType::StringLiteral => "StringLiteral",
            TokenType::As => "As",
            TokenType::Break => "Break",
            TokenType::Const => "Const",
            TokenType::Continue => "Continue",
            TokenType::Else => "Else",
            TokenType::False => "False",
            TokenType::Fn => "Fn",
            TokenType::FnType => "FnType",
            TokenType::For => "For",
            TokenType::If => "If",
            TokenType::In => "In",
            TokenType::Let => "Let",
            TokenType::Return => "Return",
            TokenType::Pub => "Pub",
            TokenType::SelfVal => "SelfVal",
            TokenType::Struct => "Struct",
            TokenType::True => "True",
            TokenType::Use => "Use",
            TokenType::While => "While",
            TokenType::Mut => "Mut",
            TokenType::Null => "Null",
            TokenType::OpenParen => "OpenParen",
            TokenType::CloseParen => "CloseParen",
            TokenType::OpenBrace => "OpenBrace",
            TokenType::CloseBrace => "CloseBrace",
            TokenType::OpenBracket => "OpenBracket",
            TokenType::CloseBracket => "CloseBracket",
            TokenType::Comma => "Comma",
            TokenType::Dot => "Dot",
            TokenType::Colon => "Colon",
            TokenType::SemiColon => "SemiColon",
            TokenType::Question => "Question",
            TokenType::ThinArrow => "ThinArrow",
            TokenType::ThickArrow => "ThickArrow",
            TokenType::Pipe => "Pipe",
            TokenType::PipePipe => "PipePipe",
            TokenType::AndAnd => "AndAnd",
            TokenType::Bang => "Bang",
            TokenType::BangEqual => "BangEqual",
            TokenType::Equal => "Equal",
            TokenType::EqualEqual => "EqualEqual",
            TokenType::GreaterThan => "GreaterThan",
            TokenType::GreaterEqual => "GreaterEqual",
            TokenType::LessThan => "LessThan",
            TokenType::LessEqual => "LessEqual",
            TokenType::Plus => "Plus",
            TokenType::Minus => "Minus",
            TokenType::Multiply => "Multiply",
            TokenType::Divide => "Divide",
            TokenType::Modulus => "Modulus",
            TokenType::PlusEqual => "PlusEqual",
            TokenType::MinusEqual => "MinusEqual",
            TokenType::MultiplyEqual => "MultiplyEqual",
            TokenType::DivideEqual => "DivideEqual",
            TokenType::ModulusEqual => "ModulusEqual",
            TokenType::EOF => "EOF",
        }
    }
}

} // verus!
