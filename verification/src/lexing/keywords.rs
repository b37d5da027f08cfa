use vstd::prelude::*;
use vstd::string::StrSliceExecFns;
use super::token::TokenType;

verus! {

pub const KW_AS: &'static str = "as";
pub const KW_BREAK: &'static str = "break";
pub const KW_CONST: &'static str = "const";
pub const KW_CONTINUE: &'static str = "continue";
pub const KW_ELSE: &'static str = "else";
pub const KW_FALSE: &'static str = "false";
pub const KW_FN: &'static str = "fn";
pub const KW_FN_TYPE: &'static str = "Fn";
pub const KW_FOR: &'static str = "for";
pub const KW_IF: &'static str = "if";
pub const KW_IN: &'static str = "in";
pub const KW_LET: &'static str = "let";
pub const KW_RETURN: &'static str = "return";
pub const KW_PUB: &'static str = "pub";
pub const KW_SELF: &'static str = "self";
pub const KW_STRUCT: &'static str = "struct";
pub const KW_TRUE: &'static str = "true";
pub const KW_USE: &'static str = "use";
pub const KW_WHILE: &'static str = "while";

/// The keyword table: the token kind of each reserved word.
pub open spec fn spec_keyword(word: Seq<char>) -> Option<TokenType> {
    if word == KW_AS@ {
        Some(TokenType::As)
    } else if word == KW_BREAK@ {
        Some(TokenType::Break)
    } else if word == KW_CONST@ {
        Some(TokenType::Const)
    } else if word == KW_ELSE@ {
        Some(TokenType::Else)
    } else if word == KW_FALSE@ {
        Some(TokenType::False)
    } else if word == KW_FN@ {
        Some(TokenType::Fn)
    } else if word == KW_FN_TYPE@ {
        Some(TokenType::FnType)
    } else if word == KW_FOR@ {
        Some(TokenType::For)
    } else if word == KW_IF@ {
        Some(TokenType::If)
    } else if word == KW_IN@ {
        Some(TokenType::In)
    } else if word == KW_LET@ {
        Some(TokenType::Let)
    } else if word == KW_RETURN@ {
        Some(TokenType::Return)
    } else if word == KW_PUB@ {
        Some(TokenType::Pub)
    } else if word == KW_STRUCT@ {
        Some(TokenType::Struct)
    } else if word == KW_TRUE@ {
        Some(TokenType::True)
    } else if word == KW_USE@ {
        Some(TokenType::Use)
    } else if word == KW_WHILE@ {
        Some(TokenType::While)
    } else {
        None
    }
}

/// Whether the characters `a` spell exactly the string `b`.
pub fn chars_eq_str(a: &Vec<char>, b: &str) -> (r: bool)
    ensures
        r == (a@ == b@),
{
    let n = b.unicode_len();
    if a.len() != n {
        return false;
    }
    let mut i: usize = 0;
    while i < n
        invariant
            n == b@.len(),
            a@.len() == n,
            i <= n,
            forall|j: int| 0 <= j < i ==> a@[j] == b@[j],
        decreases n - i,
    {
        if a[i] != b.get_char(i) {
            return false;
        }
        i += 1;
    }
    assert(a@ =~= b@);
    true
}

/// Looks a word up in the keyword table.
pub fn keyword_type(word: &Vec<char>) -> (r: Option<TokenType>)
    ensures
        r == spec_keyword(word@),
{
    if chars_eq_str(word, KW_AS) {
        Some(TokenType::As)
    } else if chars_eq_str(word, KW_BREAK) {
        Some(TokenType::Break)
    } else if chars_eq_str(word, KW_CONST) {
        Some(TokenType::Const)
    } else if chars_eq_str(word, KW_ELSE) {
        Some(TokenType::Else)
    } else if chars_eq_str(word, KW_FALSE) {
        Some(TokenType::False)
    } else if chars_eq_str(word, KW_FN) {
        Some(TokenType::Fn)
    } else if chars_eq_str(word, KW_FN_TYPE) {
        Some(TokenType::FnType)
    } else if chars_eq_str(word, KW_FOR) {
        Some(TokenType::For)
    } else if chars_eq_str(word, KW_IF) {
        Some(TokenType::If)
    } else if chars_eq_str(word, KW_IN) {
        Some(TokenType::In)
    } else if chars_eq_str(word, KW_LET) {
        Some(TokenType::Let)
    } else if chars_eq_str(word, KW_RETURN) {
        Some(TokenType::Return)
    } else if chars_eq_str(word, KW_PUB) {
        Some(TokenType::Pub)
    } else if chars_eq_str(word, KW_STRUCT) {
        Some(TokenType::Struct)
    } else if chars_eq_str(word, KW_TRUE) {
        Some(TokenType::True)
    } else if chars_eq_str(word, KW_USE) {
        Some(TokenType::Use)
    } else if chars_eq_str(word, KW_WHILE) {
        Some(TokenType::While)
    } else {
        None
    }
}

} // verus!
