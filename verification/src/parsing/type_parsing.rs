use vstd::prelude::*;
use crate::lexing::token::TokenType;
use super::ast::TypeName;
use super::syntax::{kept, tokens_valued, type_toks, types_toks, type_wf, types_wf, lemma_kept_split, lemma_kept_one, lemma_kept_empty};
use super::token_reader::{TokenReader, type_at};
use crate::lexing::token::Token;
use super::{ParserError, ParserResult};

verus! {

/// What a parse function promises of the reader and of a parsed type: the reader
/// only moves forward over the same tokens; nothing is consumed when nothing is
/// parsed; a parsed type consumed at least one token, records every token it
/// consumed except separating commas, and is well formed.
pub open spec fn type_parsed(old_r: TokenReader, new_r: TokenReader, r: ParserResult<Option<TypeName>>) -> bool {
    &&& old_r.same_or_further(&new_r)
    &&& r matches Ok(None) ==> new_r == old_r
    &&& r matches Ok(Some(t)) ==> {
        &&& new_r.pos() > old_r.pos()
        &&& type_toks(t) == kept(old_r.toks().subrange(old_r.pos(), new_r.pos()))
        &&& type_wf(t)
    }
}

/// Reading a type name at `pos` of `toks`: `Some(Some(end))` when the tokens up
/// to `end` spell one (`Name`, `?T`, `[]T` or `Fn(A, B,) -> R`, the comma after
/// the last parameter and the return type optional; an arrow after the closing
/// parenthesis always starts a return type); `Some(None)` when the token at
/// `pos` starts no type name; `None` when one is started but broken.
pub open spec fn scan_type(toks: Seq<Token>, pos: int) -> Option<Option<int>>
    decreases toks.len() - pos, 2nat,
{
    if pos < 0 || pos >= toks.len() {
        Some(None)
    } else {
        match toks[pos].token_type {
            TokenType::Identifier => Some(Some(pos + 1)),
            TokenType::Question => match scan_type(toks, pos + 1) {
                Some(Some(e)) => Some(Some(e)),
                _ => None,
            },
            TokenType::OpenBracket => if type_at(toks, pos + 1) == Some(TokenType::CloseBracket) {
                match scan_type(toks, pos + 2) {
                    Some(Some(e)) => Some(Some(e)),
                    _ => None,
                }
            } else {
                None
            },
            TokenType::FnType => match scan_fn_type(toks, pos) {
                Some(e) => Some(Some(e)),
                None => None,
            },
            _ => Some(None),
        }
    }
}

/// Reading a function type at `pos`: where it ends, or `None` when it is broken.
pub open spec fn scan_fn_type(toks: Seq<Token>, pos: int) -> Option<int>
    decreases toks.len() - pos, 1nat,
{
    if 0 <= pos && pos + 1 < toks.len() && toks[pos].token_type == TokenType::FnType && toks[pos + 1].token_type
        == TokenType::OpenParen {
        match scan_params(toks, pos + 2) {
            Some(q) => if pos + 2 <= q < toks.len() {
                if type_at(toks, q + 1) == Some(TokenType::ThinArrow) {
                    match scan_type(toks, q + 2) {
                        Some(Some(e)) => Some(e),
                        _ => None,
                    }
                } else {
                    Some(q + 1)
                }
            } else {
                None
            },
            None => None,
        }
    } else {
        None
    }
}

/// Reading the parameter types of a function type from `p`: the place of the
/// closing parenthesis, or `None` when the list is broken.
pub open spec fn scan_params(toks: Seq<Token>, p: int) -> Option<int>
    decreases toks.len() - p, 3nat,
{
    if p < 0 || p > toks.len() {
        None
    } else if type_at(toks, p) == Some(TokenType::CloseParen) {
        Some(p)
    } else {
        match scan_type(toks, p) {
            Some(Some(e)) => if p < e <= toks.len() {
                if type_at(toks, e) == Some(TokenType::CloseParen) {
                    Some(e)
                } else if type_at(toks, e) == Some(TokenType::Comma) {
                    scan_params(toks, e + 1)
                } else {
                    None
                }
            } else {
                None
            },
            _ => None,
        }
    }
}

/// The token at `i` of `toks`, if there is one.
pub open spec fn token_at(toks: Seq<Token>, i: int) -> Option<Token> {
    if 0 <= i < toks.len() {
        Some(toks[i])
    } else {
        None
    }
}

/// The error reported for a type name started at `pos` and broken
/// (`scan_type` gives `None` there): the first place the reading fails.
pub open spec fn type_error(toks: Seq<Token>, pos: int) -> ParserError
    decreases toks.len() - pos, 2nat,
{
    if pos < 0 || pos >= toks.len() {
        ParserError::ExpectedType(None)
    } else {
        match toks[pos].token_type {
            TokenType::Question => inner_type_error(toks, pos + 1),
            TokenType::OpenBracket => if type_at(toks, pos + 1) == Some(TokenType::CloseBracket) {
                inner_type_error(toks, pos + 2)
            } else {
                ParserError::ExpectedToken(TokenType::CloseBracket, token_at(toks, pos + 1))
            },
            TokenType::FnType => fn_type_error(toks, pos),
            _ => ParserError::ExpectedType(token_at(toks, pos)),
        }
    }
}

/// The error reported where a type name must follow at `pos`: `ExpectedType`
/// with the token there when none starts, else the error of the broken one.
pub open spec fn inner_type_error(toks: Seq<Token>, pos: int) -> ParserError
    decreases toks.len() - pos, 3nat,
{
    if pos < 0 || pos >= toks.len() {
        ParserError::ExpectedType(None)
    } else if scan_type(toks, pos) == Some(None::<int>) {
        ParserError::ExpectedType(token_at(toks, pos))
    } else {
        type_error(toks, pos)
    }
}

/// The error reported for a broken function type at `pos`.
pub open spec fn fn_type_error(toks: Seq<Token>, pos: int) -> ParserError
    decreases toks.len() - pos, 1nat,
{
    if pos < 0 || pos >= toks.len() {
        ParserError::ExpectedType(None)
    } else if type_at(toks, pos + 1) != Some(TokenType::OpenParen) {
        ParserError::ExpectedToken(TokenType::OpenParen, token_at(toks, pos + 1))
    } else {
        match scan_params(toks, pos + 2) {
            None => params_error(toks, pos + 2),
            Some(q) => if pos + 2 <= q < toks.len() && type_at(toks, q + 1) == Some(TokenType::ThinArrow) {
                inner_type_error(toks, q + 2)
            } else {
                ParserError::ExpectedType(None)
            },
        }
    }
}

/// The error reported for a broken list of parameter types from `p`.
pub open spec fn params_error(toks: Seq<Token>, p: int) -> ParserError
    decreases toks.len() - p, 4nat,
{
    if p < 0 || p >= toks.len() {
        ParserError::ExpectedType(None)
    } else if type_at(toks, p) == Some(TokenType::CloseParen) {
        ParserError::ExpectedType(None)
    } else {
        match scan_type(toks, p) {
            None => type_error(toks, p),
            Some(None) => ParserError::ExpectedType(token_at(toks, p)),
            Some(Some(e)) => if p < e <= toks.len() {
                if type_at(toks, e) == Some(TokenType::Comma) {
                    params_error(toks, e + 1)
                } else {
                    ParserError::ExpectedToken(TokenType::CloseParen, token_at(toks, e))
                }
            } else {
                ParserError::ExpectedType(None)
            },
        }
    }
}

/// The outcome of a parse of a type name matches the reading of the tokens.
pub open spec fn type_scanned(old_r: TokenReader, new_r: TokenReader, r: ParserResult<Option<TypeName>>) -> bool {
    match r {
        Ok(None) => scan_type(old_r.toks(), old_r.pos()) == Some(None::<int>),
        Ok(Some(_)) => scan_type(old_r.toks(), old_r.pos()) == Some(Some(new_r.pos())),
        Err(_) => scan_type(old_r.toks(), old_r.pos()) is None,
    }
}

/// Parses a type name from a copy of the reader; when one is there, gives it and
/// the number of tokens it covers. The reader itself does not move.
pub fn peek_type(reader: &TokenReader) -> (r: Option<(TypeName, usize)>)
    requires
        tokens_valued(reader.toks()),
    ensures
        0 <= reader.pos() <= reader.toks().len(),
        r matches Some((t, n)) ==> n > 0 && reader.pos() + n <= reader.toks().len() && type_toks(t)
            == kept(reader.toks().subrange(reader.pos(), reader.pos() + n)) && type_wf(t),
        match r {
            Some((_, n)) => scan_type(reader.toks(), reader.pos()) == Some(Some(reader.pos() + n)),
            None => !(scan_type(reader.toks(), reader.pos()) matches Some(Some(_))),
        },
{
    let start = reader.index();
    let mut type_reader = match TokenReader::new(reader.tokens(), Some(start)) {
        Some(r) => r,
        None => return None,
    };
    match parse_type_name(&mut type_reader) {
        Ok(Some(t)) => {
            let end = type_reader.index();
            Some((t, end - start))
        },
        _ => None,
    }
}

/// The number of tokens of the type name at the reader, if one is there.
pub fn is_type(reader: &TokenReader) -> (r: Option<usize>)
    requires
        tokens_valued(reader.toks()),
    ensures
        r matches Some(n) ==> n > 0 && reader.pos() + n <= reader.toks().len() && exists|t: TypeName|
            type_toks(t) == kept(reader.toks().subrange(reader.pos(), reader.pos() + n)) && type_wf(t),
        match r {
            Some(n) => scan_type(reader.toks(), reader.pos()) == Some(Some(reader.pos() + n)),
            None => !(scan_type(reader.toks(), reader.pos()) matches Some(Some(_))),
        },
{
    match peek_type(reader) {
        Some((_, n)) => Some(n),
        None => None,
    }
}

/// Like `is_type`, but only when `f` accepts the type.
pub fn is_type_and<F: Fn(&TypeName) -> bool>(reader: &TokenReader, f: F) -> (r: Option<usize>)
    requires
        tokens_valued(reader.toks()),
        forall|t: &TypeName| call_requires(f, (t,)),
    ensures
        r matches Some(n) ==> n > 0 && reader.pos() + n <= reader.toks().len() && exists|
            t: TypeName,
        |
            type_toks(t) == kept(reader.toks().subrange(reader.pos(), reader.pos() + n)) && call_ensures(
                f,
                (&t,),
                true,
            ),
        r matches Some(n) ==> scan_type(reader.toks(), reader.pos()) == Some(Some(reader.pos() + n)),
        r is None ==> match scan_type(reader.toks(), reader.pos()) {
            Some(Some(e)) => exists|t: TypeName|
                #[trigger] type_toks(t) == kept(reader.toks().subrange(reader.pos(), e)) && type_wf(t) && call_ensures(
                    f,
                    (&t,),
                    false,
                ),
            _ => true,
        },
{
    match peek_type(reader) {
        Some((t, n)) => {
            if f(&t) {
                Some(n)
            } else {
                None
            }
        },
        None => None,
    }
}

/// A type name, or an error when there is none.
pub fn expect_type_name(reader: &mut TokenReader) -> (r: ParserResult<TypeName>)
    requires
        tokens_valued(old(reader).toks()),
    ensures
        type_parsed(*old(reader), *final(reader), match r {
            Ok(t) => Ok(Some(t)),
            Err(e) => Err(e),
        }),
        match r {
            Ok(_) => scan_type(old(reader).toks(), old(reader).pos()) == Some(Some(final(reader).pos())),
            Err(_) => !(scan_type(old(reader).toks(), old(reader).pos()) matches Some(Some(_))),
        },
        scan_type(old(reader).toks(), old(reader).pos()) == Some(None::<int>) ==> r == Err::<TypeName, ParserError>(
            ParserError::ExpectedType(old(reader).cur_tok()),
        ) && *final(reader) == *old(reader),
        r matches Err(e) ==> e == inner_type_error(old(reader).toks(), old(reader).pos()),
    decreases old(reader).remaining(), 2nat,
{
    match parse_type_name(reader)? {
        Some(t) => Ok(t),
        None => Err(ParserError::ExpectedType(reader.current())),
    }
}

/// A type name: `Name`, `?T`, `[]T` or `Fn(A, B) -> R`; `None` when the current
/// token starts none of them.
pub fn parse_type_name(reader: &mut TokenReader) -> (r: ParserResult<Option<TypeName>>)
    requires
        tokens_valued(old(reader).toks()),
    ensures
        type_parsed(*old(reader), *final(reader), r),
        type_scanned(*old(reader), *final(reader), r),
        r matches Err(e) ==> e == type_error(old(reader).toks(), old(reader).pos()),
    decreases old(reader).remaining(), 1nat,
{
    let ghost start = reader.pos();
    let ghost toks = reader.toks();
    match reader.current_type() {
        Some(TokenType::Identifier) => {
            let identifier = reader.advance().unwrap();
            proof {
                lemma_kept_one(toks, start);
                assert(crate::parsing::syntax::token_valued(toks[start]));
            }
            Ok(Some(TypeName::Identifier(identifier)))
        },
        Some(TokenType::Question) => {
            let question_mark = reader.advance().unwrap();
            let ghost mid = reader.pos();
            let inner = expect_type_name(reader)?;
            proof {
                lemma_kept_one(toks, start);
                lemma_kept_split(toks, start, mid, reader.pos());
            }
            Ok(Some(TypeName::Optional { question_mark, type_ref: Box::new(inner) }))
        },
        Some(TokenType::OpenBracket) => {
            let open_bracket = reader.advance().unwrap();
            let close_bracket = reader.expect(TokenType::CloseBracket)?;
            let ghost mid = reader.pos();
            let inner = match parse_type_name(reader)? {
                Some(t) => Box::new(t),
                None => return Err(ParserError::ExpectedType(reader.current())),
            };
            proof {
                lemma_kept_one(toks, start);
                lemma_kept_one(toks, start + 1);
                lemma_kept_split(toks, start, start + 1, mid);
                lemma_kept_split(toks, start, mid, reader.pos());
                assert(seq![open_bracket] + seq![close_bracket] =~= seq![open_bracket, close_bracket]);
            }
            Ok(Some(TypeName::Array { open_bracket, close_bracket, type_ref: inner }))
        },
        Some(TokenType::FnType) => {
            let t = parse_fn_type(reader)?;
            Ok(Some(t))
        },
        _ => Ok(None),
    }
}

/// `Fn(A, B, ...) -> R`, with an optional trailing comma and an optional return type.
fn parse_fn_type(reader: &mut TokenReader) -> (r: ParserResult<TypeName>)
    requires
        tokens_valued(old(reader).toks()),
        old(reader).cur_type() == Some(TokenType::FnType),
    ensures
        type_parsed(*old(reader), *final(reader), match r {
            Ok(t) => Ok(Some(t)),
            Err(e) => Err(e),
        }),
        match r {
            Ok(_) => scan_fn_type(old(reader).toks(), old(reader).pos()) == Some(final(reader).pos()),
            Err(_) => scan_fn_type(old(reader).toks(), old(reader).pos()) is None,
        },
        r matches Err(e) ==> e == fn_type_error(old(reader).toks(), old(reader).pos()),
    decreases old(reader).remaining(), 0nat,
{
    let ghost start = reader.pos();
    let ghost toks = reader.toks();
    let fn_type_tok = reader.expect(TokenType::FnType)?;
    let open_paren = reader.expect(TokenType::OpenParen)?;
    let ghost list_start = reader.pos();
    proof {
        lemma_kept_one(toks, start);
        lemma_kept_one(toks, start + 1);
        lemma_kept_split(toks, start, start + 1, list_start);
        lemma_kept_empty(toks, list_start);
    }
    let mut parameter_types: Vec<TypeName> = Vec::new();
    while !reader.current_is(&[TokenType::CloseParen])
        invariant
            tokens_valued(toks),
            reader.toks() == toks,
            old(reader).toks() == toks,
            old(reader).pos() == start,
            0 <= start,
            list_start == start + 2,
            list_start <= reader.pos() <= toks.len(),
            types_toks(parameter_types@) == kept(toks.subrange(list_start, reader.pos())),
            types_wf(parameter_types@),
            scan_params(toks, list_start) == scan_params(toks, reader.pos()),
            scan_params(toks, list_start) is None ==> params_error(toks, list_start) == params_error(toks, reader.pos()),
            start < toks.len(),
            type_at(toks, start + 1) == Some(TokenType::OpenParen),
        decreases reader.remaining(),
    {
        let ghost before = reader.pos();
        let parsed = parse_type_name(reader);
        proof {
            if !(parsed matches Ok(Some(_))) {
                assert(scan_params(toks, before) is None);
                assert(params_error(toks, before) == match parsed {
                    Err(e) => e,
                    _ => ParserError::ExpectedType(token_at(toks, before)),
                });
                assert(fn_type_error(toks, start) == params_error(toks, list_start));
            }
        }
        let t = match parsed? {
            Some(t) => t,
            None => return Err(ParserError::ExpectedType(reader.current())),
        };
        let ghost after_type = reader.pos();
        proof {
            lemma_kept_split(toks, list_start, before, after_type);
            assert(types_toks(parameter_types@.push(t)) == types_toks(parameter_types@) + type_toks(t)) by {
                assert(parameter_types@.push(t).drop_last() =~= parameter_types@);
            }
            assert(types_wf(parameter_types@.push(t))) by {
                assert(parameter_types@.push(t).drop_last() =~= parameter_types@);
            }
        }
        parameter_types.push(t);
        if !reader.current_is(&[TokenType::CloseParen, TokenType::Comma]) {
            proof {
                assert(scan_params(toks, before) is None);
                assert(params_error(toks, before) == ParserError::ExpectedToken(TokenType::CloseParen, token_at(toks, after_type)));
                assert(fn_type_error(toks, start) == params_error(toks, list_start));
            }
            return Err(ParserError::ExpectedToken(TokenType::CloseParen, reader.current()));
        }
        let comma = reader.check(TokenType::Comma);
        proof {
            if comma is Some {
                lemma_kept_one(toks, after_type);
                lemma_kept_split(toks, list_start, after_type, reader.pos());
            }
        }
    }
    let ghost list_end = reader.pos();
    let close_paren = reader.expect(TokenType::CloseParen)?;
    let ghost after_close = reader.pos();
    let return_type = match reader.check(TokenType::ThinArrow) {
        Some(arrow) => {
            let ghost mid = reader.pos();
            let t = expect_type_name(reader)?;
            proof {
                lemma_kept_one(toks, after_close);
                lemma_kept_split(toks, after_close, mid, reader.pos());
            }
            Some((arrow, Box::new(t)))
        },
        None => {
            proof { lemma_kept_empty(toks, after_close); }
            None
        },
    };
    proof {
        lemma_kept_one(toks, list_end);
        lemma_kept_split(toks, start, list_start, list_end);
        lemma_kept_split(toks, start, list_end, after_close);
        lemma_kept_split(toks, start, after_close, reader.pos());
        assert(seq![fn_type_tok] + seq![open_paren] =~= seq![fn_type_tok, open_paren]);
    }
    Ok(TypeName::Function { fn_type_tok, open_paren, parameter_types, close_paren, return_type })
}

} // verus!
