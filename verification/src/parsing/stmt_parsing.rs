use vstd::prelude::*;
use crate::lexing::token::{Token, TokenType, is_assignment_token, is_assignment_type, assignment_tokens, lemma_assignment_seq};
use super::ast::{
    BlockStmt, Statement, IfStmt, ElseBody, ElseBranch, WhileStmt, ForStmt, ReturnStmt,
    ContinueStmt, BreakStmt, LetStmt, AssignStmt, ExpressionStmt, ConstStmt, StructDecl,
    StructDeclMember, FnDecl, FnParam, Declaration, UseStmt,
};
use std::sync::Arc;
use super::syntax::{
    kept, block_toks, block_wf, tokens_valued, token_valued, stmt_toks, stmt_wf, stmts_toks,
    stmts_wf, if_toks, if_wf, expr_toks, type_toks, annotation_toks, opt_expr_toks,
    lemma_kept_join, lemma_kept_empty, lemma_kept_push, lemma_kept_comma, member_toks, members_toks,
    member_wf, members_wf, struct_decl_toks, struct_decl_wf, param_toks, params_toks, param_wf,
    params_wf, fn_decl_toks, fn_decl_wf, decl_toks, decl_wf, opt_tok, opt_init_toks,
};
use super::type_parsing::is_type;
use super::token_reader::{TokenReader, type_at};
use super::type_parsing::expect_type_name;
use super::expr_parsing::{expect_expression, parse_expression, is_expression_and, expr_starts, atom_in, atom_expr_in};
use super::{ParserError, ParserResult};

verus! {

/// The tokens read between two states of a reader, without separating commas.
pub open spec fn consumed(old_r: TokenReader, new_r: TokenReader) -> Seq<Token> {
    kept(old_r.toks().subrange(old_r.pos(), new_r.pos()))
}

/// A statement parsed between two states of a reader: at least one token was
/// read, the statement records every token read except separating commas, and
/// it is well formed.
pub open spec fn stmt_ok(old_r: TokenReader, new_r: TokenReader, s: Statement) -> bool {
    &&& new_r.pos() > old_r.pos()
    &&& stmt_toks(s) == consumed(old_r, new_r)
    &&& stmt_wf(s)
}

/// What a statement parse function promises.
pub open spec fn stmt_parsed(old_r: TokenReader, new_r: TokenReader, r: ParserResult<Option<Statement>>) -> bool {
    &&& old_r.same_or_further(&new_r)
    &&& r matches Ok(None) ==> new_r == old_r
    &&& r matches Ok(Some(s)) ==> stmt_ok(old_r, new_r, s)
}

/// A statement, or an error when there is none.
pub fn expect_statement(reader: &mut TokenReader) -> (r: ParserResult<Statement>)
    requires
        tokens_valued(old(reader).toks()),
    ensures
        old(reader).same_or_further(&*final(reader)),
        r matches Ok(s) ==> stmt_ok(*old(reader), *final(reader), s),
    decreases old(reader).remaining(), 91nat,
{
    match parse_statement(reader)? {
        Some(s) => Ok(s),
        None => Err(ParserError::ExpectedStatement(reader.current())),
    }
}

/// Where the `fn` of a function declaration at `p` stands: after `pub` when
/// one is there.
pub open spec fn fn_kw_at(toks: Seq<Token>, p: int) -> int {
    if type_at(toks, p) == Some(TokenType::Pub) {
        p + 1
    } else {
        p
    }
}

/// The same, for the declaration at the reader.
pub open spec fn fn_kw_pos(rd: TokenReader) -> int {
    fn_kw_at(rd.toks(), rd.pos())
}

/// A statement of one of these forms is at `p`: `{}`, `break;`,
/// `continue;`, `return;`, or `return` with a single literal or name and `;`.
pub open spec fn simple_stmt_in(toks: Seq<Token>, p: int) -> bool {
    ||| type_at(toks, p) == Some(TokenType::OpenBrace) && type_at(toks, p + 1) == Some(TokenType::CloseBrace)
    ||| type_at(toks, p) == Some(TokenType::Break) && type_at(toks, p + 1) == Some(TokenType::SemiColon)
    ||| type_at(toks, p) == Some(TokenType::Continue) && type_at(toks, p + 1) == Some(TokenType::SemiColon)
    ||| type_at(toks, p) == Some(TokenType::Return) && type_at(toks, p + 1) == Some(TokenType::SemiColon)
    ||| type_at(toks, p) == Some(TokenType::Return) && atom_in(toks, p + 1) && type_at(toks, p + 2) == Some(
        TokenType::SemiColon,
    )
}

/// How many tokens that statement takes: three for `return` with a value, else two.
pub open spec fn simple_stmt_len(toks: Seq<Token>, p: int) -> int {
    if type_at(toks, p) == Some(TokenType::Return) && type_at(toks, p + 1) != Some(TokenType::SemiColon) {
        3
    } else {
        2
    }
}

/// From `p` on, the tokens are such statements and then `}`.
pub open spec fn simple_block_from(toks: Seq<Token>, p: int) -> bool
    decreases toks.len() - p,
{
    if p < 0 || p >= toks.len() {
        false
    } else if toks[p].token_type == TokenType::CloseBrace {
        true
    } else {
        simple_stmt_in(toks, p) && simple_block_from(toks, p + simple_stmt_len(toks, p))
    }
}

/// Where the `}` after those statements stands.
pub open spec fn block_close(toks: Seq<Token>, p: int) -> int
    decreases toks.len() - p,
{
    if p < 0 || p >= toks.len() || toks[p].token_type == TokenType::CloseBrace || !simple_stmt_in(toks, p) {
        p
    } else {
        block_close(toks, p + simple_stmt_len(toks, p))
    }
}

/// A block of such statements is at the reader.
pub open spec fn simple_block_at(rd: TokenReader) -> bool {
    rd.cur_type() == Some(TokenType::OpenBrace) && simple_block_from(rd.toks(), rd.pos() + 1)
}

/// A function without parameters or return type, whose body is a block of
/// such statements, is at `p`: `fn name() { ... }`, with `pub` before it or not.
pub open spec fn plain_fn_in(toks: Seq<Token>, p: int) -> bool {
    let q = fn_kw_at(toks, p);
    &&& type_at(toks, q) == Some(TokenType::Fn)
    &&& type_at(toks, q + 1) == Some(TokenType::Identifier)
    &&& type_at(toks, q + 2) == Some(TokenType::OpenParen)
    &&& type_at(toks, q + 3) == Some(TokenType::CloseParen)
    &&& type_at(toks, q + 4) == Some(TokenType::OpenBrace)
    &&& simple_block_from(toks, q + 5)
}

/// Where that function ends: just after the `}` of its body.
pub open spec fn plain_fn_end(toks: Seq<Token>, p: int) -> int {
    block_close(toks, fn_kw_at(toks, p) + 5) + 1
}

/// The same function, at the reader.
pub open spec fn plain_fn_at(rd: TokenReader) -> bool {
    plain_fn_in(rd.toks(), rd.pos())
}

/// From `p` on, the tokens are such functions and then the end of the file.
pub open spec fn plain_fns_from(toks: Seq<Token>, p: int) -> bool
    decreases toks.len() - p,
{
    if p < 0 || p >= toks.len() {
        false
    } else if toks[p].token_type == TokenType::EOF {
        true
    } else if p < plain_fn_end(toks, p) <= toks.len() {
        plain_fn_in(toks, p) && plain_fns_from(toks, plain_fn_end(toks, p))
    } else {
        false
    }
}

/// Any statement: `while`, `for`, `return`, `continue`, `break`, `let`, an
/// assignment, `if`, a block, or an expression followed by `;`, tried in that order.
/// A statement keyword or `{` is at the reader.
pub open spec fn stmt_keyword_starts(rd: TokenReader) -> bool {
    rd.cur_type() matches Some(t) && (t == TokenType::While || t == TokenType::For || t == TokenType::Return || t
        == TokenType::Continue || t == TokenType::Break || t == TokenType::Let || t == TokenType::If || t
        == TokenType::OpenBrace)
}

pub fn parse_statement(reader: &mut TokenReader) -> (r: ParserResult<Option<Statement>>)
    requires
        tokens_valued(old(reader).toks()),
    ensures
        stmt_parsed(*old(reader), *final(reader), r),
        stmt_keyword_starts(*old(reader)) ==> !(r matches Ok(None)),
        !stmt_keyword_starts(*old(reader)) && !expr_starts(*old(reader)) ==> r matches Ok(None),
        simple_stmt_in(old(reader).toks(), old(reader).pos()) ==> (r matches Ok(Some(_)) && final(reader).pos() == old(reader).pos()
            + simple_stmt_len(old(reader).toks(), old(reader).pos())),
    decreases old(reader).remaining(), 90nat,
{
    if let Some(s) = parse_while(reader)? {
        return Ok(Some(Statement::While(s)));
    }
    if let Some(s) = parse_for(reader)? {
        return Ok(Some(Statement::For(s)));
    }
    if let Some(s) = parse_return(reader)? {
        return Ok(Some(Statement::Return(s)));
    }
    if let Some(s) = parse_continue(reader)? {
        return Ok(Some(Statement::Continue(s)));
    }
    if let Some(s) = parse_break(reader)? {
        return Ok(Some(Statement::Break(s)));
    }
    if let Some(s) = parse_let(reader)? {
        return Ok(Some(Statement::Let(s)));
    }
    if let Some(s) = parse_assignment(reader)? {
        return Ok(Some(Statement::Assign(s)));
    }
    if let Some(s) = parse_if(reader)? {
        return Ok(Some(Statement::If(s)));
    }
    if let Some(s) = parse_block_stmt(reader)? {
        return Ok(Some(Statement::BlockStmt(s)));
    }
    if let Some(s) = parse_expression_stmt(reader)? {
        return Ok(Some(Statement::Expression(s)));
    }
    Ok(None)
}

/// A block, or an error when there is none.
pub fn expect_block_stmt(reader: &mut TokenReader) -> (r: ParserResult<BlockStmt>)
    requires
        tokens_valued(old(reader).toks()),
    ensures
        old(reader).same_or_further(&*final(reader)),
        r matches Ok(b) ==> final(reader).pos() > old(reader).pos() && block_toks(b) == consumed(
            *old(reader),
            *final(reader),
        ) && block_wf(b),
        simple_block_at(*old(reader)) ==> (r is Ok && final(reader).pos() == block_close(old(reader).toks(), old(reader).pos() + 1)
            + 1),
    decreases old(reader).remaining(), 81nat,
{
    match parse_block_stmt(reader)? {
        Some(b) => Ok(b),
        None => Err(ParserError::ExpectedBlock(reader.current())),
    }
}

/// `{ statements }`.
pub fn parse_block_stmt(reader: &mut TokenReader) -> (r: ParserResult<Option<BlockStmt>>)
    requires
        tokens_valued(old(reader).toks()),
    ensures
        old(reader).same_or_further(&*final(reader)),
        r matches Ok(None) ==> *final(reader) == *old(reader),
        r matches Ok(None) <==> old(reader).cur_type() != Some(TokenType::OpenBrace),
        r matches Ok(Some(b)) ==> final(reader).pos() > old(reader).pos() && block_toks(b) == kept(
            old(reader).toks().subrange(old(reader).pos(), final(reader).pos()),
        ) && block_wf(b),
        simple_block_at(*old(reader)) ==> (r matches Ok(Some(_)) && final(reader).pos() == block_close(
            old(reader).toks(),
            old(reader).pos() + 1,
        ) + 1),
    decreases old(reader).remaining(), 80nat,
{
    let ghost start = reader.pos();
    let ghost toks = reader.toks();
    let open_brace = match reader.check(TokenType::OpenBrace) {
        Some(t) => t,
        None => return Ok(None),
    };
    let ghost list_start = reader.pos();
    proof {
        lemma_kept_empty(toks, list_start);
    }
    let mut statements: Vec<Statement> = Vec::new();
    loop
        invariant
            tokens_valued(toks),
            reader.toks() == toks,
            old(reader).toks() == toks,
            old(reader).pos() == start,
            0 <= start < list_start <= reader.pos() <= toks.len(),
            list_start == start + 1,
            toks[start] == open_brace,
            open_brace.token_type == TokenType::OpenBrace,
            stmts_toks(statements@) == kept(toks.subrange(list_start, reader.pos())),
            stmts_wf(statements@),
            simple_block_at(*old(reader)) ==> simple_block_from(toks, reader.pos() as int) && block_close(toks, list_start)
                == block_close(toks, reader.pos() as int),
        ensures
            simple_block_at(*old(reader)) ==> type_at(toks, reader.pos() as int) == Some(TokenType::CloseBrace) && block_close(
                toks,
                list_start,
            ) == reader.pos(),
        decreases reader.remaining(),
    {
        let ghost before = reader.pos();
        proof {
            if simple_block_at(*old(reader)) && toks[before].token_type == TokenType::CloseBrace {
                assert(!stmt_keyword_starts(*reader));
                assert(!expr_starts(*reader));
            }
        }
        let statement = match parse_statement(reader)? {
            Some(s) => s,
            None => break,
        };
        proof {
            lemma_kept_join(toks, list_start, before, reader.pos(), stmts_toks(statements@), stmt_toks(statement));
            assert(statements@.push(statement).drop_last() =~= statements@);
        }
        statements.push(statement);
    }
    let ghost list_end = reader.pos();
    let close_brace = reader.expect(TokenType::CloseBrace)?;
    proof {
        lemma_kept_push(toks, start, start, Seq::empty());
        lemma_kept_join(toks, start, list_start, list_end, seq![open_brace], stmts_toks(statements@));
        lemma_kept_push(toks, start, list_end, seq![open_brace] + stmts_toks(statements@));
    }
    Ok(Some(BlockStmt { open_brace, statements, close_brace }))
}

/// `if (cond) block`, optionally followed by `else` and another `if` or a block.
pub fn parse_if(reader: &mut TokenReader) -> (r: ParserResult<Option<IfStmt>>)
    requires
        tokens_valued(old(reader).toks()),
    ensures
        old(reader).same_or_further(&*final(reader)),
        r matches Ok(None) ==> *final(reader) == *old(reader),
        r matches Ok(None) <==> old(reader).cur_type() != Some(TokenType::If),
        r matches Ok(Some(i)) ==> final(reader).pos() > old(reader).pos() && if_toks(i) == consumed(
            *old(reader),
            *final(reader),
        ) && if_wf(i),
    decreases old(reader).remaining(), 89nat,
{
    let ghost start = reader.pos();
    let ghost toks = reader.toks();
    let if_tok = match reader.check(TokenType::If) {
        Some(t) => t,
        None => return Ok(None),
    };
    let ghost p1 = reader.pos();
    let open_paren = reader.expect(TokenType::OpenParen)?;
    let ghost p2 = reader.pos();
    let condition = expect_expression(reader)?;
    let ghost p3 = reader.pos();
    let close_paren = reader.expect(TokenType::CloseParen)?;
    let ghost p4 = reader.pos();
    let block = expect_block_stmt(reader)?;
    let ghost p5 = reader.pos();
    let ghost head = seq![if_tok, open_paren] + expr_toks(condition) + seq![close_paren] + block_toks(block);
    proof {
        lemma_kept_empty(toks, start);
        lemma_kept_push(toks, start, start, Seq::empty());
        lemma_kept_push(toks, start, p1, seq![if_tok]);
        assert(Seq::<Token>::empty() + seq![if_tok] + seq![open_paren] =~= seq![if_tok, open_paren]);
        lemma_kept_join(toks, start, p2, p3, seq![if_tok, open_paren], expr_toks(condition));
        lemma_kept_push(toks, start, p3, seq![if_tok, open_paren] + expr_toks(condition));
        lemma_kept_join(toks, start, p4, p5, seq![if_tok, open_paren] + expr_toks(condition) + seq![close_paren], block_toks(block));
    }
    let else_branch = match reader.check(TokenType::Else) {
        None => {
            proof {
                assert(head + Seq::<Token>::empty() =~= head);
            }
            None
        },
        Some(else_tok) => {
            let ghost p6 = reader.pos();
            proof {
                lemma_kept_push(toks, start, p5, head);
            }
            match parse_if(reader)? {
                Some(inner) => {
                    proof {
                        lemma_kept_join(toks, start, p6, reader.pos(), head + seq![else_tok], if_toks(inner));
                        assert(head + seq![else_tok] + if_toks(inner) =~= head + (seq![else_tok] + if_toks(inner)));
                    }
                    Some(ElseBranch { else_tok, body: ElseBody::If(Box::new(inner)) })
                },
                None => {
                    let b = expect_block_stmt(reader)?;
                    proof {
                        lemma_kept_join(toks, start, p6, reader.pos(), head + seq![else_tok], block_toks(b));
                        assert(head + seq![else_tok] + block_toks(b) =~= head + (seq![else_tok] + block_toks(b)));
                    }
                    Some(ElseBranch { else_tok, body: ElseBody::Block(b) })
                },
            }
        },
    };
    Ok(Some(IfStmt { if_tok, open_paren, condition, close_paren, block, else_branch }))
}

/// `while (cond) block`.
fn parse_while(reader: &mut TokenReader) -> (r: ParserResult<Option<WhileStmt>>)
    requires
        tokens_valued(old(reader).toks()),
    ensures
        old(reader).same_or_further(&*final(reader)),
        r matches Ok(None) ==> *final(reader) == *old(reader),
        r matches Ok(None) <==> old(reader).cur_type() != Some(TokenType::While),
        r matches Ok(Some(w)) ==> stmt_ok(*old(reader), *final(reader), Statement::While(w)),
    decreases old(reader).remaining(), 89nat,
{
    let ghost start = reader.pos();
    let ghost toks = reader.toks();
    let while_tok = match reader.check(TokenType::While) {
        Some(t) => t,
        None => return Ok(None),
    };
    let ghost p1 = reader.pos();
    let open_paren = reader.expect(TokenType::OpenParen)?;
    let ghost p2 = reader.pos();
    let condition = expect_expression(reader)?;
    let ghost p3 = reader.pos();
    let close_paren = reader.expect(TokenType::CloseParen)?;
    let ghost p4 = reader.pos();
    let body = expect_block_stmt(reader)?;
    proof {
        lemma_kept_empty(toks, start);
        lemma_kept_push(toks, start, start, Seq::empty());
        lemma_kept_push(toks, start, p1, seq![while_tok]);
        assert(Seq::<Token>::empty() + seq![while_tok] + seq![open_paren] =~= seq![while_tok, open_paren]);
        lemma_kept_join(toks, start, p2, p3, seq![while_tok, open_paren], expr_toks(condition));
        lemma_kept_push(toks, start, p3, seq![while_tok, open_paren] + expr_toks(condition));
        lemma_kept_join(toks, start, p4, reader.pos(), seq![while_tok, open_paren] + expr_toks(condition) + seq![close_paren], block_toks(body));
    }
    Ok(Some(WhileStmt { while_tok, open_paren, condition, close_paren, body: Box::new(body) }))
}

/// `for (name in expr) block`.
fn parse_for(reader: &mut TokenReader) -> (r: ParserResult<Option<ForStmt>>)
    requires
        tokens_valued(old(reader).toks()),
    ensures
        old(reader).same_or_further(&*final(reader)),
        r matches Ok(None) ==> *final(reader) == *old(reader),
        r matches Ok(None) <==> old(reader).cur_type() != Some(TokenType::For),
        r matches Ok(Some(f)) ==> stmt_ok(*old(reader), *final(reader), Statement::For(f)),
    decreases old(reader).remaining(), 89nat,
{
    let ghost start = reader.pos();
    let ghost toks = reader.toks();
    let for_tok = match reader.check(TokenType::For) {
        Some(t) => t,
        None => return Ok(None),
    };
    let ghost p1 = reader.pos();
    let open_paren = reader.expect(TokenType::OpenParen)?;
    let ghost p2 = reader.pos();
    let id_tok = reader.expect(TokenType::Identifier)?;
    let ghost p3 = reader.pos();
    let in_tok = reader.expect(TokenType::In)?;
    let ghost p4 = reader.pos();
    let expression = expect_expression(reader)?;
    let ghost p5 = reader.pos();
    let close_paren = reader.expect(TokenType::CloseParen)?;
    let ghost p6 = reader.pos();
    let body = expect_block_stmt(reader)?;
    proof {
        lemma_kept_empty(toks, start);
        lemma_kept_push(toks, start, start, Seq::empty());
        lemma_kept_push(toks, start, p1, seq![for_tok]);
        lemma_kept_push(toks, start, p2, Seq::<Token>::empty() + seq![for_tok] + seq![open_paren]);
        lemma_kept_push(toks, start, p3, Seq::<Token>::empty() + seq![for_tok] + seq![open_paren] + seq![id_tok]);
        let h = seq![for_tok, open_paren, id_tok, in_tok];
        assert(Seq::<Token>::empty() + seq![for_tok] + seq![open_paren] + seq![id_tok] + seq![in_tok] =~= h);
        lemma_kept_join(toks, start, p4, p5, h, expr_toks(expression));
        lemma_kept_push(toks, start, p5, h + expr_toks(expression));
        lemma_kept_join(toks, start, p6, reader.pos(), h + expr_toks(expression) + seq![close_paren], block_toks(body));
        assert(token_valued(toks[p2]));
    }
    Ok(Some(ForStmt { for_tok, open_paren, id_tok, in_tok, expression, close_paren, body: Box::new(body) }))
}

/// `break;`.
fn parse_break(reader: &mut TokenReader) -> (r: ParserResult<Option<BreakStmt>>)
    ensures
        old(reader).same_or_further(&*final(reader)),
        r matches Ok(None) ==> *final(reader) == *old(reader),
        r matches Ok(None) <==> old(reader).cur_type() != Some(TokenType::Break),
        r matches Ok(Some(b)) ==> stmt_ok(*old(reader), *final(reader), Statement::Break(b)),
        old(reader).cur_type() == Some(TokenType::Break) && type_at(old(reader).toks(), old(reader).pos() + 1) == Some(
            TokenType::SemiColon,
        ) ==> (r matches Ok(Some(_)) && final(reader).pos() == old(reader).pos() + 2),
{
    let ghost start = reader.pos();
    let ghost toks = reader.toks();
    let break_tok = match reader.check(TokenType::Break) {
        Some(t) => t,
        None => return Ok(None),
    };
    let semi_colon = reader.expect(TokenType::SemiColon)?;
    proof {
        lemma_kept_empty(toks, start);
        lemma_kept_push(toks, start, start, Seq::empty());
        lemma_kept_push(toks, start, start + 1, Seq::<Token>::empty() + seq![break_tok]);
        assert(Seq::<Token>::empty() + seq![break_tok] + seq![semi_colon] =~= seq![break_tok, semi_colon]);
    }
    Ok(Some(BreakStmt { break_tok, semi_colon }))
}

/// `continue;`.
fn parse_continue(reader: &mut TokenReader) -> (r: ParserResult<Option<ContinueStmt>>)
    ensures
        old(reader).same_or_further(&*final(reader)),
        r matches Ok(None) ==> *final(reader) == *old(reader),
        r matches Ok(None) <==> old(reader).cur_type() != Some(TokenType::Continue),
        r matches Ok(Some(c)) ==> stmt_ok(*old(reader), *final(reader), Statement::Continue(c)),
        old(reader).cur_type() == Some(TokenType::Continue) && type_at(old(reader).toks(), old(reader).pos() + 1) == Some(
            TokenType::SemiColon,
        ) ==> (r matches Ok(Some(_)) && final(reader).pos() == old(reader).pos() + 2),
{
    let ghost start = reader.pos();
    let ghost toks = reader.toks();
    let continue_tok = match reader.check(TokenType::Continue) {
        Some(t) => t,
        None => return Ok(None),
    };
    let semi_colon = reader.expect(TokenType::SemiColon)?;
    proof {
        lemma_kept_empty(toks, start);
        lemma_kept_push(toks, start, start, Seq::empty());
        lemma_kept_push(toks, start, start + 1, Seq::<Token>::empty() + seq![continue_tok]);
        assert(Seq::<Token>::empty() + seq![continue_tok] + seq![semi_colon] =~= seq![continue_tok, semi_colon]);
    }
    Ok(Some(ContinueStmt { continue_tok, semi_colon }))
}

/// `return;` or `return expr;`.
fn parse_return(reader: &mut TokenReader) -> (r: ParserResult<Option<ReturnStmt>>)
    requires
        tokens_valued(old(reader).toks()),
    ensures
        old(reader).same_or_further(&*final(reader)),
        r matches Ok(None) ==> *final(reader) == *old(reader),
        r matches Ok(None) <==> old(reader).cur_type() != Some(TokenType::Return),
        r matches Ok(Some(s)) ==> stmt_ok(*old(reader), *final(reader), Statement::Return(s)),
        old(reader).cur_type() == Some(TokenType::Return) && type_at(old(reader).toks(), old(reader).pos() + 1) == Some(
            TokenType::SemiColon,
        ) ==> (r matches Ok(Some(s)) && s.expression is None && final(reader).pos() == old(reader).pos() + 2),
        old(reader).cur_type() == Some(TokenType::Return) && atom_in(old(reader).toks(), old(reader).pos() + 1) && type_at(
            old(reader).toks(),
            old(reader).pos() + 2,
        ) == Some(TokenType::SemiColon) ==> (r matches Ok(Some(s)) && s.expression == Some(
            atom_expr_in(old(reader).toks(), old(reader).pos() + 1),
        ) && final(reader).pos() == old(reader).pos() + 3),
    decreases old(reader).remaining(), 89nat,
{
    let ghost start = reader.pos();
    let ghost toks = reader.toks();
    let return_tok = match reader.check(TokenType::Return) {
        Some(t) => t,
        None => return Ok(None),
    };
    let ghost p1 = reader.pos();
    let expression = parse_expression(reader)?;
    let ghost p2 = reader.pos();
    let semi_colon = reader.expect(TokenType::SemiColon)?;
    proof {
        lemma_kept_empty(toks, start);
        lemma_kept_push(toks, start, start, Seq::empty());
        if expression is None {
            lemma_kept_empty(toks, p1);
        }
        lemma_kept_join(toks, start, p1, p2, Seq::<Token>::empty() + seq![return_tok], opt_expr_toks(expression));
        lemma_kept_push(toks, start, p2, Seq::<Token>::empty() + seq![return_tok] + opt_expr_toks(expression));
        assert(Seq::<Token>::empty() + seq![return_tok] =~= seq![return_tok]);
    }
    Ok(Some(ReturnStmt { return_tok, expression, semi_colon }))
}

/// `let name (: Type)? = expr;`, where `=` may be any assignment token.
fn parse_let(reader: &mut TokenReader) -> (r: ParserResult<Option<LetStmt>>)
    requires
        tokens_valued(old(reader).toks()),
    ensures
        old(reader).same_or_further(&*final(reader)),
        r matches Ok(None) ==> *final(reader) == *old(reader),
        r matches Ok(None) <==> old(reader).cur_type() != Some(TokenType::Let),
        r matches Ok(Some(s)) ==> stmt_ok(*old(reader), *final(reader), Statement::Let(s)),
    decreases old(reader).remaining(), 89nat,
{
    let ghost start = reader.pos();
    let ghost toks = reader.toks();
    let let_tok = match reader.check(TokenType::Let) {
        Some(t) => t,
        None => return Ok(None),
    };
    let ghost p1 = reader.pos();
    let id = reader.expect(TokenType::Identifier)?;
    let ghost p2 = reader.pos();
    proof {
        lemma_kept_empty(toks, start);
        lemma_kept_push(toks, start, start, Seq::empty());
        lemma_kept_push(toks, start, p1, Seq::<Token>::empty() + seq![let_tok]);
        assert(Seq::<Token>::empty() + seq![let_tok] + seq![id] =~= seq![let_tok, id]);
        assert(token_valued(toks[p1]));
    }
    let type_ref = match reader.check(TokenType::Colon) {
        Some(colon) => {
            let ghost p3 = reader.pos();
            let t = expect_type_name(reader)?;
            proof {
                lemma_kept_empty(toks, p2);
                lemma_kept_push(toks, p2, p2, Seq::empty());
                lemma_kept_join(toks, p2, p3, reader.pos(), Seq::<Token>::empty() + seq![colon], type_toks(t));
                assert(Seq::<Token>::empty() + seq![colon] =~= seq![colon]);
            }
            Some((colon, t))
        },
        None => {
            proof {
                lemma_kept_empty(toks, p2);
            }
            None
        },
    };
    let ghost p4 = reader.pos();
    proof {
        lemma_kept_join(toks, start, p2, p4, seq![let_tok, id], annotation_toks(type_ref));
    }
    let ops = assignment_tokens();
    let equal = reader.expect_many(ops.as_slice())?;
    let ghost p5 = reader.pos();
    proof {
        lemma_assignment_seq(equal.token_type);
        lemma_kept_push(toks, start, p4, seq![let_tok, id] + annotation_toks(type_ref));
    }
    let expression = expect_expression(reader)?;
    let ghost p6 = reader.pos();
    let semi_colon = reader.expect(TokenType::SemiColon)?;
    proof {
        let h = seq![let_tok, id] + annotation_toks(type_ref) + seq![equal];
        lemma_kept_join(toks, start, p5, p6, h, expr_toks(expression));
        lemma_kept_push(toks, start, p6, h + expr_toks(expression));
    }
    Ok(Some(LetStmt { let_tok, id, type_ref, equal, expression, semi_colon }))
}

/// Whether the reader stands at an assignment token.
fn at_assignment(r: &TokenReader) -> (b: bool)
    ensures
        b == (r.cur_type() matches Some(t) && is_assignment_token(t)),
{
    match r.current_type() {
        Some(t) => is_assignment_type(t),
        None => false,
    }
}

/// Whether the reader stands at `;`.
fn at_semi_colon(r: &TokenReader) -> (b: bool)
    ensures
        b == (r.cur_type() == Some(TokenType::SemiColon)),
{
    r.current_type() == Some(TokenType::SemiColon)
}

/// `place op= expr;`: an expression followed by an assignment token.
fn parse_assignment(reader: &mut TokenReader) -> (r: ParserResult<Option<AssignStmt>>)
    requires
        tokens_valued(old(reader).toks()),
    ensures
        old(reader).same_or_further(&*final(reader)),
        r matches Ok(None) ==> *final(reader) == *old(reader),
        !expr_starts(*old(reader)) ==> r matches Ok(None),
        r matches Ok(Some(s)) ==> stmt_ok(*old(reader), *final(reader), Statement::Assign(s)),
    decreases old(reader).remaining(), 89nat,
{
    let ghost start = reader.pos();
    let ghost toks = reader.toks();
    let assigned = match is_expression_and(reader, at_assignment) {
        Some(e) => e,
        None => return Ok(None),
    };
    let ghost p1 = reader.pos();
    let equal = reader.advance().unwrap();
    let ghost p2 = reader.pos();
    let expression = expect_expression(reader)?;
    let ghost p3 = reader.pos();
    let semi_colon = reader.expect(TokenType::SemiColon)?;
    proof {
        lemma_kept_push(toks, start, p1, expr_toks(assigned));
        lemma_kept_join(toks, start, p2, p3, expr_toks(assigned) + seq![equal], expr_toks(expression));
        lemma_kept_push(toks, start, p3, expr_toks(assigned) + seq![equal] + expr_toks(expression));
    }
    Ok(Some(AssignStmt { assigned: Box::new(assigned), equal, expression, semi_colon }))
}

/// `expr;`.
fn parse_expression_stmt(reader: &mut TokenReader) -> (r: ParserResult<Option<ExpressionStmt>>)
    requires
        tokens_valued(old(reader).toks()),
    ensures
        old(reader).same_or_further(&*final(reader)),
        r matches Ok(None) ==> *final(reader) == *old(reader),
        !expr_starts(*old(reader)) ==> r matches Ok(None),
        r matches Ok(Some(s)) ==> stmt_ok(*old(reader), *final(reader), Statement::Expression(s)),
    decreases old(reader).remaining(), 89nat,
{
    let ghost start = reader.pos();
    let ghost toks = reader.toks();
    let expression = match is_expression_and(reader, at_semi_colon) {
        Some(e) => e,
        None => return Ok(None),
    };
    let ghost p1 = reader.pos();
    let semi_colon = reader.expect(TokenType::SemiColon)?;
    proof {
        lemma_kept_push(toks, start, p1, expr_toks(expression));
    }
    Ok(Some(ExpressionStmt { expression, semi_colon }))
}

/// A declaration parsed between two states of a reader: at least one token was
/// read, the declaration records every token read except separating commas, and
/// it is well formed.
pub open spec fn decl_ok(old_r: TokenReader, new_r: TokenReader, d: Declaration) -> bool {
    &&& new_r.pos() > old_r.pos()
    &&& decl_toks(d) == consumed(old_r, new_r)
    &&& decl_wf(d)
}

/// A declaration, or an error when there is none.
pub fn expect_declaration(reader: &mut TokenReader) -> (r: ParserResult<Declaration>)
    requires
        tokens_valued(old(reader).toks()),
    ensures
        old(reader).same_or_further(&*final(reader)),
        r matches Ok(d) ==> decl_ok(*old(reader), *final(reader), d),
{
    match parse_declaration(reader)? {
        Some(d) => Ok(d),
        None => Err(ParserError::ExpectedDeclaration(reader.current())),
    }
}

/// A function, a struct or a constant, tried in that order.
pub fn parse_declaration(reader: &mut TokenReader) -> (r: ParserResult<Option<Declaration>>)
    requires
        tokens_valued(old(reader).toks()),
    ensures
        old(reader).same_or_further(&*final(reader)),
        r matches Ok(None) ==> *final(reader) == *old(reader),
        r matches Ok(None) <==> !starts_decl(*old(reader), TokenType::Fn) && !starts_decl(*old(reader), TokenType::Struct)
            && !starts_decl(*old(reader), TokenType::Const),
        r matches Ok(Some(d)) ==> decl_ok(*old(reader), *final(reader), d),
        r is Err ==> final(reader).pos() > old(reader).pos(),
        plain_fn_at(*old(reader)) ==> (r matches Ok(Some(Declaration::Fn(d))) && d.params@.len() == 0 && d.return_type is None
            && final(reader).pos() == plain_fn_end(old(reader).toks(), old(reader).pos())),
{
    if let Some(d) = parse_fn_decl(reader)? {
        return Ok(Some(Declaration::Fn(Arc::new(d))));
    }
    if let Some(d) = parse_struct_decl(reader)? {
        return Ok(Some(Declaration::Struct(Arc::new(d))));
    }
    if let Some(d) = parse_const(reader)? {
        return Ok(Some(Declaration::Const(Arc::new(d))));
    }
    Ok(None)
}

/// `pub? const name: Type = expr;`, where `=` may be any assignment token.
fn parse_const(reader: &mut TokenReader) -> (r: ParserResult<Option<ConstStmt>>)
    requires
        tokens_valued(old(reader).toks()),
    ensures
        old(reader).same_or_further(&*final(reader)),
        r matches Ok(None) ==> *final(reader) == *old(reader),
        r matches Ok(None) <==> !starts_decl(*old(reader), TokenType::Const),
        r matches Ok(Some(c)) ==> stmt_ok(*old(reader), *final(reader), Statement::Const(c)),
        r is Err ==> final(reader).pos() > old(reader).pos(),
{
    let ghost start = reader.pos();
    let ghost toks = reader.toks();
    let pub_tok = if reader.is_sequence(&[TokenType::Pub, TokenType::Const]) {
        reader.advance()
    } else {
        None
    };
    let ghost p0 = reader.pos();
    proof {
        lemma_kept_empty(toks, start);
        if pub_tok is Some {
            lemma_kept_push(toks, start, start, Seq::empty());
            assert(Seq::<Token>::empty() + seq![toks[start]] =~= opt_tok(pub_tok));
        }
    }
    let const_tok = match reader.check(TokenType::Const) {
        Some(t) => t,
        None => return Ok(None),
    };
    let ghost p1 = reader.pos();
    let id = reader.expect(TokenType::Identifier)?;
    let ghost p2 = reader.pos();
    let colon = reader.expect(TokenType::Colon)?;
    let ghost p3 = reader.pos();
    let type_ref = expect_type_name(reader)?;
    let ghost p4 = reader.pos();
    let ops = assignment_tokens();
    let equal = reader.expect_many(ops.as_slice())?;
    let ghost p5 = reader.pos();
    let expression = expect_expression(reader)?;
    let ghost p6 = reader.pos();
    let semi_colon = reader.expect(TokenType::SemiColon)?;
    proof {
        lemma_assignment_seq(equal.token_type);
        let h0 = opt_tok(pub_tok);
        lemma_kept_push(toks, start, p0, h0);
        lemma_kept_push(toks, start, p1, h0 + seq![const_tok]);
        lemma_kept_push(toks, start, p2, h0 + seq![const_tok] + seq![id]);
        let h1 = h0 + seq![const_tok, id, colon];
        assert(h0 + seq![const_tok] + seq![id] + seq![colon] =~= h1);
        lemma_kept_join(toks, start, p3, p4, h1, type_toks(type_ref));
        lemma_kept_push(toks, start, p4, h1 + type_toks(type_ref));
        lemma_kept_join(toks, start, p5, p6, h1 + type_toks(type_ref) + seq![equal], expr_toks(expression));
        lemma_kept_push(toks, start, p6, h1 + type_toks(type_ref) + seq![equal] + expr_toks(expression));
        assert(token_valued(toks[p1]));
    }
    Ok(Some(ConstStmt { pub_tok, const_tok, id, colon, type_ref, equal, expression, semi_colon }))
}

/// `name: Type (= expr)?`, a member of a struct; only tried when `name :` is there.
fn parse_struct_member(reader: &mut TokenReader) -> (r: ParserResult<Option<StructDeclMember>>)
    requires
        tokens_valued(old(reader).toks()),
    ensures
        old(reader).same_or_further(&*final(reader)),
        r matches Ok(None) ==> *final(reader) == *old(reader),
        r matches Ok(Some(m)) ==> final(reader).pos() > old(reader).pos() && member_toks(m) == consumed(
            *old(reader),
            *final(reader),
        ) && member_wf(m),
{
    let ghost start = reader.pos();
    let ghost toks = reader.toks();
    if !reader.is_sequence(&[TokenType::Identifier, TokenType::Colon]) {
        return Ok(None);
    }
    let id = reader.expect(TokenType::Identifier)?;
    let colon = reader.expect(TokenType::Colon)?;
    let ghost p2 = reader.pos();
    let type_ref = expect_type_name(reader)?;
    let ghost p3 = reader.pos();
    let initializer = match reader.check(TokenType::Equal) {
        Some(equal) => {
            let expression = expect_expression(reader)?;
            proof {
                lemma_kept_empty(toks, p3);
                lemma_kept_push(toks, p3, p3, Seq::empty());
                lemma_kept_join(toks, p3, p3 + 1, reader.pos(), Seq::<Token>::empty() + seq![equal], expr_toks(expression));
                assert(Seq::<Token>::empty() + seq![equal] =~= seq![equal]);
            }
            Some((equal, Arc::new(expression)))
        },
        None => {
            proof {
                lemma_kept_empty(toks, p3);
            }
            None
        },
    };
    proof {
        lemma_kept_empty(toks, start);
        lemma_kept_push(toks, start, start, Seq::empty());
        lemma_kept_push(toks, start, start + 1, Seq::<Token>::empty() + seq![id]);
        assert(Seq::<Token>::empty() + seq![id] + seq![colon] =~= seq![id, colon]);
        lemma_kept_join(toks, start, p2, p3, seq![id, colon], type_toks(type_ref));
        lemma_kept_join(toks, start, p3, reader.pos(), seq![id, colon] + type_toks(type_ref), opt_init_toks(initializer));
        assert(token_valued(toks[start]));
    }
    Ok(Some(StructDeclMember { id, colon, type_ref, initializer }))
}

/// The reader stands at `kw`, or at `pub` then `kw`.
pub open spec fn starts_decl(rd: TokenReader, kw: TokenType) -> bool {
    ||| rd.cur_type() == Some(kw)
    ||| rd.cur_type() == Some(TokenType::Pub) && type_at(rd.toks(), rd.pos() + 1) == Some(kw)
}

/// `pub? struct Name { member, ... }`, with an optional trailing comma.
fn parse_struct_decl(reader: &mut TokenReader) -> (r: ParserResult<Option<StructDecl>>)
    requires
        tokens_valued(old(reader).toks()),
    ensures
        old(reader).same_or_further(&*final(reader)),
        r matches Ok(None) ==> *final(reader) == *old(reader),
        r matches Ok(None) <==> !starts_decl(*old(reader), TokenType::Struct),
        r matches Ok(Some(d)) ==> decl_ok(*old(reader), *final(reader), Declaration::Struct(Arc::new(d))),
        r is Err ==> final(reader).pos() > old(reader).pos(),
{
    let ghost start = reader.pos();
    let ghost toks = reader.toks();
    let pub_tok = if reader.is_sequence(&[TokenType::Pub, TokenType::Struct]) {
        reader.advance()
    } else {
        None
    };
    let ghost p0 = reader.pos();
    proof {
        lemma_kept_empty(toks, start);
        if pub_tok is Some {
            lemma_kept_push(toks, start, start, Seq::empty());
            assert(Seq::<Token>::empty() + seq![toks[start]] =~= opt_tok(pub_tok));
        }
    }
    let struct_tok = match reader.check(TokenType::Struct) {
        Some(t) => t,
        None => return Ok(None),
    };
    let ghost p1 = reader.pos();
    let id = reader.expect(TokenType::Identifier)?;
    let ghost p2 = reader.pos();
    let open_brace = reader.expect(TokenType::OpenBrace)?;
    let ghost list_start = reader.pos();
    let ghost h0 = opt_tok(pub_tok);
    let ghost h = h0 + seq![struct_tok, id, open_brace];
    proof {
        lemma_kept_push(toks, start, p0, h0);
        lemma_kept_push(toks, start, p1, h0 + seq![struct_tok]);
        lemma_kept_push(toks, start, p2, h0 + seq![struct_tok] + seq![id]);
        assert(h0 + seq![struct_tok] + seq![id] + seq![open_brace] =~= h);
        lemma_kept_empty(toks, list_start);
        assert(token_valued(toks[p1]));
    }
    let mut members: Vec<StructDeclMember> = Vec::new();
    loop
        invariant
            tokens_valued(toks),
            reader.toks() == toks,
            old(reader).toks() == toks,
            old(reader).pos() == start,
            0 <= start < list_start <= reader.pos() <= toks.len(),
            kept(toks.subrange(start, list_start)) == h,
            starts_decl(*old(reader), TokenType::Struct),
            members_toks(members@) == kept(toks.subrange(list_start, reader.pos())),
            members_wf(members@),
        decreases reader.remaining(),
    {
        let ghost before = reader.pos();
        let member = match parse_struct_member(reader)? {
            Some(m) => m,
            None => break,
        };
        proof {
            lemma_kept_join(toks, list_start, before, reader.pos(), members_toks(members@), member_toks(member));
            assert(members@.push(member).drop_last() =~= members@);
        }
        members.push(member);
        proof {
            assert forall|i: int| 0 <= i < members@.len() implies member_wf(#[trigger] members@[i]) by {
                if i < members@.len() - 1 {
                    assert(members@[i] == members@.drop_last()[i]);
                }
            }
        }
        let ghost at_sep = reader.pos();
        if reader.check(TokenType::Comma).is_none() {
            break;
        }
        proof {
            lemma_kept_comma(toks, list_start, at_sep, members_toks(members@));
        }
    }
    let ghost at_sep = reader.pos();
    if reader.check(TokenType::Comma).is_some() {
        proof {
            lemma_kept_comma(toks, list_start, at_sep, members_toks(members@));
        }
    }
    let ghost list_end = reader.pos();
    let close_brace = reader.expect(TokenType::CloseBrace)?;
    proof {
        lemma_kept_join(toks, start, list_start, list_end, h, members_toks(members@));
        lemma_kept_push(toks, start, list_end, h + members_toks(members@));
    }
    Ok(Some(StructDecl { pub_tok, struct_tok, id, open_brace, members, close_brace }))
}

/// `name: Type (= expr)?`, a parameter of a function.
fn parse_fn_param(reader: &mut TokenReader) -> (r: ParserResult<Option<FnParam>>)
    requires
        tokens_valued(old(reader).toks()),
    ensures
        old(reader).same_or_further(&*final(reader)),
        r matches Ok(None) ==> *final(reader) == *old(reader),
        r matches Ok(Some(p)) ==> final(reader).pos() > old(reader).pos() && param_toks(p) == consumed(
            *old(reader),
            *final(reader),
        ) && param_wf(p),
        old(reader).cur_type() != Some(TokenType::Identifier) ==> r matches Ok(None),
{
    let ghost start = reader.pos();
    let ghost toks = reader.toks();
    let id = match reader.check(TokenType::Identifier) {
        Some(t) => t,
        None => return Ok(None),
    };
    let colon = reader.expect(TokenType::Colon)?;
    let ghost p2 = reader.pos();
    let type_ref = expect_type_name(reader)?;
    let ghost p3 = reader.pos();
    let default_value = match reader.check(TokenType::Equal) {
        Some(equal) => {
            let expression = expect_expression(reader)?;
            proof {
                lemma_kept_empty(toks, p3);
                lemma_kept_push(toks, p3, p3, Seq::empty());
                lemma_kept_join(toks, p3, p3 + 1, reader.pos(), Seq::<Token>::empty() + seq![equal], expr_toks(expression));
                assert(Seq::<Token>::empty() + seq![equal] =~= seq![equal]);
            }
            Some((equal, Arc::new(expression)))
        },
        None => {
            proof {
                lemma_kept_empty(toks, p3);
            }
            None
        },
    };
    proof {
        lemma_kept_empty(toks, start);
        lemma_kept_push(toks, start, start, Seq::empty());
        lemma_kept_push(toks, start, start + 1, Seq::<Token>::empty() + seq![id]);
        assert(Seq::<Token>::empty() + seq![id] + seq![colon] =~= seq![id, colon]);
        lemma_kept_join(toks, start, p2, p3, seq![id, colon], type_toks(type_ref));
        lemma_kept_join(toks, start, p3, reader.pos(), seq![id, colon] + type_toks(type_ref), opt_init_toks(default_value));
        assert(token_valued(toks[start]));
    }
    Ok(Some(FnParam { id, colon, type_ref, default_value }))
}

/// The tokens of the `Type.` before a method's name.
pub open spec fn receiver_toks(t: Option<(Token, super::ast::TypeName)>) -> Seq<Token> {
    match t {
        Some((dot, t)) => type_toks(t) + seq![dot],
        None => Seq::empty(),
    }
}

proof fn lemma_receiver_toks(h0: Seq<Token>, t: Option<(Token, super::ast::TypeName)>)
    ensures
        t is None ==> h0 + receiver_toks(t) == h0,
        t matches Some((dot, ty)) ==> h0 + receiver_toks(t) == h0 + type_toks(ty) + seq![dot],
{
    match t {
        None => {
            assert(h0 + Seq::<Token>::empty() =~= h0);
        },
        Some((dot, ty)) => {
            assert(h0 + type_toks(ty) + seq![dot] =~= h0 + (type_toks(ty) + seq![dot]));
        },
    }
}

/// `pub? fn (Type.)? name(self?, param, ...) (-> Type)? block`.
#[verifier::rlimit(40)]
fn parse_fn_decl(reader: &mut TokenReader) -> (r: ParserResult<Option<FnDecl>>)
    requires
        tokens_valued(old(reader).toks()),
    ensures
        old(reader).same_or_further(&*final(reader)),
        r matches Ok(None) ==> *final(reader) == *old(reader),
        r matches Ok(None) <==> !starts_decl(*old(reader), TokenType::Fn),
        r matches Ok(Some(d)) ==> decl_ok(*old(reader), *final(reader), Declaration::Fn(Arc::new(d))),
        r is Err ==> final(reader).pos() > old(reader).pos(),
        plain_fn_at(*old(reader)) ==> (r matches Ok(Some(d)) && d.params@.len() == 0 && d.return_type is None
            && (d.pub_tok is Some <==> old(reader).cur_type() == Some(TokenType::Pub))
            && final(reader).pos() == plain_fn_end(old(reader).toks(), old(reader).pos())),
{
    let ghost start = reader.pos();
    let ghost toks = reader.toks();
    let ghost empty = plain_fn_at(*reader);
    let pub_tok = if reader.is_sequence(&[TokenType::Pub, TokenType::Fn]) {
        reader.advance()
    } else {
        None
    };
    let ghost p0 = reader.pos();
    proof {
        lemma_kept_empty(toks, start);
        if pub_tok is Some {
            lemma_kept_push(toks, start, start, Seq::empty());
            assert(Seq::<Token>::empty() + seq![toks[start]] =~= opt_tok(pub_tok));
        }
    }
    let fn_tok = match reader.check(TokenType::Fn) {
        Some(t) => t,
        None => return Ok(None),
    };
    let ghost p1 = reader.pos();
    let ghost h0 = opt_tok(pub_tok) + seq![fn_tok];
    proof {
        lemma_kept_push(toks, start, p0, opt_tok(pub_tok));
    }
    let mut type_ref: Option<(Token, super::ast::TypeName)> = None;
    if let Some(offset) = is_type(reader) {
        if reader.peek_is(offset, TokenType::Dot) {
            let t = expect_type_name(reader)?;
            let ghost p2 = reader.pos();
            let dot = reader.expect(TokenType::Dot)?;
            proof {
                lemma_kept_join(toks, start, p1, p2, h0, type_toks(t));
                lemma_kept_push(toks, start, p2, h0 + type_toks(t));
            }
            type_ref = Some((dot, t));
        }
    }
    let ghost h1 = h0 + receiver_toks(type_ref);
    proof {
        lemma_receiver_toks(h0, type_ref);
    }
    let ghost p3 = reader.pos();
    let id = reader.expect(TokenType::Identifier)?;
    let ghost p4 = reader.pos();
    let open_paren = reader.expect(TokenType::OpenParen)?;
    let ghost p5 = reader.pos();
    proof {
        lemma_kept_push(toks, start, p3, h1);
        lemma_kept_push(toks, start, p4, h1 + seq![id]);
        assert(h1 + seq![id] + seq![open_paren] =~= h1 + seq![id, open_paren]);
        assert(token_valued(toks[p3]));
    }
    let self_param = reader.check(TokenType::SelfVal);
    if self_param.is_some() && !reader.current_is(&[TokenType::Comma, TokenType::CloseParen]) {
        return Err(ParserError::ExpectedToken(TokenType::Comma, reader.current()));
    }
    let ghost p6 = reader.pos();
    let ghost h2 = h1 + seq![id, open_paren] + opt_tok(self_param);
    proof {
        if self_param is Some {
            lemma_kept_push(toks, start, p5, h1 + seq![id, open_paren]);
        } else {
            assert(h1 + seq![id, open_paren] + Seq::<Token>::empty() =~= h1 + seq![id, open_paren]);
        }
    }
    if reader.check(TokenType::Comma).is_some() {
        proof {
            lemma_kept_comma(toks, start, p6, h2);
        }
    }
    let ghost list_start = reader.pos();
    proof {
        lemma_kept_empty(toks, list_start);
    }
    let mut params: Vec<FnParam> = Vec::new();
    loop
        invariant
            tokens_valued(toks),
            reader.toks() == toks,
            old(reader).toks() == toks,
            old(reader).pos() == start,
            0 <= start < list_start <= reader.pos() <= toks.len(),
            kept(toks.subrange(start, list_start)) == h2,
            starts_decl(*old(reader), TokenType::Fn),
            params_toks(params@) == kept(toks.subrange(list_start, reader.pos())),
            params_wf(params@),
            empty == plain_fn_at(*old(reader)),
            empty ==> reader.pos() == list_start && params@.len() == 0 && list_start == fn_kw_pos(*old(reader)) + 3,
        decreases reader.remaining(),
    {
        let ghost before = reader.pos();
        let param = match parse_fn_param(reader)? {
            Some(p) => p,
            None => break,
        };
        proof {
            lemma_kept_join(toks, list_start, before, reader.pos(), params_toks(params@), param_toks(param));
            assert(params@.push(param).drop_last() =~= params@);
        }
        params.push(param);
        proof {
            assert forall|i: int| 0 <= i < params@.len() implies param_wf(#[trigger] params@[i]) by {
                if i < params@.len() - 1 {
                    assert(params@[i] == params@.drop_last()[i]);
                }
            }
        }
        let ghost at_sep = reader.pos();
        if reader.check(TokenType::Comma).is_none() {
            break;
        }
        proof {
            lemma_kept_comma(toks, list_start, at_sep, params_toks(params@));
        }
    }
    let ghost list_end = reader.pos();
    let close_paren = reader.expect(TokenType::CloseParen)?;
    let ghost p7 = reader.pos();
    let ghost h3 = h2 + params_toks(params@) + seq![close_paren];
    proof {
        lemma_kept_join(toks, start, list_start, list_end, h2, params_toks(params@));
        lemma_kept_push(toks, start, list_end, h2 + params_toks(params@));
    }
    let return_type = match reader.check(TokenType::ThinArrow) {
        Some(arrow) => {
            let t = expect_type_name(reader)?;
            proof {
                lemma_kept_push(toks, start, p7, h3);
                lemma_kept_join(toks, start, p7 + 1, reader.pos(), h3 + seq![arrow], type_toks(t));
                assert(h3 + seq![arrow] + type_toks(t) =~= h3 + (seq![arrow] + type_toks(t)));
            }
            Some((arrow, t))
        },
        None => {
            proof {
                assert(h3 + Seq::<Token>::empty() =~= h3);
            }
            None
        },
    };
    let ghost p8 = reader.pos();
    let body = expect_block_stmt(reader)?;
    proof {
        let h4 = h3 + annotation_toks(return_type);
        lemma_kept_join(toks, start, p8, reader.pos(), h4, block_toks(body));
        let d = FnDecl {
            pub_tok,
            fn_tok,
            type_ref,
            id,
            open_paren,
            self_param,
            params,
            close_paren,
            return_type,
            body: Arc::new(body),
        };
        assert(fn_decl_toks(d) =~= h4 + block_toks(body));
    }
    Ok(Some(FnDecl {
        pub_tok,
        fn_tok,
        type_ref,
        id,
        open_paren,
        self_param,
        params,
        close_paren,
        return_type,
        body: Arc::new(body),
    }))
}

/// `u` is the `use` statement written as `toks[start..end]`: `use`, its names
/// separated by dots, and `;`.
pub open spec fn use_written(toks: Seq<Token>, start: int, end: int, u: UseStmt) -> bool {
    let n = u.ids@.len();
    &&& n > 0
    &&& u.use_tok == toks[start]
    &&& u.use_tok.token_type == TokenType::Use
    &&& forall|i: int| 0 <= i < n ==> #[trigger] u.ids@[i] == toks[start + 1 + 2 * i]
        && u.ids@[i].token_type == TokenType::Identifier && token_valued(u.ids@[i])
    &&& forall|i: int| 0 <= i < n - 1 ==> (#[trigger] toks[start + 2 + 2 * i]).token_type == TokenType::Dot
    &&& end == start + 2 * n + 1
    &&& u.semi_colon == toks[end - 1]
    &&& u.semi_colon.token_type == TokenType::SemiColon
}

/// `use name.name...;`, the path of another file.
pub fn parse_use_stmt(reader: &mut TokenReader) -> (r: ParserResult<Option<UseStmt>>)
    requires
        tokens_valued(old(reader).toks()),
    ensures
        old(reader).same_or_further(&*final(reader)),
        r matches Ok(None) ==> *final(reader) == *old(reader) && old(reader).cur_type() != Some(
            TokenType::Use,
        ),
        old(reader).cur_type() != Some(TokenType::Use) ==> r matches Ok(None),
        r matches Ok(Some(u)) ==> use_written(old(reader).toks(), old(reader).pos() as int, final(reader).pos() as int, u),
        r is Err ==> final(reader).pos() > old(reader).pos(),
        forall|end: int, u: UseStmt| end <= old(reader).toks().len() && #[trigger] use_written(
            old(reader).toks(),
            old(reader).pos() as int,
            end,
            u,
        ) ==> r is Ok,
{
    let ghost start = reader.pos();
    let ghost toks = reader.toks();
    let use_tok = match reader.check(TokenType::Use) {
        Some(t) => t,
        None => return Ok(None),
    };
    let mut ids: Vec<Token> = Vec::new();
    let mut trailing_dot = false;
    loop
        invariant_except_break
            tokens_valued(toks),
            reader.toks() == toks,
            old(reader).toks() == toks,
            old(reader).pos() == start,
            0 <= start < reader.pos() <= toks.len(),
            ids@.len() > 0 ==> reader.pos() == start + 2 * ids@.len() + 1,
            ids@.len() == 0 ==> reader.pos() == start + 1,
            forall|i: int| 0 <= i < ids@.len() ==> #[trigger] ids@[i] == toks[start + 1 + 2 * i]
                && ids@[i].token_type == TokenType::Identifier && token_valued(ids@[i]),
            forall|i: int| 0 <= i < ids@.len() ==> (#[trigger] toks[start + 2 + 2 * i]).token_type
                == TokenType::Dot,
            !trailing_dot,
            forall|end: int, u: UseStmt| end <= toks.len() && #[trigger] use_written(toks, start, end, u) ==> ids@.len() < u.ids@.len(),
        ensures
            forall|end: int, u: UseStmt| end <= toks.len() && #[trigger] use_written(toks, start, end, u) ==> !trailing_dot
                && ids@.len() == u.ids@.len(),
            reader.toks() == toks,
            0 <= start < reader.pos() <= toks.len(),
            forall|i: int| 0 <= i < ids@.len() ==> #[trigger] ids@[i] == toks[start + 1 + 2 * i]
                && ids@[i].token_type == TokenType::Identifier && token_valued(ids@[i]),
            forall|i: int| 0 <= i < ids@.len() - 1 ==> (#[trigger] toks[start + 2 + 2 * i]).token_type
                == TokenType::Dot,
            ids@.len() == 0 ==> reader.pos() == start + 1,
            ids@.len() > 0 && !trailing_dot ==> reader.pos() == start + 2 * ids@.len(),
            ids@.len() > 0 && trailing_dot ==> reader.pos() == start + 2 * ids@.len() + 1
                && toks[start + 2 * ids@.len()].token_type == TokenType::Dot,
        decreases reader.remaining(),
    {
        let ghost before = reader.pos();
        let ghost k0 = ids@.len() as int;
        let id = match reader.check(TokenType::Identifier) {
            Some(t) => t,
            None => {
                proof {
                    assert forall|end: int, u: UseStmt| end <= toks.len() && #[trigger] use_written(toks, start, end, u) implies false by {
                        assert(u.ids@[k0] == toks[start + 1 + 2 * k0]);
                    }
                }
                if ids.len() > 0 {
                    trailing_dot = true;
                    proof {
                        let k = ids@.len() - 1;
                        assert((toks[start + 2 + 2 * k]).token_type == TokenType::Dot);
                    }
                }
                break;
            },
        };
        proof {
            assert(token_valued(toks[before]));
        }
        ids.push(id);
        if reader.check(TokenType::Dot).is_none() {
            proof {
                assert forall|end: int, u: UseStmt| end <= toks.len() && #[trigger] use_written(toks, start, end, u) implies !trailing_dot
                    && ids@.len() == u.ids@.len() by {
                    if k0 + 1 < u.ids@.len() {
                        assert((toks[start + 2 + 2 * k0]).token_type == TokenType::Dot);
                    }
                }
            }
            break;
        }
    }
    if ids.len() == 0 || trailing_dot {
        return Err(ParserError::ExpectedToken(TokenType::Identifier, reader.current()));
    }
    let semi_colon = reader.expect(TokenType::SemiColon)?;
    Ok(Some(UseStmt { use_tok, ids, semi_colon }))
}

} // verus!
