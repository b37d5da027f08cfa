use vstd::prelude::*;
use crate::lexing::token::{Token, TokenType};
use crate::validation::operators::{binary_op_of, op_precedence};
use super::ast::{
    AccessExpr, ArrayLiteral, BinaryExpr, CallExpr, CastExpr, ConstructionArg, ConstructionExpr,
    Expression, GroupingExpr, IndexExpr, LambdaBody, LambdaExpr, LambdaParam, LambdaParams,
    TypeName, UnaryExpr,
};
use super::syntax::{
    kept, expr_toks, exprs_toks, expr_wf, exprs_wf, construction_args_toks, construction_args_wf,
    lambda_params_toks, lambda_param_toks, lambda_param_list_toks, type_toks, type_wf, block_toks,
    block_wf, tokens_valued, token_valued, is_literal_kind, is_binary_kind, is_unary_kind, opt_tok,
    opt_type_toks, annotation_toks, lemma_kept_split, lemma_kept_empty, lemma_kept_one,
    lemma_kept_join, lemma_kept_tok,
};
use super::token_reader::{TokenReader, type_at};
use super::type_parsing::{expect_type_name, parse_type_name, is_type, type_parsed, scan_type};
use super::stmt_parsing::parse_block_stmt;
use super::{ParserError, ParserResult};

verus! {

/// What an expression parse function promises: the reader only moves forward
/// over the same tokens; nothing is consumed when nothing is parsed; a parsed
/// expression consumed at least one token, records every consumed token except
/// separating commas, and is well formed.
pub open spec fn expr_parsed(old_r: TokenReader, new_r: TokenReader, r: ParserResult<Option<Expression>>) -> bool {
    &&& old_r.same_or_further(&new_r)
    &&& r matches Ok(None) ==> new_r == old_r
    &&& r matches Ok(Some(e)) ==> {
        &&& new_r.pos() > old_r.pos()
        &&& expr_toks(e) == kept(old_r.toks().subrange(old_r.pos(), new_r.pos()))
        &&& expr_wf(e)
    }
}

/// The same, for a function that must find an expression.
pub open spec fn expr_expected(old_r: TokenReader, new_r: TokenReader, r: ParserResult<Expression>) -> bool {
    expr_parsed(old_r, new_r, match r {
        Ok(e) => Ok(Some(e)),
        Err(err) => Err(err),
    })
}

/// Parses an expression from a copy of the reader, and keeps the copy's progress
/// only when `f` accepts the copy afterwards.
pub fn is_expression_and<F: Fn(&TokenReader) -> bool>(reader: &mut TokenReader, f: F) -> (r: Option<Expression>)
    requires
        tokens_valued(old(reader).toks()),
        forall|rd: &TokenReader| call_requires(f, (rd,)),
    ensures
        old(reader).same_or_further(&*final(reader)),
        r is None ==> *final(reader) == *old(reader),
        r matches Some(e) ==> {
            &&& final(reader).pos() > old(reader).pos()
            &&& expr_toks(e) == kept(old(reader).toks().subrange(old(reader).pos(), final(reader).pos()))
            &&& expr_wf(e)
            &&& call_ensures(f, (&*final(reader),), true)
            &&& expr_starts(*old(reader))
        },
    decreases old(reader).remaining(), 70nat,
{
    let mut checker = *reader;
    match parse_expression(&mut checker) {
        Ok(Some(expression)) => {
            if f(&checker) {
                *reader = checker;
                Some(expression)
            } else {
                None
            }
        },
        _ => None,
    }
}

/// An expression, or an error when there is none.
pub fn expect_expression(reader: &mut TokenReader) -> (r: ParserResult<Expression>)
    requires
        tokens_valued(old(reader).toks()),
    ensures
        expr_expected(*old(reader), *final(reader), r),
        atom_at(*old(reader)) ==> r == Ok::<Expression, ParserError>(atom_expr(*old(reader))) && final(reader).pos()
            == old(reader).pos() + 1,
    decreases old(reader).remaining(), 61nat,
{
    match parse_expression(reader)? {
        Some(e) => Ok(e),
        None => Err(ParserError::ExpectedExpression(reader.current())),
    }
}

/// An expression: a chain of binary operations over unary expressions, each
/// level of precedence joined from the left (`level_shaped` at the loosest).
pub fn parse_expression(reader: &mut TokenReader) -> (r: ParserResult<Option<Expression>>)
    requires
        tokens_valued(old(reader).toks()),
    ensures
        expr_parsed(*old(reader), *final(reader), r),
        r matches Ok(Some(e)) ==> level_shaped(e, 5),
        r matches Ok(None) <==> !expr_starts(*old(reader)),
        atom_parsed(*old(reader), *final(reader), r),
    decreases old(reader).remaining(), 60nat,
{
    parse_binary_expr(reader, 5)
}

/// The operator kinds of each precedence level, loosest first: `&&`; `||`;
/// `==`, `!=`; `>=`, `>`, `<=`, `<`; `+`, `-`; `*`, `/`, `%`.
pub open spec fn level_ops(level: nat) -> Seq<TokenType> {
    if level == 5 {
        seq![TokenType::AndAnd]
    } else if level == 4 {
        seq![TokenType::PipePipe]
    } else if level == 3 {
        seq![TokenType::EqualEqual, TokenType::BangEqual]
    } else if level == 2 {
        seq![TokenType::GreaterEqual, TokenType::GreaterThan, TokenType::LessEqual, TokenType::LessThan]
    } else if level == 1 {
        seq![TokenType::Plus, TokenType::Minus]
    } else {
        seq![TokenType::Multiply, TokenType::Divide, TokenType::Modulus]
    }
}

/// Each precedence level of the parser holds exactly the operator tokens of
/// that precedence: a token is an operator of level `level` if and only if it
/// stands for a binary operator that binds as tightly as `level` says (so `/`
/// joins `*` and `%` on the tightest level, and `+` and `-` bind less tightly).
pub proof fn lemma_level_ops_precedence(level: nat, t: TokenType)
    requires
        level <= 5,
    ensures
        level_ops(level).contains(t) <==> (binary_op_of(t) is Some && op_precedence(binary_op_of(t)->0) == level),
{
    let ops = level_ops(level);
    if ops.contains(t) {
        let i = choose|i: int| 0 <= i < ops.len() && ops[i] == t;
        if i == 0 {
        } else if i == 1 {
        } else if i == 2 {
        } else {
        }
    }
    if binary_op_of(t) is Some && op_precedence(binary_op_of(t)->0) == level {
        match t {
            TokenType::Multiply | TokenType::Plus | TokenType::GreaterEqual | TokenType::EqualEqual | TokenType::PipePipe
            | TokenType::AndAnd => {
                assert(ops[0] == t);
            },
            TokenType::Divide | TokenType::Minus | TokenType::GreaterThan | TokenType::BangEqual => {
                assert(ops[1] == t);
            },
            TokenType::Modulus | TokenType::LessEqual => {
                assert(ops[2] == t);
            },
            TokenType::LessThan => {
                assert(ops[3] == t);
            },
            _ => {},
        }
    }
}

/// An operator binds more tightly than another exactly when its level comes
/// first: in `a + b / c` the division is the right operand of the addition.
pub proof fn lemma_tighter_level_first(l1: nat, l2: nat, t1: TokenType, t2: TokenType)
    requires
        l1 <= 5,
        l2 <= 5,
        level_ops(l1).contains(t1),
        level_ops(l2).contains(t2),
    ensures
        l1 < l2 <==> op_precedence(binary_op_of(t1)->0) < op_precedence(binary_op_of(t2)->0),
{
    lemma_level_ops_precedence(l1, t1);
    lemma_level_ops_precedence(l2, t2);
}

fn level_ops_vec(level: u8) -> (r: Vec<TokenType>)
    requires
        level <= 5,
    ensures
        r@ == level_ops(level as nat),
        forall|i: int| 0 <= i < r@.len() ==> is_binary_kind(#[trigger] r@[i]) && r@[i] != TokenType::Comma,
{
    let r = if level == 5 {
        vec![TokenType::AndAnd]
    } else if level == 4 {
        vec![TokenType::PipePipe]
    } else if level == 3 {
        vec![TokenType::EqualEqual, TokenType::BangEqual]
    } else if level == 2 {
        vec![TokenType::GreaterEqual, TokenType::GreaterThan, TokenType::LessEqual, TokenType::LessThan]
    } else if level == 1 {
        vec![TokenType::Plus, TokenType::Minus]
    } else {
        vec![TokenType::Multiply, TokenType::Divide, TokenType::Modulus]
    };
    assert(r@ =~= level_ops(level as nat));
    r
}

/// A construction starts at the reader: a type name, then `{` and `name:`,
/// or `{ }`.
pub open spec fn construction_starts(rd: TokenReader) -> bool {
    let toks = rd.toks();
    scan_type(toks, rd.pos()) matches Some(Some(end)) && type_at(toks, end) == Some(TokenType::OpenBrace) && (
    (type_at(toks, end + 1) == Some(TokenType::Identifier) && type_at(toks, end + 2) == Some(TokenType::Colon))
        || type_at(toks, end + 1) == Some(TokenType::CloseBrace))
}

/// A lambda starts at the reader: `name =>`, `||` or `|`.
pub open spec fn lambda_starts(rd: TokenReader) -> bool {
    ||| rd.cur_type() == Some(TokenType::Identifier) && type_at(rd.toks(), rd.pos() + 1) == Some(TokenType::ThickArrow)
    ||| rd.cur_type() == Some(TokenType::PipePipe)
    ||| rd.cur_type() == Some(TokenType::Pipe)
}

/// A literal token.
pub open spec fn literal_kind(t: TokenType) -> bool {
    ||| t == TokenType::IntegerLiteral
    ||| t == TokenType::StringLiteral
    ||| t == TokenType::FloatLiteral
    ||| t == TokenType::SelfVal
    ||| t == TokenType::True
    ||| t == TokenType::False
    ||| t == TokenType::Null
}

/// A primary expression starts at the reader.
pub open spec fn primary_starts(rd: TokenReader) -> bool {
    ||| construction_starts(rd)
    ||| rd.cur_type() == Some(TokenType::OpenParen)
    ||| lambda_starts(rd)
    ||| rd.cur_type() == Some(TokenType::OpenBracket)
    ||| rd.cur_type() matches Some(t) && literal_kind(t)
    ||| rd.cur_type() == Some(TokenType::Identifier)
}

/// An expression starts at the reader: `!` or `-`, or a primary expression.
pub open spec fn expr_starts(rd: TokenReader) -> bool {
    ||| rd.cur_type() == Some(TokenType::Bang)
    ||| rd.cur_type() == Some(TokenType::Minus)
    ||| primary_starts(rd)
}

/// A token kind that ends an expression it follows: `;`, `,`, a closing
/// bracket of any kind, or the end of the file.
pub open spec fn closes_expression(t: Option<TokenType>) -> bool {
    ||| t == Some(TokenType::SemiColon)
    ||| t == Some(TokenType::Comma)
    ||| t == Some(TokenType::CloseParen)
    ||| t == Some(TokenType::CloseBracket)
    ||| t == Some(TokenType::CloseBrace)
    ||| t == Some(TokenType::EOF)
}

/// At `p` stands a single literal or name, and a token that ends an
/// expression follows it.
pub open spec fn atom_in(toks: Seq<Token>, p: int) -> bool {
    &&& (type_at(toks, p) == Some(TokenType::Identifier) || (type_at(toks, p) matches Some(t) && literal_kind(t)))
    &&& closes_expression(type_at(toks, p + 1))
}

/// The same, at the reader.
pub open spec fn atom_at(rd: TokenReader) -> bool {
    atom_in(rd.toks(), rd.pos())
}

/// The expression of the single token at `p`: a name or a literal.
pub open spec fn atom_expr_in(toks: Seq<Token>, p: int) -> Expression {
    if type_at(toks, p) == Some(TokenType::Identifier) {
        Expression::Identifier(toks[p])
    } else {
        Expression::Literal(toks[p])
    }
}

/// The same, at the reader.
pub open spec fn atom_expr(rd: TokenReader) -> Expression {
    atom_expr_in(rd.toks(), rd.pos())
}

/// A single literal or name that a closing token follows is parsed as that
/// expression, and the reader moves past it.
pub open spec fn atom_parsed(old_r: TokenReader, new_r: TokenReader, r: ParserResult<Option<Expression>>) -> bool {
    atom_at(old_r) ==> r == Ok::<Option<Expression>, ParserError>(Some(atom_expr(old_r))) && new_r.pos() == old_r.pos() + 1
}

/// No operator of a binary level ends an expression.
proof fn lemma_closer_not_op(level: nat, t: TokenType)
    requires
        closes_expression(Some(t)),
    ensures
        !level_ops(level).contains(t),
{
    let ops = level_ops(level);
    if ops.contains(t) {
        let i = choose|i: int| 0 <= i < ops.len() && ops[i] == t;
        if i == 0 {
        } else if i == 1 {
        } else if i == 2 {
        } else {
        }
    }
}

/// An operand of the tightest binary level: anything but a binary operation
/// (a parenthesised one is a group).
pub open spec fn operand(e: Expression) -> bool {
    !(e is Binary)
}

/// `e` has the shape of an expression of precedence level `level`: operators
/// of this level join, from the left, expressions of the tighter levels.
pub open spec fn level_shaped(e: Expression, level: nat) -> bool
    decreases e, 2 * level + 1,
{
    match e {
        Expression::Binary(b) => if level_ops(level).contains(b.operator.token_type) {
            level_shaped(*b.left, level) && lower_shaped(*b.right, level)
        } else {
            lower_shaped(e, level)
        },
        _ => lower_shaped(e, level),
    }
}

/// `e` has the shape of an expression of a level tighter than `level`.
pub open spec fn lower_shaped(e: Expression, level: nat) -> bool
    decreases e, 2 * level,
{
    if level == 0 {
        operand(e)
    } else {
        level_shaped(e, (level - 1) as nat)
    }
}

/// A binary operation shaped as a tighter level than `level` has an operator
/// of a tighter level.
proof fn lemma_lower_op(e: Expression, level: nat)
    requires
        lower_shaped(e, level),
        e is Binary,
    ensures
        exists|k: nat| k < level && #[trigger] level_ops(k).contains(e->Binary_0.operator.token_type),
    decreases level,
{
    let op = e->Binary_0.operator.token_type;
    if level > 0 {
        let l = (level - 1) as nat;
        if !level_ops(l).contains(op) {
            lemma_lower_op(e, l);
            let k = choose|k: nat| k < l && #[trigger] level_ops(k).contains(op);
            assert(level_ops(k).contains(op));
        } else {
            assert(level_ops(l).contains(op));
        }
    }
}

/// What is shaped as a tighter level is shaped as this one.
proof fn lemma_lower_shaped(e: Expression, level: nat)
    requires
        lower_shaped(e, level),
        level <= 5,
    ensures
        level_shaped(e, level),
{
    match e {
        Expression::Binary(b) => {
            if level_ops(level).contains(b.operator.token_type) {
                lemma_lower_op(e, level);
                let k = choose|k: nat| k < level && #[trigger] level_ops(k).contains(b.operator.token_type);
                assert(level_ops(k).contains(b.operator.token_type));
                assert(false);
            }
        },
        _ => {},
    }
}

/// The next tighter level: the binary level below, or unary expressions.
fn parse_lower(reader: &mut TokenReader, level: u8) -> (r: ParserResult<Option<Expression>>)
    requires
        level <= 5,
        tokens_valued(old(reader).toks()),
    ensures
        expr_parsed(*old(reader), *final(reader), r),
        r matches Ok(Some(e)) ==> lower_shaped(e, level as nat),
        r matches Ok(None) <==> !expr_starts(*old(reader)),
        atom_parsed(*old(reader), *final(reader), r),
    decreases old(reader).remaining(), 19 + 2 * level,
{
    if level == 0 {
        parse_unary(reader)
    } else {
        parse_binary_expr(reader, level - 1)
    }
}

/// Operands of the tighter level joined, from left to right, by the operators
/// of this level.
fn parse_binary_expr(reader: &mut TokenReader, level: u8) -> (r: ParserResult<Option<Expression>>)
    requires
        level <= 5,
        tokens_valued(old(reader).toks()),
    ensures
        expr_parsed(*old(reader), *final(reader), r),
        r matches Ok(Some(e)) ==> level_shaped(e, level as nat),
        r matches Ok(None) <==> !expr_starts(*old(reader)),
        atom_parsed(*old(reader), *final(reader), r),
    decreases old(reader).remaining(), 20 + 2 * level,
{
    let ghost start = reader.pos();
    let ghost toks = reader.toks();
    let ops = level_ops_vec(level);
    let mut left = match parse_lower(reader, level)? {
        Some(l) => l,
        None => return Ok(None),
    };
    proof {
        lemma_lower_shaped(left, level as nat);
    }
    loop
        invariant
            level <= 5,
            tokens_valued(toks),
            reader.toks() == toks,
            old(reader).toks() == toks,
            old(reader).pos() == start,
            0 <= start < reader.pos() <= toks.len(),
            expr_toks(left) == kept(toks.subrange(start, reader.pos())),
            expr_wf(left),
            expr_starts(*old(reader)),
            level_shaped(left, level as nat),
            atom_at(*old(reader)) ==> left == atom_expr(*old(reader)) && reader.pos() == start + 1,
            ops@ == level_ops(level as nat),
            forall|i: int| 0 <= i < ops@.len() ==> is_binary_kind(#[trigger] ops@[i]) && ops@[i] != TokenType::Comma,
        decreases reader.remaining(),
    {
        let ghost op_pos = reader.pos();
        proof {
            if atom_at(*old(reader)) {
                lemma_closer_not_op(level as nat, toks[start + 1].token_type);
            }
        }
        let operator = match reader.check_many(ops.as_slice()) {
            Some(op) => op,
            None => break,
        };
        let ghost after_op = reader.pos();
        let right = match parse_lower(reader, level)? {
            Some(e) => e,
            None => return Err(ParserError::ExpectedExpression(reader.current())),
        };
        proof {
            assert(operator == toks[op_pos]);
            assert(ops@.contains(operator.token_type));
            assert(operator.token_type != TokenType::Comma);
            lemma_kept_tok(toks, op_pos);
            lemma_kept_join(toks, start, op_pos, after_op, expr_toks(left), seq![operator]);
            lemma_kept_join(toks, start, after_op, reader.pos(), expr_toks(left) + seq![operator], expr_toks(right));
        }
        left = Expression::Binary(BinaryExpr { left: Box::new(left), operator, right: Box::new(right) });
    }
    Ok(Some(left))
}

/// `!e` or `-e` (nested as often as written), or a call expression.
fn parse_unary(reader: &mut TokenReader) -> (r: ParserResult<Option<Expression>>)
    requires
        tokens_valued(old(reader).toks()),
    ensures
        expr_parsed(*old(reader), *final(reader), r),
        r matches Ok(Some(e)) ==> operand(e),
        r matches Ok(None) <==> !expr_starts(*old(reader)),
        atom_parsed(*old(reader), *final(reader), r),
    decreases old(reader).remaining(), 18nat,
{
    let ghost start = reader.pos();
    let ghost toks = reader.toks();
    if let Some(operator) = reader.check_many(&[TokenType::Bang, TokenType::Minus]) {
        let ghost mid = reader.pos();
        let expression = match parse_unary(reader)? {
            Some(e) => e,
            None => return Err(ParserError::ExpectedExpression(reader.current())),
        };
        proof {
            assert(operator.token_type == TokenType::Bang || operator.token_type == TokenType::Minus);
            lemma_kept_tok(toks, start);
            lemma_kept_join(toks, start, mid, reader.pos(), seq![operator], expr_toks(expression));
        }
        Ok(Some(Expression::Unary(UnaryExpr { expression: Box::new(expression), operator })))
    } else {
        parse_call(reader)
    }
}

/// A cast expression followed by any number of calls `(args)`, indexings `[e]`
/// and member accesses `.name`.
fn parse_call(reader: &mut TokenReader) -> (r: ParserResult<Option<Expression>>)
    requires
        tokens_valued(old(reader).toks()),
    ensures
        expr_parsed(*old(reader), *final(reader), r),
        r matches Ok(Some(e)) ==> operand(e),
        r matches Ok(None) <==> !primary_starts(*old(reader)),
        atom_parsed(*old(reader), *final(reader), r),
    decreases old(reader).remaining(), 17nat,
{
    let ghost start = reader.pos();
    let callee = match parse_cast(reader)? {
        Some(c) => c,
        None => return Ok(None),
    };
    parse_call_args(reader, callee, Ghost(start))
}

fn parse_call_args(reader: &mut TokenReader, callee: Expression, Ghost(start): Ghost<int>) -> (r: ParserResult<Option<Expression>>)
    requires
        tokens_valued(old(reader).toks()),
        0 <= start < old(reader).pos(),
        expr_toks(callee) == kept(old(reader).toks().subrange(start, old(reader).pos())),
        expr_wf(callee),
        operand(callee),
    ensures
        r matches Ok(Some(e)) ==> operand(e),
        !(old(reader).cur_type() matches Some(t) && (t == TokenType::OpenParen || t == TokenType::OpenBracket || t
            == TokenType::Dot)) ==> r == Ok::<Option<Expression>, ParserError>(Some(callee)) && *final(reader) == *old(reader),
        old(reader).same_or_further(&*final(reader)),
        r matches Ok(Some(e)) ==> expr_toks(e) == kept(old(reader).toks().subrange(start, final(reader).pos()))
            && expr_wf(e),
        !(r matches Ok(None)),
    decreases old(reader).remaining(), 16nat,
{
    let ghost toks = reader.toks();
    let ghost p0 = reader.pos();
    if let Some(open_paren) = reader.check(TokenType::OpenParen) {
        let ghost list_start = reader.pos();
        proof {
            lemma_kept_tok(toks, p0);
            lemma_kept_join(toks, start, p0, list_start, expr_toks(callee), seq![open_paren]);
            lemma_kept_empty(toks, list_start);
        }
        let mut args: Vec<Expression> = Vec::new();
        while !reader.current_is(&[TokenType::CloseParen])
            invariant
                tokens_valued(toks),
                reader.toks() == toks,
                0 <= start < p0 < list_start <= reader.pos() <= toks.len(),
                old(reader).pos() == p0,
                old(reader).toks() == toks,
                old(reader).cur_type() == Some(TokenType::OpenParen),
                exprs_toks(args@) == kept(toks.subrange(list_start, reader.pos())),
                exprs_wf(args@),
            decreases reader.remaining(),
        {
            let ghost before = reader.pos();
            let expression = match parse_expression(reader)? {
                Some(e) => e,
                None => return Err(ParserError::ExpectedExpression(reader.current())),
            };
            proof {
                lemma_kept_join(toks, list_start, before, reader.pos(), exprs_toks(args@), expr_toks(expression));
                assert(args@.push(expression).drop_last() =~= args@);
            }
            args.push(expression);
            if !reader.current_is(&[TokenType::CloseParen, TokenType::Comma]) {
                return Err(ParserError::ExpectedToken(TokenType::CloseParen, reader.current()));
            }
            let ghost at_sep = reader.pos();
            if reader.check(TokenType::Comma).is_some() {
                proof {
                    lemma_kept_one(toks, at_sep);
                    lemma_kept_split(toks, list_start, at_sep, reader.pos());
                    assert(exprs_toks(args@) + Seq::<Token>::empty() =~= exprs_toks(args@));
                }
            }
        }
        let ghost list_end = reader.pos();
        let close_paren = reader.expect(TokenType::CloseParen)?;
        proof {
            lemma_kept_tok(toks, list_end);
            lemma_kept_join(toks, start, list_start, list_end, expr_toks(callee) + seq![open_paren], exprs_toks(args@));
            lemma_kept_join(toks, start, list_end, reader.pos(), expr_toks(callee) + seq![open_paren] + exprs_toks(args@), seq![close_paren]);
        }
        let call = Expression::Call(CallExpr { expression: Box::new(callee), open_paren, args, close_paren });
        parse_call_args(reader, call, Ghost(start))
    } else if let Some(open_bracket) = reader.check(TokenType::OpenBracket) {
        let ghost p1 = reader.pos();
        let arg = expect_expression(reader)?;
        let ghost p2 = reader.pos();
        let close_bracket = reader.expect(TokenType::CloseBracket)?;
        proof {
            lemma_kept_tok(toks, p0);
            lemma_kept_tok(toks, p2);
            lemma_kept_join(toks, start, p0, p1, expr_toks(callee), seq![open_bracket]);
            lemma_kept_join(toks, start, p1, p2, expr_toks(callee) + seq![open_bracket], expr_toks(arg));
            lemma_kept_join(toks, start, p2, reader.pos(), expr_toks(callee) + seq![open_bracket] + expr_toks(arg), seq![close_bracket]);
        }
        let index = Expression::Index(IndexExpr {
            expression: Box::new(callee),
            open_bracket,
            indexer: Box::new(arg),
            close_bracket,
        });
        parse_call_args(reader, index, Ghost(start))
    } else if let Some(dot) = reader.check(TokenType::Dot) {
        let ghost p1 = reader.pos();
        let identifier = reader.expect(TokenType::Identifier)?;
        proof {
            lemma_kept_tok(toks, p0);
            lemma_kept_tok(toks, p1);
            lemma_kept_join(toks, start, p0, p1, expr_toks(callee), seq![dot]);
            lemma_kept_join(toks, start, p1, reader.pos(), expr_toks(callee) + seq![dot], seq![identifier]);
            assert(expr_toks(callee) + seq![dot] + seq![identifier] =~= expr_toks(callee) + seq![dot, identifier]);
            assert(token_valued(toks[p1]));
        }
        let access = Expression::Access(AccessExpr { expression: Box::new(callee), dot, identifier });
        parse_call_args(reader, access, Ghost(start))
    } else {
        Ok(Some(callee))
    }
}


/// A primary expression, optionally followed by `as Type`.
fn parse_cast(reader: &mut TokenReader) -> (r: ParserResult<Option<Expression>>)
    requires
        tokens_valued(old(reader).toks()),
    ensures
        expr_parsed(*old(reader), *final(reader), r),
        r matches Ok(Some(e)) ==> operand(e),
        r matches Ok(None) <==> !primary_starts(*old(reader)),
        atom_parsed(*old(reader), *final(reader), r),
    decreases old(reader).remaining(), 16nat,
{
    let ghost start = reader.pos();
    let ghost toks = reader.toks();
    let expression = match parse_primary(reader)? {
        Some(e) => e,
        None => return Ok(None),
    };
    let ghost p1 = reader.pos();
    if let Some(as_tok) = reader.check(TokenType::As) {
        let ghost p2 = reader.pos();
        let type_ref = expect_type_name(reader)?;
        proof {
            lemma_kept_tok(toks, p1);
            lemma_kept_join(toks, start, p1, p2, expr_toks(expression), seq![as_tok]);
            lemma_kept_join(toks, start, p2, reader.pos(), expr_toks(expression) + seq![as_tok], type_toks(type_ref));
        }
        Ok(Some(Expression::Cast(CastExpr { expression: Box::new(expression), as_tok, type_ref })))
    } else {
        Ok(Some(expression))
    }
}

/// A construction, a parenthesised expression, a lambda, an array literal, a
/// literal or a name.
fn parse_primary(reader: &mut TokenReader) -> (r: ParserResult<Option<Expression>>)
    requires
        tokens_valued(old(reader).toks()),
    ensures
        expr_parsed(*old(reader), *final(reader), r),
        r matches Ok(Some(e)) ==> operand(e),
        r matches Ok(None) <==> !primary_starts(*old(reader)),
        (old(reader).cur_type() matches Some(t) && literal_kind(t)) ==> r == Ok::<Option<Expression>, ParserError>(
            Some(Expression::Literal(old(reader).toks()[old(reader).pos()])),
        ),
        old(reader).cur_type() == Some(TokenType::Identifier) && !construction_starts(*old(reader)) && !lambda_starts(*old(reader))
            ==> r == Ok::<Option<Expression>, ParserError>(Some(Expression::Identifier(old(reader).toks()[old(reader).pos()]))),
        atom_parsed(*old(reader), *final(reader), r),
    decreases old(reader).remaining(), 15nat,
{
    let ghost start = reader.pos();
    let ghost toks = reader.toks();
    if let Some(construction) = parse_construction_expression(reader)? {
        Ok(Some(construction))
    } else if let Some(grouping) = parse_grouping(reader)? {
        Ok(Some(grouping))
    } else if let Some(lambda) = parse_lambda(reader)? {
        Ok(Some(lambda))
    } else if let Some(array) = parse_array_literal(reader)? {
        Ok(Some(array))
    } else if let Some(literal) = reader.check_many(
        &[
            TokenType::IntegerLiteral,
            TokenType::StringLiteral,
            TokenType::FloatLiteral,
            TokenType::SelfVal,
            TokenType::True,
            TokenType::False,
            TokenType::Null,
        ],
    ) {
        proof {
            lemma_kept_tok(toks, start);
            assert(token_valued(toks[start]));
        }
        Ok(Some(Expression::Literal(literal)))
    } else if let Some(id) = reader.check(TokenType::Identifier) {
        proof {
            lemma_kept_tok(toks, start);
            assert(token_valued(toks[start]));
        }
        Ok(Some(Expression::Identifier(id)))
    } else {
        Ok(None)
    }
}

/// `name: value` inside a construction.
fn parse_construction_arg(reader: &mut TokenReader) -> (r: ParserResult<ConstructionArg>)
    requires
        tokens_valued(old(reader).toks()),
    ensures
        old(reader).same_or_further(&*final(reader)),
        r matches Ok(a) ==> construction_args_toks(seq![a]) == kept(old(reader).toks().subrange(
            old(reader).pos(),
            final(reader).pos(),
        )) && construction_args_wf(seq![a]),
    decreases old(reader).remaining(), 13nat,
{
    let ghost start = reader.pos();
    let ghost toks = reader.toks();
    let name = reader.expect(TokenType::Identifier)?;
    let colon = reader.expect(TokenType::Colon)?;
    let ghost p2 = reader.pos();
    let value = match parse_expression(reader)? {
        Some(e) => e,
        None => return Err(ParserError::ExpectedExpression(reader.current())),
    };
    proof {
        lemma_kept_tok(toks, start);
        lemma_kept_tok(toks, start + 1);
        lemma_kept_join(toks, start, start + 1, p2, seq![name], seq![colon]);
        lemma_kept_join(toks, start, p2, reader.pos(), seq![name] + seq![colon], expr_toks(value));
        assert(token_valued(toks[start]));
        assert(seq![name] + seq![colon] =~= seq![name, colon]);
    }
    let arg = ConstructionArg { name, colon, value: Box::new(value) };
    proof {
        lemma_cargs_single(arg);
    }
    Ok(arg)
}

proof fn lemma_cargs_single(a: ConstructionArg)
    ensures
        construction_args_toks(seq![a]) == seq![a.name, a.colon] + expr_toks(*a.value),
        construction_args_wf(seq![a]) == (a.name.token_type == TokenType::Identifier && token_valued(a.name)
            && expr_wf(*a.value)),
{
    reveal_with_fuel(construction_args_toks, 2);
    reveal_with_fuel(construction_args_wf, 2);
    assert(seq![a].drop_last() =~= Seq::<ConstructionArg>::empty());
    assert(Seq::<Token>::empty() + seq![a.name, a.colon] + expr_toks(*a.value) =~= seq![a.name, a.colon]
        + expr_toks(*a.value));
}

/// `Type { name: value, ... }` (also `Type {}`), recognised when the type is
/// followed by `{` and then `name :` or `}`.
fn parse_construction_expression(reader: &mut TokenReader) -> (r: ParserResult<Option<Expression>>)
    requires
        tokens_valued(old(reader).toks()),
    ensures
        expr_parsed(*old(reader), *final(reader), r),
        r matches Ok(Some(e)) ==> operand(e),
        r matches Ok(None) <==> !construction_starts(*old(reader)),
    decreases old(reader).remaining(), 14nat,
{
    let ghost start = reader.pos();
    let ghost toks = reader.toks();
    if let Some((type_ref, offset)) = super::type_parsing::peek_type(reader) {
        if reader.peek_sequence_is(offset, &[TokenType::OpenBrace, TokenType::Identifier, TokenType::Colon])
            || reader.peek_sequence_is(offset, &[TokenType::OpenBrace, TokenType::CloseBrace])
        {
            let _ = reader.advance_count(offset);
            let ghost p1 = reader.pos();
            let open_brace = reader.expect(TokenType::OpenBrace)?;
            let ghost list_start = reader.pos();
            proof {
                lemma_kept_tok(toks, p1);
                lemma_kept_join(toks, start, p1, list_start, type_toks(type_ref), seq![open_brace]);
                lemma_kept_empty(toks, list_start);
            }
            let mut args: Vec<ConstructionArg> = Vec::new();
            while !reader.current_is(&[TokenType::CloseBrace])
                invariant
                    tokens_valued(toks),
                    reader.toks() == toks,
                    old(reader).toks() == toks,
                    old(reader).pos() == start,
                    0 <= start < list_start <= reader.pos() <= toks.len(),
                    construction_args_toks(args@) == kept(toks.subrange(list_start, reader.pos())),
                    construction_args_wf(args@),
                    construction_starts(*old(reader)),
                decreases reader.remaining(),
            {
                let ghost before = reader.pos();
                let arg = parse_construction_arg(reader)?;
                proof {
                    lemma_kept_join(toks, list_start, before, reader.pos(), construction_args_toks(args@), construction_args_toks(seq![arg]));
                    lemma_cargs_single(arg);
                    assert(args@.push(arg).drop_last() =~= args@);
                }
                args.push(arg);
                if !reader.current_is(&[TokenType::CloseBrace, TokenType::Comma]) {
                    return Err(ParserError::ExpectedToken(TokenType::CloseBrace, reader.current()));
                }
                let ghost at_sep = reader.pos();
                if reader.check(TokenType::Comma).is_some() {
                    proof {
                        lemma_kept_one(toks, at_sep);
                        lemma_kept_split(toks, list_start, at_sep, reader.pos());
                        assert(construction_args_toks(args@) + Seq::<Token>::empty() =~= construction_args_toks(args@));
                    }
                }
            }
            let ghost list_end = reader.pos();
            let close_brace = reader.expect(TokenType::CloseBrace)?;
            proof {
                lemma_kept_tok(toks, list_end);
                lemma_kept_join(toks, start, list_start, list_end, type_toks(type_ref) + seq![open_brace], construction_args_toks(args@));
                lemma_kept_join(toks, start, list_end, reader.pos(), type_toks(type_ref) + seq![open_brace] + construction_args_toks(args@), seq![close_brace]);
            }
            return Ok(Some(Expression::Construction(ConstructionExpr { type_ref, open_brace, args, close_brace })));
        }
    }
    Ok(None)
}

/// `[e, ...]`, with an optional trailing comma.
fn parse_array_literal(reader: &mut TokenReader) -> (r: ParserResult<Option<Expression>>)
    requires
        tokens_valued(old(reader).toks()),
    ensures
        expr_parsed(*old(reader), *final(reader), r),
        r matches Ok(Some(e)) ==> operand(e),
        r matches Ok(None) <==> old(reader).cur_type() != Some(TokenType::OpenBracket),
    decreases old(reader).remaining(), 14nat,
{
    let ghost start = reader.pos();
    let ghost toks = reader.toks();
    if let Some(open_bracket) = reader.check(TokenType::OpenBracket) {
        let ghost list_start = reader.pos();
        proof {
            lemma_kept_tok(toks, start);
            lemma_kept_empty(toks, list_start);
        }
        let mut expressions: Vec<Expression> = Vec::new();
        while !reader.current_is(&[TokenType::CloseBracket])
            invariant
                tokens_valued(toks),
                reader.toks() == toks,
                old(reader).toks() == toks,
                old(reader).pos() == start,
                0 <= start < list_start <= reader.pos() <= toks.len(),
                list_start == start + 1,
                exprs_toks(expressions@) == kept(toks.subrange(list_start, reader.pos())),
                exprs_wf(expressions@),
                old(reader).cur_type() == Some(TokenType::OpenBracket),
            decreases reader.remaining(),
        {
            let ghost before = reader.pos();
            let expression = match parse_expression(reader)? {
                Some(e) => e,
                None => return Err(ParserError::ExpectedExpression(reader.current())),
            };
            proof {
                lemma_kept_join(toks, list_start, before, reader.pos(), exprs_toks(expressions@), expr_toks(expression));
                assert(expressions@.push(expression).drop_last() =~= expressions@);
            }
            expressions.push(expression);
            if !reader.current_is(&[TokenType::CloseBracket, TokenType::Comma]) {
                return Err(ParserError::ExpectedToken(TokenType::CloseBracket, reader.current()));
            }
            let ghost at_sep = reader.pos();
            if reader.check(TokenType::Comma).is_some() {
                proof {
                    lemma_kept_one(toks, at_sep);
                    lemma_kept_split(toks, list_start, at_sep, reader.pos());
                    assert(exprs_toks(expressions@) + Seq::<Token>::empty() =~= exprs_toks(expressions@));
                }
            }
        }
        let ghost list_end = reader.pos();
        let close_bracket = reader.expect(TokenType::CloseBracket)?;
        proof {
            lemma_kept_tok(toks, list_end);
            lemma_kept_join(toks, start, list_start, list_end, seq![open_bracket], exprs_toks(expressions@));
            lemma_kept_join(toks, start, list_end, reader.pos(), seq![open_bracket] + exprs_toks(expressions@), seq![close_bracket]);
        }
        Ok(Some(Expression::ArrayLiteral(ArrayLiteral { open_bracket, expressions, close_bracket })))
    } else {
        Ok(None)
    }
}

/// `( e )`.
fn parse_grouping(reader: &mut TokenReader) -> (r: ParserResult<Option<Expression>>)
    requires
        tokens_valued(old(reader).toks()),
    ensures
        expr_parsed(*old(reader), *final(reader), r),
        r matches Ok(Some(e)) ==> operand(e),
        r matches Ok(None) <==> old(reader).cur_type() != Some(TokenType::OpenParen),
    decreases old(reader).remaining(), 14nat,
{
    let ghost start = reader.pos();
    let ghost toks = reader.toks();
    if let Some(open_paren) = reader.check(TokenType::OpenParen) {
        let ghost p1 = reader.pos();
        let expression = match parse_expression(reader)? {
            Some(e) => e,
            None => return Err(ParserError::ExpectedExpression(reader.current())),
        };
        let ghost p2 = reader.pos();
        let close_paren = reader.expect(TokenType::CloseParen)?;
        proof {
            lemma_kept_tok(toks, start);
            lemma_kept_tok(toks, p2);
            lemma_kept_join(toks, start, p1, p2, seq![open_paren], expr_toks(expression));
            lemma_kept_join(toks, start, p2, reader.pos(), seq![open_paren] + expr_toks(expression), seq![close_paren]);
        }
        Ok(Some(Expression::Grouping(GroupingExpr { open_paren, expression: Box::new(expression), close_paren })))
    } else {
        Ok(None)
    }
}

/// `name` or `name: Type` inside `|...|`.
fn parse_lambda_param(reader: &mut TokenReader) -> (r: ParserResult<Option<LambdaParam>>)
    requires
        tokens_valued(old(reader).toks()),
    ensures
        old(reader).same_or_further(&*final(reader)),
        r matches Ok(None) ==> *final(reader) == *old(reader),
        r matches Ok(Some(p)) ==> final(reader).pos() > old(reader).pos() && lambda_param_toks(p) == kept(
            old(reader).toks().subrange(old(reader).pos(), final(reader).pos()),
        ),
{
    let ghost start = reader.pos();
    let ghost toks = reader.toks();
    let name = match reader.check(TokenType::Identifier) {
        Some(n) => n,
        None => return Ok(None),
    };
    proof { lemma_kept_tok(toks, start); }
    if let Some(colon) = reader.check(TokenType::Colon) {
        let ghost p2 = reader.pos();
        let type_ref = expect_type_name(reader)?;
        proof {
            lemma_kept_tok(toks, start + 1);
            lemma_kept_join(toks, start, start + 1, p2, seq![name], seq![colon]);
            lemma_kept_join(toks, start, p2, reader.pos(), seq![name] + seq![colon], type_toks(type_ref));
        }
        Ok(Some(LambdaParam { name, colon: Some(colon), type_ref: Some(type_ref) }))
    } else {
        proof {
            assert(seq![name] + Seq::<Token>::empty() + Seq::<Token>::empty() =~= seq![name]);
        }
        Ok(Some(LambdaParam { name, colon: None, type_ref: None }))
    }
}

/// `| a, b: T, ... | -> R`, the parameter list of a lambda.
fn parse_lambda_params(reader: &mut TokenReader) -> (r: ParserResult<LambdaParams>)
    requires
        tokens_valued(old(reader).toks()),
    ensures
        old(reader).same_or_further(&*final(reader)),
        r matches Ok(p) ==> final(reader).pos() > old(reader).pos() && lambda_params_toks(p) == kept(
            old(reader).toks().subrange(old(reader).pos(), final(reader).pos()),
        ),
{
    let ghost start = reader.pos();
    let ghost toks = reader.toks();
    let open_pipe = reader.expect(TokenType::Pipe)?;
    let ghost list_start = reader.pos();
    proof {
        lemma_kept_tok(toks, start);
        lemma_kept_empty(toks, list_start);
    }
    let mut parameters: Vec<LambdaParam> = Vec::new();
    let mut found_pipe: Option<Token> = None;
    loop
        invariant_except_break
            tokens_valued(toks),
            reader.toks() == toks,
            old(reader).toks() == toks,
            old(reader).pos() == start,
            0 <= start < list_start <= reader.pos() <= toks.len(),
            list_start == start + 1,
            lambda_param_list_toks(parameters@) == kept(toks.subrange(list_start, reader.pos())),
        ensures
            reader.toks() == toks,
            0 <= start < list_start < reader.pos() <= toks.len(),
            lambda_param_list_toks(parameters@) == kept(toks.subrange(list_start, reader.pos() - 1)),
            found_pipe == Some(toks[reader.pos() - 1]),
            toks[reader.pos() - 1].token_type == TokenType::Pipe,
        decreases reader.remaining(),
    {
        let ghost before = reader.pos();
        if let Some(p) = reader.check(TokenType::Pipe) {
            found_pipe = Some(p);
            break;
        }
        let param = match parse_lambda_param(reader)? {
            Some(p) => p,
            None => return Err(ParserError::ExpectedALambdaParameter(reader.current())),
        };
        proof {
            lemma_kept_join(toks, list_start, before, reader.pos(), lambda_param_list_toks(parameters@), lambda_param_toks(param));
            assert(parameters@.push(param).drop_last() =~= parameters@);
        }
        parameters.push(param);
        if !reader.current_is(&[TokenType::Pipe, TokenType::Comma]) {
            return Err(ParserError::ExpectedToken(TokenType::Pipe, reader.current()));
        }
        let ghost at_sep = reader.pos();
        if reader.check(TokenType::Comma).is_some() {
            proof {
                lemma_kept_one(toks, at_sep);
                lemma_kept_split(toks, list_start, at_sep, reader.pos());
                assert(lambda_param_list_toks(parameters@) + Seq::<Token>::empty() =~= lambda_param_list_toks(parameters@));
            }
        }
    }
    let ghost after_pipe = reader.pos();
    let close_pipe = match found_pipe {
        Some(p) => p,
        None => return Err(ParserError::ExpectedToken(TokenType::Pipe, reader.current())),
    };
    proof {
        lemma_kept_tok(toks, after_pipe - 1);
        lemma_kept_join(toks, start, list_start, after_pipe - 1, seq![open_pipe], lambda_param_list_toks(parameters@));
        lemma_kept_join(toks, start, after_pipe - 1, after_pipe, seq![open_pipe] + lambda_param_list_toks(parameters@), seq![close_pipe]);
    }
    let arrow = reader.check(TokenType::ThinArrow);
    let ghost p_arrow = reader.pos();
    let return_type = if arrow.is_some() {
        let type_ref = match parse_type_name(reader)? {
            Some(t) => t,
            None => return Err(ParserError::ExpectedType(reader.current())),
        };
        Some(type_ref)
    } else {
        None
    };
    proof {
        if arrow is Some {
            lemma_kept_tok(toks, after_pipe);
        } else {
            lemma_kept_empty(toks, after_pipe);
        }
        lemma_kept_join(toks, start, after_pipe, p_arrow, seq![open_pipe] + lambda_param_list_toks(parameters@) + seq![close_pipe], opt_tok(arrow));
        if return_type is None {
            lemma_kept_empty(toks, p_arrow);
        }
        lemma_kept_join(toks, start, p_arrow, reader.pos(), seq![open_pipe] + lambda_param_list_toks(parameters@) + seq![close_pipe] + opt_tok(arrow), opt_type_toks(return_type));
    }
    Ok(LambdaParams::Complex { open_pipe, parameters, close_pipe, arrow, return_type })
}

/// A block, or else an expression.
fn parse_lambda_body(reader: &mut TokenReader) -> (r: ParserResult<LambdaBody>)
    requires
        tokens_valued(old(reader).toks()),
    ensures
        old(reader).same_or_further(&*final(reader)),
        r matches Ok(b) ==> match b {
            LambdaBody::Expr(e) => expr_toks(*e) == kept(old(reader).toks().subrange(old(reader).pos(), final(reader).pos())) && expr_wf(*e),
            LambdaBody::Block(bl) => block_toks(*bl) == kept(old(reader).toks().subrange(old(reader).pos(), final(reader).pos())) && block_wf(*bl),
        },
    decreases old(reader).remaining(), 85nat,
{
    if let Some(body) = parse_block_stmt(reader)? {
        Ok(LambdaBody::Block(Box::new(body)))
    } else if let Some(body) = parse_expression(reader)? {
        Ok(LambdaBody::Expr(Box::new(body)))
    } else {
        Err(ParserError::ExpectedALambdaBody(reader.current()))
    }
}

/// The tokens recorded by a lambda body.
pub open spec fn lambda_body_toks(b: LambdaBody) -> Seq<Token> {
    match b {
        LambdaBody::Expr(e) => expr_toks(*e),
        LambdaBody::Block(bl) => block_toks(*bl),
    }
}

/// A lambda: `x => body`, `|| -> R => body` or `|a: T, ...| -> R => body`.
fn parse_lambda(reader: &mut TokenReader) -> (r: ParserResult<Option<Expression>>)
    requires
        tokens_valued(old(reader).toks()),
    ensures
        expr_parsed(*old(reader), *final(reader), r),
        r matches Ok(Some(e)) ==> operand(e),
        r matches Ok(None) <==> !lambda_starts(*old(reader)),
    decreases old(reader).remaining(), 14nat,
{
    let ghost start = reader.pos();
    let ghost toks = reader.toks();
    if let Some(tokens) = reader.check_sequence(&[TokenType::Identifier, TokenType::ThickArrow]) {
        let name = tokens[0].clone();
        let arrow = tokens[1].clone();
        let ghost p1 = reader.pos();
        let body = parse_lambda_body(reader)?;
        proof {
            lemma_kept_tok(toks, start);
            lemma_kept_tok(toks, start + 1);
            lemma_kept_join(toks, start, start + 1, p1, seq![name], seq![arrow]);
            lemma_kept_join(toks, start, p1, reader.pos(), seq![name] + seq![arrow], lambda_body_toks(body));
        }
        let params = LambdaParams::Simple(name);
        return Ok(Some(Expression::Lambda(LambdaExpr { params, arrow, body })));
    }
    if let Some(pipes) = reader.check(TokenType::PipePipe) {
        let ghost p1 = reader.pos();
        proof { lemma_kept_tok(toks, start); }
        let return_type = if let Some(arrow) = reader.check(TokenType::ThinArrow) {
            let ghost p2 = reader.pos();
            let type_ref = expect_type_name(reader)?;
            proof {
                lemma_kept_tok(toks, p1);
                lemma_kept_join(toks, p1, p2, reader.pos(), seq![arrow], type_toks(type_ref));
            }
            Some((arrow, type_ref))
        } else {
            proof { lemma_kept_empty(toks, p1); }
            None
        };
        let ghost p3 = reader.pos();
        proof {
            lemma_kept_join(toks, start, p1, p3, seq![pipes], annotation_toks(return_type));
        }
        let params = LambdaParams::Empty { pipes, return_type };
        let arrow = reader.expect(TokenType::ThickArrow)?;
        let ghost p4 = reader.pos();
        let body = parse_lambda_body(reader)?;
        proof {
            lemma_kept_tok(toks, p3);
            lemma_kept_join(toks, start, p3, p4, lambda_params_toks(params), seq![arrow]);
            lemma_kept_join(toks, start, p4, reader.pos(), lambda_params_toks(params) + seq![arrow], lambda_body_toks(body));
        }
        return Ok(Some(Expression::Lambda(LambdaExpr { params, arrow, body })));
    }
    if reader.current_is(&[TokenType::Pipe]) {
        let params = parse_lambda_params(reader)?;
        let ghost p1 = reader.pos();
        let arrow = reader.expect(TokenType::ThickArrow)?;
        let ghost p2 = reader.pos();
        let body = parse_lambda_body(reader)?;
        proof {
            lemma_kept_tok(toks, p1);
            lemma_kept_join(toks, start, p1, p2, lambda_params_toks(params), seq![arrow]);
            lemma_kept_join(toks, start, p2, reader.pos(), lambda_params_toks(params) + seq![arrow], lambda_body_toks(body));
        }
        Ok(Some(Expression::Lambda(LambdaExpr { params, arrow, body })))
    } else {
        Ok(None)
    }
}

} // verus!
