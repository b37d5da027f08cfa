use vstd::prelude::*;
use crate::lexing::token::{Token, TokenType, TokenValue, is_assignment_token};
use super::ast::{
    TypeName, Expression, LambdaParams, LambdaParam, LambdaBody, ConstructionArg, BlockStmt,
    Statement, IfStmt, ElseBody, StructDeclMember, StructDecl, FnParam, FnDecl, Declaration,
};
use std::sync::Arc;

verus! {

/// The tokens of a list with the commas left out: the parser records every token
/// it reads except the commas that separate list items.
pub open spec fn kept(s: Seq<Token>) -> Seq<Token>
    decreases s.len(),
{
    if s.len() == 0 {
        Seq::empty()
    } else if s.last().token_type == TokenType::Comma {
        kept(s.drop_last())
    } else {
        kept(s.drop_last()).push(s.last())
    }
}

pub proof fn lemma_kept_add(a: Seq<Token>, b: Seq<Token>)
    ensures
        kept(a + b) == kept(a) + kept(b),
    decreases b.len(),
{
    if b.len() == 0 {
        assert(a + b =~= a);
        assert(kept(b) =~= Seq::<Token>::empty());
        assert(kept(a) + kept(b) =~= kept(a));
    } else {
        lemma_kept_add(a, b.drop_last());
        assert((a + b).drop_last() =~= a + b.drop_last());
        assert((a + b).last() == b.last());
        if b.last().token_type == TokenType::Comma {
        } else {
            assert(kept(a) + kept(b.drop_last()).push(b.last()) =~= (kept(a) + kept(b.drop_last())).push(b.last()));
        }
    }
}

/// Splitting a range of tokens splits what is kept of it.
pub proof fn lemma_kept_split(toks: Seq<Token>, x: int, y: int, z: int)
    requires
        0 <= x <= y <= z <= toks.len(),
    ensures
        kept(toks.subrange(x, z)) == kept(toks.subrange(x, y)) + kept(toks.subrange(y, z)),
{
    assert(toks.subrange(x, z) =~= toks.subrange(x, y) + toks.subrange(y, z));
    lemma_kept_add(toks.subrange(x, y), toks.subrange(y, z));
}

/// An empty range keeps nothing.
pub proof fn lemma_kept_empty(toks: Seq<Token>, x: int)
    requires
        0 <= x <= toks.len(),
    ensures
        kept(toks.subrange(x, x)) == Seq::<Token>::empty(),
{
    assert(toks.subrange(x, x) =~= Seq::<Token>::empty());
}

/// A single token is kept unless it is a comma.
pub proof fn lemma_kept_one(toks: Seq<Token>, x: int)
    requires
        0 <= x < toks.len(),
    ensures
        toks[x].token_type != TokenType::Comma ==> kept(toks.subrange(x, x + 1)) == seq![toks[x]],
        toks[x].token_type == TokenType::Comma ==> kept(toks.subrange(x, x + 1)) == Seq::<Token>::empty(),
{
    let s = toks.subrange(x, x + 1);
    assert(s.drop_last() =~= Seq::<Token>::empty());
    assert(s.last() == toks[x]);
    assert(kept(s.drop_last()) =~= Seq::<Token>::empty());
    if toks[x].token_type != TokenType::Comma {
        assert(kept(s) =~= seq![toks[x]]);
    }
}

/// The tokens a type name records, in source order.
pub open spec fn type_toks(t: TypeName) -> Seq<Token>
    decreases t,
{
    match t {
        TypeName::Identifier(tok) => seq![tok],
        TypeName::Array { open_bracket, close_bracket, type_ref } => seq![open_bracket, close_bracket]
            + type_toks(*type_ref),
        TypeName::Function { fn_type_tok, open_paren, parameter_types, close_paren, return_type } => {
            seq![fn_type_tok, open_paren] + types_toks(parameter_types@) + seq![close_paren] + match return_type {
                Some((arrow, r)) => seq![arrow] + type_toks(*r),
                None => Seq::empty(),
            }
        },
        TypeName::Optional { question_mark, type_ref } => seq![question_mark] + type_toks(*type_ref),
    }
}

pub open spec fn types_toks(ts: Seq<TypeName>) -> Seq<Token>
    decreases ts,
{
    if ts.len() == 0 {
        Seq::empty()
    } else {
        types_toks(ts.drop_last()) + type_toks(ts.last())
    }
}

/// A type name as the grammar builds it: each part holds a token of the right kind.
pub open spec fn type_wf(t: TypeName) -> bool
    decreases t,
{
    match t {
        TypeName::Identifier(tok) => tok.token_type == TokenType::Identifier && token_valued(tok),
        TypeName::Array { open_bracket, close_bracket, type_ref } => open_bracket.token_type
            == TokenType::OpenBracket && close_bracket.token_type == TokenType::CloseBracket
            && type_wf(*type_ref),
        TypeName::Function { fn_type_tok, open_paren, parameter_types, close_paren, return_type } => {
            &&& fn_type_tok.token_type == TokenType::FnType
            &&& open_paren.token_type == TokenType::OpenParen
            &&& close_paren.token_type == TokenType::CloseParen
            &&& types_wf(parameter_types@)
            &&& match return_type {
                Some((arrow, r)) => arrow.token_type == TokenType::ThinArrow && type_wf(*r),
                None => true,
            }
        },
        TypeName::Optional { question_mark, type_ref } => question_mark.token_type
            == TokenType::Question && type_wf(*type_ref),
    }
}

pub open spec fn types_wf(ts: Seq<TypeName>) -> bool
    decreases ts,
{
    if ts.len() == 0 {
        true
    } else {
        types_wf(ts.drop_last()) && type_wf(ts.last())
    }
}


/// The value a token of each literal kind must carry.
pub open spec fn token_valued(t: Token) -> bool {
    match t.token_type {
        TokenType::Identifier => t.value matches Some(TokenValue::String(_)),
        TokenType::StringLiteral => t.value matches Some(TokenValue::String(_)),
        TokenType::IntegerLiteral => t.value matches Some(TokenValue::Int(_)),
        TokenType::FloatLiteral => t.value matches Some(TokenValue::Float(_)),
        TokenType::True => t.value == Some(TokenValue::Bool(true)),
        TokenType::False => t.value == Some(TokenValue::Bool(false)),
        _ => true,
    }
}

pub open spec fn tokens_valued(toks: Seq<Token>) -> bool {
    forall|i: int| 0 <= i < toks.len() ==> token_valued(#[trigger] toks[i])
}

/// The token kinds a literal expression is made of.
pub open spec fn is_literal_kind(t: TokenType) -> bool {
    t == TokenType::IntegerLiteral || t == TokenType::StringLiteral || t == TokenType::FloatLiteral
        || t == TokenType::SelfVal || t == TokenType::True || t == TokenType::False || t
        == TokenType::Null
}

/// The token kinds of binary operators.
pub open spec fn is_binary_kind(t: TokenType) -> bool {
    t == TokenType::AndAnd || t == TokenType::PipePipe || t == TokenType::EqualEqual || t
        == TokenType::BangEqual || t == TokenType::GreaterEqual || t == TokenType::GreaterThan || t
        == TokenType::LessEqual || t == TokenType::LessThan || t == TokenType::Plus || t
        == TokenType::Minus || t == TokenType::Multiply || t == TokenType::Divide || t
        == TokenType::Modulus
}

/// The token kinds of prefix operators.
pub open spec fn is_unary_kind(t: TokenType) -> bool {
    t == TokenType::Bang || t == TokenType::Minus
}

pub open spec fn opt_tok(t: Option<Token>) -> Seq<Token> {
    match t {
        Some(t) => seq![t],
        None => Seq::empty(),
    }
}

pub open spec fn opt_type_toks(t: Option<TypeName>) -> Seq<Token> {
    match t {
        Some(t) => type_toks(t),
        None => Seq::empty(),
    }
}

pub open spec fn annotation_toks(a: Option<(Token, TypeName)>) -> Seq<Token> {
    match a {
        Some((tok, t)) => seq![tok] + type_toks(t),
        None => Seq::empty(),
    }
}

pub open spec fn lambda_params_toks(p: LambdaParams) -> Seq<Token> {
    match p {
        LambdaParams::Simple(tok) => seq![tok],
        LambdaParams::Empty { pipes, return_type } => seq![pipes] + annotation_toks(return_type),
        LambdaParams::Complex { open_pipe, parameters, close_pipe, arrow, return_type } => seq![open_pipe]
            + lambda_param_list_toks(parameters@) + seq![close_pipe] + opt_tok(arrow) + opt_type_toks(return_type),
    }
}

pub open spec fn lambda_param_toks(p: LambdaParam) -> Seq<Token> {
    seq![p.name] + opt_tok(p.colon) + opt_type_toks(p.type_ref)
}

pub open spec fn lambda_param_list_toks(ps: Seq<LambdaParam>) -> Seq<Token>
    decreases ps.len(),
{
    if ps.len() == 0 {
        Seq::empty()
    } else {
        lambda_param_list_toks(ps.drop_last()) + lambda_param_toks(ps.last())
    }
}

/// The tokens an expression records, in source order.
pub open spec fn expr_toks(e: Expression) -> Seq<Token>
    decreases e,
{
    match e {
        Expression::Lambda(l) => lambda_params_toks(l.params) + seq![l.arrow] + match l.body {
            LambdaBody::Expr(b) => expr_toks(*b),
            LambdaBody::Block(b) => block_toks(*b),
        },
        Expression::Literal(t) => seq![t],
        Expression::Identifier(t) => seq![t],
        Expression::SelfExpr(t) => seq![t],
        Expression::ArrayLiteral(a) => seq![a.open_bracket] + exprs_toks(a.expressions@) + seq![a.close_bracket],
        Expression::Grouping(g) => seq![g.open_paren] + expr_toks(*g.expression) + seq![g.close_paren],
        Expression::TypeValue(t) => type_toks(t.type_ref) + seq![t.dot, t.name],
        Expression::Construction(c) => type_toks(c.type_ref) + seq![c.open_brace] + construction_args_toks(
            c.args@,
        ) + seq![c.close_brace],
        Expression::Call(c) => expr_toks(*c.expression) + seq![c.open_paren] + exprs_toks(c.args@) + seq![c.close_paren],
        Expression::Access(a) => expr_toks(*a.expression) + seq![a.dot, a.identifier],
        Expression::Index(i) => expr_toks(*i.expression) + seq![i.open_bracket] + expr_toks(*i.indexer) + seq![i.close_bracket],
        Expression::Unary(u) => seq![u.operator] + expr_toks(*u.expression),
        Expression::Binary(b) => expr_toks(*b.left) + seq![b.operator] + expr_toks(*b.right),
        Expression::Cast(c) => expr_toks(*c.expression) + seq![c.as_tok] + type_toks(c.type_ref),
    }
}

pub open spec fn exprs_toks(es: Seq<Expression>) -> Seq<Token>
    decreases es,
{
    if es.len() == 0 {
        Seq::empty()
    } else {
        exprs_toks(es.drop_last()) + expr_toks(es.last())
    }
}

pub open spec fn construction_args_toks(args: Seq<ConstructionArg>) -> Seq<Token>
    decreases args,
{
    if args.len() == 0 {
        Seq::empty()
    } else {
        construction_args_toks(args.drop_last()) + seq![args.last().name, args.last().colon]
            + expr_toks(*args.last().value)
    }
}

/// The tokens a block records: its braces and its statements.
pub open spec fn block_toks(b: BlockStmt) -> Seq<Token>
    decreases b,
{
    seq![b.open_brace] + stmts_toks(b.statements@) + seq![b.close_brace]
}

pub open spec fn stmts_toks(ss: Seq<Statement>) -> Seq<Token>
    decreases ss,
{
    if ss.len() == 0 {
        Seq::empty()
    } else {
        stmts_toks(ss.drop_last()) + stmt_toks(ss.last())
    }
}

pub open spec fn if_toks(i: IfStmt) -> Seq<Token>
    decreases i,
{
    seq![i.if_tok, i.open_paren] + expr_toks(i.condition) + seq![i.close_paren] + block_toks(i.block)
        + match i.else_branch {
        Some(eb) => seq![eb.else_tok] + match eb.body {
            ElseBody::If(inner) => if_toks(*inner),
            ElseBody::Block(b) => block_toks(b),
        },
        None => Seq::empty(),
    }
}

pub open spec fn opt_expr_toks(e: Option<Expression>) -> Seq<Token>
    decreases e,
{
    match e {
        Some(e) => expr_toks(e),
        None => Seq::empty(),
    }
}

/// The tokens a statement records, in source order.
pub open spec fn stmt_toks(s: Statement) -> Seq<Token>
    decreases s,
{
    match s {
        Statement::Expression(e) => expr_toks(e.expression) + seq![e.semi_colon],
        Statement::Let(l) => seq![l.let_tok, l.id] + annotation_toks(l.type_ref) + seq![l.equal]
            + expr_toks(l.expression) + seq![l.semi_colon],
        Statement::Const(c) => opt_tok(c.pub_tok) + seq![c.const_tok, c.id, c.colon] + type_toks(
            c.type_ref,
        ) + seq![c.equal] + expr_toks(c.expression) + seq![c.semi_colon],
        Statement::While(w) => seq![w.while_tok, w.open_paren] + expr_toks(w.condition) + seq![w.close_paren]
            + block_toks(*w.body),
        Statement::For(f) => seq![f.for_tok, f.open_paren, f.id_tok, f.in_tok] + expr_toks(f.expression)
            + seq![f.close_paren] + block_toks(*f.body),
        Statement::Return(r) => seq![r.return_tok] + opt_expr_toks(r.expression) + seq![r.semi_colon],
        Statement::Continue(c) => seq![c.continue_tok, c.semi_colon],
        Statement::Break(b) => seq![b.break_tok, b.semi_colon],
        Statement::Assign(a) => expr_toks(*a.assigned) + seq![a.equal] + expr_toks(a.expression) + seq![a.semi_colon],
        Statement::If(i) => if_toks(i),
        Statement::BlockStmt(b) => block_toks(b),
    }
}

/// An expression as the grammar builds it: operators, names and literals are
/// tokens of the right kinds, literals and names carry their values.
pub open spec fn expr_wf(e: Expression) -> bool
    decreases e,
{
    match e {
        Expression::Lambda(l) => match l.body {
            LambdaBody::Expr(b) => expr_wf(*b),
            LambdaBody::Block(b) => block_wf(*b),
        },
        Expression::Literal(t) => is_literal_kind(t.token_type) && token_valued(t),
        Expression::Identifier(t) => t.token_type == TokenType::Identifier && token_valued(t),
        Expression::SelfExpr(t) => t.token_type == TokenType::SelfVal,
        Expression::ArrayLiteral(a) => exprs_wf(a.expressions@),
        Expression::Grouping(g) => expr_wf(*g.expression),
        Expression::TypeValue(t) => type_wf(t.type_ref),
        Expression::Construction(c) => type_wf(c.type_ref) && construction_args_wf(c.args@),
        Expression::Call(c) => expr_wf(*c.expression) && exprs_wf(c.args@),
        Expression::Access(a) => expr_wf(*a.expression) && a.identifier.token_type == TokenType::Identifier
            && token_valued(a.identifier),
        Expression::Index(i) => expr_wf(*i.expression) && expr_wf(*i.indexer),
        Expression::Unary(u) => is_unary_kind(u.operator.token_type) && expr_wf(*u.expression),
        Expression::Binary(b) => is_binary_kind(b.operator.token_type) && expr_wf(*b.left) && expr_wf(
            *b.right,
        ),
        Expression::Cast(c) => expr_wf(*c.expression) && type_wf(c.type_ref),
    }
}

pub open spec fn exprs_wf(es: Seq<Expression>) -> bool
    decreases es,
{
    if es.len() == 0 {
        true
    } else {
        exprs_wf(es.drop_last()) && expr_wf(es.last())
    }
}

pub open spec fn construction_args_wf(args: Seq<ConstructionArg>) -> bool
    decreases args,
{
    if args.len() == 0 {
        true
    } else {
        construction_args_wf(args.drop_last()) && args.last().name.token_type == TokenType::Identifier
            && token_valued(args.last().name) && expr_wf(*args.last().value)
    }
}

pub open spec fn block_wf(b: BlockStmt) -> bool
    decreases b,
{
    stmts_wf(b.statements@)
}

pub open spec fn stmts_wf(ss: Seq<Statement>) -> bool
    decreases ss,
{
    if ss.len() == 0 {
        true
    } else {
        stmts_wf(ss.drop_last()) && stmt_wf(ss.last())
    }
}

pub open spec fn if_wf(i: IfStmt) -> bool
    decreases i,
{
    expr_wf(i.condition) && block_wf(i.block) && match i.else_branch {
        Some(eb) => match eb.body {
            ElseBody::If(inner) => if_wf(*inner),
            ElseBody::Block(b) => block_wf(b),
        },
        None => true,
    }
}

/// A statement as the grammar builds it.
pub open spec fn stmt_wf(s: Statement) -> bool
    decreases s,
{
    match s {
        Statement::Expression(e) => expr_wf(e.expression),
        Statement::Let(l) => l.id.token_type == TokenType::Identifier && token_valued(l.id)
            && is_assignment_token(l.equal.token_type) && expr_wf(l.expression) && match l.type_ref {
            Some((_, t)) => type_wf(t),
            None => true,
        },
        Statement::Const(c) => c.id.token_type == TokenType::Identifier && token_valued(c.id) && type_wf(
            c.type_ref,
        ) && expr_wf(c.expression),
        Statement::While(w) => expr_wf(w.condition) && block_wf(*w.body),
        Statement::For(f) => f.id_tok.token_type == TokenType::Identifier && token_valued(f.id_tok)
            && expr_wf(f.expression) && block_wf(*f.body),
        Statement::Return(r) => match r.expression {
            Some(e) => expr_wf(e),
            None => true,
        },
        Statement::Continue(_) => true,
        Statement::Break(_) => true,
        Statement::Assign(a) => is_assignment_token(a.equal.token_type) && expr_wf(*a.assigned)
            && expr_wf(a.expression),
        Statement::If(i) => if_wf(i),
        Statement::BlockStmt(b) => block_wf(b),
    }
}


/// A token range `[x, z)` whose kept tokens are `a` followed by `b` when `[x, y)`
/// keeps `a` and `[y, z)` keeps `b`.
pub proof fn lemma_kept_join(toks: Seq<Token>, x: int, y: int, z: int, a: Seq<Token>, b: Seq<Token>)
    requires
        0 <= x <= y <= z <= toks.len(),
        kept(toks.subrange(x, y)) == a,
        kept(toks.subrange(y, z)) == b,
    ensures
        kept(toks.subrange(x, z)) == a + b,
{
    lemma_kept_split(toks, x, y, z);
}

/// The single token at `x`, when it is not a comma, is what `[x, x + 1)` keeps.
pub proof fn lemma_kept_tok(toks: Seq<Token>, x: int)
    requires
        0 <= x < toks.len(),
        toks[x].token_type != TokenType::Comma,
    ensures
        kept(toks.subrange(x, x + 1)) == seq![toks[x]],
{
    lemma_kept_one(toks, x);
}


/// Extending a range by one token that is not a comma adds that token to what is kept.
pub proof fn lemma_kept_push(toks: Seq<Token>, x: int, y: int, a: Seq<Token>)
    requires
        0 <= x <= y < toks.len(),
        kept(toks.subrange(x, y)) == a,
        toks[y].token_type != TokenType::Comma,
    ensures
        kept(toks.subrange(x, y + 1)) == a + seq![toks[y]],
{
    lemma_kept_one(toks, y);
    lemma_kept_split(toks, x, y, y + 1);
}

/// Extending a range by one comma keeps the same tokens.
pub proof fn lemma_kept_comma(toks: Seq<Token>, x: int, y: int, a: Seq<Token>)
    requires
        0 <= x <= y < toks.len(),
        kept(toks.subrange(x, y)) == a,
        toks[y].token_type == TokenType::Comma,
    ensures
        kept(toks.subrange(x, y + 1)) == a,
{
    lemma_kept_one(toks, y);
    lemma_kept_split(toks, x, y, y + 1);
    assert(a + Seq::<Token>::empty() =~= a);
}

pub open spec fn opt_init_toks(init: Option<(Token, Arc<Expression>)>) -> Seq<Token> {
    match init {
        Some((eq, e)) => seq![eq] + expr_toks(*e),
        None => Seq::empty(),
    }
}

pub open spec fn opt_init_wf(init: Option<(Token, Arc<Expression>)>) -> bool {
    match init {
        Some((_, e)) => expr_wf(*e),
        None => true,
    }
}

pub open spec fn member_toks(m: StructDeclMember) -> Seq<Token> {
    seq![m.id, m.colon] + type_toks(m.type_ref) + opt_init_toks(m.initializer)
}

pub open spec fn members_toks(ms: Seq<StructDeclMember>) -> Seq<Token>
    decreases ms.len(),
{
    if ms.len() == 0 {
        Seq::empty()
    } else {
        members_toks(ms.drop_last()) + member_toks(ms.last())
    }
}

pub open spec fn member_wf(m: StructDeclMember) -> bool {
    m.id.token_type == TokenType::Identifier && token_valued(m.id) && type_wf(m.type_ref) && opt_init_wf(
        m.initializer,
    )
}

pub open spec fn members_wf(ms: Seq<StructDeclMember>) -> bool {
    forall|i: int| 0 <= i < ms.len() ==> member_wf(#[trigger] ms[i])
}

pub open spec fn struct_decl_toks(d: StructDecl) -> Seq<Token> {
    opt_tok(d.pub_tok) + seq![d.struct_tok, d.id, d.open_brace] + members_toks(d.members@) + seq![d.close_brace]
}

pub open spec fn struct_decl_wf(d: StructDecl) -> bool {
    d.id.token_type == TokenType::Identifier && token_valued(d.id) && members_wf(d.members@)
}

pub open spec fn param_toks(p: FnParam) -> Seq<Token> {
    seq![p.id, p.colon] + type_toks(p.type_ref) + opt_init_toks(p.default_value)
}

pub open spec fn params_toks(ps: Seq<FnParam>) -> Seq<Token>
    decreases ps.len(),
{
    if ps.len() == 0 {
        Seq::empty()
    } else {
        params_toks(ps.drop_last()) + param_toks(ps.last())
    }
}

pub open spec fn param_wf(p: FnParam) -> bool {
    p.id.token_type == TokenType::Identifier && token_valued(p.id) && type_wf(p.type_ref) && opt_init_wf(
        p.default_value,
    )
}

pub open spec fn params_wf(ps: Seq<FnParam>) -> bool {
    forall|i: int| 0 <= i < ps.len() ==> param_wf(#[trigger] ps[i])
}

pub open spec fn fn_decl_toks(d: FnDecl) -> Seq<Token> {
    opt_tok(d.pub_tok) + seq![d.fn_tok] + match d.type_ref {
        Some((dot, t)) => type_toks(t) + seq![dot],
        None => Seq::empty(),
    } + seq![d.id, d.open_paren] + opt_tok(d.self_param) + params_toks(d.params@) + seq![d.close_paren]
        + annotation_toks(d.return_type) + block_toks(*d.body)
}

pub open spec fn fn_decl_wf(d: FnDecl) -> bool {
    &&& d.id.token_type == TokenType::Identifier
    &&& token_valued(d.id)
    &&& params_wf(d.params@)
    &&& block_wf(*d.body)
    &&& (d.self_param matches Some(s) ==> s.token_type == TokenType::SelfVal)
    &&& (d.type_ref matches Some((_, t)) ==> type_wf(t))
    &&& (d.return_type matches Some((_, t)) ==> type_wf(t))
}

pub open spec fn decl_toks(d: Declaration) -> Seq<Token> {
    match d {
        Declaration::Fn(f) => fn_decl_toks(*f),
        Declaration::Struct(s) => struct_decl_toks(*s),
        Declaration::Const(c) => stmt_toks(Statement::Const(*c)),
    }
}

pub open spec fn decl_wf(d: Declaration) -> bool {
    match d {
        Declaration::Fn(f) => fn_decl_wf(*f),
        Declaration::Struct(s) => struct_decl_wf(*s),
        Declaration::Const(c) => stmt_wf(Statement::Const(*c)),
    }
}

} // verus!
