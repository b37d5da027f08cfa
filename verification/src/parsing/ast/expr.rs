use vstd::prelude::*;
use crate::lexing::token::Token;
use crate::utils::TextPos;
use super::{TypeName, BlockStmt, type_pos};

verus! {

#[derive(Debug)]
pub struct LambdaParam {
    pub name: Token,
    pub colon: Option<Token>,
    pub type_ref: Option<TypeName>,
}

#[derive(Debug)]
pub enum LambdaParams {
    Simple(Token),
    Empty { pipes: Token, return_type: Option<(Token, TypeName)> },
    Complex {
        open_pipe: Token,
        parameters: Vec<LambdaParam>,
        close_pipe: Token,
        arrow: Option<Token>,
        return_type: Option<TypeName>,
    },
}

/// The body of a lambda: an expression or a block.
#[derive(Debug)]
pub enum LambdaBody {
    Expr(Box<Expression>),
    Block(Box<BlockStmt>),
}

#[derive(Debug)]
pub struct LambdaExpr {
    pub params: LambdaParams,
    pub arrow: Token,
    pub body: LambdaBody,
}

#[derive(Debug)]
pub struct CallExpr {
    pub expression: Box<Expression>,
    pub open_paren: Token,
    pub args: Vec<Expression>,
    pub close_paren: Token,
}

#[derive(Debug)]
pub struct IndexExpr {
    pub expression: Box<Expression>,
    pub open_bracket: Token,
    pub indexer: Box<Expression>,
    pub close_bracket: Token,
}

#[derive(Debug)]
pub struct GroupingExpr {
    pub open_paren: Token,
    pub expression: Box<Expression>,
    pub close_paren: Token,
}

#[derive(Debug)]
pub struct AccessExpr {
    pub expression: Box<Expression>,
    pub dot: Token,
    pub identifier: Token,
}

#[derive(Debug)]
pub struct UnaryExpr {
    pub expression: Box<Expression>,
    pub operator: Token,
}

#[derive(Debug)]
pub struct BinaryExpr {
    pub left: Box<Expression>,
    pub operator: Token,
    pub right: Box<Expression>,
}

#[derive(Debug)]
pub struct ConstructionArg {
    pub name: Token,
    pub colon: Token,
    pub value: Box<Expression>,
}

#[derive(Debug)]
pub struct ConstructionExpr {
    pub type_ref: TypeName,
    pub open_brace: Token,
    pub args: Vec<ConstructionArg>,
    pub close_brace: Token,
}

#[derive(Debug)]
pub struct TypeValueExpr {
    pub type_ref: TypeName,
    pub dot: Token,
    pub name: Token,
}

#[derive(Debug)]
pub struct ArrayLiteral {
    pub open_bracket: Token,
    pub expressions: Vec<Expression>,
    pub close_bracket: Token,
}

#[derive(Debug)]
pub struct CastExpr {
    pub expression: Box<Expression>,
    pub as_tok: Token,
    pub type_ref: TypeName,
}

#[derive(Debug)]
pub enum Expression {
    Lambda(LambdaExpr),
    Literal(Token),
    ArrayLiteral(ArrayLiteral),
    Identifier(Token),
    Grouping(GroupingExpr),
    SelfExpr(Token),
    TypeValue(TypeValueExpr),
    Construction(ConstructionExpr),
    Call(CallExpr),
    Access(AccessExpr),
    Index(IndexExpr),
    Unary(UnaryExpr),
    Binary(BinaryExpr),
    Cast(CastExpr),
}

/// The span an expression covers, from its outermost tokens.
pub open spec fn expr_pos(e: Expression) -> TextPos
    decreases e,
{
    match e {
        Expression::Lambda(l) => {
            let first = match l.params {
                LambdaParams::Simple(t) => t.pos,
                LambdaParams::Empty { pipes, .. } => pipes.pos,
                LambdaParams::Complex { open_pipe, .. } => open_pipe.pos,
            };
            match l.body {
                LambdaBody::Expr(b) => first.spec_add(expr_pos(*b)),
                LambdaBody::Block(b) => first.spec_add(b.open_brace.pos.spec_add(b.close_brace.pos)),
            }
        },
        Expression::Literal(t) => t.pos,
        Expression::ArrayLiteral(a) => a.open_bracket.pos.spec_add(a.close_bracket.pos),
        Expression::Identifier(t) => t.pos,
        Expression::Grouping(g) => g.open_paren.pos.spec_add(g.close_paren.pos),
        Expression::SelfExpr(t) => t.pos,
        Expression::TypeValue(t) => t.name.pos.spec_add(type_pos(t.type_ref)),
        Expression::Construction(c) => type_pos(c.type_ref).spec_add(c.close_brace.pos),
        Expression::Call(c) => expr_pos(*c.expression).spec_add(c.close_paren.pos),
        Expression::Access(a) => expr_pos(*a.expression).spec_add(a.identifier.pos),
        Expression::Index(i) => expr_pos(*i.expression).spec_add(i.close_bracket.pos),
        Expression::Unary(u) => expr_pos(*u.expression).spec_add(u.operator.pos),
        Expression::Binary(b) => expr_pos(*b.left).spec_add(expr_pos(*b.right)),
        Expression::Cast(c) => expr_pos(*c.expression).spec_add(type_pos(c.type_ref)),
    }
}

impl Expression {
    /// The span of the expression's tokens.
    pub fn get_pos(&self) -> (r: TextPos)
        ensures
            r == expr_pos(*self),
        decreases *self,
    {
        match self {
            Expression::Lambda(l) => {
                let first = match &l.params {
                    LambdaParams::Simple(t) => t.pos,
                    LambdaParams::Empty { pipes, .. } => pipes.pos,
                    LambdaParams::Complex { open_pipe, .. } => open_pipe.pos,
                };
                match &l.body {
                    LambdaBody::Expr(b) => first + b.get_pos(),
                    LambdaBody::Block(b) => first + (b.open_brace.pos + b.close_brace.pos),
                }
            },
            Expression::Literal(t) => t.pos,
            Expression::ArrayLiteral(a) => a.open_bracket.pos + a.close_bracket.pos,
            Expression::Identifier(t) => t.pos,
            Expression::Grouping(g) => g.open_paren.pos + g.close_paren.pos,
            Expression::SelfExpr(t) => t.pos,
            Expression::TypeValue(t) => t.name.pos + t.type_ref.get_pos(),
            Expression::Construction(c) => c.type_ref.get_pos() + c.close_brace.pos,
            Expression::Call(c) => c.expression.get_pos() + c.close_paren.pos,
            Expression::Access(a) => a.expression.get_pos() + a.identifier.pos,
            Expression::Index(i) => i.expression.get_pos() + i.close_bracket.pos,
            Expression::Unary(u) => u.expression.get_pos() + u.operator.pos,
            Expression::Binary(b) => b.left.get_pos() + b.right.get_pos(),
            Expression::Cast(c) => c.expression.get_pos() + c.type_ref.get_pos(),
        }
    }
}

} // verus!
