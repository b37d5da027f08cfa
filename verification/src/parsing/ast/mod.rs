pub mod expr;
pub mod stmt;

use vstd::prelude::*;
use crate::lexing::token::{Token, TokenType, token_text};
use crate::utils::TextPos;
use crate::text::push_str;
use crate::parsing::syntax::{type_wf, types_wf};
pub use expr::{
    LambdaParam, LambdaParams, LambdaBody, LambdaExpr, CallExpr, IndexExpr, GroupingExpr,
    AccessExpr, UnaryExpr, BinaryExpr, ConstructionArg, ConstructionExpr, TypeValueExpr,
    ArrayLiteral, CastExpr, Expression,
};
pub use stmt::{
    UseStmt, ExpressionStmt, LetStmt, ConstStmt, AssignStmt, BlockStmt, IfStmt, ElseBody,
    ElseBranch, FnParam, FnDecl, StructDeclMember, StructDecl, BreakStmt, ContinueStmt, ReturnStmt,
    ForStmt, WhileStmt, Statement, Declaration, FileNode, Program,
};

verus! {

/// A written type: a name, `[]T`, `Fn(A, B) -> R` or `?T`.
#[derive(Debug)]
pub enum TypeName {
    Identifier(Token),
    Array { open_bracket: Token, close_bracket: Token, type_ref: Box<TypeName> },
    Function {
        fn_type_tok: Token,
        open_paren: Token,
        parameter_types: Vec<TypeName>,
        close_paren: Token,
        return_type: Option<(Token, Box<TypeName>)>,
    },
    Optional { question_mark: Token, type_ref: Box<TypeName> },
}

/// The text of a type as it is printed back: `Name`, `[]T`, `Fn(A, B) -> R`, `?T`.
pub open spec fn type_name_text(t: TypeName) -> Seq<char>
    decreases t,
{
    match t {
        TypeName::Identifier(name) => match token_text(name) {
            Some(s) => s,
            None => Seq::empty(),
        },
        TypeName::Array { type_ref, .. } => "[]"@ + type_name_text(*type_ref),
        TypeName::Function { parameter_types, return_type, .. } => {
            let ret = match return_type {
                Some((_, r)) => type_name_text(*r),
                None => Seq::<char>::empty(),
            };
            "Fn("@ + join_texts(type_name_texts(parameter_types@), ", "@) + ") -> "@ + ret
        },
        TypeName::Optional { type_ref, .. } => "?"@ + type_name_text(*type_ref),
    }
}

/// The printed return type of a function type, if it has one.
pub open spec fn ret_text(r: Option<(Token, Box<TypeName>)>) -> Seq<char> {
    match r {
        Some((_, r)) => type_name_text(*r),
        None => Seq::empty(),
    }
}

/// The printed texts of a list of types.
pub open spec fn type_name_texts(ts: Seq<TypeName>) -> Seq<Seq<char>>
    decreases ts,
{
    if ts.len() == 0 {
        Seq::empty()
    } else {
        type_name_texts(ts.drop_last()).push(type_name_text(ts.last()))
    }
}

/// The texts joined with a separator between each two of them.
pub open spec fn join_texts(parts: Seq<Seq<char>>, sep: Seq<char>) -> Seq<char>
    decreases parts.len(),
{
    if parts.len() == 0 {
        Seq::empty()
    } else if parts.len() == 1 {
        parts[0]
    } else {
        join_texts(parts.drop_last(), sep) + sep + parts.last()
    }
}

/// The span a type covers: from its first token to its innermost type.
pub open spec fn type_pos(t: TypeName) -> TextPos
    decreases t,
{
    match t {
        TypeName::Identifier(name) => name.pos,
        TypeName::Array { open_bracket, type_ref, .. } => open_bracket.pos.spec_add(type_pos(*type_ref)),
        TypeName::Function { fn_type_tok, return_type, .. } => match return_type {
            Some((_, r)) => fn_type_tok.pos.spec_add(type_pos(*r)),
            None => fn_type_tok.pos,
        },
        TypeName::Optional { question_mark, type_ref } => question_mark.pos.spec_add(type_pos(*type_ref)),
    }
}

impl TypeName {
    /// The type written back as text.
    #[verifier::loop_isolation(false)]
    pub fn pretty_print(&self) -> (r: String)
        requires
            type_wf(*self),
        ensures
            r@ == type_name_text(*self),
        decreases *self,
    {
        match self {
            TypeName::Identifier(name) => name.value_string().unwrap().clone(),
            TypeName::Array { type_ref, .. } => {
                let mut out = String::new();
                push_str(&mut out, "[]");
                let inner = type_ref.pretty_print();
                push_str(&mut out, inner.as_str());
                out
            },
            TypeName::Function { parameter_types, return_type, .. } => {
                let mut out = String::new();
                push_str(&mut out, "Fn(");
                let mut i: usize = 0;
                let ghost ps = parameter_types@;
                let mut joined = String::new();
                while i < parameter_types.len()
                    invariant
                        ps == parameter_types@,
                        types_wf(ps),
                        i <= ps.len(),
                        joined@ == join_texts(type_name_texts(ps.subrange(0, i as int)), ", "@),
                    decreases ps.len() - i,
                {
                    proof {
                        lemma_types_wf_at(ps, i as int);
                        assert(decreases_to!(*self => ps[i as int]));
                    }
                    let text = parameter_types[i].pretty_print();
                    if i > 0 {
                        push_str(&mut joined, ", ");
                    }
                    push_str(&mut joined, text.as_str());
                    proof {
                        let sub = ps.subrange(0, i + 1);
                        assert(sub.drop_last() =~= ps.subrange(0, i as int));
                        assert(sub.last() == ps[i as int]);
                        assert(type_name_texts(sub) == type_name_texts(ps.subrange(0, i as int)).push(text@));
                        let prev = type_name_texts(ps.subrange(0, i as int));
                        assert(prev.push(text@).drop_last() =~= prev);
                        if i == 0 {
                            assert(joined@ =~= text@);
                        } else {
                            assert(joined@ =~= join_texts(prev, ", "@) + ", "@ + text@);
                        }
                    }
                    i += 1;
                }
                assert(ps.subrange(0, i as int) =~= ps);
                push_str(&mut out, joined.as_str());
                push_str(&mut out, ") -> ");
                match return_type {
                    Some((_, r)) => {
                        let rt = r.pretty_print();
                        push_str(&mut out, rt.as_str());
                    },
                    None => {},
                }
                proof {
                    let ret = ret_text(*return_type);
                    assert(out@ =~= "Fn("@ + join_texts(type_name_texts(ps), ", "@) + ") -> "@ + ret);
                }
                out
            },
            TypeName::Optional { type_ref, .. } => {
                let mut out = String::new();
                push_str(&mut out, "?");
                let inner = type_ref.pretty_print();
                push_str(&mut out, inner.as_str());
                out
            },
        }
    }

    /// The span of the type's tokens.
    pub fn get_pos(&self) -> (r: TextPos)
        ensures
            r == type_pos(*self),
        decreases *self,
    {
        match self {
            TypeName::Identifier(name) => name.pos,
            TypeName::Array { open_bracket, type_ref, .. } => open_bracket.pos + type_ref.get_pos(),
            TypeName::Function { fn_type_tok, return_type, .. } => match return_type {
                Some((_, r)) => fn_type_tok.pos + r.get_pos(),
                None => fn_type_tok.pos,
            },
            TypeName::Optional { question_mark, type_ref } => question_mark.pos + type_ref.get_pos(),
        }
    }
}

/// Each type of a well-formed list is well formed.
pub proof fn lemma_types_wf_at(ts: Seq<TypeName>, i: int)
    requires
        types_wf(ts),
        0 <= i < ts.len(),
    ensures
        type_wf(ts[i]),
    decreases ts.len(),
{
    if i < ts.len() - 1 {
        lemma_types_wf_at(ts.drop_last(), i);
        assert(ts.drop_last()[i] == ts[i]);
    }
}

#[derive(Debug)]
pub struct Parameters {
    pub open_paren: Token,
    pub parameters: Vec<Parameter>,
    pub close_paren: Token,
}

#[derive(Debug)]
pub struct Parameter {
    pub var: Option<Token>,
    pub name: Token,
    pub colon: Token,
    pub type_ref: TypeName,
    pub equal: Option<Token>,
    pub expression: Option<Expression>,
}

} // verus!
