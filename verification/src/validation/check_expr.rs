use vstd::prelude::*;
use crate::lexing::token::{Token, TokenType, TokenValue, token_text};
use crate::parsing::ast::{Expression, ConstructionArg};
use crate::parsing::ast::expr::expr_pos;
use crate::parsing::syntax::{expr_wf, exprs_wf, construction_args_wf, token_valued};
use crate::parsing::paths_view;
use crate::utils::{TextPos, spec_get_loc};
use crate::parsing::ast::FileNode;
use super::types::{TypeInfo, Ty, tys_of, lemma_tys_of};
use super::operators::{GlobalOperators, BinaryOpType, UnaryOpType, bin_rule, un_rule, cast_rule, binary_op_of, unary_op_of};
use super::info::{InfoContext, StructInfo, StructMember, FuncInfo, func_ty, found_funcs, resolve_type, text_of, opt_ty, param_tys, ty_text};
use super::typed::{TypedExpression, TypedIdentifier, LitVal, ret_ty, stack_lookup, var_type, VariableStack};
use super::type_error::TypeError;
use super::builtins::{int_type, float_type, bool_type, string_type, int_ty, float_ty, bool_ty, string_ty};

verus! {

/// What checking an expression reads: the operators, the declarations, the
/// variables in scope, the file, and the type of `self` there.
#[derive(Clone, Copy)]
pub struct ExprCheckArgs<'a> {
    pub operators: &'a GlobalOperators,
    pub context: &'a InfoContext,
    pub var_stack: &'a VariableStack,
    pub file: &'a FileNode,
    pub self_type: Option<&'a TypeInfo>,
}

impl<'a> ExprCheckArgs<'a> {
    /// What a name refers to: the innermost variable of that name in scope, else
    /// the single function of that name that the file can see.
    pub fn resolve_name(&self, token: &Token) -> (r: Result<TypedIdentifier, TypeError>)
        requires
            token_text(*token) is Some,
        ensures
            ({
                let name = text_of(*token);
                let found = found_funcs(self.context.func_resolver.entries(), paths_view(*self.file), None, name);
                match stack_lookup(self.var_stack.frames(), name) {
                    Some(v) => r == Ok::<TypedIdentifier, TypeError>(TypedIdentifier::Variable(v)),
                    None => if found.len() == 1 {
                        r == Ok::<TypedIdentifier, TypeError>(TypedIdentifier::Function(found[0]))
                    } else if found.len() == 0 {
                        r matches Err(TypeError::UnknownIdentifier(n, l)) && n@ == name && l == spec_get_loc(
                            token.pos,
                            *self.file.info,
                        )
                    } else {
                        r matches Err(TypeError::ConflictingFunctions(t, l)) && t == *token && l == spec_get_loc(
                            token.pos,
                            *self.file.info,
                        )
                    },
                }
            }),
    {
        let name = token.value_string().unwrap();
        if let Some(v) = self.var_stack.resolve_var(name) {
            return Ok(TypedIdentifier::Variable(v));
        }
        let no_owner: Option<TypeInfo> = None;
        match self.context.func_resolver.resolve(&no_owner, token, self.file) {
            super::info::FuncResolverResult::ConflictingFuncs(t) => Err(
                TypeError::ConflictingFunctions(t.clone(), t.get_loc(&self.file.info)),
            ),
            super::info::FuncResolverResult::Found(f) => Ok(TypedIdentifier::Function(f)),
            super::info::FuncResolverResult::Undefined(_) => Err(
                TypeError::UnknownIdentifier(name.clone(), token.get_loc(&self.file.info)),
            ),
        }
    }
}

pub open spec fn opt_ref_ty(t: Option<&TypeInfo>) -> Option<Ty> {
    match t {
        Some(t) => Some(t@),
        None => None,
    }
}

/// The first function with id `id`.
pub open spec fn func_by_id(fs: Seq<FuncInfo>, id: u128) -> Option<FuncInfo>
    decreases fs.len(),
{
    if fs.len() == 0 {
        None
    } else if fs[0].id == id {
        Some(fs[0])
    } else {
        func_by_id(fs.drop_first(), id)
    }
}

/// The first struct with id `id`.
pub open spec fn struct_by_id(ss: Seq<StructInfo>, id: u128) -> Option<StructInfo>
    decreases ss.len(),
{
    if ss.len() == 0 {
        None
    } else if ss[0].id == id {
        Some(ss[0])
    } else {
        struct_by_id(ss.drop_first(), id)
    }
}

/// The type of the first member called `name`.
pub open spec fn member_ty(ms: Seq<StructMember>, name: Seq<char>) -> Option<Ty>
    decreases ms.len(),
{
    if ms.len() == 0 {
        None
    } else if ms[0].name@ == name {
        Some(ms[0].type_info@)
    } else {
        member_ty(ms.drop_first(), name)
    }
}

/// What a literal token gives: its value and its type.
pub open spec fn literal_ok(tok: Token, value: LitVal, ty: Ty, self_type: Option<Ty>, expected: Option<Ty>) -> bool {
    match tok.token_type {
        TokenType::Null => value is Null && expected == Some(ty),
        TokenType::SelfVal => value is SelfVal && self_type == Some(ty),
        _ => match tok.value {
            Some(TokenValue::String(s)) => value matches LitVal::String(v) && v@ == s@ && ty == string_ty(),
            Some(TokenValue::Int(n)) => value == LitVal::Int(n) && ty == int_ty(),
            Some(TokenValue::Float(f)) => value matches LitVal::Float(v) && v@ == f@ && ty == float_ty(),
            Some(TokenValue::Bool(b)) => value == LitVal::Bool(b) && ty == bool_ty(),
            None => false,
        },
    }
}

/// The expression kinds the checker handles.
pub open spec fn expr_supported(e: Expression) -> bool
    decreases e,
{
    match e {
        Expression::Literal(_) => true,
        Expression::Identifier(_) => true,
        Expression::Grouping(g) => expr_supported(*g.expression),
        Expression::ArrayLiteral(a) => forall|i: int| 0 <= i < a.expressions@.len() ==> expr_supported(#[trigger] a.expressions@[i]),
        Expression::Binary(b) => expr_supported(*b.left) && expr_supported(*b.right),
        Expression::Unary(u) => expr_supported(*u.expression),
        Expression::Cast(c) => expr_supported(*c.expression),
        Expression::Call(c) => expr_supported(*c.expression) && forall|i: int| 0 <= i < c.args@.len() ==> expr_supported(#[trigger] c.args@[i]),
        Expression::Construction(c) => forall|i: int| 0 <= i < c.args@.len() ==> expr_supported(*(#[trigger] c.args@[i]).value),
        _ => false,
    }
}

/// `e` is the literal `self`.
pub open spec fn self_literal(e: Expression) -> bool {
    e matches Expression::Literal(tok) && tok.token_type == TokenType::SelfVal
}

/// `t` is a typing of `e` under `args`, when `expected` is the type the context
/// asks for: each node has the type its rule gives from its parts, and the type
/// the context asks for, except `self`, which always has the type of `self`.
pub open spec fn typed_as(args: ExprCheckArgs, e: Expression, expected: Option<Ty>, t: TypedExpression) -> bool
    decreases e, 1nat,
{
    &&& (!self_literal(e) ==> (expected matches Some(x) ==> ret_ty(t) == x))
    &&& typed_node(args, e, expected, t)
}

/// The rule of `e`'s kind holds of `t`, its parts typed as the rule asks.
pub open spec fn typed_node(args: ExprCheckArgs, e: Expression, expected: Option<Ty>, t: TypedExpression) -> bool
    decreases e, 0nat,
{
    match e {
        Expression::Literal(tok) => match t {
            TypedExpression::Literal { value, returned, .. } => literal_ok(
                tok,
                value,
                returned@,
                opt_ref_ty(args.self_type),
                expected,
            ),
            _ => false,
        },
        Expression::Grouping(g) => typed_as(args, *g.expression, expected, t),
        Expression::Identifier(tok) => match t {
            TypedExpression::Identifier { id, returned, .. } => match id {
                TypedIdentifier::Variable(v) => stack_lookup(args.var_stack.frames(), text_of(tok)) == Some(v)
                    && var_type(args.var_stack.vars(), v) == Some(returned@),
                TypedIdentifier::Function(f) => {
                    &&& stack_lookup(args.var_stack.frames(), text_of(tok)) is None
                    &&& found_funcs(args.context.func_resolver.entries(), paths_view(*args.file), None, text_of(tok))
                        == seq![f]
                    &&& match func_by_id(args.context.funcs@, f) {
                        Some(fi) => returned@ == func_ty(fi),
                        None => false,
                    }
                },
            },
            _ => false,
        },
        Expression::ArrayLiteral(a) => {
            let inner = match expected {
                Some(Ty::Array(i)) => Some(*i),
                _ => None,
            };
            match t {
                TypedExpression::Array { expressions, returned, .. } => match returned@ {
                    Ty::Array(elem) => {
                        &&& expressions@.len() == a.expressions@.len()
                        &&& (a.expressions@.len() == 0 ==> expected == Some(returned@))
                        &&& forall|i: int| 0 <= i < a.expressions@.len() ==> typed_as(
                            args,
                            #[trigger] a.expressions@[i],
                            inner,
                            expressions@[i],
                        ) && ret_ty(expressions@[i]) == *elem
                    },
                    _ => false,
                },
                _ => false,
            }
        },
        Expression::Binary(b) => match t {
            TypedExpression::Binary { left, op, right, returned, .. } => {
                &&& Some(op) == binary_op_of(b.operator.token_type)
                &&& typed_as(args, *b.left, None, *left)
                &&& typed_as(args, *b.right, None, *right)
                &&& bin_rule(args.operators.binary_rules(), ret_ty(*left), ret_ty(*right), op) == Some(returned@)
            },
            _ => false,
        },
        Expression::Unary(u) => match t {
            TypedExpression::Unary { operand, op, returned, .. } => {
                &&& Some(op) == unary_op_of(u.operator.token_type)
                &&& typed_as(args, *u.expression, expected, *operand)
                &&& un_rule(args.operators.unary_rules(), ret_ty(*operand), op) == Some(returned@)
            },
            _ => false,
        },
        Expression::Cast(c) => match t {
            TypedExpression::Cast { casted, type_info, returned, .. } => {
                &&& typed_as(args, *c.expression, None, *casted)
                &&& resolve_type(args.context.type_resolver.entries(), paths_view(*args.file), c.type_ref) == Some(type_info@)
                &&& cast_rule(ret_ty(*casted), type_info@) == Some(returned@)
            },
            _ => false,
        },
        Expression::Call(c) => match t {
            TypedExpression::Call { called, args: targs, returned, .. } => match ret_ty(*called) {
                Ty::Function(ps, r) => {
                    &&& typed_as(args, *c.expression, None, *called)
                    &&& targs@.len() == c.args@.len()
                    &&& returned@ == *r
                    &&& targs@.len() <= ps.len()
                    &&& forall|i: int| 0 <= i < c.args@.len() ==> typed_as(args, #[trigger] c.args@[i], Some(ps[i]), targs@[i])
                    &&& (targs@.len() < ps.len() ==> match *called {
                        TypedExpression::Identifier { id: TypedIdentifier::Function(f), .. } => match func_by_id(
                            args.context.funcs@,
                            f,
                        ) {
                            Some(fi) => fi.parameters@[targs@.len() as int].init is Some,
                            None => false,
                        },
                        _ => false,
                    })
                },
                _ => false,
            },
            _ => false,
        },
        Expression::Construction(c) => match t {
            TypedExpression::Construction { type_id, args: targs, returned, .. } => match struct_by_id(args.context.structs@, type_id) {
                Some(s) => {
                    &&& returned@ == Ty::Primary(type_id)
                    &&& resolve_type(args.context.type_resolver.entries(), paths_view(*args.file), c.type_ref) == Some(Ty::Primary(type_id))
                    &&& cons_args_typed(args, s.members@, c.args@, targs@)
                },
                None => false,
            },
            _ => false,
        },
        _ => false,
    }
}

/// `targs` is a checking of the named values `con_args` of a construction of a
/// struct with `members`: one per value, in order, each with the value's name
/// and typed as the first member of that name; and the names are used once
/// and cover every member without a default value.
pub open spec fn cons_args_typed(
    args: ExprCheckArgs,
    members: Seq<StructMember>,
    con_args: Seq<ConstructionArg>,
    targs: Seq<(String, TypedExpression)>,
) -> bool
    decreases con_args, 0nat,
{
    &&& targs.len() == con_args.len()
    &&& names_once_and_complete(members, con_args)
    &&& forall|i: int| 0 <= i < con_args.len() ==> {
        &&& targs[i].0@ == text_of((#[trigger] con_args[i]).name)
        &&& match member_ty(members, text_of(con_args[i].name)) {
            Some(mt) => typed_as(args, *con_args[i].value, Some(mt), targs[i].1),
            None => false,
        }
    }
}

/// `e` is a binary expression whose operands have typings `l` and `rt`, whose
/// operator is `op`, and for whose operand types no rule of `op` exists.
pub open spec fn binary_unruled(args: ExprCheckArgs, e: Expression, l: TypedExpression, rt: TypedExpression, op: BinaryOpType) -> bool {
    match e {
        Expression::Binary(b) => {
            &&& typed_as(args, *b.left, None, l)
            &&& typed_as(args, *b.right, None, rt)
            &&& binary_op_of(b.operator.token_type) == Some(op)
            &&& bin_rule(args.operators.binary_rules(), ret_ty(l), ret_ty(rt), op) is None
        },
        _ => false,
    }
}

/// `r` is the error for a binary expression `e` with no rule of `op` for the
/// types of `l` and `rt`: it names the operator and both types, at the
/// operator's place.
pub open spec fn binary_error(
    args: ExprCheckArgs,
    e: Expression,
    l: TypedExpression,
    rt: TypedExpression,
    op: BinaryOpType,
    r: Result<TypedExpression, TypeError>,
) -> bool {
    match e {
        Expression::Binary(b) => match r {
            Err(TypeError::NoBinaryOp(o, ls, rs, loc)) => {
                &&& o == op
                &&& ls@ == ty_text(ret_ty(l), args.context.structs@)
                &&& rs@ == ty_text(ret_ty(rt), args.context.structs@)
                &&& loc == spec_get_loc(b.operator.pos, *args.file.info)
            },
            _ => false,
        },
        _ => false,
    }
}

/// Whether a typed expression is a variable's name.
pub open spec fn var_ident(t: TypedExpression) -> bool {
    t matches TypedExpression::Identifier { id: TypedIdentifier::Variable(_), .. }
}

/// The function a typed expression names, when it is a function's name.
pub open spec fn fn_ident(t: TypedExpression) -> Option<u128> {
    match t {
        TypedExpression::Identifier { id: TypedIdentifier::Function(f), .. } => Some(f),
        _ => None,
    }
}

/// Arguments that differ at most in a variable stack with the same scopes and
/// variables type expressions alike.
pub proof fn lemma_typed_as_scope(a1: ExprCheckArgs, a2: ExprCheckArgs, e: Expression, x: Option<Ty>, t: TypedExpression)
    requires
        a1.operators == a2.operators,
        a1.context == a2.context,
        a1.file == a2.file,
        opt_ref_ty(a1.self_type) == opt_ref_ty(a2.self_type),
        a1.var_stack.frames() == a2.var_stack.frames(),
        a1.var_stack.vars() == a2.var_stack.vars(),
    ensures
        typed_as(a1, e, x, t) == typed_as(a2, e, x, t),
    decreases e,
{
    match e {
        Expression::Grouping(g) => {
            lemma_typed_as_scope(a1, a2, *g.expression, x, t);
        },
        Expression::ArrayLiteral(a) => {
            let inner = match x {
                Some(Ty::Array(i)) => Some(*i),
                _ => None,
            };
            match t {
                TypedExpression::Array { expressions, .. } => {
                    assert forall|i: int| 0 <= i < a.expressions@.len() implies typed_as(a1, #[trigger] a.expressions@[i], inner, expressions@[i])
                        == typed_as(a2, a.expressions@[i], inner, expressions@[i]) by {
                        assert(decreases_to!(e => a.expressions@[i]));
                        lemma_typed_as_scope(a1, a2, a.expressions@[i], inner, expressions@[i]);
                    }
                },
                _ => {},
            }
        },
        Expression::Binary(b) => {
            match t {
                TypedExpression::Binary { left, right, .. } => {
                    lemma_typed_as_scope(a1, a2, *b.left, None, *left);
                    lemma_typed_as_scope(a1, a2, *b.right, None, *right);
                },
                _ => {},
            }
        },
        Expression::Unary(u) => {
            match t {
                TypedExpression::Unary { operand, .. } => {
                    lemma_typed_as_scope(a1, a2, *u.expression, x, *operand);
                },
                _ => {},
            }
        },
        Expression::Cast(c) => {
            match t {
                TypedExpression::Cast { casted, .. } => {
                    lemma_typed_as_scope(a1, a2, *c.expression, None, *casted);
                },
                _ => {},
            }
        },
        Expression::Call(c) => {
            match t {
                TypedExpression::Call { called, args: targs, .. } => {
                    lemma_typed_as_scope(a1, a2, *c.expression, None, *called);
                    match ret_ty(*called) {
                        Ty::Function(ps, _) => {
                            assert forall|i: int| 0 <= i < c.args@.len() implies typed_as(a1, #[trigger] c.args@[i], Some(ps[i]), targs@[i])
                                == typed_as(a2, c.args@[i], Some(ps[i]), targs@[i]) by {
                                assert(decreases_to!(e => c.args@[i]));
                                lemma_typed_as_scope(a1, a2, c.args@[i], Some(ps[i]), targs@[i]);
                            }
                        },
                        _ => {},
                    }
                },
                _ => {},
            }
        },
        Expression::Construction(c) => {
            match t {
                TypedExpression::Construction { type_id, args: targs, .. } => {
                    match struct_by_id(a1.context.structs@, type_id) {
                        Some(st) => {
                            assert forall|i: int| 0 <= i < c.args@.len() implies (match member_ty(st.members@, text_of((#[trigger] c.args@[i]).name)) {
                                Some(mt) => typed_as(a1, *c.args@[i].value, Some(mt), targs@[i].1),
                                None => false,
                            }) == (match member_ty(st.members@, text_of(c.args@[i].name)) {
                                Some(mt) => typed_as(a2, *c.args@[i].value, Some(mt), targs@[i].1),
                                None => false,
                            }) by {
                                assert(decreases_to!(e => c.args@));
                                assert(decreases_to!(c.args@ => *c.args@[i].value));
                                match member_ty(st.members@, text_of(c.args@[i].name)) {
                                    Some(mt) => {
                                        lemma_typed_as_scope(a1, a2, *c.args@[i].value, Some(mt), targs@[i].1);
                                    },
                                    None => {},
                                }
                            }
                            assert(cons_args_typed(a1, st.members@, c.args@, targs@) == cons_args_typed(a2, st.members@, c.args@, targs@));
                        },
                        None => {},
                    }
                },
                _ => {},
            }
        },
        _ => {},
    }
}

/// Two typings of an expression under the same arguments and the same
/// expected type give it the same type, and name the same function, if any.
pub proof fn lemma_typed_node_unique(args: ExprCheckArgs, e: Expression, expected: Option<Ty>, t1: TypedExpression, t2: TypedExpression)
    requires
        typed_node(args, e, expected, t1),
        typed_node(args, e, expected, t2),
    ensures
        ret_ty(t1) == ret_ty(t2),
        fn_ident(t1) == fn_ident(t2),
        var_ident(t1) == var_ident(t2),
    decreases e,
{
    match e {
        Expression::Grouping(g) => {
            lemma_typed_node_unique(args, *g.expression, expected, t1, t2);
        },
        Expression::Identifier(tok) => {
            match (t1, t2) {
                (
                    TypedExpression::Identifier { id: TypedIdentifier::Function(f1), .. },
                    TypedExpression::Identifier { id: TypedIdentifier::Function(f2), .. },
                ) => {
                    assert(seq![f1][0] == f1 && seq![f2][0] == f2);
                },
                _ => {},
            }
        },
        Expression::ArrayLiteral(a) => {
            let inner = match expected {
                Some(Ty::Array(i)) => Some(*i),
                _ => None,
            };
            match (t1, t2) {
                (TypedExpression::Array { expressions: x1, .. }, TypedExpression::Array { expressions: x2, .. }) => {
                    if a.expressions@.len() > 0 {
                        assert(decreases_to!(e => a.expressions@[0]));
                        assert(typed_as(args, a.expressions@[0], inner, x1@[0]));
                        assert(typed_as(args, a.expressions@[0], inner, x2@[0]));
                        lemma_typed_node_unique(args, a.expressions@[0], inner, x1@[0], x2@[0]);
                    }
                },
                _ => {},
            }
        },
        Expression::Binary(b) => {
            match (t1, t2) {
                (TypedExpression::Binary { left: l1, right: r1, .. }, TypedExpression::Binary { left: l2, right: r2, .. }) => {
                    lemma_typed_node_unique(args, *b.left, None, *l1, *l2);
                    lemma_typed_node_unique(args, *b.right, None, *r1, *r2);
                },
                _ => {},
            }
        },
        Expression::Unary(u) => {
            match (t1, t2) {
                (TypedExpression::Unary { operand: o1, .. }, TypedExpression::Unary { operand: o2, .. }) => {
                    lemma_typed_node_unique(args, *u.expression, expected, *o1, *o2);
                },
                _ => {},
            }
        },
        Expression::Cast(c) => {
            match (t1, t2) {
                (TypedExpression::Cast { casted: c1, .. }, TypedExpression::Cast { casted: c2, .. }) => {
                    lemma_typed_node_unique(args, *c.expression, None, *c1, *c2);
                },
                _ => {},
            }
        },
        Expression::Call(c) => {
            match (t1, t2) {
                (TypedExpression::Call { called: c1, .. }, TypedExpression::Call { called: c2, .. }) => {
                    lemma_typed_node_unique(args, *c.expression, None, *c1, *c2);
                },
                _ => {},
            }
        },
        _ => {},
    }
}

/// A name typed as a function has the type of that function.
pub proof fn lemma_function_ident_typed(args: ExprCheckArgs, e: Expression, expected: Option<Ty>, t: TypedExpression)
    requires
        typed_as(args, e, expected, t),
        t matches TypedExpression::Identifier { id: TypedIdentifier::Function(_), .. },
    ensures
        match t {
            TypedExpression::Identifier { id: TypedIdentifier::Function(f), returned, .. } => match func_by_id(args.context.funcs@, f) {
                Some(fi) => returned@ == func_ty(fi),
                None => false,
            },
            _ => false,
        },
    decreases e,
{
    match e {
        Expression::Grouping(g) => {
            lemma_function_ident_typed(args, *g.expression, expected, t);
        },
        _ => {},
    }
}

pub proof fn lemma_exprs_wf_at(es: Seq<Expression>, i: int)
    requires
        exprs_wf(es),
        0 <= i < es.len(),
    ensures
        expr_wf(es[i]),
    decreases es.len(),
{
    if i < es.len() - 1 {
        lemma_exprs_wf_at(es.drop_last(), i);
        assert(es.drop_last()[i] == es[i]);
    }
}

pub proof fn lemma_construction_args_wf_at(args: Seq<ConstructionArg>, i: int)
    requires
        construction_args_wf(args),
        0 <= i < args.len(),
    ensures
        expr_wf(*args[i].value),
        args[i].name.token_type == TokenType::Identifier,
        token_valued(args[i].name),
    decreases args.len(),
{
    if i < args.len() - 1 {
        lemma_construction_args_wf_at(args.drop_last(), i);
        assert(args.drop_last()[i] == args[i]);
    }
}

fn find_func<'a>(fs: &'a Vec<FuncInfo>, id: u128) -> (r: Option<&'a FuncInfo>)
    ensures
        match r {
            Some(f) => func_by_id(fs@, id) == Some(*f),
            None => func_by_id(fs@, id) is None,
        },
{
    let ghost s = fs@;
    assert(s.subrange(0, s.len() as int) =~= s);
    let mut i: usize = 0;
    while i < fs.len()
        invariant
            i <= s.len(),
            s == fs@,
            func_by_id(s, id) == func_by_id(s.subrange(i as int, s.len() as int), id),
        decreases s.len() - i,
    {
        assert(s.subrange(i as int, s.len() as int).drop_first() =~= s.subrange(i + 1, s.len() as int));
        if fs[i].id == id {
            return Some(&fs[i]);
        }
        i += 1;
    }
    None
}

fn find_struct<'a>(ss: &'a Vec<StructInfo>, id: u128) -> (r: Option<&'a StructInfo>)
    ensures
        match r {
            Some(s) => struct_by_id(ss@, id) == Some(*s),
            None => struct_by_id(ss@, id) is None,
        },
{
    let ghost s = ss@;
    assert(s.subrange(0, s.len() as int) =~= s);
    let mut i: usize = 0;
    while i < ss.len()
        invariant
            i <= s.len(),
            s == ss@,
            struct_by_id(s, id) == struct_by_id(s.subrange(i as int, s.len() as int), id),
        decreases s.len() - i,
    {
        assert(s.subrange(i as int, s.len() as int).drop_first() =~= s.subrange(i + 1, s.len() as int));
        if ss[i].id == id {
            return Some(&ss[i]);
        }
        i += 1;
    }
    None
}

/// The position of the first member called `name`.
fn find_member(ms: &Vec<StructMember>, name: &String) -> (r: Option<usize>)
    ensures
        match r {
            Some(k) => k < ms@.len() && member_ty(ms@, name@) == Some(ms@[k as int].type_info@) && ms@[k as int].name@ == name@
                && forall|j: int| 0 <= j < k ==> (#[trigger] ms@[j]).name@ != name@,
            None => member_ty(ms@, name@) is None && forall|j: int| 0 <= j < ms@.len() ==> (#[trigger] ms@[j]).name@ != name@,
        },
{
    let ghost s = ms@;
    assert(s.subrange(0, s.len() as int) =~= s);
    let mut i: usize = 0;
    while i < ms.len()
        invariant
            i <= s.len(),
            s == ms@,
            member_ty(s, name@) == member_ty(s.subrange(i as int, s.len() as int), name@),
            forall|j: int| 0 <= j < i ==> (#[trigger] s[j]).name@ != name@,
        decreases s.len() - i,
    {
        assert(s.subrange(i as int, s.len() as int).drop_first() =~= s.subrange(i + 1, s.len() as int));
        if ms[i].name == *name {
            return Some(i);
        }
        i += 1;
    }
    None
}

/// The error for a type other than the one the context asks for.
fn expected_error(expected: &TypeInfo, args: ExprCheckArgs, pos: TextPos) -> (r: TypeError)
    ensures
        r matches TypeError::ExpectedType(name, l) && name@ == ty_text(expected@, args.context.structs@) && l
            == spec_get_loc(pos, *args.file.info),
{
    TypeError::ExpectedType(expected.pretty_print(&args.context.structs), pos.get_loc(&args.file.info))
}

/// `t` does not have the type the context asks for, and `r` is the error that
/// says so: the type asked for, at the place of `e`.
pub open spec fn expected_mismatch(
    args: ExprCheckArgs,
    e: Expression,
    expected: Option<&TypeInfo>,
    t: TypedExpression,
    r: Result<TypedExpression, TypeError>,
) -> bool {
    &&& expected matches Some(x) && ret_ty(t) != x@
    &&& r matches Err(TypeError::ExpectedType(n, l))
    &&& n@ == ty_text(expected->0@, args.context.structs@)
    &&& l == spec_get_loc(expr_pos(e), *args.file.info)
}

/// Succeeds when the type is the one the context asks for, if it asks for one.
fn check_expected(expected: Option<&TypeInfo>, gotten: &TypeInfo, args: ExprCheckArgs, pos: TextPos) -> (r: Result<(), TypeError>)
    ensures
        r is Ok <==> (expected matches Some(x) ==> x@ == gotten@),
        r matches Err(e) ==> e matches TypeError::ExpectedType(n, l) && n@ == ty_text(expected->0@, args.context.structs@)
            && l == spec_get_loc(pos, *args.file.info),
{
    match expected {
        Some(e) => {
            if !e.same(gotten) {
                return Err(expected_error(e, args, pos));
            }
            Ok(())
        },
        None => Ok(()),
    }
}

fn call_args_error(params: &Vec<TypeInfo>, args: ExprCheckArgs, pos: TextPos) -> (r: TypeError)
    ensures
        r matches TypeError::InvalidCallArgs(names, l) && names@.len() == params@.len() && (forall|k: int|
            0 <= k < params@.len() ==> (#[trigger] names@[k])@ == ty_text(params@[k]@, args.context.structs@))
            && l == spec_get_loc(pos, *args.file.info),
{
    let mut names: Vec<String> = Vec::new();
    let mut i: usize = 0;
    while i < params.len()
        invariant
            i <= params@.len(),
            names@.len() == i,
            forall|k: int| 0 <= k < i ==> (#[trigger] names@[k])@ == ty_text(params@[k]@, args.context.structs@),
        decreases params@.len() - i,
    {
        names.push(params[i].pretty_print(&args.context.structs));
        i += 1;
    }
    TypeError::InvalidCallArgs(names, pos.get_loc(&args.file.info))
}

fn param_types(def: &FuncInfo) -> (r: Vec<TypeInfo>)
    ensures
        r@.len() == def.parameters@.len(),
        forall|k: int| 0 <= k < r@.len() ==> (#[trigger] r@[k])@ == def.parameters@[k].type_info@,
{
    let mut types: Vec<TypeInfo> = Vec::new();
    let mut i: usize = 0;
    while i < def.parameters.len()
        invariant
            i <= def.parameters@.len(),
            types@.len() == i,
            forall|k: int| 0 <= k < i ==> (#[trigger] types@[k])@ == def.parameters@[k].type_info@,
        decreases def.parameters@.len() - i,
    {
        types.push(def.parameters[i].type_info.copy());
        i += 1;
    }
    types
}

impl TypedExpression {
    /// Checks an expression: gives it and each of its parts a type by the
    /// language's rules, where `expected` is the type the context asks for.
    pub fn check_expr(expr: &Expression, args: ExprCheckArgs, expected: Option<&TypeInfo>) -> (r: Result<TypedExpression, TypeError>)
        requires
            expr_wf(*expr),
            expr_supported(*expr),
        ensures
            r matches Ok(t) ==> typed_as(args, *expr, opt_ref_ty(expected), t),
            r is Err ==> forall|t: TypedExpression| !#[trigger] typed_as(args, *expr, opt_ref_ty(expected), t),
            forall|t: TypedExpression| #[trigger] typed_node(args, *expr, opt_ref_ty(expected), t) && !self_literal(*expr) && (
            expected matches Some(x) && ret_ty(t) != x@) ==> expected_mismatch(args, *expr, expected, t, r),
            forall|l: TypedExpression, rt: TypedExpression, op: BinaryOpType| #[trigger] binary_unruled(args, *expr, l, rt, op)
                ==> binary_error(args, *expr, l, rt, op, r),
        decreases *expr, 2nat,
    {
        let gotten = match Self::check_inner(expr, args, expected) {
            Ok(g) => g,
            Err(e) => {
                proof {
                    assert forall|t: TypedExpression| !#[trigger] typed_as(args, *expr, opt_ref_ty(expected), t) by {
                        if typed_as(args, *expr, opt_ref_ty(expected), t) {
                            assert(typed_node(args, *expr, opt_ref_ty(expected), t));
                        }
                    }
                }
                return Err(e);
            },
        };
        if let Expression::Literal(token) = expr {
            if token.token_type == TokenType::SelfVal {
                return Ok(gotten);
            }
        }
        match check_expected(expected, gotten.returned(), args, expr.get_pos()) {
            Ok(()) => {
                proof {
                    assert forall|t: TypedExpression| #[trigger] typed_node(args, *expr, opt_ref_ty(expected), t) implies !(
                    expected matches Some(x) && ret_ty(t) != x@) by {
                        lemma_typed_node_unique(args, *expr, opt_ref_ty(expected), t, gotten);
                    }
                }
            },
            Err(e) => {
                proof {
                    assert forall|t: TypedExpression| !#[trigger] typed_as(args, *expr, opt_ref_ty(expected), t) by {
                        if typed_as(args, *expr, opt_ref_ty(expected), t) {
                            lemma_typed_node_unique(args, *expr, opt_ref_ty(expected), t, gotten);
                        }
                    }
                    assert forall|t: TypedExpression| #[trigger] typed_node(args, *expr, opt_ref_ty(expected), t) && (expected matches Some(x)
                        && ret_ty(t) != x@) implies expected_mismatch(args, *expr, expected, t, Err(e)) by {
                        lemma_typed_node_unique(args, *expr, opt_ref_ty(expected), t, gotten);
                    }
                }
                return Err(e);
            },
        }
        Ok(gotten)
    }

    /// The typing of `expr`, before its type is held to `expected`.
    #[verifier::loop_isolation(false)]
    #[verifier::rlimit(100)]
    fn check_inner(expr: &Expression, args: ExprCheckArgs, expected: Option<&TypeInfo>) -> (r: Result<TypedExpression, TypeError>)
        requires
            expr_wf(*expr),
            expr_supported(*expr),
        ensures
            r matches Ok(t) ==> typed_node(args, *expr, opt_ref_ty(expected), t),
            r is Err ==> forall|t: TypedExpression| #[trigger] typed_node(args, *expr, opt_ref_ty(expected), t)
                ==> expected_mismatch(args, *expr, expected, t, r) && !self_literal(*expr),
            forall|l: TypedExpression, rt: TypedExpression, op: BinaryOpType| #[trigger] binary_unruled(args, *expr, l, rt, op)
                ==> binary_error(args, *expr, l, rt, op, r),
        decreases *expr, 1nat,
    {
        match expr {
            Expression::Literal(token) => {
                let loc = token.get_loc(&args.file.info);
                if token.token_type == TokenType::Null {
                    return match expected {
                        Some(s) => Ok(TypedExpression::Literal { value: LitVal::Null, returned: s.copy(), loc }),
                        None => Err(TypeError::CannotInferExpression(loc)),
                    };
                }
                if token.token_type == TokenType::SelfVal {
                    return match args.self_type {
                        Some(s) => Ok(TypedExpression::Literal { value: LitVal::SelfVal, returned: s.copy(), loc }),
                        None => Err(TypeError::CannotInferExpression(loc)),
                    };
                }
                match &token.value {
                    Some(TokenValue::String(s)) => Ok(TypedExpression::Literal { value: LitVal::String(s.clone()), returned: string_type(), loc }),
                    Some(TokenValue::Int(n)) => Ok(TypedExpression::Literal { value: LitVal::Int(*n), returned: int_type(), loc }),
                    Some(TokenValue::Float(f)) => Ok(TypedExpression::Literal { value: LitVal::Float(f.clone()), returned: float_type(), loc }),
                    Some(TokenValue::Bool(b)) => Ok(TypedExpression::Literal { value: LitVal::Bool(*b), returned: bool_type(), loc }),
                    None => Err(TypeError::CannotInferExpression(loc)),
                }
            },
            Expression::Grouping(g) => {
                let r = Self::check_expr(&g.expression, args, expected);
                proof {
                    if r is Err {
                        assert forall|t: TypedExpression| !#[trigger] typed_node(args, *expr, opt_ref_ty(expected), t) by {
                            if typed_node(args, *expr, opt_ref_ty(expected), t) {
                                assert(typed_node(args, *expr, opt_ref_ty(expected), t));
                                assert(typed_as(args, *g.expression, opt_ref_ty(expected), t));
                            }
                        }
                    }
                }
                r
            },
            Expression::Identifier(token) => {
                let loc = token.get_loc(&args.file.info);
                let name = token.value_string().unwrap();
                let res_id = match args.resolve_name(token) {
                    Ok(id) => id,
                    Err(e) => return Err(e),
                };
                match res_id {
                    TypedIdentifier::Variable(v) => match args.var_stack.get_var(v) {
                        Some(def) => Ok(TypedExpression::Identifier { id: TypedIdentifier::Variable(v), returned: def.type_info.copy(), loc }),
                        None => {
                            proof {
                                assert forall|t: TypedExpression| !#[trigger] typed_node(args, *expr, opt_ref_ty(expected), t) by {
                                    if typed_node(args, *expr, opt_ref_ty(expected), t) {
                                        assert(typed_node(args, *expr, opt_ref_ty(expected), t));
                                    }
                                }
                            }
                            Err(TypeError::UnknownVariable(name.clone(), loc))
                        },
                    },
                    TypedIdentifier::Function(f) => {
                        proof {
                            let found = found_funcs(args.context.func_resolver.entries(), paths_view(*args.file), None, text_of(*token));
                            assert(found =~= seq![f]);
                        }
                        match find_func(&args.context.funcs, f) {
                            Some(fi) => Ok(TypedExpression::Identifier { id: TypedIdentifier::Function(f), returned: fi.get_type_info(), loc }),
                            None => {
                                proof {
                                    assert forall|t: TypedExpression| !#[trigger] typed_node(args, *expr, opt_ref_ty(expected), t) by {
                                        if typed_node(args, *expr, opt_ref_ty(expected), t) {
                                            assert(typed_node(args, *expr, opt_ref_ty(expected), t));
                                            match t {
                                                TypedExpression::Identifier { id: TypedIdentifier::Function(f2), .. } => {
                                                    assert(seq![f2][0] == f2);
                                                },
                                                _ => {},
                                            }
                                        }
                                    }
                                }
                                Err(TypeError::UnknownIdentifier(name.clone(), loc))
                            },
                        }
                    },
                }
            },
            Expression::ArrayLiteral(a) => {
                let pos = a.open_bracket.pos + a.close_bracket.pos;
                let inner_expected: Option<&TypeInfo> = match expected {
                    Some(TypeInfo::Array(inner)) => Some(&**inner),
                    None => None,
                    Some(t) => return Err(expected_error(t, args, pos)),
                };
                let mut checked: Vec<TypedExpression> = Vec::new();
                let mut i: usize = 0;
                while i < a.expressions.len()
                    invariant
                        exprs_wf(a.expressions@),
                        forall|k: int| 0 <= k < a.expressions@.len() ==> expr_supported(#[trigger] a.expressions@[k]),
                        i <= a.expressions@.len(),
                        checked@.len() == i,
                        forall|k: int| 0 <= k < i ==> typed_as(args, #[trigger] a.expressions@[k], opt_ref_ty(inner_expected), checked@[k]),
                    decreases a.expressions@.len() - i,
                {
                    proof {
                        lemma_exprs_wf_at(a.expressions@, i as int);
                        assert(decreases_to!(*expr => a.expressions@[i as int]));
                    }
                    let c = match Self::check_expr(&a.expressions[i], args, inner_expected) {
                        Ok(c) => c,
                        Err(e) => {
                            proof {
                                assert forall|t: TypedExpression| !#[trigger] typed_node(args, *expr, opt_ref_ty(expected), t) by {
                                    if typed_node(args, *expr, opt_ref_ty(expected), t) {
                                        match t {
                                            TypedExpression::Array { expressions: xs, .. } => {
                                                assert(typed_as(args, a.expressions@[i as int], opt_ref_ty(inner_expected), xs@[i as int]));
                                            },
                                            _ => {},
                                        }
                                    }
                                }
                            }
                            return Err(e);
                        },
                    };
                    checked.push(c);
                    i += 1;
                }
                let mut i: usize = 1;
                while i < checked.len()
                    invariant
                        1 <= i,
                        checked@.len() > 0 ==> i <= checked@.len(),
                        forall|k: int| 0 <= k < i && k < checked@.len() ==> ret_ty(#[trigger] checked@[k]) == ret_ty(checked@[0]),
                    decreases checked@.len() - i,
                {
                    if !checked[i].returned().same(checked[i - 1].returned()) {
                        proof {
                            assert forall|t: TypedExpression| !#[trigger] typed_node(args, *expr, opt_ref_ty(expected), t) by {
                                if typed_node(args, *expr, opt_ref_ty(expected), t) {
                                    match t {
                                        TypedExpression::Array { expressions: xs, .. } => {
                                            let j = i - 1;
                                            assert(typed_as(args, a.expressions@[i as int], opt_ref_ty(inner_expected), xs@[i as int]));
                                            assert(typed_as(args, a.expressions@[j as int], opt_ref_ty(inner_expected), xs@[j as int]));
                                            assert(typed_as(args, a.expressions@[i as int], opt_ref_ty(inner_expected), checked@[i as int]));
                                            assert(typed_as(args, a.expressions@[j as int], opt_ref_ty(inner_expected), checked@[j as int]));
                                            lemma_typed_node_unique(args, a.expressions@[i as int], opt_ref_ty(inner_expected), xs@[i as int], checked@[i as int]);
                                            lemma_typed_node_unique(args, a.expressions@[j as int], opt_ref_ty(inner_expected), xs@[j as int], checked@[j as int]);
                                        },
                                        _ => {},
                                    }
                                }
                            }
                        }
                        let want = checked[i - 1].returned();
                        return Err(expected_error(want, args, a.expressions[i].get_pos()));
                    }
                    i += 1;
                }
                let loc = pos.get_loc(&args.file.info);
                let returned = if checked.len() > 0 {
                    TypeInfo::Array(Box::new(checked[0].returned().copy()))
                } else {
                    match expected {
                        Some(e) => e.copy(),
                        None => return Err(TypeError::CannotInferExpression(loc)),
                    }
                };
                Ok(TypedExpression::Array { expressions: checked, returned, loc })
            },
            Expression::Binary(b) => {
                let left = match Self::check_expr(&b.left, args, None) {
                    Ok(l) => l,
                    Err(e) => {
                        proof {
                            assert forall|t: TypedExpression| !#[trigger] typed_node(args, *expr, opt_ref_ty(expected), t) by {
                                if typed_node(args, *expr, opt_ref_ty(expected), t) {
                                    match t {
                                        TypedExpression::Binary { left: l2, .. } => {
                                            assert(typed_as(args, *b.left, None, *l2));
                                        },
                                        _ => {},
                                    }
                                }
                            }
                        }
                        return Err(e);
                    },
                };
                let right = match Self::check_expr(&b.right, args, None) {
                    Ok(r) => r,
                    Err(e) => {
                        proof {
                            assert forall|t: TypedExpression| !#[trigger] typed_node(args, *expr, opt_ref_ty(expected), t) by {
                                if typed_node(args, *expr, opt_ref_ty(expected), t) {
                                    match t {
                                        TypedExpression::Binary { right: r2, .. } => {
                                            assert(typed_as(args, *b.right, None, *r2));
                                        },
                                        _ => {},
                                    }
                                }
                            }
                        }
                        return Err(e);
                    },
                };
                let op = match BinaryOpType::from_token_type(b.operator.token_type) {
                    Some(op) => op,
                    None => return Err(TypeError::CannotInferExpression(b.operator.get_loc(&args.file.info))),
                };
                match args.operators.evaluate_binary(left.returned(), right.returned(), op) {
                    Some(returned) => {
                        proof {
                            assert forall|l: TypedExpression, rt: TypedExpression, o: BinaryOpType| !#[trigger] binary_unruled(args, *expr, l, rt, o) by {
                                if binary_unruled(args, *expr, l, rt, o) {
                                    lemma_typed_node_unique(args, *b.left, None, l, left);
                                    lemma_typed_node_unique(args, *b.right, None, rt, right);
                                }
                            }
                        }
                        let loc = (b.left.get_pos() + b.right.get_pos()).get_loc(&args.file.info);
                        Ok(TypedExpression::Binary { left: Box::new(left), op, right: Box::new(right), returned, loc })
                    },
                    None => {
                        proof {
                            assert forall|t: TypedExpression| !#[trigger] typed_node(args, *expr, opt_ref_ty(expected), t) by {
                                if typed_node(args, *expr, opt_ref_ty(expected), t) {
                                    match t {
                                        TypedExpression::Binary { left: l2, right: r2, .. } => {
                                            assert(typed_as(args, *b.left, None, *l2));
                                            assert(typed_as(args, *b.right, None, *r2));
                                            lemma_typed_node_unique(args, *b.left, None, *l2, left);
                                            lemma_typed_node_unique(args, *b.right, None, *r2, right);
                                        },
                                        _ => {},
                                    }
                                }
                            }
                        }
                        let left_str = left.returned().pretty_print(&args.context.structs);
                        let right_str = right.returned().pretty_print(&args.context.structs);
                        let r = Err(TypeError::NoBinaryOp(op, left_str, right_str, b.operator.get_loc(&args.file.info)));
                        proof {
                            assert forall|l: TypedExpression, rt: TypedExpression, o: BinaryOpType| #[trigger] binary_unruled(args, *expr, l, rt, o)
                                implies binary_error(args, *expr, l, rt, o, r) by {
                                lemma_typed_node_unique(args, *b.left, None, l, left);
                                lemma_typed_node_unique(args, *b.right, None, rt, right);
                            }
                        }
                        r
                    },
                }
            },
            Expression::Unary(u) => {
                let operand = match Self::check_expr(&u.expression, args, expected) {
                    Ok(x) => x,
                    Err(e) => {
                        proof {
                            assert forall|t: TypedExpression| !#[trigger] typed_node(args, *expr, opt_ref_ty(expected), t) by {
                                if typed_node(args, *expr, opt_ref_ty(expected), t) {
                                    match t {
                                        TypedExpression::Unary { operand: o2, .. } => {
                                            assert(typed_as(args, *u.expression, opt_ref_ty(expected), *o2));
                                        },
                                        _ => {},
                                    }
                                }
                            }
                        }
                        return Err(e);
                    },
                };
                let op = match UnaryOpType::from_token_type(u.operator.token_type) {
                    Some(op) => op,
                    None => return Err(TypeError::CannotInferExpression(u.operator.get_loc(&args.file.info))),
                };
                match args.operators.evaluate_unary(operand.returned(), op) {
                    Some(returned) => {
                        let loc = (u.operator.pos + u.expression.get_pos()).get_loc(&args.file.info);
                        Ok(TypedExpression::Unary { operand: Box::new(operand), op, returned, loc })
                    },
                    None => {
                        proof {
                            assert forall|t: TypedExpression| !#[trigger] typed_node(args, *expr, opt_ref_ty(expected), t) by {
                                if typed_node(args, *expr, opt_ref_ty(expected), t) {
                                    match t {
                                        TypedExpression::Unary { operand: o2, .. } => {
                                            assert(typed_as(args, *u.expression, opt_ref_ty(expected), *o2));
                                            lemma_typed_node_unique(args, *u.expression, opt_ref_ty(expected), *o2, operand);
                                        },
                                        _ => {},
                                    }
                                }
                            }
                        }
                        let t = operand.returned().pretty_print(&args.context.structs);
                        Err(TypeError::NoUnaryOp(op, t, u.operator.get_loc(&args.file.info)))
                    },
                }
            },
            Expression::Cast(c) => {
                let casted = match Self::check_expr(&c.expression, args, None) {
                    Ok(x) => x,
                    Err(e) => {
                        proof {
                            assert forall|t: TypedExpression| !#[trigger] typed_node(args, *expr, opt_ref_ty(expected), t) by {
                                if typed_node(args, *expr, opt_ref_ty(expected), t) {
                                    match t {
                                        TypedExpression::Cast { casted: c2, .. } => {
                                            assert(typed_as(args, *c.expression, None, *c2));
                                        },
                                        _ => {},
                                    }
                                }
                            }
                        }
                        return Err(e);
                    },
                };
                let type_info = TypeInfo::from(&c.type_ref, &args.context.type_resolver, args.file)?;
                let pos = c.expression.get_pos() + c.type_ref.get_pos();
                match args.operators.evaluate_cast(casted.returned(), &type_info) {
                    Some(returned) => Ok(TypedExpression::Cast { casted: Box::new(casted), type_info, returned, loc: pos.get_loc(&args.file.info) }),
                    None => {
                        proof {
                            assert forall|t: TypedExpression| !#[trigger] typed_node(args, *expr, opt_ref_ty(expected), t) by {
                                if typed_node(args, *expr, opt_ref_ty(expected), t) {
                                    match t {
                                        TypedExpression::Cast { casted: c2, .. } => {
                                            assert(typed_as(args, *c.expression, None, *c2));
                                            lemma_typed_node_unique(args, *c.expression, None, *c2, casted);
                                        },
                                        _ => {},
                                    }
                                }
                            }
                        }
                        let expr_type = casted.returned().pretty_print(&args.context.structs);
                        let cast_type = type_info.pretty_print(&args.context.structs);
                        Err(TypeError::NoCastOperator { loc: pos.get_loc(&args.file.info), expr_type, cast_type })
                    },
                }
            },
            Expression::Call(c) => {
                let loc = (c.expression.get_pos() + c.close_paren.pos).get_loc(&args.file.info);
                let args_pos = c.open_paren.pos + c.close_paren.pos;
                let called = match Self::check_expr(&c.expression, args, None) {
                    Ok(x) => x,
                    Err(e) => {
                        proof {
                            assert forall|t: TypedExpression| !#[trigger] typed_node(args, *expr, opt_ref_ty(expected), t) by {
                                if typed_node(args, *expr, opt_ref_ty(expected), t) {
                                    match t {
                                        TypedExpression::Call { called: c2, .. } => {
                                            assert(typed_as(args, *c.expression, None, *c2));
                                        },
                                        _ => {},
                                    }
                                }
                            }
                        }
                        return Err(e);
                    },
                };
                if let TypedExpression::Identifier { id: TypedIdentifier::Function(fid), .. } = &called {
                    let def = match find_func(&args.context.funcs, *fid) {
                        Some(d) => d,
                        None => {
                            proof {
                                lemma_function_ident_typed(args, *c.expression, None, called);
                            }
                            return Err(TypeError::ExpectedFunction(c.expression.get_pos().get_loc(&args.file.info)));
                        },
                    };
                    let ghost ps = param_tys(def.parameters@);
                    proof {
                        lemma_function_ident_typed(args, *c.expression, None, called);
                    }
                    assert(ret_ty(called) == func_ty(*def));
                    let param_count = def.parameters.len();
                    if c.args.len() > param_count {
                        proof {
                            assert forall|t: TypedExpression| !#[trigger] typed_node(args, *expr, opt_ref_ty(expected), t) by {
                                if typed_node(args, *expr, opt_ref_ty(expected), t) {
                                    match t {
                                        TypedExpression::Call { called: c2, .. } => {
                                            assert(typed_as(args, *c.expression, None, *c2));
                                            lemma_typed_node_unique(args, *c.expression, None, *c2, called);
                                        },
                                        _ => {},
                                    }
                                }
                            }
                        }
                        return Err(call_args_error(&param_types(def), args, args_pos));
                    }
                    let mut checked: Vec<TypedExpression> = Vec::new();
                    let mut i: usize = 0;
                    let mut stopped = false;
                    while i < param_count && !stopped
                        invariant
                            i <= param_count,
                            checked@.len() == i,
                            i <= c.args@.len(),
                            stopped ==> i == c.args@.len() && i < param_count && def.parameters@[i as int].init is Some,
                            param_count == def.parameters@.len(),
                            ps == param_tys(def.parameters@),
                            c.args@.len() <= param_count,
                            forall|k: int| 0 <= k < checked@.len() ==> typed_as(args, #[trigger] c.args@[k], Some(ps[k]), checked@[k]),
                        decreases param_count - i, if stopped { 0int } else { 1int },
                    {
                        let p = &def.parameters[i];
                        if p.init.is_some() && i == c.args.len() {
                            stopped = true;
                        } else {
                            if c.args.len() <= i {
                                proof {
                                    assert forall|t: TypedExpression| !#[trigger] typed_node(args, *expr, opt_ref_ty(expected), t) by {
                                        if typed_node(args, *expr, opt_ref_ty(expected), t) {
                                            match t {
                                                TypedExpression::Call { called: c2, .. } => {
                                                    assert(typed_as(args, *c.expression, None, *c2));
                                                    lemma_typed_node_unique(args, *c.expression, None, *c2, called);
                                                },
                                                _ => {},
                                            }
                                        }
                                    }
                                }
                                return Err(call_args_error(&param_types(def), args, args_pos));
                            }
                            proof {
                                lemma_exprs_wf_at(c.args@, i as int);
                                assert(decreases_to!(*expr => c.args@[i as int]));
                                assert(ps[i as int] == p.type_info@);
                            }
                            let a = match Self::check_expr(&c.args[i], args, Some(&p.type_info)) {
                                Ok(x) => x,
                                Err(e) => {
                                    proof {
                                        assert forall|t: TypedExpression| !#[trigger] typed_node(args, *expr, opt_ref_ty(expected), t) by {
                                            if typed_node(args, *expr, opt_ref_ty(expected), t) {
                                                match t {
                                                    TypedExpression::Call { called: c2, args: targs, .. } => {
                                                        assert(typed_as(args, *c.expression, None, *c2));
                                                        lemma_typed_node_unique(args, *c.expression, None, *c2, called);
                                                        assert(typed_as(args, c.args@[i as int], Some(ps[i as int]), targs@[i as int]));
                                                    },
                                                    _ => {},
                                                }
                                            }
                                        }
                                    }
                                    return Err(e);
                                },
                            };
                            checked.push(a);
                            i += 1;
                        }
                    }
                    assert(ps.len() == param_count);
                    assert(!stopped ==> i == param_count);
                    return Ok(TypedExpression::Call { called: Box::new(called), args: checked, returned: def.returned.copy(), loc });
                }
                let (fn_args, fn_returned) = match called.returned() {
                    TypeInfo::Function { args: fa, returned: fr } => (fa, fr),
                    _ => {
                        proof {
                            assert forall|t: TypedExpression| !#[trigger] typed_node(args, *expr, opt_ref_ty(expected), t) by {
                                if typed_node(args, *expr, opt_ref_ty(expected), t) {
                                    match t {
                                        TypedExpression::Call { called: c2, .. } => {
                                            assert(typed_as(args, *c.expression, None, *c2));
                                            lemma_typed_node_unique(args, *c.expression, None, *c2, called);
                                        },
                                        _ => {},
                                    }
                                }
                            }
                        }
                        return Err(TypeError::ExpectedFunction(c.expression.get_pos().get_loc(&args.file.info)));
                    },
                };
                proof {
                    lemma_tys_of(fn_args@);
                }
                if c.args.len() != fn_args.len() {
                    proof {
                        assert forall|t: TypedExpression| !#[trigger] typed_node(args, *expr, opt_ref_ty(expected), t) by {
                            if typed_node(args, *expr, opt_ref_ty(expected), t) {
                                match t {
                                    TypedExpression::Call { called: c2, .. } => {
                                        assert(typed_as(args, *c.expression, None, *c2));
                                        lemma_typed_node_unique(args, *c.expression, None, *c2, called);
                                    },
                                    _ => {},
                                }
                            }
                        }
                    }
                    return Err(call_args_error(fn_args, args, args_pos));
                }
                let mut checked: Vec<TypedExpression> = Vec::new();
                let mut i: usize = 0;
                while i < c.args.len()
                    invariant
                        exprs_wf(c.args@),
                        forall|k: int| 0 <= k < c.args@.len() ==> expr_supported(#[trigger] c.args@[k]),
                        c.args@.len() == fn_args@.len(),
                        tys_of(fn_args@).len() == fn_args@.len(),
                        forall|k: int| 0 <= k < fn_args@.len() ==> #[trigger] tys_of(fn_args@)[k] == fn_args@[k]@,
                        i <= c.args@.len(),
                        checked@.len() == i,
                        forall|k: int| 0 <= k < i ==> typed_as(args, #[trigger] c.args@[k], Some(tys_of(fn_args@)[k]), checked@[k]),
                    decreases c.args@.len() - i,
                {
                    proof {
                        lemma_exprs_wf_at(c.args@, i as int);
                        assert(decreases_to!(*expr => c.args@[i as int]));
                    }
                    let a = match Self::check_expr(&c.args[i], args, Some(&fn_args[i])) {
                        Ok(x) => x,
                        Err(e) => {
                            proof {
                                assert forall|t: TypedExpression| !#[trigger] typed_node(args, *expr, opt_ref_ty(expected), t) by {
                                    if typed_node(args, *expr, opt_ref_ty(expected), t) {
                                        match t {
                                            TypedExpression::Call { called: c2, args: targs, .. } => {
                                                assert(typed_as(args, *c.expression, None, *c2));
                                                lemma_typed_node_unique(args, *c.expression, None, *c2, called);
                                                assert(typed_as(args, c.args@[i as int], Some(tys_of(fn_args@)[i as int]), targs@[i as int]));
                                            },
                                            _ => {},
                                        }
                                    }
                                }
                            }
                            return Err(e);
                        },
                    };
                    checked.push(a);
                    i += 1;
                }
                let returned = fn_returned.copy();
                Ok(TypedExpression::Call { called: Box::new(called), args: checked, returned, loc })
            },
            Expression::Construction(c) => {
                let type_info = TypeInfo::from(&c.type_ref, &args.context.type_resolver, args.file)?;
                let type_pos = c.type_ref.get_pos();
                let id = match type_info {
                    TypeInfo::Primary(id) => id,
                    _ => return Err(TypeError::CannotConstruct(type_info.pretty_print(&args.context.structs), type_pos.get_loc(&args.file.info))),
                };
                let def = match find_struct(&args.context.structs, id) {
                    Some(d) => d,
                    None => return Err(TypeError::CannotConstruct(type_info.pretty_print(&args.context.structs), type_pos.get_loc(&args.file.info))),
                };
                proof {
                    assert(decreases_to!(*expr => c.args@));
                }
                let checked_args = match check_construction_args(def, &c.args, args, type_pos) {
                    Ok(x) => x,
                    Err(e) => {
                        proof {
                            assert forall|t: TypedExpression| !#[trigger] typed_node(args, *expr, opt_ref_ty(expected), t) by {
                                if typed_node(args, *expr, opt_ref_ty(expected), t) {
                                    match t {
                                        TypedExpression::Construction { args: targs, .. } => {
                                            assert(cons_args_typed(args, def.members@, c.args@, targs@));
                                        },
                                        _ => {},
                                    }
                                }
                            }
                        }
                        return Err(e);
                    },
                };
                let loc = (type_pos + c.close_brace.pos).get_loc(&args.file.info);
                Ok(TypedExpression::Construction { type_id: id, args: checked_args, returned: TypeInfo::Primary(id), loc })
            },
            _ => Err(TypeError::NoMainFn),
        }
    }
}

/// The named values of a construction name each member at most once, and name
/// every member that has no default value, which is the first member of its name.
pub open spec fn names_once_and_complete(members: Seq<StructMember>, con_args: Seq<ConstructionArg>) -> bool {
    &&& forall|j1: int, j2: int|
        0 <= j1 < j2 < con_args.len() ==> text_of((#[trigger] con_args[j1]).name) != text_of((#[trigger] con_args[j2]).name)
    &&& forall|kk: int| 0 <= kk < members.len() && (#[trigger] members[kk]).init is None ==> first_of_name(members, kk)
        && exists|j: int| 0 <= j < con_args.len() && text_of((#[trigger] con_args[j]).name) == members[kk].name@
}

/// The names of the values `args[..i]`.
pub open spec fn arg_names(args: Seq<ConstructionArg>, i: int) -> Seq<Seq<char>> {
    args.subrange(0, i).map_values(|a: ConstructionArg| text_of(a.name))
}

/// While the named values `args[..i]` are read: a member is marked only when a
/// value names it, each value read marks the first member of its name, and no
/// two values read share a name.
#[verifier::opaque]
pub open spec fn marking(members: Seq<StructMember>, init: Seq<bool>, args: Seq<ConstructionArg>, i: int) -> bool {
    &&& init.len() == members.len()
    &&& 0 <= i <= args.len()
    &&& forall|kk: int| 0 <= kk < members.len() && #[trigger] init[kk] ==> arg_names(args, i).contains(members[kk].name@)
        && first_of_name(members, kk)
    &&& forall|j: int| 0 <= j < i ==> exists|kk: int|
        0 <= kk < members.len() && #[trigger] init[kk] && members[kk].name@ == text_of((#[trigger] args[j]).name)
            && first_of_name(members, kk)
    &&& forall|j1: int, j2: int|
        0 <= j1 < j2 < i ==> text_of((#[trigger] args[j1]).name) != text_of((#[trigger] args[j2]).name)
}

proof fn lemma_marking_start(members: Seq<StructMember>, init: Seq<bool>, args: Seq<ConstructionArg>)
    requires
        init.len() == members.len(),
        forall|kk: int| 0 <= kk < init.len() ==> !(#[trigger] init[kk]),
    ensures
        marking(members, init, args, 0),
{
    reveal(marking);
}

/// The first member of a name, among members `kk` with no earlier member of that name.
pub open spec fn first_of_name(members: Seq<StructMember>, kk: int) -> bool {
    forall|k2: int| 0 <= k2 < kk ==> (#[trigger] members[k2]).name@ != members[kk].name@
}

/// A value read before `i` has a name other than that of value `i`.
proof fn lemma_marking_fresh(members: Seq<StructMember>, init: Seq<bool>, args: Seq<ConstructionArg>, i: int, k: int)
    requires
        marking(members, init, args, i),
        0 <= i < args.len(),
        0 <= k < members.len(),
        !init[k],
        members[k].name@ == text_of(args[i].name),
        first_of_name(members, k),
    ensures
        forall|j: int| 0 <= j < i ==> text_of((#[trigger] args[j]).name) != text_of(args[i].name),
{
    reveal(marking);
    let name = text_of(args[i].name);
    assert forall|j: int| 0 <= j < i implies text_of((#[trigger] args[j]).name) != name by {
        if text_of(args[j].name) == name {
            let kk = choose|kk: int|
                0 <= kk < members.len() && #[trigger] init[kk] && members[kk].name@ == text_of(args[j].name)
                    && first_of_name(members, kk);
            if kk < k {
                assert(members[kk].name@ != members[k].name@);
            } else if kk > k {
                assert(members[k].name@ != members[kk].name@);
            }
        }
    }
}

/// Reading value `i`, which names member `k` first and whose member is not yet marked.
proof fn lemma_marking_step(members: Seq<StructMember>, init: Seq<bool>, args: Seq<ConstructionArg>, i: int, k: int)
    requires
        marking(members, init, args, i),
        0 <= i < args.len(),
        0 <= k < members.len(),
        !init[k],
        members[k].name@ == text_of(args[i].name),
        forall|j: int| 0 <= j < k ==> (#[trigger] members[j]).name@ != text_of(args[i].name),
    ensures
        marking(members, init.update(k, true), args, i + 1),
{
    assert(first_of_name(members, k));
    lemma_marking_fresh(members, init, args, i, k);
    reveal(marking);
    let ni = init.update(k, true);
    let before = arg_names(args, i);
    let after = arg_names(args, i + 1);
    assert(after.len() == i + 1);
    assert forall|j: int| 0 <= j < i implies after[j] == before[j] by {}
    assert(after[i] == text_of(args[i].name));
    assert forall|kk: int| 0 <= kk < members.len() && #[trigger] ni[kk] implies after.contains(members[kk].name@) by {
        if kk == k {
            assert(after[i] == members[kk].name@);
        } else {
            assert(init[kk]);
            assert(before.contains(members[kk].name@));
            let j = choose|j: int| 0 <= j < before.len() && before[j] == members[kk].name@;
            assert(after[j] == members[kk].name@);
        }
    }
    assert forall|j: int| 0 <= j < i + 1 implies exists|kk: int|
        0 <= kk < members.len() && #[trigger] ni[kk] && members[kk].name@ == text_of((#[trigger] args[j]).name)
            && first_of_name(members, kk) by {
        if j == i {
            assert(ni[k]);
        } else {
            let kk = choose|kk: int|
                0 <= kk < members.len() && #[trigger] init[kk] && members[kk].name@ == text_of(args[j].name)
                    && first_of_name(members, kk);
            assert(ni[kk]);
        }
    }
}

/// A marked member is named by a value read before `i`.
proof fn lemma_marked_named(members: Seq<StructMember>, init: Seq<bool>, args: Seq<ConstructionArg>, i: int, k: int)
    requires
        marking(members, init, args, i),
        0 <= k < members.len(),
        init[k],
    ensures
        exists|j: int| 0 <= j < i && text_of((#[trigger] args[j]).name) == members[k].name@,
{
    reveal(marking);
    let names = arg_names(args, i);
    let j = choose|j: int| 0 <= j < names.len() && names[j] == members[k].name@;
    assert(text_of(args[j].name) == names[j]);
}

/// A member without a mark that is the first of its name is named by no value read.
proof fn lemma_unmarked_unnamed(members: Seq<StructMember>, init: Seq<bool>, args: Seq<ConstructionArg>, i: int, k: int)
    requires
        marking(members, init, args, i),
        0 <= k < members.len(),
        !init[k],
        first_of_name(members, k),
    ensures
        forall|j: int| 0 <= j < i ==> text_of((#[trigger] args[j]).name) != members[k].name@,
{
    reveal(marking);
    assert forall|j: int| 0 <= j < i implies text_of((#[trigger] args[j]).name) != members[k].name@ by {
        if text_of(args[j].name) == members[k].name@ {
            let kk = choose|kk: int|
                0 <= kk < members.len() && #[trigger] init[kk] && members[kk].name@ == text_of(args[j].name)
                    && first_of_name(members, kk);
            if kk < k {
                assert(members[kk].name@ != members[k].name@);
            } else if kk > k {
                assert(members[k].name@ != members[kk].name@);
            }
        }
    }
}

/// When every value is read and every member without a default is marked.
proof fn lemma_marking_done(members: Seq<StructMember>, init: Seq<bool>, args: Seq<ConstructionArg>)
    requires
        marking(members, init, args, args.len() as int),
        forall|kk: int| 0 <= kk < members.len() ==> #[trigger] init[kk] || members[kk].init is Some,
    ensures
        names_once_and_complete(members, args),
{
    reveal(marking);
    assert forall|kk: int| 0 <= kk < members.len() && (#[trigger] members[kk]).init is None implies first_of_name(members, kk)
        && exists|j: int| 0 <= j < args.len() && text_of((#[trigger] args[j]).name) == members[kk].name@ by {
        assert(init[kk]);
        let names = arg_names(args, args.len() as int);
        let j = choose|j: int| 0 <= j < names.len() && names[j] == members[kk].name@;
        assert(text_of(args[j].name) == names[j]);
    }
}

/// Checks the named values of a construction against the struct's members:
/// each names a member once and has its type, and every member without a
/// default value is given.
fn check_construction_args(info: &StructInfo, con_args: &Vec<ConstructionArg>, args: ExprCheckArgs, pos: TextPos) -> (r: Result<Vec<(String, TypedExpression)>, TypeError>)
    requires
        construction_args_wf(con_args@),
        forall|i: int| 0 <= i < con_args@.len() ==> expr_supported(*(#[trigger] con_args@[i]).value),
    ensures
        r matches Ok(targs) ==> targs@.len() == con_args@.len() && forall|i: int| 0 <= i < con_args@.len() ==> {
            &&& targs@[i].0@ == text_of((#[trigger] con_args@[i]).name)
            &&& match member_ty(info.members@, text_of(con_args@[i].name)) {
                Some(mt) => typed_as(args, *con_args@[i].value, Some(mt), targs@[i].1),
                None => false,
            }
        },
        r is Ok ==> names_once_and_complete(info.members@, con_args@),
        r is Err ==> forall|targs: Seq<(String, TypedExpression)>| !#[trigger] cons_args_typed(args, info.members@, con_args@, targs),
    decreases con_args@, 0nat,
{
    let mut was_init: Vec<bool> = Vec::new();
    let mut k: usize = 0;
    while k < info.members.len()
        invariant
            k <= info.members@.len(),
            was_init@.len() == k,
            forall|kk: int| 0 <= kk < k ==> !(#[trigger] was_init@[kk]),
        decreases info.members@.len() - k,
    {
        was_init.push(false);
        k += 1;
    }
    proof {
        lemma_marking_start(info.members@, was_init@, con_args@);
    }
    let mut expressions: Vec<(String, TypedExpression)> = Vec::new();
    let mut i: usize = 0;
    while i < con_args.len()
        invariant
            construction_args_wf(con_args@),
            forall|j: int| 0 <= j < con_args@.len() ==> expr_supported(*(#[trigger] con_args@[j]).value),
            was_init@.len() == info.members@.len(),
            i <= con_args@.len(),
            expressions@.len() == i,
            forall|j: int| 0 <= j < i ==> {
                &&& expressions@[j].0@ == text_of((#[trigger] con_args@[j]).name)
                &&& match member_ty(info.members@, text_of(con_args@[j].name)) {
                    Some(mt) => typed_as(args, *con_args@[j].value, Some(mt), expressions@[j].1),
                    None => false,
                }
            },
            marking(info.members@, was_init@, con_args@, i as int),
        decreases con_args@.len() - i,
    {
        let con_arg = &con_args[i];
        proof {
            lemma_construction_args_wf_at(con_args@, i as int);
            assert(decreases_to!(con_args@ => *con_args@[i as int].value));
        }
        let name = con_arg.name.value_string().unwrap();
        let k = match find_member(&info.members, name) {
            Some(k) => k,
            None => return Err(TypeError::InvalidConstructionArgs(con_arg.name.get_loc(&args.file.info))),
        };
        if was_init[k] {
            proof {
                lemma_marked_named(info.members@, was_init@, con_args@, i as int, k as int);
                let j = choose|j: int| 0 <= j < i && text_of((#[trigger] con_args@[j]).name) == info.members@[k as int].name@;
                assert forall|targs: Seq<(String, TypedExpression)>| !#[trigger] cons_args_typed(args, info.members@, con_args@, targs) by {
                    if cons_args_typed(args, info.members@, con_args@, targs) {
                        assert(text_of(con_args@[j].name) != text_of(con_args@[i as int].name));
                    }
                }
            }
            return Err(TypeError::InvalidConstructionArgs(con_arg.name.get_loc(&args.file.info)));
        }
        let member = &info.members[k];
        let expr = match TypedExpression::check_expr(&con_arg.value, args, Some(&member.type_info)) {
            Ok(x) => x,
            Err(e) => {
                proof {
                    assert forall|targs: Seq<(String, TypedExpression)>| !#[trigger] cons_args_typed(args, info.members@, con_args@, targs) by {
                        if cons_args_typed(args, info.members@, con_args@, targs) {
                            assert(typed_as(args, *con_args@[i as int].value, Some(member.type_info@), targs[i as int].1));
                        }
                    }
                }
                return Err(e);
            },
        };
        let ghost old_init = was_init@;
        was_init.set(k, true);
        expressions.push((name.clone(), expr));
        proof {
            lemma_marking_step(info.members@, old_init, con_args@, i as int, k as int);
            assert(was_init@ == old_init.update(k as int, true));
        }
        i += 1;
    }
    let mut k: usize = 0;
    while k < info.members.len()
        invariant
            was_init@.len() == info.members@.len(),
            k <= info.members@.len(),
            forall|kk: int| 0 <= kk < k ==> #[trigger] was_init@[kk] || info.members@[kk].init is Some,
            marking(info.members@, was_init@, con_args@, con_args@.len() as int),
        decreases info.members@.len() - k,
    {
        if !was_init[k] && info.members[k].init.is_none() {
            proof {
                assert forall|targs: Seq<(String, TypedExpression)>| !#[trigger] cons_args_typed(args, info.members@, con_args@, targs) by {
                    if cons_args_typed(args, info.members@, con_args@, targs) {
                        assert(info.members@[k as int].init is None);
                        assert(first_of_name(info.members@, k as int));
                        lemma_unmarked_unnamed(info.members@, was_init@, con_args@, con_args@.len() as int, k as int);
                    }
                }
            }
            return Err(TypeError::InvalidConstructionArgs(pos.get_loc(&args.file.info)));
        }
        k += 1;
    }
    proof {
        lemma_marking_done(info.members@, was_init@, con_args@);
    }
    Ok(expressions)
}

/// Whether the checker handles every node of `e`.
#[verifier::loop_isolation(false)]
pub fn expr_is_supported(e: &Expression) -> (r: bool)
    ensures
        r == expr_supported(*e),
    decreases *e,
{
    match e {
        Expression::Literal(_) => true,
        Expression::Identifier(_) => true,
        Expression::Grouping(g) => expr_is_supported(&g.expression),
        Expression::Binary(b) => expr_is_supported(&b.left) && expr_is_supported(&b.right),
        Expression::Unary(u) => expr_is_supported(&u.expression),
        Expression::Cast(c) => expr_is_supported(&c.expression),
        Expression::ArrayLiteral(a) => {
            let mut i: usize = 0;
            while i < a.expressions.len()
                invariant
                    i <= a.expressions@.len(),
                    forall|k: int| 0 <= k < i ==> expr_supported(#[trigger] a.expressions@[k]),
                decreases a.expressions@.len() - i,
            {
                proof {
                    assert(decreases_to!(*e => a.expressions@[i as int]));
                }
                if !expr_is_supported(&a.expressions[i]) {
                    return false;
                }
                i += 1;
            }
            true
        },
        Expression::Call(c) => {
            if !expr_is_supported(&c.expression) {
                return false;
            }
            let mut i: usize = 0;
            while i < c.args.len()
                invariant
                    i <= c.args@.len(),
                    forall|k: int| 0 <= k < i ==> expr_supported(#[trigger] c.args@[k]),
                decreases c.args@.len() - i,
            {
                proof {
                    assert(decreases_to!(*e => c.args@[i as int]));
                }
                if !expr_is_supported(&c.args[i]) {
                    return false;
                }
                i += 1;
            }
            true
        },
        Expression::Construction(c) => {
            let mut i: usize = 0;
            while i < c.args.len()
                invariant
                    i <= c.args@.len(),
                    forall|k: int| 0 <= k < i ==> expr_supported(*(#[trigger] c.args@[k]).value),
                decreases c.args@.len() - i,
            {
                proof {
                    assert(decreases_to!(*e => c.args@[i as int]));
                    assert(decreases_to!(c.args@[i as int] => *c.args@[i as int].value));
                }
                if !expr_is_supported(&c.args[i].value) {
                    return false;
                }
                i += 1;
            }
            true
        },
        _ => false,
    }
}

} // verus!
