use vstd::prelude::*;
use std::sync::Arc;
use crate::lexing::token::TokenType;
use crate::parsing::ast::{Statement, BlockStmt, IfStmt, ElseBody, ElseBranch, LetStmt, FileNode, Expression};
use crate::parsing::syntax::{stmt_wf, stmts_wf, block_wf, if_wf};
use super::types::{TypeInfo, Ty, iter_elem};
use super::operators::GlobalOperators;
use super::info::{InfoContext, IdGen, text_of, resolve_type, ty_text};
use crate::parsing::paths_view;
use crate::utils::spec_get_loc;
use super::typed::{TypedExpression, TypedStatement, TypedIdentifier, VarDef, VariableStack, ret_ty, lets_inited, lemma_lets_inited_grows};
use super::check_expr::{ExprCheckArgs, expr_supported, expr_is_supported, typed_as, opt_ref_ty, var_ident, lemma_typed_as_scope, lemma_typed_node_unique};
use super::type_error::TypeError;
use super::builtins::{bool_type, bool_ty, void_ty};
use super::info::append_errors;

verus! {

/// What checking a statement reads besides the variables: the operators, the
/// declarations, the file, the function's return type and the type of `self`.
#[derive(Clone, Copy)]
pub struct StmtCheckArgs<'a> {
    pub operators: &'a GlobalOperators,
    pub context: &'a InfoContext,
    pub file: &'a FileNode,
    pub fn_ret_type: Option<&'a TypeInfo>,
    pub self_type: Option<&'a TypeInfo>,
}

impl<'a> StmtCheckArgs<'a> {
    /// The arguments for checking an expression with the variables of `var_stack` in scope.
    pub open spec fn expr_check_args_spec(&self, var_stack: &'a VariableStack) -> ExprCheckArgs<'a> {
        ExprCheckArgs {
            operators: self.operators,
            context: self.context,
            var_stack,
            file: self.file,
            self_type: self.self_type,
        }
    }

    /// The arguments for checking an expression with these variables in scope.
    pub fn expr_check_args(&self, var_stack: &'a VariableStack) -> (r: ExprCheckArgs<'a>)
        ensures
            r.operators == self.operators,
            r.context == self.context,
            r.var_stack == var_stack,
            r.file == self.file,
            r.self_type == self.self_type,
    {
        ExprCheckArgs {
            operators: self.operators,
            context: self.context,
            var_stack,
            file: self.file,
            self_type: self.self_type,
        }
    }
}

/// The statement kinds the checker handles: no constants, assignments with
/// `=` only, and only the expression kinds it handles.
pub open spec fn stmt_supported(s: Statement) -> bool
    decreases s,
{
    match s {
        Statement::Expression(e) => expr_supported(e.expression),
        Statement::Let(l) => expr_supported(l.expression),
        Statement::Const(_) => false,
        Statement::While(w) => expr_supported(w.condition) && block_supported(*w.body),
        Statement::For(f) => expr_supported(f.expression) && block_supported(*f.body),
        Statement::Return(r) => match r.expression {
            Some(e) => expr_supported(e),
            None => true,
        },
        Statement::Continue(_) => true,
        Statement::Break(_) => true,
        Statement::Assign(a) => a.equal.token_type == TokenType::Equal && expr_supported(*a.assigned) && expr_supported(a.expression),
        Statement::If(i) => if_supported(i),
        Statement::BlockStmt(b) => block_supported(b),
    }
}

pub open spec fn block_supported(b: BlockStmt) -> bool
    decreases b,
{
    forall|i: int| 0 <= i < b.statements@.len() ==> stmt_supported(#[trigger] b.statements@[i])
}

pub open spec fn if_supported(i: IfStmt) -> bool
    decreases i,
{
    expr_supported(i.condition) && block_supported(i.block) && match i.else_branch {
        Some(eb) => match eb.body {
            ElseBody::If(inner) => if_supported(*inner),
            ElseBody::Block(b) => block_supported(b),
        },
        None => true,
    }
}

/// The variables a statement is checked with: the scopes, innermost last,
/// binding names to variable ids; the id and type of every variable; and the
/// id the next new variable gets.
pub type Scope = (Seq<Seq<(Seq<char>, u128)>>, Seq<(u128, Ty)>, u128);

/// The scope a variable stack and an id counter hold.
pub open spec fn scope_of(vs: VariableStack, ids: IdGen) -> Scope {
    (vs.frames(), vs.vars(), ids.next)
}

/// The id after `n`: the counter stops at its largest value.
pub open spec fn next_id(n: u128) -> u128 {
    if n < u128::MAX {
        (n + 1) as u128
    } else {
        n
    }
}

/// Scope `sc` with a new variable, of type `ty`, bound to `name` in its
/// innermost scope: it gets the next id, and the counter moves on.
pub open spec fn bind(sc: Scope, name: Seq<char>, ty: Ty) -> Scope {
    (sc.0.update(sc.0.len() - 1, sc.0.last().push((name, sc.2))), sc.1.push((sc.2, ty)), next_id(sc.2))
}

/// `t` types expression `e` under the declarations, operators, file and `self`
/// type of `a`, with the variables of `vs`.
pub open spec fn typed_with<'a>(a: StmtCheckArgs<'a>, vs: VariableStack, e: Expression, expected: Option<Ty>, t: TypedExpression) -> bool {
    typed_as(
        ExprCheckArgs {
            operators: a.operators,
            context: a.context,
            var_stack: &vs,
            file: a.file,
            self_type: a.self_type,
        },
        e,
        expected,
        t,
    )
}

/// `t` types expression `e` under `a` with the variables of scope `sc`.
pub open spec fn typed_at<'a>(a: StmtCheckArgs<'a>, sc: Scope, e: Expression, expected: Option<Ty>, t: TypedExpression) -> bool {
    exists|vs: VariableStack| vs.frames() == sc.0 && vs.vars() == sc.1 && #[trigger] typed_with(a, vs, e, expected, t)
}

/// The type a `let` asks of its initializer: the type its written type names,
/// or none.
pub open spec fn let_expected<'a>(a: StmtCheckArgs<'a>, l: LetStmt) -> Option<Ty> {
    match l.type_ref {
        Some((_, tn)) => resolve_type(a.context.type_resolver.entries(), paths_view(*a.file), tn),
        None => None,
    }
}

/// The type of the variable a `let` declares with initializer `init`: the
/// written one, or else the initializer's.
pub open spec fn let_ty<'a>(a: StmtCheckArgs<'a>, l: LetStmt, init: TypedExpression) -> Ty {
    match let_expected(a, l) {
        Some(t) => t,
        None => ret_ty(init),
    }
}

/// `init` is a checking of the initializer of `l` with the variables of `sc`,
/// against the written type, which names a type.
pub open spec fn let_init_at<'a>(a: StmtCheckArgs<'a>, sc: Scope, l: LetStmt, init: TypedExpression) -> bool {
    &&& typed_at(a, sc, l.expression, let_expected(a, l), init)
    &&& (l.type_ref is Some ==> let_expected(a, l) is Some)
}

/// `t` is a checking of `s` under `a` with the variables of `sc`, which
/// leaves the variables of `after`. It has the same kind and shape as `s`;
/// each expression is typed with the variables in scope where it stands,
/// against the type its place asks for (conditions `Bool`, a value assigned
/// its variable's type, a returned value the function's return type; a bare
/// `self` keeps its own type); a `let` adds a variable of its written type, or
/// else its initializer's, and binds its name in the innermost scope, as a
/// `for` does for its variable, which runs over an iterator; a `return`
/// is placed from its keyword to its `;`.
pub open spec fn stmt_typed<'a>(a: StmtCheckArgs<'a>, sc: Scope, s: Statement, t: TypedStatement, after: Scope) -> bool
    decreases s, 0nat,
{
    let fn_ret = opt_ref_ty(a.fn_ret_type);
    match s {
        Statement::Expression(es) => match t {
            TypedStatement::Expr(e) => typed_at(a, sc, es.expression, None, *e) && after == sc,
            _ => false,
        },
        Statement::Let(l) => match t {
            TypedStatement::Let(id) => id == sc.2 && exists|init: TypedExpression| {
                &&& #[trigger] let_init_at(a, sc, l, init)
                &&& after == bind(sc, text_of(l.id), let_ty(a, l, init))
            },
            _ => false,
        },
        Statement::Const(_) => false,
        Statement::While(w) => match t {
            TypedStatement::While { condition, body } => {
                &&& typed_at(a, sc, w.condition, Some(bool_ty()), *condition)
                &&& block_typed(a, sc, *w.body, *body, after)
            },
            _ => false,
        },
        Statement::For(f) => match t {
            TypedStatement::For { var_id, condition, body } => match iter_elem(ret_ty(*condition)) {
                Some(elem) => {
                    &&& var_id == sc.2
                    &&& typed_at(a, sc, f.expression, None, *condition)
                    &&& block_typed(a, bind(sc, text_of(f.id_tok), elem), *f.body, *body, after)
                },
                None => false,
            },
            _ => false,
        },
        Statement::Return(r) => match t {
            TypedStatement::Return { returned, loc } => after == sc && loc == spec_get_loc(
                r.return_tok.pos.spec_add(r.semi_colon.pos),
                *a.file.info,
            ) && match (r.expression, returned) {
                (None, None) => true,
                (Some(es), Some(e)) => typed_at(a, sc, es, fn_ret, *e),
                _ => false,
            },
            _ => false,
        },
        Statement::Continue(_) => t is Continue && after == sc,
        Statement::Break(_) => t is Break && after == sc,
        Statement::Assign(asg) => match t {
            TypedStatement::Assign { assigned, expression } => {
                &&& (*assigned matches TypedExpression::Identifier { id: TypedIdentifier::Variable(_), .. })
                &&& typed_at(a, sc, *asg.assigned, None, *assigned)
                &&& typed_at(a, sc, asg.expression, Some(ret_ty(*assigned)), *expression)
                &&& after == sc
            },
            _ => false,
        },
        Statement::If(i) => if_typed(a, sc, i, t, after),
        Statement::BlockStmt(b) => block_typed(a, sc, b, t, after),
    }
}

/// The statements of `b` are checked one after the other into `ts`, in a new
/// innermost scope: `states[k]` holds the variables before statement `k`;
/// leaving the block drops its scope and keeps the variables it added.
pub open spec fn block_run<'a>(a: StmtCheckArgs<'a>, sc: Scope, b: BlockStmt, ts: Seq<TypedStatement>, states: Seq<Scope>, after: Scope) -> bool
    decreases b, 0nat,
{
    &&& ts.len() == b.statements@.len()
    &&& states.len() == ts.len() + 1
    &&& states[0] == (sc.0.push(Seq::empty()), sc.1, sc.2)
    &&& forall|k: int| 0 <= k < ts.len() ==> stmt_typed(a, states[k], #[trigger] b.statements@[k], ts[k], states[k + 1])
    &&& after == (sc.0, states.last().1, states.last().2)
}

/// `t` is a checking of block `b` under `a` with the variables of `sc`, which
/// leaves the variables of `after`.
pub open spec fn block_typed<'a>(a: StmtCheckArgs<'a>, sc: Scope, b: BlockStmt, t: TypedStatement, after: Scope) -> bool
    decreases b, 1nat,
{
    match t {
        TypedStatement::Block(ts) => exists|states: Seq<Scope>| #![trigger states.len()] block_run(a, sc, b, ts@, states, after),
        _ => false,
    }
}

/// `t` is a checking of `i` under `a` with the variables of `sc`, which
/// leaves the variables of `after`: the `else` branch is checked with the
/// variables its block left.
pub open spec fn if_typed<'a>(a: StmtCheckArgs<'a>, sc: Scope, i: IfStmt, t: TypedStatement, after: Scope) -> bool
    decreases i, 2nat,
{
    match t {
        TypedStatement::If { expression, body, else_block } => {
            &&& typed_at(a, sc, i.condition, Some(bool_ty()), *expression)
            &&& exists|mid: Scope| #![trigger mid.0] mid.0 == sc.0 && if_branches(a, sc, i, *body, else_block, mid, after)
        },
        _ => false,
    }
}

/// The block of `i` checks into `body` from `sc`, leaving `mid`, and the `else`
/// branch checks into `else_block` from `mid`, leaving `after`.
pub open spec fn if_branches<'a>(
    a: StmtCheckArgs<'a>,
    sc: Scope,
    i: IfStmt,
    body: TypedStatement,
    else_block: Option<Box<TypedStatement>>,
    mid: Scope,
    after: Scope,
) -> bool
    decreases i, 1nat,
{
    &&& block_typed(a, sc, i.block, body, mid)
    &&& match (i.else_branch, else_block) {
        (None, None) => after == mid,
        (Some(eb), Some(e)) => match eb.body {
            ElseBody::If(inner) => if_typed(a, mid, *inner, *e, after),
            ElseBody::Block(eb) => block_typed(a, mid, eb, *e, after),
        },
        _ => false,
    }
}

/// A typing with the variables of `ea` is a typing in their scope.
proof fn lemma_typed_at<'a>(a: StmtCheckArgs<'a>, ea: ExprCheckArgs<'a>, e: Expression, expected: Option<Ty>, t: TypedExpression)
    requires
        ea.operators == a.operators,
        ea.context == a.context,
        ea.file == a.file,
        ea.self_type == a.self_type,
        typed_as(ea, e, expected, t),
    ensures
        forall|n: u128| #[trigger] typed_at(a, (ea.var_stack.frames(), ea.var_stack.vars(), n), e, expected, t),
{
    let vs = *ea.var_stack;
    assert(ea == ExprCheckArgs { operators: a.operators, context: a.context, var_stack: &vs, file: a.file, self_type: a.self_type });
    assert(typed_with(a, vs, e, expected, t));
}

/// Two typings of an expression in one scope give it one type.
pub proof fn lemma_typed_at_unique<'a>(a: StmtCheckArgs<'a>, sc: Scope, e: Expression, x: Option<Ty>, t1: TypedExpression, t2: TypedExpression)
    requires
        typed_at(a, sc, e, x, t1),
        typed_at(a, sc, e, x, t2),
    ensures
        ret_ty(t1) == ret_ty(t2),
        var_ident(t1) == var_ident(t2),
{
    let vs1 = choose|vs: VariableStack| vs.frames() == sc.0 && vs.vars() == sc.1 && #[trigger] typed_with(a, vs, e, x, t1);
    let vs2 = choose|vs: VariableStack| vs.frames() == sc.0 && vs.vars() == sc.1 && #[trigger] typed_with(a, vs, e, x, t2);
    let a1 = ExprCheckArgs { operators: a.operators, context: a.context, var_stack: &vs1, file: a.file, self_type: a.self_type };
    let a2 = ExprCheckArgs { operators: a.operators, context: a.context, var_stack: &vs2, file: a.file, self_type: a.self_type };
    lemma_typed_as_scope(a2, a1, e, x, t2);
    lemma_typed_node_unique(a1, e, x, t1, t2);
}

/// An expression with no typing under `ea` has none in the scope of its variables.
proof fn lemma_untyped_at<'a>(a: StmtCheckArgs<'a>, ea: ExprCheckArgs<'a>, e: Expression, x: Option<Ty>, n: u128)
    requires
        ea.operators == a.operators,
        ea.context == a.context,
        ea.file == a.file,
        ea.self_type == a.self_type,
        forall|t: TypedExpression| !#[trigger] typed_as(ea, e, x, t),
    ensures
        forall|t: TypedExpression| !#[trigger] typed_at(a, (ea.var_stack.frames(), ea.var_stack.vars(), n), e, x, t),
{
    assert forall|t: TypedExpression| !#[trigger] typed_at(a, (ea.var_stack.frames(), ea.var_stack.vars(), n), e, x, t) by {
        if typed_at(a, (ea.var_stack.frames(), ea.var_stack.vars(), n), e, x, t) {
            let vs = choose|vs: VariableStack| vs.frames() == ea.var_stack.frames() && vs.vars() == ea.var_stack.vars()
                && #[trigger] typed_with(a, vs, e, x, t);
            let a1 = ExprCheckArgs { operators: a.operators, context: a.context, var_stack: &vs, file: a.file, self_type: a.self_type };
            lemma_typed_as_scope(a1, ea, e, x, t);
        }
    }
}

/// Two checkings of a statement in one scope leave the same scope, and agree
/// on the types their returns give and on whether they always return.
pub proof fn lemma_stmt_after_unique<'a>(a: StmtCheckArgs<'a>, sc: Scope, s: Statement, t1: TypedStatement, af1: Scope, t2: TypedStatement, af2: Scope, ty: Ty)
    requires
        stmt_typed(a, sc, s, t1, af1),
        stmt_typed(a, sc, s, t2, af2),
    ensures
        af1 == af2,
        returns_checked(t1, ty) == returns_checked(t2, ty),
        always_returns(t1) == always_returns(t2),
    decreases s, 0nat, 0int,
{
    match s {
        Statement::Let(l) => {
            let i1 = choose|init: TypedExpression| #[trigger] let_init_at(a, sc, l, init) && af1 == bind(sc, text_of(l.id), let_ty(a, l, init));
            let i2 = choose|init: TypedExpression| #[trigger] let_init_at(a, sc, l, init) && af2 == bind(sc, text_of(l.id), let_ty(a, l, init));
            if l.type_ref is None {
                lemma_typed_at_unique(a, sc, l.expression, None, i1, i2);
            }
        },
        Statement::While(w) => {
            match (t1, t2) {
                (TypedStatement::While { body: b1, .. }, TypedStatement::While { body: b2, .. }) => {
                    lemma_block_after_unique(a, sc, *w.body, *b1, af1, *b2, af2, ty);
                },
                _ => {},
            }
        },
        Statement::For(f) => {
            match (t1, t2) {
                (TypedStatement::For { condition: c1, body: b1, .. }, TypedStatement::For { condition: c2, body: b2, .. }) => {
                    lemma_typed_at_unique(a, sc, f.expression, None, *c1, *c2);
                    let elem = iter_elem(ret_ty(*c1))->0;
                    lemma_block_after_unique(a, bind(sc, text_of(f.id_tok), elem), *f.body, *b1, af1, *b2, af2, ty);
                },
                _ => {},
            }
        },
        Statement::Return(r) => {
            match (t1, t2, r.expression) {
                (TypedStatement::Return { returned: Some(e1), .. }, TypedStatement::Return { returned: Some(e2), .. }, Some(es)) => {
                    lemma_typed_at_unique(a, sc, es, opt_ref_ty(a.fn_ret_type), *e1, *e2);
                },
                _ => {},
            }
        },
        Statement::If(i) => {
            lemma_if_after_unique(a, sc, i, t1, af1, t2, af2, ty);
        },
        Statement::BlockStmt(b) => {
            lemma_block_after_unique(a, sc, b, t1, af1, t2, af2, ty);
        },
        _ => {},
    }
}

/// Two checkings of a block in one scope leave the same scope, and agree on
/// the types their returns give and on whether they always return.
pub proof fn lemma_block_after_unique<'a>(a: StmtCheckArgs<'a>, sc: Scope, b: BlockStmt, t1: TypedStatement, af1: Scope, t2: TypedStatement, af2: Scope, ty: Ty)
    requires
        block_typed(a, sc, b, t1, af1),
        block_typed(a, sc, b, t2, af2),
    ensures
        af1 == af2,
        returns_checked(t1, ty) == returns_checked(t2, ty),
        always_returns(t1) == always_returns(t2),
    decreases b, 1nat, 0int,
{
    match (t1, t2) {
        (TypedStatement::Block(ts1), TypedStatement::Block(ts2)) => {
            let st1 = choose|states: Seq<Scope>| #![trigger states.len()] block_run(a, sc, b, ts1@, states, af1);
            let st2 = choose|states: Seq<Scope>| #![trigger states.len()] block_run(a, sc, b, ts2@, states, af2);
            lemma_block_states_unique(a, b, ts1@, st1, ts2@, st2, b.statements@.len() as int);
            assert forall|j: int| 0 <= j < ts1@.len() implies returns_checked(#[trigger] ts1@[j], ty) == returns_checked(ts2@[j], ty)
                && always_returns(ts1@[j]) == always_returns(ts2@[j]) by {
                lemma_block_states_unique(a, b, ts1@, st1, ts2@, st2, j);
                assert(decreases_to!(b => b.statements@[j]));
                assert(stmt_typed(a, st1[j], b.statements@[j], ts1@[j], st1[j + 1]));
                assert(stmt_typed(a, st2[j], b.statements@[j], ts2@[j], st2[j + 1]));
                lemma_stmt_after_unique(a, st1[j], b.statements@[j], ts1@[j], st1[j + 1], ts2@[j], st2[j + 1], ty);
            }
            assert(returns_checked(t1, ty) ==> returns_checked(t2, ty)) by {
                if returns_checked(t1, ty) {
                    assert forall|j: int| 0 <= j < ts2@.len() implies returns_checked(#[trigger] ts2@[j], ty) by {
                        assert(returns_checked(ts1@[j], ty));
                    }
                }
            }
            assert(returns_checked(t2, ty) ==> returns_checked(t1, ty)) by {
                if returns_checked(t2, ty) {
                    assert forall|j: int| 0 <= j < ts1@.len() implies returns_checked(#[trigger] ts1@[j], ty) by {
                        assert(returns_checked(ts2@[j], ty));
                    }
                }
            }
            assert(always_returns(t1) ==> always_returns(t2)) by {
                if always_returns(t1) {
                    let j = choose|j: int| 0 <= j < ts1@.len() && always_returns(#[trigger] ts1@[j]);
                    assert(always_returns(ts2@[j]));
                }
            }
            assert(always_returns(t2) ==> always_returns(t1)) by {
                if always_returns(t2) {
                    let j = choose|j: int| 0 <= j < ts2@.len() && always_returns(#[trigger] ts2@[j]);
                    assert(always_returns(ts1@[j]));
                }
            }
        },
        _ => {},
    }
}

/// Two runs of the first `k` statements of a block from one scope pass
/// through the same scopes.
proof fn lemma_block_states_unique<'a>(
    a: StmtCheckArgs<'a>,
    b: BlockStmt,
    ts1: Seq<TypedStatement>,
    st1: Seq<Scope>,
    ts2: Seq<TypedStatement>,
    st2: Seq<Scope>,
    k: int,
)
    requires
        0 <= k <= b.statements@.len(),
        k < st1.len(),
        k < st2.len(),
        k <= ts1.len(),
        k <= ts2.len(),
        st1[0] == st2[0],
        forall|j: int| 0 <= j < k ==> stmt_typed(a, st1[j], #[trigger] b.statements@[j], ts1[j], st1[j + 1]),
        forall|j: int| 0 <= j < k ==> stmt_typed(a, st2[j], #[trigger] b.statements@[j], ts2[j], st2[j + 1]),
    ensures
        st1[k] == st2[k],
    decreases b, 0nat, k,
{
    if k > 0 {
        lemma_block_states_unique(a, b, ts1, st1, ts2, st2, k - 1);
        assert(decreases_to!(b => b.statements@[k - 1]));
        assert(stmt_typed(a, st1[k - 1], b.statements@[k - 1], ts1[k - 1], st1[k]));
        assert(stmt_typed(a, st2[k - 1], b.statements@[k - 1], ts2[k - 1], st2[k]));
        lemma_stmt_after_unique(a, st1[k - 1], b.statements@[k - 1], ts1[k - 1], st1[k], ts2[k - 1], st2[k], void_ty());
    }
}

/// Two checkings of an `if` in one scope leave the same scope, and agree on
/// the types their returns give and on whether they always return.
pub proof fn lemma_if_after_unique<'a>(a: StmtCheckArgs<'a>, sc: Scope, i: IfStmt, t1: TypedStatement, af1: Scope, t2: TypedStatement, af2: Scope, ty: Ty)
    requires
        if_typed(a, sc, i, t1, af1),
        if_typed(a, sc, i, t2, af2),
    ensures
        af1 == af2,
        returns_checked(t1, ty) == returns_checked(t2, ty),
        always_returns(t1) == always_returns(t2),
    decreases i, 0nat, 0int,
{
    match (t1, t2) {
        (TypedStatement::If { body: b1, else_block: e1, .. }, TypedStatement::If { body: b2, else_block: e2, .. }) => {
            let m1 = choose|mid: Scope| #![trigger mid.0] mid.0 == sc.0 && if_branches(a, sc, i, *b1, e1, mid, af1);
            let m2 = choose|mid: Scope| #![trigger mid.0] mid.0 == sc.0 && if_branches(a, sc, i, *b2, e2, mid, af2);
            assert(if_branches(a, sc, i, *b1, e1, m1, af1));
            lemma_block_after_unique(a, sc, i.block, *b1, m1, *b2, m2, ty);
            match (i.else_branch, e1, e2) {
                (Some(eb), Some(x1), Some(x2)) => match eb.body {
                    ElseBody::If(inner) => {
                        lemma_if_after_unique(a, m1, *inner, *x1, af1, *x2, af2, ty);
                    },
                    ElseBody::Block(bb) => {
                        lemma_block_after_unique(a, m1, bb, *x1, af1, *x2, af2, ty);
                    },
                },
                _ => {},
            }
        },
        _ => {},
    }
}

/// The variables of `d2` start with those of `d1`.
pub open spec fn defs_extend(d1: Seq<VarDef>, d2: Seq<VarDef>) -> bool {
    d1.len() <= d2.len() && forall|k: int| 0 <= k < d1.len() ==> #[trigger] d2[k] == d1[k]
}

/// `d` is the variable `let` statement `l` declares, with the variables of
/// `sc`: the next id, the written name, and a value that is a checking of the
/// initializer (`let_init_at`), whose type the variable has.
pub open spec fn let_def<'a>(a: StmtCheckArgs<'a>, sc: Scope, l: LetStmt, d: VarDef) -> bool {
    &&& d.id == sc.2
    &&& d.name@ == text_of(l.id)
    &&& d.initializer matches Some(e) && let_init_at(a, sc, l, *e) && d.type_info@ == let_ty(a, l, *e)
}

/// `s` is a `for` loop whose expression checks, with the variables of `sc`,
/// to a type that is no iterator.
pub open spec fn for_over_non_iterator<'a>(a: StmtCheckArgs<'a>, sc: Scope, s: Statement) -> bool {
    match s {
        Statement::For(f) => exists|c: TypedExpression| #[trigger] typed_at(a, sc, f.expression, None, c) && iter_elem(ret_ty(c)) is None,
        _ => false,
    }
}

/// The checked initial value of a variable, when it has one.
spec fn initializer_of(v: VarDef) -> TypedExpression
    recommends
        v.initializer is Some,
{
    *v.initializer->0
}

pub proof fn lemma_stmts_wf_at(ss: Seq<Statement>, i: int)
    requires
        stmts_wf(ss),
        0 <= i < ss.len(),
    ensures
        stmt_wf(ss[i]),
    decreases ss.len(),
{
    if i < ss.len() - 1 {
        lemma_stmts_wf_at(ss.drop_last(), i);
        assert(ss.drop_last()[i] == ss[i]);
    }
}

impl VarDef {
    /// The variable a `let` declares: its type is the written one, or else the
    /// type of its value.
    pub fn from_let(let_stmt: &LetStmt, args: ExprCheckArgs, ids: &mut IdGen) -> (r: Result<Self, TypeError>)
        requires
            stmt_wf(Statement::Let(*let_stmt)),
            expr_supported(let_stmt.expression),
        ensures
            final(ids).next == next_id(old(ids).next),
            r matches Ok(v) ==> match let_stmt.type_ref {
                Some((_, tn)) => resolve_type(args.context.type_resolver.entries(), paths_view(*args.file), tn) == Some(v.type_info@),
                None => true,
            },
            r matches Ok(v) ==> v.name@ == text_of(let_stmt.id) && v.id == old(ids).next && match v.initializer {
                Some(init) => (let_stmt.type_ref is None ==> v.type_info@ == ret_ty(*init)) && typed_as(args, let_stmt.expression, match let_stmt.type_ref {
                    Some(_) => Some(v.type_info@),
                    None => None,
                }, *init),
                None => false,
            },
            r is Err ==> match let_stmt.type_ref {
                Some((_, tn)) => match resolve_type(args.context.type_resolver.entries(), paths_view(*args.file), tn) {
                    Some(ty) => forall|t: TypedExpression| !#[trigger] typed_as(args, let_stmt.expression, Some(ty), t),
                    None => true,
                },
                None => forall|t: TypedExpression| !#[trigger] typed_as(args, let_stmt.expression, None, t),
            },
    {
        let name = let_stmt.id.value_string().unwrap().clone();
        let id = ids.fresh();
        let type_info: Option<TypeInfo> = match &let_stmt.type_ref {
            Some((_, t)) => Some(TypeInfo::from(t, &args.context.type_resolver, args.file)?),
            None => None,
        };
        let initializer = TypedExpression::check_expr(&let_stmt.expression, args, type_info.as_ref())?;
        let type_info = match type_info {
            Some(t) => t,
            None => initializer.returned().copy(),
        };
        Ok(VarDef { id, name, type_info, initializer: Some(Arc::new(initializer)) })
    }
}

impl TypedStatement {
    /// Checks a statement, adding the variables it declares to the innermost scope.
    pub fn check_stmt(stmt: &Statement, args: StmtCheckArgs, vars: &mut VariableStack, ids: &mut IdGen) -> (r: Result<TypedStatement, Vec<TypeError>>)
        requires
            stmt_wf(*stmt),
            stmt_supported(*stmt),
            old(vars).frames().len() > 0,
        ensures
            final(vars).frames().len() == old(vars).frames().len(),
            final(vars).frames().drop_last() == old(vars).frames().drop_last(),
            r matches Ok(t) ==> stmt_typed(args, scope_of(*old(vars), *old(ids)), *stmt, t, scope_of(*final(vars), *final(ids))),
            r matches Err(errs) ==> errs@.len() > 0,
            r is Err ==> forall|t: TypedStatement, after: Scope| !#[trigger] stmt_typed(args, scope_of(*old(vars), *old(ids)), *stmt, t, after),
            defs_extend(old(vars).var_defs(), final(vars).var_defs()),
            r matches Ok(t) ==> lets_inited(t, final(vars).var_defs()),
            (*stmt matches Statement::Let(l) && r is Ok) ==> final(vars).var_defs().len() == old(vars).var_defs().len() + 1
                && let_def(args, scope_of(*old(vars), *old(ids)), stmt->Let_0, final(vars).var_defs().last()),
            for_over_non_iterator(args, scope_of(*old(vars), *old(ids)), *stmt) ==> (r matches Err(errs) && errs@.len() == 1
                && (errs@[0] matches TypeError::ExpectedType(n, l) && n@ == "Expected type Fn() -> ?T"@
                && l == spec_get_loc(stmt->For_0.for_tok.pos, *args.file.info))),
        decreases *stmt,
    {
        let ghost vs0 = *vars;
        let ghost ids0 = *ids;
        match stmt {
            Statement::Expression(e) => {
                let eargs = args.expr_check_args(vars);
                match TypedExpression::check_expr(&e.expression, eargs, None) {
                    Ok(t) => {
                        proof {
                            lemma_typed_at(args, eargs, e.expression, None, t);
                        }
                        Ok(TypedStatement::Expr(Box::new(t)))
                    },
                    Err(err) => {
                        proof {
                            lemma_untyped_at(args, eargs, e.expression, None, ids0.next);
                            assert forall|t: TypedStatement, after: Scope| !#[trigger] stmt_typed(args, scope_of(vs0, ids0), *stmt, t, after) by {
                                match t {
                                    TypedStatement::Expr(e2) => assert(!typed_at(args, scope_of(vs0, ids0), e.expression, None, *e2)),
                                    _ => {},
                                }
                            }
                        }
                        Err(vec![err])
                    },
                }
            },
            Statement::Let(let_stmt) => {
                let result = {
                    let eargs = args.expr_check_args(vars);
                    VarDef::from_let(let_stmt, eargs, ids)
                };
                match result {
                    Ok(def) => {
                        let id = def.id;
                        let ghost init = initializer_of(def);
                        let ghost ty = def.type_info@;
                        proof {
                            lemma_typed_at(args, args.expr_check_args_spec(&vs0), let_stmt.expression, let_expected(args, *let_stmt), init);
                            assert(let_init_at(args, scope_of(vs0, ids0), *let_stmt, init));
                        }
                        vars.add_var_def(def);
                        proof {
                            let n = old(vars).var_defs().len() as int;
                            assert(vars.var_defs()[n] == def);
                            assert(final(vars).frames().drop_last() =~= old(vars).frames().drop_last());
                            assert(scope_of(*final(vars), *final(ids)) == bind(scope_of(vs0, ids0), text_of(let_stmt.id), let_ty(args, *let_stmt, init)));
                        }
                        Ok(TypedStatement::Let(id))
                    },
                    Err(err) => {
                        proof {
                            let ea = args.expr_check_args_spec(&vs0);
                            let sc = scope_of(vs0, ids0);
                            let l: LetStmt = *let_stmt;
                            match l.type_ref {
                                Some((_, tn)) => match resolve_type(args.context.type_resolver.entries(), paths_view(*args.file), tn) {
                                    Some(ty) => lemma_untyped_at(args, ea, let_stmt.expression, Some(ty), ids0.next),
                                    None => {},
                                },
                                None => lemma_untyped_at(args, ea, let_stmt.expression, None, ids0.next),
                            }
                            assert forall|t: TypedStatement, after: Scope| !#[trigger] stmt_typed(args, sc, *stmt, t, after) by {
                                if stmt_typed(args, sc, *stmt, t, after) {
                                    let init = choose|init: TypedExpression| #[trigger] let_init_at(args, sc, *let_stmt, init)
                                        && after == bind(sc, text_of(let_stmt.id), let_ty(args, *let_stmt, init));
                                    assert(typed_at(args, sc, let_stmt.expression, let_expected(args, *let_stmt), init));
                                }
                            }
                        }
                        Err(vec![err])
                    },
                }
            },
            Statement::While(while_stmt) => {
                let mut errors: Vec<TypeError> = Vec::new();
                let bool_t = bool_type();
                let condition = {
                    let eargs = args.expr_check_args(vars);
                    match TypedExpression::check_expr(&while_stmt.condition, eargs, Some(&bool_t)) {
                        Ok(c) => {
                            proof {
                                lemma_typed_at(args, eargs, while_stmt.condition, Some(bool_ty()), c);
                            }
                            Some(c)
                        },
                        Err(err) => {
                            proof {
                                lemma_untyped_at(args, eargs, while_stmt.condition, Some(bool_ty()), ids0.next);
                            }
                            errors.push(err);
                            None
                        },
                    }
                };
                let body = match Self::check_block(&while_stmt.body, args, vars, ids) {
                    Ok(b) => Some(b),
                    Err(errs) => {
                        append_errors(&mut errors, errs);
                        None
                    },
                };
                match (condition, body) {
                    (Some(c), Some(b)) => Ok(TypedStatement::While { condition: Box::new(c), body: Box::new(b) }),
                    _ => {
                        proof {
                            let sc = scope_of(vs0, ids0);
                            assert forall|t: TypedStatement, after: Scope| !#[trigger] stmt_typed(args, sc, *stmt, t, after) by {
                                match t {
                                    TypedStatement::While { condition: c2, body: b2 } => {
                                        if typed_at(args, sc, while_stmt.condition, Some(bool_ty()), *c2) {
                                            assert(!block_typed(args, sc, *while_stmt.body, *b2, after));
                                        }
                                    },
                                    _ => {},
                                }
                            }
                        }
                        Err(errors)
                    },
                }
            },
            Statement::For(for_stmt) => {
                let mut errors: Vec<TypeError> = Vec::new();
                let condition = {
                    let eargs = args.expr_check_args(vars);
                    match TypedExpression::check_expr(&for_stmt.expression, eargs, None) {
                        Ok(c) => {
                            proof {
                                lemma_typed_at(args, eargs, for_stmt.expression, None, c);
                            }
                            c
                        },
                        Err(err) => {
                            proof {
                                lemma_untyped_at(args, eargs, for_stmt.expression, None, ids0.next);
                                assert forall|t: TypedStatement, after: Scope| !#[trigger] stmt_typed(args, scope_of(vs0, ids0), *stmt, t, after) by {
                                    match t {
                                        TypedStatement::For { condition: c2, .. } => assert(!typed_at(args, scope_of(vs0, ids0), for_stmt.expression, None, *c2)),
                                        _ => {},
                                    }
                                }
                            }
                            return Err(vec![err]);
                        },
                    }
                };
                let ghost sc = scope_of(vs0, ids0);
                assert(typed_at(args, sc, for_stmt.expression, None, condition));
                proof {
                    if for_over_non_iterator(args, sc, *stmt) {
                        let c2 = choose|c: TypedExpression| #[trigger] typed_at(args, sc, for_stmt.expression, None, c) && iter_elem(ret_ty(c)) is None;
                        lemma_typed_at_unique(args, sc, for_stmt.expression, None, condition, c2);
                    }
                }
                let var_type = match condition.returned().get_iter_type() {
                    Some(t) => t,
                    None => {
                        proof {
                            assert forall|t: TypedStatement, after: Scope| !#[trigger] stmt_typed(args, sc, *stmt, t, after) by {
                                match t {
                                    TypedStatement::For { condition: c2, .. } => {
                                        if typed_at(args, sc, for_stmt.expression, None, *c2) {
                                            lemma_typed_at_unique(args, sc, for_stmt.expression, None, condition, *c2);
                                        }
                                    },
                                    _ => {},
                                }
                            }
                        }
                        let loc = for_stmt.for_tok.get_loc(&args.file.info);
                        return Err(vec![TypeError::ExpectedType(crate::text::to_owned_string("Expected type Fn() -> ?T"), loc)]);
                    },
                };
                let var_name = for_stmt.id_tok.value_string().unwrap().clone();
                let var_id = ids.fresh();
                vars.add_var(var_name, var_type, var_id);
                proof {
                    assert(vars.frames().drop_last() =~= old(vars).frames().drop_last());
                }
                let ghost inner = scope_of(*vars, *ids);
                assert(inner == bind(sc, text_of(for_stmt.id_tok), var_type@));
                match Self::check_block(&for_stmt.body, args, vars, ids) {
                    Ok(b) => Ok(TypedStatement::For { var_id, condition: Box::new(condition), body: Box::new(b) }),
                    Err(errs) => {
                        proof {
                            assert forall|t: TypedStatement, after: Scope| !#[trigger] stmt_typed(args, sc, *stmt, t, after) by {
                                match t {
                                    TypedStatement::For { condition: c2, body: b2, .. } => {
                                        if typed_at(args, sc, for_stmt.expression, None, *c2) {
                                            lemma_typed_at_unique(args, sc, for_stmt.expression, None, condition, *c2);
                                            assert(iter_elem(ret_ty(*c2)) == Some(var_type@));
                                            assert(!block_typed(args, inner, *for_stmt.body, *b2, after));
                                        }
                                    },
                                    _ => {},
                                }
                            }
                        }
                        append_errors(&mut errors, errs);
                        Err(errors)
                    },
                }
            },
            Statement::Return(return_stmt) => {
                let loc = (return_stmt.return_tok.pos + return_stmt.semi_colon.pos).get_loc(&args.file.info);
                match &return_stmt.expression {
                    None => Ok(TypedStatement::Return { returned: None, loc }),
                    Some(expr) => {
                        let eargs = args.expr_check_args(vars);
                        match TypedExpression::check_expr(expr, eargs, args.fn_ret_type) {
                            Ok(t) => {
                                proof {
                                    lemma_typed_at(args, eargs, *expr, opt_ref_ty(args.fn_ret_type), t);
                                }
                                Ok(TypedStatement::Return { returned: Some(Box::new(t)), loc })
                            },
                            Err(err) => {
                                proof {
                                    lemma_untyped_at(args, eargs, *expr, opt_ref_ty(args.fn_ret_type), ids0.next);
                                    assert forall|t: TypedStatement, after: Scope| !#[trigger] stmt_typed(args, scope_of(vs0, ids0), *stmt, t, after) by {
                                        match t {
                                            TypedStatement::Return { returned: Some(e2), .. } => assert(!typed_at(args, scope_of(vs0, ids0), *expr, opt_ref_ty(args.fn_ret_type), *e2)),
                                            _ => {},
                                        }
                                    }
                                }
                                Err(vec![err])
                            },
                        }
                    },
                }
            },
            Statement::Continue(_) => Ok(TypedStatement::Continue),
            Statement::Break(_) => Ok(TypedStatement::Break),
            Statement::Assign(assign_stmt) => {
                let eargs = args.expr_check_args(vars);
                let ghost sc = scope_of(vs0, ids0);
                let assigned = match TypedExpression::check_expr(&assign_stmt.assigned, eargs, None) {
                    Ok(t) => t,
                    Err(e) => {
                        proof {
                            lemma_untyped_at(args, eargs, *assign_stmt.assigned, None, ids0.next);
                            assert forall|t: TypedStatement, after: Scope| !#[trigger] stmt_typed(args, sc, *stmt, t, after) by {
                                match t {
                                    TypedStatement::Assign { assigned: a2, .. } => assert(!typed_at(args, sc, *assign_stmt.assigned, None, *a2)),
                                    _ => {},
                                }
                            }
                        }
                        return Err(vec![e]);
                    },
                };
                proof {
                    lemma_typed_at(args, eargs, *assign_stmt.assigned, None, assigned);
                }
                if !assigned.is_assignable() {
                    proof {
                        assert forall|t: TypedStatement, after: Scope| !#[trigger] stmt_typed(args, sc, *stmt, t, after) by {
                            match t {
                                TypedStatement::Assign { assigned: a2, .. } => {
                                    if typed_at(args, sc, *assign_stmt.assigned, None, *a2) {
                                        lemma_typed_at_unique(args, sc, *assign_stmt.assigned, None, assigned, *a2);
                                    }
                                },
                                _ => {},
                            }
                        }
                    }
                    let loc = assign_stmt.assigned.get_pos().get_loc(&args.file.info);
                    return Err(vec![TypeError::ExpressionNotAssignable(loc)]);
                }
                let expression = match TypedExpression::check_expr(&assign_stmt.expression, eargs, Some(assigned.returned())) {
                    Ok(t) => t,
                    Err(e) => {
                        proof {
                            lemma_untyped_at(args, eargs, assign_stmt.expression, Some(ret_ty(assigned)), ids0.next);
                            assert forall|t: TypedStatement, after: Scope| !#[trigger] stmt_typed(args, sc, *stmt, t, after) by {
                                match t {
                                    TypedStatement::Assign { assigned: a2, .. } => {
                                        if typed_at(args, sc, *assign_stmt.assigned, None, *a2) {
                                            lemma_typed_at_unique(args, sc, *assign_stmt.assigned, None, assigned, *a2);
                                        }
                                    },
                                    _ => {},
                                }
                            }
                        }
                        return Err(vec![e]);
                    },
                };
                proof {
                    lemma_typed_at(args, eargs, *assign_stmt.assigned, None, assigned);
                    lemma_typed_at(args, eargs, assign_stmt.expression, Some(ret_ty(assigned)), expression);
                }
                Ok(TypedStatement::Assign { assigned: Box::new(assigned), expression: Box::new(expression) })
            },
            Statement::If(if_stmt) => {
                let r = Self::check_if(if_stmt, args, vars, ids);
                proof {
                    if r is Err {
                        assert forall|t: TypedStatement, after: Scope| !#[trigger] stmt_typed(args, scope_of(vs0, ids0), *stmt, t, after) by {
                            assert(!if_typed(args, scope_of(vs0, ids0), *if_stmt, t, after));
                        }
                    }
                }
                r
            },
            Statement::BlockStmt(block) => {
                let r = Self::check_block(block, args, vars, ids);
                proof {
                    if r is Err {
                        assert forall|t: TypedStatement, after: Scope| !#[trigger] stmt_typed(args, scope_of(vs0, ids0), *stmt, t, after) by {
                            assert(!block_typed(args, scope_of(vs0, ids0), *block, t, after));
                        }
                    }
                }
                r
            },
            Statement::Const(_) => Err(vec![TypeError::NoMainFn]),
        }
    }

    /// Checks an `if`, its block and its `else` branch, collecting every error.
    fn check_if(stmt: &IfStmt, args: StmtCheckArgs, vars: &mut VariableStack, ids: &mut IdGen) -> (r: Result<TypedStatement, Vec<TypeError>>)
        requires
            if_wf(*stmt),
            if_supported(*stmt),
            old(vars).frames().len() > 0,
        ensures
            final(vars).frames() == old(vars).frames(),
            r matches Ok(t) ==> if_typed(args, scope_of(*old(vars), *old(ids)), *stmt, t, scope_of(*final(vars), *final(ids))),
            r matches Err(errs) ==> errs@.len() > 0,
            r is Err ==> forall|t: TypedStatement, after: Scope| !#[trigger] if_typed(args, scope_of(*old(vars), *old(ids)), *stmt, t, after),
            defs_extend(old(vars).var_defs(), final(vars).var_defs()),
            r matches Ok(t) ==> lets_inited(t, final(vars).var_defs()),
        decreases *stmt,
    {
        let ghost sc = scope_of(*vars, *ids);
        let mut errors: Vec<TypeError> = Vec::new();
        let bool_t = bool_type();
        let condition = {
            let eargs = args.expr_check_args(vars);
            match TypedExpression::check_expr(&stmt.condition, eargs, Some(&bool_t)) {
                Ok(c) => {
                    proof {
                        lemma_typed_at(args, eargs, stmt.condition, Some(bool_ty()), c);
                    }
                    Some(c)
                },
                Err(err) => {
                    proof {
                        lemma_untyped_at(args, eargs, stmt.condition, Some(bool_ty()), sc.2);
                    }
                    errors.push(err);
                    None
                },
            }
        };
        let body = match Self::check_block(&stmt.block, args, vars, ids) {
            Ok(b) => Some(b),
            Err(errs) => {
                append_errors(&mut errors, errs);
                None
            },
        };
        let ghost mid = scope_of(*vars, *ids);
        let ghost mid_defs = vars.var_defs();
        let mut else_ok = true;
        let else_block: Option<Box<TypedStatement>> = match &stmt.else_branch {
            Some(branch) => match Self::check_else(branch, args, vars, ids) {
                Ok(s) => Some(Box::new(s)),
                Err(errs) => {
                    append_errors(&mut errors, errs);
                    else_ok = false;
                    None
                },
            },
            None => None,
        };
        if !else_ok {
            proof {
                assert forall|t: TypedStatement, after: Scope| !#[trigger] if_typed(args, sc, *stmt, t, after) by {
                    match t {
                        TypedStatement::If { body: b2, else_block: e2, .. } => {
                            if if_typed(args, sc, *stmt, t, after) {
                                let m2 = choose|m: Scope| #![trigger m.0] m.0 == sc.0 && if_branches(args, sc, *stmt, *b2, e2, m, after);
                                assert(if_branches(args, sc, *stmt, *b2, e2, m2, after));
                                assert(block_typed(args, sc, stmt.block, *b2, m2));
                                match body {
                                    Some(b) => {
                                        lemma_block_after_unique(args, sc, stmt.block, b, mid, *b2, m2, void_ty());
                                        match (stmt.else_branch, e2) {
                                            (Some(eb), Some(x2)) => match eb.body {
                                                ElseBody::If(inner) => assert(!if_typed(args, mid, *inner, *x2, after)),
                                                ElseBody::Block(bb) => assert(!block_typed(args, mid, bb, *x2, after)),
                                            },
                                            _ => {},
                                        }
                                    },
                                    None => {},
                                }
                            }
                        },
                        _ => {},
                    }
                }
            }
            return Err(errors);
        }
        match (condition, body) {
            (Some(c), Some(b)) => {
                let r = TypedStatement::If { expression: Box::new(c), body: Box::new(b), else_block };
                proof {
                    assert(mid == (mid.0, mid.1, mid.2));
                    lemma_lets_inited_grows(b, mid_defs, vars.var_defs());
                }
                Ok(r)
            },
            _ => {
                proof {
                    assert forall|t: TypedStatement, after: Scope| !#[trigger] if_typed(args, sc, *stmt, t, after) by {
                        match t {
                            TypedStatement::If { body: b2, else_block: e2, .. } => {
                                if if_typed(args, sc, *stmt, t, after) {
                                    let m2 = choose|m: Scope| #![trigger m.0] m.0 == sc.0 && if_branches(args, sc, *stmt, *b2, e2, m, after);
                                    assert(if_branches(args, sc, *stmt, *b2, e2, m2, after));
                                    assert(block_typed(args, sc, stmt.block, *b2, m2));
                                }
                            },
                            _ => {},
                        }
                    }
                }
                Err(errors)
            },
        }
    }

    fn check_else(branch: &ElseBranch, args: StmtCheckArgs, vars: &mut VariableStack, ids: &mut IdGen) -> (r: Result<TypedStatement, Vec<TypeError>>)
        requires
            match branch.body {
                ElseBody::If(inner) => if_wf(*inner) && if_supported(*inner),
                ElseBody::Block(b) => block_wf(b) && block_supported(b),
            },
            old(vars).frames().len() > 0,
        ensures
            final(vars).frames() == old(vars).frames(),
            r matches Ok(t) ==> match branch.body {
                ElseBody::If(inner) => if_typed(args, scope_of(*old(vars), *old(ids)), *inner, t, scope_of(*final(vars), *final(ids))),
                ElseBody::Block(b) => block_typed(args, scope_of(*old(vars), *old(ids)), b, t, scope_of(*final(vars), *final(ids))),
            },
            r matches Err(errs) ==> errs@.len() > 0,
            r is Err ==> match branch.body {
                ElseBody::If(inner) => forall|t: TypedStatement, after: Scope| !#[trigger] if_typed(args, scope_of(*old(vars), *old(ids)), *inner, t, after),
                ElseBody::Block(b) => forall|t: TypedStatement, after: Scope| !#[trigger] block_typed(args, scope_of(*old(vars), *old(ids)), b, t, after),
            },
            defs_extend(old(vars).var_defs(), final(vars).var_defs()),
            r matches Ok(t) ==> lets_inited(t, final(vars).var_defs()),
        decreases *branch,
    {
        match &branch.body {
            ElseBody::If(inner) => Self::check_if(inner, args, vars, ids),
            ElseBody::Block(b) => Self::check_block(b, args, vars, ids),
        }
    }

    /// Checks a block in a scope of its own, collecting the errors of every statement.
    pub fn check_block(block: &BlockStmt, args: StmtCheckArgs, vars: &mut VariableStack, ids: &mut IdGen) -> (r: Result<TypedStatement, Vec<TypeError>>)
        requires
            block_wf(*block),
            block_supported(*block),
        ensures
            final(vars).frames() == old(vars).frames(),
            r matches Ok(t) ==> block_typed(args, scope_of(*old(vars), *old(ids)), *block, t, scope_of(*final(vars), *final(ids))),
            r matches Err(errs) ==> errs@.len() > 0,
            r is Err ==> forall|t: TypedStatement, after: Scope| !#[trigger] block_typed(args, scope_of(*old(vars), *old(ids)), *block, t, after),
            defs_extend(old(vars).var_defs(), final(vars).var_defs()),
            r matches Ok(t) ==> lets_inited(t, final(vars).var_defs()),
        decreases *block,
    {
        let ghost sc = scope_of(*vars, *ids);
        let mut errors: Vec<TypeError> = Vec::new();
        let mut statements: Vec<TypedStatement> = Vec::new();
        vars.push_frame();
        let ghost mut states: Seq<Scope> = seq![scope_of(*vars, *ids)];
        let ghost mut fail: int = 0;
        let ghost mut fstates: Seq<Scope> = Seq::empty();
        let ghost mut fts: Seq<TypedStatement> = Seq::empty();
        let mut i: usize = 0;
        while i < block.statements.len()
            invariant
                block_wf(*block),
                block_supported(*block),
                i <= block.statements@.len(),
                vars.frames().len() == old(vars).frames().len() + 1,
                vars.frames().drop_last() == old(vars).frames(),
                sc == scope_of(*old(vars), *old(ids)),
                defs_extend(old(vars).var_defs(), vars.var_defs()),
                errors@.len() == 0 ==> forall|k: int| 0 <= k < statements@.len() ==> lets_inited(#[trigger] statements@[k], vars.var_defs()),
                errors@.len() == 0 ==> {
                    &&& statements@.len() == i
                    &&& states.len() == i + 1
                    &&& states[0] == (sc.0.push(Seq::empty()), sc.1, sc.2)
                    &&& states.last() == scope_of(*vars, *ids)
                    &&& forall|k: int| 0 <= k < i ==> stmt_typed(args, states[k], #[trigger] block.statements@[k], statements@[k], states[k + 1])
                },
                errors@.len() > 0 ==> {
                    &&& 0 <= fail < i
                    &&& fstates.len() == fail + 1
                    &&& fts.len() == fail
                    &&& fstates[0] == (sc.0.push(Seq::empty()), sc.1, sc.2)
                    &&& forall|k: int| 0 <= k < fail ==> stmt_typed(args, fstates[k], #[trigger] block.statements@[k], fts[k], fstates[k + 1])
                    &&& forall|t: TypedStatement, af: Scope| !#[trigger] stmt_typed(args, fstates[fail], block.statements@[fail], t, af)
                },
            decreases block.statements@.len() - i,
        {
            proof {
                lemma_stmts_wf_at(block.statements@, i as int);
                assert(decreases_to!(*block => block.statements@[i as int]));
            }
            let ghost before = states;
            let ghost defs_before = vars.var_defs();
            let ghost stmts_before = statements@;
            match Self::check_stmt(&block.statements[i], args, vars, ids) {
                Ok(s) => {
                    statements.push(s);
                    proof {
                        if errors@.len() == 0 {
                            assert forall|k: int| 0 <= k < statements@.len() implies lets_inited(#[trigger] statements@[k], vars.var_defs()) by {
                                if k < stmts_before.len() {
                                    assert(statements@[k] == stmts_before[k]);
                                    lemma_lets_inited_grows(stmts_before[k], defs_before, vars.var_defs());
                                }
                            }
                        }
                        states = states.push(scope_of(*vars, *ids));
                        if errors@.len() == 0 {
                            assert forall|k: int| 0 <= k < i + 1 implies stmt_typed(
                                args,
                                states[k],
                                #[trigger] block.statements@[k],
                                statements@[k],
                                states[k + 1],
                            ) by {
                                if k < i {
                                    assert(states[k] == before[k] && states[k + 1] == before[k + 1]);
                                }
                            }
                        }
                    }
                },
                Err(errs) => {
                    proof {
                        if errors@.len() == 0 {
                            fail = i as int;
                            fstates = states;
                            fts = statements@;
                        }
                    }
                    append_errors(&mut errors, errs);
                },
            }
            i += 1;
        }
        vars.pop_frame();
        if errors.len() > 0 {
            proof {
                assert forall|t: TypedStatement, after: Scope| !#[trigger] block_typed(args, sc, *block, t, after) by {
                    match t {
                        TypedStatement::Block(ts) => {
                            if block_typed(args, sc, *block, t, after) {
                                let st = choose|st: Seq<Scope>| #![trigger st.len()] block_run(args, sc, *block, ts@, st, after);
                                lemma_block_states_unique(args, *block, fts, fstates, ts@, st, fail);
                                assert(stmt_typed(args, st[fail], block.statements@[fail], ts@[fail], st[fail + 1]));
                            }
                        },
                        _ => {},
                    }
                }
            }
            Err(errors)
        } else {
            let r = TypedStatement::Block(statements);
            proof {
                assert(block_run(args, sc, *block, statements@, states, scope_of(*vars, *ids)));
                assert(states.len() == statements@.len() + 1);
            }
            Ok(r)
        }
    }
}

/// Every `return` that the return check visits gives the function's type: those
/// in blocks and in both branches of an `if`, not those inside loops.
pub open spec fn returns_checked(t: TypedStatement, ty: Ty) -> bool
    decreases t,
{
    match t {
        TypedStatement::Block(ss) => forall|i: int| 0 <= i < ss@.len() ==> returns_checked(#[trigger] ss@[i], ty),
        TypedStatement::If { body, else_block, .. } => returns_checked(*body, ty) && match else_block {
            Some(e) => returns_checked(*e, ty),
            None => true,
        },
        TypedStatement::Return { returned, .. } => match returned {
            Some(e) => ret_ty(*e) == ty,
            None => void_ty() == ty,
        },
        _ => true,
    }
}

/// The statement returns on every path: a `return`, a block with a statement
/// that always returns, or an `if` whose block and `else` both always return.
pub open spec fn always_returns(t: TypedStatement) -> bool
    decreases t,
{
    match t {
        TypedStatement::Block(ss) => exists|i: int| 0 <= i < ss@.len() && always_returns(#[trigger] ss@[i]),
        TypedStatement::If { body, else_block, .. } => match else_block {
            Some(e) => always_returns(*body) && always_returns(*e),
            None => false,
        },
        TypedStatement::Return { .. } => true,
        _ => false,
    }
}

impl TypedStatement {
    /// Whether the statement always returns; an error for each `return` it
    /// visits whose value is not of type `info`.
    #[verifier::loop_isolation(false)]
    pub fn check_return(&self, info: &TypeInfo, structs: &Vec<super::info::StructInfo>) -> (r: Result<bool, Vec<TypeError>>)
        ensures
            r matches Ok(b) ==> returns_checked(*self, info@) && b == always_returns(*self),
            r matches Err(errs) ==> !returns_checked(*self, info@) && errs@.len() > 0,
            match *self {
                TypedStatement::Return { loc, .. } => !returns_checked(*self, info@) ==> (r matches Err(errs) && errs@.len()
                    == 1 && (errs@[0] matches TypeError::ExpectedType(n, l) && n@ == ty_text(info@, structs@) && l == loc)),
                _ => true,
            },
        decreases *self,
    {
        match self {
            TypedStatement::Block(stmts) => {
                let mut errors: Vec<TypeError> = Vec::new();
                let mut any_returns = false;
                let mut i: usize = 0;
                while i < stmts.len()
                    invariant
                        i <= stmts@.len(),
                        errors@.len() == 0 <==> forall|k: int| 0 <= k < i ==> returns_checked(#[trigger] stmts@[k], info@),
                        errors@.len() == 0 ==> any_returns == exists|k: int| 0 <= k < i && always_returns(#[trigger] stmts@[k]),
                    decreases stmts@.len() - i,
                {
                    assert(decreases_to!(*self => stmts@[i as int]));
                    match stmts[i].check_return(info, structs) {
                        Ok(b) => {
                            proof {
                                if errors@.len() == 0 {
                                    if b {
                                        assert(always_returns(stmts@[i as int]));
                                    }
                                    if !any_returns && !b {
                                        assert forall|k: int| 0 <= k < i + 1 implies !always_returns(#[trigger] stmts@[k]) by {
                                            if k < i {
                                                assert(!(0 <= k < i && always_returns(stmts@[k])));
                                            }
                                        }
                                    }
                                }
                            }
                            any_returns = any_returns || b;
                        },
                        Err(e) => {
                            append_errors(&mut errors, e);
                        },
                    }
                    i += 1;
                }
                if errors.len() > 0 {
                    return Err(errors);
                }
                Ok(any_returns)
            },
            TypedStatement::If { body, else_block, .. } => {
                let body_returns = body.check_return(info, structs)?;
                match else_block {
                    None => Ok(false),
                    Some(e) => {
                        let else_returns = e.check_return(info, structs)?;
                        Ok(body_returns && else_returns)
                    },
                }
            },
            TypedStatement::Return { returned, loc } => {
                let void_t = super::builtins::void_type();
                let same = match returned {
                    Some(e) => e.returned().same(info),
                    None => void_t.same(info),
                };
                if !same {
                    let name = info.pretty_print(structs);
                    return Err(vec![TypeError::ExpectedType(name, loc.clone())]);
                }
                Ok(true)
            },
            _ => Ok(false),
        }
    }
}

/// Whether the checker handles every part of statement `s`.
pub fn stmt_is_supported(s: &Statement) -> (r: bool)
    ensures
        r == stmt_supported(*s),
    decreases *s,
{
    match s {
        Statement::Expression(e) => expr_is_supported(&e.expression),
        Statement::Let(l) => expr_is_supported(&l.expression),
        Statement::Const(_) => false,
        Statement::While(w) => expr_is_supported(&w.condition) && block_is_supported(&w.body),
        Statement::For(f) => expr_is_supported(&f.expression) && block_is_supported(&f.body),
        Statement::Return(r) => match &r.expression {
            Some(e) => expr_is_supported(e),
            None => true,
        },
        Statement::Continue(_) => true,
        Statement::Break(_) => true,
        Statement::Assign(a) => a.equal.token_type == TokenType::Equal && expr_is_supported(&a.assigned)
            && expr_is_supported(&a.expression),
        Statement::If(i) => if_is_supported(i),
        Statement::BlockStmt(b) => block_is_supported(b),
    }
}

/// Whether the checker handles every statement of block `b`.
#[verifier::loop_isolation(false)]
pub fn block_is_supported(b: &BlockStmt) -> (r: bool)
    ensures
        r == block_supported(*b),
    decreases *b,
{
    let mut i: usize = 0;
    while i < b.statements.len()
        invariant
            i <= b.statements@.len(),
            forall|k: int| 0 <= k < i ==> stmt_supported(#[trigger] b.statements@[k]),
        decreases b.statements@.len() - i,
    {
        proof {
            assert(decreases_to!(*b => b.statements@[i as int]));
        }
        if !stmt_is_supported(&b.statements[i]) {
            return false;
        }
        i += 1;
    }
    true
}

/// Whether the checker handles the condition and every branch of `i`.
pub fn if_is_supported(i: &IfStmt) -> (r: bool)
    ensures
        r == if_supported(*i),
    decreases *i,
{
    if !expr_is_supported(&i.condition) || !block_is_supported(&i.block) {
        return false;
    }
    match &i.else_branch {
        Some(eb) => match &eb.body {
            ElseBody::If(inner) => if_is_supported(inner),
            ElseBody::Block(b) => block_is_supported(b),
        },
        None => true,
    }
}

} // verus!
