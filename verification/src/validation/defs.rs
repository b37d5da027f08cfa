use vstd::prelude::*;
use std::sync::Arc;
use crate::parsing::ast::Program;
use crate::parsing::paths_view;
use crate::utils::{TextLoc, spec_split_relative, spec_get_loc};
use super::types::{TypeInfo, Ty};
use super::operators::GlobalOperators;
use super::info::{
    InfoContext, StructInfo, StructDeclData, FuncInfo, FuncInfoParam, FuncDeclData, IdGen, struct_info_ok, func_info_ok,
    init_ok, program_wf, program_supported, context_ok, program_struct_decls, program_fn_decls,
    struct_info_of_decl, func_info_of_decl, text_of, init_of, distinct_names, struct_names,
    builtin_types_first, fn_owner, resolve_type, opt_ty, self_offset, lookup_type, program_collectable,
    types_fold, fns_registrable,
};
use crate::parsing::ast::{FnDecl, StructDecl, FileNode, Expression};
use super::typed::{TypedExpression, TypedStatement, VarDef, VariableStack, ret_ty, lets_inited};
use super::check_expr::{ExprCheckArgs, typed_as, opt_ref_ty, lemma_typed_as_scope};
use super::check_stmt::{StmtCheckArgs, Scope, scope_of, block_typed, returns_checked, always_returns, lemma_block_after_unique};
use super::type_error::TypeError;
use super::builtins::{get_operators, void_type, void_ty, string_ty, builtin_binary_rules, builtin_unary_rules, FIRST_FREE_ID};
use super::info::append_errors;

verus! {

/// A checked member of a struct.
#[derive(Debug)]
pub struct TypeDefMember {
    pub name: String,
    pub type_info: TypeInfo,
    pub init: Option<Arc<TypedExpression>>,
}

/// A checked struct.
#[derive(Debug)]
pub struct StructDef {
    pub id: u128,
    pub name: String,
    pub is_pub: bool,
    pub members: Vec<TypeDefMember>,
}

/// `e` is a checking of default value `x`, of type `ty`, under operators `ops`
/// and declarations `ctx`, in `file`, with no variable in scope and `self_ty`
/// as the type of `self`.
pub open spec fn default_checked(
    ops: GlobalOperators,
    ctx: InfoContext,
    file: FileNode,
    self_ty: Option<Ty>,
    x: Expression,
    ty: Ty,
    e: TypedExpression,
) -> bool {
    exists|a: ExprCheckArgs| {
        &&& #[trigger] typed_as(a, x, Some(ty), e)
        &&& *a.operators == ops
        &&& *a.context == ctx
        &&& *a.file == file
        &&& opt_ref_ty(a.self_type) == self_ty
        &&& a.var_stack.frames().len() == 0
        &&& a.var_stack.vars().len() == 0
    }
}

/// A default value is checked, under `ops` and `ctx`, exactly when one is written.
pub open spec fn default_ok(
    ops: GlobalOperators,
    ctx: InfoContext,
    file: FileNode,
    self_ty: Option<Ty>,
    x: Option<Arc<Expression>>,
    ty: Ty,
    e: Option<Arc<TypedExpression>>,
) -> bool {
    match (x, e) {
        (Some(x), Some(e)) => default_checked(ops, ctx, file, self_ty, *x, ty, *e),
        (None, None) => true,
        _ => false,
    }
}

/// `e` is a checking of default value `x`, of type `ty`, under the language's
/// operators and some declarations, in `file`, with no variable in scope and
/// `self_ty` as the type of `self`.
pub open spec fn default_typed(file: FileNode, self_ty: Option<Ty>, x: Expression, ty: Ty, e: TypedExpression) -> bool {
    exists|a: ExprCheckArgs| {
        &&& #[trigger] typed_as(a, x, Some(ty), e)
        &&& a.operators.binary_rules() == builtin_binary_rules()
        &&& a.operators.unary_rules() == builtin_unary_rules()
        &&& *a.file == file
        &&& opt_ref_ty(a.self_type) == self_ty
        &&& a.var_stack.frames().len() == 0
        &&& a.var_stack.vars().len() == 0
    }
}

/// A default value is checked exactly when one is written.
pub open spec fn default_written(file: FileNode, self_ty: Option<Ty>, x: Option<Arc<Expression>>, ty: Ty, e: Option<Arc<TypedExpression>>) -> bool {
    match (x, e) {
        (Some(x), Some(e)) => default_typed(file, self_ty, *x, ty, *e),
        (None, None) => true,
        _ => false,
    }
}

/// Default value `x` has no checking against type `ty` under `args`.
pub open spec fn default_untypable(args: ExprCheckArgs, x: Option<Arc<Expression>>, ty: Ty) -> bool {
    match x {
        Some(x) => forall|t: TypedExpression| !#[trigger] typed_as(args, *x, Some(ty), t),
        None => false,
    }
}

/// The value a shared pointer holds.
spec fn shared_val<T>(a: Arc<T>) -> T {
    *a
}

/// A default value with no checking under arguments with no variables has
/// none under any such arguments.
proof fn lemma_default_untypable(
    ops: GlobalOperators,
    ctx: InfoContext,
    file: FileNode,
    self_ty: Option<Ty>,
    args: ExprCheckArgs,
    x: Option<Arc<Expression>>,
    ty: Ty,
    e: Option<Arc<TypedExpression>>,
)
    requires
        default_untypable(args, x, ty),
        *args.operators == ops,
        *args.context == ctx,
        *args.file == file,
        opt_ref_ty(args.self_type) == self_ty,
        args.var_stack.frames().len() == 0,
        args.var_stack.vars().len() == 0,
    ensures
        !default_ok(ops, ctx, file, self_ty, x, ty, e),
{
    if let (Some(xa), Some(ea)) = (x, e) {
        let xx = shared_val(xa);
        let ee = shared_val(ea);
        if default_checked(ops, ctx, file, self_ty, xx, ty, ee) {
            let a = choose|a: ExprCheckArgs| {
                &&& #[trigger] typed_as(a, xx, Some(ty), ee)
                &&& *a.operators == ops
                &&& *a.context == ctx
                &&& *a.file == file
                &&& opt_ref_ty(a.self_type) == self_ty
                &&& a.var_stack.frames().len() == 0
                &&& a.var_stack.vars().len() == 0
            };
            assert(a.var_stack.frames() =~= args.var_stack.frames());
            assert(a.var_stack.vars() =~= args.var_stack.vars());
            lemma_typed_as_scope(a, args, xx, Some(ty), ee);
        }
    }
}

/// A checked struct agrees with its description: the same id, name and
/// members, each default value of its member's type and checked under `ops`
/// and `ctx`.
pub open spec fn struct_def_ok(d: StructDef, info: StructInfo, ctx: InfoContext, ops: GlobalOperators) -> bool {
    &&& d.id == info.id
    &&& d.name == info.name
    &&& d.is_pub == info.is_pub
    &&& d.members@.len() == info.members@.len()
    &&& forall|i: int| 0 <= i < d.members@.len() ==> {
        &&& (#[trigger] d.members@[i]).name == info.members@[i].name
        &&& d.members@[i].type_info@ == info.members@[i].type_info@
        &&& (d.members@[i].init is Some <==> info.members@[i].init is Some)
        &&& (d.members@[i].init matches Some(e) ==> ret_ty(*e) == d.members@[i].type_info@)
    }
    &&& match info.decl_data {
        StructDeclData::Decl { file, .. } => forall|i: int| 0 <= i < d.members@.len() ==> default_ok(
            ops,
            ctx,
            *file,
            None,
            info.members@[i].init,
            (#[trigger] d.members@[i]).type_info@,
            d.members@[i].init,
        ),
        StructDeclData::Builtin => forall|i: int| 0 <= i < info.members@.len() ==> (#[trigger] info.members@[i]).init is None,
    }
}

/// The checked struct of declaration `decl` of `file`, its types resolved with
/// `types`: its name, with the id `types` gives it at the file's path, and its
/// members, in order, with their resolved types and their default values,
/// each checked against its member's type.
pub open spec fn def_of_struct_decl(d: StructDef, decl: Arc<StructDecl>, file: Arc<FileNode>, types: Seq<(Seq<Seq<char>>, Seq<char>, u128)>) -> bool {
    &&& d.name@ == text_of(decl.id)
    &&& Some(d.id) == lookup_type(types, spec_split_relative(file.info.path.relative_path@), d.name@)
    &&& d.is_pub == decl.pub_tok is Some
    &&& d.members@.len() == decl.members@.len()
    &&& forall|i: int| 0 <= i < d.members@.len() ==> {
        &&& (#[trigger] d.members@[i]).name@ == text_of(decl.members@[i].id)
        &&& resolve_type(types, paths_view(*file), decl.members@[i].type_ref) == Some(d.members@[i].type_info@)
        &&& (d.members@[i].init is Some <==> decl.members@[i].initializer is Some)
        &&& (d.members@[i].init matches Some(e) ==> ret_ty(*e) == d.members@[i].type_info@)
        &&& default_written(*file, None, init_of(decl.members@[i].initializer), d.members@[i].type_info@, d.members@[i].init)
    }
}

impl StructDef {
    /// Checks the default value of every member against the member's type.
    pub fn new(info: &StructInfo, context: &InfoContext, operators: &GlobalOperators) -> (r: Result<Self, Vec<TypeError>>)
        requires
            struct_info_ok(*info),
        ensures
            r matches Ok(d) ==> struct_def_ok(d, *info, *context, *operators),
            r matches Err(errs) ==> errs@.len() > 0,
            r is Err ==> forall|d: StructDef| !#[trigger] struct_def_ok(d, *info, *context, *operators),
    {
        let file = match &info.decl_data {
            StructDeclData::Decl { file, .. } => file,
            StructDeclData::Builtin => {
                let mut members: Vec<TypeDefMember> = Vec::new();
                let mut i: usize = 0;
                while i < info.members.len()
                    invariant
                        info.decl_data is Builtin,
                        i <= info.members@.len(),
                        members@.len() == i,
                        forall|k: int| 0 <= k < i ==> (#[trigger] info.members@[k]).init is None,
                        forall|k: int| 0 <= k < i ==> {
                            &&& (#[trigger] members@[k]).name == info.members@[k].name
                            &&& members@[k].type_info@ == info.members@[k].type_info@
                            &&& members@[k].init is None
                            &&& info.members@[k].init is None
                        },
                    decreases info.members@.len() - i,
                {
                    if info.members[i].init.is_some() {
                        proof {
                            assert forall|d: StructDef| !#[trigger] struct_def_ok(d, *info, *context, *operators) by {
                                assert(info.members@[i as int].init is Some);
                            }
                        }
                        return Err(vec![TypeError::NoMainFn]);
                    }
                    members.push(TypeDefMember { name: info.members[i].name.clone(), type_info: info.members[i].type_info.copy(), init: None });
                    i += 1;
                }
                assert(forall|k: int| 0 <= k < info.members@.len() ==> (#[trigger] info.members@[k]).init is None);
                return Ok(StructDef { id: info.id, name: info.name.clone(), is_pub: info.is_pub, members });
            },
        };
        let var_stack = VariableStack::new();
        let check_args = ExprCheckArgs { operators, context, var_stack: &var_stack, file: &**file, self_type: None };
        let mut errors: Vec<TypeError> = Vec::new();
        let mut members: Vec<TypeDefMember> = Vec::new();
        let mut i: usize = 0;
        while i < info.members.len()
            invariant
                struct_info_ok(*info),
                i <= info.members@.len(),
                errors@.len() == 0 ==> members@.len() == i,
                errors@.len() == 0 ==> forall|k: int| 0 <= k < i ==> {
                    &&& (#[trigger] members@[k]).name == info.members@[k].name
                    &&& members@[k].type_info@ == info.members@[k].type_info@
                    &&& (members@[k].init is Some <==> info.members@[k].init is Some)
                    &&& (members@[k].init matches Some(e) ==> ret_ty(*e) == members@[k].type_info@)
                    &&& default_ok(*operators, *context, **file, None, info.members@[k].init, members@[k].type_info@, members@[k].init)
                },
                errors@.len() > 0 ==> exists|k: int| 0 <= k < i && default_untypable(
                    check_args,
                    (#[trigger] info.members@[k]).init,
                    info.members@[k].type_info@,
                ),
                (info.decl_data matches StructDeclData::Decl { file: f, .. } && f == *file),
                check_args.var_stack.frames().len() == 0,
                check_args.var_stack.vars().len() == 0,
                *check_args.operators == *operators,
                *check_args.context == *context,
                *check_args.file == **file,
                check_args.self_type is None,
            decreases info.members@.len() - i,
        {
            let member = &info.members[i];
            assert(init_ok(info.members@[i as int].init));
            let init = match &member.init {
                Some(init) => match TypedExpression::check_expr(init, check_args, Some(&member.type_info)) {
                    Ok(checked) => Some(Arc::new(checked)),
                    Err(e) => {
                        errors.push(e);
                        i += 1;
                        continue;
                    },
                },
                None => None,
            };
            members.push(TypeDefMember { name: member.name.clone(), type_info: member.type_info.copy(), init });
            i += 1;
        }
        if errors.len() > 0 {
            proof {
                let k = choose|k: int| 0 <= k < info.members@.len() && default_untypable(
                    check_args,
                    (#[trigger] info.members@[k]).init,
                    info.members@[k].type_info@,
                );
                assert forall|d: StructDef| !#[trigger] struct_def_ok(d, *info, *context, *operators) by {
                    if struct_def_ok(d, *info, *context, *operators) {
                        assert(d.members@[k].type_info@ == info.members@[k].type_info@);
                        lemma_default_untypable(
                            *operators,
                            *context,
                            **file,
                            None,
                            check_args,
                            info.members@[k].init,
                            info.members@[k].type_info@,
                            d.members@[k].init,
                        );
                    }
                }
            }
            return Err(errors);
        }
        Ok(StructDef { id: info.id, name: info.name.clone(), is_pub: info.is_pub, members })
    }
}

/// A checked parameter: its name, type, checked default value and variable id.
#[derive(Debug)]
pub struct FuncDefParam {
    pub name: String,
    pub type_info: TypeInfo,
    pub init: Option<Arc<TypedExpression>>,
    pub id: u128,
}

/// The checked body of a function and every variable it declares.
#[derive(Debug)]
pub struct FuncDefBody {
    pub vars: Vec<VarDef>,
    pub block: Box<TypedStatement>,
}

/// A checked function; built-in functions have no body.
#[derive(Debug)]
pub struct FuncDef {
    pub id: u128,
    pub name: String,
    pub is_pub: bool,
    pub returned: TypeInfo,
    pub params: Vec<FuncDefParam>,
    pub body: Option<FuncDefBody>,
    pub name_loc: Option<TextLoc>,
}

/// The names and ids of the parameters a function body sees as variables:
/// all but `self`, in order.
pub open spec fn param_frame(ps: Seq<FuncDefParam>) -> Seq<(Seq<char>, u128)>
    decreases ps.len(),
{
    if ps.len() == 0 {
        Seq::empty()
    } else {
        let rest = param_frame(ps.drop_last());
        if ps.last().name@ == "self"@ {
            rest
        } else {
            rest.push((ps.last().name@, ps.last().id))
        }
    }
}

/// The ids and types of the parameters a function body sees as variables.
pub open spec fn param_vars(ps: Seq<FuncDefParam>) -> Seq<(u128, Ty)>
    decreases ps.len(),
{
    if ps.len() == 0 {
        Seq::empty()
    } else {
        let rest = param_vars(ps.drop_last());
        if ps.last().name@ == "self"@ {
            rest
        } else {
            rest.push((ps.last().id, ps.last().type_info@))
        }
    }
}

/// The variables a function body is checked with: one scope holding its
/// parameters but `self`, with `next` as the next variable id.
pub open spec fn param_scope(ps: Seq<FuncDefParam>, next: u128) -> Scope {
    (seq![param_frame(ps)], param_vars(ps), next)
}

/// The same as `param_frame`, for the parameters of a function description.
pub open spec fn info_param_frame(ps: Seq<FuncInfoParam>) -> Seq<(Seq<char>, u128)>
    decreases ps.len(),
{
    if ps.len() == 0 {
        Seq::empty()
    } else {
        let rest = info_param_frame(ps.drop_last());
        if ps.last().name@ == "self"@ {
            rest
        } else {
            rest.push((ps.last().name@, ps.last().id))
        }
    }
}

/// The same as `param_vars`, for the parameters of a function description.
pub open spec fn info_param_vars(ps: Seq<FuncInfoParam>) -> Seq<(u128, Ty)>
    decreases ps.len(),
{
    if ps.len() == 0 {
        Seq::empty()
    } else {
        let rest = info_param_vars(ps.drop_last());
        if ps.last().name@ == "self"@ {
            rest
        } else {
            rest.push((ps.last().id, ps.last().type_info@))
        }
    }
}

/// Parameters with the same names, ids and types give the same scope.
proof fn lemma_param_scope_same(ps: Seq<FuncDefParam>, qs: Seq<FuncInfoParam>)
    requires
        ps.len() == qs.len(),
        forall|i: int| 0 <= i < ps.len() ==> {
            &&& (#[trigger] ps[i]).name@ == qs[i].name@
            &&& ps[i].id == qs[i].id
            &&& ps[i].type_info@ == qs[i].type_info@
        },
    ensures
        param_frame(ps) == info_param_frame(qs),
        param_vars(ps) == info_param_vars(qs),
    decreases ps.len(),
{
    if ps.len() > 0 {
        assert(ps.last() == ps[ps.len() - 1]);
        lemma_param_scope_same(ps.drop_last(), qs.drop_last());
    }
}

/// A checked function agrees with its description: the same id, name, return
/// type and parameters, each default value checked against its parameter's
/// type under `ops` and `ctx`.
pub open spec fn func_head_ok(d: FuncDef, info: FuncInfo, ctx: InfoContext, ops: GlobalOperators) -> bool {
    &&& d.id == info.id
    &&& d.name == info.name
    &&& d.returned@ == info.returned@
    &&& d.params@.len() == info.parameters@.len()
    &&& forall|i: int| 0 <= i < d.params@.len() ==> {
        &&& (#[trigger] d.params@[i]).type_info@ == info.parameters@[i].type_info@
        &&& d.params@[i].name@ == info.parameters@[i].name@
        &&& d.params@[i].id == info.parameters@[i].id
    }
    &&& match info.decl_data {
        FuncDeclData::Decl { file, .. } => forall|i: int| 0 <= i < d.params@.len() ==> default_ok(
            ops,
            ctx,
            *file,
            opt_ty(info.parent),
            info.parameters@[i].init,
            (#[trigger] d.params@[i]).type_info@,
            d.params@[i].init,
        ),
        FuncDeclData::Builtin => true,
    }
}

/// A checked function agrees with its description (`func_head_ok`); a
/// declared body is a typing of the written one under `ops` and `ctx`, with
/// the parameters but `self` in scope, every return it checks gives the
/// return type, it returns on every path unless it returns `Void`, and every
/// `let` in it has a variable with its id and a value among the body's variables.
pub open spec fn func_def_ok(d: FuncDef, info: FuncInfo, ctx: InfoContext, ops: GlobalOperators) -> bool {
    &&& func_head_ok(d, info, ctx, ops)
    &&& match info.decl_data {
        FuncDeclData::Decl { decl, file } => match d.body {
            Some(b) => {
                &&& exists|a: StmtCheckArgs, n0: u128, after: Scope| {
                    &&& #[trigger] block_typed(a, param_scope(d.params@, n0), *decl.body, *b.block, after)
                    &&& *a.operators == ops
                    &&& *a.context == ctx
                    &&& *a.file == *file
                    &&& opt_ref_ty(a.fn_ret_type) == Some(info.returned@)
                    &&& opt_ref_ty(a.self_type) == opt_ty(info.parent)
                }
                &&& returns_checked(*b.block, info.returned@)
                &&& lets_inited(*b.block, b.vars@)
                &&& (always_returns(*b.block) || info.returned@ == void_ty())
            },
            None => false,
        },
        FuncDeclData::Builtin => d.body is None,
    }
}

/// The checked function of declaration `decl` of `file`, its types resolved
/// with `types`: its name; `self` first, of the owner type, when it takes one,
/// then the declared parameters with their names, types and default values,
/// each checked against its parameter's type; the written return
/// type, or `Void`; and a body that is a typing of the written one, with the
/// parameters but `self` in scope and the owner as the type of `self`, in which
/// every `return` gives the return type and which returns on every path unless
/// it returns `Void`.
pub open spec fn def_of_fn_decl(d: FuncDef, decl: Arc<FnDecl>, file: Arc<FileNode>, types: Seq<(Seq<Seq<char>>, Seq<char>, u128)>) -> bool {
    let off = if decl.self_param is Some { 1int } else { 0int };
    &&& d.name@ == text_of(decl.id)
    &&& d.params@.len() == decl.params@.len() + off
    &&& (decl.self_param is Some ==> d.params@[0].name@ == "self"@ && fn_owner(types, *file, decl) == Some(d.params@[0].type_info@))
    &&& (decl.self_param is Some ==> d.params@[0].init is None)
    &&& forall|i: int| 0 <= i < decl.params@.len() ==> {
        let p = #[trigger] d.params@[i + off];
        &&& p.name@ == text_of(decl.params@[i].id)
        &&& resolve_type(types, paths_view(*file), decl.params@[i].type_ref) == Some(p.type_info@)
        &&& default_written(*file, fn_owner(types, *file, decl), init_of(decl.params@[i].default_value), p.type_info@, p.init)
    }
    &&& match decl.return_type {
        Some((_, t)) => resolve_type(types, paths_view(*file), t) == Some(d.returned@),
        None => d.returned@ == void_ty(),
    }
    &&& match d.body {
        Some(b) => {
            &&& exists|a: StmtCheckArgs, n0: u128, after: Scope| {
                &&& #[trigger] block_typed(a, param_scope(d.params@, n0), *decl.body, *b.block, after)
                &&& a.operators.binary_rules() == builtin_binary_rules()
                &&& a.operators.unary_rules() == builtin_unary_rules()
                &&& *a.file == *file
                &&& opt_ref_ty(a.fn_ret_type) == Some(d.returned@)
                &&& opt_ref_ty(a.self_type) == fn_owner(types, *file, decl)
            }
            &&& returns_checked(*b.block, d.returned@)
            &&& (always_returns(*b.block) || d.returned@ == void_ty())
        },
        None => false,
    }
}

/// The arguments a body is checked with: the declarations `ctx`, the
/// operators `ops`, the body's `file`, the function's return type, and its
/// owner as the type of `self`.
pub open spec fn body_args<'a>(info: &'a FuncInfo, ctx: &'a InfoContext, ops: &'a GlobalOperators, file: &'a FileNode) -> StmtCheckArgs<'a> {
    StmtCheckArgs {
        operators: ops,
        context: ctx,
        file,
        fn_ret_type: Some(&info.returned),
        self_type: match &info.parent {
            Some(p) => Some(p),
            None => None,
        },
    }
}

/// `func_def_ok`, with the body checked under the function's own arguments
/// (`body_args`) and the ids of its variables counted from `n0`.
pub open spec fn func_def_checked(d: FuncDef, info: FuncInfo, ctx: InfoContext, ops: GlobalOperators, n0: u128) -> bool {
    &&& func_head_ok(d, info, ctx, ops)
    &&& match info.decl_data {
        FuncDeclData::Decl { decl, file } => match d.body {
            Some(b) => {
                &&& exists|after: Scope| #[trigger] block_typed(body_args(&info, &ctx, &ops, &*file), param_scope(d.params@, n0), *decl.body, *b.block, after)
                &&& returns_checked(*b.block, info.returned@)
                &&& lets_inited(*b.block, b.vars@)
                &&& (always_returns(*b.block) || info.returned@ == void_ty())
            },
            None => false,
        },
        FuncDeclData::Builtin => d.body is None,
    }
}

/// The scope a body of `info` is checked in: its parameters but `self`, with
/// the ids of new variables counted from `n0`.
pub open spec fn info_scope(info: FuncInfo, n0: u128) -> Scope {
    (seq![info_param_frame(info.parameters@)], info_param_vars(info.parameters@), n0)
}

/// The body of `info` checks, with the ids of its variables counted from
/// `n0`, and every `return` it checks gives the return type, but it does not
/// return on every path though the function returns a value.
pub open spec fn misses_return(info: FuncInfo, ctx: InfoContext, ops: GlobalOperators, n0: u128) -> bool {
    match info.decl_data {
        FuncDeclData::Decl { decl, file } => {
            &&& info.returned@ != void_ty()
            &&& exists|t: TypedStatement, after: Scope| {
                &&& #[trigger] block_typed(body_args(&info, &ctx, &ops, &*file), info_scope(info, n0), *decl.body, t, after)
                &&& returns_checked(t, info.returned@)
                &&& !always_returns(t)
            }
        },
        FuncDeclData::Builtin => false,
    }
}

/// The error for a function that does not return on every path, at its `fn`.
pub open spec fn must_return_error(info: FuncInfo) -> TypeError {
    match info.decl_data {
        FuncDeclData::Decl { decl, file } => TypeError::FunctionMustReturn(spec_get_loc(decl.fn_tok.pos, *file.info)),
        FuncDeclData::Builtin => TypeError::NoMainFn,
    }
}

/// A function checked under its own arguments is checked.
pub proof fn lemma_func_def_checked(d: FuncDef, info: FuncInfo, ctx: InfoContext, ops: GlobalOperators, n0: u128)
    requires
        func_def_checked(d, info, ctx, ops, n0),
    ensures
        func_def_ok(d, info, ctx, ops),
{
    match info.decl_data {
        FuncDeclData::Decl { decl, file } => {
            let b = d.body->0;
            let a = body_args(&info, &ctx, &ops, &*file);
            let after = choose|after: Scope| #[trigger] block_typed(a, param_scope(d.params@, n0), *decl.body, *b.block, after);
            assert(block_typed(a, param_scope(d.params@, n0), *decl.body, *b.block, after));
        },
        FuncDeclData::Builtin => {},
    }
}

impl FuncDef {
    /// Checks a function: its parameters' default values, then its body, that
    /// every `return` has the return type, and that it returns on every path
    /// unless it returns `Void`.
    pub fn new(info: &FuncInfo, context: &InfoContext, operators: &GlobalOperators, ids: &mut IdGen) -> (r: Result<Self, Vec<TypeError>>)
        requires
            func_info_ok(*info),
        ensures
            r matches Ok(d) ==> func_def_ok(d, *info, *context, *operators) && func_def_checked(d, *info, *context, *operators, old(ids).next),
            info.decl_data is Builtin ==> (r matches Ok(d) && d.body is None && d.name_loc is None && d.is_pub == info.is_pub),
            r matches Ok(d) ==> (info.decl_data is Decl ==> d.name_loc is Some),
            r matches Err(errs) ==> errs@.len() > 0,
            r is Err ==> forall|d: FuncDef| !#[trigger] func_def_checked(d, *info, *context, *operators, old(ids).next),
            misses_return(*info, *context, *operators, old(ids).next) ==> (r matches Err(errs) && errs@.contains(
                must_return_error(*info),
            )),
    {
        let ghost n0 = ids.next;
        let (decl, file) = match &info.decl_data {
            FuncDeclData::Decl { decl, file } => (decl, file),
            FuncDeclData::Builtin => {
                let mut params: Vec<FuncDefParam> = Vec::new();
                let mut i: usize = 0;
                while i < info.parameters.len()
                    invariant
                        i <= info.parameters@.len(),
                        params@.len() == i,
                        forall|k: int| 0 <= k < i ==> {
                            &&& (#[trigger] params@[k]).type_info@ == info.parameters@[k].type_info@
                            &&& params@[k].name@ == info.parameters@[k].name@
                            &&& params@[k].id == info.parameters@[k].id
                            &&& params@[k].init is None
                        },
                    decreases info.parameters@.len() - i,
                {
                    let p = &info.parameters[i];
                    params.push(FuncDefParam { name: p.name.clone(), type_info: p.type_info.copy(), init: None, id: p.id });
                    i += 1;
                }
                return Ok(FuncDef {
                    id: info.id,
                    name: info.name.clone(),
                    is_pub: info.is_pub,
                    returned: info.returned.copy(),
                    params,
                    body: None,
                    name_loc: None,
                });
            },
        };
        let mut errors: Vec<TypeError> = Vec::new();
        let mut params: Vec<FuncDefParam> = Vec::new();
        let var_stack = VariableStack::new();
        let check_args = ExprCheckArgs { operators, context, var_stack: &var_stack, file: &**file, self_type: info.parent.as_ref() };
        let ghost mut pfail: int = 0;
        let mut i: usize = 0;
        while i < info.parameters.len()
            invariant
                func_info_ok(*info),
                i <= info.parameters@.len(),
                errors@.len() == 0 ==> params@.len() == i,
                errors@.len() == 0 ==> forall|k: int| 0 <= k < i ==> {
                    &&& (#[trigger] params@[k]).type_info@ == info.parameters@[k].type_info@
                    &&& params@[k].name@ == info.parameters@[k].name@
                    &&& params@[k].id == info.parameters@[k].id
                    &&& default_ok(*operators, *context, **file, opt_ty(info.parent), info.parameters@[k].init, params@[k].type_info@, params@[k].init)
                },
                (info.decl_data matches FuncDeclData::Decl { file: f, .. } && f == *file),
                check_args.var_stack.frames().len() == 0,
                check_args.var_stack.vars().len() == 0,
                *check_args.operators == *operators,
                *check_args.context == *context,
                *check_args.file == **file,
                opt_ref_ty(check_args.self_type) == opt_ty(info.parent),
                errors@.len() > 0 ==> 0 <= pfail < i && default_untypable(check_args, info.parameters@[pfail].init, info.parameters@[pfail].type_info@),
            decreases info.parameters@.len() - i,
        {
            let param = &info.parameters[i];
            assert(init_ok(info.parameters@[i as int].init));
            let init = match &param.init {
                Some(init) => match TypedExpression::check_expr(init, check_args, Some(&param.type_info)) {
                    Ok(checked) => Some(Arc::new(checked)),
                    Err(e) => {
                        proof {
                            if errors@.len() == 0 {
                                pfail = i as int;
                            }
                        }
                        errors.push(e);
                        i += 1;
                        continue;
                    },
                },
                None => None,
            };
            params.push(FuncDefParam { name: param.name.clone(), type_info: param.type_info.copy(), init, id: param.id });
            i += 1;
        }
        let mut body_vars = VariableStack::new();
        body_vars.push_frame();
        proof {
            assert(body_vars.frames() =~= seq![info_param_frame(info.parameters@.subrange(0, 0))]);
            assert(body_vars.vars() =~= info_param_vars(info.parameters@.subrange(0, 0)));
        }
        let mut i: usize = 0;
        while i < info.parameters.len()
            invariant
                i <= info.parameters@.len(),
                body_vars.frames() == seq![info_param_frame(info.parameters@.subrange(0, i as int))],
                body_vars.vars() == info_param_vars(info.parameters@.subrange(0, i as int)),
            decreases info.parameters@.len() - i,
        {
            let p = &info.parameters[i];
            let ghost sub = info.parameters@.subrange(0, i + 1);
            proof {
                assert(sub.drop_last() =~= info.parameters@.subrange(0, i as int));
                assert(sub.last() == info.parameters@[i as int]);
            }
            if !crate::text::str_eq(p.name.as_str(), "self") {
                body_vars.add_var(p.name.clone(), p.type_info.copy(), p.id);
                proof {
                    assert(body_vars.frames() =~= seq![info_param_frame(sub)]);
                }
            }
            i += 1;
        }
        proof {
            assert(info.parameters@.subrange(0, i as int) =~= info.parameters@);
        }
        let stmt_args = StmtCheckArgs {
            operators,
            context,
            file: &**file,
            fn_ret_type: Some(&info.returned),
            self_type: info.parent.as_ref(),
        };
        let ghost scope0 = scope_of(body_vars, *ids);
        let ghost params_failed = errors@.len() > 0;
        let ghost mut checked: Option<(TypedStatement, Scope)> = None;
        let ghost mut must_return_pushed = false;
        proof {
            assert(stmt_args.self_type == body_args(info, context, operators, &**file).self_type);
            assert(stmt_args == body_args(info, context, operators, &**file));
        }
        let body = match TypedStatement::check_block(&decl.body, stmt_args, &mut body_vars, ids) {
            Ok(block) => {
                proof {
                    checked = Some((block, scope_of(body_vars, *ids)));
                }
                let ghost e_before = errors@.len();
                match block.check_return(&info.returned, &context.structs) {
                    Ok(returns_all) => {
                        let void_t = void_type();
                        if !returns_all && !info.returned.same(&void_t) {
                            errors.push(TypeError::FunctionMustReturn(decl.fn_tok.get_loc(&file.info)));
                            proof {
                                must_return_pushed = true;
                                assert(errors@.last() == must_return_error(*info));
                            }
                        }
                    },
                    Err(errs) => append_errors(&mut errors, errs),
                }
                assert(errors@.len() > e_before ==> (!returns_checked(block, info.returned@)
                    || (!always_returns(block) && info.returned@ != void_ty())));
                assert(misses_return(*info, *context, *operators, n0) ==> must_return_pushed) by {
                    if misses_return(*info, *context, *operators, n0) {
                        let a = body_args(info, context, operators, &**file);
                        let (t, after) = choose|t: TypedStatement, after: Scope| {
                            &&& #[trigger] block_typed(a, info_scope(*info, n0), *decl.body, t, after)
                            &&& returns_checked(t, info.returned@)
                            &&& !always_returns(t)
                        };
                        assert(info_scope(*info, n0) == scope0);
                        lemma_block_after_unique(a, scope0, *decl.body, block, scope_of(body_vars, *ids), t, after, info.returned@);
                    }
                }
                Some(FuncDefBody { vars: body_vars.into_vars(), block: Box::new(block) })
            },
            Err(errs) => {
                assert(!misses_return(*info, *context, *operators, n0)) by {
                    if misses_return(*info, *context, *operators, n0) {
                        let a = body_args(info, context, operators, &**file);
                        let (t, after) = choose|t: TypedStatement, after: Scope| {
                            &&& #[trigger] block_typed(a, info_scope(*info, n0), *decl.body, t, after)
                            &&& returns_checked(t, info.returned@)
                            &&& !always_returns(t)
                        };
                        assert(info_scope(*info, n0) == scope0);
                        assert(block_typed(a, scope0, *decl.body, t, after));
                    }
                }
                append_errors(&mut errors, errs);
                None
            },
        };
        assert(misses_return(*info, *context, *operators, n0) ==> must_return_pushed && errors@.contains(must_return_error(*info)));
        if errors.len() > 0 {
            proof {
                assert forall|d: FuncDef| !#[trigger] func_def_checked(d, *info, *context, *operators, n0) by {
                    if func_def_checked(d, *info, *context, *operators, n0) {
                        lemma_param_scope_same(d.params@, info.parameters@);
                        assert(param_scope(d.params@, n0) == scope0);
                        if params_failed {
                            lemma_default_untypable(
                                *operators,
                                *context,
                                **file,
                                opt_ty(info.parent),
                                check_args,
                                info.parameters@[pfail].init,
                                info.parameters@[pfail].type_info@,
                                d.params@[pfail].init,
                            );
                            assert(d.params@[pfail].type_info@ == info.parameters@[pfail].type_info@);
                        } else {
                            let b = d.body->0;
                            let a = body_args(info, context, operators, &**file);
                            let after = choose|after: Scope| #[trigger] block_typed(a, param_scope(d.params@, n0), *decl.body, *b.block, after);
                            assert(block_typed(a, scope0, *decl.body, *b.block, after));
                            match checked {
                                Some((blk, af0)) => {
                                    lemma_block_after_unique(a, scope0, *decl.body, blk, af0, *b.block, after, info.returned@);
                                },
                                None => {},
                            }
                        }
                    }
                }
            }
            return Err(errors);
        }
        let name_loc = decl.id.get_loc(&file.info);
        proof {
            lemma_param_scope_same(params@, info.parameters@);
            assert(param_scope(params@, scope0.2) == scope0);
        }
        match body {
            Some(b) => Ok(FuncDef {
                id: info.id,
                name: info.name.clone(),
                is_pub: info.is_pub,
                params,
                body: Some(b),
                returned: info.returned.copy(),
                name_loc: Some(name_loc),
            }),
            None => Err(vec![TypeError::FunctionMustReturn(name_loc)]),
        }
    }
}

/// A checked program: its structs, its functions and the id of `main`.
#[derive(Debug)]
pub struct CheckedProgram {
    pub structs: Vec<Arc<StructDef>>,
    pub funcs: Vec<Arc<FuncDef>>,
    pub main: u128,
}

/// The program has exactly one function called `main`, and `main` is its id.
pub open spec fn has_single_main(funcs: Seq<Arc<FuncDef>>, main: u128) -> bool {
    &&& exists|i: int| 0 <= i < funcs.len() && (#[trigger] funcs[i]).name@ == "main"@ && funcs[i].id == main
    &&& forall|i: int, j: int| 0 <= i < funcs.len() && 0 <= j < funcs.len() && (#[trigger] funcs[i]).name@ == "main"@
        && (#[trigger] funcs[j]).name@ == "main"@ ==> i == j
}

/// A `main` takes no parameter, or first an array of strings.
pub open spec fn main_args_ok(d: FuncDef) -> bool {
    d.params@.len() > 0 ==> d.params@[0].type_info@ == Ty::Array(Box::new(string_ty()))
}

/// Every struct and function declaration has its checked counterpart in `p`,
/// after the built-in ones, its types resolved with `types`.
pub open spec fn decls_checked(
    p: CheckedProgram,
    sd: Seq<(Arc<StructDecl>, Arc<FileNode>)>,
    fd: Seq<(Arc<FnDecl>, Arc<FileNode>)>,
    types: Seq<(Seq<Seq<char>>, Seq<char>, u128)>,
) -> bool {
    &&& forall|k: int| 0 <= k < sd.len() ==> def_of_struct_decl(*(#[trigger] p.structs@[5 + k]), sd[k].0, sd[k].1, types)
    &&& forall|k: int| 0 <= k < fd.len() ==> def_of_fn_decl(*(#[trigger] p.funcs@[4 + k]), fd[k].0, fd[k].1, types)
}

/// `p` is a checking of `program`: the built-in structs and functions come
/// first, then one checked struct per struct declaration and one checked
/// function per function declaration of the program's files, in order, their
/// types resolved with one table that starts with the built-in types; no file
/// declares a struct name twice, and exactly one declared function is called
/// `main`: its id is the program's `main`, and it takes no parameter or first
/// an array of strings.
pub open spec fn checks_program(program: Program, p: CheckedProgram) -> bool {
    let sd = program_struct_decls(program.files@);
    let fd = program_fn_decls(program.files@);
    &&& has_single_main(p.funcs@, p.main)
    &&& forall|k: int| 0 <= k < program.files@.len() ==> distinct_names(struct_names((#[trigger] program.files@[k]).declarations@))
    &&& p.structs@.len() == 5 + sd.len()
    &&& p.funcs@.len() == 4 + fd.len()
    &&& forall|k: int| 0 <= k < 4 ==> (#[trigger] p.funcs@[k]).body is None
    &&& exists|types: Seq<(Seq<Seq<char>>, Seq<char>, u128)>| #[trigger] builtin_types_first(types) && decls_checked(p, sd, fd, types)
    &&& exists|k: int| 0 <= k < fd.len() && text_of((#[trigger] fd[k]).0.id) == "main"@ && p.funcs@[4 + k].id == p.main
        && main_args_ok(*p.funcs@[4 + k])
    &&& forall|j: int, k: int| 0 <= j < fd.len() && 0 <= k < fd.len() && text_of((#[trigger] fd[j]).0.id) == "main"@
        && text_of((#[trigger] fd[k]).0.id) == "main"@ ==> j == k
}

/// Some function of `fs` is called `main`.
pub open spec fn has_main(fs: Seq<Arc<FuncDef>>) -> bool {
    exists|k: int| 0 <= k < fs.len() && (#[trigger] fs[k]).name@ == "main"@
}

/// The error for a `main` whose first parameter is not an array of strings, at its name.
pub open spec fn main_args_error(f: FuncDef) -> TypeError {
    match f.name_loc {
        Some(l) => TypeError::InvalidMainArgs(l),
        None => TypeError::NoMainFn,
    }
}

/// The error for a second `main`, at its name.
pub open spec fn duplicate_main_error(f: FuncDef) -> TypeError {
    match f.name_loc {
        Some(l) => TypeError::DuplicateMainFn(l),
        None => TypeError::NoMainFn,
    }
}

/// What the search for `main` finds wrong in `fs`, in order: for each function
/// called `main`, the error for its parameters when they are not allowed, then
/// the error for a second `main` when one came before it.
pub open spec fn main_errors(fs: Seq<Arc<FuncDef>>) -> Seq<TypeError>
    decreases fs.len(),
{
    if fs.len() == 0 {
        Seq::empty()
    } else {
        let f = *fs.last();
        let before = fs.drop_last();
        if f.name@ == "main"@ {
            main_errors(before) + (if main_args_ok(f) {
                Seq::empty()
            } else {
                seq![main_args_error(f)]
            }) + (if has_main(before) {
                seq![duplicate_main_error(f)]
            } else {
                Seq::empty()
            })
        } else {
            main_errors(before)
        }
    }
}

/// With nothing wrong with `main`, every `main` has allowed parameters and
/// there is at most one.
proof fn lemma_main_errors(fs: Seq<Arc<FuncDef>>)
    ensures
        main_errors(fs).len() == 0 ==> forall|k: int| 0 <= k < fs.len() && (#[trigger] fs[k]).name@ == "main"@ ==> main_args_ok(*fs[k]),
        main_errors(fs).len() == 0 ==> forall|j: int, k: int| 0 <= j < fs.len() && 0 <= k < fs.len() && (#[trigger] fs[j]).name@ == "main"@
            && (#[trigger] fs[k]).name@ == "main"@ ==> j == k,
    decreases fs.len(),
{
    if fs.len() > 0 {
        let before = fs.drop_last();
        lemma_main_errors(before);
        if main_errors(fs).len() == 0 {
            assert forall|k: int| 0 <= k < fs.len() - 1 implies #[trigger] fs[k] == before[k] by {}
            if fs.last().name@ == "main"@ {
                assert forall|k: int| 0 <= k < fs.len() - 1 implies (#[trigger] fs[k]).name@ != "main"@ by {
                    if fs[k].name@ == "main"@ {
                        assert(before[k].name@ == "main"@);
                        assert(has_main(before));
                    }
                }
            }
        }
    }
}

/// Looks for `main` among the checked functions: the first one called `main`,
/// with every error of `main_errors`, and `NoMainFn` when there is none.
pub fn find_main(funcs: &Vec<Arc<FuncDef>>) -> (r: (Option<usize>, Vec<TypeError>))
    ensures
        r.0 matches Some(m) ==> m < funcs@.len() && funcs@[m as int].name@ == "main"@,
        r.0 is None <==> !has_main(funcs@),
        r.1@ == main_errors(funcs@) + (if r.0 is None {
            seq![TypeError::NoMainFn]
        } else {
            Seq::empty()
        }),
{
    let mut errors: Vec<TypeError> = Vec::new();
    let mut found: Option<usize> = None;
    let mut i: usize = 0;
    while i < funcs.len()
        invariant
            i <= funcs@.len(),
            errors@ == main_errors(funcs@.subrange(0, i as int)),
            found is None <==> !has_main(funcs@.subrange(0, i as int)),
            found matches Some(m) ==> m < i && funcs@[m as int].name@ == "main"@,
        decreases funcs@.len() - i,
    {
        let ghost before = funcs@.subrange(0, i as int);
        let ghost now = funcs@.subrange(0, i + 1);
        proof {
            assert(now.drop_last() =~= before);
            assert(now.last() == funcs@[i as int]);
        }
        let f = &funcs[i];
        if crate::text::str_eq(f.name.as_str(), "main") {
            let mut here: Vec<TypeError> = Vec::new();
            if f.params.len() != 0 {
                let wanted = TypeInfo::Array(Box::new(super::builtins::string_type()));
                if !f.params[0].type_info.same(&wanted) {
                    match &f.name_loc {
                        Some(loc) => here.push(TypeError::InvalidMainArgs(loc.clone())),
                        None => here.push(TypeError::NoMainFn),
                    }
                }
            }
            if found.is_none() {
                found = Some(i);
            } else {
                match &f.name_loc {
                    Some(loc) => here.push(TypeError::DuplicateMainFn(loc.clone())),
                    None => here.push(TypeError::NoMainFn),
                }
            }
            proof {
                assert(now[i as int].name@ == "main"@);
            }
            append_errors(&mut errors, here);
        } else {
            proof {
                assert forall|k: int| 0 <= k < now.len() && (#[trigger] now[k]).name@ == "main"@ implies has_main(before) by {
                    assert(before[k] == now[k]);
                }
                if has_main(before) {
                    let k = choose|k: int| 0 <= k < before.len() && (#[trigger] before[k]).name@ == "main"@;
                    assert(now[k] == before[k]);
                }
            }
        }
        i += 1;
    }
    proof {
        assert(funcs@.subrange(0, i as int) =~= funcs@);
    }
    if found.is_none() {
        errors.push(TypeError::NoMainFn);
    }
    (found, errors)
}

/// `ctx` is what collecting the declarations of `program` gives, ids counted
/// from the first free one: the table of types, then the built-in structs and
/// functions, then one description per struct and function declaration, in order.
pub open spec fn context_of_program(program: Program, ctx: InfoContext) -> bool {
    let sd = program_struct_decls(program.files@);
    let fd = program_fn_decls(program.files@);
    let types = ctx.type_resolver.entries();
    &&& types == types_fold(program.files@, FIRST_FREE_ID).0
    &&& forall|k: int| 0 <= k < program.files@.len() ==> fns_registrable(types, *(#[trigger] program.files@[k]))
    &&& ctx.structs@.len() >= 5 && ctx.funcs@.len() >= 4 && context_ok(ctx)
    &&& builtin_types_first(types)
    &&& ctx.structs@.len() == 5 + sd.len()
    &&& forall|k: int| 0 <= k < 5 ==> (#[trigger] ctx.structs@[k]).decl_data is Builtin
    &&& forall|k: int| 0 <= k < sd.len() ==> struct_info_of_decl(#[trigger] ctx.structs@[5 + k], sd[k].0, sd[k].1, types)
    &&& ctx.funcs@.len() == 4 + fd.len()
    &&& forall|k: int| 0 <= k < 4 ==> (#[trigger] ctx.funcs@[k]).decl_data is Builtin && ctx.funcs@[k].name@ != "main"@
    &&& forall|k: int| 0 <= k < fd.len() ==> func_info_of_decl(#[trigger] ctx.funcs@[4 + k], fd[k].0, fd[k].1, types)
}

/// Every struct and function that collecting `program` describes checks under
/// the built-in operators: each struct has a checked counterpart, and each
/// function has one whatever id the first of its variables gets.
pub open spec fn program_decls_check(program: Program) -> bool {
    forall|ctx: InfoContext, ops: GlobalOperators|
        #![trigger context_of_program(program, ctx), ops.binary_rules()]
        context_of_program(program, ctx) && ops.binary_rules() == builtin_binary_rules() && ops.unary_rules()
            == builtin_unary_rules() ==> {
            &&& forall|k: int| 0 <= k < ctx.structs@.len() ==> #[trigger] struct_checks(ctx.structs@[k], ctx, ops)
            &&& forall|k: int, n0: u128| 0 <= k < ctx.funcs@.len() ==> #[trigger] func_checks(ctx.funcs@[k], ctx, ops, n0)
        }
}

/// Struct `info` has a checked counterpart under `ctx` and `ops`.
pub open spec fn struct_checks(info: StructInfo, ctx: InfoContext, ops: GlobalOperators) -> bool {
    exists|d: StructDef| #[trigger] struct_def_ok(d, info, ctx, ops)
}

/// Function `info` has a checked counterpart under `ctx` and `ops`, the ids of
/// its variables counted from `n0`.
pub open spec fn func_checks(info: FuncInfo, ctx: InfoContext, ops: GlobalOperators, n0: u128) -> bool {
    exists|d: FuncDef| #[trigger] func_def_checked(d, info, ctx, ops, n0)
}

/// The parameters of function declaration `decl` of `file` are allowed for
/// `main`, its types resolved with `types`: none, or first an array of strings.
pub open spec fn main_decl_args_ok(decl: Arc<FnDecl>, file: Arc<FileNode>, types: Seq<(Seq<Seq<char>>, Seq<char>, u128)>) -> bool {
    match decl.self_param {
        Some(_) => fn_owner(types, *file, decl) == Some(Ty::Array(Box::new(string_ty()))),
        None => decl.params@.len() > 0 ==> resolve_type(types, paths_view(*file), decl.params@[0].type_ref) == Some(
            Ty::Array(Box::new(string_ty())),
        ),
    }
}

/// Exactly one function declaration of `program` is called `main`, and its
/// parameters are allowed for `main`, its types resolved as collecting the
/// program resolves them.
pub open spec fn single_main_decl(program: Program) -> bool {
    let fd = program_fn_decls(program.files@);
    let types = types_fold(program.files@, FIRST_FREE_ID).0;
    &&& exists|k: int| 0 <= k < fd.len() && text_of((#[trigger] fd[k]).0.id) == "main"@ && main_decl_args_ok(fd[k].0, fd[k].1, types)
    &&& forall|j: int, k: int| 0 <= j < fd.len() && 0 <= k < fd.len() && text_of((#[trigger] fd[j]).0.id) == "main"@
        && text_of((#[trigger] fd[k]).0.id) == "main"@ ==> j == k
}

/// Two function declarations of `program` are called `main`.
pub open spec fn main_decl_twice(program: Program) -> bool {
    let fd = program_fn_decls(program.files@);
    exists|j: int, k: int| 0 <= j < k < fd.len() && text_of((#[trigger] fd[j]).0.id) == "main"@ && text_of((#[trigger] fd[k]).0.id) == "main"@
}

/// A function declaration of `program` called `main` has parameters that
/// `main` may not have.
pub open spec fn main_decl_args_wrong(program: Program) -> bool {
    let fd = program_fn_decls(program.files@);
    let types = types_fold(program.files@, FIRST_FREE_ID).0;
    exists|k: int| 0 <= k < fd.len() && text_of((#[trigger] fd[k]).0.id) == "main"@ && !main_decl_args_ok(fd[k].0, fd[k].1, types)
}

/// The checked function of a described declaration is the checked function of
/// that declaration.
proof fn lemma_fn_def_of_decl(
    d: FuncDef,
    info: FuncInfo,
    ctx: InfoContext,
    ops: GlobalOperators,
    decl: Arc<FnDecl>,
    file: Arc<FileNode>,
    types: Seq<(Seq<Seq<char>>, Seq<char>, u128)>,
)
    requires
        func_def_ok(d, info, ctx, ops),
        func_info_of_decl(info, decl, file, types),
        ops.binary_rules() == builtin_binary_rules(),
        ops.unary_rules() == builtin_unary_rules(),
    ensures
        def_of_fn_decl(d, decl, file, types),
{
    let off = self_offset(info);
    assert forall|i: int| 0 <= i < decl.params@.len() implies {
        let p = #[trigger] d.params@[i + off];
        &&& p.name@ == text_of(decl.params@[i].id)
        &&& resolve_type(types, paths_view(*file), decl.params@[i].type_ref) == Some(p.type_info@)
    } by {
        assert(info.parameters@[i + self_offset(info)].name@ == text_of(decl.params@[i].id));
        assert(d.params@[i + off].name@ == info.parameters@[i + off].name@);
    }
}

/// With no function called `main`, nothing is wrong with `main` and there is none.
proof fn lemma_no_main(fs: Seq<Arc<FuncDef>>)
    requires
        forall|k: int| 0 <= k < fs.len() ==> (#[trigger] fs[k]).name@ != "main"@,
    ensures
        main_errors(fs).len() == 0,
        !has_main(fs),
    decreases fs.len(),
{
    if fs.len() > 0 {
        let before = fs.drop_last();
        assert forall|k: int| 0 <= k < before.len() implies (#[trigger] before[k]).name@ != "main"@ by {
            assert(before[k] == fs[k]);
        }
        lemma_no_main(before);
        assert(fs.last() == fs[fs.len() - 1]);
    }
}

/// The function a shared pointer points to.
pub open spec fn func_of(f: Arc<FuncDef>) -> FuncDef {
    *f
}

/// A function called `main` with parameters `main` may not have has its
/// error among the errors of `main_errors`, and so has one after another `main`.
proof fn lemma_main_error_listed(fs: Seq<Arc<FuncDef>>, k: int)
    requires
        0 <= k < fs.len(),
        fs[k].name@ == "main"@,
    ensures
        !main_args_ok(*fs[k]) ==> main_errors(fs).contains(main_args_error(*fs[k])),
        has_main(fs.subrange(0, k)) ==> main_errors(fs).contains(duplicate_main_error(*fs[k])),
    decreases fs.len(),
{
    let before = fs.drop_last();
    assert(fs.last() == fs[fs.len() - 1]);
    if k == fs.len() - 1 {
        assert(before =~= fs.subrange(0, k));
        let a = main_errors(before);
        let f = func_of(fs[k]);
        let b = if main_args_ok(f) { Seq::<TypeError>::empty() } else { seq![main_args_error(f)] };
        let c = if has_main(before) { seq![duplicate_main_error(f)] } else { Seq::<TypeError>::empty() };
        assert(main_errors(fs) == a + b + c);
        if !main_args_ok(f) {
            assert((a + b + c)[a.len() as int] == main_args_error(f));
        }
        if has_main(before) {
            assert((a + b + c)[(a.len() + b.len()) as int] == duplicate_main_error(f));
        }
    } else {
        assert(before[k] == fs[k]);
        assert(before.subrange(0, k) =~= fs.subrange(0, k));
        lemma_main_error_listed(before, k);
        let a = main_errors(before);
        assert(main_errors(fs).subrange(0, a.len() as int) =~= a);
        assert forall|x: TypeError| #[trigger] a.contains(x) implies main_errors(fs).contains(x) by {
            let i = choose|i: int| 0 <= i < a.len() && a[i] == x;
            assert(main_errors(fs).subrange(0, a.len() as int)[i] == x);
        }
    }
}

/// With exactly one function called `main`, and its parameters allowed,
/// nothing is wrong with `main`.
proof fn lemma_single_main(fs: Seq<Arc<FuncDef>>, m: int)
    requires
        0 <= m < fs.len(),
        fs[m].name@ == "main"@,
        main_args_ok(*fs[m]),
        forall|k: int| 0 <= k < fs.len() && k != m ==> (#[trigger] fs[k]).name@ != "main"@,
    ensures
        main_errors(fs).len() == 0,
        has_main(fs),
    decreases fs.len(),
{
    let before = fs.drop_last();
    if m == fs.len() - 1 {
        assert forall|k: int| 0 <= k < before.len() implies (#[trigger] before[k]).name@ != "main"@ by {
            assert(before[k] == fs[k]);
        }
        lemma_no_main(before);
        assert(fs.last() == fs[m]);
    } else {
        assert forall|k: int| 0 <= k < before.len() && k != m implies (#[trigger] before[k]).name@ != "main"@ by {
            assert(before[k] == fs[k]);
        }
        assert(before[m] == fs[m]);
        lemma_single_main(before, m);
        assert(fs.last() == fs[fs.len() - 1]);
        let k = choose|k: int| 0 <= k < before.len() && (#[trigger] before[k]).name@ == "main"@;
        assert(fs[k] == before[k]);
    }
}

impl CheckedProgram {
    /// Checks a whole program: collects its declarations, checks every struct
    /// and function, and finds its single `main`.
    pub fn new(program: &Program) -> (r: Result<Self, Vec<TypeError>>)
        requires
            program_wf(*program),
            program_supported(*program),
        ensures
            r matches Ok(p) ==> checks_program(*program, p),
            r matches Err(errs) ==> errs@.len() > 0,
            !program_collectable(program.files@, FIRST_FREE_ID) ==> r is Err,
            program_collectable(program.files@, FIRST_FREE_ID) && (forall|k: int| 0 <= k < program_fn_decls(program.files@).len()
                ==> text_of((#[trigger] program_fn_decls(program.files@)[k]).0.id) != "main"@) ==> (r matches Err(errs)
                && errs@.last() == TypeError::NoMainFn),
            main_decl_twice(*program) ==> r is Err,
            main_decl_args_wrong(*program) ==> r is Err,
            program_collectable(program.files@, FIRST_FREE_ID) && program_decls_check(*program) && main_decl_twice(*program) ==> (r matches Err(
                errs,
            ) && exists|l: TextLoc| #[trigger] errs@.contains(TypeError::DuplicateMainFn(l))),
            program_collectable(program.files@, FIRST_FREE_ID) && program_decls_check(*program) && main_decl_args_wrong(*program) ==> (r matches Err(
                errs,
            ) && exists|l: TextLoc| #[trigger] errs@.contains(TypeError::InvalidMainArgs(l))),
            program_collectable(program.files@, FIRST_FREE_ID) && program_decls_check(*program) && single_main_decl(*program)
                ==> r is Ok,
    {
        let ghost checks = program_decls_check(*program);
        let ghost hyp = checks && single_main_decl(*program);
        let mut ids = IdGen::new();
        let context = match InfoContext::new(program, &mut ids) {
            Ok(c) => c,
            Err(e) => return Err(e),
        };
        let operators = get_operators();
        assert(context_of_program(*program, context));
        proof {
            if checks {
                assert(context_of_program(*program, context) && operators.binary_rules() == builtin_binary_rules());
            }
        }
        let mut errors: Vec<TypeError> = Vec::new();
        let mut structs: Vec<Arc<StructDef>> = Vec::new();
        let mut funcs: Vec<Arc<FuncDef>> = Vec::new();
        let mut i: usize = 0;
        while i < context.structs.len()
            invariant
                context_ok(context),
                operators.binary_rules() == builtin_binary_rules(),
                operators.unary_rules() == builtin_unary_rules(),
                i <= context.structs@.len(),
                errors@.len() == 0 ==> structs@.len() == i && forall|k: int| 0 <= k < i ==> struct_def_ok(
                    *(#[trigger] structs@[k]),
                    context.structs@[k],
                    context,
                    operators,
                ),
                checks ==> errors@.len() == 0,
                checks ==> forall|k: int| 0 <= k < context.structs@.len() ==> #[trigger] struct_checks(context.structs@[k], context, operators),
            decreases context.structs@.len() - i,
        {
            assert(struct_info_ok(context.structs@[i as int]));
            match StructDef::new(&context.structs[i], &context, &operators) {
                Ok(d) => {
                    let ghost before = structs@;
                    structs.push(Arc::new(d));
                    assert(forall|k: int| 0 <= k < before.len() ==> structs@[k] == before[k]);
                },
                Err(e) => {
                    proof {
                        if checks {
                            assert(struct_checks(context.structs@[i as int], context, operators));
                            let d = choose|d: StructDef| #[trigger] struct_def_ok(d, context.structs@[i as int], context, operators);
                            assert(struct_def_ok(d, context.structs@[i as int], context, operators));
                        }
                    }
                    append_errors(&mut errors, e);
                },
            }
            i += 1;
        }
        let mut i: usize = 0;
        while i < context.funcs.len()
            invariant
                context_ok(context),
                operators.binary_rules() == builtin_binary_rules(),
                operators.unary_rules() == builtin_unary_rules(),
                i <= context.funcs@.len(),
                errors@.len() == 0 ==> structs@.len() == context.structs@.len() && forall|k: int|
                    0 <= k < structs@.len() ==> struct_def_ok(*(#[trigger] structs@[k]), context.structs@[k], context, operators),
                errors@.len() == 0 ==> funcs@.len() == i && forall|k: int| 0 <= k < i ==> func_def_ok(
                    *(#[trigger] funcs@[k]),
                    context.funcs@[k],
                    context,
                    operators,
                ),
                forall|j: int| 0 <= j < funcs@.len() ==> exists|k: int| 0 <= k < i && (#[trigger] funcs@[j]).name
                    == #[trigger] context.funcs@[k].name,
                checks ==> errors@.len() == 0,
                errors@.len() == 0 ==> forall|k: int| 0 <= k < funcs@.len() && context.funcs@[k].decl_data is Decl ==> (#[trigger] funcs@[k]).name_loc is Some,
                checks ==> forall|k: int, n0: u128| 0 <= k < context.funcs@.len() ==> #[trigger] func_checks(context.funcs@[k], context, operators, n0),
            decreases context.funcs@.len() - i,
        {
            assert(func_info_ok(context.funcs@[i as int]));
            let ghost funcs0 = funcs@;
            let ghost n_before = ids.next;
            match FuncDef::new(&context.funcs[i], &context, &operators, &mut ids) {
                Ok(d) => {
                    let ghost before = funcs@;
                    funcs.push(Arc::new(d));
                    assert(forall|k: int| 0 <= k < before.len() ==> funcs@[k] == before[k]);
                    assert(funcs@[before.len() as int].name == context.funcs@[i as int].name);
                },
                Err(e) => {
                    proof {
                        if checks {
                            assert(func_checks(context.funcs@[i as int], context, operators, n_before));
                            let d = choose|d: FuncDef| #[trigger] func_def_checked(d, context.funcs@[i as int], context, operators, n_before);
                            assert(func_def_checked(d, context.funcs@[i as int], context, operators, n_before));
                        }
                    }
                    append_errors(&mut errors, e);
                },
            }
            proof {
                assert forall|j: int| 0 <= j < funcs@.len() implies exists|k: int| 0 <= k < i + 1 && (#[trigger] funcs@[j]).name
                    == #[trigger] context.funcs@[k].name by {
                    if j < funcs0.len() {
                        assert(funcs@[j] == funcs0[j]);
                        let k = choose|k: int| 0 <= k < i && funcs0[j].name == #[trigger] context.funcs@[k].name;
                        assert(funcs@[j].name == context.funcs@[k].name);
                    } else {
                        assert(funcs@[j].name == context.funcs@[i as int].name);
                    }
                }
            }
            i += 1;
        }
        let ghost checked_structs = structs@;
        let ghost checked_funcs = funcs@;
        let ghost clean = errors@.len() == 0;
        let (found, main_errs) = find_main(&funcs);
        proof {
            lemma_main_errors(funcs@);
            let fd = program_fn_decls(program.files@);
            if forall|k: int| 0 <= k < fd.len() ==> text_of((#[trigger] fd[k]).0.id) != "main"@ {
                assert forall|k: int| 0 <= k < context.funcs@.len() implies (#[trigger] context.funcs@[k]).name@ != "main"@ by {
                    if k >= 4 {
                        assert(func_info_of_decl(context.funcs@[4 + (k - 4)], fd[k - 4].0, fd[k - 4].1, context.type_resolver.entries()));
                    }
                }
                assert forall|j: int| 0 <= j < funcs@.len() implies (#[trigger] funcs@[j]).name@ != "main"@ by {
                    let k = choose|k: int| 0 <= k < context.funcs@.len() && funcs@[j].name == #[trigger] context.funcs@[k].name;
                    assert(context.funcs@[k].name@ != "main"@);
                }
                assert(!has_main(funcs@));
            }
        }
        proof {
            let fd = program_fn_decls(program.files@);
            let types = context.type_resolver.entries();
            if clean {
                assert forall|k: int| 0 <= k < fd.len() implies #[trigger] def_of_fn_decl(*funcs@[4 + k], fd[k].0, fd[k].1, types) by {
                    assert(func_def_ok(*funcs@[4 + k], context.funcs@[4 + k], context, operators));
                    assert(func_info_of_decl(context.funcs@[4 + k], fd[k].0, fd[k].1, types));
                    lemma_fn_def_of_decl(*funcs@[4 + k], context.funcs@[4 + k], context, operators, fd[k].0, fd[k].1, types);
                }
                assert forall|k: int| 0 <= k < 4 implies (#[trigger] funcs@[k]).name@ != "main"@ by {
                    assert(func_def_ok(*funcs@[k], context.funcs@[k], context, operators));
                }
                assert forall|k: int| 0 <= k < fd.len() implies (main_args_ok(*#[trigger] funcs@[4 + k]) == main_decl_args_ok(
                    fd[k].0,
                    fd[k].1,
                    types,
                ) && funcs@[4 + k].name@ == text_of(fd[k].0.id)) by {
                    assert(def_of_fn_decl(*funcs@[4 + k], fd[k].0, fd[k].1, types));
                    let d = *funcs@[4 + k];
                    let decl = fd[k].0;
                    if decl.self_param is None && decl.params@.len() > 0 {
                        assert(d.params@[0int + 0int] == d.params@[0int]);
                    }
                }
                if main_decl_twice(*program) {
                    let (j, k) = choose|j: int, k: int| 0 <= j < k < fd.len() && text_of((#[trigger] fd[j]).0.id) == "main"@
                        && text_of((#[trigger] fd[k]).0.id) == "main"@;
                    assert(funcs@[4 + j].name@ == "main"@ && funcs@[4 + k].name@ == "main"@);
                    assert(funcs@.subrange(0, 4 + k)[4 + j] == funcs@[4 + j]);
                    lemma_main_error_listed(funcs@, 4 + k);
                    assert(context.funcs@[4 + k].decl_data is Decl);
                    let l = funcs@[4 + k].name_loc->0;
                    assert(main_errs@.contains(TypeError::DuplicateMainFn(l)));
                }
                if main_decl_args_wrong(*program) {
                    let k = choose|k: int| 0 <= k < fd.len() && text_of((#[trigger] fd[k]).0.id) == "main"@ && !main_decl_args_ok(
                        fd[k].0,
                        fd[k].1,
                        types,
                    );
                    assert(funcs@[4 + k].name@ == "main"@ && !main_args_ok(*funcs@[4 + k]));
                    lemma_main_error_listed(funcs@, 4 + k);
                    assert(context.funcs@[4 + k].decl_data is Decl);
                    let l = funcs@[4 + k].name_loc->0;
                    assert(main_errs@.contains(TypeError::InvalidMainArgs(l)));
                }
                if hyp {
                    let km = choose|k: int| 0 <= k < fd.len() && text_of((#[trigger] fd[k]).0.id) == "main"@ && main_decl_args_ok(
                        fd[k].0,
                        fd[k].1,
                        types,
                    );
                    assert forall|k: int| 0 <= k < funcs@.len() && k != 4 + km implies (#[trigger] funcs@[k]).name@ != "main"@ by {
                        if k >= 4 {
                            assert(funcs@[4 + (k - 4)].name@ == text_of(fd[k - 4].0.id));
                        }
                    }
                    lemma_single_main(funcs@, 4 + km);
                }
            }
        }
        let ghost errors0 = errors@;
        let ghost main0 = main_errs@;
        append_errors(&mut errors, main_errs);
        proof {
            assert forall|x: TypeError| #[trigger] main0.contains(x) implies errors@.contains(x) by {
                let i = choose|i: int| 0 <= i < main0.len() && main0[i] == x;
                assert(errors@[errors0.len() + i] == x);
            }
        }
        let main_at: usize = match found {
            Some(m) => m,
            None => 0,
        };
        let main_fn: Option<u128> = match found {
            Some(m) => Some(funcs[m].id),
            None => None,
        };
        if errors.len() > 0 {
            return Err(errors);
        }
        proof {
            let sd = program_struct_decls(program.files@);
            let fd = program_fn_decls(program.files@);
            let types = context.type_resolver.entries();
            assert forall|k: int| 0 <= k < sd.len() implies def_of_struct_decl(*(#[trigger] structs@[5 + k]), sd[k].0, sd[k].1, types) by {
                let info = context.structs@[5 + k];
                assert(struct_def_ok(*structs@[5 + k], info, context, operators));
                assert(struct_info_of_decl(info, sd[k].0, sd[k].1, types));
                let d = *structs@[5 + k];
                assert forall|m: int| 0 <= m < d.members@.len() implies {
                    &&& (#[trigger] d.members@[m]).name@ == text_of(sd[k].0.members@[m].id)
                    &&& resolve_type(types, paths_view(*sd[k].1), sd[k].0.members@[m].type_ref) == Some(d.members@[m].type_info@)
                    &&& (d.members@[m].init is Some <==> sd[k].0.members@[m].initializer is Some)
                    &&& (d.members@[m].init matches Some(e) ==> ret_ty(*e) == d.members@[m].type_info@)
                    &&& default_written(*sd[k].1, None, init_of(sd[k].0.members@[m].initializer), d.members@[m].type_info@, d.members@[m].init)
                } by {
                    assert(init_of(sd[k].0.members@[m].initializer) == info.members@[m].init);
                    assert(d.members@[m].name == info.members@[m].name);
                }
            }
            assert forall|k: int| 0 <= k < 4 implies (#[trigger] funcs@[k]).body is None by {
                assert(func_def_ok(*funcs@[k], context.funcs@[k], context, operators));
            }
            assert forall|k: int| 0 <= k < fd.len() implies def_of_fn_decl(*(#[trigger] funcs@[4 + k]), fd[k].0, fd[k].1, types) by {
                let info = context.funcs@[4 + k];
                assert(func_def_ok(*funcs@[4 + k], info, context, operators));
                assert(func_info_of_decl(info, fd[k].0, fd[k].1, types));
                let d = *funcs@[4 + k];
                let decl = fd[k].0;
                let off = if decl.self_param is Some { 1int } else { 0int };
                assert forall|i: int| 0 <= i < decl.params@.len() implies {
                    let p = #[trigger] d.params@[i + off];
                    &&& p.name@ == text_of(decl.params@[i].id)
                    &&& resolve_type(types, paths_view(*fd[k].1), decl.params@[i].type_ref) == Some(p.type_info@)
                } by {
                    assert(info.parameters@[i + self_offset(info)].name@ == text_of(decl.params@[i].id));
                    assert(d.params@[i + off].name@ == info.parameters@[i + off].name@);
                }
            }
            assert(builtin_types_first(types));
            assert(decls_checked(CheckedProgram { structs, funcs, main: main_fn->0 }, sd, fd, types));
            let m = main_at as int;
            if m < 4 {
                assert(func_def_ok(*funcs@[m], context.funcs@[m], context, operators));
            }
            assert(def_of_fn_decl(*funcs@[4 + (m - 4)], fd[m - 4].0, fd[m - 4].1, types));
            assert(text_of(fd[m - 4].0.id) == "main"@);
            assert forall|j: int, k: int| 0 <= j < fd.len() && 0 <= k < fd.len() && text_of((#[trigger] fd[j]).0.id) == "main"@
                && text_of((#[trigger] fd[k]).0.id) == "main"@ implies j == k by {
                assert(def_of_fn_decl(*funcs@[4 + j], fd[j].0, fd[j].1, types));
                assert(def_of_fn_decl(*funcs@[4 + k], fd[k].0, fd[k].1, types));
                assert(funcs@[4 + j].name@ == "main"@);
                assert(funcs@[4 + k].name@ == "main"@);
            }
        }
        let main = main_fn.unwrap();
        Ok(CheckedProgram { structs, funcs, main })
    }
}

} // verus!
