use vstd::prelude::*;
use crate::text::to_owned_string;
use crate::validation::builtins::{IS_NONE_ID, PRINTLN_ID, PRINT_ID, READ_LINE_ID, STRING_TO_INT_ID, UNWRAP_ID};
use super::lua_ast::{LuaStmt, LuaExpr, LuaLit, LuaBinaryOp};
use super::{IdResolver, var_name, lookup_id};

verus! {

/// The Lua function that gives back its argument; an expression statement calls it.
pub const INVOKE_EXPR_FUNC: &'static str = "_invoke_expr";

fn id_expr(name: &str) -> (r: LuaExpr)
    ensures
        r matches LuaExpr::Id(n) && n@ == name@,
{
    LuaExpr::Id(to_owned_string(name))
}

/// `function _invoke_expr(arg) return arg end`.
pub fn create_invoke_expr_func() -> (r: LuaStmt)
    ensures
        r matches LuaStmt::FuncDef { name, args, body } && name@ == INVOKE_EXPR_FUNC@ && args@.len() == 1
            && body@.len() == 1,
{
    LuaStmt::FuncDef {
        name: to_owned_string(INVOKE_EXPR_FUNC),
        args: vec![to_owned_string("arg")],
        body: vec![LuaStmt::Return(Some(Box::new(id_expr("arg"))))],
    }
}

/// `v_N = function(args) body end`, where `v_N` is the Lua name of `id`.
fn create_builtin(id: u128, body: Vec<LuaStmt>, args: Vec<String>, resolver: &mut IdResolver) -> (r: LuaStmt)
    ensures
        final(resolver).grows_from(*old(resolver)),
        lookup_id(final(resolver).entries(), id) is Some,
        r matches LuaStmt::Assign { pairs } && pairs@.len() == 1 && pairs@[0].0@ == var_name(
            lookup_id(final(resolver).entries(), id)->0,
        ),
{
    let name = resolver.resolve(id);
    let value = Box::new(LuaExpr::FuncDef { args, body });
    LuaStmt::Assign { pairs: vec![(name, value)] }
}

fn create_print_builtin(resolver: &mut IdResolver) -> (r: LuaStmt)
    ensures
        final(resolver).grows_from(*old(resolver)),
        lookup_id(final(resolver).entries(), PRINT_ID) is Some,
{
    let msg_arg = resolver.make_var();
    let body = vec![LuaStmt::Call { expr: Box::new(id_expr("io.write")), args: vec![LuaExpr::Id(msg_arg.clone())] }];
    create_builtin(PRINT_ID, body, vec![msg_arg], resolver)
}

fn create_println_builtin(resolver: &mut IdResolver) -> (r: LuaStmt)
    ensures
        final(resolver).grows_from(*old(resolver)),
        lookup_id(final(resolver).entries(), PRINTLN_ID) is Some,
{
    let msg_arg = resolver.make_var();
    let body = vec![LuaStmt::Call { expr: Box::new(id_expr("print")), args: vec![LuaExpr::Id(msg_arg.clone())] }];
    create_builtin(PRINTLN_ID, body, vec![msg_arg], resolver)
}

fn create_read_line_builtin(resolver: &mut IdResolver) -> (r: LuaStmt)
    ensures
        final(resolver).grows_from(*old(resolver)),
        lookup_id(final(resolver).entries(), READ_LINE_ID) is Some,
{
    let call = LuaExpr::Call { expr: Box::new(id_expr("io.read")), args: Vec::new() };
    let body = vec![LuaStmt::Return(Some(Box::new(call)))];
    create_builtin(READ_LINE_ID, body, Vec::new(), resolver)
}

fn create_is_none_builtin(resolver: &mut IdResolver) -> (r: LuaStmt)
    ensures
        final(resolver).grows_from(*old(resolver)),
        lookup_id(final(resolver).entries(), IS_NONE_ID) is Some,
{
    let self_arg = resolver.make_var();
    let test = LuaExpr::Binary {
        left: Box::new(LuaExpr::Id(self_arg.clone())),
        op: LuaBinaryOp::Eq,
        right: Box::new(LuaExpr::Literal(LuaLit::Nil)),
    };
    let body = vec![LuaStmt::Return(Some(Box::new(test)))];
    create_builtin(IS_NONE_ID, body, vec![self_arg], resolver)
}

fn create_unwrap_builtin(resolver: &mut IdResolver) -> (r: LuaStmt)
    ensures
        final(resolver).grows_from(*old(resolver)),
        lookup_id(final(resolver).entries(), UNWRAP_ID) is Some,
{
    let self_arg = resolver.make_var();
    let body = vec![LuaStmt::Return(Some(Box::new(LuaExpr::Id(self_arg.clone()))))];
    create_builtin(UNWRAP_ID, body, vec![self_arg], resolver)
}

fn create_to_int_builtin(resolver: &mut IdResolver) -> (r: LuaStmt)
    ensures
        final(resolver).grows_from(*old(resolver)),
        lookup_id(final(resolver).entries(), STRING_TO_INT_ID) is Some,
{
    let self_arg = resolver.make_var();
    let get_input_expr = LuaExpr::Call { expr: Box::new(id_expr("tonumber")), args: vec![LuaExpr::Id(self_arg.clone())] };
    let test_int_arg = resolver.make_var();
    let floor = LuaExpr::Call { expr: Box::new(id_expr("math.floor")), args: vec![LuaExpr::Id(test_int_arg.clone())] };
    let is_whole = LuaExpr::Binary { left: Box::new(LuaExpr::Id(test_int_arg.clone())), op: LuaBinaryOp::Eq, right: Box::new(floor) };
    let condition = LuaExpr::Binary { left: Box::new(LuaExpr::Id(test_int_arg.clone())), op: LuaBinaryOp::And, right: Box::new(is_whole) };
    let body = vec![
        LuaStmt::LocalDecl { pairs: vec![(test_int_arg.clone(), Box::new(get_input_expr))] },
        LuaStmt::If {
            condition: Box::new(condition),
            body: vec![LuaStmt::Return(Some(Box::new(LuaExpr::Id(test_int_arg))))],
            else_body: None,
        },
        LuaStmt::Return(Some(Box::new(LuaExpr::Literal(LuaLit::Nil)))),
    ];
    create_builtin(STRING_TO_INT_ID, body, vec![self_arg], resolver)
}

/// Appends the Lua definitions of the built-in functions, each under the Lua
/// name of its id.
pub fn append_builtins(stmts: &mut Vec<LuaStmt>, resolver: &mut IdResolver)
    ensures
        final(resolver).grows_from(*old(resolver)),
        final(stmts)@.len() == old(stmts)@.len() + 7,
        forall|i: int| 0 <= i < old(stmts)@.len() ==> final(stmts)@[i] == old(stmts)@[i],
        lookup_id(final(resolver).entries(), PRINT_ID) is Some,
        lookup_id(final(resolver).entries(), PRINTLN_ID) is Some,
        lookup_id(final(resolver).entries(), READ_LINE_ID) is Some,
        lookup_id(final(resolver).entries(), IS_NONE_ID) is Some,
        lookup_id(final(resolver).entries(), UNWRAP_ID) is Some,
        lookup_id(final(resolver).entries(), STRING_TO_INT_ID) is Some,
{
    stmts.push(create_invoke_expr_func());
    stmts.push(create_println_builtin(resolver));
    stmts.push(create_print_builtin(resolver));
    stmts.push(create_is_none_builtin(resolver));
    stmts.push(create_unwrap_builtin(resolver));
    stmts.push(create_to_int_builtin(resolver));
    stmts.push(create_read_line_builtin(resolver));
}

} // verus!
