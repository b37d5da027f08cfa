use riven::transpiling::lua_ast::{LuaBinaryOp, LuaExpr, LuaFormatArgs, LuaLit, LuaProgram, LuaStmt, LuaUnaryOp};
use riven::transpiling::{lua_quote, to_member_name, IdResolver};
use riven::validation::operators::{BinaryOpType, UnaryOpType};

fn id(s: &str) -> Box<LuaExpr> {
    Box::new(LuaExpr::Id(s.to_string()))
}

fn fmt() -> LuaFormatArgs {
    LuaFormatArgs { indent: 0, tab: "  ".to_string() }
}

#[test]
fn resolver_names_ids_once_and_keeps_them() {
    let mut r = IdResolver::new();
    assert_eq!(r.resolve(100), "v_0");
    assert_eq!(r.resolve(200), "v_1");
    assert_eq!(r.resolve(100), "v_0");
    // the counter moves on at every call, found or not
    assert_eq!(r.make_var(), "v_3");
    assert_eq!(r.resolve(300), "v_4");
    assert_eq!(r.resolve(200), "v_1");
}

#[test]
fn strings_are_quoted_for_lua() {
    assert_eq!(lua_quote("hi"), "\"hi\"");
    assert_eq!(lua_quote("a\"b\\c\nd"), "\"a\\\"b\\\\c\\nd\"");
    assert_eq!(lua_quote(""), "\"\"");
    assert_eq!(to_member_name("x"), "m_x");
}

#[test]
fn operators_map_to_lua() {
    assert_eq!(LuaBinaryOp::from_op(BinaryOpType::NotEqual).text(), "~=");
    assert_eq!(LuaBinaryOp::from_op(BinaryOpType::And).text(), "and");
    assert_eq!(LuaUnaryOp::from_op(UnaryOpType::Invert).text(), "not ");
    assert_eq!(LuaUnaryOp::from_op(UnaryOpType::Negate).text(), "-");
}

#[test]
fn expressions_print_with_parentheses() {
    let e = LuaExpr::Binary {
        left: Box::new(LuaExpr::Literal(LuaLit::Int(-3))),
        op: LuaBinaryOp::Add,
        right: Box::new(LuaExpr::Unary { expr: id("x"), op: LuaUnaryOp::Neg }),
    };
    assert_eq!(e.to_string(&mut fmt()), "(-3 + (-x))");
    let call = LuaExpr::Call { expr: id("f"), args: vec![LuaExpr::Literal(LuaLit::Nil), LuaExpr::Literal(LuaLit::True)] };
    assert_eq!(call.to_string(&mut fmt()), "f(nil, true)");
    let arr = LuaExpr::Array(vec![LuaExpr::Literal(LuaLit::Int(1)), LuaExpr::Literal(LuaLit::Int(2))]);
    assert_eq!(arr.to_string(&mut fmt()), "{ 1, 2 }");
    let access = LuaExpr::Index { expr: Box::new(LuaExpr::Access { expr: id("a"), name: "m_b".to_string() }), arg: id("i") };
    assert_eq!(access.to_string(&mut fmt()), "a.m_b[i]");
}

#[test]
fn tables_and_functions_are_indented() {
    let t = LuaExpr::Table { members: vec![("m_x".to_string(), LuaExpr::Literal(LuaLit::Int(0)))] };
    assert_eq!(t.to_string(&mut fmt()), "{\n  m_x = 0,\n}");
    let f = LuaExpr::FuncDef { args: vec!["a".to_string()], body: vec![LuaStmt::Return(Some(id("a")))] };
    assert_eq!(f.to_string(&mut fmt()), "function(a)\n  return a\nend");
}

#[test]
fn statements_print_one_per_line() {
    let prog = LuaProgram {
        stmts: vec![
            LuaStmt::LocalDecl { pairs: vec![("v_0".to_string(), Box::new(LuaExpr::Literal(LuaLit::Nil)))] },
            LuaStmt::Comment("two\nlines".to_string()),
            LuaStmt::While {
                cond: Box::new(LuaExpr::Literal(LuaLit::True)),
                stmts: vec![LuaStmt::Break, LuaStmt::Goto { label: "c".to_string() }, LuaStmt::Label("c".to_string())],
            },
            LuaStmt::If {
                condition: id("x"),
                body: vec![LuaStmt::Return(None)],
                else_body: Some(vec![LuaStmt::AssignExpr { assigned: id("y"), value: id("z") }]),
            },
            LuaStmt::Spacer,
            LuaStmt::Call { expr: id("v_0"), args: vec![] },
        ],
    };
    assert_eq!(
        prog.to_string("\t".to_string()),
        "local v_0 = nil\n-- two\n-- lines\nwhile true do\n\tbreak\n\tgoto c\n\t::c::\nend\nif x then\n\treturn\nelse\n\ty = z\nend\n\nv_0()\n"
    );
}

#[test]
fn named_functions_end_with_a_blank_line() {
    let s = LuaStmt::FuncDef { name: "f".to_string(), args: vec!["a".to_string(), "b".to_string()], body: vec![] };
    assert_eq!(s.to_string(&mut fmt()), "function f(a, b)\nend\n\n");
    let assign = LuaStmt::Assign { pairs: vec![("a".to_string(), id("b")), ("c".to_string(), id("d"))] };
    assert_eq!(assign.to_string(&mut fmt()), "a, c = b, d\n");
}
