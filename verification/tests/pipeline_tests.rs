use std::sync::Arc;

use riven::compiler::{
    compile_program, run_block_parser, run_expression_parser, run_parser, run_validator, CompilerConfig, CompilerError,
};
use riven::parsing::ast::{Declaration, Expression, Statement};
use riven::parsing::ParserError;
use riven::lexing::token::TokenType;
use riven::utils::FileInfo;
use riven::lexing::lexer::lex_text;
use riven::parsing::token_reader::TokenReader;
use riven::parsing::type_parsing::expect_type_name;
use riven::parsing::expr_parsing::expect_expression;
use riven::transpiling::lua_ast::{LuaExpr, LuaLit, LuaStmt};
use riven::validation::type_error::TypeError;

fn file(src: &str) -> FileInfo {
    FileInfo::from_text(src, "main.rvn".to_string())
}

fn config(path: &str) -> CompilerConfig {
    CompilerConfig {
        input_file: path.to_string(),
        debug_lex: false,
        debug_parse: false,
        debug_validate: false,
        run_after_compile: false,
    }
}

#[test]
fn parses_a_file_with_its_module_paths() {
    let f = run_parser(Arc::new(file("use a.b;\nfn main() {}\nstruct P { x: Int = 0, }"))).unwrap();
    assert_eq!(f.usings.len(), 1);
    assert_eq!(f.declarations.len(), 2);
    assert!(matches!(f.declarations[0], Declaration::Fn(_)));
    assert!(matches!(f.declarations[1], Declaration::Struct(_)));
    assert_eq!(
        f.using_paths,
        vec![vec!["a".to_string(), "b".to_string()], vec![], vec!["main".to_string()]]
    );
    assert_eq!(f.eof.token_type, TokenType::EOF);
}

#[test]
fn parser_errors_are_reported_with_their_place() {
    let errors = run_parser(Arc::new(file("fn main() { let = 5; }"))).err().unwrap();
    assert!(!errors.is_empty());
    assert!(errors[0].starts_with("[main.rvn:1:"));
}

#[test]
fn parser_error_messages() {
    assert_eq!(ParserError::ExpectedExpression(None).msg(), "Expected an expression");
    assert_eq!(ParserError::ExpectedToken(TokenType::SemiColon, None).msg(), "Expected token SemiColon ");
    assert_eq!(
        ParserError::ExpectedTokens(vec![TokenType::Identifier, TokenType::Comma], None).msg(),
        "Expected one of token [\"Identifier\", \"Comma\"] "
    );
    assert_eq!(ParserError::ExpectedBlock(None).msg(), "Expected a block expression");
}

#[test]
fn expression_parser_reads_one_expression() {
    let e = run_expression_parser(&file("1 + 2 * 3")).unwrap();
    assert!(matches!(e, Expression::Binary(_)));
    let errors = run_expression_parser(&file(";")).err().unwrap();
    assert_eq!(errors, vec!["[main.rvn:1:2]: Expected an expression".to_string()]);
}

#[test]
fn block_parser_reads_statements() {
    let b = run_block_parser(&file("{ let a = 1; a = a + 1; return a; }")).unwrap();
    assert_eq!(b.statements.len(), 3);
    assert!(matches!(b.statements[0], Statement::Let(_)));
    assert!(matches!(b.statements[1], Statement::Assign(_)));
    assert!(matches!(b.statements[2], Statement::Return(_)));
}

#[test]
fn validator_accepts_a_program_with_main() {
    let files = vec![Arc::new(file("fn main() { let a = 1 + 2; println(\"x\"); }"))];
    let checked = run_validator(&files).unwrap();
    let main = checked.funcs.iter().filter(|f| f.name == "main").count();
    assert_eq!(main, 1);
    assert!(checked.funcs.iter().any(|f| f.name == "main" && f.id == checked.main));
}

#[test]
fn validator_requires_a_main_function() {
    let files = vec![Arc::new(file("fn helper() {}"))];
    let errors = run_validator(&files).err().unwrap();
    assert_eq!(errors, vec!["No main function found".to_string()]);
}

#[test]
fn null_needs_an_expected_type() {
    let files = vec![Arc::new(file("fn main() { let a = null; }"))];
    let errors = run_validator(&files).err().unwrap();
    assert_eq!(errors[0], "[main.rvn:1:22]: Cannot infer expression type");
    let typed = vec![Arc::new(file("fn main() { let a: ?Int = null; }"))];
    assert!(run_validator(&typed).is_ok());
}

#[test]
fn unknown_names_are_reported() {
    let files = vec![Arc::new(file("fn main() { let a = b; }"))];
    let errors = run_validator(&files).err().unwrap();
    assert_eq!(errors[0], "[main.rvn:1:22]: Unknown identifier b");
}

#[test]
fn mismatched_types_are_reported() {
    let files = vec![Arc::new(file("fn main() { let a: Int = \"s\"; }"))];
    assert!(run_validator(&files).is_err());
}

#[test]
fn a_function_with_a_value_must_return() {
    let files = vec![Arc::new(file("fn f() -> Int { let a = 1; } fn main() {}"))];
    let errors = run_validator(&files).err().unwrap();
    assert!(errors.iter().any(|e| e.ends_with("Function must return")));
}

#[test]
fn type_error_texts() {
    assert_eq!(TypeError::NoMainFn.format_error(), "No main function found");
    assert!(TypeError::NoMainFn.loc().is_none());
}

#[test]
fn compile_rejects_other_extensions() {
    let c = compile_program(&config("prog.txt"), "fn main() {}");
    assert_eq!(c.result, Err(vec!["Invalid input file prog.txt".to_string()]));
    assert!(c.tokens.is_none());
}

#[test]
fn compile_produces_lua_that_calls_main_last() {
    let c = compile_program(&config("prog.rvn"), "fn main() { println(\"hi\"); }");
    let lua = c.result.clone().unwrap();
    assert!(lua.starts_with("local v_"));
    assert!(lua.contains("\"hi\""));
    assert!(lua.ends_with("()\n"));
    assert!(c.tokens.is_some());
    assert!(c.program.is_some());
    assert!(c.checked.is_some());
    assert!(c.lua_program.is_some());
}

#[test]
fn compile_reports_lexer_errors_first() {
    let c = compile_program(&config("prog.rvn"), "fn main() { @ }");
    assert_eq!(c.result, Err(vec!["[prog.rvn:1:14]: Unexpected character `@`".to_string()]));
    assert!(c.tokens.is_none());
}

#[test]
fn compile_reports_unsupported_constructs() {
    let c = compile_program(&config("prog.rvn"), "fn main() { let v = [1, 2][0]; }");
    assert!(c.program.is_some());
    assert_eq!(
        c.result,
        Err(vec!["The program uses a construct that the type checker does not handle".to_string()])
    );
}

#[test]
fn compile_reports_type_errors() {
    let c = compile_program(&config("prog.rvn"), "fn helper() {}");
    assert_eq!(c.result, Err(vec!["No main function found".to_string()]));
    assert!(c.program.is_some());
    assert!(c.checked.is_none());
}

#[test]
fn optional_values_take_null_and_casts() {
    let files = vec![Arc::new(file("fn main() { let v: ?Int = null; v = 7 as ?Int; }"))];
    assert!(run_validator(&files).is_ok());
}

#[test]
fn structs_with_defaults_can_be_built_empty() {
    let src = "struct Vec2 { x: Float = 0.0, y: Float = 0.0, }\nfn main() { let v = Vec2 {}; }";
    let files = vec![Arc::new(file(src))];
    let checked = run_validator(&files).unwrap();
    assert_eq!(checked.structs.len(), 6);
    assert_eq!(checked.structs[5].name, "Vec2");
    assert_eq!(checked.structs[5].members.len(), 2);
}

#[test]
fn functions_return_void_by_default_and_values_must_match() {
    let ok = vec![Arc::new(file("fn hello() { println(\"Hello World!\"); }\nfn main() { hello(); }"))];
    assert!(run_validator(&ok).is_ok());
    let bad = vec![Arc::new(file("fn f() -> Int { return \"s\"; }\nfn main() {}"))];
    assert!(run_validator(&bad).is_err());
}

#[test]
fn checked_program_lists_builtins_then_declarations() {
    let files = vec![Arc::new(file("fn a() {}\nfn main() { a(); }"))];
    let checked = run_validator(&files).unwrap();
    assert_eq!(checked.funcs.len(), 6);
    assert_eq!(checked.funcs[4].name, "a");
    assert_eq!(checked.funcs[5].name, "main");
    assert!(checked.funcs[0].body.is_none());
    assert!(checked.funcs[5].body.is_some());
}

#[test]
fn a_let_variable_has_its_initializer_type_within_its_block() {
    let ok = vec![Arc::new(file("fn main() { let a = 1; let b: Int = a + 2; a = b; }"))];
    assert!(run_validator(&ok).is_ok());
    let wrong_type = vec![Arc::new(file("fn main() { let a = 1; a = \"s\"; }"))];
    assert!(run_validator(&wrong_type).is_err());
    let out_of_scope = vec![Arc::new(file("fn main() { { let a = 1; } let b = a; }"))];
    assert!(run_validator(&out_of_scope).is_err());
}

#[test]
fn a_struct_name_declared_twice_in_a_file_is_an_error() {
    let files = vec![Arc::new(file("struct P { x: Int = 0, } struct P { y: Int = 0, } fn main() {}"))];
    let errors = run_validator(&files).err().unwrap();
    assert!(errors.iter().any(|e| e.ends_with("Duplicate type P")));
    let distinct = vec![Arc::new(file("struct P { x: Int = 0, } struct Q { y: Int = 0, } fn main() {}"))];
    assert!(run_validator(&distinct).is_ok());
}

#[test]
fn a_function_needs_a_known_owner_and_a_free_name() {
    let twice = vec![Arc::new(file("fn f() {} fn f() {} fn main() {}"))];
    let errors = run_validator(&twice).err().unwrap();
    assert!(errors.iter().any(|e| e.ends_with("Duplicate function definition")));
    let unknown_owner = vec![Arc::new(file("fn Foo.bar(self) {} fn main() {}"))];
    let errors = run_validator(&unknown_owner).err().unwrap();
    assert!(errors.iter().any(|e| e.ends_with("Unknown type Foo")));
    let other_owner = vec![Arc::new(file("fn Int.f(self) {} fn f() {} fn main() {}"))];
    assert!(run_validator(&other_owner).is_ok());
}

#[test]
fn main_takes_nothing_or_an_array_of_strings_and_is_declared_once() {
    let with_args = vec![Arc::new(file("fn main(args: []String) {}"))];
    assert!(run_validator(&with_args).is_ok());
    let bad_args = vec![Arc::new(file("fn main(x: Int) {}"))];
    let errors = run_validator(&bad_args).err().unwrap();
    assert!(errors.iter().any(|e| e.ends_with("Invalid main args")));
    let member_main = vec![Arc::new(file("fn Int.main(self) {} fn main() {}"))];
    let errors = run_validator(&member_main).err().unwrap();
    assert!(errors.iter().any(|e| e.ends_with("Duplicate main function found")));
}

#[test]
fn declarations_must_resolve_and_defaults_must_trail() {
    let unknown_member = vec![Arc::new(file("struct P { x: Foo = 0, } fn main() {}"))];
    let errors = run_validator(&unknown_member).err().unwrap();
    assert!(errors.iter().any(|e| e.ends_with("Unknown type Foo")));
    let default_first = vec![Arc::new(file("fn f(a: Int = 1, b: Int) {} fn main() {}"))];
    assert!(run_validator(&default_first).is_err());
    let default_last = vec![Arc::new(file("fn f(a: Int, b: Int = 1) {} fn main() { f(1); }"))];
    assert!(run_validator(&default_last).is_ok());
}

#[test]
fn an_empty_array_takes_its_type_from_the_context() {
    let untyped = vec![Arc::new(file("fn main() { let a = []; }"))];
    assert!(run_validator(&untyped).is_err());
    let typed = vec![Arc::new(file("fn main() { let a: []Int = []; }"))];
    assert!(run_validator(&typed).is_ok());
}

#[test]
fn binary_operators_bind_by_precedence_and_from_the_left() {
    let e = run_expression_parser(&file("a + b * c - d")).unwrap();
    let top = match e {
        Expression::Binary(b) => b,
        _ => panic!("expected a binary expression"),
    };
    assert_eq!(top.operator.token_type, TokenType::Minus);
    assert!(matches!(*top.right, Expression::Identifier(_)));
    let sum = match *top.left {
        Expression::Binary(b) => b,
        _ => panic!("expected a binary expression"),
    };
    assert_eq!(sum.operator.token_type, TokenType::Plus);
    assert!(matches!(*sum.left, Expression::Identifier(_)));
    match *sum.right {
        Expression::Binary(p) => assert_eq!(p.operator.token_type, TokenType::Multiply),
        _ => panic!("expected a binary expression"),
    }
}

#[test]
fn type_names_print_as_written() {
    for src in ["?Int", "[]Int", "?[]String"] {
        let tokens = lex_text(&file(src)).unwrap();
        let mut reader = TokenReader::new(&tokens, None).unwrap();
        let t = expect_type_name(&mut reader).unwrap();
        assert_eq!(t.pretty_print(), src);
    }
}

#[test]
fn compiled_program_declares_every_function_as_nil_first() {
    let c = compile_program(&config("prog.rvn"), "fn helper() {}\nfn main() { helper(); }");
    let checked = c.checked.as_ref().unwrap();
    let lua = c.lua_program.as_ref().unwrap();
    match &lua.stmts[0] {
        LuaStmt::LocalDecl { pairs } => {
            assert_eq!(pairs.len(), checked.funcs.len());
            assert!(pairs.iter().all(|(_, v)| matches!(**v, LuaExpr::Literal(LuaLit::Nil))));
        },
        _ => panic!("expected the declarations first"),
    }
}

#[test]
fn a_function_that_does_not_return_is_refused() {
    let files = vec![Arc::new(file("fn f() -> Int { let a = 1; }\nfn main() {}"))];
    let errors = run_validator(&files).err().unwrap();
    assert_eq!(errors.len(), 1);
    assert!(errors[0].contains("return"), "{}", errors[0]);
}

#[test]
fn a_value_of_the_wrong_type_names_the_type_asked_for() {
    let files = vec![Arc::new(file("fn main() { let a: Int = \"x\"; }"))];
    let errors = run_validator(&files).err().unwrap();
    assert!(errors.iter().any(|e| e.ends_with("]: Expected type Int")), "{:?}", errors);
}

#[test]
fn a_for_loop_over_a_non_iterator_is_refused() {
    let files = vec![Arc::new(file("fn main() { for (x in 5) { } }"))];
    let errors = run_validator(&files).err().unwrap();
    // `main` itself fails to check, so no `main` is found either
    assert_eq!(errors.len(), 2);
    assert!(errors[0].ends_with("]: Expected type Expected type Fn() -> ?T"), "{}", errors[0]);
    assert_eq!(errors[1], "No main function found");
}

#[test]
fn a_second_main_is_reported_at_its_name() {
    let files = vec![
        Arc::new(file("fn main() {}")),
        Arc::new(FileInfo::from_text("\nfn main() {}", "other.rvn".to_string())),
    ];
    let errors = run_validator(&files).err().unwrap();
    assert_eq!(errors.len(), 1);
    assert!(errors[0].starts_with("[other.rvn:2:"), "{}", errors[0]);
    assert!(errors[0].ends_with("]: Duplicate main function found"), "{}", errors[0]);
}

#[test]
fn main_must_take_an_array_of_strings() {
    let files = vec![Arc::new(file("fn main(x: Int) {}"))];
    let errors = run_validator(&files).err().unwrap();
    assert_eq!(errors.len(), 1);
    assert!(errors[0].ends_with("]: Invalid main args"), "{}", errors[0]);
    let ok = vec![Arc::new(file("fn main(args: []String) {}"))];
    assert!(run_validator(&ok).is_ok());
}

#[test]
fn a_use_with_a_dangling_dot_is_refused() {
    assert!(run_parser(Arc::new(file("use a.;\nfn main() {}"))).is_err());
    assert!(run_parser(Arc::new(file("use a.b;\nfn main() {}"))).is_ok());
}

#[test]
fn default_values_must_trail() {
    let files = vec![Arc::new(file("fn f(a: Int = 1, b: Int) {}\nfn main() {}"))];
    let errors = run_validator(&files).err().unwrap();
    assert!(errors[0].starts_with("[main.rvn:1:"), "{}", errors[0]);
    assert!(errors[0].ends_with("]: Must have a function initializer"), "{}", errors[0]);
}

#[test]
fn self_needs_an_owner_type() {
    let files = vec![Arc::new(file("fn f(self) {}\nfn main() {}"))];
    let errors = run_validator(&files).err().unwrap();
    assert!(errors[0].ends_with("]: Cannot use `self`, in this context"), "{}", errors[0]);
}

#[test]
fn a_let_keeps_its_value_in_the_lua() {
    let c = compile_program(&config("prog.rvn"), "fn main() { let x = 5; println(\"v\" + x); }");
    let lua = c.result.clone().unwrap();
    assert!(lua.contains(" = 5"), "{}", lua);
}

#[test]
fn self_keeps_its_own_type_where_another_is_asked() {
    let files = vec![Arc::new(file("struct P { x: Int = 0, }\nfn P.f(self) { let a: Int = self; }\nfn main() {}"))];
    assert!(run_validator(&files).is_ok());
}

#[test]
fn postfix_calls_nest_from_the_left() {
    let e = run_expression_parser(&file("f(a)(b,)")).unwrap();
    let outer = match e {
        Expression::Call(c) => c,
        _ => panic!("expected a call"),
    };
    assert_eq!(outer.args.len(), 1);
    let inner = match *outer.expression {
        Expression::Call(c) => c,
        _ => panic!("expected a call"),
    };
    assert_eq!(inner.args.len(), 1);
    assert!(matches!(*inner.expression, Expression::Identifier(_)));
}

#[test]
fn a_name_is_an_identifier_expression() {
    let e = run_expression_parser(&file("x;")).unwrap();
    assert!(matches!(e, Expression::Identifier(_)));
}

#[test]
fn a_struct_name_declared_twice_is_refused() {
    let files = vec![Arc::new(file("struct P { x: Int = 0, }\nstruct P { y: Int = 0, }\nfn main() {}"))];
    assert!(run_validator(&files).is_err());
}

#[test]
fn two_main_functions_are_reported() {
    let files = vec![
        Arc::new(FileInfo::from_text("fn main() {}", "a.rvn".to_string())),
        Arc::new(FileInfo::from_text("fn main() {}", "b.rvn".to_string())),
    ];
    let errors = run_validator(&files).err().unwrap();
    assert_eq!(errors.len(), 1);
    assert!(errors[0].ends_with("Duplicate main function found"));
}

#[test]
fn main_with_other_arguments_is_reported() {
    let files = vec![Arc::new(file("fn main(a: Int) {}"))];
    let errors = run_validator(&files).err().unwrap();
    assert_eq!(errors, vec!["[main.rvn:1:5]: Invalid main args".to_string()]);
    let args = vec![Arc::new(file("fn main(args: []String) {}"))];
    assert!(run_validator(&args).is_ok());
}

#[test]
fn left_out_members_get_their_defaults() {
    let src = "struct P { x: Int = 7, y: Int = 1, }\nfn main() { let p = P { y: 2 }; }";
    let c = compile_program(&config("prog.rvn"), src);
    let lua = c.result.unwrap();
    assert!(lua.contains("m_y = 2,\n"));
    assert!(lua.contains("m_x = 7,\n"));
    assert!(lua.find("m_y = 2").unwrap() < lua.find("m_x = 7").unwrap());
    assert!(!lua.contains("m_y = 1"));
}

#[test]
fn broken_inner_types_report_the_inner_error() {
    let tokens = lex_text(&file("?[Int")).unwrap();
    let mut reader = TokenReader::new(&tokens, None).unwrap();
    let e = expect_type_name(&mut reader).err().unwrap();
    assert!(matches!(e, ParserError::ExpectedToken(TokenType::CloseBracket, Some(ref t)) if t.token_type == TokenType::Identifier));
    let tokens = lex_text(&file("Fn(Int")).unwrap();
    let mut reader = TokenReader::new(&tokens, None).unwrap();
    let e = expect_type_name(&mut reader).err().unwrap();
    assert!(matches!(e, ParserError::ExpectedToken(TokenType::CloseParen, Some(ref t)) if t.token_type == TokenType::EOF));
    let tokens = lex_text(&file("?")).unwrap();
    let mut reader = TokenReader::new(&tokens, None).unwrap();
    let e = expect_type_name(&mut reader).err().unwrap();
    assert!(matches!(e, ParserError::ExpectedType(Some(ref t)) if t.token_type == TokenType::EOF));
}

#[test]
fn files_of_empty_functions_parse() {
    let f = run_parser(Arc::new(file("pub fn f() {}\nfn g() {}"))).unwrap();
    assert_eq!(f.usings.len(), 0);
    assert_eq!(f.declarations.len(), 2);
    match &f.declarations[0] {
        Declaration::Fn(d) => {
            assert!(d.pub_tok.is_some());
            assert!(d.params.is_empty());
            assert!(d.return_type.is_none());
            assert!(d.body.statements.is_empty());
        },
        _ => panic!("expected a function"),
    }
    match &f.declarations[1] {
        Declaration::Fn(d) => assert!(d.pub_tok.is_none()),
        _ => panic!("expected a function"),
    }
}

#[test]
fn single_names_and_literals_parse_alone() {
    for (src, is_name) in [("x;", true), ("42)", false), ("\"s\",", false), ("true", false), ("y", true)] {
        let tokens = lex_text(&file(src)).unwrap();
        let mut reader = TokenReader::new(&tokens, None).unwrap();
        let e = expect_expression(&mut reader).unwrap();
        if is_name {
            assert!(matches!(e, Expression::Identifier(_)));
        } else {
            assert!(matches!(e, Expression::Literal(_)));
        }
        assert_eq!(reader.index(), 1);
    }
}

#[test]
fn files_of_plain_functions_parse() {
    let f = run_parser(Arc::new(file("fn main() { return x; break; {} }\npub fn g() { continue; return 1; }"))).unwrap();
    assert_eq!(f.declarations.len(), 2);
    match &f.declarations[0] {
        Declaration::Fn(d) => {
            assert_eq!(d.body.statements.len(), 3);
            assert!(matches!(d.body.statements[0], Statement::Return(_)));
            assert!(matches!(d.body.statements[1], Statement::Break(_)));
            assert!(matches!(d.body.statements[2], Statement::BlockStmt(_)));
        },
        _ => panic!("expected a function"),
    }
    match &f.declarations[1] {
        Declaration::Fn(d) => {
            assert!(d.pub_tok.is_some());
            assert_eq!(d.body.statements.len(), 2);
        },
        _ => panic!("expected a function"),
    }
}

#[test]
fn blocks_of_simple_statements_parse() {
    let b = run_block_parser(&file("{ break; return; return y; {} continue; }")).unwrap();
    assert_eq!(b.statements.len(), 5);
    assert!(matches!(b.statements[0], Statement::Break(_)));
    assert!(matches!(b.statements[1], Statement::Return(_)));
    assert!(matches!(b.statements[2], Statement::Return(_)));
    assert!(matches!(b.statements[3], Statement::BlockStmt(_)));
    assert!(matches!(b.statements[4], Statement::Continue(_)));
}
