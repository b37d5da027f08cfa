use vstd::prelude::*;
use std::sync::Arc;
use crate::utils::{TextLoc, loc_text, FileInfo, PathInfo, spec_get_loc, strings_view, has_valid_extension, std_path_extension};
use crate::text::{push_str, to_owned_string};
use crate::lexing::token::Token;
use crate::lexing::lexer::{lex_text, lexed_from, LexerError, error_justified};
use crate::parsing::{parse_file, file_wf, file_written, ParserError, parser_error_msg, parser_error_found};
use crate::parsing::ast::{Program, FileNode, Expression, BlockStmt};
use crate::parsing::syntax::{tokens_valued, expr_wf, expr_toks, block_wf, block_toks, kept};
use crate::parsing::token_reader::TokenReader;
use crate::parsing::expr_parsing::expect_expression;
use crate::parsing::stmt_parsing::{expect_block_stmt, plain_fns_from};
use crate::validation::info::{program_is_supported, program_wf, program_supported, decls_wf, append_all, program_collectable};
use crate::validation::builtins::FIRST_FREE_ID;
use crate::validation::type_error::TypeError;
use crate::validation::defs::{CheckedProgram, has_single_main, checks_program, program_decls_check, single_main_decl};
use crate::transpiling::{transpile, declares_then_calls_main, defines_all};
use crate::transpiling::lua_ast::{LuaProgram, stmts_text};

verus! {

/// What the command line asks of the compiler.
#[derive(Debug)]
pub struct CompilerConfig {
    pub input_file: String,
    pub debug_lex: bool,
    pub debug_parse: bool,
    pub debug_validate: bool,
    pub run_after_compile: bool,
}

/// An error as shown to the user: `[path:line:column]: message`, or the bare
/// message when the error has no location.
pub open spec fn error_text(loc: Option<TextLoc>, msg: Seq<char>) -> Seq<char> {
    match loc {
        Some(l) => "["@ + loc_text(l) + "]: "@ + msg,
        None => msg,
    }
}

/// An error of one of the compiler's stages: a message and, where it has one,
/// the place in the source it is about.
pub trait CompilerError {
    spec fn error_msg(&self) -> Seq<char>;

    spec fn error_loc(&self) -> Option<TextLoc>;

    fn msg(&self) -> (r: String)
        ensures
            r@ == self.error_msg(),
    ;

    fn loc(&self) -> (r: Option<TextLoc>)
        ensures
            r == self.error_loc(),
    ;

    /// The error as shown to the user.
    fn format_error(&self) -> (r: String)
        ensures
            r@ == error_text(self.error_loc(), self.error_msg()),
    {
        let msg = self.msg();
        match self.loc() {
            Some(l) => {
                let mut out = String::new();
                push_str(&mut out, "[");
                let place = l.to_text();
                push_str(&mut out, place.as_str());
                push_str(&mut out, "]: ");
                push_str(&mut out, msg.as_str());
                out
            },
            None => msg,
        }
    }
}

/// Each error as shown to the user.
pub open spec fn errors_text<E: CompilerError>(errors: Seq<E>) -> Seq<Seq<char>> {
    errors.map_values(|e: E| error_text(e.error_loc(), e.error_msg()))
}

/// The errors as shown to the user, in order.
pub fn format_errors<E: CompilerError>(errors: &Vec<E>) -> (r: Vec<String>)
    ensures
        strings_view(r@) == errors_text(errors@),
{
    let mut out: Vec<String> = Vec::new();
    let mut i: usize = 0;
    while i < errors.len()
        invariant
            i <= errors@.len(),
            strings_view(out@) == errors_text(errors@.subrange(0, i as int)),
        decreases errors@.len() - i,
    {
        let text = errors[i].format_error();
        let ghost before = out@;
        out.push(text);
        proof {
            assert(strings_view(out@) =~= strings_view(before).push(text@));
            assert(errors_text(errors@.subrange(0, i + 1)) =~= errors_text(errors@.subrange(0, i as int)).push(
                error_text(errors@[i as int].error_loc(), errors@[i as int].error_msg()),
            ));
        }
        i += 1;
    }
    assert(errors@.subrange(0, i as int) =~= errors@);
    out
}

/// A parser error placed in the file it was found in: its location is that of
/// the token the parser found instead of what it expected.
pub struct FileParserError<'a> {
    pub error: &'a ParserError,
    pub file: &'a FileInfo,
}

impl<'a> CompilerError for FileParserError<'a> {
    open spec fn error_msg(&self) -> Seq<char> {
        parser_error_msg(*self.error)
    }

    open spec fn error_loc(&self) -> Option<TextLoc> {
        match parser_error_found(*self.error) {
            Some(t) => Some(spec_get_loc(t.pos, *self.file)),
            None => None,
        }
    }

    fn msg(&self) -> (r: String) {
        self.error.msg()
    }

    fn loc(&self) -> (r: Option<TextLoc>) {
        match self.error.found_pos() {
            Some(p) => Some(p.get_loc(self.file)),
            None => None,
        }
    }
}

/// A parser error as shown to the user.
pub open spec fn parser_error_text(e: ParserError, file: FileInfo) -> Seq<char> {
    let loc = match parser_error_found(e) {
        Some(t) => Some(spec_get_loc(t.pos, file)),
        None => None,
    };
    error_text(loc, parser_error_msg(e))
}

/// The parser errors of a file as shown to the user, in order.
pub fn format_parser_errors(errors: &Vec<ParserError>, file: &FileInfo) -> (r: Vec<String>)
    ensures
        strings_view(r@) == errors@.map_values(|e: ParserError| parser_error_text(e, *file)),
{
    let mut out: Vec<String> = Vec::new();
    let mut i: usize = 0;
    while i < errors.len()
        invariant
            i <= errors@.len(),
            strings_view(out@) == errors@.subrange(0, i as int).map_values(|e: ParserError| parser_error_text(e, *file)),
        decreases errors@.len() - i,
    {
        let placed = FileParserError { error: &errors[i], file };
        let text = placed.format_error();
        let ghost before = out@;
        out.push(text);
        proof {
            assert(strings_view(out@) =~= strings_view(before).push(text@));
            assert(errors@.subrange(0, i + 1).map_values(|e: ParserError| parser_error_text(e, *file))
                =~= errors@.subrange(0, i as int).map_values(|e: ParserError| parser_error_text(e, *file)).push(
                parser_error_text(errors@[i as int], *file),
            ));
        }
        i += 1;
    }
    assert(errors@.subrange(0, i as int) =~= errors@);
    out
}

/// `m` is what the lexer reports on `file`: the texts of one or more lexer
/// errors, each of them a fault of the text.
pub open spec fn lexer_failure(m: Seq<Seq<char>>, file: FileInfo) -> bool {
    exists|errs: Seq<LexerError>| {
        &&& errs.len() > 0
        &&& forall|k: int| 0 <= k < errs.len() ==> error_justified(#[trigger] errs[k], file)
        &&& #[trigger] errors_text(errs) == m
    }
}

/// The parser errors of `file` as shown to the user, in order.
pub open spec fn parser_errors_text(errs: Seq<ParserError>, file: FileInfo) -> Seq<Seq<char>> {
    errs.map_values(|e: ParserError| parser_error_text(e, file))
}

/// `m` is what the parser reports on `file`: the text lexed, and `m` holds
/// the texts of one or more parser errors.
pub open spec fn parser_failure(m: Seq<Seq<char>>, file: FileInfo) -> bool {
    &&& exists|toks: Seq<Token>| lexed_from(toks, file.chars@)
    &&& exists|errs: Seq<ParserError>| errs.len() > 0 && #[trigger] parser_errors_text(errs, file) == m
}

/// The tokens of a file, or its lexer errors as shown to the user.
pub fn run_lexer(file: &FileInfo) -> (r: Result<Vec<Token>, Vec<String>>)
    requires
        file.chars@.len() < usize::MAX,
    ensures
        r matches Ok(t) ==> lexed_from(t@, file.chars@),
        r matches Err(m) ==> m@.len() > 0 && lexer_failure(strings_view(m@), *file),
{
    match lex_text(file) {
        Ok(t) => Ok(t),
        Err(e) => {
            let m = format_errors(&e);
            assert(strings_view(m@).len() == m@.len() && errors_text(e@).len() == e@.len());
            assert(errors_text(e@) == strings_view(m@));
            Err(m)
        },
    }
}

/// The syntax tree of a file, or its lexer or parser errors as shown to the user.
pub fn run_parser(file: Arc<FileInfo>) -> (r: Result<FileNode, Vec<String>>)
    requires
        file.chars@.len() < usize::MAX,
    ensures
        r matches Ok(f) ==> file_wf(f, *file),
        r matches Ok(f) ==> exists|toks: Seq<Token>, bounds: Seq<int>, end: int|
            lexed_from(toks, file.chars@) && #[trigger] file_written(
                toks,
                f,
                bounds,
                end,
            ),
        r matches Err(m) ==> m@.len() > 0,
        r matches Err(m) ==> lexer_failure(strings_view(m@), *file) || parser_failure(strings_view(m@), *file),
{
    let tokens = match run_lexer(&file) {
        Ok(t) => t,
        Err(m) => return Err(m),
    };
    match parse_file(&tokens, file.clone()) {
        Ok(Some(f)) => Ok(f),
        Ok(None) => Err(Vec::new()),
        Err(e) => {
            let m = format_parser_errors(&e, &file);
            assert(strings_view(m@).len() == m@.len());
            assert(parser_errors_text(e@, *file) == strings_view(m@));
            Err(m)
        },
    }
}

/// The single expression at the beginning of a text, or the errors found.
pub fn run_expression_parser(file: &FileInfo) -> (r: Result<Expression, Vec<String>>)
    requires
        file.chars@.len() < usize::MAX,
    ensures
        r matches Ok(e) ==> expr_wf(e),
        r matches Ok(e) ==> exists|toks: Seq<Token>, n: int| lexed_from(toks, file.chars@) && #[trigger] expr_at_start(toks, e, n),
        r matches Err(m) ==> m@.len() > 0,
        r matches Err(m) ==> lexer_failure(strings_view(m@), *file) || parser_failure(strings_view(m@), *file),
{
    let tokens = match run_lexer(file) {
        Ok(t) => t,
        Err(m) => return Err(m),
    };
    let mut reader = match TokenReader::new(tokens.as_slice(), None) {
        Some(rd) => rd,
        None => return Err(Vec::new()),
    };
    match expect_expression(&mut reader) {
        Ok(e) => {
            proof {
                assert(expr_at_start(tokens@, e, reader.pos() as int));
            }
            Ok(e)
        },
        Err(err) => {
            let placed = FileParserError { error: &err, file };
            let m = vec![placed.format_error()];
            proof {
                assert(parser_errors_text(seq![err], *file) =~= strings_view(m@));
            }
            Err(m)
        },
    }
}

/// The first `n` tokens of `toks` spell expression `e`: it records each of
/// them but separating commas.
pub open spec fn expr_at_start(toks: Seq<Token>, e: Expression, n: int) -> bool {
    0 < n <= toks.len() && expr_toks(e) == kept(toks.subrange(0, n))
}

/// The first `n` tokens of `toks` spell block `b`: it records each of them but
/// separating commas.
pub open spec fn block_at_start(toks: Seq<Token>, b: BlockStmt, n: int) -> bool {
    0 < n <= toks.len() && block_toks(b) == kept(toks.subrange(0, n))
}

/// The block at the beginning of a text, or the errors found.
pub fn run_block_parser(file: &FileInfo) -> (r: Result<BlockStmt, Vec<String>>)
    requires
        file.chars@.len() < usize::MAX,
    ensures
        r matches Ok(b) ==> block_wf(b),
        r matches Ok(b) ==> exists|toks: Seq<Token>, n: int| lexed_from(toks, file.chars@) && #[trigger] block_at_start(toks, b, n),
        r matches Err(m) ==> m@.len() > 0,
        r matches Err(m) ==> lexer_failure(strings_view(m@), *file) || parser_failure(strings_view(m@), *file),
{
    let tokens = match run_lexer(file) {
        Ok(t) => t,
        Err(m) => return Err(m),
    };
    let mut reader = match TokenReader::new(tokens.as_slice(), None) {
        Some(rd) => rd,
        None => return Err(Vec::new()),
    };
    match expect_block_stmt(&mut reader) {
        Ok(b) => {
            proof {
                assert(block_at_start(tokens@, b, reader.pos() as int));
            }
            Ok(b)
        },
        Err(err) => {
            let placed = FileParserError { error: &err, file };
            let m = vec![placed.format_error()];
            proof {
                assert(parser_errors_text(seq![err], *file) =~= strings_view(m@));
            }
            Err(m)
        },
    }
}

/// What is reported for a program that uses a construct the checker does not handle.
pub open spec fn unsupported_text() -> Seq<char> {
    "The program uses a construct that the type checker does not handle"@
}

fn unsupported_message() -> (r: String)
    ensures
        r@ == unsupported_text(),
{
    to_owned_string("The program uses a construct that the type checker does not handle")
}

/// Parses every file of a program and checks the whole program. The errors of
/// all files are reported together; checking starts only when every file parsed.
pub fn run_validator(program: &[Arc<FileInfo>]) -> (r: Result<CheckedProgram, Vec<String>>)
    requires
        forall|i: int| 0 <= i < program@.len() ==> (#[trigger] program@[i]).chars@.len() < usize::MAX,
    ensures
        r matches Ok(c) ==> has_single_main(c.funcs@, c.main),
        r matches Ok(c) ==> exists|p: Program|
            #[trigger] checks_program(p, c) && p.files@.len() == program@.len() && forall|k: int|
                0 <= k < program@.len() ==> file_wf(*(#[trigger] p.files@[k]), *program@[k]),
        r matches Err(m) ==> m@.len() > 0,
{
    let mut errors: Vec<String> = Vec::new();
    let mut files: Vec<Arc<FileNode>> = Vec::new();
    let mut i: usize = 0;
    while i < program.len()
        invariant
            i <= program@.len(),
            forall|k: int| 0 <= k < program@.len() ==> (#[trigger] program@[k]).chars@.len() < usize::MAX,
            forall|k: int| 0 <= k < files@.len() ==> decls_wf((#[trigger] files@[k]).declarations@),
            errors@.len() == 0 ==> files@.len() == i && forall|k: int| 0 <= k < i ==> file_wf(
                *(#[trigger] files@[k]),
                *program@[k],
            ),
        decreases program@.len() - i,
    {
        match run_parser(program[i].clone()) {
            Ok(f) => {
                let ghost before = files@;
                files.push(Arc::new(f));
                assert(forall|k: int| 0 <= k < before.len() ==> files@[k] == before[k]);
            },
            Err(e) => {
                assert(e@.len() > 0);
                append_all(&mut errors, e);
            },
        }
        i += 1;
    }
    if errors.len() > 0 {
        return Err(errors);
    }
    let whole = Program { files };
    assert(whole.files@.len() == program@.len());
    assert(forall|k: int| 0 <= k < program@.len() ==> file_wf(*(#[trigger] whole.files@[k]), *program@[k]));
    if !program_is_supported(&whole) {
        return Err(vec![unsupported_message()]);
    }
    match CheckedProgram::new(&whole) {
        Ok(c) => {
            assert(checks_program(whole, c) && whole.files@.len() == program@.len() && forall|k: int|
                0 <= k < program@.len() ==> file_wf(*(#[trigger] whole.files@[k]), *program@[k]));
            Ok(c)
        },
        Err(e) => {
            let m = format_errors(&e);
            assert(strings_view(m@).len() == m@.len() && errors_text(e@).len() == e@.len());
            Err(m)
        },
    }
}

/// What a compilation produced: the output of each stage that ran, in order, and
/// either the Lua text of the program or the errors that stopped it.
pub struct Compilation {
    pub tokens: Option<Vec<Token>>,
    pub program: Option<Program>,
    pub checked: Option<CheckedProgram>,
    pub lua_program: Option<LuaProgram>,
    pub result: Result<String, Vec<String>>,
}

/// `f` is a parse of `toks`: its `use` statements, declarations and end of file
/// are written as the tokens, in order.
pub open spec fn parsed_from(toks: Seq<Token>, f: FileNode) -> bool {
    exists|bounds: Seq<int>, end: int| file_written(toks, f, bounds, end)
}

/// The message for an input path without the `.rvn` extension.
pub open spec fn invalid_input_text(path: Seq<char>) -> Seq<char> {
    "Invalid input file "@ + path
}

/// The source-file description of the program to compile: its text, the path it
/// was read from, and `src` as its path relative to the source root.
pub open spec fn compiled_file(f: FileInfo, config: CompilerConfig, source: Seq<char>) -> bool {
    &&& f.chars@ == source
    &&& f.path.full_path matches Some(p) && p@ == config.input_file@
    &&& f.path.relative_path@ == "src"@
}

/// `m` is what the lexer (or, when `parsing`, the parser) reports on the
/// source file of the program to compile.
pub open spec fn source_failure(m: Seq<Seq<char>>, config: CompilerConfig, source: Seq<char>, parsing: bool) -> bool {
    exists|f: FileInfo|
        #![trigger lexer_failure(m, f)]
        #![trigger parser_failure(m, f)]
        compiled_file(f, config, source) && if parsing {
            parser_failure(m, f)
        } else {
            lexer_failure(m, f)
        }
}

/// Compiles the text of the program at `config.input_file` to Lua: the path must
/// have the `rvn` extension; then the text is split into tokens, parsed,
/// checked, and translated. Each stage runs only when the one before it
/// succeeded, and the first that fails gives the errors.
pub fn compile_program(config: &CompilerConfig, source: &str) -> (r: Compilation)
    requires
        source@.len() < usize::MAX,
    ensures
        std_path_extension(config.input_file@) != Some("rvn"@) ==> r.tokens is None && (r.result matches Err(m)
            && strings_view(m@) == seq![invalid_input_text(config.input_file@)]),
        r.tokens matches Some(t) ==> std_path_extension(config.input_file@) == Some("rvn"@) && lexed_from(t@, source@),
        std_path_extension(config.input_file@) == Some("rvn"@) && r.tokens is None ==> exists|f: FileInfo, e: LexerError|
            #[trigger] error_justified(e, f) && compiled_file(f, *config, source@),
        std_path_extension(config.input_file@) == Some("rvn"@) && r.tokens is None ==> (r.result matches Err(m)
            && source_failure(strings_view(m@), *config, source@, false)),
        r.tokens is Some && r.program is None ==> (r.result matches Err(m) && source_failure(strings_view(m@), *config, source@, true)),
        r.tokens matches Some(t) && plain_fns_from(t@, 0) ==> r.program is Some,
        r.program matches Some(p) && program_supported(p) && r.checked is None ==> (r.result matches Err(m) && exists|errs: Seq<TypeError>|
            errs.len() > 0 && #[trigger] errors_text(errs) == strings_view(m@)),
        r.program matches Some(p) && program_supported(p) && !program_collectable(p.files@, FIRST_FREE_ID) ==> r.checked is None,
        r.program matches Some(p) && program_supported(p) && program_collectable(p.files@, FIRST_FREE_ID) && program_decls_check(p)
            && single_main_decl(p) ==> r.checked is Some,
        r.program matches Some(p) ==> {
            &&& r.tokens matches Some(t) && parsed_from(t@, *p.files@[0])
            &&& p.files@.len() == 1
            &&& file_wf(*p.files@[0], *p.files@[0].info)
            &&& compiled_file(*p.files@[0].info, *config, source@)
        },
        r.checked matches Some(c) ==> r.program matches Some(p) && program_supported(p) && checks_program(p, c),
        r.lua_program matches Some(l) ==> r.checked matches Some(c) && declares_then_calls_main(c, l) && exists|
            m: Seq<(u128, usize)>,
        | #[trigger] defines_all(c, l, m),
        r.checked is Some ==> r.lua_program is Some,
        r.program matches Some(p) && !program_supported(p) ==> r.checked is None && (r.result matches Err(m)
            && strings_view(m@) == seq![unsupported_text()]),
        match r.result {
            Ok(text) => r.lua_program matches Some(l) && text@ == stmts_text(l.stmts@, 0, "\t"@),
            Err(m) => m@.len() > 0 && r.lua_program is None,
        },
{
    if !has_valid_extension(config.input_file.as_str(), "rvn") {
        let mut m = String::new();
        push_str(&mut m, "Invalid input file ");
        push_str(&mut m, config.input_file.as_str());
        let errs = vec![m];
        assert(strings_view(errs@) =~= seq![invalid_input_text(config.input_file@)]);
        return Compilation { tokens: None, program: None, checked: None, lua_program: None, result: Err(errs) };
    }
    let path = PathInfo { full_path: Some(config.input_file.clone()), relative_path: to_owned_string("src") };
    let file = Arc::new(FileInfo::new(to_owned_string(source), path));
    let tokens = match lex_text(&file) {
        Ok(t) => t,
        Err(e) => {
            let m = format_errors(&e);
            assert(strings_view(m@).len() == m@.len() && errors_text(e@).len() == e@.len());
            assert(error_justified(e@[0], *file) && compiled_file(*file, *config, source@));
            assert(errors_text(e@) == strings_view(m@));
            assert(lexer_failure(strings_view(m@), *file));
            assert(compiled_file(*file, *config, source@) && lexer_failure(strings_view(m@), *file));
            assert(source_failure(strings_view(m@), *config, source@, false));
            return Compilation { tokens: None, program: None, checked: None, lua_program: None, result: Err(m) };
        },
    };
    let node = match parse_file(&tokens, file.clone()) {
        Ok(Some(f)) => f,
        Ok(None) => {
            return Compilation { tokens: Some(tokens), program: None, checked: None, lua_program: None, result: Err(Vec::new()) };
        },
        Err(e) => {
            let m = format_parser_errors(&e, &file);
            assert(strings_view(m@).len() == m@.len());
            assert(parser_errors_text(e@, *file) == strings_view(m@));
            assert(parser_failure(strings_view(m@), *file));
            assert(compiled_file(*file, *config, source@));
            assert(source_failure(strings_view(m@), *config, source@, true));
            return Compilation { tokens: Some(tokens), program: None, checked: None, lua_program: None, result: Err(m) };
        },
    };
    let ghost node_v = node;
    let program = Program { files: vec![Arc::new(node)] };
    assert(*program.files@[0] == node_v);
    assert(parsed_from(tokens@, *program.files@[0]));
    assert(decls_wf(program.files@[0].declarations@));
    if !program_is_supported(&program) {
        let errs = vec![unsupported_message()];
        assert(strings_view(errs@) =~= seq![unsupported_text()]);
        return Compilation { tokens: Some(tokens), program: Some(program), checked: None, lua_program: None, result: Err(errs) };
    }
    let checked = match CheckedProgram::new(&program) {
        Ok(c) => c,
        Err(e) => {
            let m = format_errors(&e);
            assert(strings_view(m@).len() == m@.len() && errors_text(e@).len() == e@.len());
            assert(errors_text(e@) == strings_view(m@));
            return Compilation { tokens: Some(tokens), program: Some(program), checked: None, lua_program: None, result: Err(m) };
        },
    };
    let lua_program = transpile(&checked);
    let text = lua_program.to_string(to_owned_string("\t"));
    Compilation {
        tokens: Some(tokens),
        program: Some(program),
        checked: Some(checked),
        lua_program: Some(lua_program),
        result: Ok(text),
    }
}

} // verus!
