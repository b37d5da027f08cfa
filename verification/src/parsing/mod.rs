pub mod ast;
pub mod token_reader;
pub mod syntax;
pub mod type_parsing;
pub mod expr_parsing;
pub mod stmt_parsing;

use vstd::prelude::*;
use std::sync::Arc;
use crate::lexing::token::{Token, TokenType, token_text, token_type_name};
use crate::utils::TextPos;
use crate::text::push_str;
use ast::join_texts;
use crate::utils::{FileInfo, strings_view, spec_split_relative};
use ast::{UseStmt, FileNode, Declaration};
use syntax::{tokens_valued, token_valued, decl_wf, decl_toks, kept, lemma_kept_split};
use token_reader::TokenReader;
use stmt_parsing::{parse_use_stmt, parse_declaration, use_written, plain_fns_from, plain_fn_in, plain_fn_end};

verus! {

/// What the parser expected and did not find, with the token it found instead.
#[derive(Debug, Clone)]
pub enum ParserError {
    ExpectedExpression(Option<Token>),
    ExpectedType(Option<Token>),
    ExpectedToken(TokenType, Option<Token>),
    ExpectedTokens(Vec<TokenType>, Option<Token>),
    ExpectedALambdaParameter(Option<Token>),
    ExpectedALambdaBody(Option<Token>),
    ExpectedStatement(Option<Token>),
    ExpectedBlock(Option<Token>),
    ExpectedDeclaration(Option<Token>),
}

pub type ParserResult<T> = Result<T, ParserError>;

/// A token kind's name in double quotes.
pub open spec fn quoted_type_name(t: TokenType) -> Seq<char> {
    "\""@ + token_type_name(t) + "\""@
}

/// What a parser error says.
pub open spec fn parser_error_msg(e: ParserError) -> Seq<char> {
    match e {
        ParserError::ExpectedExpression(_) => "Expected an expression"@,
        ParserError::ExpectedType(_) => "Expected a type"@,
        ParserError::ExpectedToken(t, _) => "Expected token "@ + token_type_name(t) + " "@,
        ParserError::ExpectedTokens(ts, _) => "Expected one of token ["@ + join_texts(
            ts@.map_values(|t: TokenType| quoted_type_name(t)),
            ", "@,
        ) + "] "@,
        ParserError::ExpectedALambdaParameter(_) => "Expected a lambda parameter"@,
        ParserError::ExpectedALambdaBody(_) => "Expected a lambda body"@,
        ParserError::ExpectedStatement(_) => "Expected a statement"@,
        ParserError::ExpectedBlock(_) => "Expected a block expression"@,
        ParserError::ExpectedDeclaration(_) => "Expected a declaration"@,
    }
}

/// The token the parser found where it expected something else.
pub open spec fn parser_error_found(e: ParserError) -> Option<Token> {
    match e {
        ParserError::ExpectedExpression(t) => t,
        ParserError::ExpectedType(t) => t,
        ParserError::ExpectedToken(_, t) => t,
        ParserError::ExpectedTokens(_, t) => t,
        ParserError::ExpectedALambdaParameter(t) => t,
        ParserError::ExpectedALambdaBody(t) => t,
        ParserError::ExpectedStatement(t) => t,
        ParserError::ExpectedBlock(t) => t,
        ParserError::ExpectedDeclaration(t) => t,
    }
}

impl ParserError {
    /// What the error says.
    pub fn msg(&self) -> (r: String)
        ensures
            r@ == parser_error_msg(*self),
    {
        let mut out = String::new();
        match self {
            ParserError::ExpectedExpression(_) => push_str(&mut out, "Expected an expression"),
            ParserError::ExpectedType(_) => push_str(&mut out, "Expected a type"),
            ParserError::ExpectedToken(t, _) => {
                push_str(&mut out, "Expected token ");
                push_str(&mut out, t.name());
                push_str(&mut out, " ");
            },
            ParserError::ExpectedTokens(ts, _) => {
                let mut names: Vec<String> = Vec::new();
                let mut i: usize = 0;
                while i < ts.len()
                    invariant
                        i <= ts@.len(),
                        strings_view(names@) == ts@.subrange(0, i as int).map_values(|t: TokenType| quoted_type_name(t)),
                    decreases ts@.len() - i,
                {
                    let mut q = String::new();
                    push_str(&mut q, "\"");
                    push_str(&mut q, ts[i].name());
                    push_str(&mut q, "\"");
                    let ghost before = names@;
                    names.push(q);
                    proof {
                        assert(strings_view(names@) =~= strings_view(before).push(q@));
                        assert(ts@.subrange(0, i + 1).map_values(|t: TokenType| quoted_type_name(t)) =~= ts@.subrange(
                            0,
                            i as int,
                        ).map_values(|t: TokenType| quoted_type_name(t)).push(quoted_type_name(ts@[i as int])));
                    }
                    i += 1;
                }
                assert(ts@.subrange(0, i as int) =~= ts@);
                let joined = crate::text::join_strings(&names, ", ");
                push_str(&mut out, "Expected one of token [");
                push_str(&mut out, joined.as_str());
                push_str(&mut out, "] ");
            },
            ParserError::ExpectedALambdaParameter(_) => push_str(&mut out, "Expected a lambda parameter"),
            ParserError::ExpectedALambdaBody(_) => push_str(&mut out, "Expected a lambda body"),
            ParserError::ExpectedStatement(_) => push_str(&mut out, "Expected a statement"),
            ParserError::ExpectedBlock(_) => push_str(&mut out, "Expected a block expression"),
            ParserError::ExpectedDeclaration(_) => push_str(&mut out, "Expected a declaration"),
        }
        out
    }

    /// Where the token the parser found begins and ends, if it found one.
    pub fn found_pos(&self) -> (r: Option<TextPos>)
        ensures
            r == (match parser_error_found(*self) {
                Some(t) => Some(t.pos),
                None => None::<TextPos>,
            }),
    {
        let found = match self {
            ParserError::ExpectedExpression(t) => t,
            ParserError::ExpectedType(t) => t,
            ParserError::ExpectedToken(_, t) => t,
            ParserError::ExpectedTokens(_, t) => t,
            ParserError::ExpectedALambdaParameter(t) => t,
            ParserError::ExpectedALambdaBody(t) => t,
            ParserError::ExpectedStatement(t) => t,
            ParserError::ExpectedBlock(t) => t,
            ParserError::ExpectedDeclaration(t) => t,
        };
        match found {
            Some(t) => Some(t.pos),
            None => None,
        }
    }
}

/// The texts of the names a `use` statement lists.
pub open spec fn id_texts(ids: Seq<Token>) -> Seq<Seq<char>> {
    ids.map_values(|t: Token| match token_text(t) {
        Some(s) => s,
        None => Seq::<char>::empty(),
    })
}

/// The paths a file can refer to, each as a sequence of names.
pub open spec fn paths_view(f: FileNode) -> Seq<Seq<Seq<char>>> {
    f.using_paths@.map_values(|p: Vec<String>| strings_view(p@))
}

/// A `use` statement as the grammar builds it: at least one name, each a valued identifier.
pub open spec fn use_wf(u: UseStmt) -> bool {
    &&& u.ids@.len() > 0
    &&& forall|i: int| 0 <= i < u.ids@.len() ==> (#[trigger] u.ids@[i]).token_type
        == TokenType::Identifier && token_valued(u.ids@[i])
}

/// What a parsed file holds: well-formed `use` statements and declarations, the
/// end-of-file token, and the paths the file may refer to: those of its `use`
/// statements in order, then the empty path, then the file's own module path.
pub open spec fn file_wf(f: FileNode, file: FileInfo) -> bool {
    let n = f.usings@.len() as int;
    &&& *f.info == file
    &&& f.eof.token_type == TokenType::EOF
    &&& forall|i: int| 0 <= i < n ==> use_wf(#[trigger] f.usings@[i])
    &&& forall|i: int| 0 <= i < f.declarations@.len() ==> decl_wf(#[trigger] f.declarations@[i])
    &&& f.using_paths@.len() == n + 2
    &&& forall|i: int| 0 <= i < n ==> strings_view((#[trigger] f.using_paths@[i])@) == id_texts(
        f.usings@[i].ids@,
    )
    &&& f.using_paths@[n]@.len() == 0
    &&& strings_view(f.using_paths@[n + 1]@) == spec_split_relative(file.path.relative_path@)
}

/// The path a `use` statement names, as a list of strings.
fn use_path(u: &UseStmt) -> (r: Vec<String>)
    requires
        use_wf(*u),
    ensures
        strings_view(r@) == id_texts(u.ids@),
{
    let mut path: Vec<String> = Vec::new();
    let mut i: usize = 0;
    while i < u.ids.len()
        invariant
            use_wf(*u),
            i <= u.ids@.len(),
            strings_view(path@) == id_texts(u.ids@.subrange(0, i as int)),
        decreases u.ids@.len() - i,
    {
        let id = &u.ids[i];
        assert(token_valued(u.ids@[i as int]));
        let text = id.value_string().unwrap().clone();
        let ghost before = path@;
        path.push(text);
        proof {
            assert(path@ == before.push(text));
            assert(strings_view(path@) =~= strings_view(before).push(text@));
            assert(u.ids@.subrange(0, i + 1) =~= u.ids@.subrange(0, i as int).push(u.ids@[i as int]));
        }
        i += 1;
        assert(strings_view(path@) =~= id_texts(u.ids@.subrange(0, i as int)));
    }
    assert(u.ids@.subrange(0, i as int) =~= u.ids@);
    path
}

/// The item that a parse gave, or the error that `error` builds from the token at the reader.
pub fn expect_ast_item<R, E: Fn(Option<Token>) -> ParserError>(found: Option<R>, reader: &TokenReader, error: E) -> (r: ParserResult<R>)
    requires
        forall|t: Option<Token>| call_requires(error, (t,)),
    ensures
        found matches Some(x) ==> r == Ok::<R, ParserError>(x),
        found is None ==> (r matches Err(e) && call_ensures(error, (reader.cur_tok(),), e)),
{
    match found {
        Some(x) => Ok(x),
        None => Err(error(reader.current())),
    }
}

/// The tokens of a list of declarations, one after the other.
pub open spec fn decls_toks(ds: Seq<Declaration>) -> Seq<Token>
    decreases ds.len(),
{
    if ds.len() == 0 {
        Seq::empty()
    } else {
        decls_toks(ds.drop_last()) + decl_toks(ds.last())
    }
}

/// `f` is the file written as `toks`: its `use` statements one after the other
/// from the start (the `k`-th as `toks[bounds[k]..bounds[k + 1]]`), then its
/// declarations, which record every token up to the end-of-file token at `end`
/// except separating commas.
pub open spec fn file_written(toks: Seq<Token>, f: FileNode, bounds: Seq<int>, end: int) -> bool {
    &&& bounds.len() == f.usings@.len() + 1
    &&& bounds[0] == 0
    &&& 0 <= bounds.last() <= end < toks.len()
    &&& forall|k: int| 0 <= k < f.usings@.len() ==> use_written(toks, bounds[k], bounds[k + 1], #[trigger] f.usings@[k])
    &&& decls_toks(f.declarations@) == kept(toks.subrange(bounds.last(), end))
    &&& f.eof == toks[end]
}

/// Parses the tokens of a file: its `use` statements, then its declarations, then
/// the end of file. Every error is collected: after one, parsing resumes at the
/// next token that can start a statement of the same part.
pub fn parse_file(tokens: &Vec<Token>, file: Arc<FileInfo>) -> (r: Result<Option<FileNode>, Vec<ParserError>>)
    requires
        tokens_valued(tokens@),
    ensures
        !(r matches Ok(None)),
        r matches Err(errs) ==> errs@.len() > 0,
        r matches Ok(Some(f)) ==> file_wf(f, *file),
        r matches Ok(Some(f)) ==> exists|bounds: Seq<int>, end: int| file_written(tokens@, f, bounds, end),
        plain_fns_from(tokens@, 0) ==> (r matches Ok(Some(f)) && f.usings@.len() == 0),
{
    let ghost simple = plain_fns_from(tokens@, 0);
    let mut reader = match TokenReader::new(tokens.as_slice(), None) {
        Some(rd) => rd,
        None => return Err(vec![ParserError::ExpectedToken(TokenType::EOF, None)]),
    };
    let mut usings: Vec<UseStmt> = Vec::new();
    let mut declarations: Vec<Declaration> = Vec::new();
    let mut errors: Vec<ParserError> = Vec::new();
    let ghost mut bounds: Seq<int> = seq![0int];
    loop
        invariant
            reader.toks() == tokens@,
            tokens_valued(tokens@),
            forall|i: int| 0 <= i < usings@.len() ==> use_wf(#[trigger] usings@[i]),
            0 <= reader.pos() <= tokens@.len(),
            simple == plain_fns_from(tokens@, 0),
            simple ==> errors@.len() == 0 && reader.pos() == 0 && usings@.len() == 0,
            errors@.len() == 0 ==> {
                &&& bounds.len() == usings@.len() + 1
                &&& bounds[0] == 0
                &&& bounds.last() == reader.pos()
                &&& forall|k: int| 0 <= k < usings@.len() ==> use_written(
                    tokens@,
                    bounds[k],
                    bounds[k + 1],
                    #[trigger] usings@[k],
                )
            },
        decreases reader.remaining(),
    {
        let ghost before = reader.pos();
        proof {
            if simple {
                assert(tokens@[0].token_type == TokenType::EOF || plain_fn_in(tokens@, 0));
            }
        }
        match parse_use_stmt(&mut reader) {
            Ok(Some(u)) => {
                let ghost old_usings = usings@;
                usings.push(u);
                proof {
                    if errors@.len() == 0 {
                        let old_bounds = bounds;
                        bounds = bounds.push(reader.pos() as int);
                        assert forall|k: int| 0 <= k < usings@.len() implies use_written(
                            tokens@,
                            bounds[k],
                            bounds[k + 1],
                            #[trigger] usings@[k],
                        ) by {
                            if k < old_usings.len() {
                                assert(usings@[k] == old_usings[k]);
                                assert(bounds[k] == old_bounds[k] && bounds[k + 1] == old_bounds[k + 1]);
                            }
                        }
                    }
                }
            },
            Ok(None) => break,
            Err(err) => {
                errors.push(err);
                reader.synchronize(
                    &[
                        TokenType::EOF,
                        TokenType::Pub,
                        TokenType::Use,
                        TokenType::Const,
                        TokenType::Fn,
                        TokenType::Struct,
                    ],
                );
            },
        }
    }
    let ghost dstart = reader.pos() as int;
    loop
        invariant
            reader.toks() == tokens@,
            tokens_valued(tokens@),
            forall|i: int| 0 <= i < declarations@.len() ==> decl_wf(#[trigger] declarations@[i]),
            0 <= dstart <= reader.pos(),
            simple == plain_fns_from(tokens@, 0),
            simple ==> errors@.len() == 0 && plain_fns_from(tokens@, reader.pos() as int) && usings@.len() == 0,
            errors@.len() == 0 ==> {
                &&& bounds.len() == usings@.len() + 1
                &&& bounds[0] == 0
                &&& bounds.last() == dstart
                &&& forall|k: int| 0 <= k < usings@.len() ==> use_written(
                    tokens@,
                    bounds[k],
                    bounds[k + 1],
                    #[trigger] usings@[k],
                )
                &&& decls_toks(declarations@) == kept(tokens@.subrange(dstart, reader.pos() as int))
            },
        ensures
            simple ==> 0 <= reader.pos() < tokens@.len() && tokens@[reader.pos() as int].token_type == TokenType::EOF,
        decreases reader.remaining(),
    {
        let ghost before = reader.pos() as int;
        proof {
            if simple {
                assert(tokens@[before].token_type == TokenType::EOF || plain_fn_in(tokens@, before));
                if tokens@[before].token_type != TokenType::EOF {
                    assert(plain_fns_from(tokens@, plain_fn_end(tokens@, before)));
                }
            }
        }
        match parse_declaration(&mut reader) {
            Ok(Some(d)) => {
                let ghost old_decls = declarations@;
                declarations.push(d);
                proof {
                    if errors@.len() == 0 {
                        assert(declarations@.drop_last() =~= old_decls);
                        lemma_kept_split(tokens@, dstart, before, reader.pos() as int);
                    }
                }
            },
            Ok(None) => {
                proof {
                    if simple {
                        assert(tokens@[before].token_type == TokenType::EOF);
                    }
                }
                break;
            },
            Err(err) => {
                errors.push(err);
                reader.synchronize(
                    &[TokenType::EOF, TokenType::Pub, TokenType::Const, TokenType::Fn, TokenType::Struct],
                );
            },
        }
    }
    let ghost end = reader.pos() as int;
    proof {
        if simple {
            assert(tokens@[end].token_type == TokenType::EOF || plain_fn_in(tokens@, end));
        }
    }
    let eof = match reader.expect(TokenType::EOF) {
        Ok(t) => t,
        Err(err) => {
            errors.push(err);
            return Err(errors);
        },
    };
    if errors.len() > 0 {
        return Err(errors);
    }
    let mut using_paths: Vec<Vec<String>> = Vec::new();
    let mut i: usize = 0;
    while i < usings.len()
        invariant
            i <= usings@.len(),
            using_paths@.len() == i,
            forall|j: int| 0 <= j < usings@.len() ==> use_wf(#[trigger] usings@[j]),
            forall|j: int| 0 <= j < i ==> strings_view((#[trigger] using_paths@[j])@) == id_texts(
                usings@[j].ids@,
            ),
        decreases usings@.len() - i,
    {
        let p = use_path(&usings[i]);
        using_paths.push(p);
        i += 1;
    }
    using_paths.push(Vec::new());
    let own_path = file.path.split_relative();
    using_paths.push(own_path);
    let f = FileNode { usings, using_paths, declarations, eof, info: file };
    assert(file_written(tokens@, f, bounds, end));
    Ok(Some(f))
}

} // verus!
