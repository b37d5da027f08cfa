use vstd::prelude::*;
use crate::text::{push_str, push_char, join_strings, append_i64, int_digits};
use crate::parsing::ast::join_texts;
use crate::utils::strings_view;
use crate::lexing::token::{TokenType, keyword_spelling};
use crate::validation::operators::{BinaryOpType, UnaryOpType, binary_symbol, unary_symbol};

verus! {

/// The binary operators of Lua that the output uses.
#[derive(Debug, Clone, Copy, PartialEq, Eq, Structural)]
pub enum LuaBinaryOp {
    Add,
    Sub,
    Mul,
    Div,
    Mod,
    Pow,
    FloorDiv,
    Eq,
    NoEq,
    Gr,
    Lt,
    GtEq,
    LtEq,
    Concat,
    And,
    Or,
}

pub open spec fn lua_binary_of(op: BinaryOpType) -> LuaBinaryOp {
    match op {
        BinaryOpType::Plus => LuaBinaryOp::Add,
        BinaryOpType::Minus => LuaBinaryOp::Sub,
        BinaryOpType::Multiply => LuaBinaryOp::Mul,
        BinaryOpType::Divide => LuaBinaryOp::Div,
        BinaryOpType::Modulus => LuaBinaryOp::Mod,
        BinaryOpType::Equal => LuaBinaryOp::Eq,
        BinaryOpType::NotEqual => LuaBinaryOp::NoEq,
        BinaryOpType::GreaterThan => LuaBinaryOp::Gr,
        BinaryOpType::LessThan => LuaBinaryOp::Lt,
        BinaryOpType::GreaterThanEqual => LuaBinaryOp::GtEq,
        BinaryOpType::LessThanEqual => LuaBinaryOp::LtEq,
        BinaryOpType::And => LuaBinaryOp::And,
        BinaryOpType::Or => LuaBinaryOp::Or,
    }
}

pub open spec fn lua_binary_text(op: LuaBinaryOp) -> Seq<char> {
    match op {
        LuaBinaryOp::Add => "+"@,
        LuaBinaryOp::Sub => "-"@,
        LuaBinaryOp::Mul => "*"@,
        LuaBinaryOp::Div => "/"@,
        LuaBinaryOp::Mod => "%"@,
        LuaBinaryOp::Pow => "^"@,
        LuaBinaryOp::FloorDiv => "//"@,
        LuaBinaryOp::Eq => "=="@,
        LuaBinaryOp::NoEq => "~="@,
        LuaBinaryOp::Gr => ">"@,
        LuaBinaryOp::Lt => "<"@,
        LuaBinaryOp::GtEq => ">="@,
        LuaBinaryOp::LtEq => "<="@,
        LuaBinaryOp::Concat => ".."@,
        LuaBinaryOp::And => "and"@,
        LuaBinaryOp::Or => "or"@,
    }
}

impl LuaBinaryOp {
    pub fn from_op(op: BinaryOpType) -> (r: Self)
        ensures
            r == lua_binary_of(op),
    {
        match op {
            BinaryOpType::Plus => LuaBinaryOp::Add,
            BinaryOpType::Minus => LuaBinaryOp::Sub,
            BinaryOpType::Multiply => LuaBinaryOp::Mul,
            BinaryOpType::Divide => LuaBinaryOp::Div,
            BinaryOpType::Modulus => LuaBinaryOp::Mod,
            BinaryOpType::Equal => LuaBinaryOp::Eq,
            BinaryOpType::NotEqual => LuaBinaryOp::NoEq,
            BinaryOpType::GreaterThan => LuaBinaryOp::Gr,
            BinaryOpType::LessThan => LuaBinaryOp::Lt,
            BinaryOpType::GreaterThanEqual => LuaBinaryOp::GtEq,
            BinaryOpType::LessThanEqual => LuaBinaryOp::LtEq,
            BinaryOpType::And => LuaBinaryOp::And,
            BinaryOpType::Or => LuaBinaryOp::Or,
        }
    }

    pub fn text(&self) -> (r: &'static str)
        ensures
            r@ == lua_binary_text(*self),
    {
        match self {
            LuaBinaryOp::Add => "+",
            LuaBinaryOp::Sub => "-",
            LuaBinaryOp::Mul => "*",
            LuaBinaryOp::Div => "/",
            LuaBinaryOp::Mod => "%",
            LuaBinaryOp::Pow => "^",
            LuaBinaryOp::FloorDiv => "//",
            LuaBinaryOp::Eq => "==",
            LuaBinaryOp::NoEq => "~=",
            LuaBinaryOp::Gr => ">",
            LuaBinaryOp::Lt => "<",
            LuaBinaryOp::GtEq => ">=",
            LuaBinaryOp::LtEq => "<=",
            LuaBinaryOp::Concat => "..",
            LuaBinaryOp::And => "and",
            LuaBinaryOp::Or => "or",
        }
    }
}

/// How Lua writes an operator that the source language writes as `s`: the
/// same way, but `!=` as `~=`, `&&` as `and`, `||` as `or` and `!` as `not `.
pub open spec fn lua_spelling(s: Seq<char>) -> Seq<char> {
    if s == "!="@ {
        "~="@
    } else if s == "&&"@ {
        "and"@
    } else if s == "||"@ {
        "or"@
    } else if s == "!"@ {
        "not "@
    } else {
        s
    }
}

/// Each binary operator is translated to the Lua operator of the same
/// meaning: the Lua text of its translation is how Lua writes the operator
/// (`<=` stays `<=`, `!=` becomes `~=`, ...).
pub proof fn lemma_lua_binary_meaning(op: BinaryOpType)
    ensures
        lua_binary_text(lua_binary_of(op)) == lua_spelling(binary_symbol(op)),
{
    reveal_strlit("+");
    reveal_strlit("-");
    reveal_strlit("*");
    reveal_strlit("/");
    reveal_strlit("%");
    reveal_strlit("^");
    reveal_strlit("//");
    reveal_strlit("==");
    reveal_strlit("~=");
    reveal_strlit(">");
    reveal_strlit("<");
    reveal_strlit(">=");
    reveal_strlit("<=");
    reveal_strlit("..");
    reveal_strlit("and");
    reveal_strlit("or");
    reveal_strlit("!=");
    reveal_strlit("&&");
    reveal_strlit("||");
    reveal_strlit("!");
    let s = binary_symbol(op);
    if s != "!="@ && s != "&&"@ && s != "||"@ && s != "!"@ {
        assert(lua_binary_text(lua_binary_of(op)) =~= s);
    } else {
        assert(s[0] == '!' || s[0] == '&' || s[0] == '|');
    }
}

/// Distinct Lua operators are printed differently.
pub proof fn lemma_lua_binary_text_injective(a: LuaBinaryOp, b: LuaBinaryOp)
    ensures
        lua_binary_text(a) == lua_binary_text(b) ==> a == b,
{
    reveal_strlit("+");
    reveal_strlit("-");
    reveal_strlit("*");
    reveal_strlit("/");
    reveal_strlit("%");
    reveal_strlit("^");
    reveal_strlit("//");
    reveal_strlit("==");
    reveal_strlit("~=");
    reveal_strlit(">");
    reveal_strlit("<");
    reveal_strlit(">=");
    reveal_strlit("<=");
    reveal_strlit("..");
    reveal_strlit("and");
    reveal_strlit("or");
    reveal_strlit("!=");
    reveal_strlit("&&");
    reveal_strlit("||");
    if lua_binary_text(a) == lua_binary_text(b) {
        let s = lua_binary_text(a);
        assert(s[0] == lua_binary_text(b)[0]);
        assert(s.len() == lua_binary_text(b).len());
        if s.len() >= 2 {
            assert(s[1] == lua_binary_text(b)[1]);
        }
    }
}

/// Distinct operators are translated to distinct Lua operators.
pub proof fn lemma_lua_binary_of_injective(a: BinaryOpType, b: BinaryOpType)
    ensures
        lua_binary_of(a) == lua_binary_of(b) ==> a == b,
{
}

/// The prefix operators of Lua that the output uses.
#[derive(Debug, Clone, Copy, PartialEq, Eq, Structural)]
pub enum LuaUnaryOp {
    Not,
    Len,
    Neg,
}

pub open spec fn lua_unary_of(op: UnaryOpType) -> LuaUnaryOp {
    match op {
        UnaryOpType::Negate => LuaUnaryOp::Neg,
        UnaryOpType::Invert => LuaUnaryOp::Not,
    }
}

pub open spec fn lua_unary_text(op: LuaUnaryOp) -> Seq<char> {
    match op {
        LuaUnaryOp::Not => "not "@,
        LuaUnaryOp::Len => "#"@,
        LuaUnaryOp::Neg => "-"@,
    }
}

impl LuaUnaryOp {
    pub fn from_op(op: UnaryOpType) -> (r: Self)
        ensures
            r == lua_unary_of(op),
    {
        match op {
            UnaryOpType::Negate => LuaUnaryOp::Neg,
            UnaryOpType::Invert => LuaUnaryOp::Not,
        }
    }

    pub fn text(&self) -> (r: &'static str)
        ensures
            r@ == lua_unary_text(*self),
    {
        match self {
            LuaUnaryOp::Not => "not ",
            LuaUnaryOp::Len => "#",
            LuaUnaryOp::Neg => "-",
        }
    }
}

/// Each prefix operator is translated to the Lua operator of the same meaning:
/// `-` stays `-`, `!` becomes `not `.
pub proof fn lemma_lua_unary_meaning(op: UnaryOpType)
    ensures
        lua_unary_text(lua_unary_of(op)) == lua_spelling(unary_symbol(op)),
{
    reveal_strlit("-");
    reveal_strlit("!");
    reveal_strlit("not ");
    reveal_strlit("!=");
    reveal_strlit("&&");
    reveal_strlit("||");
    let s = unary_symbol(op);
    if s == "!"@ {
        assert(s != "!="@ && s != "&&"@ && s != "||"@) by {
            assert(s.len() == 1);
        }
        assert(op == UnaryOpType::Invert) by {
            if op == UnaryOpType::Negate {
                assert(s[0] == '-');
            }
        }
    } else {
        assert(s[0] == '-');
        assert(s != "!="@ && s != "&&"@ && s != "||"@ && s != "!"@) by {
            assert("!"@[0] == '!');
        }
        assert(lua_unary_text(lua_unary_of(op)) =~= s);
    }
}

/// A literal of Lua: a string (as it is written, with its quotes), a number, a
/// boolean or `nil`. Whole numbers are integers; other numbers keep their text.
#[derive(Debug)]
pub enum LuaLit {
    String(String),
    Int(i64),
    Float(String),
    True,
    False,
    Nil,
}

pub open spec fn lit_text(l: LuaLit) -> Seq<char> {
    match l {
        LuaLit::String(s) => s@,
        LuaLit::Int(n) => int_digits(n as int),
        LuaLit::Float(s) => s@,
        LuaLit::True => "true"@,
        LuaLit::False => "false"@,
        LuaLit::Nil => "nil"@,
    }
}

/// Lua writes the boolean literals as the source language does: the Lua
/// text of a boolean is the spelling of the source keyword for it.
pub proof fn lemma_bool_lit_spelled(b: bool)
    ensures
        lit_text(if b { LuaLit::True } else { LuaLit::False }) == keyword_spelling(
            if b { TokenType::True } else { TokenType::False },
        )->0,
{
}

impl LuaLit {
    pub fn to_text(&self) -> (r: String)
        ensures
            r@ == lit_text(*self),
    {
        let mut out = String::new();
        match self {
            LuaLit::String(s) => push_str(&mut out, s.as_str()),
            LuaLit::Int(n) => append_i64(&mut out, *n),
            LuaLit::Float(s) => push_str(&mut out, s.as_str()),
            LuaLit::True => push_str(&mut out, "true"),
            LuaLit::False => push_str(&mut out, "false"),
            LuaLit::Nil => push_str(&mut out, "nil"),
        }
        assert(out@ =~= lit_text(*self));
        out
    }
}

/// How statements are laid out: the current depth and the text of one level.
pub struct LuaFormatArgs {
    pub indent: usize,
    pub tab: String,
}

/// `s` written `n` times.
pub open spec fn repeat(s: Seq<char>, n: nat) -> Seq<char>
    decreases n,
{
    if n == 0 {
        Seq::empty()
    } else {
        repeat(s, (n - 1) as nat) + s
    }
}

/// One level deeper, without passing the largest depth.
pub open spec fn deeper(n: usize) -> usize {
    if n < usize::MAX {
        (n + 1) as usize
    } else {
        n
    }
}

impl LuaFormatArgs {
    /// The indentation of the current depth: the tab text, `indent` times.
    pub fn get_tab(&self) -> (r: String)
        ensures
            r@ == repeat(self.tab@, self.indent as nat),
    {
        let mut out = String::new();
        let mut i: usize = 0;
        while i < self.indent
            invariant
                i <= self.indent,
                out@ == repeat(self.tab@, i as nat),
            decreases self.indent - i,
        {
            push_str(&mut out, self.tab.as_str());
            i += 1;
        }
        out
    }
}

/// An expression of Lua.
#[derive(Debug)]
pub enum LuaExpr {
    Id(String),
    Literal(LuaLit),
    Binary { left: Box<LuaExpr>, op: LuaBinaryOp, right: Box<LuaExpr> },
    Unary { expr: Box<LuaExpr>, op: LuaUnaryOp },
    Index { expr: Box<LuaExpr>, arg: Box<LuaExpr> },
    Access { expr: Box<LuaExpr>, name: String },
    Call { expr: Box<LuaExpr>, args: Vec<LuaExpr> },
    FuncDef { args: Vec<String>, body: Vec<LuaStmt> },
    Table { members: Vec<(String, LuaExpr)> },
    Array(Vec<LuaExpr>),
    Group(Box<LuaExpr>),
}

/// A statement of Lua.
#[derive(Debug)]
pub enum LuaStmt {
    Block { stmts: Vec<LuaStmt> },
    Call { expr: Box<LuaExpr>, args: Vec<LuaExpr> },
    Assign { pairs: Vec<(String, Box<LuaExpr>)> },
    AssignExpr { assigned: Box<LuaExpr>, value: Box<LuaExpr> },
    LocalDecl { pairs: Vec<(String, Box<LuaExpr>)> },
    While { cond: Box<LuaExpr>, stmts: Vec<LuaStmt> },
    FuncDef { name: String, args: Vec<String>, body: Vec<LuaStmt> },
    Label(String),
    Goto { label: String },
    Return(Option<Box<LuaExpr>>),
    Break,
    Spacer,
    Comment(String),
    If { condition: Box<LuaExpr>, body: Vec<LuaStmt>, else_body: Option<Vec<LuaStmt>> },
}

/// The text of an expression at depth `n` (the depth matters inside functions and tables).
pub open spec fn expr_text(e: LuaExpr, n: usize, tab: Seq<char>) -> Seq<char>
    decreases e,
{
    match e {
        LuaExpr::Id(id) => id@,
        LuaExpr::Literal(l) => lit_text(l),
        LuaExpr::Binary { left, op, right } => "("@ + expr_text(*left, n, tab) + " "@ + lua_binary_text(op) + " "@
            + expr_text(*right, n, tab) + ")"@,
        LuaExpr::Unary { expr, op } => "("@ + lua_unary_text(op) + expr_text(*expr, n, tab) + ")"@,
        LuaExpr::Index { expr, arg } => expr_text(*expr, n, tab) + "["@ + expr_text(*arg, n, tab) + "]"@,
        LuaExpr::Call { expr, args } => expr_text(*expr, n, tab) + "("@ + join_texts(exprs_text(args@, n, tab), ", "@)
            + ")"@,
        LuaExpr::FuncDef { args, body } => "function("@ + join_texts(strings_view(args@), ", "@) + ")\n"@ + stmts_text(
            body@,
            deeper(n),
            tab,
        ) + repeat(tab, n as nat) + "end"@,
        LuaExpr::Table { members } => "{\n"@ + members_text(members@, deeper(n), tab) + repeat(tab, n as nat) + "}"@,
        LuaExpr::Array(values) => "{ "@ + join_texts(exprs_text(values@, n, tab), ", "@) + " }"@,
        LuaExpr::Access { expr, name } => expr_text(*expr, n, tab) + "."@ + name@,
        LuaExpr::Group(g) => "("@ + expr_text(*g, n, tab) + ")"@,
    }
}

pub open spec fn exprs_text(es: Seq<LuaExpr>, n: usize, tab: Seq<char>) -> Seq<Seq<char>>
    decreases es,
{
    if es.len() == 0 {
        Seq::empty()
    } else {
        exprs_text(es.drop_last(), n, tab).push(expr_text(es.last(), n, tab))
    }
}

pub open spec fn boxed_texts(es: Seq<(String, Box<LuaExpr>)>, n: usize, tab: Seq<char>) -> Seq<Seq<char>>
    decreases es,
{
    if es.len() == 0 {
        Seq::empty()
    } else {
        boxed_texts(es.drop_last(), n, tab).push(expr_text(*es.last().1, n, tab))
    }
}

pub open spec fn pair_names(ps: Seq<(String, Box<LuaExpr>)>) -> Seq<Seq<char>> {
    ps.map_values(|p: (String, Box<LuaExpr>)| p.0@)
}

/// The members of a table, one per line at depth `n`.
pub open spec fn members_text(ms: Seq<(String, LuaExpr)>, n: usize, tab: Seq<char>) -> Seq<char>
    decreases ms,
{
    if ms.len() == 0 {
        Seq::empty()
    } else {
        members_text(ms.drop_last(), n, tab) + repeat(tab, n as nat) + ms.last().0@ + " = "@ + expr_text(
            ms.last().1,
            n,
            tab,
        ) + ",\n"@
    }
}

/// The lines of a text, split at each newline.
pub open spec fn split_lines(s: Seq<char>) -> Seq<Seq<char>>
    decreases s.len(),
{
    if s.len() == 0 {
        seq![Seq::empty()]
    } else {
        let rest = split_lines(s.drop_last());
        if s.last() == '\n' {
            rest.push(Seq::empty())
        } else {
            rest.update(rest.len() - 1, rest.last().push(s.last()))
        }
    }
}

/// Each line of a comment, as a Lua comment at depth `n`.
pub open spec fn comment_text(lines: Seq<Seq<char>>, n: usize, tab: Seq<char>) -> Seq<char>
    decreases lines.len(),
{
    if lines.len() == 0 {
        Seq::empty()
    } else {
        comment_text(lines.drop_last(), n, tab) + repeat(tab, n as nat) + "-- "@ + lines.last() + "\n"@
    }
}

/// The text of a statement at depth `n`, ending with a newline.
pub open spec fn stmt_text(s: LuaStmt, n: usize, tab: Seq<char>) -> Seq<char>
    decreases s,
{
    let t = repeat(tab, n as nat);
    match s {
        LuaStmt::Block { stmts } => t + "do\n"@ + stmts_text(stmts@, deeper(n), tab) + t + "end\n"@,
        LuaStmt::Assign { pairs } => t + join_texts(pair_names(pairs@), ", "@) + " = "@ + join_texts(
            boxed_texts(pairs@, n, tab),
            ", "@,
        ) + "\n"@,
        LuaStmt::AssignExpr { assigned, value } => t + expr_text(*assigned, n, tab) + " = "@ + expr_text(*value, n, tab)
            + "\n"@,
        LuaStmt::LocalDecl { pairs } => t + "local "@ + join_texts(pair_names(pairs@), ", "@) + " = "@ + join_texts(
            boxed_texts(pairs@, n, tab),
            ", "@,
        ) + "\n"@,
        LuaStmt::While { cond, stmts } => t + "while "@ + expr_text(*cond, n, tab) + " do\n"@ + stmts_text(
            stmts@,
            deeper(n),
            tab,
        ) + t + "end\n"@,
        LuaStmt::FuncDef { name, args, body } => "function "@ + name@ + "("@ + join_texts(strings_view(args@), ", "@)
            + ")\n"@ + stmts_text(body@, deeper(n), tab) + t + "end\n\n"@,
        LuaStmt::Label(l) => t + "::"@ + l@ + "::\n"@,
        LuaStmt::Goto { label } => t + "goto "@ + label@ + "\n"@,
        LuaStmt::Return(e) => match e {
            Some(e) => t + "return "@ + expr_text(*e, n, tab) + "\n"@,
            None => t + "return\n"@,
        },
        LuaStmt::Break => t + "break\n"@,
        LuaStmt::Call { expr, args } => t + expr_text(*expr, n, tab) + "("@ + join_texts(exprs_text(args@, n, tab), ", "@)
            + ")\n"@,
        LuaStmt::Spacer => "\n"@,
        LuaStmt::Comment(msg) => comment_text(split_lines(msg@), n, tab),
        LuaStmt::If { condition, body, else_body } => t + "if "@ + expr_text(*condition, n, tab) + " then\n"@
            + stmts_text(body@, deeper(n), tab) + match else_body {
            Some(e) => t + "else\n"@ + stmts_text(e@, deeper(n), tab),
            None => Seq::empty(),
        } + t + "end\n"@,
    }
}

pub open spec fn stmts_text(ss: Seq<LuaStmt>, n: usize, tab: Seq<char>) -> Seq<char>
    decreases ss,
{
    if ss.len() == 0 {
        Seq::empty()
    } else {
        stmts_text(ss.drop_last(), n, tab) + stmt_text(ss.last(), n, tab)
    }
}

fn tab_at(fa: &LuaFormatArgs) -> (r: String)
    ensures
        r@ == repeat(fa.tab@, fa.indent as nat),
{
    fa.get_tab()
}

fn go_deeper(fa: &mut LuaFormatArgs)
    ensures
        final(fa).indent == deeper(old(fa).indent),
        final(fa).tab == old(fa).tab,
{
    if fa.indent < usize::MAX {
        fa.indent = fa.indent + 1;
    }
}

/// The texts of expressions at the current depth.
fn exprs_to_texts(es: &Vec<LuaExpr>, fa: &mut LuaFormatArgs) -> (r: Vec<String>)
    ensures
        strings_view(r@) == exprs_text(es@, old(fa).indent, old(fa).tab@),
        final(fa).indent == old(fa).indent,
        final(fa).tab == old(fa).tab,
    decreases es@, 0nat,
{
    let mut out: Vec<String> = Vec::new();
    let mut i: usize = 0;
    while i < es.len()
        invariant
            i <= es@.len(),
            fa.indent == old(fa).indent,
            fa.tab == old(fa).tab,
            strings_view(out@) == exprs_text(es@.subrange(0, i as int), old(fa).indent, old(fa).tab@),
        decreases es@.len() - i,
    {
        assert(decreases_to!(es@ => es@[i as int]));
        let t = es[i].to_string(fa);
        let ghost before = out@;
        out.push(t);
        proof {
            let sub = es@.subrange(0, i + 1);
            assert(sub.drop_last() =~= es@.subrange(0, i as int));
            assert(strings_view(out@) =~= strings_view(before).push(t@));
        }
        i += 1;
    }
    assert(es@.subrange(0, i as int) =~= es@);
    out
}

/// The texts of the values of name/value pairs.
fn boxed_to_texts(ps: &Vec<(String, Box<LuaExpr>)>, fa: &mut LuaFormatArgs) -> (r: Vec<String>)
    ensures
        strings_view(r@) == boxed_texts(ps@, old(fa).indent, old(fa).tab@),
        final(fa).indent == old(fa).indent,
        final(fa).tab == old(fa).tab,
    decreases ps@, 0nat,
{
    let mut out: Vec<String> = Vec::new();
    let mut i: usize = 0;
    while i < ps.len()
        invariant
            i <= ps@.len(),
            fa.indent == old(fa).indent,
            fa.tab == old(fa).tab,
            strings_view(out@) == boxed_texts(ps@.subrange(0, i as int), old(fa).indent, old(fa).tab@),
        decreases ps@.len() - i,
    {
        assert(decreases_to!(ps@ => *ps@[i as int].1));
        let t = ps[i].1.to_string(fa);
        let ghost before = out@;
        out.push(t);
        proof {
            let sub = ps@.subrange(0, i + 1);
            assert(sub.drop_last() =~= ps@.subrange(0, i as int));
            assert(strings_view(out@) =~= strings_view(before).push(t@));
        }
        i += 1;
    }
    assert(ps@.subrange(0, i as int) =~= ps@);
    out
}

fn pair_names_of(ps: &Vec<(String, Box<LuaExpr>)>) -> (r: Vec<String>)
    ensures
        strings_view(r@) == pair_names(ps@),
{
    let mut out: Vec<String> = Vec::new();
    let mut i: usize = 0;
    while i < ps.len()
        invariant
            i <= ps@.len(),
            strings_view(out@) =~= pair_names(ps@.subrange(0, i as int)),
        decreases ps@.len() - i,
    {
        let ghost before = out@;
        out.push(ps[i].0.clone());
        proof {
            assert(strings_view(out@) =~= strings_view(before).push(ps@[i as int].0@));
            assert(pair_names(ps@.subrange(0, i + 1)) =~= pair_names(ps@.subrange(0, i as int)).push(ps@[i as int].0@));
        }
        i += 1;
    }
    assert(ps@.subrange(0, i as int) =~= ps@);
    out
}

/// The members of a table, one per line at the current depth.
fn members_to_text(ms: &Vec<(String, LuaExpr)>, fa: &mut LuaFormatArgs) -> (r: String)
    ensures
        r@ == members_text(ms@, old(fa).indent, old(fa).tab@),
        final(fa).indent == old(fa).indent,
        final(fa).tab == old(fa).tab,
    decreases ms@, 0nat,
{
    let mut out = String::new();
    let mut i: usize = 0;
    while i < ms.len()
        invariant
            i <= ms@.len(),
            fa.indent == old(fa).indent,
            fa.tab == old(fa).tab,
            out@ == members_text(ms@.subrange(0, i as int), old(fa).indent, old(fa).tab@),
        decreases ms@.len() - i,
    {
        assert(decreases_to!(ms@ => ms@[i as int].1));
        let tab = tab_at(fa);
        let value = ms[i].1.to_string(fa);
        push_str(&mut out, tab.as_str());
        push_str(&mut out, ms[i].0.as_str());
        push_str(&mut out, " = ");
        push_str(&mut out, value.as_str());
        push_str(&mut out, ",\n");
        proof {
            let sub = ms@.subrange(0, i + 1);
            assert(sub.drop_last() =~= ms@.subrange(0, i as int));
        }
        i += 1;
    }
    assert(ms@.subrange(0, i as int) =~= ms@);
    out
}

/// Statements one after the other at the current depth.
fn stmts_to_text(ss: &Vec<LuaStmt>, fa: &mut LuaFormatArgs) -> (r: String)
    ensures
        r@ == stmts_text(ss@, old(fa).indent, old(fa).tab@),
        final(fa).indent == old(fa).indent,
        final(fa).tab == old(fa).tab,
    decreases ss@, 0nat,
{
    let mut out = String::new();
    let mut i: usize = 0;
    while i < ss.len()
        invariant
            i <= ss@.len(),
            fa.indent == old(fa).indent,
            fa.tab == old(fa).tab,
            out@ == stmts_text(ss@.subrange(0, i as int), old(fa).indent, old(fa).tab@),
        decreases ss@.len() - i,
    {
        assert(decreases_to!(ss@ => ss@[i as int]));
        let t = ss[i].to_string(fa);
        push_str(&mut out, t.as_str());
        proof {
            let sub = ss@.subrange(0, i + 1);
            assert(sub.drop_last() =~= ss@.subrange(0, i as int));
        }
        i += 1;
    }
    assert(ss@.subrange(0, i as int) =~= ss@);
    out
}

/// Statements one level deeper than the current depth.
fn nested_to_text(ss: &Vec<LuaStmt>, fa: &mut LuaFormatArgs) -> (r: String)
    ensures
        r@ == stmts_text(ss@, deeper(old(fa).indent), old(fa).tab@),
        final(fa).indent == old(fa).indent,
        final(fa).tab == old(fa).tab,
    decreases ss@, 1nat,
{
    let saved = fa.indent;
    go_deeper(fa);
    let t = stmts_to_text(ss, fa);
    fa.indent = saved;
    t
}

/// The comment lines of a message, each at the current depth.
fn comment_to_text(msg: &String, fa: &LuaFormatArgs) -> (r: String)
    ensures
        r@ == comment_text(split_lines(msg@), fa.indent, fa.tab@),
{
    let tab = tab_at(fa);
    let chars = crate::text::str_to_chars(msg.as_str());
    let mut done = String::new();
    let mut line = String::new();
    let mut i: usize = 0;
    while i < chars.len()
        invariant
            i <= chars@.len(),
            chars@ == msg@,
            split_lines(chars@.subrange(0, i as int)).len() >= 1,
            done@ == comment_text(split_lines(chars@.subrange(0, i as int)).drop_last(), fa.indent, fa.tab@),
            line@ == split_lines(chars@.subrange(0, i as int)).last(),
            tab@ == repeat(fa.tab@, fa.indent as nat),
        decreases chars@.len() - i,
    {
        let c = chars[i];
        let ghost prev = split_lines(chars@.subrange(0, i as int));
        let ghost sub = chars@.subrange(0, i + 1);
        assert(sub.drop_last() =~= chars@.subrange(0, i as int));
        assert(sub.last() == c);
        if c == '\n' {
            push_str(&mut done, tab.as_str());
            push_str(&mut done, "-- ");
            push_str(&mut done, line.as_str());
            push_str(&mut done, "\n");
            line = String::new();
            proof {
                let next = prev.push(Seq::<char>::empty());
                assert(next.drop_last() =~= prev);
                assert(prev =~= prev.drop_last().push(prev.last()));
            }
        } else {
            push_char(&mut line, c);
            proof {
                let next = prev.update(prev.len() - 1, prev.last().push(c));
                assert(next.drop_last() =~= prev.drop_last());
            }
        }
        i += 1;
    }
    assert(chars@.subrange(0, i as int) =~= msg@);
    push_str(&mut done, tab.as_str());
    push_str(&mut done, "-- ");
    push_str(&mut done, line.as_str());
    push_str(&mut done, "\n");
    proof {
        let all = split_lines(msg@);
        assert(all =~= all.drop_last().push(all.last()));
    }
    done
}

impl LuaExpr {
    /// The expression written as Lua at the current depth.
    pub fn to_string(&self, format_args: &mut LuaFormatArgs) -> (r: String)
        ensures
            r@ == expr_text(*self, old(format_args).indent, old(format_args).tab@),
            final(format_args).indent == old(format_args).indent,
            final(format_args).tab == old(format_args).tab,
        decreases *self, 0nat,
    {
        let mut out = String::new();
        match self {
            LuaExpr::Id(id) => push_str(&mut out, id.as_str()),
            LuaExpr::Literal(l) => {
                let t = l.to_text();
                push_str(&mut out, t.as_str());
            },
            LuaExpr::Binary { left, op, right } => {
                let l = left.to_string(format_args);
                let r = right.to_string(format_args);
                push_str(&mut out, "(");
                push_str(&mut out, l.as_str());
                push_str(&mut out, " ");
                push_str(&mut out, op.text());
                push_str(&mut out, " ");
                push_str(&mut out, r.as_str());
                push_str(&mut out, ")");
            },
            LuaExpr::Unary { expr, op } => {
                let e = expr.to_string(format_args);
                push_str(&mut out, "(");
                push_str(&mut out, op.text());
                push_str(&mut out, e.as_str());
                push_str(&mut out, ")");
            },
            LuaExpr::Index { expr, arg } => {
                let e = expr.to_string(format_args);
                let a = arg.to_string(format_args);
                push_str(&mut out, e.as_str());
                push_str(&mut out, "[");
                push_str(&mut out, a.as_str());
                push_str(&mut out, "]");
            },
            LuaExpr::Call { expr, args } => {
                let texts = exprs_to_texts(args, format_args);
                let a = join_strings(&texts, ", ");
                let e = expr.to_string(format_args);
                push_str(&mut out, e.as_str());
                push_str(&mut out, "(");
                push_str(&mut out, a.as_str());
                push_str(&mut out, ")");
            },
            LuaExpr::FuncDef { args, body } => {
                let a = join_strings(args, ", ");
                push_str(&mut out, "function(");
                push_str(&mut out, a.as_str());
                push_str(&mut out, ")\n");
                let b = nested_to_text(body, format_args);
                push_str(&mut out, b.as_str());
                let tab = tab_at(format_args);
                push_str(&mut out, tab.as_str());
                push_str(&mut out, "end");
            },
            LuaExpr::Table { members } => {
                push_str(&mut out, "{\n");
                let saved = format_args.indent;
                go_deeper(format_args);
                let m = members_to_text(members, format_args);
                format_args.indent = saved;
                push_str(&mut out, m.as_str());
                let tab = tab_at(format_args);
                push_str(&mut out, tab.as_str());
                push_str(&mut out, "}");
            },
            LuaExpr::Array(values) => {
                let texts = exprs_to_texts(values, format_args);
                let a = join_strings(&texts, ", ");
                push_str(&mut out, "{ ");
                push_str(&mut out, a.as_str());
                push_str(&mut out, " }");
            },
            LuaExpr::Access { expr, name } => {
                let e = expr.to_string(format_args);
                push_str(&mut out, e.as_str());
                push_str(&mut out, ".");
                push_str(&mut out, name.as_str());
            },
            LuaExpr::Group(g) => {
                let e = g.to_string(format_args);
                push_str(&mut out, "(");
                push_str(&mut out, e.as_str());
                push_str(&mut out, ")");
            },
        }
        assert(out@ =~= expr_text(*self, old(format_args).indent, old(format_args).tab@));
        out
    }

    pub fn to_box(self) -> (r: Box<Self>)
        ensures
            *r == self,
    {
        Box::new(self)
    }
}

impl LuaStmt {
    /// The statement written as Lua at the current depth, ending with a newline.
    pub fn to_string(&self, fmt_args: &mut LuaFormatArgs) -> (r: String)
        ensures
            r@ == stmt_text(*self, old(fmt_args).indent, old(fmt_args).tab@),
            final(fmt_args).indent == old(fmt_args).indent,
            final(fmt_args).tab == old(fmt_args).tab,
        decreases *self, 0nat,
    {
        let tab = tab_at(fmt_args);
        let mut out = String::new();
        match self {
            LuaStmt::Block { stmts } => {
                push_str(&mut out, tab.as_str());
                push_str(&mut out, "do\n");
                let b = nested_to_text(stmts, fmt_args);
                push_str(&mut out, b.as_str());
                push_str(&mut out, tab.as_str());
                push_str(&mut out, "end\n");
            },
            LuaStmt::Assign { pairs } => {
                let names = pair_names_of(pairs);
                let ids = join_strings(&names, ", ");
                let texts = boxed_to_texts(pairs, fmt_args);
                let vals = join_strings(&texts, ", ");
                push_str(&mut out, tab.as_str());
                push_str(&mut out, ids.as_str());
                push_str(&mut out, " = ");
                push_str(&mut out, vals.as_str());
                push_str(&mut out, "\n");
            },
            LuaStmt::AssignExpr { assigned, value } => {
                let a = assigned.to_string(fmt_args);
                let v = value.to_string(fmt_args);
                push_str(&mut out, tab.as_str());
                push_str(&mut out, a.as_str());
                push_str(&mut out, " = ");
                push_str(&mut out, v.as_str());
                push_str(&mut out, "\n");
            },
            LuaStmt::LocalDecl { pairs } => {
                let names = pair_names_of(pairs);
                let ids = join_strings(&names, ", ");
                let texts = boxed_to_texts(pairs, fmt_args);
                let vals = join_strings(&texts, ", ");
                push_str(&mut out, tab.as_str());
                push_str(&mut out, "local ");
                push_str(&mut out, ids.as_str());
                push_str(&mut out, " = ");
                push_str(&mut out, vals.as_str());
                push_str(&mut out, "\n");
            },
            LuaStmt::While { cond, stmts } => {
                let c = cond.to_string(fmt_args);
                push_str(&mut out, tab.as_str());
                push_str(&mut out, "while ");
                push_str(&mut out, c.as_str());
                push_str(&mut out, " do\n");
                let b = nested_to_text(stmts, fmt_args);
                push_str(&mut out, b.as_str());
                push_str(&mut out, tab.as_str());
                push_str(&mut out, "end\n");
            },
            LuaStmt::FuncDef { name, args, body } => {
                let a = join_strings(args, ", ");
                push_str(&mut out, "function ");
                push_str(&mut out, name.as_str());
                push_str(&mut out, "(");
                push_str(&mut out, a.as_str());
                push_str(&mut out, ")\n");
                let b = nested_to_text(body, fmt_args);
                push_str(&mut out, b.as_str());
                push_str(&mut out, tab.as_str());
                push_str(&mut out, "end\n\n");
            },
            LuaStmt::Label(l) => {
                push_str(&mut out, tab.as_str());
                push_str(&mut out, "::");
                push_str(&mut out, l.as_str());
                push_str(&mut out, "::\n");
            },
            LuaStmt::Goto { label } => {
                push_str(&mut out, tab.as_str());
                push_str(&mut out, "goto ");
                push_str(&mut out, label.as_str());
                push_str(&mut out, "\n");
            },
            LuaStmt::Return(e) => match e {
                Some(e) => {
                    let t = e.to_string(fmt_args);
                    push_str(&mut out, tab.as_str());
                    push_str(&mut out, "return ");
                    push_str(&mut out, t.as_str());
                    push_str(&mut out, "\n");
                },
                None => {
                    push_str(&mut out, tab.as_str());
                    push_str(&mut out, "return\n");
                },
            },
            LuaStmt::Break => {
                push_str(&mut out, tab.as_str());
                push_str(&mut out, "break\n");
            },
            LuaStmt::Call { expr, args } => {
                let texts = exprs_to_texts(args, fmt_args);
                let a = join_strings(&texts, ", ");
                let e = expr.to_string(fmt_args);
                push_str(&mut out, tab.as_str());
                push_str(&mut out, e.as_str());
                push_str(&mut out, "(");
                push_str(&mut out, a.as_str());
                push_str(&mut out, ")\n");
            },
            LuaStmt::Spacer => push_str(&mut out, "\n"),
            LuaStmt::Comment(msg) => {
                let t = comment_to_text(msg, fmt_args);
                push_str(&mut out, t.as_str());
            },
            LuaStmt::If { condition, body, else_body } => {
                let c = condition.to_string(fmt_args);
                push_str(&mut out, tab.as_str());
                push_str(&mut out, "if ");
                push_str(&mut out, c.as_str());
                push_str(&mut out, " then\n");
                let b = nested_to_text(body, fmt_args);
                push_str(&mut out, b.as_str());
                match else_body {
                    Some(e) => {
                        push_str(&mut out, tab.as_str());
                        push_str(&mut out, "else\n");
                        let t = nested_to_text(e, fmt_args);
                        push_str(&mut out, t.as_str());
                    },
                    None => {},
                }
                push_str(&mut out, tab.as_str());
                push_str(&mut out, "end\n");
            },
        }
        assert(out@ =~= stmt_text(*self, old(fmt_args).indent, old(fmt_args).tab@));
        out
    }

    pub fn to_box(self) -> (r: Box<Self>)
        ensures
            *r == self,
    {
        Box::new(self)
    }
}

/// A Lua program: statements at the top level.
pub struct LuaProgram {
    pub stmts: Vec<LuaStmt>,
}

impl LuaProgram {
    /// The program written as Lua, indenting with `tab`.
    pub fn to_string(&self, tab: String) -> (r: String)
        ensures
            r@ == stmts_text(self.stmts@, 0, tab@),
    {
        let mut format_args = LuaFormatArgs { tab, indent: 0 };
        stmts_to_text(&self.stmts, &mut format_args)
    }
}

} // verus!
