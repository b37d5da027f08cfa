use vstd::prelude::*;
use crate::lexing::token::{Token, token_text};
use crate::utils::TextLoc;
use crate::compiler::CompilerError;
use crate::text::{push_str, join_strings};
use crate::utils::strings_view;
use crate::parsing::ast::join_texts;
use super::operators::{BinaryOpType, UnaryOpType, binary_symbol, unary_symbol};

verus! {

/// What the type checker rejects, with where.
#[derive(Debug, Clone)]
pub enum TypeError {
    UnknownType(Token, TextLoc),
    DuplicateTypeDef(Token, TextLoc),
    UnknownUsing(Vec<String>, TextLoc),
    ConflictingTypes(Token, TextLoc),
    NoBinaryOp(BinaryOpType, String, String, TextLoc),
    NoUnaryOp(UnaryOpType, String, TextLoc),
    CannotConstruct(String, TextLoc),
    InvalidConstructionArgs(TextLoc),
    ConflictingFunctions(Token, TextLoc),
    UndefinedFunction(Token, TextLoc),
    ExpectedType(String, TextLoc),
    FunctionArgumentNeedsInitializer(TextLoc),
    UnknownIdentifier(String, TextLoc),
    ExpectedFunction(TextLoc),
    InvalidCallArgs(Vec<String>, TextLoc),
    ExpectedAnIterator(TextLoc),
    UnknownVariable(String, TextLoc),
    FunctionMustReturn(TextLoc),
    CannotInferExpression(TextLoc),
    CannotDefineParentTypeTwice(TextLoc),
    CannotUseSelfInContext(TextLoc),
    NoCastOperator { loc: TextLoc, expr_type: String, cast_type: String },
    NoIndexOperator { loc: TextLoc, indexed_type: String, arg_type: String },
    InvalidLambdaExpressionFormat(TextLoc),
    ExpressionNotAssignable(TextLoc),
    DuplicateMainFn(TextLoc),
    DuplicateMemberFunc(TextLoc),
    NoMainFn,
    InvalidMainArgs(TextLoc),
    NoMember { owner_type: String, member: String, loc: TextLoc },
}

/// The text a token carries, or nothing.
pub open spec fn name_of(t: Token) -> Seq<char> {
    match token_text(t) {
        Some(s) => s,
        None => Seq::empty(),
    }
}

fn token_name(t: &Token) -> (r: String)
    ensures
        r@ == name_of(*t),
{
    match t.value_string() {
        Some(s) => s.clone(),
        None => String::new(),
    }
}

/// The message of each error.
pub open spec fn type_error_msg(e: TypeError) -> Seq<char> {
    match e {
        TypeError::UnknownType(t, _) => "Unknown type "@ + name_of(t),
        TypeError::DuplicateTypeDef(t, _) => "Duplicate type "@ + name_of(t),
        TypeError::UnknownUsing(path, _) => "Using path "@ + join_texts(strings_view(path@), "."@) + " does not exist"@,
        TypeError::ConflictingTypes(t, _) => "Conflicting type definitions for "@ + name_of(t),
        TypeError::NoBinaryOp(op, l, r, _) => "No binary operator "@ + binary_symbol(op) + " for types "@ + l@ + " and "@ + r@,
        TypeError::NoUnaryOp(op, t, _) => "No unary operator "@ + unary_symbol(op) + " for type "@ + t@,
        TypeError::CannotConstruct(t, _) => "Cannot construct type "@ + t@,
        TypeError::InvalidConstructionArgs(_) => "Invalid construction args"@,
        TypeError::ConflictingFunctions(t, _) => "Conflicting function definitions for "@ + name_of(t),
        TypeError::UndefinedFunction(t, _) => "Unknown type "@ + name_of(t),
        TypeError::ExpectedType(t, _) => "Expected type "@ + t@,
        TypeError::FunctionArgumentNeedsInitializer(_) => "Must have a function initializer"@,
        TypeError::UnknownIdentifier(id, _) => "Unknown identifier "@ + id@,
        TypeError::ExpectedFunction(_) => "Expected a function"@,
        TypeError::InvalidCallArgs(items, _) => "Expected call args: "@ + join_texts(strings_view(items@), ", "@),
        TypeError::ExpectedAnIterator(_) => "Expected an iterator"@,
        TypeError::UnknownVariable(name, _) => "Unknown variable "@ + name@,
        TypeError::FunctionMustReturn(_) => "Function must return"@,
        TypeError::CannotInferExpression(_) => "Cannot infer expression type"@,
        TypeError::CannotDefineParentTypeTwice(_) => "Cannot define parent type multiple times"@,
        TypeError::CannotUseSelfInContext(_) => "Cannot use `self`, in this context"@,
        TypeError::NoCastOperator { expr_type, cast_type, .. } => "No cast operator from type "@ + expr_type@ + " to type "@ + cast_type@,
        TypeError::NoIndexOperator { indexed_type, arg_type, .. } => "No index operator "@ + indexed_type@ + "["@ + arg_type@ + "]"@,
        TypeError::InvalidLambdaExpressionFormat(_) => "Invalid lambda expression format; please use the format `|...| -> ... => {}`, other variants will be added in upcoming versions"@,
        TypeError::ExpressionNotAssignable(_) => "Expression type is not assignable"@,
        TypeError::DuplicateMainFn(_) => "Duplicate main function found"@,
        TypeError::DuplicateMemberFunc(_) => "Duplicate function definition"@,
        TypeError::NoMainFn => "No main function found"@,
        TypeError::InvalidMainArgs(_) => "Invalid main args"@,
        TypeError::NoMember { owner_type, member, .. } => "No member "@ + member@ + " on type "@ + owner_type@,
    }
}

/// Where each error is, when it is anywhere.
pub open spec fn type_error_loc(e: TypeError) -> Option<TextLoc> {
    match e {
        TypeError::UnknownType(_, l) => Some(l),
        TypeError::DuplicateTypeDef(_, l) => Some(l),
        TypeError::UnknownUsing(_, l) => Some(l),
        TypeError::ConflictingTypes(_, l) => Some(l),
        TypeError::NoBinaryOp(_, _, _, l) => Some(l),
        TypeError::NoUnaryOp(_, _, l) => Some(l),
        TypeError::CannotConstruct(_, l) => Some(l),
        TypeError::InvalidConstructionArgs(l) => Some(l),
        TypeError::ConflictingFunctions(_, l) => Some(l),
        TypeError::UndefinedFunction(_, l) => Some(l),
        TypeError::ExpectedType(_, l) => Some(l),
        TypeError::FunctionArgumentNeedsInitializer(l) => Some(l),
        TypeError::UnknownIdentifier(_, l) => Some(l),
        TypeError::ExpectedFunction(l) => Some(l),
        TypeError::InvalidCallArgs(_, l) => Some(l),
        TypeError::ExpectedAnIterator(l) => Some(l),
        TypeError::UnknownVariable(_, l) => Some(l),
        TypeError::FunctionMustReturn(l) => Some(l),
        TypeError::CannotInferExpression(l) => Some(l),
        TypeError::CannotDefineParentTypeTwice(l) => Some(l),
        TypeError::CannotUseSelfInContext(l) => Some(l),
        TypeError::NoCastOperator { loc, .. } => Some(loc),
        TypeError::NoIndexOperator { loc, .. } => Some(loc),
        TypeError::InvalidLambdaExpressionFormat(l) => Some(l),
        TypeError::ExpressionNotAssignable(l) => Some(l),
        TypeError::DuplicateMainFn(l) => Some(l),
        TypeError::DuplicateMemberFunc(l) => Some(l),
        TypeError::NoMainFn => None,
        TypeError::InvalidMainArgs(l) => Some(l),
        TypeError::NoMember { loc, .. } => Some(loc),
    }
}

fn text1(a: &str) -> (r: String)
    ensures
        r@ == a@,
{
    let mut out = String::new();
    push_str(&mut out, a);
    out
}

fn text2(a: &str, b: &str) -> (r: String)
    ensures
        r@ == a@ + b@,
{
    let mut out = String::new();
    push_str(&mut out, a);
    push_str(&mut out, b);
    out
}

fn text4(a: &str, b: &str, c: &str, d: &str) -> (r: String)
    ensures
        r@ == a@ + b@ + c@ + d@,
{
    let mut out = String::new();
    push_str(&mut out, a);
    push_str(&mut out, b);
    push_str(&mut out, c);
    push_str(&mut out, d);
    out
}

impl CompilerError for TypeError {
    open spec fn error_msg(&self) -> Seq<char> {
        type_error_msg(*self)
    }

    open spec fn error_loc(&self) -> Option<TextLoc> {
        type_error_loc(*self)
    }

    fn msg(&self) -> (r: String)
    {
        match self {
            TypeError::UnknownType(t, _) => text2("Unknown type ", token_name(t).as_str()),
            TypeError::DuplicateTypeDef(t, _) => text2("Duplicate type ", token_name(t).as_str()),
            TypeError::UnknownUsing(path, _) => {
                let p = join_strings(path, ".");
                let mut out = text2("Using path ", p.as_str());
                push_str(&mut out, " does not exist");
                out
            },
            TypeError::ConflictingTypes(t, _) => text2("Conflicting type definitions for ", token_name(t).as_str()),
            TypeError::NoBinaryOp(op, l, r, _) => {
                let mut out = text4("No binary operator ", op.symbol(), " for types ", l.as_str());
                push_str(&mut out, " and ");
                push_str(&mut out, r.as_str());
                out
            },
            TypeError::NoUnaryOp(op, t, _) => text4("No unary operator ", op.symbol(), " for type ", t.as_str()),
            TypeError::CannotConstruct(t, _) => text2("Cannot construct type ", t.as_str()),
            TypeError::InvalidConstructionArgs(_) => text1("Invalid construction args"),
            TypeError::ConflictingFunctions(t, _) => text2("Conflicting function definitions for ", token_name(t).as_str()),
            TypeError::UndefinedFunction(t, _) => text2("Unknown type ", token_name(t).as_str()),
            TypeError::ExpectedType(t, _) => text2("Expected type ", t.as_str()),
            TypeError::FunctionArgumentNeedsInitializer(_) => text1("Must have a function initializer"),
            TypeError::UnknownIdentifier(id, _) => text2("Unknown identifier ", id.as_str()),
            TypeError::ExpectedFunction(_) => text1("Expected a function"),
            TypeError::InvalidCallArgs(items, _) => {
                let j = join_strings(items, ", ");
                text2("Expected call args: ", j.as_str())
            },
            TypeError::ExpectedAnIterator(_) => text1("Expected an iterator"),
            TypeError::UnknownVariable(name, _) => text2("Unknown variable ", name.as_str()),
            TypeError::FunctionMustReturn(_) => text1("Function must return"),
            TypeError::CannotInferExpression(_) => text1("Cannot infer expression type"),
            TypeError::CannotDefineParentTypeTwice(_) => text1("Cannot define parent type multiple times"),
            TypeError::CannotUseSelfInContext(_) => text1("Cannot use `self`, in this context"),
            TypeError::NoCastOperator { expr_type, cast_type, .. } => text4("No cast operator from type ", expr_type.as_str(), " to type ", cast_type.as_str()),
            TypeError::NoIndexOperator { indexed_type, arg_type, .. } => {
                let mut out = text4("No index operator ", indexed_type.as_str(), "[", arg_type.as_str());
                push_str(&mut out, "]");
                out
            },
            TypeError::InvalidLambdaExpressionFormat(_) => text1("Invalid lambda expression format; please use the format `|...| -> ... => {}`, other variants will be added in upcoming versions"),
            TypeError::ExpressionNotAssignable(_) => text1("Expression type is not assignable"),
            TypeError::DuplicateMainFn(_) => text1("Duplicate main function found"),
            TypeError::DuplicateMemberFunc(_) => text1("Duplicate function definition"),
            TypeError::NoMainFn => text1("No main function found"),
            TypeError::InvalidMainArgs(_) => text1("Invalid main args"),
            TypeError::NoMember { owner_type, member, .. } => text4("No member ", member.as_str(), " on type ", owner_type.as_str()),
        }
    }

    fn loc(&self) -> (r: Option<TextLoc>)
    {
        match self {
            TypeError::UnknownType(_, l) => Some(l.clone()),
            TypeError::DuplicateTypeDef(_, l) => Some(l.clone()),
            TypeError::UnknownUsing(_, l) => Some(l.clone()),
            TypeError::ConflictingTypes(_, l) => Some(l.clone()),
            TypeError::NoBinaryOp(_, _, _, l) => Some(l.clone()),
            TypeError::NoUnaryOp(_, _, l) => Some(l.clone()),
            TypeError::CannotConstruct(_, l) => Some(l.clone()),
            TypeError::InvalidConstructionArgs(l) => Some(l.clone()),
            TypeError::ConflictingFunctions(_, l) => Some(l.clone()),
            TypeError::UndefinedFunction(_, l) => Some(l.clone()),
            TypeError::ExpectedType(_, l) => Some(l.clone()),
            TypeError::FunctionArgumentNeedsInitializer(l) => Some(l.clone()),
            TypeError::UnknownIdentifier(_, l) => Some(l.clone()),
            TypeError::ExpectedFunction(l) => Some(l.clone()),
            TypeError::InvalidCallArgs(_, l) => Some(l.clone()),
            TypeError::ExpectedAnIterator(l) => Some(l.clone()),
            TypeError::UnknownVariable(_, l) => Some(l.clone()),
            TypeError::FunctionMustReturn(l) => Some(l.clone()),
            TypeError::CannotInferExpression(l) => Some(l.clone()),
            TypeError::CannotDefineParentTypeTwice(l) => Some(l.clone()),
            TypeError::CannotUseSelfInContext(l) => Some(l.clone()),
            TypeError::NoCastOperator { loc, .. } => Some(loc.clone()),
            TypeError::NoIndexOperator { loc, .. } => Some(loc.clone()),
            TypeError::InvalidLambdaExpressionFormat(l) => Some(l.clone()),
            TypeError::ExpressionNotAssignable(l) => Some(l.clone()),
            TypeError::DuplicateMainFn(l) => Some(l.clone()),
            TypeError::DuplicateMemberFunc(l) => Some(l.clone()),
            TypeError::NoMainFn => None,
            TypeError::InvalidMainArgs(l) => Some(l.clone()),
            TypeError::NoMember { loc, .. } => Some(loc.clone()),
        }
    }
}

} // verus!
