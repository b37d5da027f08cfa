use vstd::prelude::*;
use super::types::{TypeInfo, Ty};
use super::operators::{GlobalOperators, BinaryOp, BinaryOpType, UnaryOp, UnaryOpType, op_precedence, bin_rule};
use super::info::{StructInfo, StructDeclData, FuncInfo, FuncInfoParam, FuncDeclData, IdGen};
use crate::text::to_owned_string;
use super::check_stmt::next_id;

verus! {

pub const INT_TYPE_NAME: &'static str = "Int";
pub const FLOAT_TYPE_NAME: &'static str = "Float";
pub const BOOL_TYPE_NAME: &'static str = "Bool";
pub const STRING_TYPE_NAME: &'static str = "String";
pub const VOID_TYPE_NAME: &'static str = "Void";

/// The ids of the built-in types and functions; ids handed out later start at `FIRST_FREE_ID`.
pub const INT_ID: u128 = 1;
pub const FLOAT_ID: u128 = 2;
pub const BOOL_ID: u128 = 3;
pub const STRING_ID: u128 = 4;
pub const VOID_ID: u128 = 5;
pub const PRINT_ID: u128 = 6;
pub const PRINTLN_ID: u128 = 7;
pub const READ_LINE_ID: u128 = 8;
pub const STRING_TO_INT_ID: u128 = 9;
pub const UNWRAP_ID: u128 = 10;
pub const IS_NONE_ID: u128 = 11;
pub const FIRST_FREE_ID: u128 = 16;

pub open spec fn int_ty() -> Ty {
    Ty::Primary(INT_ID)
}

pub open spec fn float_ty() -> Ty {
    Ty::Primary(FLOAT_ID)
}

pub open spec fn bool_ty() -> Ty {
    Ty::Primary(BOOL_ID)
}

pub open spec fn string_ty() -> Ty {
    Ty::Primary(STRING_ID)
}

pub open spec fn void_ty() -> Ty {
    Ty::Primary(VOID_ID)
}

pub fn int_type() -> (r: TypeInfo)
    ensures
        r@ == int_ty(),
{
    TypeInfo::Primary(INT_ID)
}

pub fn float_type() -> (r: TypeInfo)
    ensures
        r@ == float_ty(),
{
    TypeInfo::Primary(FLOAT_ID)
}

pub fn bool_type() -> (r: TypeInfo)
    ensures
        r@ == bool_ty(),
{
    TypeInfo::Primary(BOOL_ID)
}

pub fn string_type() -> (r: TypeInfo)
    ensures
        r@ == string_ty(),
{
    TypeInfo::Primary(STRING_ID)
}

pub fn void_type() -> (r: TypeInfo)
    ensures
        r@ == void_ty(),
{
    TypeInfo::Primary(VOID_ID)
}

/// The built-in types `Int`, `Float`, `Bool`, `String` and `Void`, without members.
pub open spec fn builtin_type_entries() -> Seq<(Seq<char>, u128)> {
    seq![
        (INT_TYPE_NAME@, INT_ID),
        (FLOAT_TYPE_NAME@, FLOAT_ID),
        (BOOL_TYPE_NAME@, BOOL_ID),
        (STRING_TYPE_NAME@, STRING_ID),
        (VOID_TYPE_NAME@, VOID_ID),
    ]
}

fn builtin_type(name: &str, id: u128) -> (r: StructInfo)
    ensures
        r.name@ == name@,
        r.id == id,
        r.members@.len() == 0,
        r.is_pub,
        r.decl_data is Builtin,
{
    StructInfo {
        id,
        name: to_owned_string(name),
        members: Vec::new(),
        is_pub: true,
        decl_data: StructDeclData::Builtin,
    }
}

pub fn get_builtin_types() -> (r: Vec<StructInfo>)
    ensures
        r@.len() == 5,
        forall|i: int| 0 <= i < 5 ==> (#[trigger] r@[i]).name@ == builtin_type_entries()[i].0 && r@[i].id
            == builtin_type_entries()[i].1 && r@[i].members@.len() == 0 && r@[i].decl_data is Builtin,
{
    let r = vec![
        builtin_type(INT_TYPE_NAME, INT_ID),
        builtin_type(FLOAT_TYPE_NAME, FLOAT_ID),
        builtin_type(BOOL_TYPE_NAME, BOOL_ID),
        builtin_type(STRING_TYPE_NAME, STRING_ID),
        builtin_type(VOID_TYPE_NAME, VOID_ID),
    ];
    r
}

fn builtin_param(name: &str, t: TypeInfo, ids: &mut IdGen) -> (r: FuncInfoParam)
    ensures
        r.name@ == name@,
        r.type_info@ == t@,
        r.init is None,
        r.id == old(ids).next,
        final(ids).next == next_id(old(ids).next),
{
    FuncInfoParam { name: to_owned_string(name), type_info: t, init: None, id: ids.fresh() }
}

/// The built-in functions: `println(msg: String)`, `print(msg: String)`,
/// `read_line() -> String` and `String.to_int(self) -> ?Int`.
pub fn get_builtin_funcs(ids: &mut IdGen) -> (r: Vec<FuncInfo>)
    ensures
        r@.len() == 4,
        r@[0].id == PRINTLN_ID && r@[0].name@ == "println"@ && r@[0].parent is None,
        r@[1].id == PRINT_ID && r@[1].name@ == "print"@ && r@[1].parent is None,
        r@[2].id == READ_LINE_ID && r@[2].name@ == "read_line"@ && r@[2].parent is None,
        r@[3].id == STRING_TO_INT_ID && r@[3].name@ == "to_int"@ && (r@[3].parent matches Some(p) && p@
            == string_ty()),
        r@[0].parameters@.len() == 1 && r@[0].parameters@[0].type_info@ == string_ty() && r@[0].returned@ == void_ty(),
        r@[1].parameters@.len() == 1 && r@[1].parameters@[0].type_info@ == string_ty() && r@[1].returned@ == void_ty(),
        r@[2].parameters@.len() == 0 && r@[2].returned@ == string_ty(),
        r@[3].parameters@.len() == 1 && r@[3].parameters@[0].type_info@ == string_ty() && r@[3].returned@
            == Ty::Optional(Box::new(int_ty())),
        forall|i: int| 0 <= i < 4 ==> (#[trigger] r@[i]).decl_data is Builtin && r@[i].is_pub,
        !r@[0].has_self && !r@[1].has_self && !r@[2].has_self && r@[3].has_self,
        r@[0].parameters@[0].name@ == "msg"@ && r@[1].parameters@[0].name@ == "msg"@ && r@[3].parameters@[0].name@
            == "self"@,
        r@[0].parameters@[0].id == old(ids).next && r@[1].parameters@[0].id == next_id(old(ids).next)
            && r@[3].parameters@[0].id == next_id(next_id(old(ids).next)),
        final(ids).next == next_id(next_id(next_id(old(ids).next))),
        forall|i: int, j: int| 0 <= i < 4 && 0 <= j < r@[i].parameters@.len() ==> (#[trigger] r@[i].parameters@[j]).init is None,
{
    let println_func = FuncInfo {
        id: PRINTLN_ID,
        name: to_owned_string("println"),
        parent: None,
        has_self: false,
        parameters: vec![builtin_param("msg", string_type(), ids)],
        returned: void_type(),
        is_pub: true,
        decl_data: FuncDeclData::Builtin,
    };
    let print_func = FuncInfo {
        id: PRINT_ID,
        name: to_owned_string("print"),
        parent: None,
        has_self: false,
        parameters: vec![builtin_param("msg", string_type(), ids)],
        returned: void_type(),
        is_pub: true,
        decl_data: FuncDeclData::Builtin,
    };
    let read_line_func = FuncInfo {
        id: READ_LINE_ID,
        name: to_owned_string("read_line"),
        parent: None,
        has_self: false,
        parameters: Vec::new(),
        returned: string_type(),
        is_pub: true,
        decl_data: FuncDeclData::Builtin,
    };
    let string_to_int_func = FuncInfo {
        id: STRING_TO_INT_ID,
        name: to_owned_string("to_int"),
        parent: Some(string_type()),
        has_self: true,
        parameters: vec![builtin_param("self", string_type(), ids)],
        returned: TypeInfo::Optional(Box::new(int_type())),
        is_pub: true,
        decl_data: FuncDeclData::Builtin,
    };
    vec![println_func, print_func, read_line_func, string_to_int_func]
}

/// The comparison rules of a type: `==`, `!=`, `<`, `>`, `<=`, `>=` give `Bool`.
pub open spec fn equality_rules(t: Ty) -> Seq<(BinaryOpType, Ty, Ty, Ty)> {
    seq![
        (BinaryOpType::Equal, t, t, bool_ty()),
        (BinaryOpType::NotEqual, t, t, bool_ty()),
        (BinaryOpType::LessThan, t, t, bool_ty()),
        (BinaryOpType::GreaterThan, t, t, bool_ty()),
        (BinaryOpType::LessThanEqual, t, t, bool_ty()),
        (BinaryOpType::GreaterThanEqual, t, t, bool_ty()),
    ]
}

/// The arithmetic rules of a type: `+`, `-`, `*`, `/`, `%` give the same type.
pub open spec fn numeric_rules(t: Ty) -> Seq<(BinaryOpType, Ty, Ty, Ty)> {
    seq![
        (BinaryOpType::Plus, t, t, t),
        (BinaryOpType::Minus, t, t, t),
        (BinaryOpType::Multiply, t, t, t),
        (BinaryOpType::Divide, t, t, t),
        (BinaryOpType::Modulus, t, t, t),
    ]
}

/// Concatenation of a string with another type, on either side, gives `String`.
pub open spec fn concat_rules(o: Ty) -> Seq<(BinaryOpType, Ty, Ty, Ty)> {
    seq![(BinaryOpType::Plus, string_ty(), o, string_ty()), (BinaryOpType::Plus, o, string_ty(), string_ty())]
}

/// All binary rules of the language, in the order they are tried.
pub open spec fn builtin_binary_rules() -> Seq<(BinaryOpType, Ty, Ty, Ty)> {
    equality_rules(bool_ty()) + seq![
        (BinaryOpType::And, bool_ty(), bool_ty(), bool_ty()),
        (BinaryOpType::Or, bool_ty(), bool_ty(), bool_ty()),
    ] + numeric_rules(int_ty()) + equality_rules(int_ty()) + numeric_rules(float_ty()) + equality_rules(
        float_ty(),
    ) + equality_rules(string_ty()) + concat_rules(int_ty()) + concat_rules(bool_ty()) + concat_rules(
        float_ty(),
    ) + concat_rules(string_ty())
}

/// All prefix rules: `!` on `Bool`, `-` on `Int` and `Float`.
pub open spec fn builtin_unary_rules() -> Seq<(UnaryOpType, Ty, Ty)> {
    seq![
        (UnaryOpType::Invert, bool_ty(), bool_ty()),
        (UnaryOpType::Negate, int_ty(), int_ty()),
        (UnaryOpType::Negate, float_ty(), float_ty()),
    ]
}

/// What a binary rule may say, by the kind of its operator: comparisons
/// (`==`, `!=`, `<`, `>`, `<=`, `>=`) take two operands of one type and give
/// `Bool`; `&&` and `||` take and give `Bool`; `*`, `/`, `%` and `-` take two
/// `Int`s or two `Float`s and give the same type; `+` does that too, or joins
/// a `String` with another operand into a `String`.
pub open spec fn rule_sensible(r: (BinaryOpType, Ty, Ty, Ty)) -> bool {
    let (op, l, rt, res) = r;
    let numeric = l == rt && res == l && (l == int_ty() || l == float_ty());
    if op_precedence(op) == 2 || op_precedence(op) == 3 {
        l == rt && res == bool_ty()
    } else if op_precedence(op) == 4 || op_precedence(op) == 5 {
        l == bool_ty() && rt == bool_ty() && res == bool_ty()
    } else if op == BinaryOpType::Plus {
        numeric || (res == string_ty() && (l == string_ty() || rt == string_ty()))
    } else {
        numeric
    }
}

/// Every rule of a list is sensible.
pub open spec fn rules_sensible(rules: Seq<(BinaryOpType, Ty, Ty, Ty)>) -> bool {
    forall|i: int| 0 <= i < rules.len() ==> rule_sensible(#[trigger] rules[i])
}

proof fn lemma_sensible_concat(a: Seq<(BinaryOpType, Ty, Ty, Ty)>, b: Seq<(BinaryOpType, Ty, Ty, Ty)>)
    requires
        rules_sensible(a),
        rules_sensible(b),
    ensures
        rules_sensible(a + b),
{
    assert forall|i: int| 0 <= i < (a + b).len() implies rule_sensible(#[trigger] (a + b)[i]) by {
        if i < a.len() {
            assert((a + b)[i] == a[i]);
        } else {
            assert((a + b)[i] == b[i - a.len()]);
        }
    }
}

/// Every built-in binary rule is sensible: no comparison gives anything but
/// `Bool`, no arithmetic changes the type of its operands, and so on.
pub proof fn lemma_builtin_rules_sensible()
    ensures
        rules_sensible(builtin_binary_rules()),
{
    let logic = seq![
        (BinaryOpType::And, bool_ty(), bool_ty(), bool_ty()),
        (BinaryOpType::Or, bool_ty(), bool_ty(), bool_ty()),
    ];
    assert forall|t: Ty| #[trigger] rules_sensible(equality_rules(t)) by {
        assert forall|i: int| 0 <= i < equality_rules(t).len() implies rule_sensible(#[trigger] equality_rules(t)[i]) by {}
    }
    assert forall|t: Ty| t == int_ty() || t == float_ty() implies #[trigger] rules_sensible(numeric_rules(t)) by {
        assert forall|i: int| 0 <= i < numeric_rules(t).len() implies rule_sensible(#[trigger] numeric_rules(t)[i]) by {}
    }
    assert forall|t: Ty| #[trigger] rules_sensible(concat_rules(t)) by {
        assert forall|i: int| 0 <= i < concat_rules(t).len() implies rule_sensible(#[trigger] concat_rules(t)[i]) by {}
    }
    assert(rules_sensible(logic)) by {
        assert forall|i: int| 0 <= i < logic.len() implies rule_sensible(#[trigger] logic[i]) by {}
    }
    assert(rules_sensible(equality_rules(bool_ty())));
    assert(rules_sensible(numeric_rules(int_ty())));
    assert(rules_sensible(numeric_rules(float_ty())));
    lemma_sensible_concat(equality_rules(bool_ty()), logic);
    let s1 = equality_rules(bool_ty()) + logic;
    lemma_sensible_concat(s1, numeric_rules(int_ty()));
    let s2 = s1 + numeric_rules(int_ty());
    assert(rules_sensible(equality_rules(int_ty())));
    lemma_sensible_concat(s2, equality_rules(int_ty()));
    let s3 = s2 + equality_rules(int_ty());
    lemma_sensible_concat(s3, numeric_rules(float_ty()));
    let s4 = s3 + numeric_rules(float_ty());
    assert(rules_sensible(equality_rules(float_ty())));
    lemma_sensible_concat(s4, equality_rules(float_ty()));
    let s5 = s4 + equality_rules(float_ty());
    assert(rules_sensible(equality_rules(string_ty())));
    lemma_sensible_concat(s5, equality_rules(string_ty()));
    let s6 = s5 + equality_rules(string_ty());
    assert(rules_sensible(concat_rules(int_ty())));
    lemma_sensible_concat(s6, concat_rules(int_ty()));
    let s7 = s6 + concat_rules(int_ty());
    assert(rules_sensible(concat_rules(bool_ty())));
    lemma_sensible_concat(s7, concat_rules(bool_ty()));
    let s8 = s7 + concat_rules(bool_ty());
    assert(rules_sensible(concat_rules(float_ty())));
    lemma_sensible_concat(s8, concat_rules(float_ty()));
    let s9 = s8 + concat_rules(float_ty());
    assert(rules_sensible(concat_rules(string_ty())));
    lemma_sensible_concat(s9, concat_rules(string_ty()));
    assert(builtin_binary_rules() == s9 + concat_rules(string_ty()));
}

/// What a rule lookup answers comes from one of the rules.
pub proof fn lemma_bin_rule_from_rules(rules: Seq<(BinaryOpType, Ty, Ty, Ty)>, l: Ty, r: Ty, op: BinaryOpType)
    ensures
        bin_rule(rules, l, r, op) matches Some(res) ==> exists|i: int| 0 <= i < rules.len() && #[trigger] rules[i] == (op, l, r, res),
    decreases rules.len(),
{
    if rules.len() > 0 && !(rules[0].0 == op && rules[0].1 == l && rules[0].2 == r) {
        lemma_bin_rule_from_rules(rules.drop_first(), l, r, op);
        if bin_rule(rules, l, r, op) is Some {
            let res = bin_rule(rules, l, r, op)->0;
            let i = choose|i: int| 0 <= i < rules.drop_first().len() && #[trigger] rules.drop_first()[i] == (op, l, r, res);
            assert(rules[i + 1] == (op, l, r, res));
        }
    } else if rules.len() > 0 {
        assert(rules[0] == (op, l, r, rules[0].3));
    }
}

/// The type a built-in binary operation gives is sensible for its operator
/// and operands: a comparison of two values of one type gives `Bool`, an
/// arithmetic operation keeps its operands' numeric type, and so on.
pub proof fn lemma_builtin_binary_typing(l: Ty, r: Ty, op: BinaryOpType)
    ensures
        bin_rule(builtin_binary_rules(), l, r, op) matches Some(res) ==> rule_sensible((op, l, r, res)),
{
    lemma_builtin_rules_sensible();
    lemma_bin_rule_from_rules(builtin_binary_rules(), l, r, op);
}

/// Every built-in prefix rule is sensible: `!` takes and gives `Bool`, `-`
/// takes an `Int` or a `Float` and gives the same type.
pub proof fn lemma_builtin_unary_rules_sensible()
    ensures
        forall|i: int| 0 <= i < builtin_unary_rules().len() ==> {
            let (op, input, output) = #[trigger] builtin_unary_rules()[i];
            &&& op == UnaryOpType::Invert ==> input == bool_ty() && output == bool_ty()
            &&& op == UnaryOpType::Negate ==> input == output && (input == int_ty() || input == float_ty())
        },
{
}

fn add_equality_ops(ops: &mut GlobalOperators, ty: TypeInfo)
    ensures
        final(ops).binary_rules() == old(ops).binary_rules() + equality_rules(ty@),
        final(ops).unary_rules() == old(ops).unary_rules(),
{
    ops.add_binary_op(BinaryOp::make_isosceles(ty.copy(), bool_type(), BinaryOpType::Equal));
    ops.add_binary_op(BinaryOp::make_isosceles(ty.copy(), bool_type(), BinaryOpType::NotEqual));
    ops.add_binary_op(BinaryOp::make_isosceles(ty.copy(), bool_type(), BinaryOpType::LessThan));
    ops.add_binary_op(BinaryOp::make_isosceles(ty.copy(), bool_type(), BinaryOpType::GreaterThan));
    ops.add_binary_op(BinaryOp::make_isosceles(ty.copy(), bool_type(), BinaryOpType::LessThanEqual));
    ops.add_binary_op(BinaryOp::make_isosceles(ty, bool_type(), BinaryOpType::GreaterThanEqual));
    assert(ops.binary_rules() =~= old(ops).binary_rules() + equality_rules(ty@));
}

fn add_numeric_ops(ops: &mut GlobalOperators, ty: TypeInfo)
    ensures
        final(ops).binary_rules() == old(ops).binary_rules() + numeric_rules(ty@),
        final(ops).unary_rules() == old(ops).unary_rules().push((UnaryOpType::Negate, ty@, ty@)),
{
    ops.add_unary_op(UnaryOp { input: ty.copy(), result: ty.copy(), op: UnaryOpType::Negate });
    ops.add_binary_op(BinaryOp::make_uniform(ty.copy(), BinaryOpType::Plus));
    ops.add_binary_op(BinaryOp::make_uniform(ty.copy(), BinaryOpType::Minus));
    ops.add_binary_op(BinaryOp::make_uniform(ty.copy(), BinaryOpType::Multiply));
    ops.add_binary_op(BinaryOp::make_uniform(ty.copy(), BinaryOpType::Divide));
    ops.add_binary_op(BinaryOp::make_uniform(ty, BinaryOpType::Modulus));
    assert(ops.binary_rules() =~= old(ops).binary_rules() + numeric_rules(ty@));
}

fn add_string_concat_op(ops: &mut GlobalOperators, other: TypeInfo)
    ensures
        final(ops).binary_rules() == old(ops).binary_rules() + concat_rules(other@),
        final(ops).unary_rules() == old(ops).unary_rules(),
{
    ops.add_binary_op(BinaryOp { left: string_type(), right: other.copy(), result: string_type(), op: BinaryOpType::Plus });
    ops.add_binary_op(BinaryOp { left: other, right: string_type(), result: string_type(), op: BinaryOpType::Plus });
    assert(ops.binary_rules() =~= old(ops).binary_rules() + concat_rules(other@));
}

/// The operator rules of the language.
pub fn get_operators() -> (r: GlobalOperators)
    ensures
        r.binary_rules() == builtin_binary_rules(),
        r.unary_rules() == builtin_unary_rules(),
{
    let mut ops = GlobalOperators::new();
    add_equality_ops(&mut ops, bool_type());
    ops.add_binary_op(BinaryOp::make_uniform(bool_type(), BinaryOpType::And));
    ops.add_binary_op(BinaryOp::make_uniform(bool_type(), BinaryOpType::Or));
    ops.add_unary_op(UnaryOp { input: bool_type(), result: bool_type(), op: UnaryOpType::Invert });
    add_numeric_ops(&mut ops, int_type());
    add_equality_ops(&mut ops, int_type());
    add_numeric_ops(&mut ops, float_type());
    add_equality_ops(&mut ops, float_type());
    add_equality_ops(&mut ops, string_type());
    add_string_concat_op(&mut ops, int_type());
    add_string_concat_op(&mut ops, bool_type());
    add_string_concat_op(&mut ops, float_type());
    add_string_concat_op(&mut ops, string_type());
    assert(ops.binary_rules() =~= builtin_binary_rules());
    assert(ops.unary_rules() =~= builtin_unary_rules());
    ops
}

/// The id of a built-in member function of an optional type: `is_none` or `unwrap`.
pub fn resolve_builtin_member_funcs(type_info: Option<&TypeInfo>, name: &str) -> (r: Option<u128>)
    ensures
        r == (if type_info matches Some(t) && t@ is Optional {
            if name@ == "is_none"@ {
                Some(IS_NONE_ID)
            } else if name@ == "unwrap"@ {
                Some(UNWRAP_ID)
            } else {
                None
            }
        } else {
            None
        }),
{
    if let Some(TypeInfo::Optional(_)) = type_info {
        if crate::text::str_eq(name, "is_none") {
            return Some(IS_NONE_ID);
        }
        if crate::text::str_eq(name, "unwrap") {
            return Some(UNWRAP_ID);
        }
    }
    None
}

/// The built-in member function `id` of an optional type: `is_none(self) -> Bool`
/// or `unwrap(self) -> T`.
pub fn get_builtin_member_func(parent: Option<&TypeInfo>, id: u128, ids: &mut IdGen) -> (r: Option<FuncInfo>)
    ensures
        match r {
            Some(f) => (parent matches Some(p) && (p@ matches Ty::Optional(inner) && f.id == id
                && f.parameters@.len() == 1 && f.parameters@[0].type_info@ == p@ && f.has_self && (
            (id == IS_NONE_ID && f.returned@ == bool_ty()) || (id == UNWRAP_ID && id != IS_NONE_ID
                && f.returned@ == *inner)))),
            None => !(parent matches Some(p) && p@ is Optional && (id == IS_NONE_ID || id == UNWRAP_ID)),
        },
{
    if let Some(p) = parent {
        if let TypeInfo::Optional(inner) = p {
            if id == IS_NONE_ID {
                return Some(FuncInfo {
                    id,
                    name: to_owned_string("is_none"),
                    is_pub: true,
                    returned: bool_type(),
                    parameters: vec![builtin_param("self", p.copy(), ids)],
                    has_self: true,
                    parent: Some(p.copy()),
                    decl_data: FuncDeclData::Builtin,
                });
            }
            if id == UNWRAP_ID {
                return Some(FuncInfo {
                    id,
                    name: to_owned_string("unwrap"),
                    is_pub: true,
                    returned: inner.copy(),
                    parameters: vec![builtin_param("self", p.copy(), ids)],
                    has_self: true,
                    parent: Some(p.copy()),
                    decl_data: FuncDeclData::Builtin,
                });
            }
        }
    }
    None
}

} // verus!
