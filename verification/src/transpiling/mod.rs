pub mod lua_ast;
pub mod lua_builtins;

use vstd::prelude::*;
use std::sync::Arc;
use crate::text::{push_str, push_char, append_usize, nat_digits, to_owned_string};
use crate::validation::typed::{TypedExpression, TypedStatement, TypedIdentifier, LitVal, VarDef, ret_ty};
use crate::validation::defs::{CheckedProgram, FuncDef, StructDef, TypeDefMember};
use crate::validation::operators::BinaryOpType;
use crate::validation::builtins::{string_ty, STRING_ID};
use crate::validation::types::TypeInfo;
use lua_ast::{LuaExpr, LuaStmt, LuaLit, LuaBinaryOp, LuaUnaryOp, LuaProgram, lua_binary_of, lua_unary_of};
use lua_builtins::{append_builtins, INVOKE_EXPR_FUNC};

verus! {

/// The number the first entry for `id` gives it.
pub open spec fn lookup_id(es: Seq<(u128, usize)>, id: u128) -> Option<usize>
    decreases es.len(),
{
    if es.len() == 0 {
        None
    } else if es[0].0 == id {
        Some(es[0].1)
    } else {
        lookup_id(es.drop_first(), id)
    }
}

/// The Lua name of number `k`: `v_k`.
pub open spec fn var_name(k: usize) -> Seq<char> {
    "v_"@ + nat_digits(k as nat)
}

/// Gives each id a Lua variable name, numbering them in the order they are first met.
pub struct IdResolver {
    map: Vec<(u128, usize)>,
    count: usize,
}

proof fn lemma_lookup_id_push(es: Seq<(u128, usize)>, e: (u128, usize), id: u128)
    ensures
        lookup_id(es, id) is Some ==> lookup_id(es.push(e), id) == lookup_id(es, id),
        lookup_id(es, id) is None && id == e.0 ==> lookup_id(es.push(e), id) == Some(e.1),
        lookup_id(es, id) is None && id != e.0 ==> lookup_id(es.push(e), id) is None,
    decreases es.len(),
{
    if es.len() == 0 {
        assert(es.push(e)[0] == e);
        assert(es.push(e).drop_first() =~= Seq::<(u128, usize)>::empty());
        assert(lookup_id(es.push(e).drop_first(), id) is None);
    } else {
        assert(es.push(e)[0] == es[0]);
        assert(es.push(e).drop_first() =~= es.drop_first().push(e));
        lemma_lookup_id_push(es.drop_first(), e, id);
    }
}

proof fn lemma_lookup_id_found(es: Seq<(u128, usize)>, id: u128)
    ensures
        lookup_id(es, id) matches Some(k) ==> exists|i: int| 0 <= i < es.len() && es[i] == (id, k),
        lookup_id(es, id) is None ==> forall|i: int| 0 <= i < es.len() ==> es[i].0 != id,
    decreases es.len(),
{
    if es.len() > 0 {
        lemma_lookup_id_found(es.drop_first(), id);
        if es[0].0 != id {
            if let Some(k) = lookup_id(es, id) {
                let i = choose|i: int| 0 <= i < es.drop_first().len() && es.drop_first()[i] == (id, k);
                assert(es[i + 1] == (id, k));
            } else {
                assert forall|i: int| 0 <= i < es.len() implies es[i].0 != id by {
                    if i > 0 {
                        assert(es[i] == es.drop_first()[i - 1]);
                    }
                }
            }
        }
    }
}

impl IdResolver {
    /// The ids met so far with their numbers.
    pub closed spec fn entries(&self) -> Seq<(u128, usize)> {
        self.map@
    }

    /// The number the next new name gets.
    pub closed spec fn next(&self) -> usize {
        self.count
    }

    /// Ids and numbers are each distinct, and every number is below the next one.
    pub open spec fn wf(&self) -> bool {
        &&& forall|i: int| 0 <= i < self.entries().len() ==> (#[trigger] self.entries()[i]).1 < self.next()
        &&& forall|i: int, j: int| 0 <= i < j < self.entries().len() ==> (#[trigger] self.entries()[i]).0
            != (#[trigger] self.entries()[j]).0 && self.entries()[i].1 != self.entries()[j].1
    }

    /// Every id named before keeps its number, and the counter did not go back.
    pub open spec fn grows_from(&self, earlier: IdResolver) -> bool {
        &&& forall|id: u128| #[trigger] lookup_id(earlier.entries(), id) is Some ==> lookup_id(self.entries(), id)
            == lookup_id(earlier.entries(), id)
        &&& self.next() >= earlier.next()
    }

    pub fn new() -> (r: Self)
        ensures
            r.entries().len() == 0,
            r.next() == 0,
            r.wf(),
    {
        IdResolver { map: Vec::new(), count: 0 }
    }

    /// The Lua name of `id`: the number it was given when first met, or else
    /// the next number. The counter moves on at every call.
    pub fn resolve(&mut self, id: u128) -> (r: String)
        ensures
            final(self).grows_from(*old(self)),
            lookup_id(final(self).entries(), id) == match lookup_id(old(self).entries(), id) {
                Some(k) => Some(k),
                None => Some(old(self).next()),
            },
            final(self).entries() == match lookup_id(old(self).entries(), id) {
                Some(_) => old(self).entries(),
                None => old(self).entries().push((id, old(self).next())),
            },
            r@ == var_name(lookup_id(final(self).entries(), id)->0),
            old(self).next() < usize::MAX ==> final(self).next() == old(self).next() + 1,
            old(self).wf() && old(self).next() < usize::MAX ==> final(self).wf(),
    {
        let ghost es = self.map@;
        assert(es.subrange(0, es.len() as int) =~= es);
        let mut found: Option<usize> = None;
        let mut i: usize = 0;
        while i < self.map.len() && found.is_none()
            invariant
                i <= self.map@.len(),
                es == self.map@,
                found is None ==> lookup_id(es, id) == lookup_id(es.subrange(i as int, es.len() as int), id),
                found matches Some(k) ==> lookup_id(es, id) == Some(k),
            decreases self.map@.len() - i, if found is None { 1int } else { 0int },
        {
            assert(es.subrange(i as int, es.len() as int).drop_first() =~= es.subrange(i + 1, es.len() as int));
            if self.map[i].0 == id {
                assert(es.subrange(i as int, es.len() as int)[0] == es[i as int]);
                found = Some(self.map[i].1);
            } else {
                i += 1;
            }
        }
        if found.is_none() {
            assert(es.subrange(es.len() as int, es.len() as int) =~= Seq::<(u128, usize)>::empty());
        }
        let index = match found {
            Some(k) => k,
            None => {
                let k = self.count;
                proof {
                    lemma_lookup_id_found(es, id);
                    lemma_lookup_id_push(es, (id, k), id);
                }
                self.map.push((id, k));
                proof {
                    assert forall|other: u128| #[trigger] lookup_id(es, other) is Some implies lookup_id(self.map@, other)
                        == lookup_id(es, other) by {
                        lemma_lookup_id_push(es, (id, k), other);
                    }
                    if old(self).wf() && k < usize::MAX {
                        let n = es.len() as int;
                        assert forall|a: int, b: int| 0 <= a < b < self.map@.len() implies (#[trigger] self.map@[a]).0
                            != (#[trigger] self.map@[b]).0 && self.map@[a].1 != self.map@[b].1 by {
                            if b == n {
                                assert(self.map@[a] == es[a]);
                                assert(es[a].1 < k);
                            } else {
                                assert(self.map@[a] == es[a]);
                                assert(self.map@[b] == es[b]);
                            }
                        }
                        assert forall|a: int| 0 <= a < self.map@.len() implies (#[trigger] self.map@[a]).1 < k + 1 by {
                            if a < n {
                                assert(self.map@[a] == es[a]);
                            }
                        }
                    }
                }
                k
            },
        };
        let ghost mid = self.map@;
        if self.count < usize::MAX {
            self.count = self.count + 1;
        }
        proof {
            if old(self).wf() && old(self).next() < usize::MAX {
                assert forall|a: int| 0 <= a < self.entries().len() implies (#[trigger] self.entries()[a]).1 < self.next() by {
                    if found is Some {
                        assert(old(self).entries()[a].1 < old(self).next());
                    }
                }
            }
        }
        let mut out = to_owned_string("v_");
        append_usize(&mut out, index);
        out
    }

    /// A name no id has: the next number.
    pub fn make_var(&mut self) -> (r: String)
        ensures
            final(self).entries() == old(self).entries(),
            final(self).grows_from(*old(self)),
            r@ == var_name(old(self).next()),
            old(self).next() < usize::MAX ==> final(self).next() == old(self).next() + 1,
            old(self).wf() ==> final(self).wf(),
    {
        let index = self.count;
        if self.count < usize::MAX {
            self.count = self.count + 1;
        }
        proof {
            if old(self).wf() {
                assert forall|a: int| 0 <= a < self.entries().len() implies (#[trigger] self.entries()[a]).1 < self.next() by {
                    assert(old(self).entries()[a].1 < old(self).next());
                }
            }
        }
        let mut out = to_owned_string("v_");
        append_usize(&mut out, index);
        out
    }
}

/// Two different ids never share a number, and so never share a Lua name.
pub proof fn lemma_distinct_ids_distinct_names(r: IdResolver, a: u128, b: u128)
    requires
        r.wf(),
        a != b,
        lookup_id(r.entries(), a) is Some,
        lookup_id(r.entries(), b) is Some,
    ensures
        lookup_id(r.entries(), a) != lookup_id(r.entries(), b),
        var_name(lookup_id(r.entries(), a)->0) != var_name(lookup_id(r.entries(), b)->0),
{
    lemma_lookup_id_found(r.entries(), a);
    lemma_lookup_id_found(r.entries(), b);
    let es = r.entries();
    let ka = lookup_id(es, a)->0;
    let kb = lookup_id(es, b)->0;
    let i = choose|i: int| 0 <= i < es.len() && es[i] == (a, ka);
    let j = choose|j: int| 0 <= j < es.len() && es[j] == (b, kb);
    if i < j {
        assert(es[i].1 != es[j].1);
    } else if j < i {
        assert(es[j].1 != es[i].1);
    }
    crate::text::lemma_nat_digits_injective(ka as nat, kb as nat);
    reveal_strlit("v_");
    assert(var_name(ka).subrange(2, var_name(ka).len() as int) =~= nat_digits(ka as nat));
    assert(var_name(kb).subrange(2, var_name(kb).len() as int) =~= nat_digits(kb as nat));
}

/// The number an identifier refers to.
pub open spec fn ident_num(id: TypedIdentifier) -> u128 {
    match id {
        TypedIdentifier::Function(f) => f,
        TypedIdentifier::Variable(v) => v,
    }
}

/// How a character is written inside a Lua string literal.
pub open spec fn escape_char(c: char) -> Seq<char> {
    if c == '"' {
        seq!['\\', '"']
    } else if c == '\\' {
        seq!['\\', '\\']
    } else if c == '\n' {
        seq!['\\', 'n']
    } else {
        seq![c]
    }
}

pub open spec fn escape_text(s: Seq<char>) -> Seq<char>
    decreases s.len(),
{
    if s.len() == 0 {
        Seq::empty()
    } else {
        escape_text(s.drop_last()) + escape_char(s.last())
    }
}

/// A string as a Lua string literal, in double quotes.
pub open spec fn quoted(s: Seq<char>) -> Seq<char> {
    seq!['"'] + escape_text(s) + seq!['"']
}

/// The Lua name of a struct member: `m_` and the member's name.
pub open spec fn member_name(name: Seq<char>) -> Seq<char> {
    "m_"@ + name
}

/// Every id named in `m1` has the same number in `m2`.
pub open spec fn map_grows(m1: Seq<(u128, usize)>, m2: Seq<(u128, usize)>) -> bool {
    forall|id: u128| #[trigger] lookup_id(m1, id) is Some ==> lookup_id(m2, id) == lookup_id(m1, id)
}

/// The Lua operator a binary operation becomes: `+` on strings joins them.
pub open spec fn lua_op_for(op: BinaryOpType, returned: crate::validation::types::Ty) -> LuaBinaryOp {
    if op == BinaryOpType::Plus && returned == string_ty() {
        LuaBinaryOp::Concat
    } else {
        lua_binary_of(op)
    }
}

/// `l` is the Lua form of the checked expression `t`, names given by `m`:
/// literals become Lua literals, names become their numbered variables, each
/// operation the same Lua operation on the translated parts, a cast its operand,
/// and a construction a table whose first members are the given values.
pub open spec fn expr_translated(t: TypedExpression, l: LuaExpr, m: Seq<(u128, usize)>) -> bool
    decreases t,
{
    match t {
        TypedExpression::Literal { value, .. } => match value {
            LitVal::String(s) => match l {
                LuaExpr::Literal(LuaLit::String(q)) => q@ == quoted(s@),
                _ => false,
            },
            LitVal::Int(n) => l == LuaExpr::Literal(LuaLit::Int(n)),
            LitVal::Float(f) => match l {
                LuaExpr::Literal(LuaLit::Float(g)) => g@ == f@,
                _ => false,
            },
            LitVal::Bool(b) => l == LuaExpr::Literal(if b { LuaLit::True } else { LuaLit::False }),
            LitVal::Null => l == LuaExpr::Literal(LuaLit::Nil),
            LitVal::SelfVal => l is Id,
        },
        TypedExpression::Array { expressions, .. } => match l {
            LuaExpr::Array(vs) => vs@.len() == expressions@.len() && forall|i: int| 0 <= i < expressions@.len() ==> expr_translated(
                #[trigger] expressions@[i],
                vs@[i],
                m,
            ),
            _ => false,
        },
        TypedExpression::Identifier { id, .. } => match l {
            LuaExpr::Id(n) => match lookup_id(m, ident_num(id)) {
                Some(k) => n@ == var_name(k),
                None => false,
            },
            _ => false,
        },
        TypedExpression::Binary { left, op, right, returned, .. } => match l {
            LuaExpr::Binary { left: ll, op: lop, right: lr } => lop == lua_op_for(op, returned@) && expr_translated(*left, *ll, m)
                && expr_translated(*right, *lr, m),
            _ => false,
        },
        TypedExpression::Unary { operand, op, .. } => match l {
            LuaExpr::Unary { expr, op: lop } => lop == lua_unary_of(op) && expr_translated(*operand, *expr, m),
            _ => false,
        },
        TypedExpression::Call { called, args, .. } => match l {
            LuaExpr::Call { expr, args: largs } => expr_translated(*called, *expr, m) && largs@.len() == args@.len()
                && forall|i: int| 0 <= i < args@.len() ==> expr_translated(#[trigger] args@[i], largs@[i], m),
            _ => false,
        },
        TypedExpression::Cast { casted, .. } => expr_translated(*casted, l, m),
        TypedExpression::Construction { args, .. } => match l {
            LuaExpr::Table { members } => members@.len() >= args@.len() && forall|i: int| 0 <= i < args@.len() ==> {
                &&& (#[trigger] members@[i]).0@ == member_name(args@[i].0@)
                &&& expr_translated(args@[i].1, members@[i].1, m)
            },
            _ => false,
        },
    }
}

/// A translation stays one when more ids get names.
pub proof fn lemma_translated_grows(t: TypedExpression, l: LuaExpr, m1: Seq<(u128, usize)>, m2: Seq<(u128, usize)>)
    requires
        expr_translated(t, l, m1),
        map_grows(m1, m2),
    ensures
        expr_translated(t, l, m2),
    decreases t,
{
    match t {
        TypedExpression::Array { expressions, .. } => {
            if let LuaExpr::Array(vs) = l {
                assert forall|i: int| 0 <= i < expressions@.len() implies expr_translated(#[trigger] expressions@[i], vs@[i], m2) by {
                    lemma_translated_grows(expressions@[i], vs@[i], m1, m2);
                }
            }
        },
        TypedExpression::Identifier { id, .. } => {
            assert(lookup_id(m1, ident_num(id)) is Some);
        },
        TypedExpression::Binary { left, right, .. } => {
            if let LuaExpr::Binary { left: ll, right: lr, .. } = l {
                lemma_translated_grows(*left, *ll, m1, m2);
                lemma_translated_grows(*right, *lr, m1, m2);
            }
        },
        TypedExpression::Unary { operand, .. } => {
            if let LuaExpr::Unary { expr, .. } = l {
                lemma_translated_grows(*operand, *expr, m1, m2);
            }
        },
        TypedExpression::Call { called, args, .. } => {
            if let LuaExpr::Call { expr, args: largs } = l {
                lemma_translated_grows(*called, *expr, m1, m2);
                assert forall|i: int| 0 <= i < args@.len() implies expr_translated(#[trigger] args@[i], largs@[i], m2) by {
                    lemma_translated_grows(args@[i], largs@[i], m1, m2);
                }
            }
        },
        TypedExpression::Cast { casted, .. } => {
            lemma_translated_grows(*casted, l, m1, m2);
        },
        TypedExpression::Construction { args, .. } => {
            if let LuaExpr::Table { members } = l {
                assert forall|i: int| 0 <= i < args@.len() implies expr_translated(args@[i].1, (#[trigger] members@[i]).1, m2) by {
                    lemma_translated_grows(args@[i].1, members@[i].1, m1, m2);
                }
            }
        },
        _ => {},
    }
}

/// `structs[k]` is the first checked struct of `structs` with id `id`.
pub open spec fn first_with_id(structs: Seq<Arc<StructDef>>, id: u128, k: int) -> bool {
    &&& 0 <= k < structs.len()
    &&& structs[k].id == id
    &&& forall|j: int| 0 <= j < k ==> (#[trigger] structs[j]).id != id
}

/// The first checked struct of `structs` with id `id`, if there is one.
pub open spec fn struct_with_id(structs: Seq<Arc<StructDef>>, id: u128) -> Option<Arc<StructDef>> {
    if exists|k: int| first_with_id(structs, id, k) {
        Some(structs[choose|k: int| first_with_id(structs, id, k)])
    } else {
        None
    }
}

/// A construction gives a value to a member called `name`.
pub open spec fn named_in(args: Seq<(String, TypedExpression)>, name: Seq<char>) -> bool {
    exists|k: int| 0 <= k < args.len() && (#[trigger] args[k]).0@ == name
}

/// The members of `ms`, in order, that a construction with `args` leaves out
/// and that have a default value.
pub open spec fn omitted_defaults(ms: Seq<TypeDefMember>, args: Seq<(String, TypedExpression)>) -> Seq<TypeDefMember>
    decreases ms.len(),
{
    if ms.len() == 0 {
        Seq::empty()
    } else {
        let prev = omitted_defaults(ms.drop_last(), args);
        if !named_in(args, ms.last().name@) && ms.last().init is Some {
            prev.push(ms.last())
        } else {
            prev
        }
    }
}

/// Lua value `v` is member default `init` written with defaults nesting
/// `fuel` deep: its translation, with its own constructions' defaults written
/// one level less deep, and `nil` when no depth is left.
pub open spec fn default_written(init: Option<Arc<TypedExpression>>, v: LuaExpr, m: Seq<(u128, usize)>, structs: Seq<Arc<StructDef>>, fuel: nat) -> bool
    decreases fuel, 0nat,
{
    match init {
        Some(e) => if fuel == 0 {
            v == LuaExpr::Literal(LuaLit::Nil)
        } else {
            expr_translated(*e, v, m) && defaults_translated(*e, v, m, structs, (fuel - 1) as nat)
        },
        None => true,
    }
}

/// In translation `l` of `t`, every construction ends with the members its
/// struct (the first of `structs` with its id) has defaults for and the
/// construction leaves out, in the struct's order, each with its default
/// written with defaults nesting `fuel` deep.
pub open spec fn defaults_translated(t: TypedExpression, l: LuaExpr, m: Seq<(u128, usize)>, structs: Seq<Arc<StructDef>>, fuel: nat) -> bool
    decreases fuel, 1nat, t,
{
    match t {
        TypedExpression::Array { expressions, .. } => match l {
            LuaExpr::Array(vs) => forall|i: int| 0 <= i < expressions@.len() ==> defaults_translated(
                #[trigger] expressions@[i],
                vs@[i],
                m,
                structs,
                fuel,
            ),
            _ => true,
        },
        TypedExpression::Binary { left, right, .. } => match l {
            LuaExpr::Binary { left: ll, right: lr, .. } => defaults_translated(*left, *ll, m, structs, fuel) && defaults_translated(
                *right,
                *lr,
                m,
                structs,
                fuel,
            ),
            _ => true,
        },
        TypedExpression::Unary { operand, .. } => match l {
            LuaExpr::Unary { expr, .. } => defaults_translated(*operand, *expr, m, structs, fuel),
            _ => true,
        },
        TypedExpression::Call { called, args, .. } => match l {
            LuaExpr::Call { expr, args: largs } => defaults_translated(*called, *expr, m, structs, fuel) && forall|i: int|
                0 <= i < args@.len() ==> defaults_translated(#[trigger] args@[i], largs@[i], m, structs, fuel),
            _ => true,
        },
        TypedExpression::Cast { casted, .. } => defaults_translated(*casted, l, m, structs, fuel),
        TypedExpression::Construction { type_id, args, .. } => match l {
            LuaExpr::Table { members } => {
                &&& forall|i: int| 0 <= i < args@.len() ==> defaults_translated(
                    args@[i].1,
                    (#[trigger] members@[i]).1,
                    m,
                    structs,
                    fuel,
                )
                &&& match struct_with_id(structs, type_id) {
                    Some(d) => {
                        let om = omitted_defaults(d.members@, args@);
                        &&& members@.len() == args@.len() + om.len()
                        &&& forall|j: int| 0 <= j < om.len() ==> {
                            &&& (#[trigger] members@[args@.len() + j]).0@ == member_name(om[j].name@)
                            &&& default_written(om[j].init, members@[args@.len() + j].1, m, structs, fuel)
                        }
                    },
                    None => members@.len() == args@.len(),
                }
            },
            _ => true,
        },
        _ => true,
    }
}

/// Written defaults stay written when more ids get names.
pub proof fn lemma_defaults_grows(
    t: TypedExpression,
    l: LuaExpr,
    m1: Seq<(u128, usize)>,
    m2: Seq<(u128, usize)>,
    structs: Seq<Arc<StructDef>>,
    fuel: nat,
)
    requires
        defaults_translated(t, l, m1, structs, fuel),
        map_grows(m1, m2),
    ensures
        defaults_translated(t, l, m2, structs, fuel),
    decreases fuel, 1nat, t,
{
    match t {
        TypedExpression::Array { expressions, .. } => {
            if let LuaExpr::Array(vs) = l {
                assert forall|i: int| 0 <= i < expressions@.len() implies defaults_translated(
                    #[trigger] expressions@[i],
                    vs@[i],
                    m2,
                    structs,
                    fuel,
                ) by {
                    lemma_defaults_grows(expressions@[i], vs@[i], m1, m2, structs, fuel);
                }
            }
        },
        TypedExpression::Binary { left, right, .. } => {
            if let LuaExpr::Binary { left: ll, right: lr, .. } = l {
                lemma_defaults_grows(*left, *ll, m1, m2, structs, fuel);
                lemma_defaults_grows(*right, *lr, m1, m2, structs, fuel);
            }
        },
        TypedExpression::Unary { operand, .. } => {
            if let LuaExpr::Unary { expr, .. } = l {
                lemma_defaults_grows(*operand, *expr, m1, m2, structs, fuel);
            }
        },
        TypedExpression::Call { called, args, .. } => {
            if let LuaExpr::Call { expr, args: largs } = l {
                lemma_defaults_grows(*called, *expr, m1, m2, structs, fuel);
                assert forall|i: int| 0 <= i < args@.len() implies defaults_translated(#[trigger] args@[i], largs@[i], m2, structs, fuel) by {
                    lemma_defaults_grows(args@[i], largs@[i], m1, m2, structs, fuel);
                }
            }
        },
        TypedExpression::Cast { casted, .. } => {
            lemma_defaults_grows(*casted, l, m1, m2, structs, fuel);
        },
        TypedExpression::Construction { type_id, args, .. } => {
            if let LuaExpr::Table { members } = l {
                assert forall|i: int| 0 <= i < args@.len() implies defaults_translated(args@[i].1, (#[trigger] members@[i]).1, m2, structs, fuel) by {
                    lemma_defaults_grows(args@[i].1, members@[i].1, m1, m2, structs, fuel);
                }
                if let Some(d) = struct_with_id(structs, type_id) {
                    let om = omitted_defaults(d.members@, args@);
                    assert forall|j: int| 0 <= j < om.len() implies default_written(
                        om[j].init,
                        (#[trigger] members@[args@.len() + j]).1,
                        m2,
                        structs,
                        fuel,
                    ) by {
                        lemma_default_written_grows(om[j].init, members@[args@.len() + j].1, m1, m2, structs, fuel);
                    }
                }
            }
        },
        _ => {},
    }
}

/// The expression a shared pointer points to.
pub open spec fn shared_value(e: Arc<TypedExpression>) -> TypedExpression {
    *e
}

/// A written default stays written when more ids get names.
pub proof fn lemma_default_written_grows(
    init: Option<Arc<TypedExpression>>,
    v: LuaExpr,
    m1: Seq<(u128, usize)>,
    m2: Seq<(u128, usize)>,
    structs: Seq<Arc<StructDef>>,
    fuel: nat,
)
    requires
        default_written(init, v, m1, structs, fuel),
        map_grows(m1, m2),
    ensures
        default_written(init, v, m2, structs, fuel),
    decreases fuel, 0nat,
{
    if let Some(e) = init {
        if fuel > 0 {
            lemma_translated_grows(shared_value(e), v, m1, m2);
            lemma_defaults_grows(shared_value(e), v, m1, m2, structs, (fuel - 1) as nat);
        }
    }
}

/// The string as a Lua string literal.
pub fn lua_quote(s: &str) -> (r: String)
    ensures
        r@ == quoted(s@),
{
    let chars = crate::text::str_to_chars(s);
    let mut out = String::new();
    push_char(&mut out, '"');
    let mut i: usize = 0;
    while i < chars.len()
        invariant
            i <= chars@.len(),
            out@ == seq!['"'] + escape_text(chars@.subrange(0, i as int)),
        decreases chars@.len() - i,
    {
        let c = chars[i];
        if c == '"' {
            push_char(&mut out, '\\');
            push_char(&mut out, '"');
        } else if c == '\\' {
            push_char(&mut out, '\\');
            push_char(&mut out, '\\');
        } else if c == '\n' {
            push_char(&mut out, '\\');
            push_char(&mut out, 'n');
        } else {
            push_char(&mut out, c);
        }
        proof {
            let sub = chars@.subrange(0, i + 1);
            assert(sub.drop_last() =~= chars@.subrange(0, i as int));
            assert(sub.last() == c);
            assert(out@ =~= seq!['"'] + escape_text(sub));
        }
        i += 1;
    }
    assert(chars@.subrange(0, i as int) =~= s@);
    push_char(&mut out, '"');
    assert(out@ =~= quoted(s@));
    out
}

/// The Lua name of a struct member.
pub fn to_member_name(name: &str) -> (r: String)
    ensures
        r@ == member_name(name@),
{
    let mut out = to_owned_string("m_");
    push_str(&mut out, name);
    out
}

/// What translating reads and keeps: the names, the Lua name of `self` in the
/// current function, the checked structs, and the labels that `continue` jumps to.
pub struct TranspileContext {
    pub resolver: IdResolver,
    pub self_var: Option<String>,
    pub structs: Vec<Arc<StructDef>>,
    pub loop_labels: Vec<String>,
}

impl TranspileContext {
    pub fn new(structs: &Vec<Arc<StructDef>>) -> (r: Self)
        ensures
            r.resolver.wf(),
            r.resolver.entries().len() == 0,
            r.self_var is None,
            r.structs@ == structs@,
            r.loop_labels@.len() == 0,
    {
        let mut copies: Vec<Arc<StructDef>> = Vec::new();
        let mut i: usize = 0;
        while i < structs.len()
            invariant
                i <= structs@.len(),
                copies@ == structs@.subrange(0, i as int),
            decreases structs@.len() - i,
        {
            copies.push(structs[i].clone());
            i += 1;
            assert(copies@ =~= structs@.subrange(0, i as int));
        }
        assert(structs@.subrange(0, i as int) =~= structs@);
        TranspileContext { resolver: IdResolver::new(), self_var: None, structs: copies, loop_labels: Vec::new() }
    }
}

/// Only the names changed.
pub open spec fn only_names_grew(before: TranspileContext, after: TranspileContext) -> bool {
    &&& after.resolver.grows_from(before.resolver)
    &&& after.structs@ == before.structs@
    &&& after.self_var == before.self_var
    &&& after.loop_labels@ == before.loop_labels@
}

fn find_struct_def(structs: &Vec<Arc<StructDef>>, id: u128) -> (r: Option<Arc<StructDef>>)
    ensures
        r matches Some(d) ==> d.id == id && structs@.contains(d),
        r is None ==> forall|k: int| 0 <= k < structs@.len() ==> (#[trigger] structs@[k]).id != id,
        r == struct_with_id(structs@, id),
{
    let mut i: usize = 0;
    while i < structs.len()
        invariant
            i <= structs@.len(),
            forall|k: int| 0 <= k < i ==> (#[trigger] structs@[k]).id != id,
        decreases structs@.len() - i,
    {
        if structs[i].id == id {
            proof {
                assert(first_with_id(structs@, id, i as int));
                assert forall|k: int| first_with_id(structs@, id, k) implies k == i by {
                    if k > i {
                        assert(structs@[i as int].id == id);
                    }
                }
            }
            return Some(structs[i].clone());
        }
        i += 1;
    }
    proof {
        assert forall|k: int| !first_with_id(structs@, id, k) by {
            if 0 <= k < structs@.len() {
                assert(structs@[k].id != id);
            }
        }
    }
    None
}

fn has_member_named(args: &Vec<(String, TypedExpression)>, name: &String) -> (r: bool)
    ensures
        r == exists|k: int| 0 <= k < args@.len() && (#[trigger] args@[k]).0@ == name@,
{
    let mut i: usize = 0;
    while i < args.len()
        invariant
            i <= args@.len(),
            forall|k: int| 0 <= k < i ==> (#[trigger] args@[k]).0@ != name@,
        decreases args@.len() - i,
    {
        if crate::text::str_eq(args[i].0.as_str(), name.as_str()) {
            return true;
        }
        i += 1;
    }
    false
}

/// How many struct defaults may nest inside one another when a construction is
/// translated; a default nested deeper is written as `nil`.
pub const DEFAULT_NESTING: usize = 64;

/// Translates a checked expression to Lua.
pub fn visit_expr(expr: &TypedExpression, context: &mut TranspileContext) -> (r: LuaExpr)
    ensures
        only_names_grew(*old(context), *final(context)),
        expr_translated(*expr, r, final(context).resolver.entries()),
        defaults_translated(*expr, r, final(context).resolver.entries(), old(context).structs@, DEFAULT_NESTING as nat),
{
    visit_expr_within(expr, context, DEFAULT_NESTING)
}

/// Translates a checked expression, letting struct defaults nest `fuel` deep.
#[verifier::loop_isolation(false)]
fn visit_expr_within(expr: &TypedExpression, context: &mut TranspileContext, fuel: usize) -> (r: LuaExpr)
    ensures
        only_names_grew(*old(context), *final(context)),
        expr_translated(*expr, r, final(context).resolver.entries()),
        defaults_translated(*expr, r, final(context).resolver.entries(), old(context).structs@, fuel as nat),
    decreases fuel, *expr,
{
    match expr {
        TypedExpression::Literal { value, .. } => match value {
            LitVal::String(s) => LuaExpr::Literal(LuaLit::String(lua_quote(s.as_str()))),
            LitVal::Int(n) => LuaExpr::Literal(LuaLit::Int(*n)),
            LitVal::Float(f) => LuaExpr::Literal(LuaLit::Float(f.clone())),
            LitVal::Bool(b) => {
                if *b {
                    LuaExpr::Literal(LuaLit::True)
                } else {
                    LuaExpr::Literal(LuaLit::False)
                }
            },
            LitVal::Null => LuaExpr::Literal(LuaLit::Nil),
            LitVal::SelfVal => match &context.self_var {
                Some(name) => LuaExpr::Id(name.clone()),
                None => LuaExpr::Id(to_owned_string("self")),
            },
        },
        TypedExpression::Array { expressions, .. } => {
            let vs = visit_exprs_within(expressions, context, fuel);
            LuaExpr::Array(vs)
        },
        TypedExpression::Identifier { id, .. } => {
            let num = match id {
                TypedIdentifier::Function(f) => *f,
                TypedIdentifier::Variable(v) => *v,
            };
            LuaExpr::Id(context.resolver.resolve(num))
        },
        TypedExpression::Binary { left, op, right, returned, .. } => {
            let l = visit_expr_within(left, context, fuel);
            let ghost m1 = context.resolver.entries();
            let r = visit_expr_within(right, context, fuel);
            proof {
                lemma_translated_grows(**left, l, m1, context.resolver.entries());
                lemma_defaults_grows(**left, l, m1, context.resolver.entries(), context.structs@, fuel as nat);
            }
            let lop = if *op == BinaryOpType::Plus && returned.same(&TypeInfo::Primary(STRING_ID)) {
                LuaBinaryOp::Concat
            } else {
                LuaBinaryOp::from_op(*op)
            };
            LuaExpr::Binary { left: Box::new(l), op: lop, right: Box::new(r) }
        },
        TypedExpression::Unary { operand, op, .. } => {
            let e = visit_expr_within(operand, context, fuel);
            LuaExpr::Unary { expr: Box::new(e), op: LuaUnaryOp::from_op(*op) }
        },
        TypedExpression::Call { called, args, .. } => {
            let e = visit_expr_within(called, context, fuel);
            let ghost m1 = context.resolver.entries();
            let a = visit_exprs_within(args, context, fuel);
            proof {
                lemma_translated_grows(**called, e, m1, context.resolver.entries());
                lemma_defaults_grows(**called, e, m1, context.resolver.entries(), context.structs@, fuel as nat);
            }
            LuaExpr::Call { expr: Box::new(e), args: a }
        },
        TypedExpression::Cast { casted, .. } => visit_expr_within(casted, context, fuel),
        TypedExpression::Construction { type_id, args, .. } => {
            let ghost structs = context.structs@;
            let mut members: Vec<(String, LuaExpr)> = Vec::new();
            let mut i: usize = 0;
            while i < args.len()
                invariant
                    i <= args@.len(),
                    members@.len() == i,
                    only_names_grew(*old(context), *context),
                    structs == old(context).structs@,
                    forall|k: int| 0 <= k < i ==> {
                        &&& (#[trigger] members@[k]).0@ == member_name(args@[k].0@)
                        &&& expr_translated(args@[k].1, members@[k].1, context.resolver.entries())
                        &&& defaults_translated(args@[k].1, members@[k].1, context.resolver.entries(), structs, fuel as nat)
                    },
                decreases args@.len() - i,
            {
                assert(decreases_to!(*expr => args@[i as int].1));
                let ghost m1 = context.resolver.entries();
                let ghost before = members@;
                let e = visit_expr_within(&args[i].1, context, fuel);
                let name = to_member_name(args[i].0.as_str());
                members.push((name, e));
                proof {
                    assert forall|k: int| 0 <= k < i + 1 implies {
                        &&& (#[trigger] members@[k]).0@ == member_name(args@[k].0@)
                        &&& expr_translated(args@[k].1, members@[k].1, context.resolver.entries())
                        &&& defaults_translated(args@[k].1, members@[k].1, context.resolver.entries(), structs, fuel as nat)
                    } by {
                        if k < i {
                            assert(members@[k] == before[k]);
                            lemma_translated_grows(args@[k].1, before[k].1, m1, context.resolver.entries());
                            lemma_defaults_grows(args@[k].1, before[k].1, m1, context.resolver.entries(), structs, fuel as nat);
                        }
                    }
                }
                i += 1;
            }
            let n = members.len();
            let def = find_struct_def(&context.structs, *type_id);
            if let Some(def) = def {
                let mut j: usize = 0;
                proof {
                    assert(def.members@.subrange(0, 0) =~= Seq::<TypeDefMember>::empty());
                }
                while j < def.members.len()
                    invariant
                        j <= def.members@.len(),
                        n == args@.len(),
                        only_names_grew(*old(context), *context),
                        structs == old(context).structs@,
                        forall|k: int| 0 <= k < n ==> {
                            &&& (#[trigger] members@[k]).0@ == member_name(args@[k].0@)
                            &&& expr_translated(args@[k].1, members@[k].1, context.resolver.entries())
                            &&& defaults_translated(args@[k].1, members@[k].1, context.resolver.entries(), structs, fuel as nat)
                        },
                        members@.len() == n + omitted_defaults(def.members@.subrange(0, j as int), args@).len(),
                        forall|q: int| 0 <= q < omitted_defaults(def.members@.subrange(0, j as int), args@).len() ==> {
                            &&& (#[trigger] members@[n + q]).0@ == member_name(omitted_defaults(def.members@.subrange(0, j as int), args@)[q].name@)
                            &&& default_written(
                                omitted_defaults(def.members@.subrange(0, j as int), args@)[q].init,
                                members@[n + q].1,
                                context.resolver.entries(),
                                structs,
                                fuel as nat,
                            )
                        },
                    decreases def.members@.len() - j,
                {
                    let m = &def.members[j];
                    let ghost om = omitted_defaults(def.members@.subrange(0, j as int), args@);
                    let ghost sub = def.members@.subrange(0, j + 1);
                    proof {
                        assert(sub.drop_last() =~= def.members@.subrange(0, j as int));
                        assert(sub.last() == def.members@[j as int]);
                    }
                    if !has_member_named(args, &m.name) {
                        if let Some(init) = &m.init {
                            let ghost m1 = context.resolver.entries();
                            let ghost before = members@;
                            let e = if fuel > 0 {
                                visit_expr_within(&**init, context, fuel - 1)
                            } else {
                                LuaExpr::Literal(LuaLit::Nil)
                            };
                            let name = to_member_name(m.name.as_str());
                            members.push((name, e));
                            proof {
                                assert(omitted_defaults(sub, args@) == om.push(def.members@[j as int]));
                                assert forall|k: int| 0 <= k < n implies {
                                    &&& (#[trigger] members@[k]).0@ == member_name(args@[k].0@)
                                    &&& expr_translated(args@[k].1, members@[k].1, context.resolver.entries())
                                    &&& defaults_translated(args@[k].1, members@[k].1, context.resolver.entries(), structs, fuel as nat)
                                } by {
                                    assert(members@[k] == before[k]);
                                    lemma_translated_grows(args@[k].1, before[k].1, m1, context.resolver.entries());
                                    lemma_defaults_grows(args@[k].1, before[k].1, m1, context.resolver.entries(), structs, fuel as nat);
                                }
                                assert forall|q: int| 0 <= q < om.len() + 1 implies {
                                    &&& (#[trigger] members@[n + q]).0@ == member_name(om.push(def.members@[j as int])[q].name@)
                                    &&& default_written(
                                        om.push(def.members@[j as int])[q].init,
                                        members@[n + q].1,
                                        context.resolver.entries(),
                                        structs,
                                        fuel as nat,
                                    )
                                } by {
                                    if q < om.len() {
                                        assert(members@[n + q] == before[n + q]);
                                        lemma_default_written_grows(om[q].init, before[n + q].1, m1, context.resolver.entries(), structs, fuel as nat);
                                    }
                                }
                            }
                        } else {
                            assert(omitted_defaults(sub, args@) == om);
                        }
                    } else {
                        assert(omitted_defaults(sub, args@) == om);
                    }
                    j += 1;
                }
                proof {
                    assert(def.members@.subrange(0, j as int) =~= def.members@);
                }
            }
            LuaExpr::Table { members }
        },
    }
}

/// Translates expressions in order.
pub fn visit_exprs(es: &Vec<TypedExpression>, context: &mut TranspileContext) -> (r: Vec<LuaExpr>)
    ensures
        only_names_grew(*old(context), *final(context)),
        r@.len() == es@.len(),
        forall|i: int| 0 <= i < es@.len() ==> expr_translated(#[trigger] es@[i], r@[i], final(context).resolver.entries()),
        forall|i: int| 0 <= i < es@.len() ==> defaults_translated(#[trigger] es@[i], r@[i], final(context).resolver.entries(), old(context).structs@, DEFAULT_NESTING as nat),
{
    visit_exprs_within(es, context, DEFAULT_NESTING)
}

fn visit_exprs_within(es: &Vec<TypedExpression>, context: &mut TranspileContext, fuel: usize) -> (r: Vec<LuaExpr>)
    ensures
        only_names_grew(*old(context), *final(context)),
        r@.len() == es@.len(),
        forall|i: int| 0 <= i < es@.len() ==> expr_translated(#[trigger] es@[i], r@[i], final(context).resolver.entries()),
        forall|i: int| 0 <= i < es@.len() ==> defaults_translated(#[trigger] es@[i], r@[i], final(context).resolver.entries(), old(context).structs@, fuel as nat),
    decreases fuel, es@,
{
    let ghost structs = context.structs@;
    let mut out: Vec<LuaExpr> = Vec::new();
    let mut i: usize = 0;
    while i < es.len()
        invariant
            i <= es@.len(),
            out@.len() == i,
            only_names_grew(*old(context), *context),
            structs == old(context).structs@,
            forall|k: int| 0 <= k < i ==> expr_translated(#[trigger] es@[k], out@[k], context.resolver.entries()),
            forall|k: int| 0 <= k < i ==> defaults_translated(#[trigger] es@[k], out@[k], context.resolver.entries(), structs, fuel as nat),
        decreases es@.len() - i,
    {
        assert(decreases_to!(es@ => es@[i as int]));
        let ghost m1 = context.resolver.entries();
        let ghost before = out@;
        let e = visit_expr_within(&es[i], context, fuel);
        out.push(e);
        proof {
            assert forall|k: int| 0 <= k < i + 1 implies expr_translated(#[trigger] es@[k], out@[k], context.resolver.entries()) by {
                if k < i {
                    assert(out@[k] == before[k]);
                    lemma_translated_grows(es@[k], before[k], m1, context.resolver.entries());
                }
            }
            assert forall|k: int| 0 <= k < i + 1 implies defaults_translated(#[trigger] es@[k], out@[k], context.resolver.entries(), structs, fuel as nat) by {
                if k < i {
                    assert(out@[k] == before[k]);
                    lemma_defaults_grows(es@[k], before[k], m1, context.resolver.entries(), structs, fuel as nat);
                }
            }
        }
        i += 1;
    }
    out
}

/// The value the first variable with id `id` was declared with.
pub open spec fn var_init(vars: Seq<VarDef>, id: u128) -> Option<TypedExpression>
    decreases vars.len(),
{
    if vars.len() == 0 {
        None
    } else if vars[0].id == id {
        match vars[0].initializer {
            Some(e) => Some(*e),
            None => None,
        }
    } else {
        var_init(vars.drop_first(), id)
    }
}

/// `l` is the Lua form of the checked statement `t`, names given by `m` and the
/// declared values of variables by `vars`: a `let` assigns its variable, an
/// expression statement is passed to the expression invoker, a loop ends its
/// body with the label that `continue` jumps to, and a `for` asks its iterator
/// for the next value until it gives `nil`.
pub open spec fn stmt_translated(t: TypedStatement, l: LuaStmt, m: Seq<(u128, usize)>, vars: Seq<VarDef>) -> bool
    decreases t,
{
    match t {
        TypedStatement::Let(id) => match l {
            LuaStmt::Assign { pairs } => {
                &&& pairs@.len() == 1
                &&& match lookup_id(m, id) {
                    Some(k) => pairs@[0].0@ == var_name(k),
                    None => false,
                }
                &&& (var_init(vars, id) matches Some(e) ==> expr_translated(e, *pairs@[0].1, m))
            },
            _ => false,
        },
        TypedStatement::Expr(e) => match l {
            LuaStmt::Call { expr, args } => {
                &&& (match *expr {
                    LuaExpr::Id(n) => n@ == INVOKE_EXPR_FUNC@,
                    _ => false,
                })
                &&& args@.len() == 1
                &&& expr_translated(*e, args@[0], m)
            },
            _ => false,
        },
        TypedStatement::Assign { assigned, expression } => match l {
            LuaStmt::AssignExpr { assigned: la, value } => expr_translated(*assigned, *la, m) && expr_translated(*expression, *value, m),
            _ => false,
        },
        TypedStatement::Block(ss) => match l {
            LuaStmt::Block { stmts } => stmts@.len() == ss@.len() && forall|i: int| 0 <= i < ss@.len() ==> stmt_translated(
                #[trigger] ss@[i],
                stmts@[i],
                m,
                vars,
            ),
            _ => false,
        },
        TypedStatement::If { expression, body, else_block } => match l {
            LuaStmt::If { condition, body: lb, else_body } => {
                &&& expr_translated(*expression, *condition, m)
                &&& lb@.len() == 1
                &&& stmt_translated(*body, lb@[0], m, vars)
                &&& match else_block {
                    Some(e) => match else_body {
                        Some(le) => le@.len() == 1 && stmt_translated(*e, le@[0], m, vars),
                        None => false,
                    },
                    None => else_body is None,
                }
            },
            _ => false,
        },
        TypedStatement::Break => l is Break,
        TypedStatement::Continue => l is Goto,
        TypedStatement::Return { returned, .. } => match l {
            LuaStmt::Return(r) => match returned {
                Some(e) => match r {
                    Some(le) => expr_translated(*e, *le, m),
                    None => false,
                },
                None => r is None,
            },
            _ => false,
        },
        TypedStatement::While { condition, body } => match l {
            LuaStmt::While { cond, stmts } => {
                &&& expr_translated(*condition, *cond, m)
                &&& stmts@.len() == 2
                &&& stmt_translated(*body, stmts@[0], m, vars)
                &&& stmts@[1] is Label
            },
            _ => false,
        },
        TypedStatement::For { var_id, condition, body } => match l {
            LuaStmt::Block { stmts } => {
                &&& stmts@.len() == 2
                &&& match stmts@[0] {
                    LuaStmt::LocalDecl { pairs } => pairs@.len() == 1 && expr_translated(*condition, *pairs@[0].1, m),
                    _ => false,
                }
                &&& match stmts@[1] {
                    LuaStmt::While { stmts: ws, .. } => {
                        &&& ws@.len() == 4
                        &&& match ws@[0] {
                            LuaStmt::Assign { pairs } => pairs@.len() == 1 && match lookup_id(m, var_id) {
                                Some(k) => pairs@[0].0@ == var_name(k),
                                None => false,
                            },
                            _ => false,
                        }
                        &&& ws@[1] is If
                        &&& stmt_translated(*body, ws@[2], m, vars)
                        &&& ws@[3] is Label
                    },
                    _ => false,
                }
            },
            _ => false,
        },
    }
}

/// A statement translation stays one when more ids get names.
pub proof fn lemma_stmt_translated_grows(t: TypedStatement, l: LuaStmt, m1: Seq<(u128, usize)>, m2: Seq<(u128, usize)>, vars: Seq<VarDef>)
    requires
        stmt_translated(t, l, m1, vars),
        map_grows(m1, m2),
    ensures
        stmt_translated(t, l, m2, vars),
    decreases t,
{
    match t {
        TypedStatement::Let(id) => {
            if let LuaStmt::Assign { pairs } = l {
                assert(lookup_id(m1, id) is Some);
                if let Some(e) = var_init(vars, id) {
                    lemma_translated_grows(e, *pairs@[0].1, m1, m2);
                }
            }
        },
        TypedStatement::Expr(e) => {
            if let LuaStmt::Call { args, .. } = l {
                lemma_translated_grows(*e, args@[0], m1, m2);
            }
        },
        TypedStatement::Assign { assigned, expression } => {
            if let LuaStmt::AssignExpr { assigned: la, value } = l {
                lemma_translated_grows(*assigned, *la, m1, m2);
                lemma_translated_grows(*expression, *value, m1, m2);
            }
        },
        TypedStatement::Block(ss) => {
            if let LuaStmt::Block { stmts } = l {
                assert forall|i: int| 0 <= i < ss@.len() implies stmt_translated(#[trigger] ss@[i], stmts@[i], m2, vars) by {
                    lemma_stmt_translated_grows(ss@[i], stmts@[i], m1, m2, vars);
                }
            }
        },
        TypedStatement::If { expression, body, else_block } => {
            if let LuaStmt::If { condition, body: lb, else_body } = l {
                lemma_translated_grows(*expression, *condition, m1, m2);
                lemma_stmt_translated_grows(*body, lb@[0], m1, m2, vars);
                if let Some(e) = else_block {
                    if let Some(le) = else_body {
                        lemma_stmt_translated_grows(*e, le@[0], m1, m2, vars);
                    }
                }
            }
        },
        TypedStatement::Return { returned, .. } => {
            if let LuaStmt::Return(r) = l {
                if let Some(e) = returned {
                    if let Some(le) = r {
                        lemma_translated_grows(*e, *le, m1, m2);
                    }
                }
            }
        },
        TypedStatement::While { condition, body } => {
            if let LuaStmt::While { cond, stmts } = l {
                lemma_translated_grows(*condition, *cond, m1, m2);
                lemma_stmt_translated_grows(*body, stmts@[0], m1, m2, vars);
            }
        },
        TypedStatement::For { var_id, condition, body } => {
            if let LuaStmt::Block { stmts } = l {
                if let LuaStmt::LocalDecl { pairs } = stmts@[0] {
                    lemma_translated_grows(*condition, *pairs@[0].1, m1, m2);
                }
                if let LuaStmt::While { stmts: ws, .. } = stmts@[1] {
                    assert(lookup_id(m1, var_id) is Some);
                    lemma_stmt_translated_grows(*body, ws@[2], m1, m2, vars);
                }
            }
        },
        _ => {},
    }
}

fn find_var_init(vars: &Vec<VarDef>, id: u128) -> (r: Option<&TypedExpression>)
    ensures
        match r {
            Some(e) => var_init(vars@, id) == Some(*e),
            None => var_init(vars@, id) is None,
        },
{
    let ghost s = vars@;
    assert(s.subrange(0, s.len() as int) =~= s);
    let mut i: usize = 0;
    while i < vars.len()
        invariant
            i <= s.len(),
            s == vars@,
            var_init(s, id) == var_init(s.subrange(i as int, s.len() as int), id),
        decreases s.len() - i,
    {
        assert(s.subrange(i as int, s.len() as int).drop_first() =~= s.subrange(i + 1, s.len() as int));
        if vars[i].id == id {
            return match &vars[i].initializer {
                Some(e) => Some(&**e),
                None => None,
            };
        }
        i += 1;
    }
    None
}

fn nil_expr() -> (r: LuaExpr)
    ensures
        r == LuaExpr::Literal(LuaLit::Nil),
{
    LuaExpr::Literal(LuaLit::Nil)
}

/// Translates a checked statement to Lua; `vars` holds the function's variables.
#[verifier::loop_isolation(false)]
pub fn visit_stmt(stmt: &TypedStatement, context: &mut TranspileContext, vars: &Vec<VarDef>) -> (r: LuaStmt)
    ensures
        only_names_grew(*old(context), *final(context)),
        stmt_translated(*stmt, r, final(context).resolver.entries(), vars@),
    decreases *stmt,
{
    match stmt {
        TypedStatement::Let(id) => {
            let name = context.resolver.resolve(*id);
            let value = match find_var_init(vars, *id) {
                Some(e) => visit_expr(e, context),
                None => nil_expr(),
            };
            LuaStmt::Assign { pairs: vec![(name, Box::new(value))] }
        },
        TypedStatement::Expr(e) => {
            let expr = visit_expr(e, context);
            LuaStmt::Call { expr: Box::new(LuaExpr::Id(to_owned_string(INVOKE_EXPR_FUNC))), args: vec![expr] }
        },
        TypedStatement::Assign { assigned, expression } => {
            let a = visit_expr(assigned, context);
            let ghost m1 = context.resolver.entries();
            let v = visit_expr(expression, context);
            proof {
                lemma_translated_grows(**assigned, a, m1, context.resolver.entries());
            }
            LuaStmt::AssignExpr { assigned: Box::new(a), value: Box::new(v) }
        },
        TypedStatement::Block(stmts) => {
            let mut out: Vec<LuaStmt> = Vec::new();
            let mut i: usize = 0;
            while i < stmts.len()
                invariant
                    i <= stmts@.len(),
                    out@.len() == i,
                    only_names_grew(*old(context), *context),
                    forall|k: int| 0 <= k < i ==> stmt_translated(#[trigger] stmts@[k], out@[k], context.resolver.entries(), vars@),
                decreases stmts@.len() - i,
            {
                assert(decreases_to!(*stmt => stmts@[i as int]));
                let ghost m1 = context.resolver.entries();
                let ghost before = out@;
                let s = visit_stmt(&stmts[i], context, vars);
                out.push(s);
                proof {
                    assert forall|k: int| 0 <= k < i + 1 implies stmt_translated(#[trigger] stmts@[k], out@[k], context.resolver.entries(), vars@) by {
                        if k < i {
                            assert(out@[k] == before[k]);
                            lemma_stmt_translated_grows(stmts@[k], before[k], m1, context.resolver.entries(), vars@);
                        }
                    }
                }
                i += 1;
            }
            LuaStmt::Block { stmts: out }
        },
        TypedStatement::If { expression, body, else_block } => {
            let condition = visit_expr(expression, context);
            let ghost m1 = context.resolver.entries();
            let b = visit_stmt(body, context, vars);
            let ghost m2 = context.resolver.entries();
            proof {
                lemma_translated_grows(**expression, condition, m1, m2);
            }
            let else_body = match else_block {
                Some(e) => {
                    let l = visit_stmt(e, context, vars);
                    proof {
                        lemma_translated_grows(**expression, condition, m2, context.resolver.entries());
                        lemma_stmt_translated_grows(**body, b, m2, context.resolver.entries(), vars@);
                    }
                    Some(vec![l])
                },
                None => None,
            };
            LuaStmt::If { condition: Box::new(condition), body: vec![b], else_body }
        },
        TypedStatement::Break => LuaStmt::Break,
        TypedStatement::Continue => {
            let n = context.loop_labels.len();
            let label = if n > 0 {
                context.loop_labels[n - 1].clone()
            } else {
                to_owned_string("continue")
            };
            LuaStmt::Goto { label }
        },
        TypedStatement::Return { returned, .. } => match returned {
            Some(e) => {
                let l = visit_expr(e, context);
                LuaStmt::Return(Some(Box::new(l)))
            },
            None => LuaStmt::Return(None),
        },
        TypedStatement::While { condition, body } => {
            let label = context.resolver.make_var();
            let cond = visit_expr(condition, context);
            let ghost m1 = context.resolver.entries();
            let ghost labels = context.loop_labels@;
            context.loop_labels.push(label.clone());
            let b = visit_stmt(body, context, vars);
            context.loop_labels.pop();
            proof {
                assert(context.loop_labels@ =~= labels);
                lemma_translated_grows(**condition, cond, m1, context.resolver.entries());
            }
            LuaStmt::While { cond: Box::new(cond), stmts: vec![b, LuaStmt::Label(label)] }
        },
        TypedStatement::For { var_id, condition, body } => {
            let iter_name = context.resolver.make_var();
            let label = context.resolver.make_var();
            let cond = visit_expr(condition, context);
            let ghost m1 = context.resolver.entries();
            let var = context.resolver.resolve(*var_id);
            let ghost m2 = context.resolver.entries();
            let ghost labels = context.loop_labels@;
            context.loop_labels.push(label.clone());
            let b = visit_stmt(body, context, vars);
            context.loop_labels.pop();
            proof {
                assert(context.loop_labels@ =~= labels);
                lemma_translated_grows(**condition, cond, m1, context.resolver.entries());
                assert(lookup_id(m2, *var_id) is Some);
            }
            let next = LuaStmt::Assign {
                pairs: vec![(var.clone(), Box::new(LuaExpr::Call { expr: Box::new(LuaExpr::Id(iter_name.clone())), args: Vec::new() }))],
            };
            let is_done = LuaExpr::Binary { left: Box::new(LuaExpr::Id(var)), op: LuaBinaryOp::Eq, right: Box::new(nil_expr()) };
            let stop = LuaStmt::If { condition: Box::new(is_done), body: vec![LuaStmt::Break], else_body: None };
            let lua_loop = LuaStmt::While {
                cond: Box::new(LuaExpr::Literal(LuaLit::True)),
                stmts: vec![next, stop, b, LuaStmt::Label(label)],
            };
            LuaStmt::Block { stmts: vec![LuaStmt::LocalDecl { pairs: vec![(iter_name, Box::new(cond))] }, lua_loop] }
        },
    }
}

/// The translated body of a function: its statements, after a declaration of
/// its local variables when it has any.
pub open spec fn func_body_translated(l: LuaStmt, block: TypedStatement, m: Seq<(u128, usize)>, vars: Seq<VarDef>) -> bool {
    ||| stmt_translated(block, l, m, vars)
    ||| match l {
        LuaStmt::Block { stmts } => stmts@.len() == 2 && stmts@[0] is LocalDecl && stmt_translated(block, stmts@[1], m, vars),
        _ => false,
    }
}

/// The Lua name `a` is the name of `id` under `m`.
pub open spec fn arg_named(a: String, m: Seq<(u128, usize)>, id: u128) -> bool {
    match lookup_id(m, id) {
        Some(k) => a@ == var_name(k),
        None => false,
    }
}

/// Each parameter name is the Lua name of its parameter.
pub open spec fn args_named(args: Seq<String>, params: Seq<crate::validation::defs::FuncDefParam>, m: Seq<(u128, usize)>) -> bool {
    &&& args.len() == params.len()
    &&& forall|i: int| 0 <= i < args.len() ==> #[trigger] arg_named(args[i], m, params[i].id)
}

/// `s` defines checked function `f` under the names `m`: `v_N = function(args)
/// body end`, with the name of `f`, the names of its parameters, and a
/// translation of its body.
pub open spec fn defines_func(s: LuaStmt, f: FuncDef, m: Seq<(u128, usize)>) -> bool {
    match f.body {
        Some(body) => match s {
            LuaStmt::Assign { pairs } => {
                &&& pairs@.len() == 1
                &&& lookup_id(m, f.id) matches Some(k) && pairs@[0].0@ == var_name(k)
                &&& match *pairs@[0].1 {
                    LuaExpr::FuncDef { args, body: lb } => {
                        &&& args_named(args@, f.params@, m)
                        &&& lb@.len() == 1
                        &&& func_body_translated(lb@[0], *body.block, m, body.vars@)
                    },
                    _ => false,
                }
            },
            _ => false,
        },
        None => false,
    }
}

/// A definition stays one when more ids are named.
pub proof fn lemma_defines_func_grows(s: LuaStmt, f: FuncDef, m1: Seq<(u128, usize)>, m2: Seq<(u128, usize)>)
    requires
        defines_func(s, f, m1),
        map_grows(m1, m2),
    ensures
        defines_func(s, f, m2),
{
    if let Some(body) = f.body {
        if let LuaStmt::Assign { pairs } = s {
            assert(lookup_id(m1, f.id) is Some);
            if let LuaExpr::FuncDef { args, body: lb } = *pairs@[0].1 {
                let l = lb@[0];
                if stmt_translated(*body.block, l, m1, body.vars@) {
                    lemma_stmt_translated_grows(*body.block, l, m1, m2, body.vars@);
                } else {
                    if let LuaStmt::Block { stmts } = l {
                        lemma_stmt_translated_grows(*body.block, stmts@[1], m1, m2, body.vars@);
                    }
                }
                assert forall|i: int| 0 <= i < args@.len() implies #[trigger] arg_named(args@[i], m2, f.params@[i].id) by {
                    assert(arg_named(args@[i], m1, f.params@[i].id));
                    assert(lookup_id(m1, f.params@[i].id) is Some);
                }
            }
        }
    }
}

fn is_param_id(params: &Vec<crate::validation::defs::FuncDefParam>, id: u128) -> (r: bool)
    ensures
        r == exists|k: int| 0 <= k < params@.len() && (#[trigger] params@[k]).id == id,
{
    let mut i: usize = 0;
    while i < params.len()
        invariant
            i <= params@.len(),
            forall|k: int| 0 <= k < i ==> (#[trigger] params@[k]).id != id,
        decreases params@.len() - i,
    {
        if params[i].id == id {
            return true;
        }
        i += 1;
    }
    false
}

/// Translates a checked function to `v_N = function(args) body end`; built-in
/// functions, which have no body, give nothing.
pub fn visit_func_def(context: &mut TranspileContext, def: &FuncDef) -> (r: Option<LuaStmt>)
    ensures
        only_names_grew(*old(context), *final(context)),
        def.body is None ==> r is None,
        def.body is Some ==> (r matches Some(s) && defines_func(s, *def, final(context).resolver.entries())),
{
    let def_body = match &def.body {
        Some(b) => b,
        None => return None,
    };
    let name = context.resolver.resolve(def.id);
    let ghost m0 = context.resolver.entries();
    let saved_self: Option<String> = match &context.self_var {
        Some(s) => Some(s.clone()),
        None => None,
    };
    let mut args: Vec<String> = Vec::new();
    let mut i: usize = 0;
    while i < def.params.len()
        invariant
            i <= def.params@.len(),
            args@.len() == i,
            context.resolver.grows_from(old(context).resolver),
            map_grows(m0, context.resolver.entries()),
            context.structs@ == old(context).structs@,
            context.loop_labels@ == old(context).loop_labels@,
            forall|k: int| 0 <= k < i ==> match lookup_id(context.resolver.entries(), (#[trigger] def.params@[k]).id) {
                Some(n) => args@[k]@ == var_name(n),
                None => false,
            },
        decreases def.params@.len() - i,
    {
        let p = &def.params[i];
        let ghost m1 = context.resolver.entries();
        let arg = context.resolver.resolve(p.id);
        if crate::text::str_eq(p.name.as_str(), "self") {
            context.self_var = Some(arg.clone());
        }
        args.push(arg);
        proof {
            assert forall|k: int| 0 <= k < i + 1 implies match lookup_id(context.resolver.entries(), (#[trigger] def.params@[k]).id) {
                Some(n) => args@[k]@ == var_name(n),
                None => false,
            } by {
                if k < i {
                    assert(lookup_id(m1, def.params@[k].id) is Some);
                }
            }
        }
        i += 1;
    }
    let mut locals: Vec<(String, Box<LuaExpr>)> = Vec::new();
    let mut j: usize = 0;
    while j < def_body.vars.len()
        invariant
            j <= def_body.vars@.len(),
            context.resolver.grows_from(old(context).resolver),
            map_grows(m0, context.resolver.entries()),
            context.structs@ == old(context).structs@,
            context.loop_labels@ == old(context).loop_labels@,
            forall|k: int| 0 <= k < def.params@.len() ==> match lookup_id(context.resolver.entries(), (#[trigger] def.params@[k]).id) {
                Some(n) => args@[k]@ == var_name(n),
                None => false,
            },
            args@.len() == def.params@.len(),
        decreases def_body.vars@.len() - j,
    {
        let v = &def_body.vars[j];
        if !is_param_id(&def.params, v.id) {
            let ghost m1 = context.resolver.entries();
            let local = context.resolver.resolve(v.id);
            locals.push((local, Box::new(nil_expr())));
            proof {
                assert forall|k: int| 0 <= k < def.params@.len() implies match lookup_id(context.resolver.entries(), (#[trigger] def.params@[k]).id) {
                    Some(n) => args@[k]@ == var_name(n),
                    None => false,
                } by {
                    assert(lookup_id(m1, def.params@[k].id) is Some);
                }
            }
        }
        j += 1;
    }
    let ghost m2 = context.resolver.entries();
    let block = visit_stmt(&def_body.block, context, &def_body.vars);
    proof {
        assert forall|k: int| 0 <= k < def.params@.len() implies match lookup_id(context.resolver.entries(), (#[trigger] def.params@[k]).id) {
            Some(n) => args@[k]@ == var_name(n),
            None => false,
        } by {
            assert(lookup_id(m2, def.params@[k].id) is Some);
        }
        assert(lookup_id(m0, def.id) is Some);
    }
    let func_body = if locals.len() > 0 {
        LuaStmt::Block { stmts: vec![LuaStmt::LocalDecl { pairs: locals }, block] }
    } else {
        block
    };
    context.self_var = saved_self;
    let value = Box::new(LuaExpr::FuncDef { args, body: vec![func_body] });
    Some(LuaStmt::Assign { pairs: vec![(name, value)] })
}

/// Appends the call of `main` that starts the program.
pub fn create_main_invoker(stmts: &mut Vec<LuaStmt>, resolver: &mut IdResolver, main_id: u128)
    ensures
        final(resolver).grows_from(*old(resolver)),
        final(stmts)@.len() == old(stmts)@.len() + 1,
        forall|i: int| 0 <= i < old(stmts)@.len() ==> final(stmts)@[i] == old(stmts)@[i],
        match final(stmts)@.last() {
            LuaStmt::Call { expr, args } => args@.len() == 0 && match *expr {
                LuaExpr::Id(n) => lookup_id(final(resolver).entries(), main_id) matches Some(k) && n@ == var_name(k),
                _ => false,
            },
            _ => false,
        },
{
    let expr = LuaExpr::Id(resolver.resolve(main_id));
    stmts.push(LuaStmt::Call { expr: Box::new(expr), args: Vec::new() });
}

/// The shape of a program's translation: it begins by declaring one local name
/// per function, each set to `nil`, and its last statement calls, with no arguments, the name
/// declared for `main`.
pub open spec fn declares_then_calls_main(program: CheckedProgram, r: LuaProgram) -> bool {
    &&& r.stmts@.len() >= 15
    &&& match r.stmts@[0] {
        LuaStmt::LocalDecl { pairs } => {
            &&& pairs@.len() == program.funcs@.len()
            &&& forall|i: int| 0 <= i < pairs@.len() ==> *(#[trigger] pairs@[i]).1 == LuaExpr::Literal(LuaLit::Nil)
            &&& match r.stmts@.last() {
                LuaStmt::Call { expr, args } => args@.len() == 0 && match *expr {
                    LuaExpr::Id(n) => exists|i: int| 0 <= i < program.funcs@.len() && (#[trigger] program.funcs@[i]).id == program.main
                        && pairs@[i].0@ == n@,
                    _ => false,
                },
                _ => false,
            }
        },
        _ => false,
    }
}

/// Every checked function with a body is defined by some statement of `r`,
/// under the names `m`.
pub open spec fn defines_all(program: CheckedProgram, r: LuaProgram, m: Seq<(u128, usize)>) -> bool {
    forall|i: int|
        0 <= i < program.funcs@.len() && (#[trigger] program.funcs@[i]).body is Some ==> exists|j: int|
            0 <= j < r.stmts@.len() && defines_func(#[trigger] r.stmts@[j], *program.funcs@[i], m)
}

/// The Lua program of a checked program: every function declared first, the
/// built-in functions, every function's definition, and last the call of `main`.
pub fn transpile(program: &CheckedProgram) -> (r: LuaProgram)
    requires
        crate::validation::defs::has_single_main(program.funcs@, program.main),
    ensures
        declares_then_calls_main(*program, r),
        exists|m: Seq<(u128, usize)>| #[trigger] defines_all(*program, r, m),
{
    let mut context = TranspileContext::new(&program.structs);
    let mut lua_stmts: Vec<LuaStmt> = Vec::new();
    let mut pairs: Vec<(String, Box<LuaExpr>)> = Vec::new();
    let mut i: usize = 0;
    while i < program.funcs.len()
        invariant
            i <= program.funcs@.len(),
            pairs@.len() == i,
            forall|k: int| 0 <= k < i ==> *(#[trigger] pairs@[k]).1 == LuaExpr::Literal(LuaLit::Nil),
            forall|k: int| 0 <= k < i ==> match lookup_id(context.resolver.entries(), (#[trigger] program.funcs@[k]).id) {
                Some(n) => pairs@[k].0@ == var_name(n),
                None => false,
            },
        decreases program.funcs@.len() - i,
    {
        let ghost m1 = context.resolver.entries();
        let name = context.resolver.resolve(program.funcs[i].id);
        pairs.push((name, Box::new(nil_expr())));
        proof {
            assert forall|k: int| 0 <= k < i + 1 implies match lookup_id(context.resolver.entries(), (#[trigger] program.funcs@[k]).id) {
                Some(n) => pairs@[k].0@ == var_name(n),
                None => false,
            } by {
                if k < i {
                    assert(lookup_id(m1, program.funcs@[k].id) is Some);
                }
            }
        }
        i += 1;
    }
    let ghost decl_names = pairs@;
    let ghost m_decl = context.resolver.entries();
    lua_stmts.push(LuaStmt::LocalDecl { pairs });
    let ghost first = lua_stmts@[0];
    assert(match first {
        LuaStmt::LocalDecl { pairs } => pairs@ == decl_names,
        _ => false,
    });
    assert(forall|k: int| 0 <= k < decl_names.len() ==> *(#[trigger] decl_names[k]).1 == LuaExpr::Literal(LuaLit::Nil));
    append_builtins(&mut lua_stmts, &mut context.resolver);
    lua_stmts.push(LuaStmt::Spacer);
    lua_stmts.push(LuaStmt::Spacer);
    lua_stmts.push(LuaStmt::Comment(to_owned_string("Main function defs")));
    let mut i: usize = 0;
    while i < program.funcs.len()
        invariant
            i <= program.funcs@.len(),
            lua_stmts@.len() >= 11,
            lua_stmts@[0] == first,
            map_grows(m_decl, context.resolver.entries()),
            forall|k: int|
                0 <= k < i && (#[trigger] program.funcs@[k]).body is Some ==> exists|j: int|
                    0 <= j < lua_stmts@.len() && defines_func(
                        #[trigger] lua_stmts@[j],
                        *program.funcs@[k],
                        context.resolver.entries(),
                    ),
        decreases program.funcs@.len() - i,
    {
        let ghost m1 = context.resolver.entries();
        let ghost before = lua_stmts@;
        if let Some(f) = visit_func_def(&mut context, &program.funcs[i]) {
            let ghost fv = f;
            lua_stmts.push(f);
            assert(lua_stmts@[0] == before[0]);
            assert(lua_stmts@.last() == fv);
        }
        proof {
            let m2 = context.resolver.entries();
            assert(map_grows(m1, m2));
            assert forall|k: int|
                0 <= k < i + 1 && (#[trigger] program.funcs@[k]).body is Some implies exists|j: int|
                    0 <= j < lua_stmts@.len() && defines_func(#[trigger] lua_stmts@[j], *program.funcs@[k], m2) by {
                if k < i {
                    let j = choose|j: int| 0 <= j < before.len() && defines_func(#[trigger] before[j], *program.funcs@[k], m1);
                    lemma_defines_func_grows(before[j], *program.funcs@[k], m1, m2);
                    assert(lua_stmts@[j] == before[j]);
                } else {
                    let j = lua_stmts@.len() - 1;
                    assert(defines_func(lua_stmts@[j], *program.funcs@[k], m2));
                }
            }
        }
        i += 1;
    }
    let ghost defs = lua_stmts@;
    let ghost m_end = context.resolver.entries();
    lua_stmts.push(LuaStmt::Spacer);
    lua_stmts.push(LuaStmt::Spacer);
    lua_stmts.push(LuaStmt::Comment(to_owned_string("Main invoker function")));
    assert(forall|j: int| 0 <= j < defs.len() ==> lua_stmts@[j] == defs[j]);
    let ghost with_comments = lua_stmts@;
    create_main_invoker(&mut lua_stmts, &mut context.resolver, program.main);
    proof {
        let m_fin = context.resolver.entries();
        assert(map_grows(m_end, m_fin));
        let out = LuaProgram { stmts: lua_stmts };
        assert forall|k: int|
            0 <= k < program.funcs@.len() && (#[trigger] program.funcs@[k]).body is Some implies exists|j: int|
                0 <= j < out.stmts@.len() && defines_func(#[trigger] out.stmts@[j], *program.funcs@[k], m_fin) by {
            let j = choose|j: int| 0 <= j < defs.len() && defines_func(#[trigger] defs[j], *program.funcs@[k], m_end);
            lemma_defines_func_grows(defs[j], *program.funcs@[k], m_end, m_fin);
            assert(with_comments[j] == defs[j]);
            assert(out.stmts@[j] == with_comments[j]);
        }
        assert(defines_all(*program, out, m_fin));
        let k = choose|k: int| 0 <= k < program.funcs@.len() && (#[trigger] program.funcs@[k]).name@ == "main"@ && program.funcs@[k].id == program.main;
        assert(lookup_id(m_decl, program.funcs@[k].id) is Some);
        assert(lookup_id(m_end, program.main) == lookup_id(m_decl, program.main));
    }
    LuaProgram { stmts: lua_stmts }
}

} // verus!
