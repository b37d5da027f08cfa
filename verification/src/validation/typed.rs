use vstd::prelude::*;
use std::sync::Arc;
use crate::utils::TextLoc;
use super::types::{TypeInfo, Ty};
use super::operators::{BinaryOpType, UnaryOpType};

verus! {

/// What a name refers to: a function or a variable, by id.
#[derive(Debug, Clone, Copy, PartialEq, Eq, Structural)]
pub enum TypedIdentifier {
    Function(u128),
    Variable(u128),
}

/// The value of a literal.
#[derive(Debug)]
pub enum LitVal {
    String(String),
    Int(i64),
    Float(String),
    Bool(bool),
    Null,
    SelfVal,
}

/// A checked expression: each node carries its type and where it is.
#[derive(Debug)]
pub enum TypedExpression {
    Literal { value: LitVal, returned: TypeInfo, loc: TextLoc },
    Array { expressions: Vec<TypedExpression>, returned: TypeInfo, loc: TextLoc },
    Identifier { id: TypedIdentifier, returned: TypeInfo, loc: TextLoc },
    Binary { left: Box<TypedExpression>, op: BinaryOpType, right: Box<TypedExpression>, returned: TypeInfo, loc: TextLoc },
    Unary { operand: Box<TypedExpression>, op: UnaryOpType, returned: TypeInfo, loc: TextLoc },
    Call { called: Box<TypedExpression>, args: Vec<TypedExpression>, returned: TypeInfo, loc: TextLoc },
    Cast { casted: Box<TypedExpression>, type_info: TypeInfo, returned: TypeInfo, loc: TextLoc },
    Construction { type_id: u128, args: Vec<(String, TypedExpression)>, returned: TypeInfo, loc: TextLoc },
}

/// Where a checked expression is.
pub open spec fn typed_loc(e: TypedExpression) -> TextLoc {
    match e {
        TypedExpression::Literal { loc, .. } => loc,
        TypedExpression::Array { loc, .. } => loc,
        TypedExpression::Identifier { loc, .. } => loc,
        TypedExpression::Binary { loc, .. } => loc,
        TypedExpression::Unary { loc, .. } => loc,
        TypedExpression::Call { loc, .. } => loc,
        TypedExpression::Cast { loc, .. } => loc,
        TypedExpression::Construction { loc, .. } => loc,
    }
}

/// The type of a checked expression.
pub open spec fn ret_ty(t: TypedExpression) -> Ty {
    match t {
        TypedExpression::Literal { returned, .. } => returned@,
        TypedExpression::Array { returned, .. } => returned@,
        TypedExpression::Identifier { returned, .. } => returned@,
        TypedExpression::Binary { returned, .. } => returned@,
        TypedExpression::Unary { returned, .. } => returned@,
        TypedExpression::Call { returned, .. } => returned@,
        TypedExpression::Cast { returned, .. } => returned@,
        TypedExpression::Construction { returned, .. } => returned@,
    }
}

impl TypedExpression {
    pub fn returned(&self) -> (r: &TypeInfo)
        ensures
            r@ == ret_ty(*self),
    {
        match self {
            TypedExpression::Literal { returned, .. } => returned,
            TypedExpression::Array { returned, .. } => returned,
            TypedExpression::Identifier { returned, .. } => returned,
            TypedExpression::Binary { returned, .. } => returned,
            TypedExpression::Unary { returned, .. } => returned,
            TypedExpression::Call { returned, .. } => returned,
            TypedExpression::Cast { returned, .. } => returned,
            TypedExpression::Construction { returned, .. } => returned,
        }
    }

    pub fn loc(&self) -> (r: &TextLoc)
        ensures
            *r == typed_loc(*self),
    {
        match self {
            TypedExpression::Literal { loc, .. } => loc,
            TypedExpression::Array { loc, .. } => loc,
            TypedExpression::Identifier { loc, .. } => loc,
            TypedExpression::Binary { loc, .. } => loc,
            TypedExpression::Unary { loc, .. } => loc,
            TypedExpression::Call { loc, .. } => loc,
            TypedExpression::Cast { loc, .. } => loc,
            TypedExpression::Construction { loc, .. } => loc,
        }
    }

    /// Whether a value can be assigned to the expression: a variable.
    pub fn is_assignable(&self) -> (r: bool)
        ensures
            r == (*self matches TypedExpression::Identifier { id: TypedIdentifier::Variable(_), .. }),
    {
        match self {
            TypedExpression::Identifier { id: TypedIdentifier::Variable(_), .. } => true,
            _ => false,
        }
    }
}

/// A checked statement.
#[derive(Debug)]
pub enum TypedStatement {
    Let(u128),
    Expr(Box<TypedExpression>),
    Assign { assigned: Box<TypedExpression>, expression: Box<TypedExpression> },
    Block(Vec<TypedStatement>),
    If { expression: Box<TypedExpression>, body: Box<TypedStatement>, else_block: Option<Box<TypedStatement>> },
    Break,
    Continue,
    Return { returned: Option<Box<TypedExpression>>, loc: TextLoc },
    For { var_id: u128, condition: Box<TypedExpression>, body: Box<TypedStatement> },
    While { condition: Box<TypedExpression>, body: Box<TypedStatement> },
}

/// Every `let` in `t` has a variable in `defs` with its id and a value.
pub open spec fn lets_inited(t: TypedStatement, defs: Seq<VarDef>) -> bool
    decreases t,
{
    match t {
        TypedStatement::Let(id) => exists|k: int| 0 <= k < defs.len() && (#[trigger] defs[k]).id == id && defs[k].initializer is Some,
        TypedStatement::Block(ss) => forall|i: int| 0 <= i < ss@.len() ==> lets_inited(#[trigger] ss@[i], defs),
        TypedStatement::If { body, else_block, .. } => lets_inited(*body, defs) && match else_block {
            Some(e) => lets_inited(*e, defs),
            None => true,
        },
        TypedStatement::For { body, .. } => lets_inited(*body, defs),
        TypedStatement::While { body, .. } => lets_inited(*body, defs),
        _ => true,
    }
}

/// What holds of `lets_inited` for some variables holds when more are added.
pub proof fn lemma_lets_inited_grows(t: TypedStatement, d1: Seq<VarDef>, d2: Seq<VarDef>)
    requires
        lets_inited(t, d1),
        d1.len() <= d2.len(),
        forall|k: int| 0 <= k < d1.len() ==> #[trigger] d2[k] == d1[k],
    ensures
        lets_inited(t, d2),
    decreases t,
{
    match t {
        TypedStatement::Let(id) => {
            let k = choose|k: int| 0 <= k < d1.len() && (#[trigger] d1[k]).id == id && d1[k].initializer is Some;
            assert(d2[k] == d1[k]);
        },
        TypedStatement::Block(ss) => {
            assert forall|i: int| 0 <= i < ss@.len() implies lets_inited(#[trigger] ss@[i], d2) by {
                lemma_lets_inited_grows(ss@[i], d1, d2);
            }
        },
        TypedStatement::If { body, else_block, .. } => {
            lemma_lets_inited_grows(*body, d1, d2);
            if let Some(e) = else_block {
                lemma_lets_inited_grows(*e, d1, d2);
            }
        },
        TypedStatement::For { body, .. } => lemma_lets_inited_grows(*body, d1, d2),
        TypedStatement::While { body, .. } => lemma_lets_inited_grows(*body, d1, d2),
        _ => {},
    }
}

/// A variable: its id, name, type and the value it was declared with.
#[derive(Debug)]
pub struct VarDef {
    pub id: u128,
    pub name: String,
    pub type_info: TypeInfo,
    pub initializer: Option<Arc<TypedExpression>>,
}

impl VarDef {
    pub fn new(name: String, type_info: TypeInfo, id: u128) -> (r: Self)
        ensures
            r.id == id,
            r.name == name,
            r.type_info == type_info,
            r.initializer is None,
    {
        VarDef { id, name, type_info, initializer: None }
    }
}

/// The last id bound to `name` in a frame.
pub open spec fn frame_lookup(frame: Seq<(Seq<char>, u128)>, name: Seq<char>) -> Option<u128>
    decreases frame.len(),
{
    if frame.len() == 0 {
        None
    } else if frame.last().0 == name {
        Some(frame.last().1)
    } else {
        frame_lookup(frame.drop_last(), name)
    }
}

/// The id `name` has in the innermost frame that binds it.
pub open spec fn stack_lookup(frames: Seq<Seq<(Seq<char>, u128)>>, name: Seq<char>) -> Option<u128>
    decreases frames.len(),
{
    if frames.len() == 0 {
        None
    } else {
        match frame_lookup(frames.last(), name) {
            Some(id) => Some(id),
            None => stack_lookup(frames.drop_last(), name),
        }
    }
}

/// The type of the first variable with id `id`.
pub open spec fn var_type(vars: Seq<(u128, Ty)>, id: u128) -> Option<Ty>
    decreases vars.len(),
{
    if vars.len() == 0 {
        None
    } else if vars[0].0 == id {
        Some(vars[0].1)
    } else {
        var_type(vars.drop_first(), id)
    }
}

/// The variables of a function body and the scopes that name them, innermost last.
pub struct VariableStack {
    variables: Vec<VarDef>,
    stack: Vec<Vec<(String, u128)>>,
}

impl VariableStack {
    /// The scopes, innermost last, each binding names to variable ids in order.
    pub closed spec fn frames(&self) -> Seq<Seq<(Seq<char>, u128)>> {
        self.stack@.map_values(|f: Vec<(String, u128)>| f@.map_values(|e: (String, u128)| (e.0@, e.1)))
    }

    /// Every variable's id and type, in the order they were added.
    pub closed spec fn vars(&self) -> Seq<(u128, Ty)> {
        self.variables@.map_values(|v: VarDef| (v.id, v.type_info@))
    }

    /// Every variable, with its name and the value it was declared with, in
    /// the order they were added.
    pub closed spec fn var_defs(&self) -> Seq<VarDef> {
        self.variables@
    }

    pub fn new() -> (r: Self)
        ensures
            r.frames().len() == 0,
            r.vars().len() == 0,
            r.var_defs().len() == 0,
    {
        VariableStack { variables: Vec::new(), stack: Vec::new() }
    }

    /// The variable `name` names in the innermost scope that binds it.
    #[verifier::loop_isolation(false)]
    pub fn resolve_var(&self, name: &String) -> (r: Option<u128>)
        ensures
            r == stack_lookup(self.frames(), name@),
    {
        let mut i: usize = self.stack.len();
        let ghost frames = self.frames();
        assert(frames.subrange(0, frames.len() as int) =~= frames);
        while i > 0
            invariant
                i <= self.stack@.len(),
                frames == self.frames(),
                frames.len() == self.stack@.len(),
                stack_lookup(frames, name@) == stack_lookup(frames.subrange(0, i as int), name@),
            decreases i,
        {
            let frame = &self.stack[i - 1];
            let ghost fv = frames[i - 1];
            assert(fv == frame@.map_values(|e: (String, u128)| (e.0@, e.1)));
            let mut j: usize = frame.len();
            assert(fv.subrange(0, fv.len() as int) =~= fv);
            while j > 0
                invariant
                    j <= frame@.len(),
                    fv.len() == frame@.len(),
                    forall|k: int| 0 <= k < frame@.len() ==> #[trigger] fv[k] == (frame@[k].0@, frame@[k].1),
                    frame_lookup(fv, name@) == frame_lookup(fv.subrange(0, j as int), name@),
                decreases j,
            {
                let ghost sub = fv.subrange(0, j as int);
                assert(sub.drop_last() =~= fv.subrange(0, j - 1));
                assert(sub.last() == fv[j - 1]);
                if frame[j - 1].0 == *name {
                    proof {
                        let fs = frames.subrange(0, i as int);
                        assert(fs.last() == fv);
                        assert(fv[j - 1] == (frame@[j - 1].0@, frame@[j - 1].1));
                    }
                    return Some(frame[j - 1].1);
                }
                j -= 1;
            }
            proof {
                assert(fv.subrange(0, 0) =~= Seq::<(Seq<char>, u128)>::empty());
                let sub = frames.subrange(0, i as int);
                assert(sub.drop_last() =~= frames.subrange(0, i - 1));
                assert(sub.last() == fv);
            }
            i -= 1;
        }
        None
    }

    /// The variable with id `id`.
    pub fn get_var(&self, id: u128) -> (r: Option<&VarDef>)
        ensures
            match r {
                Some(v) => v.id == id && var_type(self.vars(), id) == Some(v.type_info@),
                None => var_type(self.vars(), id) is None,
            },
    {
        let ghost vs = self.vars();
        assert(vs.subrange(0, vs.len() as int) =~= vs);
        let mut i: usize = 0;
        while i < self.variables.len()
            invariant
                i <= self.variables@.len(),
                vs == self.vars(),
                vs.len() == self.variables@.len(),
                var_type(vs, id) == var_type(vs.subrange(i as int, vs.len() as int), id),
            decreases self.variables@.len() - i,
        {
            let ghost rest = vs.subrange(i as int, vs.len() as int);
            assert(rest[0] == (self.variables@[i as int].id, self.variables@[i as int].type_info@));
            assert(rest.drop_first() =~= vs.subrange(i + 1, vs.len() as int));
            if self.variables[i].id == id {
                return Some(&self.variables[i]);
            }
            i += 1;
        }
        None
    }

    pub fn push_frame(&mut self)
        ensures
            final(self).frames() == old(self).frames().push(Seq::empty()),
            final(self).vars() == old(self).vars(),
            final(self).var_defs() == old(self).var_defs(),
    {
        let ghost f0 = old(self).frames();
        self.stack.push(Vec::new());
        assert forall|k: int| 0 <= k < f0.len() implies self.frames()[k] == f0[k] by {
            assert(self.stack@[k] == old(self).stack@[k]);
        }
        assert(self.frames()[f0.len() as int] =~= Seq::<(Seq<char>, u128)>::empty());
        assert(self.frames() =~= f0.push(Seq::empty()));
    }

    /// Leaves the innermost scope (nothing happens when there is none).
    pub fn pop_frame(&mut self)
        ensures
            old(self).frames().len() > 0 ==> final(self).frames() == old(self).frames().drop_last(),
            old(self).frames().len() == 0 ==> final(self).frames() == old(self).frames(),
            final(self).vars() == old(self).vars(),
            final(self).var_defs() == old(self).var_defs(),
    {
        if self.stack.len() > 0 {
            self.stack.pop();
            assert(self.frames() =~= old(self).frames().drop_last());
        }
    }

    /// Adds a variable and binds its name in the innermost scope.
    pub fn add_var_def(&mut self, def: VarDef)
        requires
            old(self).frames().len() > 0,
        ensures
            final(self).vars() == old(self).vars().push((def.id, def.type_info@)),
            final(self).var_defs() == old(self).var_defs().push(def),
            final(self).frames() == old(self).frames().update(
                old(self).frames().len() - 1,
                old(self).frames().last().push((def.name@, def.id)),
            ),
    {
        let ghost old_vars = self.vars();
        let id = def.id;
        let name = def.name.clone();
        let last = self.stack.len() - 1;
        let mut frame = self.stack.pop().unwrap();
        self.variables.push(def);
        assert(self.vars() =~= old_vars.push((id, def.type_info@)));
        let ghost old_frame = frame@;
        frame.push((name, id));
        self.stack.push(frame);
        proof {
            let f0 = old(self).frames();
            let n = f0.len() - 1;
            assert(self.stack@.len() == old(self).stack@.len());
            assert forall|k: int| 0 <= k < n implies self.frames()[k] == f0[k] by {
                assert(self.stack@[k] == old(self).stack@[k]);
            }
            assert(old_frame == old(self).stack@[n]@);
            assert(self.frames()[n] =~= f0.last().push((def.name@, def.id)));
            assert(self.frames() =~= f0.update(n, f0.last().push((def.name@, def.id))));
        }
    }

    /// Adds a variable with no initial value.
    pub fn add_var(&mut self, name: String, type_info: TypeInfo, id: u128)
        requires
            old(self).frames().len() > 0,
        ensures
            final(self).vars() == old(self).vars().push((id, type_info@)),
            final(self).var_defs().len() == old(self).var_defs().len() + 1,
            final(self).var_defs().drop_last() == old(self).var_defs(),
            final(self).var_defs().last().id == id && final(self).var_defs().last().initializer is None,
            final(self).frames() == old(self).frames().update(
                old(self).frames().len() - 1,
                old(self).frames().last().push((name@, id)),
            ),
    {
        let def = VarDef::new(name, type_info, id);
        self.add_var_def(def);
    }

    /// Every variable declared so far, in scope or not, in order of declaration.
    pub fn get_vars(&self) -> (r: &Vec<VarDef>)
        ensures
            r@.map_values(|v: VarDef| (v.id, v.type_info@)) == self.vars(),
    {
        &self.variables
    }

    /// The variables, for the function body that owns them.
    pub fn into_vars(self) -> (r: Vec<VarDef>)
        ensures
            r@.map_values(|v: VarDef| (v.id, v.type_info@)) == self.vars(),
            r@ == self.var_defs(),
    {
        self.variables
    }
}

/// Adding a variable keeps every id's type, and gives the new id its type when it is new.
pub proof fn lemma_var_type_push(vars: Seq<(u128, Ty)>, v: (u128, Ty), id: u128)
    ensures
        var_type(vars, id) is Some ==> var_type(vars.push(v), id) == var_type(vars, id),
        var_type(vars, id) is None && id == v.0 ==> var_type(vars.push(v), id) == Some(v.1),
        var_type(vars, id) is None && id != v.0 ==> var_type(vars.push(v), id) is None,
    decreases vars.len(),
{
    if vars.len() == 0 {
        assert(vars.push(v)[0] == v);
        assert(vars.push(v).drop_first() =~= Seq::<(u128, Ty)>::empty());
        assert(var_type(vars.push(v).drop_first(), id) is None);
    } else {
        assert(vars.push(v)[0] == vars[0]);
        assert(vars.push(v).drop_first() =~= vars.drop_first().push(v));
        lemma_var_type_push(vars.drop_first(), v, id);
    }
}

} // verus!
