use vstd::prelude::*;

verus! {

/// A type as the checker sees it: a named (primary) type by its id, an optional
/// or array of a type, or a function type.
#[derive(Debug)]
pub enum TypeInfo {
    Primary(u128),
    Optional(Box<TypeInfo>),
    Array(Box<TypeInfo>),
    Function { args: Vec<TypeInfo>, returned: Box<TypeInfo> },
}

/// The mathematical value of a type: the same shape, with the argument list as a sequence.
pub enum Ty {
    Primary(u128),
    Optional(Box<Ty>),
    Array(Box<Ty>),
    Function(Seq<Ty>, Box<Ty>),
}

pub open spec fn ty_of(t: TypeInfo) -> Ty
    decreases t,
{
    match t {
        TypeInfo::Primary(id) => Ty::Primary(id),
        TypeInfo::Optional(inner) => Ty::Optional(Box::new(ty_of(*inner))),
        TypeInfo::Array(inner) => Ty::Array(Box::new(ty_of(*inner))),
        TypeInfo::Function { args, returned } => Ty::Function(tys_of(args@), Box::new(ty_of(*returned))),
    }
}

pub open spec fn tys_of(ts: Seq<TypeInfo>) -> Seq<Ty>
    decreases ts,
{
    if ts.len() == 0 {
        Seq::empty()
    } else {
        tys_of(ts.drop_last()).push(ty_of(ts.last()))
    }
}

impl View for TypeInfo {
    type V = Ty;

    open spec fn view(&self) -> Ty {
        ty_of(*self)
    }
}

pub proof fn lemma_tys_of(ts: Seq<TypeInfo>)
    ensures
        tys_of(ts).len() == ts.len(),
        forall|i: int| 0 <= i < ts.len() ==> #[trigger] tys_of(ts)[i] == ty_of(ts[i]),
    decreases ts.len(),
{
    if ts.len() > 0 {
        lemma_tys_of(ts.drop_last());
        assert forall|i: int| 0 <= i < ts.len() implies #[trigger] tys_of(ts)[i] == ty_of(ts[i]) by {
            if i < ts.len() - 1 {
                assert(ts.drop_last()[i] == ts[i]);
            }
        }
    }
}

/// The iterator element type of a type: `Fn() -> ?T` iterates over `T`.
pub open spec fn iter_elem(t: Ty) -> Option<Ty> {
    match t {
        Ty::Function(args, ret) => if args.len() == 0 {
            match *ret {
                Ty::Optional(inner) => Some(*inner),
                _ => None,
            }
        } else {
            None
        },
        _ => None,
    }
}

impl TypeInfo {
    /// A copy with the same value.
    pub fn copy(&self) -> (r: TypeInfo)
        ensures
            r@ == self@,
        decreases *self,
    {
        match self {
            TypeInfo::Primary(id) => TypeInfo::Primary(*id),
            TypeInfo::Optional(inner) => TypeInfo::Optional(Box::new(inner.copy())),
            TypeInfo::Array(inner) => TypeInfo::Array(Box::new(inner.copy())),
            TypeInfo::Function { args, returned } => {
                let new_args = copy_types(args);
                TypeInfo::Function { args: new_args, returned: Box::new(returned.copy()) }
            },
        }
    }

    /// Whether the two types are the same type.
    #[verifier::loop_isolation(false)]
    pub fn same(&self, other: &TypeInfo) -> (r: bool)
        ensures
            r == (self@ == other@),
        decreases *self,
    {
        match (self, other) {
            (TypeInfo::Primary(a), TypeInfo::Primary(b)) => *a == *b,
            (TypeInfo::Optional(a), TypeInfo::Optional(b)) => a.same(b),
            (TypeInfo::Array(a), TypeInfo::Array(b)) => a.same(b),
            (TypeInfo::Function { args: a, returned: ra }, TypeInfo::Function { args: b, returned: rb }) => {
                proof {
                    lemma_tys_of(a@);
                    lemma_tys_of(b@);
                }
                if a.len() != b.len() {
                    return false;
                }
                let mut i: usize = 0;
                while i < a.len()
                    invariant
                        a@.len() == b@.len(),
                        i <= a@.len(),
                        forall|j: int| 0 <= j < i ==> ty_of(#[trigger] a@[j]) == ty_of(b@[j]),
                        tys_of(a@).len() == a@.len(),
                        tys_of(b@).len() == b@.len(),
                        forall|j: int| 0 <= j < a@.len() ==> #[trigger] tys_of(a@)[j] == ty_of(a@[j]),
                        forall|j: int| 0 <= j < b@.len() ==> #[trigger] tys_of(b@)[j] == ty_of(b@[j]),
                    decreases a@.len() - i,
                {
                    assert(decreases_to!(*self => a@[i as int]));
                    if !a[i].same(&b[i]) {
                        assert(tys_of(a@)[i as int] != tys_of(b@)[i as int]);
                        return false;
                    }
                    i += 1;
                }
                assert(tys_of(a@) =~= tys_of(b@));
                ra.same(rb)
            },
            _ => false,
        }
    }

    pub fn is_fn(&self) -> (r: bool)
        ensures
            r == (self@ is Function),
    {
        match self {
            TypeInfo::Function { .. } => true,
            _ => false,
        }
    }

    /// The element type when the type is an iterator `Fn() -> ?T`.
    pub fn get_iter_type(&self) -> (r: Option<TypeInfo>)
        ensures
            match r {
                Some(t) => iter_elem(self@) == Some(t@),
                None => iter_elem(self@) is None,
            },
    {
        match self {
            TypeInfo::Function { args, returned } => {
                proof {
                    lemma_tys_of(args@);
                }
                if args.len() != 0 {
                    return None;
                }
                match &**returned {
                    TypeInfo::Optional(t) => {
                        assert(ty_of(**returned) == Ty::Optional(Box::new(ty_of(**t))));
                        Some(t.copy())
                    },
                    _ => {
                        assert(!(ty_of(**returned) is Optional));
                        None
                    },
                }
            },
            _ => None,
        }
    }

    pub fn is_iter(&self) -> (r: bool)
        ensures
            r == iter_elem(self@) is Some,
    {
        self.get_iter_type().is_some()
    }
}

impl Clone for TypeInfo {
    fn clone(&self) -> (r: Self)
        ensures
            r@ == self@,
    {
        self.copy()
    }
}

/// Copies of a list of types.
pub fn copy_types(ts: &Vec<TypeInfo>) -> (r: Vec<TypeInfo>)
    ensures
        tys_of(r@) == tys_of(ts@),
    decreases ts@,
{
    let mut out: Vec<TypeInfo> = Vec::new();
    let mut i: usize = 0;
    while i < ts.len()
        invariant
            i <= ts@.len(),
            tys_of(out@) == tys_of(ts@.subrange(0, i as int)),
        decreases ts@.len() - i,
    {
        assert(decreases_to!(ts@ => ts@[i as int]));
        let c = ts[i].copy();
        let ghost before = out@;
        out.push(c);
        proof {
            assert(out@.drop_last() =~= before);
            let sub = ts@.subrange(0, i + 1);
            assert(sub.drop_last() =~= ts@.subrange(0, i as int));
            assert(sub.last() == ts@[i as int]);
        }
        i += 1;
    }
    assert(ts@.subrange(0, i as int) =~= ts@);
    out
}

} // verus!
