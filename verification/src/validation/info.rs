use vstd::prelude::*;
use std::sync::Arc;
use crate::lexing::token::{Token, token_text};
use crate::parsing::ast::{TypeName, FileNode, Declaration, StructDecl, FnDecl, Expression, Program, type_pos};
use crate::parsing::syntax::{type_wf, types_wf, decl_wf, expr_wf, block_wf};
use super::check_expr::{expr_supported, expr_is_supported};
use super::check_stmt::{block_supported, block_is_supported, next_id};
use crate::parsing::paths_view;
use crate::utils::{strings_view, spec_split_relative, spec_get_loc};
use super::types::{TypeInfo, Ty, tys_of, lemma_tys_of};
use super::type_error::TypeError;
use super::builtins::{
    FIRST_FREE_ID, builtin_type_entries, get_builtin_types, get_builtin_funcs, void_type, void_ty,
    INT_TYPE_NAME, FLOAT_TYPE_NAME, BOOL_TYPE_NAME, STRING_TYPE_NAME, VOID_TYPE_NAME, INT_ID, FLOAT_ID,
    BOOL_ID, STRING_ID, VOID_ID, PRINTLN_ID, PRINT_ID, READ_LINE_ID, STRING_TO_INT_ID, string_ty,
};

verus! {

/// Hands out identifiers for types, functions and variables, in increasing order.
pub struct IdGen {
    pub next: u128,
}

impl IdGen {
    pub fn new() -> (r: Self)
        ensures
            r.next == FIRST_FREE_ID,
    {
        IdGen { next: FIRST_FREE_ID }
    }

    /// The next unused id; the counter stops at its largest value.
    pub fn fresh(&mut self) -> (r: u128)
        ensures
            r == old(self).next,
            old(self).next < u128::MAX ==> final(self).next == old(self).next + 1,
            old(self).next == u128::MAX ==> final(self).next == u128::MAX,
    {
        let r = self.next;
        if self.next < u128::MAX {
            self.next = self.next + 1;
        }
        r
    }
}

/// Whether two lists of strings are equal.
pub fn strs_eq(a: &Vec<String>, b: &Vec<String>) -> (r: bool)
    ensures
        r == (strings_view(a@) == strings_view(b@)),
{
    if a.len() != b.len() {
        assert(strings_view(a@).len() != strings_view(b@).len());
        return false;
    }
    let mut i: usize = 0;
    while i < a.len()
        invariant
            a@.len() == b@.len(),
            i <= a@.len(),
            forall|j: int| 0 <= j < i ==> (#[trigger] a@[j])@ == b@[j]@,
        decreases a@.len() - i,
    {
        if a[i] != b[i] {
            assert(strings_view(a@)[i as int] != strings_view(b@)[i as int]);
            return false;
        }
        i += 1;
    }
    assert(strings_view(a@) =~= strings_view(b@));
    true
}

/// A type declared in the file at `path`, under `name`.
pub struct TypeEntry {
    pub path: Vec<String>,
    pub name: String,
    pub id: u128,
}

pub open spec fn type_entry_view(e: TypeEntry) -> (Seq<Seq<char>>, Seq<char>, u128) {
    (strings_view(e.path@), e.name@, e.id)
}

/// The id of the first entry for `name` in the file at `path`.
pub open spec fn lookup_type(es: Seq<(Seq<Seq<char>>, Seq<char>, u128)>, path: Seq<Seq<char>>, name: Seq<char>) -> Option<u128>
    decreases es.len(),
{
    if es.len() == 0 {
        None
    } else if es[0].0 == path && es[0].1 == name {
        Some(es[0].2)
    } else {
        lookup_type(es.drop_first(), path, name)
    }
}

/// The ids that `name` has in the files at `paths`, one per file that declares it.
pub open spec fn found_types(es: Seq<(Seq<Seq<char>>, Seq<char>, u128)>, paths: Seq<Seq<Seq<char>>>, name: Seq<char>) -> Seq<u128>
    decreases paths.len(),
{
    if paths.len() == 0 {
        Seq::empty()
    } else {
        let rest = found_types(es, paths.drop_last(), name);
        match lookup_type(es, paths.last(), name) {
            Some(id) => rest.push(id),
            None => rest,
        }
    }
}

/// Appending entries keeps every earlier lookup.
pub proof fn lemma_lookup_type_append(es: Seq<(Seq<Seq<char>>, Seq<char>, u128)>, more: Seq<(Seq<Seq<char>>, Seq<char>, u128)>, path: Seq<Seq<char>>, name: Seq<char>)
    ensures
        lookup_type(es, path, name) is Some ==> lookup_type(es + more, path, name) == lookup_type(es, path, name),
        lookup_type(es, path, name) is None ==> lookup_type(es + more, path, name) == lookup_type(more, path, name),
    decreases es.len(),
{
    if es.len() > 0 {
        assert((es + more)[0] == es[0]);
        assert((es + more).drop_first() =~= es.drop_first() + more);
        lemma_lookup_type_append(es.drop_first(), more, path, name);
    } else {
        assert(es + more =~= more);
    }
}

/// A found lookup comes from an entry with that path and name.
pub proof fn lemma_lookup_type_found(es: Seq<(Seq<Seq<char>>, Seq<char>, u128)>, path: Seq<Seq<char>>, name: Seq<char>)
    requires
        lookup_type(es, path, name) is Some,
    ensures
        exists|k: int| 0 <= k < es.len() && (#[trigger] es[k]).0 == path && es[k].1 == name,
    decreases es.len(),
{
    if !(es[0].0 == path && es[0].1 == name) {
        lemma_lookup_type_found(es.drop_first(), path, name);
        let k = choose|k: int| 0 <= k < es.drop_first().len() && (#[trigger] es.drop_first()[k]).0 == path && es.drop_first()[k].1 == name;
        assert(es[k + 1] == es.drop_first()[k]);
    }
}

/// Name `names[i]` is taken before it is declared: the file at `path` already
/// has a type of that name, or an earlier name of the list is the same.
pub open spec fn name_taken(es: Seq<(Seq<Seq<char>>, Seq<char>, u128)>, path: Seq<Seq<char>>, names: Seq<Seq<char>>, i: int) -> bool {
    lookup_type(es, path, names[i]) is Some || names.subrange(0, i).contains(names[i])
}

/// No name occurs twice in `names`.
pub open spec fn distinct_names(names: Seq<Seq<char>>) -> bool {
    forall|i: int, j: int| 0 <= j < i < names.len() ==> #[trigger] names[j] != #[trigger] names[i]
}

/// Names that can all be registered are distinct.
pub proof fn lemma_no_clash_distinct(es: Seq<(Seq<Seq<char>>, Seq<char>, u128)>, path: Seq<Seq<char>>, names: Seq<Seq<char>>)
    requires
        !type_clash(es, path, names),
    ensures
        distinct_names(names),
{
    assert forall|i: int, j: int| 0 <= j < i < names.len() implies #[trigger] names[j] != #[trigger] names[i] by {
        assert(!name_taken(es, path, names, i));
        assert(names.subrange(0, i)[j] == names[j]);
    }
}

/// Some name of `names` is taken when it comes to be declared.
pub open spec fn type_clash(es: Seq<(Seq<Seq<char>>, Seq<char>, u128)>, path: Seq<Seq<char>>, names: Seq<Seq<char>>) -> bool {
    exists|i: int| 0 <= i < names.len() && #[trigger] name_taken(es, path, names, i)
}

/// How looking a type name up in the files a file can see came out.
#[derive(Debug, Clone)]
pub enum TypeResolverResult {
    Undefined(Token),
    ConflictingTypes(Token),
    Found(u128),
}

/// The spec of a resolution: one id is found, none, or several.
pub open spec fn resolution(found: Seq<u128>, token: Token) -> TypeResolverResult {
    if found.len() == 1 {
        TypeResolverResult::Found(found[0])
    } else if found.len() == 0 {
        TypeResolverResult::Undefined(token)
    } else {
        TypeResolverResult::ConflictingTypes(token)
    }
}

impl TypeResolverResult {
    pub fn to_result(&self, file: &crate::utils::FileInfo) -> (r: Result<u128, TypeError>)
        ensures
            *self matches TypeResolverResult::Found(id) ==> r == Ok::<u128, TypeError>(id),
            !(self is Found) ==> r is Err,
    {
        match self {
            TypeResolverResult::Undefined(token) => Err(TypeError::UnknownType(token.clone(), token.get_loc(file))),
            TypeResolverResult::ConflictingTypes(token) => Err(TypeError::ConflictingTypes(token.clone(), token.get_loc(file))),
            TypeResolverResult::Found(id) => Ok(*id),
        }
    }
}

/// The struct names a file declares, in order.
pub open spec fn struct_names(ds: Seq<Declaration>) -> Seq<Seq<char>>
    decreases ds.len(),
{
    if ds.len() == 0 {
        Seq::empty()
    } else {
        let rest = struct_names(ds.drop_last());
        match ds.last() {
            Declaration::Struct(s) => rest.push(match token_text(s.id) {
                Some(n) => n,
                None => Seq::empty(),
            }),
            _ => rest,
        }
    }
}

/// The declarations of a parsed file are well formed.
pub open spec fn decls_wf(ds: Seq<Declaration>) -> bool {
    forall|i: int| 0 <= i < ds.len() ==> decl_wf(#[trigger] ds[i])
}

/// The types of every file, by path and name.
pub struct TypeResolver {
    entries: Vec<TypeEntry>,
}

impl TypeResolver {
    pub closed spec fn entries(&self) -> Seq<(Seq<Seq<char>>, Seq<char>, u128)> {
        self.entries@.map_values(|e: TypeEntry| type_entry_view(e))
    }

    /// A resolver that knows the built-in types, at the empty path.
    pub fn new() -> (r: Self)
        ensures
            r.entries().len() == 5,
            forall|i: int| 0 <= i < 5 ==> #[trigger] r.entries()[i] == (
                Seq::<Seq<char>>::empty(),
                builtin_type_entries()[i].0,
                builtin_type_entries()[i].1,
            ),
    {
        let builtins = get_builtin_types();
        let mut entries: Vec<TypeEntry> = Vec::new();
        let mut i: usize = 0;
        while i < builtins.len()
            invariant
                builtins@.len() == 5,
                i <= 5,
                forall|k: int| 0 <= k < 5 ==> (#[trigger] builtins@[k]).name@ == builtin_type_entries()[k].0
                    && builtins@[k].id == builtin_type_entries()[k].1,
                entries@.len() == i,
                forall|k: int| 0 <= k < i ==> #[trigger] type_entry_view(entries@[k]) == (
                    Seq::<Seq<char>>::empty(),
                    builtin_type_entries()[k].0,
                    builtin_type_entries()[k].1,
                ),
            decreases 5 - i,
        {
            let b = &builtins[i];
            let e = TypeEntry { path: Vec::new(), name: b.name.clone(), id: b.id };
            assert(strings_view(e.path@) =~= Seq::<Seq<char>>::empty());
            entries.push(e);
            i += 1;
        }
        let r = TypeResolver { entries };
        assert forall|k: int| 0 <= k < 5 implies #[trigger] r.entries()[k] == (
            Seq::<Seq<char>>::empty(),
            builtin_type_entries()[k].0,
            builtin_type_entries()[k].1,
        ) by {
            assert(r.entries()[k] == type_entry_view(r.entries@[k]));
        }
        r
    }

    /// The id of the type `name` declared in the file at `path`.
    pub fn get_type_id(&self, path: &Vec<String>, name: &String) -> (r: Option<u128>)
        ensures
            r == lookup_type(self.entries(), strings_view(path@), name@),
    {
        let ghost es = self.entries();
        assert(es.subrange(0, es.len() as int) =~= es);
        let mut i: usize = 0;
        while i < self.entries.len()
            invariant
                i <= self.entries@.len(),
                es == self.entries(),
                es.len() == self.entries@.len(),
                lookup_type(es, strings_view(path@), name@) == lookup_type(es.subrange(i as int, es.len() as int), strings_view(path@), name@),
            decreases self.entries@.len() - i,
        {
            let ghost rest = es.subrange(i as int, es.len() as int);
            assert(rest[0] == type_entry_view(self.entries@[i as int]));
            assert(rest.drop_first() =~= es.subrange(i + 1, es.len() as int));
            let e = &self.entries[i];
            if e.name == *name && strs_eq(&e.path, path) {
                return Some(e.id);
            }
            i += 1;
        }
        None
    }

    /// Registers the structs a file declares under the file's path, each with a
    /// fresh id; a name the file already declares is an error.
    pub fn append_file(&mut self, file: &FileNode, ids: &mut IdGen) -> (r: Result<(), Vec<TypeError>>)
        requires
            decls_wf(file.declarations@),
        ensures
            old(self).entries().len() <= final(self).entries().len(),
            final(self).entries().subrange(0, old(self).entries().len() as int) == old(self).entries(),
            r is Err <==> type_clash(
                old(self).entries(),
                spec_split_relative(file.info.path.relative_path@),
                struct_names(file.declarations@),
            ),
            r is Ok ==> final(self).entries() == old(self).entries() + types_added(
                spec_split_relative(file.info.path.relative_path@),
                struct_names(file.declarations@),
                old(ids).next,
            ) && final(ids).next == advance_id(old(ids).next, struct_names(file.declarations@).len()),
            forall|p: Seq<Seq<char>>, n: Seq<char>| lookup_type(old(self).entries(), p, n) is Some ==> #[trigger] lookup_type(final(self).entries(), p, n)
                == lookup_type(old(self).entries(), p, n),
            forall|i: int| 0 <= i < struct_names(file.declarations@).len() ==> lookup_type(
                final(self).entries(),
                spec_split_relative(file.info.path.relative_path@),
                #[trigger] struct_names(file.declarations@)[i],
            ) is Some,
            r matches Err(errs) ==> errs@.len() > 0,
    {
        let mut errors: Vec<TypeError> = Vec::new();
        let path = file.info.path.split_relative();
        let ghost p = strings_view(path@);
        let ghost start = self.entries();
        let ghost mut more: Seq<(Seq<Seq<char>>, Seq<char>, u128)> = Seq::empty();
        assert(start + more =~= start);
        let mut i: usize = 0;
        while i < file.declarations.len()
            invariant
                decls_wf(file.declarations@),
                i <= file.declarations@.len(),
                p == strings_view(path@),
                p == spec_split_relative(file.info.path.relative_path@),
                start == old(self).entries(),
                self.entries() == start + more,
                forall|k: int| 0 <= k < struct_names(file.declarations@.subrange(0, i as int)).len() ==> lookup_type(
                    self.entries(),
                    p,
                    #[trigger] struct_names(file.declarations@.subrange(0, i as int))[k],
                ) is Some,
                forall|k: int| 0 <= k < more.len() ==> (#[trigger] more[k]).0 == p
                    && struct_names(file.declarations@.subrange(0, i as int)).contains(more[k].1),
                errors@.len() > 0 <==> type_clash(start, p, struct_names(file.declarations@.subrange(0, i as int))),
                errors@.len() == 0 ==> more == types_added(p, struct_names(file.declarations@.subrange(0, i as int)), old(ids).next)
                    && ids.next == advance_id(old(ids).next, struct_names(file.declarations@.subrange(0, i as int)).len()),
            decreases file.declarations@.len() - i,
        {
            let ghost before = self.entries();
            let ghost sub = file.declarations@.subrange(0, i + 1);
            assert(sub.drop_last() =~= file.declarations@.subrange(0, i as int));
            assert(decl_wf(file.declarations@[i as int]));
            if let Declaration::Struct(s) = &file.declarations[i] {
                let name = s.id.value_string().unwrap().clone();
                let ghost names = struct_names(file.declarations@.subrange(0, i as int));
                proof {
                    lemma_lookup_type_append(start, more, p, name@);
                    if lookup_type(start, p, name@) is None && lookup_type(more, p, name@) is Some {
                        lemma_lookup_type_found(more, p, name@);
                    }
                    if names.contains(name@) {
                        let k = choose|k: int| 0 <= k < names.len() && names[k] == name@;
                        assert(lookup_type(self.entries(), p, names[k]) is Some);
                    }
                    assert(lookup_type(self.entries(), p, name@) is Some <==> (lookup_type(start, p, name@) is Some
                        || names.contains(name@)));
                    let names2 = names.push(name@);
                    assert(names2.subrange(0, names.len() as int) =~= names);
                    assert forall|k: int| 0 <= k < names.len() implies name_taken(start, p, names2, k) == name_taken(start, p, names, k) by {
                        assert(names2.subrange(0, k) =~= names.subrange(0, k));
                    }
                    assert(name_taken(start, p, names2, names.len() as int) <==> lookup_type(self.entries(), p, name@) is Some);
                    if type_clash(start, p, names2) {
                        let k = choose|k: int| 0 <= k < names2.len() && #[trigger] name_taken(start, p, names2, k);
                        if k < names.len() {
                            assert(name_taken(start, p, names, k));
                        }
                    }
                    if type_clash(start, p, names) {
                        let k = choose|k: int| 0 <= k < names.len() && #[trigger] name_taken(start, p, names, k);
                        assert(name_taken(start, p, names2, k));
                    }
                    assert(type_clash(start, p, names2) <==> (type_clash(start, p, names) || lookup_type(self.entries(), p, name@) is Some));
                }
                match self.get_type_id(&path, &name) {
                    Some(_) => {
                        errors.push(TypeError::DuplicateTypeDef(s.id.clone(), s.id.get_loc(&file.info)));
                    },
                    None => {
                        let id = ids.fresh();
                        let ghost old_entries = self.entries();
                        self.entries.push(TypeEntry { path: path.clone(), name, id });
                        proof {
                            let added = seq![(p, name@, id)];
                            assert(self.entries() =~= old_entries + added);
                            lemma_lookup_type_append(old_entries, added, p, name@);
                            assert(self.entries() =~= start + (more + added));
                            more = more + added;
                            assert forall|pp: Seq<Seq<char>>, n: Seq<char>| lookup_type(old_entries, pp, n) is Some implies
                                lookup_type(self.entries(), pp, n) == lookup_type(old_entries, pp, n) by {
                                lemma_lookup_type_append(old_entries, added, pp, n);
                            }
                        }
                    },
                }
                proof {
                    let names = struct_names(file.declarations@.subrange(0, i + 1));
                    assert(names == struct_names(file.declarations@.subrange(0, i as int)).push(name@));
                    assert forall|k: int| 0 <= k < names.len() implies lookup_type(self.entries(), p, #[trigger] names[k]) is Some by {
                        if k < names.len() - 1 {
                            assert(names[k] == struct_names(file.declarations@.subrange(0, i as int))[k]);
                            if self.entries() != before {
                                let added = seq![(p, name@, self.entries().last().2)];
                                assert(self.entries() =~= before + added);
                                lemma_lookup_type_append(before, added, p, names[k]);
                            }
                        }
                    }
                }
            } else {
                proof {
                    assert(struct_names(file.declarations@.subrange(0, i + 1)) == struct_names(file.declarations@.subrange(0, i as int)));
                }
            }
            i += 1;
        }
        proof {
            assert(file.declarations@.subrange(0, i as int) =~= file.declarations@);
            assert(self.entries().subrange(0, start.len() as int) =~= start);
            assert forall|pp: Seq<Seq<char>>, n: Seq<char>| lookup_type(start, pp, n) is Some implies #[trigger] lookup_type(self.entries(), pp, n)
                == lookup_type(start, pp, n) by {
                lemma_lookup_type_append(start, more, pp, n);
            }
        }
        if errors.len() > 0 {
            return Err(errors);
        }
        Ok(())
    }

    /// Every type id, in order.
    pub fn type_ids(&self) -> (r: Vec<u128>)
        ensures
            r@ == self.entries().map_values(|e: (Seq<Seq<char>>, Seq<char>, u128)| e.2),
    {
        let mut out: Vec<u128> = Vec::new();
        let mut i: usize = 0;
        while i < self.entries.len()
            invariant
                i <= self.entries@.len(),
                out@ =~= self.entries().subrange(0, i as int).map_values(|e: (Seq<Seq<char>>, Seq<char>, u128)| e.2),
            decreases self.entries@.len() - i,
        {
            out.push(self.entries[i].id);
            i += 1;
        }
        assert(self.entries().subrange(0, i as int) =~= self.entries());
        out
    }

    /// Looks `token`'s name up in every file that `file` can see.
    pub fn resolve(&self, token: &Token, file: &FileNode) -> (r: TypeResolverResult)
        requires
            token_text(*token) is Some,
        ensures
            r == resolution(found_types(self.entries(), paths_view(*file), token_text(*token)->0), *token),
    {
        let name = token.value_string().unwrap();
        let ghost paths = paths_view(*file);
        let mut possible: Vec<u128> = Vec::new();
        let mut i: usize = 0;
        while i < file.using_paths.len()
            invariant
                i <= file.using_paths@.len(),
                paths == paths_view(*file),
                paths.len() == file.using_paths@.len(),
                name@ == token_text(*token)->0,
                possible@ == found_types(self.entries(), paths.subrange(0, i as int), name@),
            decreases file.using_paths@.len() - i,
        {
            let found = self.get_type_id(&file.using_paths[i], name);
            proof {
                let sub = paths.subrange(0, i + 1);
                assert(sub.drop_last() =~= paths.subrange(0, i as int));
                assert(sub.last() == strings_view(file.using_paths@[i as int]@));
            }
            if let Some(id) = found {
                possible.push(id);
            }
            i += 1;
        }
        assert(paths.subrange(0, i as int) =~= paths);
        if possible.len() == 1 {
            TypeResolverResult::Found(possible[0])
        } else if possible.len() == 0 {
            TypeResolverResult::Undefined(token.clone())
        } else {
            TypeResolverResult::ConflictingTypes(token.clone())
        }
    }

    pub fn resolve_result(&self, token: &Token, file: &FileNode) -> (r: Result<u128, TypeError>)
        requires
            token_text(*token) is Some,
        ensures
            ({
                let found = found_types(self.entries(), paths_view(*file), token_text(*token)->0);
                &&& found.len() == 1 ==> r == Ok::<u128, TypeError>(found[0])
                &&& found.len() != 1 ==> r is Err
            }),
    {
        self.resolve(token, file).to_result(&file.info)
    }
}

/// The type a written type names, in a file: each name resolved, and a missing
/// return type read as `Void`.
pub open spec fn resolve_type(es: Seq<(Seq<Seq<char>>, Seq<char>, u128)>, paths: Seq<Seq<Seq<char>>>, t: TypeName) -> Option<Ty>
    decreases t,
{
    match t {
        TypeName::Identifier(tok) => {
            let found = found_types(es, paths, match token_text(tok) {
                Some(n) => n,
                None => Seq::empty(),
            });
            if found.len() == 1 {
                Some(Ty::Primary(found[0]))
            } else {
                None
            }
        },
        TypeName::Array { type_ref, .. } => match resolve_type(es, paths, *type_ref) {
            Some(inner) => Some(Ty::Array(Box::new(inner))),
            None => None,
        },
        TypeName::Optional { type_ref, .. } => match resolve_type(es, paths, *type_ref) {
            Some(inner) => Some(Ty::Optional(Box::new(inner))),
            None => None,
        },
        TypeName::Function { parameter_types, return_type, .. } => {
            match resolve_types(es, paths, parameter_types@) {
                Some(args) => match return_type {
                    Some((_, r)) => match resolve_type(es, paths, *r) {
                        Some(rt) => Some(Ty::Function(args, Box::new(rt))),
                        None => None,
                    },
                    None => Some(Ty::Function(args, Box::new(void_ty()))),
                },
                None => None,
            }
        },
    }
}

pub open spec fn resolve_types(es: Seq<(Seq<Seq<char>>, Seq<char>, u128)>, paths: Seq<Seq<Seq<char>>>, ts: Seq<TypeName>) -> Option<Seq<Ty>>
    decreases ts,
{
    if ts.len() == 0 {
        Some(Seq::empty())
    } else {
        match resolve_types(es, paths, ts.drop_last()) {
            Some(rest) => match resolve_type(es, paths, ts.last()) {
                Some(t) => Some(rest.push(t)),
                None => None,
            },
            None => None,
        }
    }
}

impl TypeInfo {
    /// The type a written type names in `file`.
    #[verifier::loop_isolation(false)]
    pub fn from(type_ref: &TypeName, resolver: &TypeResolver, file: &FileNode) -> (r: Result<TypeInfo, TypeError>)
        requires
            type_wf(*type_ref),
        ensures
            match r {
                Ok(t) => resolve_type(resolver.entries(), paths_view(*file), *type_ref) == Some(t@),
                Err(_) => resolve_type(resolver.entries(), paths_view(*file), *type_ref) is None,
            },
        decreases *type_ref,
    {
        match type_ref {
            TypeName::Identifier(token) => {
                let id = resolver.resolve_result(token, file)?;
                Ok(TypeInfo::Primary(id))
            },
            TypeName::Array { type_ref: inner, .. } => {
                let t = TypeInfo::from(inner, resolver, file)?;
                Ok(TypeInfo::Array(Box::new(t)))
            },
            TypeName::Optional { type_ref: inner, .. } => {
                let t = TypeInfo::from(inner, resolver, file)?;
                Ok(TypeInfo::Optional(Box::new(t)))
            },
            TypeName::Function { parameter_types, return_type, .. } => {
                let ghost ps = parameter_types@;
                let mut args: Vec<TypeInfo> = Vec::new();
                let mut i: usize = 0;
                while i < parameter_types.len()
                    invariant
                        ps == parameter_types@,
                        types_wf(ps),
                        i <= ps.len(),
                        resolve_types(resolver.entries(), paths_view(*file), ps.subrange(0, i as int)) == Some(tys_of(args@)),
                    decreases ps.len() - i,
                {
                    proof {
                        crate::parsing::ast::lemma_types_wf_at(ps, i as int);
                        assert(decreases_to!(*type_ref => ps[i as int]));
                        let sub = ps.subrange(0, i + 1);
                        assert(sub.drop_last() =~= ps.subrange(0, i as int));
                        assert(sub.last() == ps[i as int]);
                    }
                    let t = match TypeInfo::from(&parameter_types[i], resolver, file) {
                        Ok(t) => t,
                        Err(e) => {
                            proof {
                                lemma_resolve_types_prefix(resolver.entries(), paths_view(*file), ps, i as int + 1);
                            }
                            return Err(e);
                        },
                    };
                    let ghost before = args@;
                    args.push(t);
                    proof {
                        assert(args@.drop_last() =~= before);
                    }
                    i += 1;
                }
                assert(ps.subrange(0, i as int) =~= ps);
                let returned = match return_type {
                    Some((_, r)) => TypeInfo::from(r, resolver, file)?,
                    None => void_type(),
                };
                Ok(TypeInfo::Function { args, returned: Box::new(returned) })
            },
        }
    }
}

/// When a prefix of a list of types cannot be resolved, neither can the list.
pub proof fn lemma_resolve_types_prefix(es: Seq<(Seq<Seq<char>>, Seq<char>, u128)>, paths: Seq<Seq<Seq<char>>>, ts: Seq<TypeName>, k: int)
    requires
        0 <= k <= ts.len(),
        resolve_types(es, paths, ts.subrange(0, k)) is None,
    ensures
        resolve_types(es, paths, ts) is None,
    decreases ts.len() - k,
{
    if k < ts.len() {
        let sub = ts.subrange(0, k + 1);
        assert(sub.drop_last() =~= ts.subrange(0, k));
        lemma_resolve_types_prefix(es, paths, ts, k + 1);
    } else {
        assert(ts.subrange(0, k) =~= ts);
    }
}

/// A member of a struct: its name, its type and its default value.
#[derive(Debug)]
pub struct StructMember {
    pub name: String,
    pub type_info: TypeInfo,
    pub init: Option<Arc<Expression>>,
}

/// Where a struct comes from: a declaration in a file, or the language itself.
#[derive(Debug)]
pub enum StructDeclData {
    Decl { decl: Arc<StructDecl>, file: Arc<FileNode> },
    Builtin,
}

/// The struct declarations among `ds`, in order.
pub open spec fn struct_decls_of(ds: Seq<Declaration>) -> Seq<Arc<StructDecl>>
    decreases ds.len(),
{
    if ds.len() == 0 {
        Seq::empty()
    } else {
        let rest = struct_decls_of(ds.drop_last());
        match ds.last() {
            Declaration::Struct(d) => rest.push(d),
            _ => rest,
        }
    }
}

/// The function declarations among `ds`, in order.
pub open spec fn fn_decls_of(ds: Seq<Declaration>) -> Seq<Arc<FnDecl>>
    decreases ds.len(),
{
    if ds.len() == 0 {
        Seq::empty()
    } else {
        let rest = fn_decls_of(ds.drop_last());
        match ds.last() {
            Declaration::Fn(d) => rest.push(d),
            _ => rest,
        }
    }
}

/// Every struct declaration of a list of files, in order, with its file.
pub open spec fn program_struct_decls(files: Seq<Arc<FileNode>>) -> Seq<(Arc<StructDecl>, Arc<FileNode>)>
    decreases files.len(),
{
    if files.len() == 0 {
        Seq::empty()
    } else {
        let f = files.last();
        program_struct_decls(files.drop_last()) + struct_decls_of(f.declarations@).map_values(
            |d: Arc<StructDecl>| (d, f),
        )
    }
}

/// Every function declaration of a list of files, in order, with its file.
pub open spec fn program_fn_decls(files: Seq<Arc<FileNode>>) -> Seq<(Arc<FnDecl>, Arc<FileNode>)>
    decreases files.len(),
{
    if files.len() == 0 {
        Seq::empty()
    } else {
        let f = files.last();
        program_fn_decls(files.drop_last()) + fn_decls_of(f.declarations@).map_values(|d: Arc<FnDecl>| (d, f))
    }
}

/// A struct known to the checker.
#[derive(Debug)]
pub struct StructInfo {
    pub id: u128,
    pub name: String,
    pub members: Vec<StructMember>,
    pub is_pub: bool,
    pub decl_data: StructDeclData,
}

/// The text of a token, or nothing.
pub open spec fn text_of(t: Token) -> Seq<char> {
    match token_text(t) {
        Some(n) => n,
        None => Seq::empty(),
    }
}

/// A struct description made from declaration `decl` of `file`, its types
/// resolved with `types`: the same name, with the id `types` gives it at the
/// file's path, and the same members, in order, with their resolved types and
/// their default values.
pub open spec fn struct_info_of_decl(
    s: StructInfo,
    decl: Arc<StructDecl>,
    file: Arc<FileNode>,
    types: Seq<(Seq<Seq<char>>, Seq<char>, u128)>,
) -> bool {
    &&& s.name@ == text_of(decl.id)
    &&& Some(s.id) == lookup_type(types, spec_split_relative(file.info.path.relative_path@), s.name@)
    &&& s.is_pub == decl.pub_tok is Some
    &&& s.members@.len() == decl.members@.len()
    &&& forall|i: int| 0 <= i < s.members@.len() ==> {
        &&& (#[trigger] s.members@[i]).name@ == text_of(decl.members@[i].id)
        &&& resolve_type(types, paths_view(*file), decl.members@[i].type_ref) == Some(s.members@[i].type_info@)
        &&& init_of(decl.members@[i].initializer) == s.members@[i].init
    }
    &&& s.decl_data == (StructDeclData::Decl { decl, file })
}

impl StructInfo {
    /// The struct a declaration of `file` describes, with its members' types resolved.
    pub fn new(decl: Arc<StructDecl>, type_resolver: &TypeResolver, file: Arc<FileNode>) -> (r: Result<Self, TypeError>)
        requires
            crate::parsing::syntax::struct_decl_wf(*decl),
        ensures
            r is Ok <==> struct_decl_describable(decl, type_resolver.entries(), file),
            r matches Ok(info) ==> {
                &&& info.name@ == text_of(decl.id)
                &&& Some(info.id) == lookup_type(type_resolver.entries(), spec_split_relative(file.info.path.relative_path@), info.name@)
                &&& info.is_pub == decl.pub_tok is Some
                &&& info.members@.len() == decl.members@.len()
                &&& forall|i: int| 0 <= i < info.members@.len() ==> {
                    &&& (#[trigger] info.members@[i]).name@ == text_of(decl.members@[i].id)
                    &&& resolve_type(type_resolver.entries(), paths_view(*file), decl.members@[i].type_ref) == Some(info.members@[i].type_info@)
                    &&& init_of(decl.members@[i].initializer) == info.members@[i].init
                }
                &&& info.decl_data == (StructDeclData::Decl { decl, file })
            },
    {
        let name = decl.id.value_string().unwrap().clone();
        let path = file.info.path.split_relative();
        let id = match type_resolver.get_type_id(&path, &name) {
            Some(id) => id,
            None => return Err(TypeError::UnknownType(decl.id.clone(), decl.id.get_loc(&file.info))),
        };
        let mut members: Vec<StructMember> = Vec::new();
        let mut i: usize = 0;
        while i < decl.members.len()
            invariant
                crate::parsing::syntax::struct_decl_wf(*decl),
                i <= decl.members@.len(),
                members@.len() == i,
                forall|k: int| 0 <= k < i ==> {
                    &&& (#[trigger] members@[k]).name@ == text_of(decl.members@[k].id)
                    &&& resolve_type(type_resolver.entries(), paths_view(*file), decl.members@[k].type_ref) == Some(members@[k].type_info@)
                    &&& init_of(decl.members@[k].initializer) == members@[k].init
                },
            decreases decl.members@.len() - i,
        {
            let m = &decl.members[i];
            assert(crate::parsing::syntax::member_wf(decl.members@[i as int]));
            let member_name = m.id.value_string().unwrap().clone();
            let type_info = TypeInfo::from(&m.type_ref, type_resolver, &file)?;
            let init = match &m.initializer {
                Some((_, e)) => Some(e.clone()),
                None => None,
            };
            members.push(StructMember { name: member_name, type_info, init });
            i += 1;
        }
        assert forall|k: int| 0 <= k < decl.members@.len() implies resolve_type(
            type_resolver.entries(),
            paths_view(*file),
            (#[trigger] decl.members@[k]).type_ref,
        ) is Some by {
            assert(resolve_type(type_resolver.entries(), paths_view(*file), decl.members@[k].type_ref) == Some(members@[k].type_info@));
        }
        Ok(StructInfo { id, name, members, is_pub: decl.pub_tok.is_some(), decl_data: StructDeclData::Decl { decl, file } })
    }

    /// The structs a file declares, or the errors of those that failed.
    pub fn from_file(type_resolver: &TypeResolver, file: Arc<FileNode>) -> (r: Result<Vec<Self>, Vec<TypeError>>)
        requires
            decls_wf(file.declarations@),
            decls_supported(file.declarations@),
        ensures
            r matches Err(errs) ==> errs@.len() > 0,
            r is Ok <==> forall|i: int| 0 <= i < struct_decls_of(file.declarations@).len() ==> struct_decl_describable(
                #[trigger] struct_decls_of(file.declarations@)[i],
                type_resolver.entries(),
                file,
            ),
            r matches Ok(infos) ==> forall|i: int| 0 <= i < infos@.len() ==> struct_info_ok(#[trigger] infos@[i]),
            r matches Ok(infos) ==> {
                let decls = struct_decls_of(file.declarations@);
                &&& infos@.len() == decls.len()
                &&& forall|i: int| 0 <= i < infos@.len() ==> struct_info_of_decl(#[trigger] infos@[i], decls[i], file, type_resolver.entries())
            },
    {
        let mut errors: Vec<TypeError> = Vec::new();
        let mut infos: Vec<StructInfo> = Vec::new();
        let mut i: usize = 0;
        while i < file.declarations.len()
            invariant
                decls_wf(file.declarations@),
                decls_supported(file.declarations@),
                i <= file.declarations@.len(),
                forall|k: int| 0 <= k < infos@.len() ==> struct_info_ok(#[trigger] infos@[k]),
                errors@.len() == 0 ==> {
                    let decls = struct_decls_of(file.declarations@.subrange(0, i as int));
                    &&& infos@.len() == decls.len()
                    &&& forall|k: int| 0 <= k < infos@.len() ==> struct_info_of_decl(#[trigger] infos@[k], decls[k], file, type_resolver.entries())
                },
                errors@.len() == 0 <==> forall|k: int| 0 <= k < struct_decls_of(file.declarations@.subrange(0, i as int)).len()
                    ==> struct_decl_describable(#[trigger] struct_decls_of(file.declarations@.subrange(0, i as int))[k], type_resolver.entries(), file),
            decreases file.declarations@.len() - i,
        {
            let ghost before = infos@;
            let ghost sds = struct_decls_of(file.declarations@.subrange(0, i as int));
            proof {
                let sub = file.declarations@.subrange(0, i + 1);
                assert(sub.drop_last() =~= file.declarations@.subrange(0, i as int));
            }
            assert(decl_wf(file.declarations@[i as int]));
            assert(decl_supported(file.declarations@[i as int]));
            if let Declaration::Struct(s) = &file.declarations[i] {
                proof {
                    assert forall|k: int| 0 <= k < s.members@.len() implies init_ok(init_of((#[trigger] s.members@[k]).initializer)) by {
                        assert(crate::parsing::syntax::member_wf(s.members@[k]));
                    }
                }
                let ghost sds2 = struct_decls_of(file.declarations@.subrange(0, i + 1));
                proof {
                    assert(sds2 == sds.push(*s));
                    assert forall|k: int| 0 <= k < sds.len() implies #[trigger] sds2[k] == sds[k] by {}
                }
                match Self::new(s.clone(), type_resolver, file.clone()) {
                    Ok(info) => {
                        infos.push(info);
                        proof {
                            assert forall|k: int| 0 <= k < before.len() implies infos@[k] == before[k] by {}
                        }
                    },
                    Err(e) => errors.push(e),
                }
                proof {
                    let es = type_resolver.entries();
                    assert(sds2[sds.len() as int] == *s);
                    if forall|k: int| 0 <= k < sds2.len() ==> struct_decl_describable(#[trigger] sds2[k], es, file) {
                        assert forall|k: int| 0 <= k < sds.len() implies struct_decl_describable(#[trigger] sds[k], es, file) by {
                            assert(struct_decl_describable(sds2[k], es, file));
                        }
                        assert(struct_decl_describable(sds2[sds.len() as int], es, file));
                    }
                    if (forall|k: int| 0 <= k < sds.len() ==> struct_decl_describable(#[trigger] sds[k], es, file))
                        && struct_decl_describable(*s, es, file) {
                        assert forall|k: int| 0 <= k < sds2.len() implies struct_decl_describable(#[trigger] sds2[k], es, file) by {
                            if k < sds.len() {
                                assert(struct_decl_describable(sds[k], es, file));
                            }
                        }
                    }
                }
            } else {
                proof {
                    assert(struct_decls_of(file.declarations@.subrange(0, i + 1)) == sds);
                }
            }
            i += 1;
        }
        assert(file.declarations@.subrange(0, i as int) =~= file.declarations@);
        if errors.len() > 0 {
            return Err(errors);
        }
        Ok(infos)
    }
}

/// A function known by path, owner type and name.
pub struct FuncEntry {
    pub path: Vec<String>,
    pub parent: Option<TypeInfo>,
    pub name: String,
    pub id: u128,
}

pub open spec fn opt_ty(t: Option<TypeInfo>) -> Option<Ty> {
    match t {
        Some(t) => Some(t@),
        None => None,
    }
}

pub open spec fn func_entry_view(e: FuncEntry) -> (Seq<Seq<char>>, Option<Ty>, Seq<char>, u128) {
    (strings_view(e.path@), opt_ty(e.parent), e.name@, e.id)
}

/// The id of the first function `name` of owner `parent` in the file at `path`.
pub open spec fn lookup_func(es: Seq<(Seq<Seq<char>>, Option<Ty>, Seq<char>, u128)>, path: Seq<Seq<char>>, parent: Option<Ty>, name: Seq<char>) -> Option<u128>
    decreases es.len(),
{
    if es.len() == 0 {
        None
    } else if es[0].0 == path && es[0].1 == parent && es[0].2 == name {
        Some(es[0].3)
    } else {
        lookup_func(es.drop_first(), path, parent, name)
    }
}

/// Looking up past the end of a list of entries finds only what the first part lacks.
pub proof fn lemma_lookup_func_append(
    es: Seq<(Seq<Seq<char>>, Option<Ty>, Seq<char>, u128)>,
    more: Seq<(Seq<Seq<char>>, Option<Ty>, Seq<char>, u128)>,
    path: Seq<Seq<char>>,
    parent: Option<Ty>,
    name: Seq<char>,
)
    ensures
        lookup_func(es, path, parent, name) is Some ==> lookup_func(es + more, path, parent, name) == lookup_func(
            es,
            path,
            parent,
            name,
        ),
        lookup_func(es, path, parent, name) is None ==> lookup_func(es + more, path, parent, name) == lookup_func(
            more,
            path,
            parent,
            name,
        ),
    decreases es.len(),
{
    if es.len() > 0 {
        assert((es + more)[0] == es[0]);
        assert((es + more).drop_first() =~= es.drop_first() + more);
        lemma_lookup_func_append(es.drop_first(), more, path, parent, name);
    } else {
        assert(es + more =~= more);
    }
}

/// A found lookup comes from an entry with that path, owner and name.
pub proof fn lemma_lookup_func_found(
    es: Seq<(Seq<Seq<char>>, Option<Ty>, Seq<char>, u128)>,
    path: Seq<Seq<char>>,
    parent: Option<Ty>,
    name: Seq<char>,
)
    requires
        lookup_func(es, path, parent, name) is Some,
    ensures
        exists|k: int| 0 <= k < es.len() && (#[trigger] es[k]).0 == path && es[k].1 == parent && es[k].2 == name,
    decreases es.len(),
{
    if !(es[0].0 == path && es[0].1 == parent && es[0].2 == name) {
        lemma_lookup_func_found(es.drop_first(), path, parent, name);
        let k = choose|k: int| 0 <= k < es.drop_first().len() && (#[trigger] es.drop_first()[k]).0 == path
            && es.drop_first()[k].1 == parent && es.drop_first()[k].2 == name;
        assert(es[k + 1] == es.drop_first()[k]);
    }
}

/// The owner type a function declaration names, as the file's types resolve it.
pub open spec fn fn_owner(types: Seq<(Seq<Seq<char>>, Seq<char>, u128)>, file: FileNode, d: Arc<FnDecl>) -> Option<Ty> {
    match d.type_ref {
        Some((_, t)) => resolve_type(types, paths_view(file), t),
        None => None,
    }
}

/// What a function declaration is registered under: its owner type and its name.
pub open spec fn fn_key(types: Seq<(Seq<Seq<char>>, Seq<char>, u128)>, file: FileNode, d: Arc<FnDecl>) -> (Option<Ty>, Seq<char>) {
    (fn_owner(types, file, d), text_of(d.id))
}

/// The keys of a list of function declarations.
pub open spec fn fn_keys(types: Seq<(Seq<Seq<char>>, Seq<char>, u128)>, file: FileNode, ds: Seq<Arc<FnDecl>>) -> Seq<(Option<Ty>, Seq<char>)> {
    ds.map_values(|d: Arc<FnDecl>| fn_key(types, file, d))
}

/// Function `ds[i]` cannot be registered: its owner type does not resolve, or
/// the file at `path` already has a function with its owner and name, or an
/// earlier declaration of the list has them.
pub open spec fn fn_taken(
    es: Seq<(Seq<Seq<char>>, Option<Ty>, Seq<char>, u128)>,
    path: Seq<Seq<char>>,
    types: Seq<(Seq<Seq<char>>, Seq<char>, u128)>,
    file: FileNode,
    ds: Seq<Arc<FnDecl>>,
    i: int,
) -> bool {
    ||| (ds[i].type_ref is Some && fn_owner(types, file, ds[i]) is None)
    ||| lookup_func(es, path, fn_owner(types, file, ds[i]), text_of(ds[i].id)) is Some
    ||| fn_keys(types, file, ds.subrange(0, i)).contains(fn_key(types, file, ds[i]))
}

/// Some function of `ds` cannot be registered.
pub open spec fn fn_clash(
    es: Seq<(Seq<Seq<char>>, Option<Ty>, Seq<char>, u128)>,
    path: Seq<Seq<char>>,
    types: Seq<(Seq<Seq<char>>, Seq<char>, u128)>,
    file: FileNode,
    ds: Seq<Arc<FnDecl>>,
) -> bool {
    exists|i: int| 0 <= i < ds.len() && #[trigger] fn_taken(es, path, types, file, ds, i)
}

/// The function declarations of a prefix of a list start those of the list.
pub proof fn lemma_fn_decls_prefix(ds: Seq<Declaration>, n: int)
    requires
        0 <= n <= ds.len(),
    ensures
        fn_decls_of(ds.subrange(0, n)).len() <= fn_decls_of(ds).len(),
        fn_decls_of(ds).subrange(0, fn_decls_of(ds.subrange(0, n)).len() as int) == fn_decls_of(ds.subrange(0, n)),
    decreases ds.len(),
{
    if n < ds.len() {
        lemma_fn_decls_prefix(ds.drop_last(), n);
        assert(ds.drop_last().subrange(0, n) =~= ds.subrange(0, n));
        let pre = fn_decls_of(ds.subrange(0, n));
        let rest = fn_decls_of(ds.drop_last());
        match ds.last() {
            Declaration::Fn(d) => {
                assert(rest.push(d).subrange(0, pre.len() as int) =~= rest.subrange(0, pre.len() as int));
            },
            _ => {},
        }
    } else {
        assert(ds.subrange(0, n) =~= ds);
        let all = fn_decls_of(ds);
        assert(all.subrange(0, all.len() as int) =~= all);
    }
}

/// A function that cannot be registered in a prefix cannot be in the whole list.
pub proof fn lemma_fn_clash_prefix(
    es: Seq<(Seq<Seq<char>>, Option<Ty>, Seq<char>, u128)>,
    path: Seq<Seq<char>>,
    types: Seq<(Seq<Seq<char>>, Seq<char>, u128)>,
    file: FileNode,
    pre: Seq<Arc<FnDecl>>,
    full: Seq<Arc<FnDecl>>,
)
    requires
        pre.len() <= full.len(),
        full.subrange(0, pre.len() as int) == pre,
        fn_clash(es, path, types, file, pre),
    ensures
        fn_clash(es, path, types, file, full),
{
    let k = choose|k: int| 0 <= k < pre.len() && #[trigger] fn_taken(es, path, types, file, pre, k);
    assert(full[k] == full.subrange(0, pre.len() as int)[k]);
    assert(full.subrange(0, k) =~= pre.subrange(0, k));
    assert(fn_taken(es, path, types, file, full, k));
}

/// The functions `file` declares can all be registered: each owner type
/// resolves, and no two have the same owner and name.
pub open spec fn fns_registrable(types: Seq<(Seq<Seq<char>>, Seq<char>, u128)>, file: FileNode) -> bool {
    let ds = fn_decls_of(file.declarations@);
    &&& forall|i: int| 0 <= i < ds.len() && (#[trigger] ds[i]).type_ref is Some ==> fn_owner(types, file, ds[i]) is Some
    &&& forall|i: int, j: int| 0 <= j < i < ds.len() ==> fn_key(types, file, #[trigger] ds[j]) != fn_key(types, file, #[trigger] ds[i])
}

/// Functions that can all be registered under some entries can be registered.
pub proof fn lemma_no_fn_clash_registrable(
    es: Seq<(Seq<Seq<char>>, Option<Ty>, Seq<char>, u128)>,
    path: Seq<Seq<char>>,
    types: Seq<(Seq<Seq<char>>, Seq<char>, u128)>,
    file_arc: Arc<FileNode>,
)
    requires
        !fn_clash(es, path, types, *file_arc, fn_decls_of(file_arc.declarations@)),
    ensures
        fns_registrable(types, *file_arc),
{
    let file = *file_arc;
    let ds = fn_decls_of(file.declarations@);
    assert forall|i: int| 0 <= i < ds.len() && (#[trigger] ds[i]).type_ref is Some implies fn_owner(types, file, ds[i]) is Some by {
        assert(!fn_taken(es, path, types, file, ds, i));
    }
    assert forall|i: int, j: int| 0 <= j < i < ds.len() implies fn_key(types, file, #[trigger] ds[j]) != fn_key(types, file, #[trigger] ds[i]) by {
        assert(!fn_taken(es, path, types, file, ds, i));
        let keys = fn_keys(types, file, ds.subrange(0, i));
        assert(keys[j] == fn_key(types, file, ds[j]));
    }
}

/// The ids that a function name has in the files at `paths`.
pub open spec fn found_funcs(es: Seq<(Seq<Seq<char>>, Option<Ty>, Seq<char>, u128)>, paths: Seq<Seq<Seq<char>>>, parent: Option<Ty>, name: Seq<char>) -> Seq<u128>
    decreases paths.len(),
{
    if paths.len() == 0 {
        Seq::empty()
    } else {
        let rest = found_funcs(es, paths.drop_last(), parent, name);
        match lookup_func(es, paths.last(), parent, name) {
            Some(id) => rest.push(id),
            None => rest,
        }
    }
}

/// How looking a function name up came out.
#[derive(Debug, Clone)]
pub enum FuncResolverResult {
    Undefined(Token),
    ConflictingFuncs(Token),
    Found(u128),
}

pub open spec fn func_resolution(found: Seq<u128>, token: Token) -> FuncResolverResult {
    if found.len() == 1 {
        FuncResolverResult::Found(found[0])
    } else if found.len() == 0 {
        FuncResolverResult::Undefined(token)
    } else {
        FuncResolverResult::ConflictingFuncs(token)
    }
}

impl FuncResolverResult {
    pub fn to_result(&self, file: &crate::utils::FileInfo) -> (r: Result<u128, TypeError>)
        ensures
            *self matches FuncResolverResult::Found(id) ==> r == Ok::<u128, TypeError>(id),
            !(self is Found) ==> r is Err,
    {
        match self {
            FuncResolverResult::Undefined(token) => Err(TypeError::UnknownType(token.clone(), token.get_loc(file))),
            FuncResolverResult::ConflictingFuncs(token) => Err(TypeError::ConflictingFunctions(token.clone(), token.get_loc(file))),
            FuncResolverResult::Found(id) => Ok(*id),
        }
    }

    pub fn is_ok(&self) -> (r: bool)
        ensures
            r == self is Found,
    {
        match self {
            FuncResolverResult::Found(_) => true,
            _ => false,
        }
    }
}

fn opt_same(a: &Option<TypeInfo>, b: &Option<TypeInfo>) -> (r: bool)
    ensures
        r == (opt_ty(*a) == opt_ty(*b)),
{
    match (a, b) {
        (Some(x), Some(y)) => x.same(y),
        (None, None) => true,
        _ => false,
    }
}

fn opt_copy(a: &Option<TypeInfo>) -> (r: Option<TypeInfo>)
    ensures
        opt_ty(r) == opt_ty(*a),
{
    match a {
        Some(x) => Some(x.copy()),
        None => None,
    }
}

/// The functions of every file, by path, owner type and name.
pub struct FuncResolver {
    entries: Vec<FuncEntry>,
}

impl FuncResolver {
    pub closed spec fn entries(&self) -> Seq<(Seq<Seq<char>>, Option<Ty>, Seq<char>, u128)> {
        self.entries@.map_values(|e: FuncEntry| func_entry_view(e))
    }

    /// A resolver that knows the built-in functions, at the empty path.
    pub fn new(builtins: &Vec<FuncInfo>) -> (r: Self)
        ensures
            r.entries().len() == builtins@.len(),
            forall|i: int| 0 <= i < builtins@.len() ==> #[trigger] r.entries()[i] == (
                Seq::<Seq<char>>::empty(),
                opt_ty(builtins@[i].parent),
                builtins@[i].name@,
                builtins@[i].id,
            ),
    {
        let mut entries: Vec<FuncEntry> = Vec::new();
        let mut i: usize = 0;
        while i < builtins.len()
            invariant
                i <= builtins@.len(),
                entries@.len() == i,
                forall|k: int| 0 <= k < i ==> #[trigger] func_entry_view(entries@[k]) == (
                    Seq::<Seq<char>>::empty(),
                    opt_ty(builtins@[k].parent),
                    builtins@[k].name@,
                    builtins@[k].id,
                ),
            decreases builtins@.len() - i,
        {
            let b = &builtins[i];
            let e = FuncEntry { path: Vec::new(), parent: opt_copy(&b.parent), name: b.name.clone(), id: b.id };
            assert(strings_view(e.path@) =~= Seq::<Seq<char>>::empty());
            entries.push(e);
            i += 1;
        }
        let r = FuncResolver { entries };
        assert forall|i: int| 0 <= i < builtins@.len() implies #[trigger] r.entries()[i] == (
            Seq::<Seq<char>>::empty(),
            opt_ty(builtins@[i].parent),
            builtins@[i].name@,
            builtins@[i].id,
        ) by {
            assert(r.entries()[i] == func_entry_view(r.entries@[i]));
        }
        r
    }

    /// The id of the function `name` of owner `parent` in the file at `path`.
    pub fn get_func_id(&self, path: &Vec<String>, parent: &Option<TypeInfo>, name: &String) -> (r: Option<u128>)
        ensures
            r == lookup_func(self.entries(), strings_view(path@), opt_ty(*parent), name@),
    {
        let ghost es = self.entries();
        assert(es.subrange(0, es.len() as int) =~= es);
        let mut i: usize = 0;
        while i < self.entries.len()
            invariant
                i <= self.entries@.len(),
                es == self.entries(),
                es.len() == self.entries@.len(),
                lookup_func(es, strings_view(path@), opt_ty(*parent), name@) == lookup_func(es.subrange(i as int, es.len() as int), strings_view(path@), opt_ty(*parent), name@),
            decreases self.entries@.len() - i,
        {
            let ghost rest = es.subrange(i as int, es.len() as int);
            assert(rest[0] == func_entry_view(self.entries@[i as int]));
            assert(rest.drop_first() =~= es.subrange(i + 1, es.len() as int));
            let e = &self.entries[i];
            if e.name == *name && opt_same(&e.parent, parent) && strs_eq(&e.path, path) {
                return Some(e.id);
            }
            i += 1;
        }
        None
    }

    /// Registers the functions a file declares, each with a fresh id; a function
    /// whose owner type cannot be resolved stops the registration, a repeated
    /// name and owner is an error.
    pub fn append_file(&mut self, file: &FileNode, type_resolver: &TypeResolver, ids: &mut IdGen) -> (r: Result<(), Vec<TypeError>>)
        requires
            decls_wf(file.declarations@),
        ensures
            r is Err <==> fn_clash(
                old(self).entries(),
                spec_split_relative(file.info.path.relative_path@),
                type_resolver.entries(),
                *file,
                fn_decls_of(file.declarations@),
            ),
            forall|p: Seq<Seq<char>>, o: Option<Ty>, n: Seq<char>| lookup_func(old(self).entries(), p, o, n) is Some
                ==> #[trigger] lookup_func(final(self).entries(), p, o, n) == lookup_func(old(self).entries(), p, o, n),
            r is Ok ==> final(self).entries() == old(self).entries() + fns_added(
                spec_split_relative(file.info.path.relative_path@),
                fn_keys(type_resolver.entries(), *file, fn_decls_of(file.declarations@)),
                old(ids).next,
            ) && final(ids).next == advance_id(old(ids).next, fn_decls_of(file.declarations@).len()),
            r is Ok ==> forall|k: int| 0 <= k < fn_decls_of(file.declarations@).len() ==> lookup_func(
                final(self).entries(),
                spec_split_relative(file.info.path.relative_path@),
                fn_owner(type_resolver.entries(), *file, #[trigger] fn_decls_of(file.declarations@)[k]),
                text_of(fn_decls_of(file.declarations@)[k].id),
            ) is Some,
            r matches Err(errs) ==> errs@.len() > 0,
    {
        let mut errors: Vec<TypeError> = Vec::new();
        let path = file.info.path.split_relative();
        let ghost p = strings_view(path@);
        let ghost start = self.entries();
        let ghost types = type_resolver.entries();
        let ghost mut more: Seq<(Seq<Seq<char>>, Option<Ty>, Seq<char>, u128)> = Seq::empty();
        assert(start + more =~= start);
        let mut i: usize = 0;
        while i < file.declarations.len()
            invariant
                decls_wf(file.declarations@),
                i <= file.declarations@.len(),
                p == strings_view(path@),
                p == spec_split_relative(file.info.path.relative_path@),
                start == old(self).entries(),
                types == type_resolver.entries(),
                self.entries() == start + more,
                forall|k: int| 0 <= k < more.len() ==> (#[trigger] more[k]).0 == p
                    && fn_keys(types, *file, fn_decls_of(file.declarations@.subrange(0, i as int))).contains((more[k].1, more[k].2)),
                errors@.len() > 0 <==> fn_clash(start, p, types, *file, fn_decls_of(file.declarations@.subrange(0, i as int))),
                errors@.len() == 0 ==> more == fns_added(p, fn_keys(types, *file, fn_decls_of(file.declarations@.subrange(0, i as int))), old(ids).next)
                    && ids.next == advance_id(old(ids).next, fn_decls_of(file.declarations@.subrange(0, i as int)).len()),
                forall|pp: Seq<Seq<char>>, o: Option<Ty>, n: Seq<char>| lookup_func(start, pp, o, n) is Some
                    ==> #[trigger] lookup_func(self.entries(), pp, o, n) == lookup_func(start, pp, o, n),
                forall|k: int| 0 <= k < fn_decls_of(file.declarations@.subrange(0, i as int)).len() ==> lookup_func(
                    self.entries(),
                    p,
                    fn_owner(type_resolver.entries(), *file, #[trigger] fn_decls_of(file.declarations@.subrange(0, i as int))[k]),
                    text_of(fn_decls_of(file.declarations@.subrange(0, i as int))[k].id),
                ) is Some,
            decreases file.declarations@.len() - i,
        {
            let ghost before = self.entries();
            let ghost sub = file.declarations@.subrange(0, i + 1);
            assert(sub.drop_last() =~= file.declarations@.subrange(0, i as int));
            assert(decl_wf(file.declarations@[i as int]));
            if let Declaration::Fn(f) = &file.declarations[i] {
                let name = f.id.value_string().unwrap().clone();
                let ghost ds = fn_decls_of(file.declarations@.subrange(0, i as int));
                let ghost ds2 = ds.push(*f);
                proof {
                    assert(fn_decls_of(sub) == ds2);
                    assert(ds2.subrange(0, ds.len() as int) =~= ds);
                }
                let parent_type = match &f.type_ref {
                    Some((_, t)) => match TypeInfo::from(t, type_resolver, file) {
                        Ok(t) => Some(t),
                        Err(err) => {
                            proof {
                                assert(fn_taken(start, p, types, *file, ds2, ds.len() as int));
                                assert(file.declarations@.subrange(0, i + 1) == sub);
                                lemma_fn_decls_prefix(file.declarations@, i + 1);
                                lemma_fn_clash_prefix(start, p, types, *file, ds2, fn_decls_of(file.declarations@));
                            }
                            return Err(vec![err]);
                        },
                    },
                    None => None,
                };
                assert(opt_ty(parent_type) == fn_owner(type_resolver.entries(), *file, *f));
                let ghost key = fn_key(types, *file, *f);
                proof {
                    let keys = fn_keys(types, *file, ds);
                    lemma_lookup_func_append(start, more, p, key.0, key.1);
                    if lookup_func(start, p, key.0, key.1) is None && lookup_func(more, p, key.0, key.1) is Some {
                        lemma_lookup_func_found(more, p, key.0, key.1);
                        let k = choose|k: int| 0 <= k < more.len() && (#[trigger] more[k]).0 == p && more[k].1 == key.0 && more[k].2 == key.1;
                        assert(keys.contains((more[k].1, more[k].2)));
                    }
                    if keys.contains(key) {
                        let k = choose|k: int| 0 <= k < keys.len() && keys[k] == key;
                        assert(keys[k] == fn_key(types, *file, ds[k]));
                        assert(lookup_func(self.entries(), p, fn_owner(types, *file, ds[k]), text_of(ds[k].id)) is Some);
                    }
                    assert(lookup_func(self.entries(), p, key.0, key.1) is Some <==> (lookup_func(start, p, key.0, key.1) is Some
                        || keys.contains(key)));
                    assert forall|k: int| 0 <= k < ds.len() implies fn_taken(start, p, types, *file, ds2, k) == fn_taken(start, p, types, *file, ds, k) by {
                        assert(ds2.subrange(0, k) =~= ds.subrange(0, k));
                        assert(ds2[k] == ds[k]);
                    }
                    assert(fn_taken(start, p, types, *file, ds2, ds.len() as int) <==> lookup_func(self.entries(), p, key.0, key.1) is Some);
                    if fn_clash(start, p, types, *file, ds2) {
                        let k = choose|k: int| 0 <= k < ds2.len() && #[trigger] fn_taken(start, p, types, *file, ds2, k);
                        if k < ds.len() {
                            assert(fn_taken(start, p, types, *file, ds, k));
                        }
                    }
                    if fn_clash(start, p, types, *file, ds) {
                        let k = choose|k: int| 0 <= k < ds.len() && #[trigger] fn_taken(start, p, types, *file, ds, k);
                        assert(fn_taken(start, p, types, *file, ds2, k));
                    }
                    assert(fn_clash(start, p, types, *file, ds2) <==> (fn_clash(start, p, types, *file, ds)
                        || lookup_func(self.entries(), p, key.0, key.1) is Some));
                    let keys2 = fn_keys(types, *file, ds2);
                    assert(keys2 =~= keys.push(key));
                    assert forall|k: int| 0 <= k < more.len() implies keys2.contains(((#[trigger] more[k]).1, more[k].2)) by {
                        let j = choose|j: int| 0 <= j < keys.len() && keys[j] == (more[k].1, more[k].2);
                        assert(keys2[j] == keys[j]);
                    }
                    assert(keys2[keys.len() as int] == key);
                }
                match self.get_func_id(&path, &parent_type, &name) {
                    Some(_) => errors.push(TypeError::DuplicateMemberFunc(f.id.get_loc(&file.info))),
                    None => {
                        let id = ids.fresh();
                        let ghost old_entries = self.entries();
                        let ghost o = opt_ty(parent_type);
                        self.entries.push(FuncEntry { path: path.clone(), parent: parent_type, name, id });
                        proof {
                            let added = seq![(p, o, name@, id)];
                            assert(self.entries() =~= old_entries + added);
                            assert(self.entries() =~= start + (more + added));
                            more = more + added;
                            assert forall|pp: Seq<Seq<char>>, oo: Option<Ty>, n: Seq<char>| lookup_func(old_entries, pp, oo, n) is Some
                                implies #[trigger] lookup_func(self.entries(), pp, oo, n) == lookup_func(old_entries, pp, oo, n) by {
                                lemma_lookup_func_append(old_entries, added, pp, oo, n);
                            }
                            lemma_lookup_func_append(old_entries, added, p, o, name@);
                            assert(lookup_func(added, p, o, name@) == Some(id));
                            if errors@.len() == 0 {
                                let keys = fn_keys(types, *file, ds);
                                let keys2 = fn_keys(types, *file, ds2);
                                assert(keys2 =~= keys.push(key));
                                assert(keys2.drop_last() =~= keys);
                                assert(more == fns_added(p, keys2, old(ids).next));
                            }
                        }
                    },
                }
                proof {
                    let ds = fn_decls_of(sub);
                    assert(ds == fn_decls_of(file.declarations@.subrange(0, i as int)).push(*f));
                    assert forall|k: int| 0 <= k < ds.len() implies lookup_func(
                        self.entries(),
                        p,
                        fn_owner(type_resolver.entries(), *file, #[trigger] ds[k]),
                        text_of(ds[k].id),
                    ) is Some by {
                        if k < ds.len() - 1 {
                            assert(ds[k] == fn_decls_of(file.declarations@.subrange(0, i as int))[k]);
                            if self.entries() != before {
                                let added = seq![self.entries().last()];
                                assert(self.entries() =~= before + added);
                                lemma_lookup_func_append(before, added, p, fn_owner(type_resolver.entries(), *file, ds[k]), text_of(ds[k].id));
                            }
                        }
                    }
                    assert forall|pp: Seq<Seq<char>>, o: Option<Ty>, n: Seq<char>| lookup_func(start, pp, o, n) is Some
                        implies #[trigger] lookup_func(self.entries(), pp, o, n) == lookup_func(start, pp, o, n) by {
                        assert(lookup_func(before, pp, o, n) == lookup_func(start, pp, o, n));
                        if self.entries() != before {
                            let added = seq![self.entries().last()];
                            assert(self.entries() =~= before + added);
                            lemma_lookup_func_append(before, added, pp, o, n);
                        }
                    }
                }
            } else {
                proof {
                    assert(fn_decls_of(sub) == fn_decls_of(file.declarations@.subrange(0, i as int)));
                }
            }
            i += 1;
        }
        assert(file.declarations@.subrange(0, i as int) =~= file.declarations@);
        if errors.len() > 0 {
            return Err(errors);
        }
        Ok(())
    }

    /// Looks a function name (of no owner type) up in every file that `file` can see.
    pub fn resolve(&self, type_info: &Option<TypeInfo>, token: &Token, file: &FileNode) -> (r: FuncResolverResult)
        requires
            token_text(*token) is Some,
        ensures
            r == func_resolution(found_funcs(self.entries(), paths_view(*file), opt_ty(*type_info), token_text(*token)->0), *token),
    {
        let name = token.value_string().unwrap();
        let ghost paths = paths_view(*file);
        let mut possible: Vec<u128> = Vec::new();
        let mut i: usize = 0;
        while i < file.using_paths.len()
            invariant
                i <= file.using_paths@.len(),
                paths == paths_view(*file),
                paths.len() == file.using_paths@.len(),
                name@ == token_text(*token)->0,
                possible@ == found_funcs(self.entries(), paths.subrange(0, i as int), opt_ty(*type_info), name@),
            decreases file.using_paths@.len() - i,
        {
            let found = self.get_func_id(&file.using_paths[i], type_info, name);
            proof {
                let sub = paths.subrange(0, i + 1);
                assert(sub.drop_last() =~= paths.subrange(0, i as int));
                assert(sub.last() == strings_view(file.using_paths@[i as int]@));
            }
            if let Some(id) = found {
                possible.push(id);
            }
            i += 1;
        }
        assert(paths.subrange(0, i as int) =~= paths);
        if possible.len() == 1 {
            FuncResolverResult::Found(possible[0])
        } else if possible.len() == 0 {
            FuncResolverResult::Undefined(token.clone())
        } else {
            FuncResolverResult::ConflictingFuncs(token.clone())
        }
    }

    pub fn resolve_result(&self, parent_type: &Option<TypeInfo>, token: &Token, file: &FileNode) -> (r: Result<u128, TypeError>)
        requires
            token_text(*token) is Some,
        ensures
            ({
                let found = found_funcs(self.entries(), paths_view(*file), opt_ty(*parent_type), token_text(*token)->0);
                &&& found.len() == 1 ==> r == Ok::<u128, TypeError>(found[0])
                &&& found.len() != 1 ==> r is Err
            }),
    {
        self.resolve(parent_type, token, file).to_result(&file.info)
    }
}

/// Where a function comes from: a declaration in a file, or the language itself.
#[derive(Debug)]
pub enum FuncDeclData {
    Decl { decl: Arc<FnDecl>, file: Arc<FileNode> },
    Builtin,
}

/// A parameter of a function: its name, type, default value and variable id.
#[derive(Debug)]
pub struct FuncInfoParam {
    pub name: String,
    pub type_info: TypeInfo,
    pub init: Option<Arc<Expression>>,
    pub id: u128,
}

/// A function known to the checker.
#[derive(Debug)]
pub struct FuncInfo {
    pub id: u128,
    pub name: String,
    pub parent: Option<TypeInfo>,
    pub has_self: bool,
    pub parameters: Vec<FuncInfoParam>,
    pub returned: TypeInfo,
    pub is_pub: bool,
    pub decl_data: FuncDeclData,
}

/// The types of a list of parameters.
pub open spec fn param_tys(ps: Seq<FuncInfoParam>) -> Seq<Ty> {
    ps.map_values(|p: FuncInfoParam| p.type_info@)
}

/// The type of a function value: its parameter types and its return type.
pub open spec fn func_ty(f: FuncInfo) -> Ty {
    Ty::Function(param_tys(f.parameters@), Box::new(f.returned@))
}

/// Where a function's declared parameters start: after `self`, when it takes one.
pub open spec fn self_offset(f: FuncInfo) -> int {
    if f.has_self {
        1
    } else {
        0
    }
}

/// Once a parameter has a default value, every later one has one too.
pub open spec fn defaults_trail(ps: Seq<crate::parsing::ast::FnParam>) -> bool {
    forall|i: int, j: int| 0 <= i < j < ps.len() && (#[trigger] ps[i]).default_value is Some ==> (#[trigger] ps[j]).default_value is Some
}

/// The id `k` fresh ids after `n`.
pub open spec fn advance_id(n: u128, k: nat) -> u128
    decreases k,
{
    if k == 0 {
        n
    } else {
        next_id(advance_id(n, (k - 1) as nat))
    }
}

/// The entries that registering `names` at `path` adds, with fresh ids from `n`.
pub open spec fn types_added(path: Seq<Seq<char>>, names: Seq<Seq<char>>, n: u128) -> Seq<(Seq<Seq<char>>, Seq<char>, u128)>
    decreases names.len(),
{
    if names.len() == 0 {
        Seq::empty()
    } else {
        types_added(path, names.drop_last(), n).push((path, names.last(), advance_id(n, (names.len() - 1) as nat)))
    }
}

/// The entries that registering functions with `keys` (owner type and name)
/// at `path` adds, with fresh ids from `n`.
pub open spec fn fns_added(path: Seq<Seq<char>>, keys: Seq<(Option<Ty>, Seq<char>)>, n: u128) -> Seq<(Seq<Seq<char>>, Option<Ty>, Seq<char>, u128)>
    decreases keys.len(),
{
    if keys.len() == 0 {
        Seq::empty()
    } else {
        fns_added(path, keys.drop_last(), n).push((path, keys.last().0, keys.last().1, advance_id(n, (keys.len() - 1) as nat)))
    }
}

/// A struct declaration of `file` can be described with `types`: its name is
/// registered at the file's path and its members' types resolve.
pub open spec fn struct_decl_describable(decl: Arc<StructDecl>, types: Seq<(Seq<Seq<char>>, Seq<char>, u128)>, file: Arc<FileNode>) -> bool {
    &&& lookup_type(types, spec_split_relative(file.info.path.relative_path@), text_of(decl.id)) is Some
    &&& forall|i: int| 0 <= i < decl.members@.len() ==> resolve_type(types, paths_view(*file), (#[trigger] decl.members@[i]).type_ref) is Some
}

/// Parameter `j` has no default value though an earlier one has one.
pub open spec fn default_missing(ps: Seq<crate::parsing::ast::FnParam>, j: int) -> bool {
    &&& ps[j].default_value is None
    &&& exists|k: int| 0 <= k < j && (#[trigger] ps[k]).default_value is Some
}

/// The type entries start with the built-in types, at the empty path.
pub open spec fn builtin_types_first(es: Seq<(Seq<Seq<char>>, Seq<char>, u128)>) -> bool {
    &&& es.len() >= 5
    &&& forall|i: int| 0 <= i < 5 ==> #[trigger] es[i] == (
        Seq::<Seq<char>>::empty(),
        builtin_type_entries()[i].0,
        builtin_type_entries()[i].1,
    )
}

/// A function description made from declaration `decl` of `file`, its types
/// resolved with `types`: the same name, `self` and visibility; the owner type;
/// `self` first, of the owner type, when it takes one, then one parameter per
/// declared one, with its name, type and default value; and the return type,
/// `Void` when none is written.
pub open spec fn func_info_of_decl(
    f: FuncInfo,
    decl: Arc<FnDecl>,
    file: Arc<FileNode>,
    types: Seq<(Seq<Seq<char>>, Seq<char>, u128)>,
) -> bool {
    &&& f.name@ == text_of(decl.id)
    &&& f.has_self == decl.self_param is Some
    &&& f.is_pub == decl.pub_tok is Some
    &&& f.parameters@.len() == decl.params@.len() + self_offset(f)
    &&& f.decl_data == (FuncDeclData::Decl { decl, file })
    &&& opt_ty(f.parent) == fn_owner(types, *file, decl)
    &&& (f.has_self ==> f.parameters@[0].name@ == "self"@ && opt_ty(f.parent) == Some(f.parameters@[0].type_info@)
        && f.parameters@[0].init is None)
    &&& forall|i: int| 0 <= i < decl.params@.len() ==> {
        let p = #[trigger] f.parameters@[i + self_offset(f)];
        &&& p.name@ == text_of(decl.params@[i].id)
        &&& resolve_type(types, paths_view(*file), decl.params@[i].type_ref) == Some(p.type_info@)
        &&& p.init == init_of(decl.params@[i].default_value)
    }
    &&& match decl.return_type {
        Some((_, t)) => resolve_type(types, paths_view(*file), t) == Some(f.returned@),
        None => f.returned@ == void_ty(),
    }
}

/// A function declaration of `file` can be described: its owner type, its
/// parameters' types and its return type resolve with `types`; the function is
/// registered under its owner and name in `funcs`; it takes `self` only when
/// it has an owner; and once a parameter has a default value, every later one
/// has one too.
pub open spec fn fn_decl_describable(
    decl: Arc<FnDecl>,
    types: Seq<(Seq<Seq<char>>, Seq<char>, u128)>,
    funcs: Seq<(Seq<Seq<char>>, Option<Ty>, Seq<char>, u128)>,
    file: Arc<FileNode>,
) -> bool {
    &&& (decl.type_ref is Some ==> fn_owner(types, *file, decl) is Some)
    &&& lookup_func(funcs, spec_split_relative(file.info.path.relative_path@), fn_owner(types, *file, decl), text_of(decl.id)) is Some
    &&& (decl.self_param is Some ==> decl.type_ref is Some)
    &&& forall|i: int| 0 <= i < decl.params@.len() ==> resolve_type(types, paths_view(*file), (#[trigger] decl.params@[i]).type_ref) is Some
    &&& defaults_trail(decl.params@)
    &&& match decl.return_type {
        Some((_, t)) => resolve_type(types, paths_view(*file), t) is Some,
        None => true,
    }
}

impl FuncInfo {
    /// The function a declaration of `file` describes: its owner type, its
    /// parameters (with `self` first when it takes one) and its return type.
    pub fn new(decl: Arc<FnDecl>, resolver: &TypeResolver, func_resolver: &FuncResolver, file: Arc<FileNode>, ids: &mut IdGen) -> (r: Result<Self, TypeError>)
        requires
            crate::parsing::syntax::fn_decl_wf(*decl),
        ensures
            r is Ok <==> fn_decl_describable(decl, resolver.entries(), func_resolver.entries(), file),
            ({
                let owner = fn_owner(resolver.entries(), *file, decl);
                let owner_ok = decl.type_ref is Some ==> owner is Some;
                let registered = lookup_func(
                    func_resolver.entries(),
                    spec_split_relative(file.info.path.relative_path@),
                    owner,
                    text_of(decl.id),
                ) is Some;
                &&& owner_ok && !registered ==> r == Err::<FuncInfo, TypeError>(
                    TypeError::UndefinedFunction(decl.id, spec_get_loc(decl.id.pos, *file.info)),
                )
                &&& owner_ok && registered && decl.type_ref is None ==> match decl.self_param {
                    Some(s) => r == Err::<FuncInfo, TypeError>(TypeError::CannotUseSelfInContext(spec_get_loc(s.pos, *file.info))),
                    None => true,
                }
                &&& owner_ok && registered && (decl.self_param is Some ==> decl.type_ref is Some) && (forall|i: int|
                    0 <= i < decl.params@.len() ==> resolve_type(resolver.entries(), paths_view(*file), (#[trigger] decl.params@[i]).type_ref)
                    is Some) && !defaults_trail(decl.params@) ==> (r matches Err(TypeError::FunctionArgumentNeedsInitializer(l))
                    && exists|j: int| {
                        &&& 0 <= j < decl.params@.len()
                        &&& #[trigger] default_missing(decl.params@, j)
                        &&& forall|m: int| 0 <= m < j ==> !default_missing(decl.params@, m)
                        &&& l == spec_get_loc(decl.params@[j].id.pos.spec_add(type_pos(decl.params@[j].type_ref)), *file.info)
                    })
            }),
            r matches Ok(f) ==> {
                &&& f.name@ == text_of(decl.id)
                &&& f.has_self == decl.self_param is Some
                &&& f.is_pub == decl.pub_tok is Some
                &&& f.decl_data is Decl
                &&& (f.has_self ==> f.parent is Some)
                &&& defaults_trail(decl.params@)
                &&& f.parameters@.len() == decl.params@.len() + self_offset(f)
                &&& (f.has_self ==> f.parameters@[0].name@ == "self"@ && opt_ty(f.parent) == Some(f.parameters@[0].type_info@)
                    && f.parameters@[0].init is None)
                &&& forall|i: int| 0 <= i < decl.params@.len() ==> {
                    let p = #[trigger] f.parameters@[i + self_offset(f)];
                    &&& p.name@ == text_of(decl.params@[i].id)
                    &&& resolve_type(resolver.entries(), paths_view(*file), decl.params@[i].type_ref) == Some(p.type_info@)
                    &&& (p.init is Some <==> decl.params@[i].default_value is Some)
                    &&& p.init == init_of(decl.params@[i].default_value)
                }
                &&& f.decl_data == (FuncDeclData::Decl { decl, file })
                &&& opt_ty(f.parent) == fn_owner(resolver.entries(), *file, decl)
                &&& match decl.return_type {
                    Some((_, t)) => resolve_type(resolver.entries(), paths_view(*file), t) == Some(f.returned@),
                    None => f.returned@ == void_ty(),
                }
            },
    {
        let name = decl.id.value_string().unwrap().clone();
        let parent: Option<TypeInfo> = match &decl.type_ref {
            Some((_, t)) => Some(TypeInfo::from(t, resolver, &file)?),
            None => None,
        };
        let path = file.info.path.split_relative();
        let fn_id = match func_resolver.get_func_id(&path, &parent, &name) {
            Some(id) => id,
            None => return Err(TypeError::UndefinedFunction(decl.id.clone(), decl.id.get_loc(&file.info))),
        };
        let has_self = decl.self_param.is_some();
        if has_self && parent.is_none() {
            let self_tok = decl.self_param.as_ref().unwrap();
            return Err(TypeError::CannotUseSelfInContext(self_tok.get_loc(&file.info)));
        }
        let mut parameters: Vec<FuncInfoParam> = Vec::new();
        if has_self {
            let self_type = parent.as_ref().unwrap().copy();
            parameters.push(FuncInfoParam { name: crate::text::to_owned_string("self"), type_info: self_type, init: None, id: ids.fresh() });
        }
        let ghost off: int = if has_self { 1 } else { 0 };
        let mut has_init = false;
        let mut i: usize = 0;
        while i < decl.params.len()
            invariant
                crate::parsing::syntax::fn_decl_wf(*decl),
                i <= decl.params@.len(),
                decl.type_ref is Some ==> fn_owner(resolver.entries(), *file, decl) is Some,
                lookup_func(
                    func_resolver.entries(),
                    spec_split_relative(file.info.path.relative_path@),
                    fn_owner(resolver.entries(), *file, decl),
                    text_of(decl.id),
                ) is Some,
                decl.self_param is Some ==> decl.type_ref is Some,
                has_self == decl.self_param is Some,
                off == if has_self { 1int } else { 0int },
                parameters@.len() == i + off,
                has_self ==> parameters@[0].name@ == "self"@ && opt_ty(parent) == Some(parameters@[0].type_info@)
                    && parameters@[0].init is None,
                has_init <==> exists|k: int| 0 <= k < i && (#[trigger] decl.params@[k]).default_value is Some,
                forall|a: int, b: int| 0 <= a < b < i && (#[trigger] decl.params@[a]).default_value is Some ==> (#[trigger] decl.params@[b]).default_value is Some,
                forall|k: int| 0 <= k < i ==> {
                    let p = #[trigger] parameters@[k + off];
                    &&& p.name@ == text_of(decl.params@[k].id)
                    &&& resolve_type(resolver.entries(), paths_view(*file), decl.params@[k].type_ref) == Some(p.type_info@)
                    &&& (p.init is Some <==> decl.params@[k].default_value is Some)
                    &&& p.init == init_of(decl.params@[k].default_value)
                },
            decreases decl.params@.len() - i,
        {
            let p = &decl.params[i];
            assert(crate::parsing::syntax::param_wf(decl.params@[i as int]));
            let type_info = TypeInfo::from(&p.type_ref, resolver, &file)?;
            let init = match &p.default_value {
                Some((_, e)) => Some(e.clone()),
                None => None,
            };
            if init.is_some() {
                has_init = true;
            }
            if has_init && init.is_none() {
                let pos = p.id.pos + p.type_ref.get_pos();
                proof {
                    let k = choose|k: int| 0 <= k < i && (#[trigger] decl.params@[k]).default_value is Some;
                    assert(!defaults_trail(decl.params@)) by {
                        assert(decl.params@[k].default_value is Some && decl.params@[i as int].default_value is None);
                    }
                    assert(default_missing(decl.params@, i as int));
                    assert forall|m: int| 0 <= m < i implies !default_missing(decl.params@, m) by {
                        if default_missing(decl.params@, m) {
                            let k2 = choose|k2: int| 0 <= k2 < m && (#[trigger] decl.params@[k2]).default_value is Some;
                            assert(decl.params@[k2].default_value is Some);
                        }
                    }
                }
                return Err(TypeError::FunctionArgumentNeedsInitializer(pos.get_loc(&file.info)));
            }
            let param_name = p.id.value_string().unwrap().clone();
            let ghost before = parameters@;
            parameters.push(FuncInfoParam { name: param_name, type_info, init, id: ids.fresh() });
            proof {
                assert forall|k: int| 0 <= k < i + 1 implies {
                    let q = #[trigger] parameters@[k + off];
                    &&& q.name@ == text_of(decl.params@[k].id)
                    &&& resolve_type(resolver.entries(), paths_view(*file), decl.params@[k].type_ref) == Some(q.type_info@)
                    &&& (q.init is Some <==> decl.params@[k].default_value is Some)
                    &&& q.init == init_of(decl.params@[k].default_value)
                } by {
                    if k < i {
                        assert(parameters@[k + off] == before[k + off]);
                    }
                }
            }
            i += 1;
        }
        let returned = match &decl.return_type {
            Some((_, t)) => TypeInfo::from(t, resolver, &file)?,
            None => void_type(),
        };
        assert forall|k: int| 0 <= k < decl.params@.len() implies resolve_type(
            resolver.entries(),
            paths_view(*file),
            (#[trigger] decl.params@[k]).type_ref,
        ) is Some by {
            assert(resolve_type(resolver.entries(), paths_view(*file), decl.params@[k].type_ref) == Some(parameters@[k + off].type_info@));
        }
        Ok(FuncInfo {
            id: fn_id,
            name,
            parent,
            has_self: decl.self_param.is_some(),
            parameters,
            returned,
            is_pub: decl.pub_tok.is_some(),
            decl_data: FuncDeclData::Decl { decl, file },
        })
    }

    /// The functions a file declares, or the errors of those that failed.
    pub fn from_file(type_resolver: &TypeResolver, func_resolver: &FuncResolver, file: Arc<FileNode>, ids: &mut IdGen) -> (r: Result<Vec<Self>, Vec<TypeError>>)
        requires
            decls_wf(file.declarations@),
            decls_supported(file.declarations@),
        ensures
            r matches Err(errs) ==> errs@.len() > 0,
            r is Ok <==> forall|i: int| 0 <= i < fn_decls_of(file.declarations@).len() ==> fn_decl_describable(
                #[trigger] fn_decls_of(file.declarations@)[i],
                type_resolver.entries(),
                func_resolver.entries(),
                file,
            ),
            r matches Ok(infos) ==> forall|i: int| 0 <= i < infos@.len() ==> func_info_ok(#[trigger] infos@[i]),
            r matches Ok(infos) ==> {
                let decls = fn_decls_of(file.declarations@);
                &&& infos@.len() == decls.len()
                &&& forall|i: int| 0 <= i < infos@.len() ==> func_info_of_decl(#[trigger] infos@[i], decls[i], file, type_resolver.entries())
            },
    {
        let mut errors: Vec<TypeError> = Vec::new();
        let mut infos: Vec<FuncInfo> = Vec::new();
        let mut i: usize = 0;
        while i < file.declarations.len()
            invariant
                decls_wf(file.declarations@),
                decls_supported(file.declarations@),
                i <= file.declarations@.len(),
                forall|k: int| 0 <= k < infos@.len() ==> func_info_ok(#[trigger] infos@[k]),
                errors@.len() == 0 ==> {
                    let decls = fn_decls_of(file.declarations@.subrange(0, i as int));
                    &&& infos@.len() == decls.len()
                    &&& forall|k: int| 0 <= k < infos@.len() ==> func_info_of_decl(#[trigger] infos@[k], decls[k], file, type_resolver.entries())
                },
                errors@.len() == 0 <==> forall|k: int| 0 <= k < fn_decls_of(file.declarations@.subrange(0, i as int)).len()
                    ==> fn_decl_describable(#[trigger] fn_decls_of(file.declarations@.subrange(0, i as int))[k], type_resolver.entries(), func_resolver.entries(), file),
            decreases file.declarations@.len() - i,
        {
            let ghost before = infos@;
            let ghost fds = fn_decls_of(file.declarations@.subrange(0, i as int));
            proof {
                let sub = file.declarations@.subrange(0, i + 1);
                assert(sub.drop_last() =~= file.declarations@.subrange(0, i as int));
            }
            assert(decl_wf(file.declarations@[i as int]));
            assert(decl_supported(file.declarations@[i as int]));
            if let Declaration::Fn(f) = &file.declarations[i] {
                proof {
                    assert forall|k: int| 0 <= k < f.params@.len() implies init_ok(init_of((#[trigger] f.params@[k]).default_value)) by {
                        assert(crate::parsing::syntax::param_wf(f.params@[k]));
                    }
                }
                match Self::new(f.clone(), type_resolver, func_resolver, file.clone(), ids) {
                    Ok(info) => {
                        proof {
                            assert forall|k: int| 0 <= k < info.parameters@.len() implies init_ok((#[trigger] info.parameters@[k]).init) by {
                                if !(info.has_self && k == 0) {
                                    let j = k - self_offset(info);
                                    assert(info.parameters@[j + self_offset(info)] == info.parameters@[k]);
                                    assert(init_ok(init_of(f.params@[j].default_value)));
                                }
                            }
                            assert(crate::parsing::syntax::fn_decl_wf(**f));
                        }
                        infos.push(info);
                        proof {
                            assert forall|k: int| 0 <= k < before.len() implies infos@[k] == before[k] by {}
                        }
                    },
                    Err(e) => errors.push(e),
                }
                proof {
                    let fds2 = fn_decls_of(file.declarations@.subrange(0, i + 1));
                    assert(fds2 == fds.push(*f));
                    assert forall|k: int| 0 <= k < fds.len() implies #[trigger] fds2[k] == fds[k] by {}
                    let es = type_resolver.entries();
                    let fs = func_resolver.entries();
                    assert(fds2[fds.len() as int] == *f);
                    if forall|k: int| 0 <= k < fds2.len() ==> fn_decl_describable(#[trigger] fds2[k], es, fs, file) {
                        assert forall|k: int| 0 <= k < fds.len() implies fn_decl_describable(#[trigger] fds[k], es, fs, file) by {
                            assert(fn_decl_describable(fds2[k], es, fs, file));
                        }
                        assert(fn_decl_describable(fds2[fds.len() as int], es, fs, file));
                    }
                    if (forall|k: int| 0 <= k < fds.len() ==> fn_decl_describable(#[trigger] fds[k], es, fs, file))
                        && fn_decl_describable(*f, es, fs, file) {
                        assert forall|k: int| 0 <= k < fds2.len() implies fn_decl_describable(#[trigger] fds2[k], es, fs, file) by {
                            if k < fds.len() {
                                assert(fn_decl_describable(fds[k], es, fs, file));
                            }
                        }
                    }
                }
            } else {
                proof {
                    assert(fn_decls_of(file.declarations@.subrange(0, i + 1)) == fds);
                }
            }
            i += 1;
        }
        assert(file.declarations@.subrange(0, i as int) =~= file.declarations@);
        if errors.len() > 0 {
            return Err(errors);
        }
        Ok(infos)
    }

    /// The type of the function as a value.
    pub fn get_type_info(&self) -> (r: TypeInfo)
        ensures
            r@ == func_ty(*self),
    {
        let mut args: Vec<TypeInfo> = Vec::new();
        let mut i: usize = 0;
        while i < self.parameters.len()
            invariant
                i <= self.parameters@.len(),
                tys_of(args@) == param_tys(self.parameters@.subrange(0, i as int)),
            decreases self.parameters@.len() - i,
        {
            let ghost before = args@;
            args.push(self.parameters[i].type_info.copy());
            proof {
                assert(args@.drop_last() =~= before);
                assert(param_tys(self.parameters@.subrange(0, i + 1)) =~= param_tys(self.parameters@.subrange(0, i as int)).push(self.parameters@[i as int].type_info@));
            }
            i += 1;
        }
        assert(self.parameters@.subrange(0, i as int) =~= self.parameters@);
        TypeInfo::Function { args, returned: Box::new(self.returned.copy()) }
    }
}

/// The path a file's declarations are registered at.
pub open spec fn file_path(f: Arc<FileNode>) -> Seq<Seq<char>> {
    spec_split_relative(f.info.path.relative_path@)
}

/// The type entries of the built-in types, at the empty path.
pub open spec fn builtin_type_table() -> Seq<(Seq<Seq<char>>, Seq<char>, u128)> {
    builtin_type_entries().map_values(|e: (Seq<char>, u128)| (Seq::<Seq<char>>::empty(), e.0, e.1))
}

/// The function entries of the built-in functions, at the empty path.
pub open spec fn builtin_func_table() -> Seq<(Seq<Seq<char>>, Option<Ty>, Seq<char>, u128)> {
    seq![
        (Seq::<Seq<char>>::empty(), None, "println"@, PRINTLN_ID),
        (Seq::<Seq<char>>::empty(), None, "print"@, PRINT_ID),
        (Seq::<Seq<char>>::empty(), None, "read_line"@, READ_LINE_ID),
        (Seq::<Seq<char>>::empty(), Some(string_ty()), "to_int"@, STRING_TO_INT_ID),
    ]
}

/// The type entries after the structs of `files` are registered one file
/// after the other, with fresh ids from `n`, and the next free id.
pub open spec fn types_fold(files: Seq<Arc<FileNode>>, n: u128) -> (Seq<(Seq<Seq<char>>, Seq<char>, u128)>, u128)
    decreases files.len(),
{
    if files.len() == 0 {
        (builtin_type_table(), n)
    } else {
        let prev = types_fold(files.drop_last(), n);
        let names = struct_names(files.last().declarations@);
        (prev.0 + types_added(file_path(files.last()), names, prev.1), advance_id(prev.1, names.len()))
    }
}

/// File `k` declares a struct name twice, or one already registered at its
/// path by the files before it.
pub open spec fn type_clash_at(files: Seq<Arc<FileNode>>, k: int, n: u128) -> bool {
    type_clash(types_fold(files.subrange(0, k), n).0, file_path(files[k]), struct_names(files[k].declarations@))
}

/// No file declares a struct name twice or one already registered at its path.
pub open spec fn types_register(files: Seq<Arc<FileNode>>, n: u128) -> bool {
    forall|k: int| 0 <= k < files.len() ==> !#[trigger] type_clash_at(files, k, n)
}

/// The function entries after the functions of `files` are registered one
/// file after the other, their owners resolved with `types`, with fresh ids
/// from `n`, and the next free id.
pub open spec fn fns_fold(
    files: Seq<Arc<FileNode>>,
    types: Seq<(Seq<Seq<char>>, Seq<char>, u128)>,
    n: u128,
) -> (Seq<(Seq<Seq<char>>, Option<Ty>, Seq<char>, u128)>, u128)
    decreases files.len(),
{
    if files.len() == 0 {
        (builtin_func_table(), n)
    } else {
        let prev = fns_fold(files.drop_last(), types, n);
        let f = files.last();
        let ds = fn_decls_of(f.declarations@);
        (prev.0 + fns_added(file_path(f), fn_keys(types, *f, ds), prev.1), advance_id(prev.1, ds.len()))
    }
}

/// A function of file `k` has an owner type that does not resolve with
/// `types`, or the owner and name of an earlier function of its path.
pub open spec fn fn_clash_at(files: Seq<Arc<FileNode>>, k: int, types: Seq<(Seq<Seq<char>>, Seq<char>, u128)>, n: u128) -> bool {
    fn_clash(fns_fold(files.subrange(0, k), types, n).0, file_path(files[k]), types, *files[k], fn_decls_of(files[k].declarations@))
}

/// Every function's owner type resolves with `types`, and no two functions of
/// one path have the same owner and name.
pub open spec fn fns_register(files: Seq<Arc<FileNode>>, types: Seq<(Seq<Seq<char>>, Seq<char>, u128)>, n: u128) -> bool {
    forall|k: int| 0 <= k < files.len() ==> !#[trigger] fn_clash_at(files, k, types, n)
}

/// The structs of the first `m` files can be described with `types`.
pub open spec fn structs_describable(files: Seq<Arc<FileNode>>, m: int, types: Seq<(Seq<Seq<char>>, Seq<char>, u128)>) -> bool {
    forall|k: int, i: int| 0 <= k < m && 0 <= i < struct_decls_of(files[k].declarations@).len() ==> struct_decl_describable(
        #[trigger] struct_decls_of(files[k].declarations@)[i],
        types,
        files[k],
    )
}

/// The functions of the first `m` files can be described with `types` and `funcs`.
pub open spec fn fns_describable(
    files: Seq<Arc<FileNode>>,
    m: int,
    types: Seq<(Seq<Seq<char>>, Seq<char>, u128)>,
    funcs: Seq<(Seq<Seq<char>>, Option<Ty>, Seq<char>, u128)>,
) -> bool {
    forall|k: int, i: int| 0 <= k < m && 0 <= i < fn_decls_of(files[k].declarations@).len() ==> fn_decl_describable(
        #[trigger] fn_decls_of(files[k].declarations@)[i],
        types,
        funcs,
        files[k],
    )
}

/// The declarations of `files` can be collected, with fresh ids from `n`: the
/// struct names register, then (after the three ids the built-in functions
/// take) the functions register, and every struct and function can be
/// described with the tables so built.
pub open spec fn program_collectable(files: Seq<Arc<FileNode>>, n: u128) -> bool {
    let tf = types_fold(files, n);
    let n2 = advance_id(tf.1, 3);
    let ff = fns_fold(files, tf.0, n2);
    &&& types_register(files, n)
    &&& fns_register(files, tf.0, n2)
    &&& structs_describable(files, files.len() as int, tf.0)
    &&& fns_describable(files, files.len() as int, tf.0, ff.0)
}

/// Registering one more file's structs and functions.
proof fn lemma_register_step(files: Seq<Arc<FileNode>>, i: int, types: Seq<(Seq<Seq<char>>, Seq<char>, u128)>, n: u128, m: u128)
    requires
        0 <= i < files.len(),
    ensures
        types_fold(files.subrange(0, i + 1), n) == ({
            let prev = types_fold(files.subrange(0, i), n);
            let names = struct_names(files[i].declarations@);
            (prev.0 + types_added(file_path(files[i]), names, prev.1), advance_id(prev.1, names.len()))
        }),
        types_register(files.subrange(0, i + 1), n) <==> types_register(files.subrange(0, i), n) && !type_clash_at(files, i, n),
        fns_fold(files.subrange(0, i + 1), types, m) == ({
            let prev = fns_fold(files.subrange(0, i), types, m);
            let ds = fn_decls_of(files[i].declarations@);
            (prev.0 + fns_added(file_path(files[i]), fn_keys(types, *files[i], ds), prev.1), advance_id(prev.1, ds.len()))
        }),
        fns_register(files.subrange(0, i + 1), types, m) <==> fns_register(files.subrange(0, i), types, m) && !fn_clash_at(files, i, types, m),
{
    let s1 = files.subrange(0, i + 1);
    let s0 = files.subrange(0, i);
    assert(s1.drop_last() =~= s0);
    assert(s1.last() == files[i]);
    assert forall|k: int| 0 <= k <= i implies #[trigger] s1.subrange(0, k) == files.subrange(0, k) && s1[k] == files[k] by {
        assert(s1.subrange(0, k) =~= files.subrange(0, k));
    }
    assert forall|k: int| 0 <= k < i implies #[trigger] s0.subrange(0, k) == files.subrange(0, k) && s0[k] == files[k] by {
        assert(s0.subrange(0, k) =~= files.subrange(0, k));
    }
    assert forall|k: int| 0 <= k <= i implies #[trigger] type_clash_at(s1, k, n) == type_clash_at(files, k, n) by {
        assert(s1.subrange(0, k) == files.subrange(0, k) && s1[k] == files[k]);
    }
    assert forall|k: int| 0 <= k < i implies #[trigger] type_clash_at(s0, k, n) == type_clash_at(files, k, n) by {
        assert(s0.subrange(0, k) == files.subrange(0, k) && s0[k] == files[k]);
    }
    assert forall|k: int| 0 <= k <= i implies #[trigger] fn_clash_at(s1, k, types, m) == fn_clash_at(files, k, types, m) by {
        assert(s1.subrange(0, k) == files.subrange(0, k) && s1[k] == files[k]);
    }
    assert forall|k: int| 0 <= k < i implies #[trigger] fn_clash_at(s0, k, types, m) == fn_clash_at(files, k, types, m) by {
        assert(s0.subrange(0, k) == files.subrange(0, k) && s0[k] == files[k]);
    }
    if types_register(s1, n) {
        assert forall|k: int| 0 <= k < s0.len() implies !#[trigger] type_clash_at(s0, k, n) by {
            assert(!type_clash_at(s1, k, n));
        }
        assert(!type_clash_at(s1, i, n));
    }
    if types_register(s0, n) && !type_clash_at(files, i, n) {
        assert forall|k: int| 0 <= k < s1.len() implies !#[trigger] type_clash_at(s1, k, n) by {
            if k < i {
                assert(!type_clash_at(s0, k, n));
            }
        }
    }
    if fns_register(s1, types, m) {
        assert forall|k: int| 0 <= k < s0.len() implies !#[trigger] fn_clash_at(s0, k, types, m) by {
            assert(!fn_clash_at(s1, k, types, m));
        }
        assert(!fn_clash_at(s1, i, types, m));
    }
    if fns_register(s0, types, m) && !fn_clash_at(files, i, types, m) {
        assert forall|k: int| 0 <= k < s1.len() implies !#[trigger] fn_clash_at(s1, k, types, m) by {
            if k < i {
                assert(!fn_clash_at(s0, k, types, m));
            }
        }
    }
}

/// A program's files are parsed and well formed.
pub open spec fn program_wf(p: Program) -> bool {
    forall|i: int| 0 <= i < p.files@.len() ==> decls_wf((#[trigger] p.files@[i]).declarations@)
}

/// The expression a default value or initializer holds.
pub open spec fn init_of(init: Option<(Token, Arc<Expression>)>) -> Option<Arc<Expression>> {
    match init {
        Some((_, e)) => Some(e),
        None => None,
    }
}

/// A default value the checker can check: well formed and of a handled kind.
pub open spec fn init_ok(init: Option<Arc<Expression>>) -> bool {
    match init {
        Some(e) => expr_wf(*e) && expr_supported(*e),
        None => true,
    }
}

/// Every default value of a struct can be checked.
pub open spec fn struct_info_ok(s: StructInfo) -> bool {
    forall|i: int| 0 <= i < s.members@.len() ==> init_ok((#[trigger] s.members@[i]).init)
}

/// Every default value and the body of a function can be checked.
pub open spec fn func_info_ok(f: FuncInfo) -> bool {
    &&& forall|i: int| 0 <= i < f.parameters@.len() ==> init_ok((#[trigger] f.parameters@[i]).init)
    &&& match f.decl_data {
        FuncDeclData::Decl { decl, .. } => block_wf(*decl.body) && block_supported(*decl.body),
        FuncDeclData::Builtin => true,
    }
}

/// A declaration uses only what the checker handles.
pub open spec fn decl_supported(d: Declaration) -> bool {
    match d {
        Declaration::Fn(f) => block_supported(*f.body) && forall|i: int| 0 <= i < f.params@.len() ==> init_ok_or_none(
            (#[trigger] f.params@[i]).default_value,
        ),
        Declaration::Struct(s) => forall|i: int| 0 <= i < s.members@.len() ==> init_ok_or_none(
            (#[trigger] s.members@[i]).initializer,
        ),
        Declaration::Const(_) => true,
    }
}

pub open spec fn init_ok_or_none(init: Option<(Token, Arc<Expression>)>) -> bool {
    match init {
        Some((_, e)) => expr_supported(*e),
        None => true,
    }
}

pub open spec fn decls_supported(ds: Seq<Declaration>) -> bool {
    forall|i: int| 0 <= i < ds.len() ==> decl_supported(#[trigger] ds[i])
}

/// Every file uses only what the checker handles.
pub open spec fn program_supported(p: Program) -> bool {
    forall|i: int| 0 <= i < p.files@.len() ==> decls_supported((#[trigger] p.files@[i]).declarations@)
}

/// Every struct and function of a context can be checked.
pub open spec fn context_ok(c: InfoContext) -> bool {
    &&& forall|i: int| 0 <= i < c.structs@.len() ==> struct_info_ok(#[trigger] c.structs@[i])
    &&& forall|i: int| 0 <= i < c.funcs@.len() ==> func_info_ok(#[trigger] c.funcs@[i])
}

/// Everything the checker knows before it reads function bodies: the types and
/// functions of every file and of the language.
pub struct InfoContext {
    pub type_resolver: TypeResolver,
    pub structs: Vec<StructInfo>,
    pub func_resolver: FuncResolver,
    pub funcs: Vec<FuncInfo>,
}

impl InfoContext {
    /// Collects the types and functions of every file, after the built-in ones;
    /// it succeeds exactly when the program's declarations can be collected
    /// (`program_collectable`, with ids counted from the generator's).
    pub fn new(program: &Program, ids: &mut IdGen) -> (r: Result<Self, Vec<TypeError>>)
        requires
            program_wf(*program),
            program_supported(*program),
        ensures
            r matches Err(errs) ==> errs@.len() > 0,
            r is Ok <==> program_collectable(program.files@, old(ids).next),
            r matches Ok(ctx) ==> ctx.type_resolver.entries() == types_fold(program.files@, old(ids).next).0,
            r is Ok ==> forall|k: int| 0 <= k < program.files@.len() ==> distinct_names(
                struct_names((#[trigger] program.files@[k]).declarations@),
            ),
            r matches Ok(ctx) ==> forall|k: int| 0 <= k < program.files@.len() ==> fns_registrable(
                ctx.type_resolver.entries(),
                *(#[trigger] program.files@[k]),
            ),
            r matches Ok(ctx) ==> ctx.structs@.len() >= 5 && ctx.funcs@.len() >= 4 && context_ok(ctx),
            r matches Ok(ctx) ==> builtin_types_first(ctx.type_resolver.entries()),
            r matches Ok(ctx) ==> {
                let sd = program_struct_decls(program.files@);
                let fd = program_fn_decls(program.files@);
                &&& ctx.structs@.len() == 5 + sd.len()
                &&& forall|k: int| 0 <= k < 5 ==> (#[trigger] ctx.structs@[k]).decl_data is Builtin
                &&& forall|k: int| 0 <= k < sd.len() ==> struct_info_of_decl(
                    #[trigger] ctx.structs@[5 + k],
                    sd[k].0,
                    sd[k].1,
                    ctx.type_resolver.entries(),
                )
                &&& ctx.funcs@.len() == 4 + fd.len()
                &&& forall|k: int| 0 <= k < 4 ==> (#[trigger] ctx.funcs@[k]).decl_data is Builtin && ctx.funcs@[k].name@ != "main"@
                &&& forall|k: int| 0 <= k < fd.len() ==> func_info_of_decl(#[trigger] ctx.funcs@[4 + k], fd[k].0, fd[k].1, ctx.type_resolver.entries())
            },
    {
        let ghost n0 = ids.next;
        let ghost fs = program.files@;
        let mut type_resolver = TypeResolver::new();
        let mut errors: Vec<TypeError> = Vec::new();
        proof {
            assert(type_resolver.entries() =~= builtin_type_table());
            assert(fs.subrange(0, 0) =~= Seq::<Arc<FileNode>>::empty());
        }
        let mut i: usize = 0;
        while i < program.files.len()
            invariant
                program_wf(*program),
                i <= program.files@.len(),
                fs == program.files@,
                n0 == old(ids).next,
                errors@.len() == 0 <==> types_register(fs.subrange(0, i as int), n0),
                errors@.len() == 0 ==> type_resolver.entries() == types_fold(fs.subrange(0, i as int), n0).0
                    && ids.next == types_fold(fs.subrange(0, i as int), n0).1,
                builtin_types_first(type_resolver.entries()),
                errors@.len() == 0 ==> forall|k: int| 0 <= k < i ==> distinct_names(
                    struct_names((#[trigger] program.files@[k]).declarations@),
                ),
            decreases program.files@.len() - i,
        {
            assert(decls_wf(program.files@[i as int].declarations@));
            let ghost es = type_resolver.entries();
            let ghost had = errors@.len() > 0;
            proof {
                lemma_register_step(fs, i as int, Seq::empty(), n0, 0);
            }
            let ok = match type_resolver.append_file(&program.files[i], ids) {
                Err(e) => {
                    append_errors(&mut errors, e);
                    false
                },
                Ok(()) => true,
            };
            proof {
                assert forall|k: int| 0 <= k < 5 implies #[trigger] type_resolver.entries()[k] == es[k] by {
                    assert(type_resolver.entries().subrange(0, es.len() as int)[k] == type_resolver.entries()[k]);
                }
            }
            proof {
                if ok {
                    lemma_no_clash_distinct(
                        es,
                        spec_split_relative(program.files@[i as int].info.path.relative_path@),
                        struct_names(program.files@[i as int].declarations@),
                    );
                }
            }
            i += 1;
        }
        let ghost distinct_ok = forall|k: int| 0 <= k < program.files@.len() ==> distinct_names(
            struct_names((#[trigger] program.files@[k]).declarations@),
        );
        assert(errors@.len() == 0 ==> distinct_ok);
        assert(fs.subrange(0, i as int) =~= fs);
        let ghost types_ok = errors@.len() == 0;
        let ghost tf = types_fold(fs, n0);
        let ghost n2 = advance_id(tf.1, 3);
        let built_in_funcs = get_builtin_funcs(ids);
        let mut func_resolver = FuncResolver::new(&built_in_funcs);
        proof {
            reveal_with_fuel(advance_id, 4);
            assert(func_resolver.entries() =~= builtin_func_table());
        }
        let mut i: usize = 0;
        while i < program.files.len()
            invariant
                program_wf(*program),
                !distinct_ok ==> errors@.len() > 0,
                i <= program.files@.len(),
                fs == program.files@,
                types_ok <==> types_register(fs, n0),
                types_ok ==> type_resolver.entries() == tf.0,
                errors@.len() == 0 <==> types_ok && fns_register(fs.subrange(0, i as int), tf.0, n2),
                errors@.len() == 0 ==> func_resolver.entries() == fns_fold(fs.subrange(0, i as int), tf.0, n2).0
                    && ids.next == fns_fold(fs.subrange(0, i as int), tf.0, n2).1,
                errors@.len() == 0 ==> forall|k: int| 0 <= k < i ==> fns_registrable(
                    type_resolver.entries(),
                    *(#[trigger] program.files@[k]),
                ),
            decreases program.files@.len() - i,
        {
            assert(decls_wf(program.files@[i as int].declarations@));
            let ghost es = func_resolver.entries();
            proof {
                lemma_register_step(fs, i as int, tf.0, n0, n2);
            }
            match func_resolver.append_file(&program.files[i], &type_resolver, ids) {
                Err(e) => append_errors(&mut errors, e),
                Ok(()) => {
                    proof {
                        lemma_no_fn_clash_registrable(
                            es,
                            spec_split_relative(program.files@[i as int].info.path.relative_path@),
                            type_resolver.entries(),
                            program.files@[i as int],
                        );
                    }
                },
            }
            i += 1;
        }
        let ghost fns_ok = forall|k: int| 0 <= k < program.files@.len() ==> fns_registrable(
            type_resolver.entries(),
            *(#[trigger] program.files@[k]),
        );
        assert(errors@.len() == 0 ==> fns_ok);
        assert(fs.subrange(0, i as int) =~= fs);
        let ghost reg_ok = errors@.len() == 0;
        let ghost ff = fns_fold(fs, tf.0, n2);
        let mut structs = get_builtin_types();
        let mut funcs = built_in_funcs;
        proof {
            reveal_strlit("main");
            reveal_strlit("println");
            reveal_strlit("print");
            reveal_strlit("read_line");
            reveal_strlit("to_int");
            assert forall|k: int| 0 <= k < 4 implies (#[trigger] funcs@[k]).name@ != "main"@ by {
                assert(funcs@[k].name@.len() != "main"@.len());
            }
            assert forall|k: int| 0 <= k < structs@.len() implies struct_info_ok(#[trigger] structs@[k]) by {
                assert(structs@[k].members@.len() == 0);
            }
            assert forall|k: int| 0 <= k < funcs@.len() implies func_info_ok(#[trigger] funcs@[k]) by {
                assert(funcs@[k].decl_data is Builtin);
                assert forall|j: int| 0 <= j < funcs@[k].parameters@.len() implies init_ok((#[trigger] funcs@[k].parameters@[j]).init) by {
                    assert(funcs@[k].parameters@[j].init is None);
                }
            }
        }
        let ghost files = program.files@;
        let mut i: usize = 0;
        while i < program.files.len()
            invariant
                program_wf(*program),
                !distinct_ok ==> errors@.len() > 0,
                !fns_ok ==> errors@.len() > 0,
                program_supported(*program),
                files == program.files@,
                i <= program.files@.len(),
                fs == files,
                reg_ok <==> types_register(fs, n0) && fns_register(fs, tf.0, n2),
                reg_ok ==> type_resolver.entries() == tf.0 && func_resolver.entries() == ff.0,
                errors@.len() == 0 <==> reg_ok && structs_describable(fs, i as int, tf.0),
                structs@.len() >= 5,
                forall|k: int| 0 <= k < structs@.len() ==> struct_info_ok(#[trigger] structs@[k]),
                forall|k: int| 0 <= k < 5 ==> (#[trigger] structs@[k]).decl_data is Builtin,
                errors@.len() == 0 ==> {
                    let sd = program_struct_decls(files.subrange(0, i as int));
                    &&& structs@.len() == 5 + sd.len()
                    &&& forall|k: int| 0 <= k < sd.len() ==> struct_info_of_decl(
                        #[trigger] structs@[5 + k],
                        sd[k].0,
                        sd[k].1,
                        type_resolver.entries(),
                    )
                },
            decreases program.files@.len() - i,
        {
            assert(decls_wf(program.files@[i as int].declarations@));
            assert(decls_supported(program.files@[i as int].declarations@));
            let ghost before = structs@;
            let ghost had_errors = errors@.len() > 0;
            proof {
                let sub = files.subrange(0, i + 1);
                assert(sub.drop_last() =~= files.subrange(0, i as int));
                assert(sub.last() == files[i as int]);
            }
            match StructInfo::from_file(&type_resolver, program.files[i].clone()) {
                Ok(infos) => {
                    let ghost added = infos@;
                    append_all(&mut structs, infos);
                    proof {
                        if !had_errors {
                            let old_sd = program_struct_decls(files.subrange(0, i as int));
                            let new_sd = program_struct_decls(files.subrange(0, i + 1));
                            let here = struct_decls_of(files[i as int].declarations@);
                            assert(new_sd =~= old_sd + here.map_values(|d: Arc<StructDecl>| (d, files[i as int])));
                            assert forall|k: int| 0 <= k < new_sd.len() implies struct_info_of_decl(
                                #[trigger] structs@[5 + k],
                                new_sd[k].0,
                                new_sd[k].1,
                                type_resolver.entries(),
                            ) by {
                                if k < old_sd.len() {
                                    assert(structs@[5 + k] == before[5 + k]);
                                } else {
                                    let j = k - old_sd.len();
                                    assert(structs@[5 + k] == added[j]);
                                    assert(new_sd[k] == (here[j], files[i as int]));
                                }
                            }
                        }
                        assert forall|k: int| 0 <= k < 5 implies (#[trigger] structs@[k]).decl_data is Builtin by {
                            assert(structs@[k] == before[k]);
                        }
                        assert forall|k: int| 0 <= k < structs@.len() implies struct_info_ok(#[trigger] structs@[k]) by {
                            if k < before.len() {
                                assert(structs@[k] == before[k]);
                            } else {
                                assert(structs@[k] == added[k - before.len()]);
                            }
                        }
                    }
                },
                Err(e) => append_errors(&mut errors, e),
            }
            i += 1;
        }
        assert(files.subrange(0, i as int) =~= files);
        let mut i: usize = 0;
        while i < program.files.len()
            invariant
                program_wf(*program),
                !distinct_ok ==> errors@.len() > 0,
                !fns_ok ==> errors@.len() > 0,
                program_supported(*program),
                files == program.files@,
                i <= program.files@.len(),
                fs == files,
                reg_ok <==> types_register(fs, n0) && fns_register(fs, tf.0, n2),
                reg_ok ==> type_resolver.entries() == tf.0 && func_resolver.entries() == ff.0,
                errors@.len() == 0 <==> reg_ok && structs_describable(fs, fs.len() as int, tf.0) && fns_describable(fs, i as int, tf.0, ff.0),
                funcs@.len() >= 4,
                forall|k: int| 0 <= k < funcs@.len() ==> func_info_ok(#[trigger] funcs@[k]),
                forall|k: int| 0 <= k < structs@.len() ==> struct_info_ok(#[trigger] structs@[k]),
                forall|k: int| 0 <= k < 4 ==> (#[trigger] funcs@[k]).decl_data is Builtin && funcs@[k].name@ != "main"@,
                forall|k: int| 0 <= k < 5 ==> (#[trigger] structs@[k]).decl_data is Builtin,
                errors@.len() == 0 ==> {
                    let sd = program_struct_decls(files);
                    &&& structs@.len() == 5 + sd.len()
                    &&& forall|k: int| 0 <= k < sd.len() ==> struct_info_of_decl(
                        #[trigger] structs@[5 + k],
                        sd[k].0,
                        sd[k].1,
                        type_resolver.entries(),
                    )
                },
                errors@.len() == 0 ==> {
                    let fd = program_fn_decls(files.subrange(0, i as int));
                    &&& funcs@.len() == 4 + fd.len()
                    &&& forall|k: int| 0 <= k < fd.len() ==> func_info_of_decl(#[trigger] funcs@[4 + k], fd[k].0, fd[k].1, type_resolver.entries())
                },
            decreases program.files@.len() - i,
        {
            assert(decls_wf(program.files@[i as int].declarations@));
            assert(decls_supported(program.files@[i as int].declarations@));
            let ghost before = funcs@;
            let ghost had_errors = errors@.len() > 0;
            proof {
                let sub = files.subrange(0, i + 1);
                assert(sub.drop_last() =~= files.subrange(0, i as int));
                assert(sub.last() == files[i as int]);
            }
            match FuncInfo::from_file(&type_resolver, &func_resolver, program.files[i].clone(), ids) {
                Ok(infos) => {
                    let ghost added = infos@;
                    append_all(&mut funcs, infos);
                    proof {
                        if !had_errors {
                            let old_fd = program_fn_decls(files.subrange(0, i as int));
                            let new_fd = program_fn_decls(files.subrange(0, i + 1));
                            let here = fn_decls_of(files[i as int].declarations@);
                            assert(new_fd =~= old_fd + here.map_values(|d: Arc<FnDecl>| (d, files[i as int])));
                            assert forall|k: int| 0 <= k < new_fd.len() implies func_info_of_decl(
                                #[trigger] funcs@[4 + k],
                                new_fd[k].0,
                                new_fd[k].1,
                                type_resolver.entries(),
                            ) by {
                                if k < old_fd.len() {
                                    assert(funcs@[4 + k] == before[4 + k]);
                                } else {
                                    let j = k - old_fd.len();
                                    assert(funcs@[4 + k] == added[j]);
                                    assert(new_fd[k] == (here[j], files[i as int]));
                                }
                            }
                        }
                        assert forall|k: int| 0 <= k < 4 implies (#[trigger] funcs@[k]).decl_data is Builtin && funcs@[k].name@ != "main"@ by {
                            assert(funcs@[k] == before[k]);
                        }
                        assert forall|k: int| 0 <= k < funcs@.len() implies func_info_ok(#[trigger] funcs@[k]) by {
                            if k < before.len() {
                                assert(funcs@[k] == before[k]);
                            } else {
                                assert(funcs@[k] == added[k - before.len()]);
                            }
                        }
                    }
                },
                Err(e) => append_errors(&mut errors, e),
            }
            i += 1;
        }
        assert(files.subrange(0, i as int) =~= files);
        if errors.len() > 0 {
            return Err(errors);
        }
        Ok(InfoContext { type_resolver, structs, func_resolver, funcs })
    }
}

/// Moves every error of `more` to the end of `errors`.
pub fn append_errors(errors: &mut Vec<TypeError>, more: Vec<TypeError>)
    ensures
        final(errors)@ == old(errors)@ + more@,
{
    append_all(errors, more);
}

/// Moves every item of `more` to the end of `items`.
pub fn append_all<T>(items: &mut Vec<T>, more: Vec<T>)
    ensures
        final(items)@ == old(items)@ + more@,
{
    let mut more = more;
    let ghost all = more@;
    let ghost start = items@;
    let mut k: usize = 0;
    let n = more.len();
    let mut rest: Vec<T> = Vec::new();
    // move the items over in order
    while more.len() > 0
        invariant
            n == all.len(),
            more@.len() + rest@.len() == n,
            more@ == all.subrange(0, more@.len() as int),
            rest@ == all.subrange(more@.len() as int, n as int).reverse(),
        decreases more@.len(),
    {
        let x = more.pop().unwrap();
        rest.push(x);
        proof {
            assert(more@ =~= all.subrange(0, more@.len() as int));
            assert(rest@ =~= all.subrange(more@.len() as int, n as int).reverse());
        }
    }
    while rest.len() > 0
        invariant
            n == all.len(),
            rest@.len() <= n,
            rest@ == all.subrange(n - rest@.len(), n as int).reverse(),
            items@ == start + all.subrange(0, n - rest@.len()),
        decreases rest@.len(),
    {
        let x = rest.pop().unwrap();
        items.push(x);
        proof {
            assert(rest@ =~= all.subrange(n - rest@.len(), n as int).reverse());
            assert(items@ =~= start + all.subrange(0, n - rest@.len()));
        }
    }
    assert(all.subrange(0, n as int) =~= all);
}

/// The name of the first struct with id `id`, or nothing.
pub open spec fn struct_name(ss: Seq<StructInfo>, id: u128) -> Seq<char>
    decreases ss.len(),
{
    if ss.len() == 0 {
        Seq::empty()
    } else if ss[0].id == id {
        ss[0].name@
    } else {
        struct_name(ss.drop_first(), id)
    }
}

/// A type written out: `Name`, `?T`, `[]T`, `Fn(A, B) -> R`.
pub open spec fn ty_text(t: Ty, ss: Seq<StructInfo>) -> Seq<char>
    decreases t,
{
    match t {
        Ty::Primary(id) => struct_name(ss, id),
        Ty::Optional(inner) => "?"@ + ty_text(*inner, ss),
        Ty::Array(inner) => "[]"@ + ty_text(*inner, ss),
        Ty::Function(args, ret) => "Fn("@ + crate::parsing::ast::join_texts(ty_texts(args, ss), ", "@) + ") -> "@
            + ty_text(*ret, ss),
    }
}

pub open spec fn ty_texts(ts: Seq<Ty>, ss: Seq<StructInfo>) -> Seq<Seq<char>>
    decreases ts,
{
    if ts.len() == 0 {
        Seq::empty()
    } else {
        ty_texts(ts.drop_last(), ss).push(ty_text(ts.last(), ss))
    }
}

fn struct_name_of(ss: &Vec<StructInfo>, id: u128) -> (r: String)
    ensures
        r@ == struct_name(ss@, id),
{
    let ghost s = ss@;
    assert(s.subrange(0, s.len() as int) =~= s);
    let mut i: usize = 0;
    while i < ss.len()
        invariant
            i <= s.len(),
            s == ss@,
            struct_name(s, id) == struct_name(s.subrange(i as int, s.len() as int), id),
        decreases s.len() - i,
    {
        assert(s.subrange(i as int, s.len() as int).drop_first() =~= s.subrange(i + 1, s.len() as int));
        if ss[i].id == id {
            return ss[i].name.clone();
        }
        i += 1;
    }
    String::new()
}

impl TypeInfo {
    /// The type written out, with struct names.
    #[verifier::loop_isolation(false)]
    pub fn pretty_print(&self, structs: &Vec<StructInfo>) -> (r: String)
        ensures
            r@ == ty_text(self@, structs@),
        decreases *self,
    {
        match self {
            TypeInfo::Primary(id) => struct_name_of(structs, *id),
            TypeInfo::Optional(inner) => {
                let mut out = String::new();
                crate::text::push_str(&mut out, "?");
                let s = inner.pretty_print(structs);
                crate::text::push_str(&mut out, s.as_str());
                out
            },
            TypeInfo::Array(inner) => {
                let mut out = String::new();
                crate::text::push_str(&mut out, "[]");
                let s = inner.pretty_print(structs);
                crate::text::push_str(&mut out, s.as_str());
                out
            },
            TypeInfo::Function { args, returned } => {
                proof {
                    lemma_tys_of(args@);
                }
                let ghost tys = tys_of(args@);
                let mut texts: Vec<String> = Vec::new();
                let mut i: usize = 0;
                while i < args.len()
                    invariant
                        i <= args@.len(),
                        tys.len() == args@.len(),
                        crate::utils::strings_view(texts@) == ty_texts(tys.subrange(0, i as int), structs@),
                    decreases args@.len() - i,
                {
                    assert(decreases_to!(*self => args@[i as int]));
                    let t = args[i].pretty_print(structs);
                    let ghost before = texts@;
                    texts.push(t);
                    proof {
                        let sub = tys.subrange(0, i + 1);
                        assert(sub.drop_last() =~= tys.subrange(0, i as int));
                        assert(sub.last() == tys[i as int]);
                        assert(crate::utils::strings_view(texts@) =~= crate::utils::strings_view(before).push(t@));
                    }
                    i += 1;
                }
                assert(tys.subrange(0, i as int) =~= tys);
                let joined = crate::text::join_strings(&texts, ", ");
                let ret = returned.pretty_print(structs);
                let mut out = String::new();
                crate::text::push_str(&mut out, "Fn(");
                crate::text::push_str(&mut out, joined.as_str());
                crate::text::push_str(&mut out, ") -> ");
                crate::text::push_str(&mut out, ret.as_str());
                out
            },
        }
    }
}

/// Whether a default value or initializer, if there is one, is of a handled kind.
fn init_is_supported(init: &Option<(Token, Arc<Expression>)>) -> (r: bool)
    ensures
        r == init_ok_or_none(*init),
{
    match init {
        Some((_, e)) => expr_is_supported(e),
        None => true,
    }
}

/// Whether the checker handles every default value and body of a declaration.
#[verifier::loop_isolation(false)]
pub fn decl_is_supported(d: &Declaration) -> (r: bool)
    ensures
        r == decl_supported(*d),
{
    match d {
        Declaration::Fn(f) => {
            if !block_is_supported(&f.body) {
                return false;
            }
            let mut i: usize = 0;
            while i < f.params.len()
                invariant
                    i <= f.params@.len(),
                    forall|k: int| 0 <= k < i ==> init_ok_or_none((#[trigger] f.params@[k]).default_value),
                decreases f.params@.len() - i,
            {
                if !init_is_supported(&f.params[i].default_value) {
                    return false;
                }
                i += 1;
            }
            true
        },
        Declaration::Struct(st) => {
            let mut i: usize = 0;
            while i < st.members.len()
                invariant
                    i <= st.members@.len(),
                    forall|k: int| 0 <= k < i ==> init_ok_or_none((#[trigger] st.members@[k]).initializer),
                decreases st.members@.len() - i,
            {
                if !init_is_supported(&st.members[i].initializer) {
                    return false;
                }
                i += 1;
            }
            true
        },
        Declaration::Const(_) => true,
    }
}

/// Whether the checker handles every declaration of every file of a program.
#[verifier::loop_isolation(false)]
pub fn program_is_supported(program: &Program) -> (r: bool)
    ensures
        r == program_supported(*program),
{
    let mut i: usize = 0;
    while i < program.files.len()
        invariant
            i <= program.files@.len(),
            forall|k: int| 0 <= k < i ==> decls_supported((#[trigger] program.files@[k]).declarations@),
        decreases program.files@.len() - i,
    {
        let ds = &program.files[i].declarations;
        let mut j: usize = 0;
        while j < ds.len()
            invariant
                j <= ds@.len(),
                forall|k: int| 0 <= k < j ==> decl_supported(#[trigger] ds@[k]),
            decreases ds@.len() - j,
        {
            if !decl_is_supported(&ds[j]) {
                return false;
            }
            j += 1;
        }
        i += 1;
    }
    true
}

} // verus!
