use vstd::prelude::*;

use crate::semantics::call::{is_generic, type_is_generic};
use crate::semantics::conversion::{Span, Ty, TyView, lemma_tys_view, tys_view};
use crate::semantics::constructor::{pairs_of, specialize_class, specialize_with};

verus! {

/// No variable of that name is visible
#[derive(Debug)]
pub struct UndefinedVariable {
    pub name: String,
    pub at: Span,
}

/// No type of that name is visible
#[derive(Debug)]
pub struct UnknownType {
    pub name: String,
    pub at: Span,
}

/// The value's type has no member of that name
#[derive(Debug)]
pub struct NoMember {
    pub name: String,
    pub at: Span,
    pub ty: Ty,
    pub base_span: Span,
}

/// A member of a value: its place among the members, and whether the
/// value is read through a reference first
#[derive(Debug, Clone, Copy, PartialEq, Eq, Structural)]
pub struct MemberAccess {
    pub index: usize,
    pub dereferenced: bool,
}

/// The first entry of a name in a scope, from `from` on
pub open spec fn entry_named<T>(scope: Seq<(String, T)>, name: Seq<char>, from: int) -> Option<int>
    decreases scope.len() - from,
{
    if from < 0 || from >= scope.len() {
        None
    } else if scope[from].0@ == name {
        Some(from)
    } else {
        entry_named(scope, name, from + 1)
    }
}

/// The variable of that name in the innermost of the first `k` scopes
/// that has one
pub open spec fn visible<T>(scopes: Seq<Vec<(String, T)>>, name: Seq<char>, k: nat) -> Option<T>
    decreases k,
{
    if k == 0 || k > scopes.len() {
        None
    } else {
        match entry_named(scopes[k - 1]@, name, 0) {
            Some(i) => Some(scopes[k - 1]@[i].1),
            None => visible(scopes, name, (k - 1) as nat),
        }
    }
}

/// The first member named `name`, from `from` on
pub open spec fn member_named(members: Seq<String>, name: Seq<char>, from: int) -> Option<int>
    decreases members.len() - from,
{
    if from < 0 || from >= members.len() {
        None
    } else if members[from]@ == name {
        Some(from)
    } else {
        member_named(members, name, from + 1)
    }
}

/// The first entry of a name in a scope
fn find_entry<T>(scope: &Vec<(String, T)>, name: &String) -> (r: Option<usize>)
    ensures
        match r {
            Some(i) => i < scope@.len() && entry_named(scope@, name@, 0) == Some(i as int),
            None => entry_named(scope@, name@, 0) is None,
        },
{
    let mut i: usize = 0;
    while i < scope.len()
        invariant
            i <= scope@.len(),
            entry_named(scope@, name@, 0) == entry_named(scope@, name@, i as int),
        decreases scope@.len() - i,
    {
        if scope[i].0 == *name {
            return Some(i);
        }
        i = i + 1;
    }
    None
}

/// Lower a reference to a variable: the variable of that name in the
/// innermost scope that has one, scopes innermost last
pub fn lower_variable_reference(scopes: &Vec<Vec<(String, usize)>>, name: &String, at: Span) -> (r: Result<usize, UndefinedVariable>)
    ensures
        match r {
            Ok(v) => visible(scopes@, name@, scopes@.len()) == Some(v),
            Err(e) => visible(scopes@, name@, scopes@.len()) is None && e.name@ == name@ && e.at == at,
        },
{
    let mut k: usize = scopes.len();
    while k > 0
        invariant
            k <= scopes@.len(),
            visible(scopes@, name@, scopes@.len()) == visible(scopes@, name@, k as nat),
        decreases k,
    {
        match find_entry(&scopes[k - 1], name) {
            Some(i) => {
                return Ok(scopes[k - 1][i].1);
            },
            None => {},
        }
        k = k - 1;
    }
    Err(UndefinedVariable { name: name.clone(), at })
}

/// Lower a reference to a member of a value of type `base_ty`, whose type
/// without reference has `members`: the first member of that name, the
/// value read through its reference where it is one
pub fn lower_member_reference(
    base_ty: &Ty,
    base_span: Span,
    members: &Vec<String>,
    name: &String,
    at: Span,
) -> (r: Result<MemberAccess, NoMember>)
    ensures
        match r {
            Ok(m) => member_named(members@, name@, 0) == Some(m.index as int) && m.dereferenced == (base_ty@ is Reference),
            Err(e) => member_named(members@, name@, 0) is None && e.name@ == name@ && e.at == at && e.ty@ == base_ty@
                && e.base_span == base_span,
        },
{
    let mut i: usize = 0;
    while i < members.len()
        invariant
            i <= members@.len(),
            member_named(members@, name@, 0) == member_named(members@, name@, i as int),
        decreases members@.len() - i,
    {
        if members[i] == *name {
            return Ok(MemberAccess { index: i, dereferenced: matches!(base_ty, Ty::Reference { .. }) });
        }
        i = i + 1;
    }
    Err(NoMember { name: name.clone(), at, ty: base_ty.clone(), base_span })
}

/// The type that a reference to a type names: the visible type of that
/// name, where it is generic with its generic parameters replaced by the
/// given arguments, one by one in order
pub open spec fn referenced_type(found: TyView, arguments: Seq<TyView>) -> TyView {
    if !is_generic(found) {
        found
    } else {
        match found {
        TyView::Class { generics, .. } => specialize_class(
            found,
            Seq::new(
                if generics.len() <= arguments.len() { generics.len() } else { arguments.len() },
                |i: int| (generics[i], arguments[i]),
            ),
        ),
        _ => found,
        }
    }
}

/// Lower a reference to a type: the type of that name in the innermost
/// scope that has one, specialized with the lowered generic arguments
pub fn lower_type_reference(
    scopes: &Vec<Vec<(String, Ty)>>,
    name: &String,
    at: Span,
    arguments: &Vec<Ty>,
) -> (r: Result<Ty, UnknownType>)
    ensures
        match r {
            Ok(t) => visible(scopes@, name@, scopes@.len()) matches Some(found) && t@ == referenced_type(
                found@,
                arguments@.map_values(|a: Ty| a@),
            ),
            Err(e) => visible(scopes@, name@, scopes@.len()) is None && e.name@ == name@ && e.at == at,
        },
{
    let mut k: usize = scopes.len();
    while k > 0
        invariant
            k <= scopes@.len(),
            visible(scopes@, name@, scopes@.len()) == visible(scopes@, name@, k as nat),
        decreases k,
    {
        match find_entry(&scopes[k - 1], name) {
            Some(i) => {
                let found = &scopes[k - 1][i].1;
                return Ok(specialized_by(found, arguments));
            },
            None => {},
        }
        k = k - 1;
    }
    Err(UnknownType { name: name.clone(), at })
}

/// The type with its generic parameters replaced by the arguments
fn specialized_by(found: &Ty, arguments: &Vec<Ty>) -> (t: Ty)
    ensures
        t@ == referenced_type(found@, arguments@.map_values(|a: Ty| a@)),
{
    if !type_is_generic(found) {
        return found.clone();
    }
    match found {
        Ty::Class { generics, .. } => {
            proof {
                lemma_tys_view(generics@, generics@.len());
            }
            let ghost gv = tys_view(generics@, generics@.len());
            let ghost av = arguments@.map_values(|a: Ty| a@);
            let n = if generics.len() <= arguments.len() {
                generics.len()
            } else {
                arguments.len()
            };
            let mut map: Vec<(Ty, Ty)> = Vec::new();
            let mut i: usize = 0;
            while i < n
                invariant
                    i <= n,
                    n <= generics@.len(),
                    n <= arguments@.len(),
                    gv == tys_view(generics@, generics@.len()),
                    gv.len() == generics@.len(),
                    forall|j: int| 0 <= j < generics@.len() ==> #[trigger] gv[j] == generics@[j]@,
                    av == arguments@.map_values(|a: Ty| a@),
                    pairs_of(map@) == Seq::new(i as nat, |j: int| (gv[j], av[j])),
                decreases n - i,
            {
                let g = generics[i].clone();
                let a = arguments[i].clone();
                let ghost before = pairs_of(map@);
                assert(gv[i as int] == generics@[i as int]@);
                assert(av[i as int] == arguments@[i as int]@);
                map.push((g, a));
                assert(pairs_of(map@) =~= before.push((gv[i as int], av[i as int])));
                i = i + 1;
                assert(pairs_of(map@) =~= Seq::new(i as nat, |j: int| (gv[j], av[j])));
            }
            specialize_with(found, &map)
        },
        _ => found.clone(),
    }
}

} // verus!
