use vstd::prelude::*;
use vstd::string::StringExecFns;

use crate::semantics::conversion::Span;

verus! {

/// What a loaded module makes available, by name: its global variables,
/// its types and its functions
#[derive(Debug)]
pub struct ModuleExports {
    pub variables: Vec<String>,
    pub types: Vec<String>,
    pub functions: Vec<String>,
}

/// What a `use` brings in: everything, or the variable, type or function
/// at a place among the module's
#[derive(Debug, Clone, Copy, PartialEq, Eq, Structural)]
pub enum ImportedItem {
    All,
    Variable(usize),
    Type(usize),
    Function(usize),
}

/// Nothing of the module has the name
#[derive(Debug)]
pub struct UnresolvedImport {
    pub name: String,
    pub at: Span,
}

/// The first of the names, from `from` on, that is `name`
pub open spec fn index_named(names: Seq<String>, name: Seq<char>, from: int) -> Option<int>
    decreases names.len() - from,
{
    if from < 0 || from >= names.len() {
        None
    } else if names[from]@ == name {
        Some(from)
    } else {
        index_named(names, name, from + 1)
    }
}

/// What `use module.name` brings in: everything for `*`; else the variable
/// of that name, else the type, else the function; or, where the module has
/// nothing of that name, the name and its range
pub open spec fn import(path: Seq<(String, Span)>, m: ModuleExports) -> Result<ImportedItem, (Seq<char>, Span)> {
    let name = path[1].0@;
    if name == "*"@ {
        Ok(ImportedItem::All)
    } else if let Some(i) = index_named(m.variables@, name, 0) {
        Ok(ImportedItem::Variable(i as usize))
    } else if let Some(i) = index_named(m.types@, name, 0) {
        Ok(ImportedItem::Type(i as usize))
    } else if let Some(i) = index_named(m.functions@, name, 0) {
        Ok(ImportedItem::Function(i as usize))
    } else {
        Err((name, path[1].1))
    }
}

/// The first of the names that is `name`
fn find_named(names: &Vec<String>, name: &String) -> (r: Option<usize>)
    ensures
        match r {
            Some(i) => index_named(names@, name@, 0) == Some(i as int),
            None => index_named(names@, name@, 0) is None,
        },
{
    let mut i: usize = 0;
    while i < names.len()
        invariant
            i <= names@.len(),
            index_named(names@, name@, 0) == index_named(names@, name@, i as int),
        decreases names@.len() - i,
    {
        if names[i] == *name {
            return Some(i);
        }
        i = i + 1;
    }
    None
}

/// Resolve `use module.name` against what the loaded module makes
/// available: the path has the module's name and then the name used
pub fn resolve_use(path: &Vec<(String, Span)>, module: &ModuleExports) -> (r: Result<ImportedItem, UnresolvedImport>)
    requires
        path@.len() == 2,
    ensures
        match r {
            Ok(item) => import(path@, *module) == Ok::<ImportedItem, (Seq<char>, Span)>(item),
            Err(e) => import(path@, *module) == Err::<ImportedItem, (Seq<char>, Span)>((e.name@, e.at)),
        },
{
    let name = &path[1].0;
    let star = String::from_str("*");
    proof {
        reveal_strlit("*");
    }
    if *name == star {
        return Ok(ImportedItem::All);
    }
    if let Some(i) = find_named(&module.variables, name) {
        return Ok(ImportedItem::Variable(i));
    }
    if let Some(i) = find_named(&module.types, name) {
        return Ok(ImportedItem::Type(i));
    }
    if let Some(i) = find_named(&module.functions, name) {
        return Ok(ImportedItem::Function(i));
    }
    Err(UnresolvedImport { name: name.clone(), at: path[1].1 })
}

/// The names in a list
pub open spec fn names_of(names: Seq<String>) -> Set<Seq<char>> {
    Set::new(|n: Seq<char>| exists|i: int| 0 <= i < names.len() && #[trigger] names[i]@ == n)
}

/// An item that a module has
pub open spec fn item_of(m: ModuleExports, item: ImportedItem) -> bool {
    match item {
        ImportedItem::All => true,
        ImportedItem::Variable(i) => i < m.variables@.len(),
        ImportedItem::Type(i) => i < m.types@.len(),
        ImportedItem::Function(i) => i < m.functions@.len(),
    }
}

/// The names that a module sees after it brought in an item of another:
/// with everything, each of the other's names is added to its kind; else
/// the one name of the item to its kind. As variables, types, functions.
pub open spec fn seen_after(
    into: ModuleExports,
    from: ModuleExports,
    item: ImportedItem,
) -> (Set<Seq<char>>, Set<Seq<char>>, Set<Seq<char>>) {
    let (v, t, f) = (names_of(into.variables@), names_of(into.types@), names_of(into.functions@));
    match item {
        ImportedItem::All => (
            v.union(names_of(from.variables@)),
            t.union(names_of(from.types@)),
            f.union(names_of(from.functions@)),
        ),
        ImportedItem::Variable(i) => (v.insert(from.variables@[i as int]@), t, f),
        ImportedItem::Type(i) => (v, t.insert(from.types@[i as int]@), f),
        ImportedItem::Function(i) => (v, t, f.insert(from.functions@[i as int]@)),
    }
}

/// The names a module sees, as variables, types, functions
pub open spec fn seen(m: ModuleExports) -> (Set<Seq<char>>, Set<Seq<char>>, Set<Seq<char>>) {
    (names_of(m.variables@), names_of(m.types@), names_of(m.functions@))
}

/// Add a name to a list, unless it has it already
fn add_name(names: &mut Vec<String>, name: &String)
    ensures
        names_of(final(names)@) == names_of(old(names)@).insert(name@),
{
    match find_named(names, name) {
        Some(i) => {
            proof {
                lemma_index_named_found(old(names)@, name@, 0);
            }
            assert(names_of(names@) =~= names_of(old(names)@).insert(name@));
        },
        None => {
            names.push(name.clone());
            assert(names@[old(names)@.len() as int]@ == name@);
            assert forall|n: Seq<char>| #[trigger] names_of(names@).contains(n) == names_of(old(names)@).insert(name@).contains(n) by {
                if names_of(old(names)@).contains(n) {
                    let i = choose|i: int| 0 <= i < old(names)@.len() && #[trigger] old(names)@[i]@ == n;
                    assert(names@[i]@ == n);
                }
                if names_of(names@).contains(n) && n != name@ {
                    let i = choose|i: int| 0 <= i < names@.len() && #[trigger] names@[i]@ == n;
                    assert(old(names)@[i]@ == n);
                }
            }
            assert(names_of(names@) =~= names_of(old(names)@).insert(name@));
        },
    }
}

/// A name found is a name of the list
proof fn lemma_index_named_found(names: Seq<String>, name: Seq<char>, from: int)
    requires
        index_named(names, name, from) is Some,
    ensures
        0 <= index_named(names, name, from)->Some_0 < names.len(),
        names[index_named(names, name, from)->Some_0]@ == name,
    decreases names.len() - from,
{
    if from >= 0 && from < names.len() && names[from]@ != name {
        lemma_index_named_found(names, name, from + 1);
    }
}

/// Add each of the names of `from` to a list
fn add_names(names: &mut Vec<String>, from: &Vec<String>)
    ensures
        names_of(final(names)@) == names_of(old(names)@).union(names_of(from@)),
{
    let mut k: usize = 0;
    while k < from.len()
        invariant
            k <= from@.len(),
            names_of(names@) == names_of(old(names)@).union(names_of(from@.subrange(0, k as int))),
        decreases from@.len() - k,
    {
        let ghost before = names_of(names@);
        add_name(names, &from[k]);
        proof {
            let p = from@.subrange(0, k as int);
            let q = from@.subrange(0, k + 1);
            assert forall|n: Seq<char>| #[trigger] names_of(q).contains(n) == names_of(p).insert(from@[k as int]@).contains(n) by {
                if names_of(q).contains(n) {
                    let i = choose|i: int| 0 <= i < q.len() && #[trigger] q[i]@ == n;
                    if i < k {
                        assert(p[i]@ == n);
                    }
                }
                if names_of(p).contains(n) {
                    let i = choose|i: int| 0 <= i < p.len() && #[trigger] p[i]@ == n;
                    assert(q[i]@ == n);
                }
                if n == from@[k as int]@ {
                    assert(q[k as int]@ == n);
                }
            }
            assert(names_of(q) =~= names_of(p).insert(from@[k as int]@));
            assert(names_of(names@) =~= names_of(old(names)@).union(names_of(q)));
        }
        k = k + 1;
    }
    assert(from@.subrange(0, from@.len() as int) =~= from@);
}

impl ModuleExports {
    /// Bring an item of `from` into this module: everything, or the one
    /// variable, type or function
    pub fn bring_in(&mut self, from: &ModuleExports, item: ImportedItem)
        requires
            item_of(*from, item),
        ensures
            seen(*final(self)) == seen_after(*old(self), *from, item),
    {
        match item {
            ImportedItem::All => {
                add_names(&mut self.variables, &from.variables);
                add_names(&mut self.types, &from.types);
                add_names(&mut self.functions, &from.functions);
            },
            ImportedItem::Variable(i) => add_name(&mut self.variables, &from.variables[i]),
            ImportedItem::Type(i) => add_name(&mut self.types, &from.types[i]),
            ImportedItem::Function(i) => add_name(&mut self.functions, &from.functions[i]),
        }
    }
}

/// `use module.name` in a module: resolve the name against the loaded
/// module and bring what it names in; where nothing has the name, the
/// module is left as it was
pub fn use_in(path: &Vec<(String, Span)>, loaded: &ModuleExports, module: &mut ModuleExports) -> (r: Result<ImportedItem, UnresolvedImport>)
    requires
        path@.len() == 2,
    ensures
        match r {
            Ok(item) => import(path@, *loaded) == Ok::<ImportedItem, (Seq<char>, Span)>(item)
                && seen(*final(module)) == seen_after(*old(module), *loaded, item),
            Err(e) => import(path@, *loaded) == Err::<ImportedItem, (Seq<char>, Span)>((e.name@, e.at))
                && final(module).variables@ == old(module).variables@
                && final(module).types@ == old(module).types@
                && final(module).functions@ == old(module).functions@,
        },
{
    let r = resolve_use(path, loaded);
    if let Ok(item) = r {
        proof {
            let name = path@[1].0@;
            if let Some(i) = index_named(loaded.variables@, name, 0) {
                lemma_index_named_found(loaded.variables@, name, 0);
            }
            if let Some(i) = index_named(loaded.types@, name, 0) {
                lemma_index_named_found(loaded.types@, name, 0);
            }
            if let Some(i) = index_named(loaded.functions@, name, 0) {
                lemma_index_named_found(loaded.functions@, name, 0);
            }
        }
        module.bring_in(loaded, item);
    }
    r
}

} // verus!
