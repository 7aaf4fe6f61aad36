//! Stable identifiers for modules, files, items, types and functions.

use vstd::prelude::*;

verus! {

/// Global identifier used to resolve modules and symbols across
/// libraries and versions of libraries: an ordered list of segments.
pub type IdPath = Vec<String>;

pub type IdModule = IdPath;

pub type IdFile = u16;

/// Index of a concrete type inside the type store.
pub type TypeId = usize;

/// Index of a compiled function inside the function store.
pub type FunctionId = usize;

/// Position of an item inside a file, tagged by the kind of item.
#[derive(Debug, Clone, Copy, PartialEq, Eq, Structural)]
pub enum IdItem {
    /// A global variable declared with a top-level let.
    GlobalVar(u16),
    /// A function declared in the global scope.
    Func(u16),
    /// A type declared in the global scope.
    Type(u16),
    /// A derived method: position of the type in the file, then the
    /// position of the field or variant inside the type.
    Method(u16, u16),
}

/// Points to a unit of code, such as a function declaration or a type.
pub type SymbolId = (IdModule, IdFile, IdItem);

/// Static symbol id: a symbol together with the argument types it was
/// compiled for.  One source function yields one entry per distinct
/// argument-type tuple.
pub type SSID = (SymbolId, Vec<TypeId>);

/// Either a symbol in local scope or a symbol in some module.
#[derive(Debug)]
pub enum Symbol {
    LocalVar { addr: u16, ty: TypeId },
    Global(SymbolId),
}

/// Mathematical image of an `IdPath`: each segment as a sequence of
/// characters.
pub open spec fn path_view(p: IdPath) -> Seq<Seq<char>> {
    p.deep_view()
}

/// Mathematical image of a `SymbolId`.
pub open spec fn symbol_id_view(s: SymbolId) -> (Seq<Seq<char>>, u16, IdItem) {
    (path_view(s.0), s.1, s.2)
}

/// Mathematical image of an `SSID`.
pub open spec fn ssid_view(s: SSID) -> ((Seq<Seq<char>>, u16, IdItem), Seq<TypeId>) {
    (symbol_id_view(s.0), s.1@)
}

/// Decide equality of two paths.
pub fn path_eq(a: &IdPath, b: &IdPath) -> (r: bool)
    ensures
        r == (path_view(*a) == path_view(*b)),
{
    if a.len() != b.len() {
        proof {
            assert(a.deep_view().len() == a@.len());
            assert(b.deep_view().len() == b@.len());
        }
        return false;
    }
    let n = a.len();
    let mut i: usize = 0;
    while i < n
        invariant
            n == a@.len() && n == b@.len(),
            i <= n,
            forall|j: int| 0 <= j < i ==> path_view(*a)[j] == path_view(*b)[j],
        decreases n - i,
    {
        proof {
            assert(a.deep_view()[i as int] == a@[i as int]@);
            assert(b.deep_view()[i as int] == b@[i as int]@);
        }
        if !(a[i] == b[i]) {
            proof {
                assert(path_view(*a)[i as int] != path_view(*b)[i as int]);
            }
            return false;
        }
        i += 1;
    }
    proof {
        assert(path_view(*a) =~= path_view(*b));
    }
    true
}

/// Copy a path segment by segment.
pub fn clone_path(p: &IdPath) -> (r: IdPath)
    ensures
        r@ =~= p@,
{
    let mut r: IdPath = Vec::new();
    let n = p.len();
    let mut i: usize = 0;
    while i < n
        invariant
            n == p@.len(),
            i <= n,
            r@ =~= p@.take(i as int),
        decreases n - i,
    {
        r.push(p[i].clone());
        proof {
            assert(r@ =~= p@.take(i + 1));
        }
        i += 1;
    }
    r
}

/// Decide equality of two item ids.
pub fn id_item_eq(a: &IdItem, b: &IdItem) -> (r: bool)
    ensures
        r == (a == b),
{
    *a == *b
}

/// Decide equality of two symbol ids.
pub fn symbol_id_eq(a: &SymbolId, b: &SymbolId) -> (r: bool)
    ensures
        r == (symbol_id_view(*a) == symbol_id_view(*b)),
{
    if a.1 != b.1 {
        return false;
    }
    if !id_item_eq(&a.2, &b.2) {
        return false;
    }
    path_eq(&a.0, &b.0)
}

/// Decide equality of two argument-type lists.
pub fn type_list_eq(a: &Vec<TypeId>, b: &Vec<TypeId>) -> (r: bool)
    ensures
        r == (a@ == b@),
{
    if a.len() != b.len() {
        return false;
    }
    let n = a.len();
    let mut i: usize = 0;
    while i < n
        invariant
            n == a@.len() && n == b@.len(),
            i <= n,
            forall|j: int| 0 <= j < i ==> a@[j] == b@[j],
        decreases n - i,
    {
        if a[i] != b[i] {
            return false;
        }
        i += 1;
    }
    proof {
        assert(a@ =~= b@);
    }
    true
}

/// Decide equality of two static symbol ids.
pub fn ssid_eq(a: &SSID, b: &SSID) -> (r: bool)
    ensures
        r == (ssid_view(*a) == ssid_view(*b)),
{
    symbol_id_eq(&a.0, &b.0) && type_list_eq(&a.1, &b.1)
}


/// Copy a symbol id.
pub fn clone_symbol_id(s: &SymbolId) -> (r: SymbolId)
    ensures
        symbol_id_view(r) == symbol_id_view(*s),
        r.0.deep_view() == s.0.deep_view(),
{
    let r = (clone_path(&s.0), s.1, s.2);
    proof {
        assert(r.0.deep_view() =~= s.0.deep_view());
    }
    r
}

/// Copy a list of type ids.
pub fn clone_type_list(a: &Vec<TypeId>) -> (r: Vec<TypeId>)
    ensures
        r@ =~= a@,
{
    let mut r: Vec<TypeId> = Vec::new();
    let n = a.len();
    let mut i: usize = 0;
    while i < n
        invariant
            n == a@.len(),
            i <= n,
            r@ =~= a@.take(i as int),
        decreases n - i,
    {
        r.push(a[i]);
        proof {
            assert(r@ =~= a@.take(i + 1));
        }
        i += 1;
    }
    r
}

} // verus!
