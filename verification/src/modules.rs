//! Modules: the files of one directory of a project, the per-file
//! import table, and symbol lookup inside a module.

use vstd::prelude::*;
use crate::ast::{Ast, BodyItem, ImportDecl, ImportSelection, TypeFields};
use crate::config::{depmap_lookup, DepMap};
use crate::id::{clone_path, IdItem, IdPath, SymbolId};

verus! {

// ---------------------------------------------------------------------
// Errors

/// Failure of symbol or module lookup.
#[derive(Debug)]
pub enum FindError {
    NotFound(String),
    ModuleNotFound(IdPath),
    TooMany { symbol: String, module: IdPath },
}

/// Failure while building the import table of a file.
#[derive(Debug)]
pub enum ResolveError {
    /// An import names a library that the manifest does not declare.
    LibNotInDeps { libname: String },
    /// The import uses a reserved or malformed form.
    Unsupported { what: String },
}

// ---------------------------------------------------------------------
// The per-file import table

/// Append `path` to the list registered under `key`.
pub open spec fn resolver_add(
    m: Map<Seq<char>, Seq<Seq<Seq<char>>>>,
    key: Seq<char>,
    path: Seq<Seq<char>>,
) -> Map<Seq<char>, Seq<Seq<Seq<char>>>> {
    let prior = if m.contains_key(key) {
        m[key]
    } else {
        Seq::<Seq<Seq<char>>>::empty()
    };
    m.insert(key, prior.push(path))
}

/// The table that a sequence of additions builds.
pub open spec fn resolver_fold(s: Seq<(Seq<char>, Seq<Seq<char>>)>) -> Map<Seq<char>, Seq<Seq<Seq<char>>>>
    decreases s.len(),
{
    if s.len() == 0 {
        Map::<Seq<char>, Seq<Seq<Seq<char>>>>::empty()
    } else {
        resolver_add(resolver_fold(s.drop_last()), s.last().0, s.last().1)
    }
}

/// The paths registered under `key`, in insertion order.
pub open spec fn key_paths(s: Seq<(Seq<char>, Seq<Seq<char>>)>, key: Seq<char>) -> Seq<Seq<Seq<char>>>
    decreases s.len(),
{
    if s.len() == 0 {
        Seq::<Seq<Seq<char>>>::empty()
    } else {
        key_paths(s.drop_last(), key) + if s.last().0 == key {
            seq![s.last().1]
        } else {
            Seq::<Seq<Seq<char>>>::empty()
        }
    }
}

/// In the folded table, a key maps exactly to the paths registered
/// under it, so every registered list is non-empty.
pub proof fn lemma_resolver_fold_key_paths(s: Seq<(Seq<char>, Seq<Seq<char>>)>, key: Seq<char>)
    ensures
        resolver_fold(s).contains_key(key) <==> key_paths(s, key).len() > 0,
        resolver_fold(s).contains_key(key) ==> resolver_fold(s)[key] == key_paths(s, key),
    decreases s.len(),
{
    if s.len() > 0 {
        lemma_resolver_fold_key_paths(s.drop_last(), key);
        if s.last().0 == key {
            assert(key_paths(s.drop_last(), key) + seq![s.last().1]
                == key_paths(s.drop_last(), key).push(s.last().1));
        } else {
            assert(key_paths(s, key) == key_paths(s.drop_last(), key) + Seq::<Seq<Seq<char>>>::empty());
            assert(key_paths(s.drop_last(), key) + Seq::<Seq<Seq<char>>>::empty()
                =~= key_paths(s.drop_last(), key));
        }
    }
}

/// Maps each short name imported by a file to the module paths it may
/// come from.  Several imports may register the same name; call sites
/// disambiguate between the candidates later.
#[derive(Debug)]
pub struct SymbolResolver {
    entries: Vec<(String, IdPath)>,
}

impl SymbolResolver {
    /// The additions made so far, oldest first.
    pub closed spec fn additions(&self) -> Seq<(Seq<char>, Seq<Seq<char>>)> {
        Seq::new(self.entries@.len(), |i: int| (self.entries@[i].0@, self.entries@[i].1.deep_view()))
    }

    /// The table as a map from short name to its list of paths.
    pub open spec fn view(&self) -> Map<Seq<char>, Seq<Seq<Seq<char>>>> {
        resolver_fold(self.additions())
    }

    pub fn new() -> (r: SymbolResolver)
        ensures
            r.additions() =~= Seq::<(Seq<char>, Seq<Seq<char>>)>::empty(),
    {
        SymbolResolver { entries: Vec::new() }
    }

    /// Register `path` under the short name `key`.
    pub fn add(&mut self, key: String, path: IdPath)
        ensures
            final(self).additions() =~= old(self).additions().push((key@, path.deep_view())),
            final(self)@ == resolver_add(old(self)@, key@, path.deep_view()),
    {
        self.entries.push((key, path));
        proof {
            assert(self.additions().drop_last() =~= old(self).additions());
        }
    }

    /// All module paths registered under this short name; empty when
    /// the name was never imported.
    pub fn get(&self, key: &String) -> (r: Vec<IdPath>)
        ensures
            r.deep_view() =~= key_paths(self.additions(), key@),
            self@.contains_key(key@) ==> self@[key@] == r.deep_view(),
            !self@.contains_key(key@) ==> r.deep_view().len() == 0,
    {
        let n = self.entries.len();
        let mut r: Vec<IdPath> = Vec::new();
        let mut i: usize = 0;
        while i < n
            invariant
                n == self.entries@.len(),
                i <= n,
                r.deep_view() =~= key_paths(self.additions().take(i as int), key@),
            decreases n - i,
        {
            proof {
                assert(self.additions().take(i + 1).drop_last() =~= self.additions().take(i as int));
                assert(self.additions().take(i + 1).last() == self.additions()[i as int]);
            }
            if self.entries[i].0 == *key {
                r.push(clone_path(&self.entries[i].1));
                proof {
                    assert(r.deep_view() =~= key_paths(self.additions().take(i + 1), key@));
                }
            } else {
                proof {
                    assert(r.deep_view() =~= key_paths(self.additions().take(i + 1), key@));
                }
            }
            i += 1;
        }
        proof {
            assert(self.additions().take(n as int) =~= self.additions());
            lemma_resolver_fold_key_paths(self.additions(), key@);
        }
        r
    }
}

// ---------------------------------------------------------------------
// Files and modules

/// One parsed source file: its name, its import table and its syntax
/// tree.
#[derive(Debug)]
pub struct FileInfo {
    pub filename: String,
    pub imports: SymbolResolver,
    pub ast: Ast,
}

/// The matches of `symbol` among a list of field or variant names.
pub open spec fn name_hits(names: Seq<Seq<char>>, iditem: u16, symbol: Seq<char>) -> Seq<IdItem>
    decreases names.len(),
{
    if names.len() == 0 {
        Seq::<IdItem>::empty()
    } else {
        name_hits(names.drop_last(), iditem, symbol) + if names.last() == symbol {
            seq![IdItem::Method(iditem, (names.len() - 1) as u16)]
        } else {
            Seq::<IdItem>::empty()
        }
    }
}

/// The names of the fields or variants of a type declaration.
pub open spec fn field_names(fields: TypeFields) -> Seq<Seq<char>> {
    match fields {
        TypeFields::EnumFields(v) => v.deep_view(),
        TypeFields::StructFields(v) => v.deep_view(),
    }
}

/// The matches of `symbol` in one top-level item.  Functions match by
/// name; type declarations match by name and additionally yield one
/// derived method per matching field or variant; global lets match by
/// identifier.  Tests and built-in type declarations never match.
pub open spec fn item_hits(item: BodyItem, iditem: u16, symbol: Seq<char>) -> Seq<IdItem> {
    match item {
        BodyItem::Function(f) => if f.name@ == symbol {
            seq![IdItem::Func(iditem)]
        } else {
            Seq::<IdItem>::empty()
        },
        BodyItem::TypeDecl(t) => (if t.name@ == symbol {
            seq![IdItem::Type(iditem)]
        } else {
            Seq::<IdItem>::empty()
        }) + name_hits(field_names(t.fields), iditem, symbol),
        BodyItem::Let(l) => if l.identifier@ == symbol {
            seq![IdItem::GlobalVar(iditem)]
        } else {
            Seq::<IdItem>::empty()
        },
        _ => Seq::<IdItem>::empty(),
    }
}

/// The matches of `symbol` in one file, in item order.
pub open spec fn file_hits(items: Seq<BodyItem>, symbol: Seq<char>) -> Seq<IdItem>
    decreases items.len(),
{
    if items.len() == 0 {
        Seq::<IdItem>::empty()
    } else {
        file_hits(items.drop_last(), symbol) + item_hits(items.last(), (items.len() - 1) as u16, symbol)
    }
}

/// The matches of `symbol` in a module, in file order then item
/// order: the index of the file, and the item inside it.
pub open spec fn module_hits(files: Seq<FileInfo>, symbol: Seq<char>) -> Seq<(u16, IdItem)>
    decreases files.len(),
{
    if files.len() == 0 {
        Seq::<(u16, IdItem)>::empty()
    } else {
        module_hits(files.drop_last(), symbol) + file_hits(
            files.last().ast.items@,
            symbol,
        ).map_values(|h: IdItem| (((files.len() - 1) as u16), h))
    }
}


/// Decide whether one item keeps its indices within 16 bits.
fn item_is_wf(item: &BodyItem) -> (r: bool)
    ensures
        r == item_wf(*item),
{
    match item {
        BodyItem::TypeDecl(t) => {
            let names: &Vec<String> = match &t.fields {
                TypeFields::EnumFields(names) => names,
                TypeFields::StructFields(names) => names,
            };
            proof {
                assert(names.deep_view() =~= field_names(t.fields));
            }
            names.len() <= 65535
        },
        _ => true,
    }
}

/// Decide whether a parsed file keeps its indices within 16 bits, so
/// that it can enter a well-formed module.
pub fn file_is_wf(f: &FileInfo) -> (r: bool)
    ensures
        r == file_wf(*f),
{
    if f.ast.items.len() > 65535 {
        return false;
    }
    let n = f.ast.items.len();
    let mut i: usize = 0;
    while i < n
        invariant
            n == f.ast.items@.len(),
            n <= 65535,
            i <= n,
            forall|j: int| 0 <= j < i ==> item_wf(#[trigger] f.ast.items@[j]),
        decreases n - i,
    {
        if !item_is_wf(&f.ast.items[i]) {
            return false;
        }
        i += 1;
    }
    true
}

/// A module: all files of one directory of a project.
#[derive(Debug)]
pub struct Module {
    pub project_id: usize,
    pub files: Vec<FileInfo>,
}

/// Indices of items stay within 16 bits.
pub open spec fn item_wf(item: BodyItem) -> bool {
    match item {
        BodyItem::TypeDecl(t) => field_names(t.fields).len() <= u16::MAX,
        _ => true,
    }
}

pub open spec fn file_wf(f: FileInfo) -> bool {
    &&& f.ast.items@.len() <= u16::MAX
    &&& forall|j: int| 0 <= j < f.ast.items@.len() ==> item_wf(#[trigger] f.ast.items@[j])
}

impl Module {
    /// Indices of files and items stay within 16 bits.
    pub open spec fn wf(self) -> bool {
        &&& self.files@.len() <= u16::MAX
        &&& forall|i: int| 0 <= i < self.files@.len() ==> file_wf(#[trigger] self.files@[i])
    }

    pub fn new(project_id: usize) -> (r: Module)
        ensures
            r.project_id == project_id,
            r.files@.len() == 0,
            r.wf(),
    {
        Module { project_id, files: Vec::new() }
    }

    pub fn add_file(&mut self, file: FileInfo)
        requires
            old(self).files@.len() < u16::MAX,
        ensures
            final(self).files@ =~= old(self).files@.push(file),
            final(self).project_id == old(self).project_id,
            old(self).wf() && file_wf(file) ==> final(self).wf(),
    {
        self.files.push(file);
    }

    /// All symbols of this module whose name is `symbol`, in file
    /// order then item order.  An empty result is the `NotFound`
    /// error.
    pub fn find(&self, symbol: &String, idmodule: &IdPath) -> (r: Result<Vec<SymbolId>, FindError>)
        requires
            self.wf(),
        ensures
            match r {
                Ok(v) => {
                    let hits = module_hits(self.files@, symbol@);
                    &&& hits.len() > 0
                    &&& v@.len() == hits.len()
                    &&& forall|k: int| 0 <= k < v@.len() ==> {
                        &&& (#[trigger] v@[k]).0.deep_view() == idmodule.deep_view()
                        &&& v@[k].1 == hits[k].0
                        &&& v@[k].2 == hits[k].1
                    }
                },
                Err(e) => {
                    &&& module_hits(self.files@, symbol@).len() == 0
                    &&& e matches FindError::NotFound(s) && s@ == symbol@
                },
            },
    {
        let mut v: Vec<SymbolId> = Vec::new();
        let nf = self.files.len();
        let mut idfile: usize = 0;
        while idfile < nf
            invariant
                self.wf(),
                nf == self.files@.len(),
                idfile <= nf,
                v@.len() == module_hits(self.files@.take(idfile as int), symbol@).len(),
                forall|k: int| 0 <= k < v@.len() ==> {
                    let hits = module_hits(self.files@.take(idfile as int), symbol@);
                    &&& (#[trigger] v@[k]).0.deep_view() == idmodule.deep_view()
                    &&& v@[k].1 == hits[k].0
                    &&& v@[k].2 == hits[k].1
                },
            decreases nf - idfile,
        {
            let ghost pre = module_hits(self.files@.take(idfile as int), symbol@);
            let fileinfo = &self.files[idfile];
            let items = &fileinfo.ast.items;
            let ni = items.len();
            let mut iditem: usize = 0;
            while iditem < ni
                invariant
                    self.wf(),
                    nf == self.files@.len(),
                    idfile < nf,
                    fileinfo == self.files@[idfile as int],
                    items == fileinfo.ast.items,
                    ni == items@.len(),
                    iditem <= ni,
                    pre == module_hits(self.files@.take(idfile as int), symbol@),
                    v@.len() == pre.len() + file_hits(items@.take(iditem as int), symbol@).len(),
                    forall|k: int| 0 <= k < v@.len() ==> {
                        let hits = pre + file_hits(items@.take(iditem as int), symbol@)
                            .map_values(|h: IdItem| ((idfile as u16), h));
                        &&& (#[trigger] v@[k]).0.deep_view() == idmodule.deep_view()
                        &&& v@[k].1 == hits[k].0
                        &&& v@[k].2 == hits[k].1
                    },
                decreases ni - iditem,
            {
                proof {
                    assert(items@.take(iditem + 1).drop_last() =~= items@.take(iditem as int));
                    assert(items@.take(iditem + 1).last() == items@[iditem as int]);
                }
                let item = &items[iditem];
                match item {
                    BodyItem::Function(f) => {
                        if f.name == *symbol {
                            v.push((clone_path(idmodule), idfile as u16, IdItem::Func(iditem as u16)));
                        }
                    },
                    BodyItem::TypeDecl(t) => {
                        if t.name == *symbol {
                            v.push((clone_path(idmodule), idfile as u16, IdItem::Type(iditem as u16)));
                        }
                        let names: &Vec<String> = match &t.fields {
                            TypeFields::EnumFields(names) => names,
                            TypeFields::StructFields(names) => names,
                        };
                        let nn = names.len();
                        let mut idfield: usize = 0;
                        proof {
                            assert(names.deep_view() =~= field_names(t.fields));
                        }
                        while idfield < nn
                            invariant
                                nn == names@.len(),
                                idfield <= nn,
                                names.deep_view() =~= field_names(t.fields),
                                nn <= u16::MAX,
                                idfile < nf,
                                nf <= u16::MAX,
                                v@.len() == {
                                    let sofar = pre + (file_hits(items@.take(iditem as int), symbol@)
                                        + (if t.name@ == symbol@ {
                                            seq![IdItem::Type(iditem as u16)]
                                        } else {
                                            Seq::<IdItem>::empty()
                                        }) + name_hits(
                                        field_names(t.fields).take(idfield as int),
                                        iditem as u16,
                                        symbol@,
                                    )).map_values(|h: IdItem| ((idfile as u16), h));
                                    sofar.len()
                                },
                                forall|k: int| 0 <= k < v@.len() ==> {
                                    let hits = pre + (file_hits(items@.take(iditem as int), symbol@)
                                        + (if t.name@ == symbol@ {
                                            seq![IdItem::Type(iditem as u16)]
                                        } else {
                                            Seq::<IdItem>::empty()
                                        }) + name_hits(
                                        field_names(t.fields).take(idfield as int),
                                        iditem as u16,
                                        symbol@,
                                    )).map_values(|h: IdItem| ((idfile as u16), h));
                                    &&& (#[trigger] v@[k]).0.deep_view() == idmodule.deep_view()
                                    &&& v@[k].1 == hits[k].0
                                    &&& v@[k].2 == hits[k].1
                                },
                            decreases nn - idfield,
                        {
                            proof {
                                let fns = field_names(t.fields);
                                assert(fns.take(idfield + 1).drop_last() =~= fns.take(idfield as int));
                                assert(fns.take(idfield + 1).last() == fns[idfield as int]);
                                assert(names.deep_view()[idfield as int] == names@[idfield as int]@);
                            }
                            if names[idfield] == *symbol {
                                v.push((
                                    clone_path(idmodule),
                                    idfile as u16,
                                    IdItem::Method(iditem as u16, idfield as u16),
                                ));
                            }
                            idfield += 1;
                        }
                        proof {
                            assert(field_names(t.fields).take(nn as int) =~= field_names(t.fields));
                            assert(item_hits(items@[iditem as int], iditem as u16, symbol@)
                                == (if t.name@ == symbol@ {
                                    seq![IdItem::Type(iditem as u16)]
                                } else {
                                    Seq::<IdItem>::empty()
                                }) + name_hits(field_names(t.fields), iditem as u16, symbol@));
                        }
                    },
                    BodyItem::Let(l) => {
                        if l.identifier == *symbol {
                            v.push((
                                clone_path(idmodule),
                                idfile as u16,
                                IdItem::GlobalVar(iditem as u16),
                            ));
                        }
                    },
                    _ => {},
                }
                proof {
                    assert(file_hits(items@.take(iditem + 1), symbol@) == file_hits(
                        items@.take(iditem as int),
                        symbol@,
                    ) + item_hits(items@[iditem as int], iditem as u16, symbol@));
                }
                iditem += 1;
            }
            proof {
                assert(items@.take(ni as int) =~= items@);
                assert(self.files@.take(idfile + 1).drop_last() =~= self.files@.take(idfile as int));
                assert(self.files@.take(idfile + 1).last() == self.files@[idfile as int]);
            }
            idfile += 1;
        }
        proof {
            assert(self.files@.take(nf as int) =~= self.files@);
        }
        if v.len() == 0 {
            return Err(FindError::NotFound(symbol.clone()));
        }
        Ok(v)
    }
}


// ---------------------------------------------------------------------
// Import resolution

/// The absolute module path an import refers to: a library import is
/// resolved through the dependency table, a project-relative import is
/// prefixed with the project basepath.
pub open spec fn import_base(
    imp: ImportDecl,
    dm: Seq<(Seq<char>, Seq<Seq<char>>)>,
    base: Seq<Seq<char>>,
) -> Seq<Seq<char>> {
    if imp.is_lib {
        depmap_lookup(dm, imp.path@[0]@).unwrap() + imp.path.deep_view().drop_first()
    } else {
        base + imp.path.deep_view()
    }
}

/// Whether an import can be resolved at all.
pub open spec fn import_ok(
    imp: ImportDecl,
    dm: Seq<(Seq<char>, Seq<Seq<char>>)>,
    base: Seq<Seq<char>>,
) -> bool {
    &&& imp.path@.len() > 0
    &&& (imp.is_lib ==> depmap_lookup(dm, imp.path@[0]@) is Some)
    &&& match imp.selection {
        ImportSelection::This => import_base(imp, dm, base).len() > 0,
        ImportSelection::Items(_) => true,
        ImportSelection::All => false,
    }
}

/// Register each listed name for the same module path, in order.
pub open spec fn apply_items(
    m: Map<Seq<char>, Seq<Seq<Seq<char>>>>,
    names: Seq<Seq<char>>,
    path: Seq<Seq<char>>,
) -> Map<Seq<char>, Seq<Seq<Seq<char>>>>
    decreases names.len(),
{
    if names.len() == 0 {
        m
    } else {
        resolver_add(apply_items(m, names.drop_last(), path), names.last(), path)
    }
}

/// The effect of one import declaration on the table.
pub open spec fn apply_import(
    m: Map<Seq<char>, Seq<Seq<Seq<char>>>>,
    imp: ImportDecl,
    dm: Seq<(Seq<char>, Seq<Seq<char>>)>,
    base: Seq<Seq<char>>,
) -> Map<Seq<char>, Seq<Seq<Seq<char>>>> {
    let p = import_base(imp, dm, base);
    match imp.selection {
        ImportSelection::This => resolver_add(m, p.last(), p.drop_last()),
        ImportSelection::Items(names) => apply_items(m, names.deep_view(), p),
        ImportSelection::All => m,
    }
}

/// The table that a list of imports builds.
pub open spec fn spec_resolver(
    imports: Seq<ImportDecl>,
    dm: Seq<(Seq<char>, Seq<Seq<char>>)>,
    base: Seq<Seq<char>>,
) -> Map<Seq<char>, Seq<Seq<Seq<char>>>>
    decreases imports.len(),
{
    if imports.len() == 0 {
        Map::<Seq<char>, Seq<Seq<Seq<char>>>>::empty()
    } else {
        apply_import(spec_resolver(imports.drop_last(), dm, base), imports.last(), dm, base)
    }
}

/// How the error of the first unresolvable import reads.
pub open spec fn import_err_matches(
    e: ResolveError,
    imp: ImportDecl,
    dm: Seq<(Seq<char>, Seq<Seq<char>>)>,
    base: Seq<Seq<char>>,
) -> bool {
    if imp.path@.len() > 0 && imp.is_lib && depmap_lookup(dm, imp.path@[0]@) is None {
        e matches ResolveError::LibNotInDeps { libname } && libname@ == imp.path@[0]@
    } else {
        e is Unsupported
    }
}

/// Build the import table of a file: resolve every import against the
/// dependency table and the project basepath, and register the short
/// names it selects.
pub fn resolve_imports(
    imports: &Vec<ImportDecl>,
    depmap: &DepMap,
    basepath: &IdPath,
) -> (r: Result<SymbolResolver, ResolveError>)
    ensures
        match r {
            Ok(res) => {
                &&& forall|j: int|
                    0 <= j < imports@.len() ==> import_ok(
                        #[trigger] imports@[j],
                        depmap@,
                        basepath.deep_view(),
                    )
                &&& res@ == spec_resolver(imports@, depmap@, basepath.deep_view())
            },
            Err(e) => exists|k: int|
                {
                    &&& 0 <= k < imports@.len()
                    &&& !import_ok(#[trigger] imports@[k], depmap@, basepath.deep_view())
                    &&& forall|j: int|
                        0 <= j < k ==> import_ok(#[trigger] imports@[j], depmap@, basepath.deep_view())
                    &&& import_err_matches(e, imports@[k], depmap@, basepath.deep_view())
                },
        },
{
    let ghost dm = depmap@;
    let ghost base = basepath.deep_view();
    let mut res = SymbolResolver::new();
    let n = imports.len();
    let mut i: usize = 0;
    proof {
        assert(spec_resolver(imports@.take(0), dm, base) =~= Map::<Seq<char>, Seq<Seq<Seq<char>>>>::empty());
    }
    while i < n
        invariant
            dm == depmap@,
            base == basepath.deep_view(),
            n == imports@.len(),
            i <= n,
            forall|j: int| 0 <= j < i ==> import_ok(#[trigger] imports@[j], dm, base),
            res@ == spec_resolver(imports@.take(i as int), dm, base),
        decreases n - i,
    {
        proof {
            assert(imports@.take(i + 1).drop_last() =~= imports@.take(i as int));
            assert(imports@.take(i + 1).last() == imports@[i as int]);
        }
        let imp = &imports[i];
        if imp.path.len() == 0 {
            proof {
                assert(!import_ok(imports@[i as int], dm, base));
            }
            return Err(ResolveError::Unsupported {
                what: "an import with an empty path cannot be resolved".to_owned(),
            });
        }
        let mut path: IdPath;
        if imp.is_lib {
            match depmap.get(&imp.path[0]) {
                Some(lib_path) => {
                    path = clone_path(lib_path);
                    let ghost lp = lib_path@;
                    let m = imp.path.len();
                    let mut j: usize = 1;
                    while j < m
                        invariant
                            m == imp.path@.len(),
                            1 <= j <= m,
                            lp == lib_path@,
                            path@ =~= lp + imp.path@.subrange(1, j as int),
                        decreases m - j,
                    {
                        path.push(imp.path[j].clone());
                        proof {
                            assert(path@ =~= lp + imp.path@.subrange(1, j + 1));
                        }
                        j += 1;
                    }
                    proof {
                        let target = import_base(imports@[i as int], dm, base);
                        assert(depmap_lookup(dm, imp.path@[0]@).unwrap() == lib_path.deep_view());
                        assert(path@.len() == target.len());
                        assert forall|k: int| 0 <= k < path@.len() implies path.deep_view()[k] == target[k] by {
                            assert(path.deep_view()[k] == path@[k]@);
                            if k < lp.len() {
                                assert(path@[k] == lp[k]);
                                assert(lib_path.deep_view()[k] == lib_path@[k]@);
                            } else {
                                assert(path@[k] == imp.path@[k - lp.len() + 1]);
                                assert(imp.path.deep_view()[k - lp.len() + 1] == imp.path@[k - lp.len() + 1]@);
                            }
                        }
                        assert(path.deep_view() =~= target);
                    }
                },
                None => {
                    proof {
                        assert(!import_ok(imports@[i as int], dm, base));
                    }
                    return Err(ResolveError::LibNotInDeps { libname: imp.path[0].clone() });
                },
            }
        } else {
            path = clone_path(basepath);
            let ghost bp = basepath@;
            let m = imp.path.len();
            let mut j: usize = 0;
            while j < m
                invariant
                    m == imp.path@.len(),
                    j <= m,
                    bp == basepath@,
                    path@ =~= bp + imp.path@.subrange(0, j as int),
                decreases m - j,
            {
                path.push(imp.path[j].clone());
                proof {
                    assert(path@ =~= bp + imp.path@.subrange(0, j + 1));
                }
                j += 1;
            }
            proof {
                let target = import_base(imports@[i as int], dm, base);
                assert(path@.len() == target.len());
                assert forall|k: int| 0 <= k < path@.len() implies path.deep_view()[k] == target[k] by {
                    assert(path.deep_view()[k] == path@[k]@);
                    if k < bp.len() {
                        assert(path@[k] == bp[k]);
                        assert(basepath.deep_view()[k] == basepath@[k]@);
                    } else {
                        assert(path@[k] == imp.path@[k - bp.len()]);
                        assert(imp.path.deep_view()[k - bp.len()] == imp.path@[k - bp.len()]@);
                    }
                }
                assert(path.deep_view() =~= target);
            }
        }
        match &imp.selection {
            ImportSelection::All => {
                proof {
                    assert(!import_ok(imports@[i as int], dm, base));
                }
                return Err(ResolveError::Unsupported {
                    what: "the '..' import selection needs a listing of all public symbols of the module and is not supported yet".to_owned(),
                });
            },
            ImportSelection::This => {
                if path.len() == 0 {
                    proof {
                        assert(!import_ok(imports@[i as int], dm, base));
                    }
                    return Err(ResolveError::Unsupported {
                        what: "a bare import of a whole library has no symbol to select".to_owned(),
                    });
                }
                let ghost pv = path.deep_view();
                let symbol = match path.pop() {
                    Some(s) => s,
                    None => {
                        return Err(ResolveError::Unsupported {
                            what: "a bare import of a whole library has no symbol to select".to_owned(),
                        });
                    },
                };
                proof {
                    assert(symbol@ == pv.last());
                    assert(path.deep_view() =~= pv.drop_last());
                }
                res.add(symbol, path);
            },
            ImportSelection::Items(names) => {
                let ghost pv = path.deep_view();
                let nn = names.len();
                let ghost m0 = res@;
                let mut k: usize = 0;
                proof {
                    assert(apply_items(m0, names.deep_view().take(0), pv) =~= m0);
                }
                while k < nn
                    invariant
                        nn == names@.len(),
                        k <= nn,
                        pv == path.deep_view(),
                        path.deep_view() == pv,
                        res@ == apply_items(m0, names.deep_view().take(k as int), pv),
                    decreases nn - k,
                {
                    proof {
                        assert(names.deep_view().take(k + 1).drop_last() =~= names.deep_view().take(k as int));
                        assert(names.deep_view().take(k + 1).last() == names.deep_view()[k as int]);
                        assert(names.deep_view()[k as int] == names@[k as int]@);
                    }
                    res.add(names[k].clone(), clone_path(&path));
                    k += 1;
                }
                proof {
                    assert(names.deep_view().take(nn as int) =~= names.deep_view());
                }
            },
        }
        proof {
            assert(res@ == spec_resolver(imports@.take(i + 1), dm, base));
        }
        i += 1;
    }
    proof {
        assert(imports@.take(n as int) =~= imports@);
    }
    Ok(res)
}


/// Every list registered in an import table is non-empty.
pub proof fn lemma_resolver_lists_nonempty(s: Seq<(Seq<char>, Seq<Seq<char>>)>, key: Seq<char>)
    requires
        resolver_fold(s).contains_key(key),
    ensures
        resolver_fold(s)[key].len() > 0,
{
    lemma_resolver_fold_key_paths(s, key);
}

proof fn lemma_apply_items_keys(
    m: Map<Seq<char>, Seq<Seq<Seq<char>>>>,
    names: Seq<Seq<char>>,
    path: Seq<Seq<char>>,
    key: Seq<char>,
)
    requires
        apply_items(m, names, path).contains_key(key),
    ensures
        m.contains_key(key) || exists|j: int| 0 <= j < names.len() && #[trigger] names[j] == key,
    decreases names.len(),
{
    if names.len() > 0 {
        if names.last() == key {
            assert(names[names.len() - 1] == key);
        } else {
            lemma_apply_items_keys(m, names.drop_last(), path, key);
            if exists|j: int| 0 <= j < names.drop_last().len() && #[trigger] names.drop_last()[j]
                == key {
                let j = choose|j: int|
                    0 <= j < names.drop_last().len() && #[trigger] names.drop_last()[j] == key;
                assert(names[j] == key);
            }
        }
    }
}

/// Import-table keys are never empty, as long as every path segment
/// of the imports, of the project basepath and of the dependency
/// table, and every listed name, is non-empty.
pub proof fn lemma_resolver_keys_nonempty(
    imports: Seq<ImportDecl>,
    dm: Seq<(Seq<char>, Seq<Seq<char>>)>,
    base: Seq<Seq<char>>,
    key: Seq<char>,
)
    requires
        spec_resolver(imports, dm, base).contains_key(key),
        forall|i: int| 0 <= i < imports.len() ==> import_ok(#[trigger] imports[i], dm, base),
        forall|i: int|
            0 <= i < imports.len() ==> forall|j: int|
                0 <= j < (#[trigger] imports[i]).path@.len() ==> (#[trigger] imports[i].path@[j])@.len() > 0,
        forall|i: int|
            0 <= i < imports.len() ==> match (#[trigger] imports[i]).selection {
                ImportSelection::Items(ns) => forall|j: int|
                    0 <= j < ns@.len() ==> (#[trigger] ns@[j])@.len() > 0,
                _ => true,
            },
        forall|i: int|
            0 <= i < dm.len() ==> forall|j: int|
                0 <= j < (#[trigger] dm[i]).1.len() ==> (#[trigger] dm[i].1[j]).len() > 0,
        forall|j: int| 0 <= j < base.len() ==> (#[trigger] base[j]).len() > 0,
    ensures
        key.len() > 0,
    decreases imports.len(),
{
    if imports.len() > 0 {
        let prev = spec_resolver(imports.drop_last(), dm, base);
        let imp = imports.last();
        let gi = imports.len() - 1;
        assert(imports[gi] == imp);
        match imp.selection {
            ImportSelection::This => {
                let p = import_base(imp, dm, base);
                if prev.contains_key(key) {
                    lemma_resolver_keys_nonempty(imports.drop_last(), dm, base, key);
                } else {
                    assert(import_ok(imports[gi], dm, base));
                    assert(p.len() > 0);
                    assert(key == p.last());
                    assert(imp.path.deep_view().len() == imp.path@.len());
                    if imp.is_lib {
                        let lp = depmap_lookup(dm, imp.path@[0]@).unwrap();
                        lemma_depmap_lookup_value(dm, imp.path@[0]@);
                        let w = choose|w: int| 0 <= w < dm.len() && (#[trigger] dm[w]).1 == lp;
                        if p.len() - 1 < lp.len() {
                            assert(p.last() == lp[p.len() - 1]);
                            assert(dm[w].1[p.len() - 1].len() > 0);
                        } else {
                            let k = p.len() - 1 - lp.len();
                            assert(p.last() == imp.path.deep_view().drop_first()[k]);
                            assert(imp.path.deep_view().drop_first()[k] == imp.path.deep_view()[k
                                + 1]);
                            assert(imp.path.deep_view()[k + 1] == imp.path@[k + 1]@);
                            assert(imports[gi].path@[k + 1]@.len() > 0);
                        }
                    } else {
                        if p.len() - 1 < base.len() {
                            assert(p.last() == base[p.len() - 1]);
                        } else {
                            let k = p.len() - 1 - base.len();
                            assert(p.last() == imp.path.deep_view()[k]);
                            assert(imp.path.deep_view()[k] == imp.path@[k]@);
                            assert(imports[gi].path@[k]@.len() > 0);
                        }
                    }
                }
            },
            ImportSelection::Items(ns) => {
                if prev.contains_key(key) {
                    lemma_resolver_keys_nonempty(imports.drop_last(), dm, base, key);
                } else {
                    lemma_apply_items_keys(prev, ns.deep_view(), import_base(imp, dm, base), key);
                    let j = choose|j: int|
                        0 <= j < ns.deep_view().len() && #[trigger] ns.deep_view()[j] == key;
                    assert(ns.deep_view()[j] == ns@[j]@);
                }
            },
            ImportSelection::All => {
                lemma_resolver_keys_nonempty(imports.drop_last(), dm, base, key);
            },
        }
    }
}

/// A value found in the dependency table is the value of one of its
/// entries.
proof fn lemma_depmap_lookup_value(dm: Seq<(Seq<char>, Seq<Seq<char>>)>, name: Seq<char>)
    ensures
        depmap_lookup(dm, name) matches Some(v) ==> exists|i: int|
            0 <= i < dm.len() && (#[trigger] dm[i]).1 == v,
    decreases dm.len(),
{
    if dm.len() > 0 {
        if dm.last().0 == name {
            assert(dm[dm.len() - 1].1 == depmap_lookup(dm, name).unwrap());
        } else {
            lemma_depmap_lookup_value(dm.drop_last(), name);
            match depmap_lookup(dm.drop_last(), name) {
                Some(v) => {
                    let i = choose|i: int|
                        0 <= i < dm.drop_last().len() && (#[trigger] dm.drop_last()[i]).1 == v;
                    assert(dm[i].1 == v);
                },
                None => {},
            }
        }
    }
}

} // verus!
