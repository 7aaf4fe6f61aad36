//! Concrete static types, the interned type store, and the linking of
//! built-in type declarations from the standard library to their
//! fixed type ids.

use vstd::prelude::*;
use vstd::string::StringExecFns;
use crate::ast::BodyItem;
use crate::id::{clone_path, IdItem, IdPath, TypeId, SSID};
use crate::modules::{FileInfo, Module};
use crate::project::ModuleMap;

verus! {

/// A concrete, static type and the information needed to lay it out.
#[derive(Debug)]
pub struct Type {
    /// Name used in diagnostics and for looking up associated items.
    pub info_name: String,
    /// The module that declared the type.
    pub module: IdPath,
    pub size_in_bytes: u32,
    /// Name, offset and type of each field, in layout order.
    pub field_layout: Vec<(String, u32, TypeId)>,
}

/// First field of the layout that carries this name.
pub open spec fn field_find(layout: Seq<(String, u32, TypeId)>, name: Seq<char>) -> Option<int>
    decreases layout.len(),
{
    if layout.len() == 0 {
        None
    } else if layout[0].0@ == name {
        Some(0int)
    } else {
        match field_find(layout.drop_first(), name) {
            Some(i) => Some(i + 1),
            None => None,
        }
    }
}

proof fn lemma_field_find(layout: Seq<(String, u32, TypeId)>, name: Seq<char>, i: int)
    requires
        0 <= i <= layout.len(),
        forall|j: int| 0 <= j < i ==> (#[trigger] layout[j]).0@ != name,
        i < layout.len() ==> layout[i].0@ == name,
    ensures
        i == layout.len() ==> field_find(layout, name) is None,
        i < layout.len() ==> field_find(layout, name) == Some(i),
    decreases layout.len(),
{
    if layout.len() == 0 {
    } else if layout[0].0@ == name {
        assert(i == 0);
    } else {
        assert(i >= 1);
        let t = layout.drop_first();
        assert(forall|j: int| 0 <= j < i - 1 ==> (#[trigger] t[j]).0@ != name);
        lemma_field_find(t, name, i - 1);
    }
}

impl Type {
    /// Field offsets grow along the layout and stay inside the type.
    pub open spec fn wf(self) -> bool {
        &&& forall|i: int|
            0 <= i < self.field_layout@.len() - 1 ==> (#[trigger] self.field_layout@[i]).1
                <= self.field_layout@[i + 1].1
        &&& self.field_layout@.len() > 0 ==> self.field_layout@.last().1 <= self.size_in_bytes
    }

    /// The offset, length and type of the first field with this name.
    pub fn get_field(&self, name: &String) -> (r: Result<(u32, u32, TypeId), ()>)
        requires
            self.wf(),
        ensures
            match field_find(self.field_layout@, name@) {
                Some(i) => r matches Ok(f) && {
                    let next = if i + 1 == self.field_layout@.len() {
                        self.size_in_bytes
                    } else {
                        self.field_layout@[i + 1].1
                    };
                    &&& f.0 == self.field_layout@[i].1
                    &&& f.1 == next - self.field_layout@[i].1
                    &&& f.2 == self.field_layout@[i].2
                },
                None => r is Err,
            },
    {
        let n = self.field_layout.len();
        let mut i: usize = 0;
        while i < n
            invariant
                self.wf(),
                n == self.field_layout@.len(),
                i <= n,
                forall|j: int| 0 <= j < i ==> (#[trigger] self.field_layout@[j]).0@ != name@,
            decreases n - i,
        {
            let entry = &self.field_layout[i];
            if entry.0 == *name {
                proof {
                    lemma_field_find(self.field_layout@, name@, i as int);
                }
                let next = if i + 1 == n {
                    self.size_in_bytes
                } else {
                    self.field_layout[i + 1].1
                };
                return Ok((entry.1, next - entry.1, entry.2));
            }
            i += 1;
        }
        proof {
            lemma_field_find(self.field_layout@, name@, n as int);
        }
        Err(())
    }
}

// ---------------------------------------------------------------------
// The type store

/// First entry of the store whose type carries this name.
pub open spec fn type_name_find(s: Seq<(((Seq<Seq<char>>, u16, IdItem), Seq<TypeId>), Type)>, name: Seq<char>) -> Option<int>
    decreases s.len(),
{
    if s.len() == 0 {
        None
    } else if s[0].1.info_name@ == name {
        Some(0int)
    } else {
        match type_name_find(s.drop_first(), name) {
            Some(i) => Some(i + 1),
            None => None,
        }
    }
}

proof fn lemma_type_name_find(s: Seq<(((Seq<Seq<char>>, u16, IdItem), Seq<TypeId>), Type)>, name: Seq<char>, i: int)
    requires
        0 <= i <= s.len(),
        forall|j: int| 0 <= j < i ==> (#[trigger] s[j]).1.info_name@ != name,
        i < s.len() ==> s[i].1.info_name@ == name,
    ensures
        i == s.len() ==> type_name_find(s, name) is None,
        i < s.len() ==> type_name_find(s, name) == Some(i),
    decreases s.len(),
{
    if s.len() == 0 {
    } else if s[0].1.info_name@ == name {
        assert(i == 0);
    } else {
        assert(i >= 1);
        let t = s.drop_first();
        assert(forall|j: int| 0 <= j < i - 1 ==> (#[trigger] t[j]).1.info_name@ != name);
        lemma_type_name_find(t, name, i - 1);
    }
}

/// Interned map from structural type keys to type descriptors.  Keys
/// are the declaration ids of the types; the insertion position of an
/// entry is its `TypeId`.
#[derive(Debug)]
pub struct TypeStore {
    entries: Vec<(SSID, Type)>,
}

impl TypeStore {
    /// The entries in insertion order: declaration key and type.
    pub closed spec fn view(&self) -> Seq<(((Seq<Seq<char>>, u16, IdItem), Seq<TypeId>), Type)> {
        Seq::new(self.entries@.len(), |i: int| (crate::id::ssid_view(self.entries@[i].0), self.entries@[i].1))
    }

    pub fn new() -> (r: TypeStore)
        ensures
            r@ =~= Seq::<(((Seq<Seq<char>>, u16, IdItem), Seq<TypeId>), Type)>::empty(),
    {
        TypeStore { entries: Vec::new() }
    }

    pub fn len(&self) -> (r: usize)
        ensures
            r == self@.len(),
    {
        self.entries.len()
    }

    /// Intern a type; its position is the returned `TypeId`.
    pub fn insert(&mut self, key: SSID, ty: Type) -> (r: TypeId)
        ensures
            r == old(self)@.len(),
            final(self)@ =~= old(self)@.push((crate::id::ssid_view(key), ty)),
    {
        let ghost gk = key;
        let ghost gt = ty;
        let r = self.entries.len();
        self.entries.push((key, ty));
        proof {
            assert(final(self)@ =~= old(self)@.push((crate::id::ssid_view(gk), gt)));
        }
        r
    }

    /// The type with the given id.
    pub fn get_by_index(&self, i: TypeId) -> (r: Option<&Type>)
        ensures
            match r {
                Some(t) => i < self@.len() && *t == self@[i as int].1,
                None => i >= self@.len(),
            },
    {
        if i < self.entries.len() {
            Some(&self.entries[i].1)
        } else {
            None
        }
    }

    /// The id of the first stored type carrying this name.
    pub fn find_by_name(&self, name: &String) -> (r: Option<TypeId>)
        ensures
            match r {
                Some(i) => type_name_find(self@, name@) == Some(i as int),
                None => type_name_find(self@, name@) is None,
            },
    {
        let n = self.entries.len();
        let mut i: usize = 0;
        while i < n
            invariant
                n == self.entries@.len(),
                i <= n,
                forall|j: int| 0 <= j < i ==> (#[trigger] self@[j]).1.info_name@ != name@,
            decreases n - i,
        {
            if self.entries[i].1.info_name == *name {
                proof {
                    lemma_type_name_find(self@, name@, i as int);
                }
                return Some(i);
            }
            i += 1;
        }
        proof {
            lemma_type_name_find(self@, name@, n as int);
        }
        None
    }
}

// ---------------------------------------------------------------------
// Built-in type linking

/// The fixed ids of the built-in types.
#[derive(Debug, Clone, Copy, PartialEq, Eq, Structural)]
pub struct BuildinTypeId {
    pub bool_id: TypeId,
    pub int8_id: TypeId,
    pub int16_id: TypeId,
    pub int32_id: TypeId,
    pub int_id: TypeId,
    pub uint8_id: TypeId,
    pub uint16_id: TypeId,
    pub uint32_id: TypeId,
    pub uint_id: TypeId,
    pub float32_id: TypeId,
    pub float_id: TypeId,
    pub string_id: TypeId,
}

/// Linking fails on a malformed built-in declaration.
#[derive(Debug)]
pub enum LinkError {
    /// A static type cannot be made from a built-in with generics.
    GenericBuildin { name: String },
    /// The standard library declared a built-in this compiler does
    /// not know.
    UnrecognizedBuildin { name: String },
}

/// A built-in type declaration found during the scan: the module
/// path, the file index, the item index, the declared name, and
/// whether it carries generics.
pub open spec fn file_builtin_decls(path: Seq<Seq<char>>, fid: u16, items: Seq<BodyItem>) -> Seq<(Seq<Seq<char>>, u16, u16, Seq<char>, bool)>
    decreases items.len(),
{
    if items.len() == 0 {
        Seq::<(Seq<Seq<char>>, u16, u16, Seq<char>, bool)>::empty()
    } else {
        file_builtin_decls(path, fid, items.drop_last()) + match items.last() {
            BodyItem::BuildinTypeDecl(b) => seq![
                (path, fid, (items.len() - 1) as u16, b.name@, b.has_generics),
            ],
            _ => Seq::<(Seq<Seq<char>>, u16, u16, Seq<char>, bool)>::empty(),
        }
    }
}

pub open spec fn module_builtin_decls(path: Seq<Seq<char>>, files: Seq<FileInfo>) -> Seq<(Seq<Seq<char>>, u16, u16, Seq<char>, bool)>
    decreases files.len(),
{
    if files.len() == 0 {
        Seq::<(Seq<Seq<char>>, u16, u16, Seq<char>, bool)>::empty()
    } else {
        module_builtin_decls(path, files.drop_last()) + file_builtin_decls(
            path,
            (files.len() - 1) as u16,
            files.last().ast.items@,
        )
    }
}

/// Only the standard library may declare built-in types.
pub open spec fn is_std_path(path: Seq<Seq<char>>) -> bool {
    path.len() > 0 && path[0] == "std(solar-lang)"@
}

/// Every built-in declaration of the standard library, in the scan
/// order of the module table.
pub open spec fn global_builtin_decls(mm: Seq<(Seq<Seq<char>>, Module)>) -> Seq<(Seq<Seq<char>>, u16, u16, Seq<char>, bool)>
    decreases mm.len(),
{
    if mm.len() == 0 {
        Seq::<(Seq<Seq<char>>, u16, u16, Seq<char>, bool)>::empty()
    } else {
        global_builtin_decls(mm.drop_last()) + if is_std_path(mm.last().0) {
            module_builtin_decls(mm.last().0, mm.last().1.files@)
        } else {
            Seq::<(Seq<Seq<char>>, u16, u16, Seq<char>, bool)>::empty()
        }
    }
}

/// The names this compiler links to fixed slots.
pub open spec fn builtin_name_ok(n: Seq<char>) -> bool {
    ||| n == "Bool"@
    ||| n == "Int8"@
    ||| n == "Int16"@
    ||| n == "Int32"@
    ||| n == "Int"@
    ||| n == "Uint8"@
    ||| n == "Uint16"@
    ||| n == "Uint32"@
    ||| n == "Uint"@
    ||| n == "Float32"@
    ||| n == "Float"@
    ||| n == "String"@
}

/// Index of the last declaration carrying this name.
pub open spec fn last_decl_index(decls: Seq<(Seq<Seq<char>>, u16, u16, Seq<char>, bool)>, n: Seq<char>) -> Option<int>
    decreases decls.len(),
{
    if decls.len() == 0 {
        None
    } else if decls.last().3 == n {
        Some(decls.len() - 1)
    } else {
        last_decl_index(decls.drop_last(), n)
    }
}

/// The id bound for a name: the id of its last declaration, or the
/// zero slot when the standard library never declared it.
pub open spec fn builtin_id_for(decls: Seq<(Seq<Seq<char>>, u16, u16, Seq<char>, bool)>, n: Seq<char>) -> int {
    match last_decl_index(decls, n) {
        Some(i) => i,
        None => 0,
    }
}

/// How the bound ids relate to the scanned declarations.
pub open spec fn ids_match(ids: BuildinTypeId, decls: Seq<(Seq<Seq<char>>, u16, u16, Seq<char>, bool)>) -> bool {
    &&& ids.bool_id == builtin_id_for(decls, "Bool"@)
    &&& ids.int8_id == builtin_id_for(decls, "Int8"@)
    &&& ids.int16_id == builtin_id_for(decls, "Int16"@)
    &&& ids.int32_id == builtin_id_for(decls, "Int32"@)
    &&& ids.int_id == builtin_id_for(decls, "Int"@)
    &&& ids.uint8_id == builtin_id_for(decls, "Uint8"@)
    &&& ids.uint16_id == builtin_id_for(decls, "Uint16"@)
    &&& ids.uint32_id == builtin_id_for(decls, "Uint32"@)
    &&& ids.uint_id == builtin_id_for(decls, "Uint"@)
    &&& ids.float32_id == builtin_id_for(decls, "Float32"@)
    &&& ids.float_id == builtin_id_for(decls, "Float"@)
    &&& ids.string_id == builtin_id_for(decls, "String"@)
}

/// How the type store relates to the scanned declarations: one entry
/// per declaration, keyed by the declaration id, holding an empty
/// layout under the declared name.
pub open spec fn store_matches(ts: Seq<(((Seq<Seq<char>>, u16, IdItem), Seq<TypeId>), Type)>, decls: Seq<(Seq<Seq<char>>, u16, u16, Seq<char>, bool)>) -> bool {
    &&& ts.len() == decls.len()
    &&& forall|k: int| 0 <= k < decls.len() ==> {
        let e = #[trigger] ts[k];
        &&& e.0 == ((decls[k].0, decls[k].1, IdItem::Type(decls[k].2)), Seq::<TypeId>::empty())
        &&& e.1.info_name@ == decls[k].3
        &&& e.1.module.deep_view() == decls[k].0
        &&& e.1.size_in_bytes == 0
        &&& e.1.field_layout@.len() == 0
    }
}

/// A declaration is linkable when it has no generics and a known name.
pub open spec fn decl_ok(d: (Seq<Seq<char>>, u16, u16, Seq<char>, bool)) -> bool {
    !d.4 && builtin_name_ok(d.3)
}

/// Collect every built-in type declaration of the standard library,
/// in the scan order of the module table.
fn collect_builtin_decls(modules: &ModuleMap) -> (r: Vec<(IdPath, u16, u16, String, bool)>)
    requires
        modules.wf(),
    ensures
        r@.len() == global_builtin_decls(modules@).len(),
        forall|k: int| 0 <= k < r@.len() ==> {
            let d = global_builtin_decls(modules@)[k];
            &&& (#[trigger] r@[k]).0.deep_view() == d.0
            &&& r@[k].1 == d.1
            &&& r@[k].2 == d.2
            &&& r@[k].3@ == d.3
            &&& r@[k].4 == d.4
        },
{
    let mut r: Vec<(IdPath, u16, u16, String, bool)> = Vec::new();
    let nm = modules.len();
    let mut m: usize = 0;
    while m < nm
        invariant
            modules.wf(),
            nm == modules@.len(),
            m <= nm,
            r@.len() == global_builtin_decls(modules@.take(m as int)).len(),
            forall|k: int| 0 <= k < r@.len() ==> {
                let d = global_builtin_decls(modules@.take(m as int))[k];
                &&& (#[trigger] r@[k]).0.deep_view() == d.0
                &&& r@[k].1 == d.1
                &&& r@[k].2 == d.2
                &&& r@[k].3@ == d.3
                &&& r@[k].4 == d.4
            },
        decreases nm - m,
    {
        let ghost outer = global_builtin_decls(modules@.take(m as int));
        let entry = modules.get_by_index(m);
        let path = &entry.0;
        let module = &entry.1;
        let is_std = path.len() > 0 && path[0] == "std(solar-lang)".to_owned();
        proof {
            assert(path.deep_view().len() == path@.len());
            if path@.len() > 0 {
                assert(path.deep_view()[0] == path@[0]@);
            }
            assert(is_std == is_std_path(modules@[m as int].0));
        }
        if is_std {
            let ghost mpath = modules@[m as int].0;
            let nf = module.files.len();
            let mut f: usize = 0;
            while f < nf
                invariant
                    modules.wf(),
                    nm == modules@.len(),
                    m < nm,
                    module == modules@[m as int].1,
                    mpath == modules@[m as int].0,
                    path.deep_view() == mpath,
                    nf == module.files@.len(),
                    f <= nf,
                    nf <= u16::MAX,
                    outer == global_builtin_decls(modules@.take(m as int)),
                    r@.len() == (outer + module_builtin_decls(mpath, module.files@.take(f as int))).len(),
                    forall|k: int| 0 <= k < r@.len() ==> {
                        let d = (outer + module_builtin_decls(mpath, module.files@.take(f as int)))[k];
                        &&& (#[trigger] r@[k]).0.deep_view() == d.0
                        &&& r@[k].1 == d.1
                        &&& r@[k].2 == d.2
                        &&& r@[k].3@ == d.3
                        &&& r@[k].4 == d.4
                    },
                decreases nf - f,
            {
                let ghost mid = outer + module_builtin_decls(mpath, module.files@.take(f as int));
                let fileinfo = &module.files[f];
                let items = &fileinfo.ast.items;
                let ni = items.len();
                let mut t: usize = 0;
                while t < ni
                    invariant
                        m < nm,
                        f < nf,
                        nf <= u16::MAX,
                        ni <= u16::MAX,
                        fileinfo == module.files@[f as int],
                        items == fileinfo.ast.items,
                        ni == items@.len(),
                        t <= ni,
                        path.deep_view() == mpath,
                        mid == outer + module_builtin_decls(mpath, module.files@.take(f as int)),
                        r@.len() == (mid + file_builtin_decls(mpath, f as u16, items@.take(t as int))).len(),
                        forall|k: int| 0 <= k < r@.len() ==> {
                            let d = (mid + file_builtin_decls(mpath, f as u16, items@.take(t as int)))[k];
                            &&& (#[trigger] r@[k]).0.deep_view() == d.0
                            &&& r@[k].1 == d.1
                            &&& r@[k].2 == d.2
                            &&& r@[k].3@ == d.3
                            &&& r@[k].4 == d.4
                        },
                    decreases ni - t,
                {
                    proof {
                        assert(items@.take(t + 1).drop_last() =~= items@.take(t as int));
                        assert(items@.take(t + 1).last() == items@[t as int]);
                    }
                    match &items[t] {
                        BodyItem::BuildinTypeDecl(b) => {
                            r.push((clone_path(path), f as u16, t as u16, b.name.clone(), b.has_generics));
                        },
                        _ => {},
                    }
                    t += 1;
                }
                proof {
                    assert(items@.take(ni as int) =~= items@);
                    assert(module.files@.take(f + 1).drop_last() =~= module.files@.take(f as int));
                    assert(module.files@.take(f + 1).last() == module.files@[f as int]);
                }
                f += 1;
            }
            proof {
                assert(module.files@.take(nf as int) =~= module.files@);
            }
        }
        proof {
            assert(modules@.take(m + 1).drop_last() =~= modules@.take(m as int));
            assert(modules@.take(m + 1).last() == modules@[m as int]);
        }
        m += 1;
    }
    proof {
        assert(modules@.take(nm as int) =~= modules@);
    }
    r
}

/// The twelve built-in names are pairwise distinct.
proof fn lemma_builtin_names_distinct()
    ensures
        "Bool"@ != "Int8"@,
        "Bool"@ != "Int16"@,
        "Bool"@ != "Int32"@,
        "Bool"@ != "Int"@,
        "Bool"@ != "Uint8"@,
        "Bool"@ != "Uint16"@,
        "Bool"@ != "Uint32"@,
        "Bool"@ != "Uint"@,
        "Bool"@ != "Float32"@,
        "Bool"@ != "Float"@,
        "Bool"@ != "String"@,
        "Int8"@ != "Int16"@,
        "Int8"@ != "Int32"@,
        "Int8"@ != "Int"@,
        "Int8"@ != "Uint8"@,
        "Int8"@ != "Uint16"@,
        "Int8"@ != "Uint32"@,
        "Int8"@ != "Uint"@,
        "Int8"@ != "Float32"@,
        "Int8"@ != "Float"@,
        "Int8"@ != "String"@,
        "Int16"@ != "Int32"@,
        "Int16"@ != "Int"@,
        "Int16"@ != "Uint8"@,
        "Int16"@ != "Uint16"@,
        "Int16"@ != "Uint32"@,
        "Int16"@ != "Uint"@,
        "Int16"@ != "Float32"@,
        "Int16"@ != "Float"@,
        "Int16"@ != "String"@,
        "Int32"@ != "Int"@,
        "Int32"@ != "Uint8"@,
        "Int32"@ != "Uint16"@,
        "Int32"@ != "Uint32"@,
        "Int32"@ != "Uint"@,
        "Int32"@ != "Float32"@,
        "Int32"@ != "Float"@,
        "Int32"@ != "String"@,
        "Int"@ != "Uint8"@,
        "Int"@ != "Uint16"@,
        "Int"@ != "Uint32"@,
        "Int"@ != "Uint"@,
        "Int"@ != "Float32"@,
        "Int"@ != "Float"@,
        "Int"@ != "String"@,
        "Uint8"@ != "Uint16"@,
        "Uint8"@ != "Uint32"@,
        "Uint8"@ != "Uint"@,
        "Uint8"@ != "Float32"@,
        "Uint8"@ != "Float"@,
        "Uint8"@ != "String"@,
        "Uint16"@ != "Uint32"@,
        "Uint16"@ != "Uint"@,
        "Uint16"@ != "Float32"@,
        "Uint16"@ != "Float"@,
        "Uint16"@ != "String"@,
        "Uint32"@ != "Uint"@,
        "Uint32"@ != "Float32"@,
        "Uint32"@ != "Float"@,
        "Uint32"@ != "String"@,
        "Uint"@ != "Float32"@,
        "Uint"@ != "Float"@,
        "Uint"@ != "String"@,
        "Float32"@ != "Float"@,
        "Float32"@ != "String"@,
        "Float"@ != "String"@,
{
    reveal_strlit("Bool");
    reveal_strlit("Int8");
    reveal_strlit("Int16");
    reveal_strlit("Int32");
    reveal_strlit("Int");
    reveal_strlit("Uint8");
    reveal_strlit("Uint16");
    reveal_strlit("Uint32");
    reveal_strlit("Uint");
    reveal_strlit("Float32");
    reveal_strlit("Float");
    reveal_strlit("String");
    assert("Bool"@ != "Int8"@) by {
        assert("Bool"@[0] == 'B');
        assert("Int8"@[0] == 'I');
    }
    assert("Bool"@ != "Int16"@) by {
        assert("Bool"@.len() == 4);
        assert("Int16"@.len() == 5);
    }
    assert("Bool"@ != "Int32"@) by {
        assert("Bool"@.len() == 4);
        assert("Int32"@.len() == 5);
    }
    assert("Bool"@ != "Int"@) by {
        assert("Bool"@.len() == 4);
        assert("Int"@.len() == 3);
    }
    assert("Bool"@ != "Uint8"@) by {
        assert("Bool"@.len() == 4);
        assert("Uint8"@.len() == 5);
    }
    assert("Bool"@ != "Uint16"@) by {
        assert("Bool"@.len() == 4);
        assert("Uint16"@.len() == 6);
    }
    assert("Bool"@ != "Uint32"@) by {
        assert("Bool"@.len() == 4);
        assert("Uint32"@.len() == 6);
    }
    assert("Bool"@ != "Uint"@) by {
        assert("Bool"@[0] == 'B');
        assert("Uint"@[0] == 'U');
    }
    assert("Bool"@ != "Float32"@) by {
        assert("Bool"@.len() == 4);
        assert("Float32"@.len() == 7);
    }
    assert("Bool"@ != "Float"@) by {
        assert("Bool"@.len() == 4);
        assert("Float"@.len() == 5);
    }
    assert("Bool"@ != "String"@) by {
        assert("Bool"@.len() == 4);
        assert("String"@.len() == 6);
    }
    assert("Int8"@ != "Int16"@) by {
        assert("Int8"@.len() == 4);
        assert("Int16"@.len() == 5);
    }
    assert("Int8"@ != "Int32"@) by {
        assert("Int8"@.len() == 4);
        assert("Int32"@.len() == 5);
    }
    assert("Int8"@ != "Int"@) by {
        assert("Int8"@.len() == 4);
        assert("Int"@.len() == 3);
    }
    assert("Int8"@ != "Uint8"@) by {
        assert("Int8"@.len() == 4);
        assert("Uint8"@.len() == 5);
    }
    assert("Int8"@ != "Uint16"@) by {
        assert("Int8"@.len() == 4);
        assert("Uint16"@.len() == 6);
    }
    assert("Int8"@ != "Uint32"@) by {
        assert("Int8"@.len() == 4);
        assert("Uint32"@.len() == 6);
    }
    assert("Int8"@ != "Uint"@) by {
        assert("Int8"@[0] == 'I');
        assert("Uint"@[0] == 'U');
    }
    assert("Int8"@ != "Float32"@) by {
        assert("Int8"@.len() == 4);
        assert("Float32"@.len() == 7);
    }
    assert("Int8"@ != "Float"@) by {
        assert("Int8"@.len() == 4);
        assert("Float"@.len() == 5);
    }
    assert("Int8"@ != "String"@) by {
        assert("Int8"@.len() == 4);
        assert("String"@.len() == 6);
    }
    assert("Int16"@ != "Int32"@) by {
        assert("Int16"@[3] == '1');
        assert("Int32"@[3] == '3');
    }
    assert("Int16"@ != "Int"@) by {
        assert("Int16"@.len() == 5);
        assert("Int"@.len() == 3);
    }
    assert("Int16"@ != "Uint8"@) by {
        assert("Int16"@[0] == 'I');
        assert("Uint8"@[0] == 'U');
    }
    assert("Int16"@ != "Uint16"@) by {
        assert("Int16"@.len() == 5);
        assert("Uint16"@.len() == 6);
    }
    assert("Int16"@ != "Uint32"@) by {
        assert("Int16"@.len() == 5);
        assert("Uint32"@.len() == 6);
    }
    assert("Int16"@ != "Uint"@) by {
        assert("Int16"@.len() == 5);
        assert("Uint"@.len() == 4);
    }
    assert("Int16"@ != "Float32"@) by {
        assert("Int16"@.len() == 5);
        assert("Float32"@.len() == 7);
    }
    assert("Int16"@ != "Float"@) by {
        assert("Int16"@[0] == 'I');
        assert("Float"@[0] == 'F');
    }
    assert("Int16"@ != "String"@) by {
        assert("Int16"@.len() == 5);
        assert("String"@.len() == 6);
    }
    assert("Int32"@ != "Int"@) by {
        assert("Int32"@.len() == 5);
        assert("Int"@.len() == 3);
    }
    assert("Int32"@ != "Uint8"@) by {
        assert("Int32"@[0] == 'I');
        assert("Uint8"@[0] == 'U');
    }
    assert("Int32"@ != "Uint16"@) by {
        assert("Int32"@.len() == 5);
        assert("Uint16"@.len() == 6);
    }
    assert("Int32"@ != "Uint32"@) by {
        assert("Int32"@.len() == 5);
        assert("Uint32"@.len() == 6);
    }
    assert("Int32"@ != "Uint"@) by {
        assert("Int32"@.len() == 5);
        assert("Uint"@.len() == 4);
    }
    assert("Int32"@ != "Float32"@) by {
        assert("Int32"@.len() == 5);
        assert("Float32"@.len() == 7);
    }
    assert("Int32"@ != "Float"@) by {
        assert("Int32"@[0] == 'I');
        assert("Float"@[0] == 'F');
    }
    assert("Int32"@ != "String"@) by {
        assert("Int32"@.len() == 5);
        assert("String"@.len() == 6);
    }
    assert("Int"@ != "Uint8"@) by {
        assert("Int"@.len() == 3);
        assert("Uint8"@.len() == 5);
    }
    assert("Int"@ != "Uint16"@) by {
        assert("Int"@.len() == 3);
        assert("Uint16"@.len() == 6);
    }
    assert("Int"@ != "Uint32"@) by {
        assert("Int"@.len() == 3);
        assert("Uint32"@.len() == 6);
    }
    assert("Int"@ != "Uint"@) by {
        assert("Int"@.len() == 3);
        assert("Uint"@.len() == 4);
    }
    assert("Int"@ != "Float32"@) by {
        assert("Int"@.len() == 3);
        assert("Float32"@.len() == 7);
    }
    assert("Int"@ != "Float"@) by {
        assert("Int"@.len() == 3);
        assert("Float"@.len() == 5);
    }
    assert("Int"@ != "String"@) by {
        assert("Int"@.len() == 3);
        assert("String"@.len() == 6);
    }
    assert("Uint8"@ != "Uint16"@) by {
        assert("Uint8"@.len() == 5);
        assert("Uint16"@.len() == 6);
    }
    assert("Uint8"@ != "Uint32"@) by {
        assert("Uint8"@.len() == 5);
        assert("Uint32"@.len() == 6);
    }
    assert("Uint8"@ != "Uint"@) by {
        assert("Uint8"@.len() == 5);
        assert("Uint"@.len() == 4);
    }
    assert("Uint8"@ != "Float32"@) by {
        assert("Uint8"@.len() == 5);
        assert("Float32"@.len() == 7);
    }
    assert("Uint8"@ != "Float"@) by {
        assert("Uint8"@[0] == 'U');
        assert("Float"@[0] == 'F');
    }
    assert("Uint8"@ != "String"@) by {
        assert("Uint8"@.len() == 5);
        assert("String"@.len() == 6);
    }
    assert("Uint16"@ != "Uint32"@) by {
        assert("Uint16"@[4] == '1');
        assert("Uint32"@[4] == '3');
    }
    assert("Uint16"@ != "Uint"@) by {
        assert("Uint16"@.len() == 6);
        assert("Uint"@.len() == 4);
    }
    assert("Uint16"@ != "Float32"@) by {
        assert("Uint16"@.len() == 6);
        assert("Float32"@.len() == 7);
    }
    assert("Uint16"@ != "Float"@) by {
        assert("Uint16"@.len() == 6);
        assert("Float"@.len() == 5);
    }
    assert("Uint16"@ != "String"@) by {
        assert("Uint16"@[0] == 'U');
        assert("String"@[0] == 'S');
    }
    assert("Uint32"@ != "Uint"@) by {
        assert("Uint32"@.len() == 6);
        assert("Uint"@.len() == 4);
    }
    assert("Uint32"@ != "Float32"@) by {
        assert("Uint32"@.len() == 6);
        assert("Float32"@.len() == 7);
    }
    assert("Uint32"@ != "Float"@) by {
        assert("Uint32"@.len() == 6);
        assert("Float"@.len() == 5);
    }
    assert("Uint32"@ != "String"@) by {
        assert("Uint32"@[0] == 'U');
        assert("String"@[0] == 'S');
    }
    assert("Uint"@ != "Float32"@) by {
        assert("Uint"@.len() == 4);
        assert("Float32"@.len() == 7);
    }
    assert("Uint"@ != "Float"@) by {
        assert("Uint"@.len() == 4);
        assert("Float"@.len() == 5);
    }
    assert("Uint"@ != "String"@) by {
        assert("Uint"@.len() == 4);
        assert("String"@.len() == 6);
    }
    assert("Float32"@ != "Float"@) by {
        assert("Float32"@.len() == 7);
        assert("Float"@.len() == 5);
    }
    assert("Float32"@ != "String"@) by {
        assert("Float32"@.len() == 7);
        assert("String"@.len() == 6);
    }
    assert("Float"@ != "String"@) by {
        assert("Float"@.len() == 5);
        assert("String"@.len() == 6);
    }
}

/// Scan the standard library for built-in type declarations, intern a
/// type for each, and bind the resulting ids to the fixed slots.
pub fn link_buildin_types(modules: &ModuleMap) -> (r: Result<(TypeStore, BuildinTypeId), LinkError>)
    requires
        modules.wf(),
    ensures
        match r {
            Ok(pair) => {
                let decls = global_builtin_decls(modules@);
                &&& forall|k: int| 0 <= k < decls.len() ==> decl_ok(#[trigger] decls[k])
                &&& store_matches(pair.0@, decls)
                &&& ids_match(pair.1, decls)
            },
            Err(e) => exists|k: int|
                {
                    &&& 0 <= k < global_builtin_decls(modules@).len()
                    &&& !decl_ok(#[trigger] global_builtin_decls(modules@)[k])
                    &&& forall|j: int|
                        0 <= j < k ==> decl_ok(#[trigger] global_builtin_decls(modules@)[j])
                    &&& match e {
                        LinkError::GenericBuildin { name } => {
                            &&& global_builtin_decls(modules@)[k].4
                            &&& name@ == global_builtin_decls(modules@)[k].3
                        },
                        LinkError::UnrecognizedBuildin { name } => {
                            &&& !global_builtin_decls(modules@)[k].4
                            &&& !builtin_name_ok(global_builtin_decls(modules@)[k].3)
                            &&& name@ == global_builtin_decls(modules@)[k].3
                        },
                    }
                },
        },
{
    let ghost decls = global_builtin_decls(modules@);
    let flat = collect_builtin_decls(modules);
    let mut tys = TypeStore::new();
    let mut ids = BuildinTypeId {
        bool_id: 0,
        int8_id: 0,
        int16_id: 0,
        int32_id: 0,
        int_id: 0,
        uint8_id: 0,
        uint16_id: 0,
        uint32_id: 0,
        uint_id: 0,
        float32_id: 0,
        float_id: 0,
        string_id: 0,
    };
    let n = flat.len();
    let mut i: usize = 0;
    while i < n
        invariant
            decls == global_builtin_decls(modules@),
            n == flat@.len(),
            n == decls.len(),
            forall|k: int| 0 <= k < n ==> {
                let d = decls[k];
                &&& (#[trigger] flat@[k]).0.deep_view() == d.0
                &&& flat@[k].1 == d.1
                &&& flat@[k].2 == d.2
                &&& flat@[k].3@ == d.3
                &&& flat@[k].4 == d.4
            },
            i <= n,
            forall|k: int| 0 <= k < i ==> decl_ok(#[trigger] decls[k]),
            store_matches(tys@, decls.take(i as int)),
            ids_match(ids, decls.take(i as int)),
        decreases n - i,
    {
        proof {
            assert(decls.take(i + 1).drop_last() =~= decls.take(i as int));
            assert(decls.take(i + 1).last() == decls[i as int]);
        }
        let d = &flat[i];
        if d.4 {
            proof {
                assert(!decl_ok(decls[i as int]));
            }
            return Err(LinkError::GenericBuildin { name: d.3.clone() });
        }
        let ssid: SSID = ((clone_path(&d.0), d.1, IdItem::Type(d.2)), Vec::new());
        let ty = Type {
            info_name: d.3.clone(),
            module: clone_path(&d.0),
            size_in_bytes: 0,
            field_layout: Vec::new(),
        };
        proof {
            assert(crate::id::ssid_view(ssid).0.0 =~= decls[i as int].0);
            assert(crate::id::ssid_view(ssid).1 =~= Seq::<TypeId>::empty());
            assert(ty.module.deep_view() =~= decls[i as int].0);
        }
        let id = tys.insert(ssid, ty);
        proof {
            lemma_builtin_names_distinct();
        }
        if d.3 == "Bool".to_owned() {
            ids.bool_id = id;
        } else if d.3 == "Int8".to_owned() {
            ids.int8_id = id;
        } else if d.3 == "Int16".to_owned() {
            ids.int16_id = id;
        } else if d.3 == "Int32".to_owned() {
            ids.int32_id = id;
        } else if d.3 == "Int".to_owned() {
            ids.int_id = id;
        } else if d.3 == "Uint8".to_owned() {
            ids.uint8_id = id;
        } else if d.3 == "Uint16".to_owned() {
            ids.uint16_id = id;
        } else if d.3 == "Uint32".to_owned() {
            ids.uint32_id = id;
        } else if d.3 == "Uint".to_owned() {
            ids.uint_id = id;
        } else if d.3 == "Float32".to_owned() {
            ids.float32_id = id;
        } else if d.3 == "Float".to_owned() {
            ids.float_id = id;
        } else if d.3 == "String".to_owned() {
            ids.string_id = id;
        } else {
            proof {
                assert(!builtin_name_ok(decls[i as int].3));
                assert(!decl_ok(decls[i as int]));
            }
            return Err(LinkError::UnrecognizedBuildin { name: d.3.clone() });
        }
        proof {
            assert(store_matches(tys@, decls.take(i + 1)));
            assert(ids.bool_id == builtin_id_for(decls.take(i + 1), "Bool"@));
            assert(ids.int8_id == builtin_id_for(decls.take(i + 1), "Int8"@));
            assert(ids.int16_id == builtin_id_for(decls.take(i + 1), "Int16"@));
            assert(ids.int32_id == builtin_id_for(decls.take(i + 1), "Int32"@));
            assert(ids.int_id == builtin_id_for(decls.take(i + 1), "Int"@));
            assert(ids.uint8_id == builtin_id_for(decls.take(i + 1), "Uint8"@));
            assert(ids.uint16_id == builtin_id_for(decls.take(i + 1), "Uint16"@));
            assert(ids.uint32_id == builtin_id_for(decls.take(i + 1), "Uint32"@));
            assert(ids.uint_id == builtin_id_for(decls.take(i + 1), "Uint"@));
            assert(ids.float32_id == builtin_id_for(decls.take(i + 1), "Float32"@));
            assert(ids.float_id == builtin_id_for(decls.take(i + 1), "Float"@));
            assert(ids.string_id == builtin_id_for(decls.take(i + 1), "String"@));
            assert(ids_match(ids, decls.take(i + 1)));
        }
        i += 1;
    }
    proof {
        assert(decls.take(n as int) =~= decls);
    }
    Ok((tys, ids))
}


/// How often a name is declared among the scanned built-ins.
pub open spec fn decl_name_count(decls: Seq<(Seq<Seq<char>>, u16, u16, Seq<char>, bool)>, n: Seq<char>) -> nat
    decreases decls.len(),
{
    if decls.len() == 0 {
        0
    } else {
        decl_name_count(decls.drop_last(), n) + if decls.last().3 == n {
            1nat
        } else {
            0nat
        }
    }
}

proof fn lemma_last_decl_index_props(decls: Seq<(Seq<Seq<char>>, u16, u16, Seq<char>, bool)>, n: Seq<char>)
    ensures
        decl_name_count(decls, n) > 0 <==> last_decl_index(decls, n) is Some,
        last_decl_index(decls, n) matches Some(i) ==> 0 <= i < decls.len() && decls[i].3 == n,
    decreases decls.len(),
{
    if decls.len() > 0 {
        lemma_last_decl_index_props(decls.drop_last(), n);
    }
}

/// When the standard library declares each of the twelve built-in
/// names, the bound type ids are pairwise distinct, and all of them
/// lie inside the contiguous range of store indices reserved for the
/// built-in declarations.
pub proof fn lemma_builtin_ids_distinct(ids: BuildinTypeId, decls: Seq<(Seq<Seq<char>>, u16, u16, Seq<char>, bool)>)
    requires
        ids_match(ids, decls),
        decl_name_count(decls, "Bool"@) > 0,
        decl_name_count(decls, "Int8"@) > 0,
        decl_name_count(decls, "Int16"@) > 0,
        decl_name_count(decls, "Int32"@) > 0,
        decl_name_count(decls, "Int"@) > 0,
        decl_name_count(decls, "Uint8"@) > 0,
        decl_name_count(decls, "Uint16"@) > 0,
        decl_name_count(decls, "Uint32"@) > 0,
        decl_name_count(decls, "Uint"@) > 0,
        decl_name_count(decls, "Float32"@) > 0,
        decl_name_count(decls, "Float"@) > 0,
        decl_name_count(decls, "String"@) > 0,
    ensures
        ids.bool_id < decls.len(),
        ids.int8_id < decls.len(),
        ids.int16_id < decls.len(),
        ids.int32_id < decls.len(),
        ids.int_id < decls.len(),
        ids.uint8_id < decls.len(),
        ids.uint16_id < decls.len(),
        ids.uint32_id < decls.len(),
        ids.uint_id < decls.len(),
        ids.float32_id < decls.len(),
        ids.float_id < decls.len(),
        ids.string_id < decls.len(),
        ids.bool_id != ids.int8_id,
        ids.bool_id != ids.int16_id,
        ids.bool_id != ids.int32_id,
        ids.bool_id != ids.int_id,
        ids.bool_id != ids.uint8_id,
        ids.bool_id != ids.uint16_id,
        ids.bool_id != ids.uint32_id,
        ids.bool_id != ids.uint_id,
        ids.bool_id != ids.float32_id,
        ids.bool_id != ids.float_id,
        ids.bool_id != ids.string_id,
        ids.int8_id != ids.int16_id,
        ids.int8_id != ids.int32_id,
        ids.int8_id != ids.int_id,
        ids.int8_id != ids.uint8_id,
        ids.int8_id != ids.uint16_id,
        ids.int8_id != ids.uint32_id,
        ids.int8_id != ids.uint_id,
        ids.int8_id != ids.float32_id,
        ids.int8_id != ids.float_id,
        ids.int8_id != ids.string_id,
        ids.int16_id != ids.int32_id,
        ids.int16_id != ids.int_id,
        ids.int16_id != ids.uint8_id,
        ids.int16_id != ids.uint16_id,
        ids.int16_id != ids.uint32_id,
        ids.int16_id != ids.uint_id,
        ids.int16_id != ids.float32_id,
        ids.int16_id != ids.float_id,
        ids.int16_id != ids.string_id,
        ids.int32_id != ids.int_id,
        ids.int32_id != ids.uint8_id,
        ids.int32_id != ids.uint16_id,
        ids.int32_id != ids.uint32_id,
        ids.int32_id != ids.uint_id,
        ids.int32_id != ids.float32_id,
        ids.int32_id != ids.float_id,
        ids.int32_id != ids.string_id,
        ids.int_id != ids.uint8_id,
        ids.int_id != ids.uint16_id,
        ids.int_id != ids.uint32_id,
        ids.int_id != ids.uint_id,
        ids.int_id != ids.float32_id,
        ids.int_id != ids.float_id,
        ids.int_id != ids.string_id,
        ids.uint8_id != ids.uint16_id,
        ids.uint8_id != ids.uint32_id,
        ids.uint8_id != ids.uint_id,
        ids.uint8_id != ids.float32_id,
        ids.uint8_id != ids.float_id,
        ids.uint8_id != ids.string_id,
        ids.uint16_id != ids.uint32_id,
        ids.uint16_id != ids.uint_id,
        ids.uint16_id != ids.float32_id,
        ids.uint16_id != ids.float_id,
        ids.uint16_id != ids.string_id,
        ids.uint32_id != ids.uint_id,
        ids.uint32_id != ids.float32_id,
        ids.uint32_id != ids.float_id,
        ids.uint32_id != ids.string_id,
        ids.uint_id != ids.float32_id,
        ids.uint_id != ids.float_id,
        ids.uint_id != ids.string_id,
        ids.float32_id != ids.float_id,
        ids.float32_id != ids.string_id,
        ids.float_id != ids.string_id,
{
    lemma_last_decl_index_props(decls, "Bool"@);
    lemma_last_decl_index_props(decls, "Int8"@);
    lemma_last_decl_index_props(decls, "Int16"@);
    lemma_last_decl_index_props(decls, "Int32"@);
    lemma_last_decl_index_props(decls, "Int"@);
    lemma_last_decl_index_props(decls, "Uint8"@);
    lemma_last_decl_index_props(decls, "Uint16"@);
    lemma_last_decl_index_props(decls, "Uint32"@);
    lemma_last_decl_index_props(decls, "Uint"@);
    lemma_last_decl_index_props(decls, "Float32"@);
    lemma_last_decl_index_props(decls, "Float"@);
    lemma_last_decl_index_props(decls, "String"@);
    lemma_builtin_names_distinct();
}

} // verus!
