//! Projects and the global module table.
//!
//! A project is a directory with a manifest; its dependencies are
//! other projects in the local dependency cache.  Reading manifests
//! and walking the filesystem is input handling and happens outside
//! the library; here the plain values are assembled and indexed.

use vstd::prelude::*;
use crate::config::{
    dep_key_ok, dep_matches, find_first, find_last, spec_basepath_head, DepMap, SolarConfig,
};
use crate::id::{path_view, IdPath};
use crate::modules::{file_wf, FileInfo, Module};

verus! {

/// The name part of a dependency key `name(publisher)`.
pub open spec fn spec_dep_name(key: Seq<char>) -> Seq<char> {
    key.subrange(0, find_first(key, '(').unwrap())
}

/// The publisher part of a dependency key `name(publisher)`.
pub open spec fn spec_dep_publisher(key: Seq<char>) -> Seq<char> {
    key.subrange(find_first(key, '(').unwrap() + 1, key.len() - 1)
}

/// The version part of a dependency value `version` or `repo@version`.
pub open spec fn spec_dep_version(value: Seq<char>) -> Seq<char> {
    match find_last(value, '@') {
        Some(j) => value.subrange(j + 1, value.len() as int),
        None => value,
    }
}

/// The basepath a dependency entry denotes.
pub open spec fn spec_dep_basepath(key: Seq<char>, value: Seq<char>) -> Seq<Seq<char>> {
    seq![
        spec_basepath_head(spec_dep_name(key), spec_dep_publisher(key)),
        spec_dep_version(value),
    ]
}

/// The dependency table a manifest yields: short name to basepath.
pub open spec fn spec_dep_table(ds: Seq<(String, String)>) -> Seq<(Seq<char>, Seq<Seq<char>>)> {
    Seq::new(ds.len(), |i: int| (spec_dep_name(ds[i].0@), spec_dep_basepath(ds[i].0@, ds[i].1@)))
}

/// A loaded project: its identity, its root in the filesystem, and
/// its resolved dependency table.
#[derive(Debug)]
pub struct Project {
    /// Unique id of this project.
    pub basepath: IdPath,
    /// Root in the filesystem.
    pub fsroot: String,
    /// Resolves the short name of an import to a dependency.
    pub dep_map: DepMap,
    /// The manifest of this project.
    pub config: SolarConfig,
}

impl Project {
    /// Assemble a project from its parsed manifest.  The basepath is
    /// the unique identifier of the project; for libraries it matches
    /// the directory under the dependency cache.  Fails when a
    /// dependency key of the manifest is malformed.
    pub fn open(config: SolarConfig, fsroot: String, basepath: IdPath) -> (r: Result<
        Project,
        String,
    >)
        ensures
            match r {
                Ok(p) => {
                    &&& p.basepath == basepath
                    &&& p.fsroot == fsroot
                    &&& p.config == config
                    &&& match config.dependencies {
                        None => p.dep_map@.len() == 0,
                        Some(ds) => p.dep_map@ =~= spec_dep_table(ds@),
                    }
                },
                Err(_) => match config.dependencies {
                    None => false,
                    Some(ds) => exists|i: int|
                        0 <= i < ds@.len() && !dep_key_ok(#[trigger] ds@[i].0@),
                },
            },
    {
        let deps = match config.deps() {
            Ok(d) => d,
            Err(e) => {
                return Err(e);
            },
        };
        let mut dep_map = DepMap::new();
        let n = deps.len();
        let mut i: usize = 0;
        while i < n
            invariant
                n == deps@.len(),
                i <= n,
                dep_map@.len() == i,
                forall|j: int|
                    0 <= j < i ==> #[trigger] dep_map@[j] == (
                        deps@[j].name@,
                        seq![
                            spec_basepath_head(deps@[j].name@, deps@[j].publisher@),
                            deps@[j].version@,
                        ],
                    ),
            decreases n - i,
        {
            let d = &deps[i];
            let value = d.basepath();
            dep_map.insert(d.name.clone(), value);
            i += 1;
        }
        proof {
            match &config.dependencies {
                None => {},
                Some(ds) => {
                    assert forall|j: int| 0 <= j < n implies #[trigger] dep_map@[j]
                        == spec_dep_table(ds@)[j] by {
                        assert(dep_matches(deps@[j], ds@[j].0@, ds@[j].1@));
                    }
                    assert(dep_map@ =~= spec_dep_table(ds@));
                },
            }
        }
        Ok(Project { basepath, fsroot, dep_map, config })
    }
}


/// The module path of a source file: the project basepath followed by
/// the directory segments of the file below the project root.  Files
/// of one directory share one module; the file name itself is not
/// part of the path.
pub fn module_path_for(basepath: &IdPath, rel_segments: &Vec<String>) -> (r: IdPath)
    ensures
        r.deep_view() =~= basepath.deep_view() + rel_segments.deep_view(),
{
    let mut r = crate::id::clone_path(basepath);
    let ghost bp = basepath@;
    let n = rel_segments.len();
    let mut i: usize = 0;
    while i < n
        invariant
            n == rel_segments@.len(),
            i <= n,
            bp == basepath@,
            r@ =~= bp + rel_segments@.subrange(0, i as int),
        decreases n - i,
    {
        r.push(rel_segments[i].clone());
        proof {
            assert(r@ =~= bp + rel_segments@.subrange(0, i + 1));
        }
        i += 1;
    }
    proof {
        assert(rel_segments@.subrange(0, n as int) =~= rel_segments@);
        assert(r@.len() == basepath@.len() + rel_segments@.len());
        assert forall|k: int| 0 <= k < r@.len() implies r.deep_view()[k] == (basepath.deep_view()
            + rel_segments.deep_view())[k] by {
            assert(r.deep_view()[k] == r@[k]@);
            if k < bp.len() {
                assert(r@[k] == bp[k]);
                assert(basepath.deep_view()[k] == basepath@[k]@);
            } else {
                assert(r@[k] == rel_segments@[k - bp.len()]);
                assert(rel_segments.deep_view()[k - bp.len()] == rel_segments@[k - bp.len()]@);
            }
        }
        assert(r.deep_view() =~= basepath.deep_view() + rel_segments.deep_view());
    }
    r
}


/// The module path of a source file, given every path segment of the
/// file below the project root, the file name last.  The file name is
/// not part of the module path: files of one directory share one
/// module.
pub fn module_path_of_file(basepath: &IdPath, rel_segments: &Vec<String>) -> (r: IdPath)
    requires
        rel_segments@.len() > 0,
    ensures
        r.deep_view() =~= basepath.deep_view() + rel_segments.deep_view().drop_last(),
{
    let mut dirs: Vec<String> = Vec::new();
    let n = rel_segments.len() - 1;
    let mut i: usize = 0;
    while i < n
        invariant
            n == rel_segments@.len() - 1,
            i <= n,
            dirs@ =~= rel_segments@.subrange(0, i as int),
        decreases n - i,
    {
        dirs.push(rel_segments[i].clone());
        proof {
            assert(dirs@ =~= rel_segments@.subrange(0, i + 1));
        }
        i += 1;
    }
    proof {
        assert(dirs@.len() == rel_segments@.len() - 1);
        assert forall|k: int| 0 <= k < dirs@.len() implies dirs.deep_view()[k]
            == rel_segments.deep_view().drop_last()[k] by {
            assert(dirs.deep_view()[k] == dirs@[k]@);
            assert(dirs@[k] == rel_segments@[k]);
            assert(rel_segments.deep_view()[k] == rel_segments@[k]@);
        }
        assert(dirs.deep_view() =~= rel_segments.deep_view().drop_last());
    }
    module_path_for(basepath, &dirs)
}

// ---------------------------------------------------------------------
// The set of loaded projects

/// All loaded projects, in insertion order: dependencies first, the
/// target project last.  The position of a project is its id.
#[derive(Debug)]
pub struct ProjectInfo {
    entries: Vec<(IdPath, Project)>,
}

impl ProjectInfo {
    /// The entries, in insertion order: basepath and project.
    pub closed spec fn view(&self) -> Seq<(Seq<Seq<char>>, Project)> {
        Seq::new(self.entries@.len(), |i: int| (self.entries@[i].0.deep_view(), self.entries@[i].1))
    }

    pub open spec fn spec_contains(&self, path: Seq<Seq<char>>) -> bool {
        exists|i: int| 0 <= i < self@.len() && (#[trigger] self@[i]).0 == path
    }

    pub fn new() -> (r: ProjectInfo)
        ensures
            r@ =~= Seq::<(Seq<Seq<char>>, Project)>::empty(),
    {
        ProjectInfo { entries: Vec::new() }
    }

    pub fn len(&self) -> (r: usize)
        ensures
            r == self@.len(),
    {
        self.entries.len()
    }

    /// Whether a project with this basepath was already loaded.
    pub fn contains(&self, path: &IdPath) -> (r: bool)
        ensures
            r == self.spec_contains(path.deep_view()),
    {
        let n = self.entries.len();
        let mut i: usize = 0;
        while i < n
            invariant
                n == self.entries@.len(),
                i <= n,
                forall|j: int| 0 <= j < i ==> (#[trigger] self@[j]).0 != path.deep_view(),
            decreases n - i,
        {
            if crate::id::path_eq(&self.entries[i].0, path) {
                proof {
                    assert(path_view(self.entries@[i as int].0) == self.entries@[i as int].0.deep_view());
                    assert((self@[i as int]).0 == path.deep_view());
                }
                return true;
            }
            proof {
                assert(path_view(self.entries@[i as int].0) == self.entries@[i as int].0.deep_view());
            }
            i += 1;
        }
        false
    }

    /// Register a loaded project under its basepath.
    pub fn insert(&mut self, path: IdPath, project: Project)
        ensures
            final(self)@ =~= old(self)@.push((path.deep_view(), project)),
    {
        self.entries.push((path, project));
    }

    /// The project with the given id, together with its basepath.
    pub fn get_by_index(&self, i: usize) -> (r: &(IdPath, Project))
        requires
            i < self@.len(),
        ensures
            r.0.deep_view() == self@[i as int].0,
            r.1 == self@[i as int].1,
    {
        &self.entries[i]
    }
}

// ---------------------------------------------------------------------
// The global module table

/// Lookup of a module by its path; a path inserted twice resolves to
/// the most recent entry.
pub open spec fn mm_lookup_index(s: Seq<(Seq<Seq<char>>, Module)>, key: Seq<Seq<char>>) -> Option<int>
    decreases s.len(),
{
    if s.len() == 0 {
        None
    } else if s.last().0 == key {
        Some(s.len() - 1)
    } else {
        mm_lookup_index(s.drop_last(), key)
    }
}

pub open spec fn mm_lookup(s: Seq<(Seq<Seq<char>>, Module)>, key: Seq<Seq<char>>) -> Option<Module> {
    match mm_lookup_index(s, key) {
        Some(i) => Some(s[i].1),
        None => None,
    }
}

/// The global table mapping every module path, across all loaded
/// projects, to its module.
#[derive(Debug)]
pub struct ModuleMap {
    entries: Vec<(IdPath, Module)>,
}

impl ModuleMap {
    /// The entries, in insertion order: module path and module.
    pub closed spec fn view(&self) -> Seq<(Seq<Seq<char>>, Module)> {
        Seq::new(self.entries@.len(), |i: int| (self.entries@[i].0.deep_view(), self.entries@[i].1))
    }

    /// Every module in the table has 16-bit clean indices.
    pub open spec fn wf(&self) -> bool {
        forall|i: int| 0 <= i < self@.len() ==> (#[trigger] self@[i]).1.wf()
    }

    pub fn new() -> (r: ModuleMap)
        ensures
            r@ =~= Seq::<(Seq<Seq<char>>, Module)>::empty(),
            r.wf(),
    {
        ModuleMap { entries: Vec::new() }
    }

    pub fn len(&self) -> (r: usize)
        ensures
            r == self@.len(),
    {
        self.entries.len()
    }

    /// The entry at a position, in insertion order.
    pub fn get_by_index(&self, i: usize) -> (r: &(IdPath, Module))
        requires
            i < self@.len(),
        ensures
            r.0.deep_view() == self@[i as int].0,
            r.1 == self@[i as int].1,
    {
        &self.entries[i]
    }

    /// The index of the module registered under this path, if any.
    fn find_index(&self, path: &IdPath) -> (r: Option<usize>)
        ensures
            match r {
                Some(i) => i < self@.len() && mm_lookup_index(self@, path.deep_view()) == Some(
                    i as int,
                ),
                None => mm_lookup_index(self@, path.deep_view()) is None,
            },
    {
        let n = self.entries.len();
        proof {
            assert(self@.take(n as int) =~= self@);
        }
        let mut i: usize = n;
        while i > 0
            invariant
                n == self.entries@.len(),
                i <= n,
                mm_lookup_index(self@, path.deep_view()) == mm_lookup_index(
                    self@.take(i as int),
                    path.deep_view(),
                ),
            decreases i,
        {
            i -= 1;
            proof {
                assert(self@.take(i + 1).drop_last() =~= self@.take(i as int));
                assert(self@.take(i + 1).last() == self@[i as int]);
                assert(path_view(self.entries@[i as int].0) == self.entries@[i as int].0.deep_view());
            }
            if crate::id::path_eq(&self.entries[i].0, path) {
                return Some(i);
            }
        }
        proof {
            assert(self@.take(0) =~= Seq::<(Seq<Seq<char>>, Module)>::empty());
        }
        None
    }

    /// The module registered under this path.
    pub fn get(&self, path: &IdPath) -> (r: Option<&Module>)
        ensures
            match r {
                Some(m) => mm_lookup(self@, path.deep_view()) == Some(*m),
                None => mm_lookup(self@, path.deep_view()) is None,
            },
    {
        match self.find_index(path) {
            Some(i) => Some(&self.entries[i].1),
            None => None,
        }
    }

    /// Register a module under its path.
    pub fn insert(&mut self, path: IdPath, module: Module)
        ensures
            final(self)@ =~= old(self)@.push((path.deep_view(), module)),
            old(self).wf() && module.wf() ==> final(self).wf(),
    {
        let ghost mv = module;
        self.entries.push((path, module));
        proof {
            if old(self).wf() && mv.wf() {
                assert forall|i: int| 0 <= i < self@.len() implies (#[trigger] self@[i]).1.wf() by {
                    if i < old(self)@.len() {
                        assert(self@[i] == old(self)@[i]);
                    } else {
                        assert(self@[i].1 == mv);
                    }
                }
            }
        }
    }

    /// File a parsed source file under its module path, creating the
    /// module on first use.  Fails only when the module already holds
    /// the largest representable number of files.
    pub fn add_file_at(&mut self, path: &IdPath, project_id: usize, file: FileInfo) -> (r: Result<
        (),
        String,
    >)
        ensures
            match r {
                Ok(_) => match mm_lookup_index(old(self)@, path.deep_view()) {
                    Some(i) => {
                        &&& final(self)@.len() == old(self)@.len()
                        &&& forall|j: int|
                            0 <= j < old(self)@.len() && j != i ==> final(self)@[j] == old(
                                self,
                            )@[j]
                        &&& final(self)@[i].0 == old(self)@[i].0
                        &&& final(self)@[i].1.project_id == old(self)@[i].1.project_id
                        &&& final(self)@[i].1.files@ =~= old(self)@[i].1.files@.push(file)
                    },
                    None => {
                        &&& final(self)@.len() == old(self)@.len() + 1
                        &&& forall|j: int|
                            0 <= j < old(self)@.len() ==> final(self)@[j] == old(self)@[j]
                        &&& final(self)@.last().0 == path.deep_view()
                        &&& final(self)@.last().1.project_id == project_id
                        &&& final(self)@.last().1.files@ =~= seq![file]
                    },
                },
                Err(_) => {
                    &&& final(self)@ == old(self)@
                    &&& mm_lookup_index(old(self)@, path.deep_view()) matches Some(i) && old(
                        self,
                    )@[i].1.files@.len() >= 65535
                },
            },
            old(self).wf() && file_wf(file) ==> final(self).wf(),
    {
        let r = match self.find_index(path) {
            Some(i) => {
                let m = &mut self.entries[i].1;
                if m.files.len() >= 65535 {
                    return Err("too many files in one module".to_owned());
                }
                m.files.push(file);
                Ok(())
            },
            None => {
                let mut m = Module::new(project_id);
                m.add_file(file);
                self.insert(crate::id::clone_path(path), m);
                Ok(())
            },
        };
        proof {
            if old(self).wf() && file_wf(file) {
                assert forall|i: int| 0 <= i < self@.len() implies (#[trigger] self@[i]).1.wf() by {
                    if i < old(self)@.len() {
                        assert(old(self)@[i].1.wf());
                    }
                }
            }
        }
        r
    }
}


pub proof fn lemma_mm_lookup_index_range(s: Seq<(Seq<Seq<char>>, Module)>, key: Seq<Seq<char>>)
    ensures
        mm_lookup_index(s, key) matches Some(i) ==> 0 <= i < s.len() && s[i].0 == key,
    decreases s.len(),
{
    if s.len() > 0 && s.last().0 != key {
        lemma_mm_lookup_index_range(s.drop_last(), key);
    }
}

/// A module found in a well-formed table is well-formed.
pub proof fn lemma_mm_lookup_wf(mm: ModuleMap, key: Seq<Seq<char>>)
    requires
        mm.wf(),
        mm_lookup(mm@, key) is Some,
    ensures
        mm_lookup(mm@, key).unwrap().wf(),
{
    lemma_mm_lookup_index_range(mm@, key);
}

} // verus!
