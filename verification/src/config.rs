//! The project manifest: its shape, its dependency table, and the
//! parsing of dependency keys of the form `name(publisher)` with
//! values of the form `version` or `repo@version`.
//!
//! Reading the manifest file itself is input handling and happens
//! outside the library; this module only works on the plain values.

use vstd::prelude::*;
use vstd::string::StrSliceExecFns;
use vstd::string::StringExecFns;
use crate::id::IdPath;

verus! {

/// Index of the first occurrence of `c` in `s`.
pub open spec fn find_first(s: Seq<char>, c: char) -> Option<int>
    decreases s.len(),
{
    if s.len() == 0 {
        None
    } else if s[0] == c {
        Some(0int)
    } else {
        match find_first(s.drop_first(), c) {
            Some(i) => Some(i + 1),
            None => None,
        }
    }
}

/// Index of the last occurrence of `c` in `s`.
pub open spec fn find_last(s: Seq<char>, c: char) -> Option<int>
    decreases s.len(),
{
    if s.len() == 0 {
        None
    } else if s.last() == c {
        Some(s.len() - 1)
    } else {
        find_last(s.drop_last(), c)
    }
}

proof fn lemma_find_first(s: Seq<char>, c: char, i: int)
    requires
        0 <= i <= s.len(),
        forall|j: int| 0 <= j < i ==> s[j] != c,
        i < s.len() ==> s[i] == c,
    ensures
        i == s.len() ==> find_first(s, c) is None,
        i < s.len() ==> find_first(s, c) == Some(i),
    decreases s.len(),
{
    if s.len() == 0 {
    } else if s[0] == c {
        assert(i == 0);
    } else {
        assert(i >= 1);
        let t = s.drop_first();
        assert(forall|j: int| 0 <= j < i - 1 ==> t[j] != c);
        lemma_find_first(t, c, i - 1);
    }
}

proof fn lemma_find_last(s: Seq<char>, c: char, i: int)
    requires
        -1 <= i < s.len(),
        forall|j: int| i < j < s.len() ==> s[j] != c,
        0 <= i ==> s[i] == c,
    ensures
        i == -1 ==> find_last(s, c) is None,
        0 <= i ==> find_last(s, c) == Some(i),
    decreases s.len(),
{
    if s.len() == 0 {
    } else if s.last() == c {
        assert(i == s.len() - 1);
    } else {
        assert(i < s.len() - 1);
        let t = s.drop_last();
        lemma_find_last(t, c, i);
    }
}

/// Find the first occurrence of `c` among the characters of `s`.
fn find_char_first(s: &str, c: char) -> (r: Option<usize>)
    ensures
        match r {
            Some(i) => i < s@.len() && find_first(s@, c) == Some(i as int),
            None => find_first(s@, c) is None,
        },
{
    let n = s.unicode_len();
    let mut i: usize = 0;
    while i < n
        invariant
            n == s@.len(),
            i <= n,
            forall|j: int| 0 <= j < i ==> s@[j] != c,
        decreases n - i,
    {
        if s.get_char(i) == c {
            proof {
                lemma_find_first(s@, c, i as int);
            }
            return Some(i);
        }
        i += 1;
    }
    proof {
        lemma_find_first(s@, c, n as int);
    }
    None
}

/// Find the last occurrence of `c` among the characters of `s`.
fn find_char_last(s: &str, c: char) -> (r: Option<usize>)
    ensures
        match r {
            Some(i) => i < s@.len() && find_last(s@, c) == Some(i as int),
            None => find_last(s@, c) is None,
        },
{
    let n = s.unicode_len();
    let mut i: usize = n;
    while i > 0
        invariant
            n == s@.len(),
            i <= n,
            forall|j: int| i <= j < n ==> s@[j] != c,
        decreases i,
    {
        i -= 1;
        if s.get_char(i) == c {
            proof {
                lemma_find_last(s@, c, i as int);
            }
            return Some(i);
        }
    }
    proof {
        lemma_find_last(s@, c, -1);
    }
    None
}

/// The head segment `name(publisher)` of a library basepath.
pub open spec fn spec_basepath_head(name: Seq<char>, publisher: Seq<char>) -> Seq<char> {
    name + "("@ + publisher + ")"@
}

/// One dependency of a project: `name(publisher)` mapped to a version,
/// optionally prefixed by a repository and `@`.
#[derive(Debug)]
pub struct Dependency {
    pub name: String,
    pub publisher: String,
    pub version: String,
    pub repo: Option<String>,
}

/// A dependency key parses when it holds a `(` and closes with `)`.
pub open spec fn dep_key_ok(key: Seq<char>) -> bool {
    match find_first(key, '(') {
        Some(i) => key.len() >= i + 2 && key.last() == ')',
        None => false,
    }
}

/// How a parsed dependency relates to its key and value.
pub open spec fn dep_matches(d: Dependency, key: Seq<char>, value: Seq<char>) -> bool {
    &&& dep_key_ok(key)
    &&& {
        let i = find_first(key, '(').unwrap();
        &&& d.name@ == key.subrange(0, i)
        &&& d.publisher@ == key.subrange(i + 1, key.len() - 1)
    }
    &&& match find_last(value, '@') {
        Some(j) => {
            &&& d.repo matches Some(rp) && rp@ == value.subrange(0, j)
            &&& d.version@ == value.subrange(j + 1, value.len() as int)
        },
        None => d.repo is None && d.version@ == value,
    }
}

impl Dependency {
    /// Parse a manifest entry.  The key must look like
    /// `name(publisher)`; a `@` in the value splits `repo@version`.
    pub fn from_key_value(key: &String, value: &String) -> (r: Result<Dependency, String>)
        ensures
            match r {
                Ok(d) => dep_matches(d, key@, value@),
                Err(_) => !dep_key_ok(key@),
            },
    {
        let ks = key.as_str();
        let klen = ks.unicode_len();
        let Some(i) = find_char_first(ks, '(') else {
            return Err("dependency keys must adhere to the pattern 'name(publisher)', but no '(' was found".to_owned());
        };
        if klen - i < 2 || ks.get_char(klen - 1) != ')' {
            return Err("dependency keys must adhere to the pattern 'name(publisher)', but the key does not end in ')'".to_owned());
        }
        let name = ks.substring_char(0, i).to_owned();
        let publisher = ks.substring_char(i + 1, klen - 1).to_owned();

        let vs = value.as_str();
        let vlen = vs.unicode_len();
        let (repo, version) = match find_char_last(vs, '@') {
            Some(j) => {
                let repo = vs.substring_char(0, j).to_owned();
                let version = vs.substring_char(j + 1, vlen).to_owned();
                (Some(repo), version)
            },
            None => (None, value.clone()),
        };

        Ok(Dependency { name, publisher, version, repo })
    }

    /// The unique basepath of the library: `name(publisher)`, version.
    pub fn basepath(&self) -> (r: IdPath)
        ensures
            r.deep_view() =~= seq![
                spec_basepath_head(self.name@, self.publisher@),
                self.version@,
            ],
    {
        let mut head = self.name.clone();
        head.append("(");
        head.append(self.publisher.as_str());
        head.append(")");
        let mut r: IdPath = Vec::new();
        r.push(head);
        r.push(self.version.clone());
        r
    }

    /// The directory of the library inside the local dependency cache
    /// rooted at `solar_path` (which ends in a separator).
    pub fn dir(&self, solar_path: &str) -> (r: String)
        ensures
            r@ == solar_path@ + "libraries/"@ + spec_basepath_head(self.name@, self.publisher@)
                + "/"@ + self.version@,
    {
        let mut r = solar_path.to_owned();
        r.append("libraries/");
        r.append(self.name.as_str());
        r.append("(");
        r.append(self.publisher.as_str());
        r.append(")");
        r.append("/");
        r.append(self.version.as_str());
        r
    }
}

/// The contents of a project manifest.
#[derive(Debug)]
pub struct SolarConfig {
    pub name: String,
    pub publisher: Option<String>,
    pub version: String,
    pub description: Option<String>,
    pub author: Option<String>,
    pub authors: Option<Vec<String>>,
    /// Dependency entries, in manifest order: key, value.
    pub dependencies: Option<Vec<(String, String)>>,
}

/// The author list that `authors` assembles.
pub open spec fn spec_authors_target(c: SolarConfig) -> Seq<Seq<char>> {
    (match c.author {
        Some(a) => seq![a@],
        None => Seq::<Seq<char>>::empty(),
    }) + (match c.authors {
        Some(v) => v.deep_view(),
        None => Seq::<Seq<char>>::empty(),
    })
}

impl SolarConfig {
    /// The basepath of this project when used as a library:
    /// `name(publisher)` (empty publisher when none), version.
    pub fn basepath(&self) -> (r: IdPath)
        ensures
            r.deep_view() =~= seq![
                spec_basepath_head(
                    self.name@,
                    match self.publisher {
                        Some(p) => p@,
                        None => Seq::<char>::empty(),
                    },
                ),
                self.version@,
            ],
    {
        let mut head = self.name.clone();
        head.append("(");
        match &self.publisher {
            Some(p) => head.append(p.as_str()),
            None => (),
        }
        head.append(")");
        proof {
            assert(Seq::<char>::empty().len() == 0);
        }
        let mut r: IdPath = Vec::new();
        r.push(head);
        r.push(self.version.clone());
        r
    }

    /// All authors: the single `author` entry first, then the list.
    pub fn authors(&self) -> (r: Vec<String>)
        ensures
            r.deep_view() =~= spec_authors_target(*self),
    {
        let mut v: Vec<String> = Vec::new();
        match &self.author {
            Some(a) => v.push(a.clone()),
            None => (),
        }
        let ghost v0 = v@;
        let ghost hl = v0.len();
        match &self.authors {
            Some(list) => {
                let n = list.len();
                let mut i: usize = 0;
                while i < n
                    invariant
                        n == list@.len(),
                        i <= n,
                        v@.len() == hl + i,
                        forall|j: int| 0 <= j < hl ==> #[trigger] v@[j] == v0[j],
                        forall|j: int| 0 <= j < i ==> #[trigger] v@[hl + j] == list@[j],
                    decreases n - i,
                {
                    v.push(list[i].clone());
                    i += 1;
                }
                proof {
                    let target = spec_authors_target(*self);
                    assert forall|k: int| 0 <= k < v@.len() implies v.deep_view()[k] == target[k] by {
                        assert(v.deep_view()[k] == v@[k]@);
                        if k < hl {
                            assert(v@[k] == v0[k]);
                        } else {
                            let j = k - hl;
                            assert(v@[hl + j] == list@[j]);
                            assert(list.deep_view()[j] == list@[j]@);
                        }
                    }
                    assert(v.deep_view() =~= target);
                }
                v
            },
            None => {
                proof {
                    let target = spec_authors_target(*self);
                    assert forall|k: int| 0 <= k < v@.len() implies v.deep_view()[k] == target[k] by {
                        assert(v.deep_view()[k] == v@[k]@);
                        assert(v@[k] == v0[k]);
                    }
                    assert(v.deep_view() =~= target);
                }
                v
            },
        }
    }

    /// Parse every dependency entry.  A malformed key makes the whole
    /// manifest unusable.
    pub fn deps(&self) -> (r: Result<Vec<Dependency>, String>)
        ensures
            match self.dependencies {
                None => r matches Ok(v) && v@.len() == 0,
                Some(ds) => match r {
                    Ok(v) => {
                        &&& v@.len() == ds@.len()
                        &&& forall|i: int|
                            0 <= i < v@.len() ==> dep_matches(#[trigger] v@[i], ds@[i].0@, ds@[i].1@)
                    },
                    Err(_) => exists|i: int| 0 <= i < ds@.len() && !dep_key_ok(#[trigger] ds@[i].0@),
                },
            },
    {
        let mut v: Vec<Dependency> = Vec::new();
        match &self.dependencies {
            None => Ok(v),
            Some(ds) => {
                let n = ds.len();
                let mut i: usize = 0;
                while i < n
                    invariant
                        self.dependencies is Some,
                        ds@ == self.dependencies->Some_0@,
                        n == ds@.len(),
                        i <= n,
                        v@.len() == i,
                        forall|j: int|
                            0 <= j < i ==> dep_matches(#[trigger] v@[j], ds@[j].0@, ds@[j].1@),
                    decreases n - i,
                {
                    let entry = &ds[i];
                    match Dependency::from_key_value(&entry.0, &entry.1) {
                        Ok(d) => v.push(d),
                        Err(e) => {
                            proof {
                                assert(!dep_key_ok(ds@[i as int].0@));
                            }
                            return Err(e);
                        },
                    }
                    i += 1;
                }
                Ok(v)
            },
        }
    }
}

/// Lookup in the dependency table, most recent entry first.
pub open spec fn depmap_lookup(
    entries: Seq<(Seq<char>, Seq<Seq<char>>)>,
    name: Seq<char>,
) -> Option<Seq<Seq<char>>>
    decreases entries.len(),
{
    if entries.len() == 0 {
        None
    } else if entries.last().0 == name {
        Some(entries.last().1)
    } else {
        depmap_lookup(entries.drop_last(), name)
    }
}

/// Table resolving the short name of a dependency to the basepath of
/// the library it denotes.  A name entered twice resolves to the most
/// recent entry.
#[derive(Debug)]
pub struct DepMap {
    entries: Vec<(String, IdPath)>,
}

impl DepMap {
    /// The entries, oldest first: short name and basepath.
    pub closed spec fn view(&self) -> Seq<(Seq<char>, Seq<Seq<char>>)> {
        Seq::new(self.entries@.len(), |i: int| (self.entries@[i].0@, self.entries@[i].1.deep_view()))
    }

    pub fn new() -> (r: DepMap)
        ensures
            r@ =~= Seq::<(Seq<char>, Seq<Seq<char>>)>::empty(),
    {
        DepMap { entries: Vec::new() }
    }

    /// Register a dependency under its short name.
    pub fn insert(&mut self, name: String, path: IdPath)
        ensures
            final(self)@ =~= old(self)@.push((name@, path.deep_view())),
    {
        self.entries.push((name, path));
    }

    /// The basepath registered for this short name, if any.
    pub fn get(&self, name: &String) -> (r: Option<&IdPath>)
        ensures
            match r {
                Some(p) => depmap_lookup(self@, name@) == Some(p.deep_view()),
                None => depmap_lookup(self@, name@) is None,
            },
    {
        let n = self.entries.len();
        proof {
            assert(self@.take(n as int) =~= self@);
        }
        let mut i: usize = n;
        while i > 0
            invariant
                n == self.entries@.len(),
                i <= n,
                depmap_lookup(self@, name@) == depmap_lookup(self@.take(i as int), name@),
            decreases i,
        {
            i -= 1;
            let e = &self.entries[i];
            proof {
                assert(self@.take(i + 1).last() == self@[i as int]);
                assert(self@.take(i + 1).drop_last() =~= self@.take(i as int));
            }
            if e.0 == *name {
                return Some(&e.1);
            }
        }
        proof {
            assert(self@.take(0) =~= Seq::<(Seq<char>, Seq<Seq<char>>)>::empty());
        }
        None
    }

    /// Number of entries in the table.
    pub fn len(&self) -> (r: usize)
        ensures
            r == self@.len(),
    {
        self.entries.len()
    }
}

} // verus!
