//! The memoizing function store: a map from static symbol id to a
//! compiled function record, in which the position of an entry is its
//! `FunctionId`.  A slot is first reserved as `Partial` so recursive
//! calls can refer to a function while its body is still being
//! compiled, and is completed exactly once.

use vstd::prelude::*;
use crate::id::{ssid_eq, ssid_view, IdItem, TypeId, SSID};
use crate::mir::StaticExpression;

verus! {

/// One record of the function store.
#[derive(Debug)]
pub enum FunctionInfo {
    /// A reserved slot: the function exists but its body is still
    /// being compiled.  The argument types of the specialization and
    /// the declared return type, when the source gives one, are known
    /// from the reservation on.
    Partial { args: Vec<TypeId>, ret: Option<TypeId> },
    /// A fully compiled specialization; the type of the body is the
    /// return type.
    Complete { args: Vec<TypeId>, body: StaticExpression },
}

pub open spec fn info_args(i: FunctionInfo) -> Seq<TypeId> {
    match i {
        FunctionInfo::Partial { args, .. } => args@,
        FunctionInfo::Complete { args, .. } => args@,
    }
}

/// The return type promised by a record: the declared type of a
/// partial slot, the type of the body once complete.
pub open spec fn info_ret(i: FunctionInfo) -> Option<TypeId> {
    match i {
        FunctionInfo::Partial { ret, .. } => ret,
        FunctionInfo::Complete { body, .. } => Some(body.ty),
    }
}

pub open spec fn is_partial(i: FunctionInfo) -> bool {
    i is Partial
}

pub open spec fn is_complete(i: FunctionInfo) -> bool {
    i is Complete
}

/// First entry stored under this key.
pub open spec fn fs_find(
    s: Seq<(((Seq<Seq<char>>, u16, IdItem), Seq<TypeId>), FunctionInfo)>,
    key: ((Seq<Seq<char>>, u16, IdItem), Seq<TypeId>),
) -> Option<int>
    decreases s.len(),
{
    if s.len() == 0 {
        None
    } else if s[0].0 == key {
        Some(0int)
    } else {
        match fs_find(s.drop_first(), key) {
            Some(i) => Some(i + 1),
            None => None,
        }
    }
}

proof fn lemma_fs_find(
    s: Seq<(((Seq<Seq<char>>, u16, IdItem), Seq<TypeId>), FunctionInfo)>,
    key: ((Seq<Seq<char>>, u16, IdItem), Seq<TypeId>),
    i: int,
)
    requires
        0 <= i <= s.len(),
        forall|j: int| 0 <= j < i ==> (#[trigger] s[j]).0 != key,
        i < s.len() ==> s[i].0 == key,
    ensures
        i == s.len() ==> fs_find(s, key) is None,
        i < s.len() ==> fs_find(s, key) == Some(i),
    decreases s.len(),
{
    if s.len() == 0 {
    } else if s[0].0 == key {
        assert(i == 0);
    } else {
        assert(i >= 1);
        let t = s.drop_first();
        assert(forall|j: int| 0 <= j < i - 1 ==> (#[trigger] t[j]).0 != key);
        lemma_fs_find(t, key, i - 1);
    }
}

/// Container holding every compiled (or reserved) specialization.
#[derive(Debug)]
pub struct FunctionStore {
    entries: Vec<(SSID, FunctionInfo)>,
}

impl FunctionStore {
    /// The entries in insertion order: key and record.  The position
    /// of an entry is its `FunctionId`.
    pub closed spec fn view(&self) -> Seq<(((Seq<Seq<char>>, u16, IdItem), Seq<TypeId>), FunctionInfo)> {
        Seq::new(self.entries@.len(), |i: int| (ssid_view(self.entries@[i].0), self.entries@[i].1))
    }

    pub fn new() -> (r: FunctionStore)
        ensures
            r@ =~= Seq::<(((Seq<Seq<char>>, u16, IdItem), Seq<TypeId>), FunctionInfo)>::empty(),
    {
        FunctionStore { entries: Vec::new() }
    }

    pub fn len(&self) -> (r: usize)
        ensures
            r == self@.len(),
    {
        self.entries.len()
    }

    /// The record stored under this key, with its `FunctionId`.
    pub fn get_by_key(&self, key: &SSID) -> (r: Option<(usize, &FunctionInfo)>)
        ensures
            match r {
                Some(p) => p.0 < self@.len() && fs_find(self@, ssid_view(*key)) == Some(p.0 as int)
                    && *p.1 == self@[p.0 as int].1,
                None => fs_find(self@, ssid_view(*key)) is None,
            },
    {
        let n = self.entries.len();
        let mut i: usize = 0;
        while i < n
            invariant
                n == self.entries@.len(),
                i <= n,
                forall|j: int| 0 <= j < i ==> (#[trigger] self@[j]).0 != ssid_view(*key),
            decreases n - i,
        {
            if ssid_eq(&self.entries[i].0, key) {
                proof {
                    lemma_fs_find(self@, ssid_view(*key), i as int);
                }
                return Some((i, &self.entries[i].1));
            }
            i += 1;
        }
        proof {
            lemma_fs_find(self@, ssid_view(*key), n as int);
        }
        None
    }

    /// The record with the given `FunctionId`.
    pub fn get_by_index(&self, i: usize) -> (r: Option<&FunctionInfo>)
        ensures
            match r {
                Some(info) => i < self@.len() && *info == self@[i as int].1,
                None => i >= self@.len(),
            },
    {
        if i < self.entries.len() {
            Some(&self.entries[i].1)
        } else {
            None
        }
    }

    /// Reserve a slot for a specialization that is about to be
    /// compiled, recording its argument types and its declared return
    /// type.  The position of the slot is its `FunctionId`.
    pub fn reserve(&mut self, key: SSID, args: Vec<TypeId>, ret: Option<TypeId>) -> (r: usize)
        ensures
            r == old(self)@.len(),
            final(self)@ =~= old(self)@.push(
                (ssid_view(key), FunctionInfo::Partial { args, ret }),
            ),
    {
        let ghost gk = key;
        let ghost ga = args;
        let r = self.entries.len();
        self.entries.push((key, FunctionInfo::Partial { args, ret }));
        proof {
            assert(final(self)@ =~= old(self)@.push(
                (ssid_view(gk), FunctionInfo::Partial { args: ga, ret }),
            ));
        }
        r
    }

    /// Fill a reserved slot with the compiled body.  The argument
    /// types must repeat the reservation, and the type of the body
    /// must honour a declared return type.
    pub fn update_complete_function(&mut self, index: usize, args: Vec<TypeId>, body: StaticExpression)
        requires
            index < old(self)@.len(),
            is_partial(old(self)@[index as int].1),
            info_args(old(self)@[index as int].1) == args@,
            info_ret(old(self)@[index as int].1) matches Some(t) ==> t == body.ty,
        ensures
            final(self)@.len() == old(self)@.len(),
            forall|j: int|
                0 <= j < old(self)@.len() && j != index ==> final(self)@[j] == old(self)@[j],
            final(self)@[index as int].0 == old(self)@[index as int].0,
            final(self)@[index as int].1 == (FunctionInfo::Complete { args, body }),
    {
        let ghost ga = args;
        let ghost gb = body;
        self.entries[index].1 = FunctionInfo::Complete { args, body };
        proof {
            assert(final(self)@[index as int].1 == (FunctionInfo::Complete { args: ga, body: gb }));
        }
    }
}


/// What a find result says about the entries.
pub proof fn lemma_fs_find_props(
    s: Seq<(((Seq<Seq<char>>, u16, IdItem), Seq<TypeId>), FunctionInfo)>,
    key: ((Seq<Seq<char>>, u16, IdItem), Seq<TypeId>),
)
    ensures
        fs_find(s, key) matches Some(i) ==> 0 <= i < s.len() && s[i].0 == key && (forall|j: int|
            0 <= j < i ==> (#[trigger] s[j]).0 != key),
        fs_find(s, key) is None ==> forall|j: int| 0 <= j < s.len() ==> (#[trigger] s[j]).0 != key,
    decreases s.len(),
{
    if s.len() > 0 && s[0].0 != key {
        lemma_fs_find_props(s.drop_first(), key);
        match fs_find(s.drop_first(), key) {
            Some(i) => {
                assert forall|j: int| 0 <= j < i + 1 implies (#[trigger] s[j]).0 != key by {
                    if j > 0 {
                        assert(s.drop_first()[j - 1].0 != key);
                    }
                }
            },
            None => {
                assert forall|j: int| 0 <= j < s.len() implies (#[trigger] s[j]).0 != key by {
                    if j > 0 {
                        assert(s.drop_first()[j - 1].0 != key);
                    }
                }
            },
        }
    }
}

/// A find succeeds exactly where a matching prefix position exists.
pub proof fn lemma_fs_find_at(
    s: Seq<(((Seq<Seq<char>>, u16, IdItem), Seq<TypeId>), FunctionInfo)>,
    key: ((Seq<Seq<char>>, u16, IdItem), Seq<TypeId>),
    i: int,
)
    requires
        0 <= i < s.len(),
        s[i].0 == key,
        forall|j: int| 0 <= j < i ==> (#[trigger] s[j]).0 != key,
    ensures
        fs_find(s, key) == Some(i),
    decreases s.len(),
{
    if s[0].0 == key {
        assert(i == 0);
    } else {
        assert(i >= 1);
        let t = s.drop_first();
        assert(forall|j: int| 0 <= j < i - 1 ==> (#[trigger] t[j]).0 != key);
        lemma_fs_find_at(t, key, i - 1);
    }
}

} // verus!
