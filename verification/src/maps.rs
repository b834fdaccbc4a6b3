use vstd::prelude::*;
use crate::model::KindV;
use crate::model::TyV;
use crate::typ::Type;

verus! {

/// A mapping from types to types, used to carry the substitutions that the
/// implication unifier collects. Later insertions override earlier ones.
pub struct TypeMap {
    entries: Vec<(Type, Type)>,
}

/// The mathematical map an entry list stands for: later entries win.
pub open spec fn assoc_map(entries: Seq<(Type, Type)>) -> Map<TyV, TyV>
    decreases entries,
{
    if entries.len() == 0 {
        Map::empty()
    } else {
        assoc_map(entries.drop_last()).insert(entries.last().0@, entries.last().1@)
    }
}

impl View for TypeMap {
    type V = Map<TyV, TyV>;

    closed spec fn view(&self) -> Map<TyV, TyV> {
        assoc_map(self.entries@)
    }
}

impl TypeMap {
    /// The empty substitution.
    pub fn new() -> (r: TypeMap)
        ensures
            r@ == Map::<TyV, TyV>::empty(),
    {
        TypeMap { entries: Vec::new() }
    }

    /// Binds `k` to `v`, overriding any earlier binding of `k`.
    pub fn insert(&mut self, k: Type, v: Type)
        ensures
            final(self)@ == old(self)@.insert(k@, v@),
    {
        let ghost pre = self.entries@;
        self.entries.push((k, v));
        proof {
            assert(self.entries@.drop_last() =~= pre);
        }
    }

    /// Looks up the binding of `k`, if any.
    pub fn get(&self, k: &Type) -> (r: Option<&Type>)
        ensures
            match r {
                Some(v) => self@.contains_key(k@) && self@[k@] == v@,
                None => !self@.contains_key(k@),
            },
    {
        let n = self.entries.len();
        let mut i: usize = n;
        while i > 0
            invariant
                0 <= i <= n,
                n == self.entries@.len(),
                forall|j: int| i <= j < n ==> (#[trigger] self.entries@[j]).0@ != k@,
            decreases i,
        {
            let e = &self.entries[i - 1];
            if crate::order::eq_type(&e.0, k) {
                proof {
                    let pre = self.entries@.take(i as int);
                    assert(pre.last().0@ == k@);
                    lemma_assoc_mem(pre, k@);
                    lemma_assoc_absent_suffix(self.entries@, i as int, k@);
                }
                return Some(&e.1);
            }
            i -= 1;
        }
        proof {
            lemma_assoc_absent_suffix(self.entries@, 0, k@);
            assert(self.entries@.take(0) =~= Seq::<(Type, Type)>::empty());
        }
        None
    }
}

/// When no entry from index `i` on binds `k`, the full map agrees with the
/// map of the prefix before `i` at key `k`.
proof fn lemma_assoc_absent_suffix(entries: Seq<(Type, Type)>, i: int, k: TyV)
    requires
        0 <= i <= entries.len(),
        forall|j: int| i <= j < entries.len() ==> (#[trigger] entries[j]).0@ != k,
    ensures
        assoc_map(entries).contains_key(k) == assoc_map(entries.take(i)).contains_key(k),
        assoc_map(entries).contains_key(k) ==> assoc_map(entries)[k] == assoc_map(entries.take(i))[k],
    decreases entries.len() - i,
{
    if i < entries.len() {
        let dl = entries.drop_last();
        assert(entries.last().0@ != k);
        assert(forall|j: int| i <= j < dl.len() ==> (#[trigger] dl[j]).0@ != k);
        lemma_assoc_absent_suffix(dl, i, k);
        assert(dl.take(i) =~= entries.take(i));
    } else {
        assert(entries.take(i) =~= entries);
    }
}

/// The map of a nonempty entry list whose last entry binds `k`.
proof fn lemma_assoc_mem(entries: Seq<(Type, Type)>, k: TyV)
    requires
        entries.len() > 0,
        entries.last().0@ == k,
    ensures
        assoc_map(entries).contains_key(k),
        assoc_map(entries)[k] == entries.last().1@,
{
}


/// A mapping from types to kinds: the externally populated table that
/// assigns capability tags to refined types.
pub struct KindMap {
    entries: Vec<(Type, crate::kind::Kind)>,
}

/// The mathematical map an entry list stands for: later entries win.
pub open spec fn kind_assoc_map(entries: Seq<(Type, crate::kind::Kind)>) -> Map<TyV, KindV>
    decreases entries,
{
    if entries.len() == 0 {
        Map::empty()
    } else {
        kind_assoc_map(entries.drop_last()).insert(entries.last().0@, entries.last().1@)
    }
}

impl View for KindMap {
    type V = Map<TyV, KindV>;

    closed spec fn view(&self) -> Map<TyV, KindV> {
        kind_assoc_map(self.entries@)
    }
}

impl KindMap {
    /// The empty table.
    pub fn new() -> (r: KindMap)
        ensures
            r@ == Map::<TyV, KindV>::empty(),
    {
        KindMap { entries: Vec::new() }
    }

    /// Assigns kind `v` to type `k`, overriding any earlier assignment.
    pub fn insert(&mut self, k: Type, v: crate::kind::Kind)
        ensures
            final(self)@ == old(self)@.insert(k@, v@),
    {
        let ghost pre = self.entries@;
        self.entries.push((k, v));
        proof {
            assert(self.entries@.drop_last() =~= pre);
        }
    }

    /// Looks up the kind assigned to `k`, if any.
    pub fn get(&self, k: &Type) -> (r: Option<&crate::kind::Kind>)
        ensures
            match r {
                Some(v) => self@.contains_key(k@) && self@[k@] == v@,
                None => !self@.contains_key(k@),
            },
    {
        let n = self.entries.len();
        let mut i: usize = n;
        while i > 0
            invariant
                0 <= i <= n,
                n == self.entries@.len(),
                forall|j: int| i <= j < n ==> (#[trigger] self.entries@[j]).0@ != k@,
            decreases i,
        {
            let e = &self.entries[i - 1];
            if crate::order::eq_type(&e.0, k) {
                proof {
                    let pre = self.entries@.take(i as int);
                    assert(pre.last().0@ == k@);
                    lemma_kind_assoc_mem(pre, k@);
                    lemma_kind_assoc_absent_suffix(self.entries@, i as int, k@);
                }
                return Some(&e.1);
            }
            i -= 1;
        }
        proof {
            lemma_kind_assoc_absent_suffix(self.entries@, 0, k@);
            assert(self.entries@.take(0) =~= Seq::<(Type, crate::kind::Kind)>::empty());
        }
        None
    }
}

/// When no entry from index `i` on binds `k`, the full table agrees with
/// the table of the prefix before `i` at key `k`.
proof fn lemma_kind_assoc_absent_suffix(entries: Seq<(Type, crate::kind::Kind)>, i: int, k: TyV)
    requires
        0 <= i <= entries.len(),
        forall|j: int| i <= j < entries.len() ==> (#[trigger] entries[j]).0@ != k,
    ensures
        kind_assoc_map(entries).contains_key(k) == kind_assoc_map(entries.take(i)).contains_key(k),
        kind_assoc_map(entries).contains_key(k) ==> kind_assoc_map(entries)[k] == kind_assoc_map(
            entries.take(i),
        )[k],
    decreases entries.len() - i,
{
    if i < entries.len() {
        let dl = entries.drop_last();
        assert(entries.last().0@ != k);
        assert(forall|j: int| i <= j < dl.len() ==> (#[trigger] dl[j]).0@ != k);
        lemma_kind_assoc_absent_suffix(dl, i, k);
        assert(dl.take(i) =~= entries.take(i));
    } else {
        assert(entries.take(i) =~= entries);
    }
}

/// The table of a nonempty entry list whose last entry binds `k`.
proof fn lemma_kind_assoc_mem(entries: Seq<(Type, crate::kind::Kind)>, k: TyV)
    requires
        entries.len() > 0,
        entries.last().0@ == k,
    ensures
        kind_assoc_map(entries).contains_key(k),
        kind_assoc_map(entries)[k] == entries.last().1@,
{
}

} // verus!
