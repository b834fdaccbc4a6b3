use vstd::prelude::*;
use vstd::string::StrSliceExecFns;
use crate::model::KindV;
use crate::model::kind_seq_view;
use crate::model::kind_view;
use crate::model::lemma_kind_seq_view;
use crate::typ::Type;
use crate::model::TyV;

verus! {

broadcast use lemma_kind_seq_view, crate::model::lemma_ty_seq_view;

/// A capability tag attached to a type: `Nil` grants nothing, `Named` is
/// a capability family with sub-parameters, and `And` is a flattened,
/// sorted, deduplicated conjunction that never contains `Nil` or a
/// nested `And`.
#[derive(Debug)]
pub enum Kind {
    Nil,
    Named(String, Vec<Kind>),
    And(Vec<Kind>),
}

/// Rank of a kind's shape in the total order on kinds.
pub open spec fn kind_rank(k: KindV) -> int {
    match k {
        KindV::Nil => 0,
        KindV::Named(_, _) => 1,
        KindV::And(_) => 2,
    }
}

/// Total order on kind models: by shape, then field-wise.
pub open spec fn cmp_kind(a: KindV, b: KindV) -> int
    decreases a,
{
    if kind_rank(a) != kind_rank(b) {
        crate::order::cmp_int(kind_rank(a), kind_rank(b))
    } else {
        match (a, b) {
            (KindV::Named(an, aps), KindV::Named(bn, bps)) => {
                let c = crate::order::cmp_chars(an, bn);
                if c != 0 {
                    c
                } else {
                    cmp_kind_seq(aps, bps)
                }
            },
            (KindV::And(aks), KindV::And(bks)) => cmp_kind_seq(aks, bks),
            _ => 0,
        }
    }
}

/// Lexicographic extension of [`cmp_kind`] to sequences.
pub open spec fn cmp_kind_seq(a: Seq<KindV>, b: Seq<KindV>) -> int
    decreases a,
{
    if a.len() == 0 && b.len() == 0 {
        0
    } else if a.len() == 0 {
        -1
    } else if b.len() == 0 {
        1
    } else {
        let c = cmp_kind(a[0], b[0]);
        if c != 0 {
            c
        } else {
            cmp_kind_seq(a.drop_first(), b.drop_first())
        }
    }
}

/// A zero comparison of kinds is equality.
pub proof fn lemma_cmp_kind_eq(a: KindV, b: KindV)
    ensures
        cmp_kind(a, b) == 0 <==> a == b,
        -1 <= cmp_kind(a, b) <= 1,
    decreases a,
{
    if kind_rank(a) == kind_rank(b) {
        match (a, b) {
            (KindV::Named(an, aps), KindV::Named(bn, bps)) => {
                crate::order::lemma_cmp_chars_eq(an, bn);
                lemma_cmp_kind_seq_eq(aps, bps);
            },
            (KindV::And(aks), KindV::And(bks)) => {
                lemma_cmp_kind_seq_eq(aks, bks);
            },
            _ => {},
        }
    }
}

/// Sequence version of [`lemma_cmp_kind_eq`].
pub proof fn lemma_cmp_kind_seq_eq(a: Seq<KindV>, b: Seq<KindV>)
    ensures
        cmp_kind_seq(a, b) == 0 <==> a == b,
        -1 <= cmp_kind_seq(a, b) <= 1,
    decreases a,
{
    if a.len() == 0 && b.len() == 0 {
        assert(a =~= b);
    } else if a.len() != 0 && b.len() != 0 {
        lemma_cmp_kind_eq(a[0], b[0]);
        lemma_cmp_kind_seq_eq(a.drop_first(), b.drop_first());
        if cmp_kind_seq(a, b) == 0 {
            assert(a =~= b) by {
                assert(a[0] == b[0]);
                assert(a.drop_first() =~= b.drop_first());
                assert(forall|i: int|
                    1 <= i < a.len() ==> a[i] == a.drop_first()[i - 1]
                        && b[i] == b.drop_first()[i - 1]);
            }
        }
        if a == b {
            assert(a.drop_first() == b.drop_first());
        }
    }
}

/// Compares two kinds in the total order.
fn cmp_kind_exec(a: &Kind, b: &Kind) -> (r: i8)
    ensures
        r as int == cmp_kind(a@, b@),
    decreases a,
{
    match (a, b) {
        (Kind::Nil, Kind::Nil) => 0,
        (Kind::Nil, _) => -1,
        (_, Kind::Nil) => 1,
        (Kind::Named(an, aps), Kind::Named(bn, bps)) => {
            proof {
                assert(a@ == KindV::Named(an@, kind_seq_view(aps@)));
                assert(b@ == KindV::Named(bn@, kind_seq_view(bps@)));
            }
            let c = crate::order::cmp_str(an.as_str(), bn.as_str());
            if c != 0 {
                c
            } else {
                cmp_kind_list(aps, bps)
            }
        },
        (Kind::Named(_, _), Kind::And(_)) => -1,
        (Kind::And(_), Kind::Named(_, _)) => 1,
        (Kind::And(aks), Kind::And(bks)) => {
            proof {
                assert(a@ == KindV::And(kind_seq_view(aks@)));
                assert(b@ == KindV::And(kind_seq_view(bks@)));
            }
            cmp_kind_list(aks, bks)
        },
    }
}

/// Compares two lists of kinds lexicographically.
fn cmp_kind_list(a: &Vec<Kind>, b: &Vec<Kind>) -> (r: i8)
    ensures
        r as int == cmp_kind_seq(kind_seq_view(a@), kind_seq_view(b@)),
    decreases a,
{
    let an = a.len();
    let bn = b.len();
    let mut i: usize = 0;
    proof {
        assert(kind_seq_view(a@).skip(0) =~= kind_seq_view(a@));
        assert(kind_seq_view(b@).skip(0) =~= kind_seq_view(b@));
    }
    loop
        invariant
            0 <= i <= an,
            0 <= i <= bn,
            an == a@.len(),
            bn == b@.len(),
            cmp_kind_seq(kind_seq_view(a@), kind_seq_view(b@)) == cmp_kind_seq(
                kind_seq_view(a@).skip(i as int),
                kind_seq_view(b@).skip(i as int),
            ),
        decreases an - i,
    {
        proof {
            lemma_cmp_kind_seq_skip(kind_seq_view(a@), kind_seq_view(b@), i as int);
        }
        if i >= an && i >= bn {
            return 0;
        } else if i >= an {
            return -1;
        } else if i >= bn {
            return 1;
        }
        let c = cmp_kind_exec(&a[i], &b[i]);
        if c != 0 {
            return c;
        }
        proof {
            lemma_cmp_kind_eq(a@[i as int]@, b@[i as int]@);
        }
        i += 1;
        proof {
            lemma_cmp_kind_seq_skip(kind_seq_view(a@), kind_seq_view(b@), i as int);
        }
    }
}

/// Unfolds one step of [`cmp_kind_seq`] on suffixes.
proof fn lemma_cmp_kind_seq_skip(a: Seq<KindV>, b: Seq<KindV>, i: int)
    requires
        0 <= i <= a.len(),
        0 <= i <= b.len(),
    ensures
        i < a.len() && i < b.len() && cmp_kind(a[i], b[i]) == 0 ==> cmp_kind_seq(
            a.skip(i),
            b.skip(i),
        ) == cmp_kind_seq(a.skip(i + 1), b.skip(i + 1)),
        i == a.len() && i == b.len() ==> cmp_kind_seq(a.skip(i), b.skip(i)) == 0,
        i == a.len() && i < b.len() ==> cmp_kind_seq(a.skip(i), b.skip(i)) == -1,
        i < a.len() && i == b.len() ==> cmp_kind_seq(a.skip(i), b.skip(i)) == 1,
        i < a.len() && i < b.len() && cmp_kind(a[i], b[i]) != 0 ==> cmp_kind_seq(
            a.skip(i),
            b.skip(i),
        ) == cmp_kind(a[i], b[i]),
{
    if i < a.len() && i < b.len() {
        assert(a.skip(i)[0] == a[i]);
        assert(b.skip(i)[0] == b[i]);
        assert(a.skip(i).drop_first() =~= a.skip(i + 1));
        assert(b.skip(i).drop_first() =~= b.skip(i + 1));
    }
}

/// Checks two kinds for structural equality.
pub fn eq_kind(a: &Kind, b: &Kind) -> (r: bool)
    ensures
        r == (a@ == b@),
{
    proof {
        lemma_cmp_kind_eq(a@, b@);
    }
    cmp_kind_exec(a, b) == 0
}

/// The fully flattened members of a kind: nothing for `Nil`, the deep
/// members of a conjunction, or the kind itself.
pub open spec fn flatten_deep(k: KindV) -> Seq<KindV>
    decreases k,
{
    match k {
        KindV::Nil => Seq::empty(),
        KindV::And(ks) => flatten_deep_seq(ks),
        _ => seq![k],
    }
}

/// Concatenation of [`flatten_deep`] over a sequence of kinds.
pub open spec fn flatten_deep_seq(ks: Seq<KindV>) -> Seq<KindV>
    decreases ks,
{
    if ks.len() == 0 {
        Seq::empty()
    } else {
        flatten_deep_seq(ks.drop_last()) + flatten_deep(ks.last())
    }
}

/// Inserts a kind into a sorted sequence, from the back.
pub open spec fn insert_kind(s: Seq<KindV>, x: KindV) -> Seq<KindV>
    decreases s.len(),
{
    if s.len() == 0 {
        seq![x]
    } else if cmp_kind(x, s.last()) >= 0 {
        s.push(x)
    } else {
        insert_kind(s.drop_last(), x).push(s.last())
    }
}

/// Insertion sort of a sequence of kind models under [`cmp_kind`].
pub open spec fn sort_kinds(s: Seq<KindV>) -> Seq<KindV>
    decreases s.len(),
{
    if s.len() == 0 {
        s
    } else {
        insert_kind(sort_kinds(s.drop_last()), s.last())
    }
}

/// Removes adjacent duplicate kinds, keeping the first of each run.
pub open spec fn dedup_kinds(s: Seq<KindV>) -> Seq<KindV>
    decreases s.len(),
{
    if s.len() <= 1 {
        s
    } else if s.last() == s[s.len() - 2] {
        dedup_kinds(s.drop_last())
    } else {
        dedup_kinds(s.drop_last()).push(s.last())
    }
}

/// Model of [`Kind::and`]: members are flattened through nested
/// conjunctions (dropping `Nil`s), sorted and deduplicated, and zero or
/// one survivors collapse.
pub open spec fn kind_and_v(ks: Seq<KindV>) -> KindV {
    let s = dedup_kinds(sort_kinds(flatten_deep_seq(ks)));
    if s.len() == 0 {
        KindV::Nil
    } else if s.len() == 1 {
        s[0]
    } else {
        KindV::And(s)
    }
}

/// Model of [`Kind::flatten`]: the members of a conjunction, nothing for
/// `Nil`, and the kind itself otherwise.
pub open spec fn flatten_v(k: KindV) -> Seq<KindV> {
    match k {
        KindV::Nil => Seq::empty(),
        KindV::And(ks) => ks,
        _ => seq![k],
    }
}

/// Model of [`Kind::has`]: containment of capability tags. `Nil` is
/// implied by everything; otherwise every flattened component of `other`
/// must appear among the flattened components of `self`.
pub open spec fn has_v(a: KindV, b: KindV) -> bool {
    if b == KindV::Nil {
        true
    } else {
        forall|i: int|
            0 <= i < flatten_v(b).len() ==> flatten_v(a).contains(#[trigger] flatten_v(b)[i])
    }
}

/// Model of [`Kind::as_type`]: the structural image of a kind in the
/// type algebra.
pub open spec fn as_type_v(k: KindV) -> TyV
    decreases k,
{
    match k {
        KindV::Nil => TyV::Tuple(Seq::empty()),
        KindV::Named(kn, ks) => TyV::Named(kn, as_type_seq(ks)),
        KindV::And(ks) => TyV::And(as_type_seq(ks)),
    }
}

/// [`as_type_v`] applied to every element of a sequence.
pub open spec fn as_type_seq(ks: Seq<KindV>) -> Seq<TyV>
    decreases ks,
{
    if ks.len() == 0 {
        Seq::empty()
    } else {
        as_type_seq(ks.drop_last()).push(as_type_v(ks.last()))
    }
}

impl Clone for Kind {
    /// Deep copy preserving the model of the kind.
    fn clone(&self) -> (res: Self)
        ensures
            res@ == self@,
        decreases self,
    {
        match self {
            Kind::Nil => Kind::Nil,
            Kind::Named(n, ks) => {
                let r = Kind::Named(n.clone(), clone_kinds(ks));
                proof {
                    assert(r@ == KindV::Named(n@, kind_seq_view(ks@)));
                }
                r
            },
            Kind::And(ks) => {
                let r = Kind::And(clone_kinds(ks));
                proof {
                    assert(r@ == KindV::And(kind_seq_view(ks@)));
                }
                r
            },
        }
    }
}

/// Deep copy of a list of kinds, preserving each model.
pub fn clone_kinds(ks: &Vec<Kind>) -> (r: Vec<Kind>)
    ensures
        kind_seq_view(r@) == kind_seq_view(ks@),
    decreases ks,
{
    let mut out: Vec<Kind> = Vec::new();
    let n = ks.len();
    let mut i: usize = 0;
    while i < n
        invariant
            0 <= i <= n,
            n == ks@.len(),
            kind_seq_view(out@) =~= kind_seq_view(ks@).take(i as int),
        decreases n - i,
    {
        let e = ks[i].clone();
        out.push(e);
        proof {
            let pre = kind_seq_view(ks@).take(i as int);
            let cur = kind_view(ks@[i as int]);
            assert(kind_seq_view(out@) =~= pre.push(cur));
            assert(pre.push(cur) =~= kind_seq_view(ks@).take(i + 1));
        }
        i += 1;
    }
    proof {
        assert(kind_seq_view(ks@).take(n as int) =~= kind_seq_view(ks@));
    }
    out
}

impl Kind {
    /// Builds the normalized conjunction of the given kinds: members are
    /// flattened through nested conjunctions, `Nil`s dropped, the rest
    /// sorted and deduplicated, and zero or one survivors collapse to
    /// `Nil` or the single member.
    pub fn and(ks: Vec<Kind>) -> (r: Kind)
        ensures
            r@ == kind_and_v(kind_seq_view(ks@)),
    {
        let kept = flatten_deep_list(&ks);
        let sorted = sort_kinds_exec(kept);
        let mut dd = dedup_kinds_exec(sorted);
        if dd.len() == 0 {
            Kind::Nil
        } else if dd.len() == 1 {
            let x = dd.pop().unwrap();
            proof {
                assert(x@ == dedup_kinds(sort_kinds(flatten_deep_seq(kind_seq_view(ks@))))[0]);
            }
            x
        } else {
            let r = Kind::And(dd);
            proof {
                assert(r@ == KindV::And(dedup_kinds(sort_kinds(flatten_deep_seq(
                    kind_seq_view(ks@),
                )))));
            }
            r
        }
    }

    /// Containment of capability tags: `Nil` is trivially implied, and
    /// otherwise every flattened component of `other` must appear among
    /// the flattened components of `self`.
    pub fn has(&self, other: &Kind) -> (r: bool)
        ensures
            r == has_v(self@, other@),
    {
        if let Kind::Nil = other {
            return true;
        }
        proof {
            assert(other@ != KindV::Nil);
        }
        let ls = self.flatten();
        let rs = other.flatten();
        let rn = rs.len();
        let mut i: usize = 0;
        while i < rn
            invariant
                0 <= i <= rn,
                rn == rs@.len(),
                kind_seq_view(ls@) == flatten_v(self@),
                kind_seq_view(rs@) == flatten_v(other@),
                forall|j: int|
                    0 <= j < i ==> flatten_v(self@).contains(
                        #[trigger] flatten_v(other@)[j],
                    ),
            decreases rn - i,
        {
            let mut found = false;
            let ln = ls.len();
            let mut j: usize = 0;
            while j < ln
                invariant
                    0 <= j <= ln,
                    ln == ls@.len(),
                    rn == rs@.len(),
                    i < rn,
                    kind_seq_view(ls@) == flatten_v(self@),
                    kind_seq_view(rs@) == flatten_v(other@),
                    found ==> flatten_v(self@).contains(flatten_v(other@)[i as int]),
                    !found ==> forall|l: int|
                        0 <= l < j ==> flatten_v(self@)[l] != flatten_v(other@)[i as int],
                decreases ln - j,
            {
                if !found && eq_kind(&ls[j], &rs[i]) {
                    found = true;
                    proof {
                        assert(flatten_v(self@)[j as int] == flatten_v(other@)[i as int]);
                    }
                }
                j += 1;
            }
            if !found {
                proof {
                    assert(!flatten_v(self@).contains(flatten_v(other@)[i as int])) by {
                        if flatten_v(self@).contains(flatten_v(other@)[i as int]) {
                            let l = choose|l: int|
                                0 <= l < flatten_v(self@).len() && flatten_v(self@)[l]
                                    == flatten_v(other@)[i as int];
                            assert(flatten_v(self@)[l] != flatten_v(other@)[i as int]);
                        }
                    }
                }
                return false;
            }
            i += 1;
        }
        true
    }

    /// The flattened component list of a kind: empty for `Nil`, the
    /// members of a conjunction, or the kind itself.
    pub fn flatten(&self) -> (r: Vec<Kind>)
        ensures
            kind_seq_view(r@) == flatten_v(self@),
    {
        match self {
            Kind::Nil => {
                let v: Vec<Kind> = Vec::new();
                proof {
                    assert(kind_seq_view(v@) =~= Seq::<KindV>::empty());
                }
                v
            },
            Kind::And(ks) => {
                proof {
                    assert(self@ == KindV::And(kind_seq_view(ks@)));
                }
                clone_kinds(ks)
            },
            _ => {
                let mut v: Vec<Kind> = Vec::new();
                v.push(self.clone());
                proof {
                    assert(kind_seq_view(v@) =~= seq![self@]);
                }
                v
            },
        }
    }

    /// The first flattened member of a conjunction, or the kind itself;
    /// used where only one capability is expected.
    pub fn first(&self) -> (r: Kind)
        requires
            self@ matches KindV::And(ks) ==> ks.len() > 0,
        ensures
            r@ == match self@ {
                KindV::And(ks) => ks[0],
                k => k,
            },
    {
        match self {
            Kind::And(ks) => {
                proof {
                    assert(self@ == KindV::And(kind_seq_view(ks@)));
                }
                ks[0].clone()
            },
            _ => self.clone(),
        }
    }

    /// The structural image of a kind in the type algebra: `Nil` becomes
    /// the unit tuple, a `Named` kind a `Named` type, a conjunction a
    /// conjunction.
    pub fn as_type(&self) -> (r: Type)
        ensures
            r@ == as_type_v(self@),
        decreases self,
    {
        match self {
            Kind::Nil => {
                let v: Vec<Type> = Vec::new();
                proof {
                    assert(crate::model::ty_seq_view(v@) =~= Seq::<TyV>::empty());
                }
                Type::Tuple(v)
            },
            Kind::Named(kn, ks) => {
                proof {
                    assert(self@ == KindV::Named(kn@, kind_seq_view(ks@)));
                }
                let r = Type::Named(kn.clone(), as_type_list(ks));
                proof {
                    assert(r@ == TyV::Named(kn@, as_type_seq(kind_seq_view(ks@))));
                }
                r
            },
            Kind::And(ks) => {
                proof {
                    assert(self@ == KindV::And(kind_seq_view(ks@)));
                }
                let r = Type::And(as_type_list(ks));
                proof {
                    assert(r@ == TyV::And(as_type_seq(kind_seq_view(ks@))));
                }
                r
            },
        }
    }
}

/// Converts every kind of a list into its type image.
fn as_type_list(ks: &Vec<Kind>) -> (r: Vec<Type>)
    ensures
        crate::model::ty_seq_view(r@) == as_type_seq(kind_seq_view(ks@)),
    decreases ks,
{
    let mut out: Vec<Type> = Vec::new();
    let n = ks.len();
    let mut i: usize = 0;
    while i < n
        invariant
            0 <= i <= n,
            n == ks@.len(),
            crate::model::ty_seq_view(out@) =~= as_type_seq(kind_seq_view(ks@).take(i as int)),
        decreases n - i,
    {
        let ghost pre = kind_seq_view(ks@).take(i as int);
        let ghost cur = kind_view(ks@[i as int]);
        let m = ks[i].as_type();
        let ghost prev = crate::model::ty_seq_view(out@);
        out.push(m);
        proof {
            assert(crate::model::ty_seq_view(out@) =~= prev.push(as_type_v(cur)));
            assert(pre.push(cur) =~= kind_seq_view(ks@).take(i + 1));
            assert(pre.push(cur).drop_last() =~= pre);
        }
        i += 1;
    }
    proof {
        assert(kind_seq_view(ks@).take(n as int) =~= kind_seq_view(ks@));
    }
    out
}

/// Collects the fully flattened members of a kind.
fn flatten_deep_exec(k: &Kind) -> (r: Vec<Kind>)
    ensures
        kind_seq_view(r@) == flatten_deep(k@),
    decreases k,
{
    match k {
        Kind::Nil => {
            let v: Vec<Kind> = Vec::new();
            proof {
                assert(kind_seq_view(v@) =~= Seq::<KindV>::empty());
            }
            v
        },
        Kind::And(ks) => {
            proof {
                assert(k@ == KindV::And(kind_seq_view(ks@)));
            }
            flatten_deep_list(ks)
        },
        _ => {
            let mut v: Vec<Kind> = Vec::new();
            v.push(k.clone());
            proof {
                assert(kind_seq_view(v@) =~= seq![k@]);
            }
            v
        },
    }
}

/// Concatenates the fully flattened members of a list of kinds.
fn flatten_deep_list(ks: &Vec<Kind>) -> (r: Vec<Kind>)
    ensures
        kind_seq_view(r@) == flatten_deep_seq(kind_seq_view(ks@)),
    decreases ks,
{
    let mut out: Vec<Kind> = Vec::new();
    let n = ks.len();
    let mut i: usize = 0;
    while i < n
        invariant
            0 <= i <= n,
            n == ks@.len(),
            kind_seq_view(out@) =~= flatten_deep_seq(kind_seq_view(ks@).take(i as int)),
        decreases n - i,
    {
        let ghost pre = kind_seq_view(ks@).take(i as int);
        let ghost cur = kind_view(ks@[i as int]);
        let mut piece = flatten_deep_exec(&ks[i]);
        let ghost out0 = out@;
        let ghost p0 = piece@;
        out.append(&mut piece);
        proof {
            lemma_kind_seq_view_concat(out0, p0);
            assert(pre.push(cur) =~= kind_seq_view(ks@).take(i + 1));
            assert(pre.push(cur).drop_last() =~= pre);
        }
        i += 1;
    }
    proof {
        assert(kind_seq_view(ks@).take(n as int) =~= kind_seq_view(ks@));
    }
    out
}

/// The view of a concatenation of two kind lists is the concatenation
/// of their views.
proof fn lemma_kind_seq_view_concat(w1: Seq<Kind>, w2: Seq<Kind>)
    ensures
        kind_seq_view(w1 + w2) == kind_seq_view(w1) + kind_seq_view(w2),
    decreases w2.len(),
{
    if w2.len() == 0 {
        assert(w1 + w2 =~= w1);
        assert(kind_seq_view(w1) + kind_seq_view(w2) =~= kind_seq_view(w1));
    } else {
        assert((w1 + w2).drop_last() =~= w1 + w2.drop_last());
        lemma_kind_seq_view_concat(w1, w2.drop_last());
        assert((w1 + w2).last() == w2.last());
        assert(kind_seq_view(w1 + w2) =~= kind_seq_view(w1) + kind_seq_view(w2));
    }
}

/// Inserts a kind into a vector sorted under [`cmp_kind`].
fn insert_kind_exec(v: Vec<Kind>, x: Kind) -> (r: Vec<Kind>)
    ensures
        kind_seq_view(r@) == insert_kind(kind_seq_view(v@), kind_view(x)),
    decreases v.len(),
{
    let ghost sv = kind_seq_view(v@);
    let mut v = v;
    if v.len() == 0 {
        v.push(x);
        proof {
            assert(kind_seq_view(v@) =~= insert_kind(sv, kind_view(x)));
        }
        v
    } else {
        proof {
            assert(sv.last() == kind_view(v@.last()));
        }
        let c = {
            let n = v.len();
            cmp_kind_exec(&x, &v[n - 1])
        };
        if c >= 0 {
            v.push(x);
            proof {
                assert(kind_seq_view(v@) =~= sv.push(kind_view(x)));
            }
            v
        } else {
            let last = v.pop().unwrap();
            proof {
                assert(kind_seq_view(v@) =~= sv.drop_last());
            }
            let mut r = insert_kind_exec(v, x);
            r.push(last);
            proof {
                assert(kind_seq_view(r@) =~= insert_kind(sv.drop_last(), kind_view(x)).push(
                    sv.last(),
                ));
            }
            r
        }
    }
}

/// Sorts a vector of kinds under [`cmp_kind`] by insertion sort.
fn sort_kinds_exec(v: Vec<Kind>) -> (r: Vec<Kind>)
    ensures
        kind_seq_view(r@) == sort_kinds(kind_seq_view(v@)),
    decreases v.len(),
{
    let ghost sv = kind_seq_view(v@);
    let mut v = v;
    if v.len() == 0 {
        v
    } else {
        let last = v.pop().unwrap();
        proof {
            assert(kind_seq_view(v@) =~= sv.drop_last());
            assert(sv.last() == kind_view(last));
        }
        let rest = sort_kinds_exec(v);
        insert_kind_exec(rest, last)
    }
}

/// Removes adjacent duplicate kinds, keeping the first of each run.
fn dedup_kinds_exec(v: Vec<Kind>) -> (r: Vec<Kind>)
    ensures
        kind_seq_view(r@) == dedup_kinds(kind_seq_view(v@)),
    decreases v.len(),
{
    let ghost sv = kind_seq_view(v@);
    let mut v = v;
    if v.len() <= 1 {
        v
    } else {
        let n = v.len();
        proof {
            assert(sv.last() == kind_view(v@.last()));
            assert(sv[sv.len() - 2] == kind_view(v@[v@.len() - 2]));
        }
        let same = eq_kind(&v[n - 1], &v[n - 2]);
        let last = v.pop().unwrap();
        proof {
            assert(kind_seq_view(v@) =~= sv.drop_last());
        }
        if same {
            dedup_kinds_exec(v)
        } else {
            let mut r = dedup_kinds_exec(v);
            r.push(last);
            proof {
                assert(kind_seq_view(r@) =~= dedup_kinds(sv.drop_last()).push(sv.last()));
            }
            r
        }
    }
}

/// Kind containment is reflexive: every kind has itself, and every kind
/// has `Nil`.
pub proof fn lemma_kind_has_reflexive(k: KindV)
    ensures
        has_v(k, k),
        has_v(k, KindV::Nil),
{
    if k != KindV::Nil {
        assert forall|i: int| 0 <= i < flatten_v(k).len() implies flatten_v(k).contains(
            #[trigger] flatten_v(k)[i],
        ) by {
        }
    }
}


impl PartialEq for Kind {
    /// Structural equality of kinds.
    fn eq(&self, other: &Kind) -> (r: bool) {
        eq_kind(self, other)
    }
}

impl vstd::std_specs::cmp::PartialEqSpecImpl for Kind {
    open spec fn obeys_eq_spec() -> bool {
        true
    }

    open spec fn eq_spec(&self, other: &Kind) -> bool {
        self@ == other@
    }
}

} // verus!
