use vstd::prelude::*;
use vstd::string::StrSliceExecFns;
use crate::model::TyV;
use crate::model::lemma_ty_seq_view;
use crate::model::ty_seq_view;
use crate::model::ty_view;
use crate::typ::Type;

verus! {

broadcast use lemma_ty_seq_view;

/// Rank of a type's shape, giving the primary key of the total order on
/// types: shapes are ordered by declaration order of the constructors.
pub open spec fn rank_v(t: TyV) -> int {
    match t {
        TyV::Any => 0,
        TyV::Named(_, _) => 1,
        TyV::And(_) => 2,
        TyV::Arrow(_, _) => 3,
        TyV::Tuple(_) => 4,
        TyV::Product(_) => 5,
        TyV::Ratio(_, _) => 6,
        TyV::Constant(_, _) => 7,
    }
}

/// Three-way lexicographic comparison of character sequences by code point.
pub open spec fn cmp_chars(a: Seq<char>, b: Seq<char>) -> int
    decreases a.len(),
{
    if a.len() == 0 && b.len() == 0 {
        0
    } else if a.len() == 0 {
        -1
    } else if b.len() == 0 {
        1
    } else if a[0] < b[0] {
        -1
    } else if b[0] < a[0] {
        1
    } else {
        cmp_chars(a.drop_first(), b.drop_first())
    }
}

/// Three-way comparison of two booleans, `false` before `true`.
pub open spec fn cmp_bool(a: bool, b: bool) -> int {
    if a == b {
        0
    } else if b {
        -1
    } else {
        1
    }
}

/// Three-way comparison of two integers.
pub open spec fn cmp_int(a: int, b: int) -> int {
    if a < b {
        -1
    } else if b < a {
        1
    } else {
        0
    }
}

/// Total order on type models: by shape rank first, then field-wise
/// lexicographically within a shape.
pub open spec fn cmp_ty(a: TyV, b: TyV) -> int
    decreases a,
{
    if rank_v(a) != rank_v(b) {
        cmp_int(rank_v(a), rank_v(b))
    } else {
        match (a, b) {
            (TyV::Any, TyV::Any) => 0,
            (TyV::Named(an, aps), TyV::Named(bn, bps)) => {
                let c = cmp_chars(an, bn);
                if c != 0 {
                    c
                } else {
                    cmp_ty_seq(aps, bps)
                }
            },
            (TyV::And(ats), TyV::And(bts)) => cmp_ty_seq(ats, bts),
            (TyV::Arrow(ap, ab), TyV::Arrow(bp, bb)) => {
                let c = cmp_ty(*ap, *bp);
                if c != 0 {
                    c
                } else {
                    cmp_ty(*ab, *bb)
                }
            },
            (TyV::Tuple(ats), TyV::Tuple(bts)) => cmp_ty_seq(ats, bts),
            (TyV::Product(ats), TyV::Product(bts)) => cmp_ty_seq(ats, bts),
            (TyV::Ratio(ap, ab), TyV::Ratio(bp, bb)) => {
                let c = cmp_ty(*ap, *bp);
                if c != 0 {
                    c
                } else {
                    cmp_ty(*ab, *bb)
                }
            },
            (TyV::Constant(av, ac), TyV::Constant(bv, bc)) => {
                let c = cmp_bool(av, bv);
                if c != 0 {
                    c
                } else {
                    cmp_int(ac, bc)
                }
            },
            _ => 0,
        }
    }
}

/// Lexicographic extension of [`cmp_ty`] to sequences: element-wise, a
/// proper prefix ordering before its extensions.
pub open spec fn cmp_ty_seq(a: Seq<TyV>, b: Seq<TyV>) -> int
    decreases a,
{
    if a.len() == 0 && b.len() == 0 {
        0
    } else if a.len() == 0 {
        -1
    } else if b.len() == 0 {
        1
    } else {
        let c = cmp_ty(a[0], b[0]);
        if c != 0 {
            c
        } else {
            cmp_ty_seq(a.drop_first(), b.drop_first())
        }
    }
}

/// The comparison of equal character sequences is zero, and a zero
/// comparison implies equality.
pub proof fn lemma_cmp_chars_eq(a: Seq<char>, b: Seq<char>)
    ensures
        cmp_chars(a, b) == 0 <==> a == b,
        -1 <= cmp_chars(a, b) <= 1,
    decreases a.len(),
{
    if a.len() == 0 && b.len() == 0 {
        assert(a =~= b);
    } else if a.len() != 0 && b.len() != 0 && !(a[0] < b[0]) && !(b[0] < a[0]) {
        lemma_cmp_chars_eq(a.drop_first(), b.drop_first());
        if cmp_chars(a, b) == 0 {
            assert(a =~= b) by {
                assert(a[0] == b[0]);
                assert(a.drop_first() =~= b.drop_first());
                assert(forall|i: int|
                    1 <= i < a.len() ==> a[i] == a.drop_first()[i - 1]
                        && b[i] == b.drop_first()[i - 1]);
            }
        }
        if a == b {
            assert(a.drop_first() == b.drop_first());
        }
    }
}

/// Comparing character sequences in the opposite order flips the sign.
pub proof fn lemma_cmp_chars_antisym(a: Seq<char>, b: Seq<char>)
    ensures
        cmp_chars(b, a) == -cmp_chars(a, b),
    decreases a.len(),
{
    if a.len() != 0 && b.len() != 0 && !(a[0] < b[0]) && !(b[0] < a[0]) {
        lemma_cmp_chars_antisym(a.drop_first(), b.drop_first());
    }
}

/// The comparison of a type model with itself is zero, and a zero
/// comparison implies equality; comparisons stay within -1 and 1.
pub proof fn lemma_cmp_ty_eq(a: TyV, b: TyV)
    ensures
        cmp_ty(a, b) == 0 <==> a == b,
        -1 <= cmp_ty(a, b) <= 1,
    decreases a,
{
    if rank_v(a) == rank_v(b) {
        match (a, b) {
            (TyV::Named(an, aps), TyV::Named(bn, bps)) => {
                lemma_cmp_chars_eq(an, bn);
                lemma_cmp_ty_seq_eq(aps, bps);
            },
            (TyV::And(ats), TyV::And(bts)) => {
                lemma_cmp_ty_seq_eq(ats, bts);
            },
            (TyV::Arrow(ap, ab), TyV::Arrow(bp, bb)) => {
                lemma_cmp_ty_eq(*ap, *bp);
                lemma_cmp_ty_eq(*ab, *bb);
            },
            (TyV::Tuple(ats), TyV::Tuple(bts)) => {
                lemma_cmp_ty_seq_eq(ats, bts);
            },
            (TyV::Product(ats), TyV::Product(bts)) => {
                lemma_cmp_ty_seq_eq(ats, bts);
            },
            (TyV::Ratio(ap, ab), TyV::Ratio(bp, bb)) => {
                lemma_cmp_ty_eq(*ap, *bp);
                lemma_cmp_ty_eq(*ab, *bb);
            },
            _ => {},
        }
    }
}

/// Sequence version of [`lemma_cmp_ty_eq`].
pub proof fn lemma_cmp_ty_seq_eq(a: Seq<TyV>, b: Seq<TyV>)
    ensures
        cmp_ty_seq(a, b) == 0 <==> a == b,
        -1 <= cmp_ty_seq(a, b) <= 1,
    decreases a,
{
    if a.len() == 0 && b.len() == 0 {
        assert(a =~= b);
    } else if a.len() != 0 && b.len() != 0 {
        lemma_cmp_ty_eq(a[0], b[0]);
        lemma_cmp_ty_seq_eq(a.drop_first(), b.drop_first());
        if cmp_ty_seq(a, b) == 0 {
            assert(a =~= b) by {
                assert(a[0] == b[0]);
                assert(a.drop_first() =~= b.drop_first());
                assert(forall|i: int|
                    1 <= i < a.len() ==> a[i] == a.drop_first()[i - 1]
                        && b[i] == b.drop_first()[i - 1]);
            }
        }
        if a == b {
            assert(a.drop_first() == b.drop_first());
        }
    }
}

/// Comparing type models in the opposite order flips the sign.
pub proof fn lemma_cmp_ty_antisym(a: TyV, b: TyV)
    ensures
        cmp_ty(b, a) == -cmp_ty(a, b),
    decreases a,
{
    if rank_v(a) == rank_v(b) {
        match (a, b) {
            (TyV::Named(an, aps), TyV::Named(bn, bps)) => {
                lemma_cmp_chars_antisym(an, bn);
                lemma_cmp_ty_seq_antisym(aps, bps);
            },
            (TyV::And(ats), TyV::And(bts)) => {
                lemma_cmp_ty_seq_antisym(ats, bts);
            },
            (TyV::Arrow(ap, ab), TyV::Arrow(bp, bb)) => {
                lemma_cmp_ty_antisym(*ap, *bp);
                lemma_cmp_ty_antisym(*ab, *bb);
            },
            (TyV::Tuple(ats), TyV::Tuple(bts)) => {
                lemma_cmp_ty_seq_antisym(ats, bts);
            },
            (TyV::Product(ats), TyV::Product(bts)) => {
                lemma_cmp_ty_seq_antisym(ats, bts);
            },
            (TyV::Ratio(ap, ab), TyV::Ratio(bp, bb)) => {
                lemma_cmp_ty_antisym(*ap, *bp);
                lemma_cmp_ty_antisym(*ab, *bb);
            },
            _ => {},
        }
    }
}

/// Sequence version of [`lemma_cmp_ty_antisym`].
pub proof fn lemma_cmp_ty_seq_antisym(a: Seq<TyV>, b: Seq<TyV>)
    ensures
        cmp_ty_seq(b, a) == -cmp_ty_seq(a, b),
    decreases a,
{
    if a.len() != 0 && b.len() != 0 {
        lemma_cmp_ty_antisym(a[0], b[0]);
        lemma_cmp_ty_eq(a[0], b[0]);
        lemma_cmp_ty_seq_antisym(a.drop_first(), b.drop_first());
    }
}

/// Compares two strings lexicographically by character code point.
pub fn cmp_str(a: &str, b: &str) -> (r: i8)
    ensures
        r as int == cmp_chars(a@, b@),
{
    let an = a.unicode_len();
    let bn = b.unicode_len();
    let mut i: usize = 0;
    proof {
        assert(a@.skip(0) =~= a@);
        assert(b@.skip(0) =~= b@);
    }
    loop
        invariant
            0 <= i <= an,
            0 <= i <= bn,
            an == a@.len(),
            bn == b@.len(),
            cmp_chars(a@, b@) == cmp_chars(a@.skip(i as int), b@.skip(i as int)),
        decreases an - i,
    {
        proof {
            lemma_cmp_chars_skip(a@, b@, i as int);
        }
        if i >= an && i >= bn {
            return 0;
        } else if i >= an {
            return -1;
        } else if i >= bn {
            return 1;
        }
        let ca = a.get_char(i);
        let cb = b.get_char(i);
        if ca < cb {
            return -1;
        } else if cb < ca {
            return 1;
        }
        i += 1;
        proof {
            lemma_cmp_chars_skip(a@, b@, i as int);
        }
    }
}

/// Unfolds one step of [`cmp_chars`] on suffixes: when the first `i`
/// characters agree, the comparison is decided by the suffixes.
proof fn lemma_cmp_chars_skip(a: Seq<char>, b: Seq<char>, i: int)
    requires
        0 <= i <= a.len(),
        0 <= i <= b.len(),
    ensures
        i < a.len() && i < b.len() && !(a[i] < b[i]) && !(b[i] < a[i]) ==> cmp_chars(
            a.skip(i),
            b.skip(i),
        ) == cmp_chars(a.skip(i + 1), b.skip(i + 1)),
        i == a.len() && i == b.len() ==> cmp_chars(a.skip(i), b.skip(i)) == 0,
        i == a.len() && i < b.len() ==> cmp_chars(a.skip(i), b.skip(i)) == -1,
        i < a.len() && i == b.len() ==> cmp_chars(a.skip(i), b.skip(i)) == 1,
        i < a.len() && i < b.len() && a[i] < b[i] ==> cmp_chars(a.skip(i), b.skip(i)) == -1,
        i < a.len() && i < b.len() && b[i] < a[i] ==> cmp_chars(a.skip(i), b.skip(i)) == 1,
{
    if i < a.len() && i < b.len() {
        assert(a.skip(i)[0] == a[i]);
        assert(b.skip(i)[0] == b[i]);
        assert(a.skip(i).drop_first() =~= a.skip(i + 1));
        assert(b.skip(i).drop_first() =~= b.skip(i + 1));
    }
}

/// Compares two types in the total order used to keep conjunctions and
/// products in canonical form.
pub fn cmp_type(a: &Type, b: &Type) -> (r: i8)
    ensures
        r as int == cmp_ty(a@, b@),
    decreases a,
{
    let ra = rank_of(a);
    let rb = rank_of(b);
    if ra != rb {
        return if ra < rb {
            -1
        } else {
            1
        };
    }
    match (a, b) {
        (Type::Any, Type::Any) => 0,
        (Type::Named(an, aps), Type::Named(bn, bps)) => {
            proof {
                assert(a@ == TyV::Named(an@, ty_seq_view(aps@)));
                assert(b@ == TyV::Named(bn@, ty_seq_view(bps@)));
            }
            let c = cmp_str(an.as_str(), bn.as_str());
            if c != 0 {
                c
            } else {
                cmp_type_list(aps, bps)
            }
        },
        (Type::And(ats), Type::And(bts)) => {
            proof {
                assert(a@ == TyV::And(ty_seq_view(ats@)));
                assert(b@ == TyV::And(ty_seq_view(bts@)));
            }
            cmp_type_list(ats, bts)
        },
        (Type::Arrow(ap, ab), Type::Arrow(bp, bb)) => {
            let c = cmp_type(ap, bp);
            if c != 0 {
                c
            } else {
                cmp_type(ab, bb)
            }
        },
        (Type::Tuple(ats), Type::Tuple(bts)) => {
            proof {
                assert(a@ == TyV::Tuple(ty_seq_view(ats@)));
                assert(b@ == TyV::Tuple(ty_seq_view(bts@)));
            }
            cmp_type_list(ats, bts)
        },
        (Type::Product(ats), Type::Product(bts)) => {
            proof {
                assert(a@ == TyV::Product(ty_seq_view(ats@)));
                assert(b@ == TyV::Product(ty_seq_view(bts@)));
            }
            cmp_type_list(ats, bts)
        },
        (Type::Ratio(ap, ab), Type::Ratio(bp, bb)) => {
            let c = cmp_type(ap, bp);
            if c != 0 {
                c
            } else {
                cmp_type(ab, bb)
            }
        },
        (Type::Constant(av, ac), Type::Constant(bv, bc)) => {
            if *av != *bv {
                if *bv {
                    -1
                } else {
                    1
                }
            } else if ac.id < bc.id {
                -1
            } else if bc.id < ac.id {
                1
            } else {
                0
            }
        },
        _ => {
            proof {
                assert(false);
            }
            0
        },
    }
}

/// Compares two lists of types lexicographically.
fn cmp_type_list(a: &Vec<Type>, b: &Vec<Type>) -> (r: i8)
    ensures
        r as int == cmp_ty_seq(ty_seq_view(a@), ty_seq_view(b@)),
    decreases a,
{
    let an = a.len();
    let bn = b.len();
    let mut i: usize = 0;
    proof {
        assert(ty_seq_view(a@).skip(0) =~= ty_seq_view(a@));
        assert(ty_seq_view(b@).skip(0) =~= ty_seq_view(b@));
    }
    loop
        invariant
            0 <= i <= an,
            0 <= i <= bn,
            an == a@.len(),
            bn == b@.len(),
            cmp_ty_seq(ty_seq_view(a@), ty_seq_view(b@)) == cmp_ty_seq(
                ty_seq_view(a@).skip(i as int),
                ty_seq_view(b@).skip(i as int),
            ),
        decreases an - i,
    {
        proof {
            lemma_cmp_ty_seq_skip(ty_seq_view(a@), ty_seq_view(b@), i as int);
        }
        if i >= an && i >= bn {
            return 0;
        } else if i >= an {
            return -1;
        } else if i >= bn {
            return 1;
        }
        let c = cmp_type(&a[i], &b[i]);
        if c != 0 {
            return c;
        }
        proof {
            lemma_cmp_ty_eq(a@[i as int]@, b@[i as int]@);
        }
        i += 1;
        proof {
            lemma_cmp_ty_seq_skip(ty_seq_view(a@), ty_seq_view(b@), i as int);
        }
    }
}

/// Unfolds one step of [`cmp_ty_seq`] on suffixes.
proof fn lemma_cmp_ty_seq_skip(a: Seq<TyV>, b: Seq<TyV>, i: int)
    requires
        0 <= i <= a.len(),
        0 <= i <= b.len(),
    ensures
        i < a.len() && i < b.len() && cmp_ty(a[i], b[i]) == 0 ==> cmp_ty_seq(a.skip(i), b.skip(i))
            == cmp_ty_seq(a.skip(i + 1), b.skip(i + 1)),
        i == a.len() && i == b.len() ==> cmp_ty_seq(a.skip(i), b.skip(i)) == 0,
        i == a.len() && i < b.len() ==> cmp_ty_seq(a.skip(i), b.skip(i)) == -1,
        i < a.len() && i == b.len() ==> cmp_ty_seq(a.skip(i), b.skip(i)) == 1,
        i < a.len() && i < b.len() && cmp_ty(a[i], b[i]) != 0 ==> cmp_ty_seq(a.skip(i), b.skip(i))
            == cmp_ty(a[i], b[i]),
{
    if i < a.len() && i < b.len() {
        assert(a.skip(i)[0] == a[i]);
        assert(b.skip(i)[0] == b[i]);
        assert(a.skip(i).drop_first() =~= a.skip(i + 1));
        assert(b.skip(i).drop_first() =~= b.skip(i + 1));
    }
}

/// Shape rank of an executable type; see [`rank_v`].
fn rank_of(t: &Type) -> (r: u8)
    ensures
        r as int == rank_v(t@),
{
    match t {
        Type::Any => 0,
        Type::Named(_, _) => 1,
        Type::And(_) => 2,
        Type::Arrow(_, _) => 3,
        Type::Tuple(_) => 4,
        Type::Product(_) => 5,
        Type::Ratio(_, _) => 6,
        Type::Constant(_, _) => 7,
    }
}

/// Checks two types for structural equality.
pub fn eq_type(a: &Type, b: &Type) -> (r: bool)
    ensures
        r == (a@ == b@),
{
    proof {
        lemma_cmp_ty_eq(a@, b@);
    }
    cmp_type(a, b) == 0
}


/// A sequence is sorted when every adjacent pair is in order.
pub open spec fn sorted_ty(s: Seq<TyV>) -> bool {
    forall|i: int| 0 <= i < s.len() - 1 ==> cmp_ty(#[trigger] s[i], s[i + 1]) <= 0
}

/// A sequence has no adjacent duplicates.
pub open spec fn no_adj_dup(s: Seq<TyV>) -> bool {
    forall|i: int| 0 <= i < s.len() - 1 ==> #[trigger] s[i] != s[i + 1]
}

/// Inserts an element into a sorted sequence, from the back.
pub open spec fn insert_ty(s: Seq<TyV>, x: TyV) -> Seq<TyV>
    decreases s.len(),
{
    if s.len() == 0 {
        seq![x]
    } else if cmp_ty(x, s.last()) >= 0 {
        s.push(x)
    } else {
        insert_ty(s.drop_last(), x).push(s.last())
    }
}

/// Insertion sort of a sequence of type models under [`cmp_ty`].
pub open spec fn sort_ty(s: Seq<TyV>) -> Seq<TyV>
    decreases s.len(),
{
    if s.len() == 0 {
        s
    } else {
        insert_ty(sort_ty(s.drop_last()), s.last())
    }
}

/// Removes adjacent duplicates, keeping the first element of each run.
pub open spec fn dedup_ty(s: Seq<TyV>) -> Seq<TyV>
    decreases s.len(),
{
    if s.len() <= 1 {
        s
    } else if s.last() == s[s.len() - 2] {
        dedup_ty(s.drop_last())
    } else {
        dedup_ty(s.drop_last()).push(s.last())
    }
}

/// Inserting into a sorted sequence keeps it sorted; the result is one
/// longer and ends in the inserted element or the old last element.
pub proof fn lemma_insert_ty_sorted(s: Seq<TyV>, x: TyV)
    requires
        sorted_ty(s),
    ensures
        sorted_ty(insert_ty(s, x)),
        insert_ty(s, x).len() == s.len() + 1,
        insert_ty(s, x).last() == x || (s.len() > 0 && insert_ty(s, x).last() == s.last()),
    decreases s.len(),
{
    lemma_cmp_ty_antisym(x, s.last());
    if s.len() == 0 {
    } else if cmp_ty(x, s.last()) >= 0 {
        let r = s.push(x);
        assert forall|i: int| 0 <= i < r.len() - 1 implies cmp_ty(#[trigger] r[i], r[i + 1]) <= 0 by {
            if i < s.len() - 1 {
                assert(r[i] == s[i] && r[i + 1] == s[i + 1]);
            } else {
                assert(r[i] == s.last() && r[i + 1] == x);
            }
        }
    } else {
        let dl = s.drop_last();
        assert(sorted_ty(dl)) by {
            assert(forall|i: int| 0 <= i < dl.len() ==> dl[i] == s[i]);
        }
        lemma_insert_ty_sorted(dl, x);
        let q = insert_ty(dl, x);
        let r = q.push(s.last());
        assert(cmp_ty(q.last(), s.last()) <= 0) by {
            if q.last() == x {
            } else {
                assert(dl.len() > 0 && q.last() == dl.last());
                assert(cmp_ty(s[s.len() - 2], s[s.len() - 1]) <= 0);
                assert(dl.last() == s[s.len() - 2] && s.last() == s[s.len() - 1]);
            }
        }
        assert forall|i: int| 0 <= i < r.len() - 1 implies cmp_ty(#[trigger] r[i], r[i + 1]) <= 0 by {
            if i < q.len() - 1 {
                assert(r[i] == q[i] && r[i + 1] == q[i + 1]);
            } else {
                assert(r[i] == q.last() && r[i + 1] == s.last());
            }
        }
    }
}

/// The result of [`sort_ty`] is sorted and a permutation-by-length of its
/// input.
pub proof fn lemma_sort_ty_sorted(s: Seq<TyV>)
    ensures
        sorted_ty(sort_ty(s)),
        sort_ty(s).len() == s.len(),
    decreases s.len(),
{
    if s.len() > 0 {
        lemma_sort_ty_sorted(s.drop_last());
        lemma_insert_ty_sorted(sort_ty(s.drop_last()), s.last());
    }
}

/// Sorting an already sorted sequence returns it unchanged.
pub proof fn lemma_sort_ty_of_sorted(s: Seq<TyV>)
    requires
        sorted_ty(s),
    ensures
        sort_ty(s) == s,
    decreases s.len(),
{
    if s.len() > 0 {
        let dl = s.drop_last();
        assert(sorted_ty(dl)) by {
            assert(forall|i: int| 0 <= i < dl.len() ==> dl[i] == s[i]);
        }
        lemma_sort_ty_of_sorted(dl);
        if dl.len() == 0 {
            assert(insert_ty(dl, s.last()) =~= s);
        } else {
            assert(cmp_ty(s[s.len() - 2], s[s.len() - 1]) <= 0);
            lemma_cmp_ty_antisym(s.last(), dl.last());
            assert(cmp_ty(s.last(), dl.last()) >= 0);
            assert(dl.push(s.last()) =~= s);
        }
    }
}

/// The result of [`dedup_ty`] has no adjacent duplicates, keeps the last
/// element, and keeps sortedness.
pub proof fn lemma_dedup_ty(s: Seq<TyV>)
    ensures
        no_adj_dup(dedup_ty(s)),
        s.len() > 0 ==> dedup_ty(s).len() > 0 && dedup_ty(s).last() == s.last(),
        s.len() == 0 ==> dedup_ty(s).len() == 0,
        sorted_ty(s) ==> sorted_ty(dedup_ty(s)),
    decreases s.len(),
{
    if s.len() <= 1 {
    } else {
        let dl = s.drop_last();
        lemma_dedup_ty(dl);
        assert(sorted_ty(s) ==> sorted_ty(dl)) by {
            assert(forall|i: int| 0 <= i < dl.len() ==> dl[i] == s[i]);
        }
        if s.last() == s[s.len() - 2] {
            assert(dl.last() == s[s.len() - 2]);
        } else {
            let q = dedup_ty(dl);
            let r = q.push(s.last());
            assert(q.last() == dl.last());
            assert(dl.last() == s[s.len() - 2]);
            assert forall|i: int| 0 <= i < r.len() - 1 implies #[trigger] r[i] != r[i + 1] by {
                if i < q.len() - 1 {
                    assert(r[i] == q[i] && r[i + 1] == q[i + 1]);
                } else {
                    assert(r[i] == q.last() && r[i + 1] == s.last());
                }
            }
            if sorted_ty(s) {
                assert(cmp_ty(s[s.len() - 2], s[s.len() - 1]) <= 0);
                assert forall|i: int| 0 <= i < r.len() - 1 implies cmp_ty(#[trigger] r[i], r[i + 1]) <= 0 by {
                    if i < q.len() - 1 {
                        assert(r[i] == q[i] && r[i + 1] == q[i + 1]);
                    } else {
                        assert(r[i] == q.last() && r[i + 1] == s.last());
                    }
                }
            }
        }
    }
}

/// Deduplicating a sequence without adjacent duplicates returns it
/// unchanged.
pub proof fn lemma_dedup_ty_of_nodup(s: Seq<TyV>)
    requires
        no_adj_dup(s),
    ensures
        dedup_ty(s) == s,
    decreases s.len(),
{
    if s.len() > 1 {
        let dl = s.drop_last();
        assert(no_adj_dup(dl)) by {
            assert(forall|i: int| 0 <= i < dl.len() ==> dl[i] == s[i]);
        }
        lemma_dedup_ty_of_nodup(dl);
        assert(s[s.len() - 2] == dl.last());
        assert(dl.push(s.last()) =~= s);
    }
}

/// Inserts a type into a vector sorted under [`cmp_ty`].
fn insert_type(v: Vec<Type>, x: Type) -> (r: Vec<Type>)
    ensures
        ty_seq_view(r@) == insert_ty(ty_seq_view(v@), ty_view(x)),
    decreases v.len(),
{
    let ghost sv = ty_seq_view(v@);
    let mut v = v;
    if v.len() == 0 {
        v.push(x);
        proof {
            assert(ty_seq_view(v@) =~= insert_ty(sv, ty_view(x)));
        }
        v
    } else {
        proof {
            assert(sv.last() == ty_view(v@.last()));
        }
        let c = {
            let n = v.len();
            cmp_type(&x, &v[n - 1])
        };
        if c >= 0 {
            v.push(x);
            proof {
                assert(ty_seq_view(v@) =~= sv.push(ty_view(x)));
            }
            v
        } else {
            let last = v.pop().unwrap();
            proof {
                assert(ty_seq_view(v@) =~= sv.drop_last());
            }
            let mut r = insert_type(v, x);
            r.push(last);
            proof {
                assert(ty_seq_view(r@) =~= insert_ty(sv.drop_last(), ty_view(x)).push(sv.last()));
            }
            r
        }
    }
}

/// Sorts a vector of types under [`cmp_ty`] by insertion sort.
pub fn sort_types(v: Vec<Type>) -> (r: Vec<Type>)
    ensures
        ty_seq_view(r@) == sort_ty(ty_seq_view(v@)),
    decreases v.len(),
{
    let ghost sv = ty_seq_view(v@);
    let mut v = v;
    if v.len() == 0 {
        v
    } else {
        let last = v.pop().unwrap();
        proof {
            assert(ty_seq_view(v@) =~= sv.drop_last());
            assert(sv.last() == ty_view(last));
        }
        let rest = sort_types(v);
        insert_type(rest, last)
    }
}

/// Removes adjacent duplicate types, keeping the first of each run.
pub fn dedup_types(v: Vec<Type>) -> (r: Vec<Type>)
    ensures
        ty_seq_view(r@) == dedup_ty(ty_seq_view(v@)),
    decreases v.len(),
{
    let ghost sv = ty_seq_view(v@);
    let mut v = v;
    if v.len() <= 1 {
        v
    } else {
        let n = v.len();
        proof {
            assert(sv.last() == ty_view(v@.last()));
            assert(sv[sv.len() - 2] == ty_view(v@[v@.len() - 2]));
        }
        let same = eq_type(&v[n - 1], &v[n - 2]);
        let last = v.pop().unwrap();
        proof {
            assert(ty_seq_view(v@) =~= sv.drop_last());
        }
        if same {
            dedup_types(v)
        } else {
            let mut r = dedup_types(v);
            r.push(last);
            proof {
                assert(ty_seq_view(r@) =~= dedup_ty(sv.drop_last()).push(sv.last()));
            }
            r
        }
    }
}

} // verus!
