use vstd::prelude::*;
use crate::model::TyV;
use crate::order::dedup_ty;
use crate::order::insert_ty;
use crate::order::sort_ty;
use crate::typ::collapse_and;
use crate::typ::flatten_one;
use crate::typ::implication_unifier_v;
use crate::typ::is_bottom_v;
use crate::typ::is_upper_named;
use crate::typ::iu_v;
use crate::typ::mgu_left_seq;
use crate::typ::mgu_pairwise;
use crate::typ::mgu_v;
use crate::typ::resolve_subs;
use crate::typ::substitute_v;
use crate::typ::upper_name;
use crate::typ::upper_eq_named;

verus! {

/// A type model that contains no conjunction anywhere.
pub open spec fn and_free(t: TyV) -> bool
    decreases t,
{
    match t {
        TyV::And(_) => false,
        TyV::Named(_, ts) => and_free_seq(ts),
        TyV::Arrow(p, b) => and_free(*p) && and_free(*b),
        TyV::Ratio(p, b) => and_free(*p) && and_free(*b),
        TyV::Tuple(ts) => and_free_seq(ts),
        TyV::Product(ts) => and_free_seq(ts),
        _ => true,
    }
}

/// Whether every element of a sequence is conjunction-free.
pub open spec fn and_free_seq(ts: Seq<TyV>) -> bool
    decreases ts,
{
    if ts.len() == 0 {
        true
    } else {
        and_free_seq(ts.drop_last()) && and_free(ts.last())
    }
}

/// Pointwise characterization of [`and_free_seq`].
pub proof fn lemma_and_free_seq(ts: Seq<TyV>)
    ensures
        and_free_seq(ts) <==> (forall|i: int| 0 <= i < ts.len() ==> and_free(#[trigger] ts[i])),
    decreases ts.len(),
{
    if ts.len() > 0 {
        lemma_and_free_seq(ts.drop_last());
        assert(forall|i: int| 0 <= i < ts.len() - 1 ==> ts[i] == ts.drop_last()[i]);
        assert(ts.last() == ts[ts.len() - 1]);
    }
}

/// Unifying a conjunction-free type with itself returns it unchanged:
/// the symmetric unifier is reflexive away from conjunctions.
pub proof fn lemma_mgu_reflexive(t: TyV)
    requires
        and_free(t),
    ensures
        mgu_v(t, t) == t,
        !is_bottom_v(mgu_v(t, t)),
    decreases t,
{
    match t {
        TyV::Named(n, ps) => {
            if upper_name(n) && ps.len() == 0 {
                assert(upper_eq_named(t, t));
                assert(mgu_v(t, t) == t);
            } else {
                lemma_mgu_reflexive_seq(ps);
                assert(!upper_eq_named(t, t));
                assert(mgu_v(t, t) == TyV::Named(n, mgu_pairwise(ps, ps).1));
            }
        },
        TyV::Arrow(p, b) => {
            lemma_mgu_reflexive(*b);
            assert(!is_bottom_v(*p)) by {
                if (*p) is And {
                    assert(!and_free(*p));
                }
            }
            assert(mgu_v(t, t) == TyV::Arrow(Box::new(*p), Box::new(mgu_v(*b, *b))));
        },
        TyV::Ratio(p, b) => {
            lemma_mgu_reflexive(*p);
            lemma_mgu_reflexive(*b);
            assert(mgu_v(t, t) == TyV::Ratio(Box::new(mgu_v(*p, *p)), Box::new(mgu_v(*b, *b))));
        },
        TyV::Tuple(ps) => {
            lemma_mgu_reflexive_seq(ps);
            assert(mgu_v(t, t) == TyV::Tuple(mgu_pairwise(ps, ps).1));
        },
        TyV::Product(ps) => {
            lemma_mgu_reflexive_seq(ps);
            assert(mgu_v(t, t) == TyV::Product(mgu_pairwise(ps, ps).1));
        },
        _ => {},
    }
}

/// Sequence version of [`lemma_mgu_reflexive`]: pairing a
/// conjunction-free list with itself succeeds and returns it.
pub proof fn lemma_mgu_reflexive_seq(ps: Seq<TyV>)
    requires
        and_free_seq(ps),
    ensures
        mgu_pairwise(ps, ps).0,
        mgu_pairwise(ps, ps).1 == ps,
    decreases ps,
{
    if ps.len() > 0 {
        lemma_mgu_reflexive_seq(ps.drop_last());
        lemma_mgu_reflexive(ps.last());
        assert(mgu_pairwise(ps, ps).1 =~= ps);
    }
}

/// Conjunction absorption: unifying `And([t, u])` with `t` drops the
/// unrelated member `u` and returns `t`, when `u` does not unify with
/// `t`.
pub proof fn lemma_mgu_absorption(t: TyV, u: TyV)
    requires
        and_free(t),
        is_bottom_v(mgu_v(u, t)),
    ensures
        mgu_v(TyV::And(seq![t, u]), t) == t,
{
    let a = TyV::And(seq![t, u]);
    lemma_mgu_reflexive(t);
    let lts = seq![t, u];
    assert(lts.drop_last() =~= seq![t]);
    assert(seq![t].drop_last() =~= Seq::<TyV>::empty());
    assert(mgu_left_seq(Seq::<TyV>::empty(), t) =~= Seq::<TyV>::empty());
    assert(flatten_one(mgu_v(t, t)) =~= seq![t]);
    assert(mgu_left_seq(seq![t], t) =~= seq![t]);
    let ub = mgu_v(u, t);
    assert(flatten_one(ub) =~= Seq::<TyV>::empty()) by {
        if let TyV::And(e) = ub {
            assert(e.len() == 0);
            assert(e =~= Seq::<TyV>::empty());
        }
    }
    assert(mgu_left_seq(lts, t) =~= seq![t]);
    assert(seq![t].drop_last() =~= Seq::<TyV>::empty());
    assert(sort_ty(seq![t]) == insert_ty(sort_ty(Seq::<TyV>::empty()), t));
    assert(insert_ty(Seq::<TyV>::empty(), t) =~= seq![t]);
    assert(dedup_ty(seq![t]) == seq![t]);
    assert(collapse_and(seq![t]) == t);
}


/// Unifying a type with itself restructured as a one-member conjunction
/// yields the type itself, on conjunction-free types.
pub proof fn lemma_mgu_singleton(t: TyV)
    requires
        and_free(t),
    ensures
        mgu_v(TyV::And(seq![t]), t) == t,
        mgu_v(t, TyV::And(seq![t])) == t,
{
    lemma_mgu_reflexive(t);
    assert(seq![t].drop_last() =~= Seq::<TyV>::empty());
    assert(mgu_left_seq(Seq::<TyV>::empty(), t) =~= Seq::<TyV>::empty());
    assert(flatten_one(mgu_v(t, t)) =~= seq![t]);
    assert(mgu_left_seq(seq![t], t) =~= seq![t]);
    assert(crate::typ::mgu_right_seq(t, Seq::<TyV>::empty()) =~= Seq::<TyV>::empty());
    assert(crate::typ::mgu_right_seq(t, seq![t]) =~= seq![t]);
    assert(sort_ty(seq![t]) == insert_ty(sort_ty(Seq::<TyV>::empty()), t));
    assert(insert_ty(Seq::<TyV>::empty(), t) =~= seq![t]);
    assert(dedup_ty(seq![t]) == seq![t]);
    assert(collapse_and(seq![t]) == t);
}

/// Shape mismatch: a tuple never unifies with a product, whatever the
/// arities.
pub proof fn lemma_mgu_tuple_product(ts: Seq<TyV>, ps: Seq<TyV>)
    ensures
        mgu_v(TyV::Tuple(ts), TyV::Product(ps)) == TyV::And(Seq::<TyV>::empty()),
        mgu_v(TyV::Product(ps), TyV::Tuple(ts)) == TyV::And(Seq::<TyV>::empty()),
{
}

/// Shape mismatch: two `Named` types unify only on identical name and
/// identical arity; a different name or a different parameter count is
/// bottom, and an uppercase variable atom matches by exact name
/// equality of parameterless atoms only.
pub proof fn lemma_mgu_named_mismatch(ln: Seq<char>, lps: Seq<TyV>, rn: Seq<char>, rps: Seq<TyV>)
    requires
        ln != rn || lps.len() != rps.len(),
    ensures
        mgu_v(TyV::Named(ln, lps), TyV::Named(rn, rps)) == TyV::And(Seq::<TyV>::empty()),
{
}

/// The implication unifier solves type variables: implying a variable
/// against a concrete `Named` type yields that concrete type and records
/// the binding, and the reverse direction yields the same type with the
/// same binding.
pub proof fn lemma_implication_solves_var(vn: Seq<char>, n: Seq<char>, ps: Seq<TyV>)
    requires
        upper_name(vn),
        !upper_name(n),
    ensures
        ({
            let v = TyV::Named(vn, Seq::<TyV>::empty());
            let c = TyV::Named(n, ps);
            &&& iu_v(v, c).1 == seq![(v, c)]
            &&& implication_unifier_v(v, c) == c
            &&& iu_v(c, v).1 == seq![(v, c)]
            &&& implication_unifier_v(c, v) == c
        }),
{
    let v = TyV::Named(vn, Seq::<TyV>::empty());
    let c = TyV::Named(n, ps);
    let s = seq![(v, c)];
    assert(is_upper_named(v));
    assert(!is_upper_named(c));
    assert(iu_v(v, c) == (v, s));
    assert(iu_v(c, v) == (v, s));
    assert(s.drop_last() =~= Seq::<(TyV, TyV)>::empty());
    assert(resolve_subs(Seq::<(TyV, TyV)>::empty()) == Some(Map::<TyV, TyV>::empty()));
    assert(resolve_subs(s) == Some(Map::<TyV, TyV>::empty().insert(v, c)));
    let m = Map::<TyV, TyV>::empty().insert(v, c);
    assert(m.contains_key(v) && m[v] == c);
    assert(substitute_v(v, m) == c);
}

/// Arrow contravariance: implying one arrow against another unifies the
/// domains in swapped order, so a variable domain of the source is bound
/// to the target's domain, and the unified arrow carries the resolved
/// types.
pub proof fn lemma_implication_arrow_contravariant(
    dn: Seq<char>,
    rn: Seq<char>,
    pn: Seq<char>,
    pps: Seq<TyV>,
    bn: Seq<char>,
    bps: Seq<TyV>,
)
    requires
        upper_name(dn),
        upper_name(rn),
        dn != rn,
        !upper_name(pn),
        !upper_name(bn),
    ensures
        ({
            let d = TyV::Named(dn, Seq::<TyV>::empty());
            let r = TyV::Named(rn, Seq::<TyV>::empty());
            let p = TyV::Named(pn, pps);
            let b = TyV::Named(bn, bps);
            let source = TyV::Arrow(Box::new(d), Box::new(b));
            let target = TyV::Arrow(Box::new(p), Box::new(r));
            &&& iu_v(source, target).1 == seq![(d, p), (r, b)]
            &&& implication_unifier_v(source, target) == TyV::Arrow(Box::new(p), Box::new(b))
        }),
{
    let d = TyV::Named(dn, Seq::<TyV>::empty());
    let r = TyV::Named(rn, Seq::<TyV>::empty());
    let p = TyV::Named(pn, pps);
    let b = TyV::Named(bn, bps);
    let source = TyV::Arrow(Box::new(d), Box::new(b));
    let target = TyV::Arrow(Box::new(p), Box::new(r));
    assert(is_upper_named(d) && is_upper_named(r));
    assert(!is_upper_named(p) && !is_upper_named(b));
    assert(iu_v(p, d) == (d, seq![(d, p)]));
    assert(iu_v(b, r) == (r, seq![(r, b)]));
    let subs = seq![(d, p), (r, b)];
    assert(iu_v(source, target).0 == TyV::Arrow(Box::new(d), Box::new(r)));
    assert(iu_v(source, target).1 =~= subs);
    assert(subs.drop_last() =~= seq![(d, p)]);
    assert(seq![(d, p)].drop_last() =~= Seq::<(TyV, TyV)>::empty());
    let m0 = Map::<TyV, TyV>::empty().insert(d, p);
    assert(resolve_subs(Seq::<(TyV, TyV)>::empty()) == Some(Map::<TyV, TyV>::empty()));
    assert(resolve_subs(seq![(d, p)]) == Some(m0));
    assert(!m0.contains_key(r));
    let m = m0.insert(r, b);
    assert(resolve_subs(subs) == Some(m));
    assert(m.contains_key(d) && m[d] == p);
    assert(m.contains_key(r) && m[r] == b);
    assert(!m.contains_key(TyV::Arrow(Box::new(d), Box::new(r))));
    assert(substitute_v(d, m) == p);
    assert(substitute_v(r, m) == b);
    assert(substitute_v(TyV::Arrow(Box::new(d), Box::new(r)), m) == TyV::Arrow(
        Box::new(p),
        Box::new(b),
    ));
}


/// Number of occurrences of `x` in `s`.
pub open spec fn count_ty(s: Seq<TyV>, x: TyV) -> int
    decreases s.len(),
{
    if s.len() == 0 {
        0
    } else {
        (if s[0] == x {
            1int
        } else {
            0int
        }) + count_ty(s.drop_first(), x)
    }
}

/// Counting distributes over concatenation.
pub proof fn lemma_count_concat(a: Seq<TyV>, b: Seq<TyV>, x: TyV)
    ensures
        count_ty(a + b, x) == count_ty(a, x) + count_ty(b, x),
    decreases a.len(),
{
    if a.len() == 0 {
        assert(a + b =~= b);
    } else {
        assert((a + b)[0] == a[0]);
        assert((a + b).drop_first() =~= a.drop_first() + b);
        lemma_count_concat(a.drop_first(), b, x);
    }
}

/// A count is zero exactly when the element does not occur.
pub proof fn lemma_count_zero(s: Seq<TyV>, x: TyV)
    ensures
        count_ty(s, x) == 0 <==> (forall|i: int| 0 <= i < s.len() ==> s[i] != x),
        count_ty(s, x) >= 0,
    decreases s.len(),
{
    if s.len() > 0 {
        lemma_count_zero(s.drop_first(), x);
        assert(forall|i: int| 1 <= i < s.len() ==> s[i] == s.drop_first()[i - 1]);
        assert(forall|i: int|
            0 <= i < s.drop_first().len() ==> s.drop_first()[i] == s[i + 1]);
    }
}

/// Removing the element at `i` lowers the count of `x` exactly when that
/// element is `x`.
pub proof fn lemma_count_remove_at(s: Seq<TyV>, i: int, x: TyV)
    requires
        0 <= i < s.len(),
    ensures
        count_ty(crate::typ::remove_at(s, i), x) == count_ty(s, x) - (if s[i] == x {
            1int
        } else {
            0int
        }),
{
    let a = s.take(i);
    let b = s.skip(i + 1);
    let m = s.skip(i);
    lemma_count_concat(a, b, x);
    lemma_count_concat(a, m, x);
    assert(a + m =~= s);
    assert(m[0] == s[i]);
    assert(m.drop_first() =~= b);
}

/// Ratio cancellation is multiset subtraction on each factor: for every
/// factor value, each denominator occurrence removes one numerator
/// occurrence while supplies last, and the leftovers stay on the
/// denominator side.
pub proof fn lemma_cancel_ratio_counts(num: Seq<TyV>, den: Seq<TyV>, x: TyV)
    ensures
        count_ty(crate::typ::cancel_ratio(num, den).0, x) == (if count_ty(num, x) >= count_ty(
            den,
            x,
        ) {
            count_ty(num, x) - count_ty(den, x)
        } else {
            0int
        }),
        count_ty(crate::typ::cancel_ratio(num, den).1, x) == (if count_ty(den, x) >= count_ty(
            num,
            x,
        ) {
            count_ty(den, x) - count_ty(num, x)
        } else {
            0int
        }),
    decreases den.len(),
{
    lemma_count_zero(num, x);
    lemma_count_zero(den, x);
    if den.len() == 0 {
    } else {
        let d0 = den[0];
        let i = crate::typ::find_ty(num, d0);
        crate::typ::lemma_find_ty(num, d0);
        assert(count_ty(den, x) == (if d0 == x {
            1int
        } else {
            0int
        }) + count_ty(den.drop_first(), x));
        lemma_count_zero(den.drop_first(), x);
        if i >= 0 {
            let num2 = crate::typ::remove_at(num, i);
            lemma_count_remove_at(num, i, x);
            lemma_cancel_ratio_counts(num2, den.drop_first(), x);
            lemma_count_zero(num2, x);
            if d0 == x {
                assert(num[i] == x);
                assert(count_ty(num, x) >= 1) by {
                    if count_ty(num, x) == 0 {
                        assert(num[i] != x);
                    }
                }
            }
        } else {
            lemma_cancel_ratio_counts(num, den.drop_first(), x);
            let r = crate::typ::cancel_ratio(num, den.drop_first());
            lemma_count_concat(seq![d0], r.1, x);
            assert(count_ty(seq![d0], x) == (if d0 == x {
                1int
            } else {
                0int
            })) by {
                assert(seq![d0].drop_first() =~= Seq::<TyV>::empty());
                assert(count_ty(Seq::<TyV>::empty(), x) == 0);
            }
            if d0 == x {
                assert(count_ty(num, x) == 0) by {
                    lemma_count_zero(num, x);
                }
            }
            lemma_count_zero(r.1, x);
        }
    }
}

/// A sequence of atomic factors: none of them a product or a ratio.
pub open spec fn atom_factors(s: Seq<TyV>) -> bool {
    forall|i: int|
        0 <= i < s.len() ==> !((#[trigger] s[i]) is Product) && !(s[i] is Ratio)
}

/// Projecting a list of atomic factors returns the list itself with an
/// empty denominator.
pub proof fn lemma_project_atoms(s: Seq<TyV>)
    requires
        atom_factors(s),
    ensures
        crate::typ::project_ratio_seq(s).0 == s,
        crate::typ::project_ratio_seq(s).1 == Seq::<TyV>::empty(),
    decreases s.len(),
{
    if s.len() == 0 {
        assert(crate::typ::project_ratio_seq(s).0 =~= s);
    } else {
        assert(forall|i: int| 0 <= i < s.len() - 1 ==> s.drop_last()[i] == s[i]);
        lemma_project_atoms(s.drop_last());
        let last = s.last();
        assert(last == s[s.len() - 1]);
        assert(crate::typ::project_ratio_v(last) == (seq![last], Seq::<TyV>::empty()));
        assert(crate::typ::project_ratio_seq(s).0 =~= s);
        assert(crate::typ::project_ratio_seq(s).1 =~= Seq::<TyV>::empty());
    }
}

/// Ratio simplification cancels common factors: on a ratio of products
/// of atomic factors it cancels numerator and denominator occurrences of
/// every factor pairwise, and in particular a factor present once on
/// each side disappears from both.
pub proof fn lemma_simplify_ratio_cancels(ns: Seq<TyV>, ds: Seq<TyV>, x: TyV)
    requires
        atom_factors(ns),
        atom_factors(ds),
    ensures
        ({
            let t = TyV::Ratio(Box::new(TyV::Product(ns)), Box::new(TyV::Product(ds)));
            let c = crate::typ::cancel_ratio(ns, ds);
            &&& crate::typ::simplify_ratio_v(t) == crate::typ::rebuild_ratio(c.0, c.1)
            &&& count_ty(c.0, x) == (if count_ty(ns, x) >= count_ty(ds, x) {
                count_ty(ns, x) - count_ty(ds, x)
            } else {
                0int
            })
            &&& count_ty(c.1, x) == (if count_ty(ds, x) >= count_ty(ns, x) {
                count_ty(ds, x) - count_ty(ns, x)
            } else {
                0int
            })
        }),
{
    let t = TyV::Ratio(Box::new(TyV::Product(ns)), Box::new(TyV::Product(ds)));
    lemma_project_atoms(ns);
    lemma_project_atoms(ds);
    assert(crate::typ::project_ratio_v(TyV::Product(ns)) == (ns, Seq::<TyV>::empty()));
    assert(crate::typ::project_ratio_v(TyV::Product(ds)) == (ds, Seq::<TyV>::empty()));
    assert(crate::typ::project_ratio_v(t).0 =~= ns);
    assert(crate::typ::project_ratio_v(t).1 =~= ds);
    lemma_cancel_ratio_counts(ns, ds, x);
}


/// A type model that contains no ratio and no product anywhere.
pub open spec fn simple_shape(t: TyV) -> bool
    decreases t,
{
    match t {
        TyV::Ratio(_, _) => false,
        TyV::Product(_) => false,
        TyV::Named(_, ts) => simple_seq(ts),
        TyV::And(ts) => simple_seq(ts),
        TyV::Tuple(ts) => simple_seq(ts),
        TyV::Arrow(p, b) => simple_shape(*p) && simple_shape(*b),
        _ => true,
    }
}

/// Whether every element of a sequence is ratio- and product-free.
pub open spec fn simple_seq(ts: Seq<TyV>) -> bool
    decreases ts,
{
    if ts.len() == 0 {
        true
    } else {
        simple_seq(ts.drop_last()) && simple_shape(ts.last())
    }
}

/// Pointwise characterization of [`simple_seq`].
pub proof fn lemma_simple_seq(ts: Seq<TyV>)
    ensures
        simple_seq(ts) <==> (forall|i: int| 0 <= i < ts.len() ==> simple_shape(#[trigger] ts[i])),
    decreases ts.len(),
{
    if ts.len() > 0 {
        lemma_simple_seq(ts.drop_last());
        assert(forall|i: int| 0 <= i < ts.len() - 1 ==> ts[i] == ts.drop_last()[i]);
        assert(ts.last() == ts[ts.len() - 1]);
    }
}

/// Normal form of a ratio- and product-free type: conjunctions are
/// flattened, sorted, deduplicated and never singletons, and children
/// are in normal form.
pub open spec fn is_norm(t: TyV) -> bool
    decreases t,
{
    match t {
        TyV::And(ts) => ts.len() != 1 && crate::order::sorted_ty(ts) && crate::order::no_adj_dup(
            ts,
        ) && norm_members(ts),
        TyV::Named(_, ts) => norm_list(ts),
        TyV::Tuple(ts) => norm_list(ts),
        TyV::Arrow(p, b) => is_norm(*p) && is_norm(*b),
        TyV::Ratio(_, _) => false,
        TyV::Product(_) => false,
        _ => true,
    }
}

/// Whether every element is a normal-form non-conjunction.
pub open spec fn norm_members(ts: Seq<TyV>) -> bool
    decreases ts,
{
    if ts.len() == 0 {
        true
    } else {
        norm_members(ts.drop_last()) && !(ts.last() is And) && is_norm(ts.last())
    }
}

/// Whether every element is in normal form.
pub open spec fn norm_list(ts: Seq<TyV>) -> bool
    decreases ts,
{
    if ts.len() == 0 {
        true
    } else {
        norm_list(ts.drop_last()) && is_norm(ts.last())
    }
}

/// Pointwise characterization of [`norm_members`].
pub proof fn lemma_norm_members(ts: Seq<TyV>)
    ensures
        norm_members(ts) <==> (forall|i: int|
            0 <= i < ts.len() ==> !((#[trigger] ts[i]) is And) && is_norm(ts[i])),
    decreases ts.len(),
{
    if ts.len() > 0 {
        lemma_norm_members(ts.drop_last());
        assert(forall|i: int| 0 <= i < ts.len() - 1 ==> ts[i] == ts.drop_last()[i]);
        assert(ts.last() == ts[ts.len() - 1]);
    }
}

/// Pointwise characterization of [`norm_list`].
pub proof fn lemma_norm_list(ts: Seq<TyV>)
    ensures
        norm_list(ts) <==> (forall|i: int| 0 <= i < ts.len() ==> is_norm(#[trigger] ts[i])),
    decreases ts.len(),
{
    if ts.len() > 0 {
        lemma_norm_list(ts.drop_last());
        assert(forall|i: int| 0 <= i < ts.len() - 1 ==> ts[i] == ts.drop_last()[i]);
        assert(ts.last() == ts[ts.len() - 1]);
    }
}

/// Pointwise characterization of [`crate::typ::normalize_each`].
pub proof fn lemma_normalize_each_pointwise(ts: Seq<TyV>)
    ensures
        crate::typ::normalize_each(ts).len() == ts.len(),
        forall|i: int|
            0 <= i < ts.len() ==> crate::typ::normalize_each(ts)[i] == crate::typ::normalize_v(
                #[trigger] ts[i],
            ),
    decreases ts.len(),
{
    if ts.len() > 0 {
        lemma_normalize_each_pointwise(ts.drop_last());
        assert(forall|i: int| 0 <= i < ts.len() - 1 ==> ts[i] == ts.drop_last()[i]);
        assert(ts.last() == ts[ts.len() - 1]);
    }
}

/// An element of an inserted list is the inserted element or one of the
/// old elements.
pub proof fn lemma_insert_ty_contains(s: Seq<TyV>, x: TyV, e: TyV)
    ensures
        crate::order::insert_ty(s, x).contains(e) <==> s.contains(e) || e == x,
    decreases s.len(),
{
    if s.len() == 0 {
        assert(crate::order::insert_ty(s, x) =~= seq![x]);
        assert(seq![x][0] == x);
    } else if crate::order::cmp_ty(x, s.last()) >= 0 {
        assert(crate::order::insert_ty(s, x) == s.push(x));
        assert forall|y: TyV| s.push(x).contains(y) implies s.contains(y) || y == x by {
            let i = choose|i: int| 0 <= i < s.push(x).len() && s.push(x)[i] == y;
            if i < s.len() {
                assert(s[i] == y);
            }
        }
        assert(s.push(x)[s.len() as int] == x);
        assert forall|y: TyV| s.contains(y) implies s.push(x).contains(y) by {
            let i = choose|i: int| 0 <= i < s.len() && s[i] == y;
            assert(s.push(x)[i] == y);
        }
    } else {
        lemma_insert_ty_contains(s.drop_last(), x, e);
        let q = crate::order::insert_ty(s.drop_last(), x);
        assert(crate::order::insert_ty(s, x) == q.push(s.last()));
        assert forall|y: TyV| q.push(s.last()).contains(y) implies q.contains(y) || y
            == s.last() by {
            let i = choose|i: int| 0 <= i < q.push(s.last()).len() && q.push(s.last())[i] == y;
            if i < q.len() {
                assert(q[i] == y);
            }
        }
        assert forall|y: TyV| q.contains(y) implies q.push(s.last()).contains(y) by {
            let i = choose|i: int| 0 <= i < q.len() && q[i] == y;
            assert(q.push(s.last())[i] == y);
        }
        assert(q.push(s.last())[q.len() as int] == s.last());
        assert forall|y: TyV| s.contains(y) implies s.drop_last().contains(y) || y
            == s.last() by {
            let i = choose|i: int| 0 <= i < s.len() && s[i] == y;
            if i < s.len() - 1 {
                assert(s.drop_last()[i] == y);
            }
        }
        assert forall|y: TyV| s.drop_last().contains(y) implies s.contains(y) by {
            let i = choose|i: int| 0 <= i < s.drop_last().len() && s.drop_last()[i] == y;
            assert(s[i] == y);
        }
        assert(s.contains(s.last())) by {
            assert(s[s.len() - 1] == s.last());
        }
    }
}

/// Sorting neither adds nor drops elements.
pub proof fn lemma_sort_ty_contains(s: Seq<TyV>, e: TyV)
    ensures
        crate::order::sort_ty(s).contains(e) <==> s.contains(e),
    decreases s.len(),
{
    if s.len() > 0 {
        lemma_sort_ty_contains(s.drop_last(), e);
        lemma_insert_ty_contains(crate::order::sort_ty(s.drop_last()), s.last(), e);
        assert forall|y: TyV| s.contains(y) implies s.drop_last().contains(y) || y
            == s.last() by {
            let i = choose|i: int| 0 <= i < s.len() && s[i] == y;
            if i < s.len() - 1 {
                assert(s.drop_last()[i] == y);
            }
        }
        assert forall|y: TyV| s.drop_last().contains(y) implies s.contains(y) by {
            let i = choose|i: int| 0 <= i < s.drop_last().len() && s.drop_last()[i] == y;
            assert(s[i] == y);
        }
        assert(s.contains(s.last())) by {
            assert(s[s.len() - 1] == s.last());
        }
    }
}

/// Deduplication keeps only elements of its input.
pub proof fn lemma_dedup_ty_contains(s: Seq<TyV>, e: TyV)
    ensures
        crate::order::dedup_ty(s).contains(e) ==> s.contains(e),
    decreases s.len(),
{
    if s.len() > 1 {
        lemma_dedup_ty_contains(s.drop_last(), e);
        assert forall|y: TyV| s.drop_last().contains(y) implies s.contains(y) by {
            let i = choose|i: int| 0 <= i < s.drop_last().len() && s.drop_last()[i] == y;
            assert(s[i] == y);
        }
        if !(s.last() == s[s.len() - 2]) {
            let q = crate::order::dedup_ty(s.drop_last());
            assert forall|y: TyV| q.push(s.last()).contains(y) implies q.contains(y) || y
                == s.last() by {
                let i = choose|i: int| 0 <= i < q.push(s.last()).len() && q.push(s.last())[i] == y;
                if i < q.len() {
                    assert(q[i] == y);
                }
            }
            assert(s.contains(s.last())) by {
                assert(s[s.len() - 1] == s.last());
            }
        }
    }
}

/// Normalizing a ratio- and product-free type yields a normal-form,
/// ratio- and product-free type.
#[verifier::rlimit(100)]
pub proof fn lemma_normalize_norms(t: TyV)
    requires
        simple_shape(t),
    ensures
        is_norm(crate::typ::normalize_v(t)),
        simple_shape(crate::typ::normalize_v(t)),
    decreases t,
{
    match t {
        TyV::And(ts) => {
            lemma_flatten_norm_elems(ts);
            let f = crate::typ::flatten_norm(ts);
            let sorted = crate::order::sort_ty(f);
            let cnf = crate::order::dedup_ty(sorted);
            crate::order::lemma_sort_ty_sorted(f);
            crate::order::lemma_dedup_ty(sorted);
            assert forall|e: TyV| cnf.contains(e) implies !(e is And) && is_norm(e)
                && simple_shape(e) by {
                lemma_dedup_ty_contains(sorted, e);
                lemma_sort_ty_contains(f, e);
            }
            if cnf.len() == 1 {
                assert(cnf.contains(cnf[0]));
                assert(crate::typ::normalize_v(t) == cnf[0]);
            } else {
                assert(crate::typ::normalize_v(t) == TyV::And(cnf));
                lemma_norm_members(cnf);
                lemma_simple_seq(cnf);
                assert(forall|i: int| 0 <= i < cnf.len() ==> cnf.contains(#[trigger] cnf[i]));
            }
        },
        TyV::Named(n, ts) => {
            lemma_each_norms(ts);
            assert(crate::typ::normalize_v(t) == TyV::Named(n, crate::typ::normalize_each(ts)));
        },
        TyV::Tuple(ts) => {
            lemma_each_norms(ts);
            assert(crate::typ::normalize_v(t) == TyV::Tuple(crate::typ::normalize_each(ts)));
        },
        TyV::Arrow(p, b) => {
            lemma_normalize_norms(*p);
            lemma_normalize_norms(*b);
        },
        _ => {},
    }
}

/// Every element of a normalized member list is in normal form and
/// ratio- and product-free.
pub proof fn lemma_each_norms(ts: Seq<TyV>)
    requires
        simple_seq(ts),
    ensures
        norm_list(crate::typ::normalize_each(ts)),
        simple_seq(crate::typ::normalize_each(ts)),
    decreases ts,
{
    lemma_simple_seq(ts);
    lemma_normalize_each_pointwise(ts);
    let ns = crate::typ::normalize_each(ts);
    assert forall|i: int| 0 <= i < ns.len() implies is_norm(#[trigger] ns[i]) && simple_shape(
        ns[i],
    ) by {
        assert(simple_shape(ts[i]));
        lemma_normalize_norms(ts[i]);
    }
    lemma_norm_list(ns);
    lemma_simple_seq(ns);
}

/// Every element contributed by flattening normalized conjuncts is a
/// normal-form non-conjunction.
pub proof fn lemma_flatten_norm_elems(ts: Seq<TyV>)
    requires
        simple_seq(ts),
    ensures
        forall|e: TyV|
            #[trigger] crate::typ::flatten_norm(ts).contains(e) ==> !(e is And) && is_norm(e)
                && simple_shape(e),
    decreases ts,
{
    if ts.len() > 0 {
        assert(simple_seq(ts.drop_last()) && simple_shape(ts.last()));
        lemma_flatten_norm_elems(ts.drop_last());
        lemma_normalize_norms(ts.last());
        let m = crate::typ::normalize_v(ts.last());
        let pre = crate::typ::flatten_norm(ts.drop_last());
        let fl = crate::typ::flatten_one(m);
        assert(crate::typ::flatten_norm(ts) == pre + fl);
        assert forall|e: TyV| #[trigger] crate::typ::flatten_norm(ts).contains(e) implies !(e
            is And) && is_norm(e) && simple_shape(e) by {
            assert((pre + fl).contains(e));
            let i = choose|i: int| 0 <= i < (pre + fl).len() && (pre + fl)[i] == e;
            if i < pre.len() {
                assert(pre.contains(e)) by {
                    assert(pre[i] == e);
                }
            } else {
                assert(fl[i - pre.len()] == e);
                if m is And {
                    let cts = m->And_0;
                    assert(fl == cts);
                    lemma_norm_members(cts);
                    lemma_simple_seq(cts);
                    assert(!(e is And) && is_norm(e));
                    assert(simple_shape(e));
                } else {
                    assert(fl =~= seq![m]);
                    assert(e == m);
                }
            }
        }
    }
}

/// Normalization does not change a type already in normal form.
pub proof fn lemma_normalize_of_norm(t: TyV)
    requires
        simple_shape(t),
        is_norm(t),
    ensures
        crate::typ::normalize_v(t) == t,
    decreases t,
{
    match t {
        TyV::And(ts) => {
            lemma_flatten_of_norm(ts);
            crate::order::lemma_sort_ty_of_sorted(ts);
            crate::order::lemma_dedup_ty_of_nodup(ts);
            assert(crate::typ::normalize_v(t) == TyV::And(ts));
        },
        TyV::Named(n, ts) => {
            lemma_each_of_norm(ts);
            assert(crate::typ::normalize_v(t) == TyV::Named(n, crate::typ::normalize_each(ts)));
        },
        TyV::Tuple(ts) => {
            lemma_each_of_norm(ts);
            assert(crate::typ::normalize_v(t) == TyV::Tuple(crate::typ::normalize_each(ts)));
        },
        TyV::Arrow(p, b) => {
            lemma_normalize_of_norm(*p);
            lemma_normalize_of_norm(*b);
        },
        _ => {},
    }
}

/// Normalizing each member of a list of normal-form types changes
/// nothing.
pub proof fn lemma_each_of_norm(ts: Seq<TyV>)
    requires
        simple_seq(ts),
        norm_list(ts),
    ensures
        crate::typ::normalize_each(ts) == ts,
    decreases ts,
{
    lemma_simple_seq(ts);
    lemma_norm_list(ts);
    lemma_normalize_each_pointwise(ts);
    let ns = crate::typ::normalize_each(ts);
    assert forall|i: int| 0 <= i < ts.len() implies ns[i] == ts[i] by {
        lemma_normalize_of_norm(ts[i]);
    }
    assert(ns =~= ts);
}

/// Flattening a list of normal-form non-conjunctions changes nothing.
pub proof fn lemma_flatten_of_norm(ts: Seq<TyV>)
    requires
        simple_seq(ts),
        norm_members(ts),
    ensures
        crate::typ::flatten_norm(ts) == ts,
    decreases ts,
{
    if ts.len() > 0 {
        assert(simple_seq(ts.drop_last()) && simple_shape(ts.last()));
        lemma_flatten_of_norm(ts.drop_last());
        lemma_normalize_of_norm(ts.last());
        assert(crate::typ::flatten_one(ts.last()) =~= seq![ts.last()]);
        assert(crate::typ::flatten_norm(ts) =~= ts);
    }
}

/// Idempotent normalization: normalizing twice is the same as
/// normalizing once, for every type free of ratios and products.
pub proof fn lemma_normalize_idempotent(t: TyV)
    requires
        simple_shape(t),
    ensures
        crate::typ::normalize_v(crate::typ::normalize_v(t)) == crate::typ::normalize_v(t),
{
    lemma_normalize_norms(t);
    lemma_normalize_of_norm(crate::typ::normalize_v(t));
}


/// A rendered natural number is a nonempty digit string whose value is
/// the number itself.
pub proof fn lemma_dec_u_props(m: nat)
    ensures
        crate::constant::all_digits(crate::render::dec_u(m)),
        crate::render::dec_u(m).len() >= 1,
        crate::constant::digits_val(crate::render::dec_u(m)) == m,
        crate::constant::is_digit(crate::render::dec_u(m)[0]),
    decreases m,
{
    let s = crate::render::dec_u(m);
    if m < 10 {
        assert(s =~= seq![crate::render::digit_char(m)]);
        assert(crate::constant::is_digit(crate::render::digit_char(m)));
        assert(s.drop_last() =~= Seq::<char>::empty());
        assert(crate::constant::digits_val(Seq::<char>::empty()) == 0);
        assert(crate::constant::digit_val(crate::render::digit_char(m)) == m);
        assert(crate::constant::digits_val(s) == crate::constant::digit_val(
            crate::render::digit_char(m),
        ));
    } else {
        lemma_dec_u_props(m / 10);
        let p = crate::render::dec_u(m / 10);
        assert(s == p.push(crate::render::digit_char(m % 10)));
        assert(s.drop_last() =~= p);
        assert(s.last() == crate::render::digit_char(m % 10));
        assert(crate::constant::is_digit(crate::render::digit_char(m % 10)));
        assert(crate::constant::all_digits(s)) by {
            assert(forall|i: int| 0 <= i < p.len() ==> s[i] == p[i]);
            assert(s[s.len() - 1] == crate::render::digit_char(m % 10));
        }
        assert(crate::constant::digit_val(crate::render::digit_char(m % 10)) == m % 10);
        assert(crate::constant::digits_val(s) == (m / 10) * 10 + m % 10);
        assert((m / 10) * 10 + m % 10 == m) by (nonlinear_arith);
        assert(s[0] == p[0]);
    }
}

/// Parsing the printed form of a boolean, an integer or the
/// not-a-number constant returns the constant unchanged.
pub proof fn lemma_constant_print_parse(c: crate::model::ConstV)
    requires
        c is Nan || c is Boolean || c is Integer,
    ensures
        crate::constant::parse_const_v(crate::constant::render_const(c)) == c,
{
    match c {
        crate::model::ConstV::Integer(n) => {
            let s = crate::constant::render_const(c);
            if n >= 0 {
                lemma_dec_u_props(n as nat);
                assert(s == crate::render::dec_u(n as nat));
                assert(crate::constant::is_digit(s[0]));
                assert(s != seq!['N', 'a', 'N'] && s != seq!['T', 'r', 'u', 'e'] && s != seq![
                    'F',
                    'a',
                    'l',
                    's',
                    'e',
                ]) by {
                    assert(s[0] != 'N' && s[0] != 'T' && s[0] != 'F');
                }
                assert(s[0] != '+' && s[0] != '-');
                assert(crate::constant::int_text(s) == Some(n as int));
            } else {
                lemma_dec_u_props((-(n as int)) as nat);
                let d = crate::render::dec_u((-(n as int)) as nat);
                assert(s == seq!['-'] + d);
                assert(s[0] == '-');
                assert(s != seq!['N', 'a', 'N'] && s != seq!['T', 'r', 'u', 'e'] && s != seq![
                    'F',
                    'a',
                    'l',
                    's',
                    'e',
                ]) by {
                    assert(s[0] != 'N' && s[0] != 'T' && s[0] != 'F');
                }
                assert(s.drop_first() =~= d);
                assert(s.len() >= 1);
                assert(crate::constant::int_text(s) == Some(-(crate::constant::digits_val(d))));
                assert(crate::constant::int_text(s) == Some(n as int));
            }
        },
        crate::model::ConstV::Boolean(b) => {
            if b {
                assert(crate::constant::render_const(c) == seq!['T', 'r', 'u', 'e']);
                assert(seq!['T', 'r', 'u', 'e'] != seq!['N', 'a', 'N']);
            } else {
                assert(crate::constant::render_const(c) == seq!['F', 'a', 'l', 's', 'e']);
                assert(seq!['F', 'a', 'l', 's', 'e'] != seq!['N', 'a', 'N']);
                assert(seq!['F', 'a', 'l', 's', 'e'] != seq!['T', 'r', 'u', 'e']);
            }
        },
        _ => {},
    }
}


/// Parsing the printed form of an operator token returns it unchanged,
/// provided the token does not spell a keyword or integer literal.
pub proof fn lemma_op_print_parse(s: Seq<char>)
    requires
        s != seq!['N', 'a', 'N'],
        s != seq!['T', 'r', 'u', 'e'],
        s != seq!['F', 'a', 'l', 's', 'e'],
        crate::constant::int_text(s) is None,
    ensures
        crate::constant::parse_const_v(
            crate::constant::render_const(crate::model::ConstV::Op(s)),
        ) == crate::model::ConstV::Op(s),
{
}

} // verus!
