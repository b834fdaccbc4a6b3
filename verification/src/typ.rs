use vstd::prelude::*;
use vstd::string::StrSliceExecFns;
use crate::term::TermId;
use crate::model::TyV;
use crate::model::lemma_ty_seq_view;
use crate::model::ty_seq_view;
use crate::model::ty_view;

verus! {

broadcast use lemma_ty_seq_view, crate::model::lemma_str_seq_view, crate::model::lemma_pair_seq_view, crate::model::lemma_size_pos, crate::model::lemma_kind_seq_view;

/// Each term has at least one type.
///
/// Types are composed of atomic parts such as `Named` types; compound parts
/// are formed by `Arrow`, `Tuple`, `Product` and `Ratio`. At the highest
/// level a compound type can be pluralized with an `And` to join it to other
/// compounds. `And` types are kept in conjunctive normal form: flattened,
/// sorted and deduplicated, with the empty conjunction standing for the
/// bottom type.
///
/// A `Named` type whose name is all uppercase letters denotes a type
/// variable; all other names denote concrete nominal types.
#[derive(Debug)]
pub enum Type {
    Any,
    Named(String, Vec<Type>),
    And(Vec<Type>),
    Arrow(Box<Type>, Box<Type>),
    Tuple(Vec<Type>),
    Product(Vec<Type>),
    Ratio(Box<Type>, Box<Type>),
    Constant(bool, TermId),
}

/// Whether a model is the bottom type: the empty conjunction.
pub open spec fn is_bottom_v(t: TyV) -> bool {
    match t {
        TyV::And(ts) => ts.len() == 0,
        _ => false,
    }
}

/// Whether a character counts as an uppercase letter for the type-variable
/// naming convention. Only the ASCII letters count: names are expected
/// to be ASCII, and a name with characters outside `A`-`Z` anywhere is
/// treated as a concrete nominal name, never as a type variable.
pub open spec fn upper_char(c: char) -> bool {
    'A' <= c && c <= 'Z'
}

/// Whether a name denotes a type variable: every character uppercase.
pub open spec fn upper_name(s: Seq<char>) -> bool {
    forall|i: int| 0 <= i < s.len() ==> upper_char(s[i])
}

/// Whether a model is a type variable: a parameterless `Named` type whose
/// name is all uppercase.
pub open spec fn is_var_v(t: TyV) -> bool {
    match t {
        TyV::Named(n, ps) => ps.len() == 0 && upper_name(n),
        _ => false,
    }
}

/// Whether a model is a constant-indexed type.
pub open spec fn is_constant_v(t: TyV) -> bool {
    match t {
        TyV::Constant(_, _) => true,
        _ => false,
    }
}

/// Checks whether every character of a string is an uppercase letter.
fn str_is_upper(s: &str) -> (r: bool)
    ensures
        r == upper_name(s@),
{
    let n = s.unicode_len();
    let mut i: usize = 0;
    while i < n
        invariant
            0 <= i <= n,
            n == s@.len(),
            forall|j: int| 0 <= j < i ==> upper_char(s@[j]),
        decreases n - i,
    {
        let c = s.get_char(i);
        if c < 'A' || c > 'Z' {
            proof {
                assert(!upper_char(s@[i as int]));
            }
            return false;
        }
        i += 1;
    }
    true
}

impl Type {
    /// Whether this type is the bottom type (the empty conjunction), the
    /// value both unifiers use to signal failure.
    pub fn is_bottom(&self) -> (r: bool)
        ensures
            r == is_bottom_v(self@),
    {
        match self {
            Type::And(ts) => {
                proof {
                    assert(self@ == TyV::And(crate::model::ty_seq_view(ts@)));
                    assert(crate::model::ty_seq_view(ts@).len() == ts@.len());
                }
                ts.len() == 0
            },
            _ => false,
        }
    }

    /// Whether this type is a type variable: a parameterless `Named` type
    /// whose name consists of uppercase letters only.
    pub fn is_var(&self) -> (r: bool)
        ensures
            r == is_var_v(self@),
    {
        match self {
            Type::Named(tn, ts) => {
                proof {
                    assert(self@ == TyV::Named(tn@, crate::model::ty_seq_view(ts@)));
                }
                ts.len() == 0 && str_is_upper(tn.as_str())
            },
            _ => false,
        }
    }

    /// Whether this type is a constant-indexed type.
    pub fn is_constant(&self) -> (r: bool)
        ensures
            r == is_constant_v(self@),
    {
        match self {
            Type::Constant(_, _) => true,
            _ => false,
        }
    }

    /// The term identifier a constant-indexed type is indexed by, or the
    /// zero identifier for every other shape.
    pub fn term_id(&self) -> (r: TermId)
        ensures
            r.id as int == match self@ {
                TyV::Constant(_, c) => c,
                _ => 0,
            },
    {
        match self {
            Type::Constant(_, t) => *t,
            _ => TermId { id: 0 },
        }
    }
}


/// Model of [`Type::mask`]: erase concrete structure for generalization.
pub open spec fn mask_v(t: TyV) -> TyV
    decreases t,
{
    match t {
        TyV::Any => TyV::Any,
        TyV::Named(tn, ts) => {
            if upper_name(tn) {
                TyV::Any
            } else {
                TyV::Named(tn, Seq::new(ts.len(), |i: int| TyV::Any))
            }
        },
        TyV::Arrow(p, b) => TyV::Arrow(Box::new(mask_v(*p)), Box::new(mask_v(*b))),
        TyV::Ratio(p, b) => TyV::Ratio(Box::new(mask_v(*p)), Box::new(mask_v(*b))),
        TyV::And(ts) => TyV::And(mask_seq(ts)),
        TyV::Tuple(ts) => TyV::Tuple(mask_seq(ts)),
        TyV::Product(ts) => TyV::Product(mask_seq(ts)),
        TyV::Constant(v, c) => TyV::Constant(v, c),
    }
}

/// [`mask_v`] applied to every element of a sequence.
pub open spec fn mask_seq(s: Seq<TyV>) -> Seq<TyV>
    decreases s,
{
    if s.len() == 0 {
        Seq::empty()
    } else {
        mask_seq(s.drop_last()).push(mask_v(s.last()))
    }
}

/// Whether a model is a `Named` type whose name is all uppercase,
/// regardless of its parameters.
pub open spec fn is_upper_named(t: TyV) -> bool {
    match t {
        TyV::Named(n, _) => upper_name(n),
        _ => false,
    }
}

/// Model of [`Type::and`]: conjoin two types, flattening into an `And` and
/// absorbing `Any` and type variables.
pub open spec fn and_v(a: TyV, b: TyV) -> TyV {
    if a is Any {
        b
    } else if b is Any {
        a
    } else if is_upper_named(a) {
        b
    } else if is_upper_named(b) {
        a
    } else {
        and_v_plain(a, b)
    }
}

/// The conjunction cases of [`and_v`] once wildcards and variables are
/// ruled out.
pub open spec fn and_v_plain(a: TyV, b: TyV) -> TyV {
    match (a, b) {
        (TyV::And(ls), TyV::And(rs)) => TyV::And(
            crate::order::dedup_ty(crate::order::sort_ty(ls + rs)),
        ),
        (TyV::And(ls), r) => TyV::And(crate::order::dedup_ty(crate::order::sort_ty(ls.push(r)))),
        (l, TyV::And(rs)) => TyV::And(crate::order::dedup_ty(crate::order::sort_ty(rs.push(l)))),
        (l, r) => TyV::And(seq![l, r]),
    }
}

/// Model of [`Type::domain`]: the domain of an arrow, distributed over a
/// conjunction; the bottom type on any other shape.
pub open spec fn domain_v(t: TyV) -> TyV
    decreases t,
{
    match t {
        TyV::Arrow(p, _) => *p,
        TyV::And(ts) => {
            let cts = domain_seq(ts);
            if cts.len() == 1 {
                cts[0]
            } else {
                TyV::And(cts)
            }
        },
        _ => TyV::And(Seq::empty()),
    }
}

/// Collects [`domain_v`] of each conjunct, splicing nested conjunctions.
pub open spec fn domain_seq(ts: Seq<TyV>) -> Seq<TyV>
    decreases ts,
{
    if ts.len() == 0 {
        Seq::empty()
    } else {
        domain_seq(ts.drop_last()) + flatten_one(domain_v(ts.last()))
    }
}

/// Model of [`Type::range`]: the range of an arrow, distributed over a
/// conjunction; the bottom type on any other shape.
pub open spec fn range_v(t: TyV) -> TyV
    decreases t,
{
    match t {
        TyV::Arrow(_, b) => *b,
        TyV::And(ts) => {
            let cts = range_seq(ts);
            if cts.len() == 1 {
                cts[0]
            } else {
                TyV::And(cts)
            }
        },
        _ => TyV::And(Seq::empty()),
    }
}

/// Collects [`range_v`] of each conjunct, splicing nested conjunctions.
pub open spec fn range_seq(ts: Seq<TyV>) -> Seq<TyV>
    decreases ts,
{
    if ts.len() == 0 {
        Seq::empty()
    } else {
        range_seq(ts.drop_last()) + flatten_one(range_v(ts.last()))
    }
}

/// A type as a one-level list: the members of an `And`, or the type itself.
pub open spec fn flatten_one(t: TyV) -> Seq<TyV> {
    match t {
        TyV::And(ts) => ts,
        _ => seq![t],
    }
}

/// Model of [`Type::vars`]: every nominal name occurring in a type, in
/// left-to-right order.
pub open spec fn vars_v(t: TyV) -> Seq<Seq<char>>
    decreases t,
{
    match t {
        TyV::Any => Seq::empty(),
        TyV::Named(tn, ts) => seq![tn] + vars_seq(ts),
        TyV::Arrow(p, b) => vars_v(*p) + vars_v(*b),
        TyV::Ratio(p, b) => vars_v(*p) + vars_v(*b),
        TyV::And(ts) => vars_seq(ts),
        TyV::Tuple(ts) => vars_seq(ts),
        TyV::Product(ts) => vars_seq(ts),
        TyV::Constant(_, _) => Seq::empty(),
    }
}

/// Concatenation of [`vars_v`] over a sequence of types.
pub open spec fn vars_seq(ts: Seq<TyV>) -> Seq<Seq<char>>
    decreases ts,
{
    if ts.len() == 0 {
        Seq::empty()
    } else {
        vars_seq(ts.drop_last()) + vars_v(ts.last())
    }
}

/// Model of [`Type::is_concrete`]: no `Any` anywhere in the type.
pub open spec fn is_concrete_v(t: TyV) -> bool
    decreases t,
{
    match t {
        TyV::Any => false,
        TyV::Arrow(p, b) => is_concrete_v(*p) && is_concrete_v(*b),
        TyV::Ratio(p, b) => is_concrete_v(*p) && is_concrete_v(*b),
        TyV::Named(_, ts) => concrete_seq(ts),
        TyV::And(ts) => concrete_seq(ts),
        TyV::Tuple(ts) => concrete_seq(ts),
        TyV::Product(ts) => concrete_seq(ts),
        TyV::Constant(_, _) => true,
    }
}

/// Whether every type in a sequence is concrete.
pub open spec fn concrete_seq(ts: Seq<TyV>) -> bool
    decreases ts,
{
    if ts.len() == 0 {
        true
    } else {
        concrete_seq(ts.drop_last()) && is_concrete_v(ts.last())
    }
}


/// Builds the bottom type: the empty conjunction.
pub fn bottom_type() -> (r: Type)
    ensures
        r@ == TyV::And(Seq::<TyV>::empty()),
        is_bottom_v(r@),
{
    let v: Vec<Type> = Vec::new();
    proof {
        assert(ty_seq_view(v@) =~= Seq::<TyV>::empty());
    }
    Type::And(v)
}


/// Model of [`Type::project_ratio`]: the numerator and denominator factor
/// lists of a type, distributing over nested ratios and products; any
/// other shape is a single numerator factor.
pub open spec fn project_ratio_v(t: TyV) -> (Seq<TyV>, Seq<TyV>)
    decreases t,
{
    match t {
        TyV::Ratio(p, b) => {
            let pr = project_ratio_v(*p);
            let br = project_ratio_v(*b);
            (pr.0 + br.1, pr.1 + br.0)
        },
        TyV::Product(ts) => project_ratio_seq(ts),
        _ => (seq![t], Seq::empty()),
    }
}

/// Concatenates the projections of a sequence of factors.
pub open spec fn project_ratio_seq(ts: Seq<TyV>) -> (Seq<TyV>, Seq<TyV>)
    decreases ts,
{
    if ts.len() == 0 {
        (Seq::empty(), Seq::empty())
    } else {
        let pre = project_ratio_seq(ts.drop_last());
        let cur = project_ratio_v(ts.last());
        (pre.0 + cur.0, pre.1 + cur.1)
    }
}

/// First index of `x` in `s`, or -1 when `x` does not occur.
pub open spec fn find_ty(s: Seq<TyV>, x: TyV) -> int
    decreases s.len(),
{
    if s.len() == 0 {
        -1
    } else if s[0] == x {
        0
    } else {
        let r = find_ty(s.drop_first(), x);
        if r == -1 {
            -1
        } else {
            r + 1
        }
    }
}

/// The sequence with the element at `i` removed.
pub open spec fn remove_at(s: Seq<TyV>, i: int) -> Seq<TyV> {
    s.take(i) + s.skip(i + 1)
}

/// Cancels common factors: each denominator factor removes the first
/// matching numerator factor; unmatched denominator factors remain, in
/// order.
pub open spec fn cancel_ratio(num: Seq<TyV>, den: Seq<TyV>) -> (Seq<TyV>, Seq<TyV>)
    decreases den.len(),
{
    if den.len() == 0 {
        (num, Seq::empty())
    } else {
        let i = find_ty(num, den[0]);
        if i >= 0 {
            cancel_ratio(remove_at(num, i), den.drop_first())
        } else {
            let r = cancel_ratio(num, den.drop_first());
            (r.0, seq![den[0]] + r.1)
        }
    }
}

/// Packs cancelled factor lists back into a type: an empty numerator is
/// the unit tuple, a single factor stands alone, several form a sorted
/// product; a denominator wraps the numerator in a ratio. The rebuilt
/// products are sorted so that the normal form keeps its promise that
/// every product has sorted members.
pub open spec fn rebuild_ratio(num: Seq<TyV>, rden: Seq<TyV>) -> TyV {
    let n = if num.len() == 0 {
        TyV::Tuple(Seq::empty())
    } else if num.len() == 1 {
        num[0]
    } else {
        TyV::Product(crate::order::sort_ty(num))
    };
    if rden.len() == 0 {
        n
    } else if rden.len() == 1 {
        TyV::Ratio(Box::new(n), Box::new(rden[0]))
    } else {
        TyV::Ratio(Box::new(n), Box::new(TyV::Product(crate::order::sort_ty(rden))))
    }
}

/// Model of [`Type::simplify_ratio`].
pub open spec fn simplify_ratio_v(t: TyV) -> TyV {
    let pr = project_ratio_v(t);
    let c = cancel_ratio(pr.0, pr.1);
    rebuild_ratio(c.0, c.1)
}

/// Model of [`Type::normalize`]: flatten, sort and deduplicate
/// conjunctions, sort products and simplify ratios, and recurse
/// structurally through other shapes.
pub open spec fn normalize_v(t: TyV) -> TyV
    decreases t,
{
    match t {
        TyV::And(ts) => {
            let cnf = crate::order::dedup_ty(crate::order::sort_ty(flatten_norm(ts)));
            if cnf.len() == 1 {
                cnf[0]
            } else {
                TyV::And(cnf)
            }
        },
        TyV::Product(ts) => simplify_ratio_v(
            TyV::Product(crate::order::sort_ty(normalize_each(ts))),
        ),
        TyV::Tuple(ts) => TyV::Tuple(normalize_each(ts)),
        TyV::Named(tn, ts) => TyV::Named(tn, normalize_each(ts)),
        TyV::Arrow(p, b) => TyV::Arrow(Box::new(normalize_v(*p)), Box::new(normalize_v(*b))),
        TyV::Ratio(_, _) => simplify_ratio_v(t),
        _ => t,
    }
}

/// [`normalize_v`] applied to every element of a sequence.
pub open spec fn normalize_each(ts: Seq<TyV>) -> Seq<TyV>
    decreases ts,
{
    if ts.len() == 0 {
        Seq::empty()
    } else {
        normalize_each(ts.drop_last()).push(normalize_v(ts.last()))
    }
}

/// Normalizes every element and splices members of nested conjunctions.
pub open spec fn flatten_norm(ts: Seq<TyV>) -> Seq<TyV>
    decreases ts,
{
    if ts.len() == 0 {
        Seq::empty()
    } else {
        flatten_norm(ts.drop_last()) + flatten_one(normalize_v(ts.last()))
    }
}

impl Clone for Type {
    /// Deep copy preserving the model of the type.
    fn clone(&self) -> (res: Self)
        ensures
            res@ == self@,
        decreases self,
    {
        match self {
            Type::Any => Type::Any,
            Type::Named(n, ts) => {
                let r = Type::Named(n.clone(), clone_types(ts));
                proof {
                    assert(r@ == TyV::Named(n@, ty_seq_view(ts@)));
                }
                r
            },
            Type::And(ts) => {
                let r = Type::And(clone_types(ts));
                proof {
                    assert(r@ == TyV::And(ty_seq_view(ts@)));
                }
                r
            },
            Type::Arrow(p, b) => Type::Arrow(Box::new((**p).clone()), Box::new((**b).clone())),
            Type::Tuple(ts) => {
                let r = Type::Tuple(clone_types(ts));
                proof {
                    assert(r@ == TyV::Tuple(ty_seq_view(ts@)));
                }
                r
            },
            Type::Product(ts) => {
                let r = Type::Product(clone_types(ts));
                proof {
                    assert(r@ == TyV::Product(ty_seq_view(ts@)));
                }
                r
            },
            Type::Ratio(p, b) => Type::Ratio(Box::new((**p).clone()), Box::new((**b).clone())),
            Type::Constant(v, c) => Type::Constant(*v, *c),
        }
    }
}

/// Deep copy of a list of types, preserving each model.
pub fn clone_types(ts: &Vec<Type>) -> (r: Vec<Type>)
    ensures
        ty_seq_view(r@) == ty_seq_view(ts@),
    decreases ts,
{
    let mut out: Vec<Type> = Vec::new();
    let n = ts.len();
    let mut i: usize = 0;
    while i < n
        invariant
            0 <= i <= n,
            n == ts@.len(),
            ty_seq_view(out@) =~= ty_seq_view(ts@).take(i as int),
        decreases n - i,
    {
        let e = ts[i].clone();
        out.push(e);
        proof {
            let pre = ty_seq_view(ts@).take(i as int);
            let cur = ty_view(ts@[i as int]);
            assert(ty_seq_view(out@) =~= pre.push(cur));
            assert(pre.push(cur) =~= ty_seq_view(ts@).take(i + 1));
        }
        i += 1;
    }
    proof {
        assert(ty_seq_view(ts@).take(n as int) =~= ty_seq_view(ts@));
    }
    out
}


/// Whether every element of a sequence is concrete, stated pointwise.
pub proof fn lemma_concrete_seq(s: Seq<TyV>)
    ensures
        concrete_seq(s) <==> (forall|i: int| 0 <= i < s.len() ==> is_concrete_v(#[trigger] s[i])),
    decreases s.len(),
{
    if s.len() > 0 {
        lemma_concrete_seq(s.drop_last());
        assert(forall|i: int| 0 <= i < s.len() - 1 ==> s[i] == s.drop_last()[i]);
        assert(s.last() == s[s.len() - 1]);
    }
}

/// Appends every element of `src` to `dst`.
fn append_types(dst: &mut Vec<Type>, src: Vec<Type>)
    ensures
        ty_seq_view(final(dst)@) == ty_seq_view(old(dst)@) + ty_seq_view(src@),
{
    let mut src = src;
    let ghost d0 = old(dst)@;
    let ghost s0 = src@;
    dst.append(&mut src);
    proof {
        assert(ty_seq_view(d0 + s0) =~= ty_seq_view(d0) + ty_seq_view(s0));
    }
}

impl Type {
    /// Erases concrete structure for generalization: an uppercase-leading
    /// name becomes `Any`, and a concrete `Named` type keeps its name but
    /// masks its parameters; compound shapes are masked recursively.
    pub fn mask(&self) -> (r: Type)
        ensures
            r@ == mask_v(self@),
        decreases self,
    {
        match self {
            Type::Any => Type::Any,
            Type::Named(tn, ts) => {
                proof {
                    assert(self@ == TyV::Named(tn@, ty_seq_view(ts@)));
                }
                if str_is_upper(tn.as_str()) {
                    Type::Any
                } else {
                    let mut out: Vec<Type> = Vec::new();
                    let n = ts.len();
                    let mut i: usize = 0;
                    while i < n
                        invariant
                            0 <= i <= n,
                            out@.len() == i,
                            forall|j: int| 0 <= j < i ==> out@[j] == Type::Any,
                        decreases n - i,
                    {
                        out.push(Type::Any);
                        i += 1;
                    }
                    let r = Type::Named(tn.clone(), out);
                    proof {
                        assert(r@ == TyV::Named(tn@, ty_seq_view(out@)));
                        assert forall|j: int| 0 <= j < out@.len() implies ty_seq_view(out@)[j]
                            == TyV::Any by {
                            assert(ty_seq_view(out@)[j] == ty_view(out@[j]));
                        }
                        assert(ty_seq_view(out@) =~= Seq::new(ty_seq_view(ts@).len(), |j: int| TyV::Any));
                    }
                    r
                }
            },
            Type::Arrow(p, b) => {
                let r = Type::Arrow(Box::new(p.mask()), Box::new(b.mask()));
                r
            },
            Type::Ratio(p, b) => {
                let r = Type::Ratio(Box::new(p.mask()), Box::new(b.mask()));
                r
            },
            Type::And(ts) => {
                proof {
                    assert(self@ == TyV::And(ty_seq_view(ts@)));
                }
                Type::And(mask_types(ts))
            },
            Type::Tuple(ts) => {
                proof {
                    assert(self@ == TyV::Tuple(ty_seq_view(ts@)));
                }
                Type::Tuple(mask_types(ts))
            },
            Type::Product(ts) => {
                proof {
                    assert(self@ == TyV::Product(ty_seq_view(ts@)));
                }
                Type::Product(mask_types(ts))
            },
            Type::Constant(v, c) => Type::Constant(*v, *c),
        }
    }

    /// Conjoins two types: `Any` and type variables are absorbed, `And`
    /// members are merged, sorted and deduplicated, and two plain types
    /// form a fresh two-member conjunction.
    pub fn and(&self, other: &Type) -> (r: Type)
        ensures
            r@ == and_v(self@, other@),
    {
        if let Type::Any = self {
            return other.clone();
        }
        if let Type::Any = other {
            return self.clone();
        }
        if let Type::Named(lv, _) = self {
            proof {
                assert(is_upper_named(self@) == upper_name(lv@));
            }
            if str_is_upper(lv.as_str()) {
                return other.clone();
            }
        }
        if let Type::Named(rv, _) = other {
            proof {
                assert(is_upper_named(other@) == upper_name(rv@));
            }
            if str_is_upper(rv.as_str()) {
                return self.clone();
            }
        }
        let mut ts: Vec<Type> = Vec::new();
        match (self, other) {
            (Type::And(ls), Type::And(rs)) => {
                proof {
                    assert(self@ == TyV::And(ty_seq_view(ls@)));
                    assert(other@ == TyV::And(ty_seq_view(rs@)));
                }
                ts = clone_types(ls);
                append_types(&mut ts, clone_types(rs));
            },
            (Type::And(ls), _) => {
                proof {
                    assert(self@ == TyV::And(ty_seq_view(ls@)));
                }
                ts = clone_types(ls);
                let oc = other.clone();
                proof {
                    let pre = ty_seq_view(ts@);
                    assert(ty_seq_view(ts@.push(oc)) =~= pre.push(oc@));
                }
                ts.push(oc);
            },
            (_, Type::And(rs)) => {
                proof {
                    assert(other@ == TyV::And(ty_seq_view(rs@)));
                }
                ts = clone_types(rs);
                let sc = self.clone();
                proof {
                    let pre = ty_seq_view(ts@);
                    assert(ty_seq_view(ts@.push(sc)) =~= pre.push(sc@));
                }
                ts.push(sc);
            },
            _ => {
                ts.push(self.clone());
                ts.push(other.clone());
                let r = Type::And(ts);
                proof {
                    assert(r@ == TyV::And(ty_seq_view(r->And_0@)));
                    assert(ty_seq_view(r->And_0@) =~= seq![self@, other@]);
                }
                return r;
            },
        }
        let sorted = crate::order::sort_types(ts);
        let dd = crate::order::dedup_types(sorted);
        let r = Type::And(dd);
        proof {
            assert(r@ == TyV::And(ty_seq_view(dd@)));
        }
        r
    }

    /// The domain of an arrow type, distributed over the members of a
    /// conjunction; on any other shape the bottom type.
    pub fn domain(&self) -> (r: Type)
        ensures
            r@ == domain_v(self@),
        decreases self,
    {
        match self {
            Type::Arrow(p, _b) => {
                proof {
                    assert(self@ == TyV::Arrow(Box::new(ty_view(**p)), Box::new(ty_view(**_b))));
                }
                (**p).clone()
            },
            Type::And(ts) => {
                proof {
                    assert(self@ == TyV::And(ty_seq_view(ts@)));
                }
                let mut cts = domain_types(ts);
                if cts.len() == 1 {
                    let r = cts.pop().unwrap();
                    proof {
                        assert(r@ == domain_seq(ty_seq_view(ts@))[0]);
                    }
                    r
                } else {
                    let r = Type::And(cts);
                    proof {
                        assert(r@ == TyV::And(domain_seq(ty_seq_view(ts@))));
                    }
                    r
                }
            },
            _ => bottom_type(),
        }
    }

    /// The range of an arrow type, distributed over the members of a
    /// conjunction; on any other shape the bottom type.
    pub fn range(&self) -> (r: Type)
        ensures
            r@ == range_v(self@),
        decreases self,
    {
        match self {
            Type::Arrow(_p, b) => {
                proof {
                    assert(self@ == TyV::Arrow(Box::new(ty_view(**_p)), Box::new(ty_view(**b))));
                }
                (**b).clone()
            },
            Type::And(ts) => {
                proof {
                    assert(self@ == TyV::And(ty_seq_view(ts@)));
                }
                let mut cts = range_types(ts);
                if cts.len() == 1 {
                    let r = cts.pop().unwrap();
                    proof {
                        assert(r@ == range_seq(ty_seq_view(ts@))[0]);
                    }
                    r
                } else {
                    let r = Type::And(cts);
                    proof {
                        assert(r@ == TyV::And(range_seq(ty_seq_view(ts@))));
                    }
                    r
                }
            },
            _ => bottom_type(),
        }
    }

    /// Collects every nominal name occurring in the type, in left-to-right
    /// order; used for occurs checks and variable enumeration.
    pub fn vars(&self) -> (r: Vec<String>)
        ensures
            crate::model::str_seq_view(r@) == vars_v(self@),
        decreases self,
    {
        match self {
            Type::Any => Vec::new(),
            Type::Named(tn, ts) => {
                proof {
                    assert(self@ == TyV::Named(tn@, ty_seq_view(ts@)));
                }
                let mut nv: Vec<String> = Vec::new();
                nv.push(tn.clone());
                proof {
                    assert(crate::model::str_seq_view(nv@) =~= seq![tn@]);
                }
                append_strings(&mut nv, vars_types(ts));
                nv
            },
            Type::Arrow(p, b) => {
                let mut pv = p.vars();
                append_strings(&mut pv, b.vars());
                pv
            },
            Type::Ratio(p, b) => {
                let mut pv = p.vars();
                append_strings(&mut pv, b.vars());
                pv
            },
            Type::And(ts) => {
                proof {
                    assert(self@ == TyV::And(ty_seq_view(ts@)));
                }
                vars_types(ts)
            },
            Type::Tuple(ts) => {
                proof {
                    assert(self@ == TyV::Tuple(ty_seq_view(ts@)));
                }
                vars_types(ts)
            },
            Type::Product(ts) => {
                proof {
                    assert(self@ == TyV::Product(ty_seq_view(ts@)));
                }
                vars_types(ts)
            },
            Type::Constant(_, _) => Vec::new(),
        }
    }

    /// Whether the type is concrete: no `Any` occurs anywhere in it. The
    /// bottom type is also concrete.
    pub fn is_concrete(&self) -> (r: bool)
        ensures
            r == is_concrete_v(self@),
        decreases self,
    {
        match self {
            Type::Any => false,
            Type::Arrow(p, b) => p.is_concrete() && b.is_concrete(),
            Type::Ratio(p, b) => p.is_concrete() && b.is_concrete(),
            Type::Named(tn, ts) => {
                proof {
                    assert(self@ == TyV::Named(tn@, ty_seq_view(ts@)));
                }
                concrete_types(ts)
            },
            Type::And(ts) => {
                proof {
                    assert(self@ == TyV::And(ty_seq_view(ts@)));
                }
                concrete_types(ts)
            },
            Type::Tuple(ts) => {
                proof {
                    assert(self@ == TyV::Tuple(ty_seq_view(ts@)));
                }
                concrete_types(ts)
            },
            Type::Product(ts) => {
                proof {
                    assert(self@ == TyV::Product(ty_seq_view(ts@)));
                }
                concrete_types(ts)
            },
            Type::Constant(_, _) => true,
        }
    }
}


/// Collects the domains of a list of conjuncts, splicing nested
/// conjunctions.
fn domain_types(ts: &Vec<Type>) -> (r: Vec<Type>)
    ensures
        ty_seq_view(r@) == domain_seq(ty_seq_view(ts@)),
    decreases ts,
{
    let mut cts: Vec<Type> = Vec::new();
    let n = ts.len();
    let mut i: usize = 0;
    while i < n
        invariant
            0 <= i <= n,
            n == ts@.len(),
            ty_seq_view(cts@) =~= domain_seq(ty_seq_view(ts@).take(i as int)),
        decreases n - i,
    {
        let ghost pre = ty_seq_view(ts@).take(i as int);
        let ghost cur = ty_view(ts@[i as int]);
        let d = ts[i].domain();
        match d {
            Type::And(cta) => {
                proof {
                    assert(domain_v(cur) == TyV::And(ty_seq_view(cta@)));
                }
                append_types(&mut cts, cta);
            },
            ctr => {
                proof {
                    assert(!(domain_v(cur) is And));
                    assert(flatten_one(domain_v(cur)) =~= seq![ctr@]);
                    let prev = ty_seq_view(cts@);
                    assert(ty_seq_view(cts@.push(ctr)) =~= prev.push(ctr@));
                }
                cts.push(ctr);
            },
        }
        proof {
            assert(pre.push(cur) =~= ty_seq_view(ts@).take(i + 1));
            assert(pre.push(cur).drop_last() =~= pre);
            assert(domain_seq(pre.push(cur)) == domain_seq(pre) + flatten_one(domain_v(cur)));
            assert(ty_seq_view(cts@) =~= domain_seq(pre) + flatten_one(domain_v(cur)));
        }
        i += 1;
    }
    proof {
        assert(ty_seq_view(ts@).take(n as int) =~= ty_seq_view(ts@));
    }
    cts
}

/// Collects the ranges of a list of conjuncts, splicing nested
/// conjunctions.
fn range_types(ts: &Vec<Type>) -> (r: Vec<Type>)
    ensures
        ty_seq_view(r@) == range_seq(ty_seq_view(ts@)),
    decreases ts,
{
    let mut cts: Vec<Type> = Vec::new();
    let n = ts.len();
    let mut i: usize = 0;
    while i < n
        invariant
            0 <= i <= n,
            n == ts@.len(),
            ty_seq_view(cts@) =~= range_seq(ty_seq_view(ts@).take(i as int)),
        decreases n - i,
    {
        let ghost pre = ty_seq_view(ts@).take(i as int);
        let ghost cur = ty_view(ts@[i as int]);
        let d = ts[i].range();
        match d {
            Type::And(cta) => {
                proof {
                    assert(range_v(cur) == TyV::And(ty_seq_view(cta@)));
                }
                append_types(&mut cts, cta);
            },
            ctr => {
                proof {
                    assert(!(range_v(cur) is And));
                    assert(flatten_one(range_v(cur)) =~= seq![ctr@]);
                    let prev = ty_seq_view(cts@);
                    assert(ty_seq_view(cts@.push(ctr)) =~= prev.push(ctr@));
                }
                cts.push(ctr);
            },
        }
        proof {
            assert(pre.push(cur) =~= ty_seq_view(ts@).take(i + 1));
            assert(pre.push(cur).drop_last() =~= pre);
            assert(range_seq(pre.push(cur)) == range_seq(pre) + flatten_one(range_v(cur)));
            assert(ty_seq_view(cts@) =~= range_seq(pre) + flatten_one(range_v(cur)));
        }
        i += 1;
    }
    proof {
        assert(ty_seq_view(ts@).take(n as int) =~= ty_seq_view(ts@));
    }
    cts
}


/// Builds the unit type: the empty tuple.
fn unit_tuple() -> (r: Type)
    ensures
        r@ == TyV::Tuple(Seq::<TyV>::empty()),
{
    let v: Vec<Type> = Vec::new();
    proof {
        assert(ty_seq_view(v@) =~= Seq::<TyV>::empty());
    }
    Type::Tuple(v)
}

/// Finds the first element of `v` structurally equal to `x`.
fn find_type(v: &Vec<Type>, x: &Type) -> (r: Option<usize>)
    ensures
        match r {
            Some(i) => i as int == find_ty(ty_seq_view(v@), x@),
            None => find_ty(ty_seq_view(v@), x@) == -1,
        },
{
    proof {
        lemma_find_ty(ty_seq_view(v@), x@);
    }
    let n = v.len();
    let mut i: usize = 0;
    while i < n
        invariant
            0 <= i <= n,
            n == v@.len(),
            forall|j: int| 0 <= j < i ==> ty_seq_view(v@)[j] != x@,
            find_ty(ty_seq_view(v@), x@) == -1 || (0 <= find_ty(ty_seq_view(v@), x@)
                < v@.len() && ty_seq_view(v@)[find_ty(ty_seq_view(v@), x@)] == x@ && forall|j: int|
                0 <= j < find_ty(ty_seq_view(v@), x@) ==> ty_seq_view(v@)[j] != x@),
        decreases n - i,
    {
        if crate::order::eq_type(&v[i], x) {
            proof {
                let s = ty_seq_view(v@);
                let f = find_ty(s, x@);
                lemma_find_ty(s, x@);
                assert(s[i as int] == x@);
                if f == -1 {
                    assert(s[i as int] != x@);
                } else if f < i as int {
                    assert(s[f] != x@);
                } else if f > i as int {
                    assert(s[i as int] != x@);
                }
            }
            return Some(i);
        }
        i += 1;
    }
    None
}

/// Pointwise characterization of [`find_ty`].
pub proof fn lemma_find_ty(s: Seq<TyV>, x: TyV)
    ensures
        find_ty(s, x) == -1 ==> (forall|j: int| 0 <= j < s.len() ==> s[j] != x),
        find_ty(s, x) != -1 ==> 0 <= find_ty(s, x) < s.len() && s[find_ty(s, x)] == x && (forall|
            j: int,
        |
            0 <= j < find_ty(s, x) ==> s[j] != x),
    decreases s.len(),
{
    if s.len() > 0 && s[0] != x {
        lemma_find_ty(s.drop_first(), x);
        assert(forall|j: int| 1 <= j < s.len() ==> s[j] == s.drop_first()[j - 1]);
    }
}

/// Removes the element at index `i`, preserving the order of the rest.
fn remove_type_at(v: Vec<Type>, i: usize) -> (r: Vec<Type>)
    requires
        i < v@.len(),
    ensures
        ty_seq_view(r@) == remove_at(ty_seq_view(v@), i as int),
{
    let mut out: Vec<Type> = Vec::new();
    let n = v.len();
    let mut j: usize = 0;
    while j < n
        invariant
            0 <= j <= n,
            n == v@.len(),
            i < n,
            j <= i ==> ty_seq_view(out@) =~= ty_seq_view(v@).take(j as int),
            j > i ==> ty_seq_view(out@) =~= ty_seq_view(v@).take(i as int) + ty_seq_view(
                v@,
            ).subrange(i + 1, j as int),
        decreases n - j,
    {
        if j != i {
            let ghost pre = ty_seq_view(out@);
            let e = v[j].clone();
            out.push(e);
            proof {
                assert(ty_seq_view(out@) =~= pre.push(ty_view(v@[j as int])));
            }
        }
        proof {
            let sv = ty_seq_view(v@);
            if j + 1 <= i {
                assert(ty_seq_view(out@) =~= sv.take(j + 1));
            } else if j == i {
                assert(ty_seq_view(out@) =~= sv.take(i as int) + sv.subrange(i + 1, i + 1));
            } else {
                assert(ty_seq_view(out@) =~= sv.take(i as int) + sv.subrange(i + 1, j + 1));
            }
        }
        j += 1;
    }
    proof {
        assert(ty_seq_view(out@) =~= remove_at(ty_seq_view(v@), i as int));
    }
    out
}

/// Masks every element of a list of types.
fn mask_types(ts: &Vec<Type>) -> (r: Vec<Type>)
    ensures
        ty_seq_view(r@) == mask_seq(ty_seq_view(ts@)),
    decreases ts,
{
    let mut out: Vec<Type> = Vec::new();
    let n = ts.len();
    let mut i: usize = 0;
    while i < n
        invariant
            0 <= i <= n,
            n == ts@.len(),
            ty_seq_view(out@) =~= mask_seq(ty_seq_view(ts@).take(i as int)),
        decreases n - i,
    {
        let ghost pre = ty_seq_view(ts@).take(i as int);
        let ghost cur = ty_view(ts@[i as int]);
        let m = ts[i].mask();
        out.push(m);
        proof {
            assert(pre.push(cur) =~= ty_seq_view(ts@).take(i + 1));
            assert(pre.push(cur).drop_last() =~= pre);
            assert(mask_seq(pre.push(cur)) == mask_seq(pre).push(mask_v(cur)));
        }
        i += 1;
    }
    proof {
        assert(ty_seq_view(ts@).take(n as int) =~= ty_seq_view(ts@));
    }
    out
}

/// Collects the variables of every element of a list of types.
fn vars_types(ts: &Vec<Type>) -> (r: Vec<String>)
    ensures
        crate::model::str_seq_view(r@) == vars_seq(ty_seq_view(ts@)),
    decreases ts,
{
    let mut out: Vec<String> = Vec::new();
    let n = ts.len();
    let mut i: usize = 0;
    while i < n
        invariant
            0 <= i <= n,
            n == ts@.len(),
            crate::model::str_seq_view(out@) =~= vars_seq(ty_seq_view(ts@).take(i as int)),
        decreases n - i,
    {
        let ghost pre = ty_seq_view(ts@).take(i as int);
        let ghost cur = ty_view(ts@[i as int]);
        let vs = ts[i].vars();
        append_strings(&mut out, vs);
        proof {
            assert(pre.push(cur) =~= ty_seq_view(ts@).take(i + 1));
            assert(pre.push(cur).drop_last() =~= pre);
            assert(vars_seq(pre.push(cur)) == vars_seq(pre) + vars_v(cur));
        }
        i += 1;
    }
    proof {
        assert(ty_seq_view(ts@).take(n as int) =~= ty_seq_view(ts@));
    }
    out
}

/// Whether every element of a list of types is concrete.
fn concrete_types(ts: &Vec<Type>) -> (r: bool)
    ensures
        r == concrete_seq(ty_seq_view(ts@)),
    decreases ts,
{
    let n = ts.len();
    let mut i: usize = 0;
    proof {
        lemma_concrete_seq(ty_seq_view(ts@));
    }
    while i < n
        invariant
            0 <= i <= n,
            n == ts@.len(),
            forall|j: int| 0 <= j < i ==> is_concrete_v(#[trigger] ty_seq_view(ts@)[j]),
            concrete_seq(ty_seq_view(ts@)) <==> (forall|j: int|
                0 <= j < ts@.len() ==> is_concrete_v(#[trigger] ty_seq_view(ts@)[j])),
        decreases n - i,
    {
        if !ts[i].is_concrete() {
            proof {
                assert(!is_concrete_v(ty_seq_view(ts@)[i as int]));
            }
            return false;
        }
        i += 1;
    }
    true
}

/// Appends every element of `src` to `dst`, preserving views.
fn append_strings(dst: &mut Vec<String>, src: Vec<String>)
    ensures
        crate::model::str_seq_view(final(dst)@) == crate::model::str_seq_view(old(dst)@)
            + crate::model::str_seq_view(src@),
{
    let mut src = src;
    let ghost d0 = old(dst)@;
    let ghost s0 = src@;
    dst.append(&mut src);
    proof {
        assert(crate::model::str_seq_view(d0 + s0) =~= crate::model::str_seq_view(d0)
            + crate::model::str_seq_view(s0));
    }
}


impl Type {
    /// Projects a type into its numerator and denominator factor lists,
    /// distributing over nested ratios and products; any other shape is a
    /// single numerator factor.
    pub fn project_ratio(&self) -> (r: (Vec<Type>, Vec<Type>))
        ensures
            ty_seq_view(r.0@) == project_ratio_v(self@).0,
            ty_seq_view(r.1@) == project_ratio_v(self@).1,
        decreases self,
    {
        match self {
            Type::Ratio(p, b) => {
                proof {
                    assert(self@ == TyV::Ratio(Box::new(ty_view(**p)), Box::new(ty_view(**b))));
                }
                let pr = p.project_ratio();
                let br = b.project_ratio();
                let mut pn = pr.0;
                let mut pd = pr.1;
                append_types(&mut pn, br.1);
                append_types(&mut pd, br.0);
                (pn, pd)
            },
            Type::Product(ts) => {
                proof {
                    assert(self@ == TyV::Product(ty_seq_view(ts@)));
                }
                project_ratio_types(ts)
            },
            _ => {
                let mut n: Vec<Type> = Vec::new();
                let d: Vec<Type> = Vec::new();
                n.push(self.clone());
                proof {
                    assert(ty_seq_view(n@) =~= seq![self@]);
                    assert(ty_seq_view(d@) =~= Seq::<TyV>::empty());
                }
                (n, d)
            },
        }
    }

    /// Cancels common numerator and denominator factors of a ratio and
    /// rebuilds the simplest equivalent shape. Each denominator factor
    /// removes the first structurally equal numerator factor; unmatched
    /// denominator factors are kept. Rebuilt products are sorted, so
    /// that simplification lands back in normal form.
    pub fn simplify_ratio(&self) -> (r: Type)
        ensures
            r@ == simplify_ratio_v(self@),
    {
        let pr = self.project_ratio();
        let mut num = pr.0;
        let den = pr.1;
        let mut rden: Vec<Type> = Vec::new();
        let ghost nv0 = ty_seq_view(num@);
        let ghost dv = ty_seq_view(den@);
        let dn = den.len();
        let mut i: usize = 0;
        proof {
            assert(dv.skip(0) =~= dv);
            assert(ty_seq_view(rden@) =~= Seq::<TyV>::empty());
        }
        while i < dn
            invariant
                0 <= i <= dn,
                dn == den@.len(),
                dv == ty_seq_view(den@),
                cancel_ratio(nv0, dv).0 == cancel_ratio(ty_seq_view(num@), dv.skip(i as int)).0,
                cancel_ratio(nv0, dv).1 == ty_seq_view(rden@) + cancel_ratio(
                    ty_seq_view(num@),
                    dv.skip(i as int),
                ).1,
            decreases dn - i,
        {
            let ghost cur_num = ty_seq_view(num@);
            let ghost rest = dv.skip(i as int);
            proof {
                assert(rest[0] == dv[i as int]);
                assert(rest.drop_first() =~= dv.skip(i + 1));
            }
            let pos = find_type(&num, &den[i]);
            match pos {
                Some(ni) => {
                    proof {
                        lemma_find_ty(cur_num, dv[i as int]);
                    }
                    num = remove_type_at(num, ni);
                },
                None => {
                    let ghost pre = ty_seq_view(rden@);
                    let e = den[i].clone();
                    rden.push(e);
                    proof {
                        assert(ty_seq_view(rden@) =~= pre.push(dv[i as int]));
                        let after = cancel_ratio(ty_seq_view(num@), dv.skip(i + 1)).1;
                        assert(pre.push(dv[i as int]) + after =~= pre + (seq![dv[i as int]]
                            + after));
                    }
                },
            }
            i += 1;
        }
        proof {
            assert(dv.skip(dn as int) =~= Seq::<TyV>::empty());
            assert(cancel_ratio(nv0, dv).0 == ty_seq_view(num@));
            assert(ty_seq_view(rden@) + Seq::<TyV>::empty() =~= ty_seq_view(rden@));
            assert(cancel_ratio(nv0, dv).1 == ty_seq_view(rden@));
        }
        let n = if num.len() == 0 {
            unit_tuple()
        } else if num.len() == 1 {
            let x = num.pop().unwrap();
            proof {
                assert(x@ == cancel_ratio(nv0, dv).0[0]);
            }
            x
        } else {
            let sorted = crate::order::sort_types(num);
            let r = Type::Product(sorted);
            proof {
                assert(r@ == TyV::Product(crate::order::sort_ty(cancel_ratio(nv0, dv).0)));
            }
            r
        };
        if rden.len() == 0 {
            n
        } else if rden.len() == 1 {
            let mut rden = rden;
            let d0 = rden.pop().unwrap();
            proof {
                assert(d0@ == cancel_ratio(nv0, dv).1[0]);
            }
            Type::Ratio(Box::new(n), Box::new(d0))
        } else {
            let sorted = crate::order::sort_types(rden);
            let d = Type::Product(sorted);
            proof {
                assert(d@ == TyV::Product(crate::order::sort_ty(cancel_ratio(nv0, dv).1)));
            }
            Type::Ratio(Box::new(n), Box::new(d))
        }
    }

    /// Brings a type to normal form: conjunctions are flattened, sorted
    /// and deduplicated with a singleton collapsing to its member,
    /// products are sorted and ratio-simplified, ratios are simplified,
    /// and other shapes are normalized structurally.
    pub fn normalize(&self) -> (r: Type)
        ensures
            r@ == normalize_v(self@),
        decreases self,
    {
        match self {
            Type::And(ts) => {
                proof {
                    assert(self@ == TyV::And(ty_seq_view(ts@)));
                }
                let cnf = flatten_norm_types(ts);
                let sorted = crate::order::sort_types(cnf);
                let mut dd = crate::order::dedup_types(sorted);
                if dd.len() == 1 {
                    let x = dd.pop().unwrap();
                    proof {
                        assert(x@ == crate::order::dedup_ty(
                            crate::order::sort_ty(flatten_norm(ty_seq_view(ts@))),
                        )[0]);
                    }
                    x
                } else {
                    let r = Type::And(dd);
                    proof {
                        assert(r@ == TyV::And(
                            crate::order::dedup_ty(
                                crate::order::sort_ty(flatten_norm(ty_seq_view(ts@))),
                            ),
                        ));
                    }
                    r
                }
            },
            Type::Product(ts) => {
                proof {
                    assert(self@ == TyV::Product(ty_seq_view(ts@)));
                }
                let ns = normalize_types(ts);
                let sorted = crate::order::sort_types(ns);
                let p = Type::Product(sorted);
                proof {
                    assert(p@ == TyV::Product(crate::order::sort_ty(normalize_each(ty_seq_view(
                        ts@,
                    )))));
                }
                p.simplify_ratio()
            },
            Type::Tuple(ts) => {
                proof {
                    assert(self@ == TyV::Tuple(ty_seq_view(ts@)));
                }
                let r = Type::Tuple(normalize_types(ts));
                proof {
                    assert(r@ == TyV::Tuple(normalize_each(ty_seq_view(ts@))));
                }
                r
            },
            Type::Named(tn, ts) => {
                proof {
                    assert(self@ == TyV::Named(tn@, ty_seq_view(ts@)));
                }
                let r = Type::Named(tn.clone(), normalize_types(ts));
                proof {
                    assert(r@ == TyV::Named(tn@, normalize_each(ty_seq_view(ts@))));
                }
                r
            },
            Type::Arrow(p, b) => {
                proof {
                    assert(self@ == TyV::Arrow(Box::new(ty_view(**p)), Box::new(ty_view(**b))));
                }
                Type::Arrow(Box::new(p.normalize()), Box::new(b.normalize()))
            },
            Type::Ratio(_p, _b) => {
                proof {
                    assert(self@ == TyV::Ratio(
                        Box::new(ty_view(**_p)),
                        Box::new(ty_view(**_b)),
                    ));
                }
                self.simplify_ratio()
            },
            _ => self.clone(),
        }
    }
}

/// Projects every factor of a product, concatenating the results.
fn project_ratio_types(ts: &Vec<Type>) -> (r: (Vec<Type>, Vec<Type>))
    ensures
        ty_seq_view(r.0@) == project_ratio_seq(ty_seq_view(ts@)).0,
        ty_seq_view(r.1@) == project_ratio_seq(ty_seq_view(ts@)).1,
    decreases ts,
{
    let mut tn: Vec<Type> = Vec::new();
    let mut td: Vec<Type> = Vec::new();
    let n = ts.len();
    let mut i: usize = 0;
    while i < n
        invariant
            0 <= i <= n,
            n == ts@.len(),
            ty_seq_view(tn@) =~= project_ratio_seq(ty_seq_view(ts@).take(i as int)).0,
            ty_seq_view(td@) =~= project_ratio_seq(ty_seq_view(ts@).take(i as int)).1,
        decreases n - i,
    {
        let ghost pre = ty_seq_view(ts@).take(i as int);
        let ghost cur = ty_view(ts@[i as int]);
        let pr = ts[i].project_ratio();
        append_types(&mut tn, pr.0);
        append_types(&mut td, pr.1);
        proof {
            assert(pre.push(cur) =~= ty_seq_view(ts@).take(i + 1));
            assert(pre.push(cur).drop_last() =~= pre);
        }
        i += 1;
    }
    proof {
        assert(ty_seq_view(ts@).take(n as int) =~= ty_seq_view(ts@));
    }
    (tn, td)
}

/// Normalizes every element of a list of types.
fn normalize_types(ts: &Vec<Type>) -> (r: Vec<Type>)
    ensures
        ty_seq_view(r@) == normalize_each(ty_seq_view(ts@)),
    decreases ts,
{
    let mut out: Vec<Type> = Vec::new();
    let n = ts.len();
    let mut i: usize = 0;
    while i < n
        invariant
            0 <= i <= n,
            n == ts@.len(),
            ty_seq_view(out@) =~= normalize_each(ty_seq_view(ts@).take(i as int)),
        decreases n - i,
    {
        let ghost pre = ty_seq_view(ts@).take(i as int);
        let ghost cur = ty_view(ts@[i as int]);
        let m = ts[i].normalize();
        out.push(m);
        proof {
            assert(pre.push(cur) =~= ty_seq_view(ts@).take(i + 1));
            assert(pre.push(cur).drop_last() =~= pre);
            assert(normalize_each(pre.push(cur)) == normalize_each(pre).push(normalize_v(cur)));
        }
        i += 1;
    }
    proof {
        assert(ty_seq_view(ts@).take(n as int) =~= ty_seq_view(ts@));
    }
    out
}

/// Normalizes every element, splicing members of nested conjunctions.
fn flatten_norm_types(ts: &Vec<Type>) -> (r: Vec<Type>)
    ensures
        ty_seq_view(r@) == flatten_norm(ty_seq_view(ts@)),
    decreases ts,
{
    let mut out: Vec<Type> = Vec::new();
    let n = ts.len();
    let mut i: usize = 0;
    while i < n
        invariant
            0 <= i <= n,
            n == ts@.len(),
            ty_seq_view(out@) =~= flatten_norm(ty_seq_view(ts@).take(i as int)),
        decreases n - i,
    {
        let ghost pre = ty_seq_view(ts@).take(i as int);
        let ghost cur = ty_view(ts@[i as int]);
        let m = ts[i].normalize();
        match m {
            Type::And(cts) => {
                proof {
                    assert(normalize_v(cur) == TyV::And(ty_seq_view(cts@)));
                }
                append_types(&mut out, cts);
            },
            other => {
                proof {
                    assert(!(normalize_v(cur) is And));
                    assert(flatten_one(normalize_v(cur)) =~= seq![other@]);
                    let prev = ty_seq_view(out@);
                    assert(ty_seq_view(out@.push(other)) =~= prev.push(other@));
                }
                out.push(other);
            },
        }
        proof {
            assert(pre.push(cur) =~= ty_seq_view(ts@).take(i + 1));
            assert(pre.push(cur).drop_last() =~= pre);
            assert(flatten_norm(pre.push(cur)) == flatten_norm(pre) + flatten_one(normalize_v(
                cur,
            )));
        }
        i += 1;
    }
    proof {
        assert(ty_seq_view(ts@).take(n as int) =~= ty_seq_view(ts@));
    }
    out
}


/// Model of [`Type::substitute`]: replace every subterm bound in the map,
/// outermost first.
pub open spec fn substitute_v(t: TyV, m: Map<TyV, TyV>) -> TyV
    decreases t,
{
    if m.contains_key(t) {
        m[t]
    } else {
        match t {
            TyV::Any => TyV::Any,
            TyV::Arrow(p, b) => TyV::Arrow(
                Box::new(substitute_v(*p, m)),
                Box::new(substitute_v(*b, m)),
            ),
            TyV::Ratio(p, b) => TyV::Ratio(
                Box::new(substitute_v(*p, m)),
                Box::new(substitute_v(*b, m)),
            ),
            TyV::Named(tn, ts) => TyV::Named(tn, substitute_each(ts, m)),
            TyV::And(ts) => TyV::And(substitute_each(ts, m)),
            TyV::Tuple(ts) => TyV::Tuple(substitute_each(ts, m)),
            TyV::Product(ts) => TyV::Product(substitute_each(ts, m)),
            TyV::Constant(v, c) => TyV::Constant(v, c),
        }
    }
}

/// [`substitute_v`] applied to every element of a sequence.
pub open spec fn substitute_each(ts: Seq<TyV>, m: Map<TyV, TyV>) -> Seq<TyV>
    decreases ts,
{
    if ts.len() == 0 {
        Seq::empty()
    } else {
        substitute_each(ts.drop_last(), m).push(substitute_v(ts.last(), m))
    }
}

/// Model of [`Type::remove`]: replace every occurrence of `x` with the
/// bottom type, renormalizing at each level.
pub open spec fn remove_v(t: TyV, x: TyV) -> TyV
    decreases t,
{
    if t == x {
        TyV::And(Seq::empty())
    } else {
        normalize_v(
            match t {
                TyV::Any => TyV::Any,
                TyV::Arrow(p, b) => TyV::Arrow(
                    Box::new(remove_v(*p, x)),
                    Box::new(remove_v(*b, x)),
                ),
                TyV::Ratio(p, b) => TyV::Ratio(
                    Box::new(remove_v(*p, x)),
                    Box::new(remove_v(*b, x)),
                ),
                TyV::Named(tn, ts) => TyV::Named(tn, remove_each(ts, x)),
                TyV::And(ts) => TyV::And(remove_each(ts, x)),
                TyV::Tuple(ts) => TyV::Tuple(remove_each(ts, x)),
                TyV::Product(ts) => TyV::Product(remove_each(ts, x)),
                TyV::Constant(v, c) => TyV::Constant(v, c),
            },
        )
    }
}

/// [`remove_v`] applied to every element of a sequence.
pub open spec fn remove_each(ts: Seq<TyV>, x: TyV) -> Seq<TyV>
    decreases ts,
{
    if ts.len() == 0 {
        Seq::empty()
    } else {
        remove_each(ts.drop_last(), x).push(remove_v(ts.last(), x))
    }
}

impl Type {
    /// Applies a substitution: a subterm bound in the map is replaced by
    /// its binding, outermost occurrences first; other shapes are rebuilt
    /// with their children substituted.
    pub fn substitute(&self, subs: &crate::maps::TypeMap) -> (r: Type)
        ensures
            r@ == substitute_v(self@, subs@),
        decreases self,
    {
        if let Some(st) = subs.get(self) {
            return st.clone();
        }
        match self {
            Type::Any => Type::Any,
            Type::Arrow(p, b) => {
                proof {
                    assert(self@ == TyV::Arrow(Box::new(ty_view(**p)), Box::new(ty_view(**b))));
                }
                Type::Arrow(Box::new(p.substitute(subs)), Box::new(b.substitute(subs)))
            },
            Type::Ratio(p, b) => {
                proof {
                    assert(self@ == TyV::Ratio(Box::new(ty_view(**p)), Box::new(ty_view(**b))));
                }
                Type::Ratio(Box::new(p.substitute(subs)), Box::new(b.substitute(subs)))
            },
            Type::Named(tn, ts) => {
                proof {
                    assert(self@ == TyV::Named(tn@, ty_seq_view(ts@)));
                }
                let r = Type::Named(tn.clone(), substitute_types(ts, subs));
                proof {
                    assert(r@ == TyV::Named(tn@, substitute_each(ty_seq_view(ts@), subs@)));
                }
                r
            },
            Type::And(ts) => {
                proof {
                    assert(self@ == TyV::And(ty_seq_view(ts@)));
                }
                let r = Type::And(substitute_types(ts, subs));
                proof {
                    assert(r@ == TyV::And(substitute_each(ty_seq_view(ts@), subs@)));
                }
                r
            },
            Type::Tuple(ts) => {
                proof {
                    assert(self@ == TyV::Tuple(ty_seq_view(ts@)));
                }
                let r = Type::Tuple(substitute_types(ts, subs));
                proof {
                    assert(r@ == TyV::Tuple(substitute_each(ty_seq_view(ts@), subs@)));
                }
                r
            },
            Type::Product(ts) => {
                proof {
                    assert(self@ == TyV::Product(ty_seq_view(ts@)));
                }
                let r = Type::Product(substitute_types(ts, subs));
                proof {
                    assert(r@ == TyV::Product(substitute_each(ty_seq_view(ts@), subs@)));
                }
                r
            },
            Type::Constant(v, c) => Type::Constant(*v, *c),
        }
    }

    /// Replaces every occurrence of `x` in the type with the bottom type
    /// and renormalizes.
    pub fn remove(&self, x: &Type) -> (r: Type)
        ensures
            r@ == remove_v(self@, x@),
        decreases self,
    {
        if crate::order::eq_type(self, x) {
            return bottom_type();
        }
        let shell = match self {
            Type::Any => Type::Any,
            Type::Arrow(p, b) => {
                proof {
                    assert(self@ == TyV::Arrow(Box::new(ty_view(**p)), Box::new(ty_view(**b))));
                }
                Type::Arrow(Box::new(p.remove(x)), Box::new(b.remove(x)))
            },
            Type::Ratio(p, b) => {
                proof {
                    assert(self@ == TyV::Ratio(Box::new(ty_view(**p)), Box::new(ty_view(**b))));
                }
                Type::Ratio(Box::new(p.remove(x)), Box::new(b.remove(x)))
            },
            Type::Named(tn, ts) => {
                proof {
                    assert(self@ == TyV::Named(tn@, ty_seq_view(ts@)));
                }
                let r = Type::Named(tn.clone(), remove_types(ts, x));
                proof {
                    assert(r@ == TyV::Named(tn@, remove_each(ty_seq_view(ts@), x@)));
                }
                r
            },
            Type::And(ts) => {
                proof {
                    assert(self@ == TyV::And(ty_seq_view(ts@)));
                }
                let r = Type::And(remove_types(ts, x));
                proof {
                    assert(r@ == TyV::And(remove_each(ty_seq_view(ts@), x@)));
                }
                r
            },
            Type::Tuple(ts) => {
                proof {
                    assert(self@ == TyV::Tuple(ty_seq_view(ts@)));
                }
                let r = Type::Tuple(remove_types(ts, x));
                proof {
                    assert(r@ == TyV::Tuple(remove_each(ty_seq_view(ts@), x@)));
                }
                r
            },
            Type::Product(ts) => {
                proof {
                    assert(self@ == TyV::Product(ty_seq_view(ts@)));
                }
                let r = Type::Product(remove_types(ts, x));
                proof {
                    assert(r@ == TyV::Product(remove_each(ty_seq_view(ts@), x@)));
                }
                r
            },
            Type::Constant(v, c) => Type::Constant(*v, *c),
        };
        shell.normalize()
    }
}

/// Applies a substitution to every element of a list of types.
fn substitute_types(ts: &Vec<Type>, subs: &crate::maps::TypeMap) -> (r: Vec<Type>)
    ensures
        ty_seq_view(r@) == substitute_each(ty_seq_view(ts@), subs@),
    decreases ts,
{
    let mut out: Vec<Type> = Vec::new();
    let n = ts.len();
    let mut i: usize = 0;
    while i < n
        invariant
            0 <= i <= n,
            n == ts@.len(),
            ty_seq_view(out@) =~= substitute_each(ty_seq_view(ts@).take(i as int), subs@),
        decreases n - i,
    {
        let ghost pre = ty_seq_view(ts@).take(i as int);
        let ghost cur = ty_view(ts@[i as int]);
        let m = ts[i].substitute(subs);
        out.push(m);
        proof {
            assert(pre.push(cur) =~= ty_seq_view(ts@).take(i + 1));
            assert(pre.push(cur).drop_last() =~= pre);
        }
        i += 1;
    }
    proof {
        assert(ty_seq_view(ts@).take(n as int) =~= ty_seq_view(ts@));
    }
    out
}

/// Removes `x` from every element of a list of types.
fn remove_types(ts: &Vec<Type>, x: &Type) -> (r: Vec<Type>)
    ensures
        ty_seq_view(r@) == remove_each(ty_seq_view(ts@), x@),
    decreases ts,
{
    let mut out: Vec<Type> = Vec::new();
    let n = ts.len();
    let mut i: usize = 0;
    while i < n
        invariant
            0 <= i <= n,
            n == ts@.len(),
            ty_seq_view(out@) =~= remove_each(ty_seq_view(ts@).take(i as int), x@),
        decreases n - i,
    {
        let ghost pre = ty_seq_view(ts@).take(i as int);
        let ghost cur = ty_view(ts@[i as int]);
        let m = ts[i].remove(x);
        out.push(m);
        proof {
            assert(pre.push(cur) =~= ty_seq_view(ts@).take(i + 1));
            assert(pre.push(cur).drop_last() =~= pre);
        }
        i += 1;
    }
    proof {
        assert(ty_seq_view(ts@).take(n as int) =~= ty_seq_view(ts@));
    }
    out
}


/// Whether both models are parameterless `Named` atoms with the same
/// all-uppercase name: the one case in which the symmetric unifier
/// matches a type variable. A parameterized uppercase name is no atom
/// and falls through to the name-and-arity rule instead.
pub open spec fn upper_eq_named(a: TyV, b: TyV) -> bool {
    match (a, b) {
        (TyV::Named(lv, lps), TyV::Named(rv, rps)) => upper_name(lv) && lv == rv && lps.len()
            == 0 && rps.len() == 0,
        _ => false,
    }
}

/// Sorts and deduplicates collected conjuncts, collapsing a singleton to
/// its member.
pub open spec fn collapse_and(s: Seq<TyV>) -> TyV {
    let mts = crate::order::dedup_ty(crate::order::sort_ty(s));
    if mts.len() == 1 {
        mts[0]
    } else {
        TyV::And(mts)
    }
}

/// Model of [`Type::most_general_unifier`]. Failure is the bottom type.
pub open spec fn mgu_v(a: TyV, b: TyV) -> TyV
    decreases a, b,
{
    if is_bottom_v(a) || is_bottom_v(b) {
        TyV::And(Seq::empty())
    } else if a is Any && b is Any {
        a
    } else if upper_eq_named(a, b) {
        a
    } else if a is And && b is And {
        collapse_and(mgu_right_seq(a, b->And_0))
    } else if a is And {
        collapse_and(mgu_left_seq(a->And_0, b))
    } else if b is And {
        collapse_and(mgu_right_seq(a, b->And_0))
    } else {
        match (a, b) {
            (TyV::Ratio(pl, bl), TyV::Ratio(pr, br)) => {
                let pt = mgu_v(*pl, *pr);
                if is_bottom_v(pt) {
                    pt
                } else {
                    let bt = mgu_v(*bl, *br);
                    if is_bottom_v(bt) {
                        bt
                    } else {
                        TyV::Ratio(Box::new(pt), Box::new(bt))
                    }
                }
            },
            (lt, TyV::Ratio(pr, br)) => {
                if *br == TyV::Tuple(Seq::<TyV>::empty()) {
                    mgu_v(lt, *pr)
                } else {
                    TyV::And(Seq::empty())
                }
            },
            (TyV::Ratio(pl, bl), rt) => {
                if *bl == TyV::Tuple(Seq::<TyV>::empty()) {
                    mgu_v(*pl, rt)
                } else {
                    TyV::And(Seq::empty())
                }
            },
            (TyV::Named(lv, lps), TyV::Named(rv, rps)) => {
                if lv == rv && lps.len() == rps.len() {
                    let pr = mgu_pairwise(lps, rps);
                    if pr.0 {
                        TyV::Named(lv, pr.1)
                    } else {
                        TyV::And(Seq::empty())
                    }
                } else {
                    TyV::And(Seq::empty())
                }
            },
            (TyV::Arrow(pl, bl), TyV::Arrow(pr, br)) => {
                let pt = if *pl == *pr {
                    *pl
                } else {
                    TyV::And(Seq::empty())
                };
                if is_bottom_v(pt) {
                    pt
                } else {
                    let bt = mgu_v(*bl, *br);
                    if is_bottom_v(bt) {
                        bt
                    } else {
                        TyV::Arrow(Box::new(pt), Box::new(bt))
                    }
                }
            },
            (TyV::Product(la), TyV::Product(ra)) => {
                if la.len() == ra.len() {
                    let pr = mgu_pairwise(la, ra);
                    if pr.0 {
                        TyV::Product(pr.1)
                    } else {
                        TyV::And(Seq::empty())
                    }
                } else {
                    TyV::And(Seq::empty())
                }
            },
            (TyV::Tuple(la), TyV::Tuple(ra)) => {
                if la.len() == ra.len() {
                    let pr = mgu_pairwise(la, ra);
                    if pr.0 {
                        TyV::Tuple(pr.1)
                    } else {
                        TyV::And(Seq::empty())
                    }
                } else {
                    TyV::And(Seq::empty())
                }
            },
            (TyV::Constant(lv, lc), TyV::Constant(rv, rc)) => {
                if lc == rc {
                    TyV::Constant(lv || rv, lc)
                } else {
                    TyV::And(Seq::empty())
                }
            },
            _ => TyV::And(Seq::empty()),
        }
    }
}

/// Unifies `x` against each member of `rts`, splicing conjunction results
/// and dropping failed members.
pub open spec fn mgu_right_seq(x: TyV, rts: Seq<TyV>) -> Seq<TyV>
    decreases x, rts,
{
    if rts.len() == 0 {
        Seq::empty()
    } else {
        mgu_right_seq(x, rts.drop_last()) + flatten_one(mgu_v(x, rts.last()))
    }
}

/// Unifies each member of `lts` against `b`, splicing conjunction results
/// and dropping failed members.
pub open spec fn mgu_left_seq(lts: Seq<TyV>, b: TyV) -> Seq<TyV>
    decreases lts, b,
{
    if lts.len() == 0 {
        Seq::empty()
    } else {
        mgu_left_seq(lts.drop_last(), b) + flatten_one(mgu_v(lts.last(), b))
    }
}

/// Unifies two equal-length parameter lists element-wise: the flag is
/// false as soon as one pair fails.
pub open spec fn mgu_pairwise(la: Seq<TyV>, ra: Seq<TyV>) -> (bool, Seq<TyV>)
    decreases la, ra,
{
    if la.len() == 0 || ra.len() == 0 {
        (true, Seq::empty())
    } else {
        let pre = mgu_pairwise(la.drop_last(), ra.drop_last());
        let m = mgu_v(la.last(), ra.last());
        (pre.0 && !is_bottom_v(m), pre.1.push(m))
    }
}

/// Pointwise characterization of [`mgu_pairwise`] on equal-length lists.
pub proof fn lemma_mgu_pairwise(la: Seq<TyV>, ra: Seq<TyV>)
    requires
        la.len() == ra.len(),
    ensures
        mgu_pairwise(la, ra).0 <==> (forall|i: int|
            0 <= i < la.len() ==> !is_bottom_v(mgu_v(#[trigger] la[i], ra[i]))),
        mgu_pairwise(la, ra).1.len() == la.len(),
        forall|i: int| 0 <= i < la.len() ==> mgu_pairwise(la, ra).1[i] == mgu_v(#[trigger] la[i], ra[i]),
    decreases la.len(),
{
    if la.len() > 0 {
        lemma_mgu_pairwise(la.drop_last(), ra.drop_last());
        assert(forall|i: int|
            0 <= i < la.len() - 1 ==> la[i] == la.drop_last()[i] && ra[i] == ra.drop_last()[i]);
        assert(la.last() == la[la.len() - 1] && ra.last() == ra[ra.len() - 1]);
    }
}

impl Type {
    /// The symmetric most-general unifier. Returns the bottom type when
    /// the two types do not unify: conjunctions distribute pairwise with
    /// failed members dropped, ratios unify componentwise or against a
    /// unit-denominator side, `Named` types need the same name and arity,
    /// arrow domains must be identical while ranges unify recursively,
    /// tuples and products unify element-wise at equal arity, and
    /// constant-indexed types need the same term identifier.
    pub fn most_general_unifier(&self, other: &Type) -> (r: Type)
        ensures
            r@ == mgu_v(self@, other@),
        decreases self, other,
    {
        if self.is_bottom() || other.is_bottom() {
            return bottom_type();
        }
        if let (Type::Any, Type::Any) = (self, other) {
            return Type::Any;
        }
        if let (Type::Named(lv, lps), Type::Named(rv, rps)) = (self, other) {
            proof {
                assert(self@ == TyV::Named(lv@, ty_seq_view(lps@)));
                assert(other@ == TyV::Named(rv@, ty_seq_view(rps@)));
            }
            if lps.len() == 0 && rps.len() == 0 && str_is_upper(lv.as_str()) && *lv == *rv {
                return self.clone();
            }
            proof {
                assert(!upper_eq_named(self@, other@));
            }
        }
        if let Type::And(lts) = self {
            proof {
                assert(self@ == TyV::And(ty_seq_view(lts@)));
            }
            if let Type::And(rts) = other {
                proof {
                    assert(other@ == TyV::And(ty_seq_view(rts@)));
                }
                let collected = mgu_right_list(self, rts);
                return collapse_list(collected);
            }
            let collected = mgu_left_list(lts, other);
            return collapse_list(collected);
        }
        if let Type::And(rts) = other {
            proof {
                assert(other@ == TyV::And(ty_seq_view(rts@)));
            }
            let collected = mgu_right_list(self, rts);
            return collapse_list(collected);
        }
        match (self, other) {
            (Type::Ratio(pl, bl), Type::Ratio(pr, br)) => {
                proof {
                    assert(self@ == TyV::Ratio(Box::new(ty_view(**pl)), Box::new(ty_view(**bl))));
                    assert(other@ == TyV::Ratio(Box::new(ty_view(**pr)), Box::new(ty_view(**br))));
                }
                let pt = pl.most_general_unifier(pr);
                if pt.is_bottom() {
                    return pt;
                }
                let bt = bl.most_general_unifier(br);
                if bt.is_bottom() {
                    return bt;
                }
                Type::Ratio(Box::new(pt), Box::new(bt))
            },
            (lt, Type::Ratio(pr, br)) => {
                proof {
                    assert(other@ == TyV::Ratio(Box::new(ty_view(**pr)), Box::new(ty_view(**br))));
                }
                let unit_den = match &**br {
                    Type::Tuple(bs) => bs.len() == 0,
                    _ => false,
                };
                proof {
                    if ty_view(**br) is Tuple {
                        assert(unit_den == (ty_view(**br) == TyV::Tuple(Seq::<TyV>::empty())))
                            by {
                            if let Type::Tuple(bs) = &**br {
                                assert(ty_view(**br) == TyV::Tuple(ty_seq_view(bs@)));
                                if bs.len() == 0 {
                                    assert(ty_seq_view(bs@) =~= Seq::<TyV>::empty());
                                }
                            }
                        }
                    }
                }
                if unit_den {
                    lt.most_general_unifier(pr)
                } else {
                    bottom_type()
                }
            },
            (Type::Ratio(pl, bl), rt) => {
                proof {
                    assert(self@ == TyV::Ratio(Box::new(ty_view(**pl)), Box::new(ty_view(**bl))));
                }
                let unit_den = match &**bl {
                    Type::Tuple(bs) => bs.len() == 0,
                    _ => false,
                };
                proof {
                    if ty_view(**bl) is Tuple {
                        assert(unit_den == (ty_view(**bl) == TyV::Tuple(Seq::<TyV>::empty())))
                            by {
                            if let Type::Tuple(bs) = &**bl {
                                assert(ty_view(**bl) == TyV::Tuple(ty_seq_view(bs@)));
                                if bs.len() == 0 {
                                    assert(ty_seq_view(bs@) =~= Seq::<TyV>::empty());
                                }
                            }
                        }
                    }
                }
                if unit_den {
                    pl.most_general_unifier(rt)
                } else {
                    bottom_type()
                }
            },
            (Type::Named(lv, lps), Type::Named(rv, rps)) => {
                proof {
                    assert(self@ == TyV::Named(lv@, ty_seq_view(lps@)));
                    assert(other@ == TyV::Named(rv@, ty_seq_view(rps@)));
                }
                if *lv == *rv && lps.len() == rps.len() {
                    let pr = mgu_pair_list(lps, rps);
                    if pr.0 {
                        let r = Type::Named(lv.clone(), pr.1);
                        proof {
                            assert(r@ == TyV::Named(
                                lv@,
                                mgu_pairwise(ty_seq_view(lps@), ty_seq_view(rps@)).1,
                            ));
                        }
                        r
                    } else {
                        bottom_type()
                    }
                } else {
                    bottom_type()
                }
            },
            (Type::Arrow(pl, bl), Type::Arrow(pr, br)) => {
                proof {
                    assert(self@ == TyV::Arrow(Box::new(ty_view(**pl)), Box::new(ty_view(**bl))));
                    assert(other@ == TyV::Arrow(Box::new(ty_view(**pr)), Box::new(ty_view(**br))));
                }
                if crate::order::eq_type(pl, pr) {
                    let pt = (**pl).clone();
                    if pt.is_bottom() {
                        return pt;
                    }
                    let bt = bl.most_general_unifier(br);
                    if bt.is_bottom() {
                        return bt;
                    }
                    Type::Arrow(Box::new(pt), Box::new(bt))
                } else {
                    bottom_type()
                }
            },
            (Type::Product(la), Type::Product(ra)) => {
                proof {
                    assert(self@ == TyV::Product(ty_seq_view(la@)));
                    assert(other@ == TyV::Product(ty_seq_view(ra@)));
                }
                if la.len() == ra.len() {
                    let pr = mgu_pair_list(la, ra);
                    if pr.0 {
                        let r = Type::Product(pr.1);
                        proof {
                            assert(r@ == TyV::Product(
                                mgu_pairwise(ty_seq_view(la@), ty_seq_view(ra@)).1,
                            ));
                        }
                        r
                    } else {
                        bottom_type()
                    }
                } else {
                    bottom_type()
                }
            },
            (Type::Tuple(la), Type::Tuple(ra)) => {
                proof {
                    assert(self@ == TyV::Tuple(ty_seq_view(la@)));
                    assert(other@ == TyV::Tuple(ty_seq_view(ra@)));
                }
                if la.len() == ra.len() {
                    let pr = mgu_pair_list(la, ra);
                    if pr.0 {
                        let r = Type::Tuple(pr.1);
                        proof {
                            assert(r@ == TyV::Tuple(
                                mgu_pairwise(ty_seq_view(la@), ty_seq_view(ra@)).1,
                            ));
                        }
                        r
                    } else {
                        bottom_type()
                    }
                } else {
                    bottom_type()
                }
            },
            (Type::Constant(lv, lc), Type::Constant(rv, rc)) => {
                if lc.id == rc.id {
                    Type::Constant(*lv || *rv, *lc)
                } else {
                    bottom_type()
                }
            },
            _ => bottom_type(),
        }
    }
}

/// Sorts, deduplicates and collapses collected conjuncts into a type.
fn collapse_list(s: Vec<Type>) -> (r: Type)
    ensures
        r@ == collapse_and(ty_seq_view(s@)),
{
    let sorted = crate::order::sort_types(s);
    let mut dd = crate::order::dedup_types(sorted);
    if dd.len() == 1 {
        let x = dd.pop().unwrap();
        proof {
            assert(x@ == crate::order::dedup_ty(crate::order::sort_ty(ty_seq_view(s@)))[0]);
        }
        x
    } else {
        let r = Type::And(dd);
        proof {
            assert(r@ == TyV::And(crate::order::dedup_ty(crate::order::sort_ty(ty_seq_view(s@)))));
        }
        r
    }
}

/// Unifies `x` against each member of `rts`, splicing conjunctions and
/// dropping failures.
fn mgu_right_list(x: &Type, rts: &Vec<Type>) -> (r: Vec<Type>)
    ensures
        ty_seq_view(r@) == mgu_right_seq(x@, ty_seq_view(rts@)),
    decreases x, rts,
{
    let mut out: Vec<Type> = Vec::new();
    let n = rts.len();
    let mut i: usize = 0;
    while i < n
        invariant
            0 <= i <= n,
            n == rts@.len(),
            ty_seq_view(out@) =~= mgu_right_seq(x@, ty_seq_view(rts@).take(i as int)),
        decreases n - i,
    {
        let ghost pre = ty_seq_view(rts@).take(i as int);
        let ghost cur = ty_view(rts@[i as int]);
        let m = x.most_general_unifier(&rts[i]);
        match m {
            Type::And(tts) => {
                proof {
                    assert(mgu_v(x@, cur) == TyV::And(ty_seq_view(tts@)));
                }
                append_types(&mut out, tts);
            },
            t => {
                proof {
                    assert(!(mgu_v(x@, cur) is And));
                    assert(flatten_one(mgu_v(x@, cur)) =~= seq![t@]);
                    let prev = ty_seq_view(out@);
                    assert(ty_seq_view(out@.push(t)) =~= prev.push(t@));
                }
                out.push(t);
            },
        }
        proof {
            assert(pre.push(cur) =~= ty_seq_view(rts@).take(i + 1));
            assert(pre.push(cur).drop_last() =~= pre);
        }
        i += 1;
    }
    proof {
        assert(ty_seq_view(rts@).take(n as int) =~= ty_seq_view(rts@));
    }
    out
}

/// Unifies each member of `lts` against `b`, splicing conjunctions and
/// dropping failures.
fn mgu_left_list(lts: &Vec<Type>, b: &Type) -> (r: Vec<Type>)
    ensures
        ty_seq_view(r@) == mgu_left_seq(ty_seq_view(lts@), b@),
    decreases lts, b,
{
    let mut out: Vec<Type> = Vec::new();
    let n = lts.len();
    let mut i: usize = 0;
    while i < n
        invariant
            0 <= i <= n,
            n == lts@.len(),
            ty_seq_view(out@) =~= mgu_left_seq(ty_seq_view(lts@).take(i as int), b@),
        decreases n - i,
    {
        let ghost pre = ty_seq_view(lts@).take(i as int);
        let ghost cur = ty_view(lts@[i as int]);
        let m = lts[i].most_general_unifier(b);
        match m {
            Type::And(tts) => {
                proof {
                    assert(mgu_v(cur, b@) == TyV::And(ty_seq_view(tts@)));
                }
                append_types(&mut out, tts);
            },
            t => {
                proof {
                    assert(!(mgu_v(cur, b@) is And));
                    assert(flatten_one(mgu_v(cur, b@)) =~= seq![t@]);
                    let prev = ty_seq_view(out@);
                    assert(ty_seq_view(out@.push(t)) =~= prev.push(t@));
                }
                out.push(t);
            },
        }
        proof {
            assert(pre.push(cur) =~= ty_seq_view(lts@).take(i + 1));
            assert(pre.push(cur).drop_last() =~= pre);
        }
        i += 1;
    }
    proof {
        assert(ty_seq_view(lts@).take(n as int) =~= ty_seq_view(lts@));
    }
    out
}

/// Unifies two equal-length lists element-wise, reporting failure as soon
/// as one pair yields bottom.
fn mgu_pair_list(la: &Vec<Type>, ra: &Vec<Type>) -> (r: (bool, Vec<Type>))
    requires
        la@.len() == ra@.len(),
    ensures
        r.0 == mgu_pairwise(ty_seq_view(la@), ty_seq_view(ra@)).0,
        r.0 ==> ty_seq_view(r.1@) == mgu_pairwise(ty_seq_view(la@), ty_seq_view(ra@)).1,
    decreases la, ra,
{
    proof {
        lemma_mgu_pairwise(ty_seq_view(la@), ty_seq_view(ra@));
    }
    let mut out: Vec<Type> = Vec::new();
    let n = la.len();
    let mut i: usize = 0;
    while i < n
        invariant
            0 <= i <= n,
            n == la@.len(),
            n == ra@.len(),
            out@.len() == i,
            forall|j: int|
                0 <= j < i ==> !is_bottom_v(
                    mgu_v(#[trigger] ty_seq_view(la@)[j], ty_seq_view(ra@)[j]),
                ),
            forall|j: int|
                0 <= j < i ==> ty_seq_view(out@)[j] == mgu_v(
                    #[trigger] ty_seq_view(la@)[j],
                    ty_seq_view(ra@)[j],
                ),
        decreases n - i,
    {
        let m = la[i].most_general_unifier(&ra[i]);
        if m.is_bottom() {
            proof {
                lemma_mgu_pairwise(ty_seq_view(la@), ty_seq_view(ra@));
                assert(is_bottom_v(mgu_v(ty_seq_view(la@)[i as int], ty_seq_view(ra@)[i as int])));
            }
            return (false, Vec::new());
        }
        let ghost prev = ty_seq_view(out@);
        out.push(m);
        proof {
            assert(ty_seq_view(out@) =~= prev.push(mgu_v(
                ty_seq_view(la@)[i as int],
                ty_seq_view(ra@)[i as int],
            )));
        }
        i += 1;
    }
    proof {
        lemma_mgu_pairwise(ty_seq_view(la@), ty_seq_view(ra@));
        let lv = ty_seq_view(la@);
        let rv = ty_seq_view(ra@);
        assert forall|j: int| 0 <= j < n implies ty_seq_view(out@)[j] == mgu_pairwise(lv, rv).1[j] by {
            assert(ty_seq_view(out@)[j] == mgu_v(lv[j], rv[j]));
        }
        assert(ty_seq_view(out@) =~= mgu_pairwise(lv, rv).1);
    }
    (true, out)
}


/// Model of the recursive pass of [`Type::implication_unifier`]: the
/// unified skeleton together with the variable substitutions collected
/// along the way, in discovery order.
pub open spec fn iu_v(a: TyV, b: TyV) -> (TyV, Seq<(TyV, TyV)>)
    decreases crate::model::size_v(a) + crate::model::size_v(b), 0nat,
{
    if is_bottom_v(a) || is_bottom_v(b) {
        (TyV::And(Seq::empty()), Seq::empty())
    } else if b is Any {
        (a, Seq::empty())
    } else if is_var_v(a) {
        (a, seq![(a, b)])
    } else if is_var_v(b) {
        (b, seq![(b, a)])
    } else if a is And && b is And {
        let h = iu_right_seq(a, b->And_0);
        if !h.0 {
            (TyV::And(Seq::empty()), h.2)
        } else {
            (collapse_and(h.1), h.2)
        }
    } else if a is And {
        let h = iu_left_seq(a->And_0, b);
        (collapse_and(h.0), h.1)
    } else if b is And {
        let h = iu_right_seq(a, b->And_0);
        if !h.0 {
            (TyV::And(Seq::empty()), h.2)
        } else {
            (collapse_and(h.1), h.2)
        }
    } else {
        match (a, b) {
            (TyV::Ratio(pl, bl), TyV::Ratio(pr, br)) => {
                let p = iu_v(*pl, *pr);
                if is_bottom_v(p.0) {
                    (p.0, p.1)
                } else {
                    let q = iu_v(*bl, *br);
                    if is_bottom_v(q.0) {
                        (q.0, p.1 + q.1)
                    } else {
                        (TyV::Ratio(Box::new(p.0), Box::new(q.0)), p.1 + q.1)
                    }
                }
            },
            (lt, TyV::Ratio(pr, br)) => {
                if *br == TyV::Tuple(Seq::<TyV>::empty()) {
                    iu_v(lt, *pr)
                } else {
                    (TyV::And(Seq::empty()), Seq::empty())
                }
            },
            (TyV::Ratio(pl, bl), rt) => {
                if *bl == TyV::Tuple(Seq::<TyV>::empty()) {
                    iu_v(*pl, rt)
                } else {
                    (TyV::And(Seq::empty()), Seq::empty())
                }
            },
            (TyV::Named(lv, lps), TyV::Named(rv, rps)) => {
                if lv == rv && lps.len() == rps.len() {
                    let h = iu_pair_named(lps, rps);
                    if h.0 {
                        (TyV::Named(lv, h.1), h.2)
                    } else {
                        (TyV::And(Seq::empty()), h.2)
                    }
                } else {
                    (TyV::And(Seq::empty()), Seq::empty())
                }
            },
            (TyV::Arrow(pl, bl), TyV::Arrow(pr, br)) => {
                let p = iu_v(*pr, *pl);
                if is_bottom_v(p.0) {
                    (p.0, p.1)
                } else {
                    let q = iu_v(*bl, *br);
                    if is_bottom_v(q.0) {
                        (q.0, p.1 + q.1)
                    } else {
                        (TyV::Arrow(Box::new(p.0), Box::new(q.0)), p.1 + q.1)
                    }
                }
            },
            (TyV::Product(la), TyV::Product(ra)) => {
                if la.len() == ra.len() {
                    let h = iu_pair_plain(la, ra);
                    if h.0 {
                        (TyV::Product(h.1), h.2)
                    } else {
                        (TyV::And(Seq::empty()), h.2)
                    }
                } else {
                    (TyV::And(Seq::empty()), Seq::empty())
                }
            },
            (TyV::Tuple(la), TyV::Tuple(ra)) => {
                if la.len() == ra.len() {
                    let h = iu_pair_plain(la, ra);
                    if h.0 {
                        (TyV::Tuple(h.1), h.2)
                    } else {
                        (TyV::And(Seq::empty()), h.2)
                    }
                } else {
                    (TyV::And(Seq::empty()), Seq::empty())
                }
            },
            (TyV::Constant(lv, lc), TyV::Constant(rv, rc)) => {
                if lc == rc {
                    (TyV::Constant(lv || rv, lc), Seq::empty())
                } else {
                    (TyV::And(Seq::empty()), Seq::empty())
                }
            },
            _ => (TyV::And(Seq::empty()), Seq::empty()),
        }
    }
}

/// Implies `x` against each member of `rts`, stopping at the first
/// failure; the flag reports success, and substitutions collected before
/// the stop are kept.
pub open spec fn iu_right_seq(x: TyV, rts: Seq<TyV>) -> (bool, Seq<TyV>, Seq<(TyV, TyV)>)
    decreases crate::model::size_v(x) + crate::model::size_seq(rts), 1nat + rts.len(),
{
    if rts.len() == 0 {
        (true, Seq::empty(), Seq::empty())
    } else {
        let pre = iu_right_seq(x, rts.drop_last());
        if !pre.0 {
            pre
        } else {
            let r = iu_v(x, rts.last());
            if is_bottom_v(r.0) {
                (false, Seq::empty(), pre.2 + r.1)
            } else {
                (true, pre.1 + flatten_one(r.0), pre.2 + r.1)
            }
        }
    }
}

/// Implies each member of `lts` against `b`; failed members contribute
/// nothing, and every member's substitutions are kept.
pub open spec fn iu_left_seq(lts: Seq<TyV>, b: TyV) -> (Seq<TyV>, Seq<(TyV, TyV)>)
    decreases crate::model::size_seq(lts) + crate::model::size_v(b), 1nat + lts.len(),
{
    if lts.len() == 0 {
        (Seq::empty(), Seq::empty())
    } else {
        let pre = iu_left_seq(lts.drop_last(), b);
        let r = iu_v(lts.last(), b);
        (pre.0 + flatten_one(r.0), pre.1 + r.1)
    }
}

/// Implies two equal-length parameter lists element-wise, stopping at the
/// first failure; a successful pair is implied twice, so its
/// substitutions are recorded twice.
pub open spec fn iu_pair_named(la: Seq<TyV>, ra: Seq<TyV>) -> (bool, Seq<TyV>, Seq<(TyV, TyV)>)
    decreases crate::model::size_seq(la) + crate::model::size_seq(ra), 1nat + la.len(),
{
    if la.len() == 0 || ra.len() == 0 {
        (true, Seq::empty(), Seq::empty())
    } else {
        let pre = iu_pair_named(la.drop_last(), ra.drop_last());
        if !pre.0 {
            pre
        } else {
            let r = iu_v(la.last(), ra.last());
            if is_bottom_v(r.0) {
                (false, Seq::empty(), pre.2 + r.1)
            } else {
                (true, pre.1.push(r.0), pre.2 + r.1 + r.1)
            }
        }
    }
}

/// Implies two equal-length element lists element-wise, stopping at the
/// first failure.
pub open spec fn iu_pair_plain(la: Seq<TyV>, ra: Seq<TyV>) -> (bool, Seq<TyV>, Seq<(TyV, TyV)>)
    decreases crate::model::size_seq(la) + crate::model::size_seq(ra), 1nat + la.len(),
{
    if la.len() == 0 || ra.len() == 0 {
        (true, Seq::empty(), Seq::empty())
    } else {
        let pre = iu_pair_plain(la.drop_last(), ra.drop_last());
        if !pre.0 {
            pre
        } else {
            let r = iu_v(la.last(), ra.last());
            if is_bottom_v(r.0) {
                (false, Seq::empty(), pre.2 + r.1)
            } else {
                (true, pre.1.push(r.0), pre.2 + r.1)
            }
        }
    }
}

/// Folds collected substitutions into a single mapping, merging repeated
/// bindings of a variable with the symmetric unifier; `None` reports a
/// conflict.
pub open spec fn resolve_subs(subs: Seq<(TyV, TyV)>) -> Option<Map<TyV, TyV>>
    decreases subs.len(),
{
    if subs.len() == 0 {
        Some(Map::empty())
    } else {
        match resolve_subs(subs.drop_last()) {
            None => None,
            Some(m) => {
                let lt = subs.last().0;
                let rt = subs.last().1;
                if m.contains_key(lt) {
                    let merged = mgu_v(m[lt], rt);
                    if is_bottom_v(merged) {
                        None
                    } else {
                        Some(m.insert(lt, merged))
                    }
                } else {
                    Some(m.insert(lt, rt))
                }
            },
        }
    }
}

/// Model of [`Type::implication_unifier`]: the collected substitutions
/// are resolved and applied to the unified skeleton; a conflict yields
/// the bottom type.
pub open spec fn implication_unifier_v(a: TyV, b: TyV) -> TyV {
    let r = iu_v(a, b);
    match resolve_subs(r.1) {
        None => TyV::And(Seq::empty()),
        Some(m) => substitute_v(r.0, m),
    }
}

/// A conflict in a prefix of the substitutions poisons the whole
/// resolution.
pub proof fn lemma_resolve_prefix_none(subs: Seq<(TyV, TyV)>, i: int)
    requires
        0 <= i <= subs.len(),
        resolve_subs(subs.take(i)) is None,
    ensures
        resolve_subs(subs) is None,
    decreases subs.len(),
{
    if subs.len() > i {
        assert(subs.drop_last().take(i) =~= subs.take(i));
        lemma_resolve_prefix_none(subs.drop_last(), i);
    } else {
        assert(subs.take(i) =~= subs);
    }
}


/// Once a member has failed, the members after it are not visited.
proof fn lemma_iu_right_stops(x: TyV, rts: Seq<TyV>, i: int)
    requires
        0 <= i <= rts.len(),
        !iu_right_seq(x, rts.take(i)).0,
    ensures
        iu_right_seq(x, rts) == iu_right_seq(x, rts.take(i)),
    decreases rts.len(),
{
    if rts.len() > i {
        assert(rts.drop_last().take(i) =~= rts.take(i));
        lemma_iu_right_stops(x, rts.drop_last(), i);
    } else {
        assert(rts.take(i) =~= rts);
    }
}

/// Once a parameter pair has failed, the pairs after it are not visited.
proof fn lemma_iu_pair_named_stops(la: Seq<TyV>, ra: Seq<TyV>, i: int)
    requires
        0 <= i <= la.len(),
        la.len() == ra.len(),
        !iu_pair_named(la.take(i), ra.take(i)).0,
    ensures
        iu_pair_named(la, ra) == iu_pair_named(la.take(i), ra.take(i)),
    decreases la.len(),
{
    if la.len() > i {
        assert(la.drop_last().take(i) =~= la.take(i));
        assert(ra.drop_last().take(i) =~= ra.take(i));
        lemma_iu_pair_named_stops(la.drop_last(), ra.drop_last(), i);
    } else {
        assert(la.take(i) =~= la);
        assert(ra.take(i) =~= ra);
    }
}

/// Once an element pair has failed, the pairs after it are not visited.
proof fn lemma_iu_pair_plain_stops(la: Seq<TyV>, ra: Seq<TyV>, i: int)
    requires
        0 <= i <= la.len(),
        la.len() == ra.len(),
        !iu_pair_plain(la.take(i), ra.take(i)).0,
    ensures
        iu_pair_plain(la, ra) == iu_pair_plain(la.take(i), ra.take(i)),
    decreases la.len(),
{
    if la.len() > i {
        assert(la.drop_last().take(i) =~= la.take(i));
        assert(ra.drop_last().take(i) =~= ra.take(i));
        lemma_iu_pair_plain_stops(la.drop_last(), ra.drop_last(), i);
    } else {
        assert(la.take(i) =~= la);
        assert(ra.take(i) =~= ra);
    }
}

impl Type {
    /// The recursive pass of the implication unifier; collected variable
    /// substitutions are appended to `subs` in discovery order.
    fn implication_sub(&self, other: &Type, subs: &mut Vec<(Type, Type)>) -> (r: Type)
        ensures
            r@ == iu_v(self@, other@).0,
            crate::model::pair_seq_view(final(subs)@) == crate::model::pair_seq_view(old(subs)@)
                + iu_v(self@, other@).1,
        decreases crate::model::size_v(self@) + crate::model::size_v(other@), 0nat,
    {
        let ghost s0 = crate::model::pair_seq_view(subs@);
        if self.is_bottom() || other.is_bottom() {
            proof {
                assert(s0 + Seq::<(TyV, TyV)>::empty() =~= s0);
            }
            return bottom_type();
        }
        if let Type::Any = other {
            proof {
                assert(s0 + Seq::<(TyV, TyV)>::empty() =~= s0);
            }
            return self.clone();
        }
        if let Type::Named(lv, lps) = self {
            proof {
                assert(self@ == TyV::Named(lv@, ty_seq_view(lps@)));
            }
            if lps.len() == 0 && str_is_upper(lv.as_str()) {
                let ghost pre = subs@;
                subs.push((self.clone(), other.clone()));
                proof {
                    assert(subs@.drop_last() =~= pre);
                    assert(crate::model::pair_seq_view(subs@) =~= s0.push((self@, other@)));
                    assert(s0 + seq![(self@, other@)] =~= s0.push((self@, other@)));
                }
                return self.clone();
            }
            proof {
                assert(!is_var_v(self@));
            }
        }
        if let Type::Named(rv, rps) = other {
            proof {
                assert(other@ == TyV::Named(rv@, ty_seq_view(rps@)));
            }
            if rps.len() == 0 && str_is_upper(rv.as_str()) {
                let ghost pre = subs@;
                subs.push((other.clone(), self.clone()));
                proof {
                    assert(subs@.drop_last() =~= pre);
                    assert(crate::model::pair_seq_view(subs@) =~= s0.push((other@, self@)));
                    assert(s0 + seq![(other@, self@)] =~= s0.push((other@, self@)));
                }
                return other.clone();
            }
            proof {
                assert(!is_var_v(other@));
            }
        }
        if let Type::And(lts) = self {
            proof {
                assert(self@ == TyV::And(ty_seq_view(lts@)));
            }
            if let Type::And(rts) = other {
                proof {
                    assert(other@ == TyV::And(ty_seq_view(rts@)));
                }
                let h = iu_right_list(self, rts, subs);
                if !h.0 {
                    return bottom_type();
                }
                return collapse_list(h.1);
            }
            let h = iu_left_list(lts, other, subs);
            return collapse_list(h);
        }
        if let Type::And(rts) = other {
            proof {
                assert(other@ == TyV::And(ty_seq_view(rts@)));
            }
            let h = iu_right_list(self, rts, subs);
            if !h.0 {
                return bottom_type();
            }
            return collapse_list(h.1);
        }
        match (self, other) {
            (Type::Ratio(pl, bl), Type::Ratio(pr, br)) => {
                proof {
                    assert(self@ == TyV::Ratio(Box::new(ty_view(**pl)), Box::new(ty_view(**bl))));
                    assert(other@ == TyV::Ratio(Box::new(ty_view(**pr)), Box::new(ty_view(**br))));
                }
                let pt = pl.implication_sub(pr, subs);
                if pt.is_bottom() {
                    proof {
                        assert(pt@ == TyV::And(Seq::<TyV>::empty())) by {
                            if let TyV::And(e) = pt@ {
                                assert(e =~= Seq::<TyV>::empty());
                            }
                        }
                    }
                    return pt;
                }
                let bt = bl.implication_sub(br, subs);
                if bt.is_bottom() {
                    proof {
                        assert(bt@ == TyV::And(Seq::<TyV>::empty())) by {
                            if let TyV::And(e) = bt@ {
                                assert(e =~= Seq::<TyV>::empty());
                            }
                        }
                        assert(s0 + (iu_v(ty_view(**pl), ty_view(**pr)).1 + iu_v(
                            ty_view(**bl),
                            ty_view(**br),
                        ).1) =~= (s0 + iu_v(ty_view(**pl), ty_view(**pr)).1) + iu_v(
                            ty_view(**bl),
                            ty_view(**br),
                        ).1);
                    }
                    return bt;
                }
                proof {
                    assert(s0 + (iu_v(ty_view(**pl), ty_view(**pr)).1 + iu_v(
                        ty_view(**bl),
                        ty_view(**br),
                    ).1) =~= (s0 + iu_v(ty_view(**pl), ty_view(**pr)).1) + iu_v(
                        ty_view(**bl),
                        ty_view(**br),
                    ).1);
                }
                Type::Ratio(Box::new(pt), Box::new(bt))
            },
            (lt, Type::Ratio(pr, br)) => {
                proof {
                    assert(other@ == TyV::Ratio(Box::new(ty_view(**pr)), Box::new(ty_view(**br))));
                }
                let unit_den = match &**br {
                    Type::Tuple(bs) => bs.len() == 0,
                    _ => false,
                };
                proof {
                    if ty_view(**br) is Tuple {
                        assert(unit_den == (ty_view(**br) == TyV::Tuple(Seq::<TyV>::empty())))
                            by {
                            if let Type::Tuple(bs) = &**br {
                                assert(ty_view(**br) == TyV::Tuple(ty_seq_view(bs@)));
                                if bs.len() == 0 {
                                    assert(ty_seq_view(bs@) =~= Seq::<TyV>::empty());
                                }
                            }
                        }
                    }
                }
                if unit_den {
                    lt.implication_sub(pr, subs)
                } else {
                    proof {
                        assert(s0 + Seq::<(TyV, TyV)>::empty() =~= s0);
                    }
                    bottom_type()
                }
            },
            (Type::Ratio(pl, bl), rt) => {
                proof {
                    assert(self@ == TyV::Ratio(Box::new(ty_view(**pl)), Box::new(ty_view(**bl))));
                }
                let unit_den = match &**bl {
                    Type::Tuple(bs) => bs.len() == 0,
                    _ => false,
                };
                proof {
                    if ty_view(**bl) is Tuple {
                        assert(unit_den == (ty_view(**bl) == TyV::Tuple(Seq::<TyV>::empty())))
                            by {
                            if let Type::Tuple(bs) = &**bl {
                                assert(ty_view(**bl) == TyV::Tuple(ty_seq_view(bs@)));
                                if bs.len() == 0 {
                                    assert(ty_seq_view(bs@) =~= Seq::<TyV>::empty());
                                }
                            }
                        }
                    }
                }
                if unit_den {
                    pl.implication_sub(rt, subs)
                } else {
                    proof {
                        assert(s0 + Seq::<(TyV, TyV)>::empty() =~= s0);
                    }
                    bottom_type()
                }
            },
            (Type::Named(lv, lps), Type::Named(rv, rps)) => {
                proof {
                    assert(self@ == TyV::Named(lv@, ty_seq_view(lps@)));
                    assert(other@ == TyV::Named(rv@, ty_seq_view(rps@)));
                }
                if *lv == *rv && lps.len() == rps.len() {
                    let h = iu_pair_named_list(lps, rps, subs);
                    if h.0 {
                        let r = Type::Named(lv.clone(), h.1);
                        proof {
                            assert(r@ == TyV::Named(
                                lv@,
                                iu_pair_named(ty_seq_view(lps@), ty_seq_view(rps@)).1,
                            ));
                        }
                        r
                    } else {
                        bottom_type()
                    }
                } else {
                    proof {
                        assert(s0 + Seq::<(TyV, TyV)>::empty() =~= s0);
                    }
                    bottom_type()
                }
            },
            (Type::Arrow(pl, bl), Type::Arrow(pr, br)) => {
                proof {
                    assert(self@ == TyV::Arrow(Box::new(ty_view(**pl)), Box::new(ty_view(**bl))));
                    assert(other@ == TyV::Arrow(Box::new(ty_view(**pr)), Box::new(ty_view(**br))));
                }
                let pt = pr.implication_sub(pl, subs);
                if pt.is_bottom() {
                    proof {
                        assert(pt@ == TyV::And(Seq::<TyV>::empty())) by {
                            if let TyV::And(e) = pt@ {
                                assert(e =~= Seq::<TyV>::empty());
                            }
                        }
                    }
                    return pt;
                }
                let bt = bl.implication_sub(br, subs);
                if bt.is_bottom() {
                    proof {
                        assert(bt@ == TyV::And(Seq::<TyV>::empty())) by {
                            if let TyV::And(e) = bt@ {
                                assert(e =~= Seq::<TyV>::empty());
                            }
                        }
                        assert(s0 + (iu_v(ty_view(**pr), ty_view(**pl)).1 + iu_v(
                            ty_view(**bl),
                            ty_view(**br),
                        ).1) =~= (s0 + iu_v(ty_view(**pr), ty_view(**pl)).1) + iu_v(
                            ty_view(**bl),
                            ty_view(**br),
                        ).1);
                    }
                    return bt;
                }
                proof {
                    assert(s0 + (iu_v(ty_view(**pr), ty_view(**pl)).1 + iu_v(
                        ty_view(**bl),
                        ty_view(**br),
                    ).1) =~= (s0 + iu_v(ty_view(**pr), ty_view(**pl)).1) + iu_v(
                        ty_view(**bl),
                        ty_view(**br),
                    ).1);
                }
                Type::Arrow(Box::new(pt), Box::new(bt))
            },
            (Type::Product(la), Type::Product(ra)) => {
                proof {
                    assert(self@ == TyV::Product(ty_seq_view(la@)));
                    assert(other@ == TyV::Product(ty_seq_view(ra@)));
                }
                if la.len() == ra.len() {
                    let h = iu_pair_plain_list(la, ra, subs);
                    if h.0 {
                        let r = Type::Product(h.1);
                        proof {
                            assert(r@ == TyV::Product(
                                iu_pair_plain(ty_seq_view(la@), ty_seq_view(ra@)).1,
                            ));
                        }
                        r
                    } else {
                        bottom_type()
                    }
                } else {
                    proof {
                        assert(s0 + Seq::<(TyV, TyV)>::empty() =~= s0);
                    }
                    bottom_type()
                }
            },
            (Type::Tuple(la), Type::Tuple(ra)) => {
                proof {
                    assert(self@ == TyV::Tuple(ty_seq_view(la@)));
                    assert(other@ == TyV::Tuple(ty_seq_view(ra@)));
                }
                if la.len() == ra.len() {
                    let h = iu_pair_plain_list(la, ra, subs);
                    if h.0 {
                        let r = Type::Tuple(h.1);
                        proof {
                            assert(r@ == TyV::Tuple(
                                iu_pair_plain(ty_seq_view(la@), ty_seq_view(ra@)).1,
                            ));
                        }
                        r
                    } else {
                        bottom_type()
                    }
                } else {
                    proof {
                        assert(s0 + Seq::<(TyV, TyV)>::empty() =~= s0);
                    }
                    bottom_type()
                }
            },
            (Type::Constant(lv, lc), Type::Constant(rv, rc)) => {
                proof {
                    assert(s0 + Seq::<(TyV, TyV)>::empty() =~= s0);
                }
                if lc.id == rc.id {
                    Type::Constant(*lv || *rv, *lc)
                } else {
                    bottom_type()
                }
            },
            _ => {
                proof {
                    assert(s0 + Seq::<(TyV, TyV)>::empty() =~= s0);
                }
                bottom_type()
            },
        }
    }

    /// The asymmetric implication unifier, `self` implying `other`. In
    /// addition to unifying shapes it solves type variables: a
    /// parameterless all-uppercase `Named` atom on either side is bound
    /// to the other side; the collected bindings are merged (conflicts resolved with
    /// the symmetric unifier) and the resulting substitution is applied
    /// to the unified skeleton. Arrow domains unify contravariantly.
    /// Failure, including a conflicting substitution, is the bottom type.
    pub fn implication_unifier(&self, other: &Type) -> (r: Type)
        ensures
            r@ == implication_unifier_v(self@, other@),
    {
        let mut subs: Vec<(Type, Type)> = Vec::new();
        proof {
            assert(crate::model::pair_seq_view(subs@) =~= Seq::<(TyV, TyV)>::empty());
        }
        let nt = self.implication_sub(other, &mut subs);
        let ghost sv = crate::model::pair_seq_view(subs@);
        proof {
            assert(Seq::<(TyV, TyV)>::empty() + iu_v(self@, other@).1 =~= iu_v(self@, other@).1);
        }
        let mut msubs = crate::maps::TypeMap::new();
        let n = subs.len();
        let mut i: usize = 0;
        while i < n
            invariant
                0 <= i <= n,
                n == subs@.len(),
                sv == crate::model::pair_seq_view(subs@),
                sv == iu_v(self@, other@).1,
                nt@ == iu_v(self@, other@).0,
                resolve_subs(sv.take(i as int)) == Some(msubs@),
            decreases n - i,
        {
            let ghost pre = sv.take(i as int);
            proof {
                assert(sv.take(i + 1).drop_last() =~= pre);
                assert(sv.take(i + 1).last() == sv[i as int]);
                assert(sv[i as int] == (subs@[i as int].0@, subs@[i as int].1@));
            }
            let lt = subs[i].0.clone();
            let rt = subs[i].1.clone();
            let merged = match msubs.get(&lt) {
                Some(vt) => {
                    let m = vt.most_general_unifier(&rt);
                    if m.is_bottom() {
                        proof {
                            assert(m@ == TyV::And(Seq::<TyV>::empty())) by {
                                if let TyV::And(e) = m@ {
                                    assert(e =~= Seq::<TyV>::empty());
                                }
                            }
                            assert(resolve_subs(sv.take(i + 1)) is None);
                            lemma_resolve_prefix_none(sv, i + 1);
                        }
                        return m;
                    }
                    m
                },
                None => rt,
            };
            msubs.insert(lt, merged);
            i += 1;
        }
        proof {
            assert(sv.take(n as int) =~= sv);
        }
        nt.substitute(&msubs)
    }
}

/// Implies `x` against each member of `rts`, stopping at the first
/// failure; substitutions are appended to `subs`.
fn iu_right_list(x: &Type, rts: &Vec<Type>, subs: &mut Vec<(Type, Type)>) -> (r: (
    bool,
    Vec<Type>,
))
    ensures
        r.0 == iu_right_seq(x@, ty_seq_view(rts@)).0,
        r.0 ==> ty_seq_view(r.1@) == iu_right_seq(x@, ty_seq_view(rts@)).1,
        crate::model::pair_seq_view(final(subs)@) == crate::model::pair_seq_view(old(subs)@)
            + iu_right_seq(x@, ty_seq_view(rts@)).2,
    decreases crate::model::size_v(x@) + crate::model::size_seq(ty_seq_view(rts@)), 1nat
        + rts@.len(),
{
    let ghost s0 = crate::model::pair_seq_view(subs@);
    let ghost rv = ty_seq_view(rts@);
    let mut out: Vec<Type> = Vec::new();
    let n = rts.len();
    let mut i: usize = 0;
    proof {
        assert(s0 + Seq::<(TyV, TyV)>::empty() =~= s0);
    }
    while i < n
        invariant
            0 <= i <= n,
            n == rts@.len(),
            rv == ty_seq_view(rts@),
            s0 == crate::model::pair_seq_view(old(subs)@),
            iu_right_seq(x@, rv.take(i as int)).0,
            ty_seq_view(out@) == iu_right_seq(x@, rv.take(i as int)).1,
            crate::model::pair_seq_view(subs@) == s0 + iu_right_seq(x@, rv.take(i as int)).2,
        decreases n - i,
    {
        let ghost pre = rv.take(i as int);
        let ghost cur = rv[i as int];
        proof {
            assert(pre.push(cur) =~= rv.take(i + 1));
            assert(pre.push(cur).drop_last() =~= pre);
            crate::model::lemma_size_seq_elem(rv, i as int);
        }
        let m = x.implication_sub(&rts[i], subs);
        proof {
            assert((s0 + iu_right_seq(x@, pre).2) + iu_v(x@, cur).1 =~= s0 + (iu_right_seq(
                x@,
                pre,
            ).2 + iu_v(x@, cur).1));
        }
        if m.is_bottom() {
            proof {
                assert(m@ == TyV::And(Seq::<TyV>::empty())) by {
                    if let TyV::And(e) = m@ {
                        assert(e =~= Seq::<TyV>::empty());
                    }
                }
                assert(!iu_right_seq(x@, rv.take(i + 1)).0);
                lemma_iu_right_stops(x@, rv, i + 1);
                assert(iu_right_seq(x@, rv.take(i + 1)).2 == iu_right_seq(x@, pre).2 + iu_v(
                    x@,
                    cur,
                ).1);
                assert(crate::model::pair_seq_view(subs@) == s0 + iu_right_seq(
                    x@,
                    rv.take(i + 1),
                ).2);
                assert(iu_right_seq(x@, ty_seq_view(rts@)) == iu_right_seq(x@, rv.take(i + 1)));
                assert(crate::model::pair_seq_view(subs@) == s0 + iu_right_seq(
                    x@,
                    ty_seq_view(rts@),
                ).2);
            }
            return (false, Vec::new());
        }
        match m {
            Type::And(tts) => {
                proof {
                    assert(iu_v(x@, cur).0 == TyV::And(ty_seq_view(tts@)));
                }
                append_types(&mut out, tts);
            },
            t => {
                proof {
                    assert(!(iu_v(x@, cur).0 is And));
                    assert(flatten_one(iu_v(x@, cur).0) =~= seq![t@]);
                    let prev = ty_seq_view(out@);
                    assert(ty_seq_view(out@.push(t)) =~= prev.push(t@));
                }
                out.push(t);
            },
        }
        i += 1;
    }
    proof {
        assert(rv.take(n as int) =~= rv);
    }
    (true, out)
}

/// Implies each member of `lts` against `b`; failed members contribute
/// nothing.
fn iu_left_list(lts: &Vec<Type>, b: &Type, subs: &mut Vec<(Type, Type)>) -> (r: Vec<Type>)
    ensures
        ty_seq_view(r@) == iu_left_seq(ty_seq_view(lts@), b@).0,
        crate::model::pair_seq_view(final(subs)@) == crate::model::pair_seq_view(old(subs)@)
            + iu_left_seq(ty_seq_view(lts@), b@).1,
    decreases crate::model::size_seq(ty_seq_view(lts@)) + crate::model::size_v(b@), 1nat
        + lts@.len(),
{
    let ghost s0 = crate::model::pair_seq_view(subs@);
    let ghost lv = ty_seq_view(lts@);
    let mut out: Vec<Type> = Vec::new();
    let n = lts.len();
    let mut i: usize = 0;
    proof {
        assert(s0 + Seq::<(TyV, TyV)>::empty() =~= s0);
    }
    while i < n
        invariant
            0 <= i <= n,
            n == lts@.len(),
            lv == ty_seq_view(lts@),
            s0 == crate::model::pair_seq_view(old(subs)@),
            ty_seq_view(out@) == iu_left_seq(lv.take(i as int), b@).0,
            crate::model::pair_seq_view(subs@) == s0 + iu_left_seq(lv.take(i as int), b@).1,
        decreases n - i,
    {
        let ghost pre = lv.take(i as int);
        let ghost cur = lv[i as int];
        proof {
            assert(pre.push(cur) =~= lv.take(i + 1));
            assert(pre.push(cur).drop_last() =~= pre);
            crate::model::lemma_size_seq_elem(lv, i as int);
        }
        let m = lts[i].implication_sub(b, subs);
        proof {
            assert((s0 + iu_left_seq(pre, b@).1) + iu_v(cur, b@).1 =~= s0 + (iu_left_seq(
                pre,
                b@,
            ).1 + iu_v(cur, b@).1));
        }
        match m {
            Type::And(tts) => {
                proof {
                    assert(iu_v(cur, b@).0 == TyV::And(ty_seq_view(tts@)));
                }
                append_types(&mut out, tts);
            },
            t => {
                proof {
                    assert(!(iu_v(cur, b@).0 is And));
                    assert(flatten_one(iu_v(cur, b@).0) =~= seq![t@]);
                    let prev = ty_seq_view(out@);
                    assert(ty_seq_view(out@.push(t)) =~= prev.push(t@));
                }
                out.push(t);
            },
        }
        i += 1;
    }
    proof {
        assert(lv.take(n as int) =~= lv);
    }
    out
}

/// Implies two equal-length parameter lists element-wise; a successful
/// pair is implied twice, recording its substitutions twice.
fn iu_pair_named_list(la: &Vec<Type>, ra: &Vec<Type>, subs: &mut Vec<(Type, Type)>) -> (r: (
    bool,
    Vec<Type>,
))
    requires
        la@.len() == ra@.len(),
    ensures
        r.0 == iu_pair_named(ty_seq_view(la@), ty_seq_view(ra@)).0,
        r.0 ==> ty_seq_view(r.1@) == iu_pair_named(ty_seq_view(la@), ty_seq_view(ra@)).1,
        crate::model::pair_seq_view(final(subs)@) == crate::model::pair_seq_view(old(subs)@)
            + iu_pair_named(ty_seq_view(la@), ty_seq_view(ra@)).2,
    decreases crate::model::size_seq(ty_seq_view(la@)) + crate::model::size_seq(ty_seq_view(ra@)),
        1nat + la@.len(),
{
    let ghost s0 = crate::model::pair_seq_view(subs@);
    let ghost lv = ty_seq_view(la@);
    let ghost rv = ty_seq_view(ra@);
    let mut out: Vec<Type> = Vec::new();
    let n = la.len();
    let mut i: usize = 0;
    proof {
        assert(s0 + Seq::<(TyV, TyV)>::empty() =~= s0);
    }
    while i < n
        invariant
            0 <= i <= n,
            n == la@.len(),
            n == ra@.len(),
            lv == ty_seq_view(la@),
            rv == ty_seq_view(ra@),
            s0 == crate::model::pair_seq_view(old(subs)@),
            iu_pair_named(lv.take(i as int), rv.take(i as int)).0,
            ty_seq_view(out@) == iu_pair_named(lv.take(i as int), rv.take(i as int)).1,
            crate::model::pair_seq_view(subs@) == s0 + iu_pair_named(
                lv.take(i as int),
                rv.take(i as int),
            ).2,
        decreases n - i,
    {
        let ghost lpre = lv.take(i as int);
        let ghost rpre = rv.take(i as int);
        let ghost lcur = lv[i as int];
        let ghost rcur = rv[i as int];
        proof {
            assert(lpre.push(lcur) =~= lv.take(i + 1));
            assert(rpre.push(rcur) =~= rv.take(i + 1));
            assert(lpre.push(lcur).drop_last() =~= lpre);
            assert(rpre.push(rcur).drop_last() =~= rpre);
            crate::model::lemma_size_seq_elem(lv, i as int);
            crate::model::lemma_size_seq_elem(rv, i as int);
        }
        let nt = la[i].implication_sub(&ra[i], subs);
        proof {
            assert((s0 + iu_pair_named(lpre, rpre).2) + iu_v(lcur, rcur).1 =~= s0 + (iu_pair_named(
                lpre,
                rpre,
            ).2 + iu_v(lcur, rcur).1));
        }
        if nt.is_bottom() {
            proof {
                assert(nt@ == TyV::And(Seq::<TyV>::empty())) by {
                    if let TyV::And(e) = nt@ {
                        assert(e =~= Seq::<TyV>::empty());
                    }
                }
                assert(!iu_pair_named(lv.take(i + 1), rv.take(i + 1)).0);
                lemma_iu_pair_named_stops(lv, rv, i + 1);
                assert(iu_pair_named(lv.take(i + 1), rv.take(i + 1)).2 == iu_pair_named(
                    lpre,
                    rpre,
                ).2 + iu_v(lcur, rcur).1);
                assert(crate::model::pair_seq_view(subs@) == s0 + iu_pair_named(
                    lv.take(i + 1),
                    rv.take(i + 1),
                ).2);
            }
            return (false, Vec::new());
        }
        let nt2 = la[i].implication_sub(&ra[i], subs);
        proof {
            assert(((s0 + iu_pair_named(lpre, rpre).2) + iu_v(lcur, rcur).1) + iu_v(
                lcur,
                rcur,
            ).1 =~= s0 + ((iu_pair_named(lpre, rpre).2 + iu_v(lcur, rcur).1) + iu_v(
                lcur,
                rcur,
            ).1));
            let prev = ty_seq_view(out@);
            assert(ty_seq_view(out@.push(nt2)) =~= prev.push(nt2@));
        }
        out.push(nt2);
        i += 1;
    }
    proof {
        assert(lv.take(n as int) =~= lv);
        assert(rv.take(n as int) =~= rv);
    }
    (true, out)
}

/// Implies two equal-length element lists element-wise, stopping at the
/// first failure.
fn iu_pair_plain_list(la: &Vec<Type>, ra: &Vec<Type>, subs: &mut Vec<(Type, Type)>) -> (r: (
    bool,
    Vec<Type>,
))
    requires
        la@.len() == ra@.len(),
    ensures
        r.0 == iu_pair_plain(ty_seq_view(la@), ty_seq_view(ra@)).0,
        r.0 ==> ty_seq_view(r.1@) == iu_pair_plain(ty_seq_view(la@), ty_seq_view(ra@)).1,
        crate::model::pair_seq_view(final(subs)@) == crate::model::pair_seq_view(old(subs)@)
            + iu_pair_plain(ty_seq_view(la@), ty_seq_view(ra@)).2,
    decreases crate::model::size_seq(ty_seq_view(la@)) + crate::model::size_seq(ty_seq_view(ra@)),
        1nat + la@.len(),
{
    let ghost s0 = crate::model::pair_seq_view(subs@);
    let ghost lv = ty_seq_view(la@);
    let ghost rv = ty_seq_view(ra@);
    let mut out: Vec<Type> = Vec::new();
    let n = la.len();
    let mut i: usize = 0;
    proof {
        assert(s0 + Seq::<(TyV, TyV)>::empty() =~= s0);
    }
    while i < n
        invariant
            0 <= i <= n,
            n == la@.len(),
            n == ra@.len(),
            lv == ty_seq_view(la@),
            rv == ty_seq_view(ra@),
            s0 == crate::model::pair_seq_view(old(subs)@),
            iu_pair_plain(lv.take(i as int), rv.take(i as int)).0,
            ty_seq_view(out@) == iu_pair_plain(lv.take(i as int), rv.take(i as int)).1,
            crate::model::pair_seq_view(subs@) == s0 + iu_pair_plain(
                lv.take(i as int),
                rv.take(i as int),
            ).2,
        decreases n - i,
    {
        let ghost lpre = lv.take(i as int);
        let ghost rpre = rv.take(i as int);
        let ghost lcur = lv[i as int];
        let ghost rcur = rv[i as int];
        proof {
            assert(lpre.push(lcur) =~= lv.take(i + 1));
            assert(rpre.push(rcur) =~= rv.take(i + 1));
            assert(lpre.push(lcur).drop_last() =~= lpre);
            assert(rpre.push(rcur).drop_last() =~= rpre);
            crate::model::lemma_size_seq_elem(lv, i as int);
            crate::model::lemma_size_seq_elem(rv, i as int);
        }
        let nt = la[i].implication_sub(&ra[i], subs);
        proof {
            assert((s0 + iu_pair_plain(lpre, rpre).2) + iu_v(lcur, rcur).1 =~= s0 + (iu_pair_plain(
                lpre,
                rpre,
            ).2 + iu_v(lcur, rcur).1));
        }
        if nt.is_bottom() {
            proof {
                assert(nt@ == TyV::And(Seq::<TyV>::empty())) by {
                    if let TyV::And(e) = nt@ {
                        assert(e =~= Seq::<TyV>::empty());
                    }
                }
                assert(!iu_pair_plain(lv.take(i + 1), rv.take(i + 1)).0);
                lemma_iu_pair_plain_stops(lv, rv, i + 1);
                assert(iu_pair_plain(lv.take(i + 1), rv.take(i + 1)).2 == iu_pair_plain(
                    lpre,
                    rpre,
                ).2 + iu_v(lcur, rcur).1);
                assert(crate::model::pair_seq_view(subs@) == s0 + iu_pair_plain(
                    lv.take(i + 1),
                    rv.take(i + 1),
                ).2);
            }
            return (false, Vec::new());
        }
        proof {
            let prev = ty_seq_view(out@);
            assert(ty_seq_view(out@.push(nt)) =~= prev.push(nt@));
        }
        out.push(nt);
        i += 1;
    }
    proof {
        assert(lv.take(n as int) =~= lv);
        assert(rv.take(n as int) =~= rv);
    }
    (true, out)
}


/// Model of [`Type::kind`]: look up an assigned kind, else the
/// structural default: constant-indexed types have the distinguished
/// `Constant` kind, a conjunction conjoins the kinds of its members, and
/// everything else is `Nil`.
pub open spec fn kind_of_v(t: TyV, m: Map<TyV, crate::model::KindV>) -> crate::model::KindV
    decreases t,
{
    if m.contains_key(t) {
        m[t]
    } else {
        match t {
            TyV::Constant(_, _) => crate::model::KindV::Named(
                seq!['C', 'o', 'n', 's', 't', 'a', 'n', 't'],
                Seq::empty(),
            ),
            TyV::And(ats) => crate::kind::kind_and_v(kinds_of_seq(ats, m)),
            _ => crate::model::KindV::Nil,
        }
    }
}

/// The kinds of each member of a sequence.
pub open spec fn kinds_of_seq(ts: Seq<TyV>, m: Map<TyV, crate::model::KindV>) -> Seq<
    crate::model::KindV,
>
    decreases ts,
{
    if ts.len() == 0 {
        Seq::empty()
    } else {
        kinds_of_seq(ts.drop_last(), m).push(kind_of_v(ts.last(), m))
    }
}

/// Model of [`Type::narrow`]: the part of a type that supports the
/// target kind. A type whose kind lacks the target collapses to bottom;
/// a conjunction keeps the members that survive narrowing.
pub open spec fn narrow_v(t: TyV, m: Map<TyV, crate::model::KindV>, k: crate::model::KindV) -> TyV
    decreases t,
{
    if !crate::kind::has_v(kind_of_v(t, m), k) {
        TyV::And(Seq::empty())
    } else {
        match t {
            TyV::And(ts) => {
                let tcs = narrow_seq(ts, m, k);
                if tcs.len() == 1 {
                    tcs[0]
                } else {
                    TyV::And(tcs)
                }
            },
            tt => tt,
        }
    }
}

/// Narrows each member of a conjunction, splicing nested conjunctions.
pub open spec fn narrow_seq(
    ts: Seq<TyV>,
    m: Map<TyV, crate::model::KindV>,
    k: crate::model::KindV,
) -> Seq<TyV>
    decreases ts,
{
    if ts.len() == 0 {
        Seq::empty()
    } else {
        narrow_seq(ts.drop_last(), m, k) + flatten_one(narrow_v(ts.last(), m, k))
    }
}

impl Type {
    /// The kind of this type: an assignment from the table if present,
    /// else the structural default described by [`kind_of_v`].
    pub fn kind(&self, kinds: &crate::maps::KindMap) -> (r: crate::kind::Kind)
        ensures
            r@ == kind_of_v(self@, kinds@),
        decreases self,
    {
        if let Some(k) = kinds.get(self) {
            return k.clone();
        }
        match self {
            Type::Constant(_, _) => {
                let r = crate::kind::Kind::Named(String::from_str("Constant"), Vec::new());
                proof {
                    reveal_strlit("Constant");
                    assert(crate::model::kind_seq_view(Seq::<crate::kind::Kind>::empty())
                        =~= Seq::<crate::model::KindV>::empty());
                    assert(r@ == crate::model::KindV::Named(
                        seq!['C', 'o', 'n', 's', 't', 'a', 'n', 't'],
                        Seq::empty(),
                    )) by {
                        assert(("Constant")@ =~= seq!['C', 'o', 'n', 's', 't', 'a', 'n', 't']);
                    }
                }
                r
            },
            Type::And(ats) => {
                proof {
                    assert(self@ == TyV::And(ty_seq_view(ats@)));
                }
                let aks = kinds_of_list(ats, kinds);
                crate::kind::Kind::and(aks)
            },
            _ => crate::kind::Kind::Nil,
        }
    }

    /// Narrows this type to the part that supports the target kind; the
    /// bottom type when nothing here supports it.
    pub fn narrow(&self, kinds: &crate::maps::KindMap, k: &crate::kind::Kind) -> (r: Type)
        ensures
            r@ == narrow_v(self@, kinds@, k@),
        decreases self,
    {
        let own = self.kind(kinds);
        if !own.has(k) {
            return bottom_type();
        }
        match self {
            Type::And(ts) => {
                proof {
                    assert(self@ == TyV::And(ty_seq_view(ts@)));
                }
                let mut tcs = narrow_list(ts, kinds, k);
                if tcs.len() == 1 {
                    let x = tcs.pop().unwrap();
                    proof {
                        assert(x@ == narrow_seq(ty_seq_view(ts@), kinds@, k@)[0]);
                    }
                    x
                } else {
                    let r = Type::And(tcs);
                    proof {
                        assert(r@ == TyV::And(narrow_seq(ty_seq_view(ts@), kinds@, k@)));
                    }
                    r
                }
            },
            _ => self.clone(),
        }
    }
}


/// The kinds of every element of a list of types.
fn kinds_of_list(ts: &Vec<Type>, kinds: &crate::maps::KindMap) -> (r: Vec<crate::kind::Kind>)
    ensures
        crate::model::kind_seq_view(r@) == kinds_of_seq(ty_seq_view(ts@), kinds@),
    decreases ts,
{
    let mut aks: Vec<crate::kind::Kind> = Vec::new();
    let n = ts.len();
    let mut i: usize = 0;
    while i < n
        invariant
            0 <= i <= n,
            n == ts@.len(),
            crate::model::kind_seq_view(aks@) =~= kinds_of_seq(
                ty_seq_view(ts@).take(i as int),
                kinds@,
            ),
        decreases n - i,
    {
        let ghost pre = ty_seq_view(ts@).take(i as int);
        let ghost cur = ty_view(ts@[i as int]);
        let kk = ts[i].kind(kinds);
        let ghost prev = crate::model::kind_seq_view(aks@);
        aks.push(kk);
        proof {
            assert(crate::model::kind_seq_view(aks@) =~= prev.push(kind_of_v(cur, kinds@)));
            assert(pre.push(cur) =~= ty_seq_view(ts@).take(i + 1));
            assert(pre.push(cur).drop_last() =~= pre);
        }
        i += 1;
    }
    proof {
        assert(ty_seq_view(ts@).take(n as int) =~= ty_seq_view(ts@));
    }
    aks
}

/// Narrows every member of a conjunction, splicing nested conjunctions.
fn narrow_list(ts: &Vec<Type>, kinds: &crate::maps::KindMap, k: &crate::kind::Kind) -> (r: Vec<
    Type,
>)
    ensures
        ty_seq_view(r@) == narrow_seq(ty_seq_view(ts@), kinds@, k@),
    decreases ts,
{
    let mut tcs: Vec<Type> = Vec::new();
    let n = ts.len();
    let mut i: usize = 0;
    while i < n
        invariant
            0 <= i <= n,
            n == ts@.len(),
            ty_seq_view(tcs@) =~= narrow_seq(ty_seq_view(ts@).take(i as int), kinds@, k@),
        decreases n - i,
    {
        let ghost pre = ty_seq_view(ts@).take(i as int);
        let ghost cur = ty_view(ts@[i as int]);
        let nt = ts[i].narrow(kinds, k);
        match nt {
            Type::And(acs) => {
                proof {
                    assert(narrow_v(cur, kinds@, k@) == TyV::And(ty_seq_view(acs@)));
                }
                append_types(&mut tcs, acs);
            },
            ac => {
                proof {
                    assert(!(narrow_v(cur, kinds@, k@) is And));
                    assert(flatten_one(narrow_v(cur, kinds@, k@)) =~= seq![ac@]);
                    let prev = ty_seq_view(tcs@);
                    assert(ty_seq_view(tcs@.push(ac)) =~= prev.push(ac@));
                }
                tcs.push(ac);
            },
        }
        proof {
            assert(pre.push(cur) =~= ty_seq_view(ts@).take(i + 1));
            assert(pre.push(cur).drop_last() =~= pre);
        }
        i += 1;
    }
    proof {
        assert(ty_seq_view(ts@).take(n as int) =~= ty_seq_view(ts@));
    }
    tcs
}


impl Type {
    /// Subtyping check: extends both sides with the registered nominal
    /// implications of the compilation unit, then runs the implication
    /// unifier, left implying right. Failure is the bottom type.
    pub fn implies(
        tlc: &crate::tlc::TLC,
        _kinds: &crate::maps::KindMap,
        lt: &Type,
        rt: &Type,
    ) -> (r: Type)
        ensures
            r@ == implication_unifier_v(
                crate::tlc::extend_implied_v(crate::model::rules_view(tlc.rules@), lt@),
                crate::tlc::extend_implied_v(crate::model::rules_view(tlc.rules@), rt@),
            ),
    {
        let le = tlc.extend_implied(lt);
        let re = tlc.extend_implied(rt);
        le.implication_unifier(&re)
    }
}

impl PartialEq for Type {
    /// Structural equality of types.
    fn eq(&self, other: &Type) -> (r: bool) {
        crate::order::eq_type(self, other)
    }
}

impl vstd::std_specs::cmp::PartialEqSpecImpl for Type {
    open spec fn obeys_eq_spec() -> bool {
        true
    }

    open spec fn eq_spec(&self, other: &Type) -> bool {
        self@ == other@
    }
}


impl Type {
    /// The primitive data-type tag handed to the external evaluator:
    /// the printed form of the type without kind annotations.
    pub fn datatype(&self) -> (r: String)
        ensures
            r@ == crate::render::render_ty(self@, Map::empty()),
    {
        let empty = crate::maps::KindMap::new();
        self.print(&empty)
    }
}

} // verus!
