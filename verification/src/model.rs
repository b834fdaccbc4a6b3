use vstd::prelude::*;
use crate::typ::Type;

verus! {

/// Mathematical model of a [`Type`] value.
///
/// Each executable [`Type`] has a `TyV` view; contracts and lemmas in this
/// crate are stated over these models.
pub enum TyV {
    Any,
    Named(Seq<char>, Seq<TyV>),
    And(Seq<TyV>),
    Arrow(Box<TyV>, Box<TyV>),
    Tuple(Seq<TyV>),
    Product(Seq<TyV>),
    Ratio(Box<TyV>, Box<TyV>),
    Constant(bool, int),
}

/// View of a single type.
pub open spec fn ty_view(t: Type) -> TyV
    decreases t,
{
    match t {
        Type::Any => TyV::Any,
        Type::Named(n, ts) => TyV::Named(n@, ty_seq_view(ts@)),
        Type::And(ts) => TyV::And(ty_seq_view(ts@)),
        Type::Arrow(p, b) => TyV::Arrow(Box::new(ty_view(*p)), Box::new(ty_view(*b))),
        Type::Tuple(ts) => TyV::Tuple(ty_seq_view(ts@)),
        Type::Product(ts) => TyV::Product(ty_seq_view(ts@)),
        Type::Ratio(p, b) => TyV::Ratio(Box::new(ty_view(*p)), Box::new(ty_view(*b))),
        Type::Constant(v, c) => TyV::Constant(v, c.id as int),
    }
}

/// View of a sequence of types, element by element.
pub open spec fn ty_seq_view(ts: Seq<Type>) -> Seq<TyV>
    decreases ts,
{
    if ts.len() == 0 {
        Seq::empty()
    } else {
        ty_seq_view(ts.drop_last()).push(ty_view(ts.last()))
    }
}

/// Pointwise characterization of [`ty_seq_view`].
pub broadcast proof fn lemma_ty_seq_view(ts: Seq<Type>)
    ensures
        (#[trigger] ty_seq_view(ts)).len() == ts.len(),
        forall|i: int| 0 <= i < ts.len() ==> ty_seq_view(ts)[i] == ty_view(ts[i]),
    decreases ts.len(),
{
    if ts.len() > 0 {
        lemma_ty_seq_view(ts.drop_last());
    }
}


/// View of a sequence of strings, element by element.
pub open spec fn str_seq_view(s: Seq<String>) -> Seq<Seq<char>>
    decreases s,
{
    if s.len() == 0 {
        Seq::empty()
    } else {
        str_seq_view(s.drop_last()).push(s.last()@)
    }
}

/// Pointwise characterization of [`str_seq_view`].
pub broadcast proof fn lemma_str_seq_view(s: Seq<String>)
    ensures
        (#[trigger] str_seq_view(s)).len() == s.len(),
        forall|i: int| 0 <= i < s.len() ==> str_seq_view(s)[i] == s[i]@,
    decreases s.len(),
{
    if s.len() > 0 {
        lemma_str_seq_view(s.drop_last());
    }
}


/// View of a sequence of type pairs, element by element.
pub open spec fn pair_seq_view(s: Seq<(Type, Type)>) -> Seq<(TyV, TyV)>
    decreases s,
{
    if s.len() == 0 {
        Seq::empty()
    } else {
        pair_seq_view(s.drop_last()).push((s.last().0@, s.last().1@))
    }
}

/// Pointwise characterization of [`pair_seq_view`].
pub broadcast proof fn lemma_pair_seq_view(s: Seq<(Type, Type)>)
    ensures
        (#[trigger] pair_seq_view(s)).len() == s.len(),
        forall|i: int|
            0 <= i < s.len() ==> pair_seq_view(s)[i] == (s[i].0@, s[i].1@),
    decreases s.len(),
{
    if s.len() > 0 {
        lemma_pair_seq_view(s.drop_last());
    }
}


/// Structural size of a type model, used as a termination measure where
/// arguments are swapped between recursive calls.
pub open spec fn size_v(t: TyV) -> nat
    decreases t,
{
    match t {
        TyV::Any => 1,
        TyV::Named(_, ts) => 1 + size_seq(ts),
        TyV::And(ts) => 1 + size_seq(ts),
        TyV::Arrow(p, b) => 1 + size_v(*p) + size_v(*b),
        TyV::Tuple(ts) => 1 + size_seq(ts),
        TyV::Product(ts) => 1 + size_seq(ts),
        TyV::Ratio(p, b) => 1 + size_v(*p) + size_v(*b),
        TyV::Constant(_, _) => 1,
    }
}

/// Sum of the sizes of a sequence of type models.
pub open spec fn size_seq(ts: Seq<TyV>) -> nat
    decreases ts,
{
    if ts.len() == 0 {
        0
    } else {
        size_seq(ts.drop_last()) + size_v(ts.last())
    }
}

/// Every type model has size at least one.
pub broadcast proof fn lemma_size_pos(t: TyV)
    ensures
        #[trigger] size_v(t) >= 1,
{
}


/// An element's size is bounded by its sequence's size.
pub proof fn lemma_size_seq_elem(ts: Seq<TyV>, i: int)
    requires
        0 <= i < ts.len(),
    ensures
        size_v(ts[i]) <= size_seq(ts),
        size_seq(ts) >= 1,
    decreases ts.len(),
{
    lemma_size_pos(ts[i]);
    if i == ts.len() - 1 {
        assert(ts.last() == ts[i]);
    } else {
        assert(ts.drop_last()[i] == ts[i]);
        lemma_size_seq_elem(ts.drop_last(), i);
    }
}


/// Mathematical model of a [`crate::kind::Kind`] value.
pub enum KindV {
    Nil,
    Named(Seq<char>, Seq<KindV>),
    And(Seq<KindV>),
}

/// View of a single kind.
pub open spec fn kind_view(k: crate::kind::Kind) -> KindV
    decreases k,
{
    match k {
        crate::kind::Kind::Nil => KindV::Nil,
        crate::kind::Kind::Named(n, ks) => KindV::Named(n@, kind_seq_view(ks@)),
        crate::kind::Kind::And(ks) => KindV::And(kind_seq_view(ks@)),
    }
}

/// View of a sequence of kinds, element by element.
pub open spec fn kind_seq_view(ks: Seq<crate::kind::Kind>) -> Seq<KindV>
    decreases ks,
{
    if ks.len() == 0 {
        Seq::empty()
    } else {
        kind_seq_view(ks.drop_last()).push(kind_view(ks.last()))
    }
}

/// Pointwise characterization of [`kind_seq_view`].
pub broadcast proof fn lemma_kind_seq_view(ks: Seq<crate::kind::Kind>)
    ensures
        (#[trigger] kind_seq_view(ks)).len() == ks.len(),
        forall|i: int| 0 <= i < ks.len() ==> kind_seq_view(ks)[i] == kind_view(ks[i]),
    decreases ks.len(),
{
    if ks.len() > 0 {
        lemma_kind_seq_view(ks.drop_last());
    }
}

impl View for crate::kind::Kind {
    type V = KindV;

    open spec fn view(&self) -> KindV {
        kind_view(*self)
    }
}


/// Mathematical model of a [`crate::constant::Constant`] value.
pub enum ConstV {
    Nan,
    Boolean(bool),
    Integer(i64),
    Op(Seq<char>),
    Tuple(Seq<ConstV>),
}

/// View of a single constant.
pub open spec fn const_view(c: crate::constant::Constant) -> ConstV
    decreases c,
{
    match c {
        crate::constant::Constant::NaN => ConstV::Nan,
        crate::constant::Constant::Boolean(b) => ConstV::Boolean(b),
        crate::constant::Constant::Integer(i) => ConstV::Integer(i),
        crate::constant::Constant::Op(s) => ConstV::Op(s@),
        crate::constant::Constant::Tuple(ts) => ConstV::Tuple(const_seq_view(ts@)),
    }
}

/// View of a sequence of constants, element by element.
pub open spec fn const_seq_view(ts: Seq<crate::constant::Constant>) -> Seq<ConstV>
    decreases ts,
{
    if ts.len() == 0 {
        Seq::empty()
    } else {
        const_seq_view(ts.drop_last()).push(const_view(ts.last()))
    }
}

/// Pointwise characterization of [`const_seq_view`].
pub broadcast proof fn lemma_const_seq_view(ts: Seq<crate::constant::Constant>)
    ensures
        (#[trigger] const_seq_view(ts)).len() == ts.len(),
        forall|i: int| 0 <= i < ts.len() ==> const_seq_view(ts)[i] == const_view(ts[i]),
    decreases ts.len(),
{
    if ts.len() > 0 {
        lemma_const_seq_view(ts.drop_last());
    }
}

impl View for crate::constant::Constant {
    type V = ConstV;

    open spec fn view(&self) -> ConstV {
        const_view(*self)
    }
}


/// The sequence of row type models of a term arena.
pub open spec fn row_typs(rows: Seq<crate::term::Row>) -> Seq<TyV>
    decreases rows,
{
    if rows.len() == 0 {
        Seq::empty()
    } else {
        row_typs(rows.drop_last()).push(rows.last().typ@)
    }
}

/// Pointwise characterization of [`row_typs`].
pub broadcast proof fn lemma_row_typs(rows: Seq<crate::term::Row>)
    ensures
        (#[trigger] row_typs(rows)).len() == rows.len(),
        forall|i: int| 0 <= i < rows.len() ==> row_typs(rows)[i] == rows[i].typ@,
    decreases rows.len(),
{
    if rows.len() > 0 {
        lemma_row_typs(rows.drop_last());
    }
}

/// View of a scope child: its name, declared type model, and binding.
pub open spec fn children_view(
    cs: Seq<(String, crate::maps::KindMap, Type, Option<crate::term::TermId>)>,
) -> Seq<(Seq<char>, TyV, Option<crate::term::TermId>)>
    decreases cs,
{
    if cs.len() == 0 {
        Seq::empty()
    } else {
        children_view(cs.drop_last()).push(
            (cs.last().0@, cs.last().2@, cs.last().3),
        )
    }
}

/// Pointwise characterization of [`children_view`].
pub broadcast proof fn lemma_children_view(
    cs: Seq<(String, crate::maps::KindMap, Type, Option<crate::term::TermId>)>,
)
    ensures
        (#[trigger] children_view(cs)).len() == cs.len(),
        forall|i: int|
            0 <= i < cs.len() ==> children_view(cs)[i] == (cs[i].0@, cs[i].2@, cs[i].3),
    decreases cs.len(),
{
    if cs.len() > 0 {
        lemma_children_view(cs.drop_last());
    }
}


/// View of a constant environment, element by element.
pub open spec fn env_view(s: Seq<(String, crate::constant::Constant)>) -> Seq<(Seq<char>, ConstV)>
    decreases s,
{
    if s.len() == 0 {
        Seq::empty()
    } else {
        env_view(s.drop_last()).push((s.last().0@, s.last().1@))
    }
}

/// Pointwise characterization of [`env_view`].
pub broadcast proof fn lemma_env_view(s: Seq<(String, crate::constant::Constant)>)
    ensures
        (#[trigger] env_view(s)).len() == s.len(),
        forall|i: int| 0 <= i < s.len() ==> env_view(s)[i] == (s[i].0@, s[i].1@),
    decreases s.len(),
{
    if s.len() > 0 {
        lemma_env_view(s.drop_last());
    }
}


/// View of the registered implication rules, element by element.
pub open spec fn rules_view(s: Seq<(String, Type)>) -> Seq<(Seq<char>, TyV)>
    decreases s,
{
    if s.len() == 0 {
        Seq::empty()
    } else {
        rules_view(s.drop_last()).push((s.last().0@, s.last().1@))
    }
}

/// Pointwise characterization of [`rules_view`].
pub broadcast proof fn lemma_rules_view(s: Seq<(String, Type)>)
    ensures
        (#[trigger] rules_view(s)).len() == s.len(),
        forall|i: int| 0 <= i < s.len() ==> rules_view(s)[i] == (s[i].0@, s[i].1@),
    decreases s.len(),
{
    if s.len() > 0 {
        lemma_rules_view(s.drop_last());
    }
}

impl View for Type {
    type V = TyV;

    open spec fn view(&self) -> TyV {
        ty_view(*self)
    }
}

} // verus!
