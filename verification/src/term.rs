use vstd::prelude::*;
use crate::constant::Constant;
use crate::kind::Kind;
use crate::scope::ScopeId;
use crate::token::Span;
use crate::typ::Type;

verus! {

/// Stable handle of a term row in the central term arena.
///
/// Terms are identified by their `TermId`, not by structural content; the
/// arena is append-only, so a handle stays valid for the lifetime of a
/// compilation unit.
#[derive(Clone, Copy, PartialEq, Eq, Structural, Debug)]
pub struct TermId {
    pub id: usize,
}


/// A let binding: possibly external (a foreign symbol), with its own
/// scope for its parameters, a name, parameter groups (each parameter an
/// optional name, an optional declared type, and a kind), an optional
/// body, and a declared return type and kind.
pub struct LetTerm {
    pub is_extern: bool,
    pub scope: ScopeId,
    pub name: String,
    pub parameters: Vec<Vec<(Option<String>, Option<Type>, Kind)>>,
    pub body: Option<TermId>,
    pub rtype: Type,
    pub rkind: Kind,
}

/// A piece of a literal pattern.
#[derive(Debug)]
pub enum Literal {
    Var(String),
    Char(char, String),
    String(String, String),
    Range(Vec<(char, char)>, String),
}

/// The program's syntax after name and scope resolution. Terms refer to
/// one another through [`TermId`] handles into the arena.
pub enum Term {
    Ident(String),
    Value(String),
    Project(Constant),
    Arrow(Option<ScopeId>, TermId, Option<Type>, TermId),
    App(TermId, TermId),
    Let(LetTerm),
    Tuple(Vec<TermId>),
    Block(ScopeId, Vec<TermId>),
    Ascript(TermId, Type),
    As(TermId, Type),
    Constructor(String, Vec<(String, TermId)>),
    RuleApplication(TermId, String),
    Match(TermId, Vec<(ScopeId, TermId, TermId)>),
    Fail,
    Literal(Vec<Literal>),
}

/// A row of the term arena: the term payload, its current type and
/// kind, and its source span. Rows are appended once and then only
/// refined in place.
pub struct Row {
    pub term: Term,
    pub typ: Type,
    pub kind: Kind,
    pub span: Span,
}

/// Every term handle a term mentions points strictly before `i` in the
/// arena: the arena is built bottom-up, so a term's parts precede it.
pub open spec fn term_refs_before(t: Term, i: int) -> bool {
    match t {
        Term::Ident(_) => true,
        Term::Value(_) => true,
        Term::Project(_) => true,
        Term::Arrow(_, p, _, b) => p.id < i && b.id < i,
        Term::App(g, x) => g.id < i && x.id < i,
        Term::Let(lt) => match lt.body {
            Some(b) => b.id < i,
            None => true,
        },
        Term::Tuple(ts) => forall|j: int| 0 <= j < ts@.len() ==> (#[trigger] ts@[j]).id < i,
        Term::Block(_, es) => forall|j: int| 0 <= j < es@.len() ==> (#[trigger] es@[j]).id < i,
        Term::Ascript(t0, _) => t0.id < i,
        Term::As(t0, _) => t0.id < i,
        Term::Constructor(_, ps) => forall|j: int|
            0 <= j < ps@.len() ==> (#[trigger] ps@[j]).1.id < i,
        Term::RuleApplication(t0, _) => t0.id < i,
        Term::Match(dv, arms) => dv.id < i && forall|j: int|
            0 <= j < arms@.len() ==> (#[trigger] arms@[j]).1.id < i && arms@[j].2.id < i,
        Term::Fail => true,
        Term::Literal(_) => true,
    }
}


/// Equality of optional declared types, by model.
pub open spec fn opt_ty_eq(a: Option<Type>, b: Option<Type>) -> bool {
    match (a, b) {
        (Some(l), Some(r)) => l@ == r@,
        (None, None) => true,
        _ => false,
    }
}

/// Model of [`Term::equals`]: deep structural comparison of two terms
/// through their arena handles. Only identifiers, literal values,
/// arrows, applications and tuples compare; any other shape pairing is
/// unequal.
pub open spec fn equals_spec(rows: Seq<Row>, a: int, b: int) -> bool
    decreases a + b, 1int, 0int,
{
    if !(0 <= a < rows.len() && 0 <= b < rows.len()) {
        false
    } else {
        match (rows[a].term, rows[b].term) {
            (Term::Ident(li), Term::Ident(ri)) => li@ == ri@,
            (Term::Value(lv), Term::Value(rv)) => lv@ == rv@,
            (Term::Arrow(_, lp, lr, lb), Term::Arrow(_, rp, rr, rb)) => {
                if lp.id < a && lb.id < a && rp.id < b && rb.id < b {
                    equals_spec(rows, lp.id as int, rp.id as int) && opt_ty_eq(lr, rr)
                        && equals_spec(rows, lb.id as int, rb.id as int)
                } else {
                    false
                }
            },
            (Term::App(lp, lb), Term::App(rp, rb)) => {
                if lp.id < a && lb.id < a && rp.id < b && rb.id < b {
                    equals_spec(rows, lp.id as int, rp.id as int) && equals_spec(
                        rows,
                        lb.id as int,
                        rb.id as int,
                    )
                } else {
                    false
                }
            },
            (Term::Tuple(ls), Term::Tuple(rs)) => {
                if ls@.len() == rs@.len() {
                    equals_list_spec(rows, ls@, rs@, a, b, ls@.len() as int)
                } else {
                    false
                }
            },
            _ => false,
        }
    }
}

/// Element-wise [`equals_spec`] over the first `i` members of two tuple
/// bodies whose handles stay below the given bounds.
pub open spec fn equals_list_spec(
    rows: Seq<Row>,
    ls: Seq<TermId>,
    rs: Seq<TermId>,
    ba: int,
    bb: int,
    i: int,
) -> bool
    decreases ba + bb, 0int, i,
{
    if i <= 0 {
        true
    } else if !(0 <= i - 1 < ls.len() && i - 1 < rs.len()) {
        false
    } else if !(ls[i - 1].id < ba && rs[i - 1].id < bb && 0 <= ba && 0 <= bb) {
        false
    } else {
        equals_list_spec(rows, ls, rs, ba, bb, i - 1) && equals_spec(
            rows,
            ls[i - 1].id as int,
            rs[i - 1].id as int,
        )
    }
}

impl Term {
    /// Deep structural comparison of two terms by their arena handles:
    /// identifiers compare by name, literal values by text, arrows,
    /// applications and tuples recursively; every other shape pairing
    /// is unequal. Detects syntactically identical subexpressions, not
    /// semantic equivalence.
    pub fn equals(tlc: &crate::tlc::TLC, lt: TermId, rt: TermId) -> (r: bool)
        requires
            crate::tlc::tlc_wf(tlc),
            lt.id < tlc.rows@.len(),
            rt.id < tlc.rows@.len(),
        ensures
            r == equals_spec(tlc.rows@, lt.id as int, rt.id as int),
        decreases lt.id,
    {
        match (&tlc.rows[lt.id].term, &tlc.rows[rt.id].term) {
            (Term::Ident(li), Term::Ident(ri)) => crate::constant::str_eq(
                li.as_str(),
                ri.as_str(),
            ),
            (Term::Value(lv), Term::Value(rv)) => crate::constant::str_eq(
                lv.as_str(),
                rv.as_str(),
            ),
            (Term::Arrow(_ls, lp, lr, lb), Term::Arrow(_rs, rp, rr, rb)) => {
                if !Term::equals(tlc, *lp, *rp) {
                    return false;
                }
                let types_match = match (lr, rr) {
                    (Some(l), Some(r)) => crate::order::eq_type(l, r),
                    (None, None) => true,
                    _ => false,
                };
                if !types_match {
                    return false;
                }
                Term::equals(tlc, *lb, *rb)
            },
            (Term::App(lp, lb), Term::App(rp, rb)) => {
                Term::equals(tlc, *lp, *rp) && Term::equals(tlc, *lb, *rb)
            },
            (Term::Tuple(ls), Term::Tuple(rs)) => {
                if ls.len() != rs.len() {
                    return false;
                }
                let n = ls.len();
                let mut i: usize = 0;
                while i < n
                    invariant
                        0 <= i <= n,
                        crate::tlc::tlc_wf(tlc),
                        lt.id < tlc.rows@.len(),
                        rt.id < tlc.rows@.len(),
                        tlc.rows@[lt.id as int].term matches Term::Tuple(l2) && l2@ == ls@,
                        tlc.rows@[rt.id as int].term matches Term::Tuple(r2) && r2@ == rs@,
                        n == ls@.len(),
                        n == rs@.len(),
                        equals_list_spec(tlc.rows@, ls@, rs@, lt.id as int, rt.id as int, i as int),
                    decreases n - i,
                {
                    proof {
                        assert(crate::term::term_refs_before(
                            tlc.rows@[lt.id as int].term,
                            lt.id as int,
                        ));
                        assert(crate::term::term_refs_before(
                            tlc.rows@[rt.id as int].term,
                            rt.id as int,
                        ));
                        assert(ls@[i as int].id < lt.id);
                        assert(rs@[i as int].id < rt.id);
                    }
                    if !Term::equals(tlc, ls[i], rs[i]) {
                        proof {
                            assert(!equals_list_spec(
                                tlc.rows@,
                                ls@,
                                rs@,
                                lt.id as int,
                                rt.id as int,
                                i + 1,
                            ));
                            lemma_equals_list_mono(
                                tlc.rows@,
                                ls@,
                                rs@,
                                lt.id as int,
                                rt.id as int,
                                i + 1,
                                n as int,
                            );
                        }
                        return false;
                    }
                    i += 1;
                }
                true
            },
            _ => false,
        }
    }
}

/// The pattern destructuring of a left-hand side reads only the term
/// payloads of the arena, never the recorded types.
proof fn lemma_solhs_terms(
    rows1: Seq<Row>,
    rows2: Seq<Row>,
    typs: Seq<crate::model::TyV>,
    cs: Seq<(Seq<char>, crate::model::TyV, Option<TermId>)>,
    lhs: int,
)
    requires
        rows1.len() == rows2.len(),
        forall|j: int| 0 <= j < rows1.len() ==> (#[trigger] rows1[j]).term == rows2[j].term,
    ensures
        solhs_spec(rows1, typs, cs, lhs) == solhs_spec(rows2, typs, cs, lhs),
    decreases lhs,
{
    if 0 <= lhs < rows1.len() && typs.len() == rows1.len() {
        assert(rows1[lhs].term == rows2[lhs].term);
        match rows1[lhs].term {
            Term::Ascript(lt, ltt) => {
                if lt.id < lhs {
                    let t2 = typs.update(lt.id as int, ltt@).update(lhs, ltt@);
                    lemma_solhs_terms(rows1, rows2, t2, cs, lt.id as int);
                }
            },
            _ => {},
        }
    }
}

/// Once a tuple member pair fails, the whole element-wise comparison
/// fails.
proof fn lemma_equals_list_mono(
    rows: Seq<Row>,
    ls: Seq<TermId>,
    rs: Seq<TermId>,
    ba: int,
    bb: int,
    i: int,
    n: int,
)
    requires
        0 <= i <= n,
        !equals_list_spec(rows, ls, rs, ba, bb, i),
    ensures
        !equals_list_spec(rows, ls, rs, ba, bb, n),
    decreases n - i,
{
    if i < n {
        lemma_equals_list_mono(rows, ls, rs, ba, bb, i + 1, n);
    }
}


/// Model of [`Term::scope_of_lhs_impl`]: destructure a pattern-position
/// term into scope children. Row type models are threaded separately
/// from the payloads, which never change. `None` reports an
/// unsupported pattern shape.
pub open spec fn solhs_spec(
    rows: Seq<Row>,
    typs: Seq<crate::model::TyV>,
    children: Seq<(Seq<char>, crate::model::TyV, Option<TermId>)>,
    lhs: int,
) -> Option<(Seq<crate::model::TyV>, Seq<(Seq<char>, crate::model::TyV, Option<TermId>)>)>
    decreases lhs,
{
    if !(0 <= lhs < rows.len() && typs.len() == rows.len()) {
        None
    } else {
        match rows[lhs].term {
            Term::Ident(n) => {
                if n@ == seq!['_'] {
                    Some((typs, children))
                } else {
                    Some((typs, children.push((n@, typs[lhs], Some(TermId { id: lhs as usize })))))
                }
            },
            Term::Ascript(lt, ltt) => {
                if lt.id < lhs {
                    let t2 = typs.update(lt.id as int, ltt@).update(lhs, ltt@);
                    solhs_spec(rows, t2, children, lt.id as int)
                } else {
                    None
                }
            },
            _ => None,
        }
    }
}

impl Term {
    /// Destructures a pattern-position term into scope children: a bare
    /// identifier other than the wildcard becomes a child bound to the
    /// term's slot at its current type, and an ascripted pattern first
    /// rewrites the recorded types of the inner term and of the
    /// ascription host to the declared type and recurses. Any other
    /// pattern shape is an unsupported construct: no binding is
    /// produced, though type refinements already made by enclosing
    /// ascriptions stay in place, as the arena is refine-only.
    pub fn scope_of_lhs_impl(
        tlc: &mut crate::tlc::TLC,
        children: &mut Vec<(String, crate::maps::KindMap, crate::typ::Type, Option<TermId>)>,
        lhs: TermId,
    ) -> (r: Result<(), crate::debug::Error>)
        requires
            crate::tlc::tlc_wf(old(tlc)),
            lhs.id < old(tlc).rows@.len(),
        ensures
            crate::tlc::tlc_wf(final(tlc)),
            final(tlc).rows@.len() == old(tlc).rows@.len(),
            final(tlc).scopes@ == old(tlc).scopes@,
            final(tlc).rules@ == old(tlc).rules@,
            forall|j: int|
                0 <= j < old(tlc).rows@.len() ==> (#[trigger] final(tlc).rows@[j]).term == old(tlc).rows@[j].term && final(tlc).rows@[j].kind == old(tlc).rows@[j].kind && final(tlc).rows@[j].span == old(tlc).rows@[j].span,
            match solhs_spec(
                old(tlc).rows@,
                crate::model::row_typs(old(tlc).rows@),
                crate::model::children_view(old(children)@),
                lhs.id as int,
            ) {
                Some(res) => r is Ok && crate::model::row_typs(final(tlc).rows@) == res.0
                    && crate::model::children_view(final(children)@) == res.1 && final(children)@.len() >= old(children)@.len() && (forall|j: int|
                    0 <= j < old(children)@.len() ==> final(children)@[j] == old(children)@[j])
                    && (forall|j: int|
                    old(children)@.len() <= j < final(children)@.len()
                        ==> (#[trigger] final(children)@[j]).1@ == Map::<
                        crate::model::TyV,
                        crate::model::KindV,
                    >::empty()),
                None => r is Err && final(children)@ == old(children)@,
            },
        decreases lhs.id,
    {
        broadcast use crate::model::lemma_row_typs, crate::model::lemma_children_view;

        let ghost typs0 = crate::model::row_typs(tlc.rows@);
        let ghost cv0 = crate::model::children_view(children@);
        let row_term_is = {
            &tlc.rows[lhs.id].term
        };
        match row_term_is {
            Term::Ident(n) => {
                proof {
                    reveal_strlit("_");
                    assert(("_")@ =~= seq!['_']);
                }
                if crate::constant::str_eq(n.as_str(), "_") {
                    Ok(())
                } else {
                    let name = n.clone();
                    let typ = tlc.rows[lhs.id].typ.clone();
                    let ghost pre = children@;
                    children.push((name, crate::maps::KindMap::new(), typ, Some(lhs)));
                    proof {
                        assert(children@.drop_last() =~= pre);
                        assert(crate::model::children_view(children@) =~= cv0.push(
                            (n@, typs0[lhs.id as int], Some(lhs)),
                        ));
                        assert(lhs == TermId { id: lhs.id });
                    }
                    Ok(())
                }
            },
            Term::Ascript(lt, ltt) => {
                let lt = *lt;
                let ltt1 = ltt.clone();
                let ltt2 = ltt.clone();
                let ghost lttv = ltt@;
                proof {
                    assert(term_refs_before(tlc.rows@[lhs.id as int].term, lhs.id as int));
                }
                tlc.set_row_typ(lt.id, ltt1);
                tlc.set_row_typ(lhs.id, ltt2);
                let ghost t2 = typs0.update(lt.id as int, lttv).update(lhs.id as int, lttv);
                proof {
                    assert(crate::model::row_typs(tlc.rows@) =~= t2);
                    assert(solhs_spec(old(tlc).rows@, typs0, cv0, lhs.id as int) == solhs_spec(
                        old(tlc).rows@,
                        t2,
                        cv0,
                        lt.id as int,
                    ));
                    lemma_solhs_terms(old(tlc).rows@, tlc.rows@, t2, cv0, lt.id as int);
                }
                Term::scope_of_lhs_impl(tlc, children, lt)
            },
            _ => {
                let sp = tlc.rows[lhs.id].span;
                Err(
                    crate::debug::Error::new(
                        String::from_str("Unsupported Construct"),
                        String::from_str("destructure pattern in scope_of_lhs"),
                        sp,
                    ),
                )
            },
        }
    }

    /// Builds a fresh child scope from a pattern-position term: its
    /// bindings are the children the pattern destructures into, and its
    /// parent is the given scope.
    pub fn scope_of_lhs(
        tlc: &mut crate::tlc::TLC,
        scope: Option<crate::scope::ScopeId>,
        lhs: TermId,
    ) -> (r: Result<crate::scope::ScopeId, crate::debug::Error>)
        requires
            crate::tlc::tlc_wf(old(tlc)),
            lhs.id < old(tlc).rows@.len(),
            scope matches Some(s) ==> s.id < old(tlc).scopes@.len(),
            old(tlc).scopes@.len() < usize::MAX,
        ensures
            crate::tlc::tlc_wf(final(tlc)),
            final(tlc).rows@.len() == old(tlc).rows@.len(),
            match r {
                Ok(sid) => ({
                    let o = solhs_spec(
                        old(tlc).rows@,
                        crate::model::row_typs(old(tlc).rows@),
                        Seq::empty(),
                        lhs.id as int,
                    );
                    &&& sid.id as int == old(tlc).scopes@.len()
                    &&& final(tlc).scopes@.len() == old(tlc).scopes@.len() + 1
                    &&& final(tlc).scopes@[sid.id as int].parent == scope
                    &&& o is Some
                    &&& crate::model::children_view(final(tlc).scopes@[sid.id as int].children@)
                        == (o->0).1
                    &&& crate::model::row_typs(final(tlc).rows@) == (o->0).0
                }),
                Err(_) => solhs_spec(
                    old(tlc).rows@,
                    crate::model::row_typs(old(tlc).rows@),
                    Seq::empty(),
                    lhs.id as int,
                ) is None,
            },
    {
        proof {
            assert(crate::model::children_view(Seq::empty()) =~= Seq::<
                (Seq<char>, crate::model::TyV, Option<TermId>),
            >::empty());
        }
        let mut children: Vec<(String, crate::maps::KindMap, crate::typ::Type, Option<TermId>)> =
            Vec::new();
        match Term::scope_of_lhs_impl(tlc, &mut children, lhs) {
            Ok(()) => {
                let sid = tlc.push_scope(
                    crate::scope::Scope { parent: scope, children },
                );
                Ok(sid)
            },
            Err(e) => Err(e),
        }
    }
}


/// Why a reduction did not produce a constant.
pub enum RFail {
    Unsupported,
    NotReducible,
    NonExhaustive,
    Internal,
    OutOfFuel,
}

/// The diagnostic category a reduction failure is reported under.
pub open spec fn rfail_text(f: RFail) -> Seq<char> {
    match f {
        RFail::Unsupported => "Unsupported Construct"@,
        RFail::NotReducible => "Not Yet Reducible"@,
        RFail::NonExhaustive => "Non-Exhaustive Pattern"@,
        RFail::Internal => "Internal Error"@,
        RFail::OutOfFuel => "Recursion Limit"@,
    }
}

/// Looks a name up in a constant environment; later bindings shadow
/// earlier ones.
pub open spec fn env_lookup(
    env: Seq<(Seq<char>, crate::model::ConstV)>,
    n: Seq<char>,
) -> Option<crate::model::ConstV>
    decreases env.len(),
{
    if env.len() == 0 {
        None
    } else if env.last().0 == n {
        Some(env.last().1)
    } else {
        env_lookup(env.drop_last(), n)
    }
}

/// Binds one parameter group to a folded argument: a single parameter
/// takes the whole constant, several take the members of a tuple
/// constant of the same arity; every parameter must be named.
pub open spec fn bind_params_spec(
    params: Seq<(Option<String>, Option<crate::typ::Type>, crate::kind::Kind)>,
    argc: crate::model::ConstV,
    env: Seq<(Seq<char>, crate::model::ConstV)>,
) -> Result<Seq<(Seq<char>, crate::model::ConstV)>, RFail> {
    if params.len() == 1 {
        match params[0].0 {
            Some(nm) => Ok(env.push((nm@, argc))),
            None => Err(RFail::Unsupported),
        }
    } else {
        match argc {
            crate::model::ConstV::Tuple(cs) => {
                if cs.len() == params.len() {
                    bind_list_spec(params, cs, env, params.len() as int)
                } else {
                    Err(RFail::Internal)
                }
            },
            _ => Err(RFail::Internal),
        }
    }
}

/// Binds the first `i` parameters to the matching tuple members.
pub open spec fn bind_list_spec(
    params: Seq<(Option<String>, Option<crate::typ::Type>, crate::kind::Kind)>,
    cs: Seq<crate::model::ConstV>,
    env: Seq<(Seq<char>, crate::model::ConstV)>,
    i: int,
) -> Result<Seq<(Seq<char>, crate::model::ConstV)>, RFail>
    decreases i,
{
    if i <= 0 {
        Ok(env)
    } else if !(i - 1 < params.len() && i - 1 < cs.len()) {
        Err(RFail::Internal)
    } else {
        match bind_list_spec(params, cs, env, i - 1) {
            Err(e) => Err(e),
            Ok(env2) => match params[i - 1].0 {
                Some(nm) => Ok(env2.push((nm@, cs[i - 1]))),
                None => Err(RFail::Unsupported),
            },
        }
    }
}

/// Matches a folded scrutinee against a pattern: the wildcard and bare
/// identifiers bind, a literal requires equality of its parsed
/// constant, ascriptions are transparent; `Ok(None)` reports that the
/// arm does not match, and any other pattern shape is unsupported.
pub open spec fn reduce_lhs_spec(
    rows: Seq<Row>,
    lhs: int,
    c: crate::model::ConstV,
    env: Seq<(Seq<char>, crate::model::ConstV)>,
) -> Result<Option<Seq<(Seq<char>, crate::model::ConstV)>>, RFail>
    decreases lhs,
{
    if !(0 <= lhs < rows.len()) {
        Err(RFail::Internal)
    } else {
        match rows[lhs].term {
            Term::Ident(n) => {
                if n@ == seq!['_'] {
                    Ok(Some(env))
                } else {
                    Ok(Some(env.push((n@, c))))
                }
            },
            Term::Value(lv) => {
                if crate::constant::parse_const_v(lv@) == c {
                    Ok(Some(env))
                } else {
                    Ok(None)
                }
            },
            Term::Ascript(t0, _) => {
                if t0.id < lhs {
                    reduce_lhs_spec(rows, t0.id as int, c, env)
                } else {
                    Err(RFail::Internal)
                }
            },
            _ => Err(RFail::Unsupported),
        }
    }
}

/// Model of [`Term::reduce`]: constant folding over the term graph.
/// Literal values and zero-argument constructors become constants,
/// tuples fold member-wise, applications resolve the callee in scope
/// and fold its body under parameter bindings, projections index a
/// folded tuple, and pattern matches take the first matching arm.
pub open spec fn reduce_spec(
    rows: Seq<Row>,
    scopes: Seq<crate::scope::Scope>,
    sc: Option<crate::scope::ScopeId>,
    env: Seq<(Seq<char>, crate::model::ConstV)>,
    t: int,
    fuel: nat,
) -> Result<crate::model::ConstV, RFail>
    decreases fuel, t, 1int, 0int,
{
    if !(0 <= t < rows.len()) {
        Err(RFail::Internal)
    } else {
        match rows[t].term {
            Term::Value(v) => Ok(crate::constant::parse_const_v(v@)),
            Term::Constructor(cname, ps) => {
                if ps@.len() == 0 {
                    Ok(crate::constant::parse_const_v(cname@))
                } else {
                    Err(RFail::Unsupported)
                }
            },
            Term::Ident(n) => match env_lookup(env, n@) {
                Some(c) => Ok(c),
                None => Err(RFail::NotReducible),
            },
            Term::Ascript(t0, _) => {
                if t0.id < t {
                    reduce_spec(rows, scopes, sc, env, t0.id as int, fuel)
                } else {
                    Err(RFail::Internal)
                }
            },
            Term::Tuple(ts) => match reduce_list_spec(
                rows,
                scopes,
                sc,
                env,
                ts@,
                t,
                fuel,
                ts@.len() as int,
            ) {
                Ok(cs) => Ok(crate::model::ConstV::Tuple(cs)),
                Err(e) => Err(e),
            },
            Term::App(g, x) => {
                if g.id < t && x.id < t {
                    reduce_app_spec(rows, scopes, sc, env, g.id as int, x.id as int, t, fuel)
                } else {
                    Err(RFail::Internal)
                }
            },
            Term::Match(dv, arms) => {
                if dv.id < t {
                    match reduce_spec(rows, scopes, sc, env, dv.id as int, fuel) {
                        Err(e) => Err(e),
                        Ok(c) => reduce_arms_spec(rows, scopes, sc, env, arms@, c, t, fuel, 0),
                    }
                } else {
                    Err(RFail::Internal)
                }
            },
            _ => Err(RFail::NotReducible),
        }
    }
}

/// Folds an application: a projection of an integer constant indexes a
/// folded tuple; an identifier callee resolves through the scope chain
/// to a single-group let binding whose body is folded under the bound
/// parameters, spending one unit of fuel.
pub open spec fn reduce_app_spec(
    rows: Seq<Row>,
    scopes: Seq<crate::scope::Scope>,
    sc: Option<crate::scope::ScopeId>,
    env: Seq<(Seq<char>, crate::model::ConstV)>,
    g: int,
    x: int,
    t: int,
    fuel: nat,
) -> Result<crate::model::ConstV, RFail>
    decreases fuel, t, 0int, 0int,
{
    if !(0 <= g < t < rows.len() && 0 <= x < t) {
        Err(RFail::Internal)
    } else {
        match rows[g].term {
            Term::Project(pc) => match pc@ {
                crate::model::ConstV::Integer(i) => match reduce_spec(
                    rows,
                    scopes,
                    sc,
                    env,
                    x,
                    fuel,
                ) {
                    Ok(crate::model::ConstV::Tuple(cs)) => {
                        if 0 <= i < cs.len() {
                            Ok(cs[i as int])
                        } else {
                            Err(RFail::Internal)
                        }
                    },
                    Ok(_) => Err(RFail::Internal),
                    Err(e) => Err(e),
                },
                _ => Err(RFail::Unsupported),
            },
            Term::Ident(gv) => match sc {
                None => Err(RFail::Internal),
                Some(s) => match crate::scope::lookup_spec(
                    scopes,
                    s.id as int,
                    gv@,
                    rows[g].typ@,
                ) {
                    None => Err(RFail::Internal),
                    Some(b) => {
                        if b.id < rows.len() {
                            match rows[b.id as int].term {
                                Term::Let(lt) => {
                                    if lt.parameters@.len() != 1 {
                                        Err(RFail::Unsupported)
                                    } else {
                                        match reduce_spec(rows, scopes, sc, env, x, fuel) {
                                            Err(e) => Err(e),
                                            Ok(argc) => match bind_params_spec(
                                                lt.parameters@[0]@,
                                                argc,
                                                env,
                                            ) {
                                                Err(e) => Err(e),
                                                Ok(env2) => match lt.body {
                                                    None => Err(RFail::Unsupported),
                                                    Some(bd) => {
                                                        if fuel == 0 {
                                                            Err(RFail::OutOfFuel)
                                                        } else if bd.id < rows.len()
                                                            && lt.scope.id < scopes.len() {
                                                            reduce_spec(
                                                                rows,
                                                                scopes,
                                                                Some(lt.scope),
                                                                env2,
                                                                bd.id as int,
                                                                (fuel - 1) as nat,
                                                            )
                                                        } else {
                                                            Err(RFail::Internal)
                                                        }
                                                    },
                                                },
                                            },
                                        }
                                    }
                                },
                                _ => Err(RFail::Internal),
                            }
                        } else {
                            Err(RFail::Internal)
                        }
                    },
                },
            },
            _ => Err(RFail::Unsupported),
        }
    }
}

/// Folds the first `i` members of a tuple body.
pub open spec fn reduce_list_spec(
    rows: Seq<Row>,
    scopes: Seq<crate::scope::Scope>,
    sc: Option<crate::scope::ScopeId>,
    env: Seq<(Seq<char>, crate::model::ConstV)>,
    ts: Seq<TermId>,
    bound: int,
    fuel: nat,
    i: int,
) -> Result<Seq<crate::model::ConstV>, RFail>
    decreases fuel, bound, 0int, i,
{
    if i <= 0 {
        Ok(Seq::empty())
    } else if !(0 <= i - 1 < ts.len() && ts[i - 1].id < bound) {
        Err(RFail::Internal)
    } else {
        match reduce_list_spec(rows, scopes, sc, env, ts, bound, fuel, i - 1) {
            Err(e) => Err(e),
            Ok(cs) => match reduce_spec(rows, scopes, sc, env, ts[i - 1].id as int, fuel) {
                Err(e) => Err(e),
                Ok(c) => Ok(cs.push(c)),
            },
        }
    }
}

/// Tries pattern arms in source order from index `i`: the first arm
/// whose left-hand side matches the scrutinee's constant has its
/// right-hand side folded under the arm's bindings; no matching arm is
/// a non-exhaustive pattern.
pub open spec fn reduce_arms_spec(
    rows: Seq<Row>,
    scopes: Seq<crate::scope::Scope>,
    sc: Option<crate::scope::ScopeId>,
    env: Seq<(Seq<char>, crate::model::ConstV)>,
    arms: Seq<(crate::scope::ScopeId, TermId, TermId)>,
    c: crate::model::ConstV,
    bound: int,
    fuel: nat,
    i: int,
) -> Result<crate::model::ConstV, RFail>
    decreases fuel, bound, 0int, arms.len() - i,
{
    if i >= arms.len() {
        Err(RFail::NonExhaustive)
    } else if !(0 <= i && arms[i].1.id < bound && arms[i].2.id < bound) {
        Err(RFail::Internal)
    } else {
        match reduce_lhs_spec(rows, arms[i].1.id as int, c, env) {
            Err(e) => Err(e),
            Ok(Some(env2)) => reduce_spec(rows, scopes, sc, env2, arms[i].2.id as int, fuel),
            Ok(None) => reduce_arms_spec(rows, scopes, sc, env, arms, c, bound, fuel, i + 1),
        }
    }
}


/// Clones a constant environment, preserving its view.
fn clone_env(env: &Vec<(String, crate::constant::Constant)>) -> (r: Vec<
    (String, crate::constant::Constant),
>)
    ensures
        crate::model::env_view(r@) == crate::model::env_view(env@),
{
    broadcast use crate::model::lemma_env_view;

    let mut out: Vec<(String, crate::constant::Constant)> = Vec::new();
    let n = env.len();
    let mut i: usize = 0;
    while i < n
        invariant
            0 <= i <= n,
            n == env@.len(),
            crate::model::env_view(out@) =~= crate::model::env_view(env@).take(i as int),
        decreases n - i,
    {
        let ghost pre = crate::model::env_view(env@).take(i as int);
        let name = env[i].0.clone();
        let c = env[i].1.clone();
        let ghost out0 = out@;
        out.push((name, c));
        proof {
            crate::model::lemma_env_view(out@);
            crate::model::lemma_env_view(out0);
            crate::model::lemma_env_view(env@);
            assert(crate::model::env_view(out@) =~= pre.push(
                (env@[i as int].0@, env@[i as int].1@),
            ));
            assert(pre.push((env@[i as int].0@, env@[i as int].1@)) =~= crate::model::env_view(
                env@,
            ).take(i + 1));
        }
        i += 1;
    }
    proof {
        assert(crate::model::env_view(env@).take(n as int) =~= crate::model::env_view(env@));
    }
    out
}

/// Looks a name up in a constant environment; later bindings shadow
/// earlier ones.
fn env_get(env: &Vec<(String, crate::constant::Constant)>, n: &str) -> (r: Option<
    crate::constant::Constant,
>)
    ensures
        match r {
            Some(c) => env_lookup(crate::model::env_view(env@), n@) == Some(c@),
            None => env_lookup(crate::model::env_view(env@), n@) is None,
        },
{
    broadcast use crate::model::lemma_env_view;

    let ghost ev = crate::model::env_view(env@);
    let ln = env.len();
    let mut i: usize = ln;
    proof {
        crate::model::lemma_env_view(env@);
        assert(ev.take(ln as int) =~= ev);
    }
    while i > 0
        invariant
            0 <= i <= ln,
            ln == env@.len(),
            ev == crate::model::env_view(env@),
            env_lookup(ev, n@) == env_lookup(ev.take(i as int), n@),
        decreases i,
    {
        proof {
            crate::model::lemma_env_view(env@);
            assert(ev.take(i as int).len() == i);
            assert(ev.take(i as int).last() == ev[i - 1]);
            assert(ev.take(i as int).drop_last() =~= ev.take(i - 1));
        }
        if crate::constant::str_eq(env[i - 1].0.as_str(), n) {
            let c = env[i - 1].1.clone();
            return Some(c);
        }
        i -= 1;
    }
    proof {
        assert(ev.take(0) =~= Seq::<(Seq<char>, crate::model::ConstV)>::empty());
    }
    None
}

impl Term {
    /// Matches a folded scrutinee against a pattern, returning the
    /// extended environment on a match, `None` when the arm does not
    /// match, and an unsupported-construct diagnostic on any pattern
    /// shape other than identifiers, literals and ascriptions.
    fn reduce_lhs(
        tlc: &crate::tlc::TLC,
        lhs: TermId,
        c: &crate::constant::Constant,
        env: &Vec<(String, crate::constant::Constant)>,
    ) -> (r: Result<Option<Vec<(String, crate::constant::Constant)>>, crate::debug::Error>)
        requires
            crate::tlc::tlc_wf(tlc),
            lhs.id < tlc.rows@.len(),
        ensures
            match (r, reduce_lhs_spec(
                tlc.rows@,
                lhs.id as int,
                c@,
                crate::model::env_view(env@),
            )) {
                (Ok(Some(e2)), Ok(Some(v2))) => crate::model::env_view(e2@) == v2,
                (Ok(None), Ok(o)) => o is None,
                (Err(e), Err(f)) => e.kind@ == rfail_text(f),
                _ => false,
            },
        decreases lhs.id,
    {
        broadcast use crate::model::lemma_env_view;

        match &tlc.rows[lhs.id].term {
            Term::Ident(n) => {
                proof {
                    reveal_strlit("_");
                    assert(("_")@ =~= seq!['_']);
                }
                if crate::constant::str_eq(n.as_str(), "_") {
                    Ok(Some(clone_env(env)))
                } else {
                    let mut e2 = clone_env(env);
                    let ghost pre = crate::model::env_view(e2@);
                    e2.push((n.clone(), c.clone()));
                    proof {
                        assert(crate::model::env_view(e2@) =~= pre.push((n@, c@)));
                    }
                    Ok(Some(e2))
                }
            },
            Term::Value(lv) => {
                let pc = crate::constant::Constant::parse(tlc, lv.as_str());
                match pc {
                    Some(p) => {
                        if crate::constant::eq_const(&p, c) {
                            Ok(Some(clone_env(env)))
                        } else {
                            Ok(None)
                        }
                    },
                    None => Ok(None),
                }
            },
            Term::Ascript(t0, _) => {
                proof {
                    assert(term_refs_before(tlc.rows@[lhs.id as int].term, lhs.id as int));
                }
                Term::reduce_lhs(tlc, *t0, c, env)
            },
            _ => {
                let sp = tlc.rows[lhs.id].span;
                Err(
                    crate::debug::Error::new(
                        String::from_str("Unsupported Construct"),
                        String::from_str("destructure pattern in reduce"),
                        sp,
                    ),
                )
            },
        }
    }

    /// Constant-folding reduction of a term: literal values and
    /// zero-argument constructors fold directly, tuples fold
    /// member-wise, applications resolve the callee in scope and fold
    /// its body under parameter bindings (spending one unit of fuel per
    /// call), projections index a folded tuple, and pattern matches
    /// fold the first matching arm. Shapes outside this subset report a
    /// failure rather than folding wrongly.
    pub fn reduce(
        tlc: &crate::tlc::TLC,
        scope: &Option<crate::scope::ScopeId>,
        term: TermId,
        fuel: u64,
    ) -> (r: Result<crate::constant::Constant, crate::debug::Error>)
        requires
            crate::tlc::tlc_wf(tlc),
            term.id < tlc.rows@.len(),
        ensures
            match (r, reduce_spec(
                tlc.rows@,
                tlc.scopes@,
                *scope,
                Seq::empty(),
                term.id as int,
                fuel as nat,
            )) {
                (Ok(cc), Ok(cv)) => cc@ == cv,
                (Err(e), Err(f)) => e.kind@ == rfail_text(f),
                _ => false,
            },
    {
        let env: Vec<(String, crate::constant::Constant)> = Vec::new();
        proof {
            assert(crate::model::env_view(env@) =~= Seq::<(Seq<char>, crate::model::ConstV)>::empty());
        }
        Term::reduce_in(tlc, scope, &env, term, fuel)
    }

    /// The recursive pass of [`Term::reduce`], threading the constant
    /// environment of the enclosing bindings.
    fn reduce_in(
        tlc: &crate::tlc::TLC,
        scope: &Option<crate::scope::ScopeId>,
        env: &Vec<(String, crate::constant::Constant)>,
        term: TermId,
        fuel: u64,
    ) -> (r: Result<crate::constant::Constant, crate::debug::Error>)
        requires
            crate::tlc::tlc_wf(tlc),
            term.id < tlc.rows@.len(),
        ensures
            match (r, reduce_spec(
                tlc.rows@,
                tlc.scopes@,
                *scope,
                crate::model::env_view(env@),
                term.id as int,
                fuel as nat,
            )) {
                (Ok(cc), Ok(cv)) => cc@ == cv,
                (Err(e), Err(f)) => e.kind@ == rfail_text(f),
                _ => false,
            },
        decreases fuel, term.id, 1int,
    {
        broadcast use crate::model::lemma_env_view, crate::model::lemma_const_seq_view;

        let ghost ev = crate::model::env_view(env@);
        let sp = tlc.rows[term.id].span;
        match &tlc.rows[term.id].term {
            Term::Value(v) => {
                let pc = crate::constant::Constant::parse(tlc, v.as_str());
                match pc {
                    Some(p) => Ok(p),
                    None => Err(
                        crate::debug::Error::new(
                            String::from_str("Internal Error"),
                            String::from_str("literal value did not parse"),
                            sp,
                        ),
                    ),
                }
            },
            Term::Constructor(cname, ps) => {
                if ps.len() == 0 {
                    let pc = crate::constant::Constant::parse(tlc, cname.as_str());
                    match pc {
                        Some(p) => Ok(p),
                        None => Err(
                            crate::debug::Error::new(
                                String::from_str("Internal Error"),
                                String::from_str("constructor tag did not parse"),
                                sp,
                            ),
                        ),
                    }
                } else {
                    Err(
                        crate::debug::Error::new(
                            String::from_str("Unsupported Construct"),
                            String::from_str("constructor with fields in reduce"),
                            sp,
                        ),
                    )
                }
            },
            Term::Ident(n) => {
                match env_get(env, n.as_str()) {
                    Some(c) => Ok(c),
                    None => Err(
                        crate::debug::Error::new(
                            String::from_str("Not Yet Reducible"),
                            String::from_str("free identifier in reduce"),
                            sp,
                        ),
                    ),
                }
            },
            Term::Ascript(t0, _) => {
                proof {
                    assert(term_refs_before(tlc.rows@[term.id as int].term, term.id as int));
                }
                Term::reduce_in(tlc, scope, env, *t0, fuel)
            },
            Term::Tuple(ts) => {
                proof {
                    assert(term_refs_before(tlc.rows@[term.id as int].term, term.id as int));
                }
                let n = ts.len();
                let mut cs: Vec<crate::constant::Constant> = Vec::new();
                let mut i: usize = 0;
                while i < n
                    invariant
                        0 <= i <= n,
                        crate::tlc::tlc_wf(tlc),
                        term.id < tlc.rows@.len(),
                        ev == crate::model::env_view(env@),
                        tlc.rows@[term.id as int].term matches Term::Tuple(l2) && l2@ == ts@,
                        n == ts@.len(),
                        reduce_list_spec(
                            tlc.rows@,
                            tlc.scopes@,
                            *scope,
                            ev,
                            ts@,
                            term.id as int,
                            fuel as nat,
                            i as int,
                        ) == Ok::<_, RFail>(crate::model::const_seq_view(cs@)),
                    decreases n - i,
                {
                    proof {
                        assert(term_refs_before(
                            tlc.rows@[term.id as int].term,
                            term.id as int,
                        ));
                        assert(ts@[i as int].id < term.id);
                    }
                    let rc = Term::reduce_in(tlc, scope, env, ts[i], fuel);
                    match rc {
                        Ok(c) => {
                            let ghost pre = crate::model::const_seq_view(cs@);
                            let ghost cs0 = cs@;
                            cs.push(c);
                            proof {
                                crate::model::lemma_const_seq_view(cs@);
                                crate::model::lemma_const_seq_view(cs0);
                                assert(crate::model::const_seq_view(cs@) =~= pre.push(c@));
                            }
                        },
                        Err(e) => {
                            proof {
                                assert(term_refs_before(
                                    tlc.rows@[term.id as int].term,
                                    term.id as int,
                                ));
                                assert(forall|j: int|
                                    0 <= j < n ==> (#[trigger] ts@[j]).id < term.id);
                                lemma_reduce_list_err(
                                    tlc.rows@,
                                    tlc.scopes@,
                                    *scope,
                                    ev,
                                    ts@,
                                    term.id as int,
                                    fuel as nat,
                                    i + 1,
                                    n as int,
                                );
                            }
                            return Err(e);
                        },
                    }
                    i += 1;
                }
                let r = crate::constant::Constant::Tuple(cs);
                proof {
                    assert(r@ == crate::model::ConstV::Tuple(crate::model::const_seq_view(
                        r->Tuple_0@,
                    )));
                }
                Ok(r)
            },
            Term::App(g, x) => {
                proof {
                    assert(term_refs_before(tlc.rows@[term.id as int].term, term.id as int));
                }
                Term::reduce_app(tlc, scope, env, *g, *x, term, fuel)
            },
            Term::Match(dv, arms) => {
                proof {
                    assert(term_refs_before(tlc.rows@[term.id as int].term, term.id as int));
                }
                let rc = Term::reduce_in(tlc, scope, env, *dv, fuel);
                let c = match rc {
                    Ok(c) => c,
                    Err(e) => {
                        return Err(e);
                    },
                };
                let n = arms.len();
                let mut i: usize = 0;
                while i < n
                    invariant
                        0 <= i <= n,
                        crate::tlc::tlc_wf(tlc),
                        term.id < tlc.rows@.len(),
                        ev == crate::model::env_view(env@),
                        tlc.rows@[term.id as int].term matches Term::Match(d2, a2) && (a2@
                            == arms@ && d2.id < term.id && reduce_spec(
                            tlc.rows@,
                            tlc.scopes@,
                            *scope,
                            ev,
                            d2.id as int,
                            fuel as nat,
                        ) == Ok::<_, RFail>(c@)),
                        n == arms@.len(),
                        reduce_arms_spec(
                            tlc.rows@,
                            tlc.scopes@,
                            *scope,
                            ev,
                            arms@,
                            c@,
                            term.id as int,
                            fuel as nat,
                            0,
                        ) == reduce_arms_spec(
                            tlc.rows@,
                            tlc.scopes@,
                            *scope,
                            ev,
                            arms@,
                            c@,
                            term.id as int,
                            fuel as nat,
                            i as int,
                        ),
                    decreases n - i,
                {
                    proof {
                        assert(term_refs_before(
                            tlc.rows@[term.id as int].term,
                            term.id as int,
                        ));
                        assert(arms@[i as int].1.id < term.id);
                        assert(arms@[i as int].2.id < term.id);
                    }
                    let arm_l = arms[i].1;
                    let arm_r = arms[i].2;
                    let ghost arms_now = reduce_arms_spec(
                        tlc.rows@,
                        tlc.scopes@,
                        *scope,
                        ev,
                        arms@,
                        c@,
                        term.id as int,
                        fuel as nat,
                        i as int,
                    );
                    let m = Term::reduce_lhs(tlc, arm_l, &c, env);
                    match m {
                        Ok(Some(env2)) => {
                            proof {
                                assert(arms_now == reduce_spec(
                                    tlc.rows@,
                                    tlc.scopes@,
                                    *scope,
                                    crate::model::env_view(env2@),
                                    arm_r.id as int,
                                    fuel as nat,
                                ));
                            }
                            return Term::reduce_in(tlc, scope, &env2, arm_r, fuel);
                        },
                        Ok(None) => {},
                        Err(e) => {
                            proof {
                                assert(arms_now is Err);
                            }
                            return Err(e);
                        },
                    }
                    i += 1;
                }
                Err(
                    crate::debug::Error::new(
                        String::from_str("Non-Exhaustive Pattern"),
                        String::from_str("no arm matched the folded scrutinee"),
                        sp,
                    ),
                )
            },
            _ => Err(
                crate::debug::Error::new(
                    String::from_str("Not Yet Reducible"),
                    String::from_str("term shape outside the folded subset"),
                    sp,
                ),
            ),
        }
    }

    /// Folds an application; see [`reduce_app_spec`].
    fn reduce_app(
        tlc: &crate::tlc::TLC,
        scope: &Option<crate::scope::ScopeId>,
        env: &Vec<(String, crate::constant::Constant)>,
        g: TermId,
        x: TermId,
        term: TermId,
        fuel: u64,
    ) -> (r: Result<crate::constant::Constant, crate::debug::Error>)
        requires
            crate::tlc::tlc_wf(tlc),
            term.id < tlc.rows@.len(),
            g.id < term.id,
            x.id < term.id,
        ensures
            match (r, reduce_app_spec(
                tlc.rows@,
                tlc.scopes@,
                *scope,
                crate::model::env_view(env@),
                g.id as int,
                x.id as int,
                term.id as int,
                fuel as nat,
            )) {
                (Ok(cc), Ok(cv)) => cc@ == cv,
                (Err(e), Err(f)) => e.kind@ == rfail_text(f),
                _ => false,
            },
        decreases fuel, term.id, 0int,
    {
        broadcast use crate::model::lemma_env_view, crate::model::lemma_const_seq_view;

        let sp = tlc.rows[term.id].span;
        match &tlc.rows[g.id].term {
            Term::Project(pc) => {
                if let crate::constant::Constant::Integer(ix) = pc {
                    let rc = Term::reduce_in(tlc, scope, env, x, fuel);
                    match rc {
                        Ok(crate::constant::Constant::Tuple(cs)) => {
                            let ghost cv = crate::model::const_seq_view(cs@);
                            if 0 <= *ix && (*ix as u64) < (cs.len() as u64) {
                                let c = cs[*ix as usize].clone();
                                Ok(c)
                            } else {
                                Err(
                                    crate::debug::Error::new(
                                        String::from_str("Internal Error"),
                                        String::from_str("projection index out of bounds"),
                                        sp,
                                    ),
                                )
                            }
                        },
                        Ok(_) => Err(
                            crate::debug::Error::new(
                                String::from_str("Internal Error"),
                                String::from_str("projection of a non-tuple constant"),
                                sp,
                            ),
                        ),
                        Err(e) => Err(e),
                    }
                } else {
                    Err(
                        crate::debug::Error::new(
                            String::from_str("Unsupported Construct"),
                            String::from_str("projection by a non-integer constant"),
                            sp,
                        ),
                    )
                }
            },
            Term::Ident(gv) => {
                let s = match scope {
                    Some(s) => *s,
                    None => {
                        return Err(
                            crate::debug::Error::new(
                                String::from_str("Internal Error"),
                                String::from_str("function application has no scope"),
                                sp,
                            ),
                        );
                    },
                };
                if s.id >= tlc.scopes.len() {
                    return Err(
                        crate::debug::Error::new(
                            String::from_str("Internal Error"),
                            String::from_str("scope handle out of bounds"),
                            sp,
                        ),
                    );
                }
                let b = match crate::scope::Scope::lookup_term(
                    tlc,
                    s,
                    gv.as_str(),
                    &tlc.rows[g.id].typ,
                ) {
                    Some(b) => b,
                    None => {
                        return Err(
                            crate::debug::Error::new(
                                String::from_str("Internal Error"),
                                String::from_str("failed to look the callee up in scope"),
                                sp,
                            ),
                        );
                    },
                };
                if b.id >= tlc.rows.len() {
                    return Err(
                        crate::debug::Error::new(
                            String::from_str("Internal Error"),
                            String::from_str("binding handle out of bounds"),
                            sp,
                        ),
                    );
                }
                let lt = match &tlc.rows[b.id].term {
                    Term::Let(lt) => lt,
                    _ => {
                        return Err(
                            crate::debug::Error::new(
                                String::from_str("Internal Error"),
                                String::from_str("callee binding is not a let"),
                                sp,
                            ),
                        );
                    },
                };
                if lt.parameters.len() != 1 {
                    return Err(
                        crate::debug::Error::new(
                            String::from_str("Unsupported Construct"),
                            String::from_str("curried or valued let binding in reduce"),
                            sp,
                        ),
                    );
                }
                let argc = match Term::reduce_in(tlc, scope, env, x, fuel) {
                    Ok(c) => c,
                    Err(e) => {
                        return Err(e);
                    },
                };
                let env2 = match Term::bind_params(&lt.parameters[0], &argc, env) {
                    Ok(e2) => e2,
                    Err(e) => {
                        return Err(e);
                    },
                };
                let bd = match &lt.body {
                    Some(bd) => *bd,
                    None => {
                        return Err(
                            crate::debug::Error::new(
                                String::from_str("Unsupported Construct"),
                                String::from_str("let binding without a body in reduce"),
                                sp,
                            ),
                        );
                    },
                };
                if fuel == 0 {
                    return Err(
                        crate::debug::Error::new(
                            String::from_str("Recursion Limit"),
                            String::from_str("constant folding ran out of fuel"),
                            sp,
                        ),
                    );
                }
                if bd.id < tlc.rows.len() && lt.scope.id < tlc.scopes.len() {
                    Term::reduce_in(tlc, &Some(lt.scope), &env2, bd, fuel - 1)
                } else {
                    Err(
                        crate::debug::Error::new(
                            String::from_str("Internal Error"),
                            String::from_str("body or scope handle out of bounds"),
                            sp,
                        ),
                    )
                }
            },
            _ => Err(
                crate::debug::Error::new(
                    String::from_str("Unsupported Construct"),
                    String::from_str("call of a non-identifier callee in reduce"),
                    sp,
                ),
            ),
        }
    }

    /// Binds one parameter group to a folded argument.
    fn bind_params(
        params: &Vec<(Option<String>, Option<crate::typ::Type>, crate::kind::Kind)>,
        argc: &crate::constant::Constant,
        env: &Vec<(String, crate::constant::Constant)>,
    ) -> (r: Result<Vec<(String, crate::constant::Constant)>, crate::debug::Error>)
        ensures
            match (r, bind_params_spec(params@, argc@, crate::model::env_view(env@))) {
                (Ok(e2), Ok(v2)) => crate::model::env_view(e2@) == v2,
                (Err(e), Err(f)) => e.kind@ == rfail_text(f),
                _ => false,
            },
    {
        broadcast use crate::model::lemma_env_view, crate::model::lemma_const_seq_view;

        let sp = crate::token::Span::none();
        if params.len() == 1 {
            match &params[0].0 {
                Some(nm) => {
                    let mut e2 = clone_env(env);
                    let ghost pre = crate::model::env_view(e2@);
                    e2.push((nm.clone(), argc.clone()));
                    proof {
                        assert(crate::model::env_view(e2@) =~= pre.push((nm@, argc@)));
                    }
                    Ok(e2)
                },
                None => Err(
                    crate::debug::Error::new(
                        String::from_str("Unsupported Construct"),
                        String::from_str("unnamed parameter in reduce"),
                        sp,
                    ),
                ),
            }
        } else {
            let cs = match argc {
                crate::constant::Constant::Tuple(cs) => cs,
                _ => {
                    return Err(
                        crate::debug::Error::new(
                            String::from_str("Internal Error"),
                            String::from_str("argument arity mismatch in reduce"),
                            sp,
                        ),
                    );
                },
            };
            proof {
                assert(argc@ == crate::model::ConstV::Tuple(crate::model::const_seq_view(cs@)));
            }
            if cs.len() != params.len() {
                return Err(
                    crate::debug::Error::new(
                        String::from_str("Internal Error"),
                        String::from_str("argument arity mismatch in reduce"),
                        sp,
                    ),
                );
            }
            let n = params.len();
            let mut e2 = clone_env(env);
            let mut i: usize = 0;
            while i < n
                invariant
                    0 <= i <= n,
                    n == params@.len(),
                    n == cs@.len(),
                    n != 1,
                    argc@ == crate::model::ConstV::Tuple(crate::model::const_seq_view(cs@)),
                    bind_list_spec(
                        params@,
                        crate::model::const_seq_view(cs@),
                        crate::model::env_view(env@),
                        i as int,
                    ) == Ok::<_, RFail>(crate::model::env_view(e2@)),
                decreases n - i,
            {
                match &params[i].0 {
                    Some(nm) => {
                        let ghost pre = crate::model::env_view(e2@);
                        let ghost e20 = e2@;
                        e2.push((nm.clone(), cs[i].clone()));
                        proof {
                            crate::model::lemma_env_view(e2@);
                            crate::model::lemma_env_view(e20);
                            crate::model::lemma_const_seq_view(cs@);
                            assert(crate::model::env_view(e2@) =~= pre.push(
                                (nm@, crate::model::const_seq_view(cs@)[i as int]),
                            ));
                        }
                    },
                    None => {
                        proof {
                            crate::model::lemma_const_seq_view(cs@);
                            lemma_bind_list_err(
                                params@,
                                crate::model::const_seq_view(cs@),
                                crate::model::env_view(env@),
                                i + 1,
                                n as int,
                            );
                        }
                        return Err(
                            crate::debug::Error::new(
                                String::from_str("Unsupported Construct"),
                                String::from_str("unnamed parameter in reduce"),
                                sp,
                            ),
                        );
                    },
                }
                i += 1;
            }
            Ok(e2)
        }
    }
}

/// A failing member poisons the rest of a tuple fold.
proof fn lemma_reduce_list_err(
    rows: Seq<Row>,
    scopes: Seq<crate::scope::Scope>,
    sc: Option<crate::scope::ScopeId>,
    env: Seq<(Seq<char>, crate::model::ConstV)>,
    ts: Seq<TermId>,
    bound: int,
    fuel: nat,
    i: int,
    n: int,
)
    requires
        0 <= i <= n,
        n <= ts.len(),
        forall|j: int| 0 <= j < n ==> (#[trigger] ts[j]).id < bound,
        reduce_list_spec(rows, scopes, sc, env, ts, bound, fuel, i) is Err,
    ensures
        reduce_list_spec(rows, scopes, sc, env, ts, bound, fuel, n) == reduce_list_spec(
            rows,
            scopes,
            sc,
            env,
            ts,
            bound,
            fuel,
            i,
        ),
    decreases n - i,
{
    if i < n {
        lemma_reduce_list_err(rows, scopes, sc, env, ts, bound, fuel, i + 1, n);
    }
}


/// A failing parameter poisons the rest of an argument lowering.
proof fn lemma_lowered_args_err(
    scopes: Seq<crate::scope::Scope>,
    fscope: int,
    params: Seq<(Option<String>, Option<crate::typ::Type>, crate::kind::Kind)>,
    i: int,
    n: int,
)
    requires
        0 <= i <= n,
        n <= params.len(),
        lowered_args_r(scopes, fscope, params, i) is Err,
    ensures
        lowered_args_r(scopes, fscope, params, n) == lowered_args_r(scopes, fscope, params, i),
    decreases n - i,
{
    if i < n {
        lemma_lowered_args_err(scopes, fscope, params, i + 1, n);
    }
}

/// A failing parameter poisons the rest of a binding fold.
proof fn lemma_bind_list_err(
    params: Seq<(Option<String>, Option<crate::typ::Type>, crate::kind::Kind)>,
    cs: Seq<crate::model::ConstV>,
    env: Seq<(Seq<char>, crate::model::ConstV)>,
    i: int,
    n: int,
)
    requires
        0 <= i <= n,
        n <= params.len(),
        n <= cs.len(),
        bind_list_spec(params, cs, env, i) is Err,
    ensures
        bind_list_spec(params, cs, env, n) == bind_list_spec(params, cs, env, i),
    decreases n - i,
{
    if i < n {
        lemma_bind_list_err(params, cs, env, i + 1, n);
    }
}


/// Model of a lowered pattern fragment.
pub enum LhsV {
    Literal(Seq<char>),
    Any,
    Variable(int),
}

/// Model of [`Term::compile_lhs`]: a literal value becomes a
/// literal-match fragment, the wildcard a wildcard fragment, an
/// identifier a variable fragment resolved through the scope chain at
/// the term's current type, and ascriptions are transparent.
pub open spec fn clhs_spec(
    rows: Seq<Row>,
    scopes: Seq<crate::scope::Scope>,
    sid: int,
    t: int,
) -> Result<LhsV, RFail>
    decreases t,
{
    if !(0 <= t < rows.len()) {
        Err(RFail::Internal)
    } else {
        match rows[t].term {
            Term::Value(lv) => Ok(LhsV::Literal(lv@)),
            Term::Ident(ln) => {
                if ln@ == seq!['_'] {
                    Ok(LhsV::Any)
                } else {
                    match crate::scope::lookup_spec(scopes, sid, ln@, rows[t].typ@) {
                        Some(b) => Ok(LhsV::Variable(b.id as int)),
                        None => Err(RFail::Internal),
                    }
                }
            },
            Term::Ascript(t0, _) => {
                if t0.id < t {
                    clhs_spec(rows, scopes, sid, t0.id as int)
                } else {
                    Err(RFail::Internal)
                }
            },
            _ => Err(RFail::Unsupported),
        }
    }
}

/// View of a lowered pattern fragment.
pub open spec fn lhs_view(l: crate::ir::LHSPart) -> LhsV {
    match l {
        crate::ir::LHSPart::Literal(s) => LhsV::Literal(s@),
        crate::ir::LHSPart::Any => LhsV::Any,
        crate::ir::LHSPart::Variable(i) => LhsV::Variable(i as int),
    }
}

/// The mangled name of a let binding: its source name, each parameter
/// group's declared types in parentheses with an arrow, and the
/// declared return type, so that structurally distinct instantiations
/// lower to distinct definitions.
pub open spec fn mangled_name_v(lt: LetTerm) -> Seq<char> {
    lt.name@ + seq![':'] + mangled_groups_v(lt.parameters@) + crate::render::render_ty(
        lt.rtype@,
        Map::empty(),
    )
}

/// The parameter-group part of a mangled name.
pub open spec fn mangled_groups_v(
    groups: Seq<Vec<(Option<String>, Option<crate::typ::Type>, crate::kind::Kind)>>,
) -> Seq<char>
    decreases groups,
{
    if groups.len() == 0 {
        Seq::empty()
    } else {
        mangled_groups_v(groups.drop_last()) + seq!['('] + mangled_args_v(
            groups.last()@,
            groups.last()@.len() as int,
        ) + seq![')', '-', '>']
    }
}

/// The typed arguments of one group, comma-separated by position.
pub open spec fn mangled_args_v(
    args: Seq<(Option<String>, Option<crate::typ::Type>, crate::kind::Kind)>,
    i: int,
) -> Seq<char>
    decreases i,
{
    if i <= 0 || args.len() < i {
        Seq::empty()
    } else {
        mangled_args_v(args, i - 1) + (match args[i - 1].1 {
            Some(at) => (if i - 1 > 0 {
                seq![',']
            } else {
                Seq::empty()
            }) + crate::render::render_ty(at@, Map::empty()),
            None => Seq::empty(),
        })
    }
}

impl Term {
    /// Lowers a left-hand-side term into a pattern fragment: a literal
    /// becomes a literal match, the wildcard a wildcard, an identifier
    /// a variable binding resolved through the scope chain at the
    /// term's current type, and ascriptions are transparent.
    pub fn compile_lhs(
        tlc: &crate::tlc::TLC,
        scope: crate::scope::ScopeId,
        term: TermId,
    ) -> (r: Result<crate::ir::LHSPart, crate::debug::Error>)
        requires
            crate::tlc::tlc_wf(tlc),
            term.id < tlc.rows@.len(),
            scope.id < tlc.scopes@.len(),
        ensures
            match (r, clhs_spec(tlc.rows@, tlc.scopes@, scope.id as int, term.id as int)) {
                (Ok(l), Ok(lv)) => lhs_view(l) == lv,
                (Err(e), Err(f)) => e.kind@ == rfail_text(f),
                _ => false,
            },
        decreases term.id,
    {
        let sp = tlc.rows[term.id].span;
        match &tlc.rows[term.id].term {
            Term::Value(lv) => Ok(crate::ir::LHSPart::Literal(lv.clone())),
            Term::Ident(ln) => {
                proof {
                    reveal_strlit("_");
                    assert(("_")@ =~= seq!['_']);
                }
                if crate::constant::str_eq(ln.as_str(), "_") {
                    Ok(crate::ir::LHSPart::Any)
                } else {
                    let tt = &tlc.rows[term.id].typ;
                    match crate::scope::Scope::lookup_term(tlc, scope, ln.as_str(), tt) {
                        Some(b) => Ok(crate::ir::LHSPart::Variable(b.id)),
                        None => Err(
                            crate::debug::Error::new(
                                String::from_str("Internal Error"),
                                String::from_str("pattern identifier not found in scope"),
                                sp,
                            ),
                        ),
                    }
                }
            },
            Term::Ascript(t0, _) => {
                proof {
                    assert(term_refs_before(tlc.rows@[term.id as int].term, term.id as int));
                }
                Term::compile_lhs(tlc, scope, *t0)
            },
            _ => Err(
                crate::debug::Error::new(
                    String::from_str("Unsupported Construct"),
                    String::from_str("pattern shape in compile_lhs"),
                    sp,
                ),
            ),
        }
    }

    /// The deterministic mangled name of a let binding, encoding its
    /// parameter and return types.
    pub fn mangled_name(lt: &LetTerm) -> (r: String)
        ensures
            r@ == mangled_name_v(*lt),
    {
        let mut name = lt.name.clone();
        proof {
            reveal_strlit(":");
            assert((":")@ =~= seq![':']);
        }
        name.append(":");
        let ghost groups = lt.parameters@;
        let gn = lt.parameters.len();
        let mut gi: usize = 0;
        proof {
            assert(mangled_groups_v(groups.take(0)) =~= Seq::<char>::empty());
            assert(name@ =~= lt.name@ + seq![':'] + mangled_groups_v(groups.take(0)));
        }
        while gi < gn
            invariant
                0 <= gi <= gn,
                gn == lt.parameters@.len(),
                groups == lt.parameters@,
                name@ == lt.name@ + seq![':'] + mangled_groups_v(groups.take(gi as int)),
            decreases gn - gi,
        {
            proof {
                reveal_strlit("(");
                reveal_strlit(")->");
                reveal_strlit(",");
                assert(("(")@ =~= seq!['(']);
                assert((")->")@ =~= seq![')', '-', '>']);
                assert((",")@ =~= seq![',']);
                assert(groups.take(gi + 1).drop_last() =~= groups.take(gi as int));
                assert(groups.take(gi + 1).last() == groups[gi as int]);
            }
            name.append("(");
            let ps = &lt.parameters[gi];
            let ghost args = ps@;
            let an = ps.len();
            let mut ai: usize = 0;
            proof {
                assert(mangled_args_v(args, 0) =~= Seq::<char>::empty());
            }
            let ghost base = name@;
            while ai < an
                invariant
                    0 <= ai <= an,
                    an == ps@.len(),
                    args == ps@,
                    name@ == base + mangled_args_v(args, ai as int),
                decreases an - ai,
            {
                proof {
                    reveal_strlit(",");
                    assert((",")@ =~= seq![',']);
                }
                if let Some(at) = &ps[ai].1 {
                    if ai > 0 {
                        name.append(",");
                    }
                    let piece = at.datatype();
                    name.append(piece.as_str());
                }
                proof {
                    assert(args[ai as int] == ps@[ai as int]);
                }
                ai += 1;
            }
            proof {
                assert(mangled_args_v(args, an as int) == mangled_args_v(
                    groups[gi as int]@,
                    groups[gi as int]@.len() as int,
                ));
            }
            name.append(")->");
            proof {
                assert(name@ =~= lt.name@ + seq![':'] + mangled_groups_v(groups.take(gi + 1)));
            }
            gi += 1;
        }
        proof {
            assert(groups.take(gn as int) =~= groups);
        }
        let rt = lt.rtype.datatype();
        name.append(rt.as_str());
        proof {
            assert(name@ =~= mangled_name_v(*lt));
        }
        name
    }
}



/// View of a lowered argument vector.
pub open spec fn args_view(s: Seq<(usize, String)>) -> Seq<(int, Seq<char>)>
    decreases s,
{
    if s.len() == 0 {
        Seq::empty()
    } else {
        args_view(s.drop_last()).push((s.last().0 as int, s.last().1@))
    }
}


/// Model of a lowered expression.
pub struct ExprV {
    pub op: EOpV,
    pub dtype: Seq<char>,
    pub span: crate::token::Span,
}

/// Model of a lowered expression's operation.
pub enum EOpV {
    Unit,
    Literal(Seq<char>),
    Variable(int),
    Apply(Seq<char>, Seq<ExprV>),
    PatternMatch(Box<ExprV>, Seq<(LhsV, ExprV)>),
}

/// Model of a lowered function definition.
pub struct FuncV {
    pub name: Seq<char>,
    pub args: Seq<(int, Seq<char>)>,
    pub body: Seq<ExprV>,
}

/// View of a lowered expression.
pub open spec fn expr_view(e: crate::ir::Expression) -> ExprV
    decreases e,
{
    ExprV { op: eop_view(e.op), dtype: e.dtype@, span: e.span }
}

/// View of a lowered operation.
pub open spec fn eop_view(op: crate::ir::ExprOp) -> EOpV
    decreases op,
{
    match op {
        crate::ir::ExprOp::Unit => EOpV::Unit,
        crate::ir::ExprOp::Literal(s) => EOpV::Literal(s@),
        crate::ir::ExprOp::Variable(v) => EOpV::Variable(v as int),
        crate::ir::ExprOp::Apply(n, es) => EOpV::Apply(n@, expr_seq_view(es@)),
        crate::ir::ExprOp::PatternMatch(b, arms) => EOpV::PatternMatch(
            Box::new(expr_view(*b)),
            arm_seq_view(arms@),
        ),
    }
}

/// View of a sequence of lowered expressions, element by element.
pub open spec fn expr_seq_view(es: Seq<crate::ir::Expression>) -> Seq<ExprV>
    decreases es,
{
    if es.len() == 0 {
        Seq::empty()
    } else {
        expr_seq_view(es.drop_last()).push(expr_view(es.last()))
    }
}

/// View of a sequence of lowered pattern arms, element by element.
pub open spec fn arm_seq_view(arms: Seq<(crate::ir::LHSPart, crate::ir::Expression)>) -> Seq<
    (LhsV, ExprV),
>
    decreases arms,
{
    if arms.len() == 0 {
        Seq::empty()
    } else {
        arm_seq_view(arms.drop_last()).push(
            (lhs_view(arms.last().0), expr_view(arms.last().1)),
        )
    }
}

/// View of a lowered function definition.
pub open spec fn func_view(f: crate::ir::FunctionDefinition) -> FuncV {
    FuncV { name: f.name@, args: args_view(f.args@), body: expr_seq_view(f.body@) }
}

/// View of a sequence of lowered definitions, element by element.
pub open spec fn funcs_view(fs: Seq<crate::ir::FunctionDefinition>) -> Seq<FuncV>
    decreases fs,
{
    if fs.len() == 0 {
        Seq::empty()
    } else {
        funcs_view(fs.drop_last()).push(func_view(fs.last()))
    }
}

/// Pointwise characterization of [`expr_seq_view`].
pub broadcast proof fn lemma_expr_seq_view(es: Seq<crate::ir::Expression>)
    ensures
        (#[trigger] expr_seq_view(es)).len() == es.len(),
        forall|i: int| 0 <= i < es.len() ==> expr_seq_view(es)[i] == expr_view(es[i]),
    decreases es.len(),
{
    if es.len() > 0 {
        lemma_expr_seq_view(es.drop_last());
    }
}

/// Pointwise characterization of [`arm_seq_view`].
pub broadcast proof fn lemma_arm_seq_view(arms: Seq<(crate::ir::LHSPart, crate::ir::Expression)>)
    ensures
        (#[trigger] arm_seq_view(arms)).len() == arms.len(),
        forall|i: int|
            0 <= i < arms.len() ==> arm_seq_view(arms)[i] == (
                lhs_view(arms[i].0),
                expr_view(arms[i].1),
            ),
    decreases arms.len(),
{
    if arms.len() > 0 {
        lemma_arm_seq_view(arms.drop_last());
    }
}

/// Pointwise characterization of [`funcs_view`].
pub broadcast proof fn lemma_funcs_view(fs: Seq<crate::ir::FunctionDefinition>)
    ensures
        (#[trigger] funcs_view(fs)).len() == fs.len(),
        forall|i: int| 0 <= i < fs.len() ==> funcs_view(fs)[i] == func_view(fs[i]),
    decreases fs.len(),
{
    if fs.len() > 0 {
        lemma_funcs_view(fs.drop_last());
    }
}

/// The unit expression's model at a span.
pub open spec fn unit_ev(sp: crate::token::Span) -> ExprV {
    ExprV { op: EOpV::Unit, dtype: seq!['(', ')'], span: sp }
}

/// Whether a definition list holds a definition of the given name.
pub open spec fn has_func(funcs: Seq<FuncV>, nm: Seq<char>) -> bool {
    exists|i: int| 0 <= i < funcs.len() && (#[trigger] funcs[i]).name == nm
}

/// First index of a definition with the given name, or -1.
pub open spec fn first_func(funcs: Seq<FuncV>, nm: Seq<char>) -> int
    decreases funcs.len(),
{
    if funcs.len() == 0 {
        -1
    } else if funcs[0].name == nm {
        0
    } else {
        let r = first_func(funcs.drop_first(), nm);
        if r == -1 {
            -1
        } else {
            r + 1
        }
    }
}

/// Pointwise characterization of [`first_func`].
pub proof fn lemma_first_func(funcs: Seq<FuncV>, nm: Seq<char>)
    ensures
        first_func(funcs, nm) == -1 ==> (forall|j: int|
            0 <= j < funcs.len() ==> (#[trigger] funcs[j]).name != nm),
        first_func(funcs, nm) != -1 ==> 0 <= first_func(funcs, nm) < funcs.len() && funcs[
            first_func(funcs, nm)
        ].name == nm && (forall|j: int|
            0 <= j < first_func(funcs, nm) ==> (#[trigger] funcs[j]).name != nm),
    decreases funcs.len(),
{
    if funcs.len() > 0 && funcs[0].name != nm {
        lemma_first_func(funcs.drop_first(), nm);
        assert(forall|j: int|
            1 <= j < funcs.len() ==> funcs[j] == funcs.drop_first()[j - 1]);
    }
}

/// The lowered argument list of a parameter group, each parameter's
/// binding paired with its type tag; an unnamed or untyped parameter is
/// unsupported and an unresolved one an internal error.
pub open spec fn lowered_args_r(
    scopes: Seq<crate::scope::Scope>,
    fscope: int,
    params: Seq<(Option<String>, Option<crate::typ::Type>, crate::kind::Kind)>,
    i: int,
) -> Result<Seq<(int, Seq<char>)>, RFail>
    decreases i,
{
    if i <= 0 {
        Ok(Seq::empty())
    } else if params.len() < i {
        Err(RFail::Internal)
    } else {
        match lowered_args_r(scopes, fscope, params, i - 1) {
            Err(e) => Err(e),
            Ok(pre) => match (params[i - 1].0, params[i - 1].1) {
                (Some(nm), Some(ty)) => match crate::scope::lookup_spec(
                    scopes,
                    fscope,
                    nm@,
                    ty@,
                ) {
                    Some(b) => Ok(
                        pre.push(
                            (b.id as int, crate::render::render_ty(ty@, Map::empty())),
                        ),
                    ),
                    None => Err(RFail::Internal),
                },
                _ => Err(RFail::Unsupported),
            },
        }
    }
}

/// Model of [`Term::compile_function`]: the mangled name is computed
/// from the let's signature; a definition already carrying that name is
/// not compiled again and the definition list is unchanged; otherwise a
/// definition is appended, the body compiled into its expression list,
/// and the first definition of that name updated with the compiled
/// body.
pub open spec fn cf_spec(
    rows: Seq<Row>,
    scopes: Seq<crate::scope::Scope>,
    sc: Option<crate::scope::ScopeId>,
    funcs: Seq<FuncV>,
    t: int,
    fuel: nat,
) -> Result<(Seq<char>, Seq<FuncV>), RFail>
    decreases fuel, t, 2int, 0int,
{
    if !(0 <= t < rows.len()) {
        Err(RFail::Internal)
    } else {
        match rows[t].term {
            Term::Let(lt) => {
                let mangled = mangled_name_v(lt);
                if has_func(funcs, mangled) {
                    Ok((mangled, funcs))
                } else if lt.parameters@.len() == 0 {
                    Err(RFail::Unsupported)
                } else if lt.parameters@.len() > 1 {
                    Err(RFail::Unsupported)
                } else if lt.scope.id >= scopes.len() {
                    Err(RFail::Internal)
                } else {
                    match lowered_args_r(
                        scopes,
                        lt.scope.id as int,
                        lt.parameters@[0]@,
                        lt.parameters@[0]@.len() as int,
                    ) {
                        Err(e) => Err(e),
                        Ok(args) => {
                            let funcs1 = funcs.push(
                                FuncV { name: mangled, args, body: Seq::empty() },
                            );
                            let after: Result<(Seq<FuncV>, Seq<ExprV>), RFail> = match lt.body {
                                None => Ok((funcs1, Seq::empty())),
                                Some(bd) => {
                                    if bd.id < t {
                                        match ce_spec(
                                            rows,
                                            scopes,
                                            Some(lt.scope),
                                            funcs1,
                                            Seq::empty(),
                                            bd.id as int,
                                            fuel,
                                        ) {
                                            Err(e) => Err(e),
                                            Ok(res) => Ok((res.1, res.2.push(res.0))),
                                        }
                                    } else {
                                        Err(RFail::Internal)
                                    }
                                },
                            };
                            match after {
                                Err(e) => Err(e),
                                Ok((f2, body3)) => {
                                    let j = first_func(f2, mangled);
                                    if 0 <= j < f2.len() {
                                        Ok(
                                            (
                                                mangled,
                                                f2.update(
                                                    j,
                                                    FuncV {
                                                        name: f2[j].name,
                                                        args: f2[j].args,
                                                        body: body3,
                                                    },
                                                ),
                                            ),
                                        )
                                    } else {
                                        Ok((mangled, f2))
                                    }
                                },
                            }
                        },
                    }
                }
            },
            _ => Err(RFail::Internal),
        }
    }
}

/// Model of [`Term::compile_expr`]: the lowered expression together
/// with the definition list and preamble after the call. Lets and
/// empty tuples lower to the unit expression, literals to typed
/// literal expressions, identifiers to variable references resolved in
/// scope, ascriptions are transparent apart from the span, blocks push
/// their leading statements onto the preamble, pattern matches lower
/// the scrutinee and every arm in source order, and applications of a
/// named callee to a tuple of arguments call the foreign symbol or the
/// memoized mangled definition.
pub open spec fn ce_spec(
    rows: Seq<Row>,
    scopes: Seq<crate::scope::Scope>,
    sc: Option<crate::scope::ScopeId>,
    funcs: Seq<FuncV>,
    preamble: Seq<ExprV>,
    t: int,
    fuel: nat,
) -> Result<(ExprV, Seq<FuncV>, Seq<ExprV>), RFail>
    decreases fuel, t, 1int, 0int,
{
    if !(0 <= t < rows.len()) {
        Err(RFail::Internal)
    } else {
        let sp = rows[t].span;
        let dt = crate::render::render_ty(rows[t].typ@, Map::empty());
        match rows[t].term {
            Term::Let(_) => Ok((unit_ev(sp), funcs, preamble)),
            Term::Tuple(ts) => {
                if ts@.len() == 0 {
                    Ok((unit_ev(sp), funcs, preamble))
                } else {
                    Err(RFail::Unsupported)
                }
            },
            Term::Value(v) => Ok(
                (ExprV { op: EOpV::Literal(v@), dtype: dt, span: sp }, funcs, preamble),
            ),
            Term::Ident(n) => match sc {
                None => Err(RFail::Internal),
                Some(s) => {
                    if s.id >= scopes.len() {
                        Err(RFail::Internal)
                    } else {
                        match crate::scope::lookup_spec(scopes, s.id as int, n@, rows[t].typ@) {
                            Some(b) => Ok(
                                (
                                    ExprV { op: EOpV::Variable(b.id as int), dtype: dt, span: sp },
                                    funcs,
                                    preamble,
                                ),
                            ),
                            None => Err(RFail::Internal),
                        }
                    }
                },
            },
            Term::Ascript(t0, _) => {
                if t0.id < t {
                    match ce_spec(rows, scopes, sc, funcs, preamble, t0.id as int, fuel) {
                        Err(e) => Err(e),
                        Ok(res) => Ok(
                            (
                                ExprV { op: res.0.op, dtype: res.0.dtype, span: sp },
                                res.1,
                                res.2,
                            ),
                        ),
                    }
                } else {
                    Err(RFail::Internal)
                }
            },
            Term::Block(sc2, es) => {
                if es@.len() == 0 {
                    Ok((unit_ev(sp), funcs, preamble))
                } else {
                    match ce_block_spec(
                        rows,
                        scopes,
                        sc2,
                        funcs,
                        preamble,
                        es@,
                        t,
                        fuel,
                        es@.len() - 1,
                    ) {
                        Err(e) => Err(e),
                        Ok((f1, p1)) => {
                            if es@.last().id < t {
                                match ce_spec(
                                    rows,
                                    scopes,
                                    Some(sc2),
                                    f1,
                                    p1,
                                    es@.last().id as int,
                                    fuel,
                                ) {
                                    Err(e) => Err(e),
                                    Ok(res) => Ok(
                                        (
                                            ExprV {
                                                op: res.0.op,
                                                dtype: res.0.dtype,
                                                span: sp,
                                            },
                                            res.1,
                                            res.2,
                                        ),
                                    ),
                                }
                            } else {
                                Err(RFail::Internal)
                            }
                        },
                    }
                }
            },
            Term::Match(dv, lrs) => {
                if dv.id < t {
                    match ce_spec(rows, scopes, sc, funcs, preamble, dv.id as int, fuel) {
                        Err(e) => Err(e),
                        Ok(pres) => match ce_arms_spec(
                            rows,
                            scopes,
                            pres.1,
                            pres.2,
                            lrs@,
                            t,
                            fuel,
                            lrs@.len() as int,
                        ) {
                            Err(e) => Err(e),
                            Ok((pairs, f2, p2)) => Ok(
                                (
                                    ExprV {
                                        op: EOpV::PatternMatch(Box::new(pres.0), pairs),
                                        dtype: dt,
                                        span: sp,
                                    },
                                    f2,
                                    p2,
                                ),
                            ),
                        },
                    }
                } else {
                    Err(RFail::Internal)
                }
            },
            Term::App(g, x) => {
                if g.id < t && x.id < t {
                    ce_app_spec(rows, scopes, sc, funcs, preamble, g.id as int, x.id as int, t, fuel)
                } else {
                    Err(RFail::Internal)
                }
            },
            _ => Err(RFail::Unsupported),
        }
    }
}

/// Lowers an application; the callee must be an identifier applied to a
/// tuple of arguments, which compile left to right, and the resolved
/// binding decides between a foreign-symbol call and a memoized
/// compiled call.
pub open spec fn ce_app_spec(
    rows: Seq<Row>,
    scopes: Seq<crate::scope::Scope>,
    sc: Option<crate::scope::ScopeId>,
    funcs: Seq<FuncV>,
    preamble: Seq<ExprV>,
    g: int,
    x: int,
    t: int,
    fuel: nat,
) -> Result<(ExprV, Seq<FuncV>, Seq<ExprV>), RFail>
    decreases fuel, t, 0int, 2int,
{
    if !(0 <= g < t < rows.len() && 0 <= x < t) {
        Err(RFail::Internal)
    } else {
        let sp = rows[t].span;
        let dt = crate::render::render_ty(rows[t].typ@, Map::empty());
        match rows[g].term {
            Term::Ident(gv) => match rows[x].term {
                Term::Tuple(ps) => {
                    if gv@ == ".flatmap"@ && ps@.len() == 2 {
                        Err(RFail::Unsupported)
                    } else {
                        match ce_args_spec(
                            rows,
                            scopes,
                            sc,
                            funcs,
                            preamble,
                            ps@,
                            x,
                            fuel,
                            ps@.len() as int,
                        ) {
                            Err(e) => Err(e),
                            Ok((args, f1, p1)) => match sc {
                                None => Err(RFail::Internal),
                                Some(s) => {
                                    if s.id >= scopes.len() {
                                        Err(RFail::Internal)
                                    } else {
                                        match crate::scope::lookup_spec(
                                            scopes,
                                            s.id as int,
                                            gv@,
                                            rows[g].typ@,
                                        ) {
                                            None => Err(RFail::Internal),
                                            Some(b) => {
                                                if b.id >= rows.len() {
                                                    Err(RFail::Internal)
                                                } else {
                                                    ce_call_spec(
                                                        rows,
                                                        scopes,
                                                        sc,
                                                        f1,
                                                        p1,
                                                        args,
                                                        b.id as int,
                                                        dt,
                                                        sp,
                                                        t,
                                                        fuel,
                                                    )
                                                }
                                            },
                                        }
                                    }
                                },
                            },
                        }
                    }
                },
                _ => Err(RFail::Unsupported),
            },
            _ => Err(RFail::Unsupported),
        }
    }
}

/// Emits the call once the callee's binding is resolved: a foreign
/// binding calls the mangled symbol held in its body, any other let
/// compiles the callee (spending one unit of fuel) and calls the
/// mangled definition.
pub open spec fn ce_call_spec(
    rows: Seq<Row>,
    scopes: Seq<crate::scope::Scope>,
    sc: Option<crate::scope::ScopeId>,
    funcs: Seq<FuncV>,
    preamble: Seq<ExprV>,
    args: Seq<ExprV>,
    b: int,
    dt: Seq<char>,
    sp: crate::token::Span,
    t: int,
    fuel: nat,
) -> Result<(ExprV, Seq<FuncV>, Seq<ExprV>), RFail>
    decreases fuel, t, 0int, 1int,
{
    if !(0 <= b < rows.len()) {
        Err(RFail::Internal)
    } else {
        match rows[b].term {
            Term::Let(lb) => {
                if lb.parameters@.len() > 1 {
                    Err(RFail::Unsupported)
                } else if lb.is_extern {
                    match lb.body {
                        None => Err(RFail::Internal),
                        Some(body) => {
                            if body.id >= rows.len() {
                                Err(RFail::Internal)
                            } else {
                                match rows[body.id as int].term {
                                    Term::Ident(mangled) => Ok(
                                        (
                                            ExprV {
                                                op: EOpV::Apply(mangled@, args),
                                                dtype: dt,
                                                span: sp,
                                            },
                                            funcs,
                                            preamble,
                                        ),
                                    ),
                                    _ => Err(RFail::Internal),
                                }
                            }
                        },
                    }
                } else {
                    if fuel == 0 {
                        Err(RFail::OutOfFuel)
                    } else {
                        match cf_spec(rows, scopes, sc, funcs, b, (fuel - 1) as nat) {
                            Err(e) => Err(e),
                            Ok((nm, f2)) => Ok(
                                (
                                    ExprV { op: EOpV::Apply(nm, args), dtype: dt, span: sp },
                                    f2,
                                    preamble,
                                ),
                            ),
                        }
                    }
                }
            },
            _ => Err(RFail::Internal),
        }
    }
}

/// Compiles the first `i` leading statements of a block, pushing each
/// onto the preamble.
pub open spec fn ce_block_spec(
    rows: Seq<Row>,
    scopes: Seq<crate::scope::Scope>,
    sc2: crate::scope::ScopeId,
    funcs: Seq<FuncV>,
    preamble: Seq<ExprV>,
    es: Seq<TermId>,
    bound: int,
    fuel: nat,
    i: int,
) -> Result<(Seq<FuncV>, Seq<ExprV>), RFail>
    decreases fuel, bound, 0int, i,
{
    if i <= 0 {
        Ok((funcs, preamble))
    } else if !(0 <= i - 1 < es.len() && es[i - 1].id < bound) {
        Err(RFail::Internal)
    } else {
        match ce_block_spec(rows, scopes, sc2, funcs, preamble, es, bound, fuel, i - 1) {
            Err(e) => Err(e),
            Ok((f1, p1)) => match ce_spec(
                rows,
                scopes,
                Some(sc2),
                f1,
                p1,
                es[i - 1].id as int,
                fuel,
            ) {
                Err(e) => Err(e),
                Ok(res) => Ok((res.1, res.2.push(res.0))),
            },
        }
    }
}

/// Compiles the first `i` arms of a pattern match into lowered pairs,
/// in source order.
pub open spec fn ce_arms_spec(
    rows: Seq<Row>,
    scopes: Seq<crate::scope::Scope>,
    funcs: Seq<FuncV>,
    preamble: Seq<ExprV>,
    arms: Seq<(crate::scope::ScopeId, TermId, TermId)>,
    bound: int,
    fuel: nat,
    i: int,
) -> Result<(Seq<(LhsV, ExprV)>, Seq<FuncV>, Seq<ExprV>), RFail>
    decreases fuel, bound, 0int, i,
{
    if i <= 0 {
        Ok((Seq::empty(), funcs, preamble))
    } else if !(0 <= i - 1 < arms.len() && arms[i - 1].1.id < bound && arms[i - 1].2.id < bound) {
        Err(RFail::Internal)
    } else {
        match ce_arms_spec(rows, scopes, funcs, preamble, arms, bound, fuel, i - 1) {
            Err(e) => Err(e),
            Ok((pairs, f1, p1)) => {
                let lrc = arms[i - 1].0;
                if lrc.id >= scopes.len() {
                    Err(RFail::Internal)
                } else {
                    match clhs_spec(rows, scopes, lrc.id as int, arms[i - 1].1.id as int) {
                        Err(e) => Err(e),
                        Ok(lv) => match ce_spec(
                            rows,
                            scopes,
                            Some(lrc),
                            f1,
                            p1,
                            arms[i - 1].2.id as int,
                            fuel,
                        ) {
                            Err(e) => Err(e),
                            Ok(res) => Ok((pairs.push((lv, res.0)), res.1, res.2)),
                        },
                    }
                }
            },
        }
    }
}

/// Compiles the first `i` arguments of an application, left to right.
pub open spec fn ce_args_spec(
    rows: Seq<Row>,
    scopes: Seq<crate::scope::Scope>,
    sc: Option<crate::scope::ScopeId>,
    funcs: Seq<FuncV>,
    preamble: Seq<ExprV>,
    ps: Seq<TermId>,
    bound: int,
    fuel: nat,
    i: int,
) -> Result<(Seq<ExprV>, Seq<FuncV>, Seq<ExprV>), RFail>
    decreases fuel, bound, 0int, i,
{
    if i <= 0 {
        Ok((Seq::empty(), funcs, preamble))
    } else if !(0 <= i - 1 < ps.len() && ps[i - 1].id < bound) {
        Err(RFail::Internal)
    } else {
        match ce_args_spec(rows, scopes, sc, funcs, preamble, ps, bound, fuel, i - 1) {
            Err(e) => Err(e),
            Ok((args, f1, p1)) => match ce_spec(
                rows,
                scopes,
                sc,
                f1,
                p1,
                ps[i - 1].id as int,
                fuel,
            ) {
                Err(e) => Err(e),
                Ok(res) => Ok((args.push(res.0), res.1, res.2)),
            },
        }
    }
}

impl Term {
    /// Lowers a let-bound function into a definition, memoized by its
    /// mangled name: a name already present is not compiled again. The
    /// binding must carry exactly one fully named and typed parameter
    /// group; its body is lowered into the definition's expression
    /// list. One unit of fuel bounds the depth of callee compilation.
    #[verifier::rlimit(100)]
    pub fn compile_function(
        tlc: &crate::tlc::TLC,
        scope: &Option<crate::scope::ScopeId>,
        funcs: &mut Vec<crate::ir::FunctionDefinition>,
        term: TermId,
        fuel: u64,
    ) -> (r: Result<String, crate::debug::Error>)
        requires
            crate::tlc::tlc_wf(tlc),
            term.id < tlc.rows@.len(),
        ensures
            final(funcs)@.len() >= old(funcs)@.len(),
            forall|i: int|
                0 <= i < old(funcs)@.len() ==> (#[trigger] final(funcs)@[i]).name@ == old(funcs)@[i].name@
                    && final(funcs)@[i].args == old(funcs)@[i].args,
            r matches Ok(nm) ==> (tlc.rows@[term.id as int].term matches Term::Let(lt2) && nm@
                == mangled_name_v(lt2)) && exists|i: int|
                0 <= i < final(funcs)@.len() && (#[trigger] final(funcs)@[i]).name@ == nm@,
            match (r, cf_spec(
                tlc.rows@,
                tlc.scopes@,
                *scope,
                funcs_view(old(funcs)@),
                term.id as int,
                fuel as nat,
            )) {
                (Ok(nm), Ok(res)) => nm@ == res.0 && funcs_view(final(funcs)@) == res.1,
                (Err(e), Err(f)) => e.kind@ == rfail_text(f),
                _ => false,
            },
        decreases fuel, term.id, 1int,
    {
        broadcast use lemma_funcs_view, lemma_expr_seq_view;

        let sp = tlc.rows[term.id].span;
        let lt = match &tlc.rows[term.id].term {
            Term::Let(lt) => {
                proof {
                    assert(tlc.rows@[term.id as int].term == Term::Let(*lt));
                }
                lt
            },
            _ => {
                return Err(
                    crate::debug::Error::new(
                        String::from_str("Internal Error"),
                        String::from_str("compiled binding is not a let"),
                        sp,
                    ),
                );
            },
        };
        let mangled = Term::mangled_name(lt);
        let ghost fv0 = funcs_view(old(funcs)@);
        let fn0 = funcs.len();
        let mut fi: usize = 0;
        while fi < fn0
            invariant
                0 <= fi <= fn0,
                fn0 == funcs@.len(),
                funcs@ == old(funcs)@,
                fv0 == funcs_view(old(funcs)@),
                term.id < tlc.rows@.len(),
                forall|j: int| 0 <= j < fi ==> (#[trigger] fv0[j]).name != mangled@,
                tlc.rows@[term.id as int].term matches Term::Let(lt2) && mangled@
                    == mangled_name_v(lt2),
            decreases fn0 - fi,
        {
            proof {
                lemma_funcs_view(funcs@);
            }
            if crate::constant::str_eq(funcs[fi].name.as_str(), mangled.as_str()) {
                proof {
                    assert(funcs@[fi as int].name@ == mangled@);
                    assert(fv0[fi as int].name == mangled@);
                    assert(has_func(fv0, mangled@));
                    assert(cf_spec(
                        tlc.rows@,
                        tlc.scopes@,
                        *scope,
                        fv0,
                        term.id as int,
                        fuel as nat,
                    ) == Ok::<_, RFail>((mangled@, fv0)));
                }
                return Ok(mangled);
            }
            proof {
                assert(fv0[fi as int].name != mangled@);
            }
            fi += 1;
        }
        proof {
            lemma_funcs_view(funcs@);
            assert(!has_func(fv0, mangled@)) by {
                if has_func(fv0, mangled@) {
                    let i = choose|i: int|
                        0 <= i < fv0.len() && (#[trigger] fv0[i]).name == mangled@;
                    assert(fv0[i].name != mangled@);
                }
            }
        }
        if lt.parameters.len() == 0 {
            return Err(
                crate::debug::Error::new(
                    String::from_str("Unsupported Construct"),
                    String::from_str("valued let binding in compile_function"),
                    sp,
                ),
            );
        }
        if lt.parameters.len() > 1 {
            return Err(
                crate::debug::Error::new(
                    String::from_str("Unsupported Construct"),
                    String::from_str("curried let binding in compile_function"),
                    sp,
                ),
            );
        }
        if lt.scope.id >= tlc.scopes.len() {
            return Err(
                crate::debug::Error::new(
                    String::from_str("Internal Error"),
                    String::from_str("parameter scope handle out of bounds"),
                    sp,
                ),
            );
        }
        let ps = &lt.parameters[0];
        let ghost psv = ps@;
        let pn = ps.len();
        let mut l1_args: Vec<(usize, String)> = Vec::new();
        let mut pi: usize = 0;
        proof {
            assert(args_view(l1_args@) =~= Seq::<(int, Seq<char>)>::empty());
        }
        while pi < pn
            invariant
                0 <= pi <= pn,
                pn == ps@.len(),
                psv == ps@,
                crate::tlc::tlc_wf(tlc),
                lt.scope.id < tlc.scopes@.len(),
                term.id < tlc.rows@.len(),
                funcs@ == old(funcs)@,
                fv0 == funcs_view(old(funcs)@),
                !has_func(fv0, mangled@),
                tlc.rows@[term.id as int].term matches Term::Let(lt2) && (mangled@
                    == mangled_name_v(lt2) && lt2 == *lt),
                lt.parameters@.len() == 1,
                psv == lt.parameters@[0]@,
                lowered_args_r(tlc.scopes@, lt.scope.id as int, psv, pi as int) == Ok::<
                    _,
                    RFail,
                >(args_view(l1_args@)),
            decreases pn - pi,
        {
            let name = match &ps[pi].0 {
                Some(n) => {
                    proof {
                        assert(psv[pi as int].0 == Some(*n));
                    }
                    n
                },
                None => {
                    proof {
                        assert(psv[pi as int].0 is None);
                        assert(lowered_args_r(
                            tlc.scopes@,
                            lt.scope.id as int,
                            psv,
                            pi + 1,
                        ) == Err::<Seq<(int, Seq<char>)>, _>(RFail::Unsupported));
                        lemma_lowered_args_err(
                            tlc.scopes@,
                            lt.scope.id as int,
                            psv,
                            pi + 1,
                            pn as int,
                        );
                    }
                    return Err(
                        crate::debug::Error::new(
                            String::from_str("Unsupported Construct"),
                            String::from_str("unnamed parameter in compile_function"),
                            sp,
                        ),
                    );
                },
            };
            let typ = match &ps[pi].1 {
                Some(t) => {
                    proof {
                        assert(psv[pi as int].1 == Some(*t));
                    }
                    t
                },
                None => {
                    proof {
                        assert(psv[pi as int].1 is None);
                        assert(lowered_args_r(
                            tlc.scopes@,
                            lt.scope.id as int,
                            psv,
                            pi + 1,
                        ) == Err::<Seq<(int, Seq<char>)>, _>(RFail::Unsupported));
                        lemma_lowered_args_err(
                            tlc.scopes@,
                            lt.scope.id as int,
                            psv,
                            pi + 1,
                            pn as int,
                        );
                    }
                    return Err(
                        crate::debug::Error::new(
                            String::from_str("Unsupported Construct"),
                            String::from_str("untyped parameter in compile_function"),
                            sp,
                        ),
                    );
                },
            };
            let dt = typ.datatype();
            let bound = match crate::scope::Scope::lookup_term(
                tlc,
                lt.scope,
                name.as_str(),
                typ,
            ) {
                Some(b) => b,
                None => {
                    proof {
                        assert(lowered_args_r(
                            tlc.scopes@,
                            lt.scope.id as int,
                            psv,
                            pi + 1,
                        ) == Err::<Seq<(int, Seq<char>)>, _>(RFail::Internal));
                        lemma_lowered_args_err(
                            tlc.scopes@,
                            lt.scope.id as int,
                            psv,
                            pi + 1,
                            pn as int,
                        );
                    }
                    return Err(
                        crate::debug::Error::new(
                            String::from_str("Internal Error"),
                            String::from_str("parameter not found in its scope"),
                            sp,
                        ),
                    );
                },
            };
            let ghost pre = args_view(l1_args@);
            let ghost la0 = l1_args@;
            l1_args.push((bound.id, dt));
            proof {
                assert(l1_args@.drop_last() =~= la0);
                assert(l1_args@.last() == (bound.id, dt));
                assert(args_view(l1_args@) == pre.push((bound.id as int, dt@)));
                assert(dt@ == crate::render::render_ty(psv[pi as int].1->0@, Map::empty()));
            }
            pi += 1;
        }
        let ghost argsv = l1_args@;
        let ghost argsw = args_view(l1_args@);
        let placeholder = crate::ir::FunctionDefinition {
            name: mangled.clone(),
            args: l1_args,
            body: Vec::new(),
        };
        funcs.push(placeholder);
        let ghost fn0g = fn0 as int;
        let ghost fv1 = fv0.push(FuncV { name: mangled@, args: argsw, body: Seq::empty() });
        proof {
            lemma_funcs_view(funcs@);
            assert(funcs@[fn0g].name@ == mangled@);
            assert(funcs@[fn0g].args@ == argsv);
            assert(expr_seq_view(funcs@[fn0g].body@) =~= Seq::<ExprV>::empty());
            assert(funcs_view(funcs@) =~= fv1);
        }
        let mut preamble: Vec<crate::ir::Expression> = Vec::new();
        proof {
            assert(expr_seq_view(preamble@) =~= Seq::<ExprV>::empty());
        }
        let ghost spec_after: Result<(Seq<FuncV>, Seq<ExprV>), RFail> = match lt.body {
            None => Ok((fv1, Seq::empty())),
            Some(bd) => {
                if bd.id < term.id {
                    match ce_spec(
                        tlc.rows@,
                        tlc.scopes@,
                        Some(lt.scope),
                        fv1,
                        Seq::empty(),
                        bd.id as int,
                        fuel as nat,
                    ) {
                        Err(e) => Err(e),
                        Ok(res) => Ok((res.1, res.2.push(res.0))),
                    }
                } else {
                    Err(RFail::Internal)
                }
            },
        };
        if let Some(body) = &lt.body {
            proof {
                assert(term_refs_before(tlc.rows@[term.id as int].term, term.id as int));
                assert(body.id < term.id);
            }
            let ret = match Term::compile_expr(tlc, &Some(lt.scope), funcs, &mut preamble, *body, fuel) {
                Ok(e) => e,
                Err(e) => {
                    proof {
                        assert(spec_after is Err);
                    }
                    return Err(e);
                },
            };
            let ghost p2 = expr_seq_view(preamble@);
            let ghost vec0 = preamble@;
            preamble.push(ret);
            proof {
                assert(preamble@ == vec0.push(ret));
                lemma_expr_seq_view(preamble@);
                lemma_expr_seq_view(vec0);
                assert(expr_seq_view(preamble@).len() == vec0.len() + 1);
                assert(expr_seq_view(preamble@)[vec0.len() as int] == expr_view(ret));
                assert(expr_seq_view(preamble@) =~= p2.push(expr_view(ret)));
            }
        }
        proof {
            assert(spec_after matches Ok(a2) && (funcs_view(funcs@) == a2.0 && expr_seq_view(
                preamble@,
            ) == a2.1));
        }
        let ghost f2v = funcs_view(funcs@);
        let ghost body3 = expr_seq_view(preamble@);
        let fn2 = funcs.len();
        let ghost names0 = funcs@;
        let mut fj: usize = 0;
        proof {
            lemma_first_func(f2v, mangled@);
        }
        while fj < fn2
            invariant
                0 <= fj <= fn2,
                fn2 == funcs@.len(),
                funcs@ == names0,
                f2v == funcs_view(names0),
                body3 == expr_seq_view(preamble@),
                funcs@.len() >= old(funcs)@.len(),
                funcs@.len() > old(funcs)@.len(),
                fn0g == old(funcs)@.len(),
                forall|j: int|
                    0 <= j < old(funcs)@.len() ==> (#[trigger] names0[j]).name@ == old(funcs)@[j].name@
                        && names0[j].args == old(funcs)@[j].args,
                forall|j: int| 0 <= j < fj ==> (#[trigger] f2v[j]).name != mangled@,
                fv0 == funcs_view(old(funcs)@),
                !has_func(fv0, mangled@),
                names0[fn0g].name@ == mangled@,
                cf_spec(
                    tlc.rows@,
                    tlc.scopes@,
                    *scope,
                    fv0,
                    term.id as int,
                    fuel as nat,
                ) == (if 0 <= first_func(f2v, mangled@) < f2v.len() {
                    Ok::<_, RFail>(
                        (
                            mangled@,
                            f2v.update(
                                first_func(f2v, mangled@),
                                FuncV {
                                    name: f2v[first_func(f2v, mangled@)].name,
                                    args: f2v[first_func(f2v, mangled@)].args,
                                    body: body3,
                                },
                            ),
                        ),
                    )
                } else {
                    Ok::<_, RFail>((mangled@, f2v))
                }),
                tlc.rows@[term.id as int].term matches Term::Let(lt2) && (mangled@
                    == mangled_name_v(lt2) && lt2 == *lt),
            decreases fn2 - fj,
        {
            proof {
                lemma_funcs_view(funcs@);
            }
            if crate::constant::str_eq(funcs[fj].name.as_str(), mangled.as_str()) {
                proof {
                    assert(f2v[fj as int].name == mangled@);
                    lemma_first_func(f2v, mangled@);
                    assert(first_func(f2v, mangled@) == fj as int) by {
                        let ff = first_func(f2v, mangled@);
                        if ff == -1 {
                            assert(f2v[fj as int].name != mangled@);
                        } else if ff < fj as int {
                            assert(f2v[ff].name != mangled@);
                        } else if ff > fj as int {
                            assert(f2v[fj as int].name != mangled@);
                        }
                    }
                }
                proof {
                    lemma_funcs_view(old(funcs)@);
                    lemma_funcs_view(names0);
                    assert(fj as int >= fn0g) by {
                        if (fj as int) < fn0g {
                            assert(f2v[fj as int].name == mangled@);
                            assert(f2v[fj as int] == func_view(names0[fj as int]));
                            assert(names0[fj as int].name@ == old(funcs)@[fj as int].name@);
                            assert(fv0[fj as int].name == old(funcs)@[fj as int].name@);
                            assert(fv0[fj as int].name == mangled@);
                            assert(has_func(fv0, mangled@));
                        }
                    }
                }
                let ghost pre = funcs@;
                funcs[fj].body = preamble;
                proof {
                    lemma_funcs_view(funcs@);
                    lemma_funcs_view(pre);
                    assert(forall|j: int|
                        0 <= j < funcs@.len() && j != fj ==> funcs@[j] == pre[j]);
                    assert(funcs@[fj as int].name@ == mangled@);
                    assert(funcs@[fj as int].args == pre[fj as int].args);
                    assert(funcs_view(funcs@) =~= f2v.update(
                        fj as int,
                        FuncV {
                            name: f2v[fj as int].name,
                            args: f2v[fj as int].args,
                            body: body3,
                        },
                    ));
                    assert(funcs@[fn0g].name@ == mangled@);
                }
                return Ok(mangled);
            }
            proof {
                assert(f2v[fj as int].name != mangled@);
            }
            fj += 1;
        }
        proof {
            lemma_funcs_view(funcs@);
            lemma_funcs_view(names0);
            lemma_first_func(f2v, mangled@);
            assert(f2v.len() == fn2);
            let ff = first_func(f2v, mangled@);
            if ff != -1 {
                assert(0 <= ff < fn2);
                assert(f2v[ff].name == mangled@);
                assert(f2v[ff].name != mangled@);
            }
            assert(ff == -1);
            assert(funcs_view(funcs@) == f2v);
        }
        Ok(mangled)
    }

    /// Lowers a term into an expression for the external evaluator:
    /// lets and empty tuples become the unit expression, literals typed
    /// literal expressions, identifiers variable references resolved in
    /// scope, ascriptions are transparent, blocks push all but the last
    /// statement onto the preamble, pattern matches lower the scrutinee
    /// and each arm in source order, and applications of a named callee
    /// with tuple arguments lower to a call of the foreign symbol or of
    /// the memoized mangled definition.
    #[verifier::rlimit(100)]
    pub fn compile_expr(
        tlc: &crate::tlc::TLC,
        scope: &Option<crate::scope::ScopeId>,
        funcs: &mut Vec<crate::ir::FunctionDefinition>,
        preamble: &mut Vec<crate::ir::Expression>,
        term: TermId,
        fuel: u64,
    ) -> (r: Result<crate::ir::Expression, crate::debug::Error>)
        requires
            crate::tlc::tlc_wf(tlc),
            term.id < tlc.rows@.len(),
        ensures
            final(funcs)@.len() >= old(funcs)@.len(),
            forall|i: int|
                0 <= i < old(funcs)@.len() ==> (#[trigger] final(funcs)@[i]).name@ == old(funcs)@[i].name@
                    && final(funcs)@[i].args == old(funcs)@[i].args,
            r matches Ok(e) ==> e.span == tlc.rows@[term.id as int].span,
            r matches Ok(e) ==> match tlc.rows@[term.id as int].term {
                Term::Let(_) => e.op is Unit,
                Term::Tuple(ts) => ts@.len() == 0 && e.op is Unit,
                Term::Value(v) => e.op matches crate::ir::ExprOp::Literal(l) && l@ == v@
                    && e.dtype@ == crate::render::render_ty(
                    tlc.rows@[term.id as int].typ@,
                    Map::empty(),
                ),
                Term::Ident(n) => match *scope {
                    Some(s) => e.op matches crate::ir::ExprOp::Variable(b)
                        && crate::scope::lookup_spec(
                        tlc.scopes@,
                        s.id as int,
                        n@,
                        tlc.rows@[term.id as int].typ@,
                    ) == Some(TermId { id: b }) && e.dtype@ == crate::render::render_ty(
                        tlc.rows@[term.id as int].typ@,
                        Map::empty(),
                    ),
                    None => false,
                },
                Term::Match(_, _) => e.op is PatternMatch && e.dtype@
                    == crate::render::render_ty(tlc.rows@[term.id as int].typ@, Map::empty()),
                Term::App(_, _) => e.op is Apply && e.dtype@ == crate::render::render_ty(
                    tlc.rows@[term.id as int].typ@,
                    Map::empty(),
                ),
                _ => true,
            },
            match (r, ce_spec(
                tlc.rows@,
                tlc.scopes@,
                *scope,
                funcs_view(old(funcs)@),
                expr_seq_view(old(preamble)@),
                term.id as int,
                fuel as nat,
            )) {
                (Ok(e), Ok(res)) => expr_view(e) == res.0 && funcs_view(final(funcs)@) == res.1
                    && expr_seq_view(final(preamble)@) == res.2,
                (Err(e), Err(f)) => e.kind@ == rfail_text(f),
                _ => false,
            },
        decreases fuel, term.id, 0int,
    {
        broadcast use lemma_funcs_view, lemma_expr_seq_view, lemma_arm_seq_view;

        let ghost f0 = funcs_view(old(funcs)@);
        let ghost p0 = expr_seq_view(old(preamble)@);
        let ghost scg = *scope;
        let sp = tlc.rows[term.id].span;
        let tt = &tlc.rows[term.id].typ;
        match &tlc.rows[term.id].term {
            Term::Let(_) => Ok(unit_expr(sp)),
            Term::Tuple(ts) if ts.len() == 0 => Ok(unit_expr(sp)),
            Term::Value(v) => Ok(
                crate::ir::Expression {
                    op: crate::ir::ExprOp::Literal(v.clone()),
                    dtype: tt.datatype(),
                    span: sp,
                },
            ),
            Term::Ident(n) => {
                let sc = match scope {
                    Some(sc) => *sc,
                    None => {
                        return Err(
                            crate::debug::Error::new(
                                String::from_str("Internal Error"),
                                String::from_str("identifier lowering has no scope"),
                                sp,
                            ),
                        );
                    },
                };
                if sc.id >= tlc.scopes.len() {
                    return Err(
                        crate::debug::Error::new(
                            String::from_str("Internal Error"),
                            String::from_str("scope handle out of bounds"),
                            sp,
                        ),
                    );
                }
                match crate::scope::Scope::lookup_term(tlc, sc, n.as_str(), tt) {
                    Some(b) => Ok(
                        crate::ir::Expression {
                            op: crate::ir::ExprOp::Variable(b.id),
                            dtype: tt.datatype(),
                            span: sp,
                        },
                    ),
                    None => Err(
                        crate::debug::Error::new(
                            String::from_str("Internal Error"),
                            String::from_str("variable not found in scope"),
                            sp,
                        ),
                    ),
                }
            },
            Term::Ascript(t0, _) => {
                proof {
                    assert(term_refs_before(tlc.rows@[term.id as int].term, term.id as int));
                }
                match Term::compile_expr(tlc, scope, funcs, preamble, *t0, fuel) {
                    Ok(e) => Ok(
                        crate::ir::Expression { op: e.op, dtype: e.dtype, span: sp },
                    ),
                    Err(e) => Err(e),
                }
            },
            Term::Block(sc2, es) => {
                proof {
                    assert(term_refs_before(tlc.rows@[term.id as int].term, term.id as int));
                }
                if es.len() == 0 {
                    return Ok(unit_expr(sp));
                }
                let ghost sc2g = *sc2;
                let n = es.len();
                let mut i: usize = 0;
                while i < n - 1
                    invariant
                        0 <= i <= n - 1,
                        *sc2 == sc2g,
                        crate::tlc::tlc_wf(tlc),
                        term.id < tlc.rows@.len(),
                        tlc.rows@[term.id as int].term matches Term::Block(s3, e3) && (e3@ == es@
                            && s3 == sc2g),
                        n == es@.len(),
                        n >= 1,
                        f0 == funcs_view(old(funcs)@),
                        p0 == expr_seq_view(old(preamble)@),
                        ce_block_spec(
                            tlc.rows@,
                            tlc.scopes@,
                            sc2g,
                            f0,
                            p0,
                            es@,
                            term.id as int,
                            fuel as nat,
                            i as int,
                        ) == Ok::<_, RFail>((funcs_view(funcs@), expr_seq_view(preamble@))),
                        funcs@.len() >= old(funcs)@.len(),
                        forall|j: int|
                            0 <= j < old(funcs)@.len() ==> (#[trigger] funcs@[j]).name@ == old(funcs)@[j].name@
                                && funcs@[j].args == old(funcs)@[j].args,
                    decreases n - i,
                {
                    proof {
                        assert(term_refs_before(
                            tlc.rows@[term.id as int].term,
                            term.id as int,
                        ));
                        assert(es@[i as int].id < term.id);
                    }
                    let ghost fpre = funcs_view(funcs@);
                    let ghost ppre = expr_seq_view(preamble@);
                    let pe = match Term::compile_expr(tlc, &Some(*sc2), funcs, preamble, es[i], fuel) {
                        Ok(e) => e,
                        Err(e) => {
                            proof {
                                assert(ce_spec(
                                    tlc.rows@,
                                    tlc.scopes@,
                                    Some(sc2g),
                                    fpre,
                                    ppre,
                                    es@[i as int].id as int,
                                    fuel as nat,
                                ) is Err);
                                assert(ce_block_spec(
                                    tlc.rows@,
                                    tlc.scopes@,
                                    sc2g,
                                    f0,
                                    p0,
                                    es@,
                                    term.id as int,
                                    fuel as nat,
                                    i + 1,
                                ) is Err);
                                assert(forall|j: int|
                                    0 <= j < n - 1 ==> (#[trigger] es@[j]).id < term.id);
                                lemma_ce_block_err(
                                    tlc.rows@,
                                    tlc.scopes@,
                                    sc2g,
                                    f0,
                                    p0,
                                    es@,
                                    term.id as int,
                                    fuel as nat,
                                    i + 1,
                                    n - 1,
                                );
                            }
                            return Err(e);
                        },
                    };
                    let ghost pnow = expr_seq_view(preamble@);
                    let ghost pvec = preamble@;
                    preamble.push(pe);
                    proof {
                        lemma_expr_seq_view(preamble@);
                        lemma_expr_seq_view(pvec);
                        assert(expr_seq_view(preamble@) =~= pnow.push(expr_view(pe)));
                    }
                    i += 1;
                }
                proof {
                    assert(term_refs_before(tlc.rows@[term.id as int].term, term.id as int));
                    assert(es@[n - 1].id < term.id);
                    assert(es@.last() == es@[n - 1]);
                }
                match Term::compile_expr(tlc, &Some(*sc2), funcs, preamble, es[n - 1], fuel) {
                    Ok(e) => {
                        let r2 = crate::ir::Expression { op: e.op, dtype: e.dtype, span: sp };
                        proof {
                            assert(expr_view(r2) == ExprV {
                                op: expr_view(e).op,
                                dtype: expr_view(e).dtype,
                                span: sp,
                            });
                        }
                        Ok(r2)
                    },
                    Err(e) => Err(e),
                }
            },
            Term::Match(dv, lrs) => {
                proof {
                    assert(term_refs_before(tlc.rows@[term.id as int].term, term.id as int));
                }
                let pe = match Term::compile_expr(tlc, scope, funcs, preamble, *dv, fuel) {
                    Ok(e) => e,
                    Err(e) => {
                        return Err(e);
                    },
                };
                let ghost pev = expr_view(pe);
                let ghost dvg = *dv;
                let ghost f1 = funcs_view(funcs@);
                let ghost p1 = expr_seq_view(preamble@);
                let n = lrs.len();
                let mut plrs: Vec<(crate::ir::LHSPart, crate::ir::Expression)> = Vec::new();
                let mut i: usize = 0;
                proof {
                    assert(arm_seq_view(plrs@) =~= Seq::<(LhsV, ExprV)>::empty());
                }
                while i < n
                    invariant
                        0 <= i <= n,
                        crate::tlc::tlc_wf(tlc),
                        term.id < tlc.rows@.len(),
                        *scope == scg,
                        tlc.rows@[term.id as int].term matches Term::Match(d3, a3) && (a3@
                            == lrs@ && d3 == dvg),
                        dvg.id < term.id,
                        n == lrs@.len(),
                        f0 == funcs_view(old(funcs)@),
                        p0 == expr_seq_view(old(preamble)@),
                        ce_spec(
                            tlc.rows@,
                            tlc.scopes@,
                            scg,
                            f0,
                            p0,
                            dvg.id as int,
                            fuel as nat,
                        ) == Ok::<_, RFail>((pev, f1, p1)),
                        ce_arms_spec(
                            tlc.rows@,
                            tlc.scopes@,
                            f1,
                            p1,
                            lrs@,
                            term.id as int,
                            fuel as nat,
                            i as int,
                        ) == Ok::<_, RFail>(
                            (arm_seq_view(plrs@), funcs_view(funcs@), expr_seq_view(preamble@)),
                        ),
                        funcs@.len() >= old(funcs)@.len(),
                        forall|j: int|
                            0 <= j < old(funcs)@.len() ==> (#[trigger] funcs@[j]).name@ == old(funcs)@[j].name@
                                && funcs@[j].args == old(funcs)@[j].args,
                    decreases n - i,
                {
                    proof {
                        assert(term_refs_before(
                            tlc.rows@[term.id as int].term,
                            term.id as int,
                        ));
                        assert(lrs@[i as int].1.id < term.id);
                        assert(lrs@[i as int].2.id < term.id);
                    }
                    let lrc = lrs[i].0;
                    if lrc.id >= tlc.scopes.len() {
                        proof {
                            assert(ce_arms_spec(
                                tlc.rows@,
                                tlc.scopes@,
                                f1,
                                p1,
                                lrs@,
                                term.id as int,
                                fuel as nat,
                                i + 1,
                            ) is Err);
                            assert(forall|j: int|
                                0 <= j < n ==> (#[trigger] lrs@[j]).1.id < term.id && lrs@[
                                    j
                                ].2.id < term.id);
                            lemma_ce_arms_err(
                                tlc.rows@,
                                tlc.scopes@,
                                f1,
                                p1,
                                lrs@,
                                term.id as int,
                                fuel as nat,
                                i + 1,
                                n as int,
                            );
                        }
                        return Err(
                            crate::debug::Error::new(
                                String::from_str("Internal Error"),
                                String::from_str("arm scope handle out of bounds"),
                                sp,
                            ),
                        );
                    }
                    let lhs = match Term::compile_lhs(tlc, lrc, lrs[i].1) {
                        Ok(l) => l,
                        Err(e) => {
                            proof {
                                assert(ce_arms_spec(
                                    tlc.rows@,
                                    tlc.scopes@,
                                    f1,
                                    p1,
                                    lrs@,
                                    term.id as int,
                                    fuel as nat,
                                    i + 1,
                                ) is Err);
                                assert(forall|j: int|
                                    0 <= j < n ==> (#[trigger] lrs@[j]).1.id < term.id && lrs@[
                                        j
                                    ].2.id < term.id);
                                lemma_ce_arms_err(
                                    tlc.rows@,
                                    tlc.scopes@,
                                    f1,
                                    p1,
                                    lrs@,
                                    term.id as int,
                                    fuel as nat,
                                    i + 1,
                                    n as int,
                                );
                            }
                            return Err(e);
                        },
                    };
                    let rhs = match Term::compile_expr(
                        tlc,
                        &Some(lrc),
                        funcs,
                        preamble,
                        lrs[i].2,
                        fuel,
                    ) {
                        Ok(e) => e,
                        Err(e) => {
                            proof {
                                assert(ce_arms_spec(
                                    tlc.rows@,
                                    tlc.scopes@,
                                    f1,
                                    p1,
                                    lrs@,
                                    term.id as int,
                                    fuel as nat,
                                    i + 1,
                                ) is Err);
                                assert(forall|j: int|
                                    0 <= j < n ==> (#[trigger] lrs@[j]).1.id < term.id && lrs@[
                                        j
                                    ].2.id < term.id);
                                lemma_ce_arms_err(
                                    tlc.rows@,
                                    tlc.scopes@,
                                    f1,
                                    p1,
                                    lrs@,
                                    term.id as int,
                                    fuel as nat,
                                    i + 1,
                                    n as int,
                                );
                            }
                            return Err(e);
                        },
                    };
                    let ghost anow = arm_seq_view(plrs@);
                    let ghost avec = plrs@;
                    plrs.push((lhs, rhs));
                    proof {
                        lemma_arm_seq_view(plrs@);
                        lemma_arm_seq_view(avec);
                        assert(arm_seq_view(plrs@) =~= anow.push(
                            (lhs_view(lhs), expr_view(rhs)),
                        ));
                    }
                    i += 1;
                }
                let r2 = crate::ir::Expression {
                    op: crate::ir::ExprOp::PatternMatch(Box::new(pe), plrs),
                    dtype: tt.datatype(),
                    span: sp,
                };
                proof {
                    assert(expr_view(r2) == ExprV {
                        op: EOpV::PatternMatch(Box::new(pev), arm_seq_view(plrs@)),
                        dtype: crate::render::render_ty(tlc.rows@[term.id as int].typ@, Map::empty()),
                        span: sp,
                    });
                }
                Ok(r2)
            },
            Term::App(g, x) => {
                proof {
                    assert(term_refs_before(tlc.rows@[term.id as int].term, term.id as int));
                }
                let gv = match &tlc.rows[g.id].term {
                    Term::Ident(gv) => gv,
                    _ => {
                        proof {
                            assert(g.id < term.id && x.id < term.id);
                            assert(ce_app_spec(
                                tlc.rows@,
                                tlc.scopes@,
                                *scope,
                                f0,
                                p0,
                                g.id as int,
                                x.id as int,
                                term.id as int,
                                fuel as nat,
                            ) == Err::<(ExprV, Seq<FuncV>, Seq<ExprV>), RFail>(
                                RFail::Unsupported,
                            ));
                        }
                        return Err(
                            crate::debug::Error::new(
                                String::from_str("Unsupported Construct"),
                                String::from_str("call of a non-identifier callee"),
                                sp,
                            ),
                        );
                    },
                };
                let ps = match &tlc.rows[x.id].term {
                    Term::Tuple(ps) => ps,
                    _ => {
                        return Err(
                            crate::debug::Error::new(
                                String::from_str("Unsupported Construct"),
                                String::from_str("call without a tuple of arguments"),
                                sp,
                            ),
                        );
                    },
                };
                proof {
                    reveal_strlit(".flatmap");
                }
                if crate::constant::str_eq(gv.as_str(), ".flatmap") && ps.len() == 2 {
                    return Err(
                        crate::debug::Error::new(
                            String::from_str("Unsupported Construct"),
                            String::from_str("the iteration combinator is not lowered yet"),
                            sp,
                        ),
                    );
                }
                let ghost gvv = gv@;
                let n = ps.len();
                let mut args: Vec<crate::ir::Expression> = Vec::new();
                let mut i: usize = 0;
                proof {
                    assert(expr_seq_view(args@) =~= Seq::<ExprV>::empty());
                }
                while i < n
                    invariant
                        0 <= i <= n,
                        crate::tlc::tlc_wf(tlc),
                        term.id < tlc.rows@.len(),
                        *scope == scg,
                        g.id < term.id,
                        x.id < term.id,
                        tlc.rows@[term.id as int].term matches Term::App(g2, x2) && (g2 == *g
                            && x2 == *x),
                        tlc.rows@[x.id as int].term matches Term::Tuple(p3) && p3@ == ps@,
                        tlc.rows@[g.id as int].term matches Term::Ident(g3) && g3@ == gvv,
                        !(gvv == ".flatmap"@ && ps@.len() == 2),
                        n == ps@.len(),
                        f0 == funcs_view(old(funcs)@),
                        p0 == expr_seq_view(old(preamble)@),
                        ce_args_spec(
                            tlc.rows@,
                            tlc.scopes@,
                            *scope,
                            f0,
                            p0,
                            ps@,
                            x.id as int,
                            fuel as nat,
                            i as int,
                        ) == Ok::<_, RFail>(
                            (expr_seq_view(args@), funcs_view(funcs@), expr_seq_view(preamble@)),
                        ),
                        funcs@.len() >= old(funcs)@.len(),
                        forall|j: int|
                            0 <= j < old(funcs)@.len() ==> (#[trigger] funcs@[j]).name@ == old(funcs)@[j].name@
                                && funcs@[j].args == old(funcs)@[j].args,
                    decreases n - i,
                {
                    proof {
                        assert(term_refs_before(tlc.rows@[x.id as int].term, x.id as int));
                        assert(ps@[i as int].id < x.id);
                    }
                    let ae = match Term::compile_expr(tlc, scope, funcs, preamble, ps[i], fuel) {
                        Ok(e) => e,
                        Err(e) => {
                            proof {
                                assert(ce_args_spec(
                                    tlc.rows@,
                                    tlc.scopes@,
                                    *scope,
                                    f0,
                                    p0,
                                    ps@,
                                    x.id as int,
                                    fuel as nat,
                                    i + 1,
                                ) is Err);
                                assert(forall|j: int|
                                    0 <= j < n ==> (#[trigger] ps@[j]).id < x.id);
                                lemma_ce_args_err(
                                    tlc.rows@,
                                    tlc.scopes@,
                                    *scope,
                                    f0,
                                    p0,
                                    ps@,
                                    x.id as int,
                                    fuel as nat,
                                    i + 1,
                                    n as int,
                                );
                                assert(ce_app_spec(
                                    tlc.rows@,
                                    tlc.scopes@,
                                    *scope,
                                    f0,
                                    p0,
                                    g.id as int,
                                    x.id as int,
                                    term.id as int,
                                    fuel as nat,
                                ) is Err);
                            }
                            return Err(e);
                        },
                    };
                    let ghost anow = expr_seq_view(args@);
                    let ghost avec = args@;
                    args.push(ae);
                    proof {
                        lemma_expr_seq_view(args@);
                        lemma_expr_seq_view(avec);
                        assert(expr_seq_view(args@) =~= anow.push(expr_view(ae)));
                    }
                    i += 1;
                }
                let sc = match scope {
                    Some(sc) => *sc,
                    None => {
                        return Err(
                            crate::debug::Error::new(
                                String::from_str("Internal Error"),
                                String::from_str("function application has no scope"),
                                sp,
                            ),
                        );
                    },
                };
                if sc.id >= tlc.scopes.len() {
                    return Err(
                        crate::debug::Error::new(
                            String::from_str("Internal Error"),
                            String::from_str("scope handle out of bounds"),
                            sp,
                        ),
                    );
                }
                let binding = match crate::scope::Scope::lookup_term(
                    tlc,
                    sc,
                    gv.as_str(),
                    &tlc.rows[g.id].typ,
                ) {
                    Some(b) => b,
                    None => {
                        return Err(
                            crate::debug::Error::new(
                                String::from_str("Internal Error"),
                                String::from_str("failed to look the callee up in scope"),
                                sp,
                            ),
                        );
                    },
                };
                if binding.id >= tlc.rows.len() {
                    return Err(
                        crate::debug::Error::new(
                            String::from_str("Internal Error"),
                            String::from_str("binding handle out of bounds"),
                            sp,
                        ),
                    );
                }
                let lb = match &tlc.rows[binding.id].term {
                    Term::Let(lb) => lb,
                    _ => {
                        return Err(
                            crate::debug::Error::new(
                                String::from_str("Internal Error"),
                                String::from_str("callee binding is not a let"),
                                sp,
                            ),
                        );
                    },
                };
                if lb.parameters.len() > 1 {
                    return Err(
                        crate::debug::Error::new(
                            String::from_str("Unsupported Construct"),
                            String::from_str("curried callee in compile_expr"),
                            sp,
                        ),
                    );
                }
                if lb.is_extern {
                    let body = match &lb.body {
                        Some(b) => *b,
                        None => {
                            return Err(
                                crate::debug::Error::new(
                                    String::from_str("Internal Error"),
                                    String::from_str("external binding without a symbol"),
                                    sp,
                                ),
                            );
                        },
                    };
                    if body.id >= tlc.rows.len() {
                        return Err(
                            crate::debug::Error::new(
                                String::from_str("Internal Error"),
                                String::from_str("symbol handle out of bounds"),
                                sp,
                            ),
                        );
                    }
                    match &tlc.rows[body.id].term {
                        Term::Ident(mangled) => {
                            let r2 = crate::ir::Expression {
                                op: crate::ir::ExprOp::Apply(mangled.clone(), args),
                                dtype: tt.datatype(),
                                span: sp,
                            };
                            proof {
                                assert(expr_view(r2) == ExprV {
                                    op: EOpV::Apply(mangled@, expr_seq_view(r2.op->Apply_1@)),
                                    dtype: crate::render::render_ty(
                                        tlc.rows@[term.id as int].typ@,
                                        Map::empty(),
                                    ),
                                    span: sp,
                                });
                            }
                            Ok(r2)
                        },
                        _ => Err(
                            crate::debug::Error::new(
                                String::from_str("Internal Error"),
                                String::from_str("external body is not a mangled symbol"),
                                sp,
                            ),
                        ),
                    }
                } else {
                    if fuel == 0 {
                        return Err(
                            crate::debug::Error::new(
                                String::from_str("Recursion Limit"),
                                String::from_str("callee compilation ran out of fuel"),
                                sp,
                            ),
                        );
                    }
                    let mangled = match Term::compile_function(
                        tlc,
                        scope,
                        funcs,
                        binding,
                        fuel - 1,
                    ) {
                        Ok(nm) => nm,
                        Err(e) => {
                            return Err(e);
                        },
                    };
                    let ghost nmv = mangled@;
                    let r2 = crate::ir::Expression {
                        op: crate::ir::ExprOp::Apply(mangled, args),
                        dtype: tt.datatype(),
                        span: sp,
                    };
                    proof {
                        assert(expr_view(r2) == ExprV {
                            op: EOpV::Apply(nmv, expr_seq_view(r2.op->Apply_1@)),
                            dtype: crate::render::render_ty(
                                tlc.rows@[term.id as int].typ@,
                                Map::empty(),
                            ),
                            span: sp,
                        });
                    }
                    Ok(r2)
                }
            },
            _ => Err(
                crate::debug::Error::new(
                    String::from_str("Unsupported Construct"),
                    String::from_str("term shape in compile_expr"),
                    sp,
                ),
            ),
        }
    }
}


/// A failing statement poisons the rest of a block lowering.
proof fn lemma_ce_block_err(
    rows: Seq<Row>,
    scopes: Seq<crate::scope::Scope>,
    sc2: crate::scope::ScopeId,
    funcs: Seq<FuncV>,
    preamble: Seq<ExprV>,
    es: Seq<TermId>,
    bound: int,
    fuel: nat,
    i: int,
    n: int,
)
    requires
        0 <= i <= n,
        n <= es.len(),
        forall|j: int| 0 <= j < n ==> (#[trigger] es[j]).id < bound,
        ce_block_spec(rows, scopes, sc2, funcs, preamble, es, bound, fuel, i) is Err,
    ensures
        ce_block_spec(rows, scopes, sc2, funcs, preamble, es, bound, fuel, n) == ce_block_spec(
            rows,
            scopes,
            sc2,
            funcs,
            preamble,
            es,
            bound,
            fuel,
            i,
        ),
    decreases n - i,
{
    if i < n {
        lemma_ce_block_err(rows, scopes, sc2, funcs, preamble, es, bound, fuel, i + 1, n);
    }
}

/// A failing arm poisons the rest of a match lowering.
proof fn lemma_ce_arms_err(
    rows: Seq<Row>,
    scopes: Seq<crate::scope::Scope>,
    funcs: Seq<FuncV>,
    preamble: Seq<ExprV>,
    arms: Seq<(crate::scope::ScopeId, TermId, TermId)>,
    bound: int,
    fuel: nat,
    i: int,
    n: int,
)
    requires
        0 <= i <= n,
        n <= arms.len(),
        forall|j: int|
            0 <= j < n ==> (#[trigger] arms[j]).1.id < bound && arms[j].2.id < bound,
        ce_arms_spec(rows, scopes, funcs, preamble, arms, bound, fuel, i) is Err,
    ensures
        ce_arms_spec(rows, scopes, funcs, preamble, arms, bound, fuel, n) == ce_arms_spec(
            rows,
            scopes,
            funcs,
            preamble,
            arms,
            bound,
            fuel,
            i,
        ),
    decreases n - i,
{
    if i < n {
        lemma_ce_arms_err(rows, scopes, funcs, preamble, arms, bound, fuel, i + 1, n);
    }
}

/// A failing argument poisons the rest of an application lowering.
proof fn lemma_ce_args_err(
    rows: Seq<Row>,
    scopes: Seq<crate::scope::Scope>,
    sc: Option<crate::scope::ScopeId>,
    funcs: Seq<FuncV>,
    preamble: Seq<ExprV>,
    ps: Seq<TermId>,
    bound: int,
    fuel: nat,
    i: int,
    n: int,
)
    requires
        0 <= i <= n,
        n <= ps.len(),
        forall|j: int| 0 <= j < n ==> (#[trigger] ps[j]).id < bound,
        ce_args_spec(rows, scopes, sc, funcs, preamble, ps, bound, fuel, i) is Err,
    ensures
        ce_args_spec(rows, scopes, sc, funcs, preamble, ps, bound, fuel, n) == ce_args_spec(
            rows,
            scopes,
            sc,
            funcs,
            preamble,
            ps,
            bound,
            fuel,
            i,
        ),
    decreases n - i,
{
    if i < n {
        lemma_ce_args_err(rows, scopes, sc, funcs, preamble, ps, bound, fuel, i + 1, n);
    }
}

/// The unit expression at a span.
fn unit_expr(sp: crate::token::Span) -> (r: crate::ir::Expression)
    ensures
        r.op is Unit,
        r.span == sp,
        expr_view(r) == unit_ev(sp),
{
    proof {
        reveal_strlit("()");
        assert(("()")@ =~= seq!['(', ')']);
    }
    crate::ir::Expression {
        op: crate::ir::ExprOp::Unit,
        dtype: String::from_str("()"),
        span: sp,
    }
}

} // verus!
