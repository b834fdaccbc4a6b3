use vstd::prelude::*;

verus! {

broadcast use crate::model::lemma_rules_view, crate::model::lemma_ty_seq_view;

/// The compilation unit's central state: the append-only term arena,
/// the scope arena, and the registered nominal implication rules.
pub struct TLC {
    pub rows: Vec<crate::term::Row>,
    pub scopes: Vec<crate::scope::Scope>,
    pub rules: Vec<(String, crate::typ::Type)>,
}

impl TLC {
    /// A fresh, empty compilation unit.
    pub fn new() -> (r: TLC)
        ensures
            r.rows@.len() == 0,
            r.scopes@.len() == 0,
            r.rules@.len() == 0,
    {
        TLC { rows: Vec::new(), scopes: Vec::new(), rules: Vec::new() }
    }
}


/// Well-formedness of the arenas: every term's parts precede it, and
/// every scope's parent precedes it.
pub open spec fn tlc_wf(t: &TLC) -> bool {
    &&& forall|i: int|
        0 <= i < t.rows@.len() ==> crate::term::term_refs_before(
            (#[trigger] t.rows@[i]).term,
            i,
        )
    &&& forall|i: int|
        0 <= i < t.scopes@.len() ==> match (#[trigger] t.scopes@[i]).parent {
            Some(p) => p.id < i,
            None => true,
        }
}

impl TLC {
    /// Appends a term row and returns its stable handle. The parts of
    /// the new term must already be in the arena.
    pub fn push_term(
        &mut self,
        term: crate::term::Term,
        typ: crate::typ::Type,
        kind: crate::kind::Kind,
        span: crate::token::Span,
    ) -> (r: crate::term::TermId)
        requires
            crate::term::term_refs_before(term, old(self).rows@.len() as int),
            old(self).rows@.len() < usize::MAX,
        ensures
            r.id == old(self).rows@.len(),
            final(self).rows@.len() == old(self).rows@.len() + 1,
            final(self).rows@ =~= old(self).rows@.push(
                crate::term::Row { term, typ, kind, span },
            ),
            final(self).scopes@ == old(self).scopes@,
            final(self).rules@ == old(self).rules@,
            tlc_wf(old(self)) ==> tlc_wf(final(self)),
    {
        let id = self.rows.len();
        self.rows.push(crate::term::Row { term, typ, kind, span });
        proof {
            if tlc_wf(old(self)) {
                assert(forall|i: int|
                    0 <= i < old(self).rows@.len() ==> self.rows@[i] == old(self).rows@[i]);
                assert(forall|i: int|
                    0 <= i < self.rows@.len() ==> crate::term::term_refs_before(
                        (#[trigger] self.rows@[i]).term,
                        i,
                    ));
            }
        }
        crate::term::TermId { id }
    }

    /// Appends a scope and returns its stable handle; no scope is ever
    /// removed.
    pub fn push_scope(&mut self, scope: crate::scope::Scope) -> (r: crate::scope::ScopeId)
        requires
            scope.parent matches Some(p) ==> p.id < old(self).scopes@.len(),
            old(self).scopes@.len() < usize::MAX,
        ensures
            r.id == old(self).scopes@.len(),
            final(self).scopes@.len() == old(self).scopes@.len() + 1,
            final(self).scopes@ =~= old(self).scopes@.push(scope),
            final(self).rows@ == old(self).rows@,
            final(self).rules@ == old(self).rules@,
            tlc_wf(old(self)) ==> tlc_wf(final(self)),
    {
        let id = self.scopes.len();
        let ghost s0 = scope;
        self.scopes.push(scope);
        proof {
            if tlc_wf(old(self)) {
                assert(forall|i: int|
                    0 <= i < old(self).scopes@.len() ==> self.scopes@[i] == old(self).scopes@[i]);
            }
        }
        crate::scope::ScopeId { id }
    }
}


impl TLC {
    /// Refines the recorded type of a term in place.
    pub fn set_row_typ(&mut self, i: usize, t: crate::typ::Type)
        requires
            i < old(self).rows@.len(),
        ensures
            final(self).rows@.len() == old(self).rows@.len(),
            final(self).rows@[i as int].typ == t,
            final(self).rows@[i as int].term == old(self).rows@[i as int].term,
            final(self).rows@[i as int].kind == old(self).rows@[i as int].kind,
            final(self).rows@[i as int].span == old(self).rows@[i as int].span,
            forall|j: int|
                0 <= j < old(self).rows@.len() && j != i ==> final(self).rows@[j] == old(
                    self,
                ).rows@[j],
            final(self).scopes@ == old(self).scopes@,
            final(self).rules@ == old(self).rules@,
            tlc_wf(old(self)) ==> tlc_wf(final(self)),
    {
        self.rows[i].typ = t;
        proof {
            if tlc_wf(old(self)) {
                assert(forall|j: int|
                    0 <= j < self.rows@.len() ==> (#[trigger] self.rows@[j]).term == old(
                        self,
                    ).rows@[j].term);
            }
        }
    }
}


/// Whether a component list contains a `Named` type of the given name.
pub open spec fn has_named(comps: Seq<crate::model::TyV>, n: Seq<char>) -> bool {
    exists|i: int|
        0 <= i < comps.len() && ((#[trigger] comps[i]) matches crate::model::TyV::Named(m, _) && m
            == n)
}

/// The implied types of the rules whose nominal name occurs among the
/// components.
pub open spec fn implied_of(
    rules: Seq<(Seq<char>, crate::model::TyV)>,
    comps: Seq<crate::model::TyV>,
) -> Seq<crate::model::TyV>
    decreases rules,
{
    if rules.len() == 0 {
        Seq::empty()
    } else {
        implied_of(rules.drop_last(), comps) + (if has_named(comps, rules.last().0) {
            seq![rules.last().1]
        } else {
            Seq::empty()
        })
    }
}

/// Model of [`TLC::extend_implied`]: normalize, conjoin every implied
/// type whose nominal name occurs among the conjuncts, and renormalize.
pub open spec fn extend_implied_v(
    rules: Seq<(Seq<char>, crate::model::TyV)>,
    t: crate::model::TyV,
) -> crate::model::TyV {
    let comps = crate::typ::flatten_one(crate::typ::normalize_v(t));
    crate::typ::normalize_v(
        crate::model::TyV::And(comps + implied_of(rules, comps)),
    )
}

impl TLC {
    /// Registers an implication rule: every type containing a `Named`
    /// component of this name is taken to imply the given type.
    pub fn push_rule(&mut self, name: String, t: crate::typ::Type)
        ensures
            final(self).rules@.len() == old(self).rules@.len() + 1,
            crate::model::rules_view(final(self).rules@) == crate::model::rules_view(
                old(self).rules@,
            ).push((name@, t@)),
            final(self).rows@ == old(self).rows@,
            final(self).scopes@ == old(self).scopes@,
            tlc_wf(old(self)) ==> tlc_wf(final(self)),
    {
        let ghost pre = self.rules@;
        self.rules.push((name, t));
        proof {
            assert(self.rules@.drop_last() =~= pre);
        }
    }

    /// Extends a type with the registered implications of its nominal
    /// conjuncts: subtyping via conjunction, where a rule `name` implies
    /// `u` turns every type containing `name` into its conjunction with
    /// `u`.
    pub fn extend_implied(&self, t: &crate::typ::Type) -> (r: crate::typ::Type)
        ensures
            r@ == extend_implied_v(crate::model::rules_view(self.rules@), t@),
    {
        let nt = t.normalize();
        let comps: Vec<crate::typ::Type> = match nt {
            crate::typ::Type::And(ts) => {
                proof {
                    assert(nt@ == crate::model::TyV::And(crate::model::ty_seq_view(ts@)));
                }
                ts
            },
            other => {
                let mut v: Vec<crate::typ::Type> = Vec::new();
                proof {
                    assert(!(other@ is And));
                    assert(crate::typ::flatten_one(other@) =~= seq![other@]);
                }
                v.push(other);
                proof {
                    assert(crate::model::ty_seq_view(v@) =~= crate::typ::flatten_one(
                        crate::typ::normalize_v(t@),
                    ));
                }
                v
            },
        };
        let ghost compv = crate::model::ty_seq_view(comps@);
        let ghost rv = crate::model::rules_view(self.rules@);
        let mut all = crate::typ::clone_types(&comps);
        let rn = self.rules.len();
        let mut i: usize = 0;
        proof {
            assert(crate::model::ty_seq_view(all@) =~= compv + implied_of(rv.take(0), compv));
        }
        while i < rn
            invariant
                0 <= i <= rn,
                rn == self.rules@.len(),
                compv == crate::model::ty_seq_view(comps@),
                rv == crate::model::rules_view(self.rules@),
                crate::model::ty_seq_view(all@) == compv + implied_of(rv.take(i as int), compv),
            decreases rn - i,
        {
            proof {
                assert(rv.take(i + 1).drop_last() =~= rv.take(i as int));
                assert(rv.take(i + 1).last() == rv[i as int]);
            }
            let rule_name = self.rules[i].0.as_str();
            let mut found = false;
            let cn = comps.len();
            let mut j: usize = 0;
            while j < cn
                invariant
                    0 <= j <= cn,
                    cn == comps@.len(),
                    compv == crate::model::ty_seq_view(comps@),
                    i < rn,
                    rn == self.rules@.len(),
                    rv == crate::model::rules_view(self.rules@),
                    rule_name@ == rv[i as int].0,
                    found ==> has_named(compv, rv[i as int].0),
                    !found ==> forall|l: int|
                        0 <= l < j ==> !((#[trigger] compv[l]) matches crate::model::TyV::Named(
                            m,
                            _,
                        ) && m == rv[i as int].0),
                decreases cn - j,
            {
                if !found {
                    if let crate::typ::Type::Named(cn2, _) = &comps[j] {
                        proof {
                            assert(compv[j as int] matches crate::model::TyV::Named(m, _) && m
                                == cn2@);
                        }
                        if crate::constant::str_eq(cn2.as_str(), rule_name) {
                            found = true;
                        }
                    }
                }
                j += 1;
            }
            if found {
                let ghost pre = crate::model::ty_seq_view(all@);
                let extra = self.rules[i].1.clone();
                all.push(extra);
                proof {
                    assert(crate::model::ty_seq_view(all@) =~= pre.push(rv[i as int].1));
                    assert(compv + implied_of(rv.take(i + 1), compv) =~= pre.push(rv[i as int].1));
                }
            } else {
                proof {
                    assert(!has_named(compv, rv[i as int].0)) by {
                        if has_named(compv, rv[i as int].0) {
                            let l = choose|l: int|
                                0 <= l < compv.len() && ((#[trigger] compv[l]) matches
                                    crate::model::TyV::Named(m, _) && m == rv[i as int].0);
                            assert(!(compv[l] matches crate::model::TyV::Named(m, _) && m
                                == rv[i as int].0));
                        }
                    }
                    assert(compv + implied_of(rv.take(i + 1), compv) =~= compv + implied_of(
                        rv.take(i as int),
                        compv,
                    ));
                }
            }
            i += 1;
        }
        proof {
            assert(rv.take(rn as int) =~= rv);
        }
        let conj = crate::typ::Type::And(all);
        proof {
            assert(conj@ == crate::model::TyV::And(compv + implied_of(rv, compv)));
        }
        conj.normalize()
    }
}


/// Model of [`TLC::check`]: a term graph is well typed when every
/// ascription's term type implies the ascribed type and every
/// application of an arrow-typed callee receives an argument whose
/// type implies the domain, recursively through the graph.
pub open spec fn check_spec(rows: Seq<crate::term::Row>, t: int) -> bool
    decreases t, 1int, 0int,
{
    if !(0 <= t < rows.len()) {
        false
    } else {
        match rows[t].term {
            crate::term::Term::Ascript(t0, tt) => {
                if t0.id < t {
                    check_spec(rows, t0.id as int) && !crate::typ::is_bottom_v(
                        crate::typ::implication_unifier_v(rows[t0.id as int].typ@, tt@),
                    )
                } else {
                    false
                }
            },
            crate::term::Term::As(t0, _) => t0.id < t && check_spec(rows, t0.id as int),
            crate::term::Term::RuleApplication(t0, _) => t0.id < t && check_spec(
                rows,
                t0.id as int,
            ),
            crate::term::Term::App(g, x) => {
                if g.id < t && x.id < t {
                    check_spec(rows, g.id as int) && check_spec(rows, x.id as int)
                        && (rows[g.id as int].typ@ is Arrow ==> !crate::typ::is_bottom_v(
                        crate::typ::implication_unifier_v(
                            rows[x.id as int].typ@,
                            crate::typ::domain_v(rows[g.id as int].typ@),
                        ),
                    ))
                } else {
                    false
                }
            },
            crate::term::Term::Arrow(_, p, _, b) => p.id < t && b.id < t && check_spec(
                rows,
                p.id as int,
            ) && check_spec(rows, b.id as int),
            crate::term::Term::Tuple(ts) => check_list_spec(rows, ts@, t, ts@.len() as int),
            crate::term::Term::Block(_, es) => check_list_spec(rows, es@, t, es@.len() as int),
            crate::term::Term::Match(dv, arms) => dv.id < t && check_spec(rows, dv.id as int)
                && check_arms_spec(rows, arms@, t, arms@.len() as int),
            crate::term::Term::Let(lt) => match lt.body {
                Some(b) => b.id < t && check_spec(rows, b.id as int),
                None => true,
            },
            _ => true,
        }
    }
}

/// [`check_spec`] over the first `i` members of a list.
pub open spec fn check_list_spec(
    rows: Seq<crate::term::Row>,
    ts: Seq<crate::term::TermId>,
    bound: int,
    i: int,
) -> bool
    decreases bound, 0int, i,
{
    if i <= 0 {
        true
    } else if !(i - 1 < ts.len() && ts[i - 1].id < bound && 0 <= bound) {
        false
    } else {
        check_list_spec(rows, ts, bound, i - 1) && check_spec(rows, ts[i - 1].id as int)
    }
}

/// [`check_spec`] over the first `i` arms of a pattern match.
pub open spec fn check_arms_spec(
    rows: Seq<crate::term::Row>,
    arms: Seq<(crate::scope::ScopeId, crate::term::TermId, crate::term::TermId)>,
    bound: int,
    i: int,
) -> bool
    decreases bound, 0int, i,
{
    if i <= 0 {
        true
    } else if !(i - 1 < arms.len() && arms[i - 1].1.id < bound && arms[i - 1].2.id < bound && 0
        <= bound) {
        false
    } else {
        check_arms_spec(rows, arms, bound, i - 1) && check_spec(rows, arms[i - 1].1.id as int)
            && check_spec(rows, arms[i - 1].2.id as int)
    }
}

/// Once one member fails the check, the whole list fails.
proof fn lemma_check_list_mono(
    rows: Seq<crate::term::Row>,
    ts: Seq<crate::term::TermId>,
    bound: int,
    i: int,
    n: int,
)
    requires
        0 <= i <= n,
        !check_list_spec(rows, ts, bound, i),
    ensures
        !check_list_spec(rows, ts, bound, n),
    decreases n - i,
{
    if i < n {
        lemma_check_list_mono(rows, ts, bound, i + 1, n);
    }
}

/// Once one arm fails the check, the whole match fails.
proof fn lemma_check_arms_mono(
    rows: Seq<crate::term::Row>,
    arms: Seq<(crate::scope::ScopeId, crate::term::TermId, crate::term::TermId)>,
    bound: int,
    i: int,
    n: int,
)
    requires
        0 <= i <= n,
        !check_arms_spec(rows, arms, bound, i),
    ensures
        !check_arms_spec(rows, arms, bound, n),
    decreases n - i,
{
    if i < n {
        lemma_check_arms_mono(rows, arms, bound, i + 1, n);
    }
}

impl TLC {
    /// The trivial pre-pass over a raw front-end expression; the real
    /// checking happens on the term graph through [`TLC::check`].
    pub fn typecheck(e: crate::syntax::TlcExpr) -> (r: Result<(), crate::syntax::TlcError>)
        ensures
            r is Ok,
    {
        Ok(())
    }

    /// Checks one top-level statement of the term graph: validates
    /// every ascription and every application of an arrow-typed callee
    /// with the implication unifier, and reports the first violation as
    /// a type error.
    pub fn check(
        &self,
        _scope: Option<crate::scope::ScopeId>,
        term: crate::term::TermId,
    ) -> (r: Result<(), crate::debug::Error>)
        requires
            tlc_wf(self),
            term.id < self.rows@.len(),
        ensures
            r is Ok <==> check_spec(self.rows@, term.id as int),
            r matches Err(e) ==> e.kind@ == "Type Error"@,
        decreases term.id, 1int,
    {
        let sp = self.rows[term.id].span;
        match &self.rows[term.id].term {
            crate::term::Term::Ascript(t0, tt) => {
                proof {
                    assert(crate::term::term_refs_before(
                        self.rows@[term.id as int].term,
                        term.id as int,
                    ));
                }
                let rc = self.check(_scope, *t0);
                if let Err(e) = rc {
                    return Err(e);
                }
                let imp = self.rows[t0.id].typ.implication_unifier(tt);
                if imp.is_bottom() {
                    return Err(
                        crate::debug::Error::new(
                            String::from_str("Type Error"),
                            String::from_str("term type does not imply the ascribed type"),
                            sp,
                        ),
                    );
                }
                Ok(())
            },
            crate::term::Term::As(t0, _) => {
                proof {
                    assert(crate::term::term_refs_before(
                        self.rows@[term.id as int].term,
                        term.id as int,
                    ));
                }
                self.check(_scope, *t0)
            },
            crate::term::Term::RuleApplication(t0, _) => {
                proof {
                    assert(crate::term::term_refs_before(
                        self.rows@[term.id as int].term,
                        term.id as int,
                    ));
                }
                self.check(_scope, *t0)
            },
            crate::term::Term::App(g, x) => {
                proof {
                    assert(crate::term::term_refs_before(
                        self.rows@[term.id as int].term,
                        term.id as int,
                    ));
                }
                let rc = self.check(_scope, *g);
                if let Err(e) = rc {
                    return Err(e);
                }
                let rc2 = self.check(_scope, *x);
                if let Err(e) = rc2 {
                    return Err(e);
                }
                let is_arrow = match &self.rows[g.id].typ {
                    crate::typ::Type::Arrow(_, _) => true,
                    _ => false,
                };
                if is_arrow {
                    let dom = self.rows[g.id].typ.domain();
                    let imp = self.rows[x.id].typ.implication_unifier(&dom);
                    if imp.is_bottom() {
                        return Err(
                            crate::debug::Error::new(
                                String::from_str("Type Error"),
                                String::from_str("argument type does not imply the domain"),
                                sp,
                            ),
                        );
                    }
                }
                Ok(())
            },
            crate::term::Term::Arrow(_, p, _, b) => {
                proof {
                    assert(crate::term::term_refs_before(
                        self.rows@[term.id as int].term,
                        term.id as int,
                    ));
                }
                let rc = self.check(_scope, *p);
                if let Err(e) = rc {
                    return Err(e);
                }
                self.check(_scope, *b)
            },
            crate::term::Term::Tuple(ts) => {
                proof {
                    assert(crate::term::term_refs_before(
                        self.rows@[term.id as int].term,
                        term.id as int,
                    ));
                }
                self.check_list(_scope, ts, term)
            },
            crate::term::Term::Block(_, es) => {
                proof {
                    assert(crate::term::term_refs_before(
                        self.rows@[term.id as int].term,
                        term.id as int,
                    ));
                }
                self.check_list(_scope, es, term)
            },
            crate::term::Term::Match(dv, arms) => {
                proof {
                    assert(crate::term::term_refs_before(
                        self.rows@[term.id as int].term,
                        term.id as int,
                    ));
                }
                let rc = self.check(_scope, *dv);
                if let Err(e) = rc {
                    return Err(e);
                }
                let n = arms.len();
                let mut i: usize = 0;
                while i < n
                    invariant
                        0 <= i <= n,
                        tlc_wf(self),
                        term.id < self.rows@.len(),
                        self.rows@[term.id as int].term matches crate::term::Term::Match(d2, a2)
                            && a2@ == arms@,
                        n == arms@.len(),
                        check_arms_spec(self.rows@, arms@, term.id as int, i as int),
                    decreases n - i,
                {
                    proof {
                        assert(crate::term::term_refs_before(
                            self.rows@[term.id as int].term,
                            term.id as int,
                        ));
                        assert(arms@[i as int].1.id < term.id);
                        assert(arms@[i as int].2.id < term.id);
                    }
                    let rl = self.check(_scope, arms[i].1);
                    if let Err(e) = rl {
                        proof {
                            lemma_check_arms_mono(self.rows@, arms@, term.id as int, i + 1, n as int);
                        }
                        return Err(e);
                    }
                    let rr = self.check(_scope, arms[i].2);
                    if let Err(e) = rr {
                        proof {
                            lemma_check_arms_mono(self.rows@, arms@, term.id as int, i + 1, n as int);
                        }
                        return Err(e);
                    }
                    i += 1;
                }
                Ok(())
            },
            crate::term::Term::Let(lt) => {
                match &lt.body {
                    Some(b) => {
                        proof {
                            assert(crate::term::term_refs_before(
                                self.rows@[term.id as int].term,
                                term.id as int,
                            ));
                        }
                        self.check(_scope, *b)
                    },
                    None => Ok(()),
                }
            },
            _ => Ok(()),
        }
    }

    /// Checks every member of a tuple or block body.
    fn check_list(
        &self,
        _scope: Option<crate::scope::ScopeId>,
        ts: &Vec<crate::term::TermId>,
        term: crate::term::TermId,
    ) -> (r: Result<(), crate::debug::Error>)
        requires
            tlc_wf(self),
            term.id < self.rows@.len(),
            forall|j: int| 0 <= j < ts@.len() ==> (#[trigger] ts@[j]).id < term.id,
        ensures
            r is Ok <==> check_list_spec(self.rows@, ts@, term.id as int, ts@.len() as int),
            r matches Err(e) ==> e.kind@ == "Type Error"@,
        decreases term.id, 0int,
    {
        let n = ts.len();
        let mut i: usize = 0;
        while i < n
            invariant
                0 <= i <= n,
                tlc_wf(self),
                term.id < self.rows@.len(),
                n == ts@.len(),
                forall|j: int| 0 <= j < ts@.len() ==> (#[trigger] ts@[j]).id < term.id,
                check_list_spec(self.rows@, ts@, term.id as int, i as int),
            decreases n - i,
        {
            let rc = self.check(_scope, ts[i]);
            if let Err(e) = rc {
                proof {
                    lemma_check_list_mono(self.rows@, ts@, term.id as int, i + 1, n as int);
                }
                return Err(e);
            }
            i += 1;
        }
        Ok(())
    }
}

} // verus!
