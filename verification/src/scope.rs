use vstd::prelude::*;
use crate::maps::KindMap;
use crate::term::TermId;
use crate::typ::Type;

verus! {

/// Stable handle of a scope in the scope arena.
#[derive(Clone, Copy, PartialEq, Eq, Structural, Debug)]
pub struct ScopeId {
    pub id: usize,
}

/// A lexical scope: an optional parent and an ordered list of named,
/// typed children. Several children may share a name (overloading);
/// lookup disambiguates by type compatibility.
pub struct Scope {
    pub parent: Option<ScopeId>,
    pub children: Vec<(String, KindMap, Type, Option<TermId>)>,
}


/// Whether a declared type is compatible with a required type: the
/// implication relation, not raw equality, since a name may be bound
/// polymorphically.
pub open spec fn compatible_v(dt: crate::model::TyV, req: crate::model::TyV) -> bool {
    !crate::typ::is_bottom_v(crate::typ::implication_unifier_v(dt, req))
}

/// The first child of a scope that matches the name, is compatible with
/// the required type, and carries a binding.
pub open spec fn first_match(
    children: Seq<(String, KindMap, Type, Option<TermId>)>,
    name: Seq<char>,
    req: crate::model::TyV,
) -> Option<TermId>
    decreases children.len(),
{
    if children.len() == 0 {
        None
    } else {
        let c = children[0];
        if c.0@ == name && compatible_v(c.2@, req) && c.3 is Some {
            Some(c.3->0)
        } else {
            first_match(children.drop_first(), name, req)
        }
    }
}

/// Model of [`Scope::lookup_term`]: the nearest compatible binding,
/// walking from the scope through its parents.
pub open spec fn lookup_spec(
    scopes: Seq<Scope>,
    sid: int,
    name: Seq<char>,
    req: crate::model::TyV,
) -> Option<TermId>
    decreases sid,
{
    if !(0 <= sid < scopes.len()) {
        None
    } else {
        match first_match(scopes[sid].children@, name, req) {
            Some(t) => Some(t),
            None => match scopes[sid].parent {
                Some(p) => {
                    if p.id < sid {
                        lookup_spec(scopes, p.id as int, name, req)
                    } else {
                        None
                    }
                },
                None => None,
            },
        }
    }
}

impl Scope {
    /// Resolves a name to a bound term: walks from `scope` up through
    /// its parents, and at each level returns the first child whose
    /// name matches and whose declared type is compatible with the
    /// required type under the implication relation. `None` is a
    /// resolution failure, which the caller decides how to treat.
    pub fn lookup_term(
        tlc: &crate::tlc::TLC,
        scope: ScopeId,
        name: &str,
        required: &Type,
    ) -> (r: Option<TermId>)
        requires
            crate::tlc::tlc_wf(tlc),
            scope.id < tlc.scopes@.len(),
        ensures
            r == lookup_spec(tlc.scopes@, scope.id as int, name@, required@),
        decreases scope.id,
    {
        let sc = &tlc.scopes[scope.id];
        let ghost children = sc.children@;
        let n = sc.children.len();
        let mut i: usize = 0;
        proof {
            assert(children.skip(0) =~= children);
        }
        while i < n
            invariant
                0 <= i <= n,
                n == children.len(),
                sc.children@ == children,
                children == tlc.scopes@[scope.id as int].children@,
                scope.id < tlc.scopes@.len(),
                first_match(children, name@, required@) == first_match(
                    children.skip(i as int),
                    name@,
                    required@,
                ),
            decreases n - i,
        {
            let c = &sc.children[i];
            proof {
                assert(children.skip(i as int)[0] == children[i as int]);
                assert(children.skip(i as int).drop_first() =~= children.skip(i + 1));
            }
            let name_matches = crate::constant::str_eq(c.0.as_str(), name);
            if name_matches {
                let imp = c.2.implication_unifier(required);
                if !imp.is_bottom() {
                    if let Some(t) = &c.3 {
                        proof {
                            assert(first_match(children.skip(i as int), name@, required@)
                                == Some(children[i as int].3->0));
                            assert(first_match(children, name@, required@) == Some(*t));
                        }
                        return Some(*t);
                    }
                }
            }
            proof {
                assert(first_match(children.skip(i as int), name@, required@) == first_match(
                    children.skip(i + 1),
                    name@,
                    required@,
                ));
            }
            i += 1;
        }
        proof {
            assert(children.skip(n as int) =~= Seq::<(String, KindMap, Type, Option<TermId>)>::empty());
            assert(first_match(children, name@, required@) is None);
        }
        match &sc.parent {
            Some(p) => Scope::lookup_term(tlc, *p, name, required),
            None => None,
        }
    }
}

/// Scope lookup precedence: a compatible binding in the scope itself
/// wins over anything in the parents, and a scope without a compatible
/// binding defers to its parent chain.
pub proof fn lemma_lookup_precedence(
    scopes: Seq<Scope>,
    sid: int,
    name: Seq<char>,
    req: crate::model::TyV,
)
    requires
        0 <= sid < scopes.len(),
    ensures
        first_match(scopes[sid].children@, name, req) matches Some(t) ==> lookup_spec(
            scopes,
            sid,
            name,
            req,
        ) == Some(t),
        (first_match(scopes[sid].children@, name, req) is None && (scopes[sid].parent matches Some(
            p,
        ) && p.id < sid)) ==> lookup_spec(scopes, sid, name, req) == lookup_spec(
            scopes,
            scopes[sid].parent->0.id as int,
            name,
            req,
        ),
        first_match(scopes[sid].children@, name, req) is None && scopes[sid].parent is None
            ==> lookup_spec(scopes, sid, name, req) is None,
{
}

/// The first compatible child is found: if child `i` matches the name,
/// is compatible and bound, and no earlier child is a match, the lookup
/// in this scope resolves to child `i`'s binding.
pub proof fn lemma_first_match_at(
    children: Seq<(String, KindMap, Type, Option<TermId>)>,
    name: Seq<char>,
    req: crate::model::TyV,
    i: int,
)
    requires
        0 <= i < children.len(),
        children[i].0@ == name,
        compatible_v(children[i].2@, req),
        children[i].3 is Some,
        forall|j: int|
            0 <= j < i ==> !((#[trigger] children[j]).0@ == name && compatible_v(children[j].2@, req)
                && children[j].3 is Some),
    ensures
        first_match(children, name, req) == Some(children[i].3->0),
    decreases i,
{
    if i == 0 {
    } else {
        assert(!(children[0].0@ == name && compatible_v(children[0].2@, req) && children[0].3
            is Some));
        let d = children.drop_first();
        assert(forall|j: int| 0 <= j < d.len() ==> d[j] == children[j + 1]);
        lemma_first_match_at(d, name, req, i - 1);
    }
}

} // verus!
