use lsts::kind::Kind;
use lsts::maps::{KindMap, TypeMap};
use lsts::typ::Type;

fn named(n: &str) -> Type {
    Type::Named(n.to_string(), vec![])
}

#[test]
fn normalize_flattens_sorts_and_dedups() {
    // {Bb + {Aa + Bb}} normalizes to {Aa + Bb}: flattened, sorted,
    // deduplicated.
    let t = Type::And(vec![
        named("Bb"),
        Type::And(vec![named("Aa"), named("Bb")]),
    ]);
    let expected = Type::And(vec![named("Aa"), named("Bb")]);
    assert_eq!(t.normalize(), expected);

    // A singleton conjunction collapses to its member.
    let s = Type::And(vec![named("Aa")]);
    assert_eq!(s.normalize(), named("Aa"));

    // Normalizing twice changes nothing.
    assert_eq!(t.normalize().normalize(), t.normalize());
    let u = Type::Tuple(vec![Type::And(vec![named("Bb"), named("Aa")]), Type::Any]);
    assert_eq!(u.normalize().normalize(), u.normalize());
}

#[test]
fn ratio_simplification_cancels_common_factors() {
    // (Aa*Bb)/(Bb) simplifies to Aa: the common factor cancels once.
    let t = Type::Ratio(
        Box::new(Type::Product(vec![named("Aa"), named("Bb")])),
        Box::new(named("Bb")),
    );
    assert_eq!(t.simplify_ratio(), named("Aa"));

    // (Aa*Bb*Bb)/(Bb) keeps one Bb.
    let t2 = Type::Ratio(
        Box::new(Type::Product(vec![named("Aa"), named("Bb"), named("Bb")])),
        Box::new(named("Bb")),
    );
    assert_eq!(
        t2.simplify_ratio(),
        Type::Product(vec![named("Aa"), named("Bb")])
    );

    // (Aa)/(Aa) cancels completely into the unit tuple.
    let t3 = Type::Ratio(Box::new(named("Aa")), Box::new(named("Aa")));
    assert_eq!(t3.simplify_ratio(), Type::Tuple(vec![]));

    // An uncancelled denominator stays on the denominator side.
    let t4 = Type::Ratio(Box::new(named("Aa")), Box::new(named("Cc")));
    assert_eq!(
        t4.simplify_ratio(),
        Type::Ratio(Box::new(named("Aa")), Box::new(named("Cc")))
    );
}

#[test]
fn project_ratio_distributes() {
    // Aa/(Bb/Cc) projects to numerator [Aa, Cc], denominator [Bb].
    let t = Type::Ratio(
        Box::new(named("Aa")),
        Box::new(Type::Ratio(Box::new(named("Bb")), Box::new(named("Cc")))),
    );
    let (num, den) = t.project_ratio();
    assert_eq!(num, vec![named("Aa"), named("Cc")]);
    assert_eq!(den, vec![named("Bb")]);
}

#[test]
fn mask_erases_structure() {
    // A type-variable name masks to Any; a concrete name keeps its head
    // and masks its parameters.
    let v = Type::Named("XY".to_string(), vec![]);
    assert_eq!(v.mask(), Type::Any);
    let t = Type::Named("Pair".to_string(), vec![named("Aa"), named("Bb")]);
    assert_eq!(
        t.mask(),
        Type::Named("Pair".to_string(), vec![Type::Any, Type::Any])
    );
}

#[test]
fn vars_collects_names_in_order() {
    let t = Type::Arrow(
        Box::new(Type::Named("Pair".to_string(), vec![named("Aa")])),
        Box::new(named("Bb")),
    );
    assert_eq!(
        t.vars(),
        vec!["Pair".to_string(), "Aa".to_string(), "Bb".to_string()]
    );
}

#[test]
fn domain_and_range_distribute_over_conjunctions() {
    let a1 = Type::Arrow(Box::new(named("Aa")), Box::new(named("Bb")));
    let a2 = Type::Arrow(Box::new(named("Cc")), Box::new(named("Dd")));
    let both = Type::And(vec![a1.clone(), a2.clone()]);
    assert_eq!(a1.domain(), named("Aa"));
    assert_eq!(a1.range(), named("Bb"));
    assert_eq!(both.domain(), Type::And(vec![named("Aa"), named("Cc")]));
    assert_eq!(both.range(), Type::And(vec![named("Bb"), named("Dd")]));
    // On a non-arrow shape both are the bottom type.
    assert_eq!(named("Aa").domain(), Type::And(vec![]));
    assert!(named("Aa").range().is_bottom());
}

#[test]
fn substitute_replaces_outermost_occurrences() {
    let mut subs = TypeMap::new();
    subs.insert(named("TT"), named("Aa"));
    let t = Type::Tuple(vec![named("TT"), named("Bb")]);
    assert_eq!(t.substitute(&subs), Type::Tuple(vec![named("Aa"), named("Bb")]));
}

#[test]
fn remove_replaces_with_bottom_and_renormalizes() {
    // Removing Bb from {Aa + Bb} leaves the bottom member, which
    // renormalization splices away, collapsing to Aa.
    let t = Type::And(vec![named("Aa"), named("Bb")]);
    let r = t.remove(&named("Bb"));
    assert_eq!(r, named("Aa"));
    // Removing the whole type yields bottom.
    assert!(named("Aa").remove(&named("Aa")).is_bottom());
}

#[test]
fn mgu_rejects_shape_mismatches() {
    // A tuple never unifies with a product of the same arity.
    let tt = Type::Tuple(vec![named("Aa"), named("Bb")]);
    let tp = Type::Product(vec![named("Aa"), named("Bb")]);
    assert!(tt.most_general_unifier(&tp).is_bottom());
    // Two names that differ never unify.
    assert!(named("Aa").most_general_unifier(&named("Bb")).is_bottom());
    // The same name at different arities never unifies, even for an
    // all-uppercase name: the variable match covers atoms only.
    let va0 = Type::Named("AA".to_string(), vec![]);
    let va1 = Type::Named("AA".to_string(), vec![named("Bb")]);
    assert!(va1.most_general_unifier(&va0).is_bottom());
    assert!(va0.most_general_unifier(&va1).is_bottom());
    // At equal arity the parameters unify pairwise.
    let p1 = Type::Named("AA".to_string(), vec![named("Bb")]);
    assert_eq!(p1.most_general_unifier(&p1), p1);
    // Arrows with different domains never unify.
    let a1 = Type::Arrow(Box::new(named("Aa")), Box::new(named("Cc")));
    let a2 = Type::Arrow(Box::new(named("Bb")), Box::new(named("Cc")));
    assert!(a1.most_general_unifier(&a2).is_bottom());
}

#[test]
fn narrow_keeps_supporting_conjuncts() {
    let mut kinds = KindMap::new();
    let arith = Kind::Named("Arithmetic".to_string(), vec![]);
    kinds.insert(named("Integer"), arith.clone());
    let t = Type::And(vec![named("Integer"), named("Text")]);
    // The conjunction's own kind is the conjunction of member kinds, so
    // it has Arithmetic, and narrowing keeps the supporting member.
    assert_eq!(t.narrow(&kinds, &arith), named("Integer"));
    // A type without the capability narrows to bottom.
    assert!(named("Text").narrow(&kinds, &arith).is_bottom());
}

#[test]
fn print_renders_types() {
    let kinds = KindMap::new();
    let t = Type::Arrow(
        Box::new(Type::Tuple(vec![named("Aa"), named("Bb")])),
        Box::new(Type::Ratio(Box::new(named("Cc")), Box::new(named("Dd")))),
    );
    assert_eq!(t.print(&kinds), "((Aa,Bb))=>((Cc)/(Dd))");
    assert_eq!(Type::Any.print(&kinds), "?");
    assert_eq!(
        Type::Product(vec![named("Aa"), named("Bb")]).print(&kinds),
        "(Aa*Bb)"
    );
    let mut kinds2 = KindMap::new();
    kinds2.insert(named("Aa"), lsts::kind::Kind::Named("Term".to_string(), vec![]));
    assert_eq!(named("Aa").print(&kinds2), "Aa::Term");
}
