use lsts::constant::Constant;
use lsts::kind::Kind;
use lsts::maps::KindMap;
use lsts::scope::Scope;
use lsts::term::Term;
use lsts::tlc::TLC;
use lsts::token::Span;
use lsts::typ::Type;

fn named(n: &str) -> Type {
    Type::Named(n.to_string(), vec![])
}

fn simple(n: &str) -> Kind {
    Kind::Named(n.to_string(), vec![])
}

#[test]
fn kind_and_normalizes() {
    // Nils are dropped, duplicates merged, and a singleton collapses.
    let a = simple("Arithmetic");
    let t = simple("Term");
    assert_eq!(Kind::and(vec![]), Kind::Nil);
    assert_eq!(Kind::and(vec![Kind::Nil, a.clone()]), a.clone());
    assert_eq!(
        Kind::and(vec![t.clone(), a.clone(), a.clone(), Kind::Nil]),
        Kind::And(vec![a.clone(), t.clone()])
    );
    // Nested conjunctions are flattened: the result never contains
    // another And.
    let nested = Kind::And(vec![a.clone(), t.clone()]);
    let m = simple("Metric");
    assert_eq!(
        Kind::and(vec![nested.clone(), m.clone()]),
        Kind::And(vec![a.clone(), m.clone(), t.clone()])
    );
    assert_eq!(Kind::and(vec![Kind::And(vec![a.clone()])]), a.clone());
}

#[test]
fn kind_containment() {
    let a = simple("Arithmetic");
    let t = simple("Term");
    let both = Kind::and(vec![a.clone(), t.clone()]);
    // Containment is reflexive and Nil is implied by everything.
    assert!(a.has(&a));
    assert!(both.has(&both));
    assert!(a.has(&Kind::Nil));
    assert!(Kind::Nil.has(&Kind::Nil));
    // A conjunction has each of its members, but not the reverse.
    assert!(both.has(&a));
    assert!(both.has(&t));
    assert!(!a.has(&both));
    assert!(!a.has(&t));
}

#[test]
fn kind_flatten_and_first() {
    let a = simple("Arithmetic");
    let t = simple("Term");
    let both = Kind::and(vec![t.clone(), a.clone()]);
    assert_eq!(Kind::Nil.flatten(), vec![]);
    assert_eq!(a.flatten(), vec![a.clone()]);
    assert_eq!(both.flatten(), vec![a.clone(), t.clone()]);
    assert_eq!(both.first(), a.clone());
    assert_eq!(a.first(), a.clone());
}

#[test]
fn kind_as_type_images() {
    let k = Kind::Named("Unit".to_string(), vec![simple("Metric")]);
    assert_eq!(
        k.as_type(),
        Type::Named("Unit".to_string(), vec![named("Metric")])
    );
    assert_eq!(Kind::Nil.as_type(), Type::Tuple(vec![]));
    let both = Kind::And(vec![simple("Aa"), simple("Bb")]);
    assert_eq!(both.as_type(), Type::And(vec![named("Aa"), named("Bb")]));
}

#[test]
fn constant_parse_round_trip() {
    let tlc = TLC::new();
    // The keyword literals.
    assert_eq!(Constant::parse(&tlc, "True").unwrap(), Constant::Boolean(true));
    assert_eq!(Constant::parse(&tlc, "False").unwrap(), Constant::Boolean(false));
    assert_eq!(Constant::parse(&tlc, "NaN").unwrap(), Constant::NaN);
    // Integer text, signed and unsigned.
    assert_eq!(Constant::parse(&tlc, "321").unwrap(), Constant::Integer(321));
    assert_eq!(Constant::parse(&tlc, "-17").unwrap(), Constant::Integer(-17));
    assert_eq!(Constant::parse(&tlc, "+8").unwrap(), Constant::Integer(8));
    // Arbitrary symbol text is an opaque operator token.
    assert_eq!(
        Constant::parse(&tlc, ".flatmap").unwrap(),
        Constant::Op(".flatmap".to_string())
    );
    assert_eq!(
        Constant::parse(&tlc, "123abc").unwrap(),
        Constant::Op("123abc".to_string())
    );
    // Out-of-range integer text stays an operator token.
    assert_eq!(
        Constant::parse(&tlc, "99999999999999999999").unwrap(),
        Constant::Op("99999999999999999999".to_string())
    );
    assert_eq!(
        Constant::parse(&tlc, "-9223372036854775808").unwrap(),
        Constant::Integer(i64::MIN)
    );
    // Rendering reproduces the canonical spelling, and parsing reads
    // it back.
    assert_eq!(Constant::Boolean(true).print(), "True");
    assert_eq!(Constant::Boolean(false).print(), "False");
    assert_eq!(Constant::NaN.print(), "NaN");
    assert_eq!(Constant::Integer(-42).print(), "-42");
    assert_eq!(Constant::Integer(0).print(), "0");
    assert_eq!(Constant::Op("++".to_string()).print(), "++");
    assert_eq!(
        Constant::Tuple(vec![Constant::Integer(1), Constant::Boolean(false)]).print(),
        "(1,False)"
    );
    for c in [
        Constant::NaN,
        Constant::Boolean(true),
        Constant::Boolean(false),
        Constant::Integer(12345),
        Constant::Integer(-6),
    ] {
        assert_eq!(Constant::parse(&tlc, c.print().as_str()).unwrap(), c);
    }
}

#[test]
fn implication_solves_type_variables() {
    // A variable on either side of the implication is bound to the
    // concrete type.
    let v = named("XX");
    let c = named("Integer");
    assert_eq!(v.implication_unifier(&c), c);
    assert_eq!(c.implication_unifier(&v), c);
    // Anything implies the wildcard and keeps its own shape.
    assert_eq!(c.implication_unifier(&Type::Any), c);
}

#[test]
fn implication_arrow_contravariance() {
    // Implying (DD)=>(Integer) against (Text)=>(RR) binds the source's
    // domain variable to the target's domain.
    let source = Type::Arrow(Box::new(named("DD")), Box::new(named("Integer")));
    let target = Type::Arrow(Box::new(named("Text")), Box::new(named("RR")));
    assert_eq!(
        source.implication_unifier(&target),
        Type::Arrow(Box::new(named("Text")), Box::new(named("Integer")))
    );
    // Conflicting bindings of one variable collapse to bottom.
    let twice = Type::Tuple(vec![named("XX"), named("XX")]);
    let conflicting = Type::Tuple(vec![named("Integer"), named("Text")]);
    assert!(twice.implication_unifier(&conflicting).is_bottom());
}

#[test]
fn scope_lookup_prefers_the_nearest_compatible_binding() {
    let mut tlc = TLC::new();
    let outer_term = tlc.push_term(
        Term::Value("1".to_string()),
        named("Integer"),
        Kind::Nil,
        Span::none(),
    );
    let inner_term = tlc.push_term(
        Term::Value("2".to_string()),
        named("Integer"),
        Kind::Nil,
        Span::none(),
    );
    let outer = tlc.push_scope(Scope {
        parent: None,
        children: vec![(
            "x".to_string(),
            KindMap::new(),
            named("Integer"),
            Some(outer_term),
        )],
    });
    let inner = tlc.push_scope(Scope {
        parent: Some(outer),
        children: vec![(
            "x".to_string(),
            KindMap::new(),
            named("Integer"),
            Some(inner_term),
        )],
    });
    // The innermost compatible binding wins.
    assert_eq!(
        Scope::lookup_term(&tlc, inner, "x", &named("Integer")),
        Some(inner_term)
    );
    // A name bound only in the outer scope is found by walking parents.
    assert_eq!(
        Scope::lookup_term(&tlc, inner, "x", &named("Integer")),
        Some(inner_term)
    );
    let empty_inner = tlc.push_scope(Scope { parent: Some(outer), children: Vec::new() });
    assert_eq!(
        Scope::lookup_term(&tlc, empty_inner, "x", &named("Integer")),
        Some(outer_term)
    );
    // An incompatible required type is a resolution failure.
    assert_eq!(Scope::lookup_term(&tlc, inner, "x", &named("Text")), None);
    assert_eq!(Scope::lookup_term(&tlc, inner, "y", &named("Integer")), None);
}

#[test]
fn lookup_disambiguates_overloads_by_type() {
    // Two bindings of one name at different types: lookup picks the
    // compatible one.
    let mut tlc = TLC::new();
    let int_term = tlc.push_term(
        Term::Value("1".to_string()),
        named("Integer"),
        Kind::Nil,
        Span::none(),
    );
    let text_term = tlc.push_term(
        Term::Value("a".to_string()),
        named("Text"),
        Kind::Nil,
        Span::none(),
    );
    let sc = tlc.push_scope(Scope {
        parent: None,
        children: vec![
            (
                "x".to_string(),
                KindMap::new(),
                named("Integer"),
                Some(int_term),
            ),
            (
                "x".to_string(),
                KindMap::new(),
                named("Text"),
                Some(text_term),
            ),
        ],
    });
    assert_eq!(
        Scope::lookup_term(&tlc, sc, "x", &named("Integer")),
        Some(int_term)
    );
    assert_eq!(
        Scope::lookup_term(&tlc, sc, "x", &named("Text")),
        Some(text_term)
    );
}

#[test]
fn extend_implied_conjoins_registered_rules() {
    // With `Even` implying `Integer`, extending `Even` conjoins both.
    let mut tlc = TLC::new();
    tlc.push_rule("Even".to_string(), named("Integer"));
    let e = tlc.extend_implied(&named("Even"));
    assert_eq!(e, Type::And(vec![named("Even"), named("Integer")]));
    // A type without the nominal name is only normalized.
    let t = tlc.extend_implied(&named("Text"));
    assert_eq!(t, named("Text"));
    // `implies` validates subtyping through the registered rules.
    let kinds = KindMap::new();
    let r = Type::implies(&tlc, &kinds, &named("Even"), &named("Integer"));
    assert!(!r.is_bottom());
    let r2 = Type::implies(&tlc, &kinds, &named("Text"), &named("Integer"));
    assert!(r2.is_bottom());
}

#[test]
fn scope_of_lhs_binds_patterns() {
    let mut tlc = TLC::new();
    let root = tlc.push_scope(Scope { parent: None, children: Vec::new() });
    // A bare identifier pattern binds the name at the term's type.
    let pat = tlc.push_term(
        Term::Ident("p".to_string()),
        named("Integer"),
        Kind::Nil,
        Span::none(),
    );
    let sid = Term::scope_of_lhs(&mut tlc, Some(root), pat).unwrap();
    assert_eq!(
        Scope::lookup_term(&tlc, sid, "p", &named("Integer")),
        Some(pat)
    );
    // An ascription rewrites the pattern's recorded type first.
    let pat2 = tlc.push_term(
        Term::Ident("q".to_string()),
        Type::Any,
        Kind::Nil,
        Span::none(),
    );
    let asc = tlc.push_term(
        Term::Ascript(pat2, named("Text")),
        Type::Any,
        Kind::Nil,
        Span::none(),
    );
    let sid2 = Term::scope_of_lhs(&mut tlc, Some(root), asc).unwrap();
    assert_eq!(
        Scope::lookup_term(&tlc, sid2, "q", &named("Text")),
        Some(pat2)
    );
    // A tuple pattern is an unsupported construct at this layer.
    let e1 = tlc.push_term(
        Term::Ident("a".to_string()),
        Type::Any,
        Kind::Nil,
        Span::none(),
    );
    let tup = tlc.push_term(
        Term::Tuple(vec![e1]),
        Type::Any,
        Kind::Nil,
        Span::none(),
    );
    let err = Term::scope_of_lhs(&mut tlc, Some(root), tup).unwrap_err();
    assert_eq!(err.kind, "Unsupported Construct");
}
