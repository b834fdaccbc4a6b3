use lsts::constant::Constant;
use lsts::kind::Kind;
use lsts::scope::Scope;
use lsts::term::{Term, TermId};
use lsts::tlc::TLC;
use lsts::token::Span;
use lsts::typ::Type;

fn integer_ty() -> Type {
    Type::Named("Integer".to_string(), vec![])
}

/// The ascription type `Integer[n]`: a homogeneous tuple of `n` integers.
fn integer_brackets(n: usize) -> Type {
    let mut ts = Vec::new();
    for _ in 0..n {
        ts.push(integer_ty());
    }
    Type::Tuple(ts)
}

/// Builds the ascription `(v1,...,vk): Integer[n]` and returns its handle.
fn ascribed_tuple(tlc: &mut TLC, values: &[&str], n: usize) -> TermId {
    let mut ids = Vec::new();
    for v in values.iter() {
        ids.push(tlc.push_term(
            Term::Value(v.to_string()),
            integer_ty(),
            Kind::Nil,
            Span::none(),
        ));
    }
    let tupty = integer_brackets(values.len());
    let tup = tlc.push_term(Term::Tuple(ids), tupty.clone(), Kind::Nil, Span::none());
    tlc.push_term(
        Term::Ascript(tup, integer_brackets(n)),
        tupty,
        Kind::Nil,
        Span::none(),
    )
}

/// Builds the ascription `v: Integer[n]` of a bare (unparenthesized) value.
fn ascribed_value(tlc: &mut TLC, v: &str, n: usize) -> TermId {
    let val = tlc.push_term(
        Term::Value(v.to_string()),
        integer_ty(),
        Kind::Nil,
        Span::none(),
    );
    tlc.push_term(
        Term::Ascript(val, integer_brackets(n)),
        integer_ty(),
        Kind::Nil,
        Span::none(),
    )
}

/// Builds the projection `t.i`.
fn project(tlc: &mut TLC, t: TermId, i: i64) -> TermId {
    let head = tlc.push_term(
        Term::Project(Constant::Integer(i)),
        Type::Any,
        Kind::Nil,
        Span::none(),
    );
    tlc.push_term(Term::App(head, t), integer_ty(), Kind::Nil, Span::none())
}

#[test]
fn l1_homogenous_tuples() {
    let mut tlc = TLC::new();
    let alg = tlc.push_scope(Scope { parent: None, children: Vec::new() });

    // (): Integer[0];
    let empty: &[&str] = &[];
    let t = ascribed_tuple(&mut tlc, empty, 0);
    tlc.check(Some(alg), t).unwrap();

    // (1): Integer[]; a bare value against the empty bracket type.
    let t = ascribed_value(&mut tlc, "1", 0);
    tlc.check(Some(alg), t).unwrap_err();

    // (1): Integer[1];
    let t = ascribed_tuple(&mut tlc, &["1"], 1);
    tlc.check(Some(alg), t).unwrap();

    // (1,2): Integer[1]; the arity mismatch is a type error.
    let t = ascribed_tuple(&mut tlc, &["1", "2"], 1);
    let e = tlc.check(Some(alg), t).unwrap_err();
    assert_eq!(e.kind, "Type Error");

    // (1,2): Integer[2];
    let t = ascribed_tuple(&mut tlc, &["1", "2"], 2);
    tlc.check(Some(alg), t).unwrap();

    // (1,2,3): Integer[2];
    let t = ascribed_tuple(&mut tlc, &["1", "2", "3"], 2);
    tlc.check(Some(alg), t).unwrap_err();

    // (1,2,3): Integer[3];
    let t = ascribed_tuple(&mut tlc, &["1", "2", "3"], 3);
    tlc.check(Some(alg), t).unwrap();

    // ((1,2,3): Integer[3]).0 @reduce :[1];
    let t = ascribed_tuple(&mut tlc, &["1", "2", "3"], 3);
    let p = project(&mut tlc, t, 0);
    tlc.check(Some(alg), p).unwrap();
    assert_eq!(
        Term::reduce(&tlc, &Some(alg), p, 32).unwrap(),
        Constant::Integer(1)
    );

    // ((1,2,3): Integer[3]).1 @reduce :[2];
    let t = ascribed_tuple(&mut tlc, &["1", "2", "3"], 3);
    let p = project(&mut tlc, t, 1);
    tlc.check(Some(alg), p).unwrap();
    assert_eq!(
        Term::reduce(&tlc, &Some(alg), p, 32).unwrap(),
        Constant::Integer(2)
    );

    // ((1,2,3): Integer[3]).2 @reduce :[3];
    let t = ascribed_tuple(&mut tlc, &["1", "2", "3"], 3);
    let p = project(&mut tlc, t, 2);
    tlc.check(Some(alg), p).unwrap();
    assert_eq!(
        Term::reduce(&tlc, &Some(alg), p, 32).unwrap(),
        Constant::Integer(3)
    );
}
