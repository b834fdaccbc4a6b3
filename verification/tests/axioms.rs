use lsts::kind::Kind;
use lsts::term::{Term, TermId};
use lsts::tlc::TLC;
use lsts::token::Span;
use lsts::typ::Type;

fn integer_ty() -> Type {
    Type::Named("Integer".to_string(), vec![])
}

fn value(tlc: &mut TLC, v: &str) -> TermId {
    tlc.push_term(
        Term::Value(v.to_string()),
        integer_ty(),
        Kind::Nil,
        Span::none(),
    )
}

fn ident(tlc: &mut TLC, n: &str) -> TermId {
    tlc.push_term(Term::Ident(n.to_string()), Type::Any, Kind::Nil, Span::none())
}

/// Builds the term graph of `1 + 2 * 3` bottom-up.
fn one_plus_two_times_three(tlc: &mut TLC) -> TermId {
    let two = value(tlc, "2");
    let three = value(tlc, "3");
    let times = ident(tlc, "*");
    let times_args = tlc.push_term(
        Term::Tuple(vec![two, three]),
        Type::Tuple(vec![integer_ty(), integer_ty()]),
        Kind::Nil,
        Span::none(),
    );
    let product = tlc.push_term(Term::App(times, times_args), integer_ty(), Kind::Nil, Span::none());
    let one = value(tlc, "1");
    let plus = ident(tlc, "+");
    let plus_args = tlc.push_term(
        Term::Tuple(vec![one, product]),
        Type::Tuple(vec![integer_ty(), integer_ty()]),
        Kind::Nil,
        Span::none(),
    );
    tlc.push_term(Term::App(plus, plus_args), integer_ty(), Kind::Nil, Span::none())
}

#[test]
fn check_alpha_conversion() {
    // `1 + 2 * 3 == 1 + 2 * 3` holds reflexively: the two sides are
    // syntactically identical subexpressions.
    let mut tlc = TLC::new();
    let lhs = one_plus_two_times_three(&mut tlc);
    let rhs = one_plus_two_times_three(&mut tlc);
    assert!(Term::equals(&tlc, lhs, rhs));
    assert!(Term::equals(&tlc, lhs, lhs));

    // A structurally different expression is not alpha-adjacent.
    let four = value(&mut tlc, "4");
    let plus = ident(&mut tlc, "+");
    let args = tlc.push_term(
        Term::Tuple(vec![four, four]),
        Type::Tuple(vec![integer_ty(), integer_ty()]),
        Kind::Nil,
        Span::none(),
    );
    let other = tlc.push_term(Term::App(plus, args), integer_ty(), Kind::Nil, Span::none());
    assert!(!Term::equals(&tlc, lhs, other));
}
