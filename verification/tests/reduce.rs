use lsts::constant::Constant;
use lsts::ir::{ExprOp, FunctionDefinition};
use lsts::kind::Kind;
use lsts::maps::KindMap;
use lsts::scope::{Scope, ScopeId};
use lsts::term::{LetTerm, Term, TermId};
use lsts::tlc::TLC;
use lsts::token::Span;
use lsts::typ::Type;

fn integer_ty() -> Type {
    Type::Named("Integer".to_string(), vec![])
}

fn boolean_ty() -> Type {
    Type::Named("Boolean".to_string(), vec![])
}

fn value(tlc: &mut TLC, v: &str, t: Type) -> TermId {
    tlc.push_term(Term::Value(v.to_string()), t, Kind::Nil, Span::none())
}

#[test]
fn match_reduces_to_the_matching_arm() {
    // A boolean scrutinee folds to the arm whose literal equals it,
    // whatever the order of the arms.
    for flipped in [false, true] {
        let mut tlc = TLC::new();
        let root = tlc.push_scope(Scope { parent: None, children: Vec::new() });
        let scrut = value(&mut tlc, "True", boolean_ty());
        let lhs_t = value(&mut tlc, "True", boolean_ty());
        let rhs_t = value(&mut tlc, "1", integer_ty());
        let lhs_f = value(&mut tlc, "False", boolean_ty());
        let rhs_f = value(&mut tlc, "2", integer_ty());
        let s1 = tlc.push_scope(Scope { parent: Some(root), children: Vec::new() });
        let s2 = tlc.push_scope(Scope { parent: Some(root), children: Vec::new() });
        let arms = if flipped {
            vec![(s1, lhs_f, rhs_f), (s2, lhs_t, rhs_t)]
        } else {
            vec![(s1, lhs_t, rhs_t), (s2, lhs_f, rhs_f)]
        };
        let m = tlc.push_term(
            Term::Match(scrut, arms),
            integer_ty(),
            Kind::Nil,
            Span::none(),
        );
        assert_eq!(
            Term::reduce(&tlc, &Some(root), m, 32).unwrap(),
            Constant::Integer(1)
        );
    }
}

#[test]
fn match_without_a_matching_arm_is_non_exhaustive() {
    let mut tlc = TLC::new();
    let root = tlc.push_scope(Scope { parent: None, children: Vec::new() });
    let scrut = value(&mut tlc, "True", boolean_ty());
    let lhs = value(&mut tlc, "False", boolean_ty());
    let rhs = value(&mut tlc, "2", integer_ty());
    let s1 = tlc.push_scope(Scope { parent: Some(root), children: Vec::new() });
    let m = tlc.push_term(
        Term::Match(scrut, vec![(s1, lhs, rhs)]),
        integer_ty(),
        Kind::Nil,
        Span::none(),
    );
    let e = Term::reduce(&tlc, &Some(root), m, 32).unwrap_err();
    assert_eq!(e.kind, "Non-Exhaustive Pattern");
}

#[test]
fn wildcard_and_binding_arms_match_anything() {
    // A bare identifier arm binds the scrutinee and the arm body can
    // read it back through the environment.
    let mut tlc = TLC::new();
    let root = tlc.push_scope(Scope { parent: None, children: Vec::new() });
    let scrut = value(&mut tlc, "7", integer_ty());
    let lhs = tlc.push_term(
        Term::Ident("x".to_string()),
        integer_ty(),
        Kind::Nil,
        Span::none(),
    );
    let rhs = tlc.push_term(
        Term::Ident("x".to_string()),
        integer_ty(),
        Kind::Nil,
        Span::none(),
    );
    let s1 = tlc.push_scope(Scope { parent: Some(root), children: Vec::new() });
    let m = tlc.push_term(
        Term::Match(scrut, vec![(s1, lhs, rhs)]),
        integer_ty(),
        Kind::Nil,
        Span::none(),
    );
    assert_eq!(
        Term::reduce(&tlc, &Some(root), m, 32).unwrap(),
        Constant::Integer(7)
    );
}

#[test]
fn reduce_folds_an_application_through_its_binding() {
    // let id(x: Integer): Integer = x; id((5)) reduces to 5.
    let mut tlc = TLC::new();
    let root = tlc.push_scope(Scope { parent: None, children: Vec::new() });
    let body = tlc.push_term(
        Term::Ident("x".to_string()),
        integer_ty(),
        Kind::Nil,
        Span::none(),
    );
    let params = vec![vec![(
        Some("x".to_string()),
        Some(integer_ty()),
        Kind::Nil,
    )]];
    let fun_scope = tlc.push_scope(Scope { parent: Some(root), children: Vec::new() });
    let let_id = tlc.push_term(
        Term::Let(LetTerm {
            is_extern: false,
            scope: fun_scope,
            name: "id".to_string(),
            parameters: params,
            body: Some(body),
            rtype: integer_ty(),
            rkind: Kind::Nil,
        }),
        Type::Arrow(Box::new(integer_ty()), Box::new(integer_ty())),
        Kind::Nil,
        Span::none(),
    );
    // Bind the function's name in the root scope so the callee resolves.
    let call_scope = tlc.push_scope(Scope {
        parent: Some(root),
        children: vec![(
            "id".to_string(),
            KindMap::new(),
            Type::Arrow(Box::new(integer_ty()), Box::new(integer_ty())),
            Some(let_id),
        )],
    });
    let g = tlc.push_term(
        Term::Ident("id".to_string()),
        Type::Arrow(Box::new(integer_ty()), Box::new(integer_ty())),
        Kind::Nil,
        Span::none(),
    );
    let five = value(&mut tlc, "5", integer_ty());
    let app = tlc.push_term(Term::App(g, five), integer_ty(), Kind::Nil, Span::none());
    assert_eq!(
        Term::reduce(&tlc, &Some(call_scope), app, 32).unwrap(),
        Constant::Integer(5)
    );
}

#[test]
fn reduce_reports_unsupported_and_not_reducible_shapes() {
    let mut tlc = TLC::new();
    let root = tlc.push_scope(Scope { parent: None, children: Vec::new() });
    // A free identifier is not yet reducible.
    let free = tlc.push_term(
        Term::Ident("y".to_string()),
        integer_ty(),
        Kind::Nil,
        Span::none(),
    );
    let e = Term::reduce(&tlc, &Some(root), free, 8).unwrap_err();
    assert_eq!(e.kind, "Not Yet Reducible");
    // A constructor with fields is an unsupported construct.
    let field = value(&mut tlc, "1", integer_ty());
    let ctor = tlc.push_term(
        Term::Constructor("Some".to_string(), vec![("value".to_string(), field)]),
        Type::Any,
        Kind::Nil,
        Span::none(),
    );
    let e2 = Term::reduce(&tlc, &Some(root), ctor, 8).unwrap_err();
    assert_eq!(e2.kind, "Unsupported Construct");
    // A failing term shape is not reducible.
    let fail = tlc.push_term(Term::Fail, Type::Any, Kind::Nil, Span::none());
    let e3 = Term::reduce(&tlc, &Some(root), fail, 8).unwrap_err();
    assert_eq!(e3.kind, "Not Yet Reducible");
}

#[test]
fn compile_function_mangles_and_memoizes() {
    let mut tlc = TLC::new();
    let root = tlc.push_scope(Scope { parent: None, children: Vec::new() });
    let body = tlc.push_term(
        Term::Ident("x".to_string()),
        integer_ty(),
        Kind::Nil,
        Span::none(),
    );
    let x_binding = tlc.push_term(
        Term::Ident("x".to_string()),
        integer_ty(),
        Kind::Nil,
        Span::none(),
    );
    let fun_scope = tlc.push_scope(Scope {
        parent: Some(root),
        children: vec![(
            "x".to_string(),
            KindMap::new(),
            integer_ty(),
            Some(x_binding),
        )],
    });
    let let_id = tlc.push_term(
        Term::Let(LetTerm {
            is_extern: false,
            scope: fun_scope,
            name: "id".to_string(),
            parameters: vec![vec![(
                Some("x".to_string()),
                Some(integer_ty()),
                Kind::Nil,
            )]],
            body: Some(body),
            rtype: integer_ty(),
            rkind: Kind::Nil,
        }),
        Type::Arrow(Box::new(integer_ty()), Box::new(integer_ty())),
        Kind::Nil,
        Span::none(),
    );
    let mut funcs: Vec<FunctionDefinition> = Vec::new();
    let name = Term::compile_function(&tlc, &Some(root), &mut funcs, let_id, 8).unwrap();
    assert_eq!(name, "id:(Integer)->Integer");
    assert_eq!(funcs.len(), 1);
    assert_eq!(funcs[0].name, "id:(Integer)->Integer");
    assert_eq!(funcs[0].args, vec![(x_binding.id, "Integer".to_string())]);
    // The body lowers to the bound variable.
    assert_eq!(funcs[0].body.len(), 1);
    match &funcs[0].body[0].op {
        ExprOp::Variable(v) => assert_eq!(*v, x_binding.id),
        other => panic!("unexpected lowering: {:?}", other),
    }
    // A second compilation is memoized: nothing new is defined.
    let name2 = Term::compile_function(&tlc, &Some(root), &mut funcs, let_id, 8).unwrap();
    assert_eq!(name2, name);
    assert_eq!(funcs.len(), 1);
}

#[test]
fn compile_expr_lowers_values_and_matches() {
    let mut tlc = TLC::new();
    let root = tlc.push_scope(Scope { parent: None, children: Vec::new() });
    let scrut = value(&mut tlc, "True", boolean_ty());
    let lhs = value(&mut tlc, "True", boolean_ty());
    let rhs = value(&mut tlc, "1", integer_ty());
    let s1 = tlc.push_scope(Scope { parent: Some(root), children: Vec::new() });
    let m = tlc.push_term(
        Term::Match(scrut, vec![(s1, lhs, rhs)]),
        integer_ty(),
        Kind::Nil,
        Span::none(),
    );
    let mut funcs: Vec<FunctionDefinition> = Vec::new();
    let mut preamble = Vec::new();
    let e = Term::compile_expr(&tlc, &Some(root), &mut funcs, &mut preamble, m, 8).unwrap();
    assert_eq!(e.dtype, "Integer");
    match e.op {
        ExprOp::PatternMatch(scrutinee, arms) => {
            match scrutinee.op {
                ExprOp::Literal(v) => assert_eq!(v, "True"),
                other => panic!("unexpected scrutinee lowering: {:?}", other),
            }
            assert_eq!(arms.len(), 1);
        },
        other => panic!("unexpected lowering: {:?}", other),
    }
}


#[test]
fn reduce_runs_out_of_fuel_on_recursion() {
    // let loop_(x: Integer): Integer = loop_((x)); folding the call can
    // never finish and stops at the recursion limit.
    let mut tlc = TLC::new();
    let root = tlc.push_scope(Scope { parent: None, children: Vec::new() });
    let inner_g = tlc.push_term(
        Term::Ident("loop_".to_string()),
        Type::Arrow(Box::new(integer_ty()), Box::new(integer_ty())),
        Kind::Nil,
        Span::none(),
    );
    let inner_x = tlc.push_term(
        Term::Ident("x".to_string()),
        integer_ty(),
        Kind::Nil,
        Span::none(),
    );
    let body = tlc.push_term(
        Term::App(inner_g, inner_x),
        integer_ty(),
        Kind::Nil,
        Span::none(),
    );
    // The binding scope is appended right after the let term, so its
    // handle is known in advance and the function's own scope sees the
    // recursive binding.
    let fun_scope_id = ScopeId { id: 1 };
    let let_loop = tlc.push_term(
        Term::Let(LetTerm {
            is_extern: false,
            scope: fun_scope_id,
            name: "loop_".to_string(),
            parameters: vec![vec![(
                Some("x".to_string()),
                Some(integer_ty()),
                Kind::Nil,
            )]],
            body: Some(body),
            rtype: integer_ty(),
            rkind: Kind::Nil,
        }),
        Type::Arrow(Box::new(integer_ty()), Box::new(integer_ty())),
        Kind::Nil,
        Span::none(),
    );
    let pushed = tlc.push_scope(Scope {
        parent: Some(root),
        children: vec![(
            "loop_".to_string(),
            KindMap::new(),
            Type::Arrow(Box::new(integer_ty()), Box::new(integer_ty())),
            Some(let_loop),
        )],
    });
    assert_eq!(pushed, fun_scope_id);
    let g = tlc.push_term(
        Term::Ident("loop_".to_string()),
        Type::Arrow(Box::new(integer_ty()), Box::new(integer_ty())),
        Kind::Nil,
        Span::none(),
    );
    let five = value(&mut tlc, "5", integer_ty());
    let app = tlc.push_term(Term::App(g, five), integer_ty(), Kind::Nil, Span::none());
    let e = Term::reduce(&tlc, &Some(fun_scope_id), app, 4).unwrap_err();
    assert_eq!(e.kind, "Recursion Limit");
}

#[test]
fn projection_out_of_bounds_is_an_internal_error() {
    let mut tlc = TLC::new();
    let root = tlc.push_scope(Scope { parent: None, children: Vec::new() });
    let one = value(&mut tlc, "1", integer_ty());
    let tup = tlc.push_term(
        Term::Tuple(vec![one]),
        Type::Tuple(vec![integer_ty()]),
        Kind::Nil,
        Span::none(),
    );
    let head = tlc.push_term(
        Term::Project(Constant::Integer(5)),
        Type::Any,
        Kind::Nil,
        Span::none(),
    );
    let app = tlc.push_term(Term::App(head, tup), integer_ty(), Kind::Nil, Span::none());
    let e = Term::reduce(&tlc, &Some(root), app, 8).unwrap_err();
    assert_eq!(e.kind, "Internal Error");
}
