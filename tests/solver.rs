use yarte_codegen::solver::{Ref, SolveError, Solver};

fn sorted(mut v: Vec<u32>) -> Vec<u32> {
    v.sort();
    v
}

#[test]
fn dependencies_are_transitively_closed() {
    let mut s = Solver::new();
    let w = s.new_var(None).unwrap();
    let x = s.new_var(None).unwrap();
    let y = s.new_var(None).unwrap();
    let b = s.register(&vec![Ref::Var(w)]).unwrap();
    let c = s.register(&vec![Ref::Expr(b), Ref::Var(x)]).unwrap();
    let a = s.register(&vec![Ref::Expr(c), Ref::Var(y), Ref::Var(w)]).unwrap();
    assert_eq!(sorted(s.expr_inner_var(b).clone()), vec![w]);
    assert_eq!(sorted(s.expr_inner_var(c).clone()), vec![w, x]);
    assert_eq!(sorted(s.expr_inner_var(a).clone()), vec![w, x, y]);
    assert_eq!(s.dependents(w), vec![b, c, a]);
    assert_eq!(s.dependents(y), vec![a]);
}

#[test]
fn unresolved_references_fail() {
    let mut s = Solver::new();
    let v = s.new_var(None).unwrap();
    assert_eq!(s.register(&vec![Ref::Var(v), Ref::Var(5)]), Err(SolveError::UnresolvedVar(5)));
    assert_eq!(s.register(&vec![Ref::Expr(0)]), Err(SolveError::UnresolvedExpr(0)));
    assert_eq!(s.new_var(Some(9)), Err(SolveError::UnresolvedVar(9)));
    assert_eq!(s.register(&vec![Ref::Var(v)]), Ok(0));
}

#[test]
fn derived_variables_trace_to_their_root() {
    let mut s = Solver::new();
    let item = s.new_var(None).unwrap();
    let field = s.new_var(Some(item)).unwrap();
    let sub = s.new_var(Some(field)).unwrap();
    assert_eq!(s.var_base(item), item);
    assert_eq!(s.var_base(field), item);
    assert_eq!(s.var_base(sub), item);
}
