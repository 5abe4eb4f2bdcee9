use vstd::prelude::*;
use crate::ast::Expr;
use crate::code::{CodeView, InstrView, entry_returns, eval};
use crate::compiler::{
    CompError, Model, def_keyword, entry_declared, plus_keyword, spec_build, spec_compile, spec_expr,
    spec_call, spec_form, spec_prefix, with_value,
};

verus! {

/// A program made of one integer literal compiles, and its entry point
/// returns that integer.
pub proof fn law_literal_program(p: Seq<Expr>, n: i32)
    requires
        p == seq![Expr::IntLiteral(n)],
    ensures
        spec_compile(p) matches Ok(c) && entry_returns(c, n as int),
{
    assert(spec_prefix(p, 0) == Ok::<(Model, Option<usize>), CompError>((entry_declared(), None)));
    let c = spec_compile(p)->Ok_0;
    assert(c.values[0] == InstrView::Int(n));
    assert(eval(c, 0, Seq::empty(), 1) == Some(n as int));
}

/// A program of the single form `(+ a b)` compiles, and when the sum fits in
/// 32 bits its entry point returns `a + b`.
pub proof fn law_sum_program(p: Seq<Expr>, items: Vec<Expr>, plus: String, a: i32, b: i32)
    requires
        p == seq![Expr::List(items)],
        plus@ == plus_keyword(),
        items@ == seq![Expr::Symbol(plus), Expr::IntLiteral(a), Expr::IntLiteral(b)],
        i32::MIN <= a + b <= i32::MAX,
    ensures
        spec_compile(p) matches Ok(c) && entry_returns(c, a + b),
{
    let m0 = entry_declared();
    assert(spec_prefix(p, 0) == Ok::<(Model, Option<usize>), CompError>((m0, None)));
    assert(plus_keyword() != def_keyword()) by {
        assert(plus_keyword().len() != def_keyword().len());
    }
    assert(items[0] == Expr::Symbol(plus));
    assert(items[1] == Expr::IntLiteral(a));
    assert(items[2] == Expr::IntLiteral(b));
    let m1 = with_value(m0, InstrView::Int(a));
    let m2 = with_value(m1, InstrView::Int(b));
    let m3 = with_value(m2, InstrView::Add(0, 1));
    assert(spec_expr(m0, items[1]) == Ok::<(Model, usize), CompError>((m1, 0usize)));
    assert(spec_expr(m1, items[2]) == Ok::<(Model, usize), CompError>((m2, 1usize)));
    assert(spec_call(m0, items, plus@) == Ok::<(Model, usize), CompError>((m3, 2usize)));
    assert(spec_form(m0, items) == Ok::<(Model, usize), CompError>((m3, 2usize)));
    assert(spec_expr(m0, p[0]) == Ok::<(Model, usize), CompError>((m3, 2usize)));
    let c = spec_compile(p)->Ok_0;
    assert(c.values[0] == InstrView::Int(a));
    assert(c.values[1] == InstrView::Int(b));
    assert(c.values[2] == InstrView::Add(0, 1));
    assert(c.functions[0].ret == Some(2usize));
    assert(eval(c, 0, Seq::empty(), 1) == Some(a as int));
    assert(eval(c, 1, Seq::empty(), 1) == Some(b as int));
    assert(eval(c, 2, Seq::empty(), 2) == Some(a + b));
}

/// An empty program compiles, and its entry point returns 0.
pub proof fn law_empty_program(p: Seq<Expr>)
    requires
        p.len() == 0,
    ensures
        spec_compile(p) matches Ok(c) && entry_returns(c, 0),
{
    let c = spec_compile(p)->Ok_0;
    assert(c.values[0] == InstrView::Int(0));
    assert(eval(c, 0, Seq::empty(), 1) == Some(0int));
}

/// Compilation is a function of the program alone: two sessions that build
/// the same program produce the same code, hence entry points that return
/// the same values.
pub proof fn law_sessions_agree(p: Seq<Expr>, q: Seq<Expr>)
    requires
        p == q,
    ensures
        spec_compile(p) == spec_compile(q),
        spec_compile(p) matches Ok(c) ==> spec_compile(q) matches Ok(d) && forall|n: int|
            entry_returns(c, n) <==> entry_returns(d, n),
{
}

} // verus!
