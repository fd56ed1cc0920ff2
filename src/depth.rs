//! Stack-depth analysis: how many temporary slots an expression needs.
use vstd::prelude::*;
use crate::ast::{Binding, Expr, ExprV, binds_view, exprs_view, lemma_expr_view};

verus! {

/// The larger of two integers.
pub open spec fn max2(a: int, b: int) -> int {
    if a >= b {
        a
    } else {
        b
    }
}

/// `max(base, depth(es[i]) + step * i)` over the items of `es`.
pub open spec fn max_depth(es: Seq<ExprV>, step: int, base: int) -> int
    decreases es,
{
    if es.len() == 0 {
        base
    } else {
        max2(
            max_depth(es.drop_last(), step, base),
            depth_spec(es.last()) + step * (es.len() - 1),
        )
    }
}

/// `max(|bs|, depth(bs[i].rhs) + i)` over the bindings `bs`.
pub open spec fn bind_depth(bs: Seq<(Seq<char>, ExprV)>) -> int
    decreases bs,
{
    if bs.len() == 0 {
        0
    } else {
        max2(
            max2(bind_depth(bs.drop_last()), bs.len() as int),
            depth_spec(bs.last().1) + (bs.len() - 1),
        )
    }
}

/// An upper bound on the stack slots that evaluating an expression writes, counted from the
/// stack index at which it is evaluated.
pub open spec fn depth_spec(e: ExprV) -> int
    decreases e,
{
    match e {
        ExprV::Number(_) | ExprV::Boolean(_) | ExprV::Input | ExprV::Id(_) => 0,
        ExprV::Let(bs, body) => bind_depth(bs) + depth_spec(*body),
        ExprV::UnOp(_, e) => depth_spec(*e),
        ExprV::BinOp(_, l, r) => max2(depth_spec(*r), 1 + depth_spec(*l)),
        ExprV::Assign(_, e) => depth_spec(*e),
        ExprV::If(c, t, f) => max2(max2(depth_spec(*c), depth_spec(*t)), depth_spec(*f)),
        ExprV::Block(es) => max_depth(es, 0, 0),
        ExprV::Loop(e) => depth_spec(*e),
        ExprV::Break(e) => depth_spec(*e),
        ExprV::Call(_, args) => max_depth(args, 1, args.len() as int),
        ExprV::Print(e) => depth_spec(*e) + 2,
    }
}

} // verus!

verus! {

/// The most stack slots a frame may have: its size in bytes must fit a 32-bit displacement.
pub const MAX_SLOTS: u64 = 0x0fff_ffff;

/// `x`, or [`MAX_SLOTS`] where `x` is larger.
pub open spec fn cap(x: int) -> int {
    if x < MAX_SLOTS {
        x
    } else {
        MAX_SLOTS as int
    }
}

/// `cap(a + b)` for a capped `a`.
fn sat_add(a: u64, b: usize) -> (r: u64)
    requires
        a <= MAX_SLOTS,
    ensures
        r == cap(a + b),
{
    if b as u64 >= MAX_SLOTS - a {
        MAX_SLOTS
    } else {
        a + b as u64
    }
}

fn max_u64(a: u64, b: u64) -> (r: u64)
    ensures
        r == max2(a as int, b as int),
{
    if a >= b {
        a
    } else {
        b
    }
}

/// `cap(max_depth(es, step, base))`.
fn depth_max(es: &Vec<Expr>, step: usize, base: usize) -> (r: u64)
    requires
        step <= 1,
    ensures
        r == cap(max_depth(exprs_view(es@), step as int, base as int)),
    decreases es, 0nat,
{
    let ghost ev = exprs_view(es@);
    let mut d: u64 = sat_add(0, base);
    let mut i: usize = 0;
    proof {
        assert(ev.take(0) =~= Seq::<ExprV>::empty());
    }
    while i < es.len()
        invariant
            i <= es.len(),
            step <= 1,
            ev == exprs_view(es@),
            d == cap(max_depth(ev.take(i as int), step as int, base as int)),
        decreases es.len() - i,
    {
        let di = depth(&es[i]);
        let t = sat_add(di, if step == 0 { 0 } else { i });
        proof {
            assert(ev.take(i + 1).drop_last() =~= ev.take(i as int));
            assert(ev.take(i + 1).last() == es@[i as int]@);
        }
        d = max_u64(d, t);
        i += 1;
    }
    proof {
        assert(ev.take(i as int) =~= ev);
    }
    d
}

/// `cap(bind_depth(bs))`.
fn depth_binds(bs: &Vec<Binding>) -> (r: u64)
    ensures
        r == cap(bind_depth(binds_view(bs@))),
    decreases bs, 0nat,
{
    let ghost bv = binds_view(bs@);
    let mut d: u64 = 0;
    let mut i: usize = 0;
    proof {
        assert(bv.take(0) =~= Seq::<(Seq<char>, ExprV)>::empty());
    }
    while i < bs.len()
        invariant
            i <= bs.len(),
            bv == binds_view(bs@),
            d == cap(bind_depth(bv.take(i as int))),
        decreases bs.len() - i,
    {
        let di = depth(&bs[i].rhs);
        let t = sat_add(di, i);
        let n = sat_add(0, i + 1);
        proof {
            assert(bv.take(i + 1).drop_last() =~= bv.take(i as int));
            assert(bv.take(i + 1).last().1 == bs@[i as int].rhs@);
        }
        d = max_u64(max_u64(d, n), t);
        i += 1;
    }
    proof {
        assert(bv.take(i as int) =~= bv);
    }
    d
}

/// The slots an expression needs, up to [`MAX_SLOTS`]: `cap(depth_spec(e))`.
pub fn depth(e: &Expr) -> (r: u64)
    ensures
        r == cap(depth_spec(e@)),
    decreases e, 1nat,
{
    proof {
        lemma_expr_view(*e);
    }
    match e {
        Expr::Number(_) | Expr::Boolean(_) | Expr::Input | Expr::Id(_) => 0,
        Expr::Let(bs, body) => {
            let k = depth_binds(bs);
            let d = depth(body);
            sat_add(k, d as usize)
        },
        Expr::UnOp(_, x) => depth(x),
        Expr::BinOp(_, l, r) => {
            let dr = depth(r);
            let dl = depth(l);
            max_u64(dr, sat_add(dl, 1))
        },
        Expr::Assign(_, x) => depth(x),
        Expr::If(c, t, f) => max_u64(max_u64(depth(c), depth(t)), depth(f)),
        Expr::Block(es) => depth_max(es, 0, 0),
        Expr::Loop(x) => depth(x),
        Expr::Break(x) => depth(x),
        Expr::Call(_, args) => depth_max(args, 1, args.len()),
        Expr::Print(x) => sat_add(depth(x), 2),
    }
}

} // verus!

verus! {

/// `max_depth` bounds its base and each item's depth plus its offset.
pub proof fn lemma_max_depth_bounds(es: Seq<ExprV>, step: int, base: int)
    ensures
        max_depth(es, step, base) >= base,
        forall|i: int|
            0 <= i < es.len() ==> max_depth(es, step, base) >= depth_spec(#[trigger] es[i]) + step
                * i,
    decreases es.len(),
{
    if es.len() > 0 {
        lemma_max_depth_bounds(es.drop_last(), step, base);
        assert forall|i: int| 0 <= i < es.len() implies max_depth(es, step, base) >= depth_spec(
            #[trigger] es[i],
        ) + step * i by {
            if i < es.len() - 1 {
                assert(es.drop_last()[i] == es[i]);
            }
        }
    }
}

/// `bind_depth` bounds the number of bindings and each right-hand side's depth plus its index.
pub proof fn lemma_bind_depth_bounds(bs: Seq<(Seq<char>, ExprV)>)
    ensures
        bind_depth(bs) >= bs.len(),
        forall|i: int| 0 <= i < bs.len() ==> bind_depth(bs) >= depth_spec(#[trigger] bs[i].1) + i,
    decreases bs.len(),
{
    if bs.len() > 0 {
        lemma_bind_depth_bounds(bs.drop_last());
        assert forall|i: int| 0 <= i < bs.len() implies bind_depth(bs) >= depth_spec(
            #[trigger] bs[i].1,
        ) + i by {
            if i < bs.len() - 1 {
                assert(bs.drop_last()[i] == bs[i]);
            }
        }
    }
}

/// Depths are never negative.
pub proof fn lemma_depth_nonneg(e: ExprV)
    ensures
        depth_spec(e) >= 0,
    decreases e,
{
    match e {
        ExprV::Let(bs, body) => {
            lemma_bind_depth_bounds(bs);
            lemma_depth_nonneg(*body);
        },
        ExprV::UnOp(_, x) => lemma_depth_nonneg(*x),
        ExprV::BinOp(_, a, b) => {
            lemma_depth_nonneg(*a);
        },
        ExprV::Assign(_, x) => lemma_depth_nonneg(*x),
        ExprV::If(c, _, _) => lemma_depth_nonneg(*c),
        ExprV::Block(es) => lemma_max_depth_bounds(es, 0, 0),
        ExprV::Loop(x) => lemma_depth_nonneg(*x),
        ExprV::Break(x) => lemma_depth_nonneg(*x),
        ExprV::Call(_, args) => lemma_max_depth_bounds(args, 1, args.len() as int),
        ExprV::Print(x) => lemma_depth_nonneg(*x),
        _ => {},
    }
}

} // verus!
