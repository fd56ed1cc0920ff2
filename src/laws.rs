//! Properties of the generated code that follow from the lowering rules.
use vstd::prelude::*;
use crate::ast::{DefinitionV, ExprV, Op1, Op2, ProgramV};
use crate::codegen::{
    Frame, binop_code, call_code, def_arities, def_names, fn_table, frame_slots,
    lemma_no_bad_name, lower, lower_binds, lower_definition, lower_defs, lower_list,
    lower_program, moves_code, not_bool_code, not_overflow_code, param_offset, param_env,
    print_code, rax, slot, unop_code,
};
use crate::depth::{
    MAX_SLOTS, depth_spec, lemma_bind_depth_bounds, lemma_depth_nonneg, lemma_max_depth_bounds,
};
use crate::instr::{Instr, Label, Reg, Val, digit_text, digits_text, label_text};
use crate::parser::{
    first_dup, is_digit, is_function_name, is_generated_label, prefix_then_digits,
};

verus! {

/// The code of `add1` and `sub1` tests the operand's tag before the operation and the
/// overflow flag right after it.
pub proof fn lemma_unary_arithmetic_guarded(
    op: Op1,
    x: ExprV,
    si: int,
    env: Map<Seq<char>, i64>,
    brk: Option<u64>,
    tail: bool,
    fr: Frame,
    funcs: Map<Seq<char>, i64>,
    arities: Seq<u64>,
    l: int,
)
    requires
        op is Add1 || op is Sub1,
        lower(ExprV::UnOp(op, Box::new(x)), si, env, brk, tail, fr, funcs, arities, l) is Ok,
    ensures
        ({
            let code = lower(ExprV::UnOp(op, Box::new(x)), si, env, brk, tail, fr, funcs, arities, l)->Ok_0.0;
            let operand = lower(x, si, env, brk, false, fr, funcs, arities, l)->Ok_0.0;
            let arith = if op is Add1 {
                Instr::IAdd(rax(), Val::Const(2))
            } else {
                Instr::ISub(rax(), Val::Const(2))
            };
            code == operand + not_bool_code(rax()) + seq![arith] + not_overflow_code()
        }),
{
}

/// The code of `+`, `-` and `*` tests the tags of both operands, the left one (in the
/// accumulator) first, before the operation, and the overflow flag right after it.
pub proof fn lemma_binary_arithmetic_guarded(
    op: Op2,
    a: ExprV,
    b: ExprV,
    si: int,
    env: Map<Seq<char>, i64>,
    brk: Option<u64>,
    tail: bool,
    fr: Frame,
    funcs: Map<Seq<char>, i64>,
    arities: Seq<u64>,
    l: int,
)
    requires
        op is Plus || op is Minus || op is Times,
        lower(ExprV::BinOp(op, Box::new(a), Box::new(b)), si, env, brk, tail, fr, funcs, arities, l) is Ok,
    ensures
        ({
            let code = lower(ExprV::BinOp(op, Box::new(a), Box::new(b)), si, env, brk, tail, fr, funcs, arities, l)->Ok_0.0;
            let right = lower(b, si, env, brk, false, fr, funcs, arities, l)->Ok_0;
            let left = lower(a, si + 1, env, brk, false, fr, funcs, arities, right.1)->Ok_0.0;
            let arith = if op is Plus {
                seq![Instr::IAdd(rax(), slot(si))]
            } else if op is Minus {
                seq![Instr::ISub(rax(), slot(si))]
            } else {
                seq![Instr::Sar(rax(), Val::Const(1)), Instr::IMul(rax(), slot(si))]
            };
            code == right.0 + seq![Instr::IMov(slot(si), rax())] + left + not_bool_code(rax())
                + not_bool_code(slot(si)) + arith + not_overflow_code()
        }),
{
    let code = lower(ExprV::BinOp(op, Box::new(a), Box::new(b)), si, env, brk, tail, fr, funcs, arities, l)->Ok_0.0;
    let right = lower(b, si, env, brk, false, fr, funcs, arities, l)->Ok_0;
    let left = lower(a, si + 1, env, brk, false, fr, funcs, arities, right.1)->Ok_0.0;
    let arith = if op is Plus {
        seq![Instr::IAdd(rax(), slot(si))]
    } else if op is Minus {
        seq![Instr::ISub(rax(), slot(si))]
    } else {
        seq![Instr::Sar(rax(), Val::Const(1)), Instr::IMul(rax(), slot(si))]
    };
    assert(code =~= right.0 + seq![Instr::IMov(slot(si), rax())] + left + not_bool_code(rax())
        + not_bool_code(slot(si)) + arith + not_overflow_code());
}

/// Copying arguments moves words only: it calls nothing and leaves the stack pointer alone.
pub proof fn lemma_moves_only_move(k: int, src: int, dst: int)
    ensures
        forall|i: int|
            0 <= i < moves_code(k, src, dst).len() ==> #[trigger] moves_code(k, src, dst)[i] is IMov,
        forall|i: int|
            0 <= i < moves_code(k, src, dst).len() ==> moves_code(k, src, dst)[i]->IMov_0 != Val::Reg(
                Reg::RSP,
            ),
    decreases k,
{
    if k > 0 {
        lemma_moves_only_move(k - 1, src, dst);
        let prev = moves_code(k - 1, src, dst);
        assert forall|i: int| 0 <= i < moves_code(k, src, dst).len() implies #[trigger] moves_code(
            k,
            src,
            dst,
        )[i] is IMov && moves_code(k, src, dst)[i]->IMov_0 != Val::Reg(Reg::RSP) by {
            if i < prev.len() {
                assert(moves_code(k, src, dst)[i] == prev[i]);
            }
        }
    }
}

/// A call in tail position, where the enclosing function has at least as many parameters as
/// the call has arguments, reuses the caller's frame: after the arguments are evaluated, it
/// copies them over the caller's parameters, pops exactly the caller's frame and jumps to the
/// callee. It pushes no return address and leaves the stack no deeper than on entry to the
/// caller, however many such calls follow one another.
pub proof fn lemma_tail_call_reuses_frame(
    name: Seq<char>,
    args: Seq<ExprV>,
    si: int,
    env: Map<Seq<char>, i64>,
    brk: Option<u64>,
    fr: Frame,
    funcs: Map<Seq<char>, i64>,
    arities: Seq<u64>,
    l: int,
)
    requires
        args.len() <= fr.arity,
        lower(ExprV::Call(name, args), si, env, brk, true, fr, funcs, arities, l) is Ok,
    ensures
        ({
            let code = lower(ExprV::Call(name, args), si, env, brk, true, fr, funcs, arities, l)->Ok_0.0;
            let evaluated = lower_list(args, args.len() as int, true, si, env, brk, false, fr, funcs, arities, l)->Ok_0.0;
            let copies = moves_code(args.len() as int, si, fr.slots + 1);
            &&& code == evaluated + copies + seq![
                Instr::IAdd(Val::Reg(Reg::RSP), Val::Const((fr.slots * 8) as i64)),
                Instr::Jmp(Label::Func(funcs[name] as u64)),
            ]
            &&& forall|i: int| 0 <= i < copies.len() ==> #[trigger] copies[i] is IMov
                && copies[i]->IMov_0 != Val::Reg(Reg::RSP)
        }),
{
    lemma_moves_only_move(args.len() as int, si, fr.slots + 1);
    let code = lower(ExprV::Call(name, args), si, env, brk, true, fr, funcs, arities, l)->Ok_0.0;
    let evaluated = lower_list(args, args.len() as int, true, si, env, brk, false, fr, funcs, arities, l)->Ok_0.0;
    let copies = moves_code(args.len() as int, si, fr.slots + 1);
    assert(code =~= evaluated + copies + seq![
        Instr::IAdd(Val::Reg(Reg::RSP), Val::Const((fr.slots * 8) as i64)),
        Instr::Jmp(Label::Func(funcs[name] as u64)),
    ]);
}

} // verus!

verus! {

/// The stack slot an instruction writes, if it writes one.
pub open spec fn stack_write(i: Instr) -> Option<int> {
    match i {
        Instr::IMov(Val::RegOffset(Reg::RSP, k), _) => Some(k as int),
        _ => None,
    }
}

/// Whether a write to slot `k` is accounted for: a temporary in `[lo, hi)`, the slot of a
/// variable of `env`, a parameter slot of the enclosing frame (above it and the return
/// address), or an outgoing argument below the stack pointer.
pub open spec fn slot_accounted(k: int, lo: int, hi: int, env: Map<Seq<char>, i64>, fr: Frame) -> bool {
    ||| lo <= k < hi
    ||| exists|x: Seq<char>| #[trigger] env.contains_key(x) && env[x] == k
    ||| fr.slots < k <= fr.slots + fr.arity
    ||| k < 0
}

/// Whether every stack slot that `code` writes is accounted for.
pub open spec fn writes_within(code: Seq<Instr>, lo: int, hi: int, env: Map<Seq<char>, i64>, fr: Frame) -> bool {
    forall|i: int|
        0 <= i < code.len() ==> (#[trigger] stack_write(code[i]) matches Some(k) ==> slot_accounted(
            k,
            lo,
            hi,
            env,
            fr,
        ))
}

broadcast proof fn lemma_writes_concat(a: Seq<Instr>, b: Seq<Instr>, lo: int, hi: int, env: Map<Seq<char>, i64>, fr: Frame)
    requires
        writes_within(a, lo, hi, env, fr),
        writes_within(b, lo, hi, env, fr),
    ensures
        #[trigger] writes_within(a + b, lo, hi, env, fr),
{
    assert forall|i: int| 0 <= i < (a + b).len() implies (#[trigger] stack_write((a + b)[i]) matches Some(k)
        ==> slot_accounted(k, lo, hi, env, fr)) by {
        if i < a.len() {
            assert((a + b)[i] == a[i]);
        } else {
            assert((a + b)[i] == b[i - a.len()]);
        }
    }
}

proof fn lemma_writes_weaken(
    code: Seq<Instr>,
    lo: int,
    hi: int,
    env: Map<Seq<char>, i64>,
    lo2: int,
    hi2: int,
    env2: Map<Seq<char>, i64>,
    fr: Frame,
)
    requires
        writes_within(code, lo, hi, env, fr),
        lo2 <= lo,
        hi <= hi2,
        forall|x: Seq<char>| #[trigger] env.contains_key(x) ==> slot_accounted(env[x] as int, lo2, hi2, env2, fr),
    ensures
        writes_within(code, lo2, hi2, env2, fr),
{
    assert forall|i: int| 0 <= i < code.len() implies (#[trigger] stack_write(code[i]) matches Some(k)
        ==> slot_accounted(k, lo2, hi2, env2, fr)) by {
        if stack_write(code[i]) is Some {
            let k = stack_write(code[i])->0;
            assert(slot_accounted(k, lo, hi, env, fr));
            if exists|x: Seq<char>| #[trigger] env.contains_key(x) && env[x] == k {
                let x = choose|x: Seq<char>| #[trigger] env.contains_key(x) && env[x] == k;
                assert(slot_accounted(env[x] as int, lo2, hi2, env2, fr));
            }
        }
    }
}

proof fn lemma_snippets_write_nothing(op1: Op1, op2: Op2, si: int, n: u64)
    ensures
        forall|i: int| 0 <= i < unop_code(op1).len() ==> #[trigger] stack_write(unop_code(op1)[i]) is None,
        forall|i: int|
            0 <= i < binop_code(op2, si, n).len() ==> #[trigger] stack_write(binop_code(op2, si, n)[i]) is None,
{
}


proof fn lemma_moves_writes(k: int, src: int, dst: int)
    requires
        0 <= k,
        -0x4000_0000 <= dst,
        dst + k <= 0x4000_0000,
        0 <= src,
        src + k <= 0x4000_0000,
    ensures
        forall|i: int|
            0 <= i < moves_code(k, src, dst).len() ==> (#[trigger] stack_write(
                moves_code(k, src, dst)[i],
            ) matches Some(w) ==> dst <= w < dst + k),
    decreases k,
{
    if k > 0 {
        lemma_moves_writes(k - 1, src, dst);
        let prev = moves_code(k - 1, src, dst);
        assert forall|i: int| 0 <= i < moves_code(k, src, dst).len() implies (#[trigger] stack_write(
            moves_code(k, src, dst)[i],
        ) matches Some(w) ==> dst <= w < dst + k) by {
            if i < prev.len() {
                assert(moves_code(k, src, dst)[i] == prev[i]);
            }
        }
    }
}

proof fn lemma_binds_writes(
    bs: Seq<(Seq<char>, ExprV)>,
    k: int,
    si: int,
    hi: int,
    env: Map<Seq<char>, i64>,
    brk: Option<u64>,
    fr: Frame,
    funcs: Map<Seq<char>, i64>,
    arities: Seq<u64>,
    l: int,
)
    requires
        0 <= si,
        0 <= k <= bs.len(),
        si + k <= hi <= MAX_SLOTS,
        forall|j: int| 0 <= j < k ==> si + j + depth_spec(#[trigger] bs[j].1) <= hi,
        0 <= fr.slots <= MAX_SLOTS + 1,
        lower_binds(bs, k, si, env, brk, fr, funcs, arities, l) is Ok,
    ensures
        ({
            let r = lower_binds(bs, k, si, env, brk, fr, funcs, arities, l)->Ok_0;
            &&& writes_within(r.0, si, hi, env, fr)
            &&& forall|x: Seq<char>| #[trigger] r.1.contains_key(x) ==> slot_accounted(r.1[x] as int, si, hi, env, fr)
        }),
    decreases bs, k,
{
    broadcast use lemma_writes_concat;
    if k <= 0 {
        assert forall|x: Seq<char>| #[trigger] env.contains_key(x) implies slot_accounted(env[x] as int, si, hi, env, fr) by {
            assert(env.contains_key(x) && env[x] == env[x]);
        }
    } else {
        lemma_binds_writes(bs, k - 1, si, hi, env, brk, fr, funcs, arities, l);
        let prev = lower_binds(bs, k - 1, si, env, brk, fr, funcs, arities, l)->Ok_0;
        lemma_depth_nonneg(bs[k - 1].1);
        lemma_lower_writes(bs[k - 1].1, si + k - 1, hi, prev.1, brk, false, fr, funcs, arities, prev.2);
        let ci = lower(bs[k - 1].1, si + k - 1, prev.1, brk, false, fr, funcs, arities, prev.2)->Ok_0.0;
        lemma_writes_weaken(ci, si + k - 1, hi, prev.1, si, hi, env, fr);
        let store = seq![Instr::IMov(slot(si + k - 1), rax())];
        assert(writes_within(store, si, hi, env, fr));
        assert(writes_within(prev.0 + ci + store, si, hi, env, fr));
        let env2 = prev.1.insert(bs[k - 1].0, (si + k - 1) as i64);
        assert forall|x: Seq<char>| #[trigger] env2.contains_key(x) implies slot_accounted(env2[x] as int, si, hi, env, fr) by {
            if x != bs[k - 1].0 {
                assert(prev.1.contains_key(x));
            }
        }
    }
}

proof fn lemma_list_writes(
    es: Seq<ExprV>,
    k: int,
    spill: bool,
    si: int,
    hi: int,
    env: Map<Seq<char>, i64>,
    brk: Option<u64>,
    tail: bool,
    fr: Frame,
    funcs: Map<Seq<char>, i64>,
    arities: Seq<u64>,
    l: int,
)
    requires
        0 <= si,
        0 <= k <= es.len(),
        hi <= MAX_SLOTS,
        spill ==> si + k <= hi,
        forall|j: int| 0 <= j < k ==> si + (if spill { j } else { 0 }) + depth_spec(#[trigger] es[j]) <= hi,
        0 <= fr.slots <= MAX_SLOTS + 1,
        lower_list(es, k, spill, si, env, brk, tail, fr, funcs, arities, l) is Ok,
    ensures
        writes_within(lower_list(es, k, spill, si, env, brk, tail, fr, funcs, arities, l)->Ok_0.0, si, hi, env, fr),
    decreases es, k,
{
    broadcast use lemma_writes_concat;
    if k > 0 {
        lemma_list_writes(es, k - 1, spill, si, hi, env, brk, tail, fr, funcs, arities, l);
        let prev = lower_list(es, k - 1, spill, si, env, brk, tail, fr, funcs, arities, l)->Ok_0;
        lemma_depth_nonneg(es[k - 1]);
        if spill {
            lemma_lower_writes(es[k - 1], si + k - 1, hi, env, brk, false, fr, funcs, arities, prev.1);
            let ci = lower(es[k - 1], si + k - 1, env, brk, false, fr, funcs, arities, prev.1)->Ok_0.0;
            lemma_writes_weaken(ci, si + k - 1, hi, env, si, hi, env, fr);
            let store = seq![Instr::IMov(slot(si + k - 1), rax())];
            assert(writes_within(store, si, hi, env, fr));
            assert(writes_within(prev.0 + ci + store, si, hi, env, fr));
        } else {
            let t = tail && k == es.len();
            lemma_lower_writes(es[k - 1], si, hi, env, brk, t, fr, funcs, arities, prev.1);
        }
    }
}

/// Every stack slot that the code of an expression evaluated at stack index `si` writes is
/// accounted for: a temporary in `[si, si + depth(e))`, the slot of a variable in scope, a
/// parameter slot of the enclosing function (written by a tail call), or an outgoing argument
/// below the stack pointer (written before a call). So a frame of `depth(body)` slots or more
/// holds every temporary of its body.
pub proof fn lemma_lower_writes(
    e: ExprV,
    si: int,
    hi: int,
    env: Map<Seq<char>, i64>,
    brk: Option<u64>,
    tail: bool,
    fr: Frame,
    funcs: Map<Seq<char>, i64>,
    arities: Seq<u64>,
    l: int,
)
    requires
        0 <= si,
        si + depth_spec(e) <= hi <= MAX_SLOTS,
        0 <= fr.slots <= MAX_SLOTS + 1,
        lower(e, si, env, brk, tail, fr, funcs, arities, l) is Ok,
    ensures
        writes_within(lower(e, si, env, brk, tail, fr, funcs, arities, l)->Ok_0.0, si, hi, env, fr),
    decreases e, 0int,
{
    broadcast use lemma_writes_concat;
    lemma_depth_nonneg(e);
    let code = lower(e, si, env, brk, tail, fr, funcs, arities, l)->Ok_0.0;
    match e {
        ExprV::Let(bs, body) => {
            lemma_bind_depth_bounds(bs);
            lemma_depth_nonneg(*body);
            let n = bs.len() as int;
            lemma_binds_writes(bs, n, si, hi, env, brk, fr, funcs, arities, l);
            let b = lower_binds(bs, n, si, env, brk, fr, funcs, arities, l)->Ok_0;
            lemma_lower_writes(*body, si + n, hi, b.1, brk, tail, fr, funcs, arities, b.2);
            let cb = lower(*body, si + n, b.1, brk, tail, fr, funcs, arities, b.2)->Ok_0.0;
            lemma_writes_weaken(cb, si + n, hi, b.1, si, hi, env, fr);
            assert(code == b.0 + cb);
        },
        ExprV::UnOp(op, x) => {
            lemma_lower_writes(*x, si, hi, env, brk, false, fr, funcs, arities, l);
            lemma_snippets_write_nothing(op, Op2::Plus, si, 0);
        },
        ExprV::BinOp(op, a, b) => {
            lemma_depth_nonneg(*a);
            lemma_lower_writes(*b, si, hi, env, brk, false, fr, funcs, arities, l);
            let rb = lower(*b, si, env, brk, false, fr, funcs, arities, l)->Ok_0;
            lemma_lower_writes(*a, si + 1, hi, env, brk, false, fr, funcs, arities, rb.1);
            let ra = lower(*a, si + 1, env, brk, false, fr, funcs, arities, rb.1)->Ok_0;
            lemma_writes_weaken(ra.0, si + 1, hi, env, si, hi, env, fr);
            let spill = seq![Instr::IMov(slot(si), rax())];
            assert(writes_within(spill, si, hi, env, fr));
            lemma_snippets_write_nothing(Op1::Add1, op, si, ra.1 as u64);
            assert(writes_within(binop_code(op, si, ra.1 as u64), si, hi, env, fr));
            assert(code == rb.0 + spill + ra.0 + binop_code(op, si, ra.1 as u64));
        },
        ExprV::Assign(x, v) => {
            lemma_lower_writes(*v, si, hi, env, brk, false, fr, funcs, arities, l);
            let cv = lower(*v, si, env, brk, false, fr, funcs, arities, l)->Ok_0.0;
            let store = seq![Instr::IMov(slot(env[x] as int), rax())];
            assert(env.contains_key(x) && env[x] == env[x]);
            assert(writes_within(store, si, hi, env, fr));
            assert(code =~= cv + store);
        },
        ExprV::If(c, t, f) => {
            lemma_lower_writes(*c, si, hi, env, brk, false, fr, funcs, arities, l + 2);
            let rc = lower(*c, si, env, brk, false, fr, funcs, arities, l + 2)->Ok_0;
            lemma_lower_writes(*t, si, hi, env, brk, tail, fr, funcs, arities, rc.1);
            let rt = lower(*t, si, env, brk, tail, fr, funcs, arities, rc.1)->Ok_0;
            lemma_lower_writes(*f, si, hi, env, brk, tail, fr, funcs, arities, rt.1);
        },
        ExprV::Block(es) => {
            lemma_max_depth_bounds(es, 0, 0);
            lemma_list_writes(es, es.len() as int, false, si, hi, env, brk, tail, fr, funcs, arities, l);
        },
        ExprV::Loop(b) => {
            lemma_lower_writes(*b, si, hi, env, Some((l + 1) as u64), false, fr, funcs, arities, l + 2);
        },
        ExprV::Break(x) => {
            lemma_lower_writes(*x, si, hi, env, brk, false, fr, funcs, arities, l);
            let cx = lower(*x, si, env, brk, false, fr, funcs, arities, l)->Ok_0.0;
            let jump = seq![Instr::Jmp(Label::LoopEnd(brk->0))];
            assert(writes_within(jump, si, hi, env, fr));
            assert(code =~= cx + jump);
        },
        ExprV::Call(name, args) => {
            let n = args.len() as int;
            lemma_max_depth_bounds(args, 1, n);
            lemma_list_writes(args, n, true, si, hi, env, brk, false, fr, funcs, arities, l);
            let ca = lower_list(args, n, true, si, env, brk, false, fr, funcs, arities, l)->Ok_0.0;
            let idx = funcs[name] as u64;
            if tail && n <= fr.arity {
                let copies = moves_code(n, si, fr.slots + 1);
                lemma_moves_writes(n, si, fr.slots + 1);
                assert(writes_within(copies, si, hi, env, fr));
                let rest = seq![
                    Instr::IAdd(Val::Reg(Reg::RSP), Val::Const((fr.slots * 8) as i64)),
                    Instr::Jmp(Label::Func(idx)),
                ];
                assert(writes_within(rest, si, hi, env, fr));
                assert(code == ca + (copies + rest));
            } else {
                let po = param_offset(n);
                let copies = moves_code(n, si, -po);
                lemma_moves_writes(n, si, -po);
                assert(writes_within(copies, si, hi, env, fr));
                let rest = seq![
                    Instr::ISub(Val::Reg(Reg::RSP), Val::Const((po * 8) as i64)),
                    Instr::Call(Label::Func(idx)),
                    Instr::IAdd(Val::Reg(Reg::RSP), Val::Const((po * 8) as i64)),
                ];
                assert(writes_within(rest, si, hi, env, fr));
                assert(code == ca + (copies + rest));
            }
        },
        ExprV::Print(x) => {
            lemma_depth_nonneg(*x);
            lemma_lower_writes(*x, si, hi, env, brk, false, fr, funcs, arities, l);
            assert(writes_within(print_code(si), si, hi, env, fr));
        },
        _ => {},
    }
}


proof fn lemma_param_slots(params: Seq<Seq<char>>, slots: int, k: int)
    requires
        0 <= k <= 0x1000_0000,
        0 <= slots <= 0x1000_0000,
    ensures
        forall|x: Seq<char>| #[trigger] param_env(params, slots, k).contains_key(x) ==> slots < param_env(params, slots, k)[x] <= slots + k,
    decreases k,
{
    if k > 0 {
        lemma_param_slots(params, slots, k - 1);
        let prev = param_env(params, slots, k - 1);
        assert forall|x: Seq<char>| #[trigger] param_env(params, slots, k).contains_key(x) implies slots < param_env(params, slots, k)[x] <= slots + k by {
            if x != params[k - 1] {
                assert(prev.contains_key(x));
            }
        }
    }
}

/// The code of a function writes only slots of its own frame, the slots of its parameters
/// above the frame and the return address (where a tail call passes its arguments), and
/// outgoing arguments below the stack pointer.
pub proof fn lemma_definition_frame(
    d: DefinitionV,
    idx: int,
    funcs: Map<Seq<char>, i64>,
    arities: Seq<u64>,
    l: int,
)
    requires
        lower_definition(d, idx, funcs, arities, l) is Ok,
    ensures
        ({
            let code = lower_definition(d, idx, funcs, arities, l)->Ok_0.0;
            let slots = frame_slots(depth_spec(d.body));
            forall|i: int|
                0 <= i < code.len() ==> (#[trigger] stack_write(code[i]) matches Some(k) ==> (0 <= k
                    < slots || slots < k <= slots + d.params.len() || k < 0))
        }),
{
    broadcast use lemma_writes_concat;
    let dep = depth_spec(d.body);
    lemma_depth_nonneg(d.body);
    let slots = frame_slots(dep);
    let n = d.params.len() as int;
    let fr = Frame { is_main: false, arity: n as u64, slots: slots as i64 };
    let env = param_env(d.params, slots, n);
    lemma_lower_writes(d.body, 0, dep, env, None, true, fr, funcs, arities, l);
    lemma_param_slots(d.params, slots, n);
    let body = lower(d.body, 0, env, None, true, fr, funcs, arities, l)->Ok_0.0;
    let code = lower_definition(d, idx, funcs, arities, l)->Ok_0.0;
    let bytes = Val::Const((slots * 8) as i64);
    let head = seq![Instr::Label(Label::Func(idx as u64)), Instr::ISub(Val::Reg(Reg::RSP), bytes)];
    let foot = seq![Instr::IAdd(Val::Reg(Reg::RSP), bytes), Instr::Return];
    assert(code == head + body + foot);
    assert forall|i: int| 0 <= i < code.len() implies (#[trigger] stack_write(code[i]) matches Some(k) ==> (0 <= k
        < slots || slots < k <= slots + n || k < 0)) by {
        if i >= head.len() && i < head.len() + body.len() {
            assert(code[i] == body[i - head.len()]);
            if stack_write(body[i - head.len()]) is Some {
                let k = stack_write(body[i - head.len()])->0;
                assert(slot_accounted(k, 0, dep, env, fr));
                if exists|x: Seq<char>| #[trigger] env.contains_key(x) && env[x] == k {
                    let x = choose|x: Seq<char>| #[trigger] env.contains_key(x) && env[x] == k;
                    assert(slots < env[x] <= slots + n);
                }
            }
        } else if i < head.len() {
            assert(code[i] == head[i]);
        } else {
            assert(code[i] == foot[i - head.len() - body.len()]);
        }
    }
}


/// The label an instruction defines, if it defines one.
pub open spec fn label_def(i: Instr) -> Option<Label> {
    match i {
        Instr::Label(x) => Some(x),
        _ => None,
    }
}

/// Whether a label is a fresh one made from a counter value in `[lo, hi)`.
pub open spec fn fresh_in(x: Label, lo: int, hi: int) -> bool {
    match x {
        Label::CmpEnd(n) => lo <= n < hi,
        Label::IfEnd(n) => lo <= n < hi,
        Label::IfElse(n) => lo <= n < hi,
        Label::LoopStart(n) => lo <= n < hi,
        Label::LoopEnd(n) => lo <= n < hi,
        _ => false,
    }
}

/// Whether every label that `code` defines is fresh from `[lo, hi)`, and none is defined twice.
pub open spec fn labels_fresh(code: Seq<Instr>, lo: int, hi: int) -> bool {
    &&& forall|i: int|
        0 <= i < code.len() ==> (#[trigger] label_def(code[i]) matches Some(x) ==> fresh_in(x, lo, hi))
    &&& forall|i: int, j: int|
        0 <= i < j < code.len() && #[trigger] label_def(code[i]) is Some ==> label_def(code[i])
            != #[trigger] label_def(code[j])
}

proof fn lemma_labels_concat(a: Seq<Instr>, b: Seq<Instr>, lo: int, mid: int, hi: int)
    requires
        labels_fresh(a, lo, mid),
        labels_fresh(b, mid, hi),
        lo <= mid <= hi,
    ensures
        labels_fresh(a + b, lo, hi),
{
    let c = a + b;
    assert forall|i: int| 0 <= i < c.len() implies (#[trigger] label_def(c[i]) matches Some(x)
        ==> fresh_in(x, lo, hi)) by {
        if i < a.len() {
            assert(c[i] == a[i]);
        } else {
            assert(c[i] == b[i - a.len()]);
        }
    }
    assert forall|i: int, j: int|
        0 <= i < j < c.len() && #[trigger] label_def(c[i]) is Some implies label_def(c[i])
            != #[trigger] label_def(c[j]) by {
        if j < a.len() {
            assert(c[i] == a[i] && c[j] == a[j]);
        } else if i >= a.len() {
            assert(c[i] == b[i - a.len()] && c[j] == b[j - a.len()]);
        } else {
            assert(c[i] == a[i] && c[j] == b[j - a.len()]);
            assert(fresh_in(label_def(c[i])->0, lo, mid));
            if label_def(c[j]) is Some {
                assert(fresh_in(label_def(c[j])->0, mid, hi));
            }
        }
    }
}

proof fn lemma_labels_insert(a: Seq<Instr>, m: Seq<Instr>, b: Seq<Instr>, lo: int, hi: int)
    requires
        labels_fresh(a + b, lo, hi),
        labels_fresh(m, lo - 1, lo),
        lo <= hi,
    ensures
        labels_fresh(a + m + b, lo - 1, hi),
{
    let ab = a + b;
    let c = a + m + b;
    let na = a.len() as int;
    let nm = m.len() as int;
    assert forall|i: int| 0 <= i < c.len() implies (#[trigger] label_def(c[i]) matches Some(x)
        ==> fresh_in(x, lo - 1, hi)) by {
        if i < na {
            assert(c[i] == ab[i]);
        } else if i < na + nm {
            assert(c[i] == m[i - na]);
        } else {
            assert(c[i] == ab[i - nm]);
        }
    }
    assert forall|i: int, j: int|
        0 <= i < j < c.len() && #[trigger] label_def(c[i]) is Some implies label_def(c[i])
            != #[trigger] label_def(c[j]) by {
        let in_m = |p: int| na <= p < na + nm;
        let at = |p: int| if p < na { p } else { p - nm };
        if in_m(i) && in_m(j) {
            assert(c[i] == m[i - na] && c[j] == m[j - na]);
        } else if !in_m(i) && !in_m(j) {
            assert(c[i] == ab[at(i)] && c[j] == ab[at(j)]);
            assert(at(i) < at(j));
        } else if in_m(i) {
            assert(c[i] == m[i - na] && c[j] == ab[at(j)]);
            if label_def(c[j]) is Some {
                assert(fresh_in(label_def(c[j])->0, lo, hi));
            }
        } else {
            assert(c[i] == ab[at(i)] && c[j] == m[j - na]);
            assert(fresh_in(label_def(c[i])->0, lo, hi));
            if label_def(c[j]) is Some {
                assert(fresh_in(label_def(c[j])->0, lo - 1, lo));
            }
        }
    }
}

proof fn lemma_list_labels(
    es: Seq<ExprV>,
    k: int,
    spill: bool,
    si: int,
    env: Map<Seq<char>, i64>,
    brk: Option<u64>,
    tail: bool,
    fr: Frame,
    funcs: Map<Seq<char>, i64>,
    arities: Seq<u64>,
    l: int,
)
    requires
        0 <= l,
        0 <= k <= es.len(),
        lower_list(es, k, spill, si, env, brk, tail, fr, funcs, arities, l) is Ok,
    ensures
        ({
            let r = lower_list(es, k, spill, si, env, brk, tail, fr, funcs, arities, l)->Ok_0;
            l <= r.1 && labels_fresh(r.0, l, r.1)
        }),
    decreases es, k,
{
    if k > 0 {
        lemma_list_labels(es, k - 1, spill, si, env, brk, tail, fr, funcs, arities, l);
        let prev = lower_list(es, k - 1, spill, si, env, brk, tail, fr, funcs, arities, l)->Ok_0;
        if spill {
            lemma_lower_labels(es[k - 1], si + k - 1, env, brk, false, fr, funcs, arities, prev.1);
            let ri = lower(es[k - 1], si + k - 1, env, brk, false, fr, funcs, arities, prev.1)->Ok_0;
            let store = seq![Instr::IMov(slot(si + k - 1), rax())];
            assert(labels_fresh(store, ri.1, ri.1));
            lemma_labels_concat(prev.0, ri.0, l, prev.1, ri.1);
            lemma_labels_concat(prev.0 + ri.0, store, l, ri.1, ri.1);
        } else {
            let t = tail && k == es.len();
            lemma_lower_labels(es[k - 1], si, env, brk, t, fr, funcs, arities, prev.1);
            let ri = lower(es[k - 1], si, env, brk, t, fr, funcs, arities, prev.1)->Ok_0;
            lemma_labels_concat(prev.0, ri.0, l, prev.1, ri.1);
        }
    } else {
        assert(labels_fresh(Seq::<Instr>::empty(), l, l));
    }
}

proof fn lemma_binds_labels(
    bs: Seq<(Seq<char>, ExprV)>,
    k: int,
    si: int,
    env: Map<Seq<char>, i64>,
    brk: Option<u64>,
    fr: Frame,
    funcs: Map<Seq<char>, i64>,
    arities: Seq<u64>,
    l: int,
)
    requires
        0 <= l,
        0 <= k <= bs.len(),
        lower_binds(bs, k, si, env, brk, fr, funcs, arities, l) is Ok,
    ensures
        ({
            let r = lower_binds(bs, k, si, env, brk, fr, funcs, arities, l)->Ok_0;
            l <= r.2 && labels_fresh(r.0, l, r.2)
        }),
    decreases bs, k,
{
    if k > 0 {
        lemma_binds_labels(bs, k - 1, si, env, brk, fr, funcs, arities, l);
        let prev = lower_binds(bs, k - 1, si, env, brk, fr, funcs, arities, l)->Ok_0;
        lemma_lower_labels(bs[k - 1].1, si + k - 1, prev.1, brk, false, fr, funcs, arities, prev.2);
        let ri = lower(bs[k - 1].1, si + k - 1, prev.1, brk, false, fr, funcs, arities, prev.2)->Ok_0;
        let store = seq![Instr::IMov(slot(si + k - 1), rax())];
        assert(labels_fresh(store, ri.1, ri.1));
        lemma_labels_concat(prev.0, ri.0, l, prev.2, ri.1);
        lemma_labels_concat(prev.0 + ri.0, store, l, ri.1, ri.1);
    } else {
        assert(labels_fresh(Seq::<Instr>::empty(), l, l));
    }
}

/// Lowering only moves the label counter forward, and the code of an expression defines
/// each of its labels once, each made from a counter value it took: from `[l, l')`, where
/// `l'` is the counter after it.
#[verifier::rlimit(60)]
pub proof fn lemma_lower_labels(
    e: ExprV,
    si: int,
    env: Map<Seq<char>, i64>,
    brk: Option<u64>,
    tail: bool,
    fr: Frame,
    funcs: Map<Seq<char>, i64>,
    arities: Seq<u64>,
    l: int,
)
    requires
        0 <= l,
        lower(e, si, env, brk, tail, fr, funcs, arities, l) is Ok,
    ensures
        ({
            let r = lower(e, si, env, brk, tail, fr, funcs, arities, l)->Ok_0;
            l <= r.1 && labels_fresh(r.0, l, r.1)
        }),
    decreases e, 0int,
{
    let r = lower(e, si, env, brk, tail, fr, funcs, arities, l)->Ok_0;
    match e {
        ExprV::Let(bs, body) => {
            let n = bs.len() as int;
            lemma_binds_labels(bs, n, si, env, brk, fr, funcs, arities, l);
            let b = lower_binds(bs, n, si, env, brk, fr, funcs, arities, l)->Ok_0;
            lemma_lower_labels(*body, si + n, b.1, brk, tail, fr, funcs, arities, b.2);
            let rb = lower(*body, si + n, b.1, brk, tail, fr, funcs, arities, b.2)->Ok_0;
            lemma_labels_concat(b.0, rb.0, l, b.2, rb.1);
        },
        ExprV::UnOp(op, x) => {
            lemma_lower_labels(*x, si, env, brk, false, fr, funcs, arities, l);
            let rx = lower(*x, si, env, brk, false, fr, funcs, arities, l)->Ok_0;
            assert(labels_fresh(unop_code(op), rx.1, rx.1));
            lemma_labels_concat(rx.0, unop_code(op), l, rx.1, rx.1);
        },
        ExprV::BinOp(op, a, b) => {
            lemma_lower_labels(*b, si, env, brk, false, fr, funcs, arities, l);
            let rb = lower(*b, si, env, brk, false, fr, funcs, arities, l)->Ok_0;
            lemma_lower_labels(*a, si + 1, env, brk, false, fr, funcs, arities, rb.1);
            let ra = lower(*a, si + 1, env, brk, false, fr, funcs, arities, rb.1)->Ok_0;
            let spill = seq![Instr::IMov(slot(si), rax())];
            assert(labels_fresh(spill, rb.1, rb.1));
            lemma_labels_concat(rb.0, spill, l, rb.1, rb.1);
            lemma_labels_concat(rb.0 + spill, ra.0, l, rb.1, ra.1);
            assert(labels_fresh(binop_code(op, si, ra.1 as u64), ra.1, r.1));
            lemma_labels_concat(rb.0 + spill + ra.0, binop_code(op, si, ra.1 as u64), l, ra.1, r.1);
        },
        ExprV::Assign(x, v) => {
            lemma_lower_labels(*v, si, env, brk, false, fr, funcs, arities, l);
            let rv = lower(*v, si, env, brk, false, fr, funcs, arities, l)->Ok_0;
            let store = seq![Instr::IMov(slot(env[x] as int), rax())];
            assert(labels_fresh(store, rv.1, rv.1));
            lemma_labels_concat(rv.0, store, l, rv.1, rv.1);
            assert(r.0 =~= rv.0 + store);
        },
        ExprV::If(c, t, f) => {
            lemma_lower_labels(*c, si, env, brk, false, fr, funcs, arities, l + 2);
            let rc = lower(*c, si, env, brk, false, fr, funcs, arities, l + 2)->Ok_0;
            lemma_lower_labels(*t, si, env, brk, tail, fr, funcs, arities, rc.1);
            let rt = lower(*t, si, env, brk, tail, fr, funcs, arities, rc.1)->Ok_0;
            lemma_lower_labels(*f, si, env, brk, tail, fr, funcs, arities, rt.1);
            let rf = lower(*f, si, env, brk, tail, fr, funcs, arities, rt.1)->Ok_0;
            let end = Label::IfEnd(l as u64);
            let els = Label::IfElse((l + 1) as u64);
            let test = seq![Instr::Cmp(rax(), Val::Const(1)), Instr::Je(els)];
            let mid = seq![Instr::Jmp(end), Instr::Label(els)];
            let last = seq![Instr::Label(end)];
            assert(labels_fresh(test, rc.1, rc.1));
            assert(labels_fresh(mid, l + 1, l + 2));
            assert(labels_fresh(last, l, l + 1));
            lemma_labels_concat(rc.0, test, l + 2, rc.1, rc.1);
            lemma_labels_concat(rc.0 + test, rt.0, l + 2, rc.1, rt.1);
            let front = rc.0 + test + rt.0;
            lemma_labels_concat(front, rf.0, l + 2, rt.1, rf.1);
            lemma_labels_insert(front, mid, rf.0, l + 2, rf.1);
            let all = front + mid + rf.0;
            assert(all + Seq::<Instr>::empty() =~= all);
            lemma_labels_insert(all, last, Seq::<Instr>::empty(), l + 1, rf.1);
            assert(r.0 =~= all + last + Seq::<Instr>::empty());
        },
        ExprV::Block(es) => {
            lemma_list_labels(es, es.len() as int, false, si, env, brk, tail, fr, funcs, arities, l);
        },
        ExprV::Loop(b) => {
            lemma_lower_labels(*b, si, env, Some((l + 1) as u64), false, fr, funcs, arities, l + 2);
            let rb = lower(*b, si, env, Some((l + 1) as u64), false, fr, funcs, arities, l + 2)->Ok_0;
            let start = Label::LoopStart(l as u64);
            let end = Label::LoopEnd((l + 1) as u64);
            let first = seq![Instr::Label(start)];
            let last = seq![Instr::Jmp(start), Instr::Label(end)];
            assert(labels_fresh(first, l, l + 1));
            assert(labels_fresh(last, l + 1, l + 2));
            assert(rb.0 + Seq::<Instr>::empty() =~= rb.0);
            lemma_labels_insert(rb.0, last, Seq::<Instr>::empty(), l + 2, rb.1);
            let body = rb.0 + last + Seq::<Instr>::empty();
            assert(Seq::<Instr>::empty() + body =~= body);
            lemma_labels_insert(Seq::<Instr>::empty(), first, body, l + 1, rb.1);
            assert(r.0 =~= Seq::<Instr>::empty() + first + body);
        },
        ExprV::Break(x) => {
            lemma_lower_labels(*x, si, env, brk, false, fr, funcs, arities, l);
            let rx = lower(*x, si, env, brk, false, fr, funcs, arities, l)->Ok_0;
            let jump = seq![Instr::Jmp(Label::LoopEnd(brk->0))];
            assert(labels_fresh(jump, rx.1, rx.1));
            lemma_labels_concat(rx.0, jump, l, rx.1, rx.1);
            assert(r.0 =~= rx.0 + jump);
        },
        ExprV::Call(name, args) => {
            let n = args.len() as int;
            lemma_list_labels(args, n, true, si, env, brk, false, fr, funcs, arities, l);
            let ra = lower_list(args, n, true, si, env, brk, false, fr, funcs, arities, l)->Ok_0;
            let idx = funcs[name] as u64;
            lemma_moves_only_move(n, si, if tail && n <= fr.arity { fr.slots + 1 } else { -param_offset(n) });
            assert(labels_fresh(call_code(idx, n, si, tail, fr), ra.1, ra.1));
            lemma_labels_concat(ra.0, call_code(idx, n, si, tail, fr), l, ra.1, ra.1);
        },
        ExprV::Print(x) => {
            lemma_lower_labels(*x, si, env, brk, false, fr, funcs, arities, l);
            let rx = lower(*x, si, env, brk, false, fr, funcs, arities, l)->Ok_0;
            assert(labels_fresh(print_code(si), rx.1, rx.1));
            lemma_labels_concat(rx.0, print_code(si), l, rx.1, rx.1);
        },
        _ => {
            assert(labels_fresh(r.0, l, l));
        },
    }
}

} // verus!

verus! {

/// Whether a label is fresh from `[lo, hi)`, the label of a function whose index is in
/// `[flo, fhi)`, or, where `entry`, the entry label.
pub open spec fn label_in(x: Label, lo: int, hi: int, flo: int, fhi: int, entry: bool) -> bool {
    ||| fresh_in(x, lo, hi)
    ||| (x matches Label::Func(k) && flo <= k < fhi)
    ||| (entry && x is Entry)
}

/// Whether every label that `code` defines is one of `label_in`'s, and none is defined twice.
pub open spec fn labels_within(code: Seq<Instr>, lo: int, hi: int, flo: int, fhi: int, entry: bool) -> bool {
    &&& forall|i: int|
        0 <= i < code.len() ==> (#[trigger] label_def(code[i]) matches Some(x) ==> label_in(
            x,
            lo,
            hi,
            flo,
            fhi,
            entry,
        ))
    &&& forall|i: int, j: int|
        0 <= i < j < code.len() && #[trigger] label_def(code[i]) is Some ==> label_def(code[i])
            != #[trigger] label_def(code[j])
}

proof fn lemma_within_concat(
    a: Seq<Instr>,
    b: Seq<Instr>,
    lo: int,
    mid: int,
    hi: int,
    flo: int,
    fmid: int,
    fhi: int,
    ea: bool,
    eb: bool,
)
    requires
        labels_within(a, lo, mid, flo, fmid, ea),
        labels_within(b, mid, hi, fmid, fhi, eb),
        lo <= mid <= hi,
        flo <= fmid <= fhi,
        !(ea && eb),
    ensures
        labels_within(a + b, lo, hi, flo, fhi, ea || eb),
{
    let c = a + b;
    assert forall|i: int| 0 <= i < c.len() implies (#[trigger] label_def(c[i]) matches Some(x)
        ==> label_in(x, lo, hi, flo, fhi, ea || eb)) by {
        if i < a.len() {
            assert(c[i] == a[i]);
        } else {
            assert(c[i] == b[i - a.len()]);
        }
    }
    assert forall|i: int, j: int|
        0 <= i < j < c.len() && #[trigger] label_def(c[i]) is Some implies label_def(c[i])
            != #[trigger] label_def(c[j]) by {
        if j < a.len() {
            assert(c[i] == a[i] && c[j] == a[j]);
        } else if i >= a.len() {
            assert(c[i] == b[i - a.len()] && c[j] == b[j - a.len()]);
        } else {
            assert(c[i] == a[i] && c[j] == b[j - a.len()]);
            assert(label_in(label_def(c[i])->0, lo, mid, flo, fmid, ea));
            if label_def(c[j]) is Some {
                assert(label_in(label_def(c[j])->0, mid, hi, fmid, fhi, eb));
            }
        }
    }
}

proof fn lemma_definition_labels(
    d: DefinitionV,
    idx: int,
    funcs: Map<Seq<char>, i64>,
    arities: Seq<u64>,
    l: int,
)
    requires
        0 <= l,
        0 <= idx <= u64::MAX,
        lower_definition(d, idx, funcs, arities, l) is Ok,
    ensures
        ({
            let r = lower_definition(d, idx, funcs, arities, l)->Ok_0;
            l <= r.1 && labels_within(r.0, l, r.1, idx, idx + 1, false)
        }),
{
    let dep = depth_spec(d.body);
    let slots = frame_slots(dep);
    let n = d.params.len() as int;
    let fr = Frame { is_main: false, arity: n as u64, slots: slots as i64 };
    let env = param_env(d.params, slots, n);
    lemma_lower_labels(d.body, 0, env, None, true, fr, funcs, arities, l);
    let rb = lower(d.body, 0, env, None, true, fr, funcs, arities, l)->Ok_0;
    let bytes = Val::Const((slots * 8) as i64);
    let head = seq![Instr::Label(Label::Func(idx as u64)), Instr::ISub(Val::Reg(Reg::RSP), bytes)];
    let foot = seq![Instr::IAdd(Val::Reg(Reg::RSP), bytes), Instr::Return];
    assert(labels_within(head, l, l, idx, idx + 1, false)) by {
        assert(label_def(head[1]) is None);
    }
    assert(labels_within(rb.0, l, rb.1, idx + 1, idx + 1, false));
    assert(labels_within(foot, rb.1, rb.1, idx + 1, idx + 1, false));
    lemma_within_concat(head, rb.0, l, l, rb.1, idx, idx + 1, idx + 1, false, false);
    lemma_within_concat(head + rb.0, foot, l, rb.1, rb.1, idx, idx + 1, idx + 1, false, false);
}

proof fn lemma_defs_labels(
    defs: Seq<DefinitionV>,
    k: int,
    funcs: Map<Seq<char>, i64>,
    arities: Seq<u64>,
)
    requires
        0 <= k <= defs.len(),
        defs.len() <= u64::MAX,
        lower_defs(defs, k, funcs, arities) is Ok,
    ensures
        ({
            let r = lower_defs(defs, k, funcs, arities)->Ok_0;
            0 <= r.1 && labels_within(r.0, 0, r.1, 0, k, false)
        }),
    decreases k,
{
    if k > 0 {
        lemma_defs_labels(defs, k - 1, funcs, arities);
        let prev = lower_defs(defs, k - 1, funcs, arities)->Ok_0;
        lemma_definition_labels(defs[k - 1], k - 1, funcs, arities, prev.1);
        let rd = lower_definition(defs[k - 1], k - 1, funcs, arities, prev.1)->Ok_0;
        lemma_within_concat(prev.0, rd.0, 0, prev.1, rd.1, 0, k - 1, k, false, false);
    } else {
        assert(labels_within(Seq::<Instr>::empty(), 0, 0, 0, 0, false));
    }
}

/// The labels the code of a program defines are its functions' labels, the entry label and
/// fresh labels, each defined once.
proof fn lemma_program_labels_within(p: ProgramV)
    requires
        lower_program(p) is Ok,
        p.defs.len() <= u64::MAX,
    ensures
        labels_within(lower_program(p)->Ok_0, 0, 0x1_0000_0000_0000_0000, 0, p.defs.len() as int, true),
{
    let names = def_names(p.defs);
    let funcs = fn_table(names, names.len() as int);
    let arities = def_arities(p.defs);
    let n = p.defs.len() as int;
    lemma_defs_labels(p.defs, n, funcs, arities);
    let rd = lower_defs(p.defs, n, funcs, arities)->Ok_0;
    let dep = depth_spec(p.main);
    let slots = frame_slots(dep);
    let fr = Frame { is_main: true, arity: 0, slots: slots as i64 };
    lemma_lower_labels(p.main, 0, Map::empty(), None, false, fr, funcs, arities, rd.1);
    let rm = lower(p.main, 0, Map::empty(), None, false, fr, funcs, arities, rd.1)->Ok_0;
    let bytes = Val::Const((slots * 8) as i64);
    let head = seq![Instr::Label(Label::Entry), Instr::ISub(Val::Reg(Reg::RSP), bytes)];
    let foot = seq![Instr::IAdd(Val::Reg(Reg::RSP), bytes), Instr::Return];
    assert(labels_within(head, rd.1, rd.1, n, n, true)) by {
        assert(label_def(head[1]) is None);
    }
    assert(labels_within(rm.0, rd.1, rm.1, n, n, false));
    assert(labels_within(foot, rm.1, rm.1, n, n, false));
    lemma_within_concat(rd.0, head, 0, rd.1, rd.1, 0, n, n, false, true);
    lemma_within_concat(rd.0 + head, rm.0, 0, rd.1, rm.1, 0, n, n, true, false);
    lemma_within_concat(rd.0 + head + rm.0, foot, 0, rm.1, rm.1, 0, n, n, true, false);
    let code = lower_program(p)->Ok_0;
    assert(code == rd.0 + head + rm.0 + foot);
    assert forall|i: int| 0 <= i < code.len() implies (#[trigger] label_def(code[i]) matches Some(x)
        ==> label_in(x, 0, 0x1_0000_0000_0000_0000, 0, n, true)) by {
        assert(label_def(code[i]) matches Some(x) ==> label_in(x, 0, rm.1, 0, n, true));
    }
}

} // verus!

verus! {

proof fn lemma_digit_text(d: int)
    requires
        0 <= d < 10,
    ensures
        digit_text(d).len() == 1,
        is_digit(digit_text(d)[0]),
        forall|e: int| 0 <= e < 10 && #[trigger] digit_text(e) == digit_text(d) ==> e == d,
{
    reveal_strlit("0");
    reveal_strlit("1");
    reveal_strlit("2");
    reveal_strlit("3");
    reveal_strlit("4");
    reveal_strlit("5");
    reveal_strlit("6");
    reveal_strlit("7");
    reveal_strlit("8");
    reveal_strlit("9");
    assert forall|e: int| 0 <= e < 10 && #[trigger] digit_text(e) == digit_text(d) implies e == d by {
        assert(digit_text(e)[0] == digit_text(d)[0]);
    }
}

/// The decimal digits of a number are one or more digit characters, two or more from 10 on.
proof fn lemma_digits_text(n: nat)
    ensures
        digits_text(n).len() >= 1,
        n >= 10 ==> digits_text(n).len() >= 2,
        forall|i: int| 0 <= i < digits_text(n).len() ==> is_digit(#[trigger] digits_text(n)[i]),
    decreases n,
{
    lemma_digit_text((n % 10) as int);
    if n >= 10 {
        lemma_digits_text(n / 10);
        let a = digits_text(n / 10);
        let b = digit_text((n % 10) as int);
        assert forall|i: int| 0 <= i < digits_text(n).len() implies is_digit(#[trigger] digits_text(n)[i]) by {
            if i < a.len() {
                assert(digits_text(n)[i] == a[i]);
            } else {
                assert(digits_text(n)[i] == b[i - a.len()]);
            }
        }
    }
}

/// Different numbers have different decimal digits.
proof fn lemma_digits_injective(n: nat, m: nat)
    requires
        digits_text(n) == digits_text(m),
    ensures
        n == m,
    decreases n,
{
    lemma_digits_text(n);
    lemma_digits_text(m);
    lemma_digit_text((n % 10) as int);
    lemma_digit_text((m % 10) as int);
    if n < 10 && m < 10 {
    } else if n >= 10 && m >= 10 {
        let (a, b) = (digits_text(n / 10), digits_text(m / 10));
        let t = digits_text(n);
        assert(t.last() == digit_text((n % 10) as int)[0]);
        assert(t.last() == digit_text((m % 10) as int)[0]);
        assert(digit_text((n % 10) as int) =~= seq![t.last()]);
        assert(digit_text((m % 10) as int) =~= seq![t.last()]);
        assert(a =~= t.drop_last());
        assert(b =~= t.drop_last());
        lemma_digits_injective(n / 10, m / 10);
    } else {
        lemma_digits_text(n / 10);
        lemma_digits_text(m / 10);
    }
}

/// The word a fresh label's text starts with.
pub open spec fn fresh_prefix(x: Label) -> Seq<char> {
    match x {
        Label::CmpEnd(_) => "cmp_end_label"@,
        Label::IfEnd(_) => "ifend"@,
        Label::IfElse(_) => "ifelse"@,
        Label::LoopStart(_) => "loop_start"@,
        _ => "loop_end"@,
    }
}

/// The counter value a fresh label is made from.
pub open spec fn fresh_count(x: Label) -> nat {
    match x {
        Label::CmpEnd(n) => n as nat,
        Label::IfEnd(n) => n as nat,
        Label::IfElse(n) => n as nat,
        Label::LoopStart(n) => n as nat,
        Label::LoopEnd(n) => n as nat,
        _ => 0,
    }
}

/// Whether a label is made from the counter.
pub open spec fn is_fresh(x: Label) -> bool {
    x is CmpEnd || x is IfEnd || x is IfElse || x is LoopStart || x is LoopEnd
}

/// The text of a fresh label is its word followed by its counter's digits, so it has the form
/// that function names may not take.
proof fn lemma_fresh_text(x: Label, names: Seq<Seq<char>>)
    requires
        is_fresh(x),
    ensures
        label_text(x, names) == fresh_prefix(x) + digits_text(fresh_count(x)),
        prefix_then_digits(label_text(x, names), fresh_prefix(x)),
        is_generated_label(label_text(x, names)),
{
    let p = fresh_prefix(x);
    let d = digits_text(fresh_count(x));
    lemma_digits_text(fresh_count(x));
    let t = p + d;
    assert(t.subrange(0, p.len() as int) =~= p);
    assert forall|i: int| p.len() <= i < t.len() implies is_digit(#[trigger] t[i]) by {
        assert(t[i] == d[i - p.len()]);
    }
}

proof fn lemma_first_dup_none(ps: Seq<Seq<char>>)
    requires
        first_dup(ps) is None,
    ensures
        forall|i: int, j: int| 0 <= i < j < ps.len() ==> #[trigger] ps[i] != #[trigger] ps[j],
    decreases ps.len(),
{
    if ps.len() > 0 {
        let q = ps.drop_last();
        lemma_first_dup_none(q);
        assert forall|i: int, j: int| 0 <= i < j < ps.len() implies #[trigger] ps[i] != #[trigger] ps[j] by {
            if j < ps.len() - 1 {
                assert(ps[i] == q[i] && ps[j] == q[j]);
            } else {
                assert(ps[i] == q[i]);
                if ps[i] == ps[j] {
                    assert(q.contains(ps.last()));
                }
            }
        }
    }
}

/// Two different labels that the code of a program defines have different texts.
proof fn lemma_label_texts_differ(x: Label, y: Label, names: Seq<Seq<char>>)
    requires
        x != y,
        label_in(x, 0, 0x1_0000_0000_0000_0000, 0, names.len() as int, true),
        label_in(y, 0, 0x1_0000_0000_0000_0000, 0, names.len() as int, true),
        forall|k: int| 0 <= k < names.len() ==> is_function_name(#[trigger] names[k]),
        forall|i: int, j: int| 0 <= i < j < names.len() ==> #[trigger] names[i] != #[trigger] names[j],
    ensures
        label_text(x, names) != label_text(y, names),
{
    reveal_strlit("cmp_end_label");
    reveal_strlit("ifend");
    reveal_strlit("ifelse");
    reveal_strlit("loop_start");
    reveal_strlit("loop_end");
    reveal_strlit("our_code_starts_here");
    let tx = label_text(x, names);
    let ty = label_text(y, names);
    if is_fresh(x) {
        lemma_fresh_text(x, names);
    }
    if is_fresh(y) {
        lemma_fresh_text(y, names);
    }
    if is_fresh(x) && is_fresh(y) {
        let (px, py) = (fresh_prefix(x), fresh_prefix(y));
        if px == py {
            if tx == ty {
                assert(digits_text(fresh_count(x)) =~= tx.subrange(px.len() as int, tx.len() as int));
                assert(digits_text(fresh_count(y)) =~= ty.subrange(py.len() as int, ty.len() as int));
                lemma_digits_injective(fresh_count(x), fresh_count(y));
            }
        } else {
            assert(tx[0] == px[0] && ty[0] == py[0]);
            assert(tx[3] == px[3] && ty[3] == py[3]);
            if px.len() > 5 && py.len() > 5 {
                assert(tx[5] == px[5] && ty[5] == py[5]);
            }
        }
    } else if is_fresh(x) || is_fresh(y) {
        if x is Entry || y is Entry {
            let f = if is_fresh(x) { x } else { y };
            let t = label_text(f, names);
            assert(t[0] == fresh_prefix(f)[0]);
        }
    } else if x is Func && y is Func {
        let (a, b) = (x->Func_0 as int, y->Func_0 as int);
        if a < b {
            assert(names[a] != names[b]);
        } else {
            assert(names[b] != names[a]);
        }
    }
}

/// Whether, in the code of a program, no label is `throw_error` and no two label lines are
/// the same text.
pub open spec fn label_lines_distinct(p: ProgramV) -> bool {
    lower_program(p) matches Ok(code) && {
        let names = def_names(p.defs);
        &&& forall|i: int|
            0 <= i < code.len() ==> (#[trigger] label_def(code[i]) matches Some(x) ==> label_text(
                x,
                names,
            ) != "throw_error"@)
        &&& forall|i: int, j: int|
            0 <= i < j < code.len() && #[trigger] label_def(code[i]) is Some && #[trigger] label_def(
                code[j],
            ) is Some ==> label_text(label_def(code[i])->0, names) != label_text(
                label_def(code[j])->0,
                names,
            )
    }
}

/// No two label lines of a program's assembly text are the same (compilation refuses a
/// function named as the runtime interface, a register or a generated label): each
/// function's name, `our_code_starts_here` and each fresh label appear as a label once (and
/// none is `throw_error`, which the prologue defines).
pub proof fn lemma_label_lines_distinct(p: ProgramV)
    requires
        lower_program(p) is Ok,
        p.defs.len() <= u64::MAX,
    ensures
        label_lines_distinct(p),
{
    let code = lower_program(p)->Ok_0;
    let names = def_names(p.defs);
    let n = p.defs.len() as int;
    lemma_program_labels_within(p);
    lemma_first_dup_none(names);
    lemma_no_bad_name(names);
    assert forall|i: int| 0 <= i < code.len() implies (#[trigger] label_def(code[i]) matches Some(x)
        ==> label_text(x, names) != "throw_error"@) by {
        if label_def(code[i]) is Some {
            let x = label_def(code[i])->0;
            reveal_strlit("throw_error");
            reveal_strlit("our_code_starts_here");
            assert(label_in(x, 0, 0x1_0000_0000_0000_0000, 0, n, true));
            if x is Func {
                let k = x->Func_0 as int;
                assert(is_function_name(names[k]));
                assert(label_text(x, names) == names[k]);
            } else if x is Entry {
                assert(label_text(x, names).len() != "throw_error"@.len());
            }
            if is_fresh(x) {
                lemma_fresh_text(x, names);
                reveal_strlit("cmp_end_label");
                reveal_strlit("ifend");
                reveal_strlit("ifelse");
                reveal_strlit("loop_start");
                reveal_strlit("loop_end");
                assert(label_text(x, names)[0] == fresh_prefix(x)[0]);
            }
        }
    }
    assert forall|i: int, j: int|
        0 <= i < j < code.len() && #[trigger] label_def(code[i]) is Some && #[trigger] label_def(
            code[j],
        ) is Some implies label_text(label_def(code[i])->0, names) != label_text(
        label_def(code[j])->0,
        names,
    ) by {
        lemma_label_texts_differ(label_def(code[i])->0, label_def(code[j])->0, names);
    }
}


} // verus!
