//! Lowering expressions, definitions and programs to instructions.
use vstd::prelude::*;
use crate::ast::{
    Binding, Definition, DefinitionV, Expr, ExprV, Op1, Op2, Program, ProgramV, binds_view,
    defs_view, exprs_view, lemma_expr_view, strings_view,
};
use crate::depth::{
    MAX_SLOTS, bind_depth, depth, depth_spec, lemma_bind_depth_bounds, lemma_depth_nonneg,
    lemma_max_depth_bounds,
};
use crate::env::{NameMap, entries, map_get, map_new, map_update};
use crate::error::{CompileError, ErrV, ErrorKind, result_view};
use crate::laws::{label_lines_distinct, lemma_label_lines_distinct};
use crate::instr::{Instr, Label, Reg, Val, instrs_text, instrs_to_str};
use crate::parser::{
    first_dup, find_duplicate, function_name, in_value_range, is_function_name, plain_err,
};

verus! {

/// The tagged word for `true`.
pub const TRUE_CONST: i64 = 3;

/// The tagged word for `false`.
pub const FALSE_CONST: i64 = 1;

/// The runtime error code for an operand of the wrong type.
pub const ERRCODE_INVALID_ARG: i64 = 1;

/// The runtime error code for an arithmetic overflow.
pub const ERRCODE_OVERFLOW: i64 = 2;

/// What the code of one function body knows of its frame.
#[derive(Clone, Copy, Debug, PartialEq, Eq, Structural)]
pub struct Frame {
    /// Whether the body is the main expression.
    pub is_main: bool,
    /// The number of parameters of the enclosing function (0 in main).
    pub arity: u64,
    /// The number of 8-byte slots of the frame.
    pub slots: i64,
}

/// The accumulator.
pub open spec fn rax() -> Val {
    Val::Reg(Reg::RAX)
}

/// Stack slot `k` of the current frame.
pub open spec fn slot(k: int) -> Val {
    Val::RegOffset(Reg::RSP, k as i64)
}

/// Jumps to the error trampoline, with the invalid-argument code in `rdi`, when the operand's
/// low bit is set.
pub open spec fn not_bool_code(v: Val) -> Seq<Instr> {
    seq![
        Instr::IMov(Val::Reg(Reg::RBX), v),
        Instr::And(Val::Reg(Reg::RBX), Val::Const(1)),
        Instr::Cmp(Val::Reg(Reg::RBX), Val::Const(0)),
        Instr::IMov(Val::Reg(Reg::RBX), Val::Const(ERRCODE_INVALID_ARG)),
        Instr::ICMovne(Val::Reg(Reg::RDI), Val::Reg(Reg::RBX)),
        Instr::Jne(Label::ThrowError),
    ]
}

/// Jumps to the error trampoline, with the overflow code in `rdi`, when the last arithmetic
/// operation overflowed.
pub open spec fn not_overflow_code() -> Seq<Instr> {
    seq![
        Instr::IMov(Val::Reg(Reg::RBX), Val::Const(ERRCODE_OVERFLOW)),
        Instr::ICMovo(Val::Reg(Reg::RDI), Val::Reg(Reg::RBX)),
        Instr::Jo(Label::ThrowError),
    ]
}

/// Turns the flags of `cmp rax, 0` into a boolean: `when_zero` if equal, the other if not.
pub open spec fn bool_select_code(when_zero: i64, otherwise: i64) -> Seq<Instr> {
    seq![
        Instr::IMov(rax(), Val::Const(otherwise)),
        Instr::IMov(Val::Reg(Reg::RBX), Val::Const(when_zero)),
        Instr::CMov(rax(), Val::Reg(Reg::RBX)),
    ]
}

/// The code after a unary operand, which is in the accumulator.
pub open spec fn unop_code(op: Op1) -> Seq<Instr> {
    match op {
        Op1::Add1 => not_bool_code(rax()) + seq![Instr::IAdd(rax(), Val::Const(2))]
            + not_overflow_code(),
        Op1::Sub1 => not_bool_code(rax()) + seq![Instr::ISub(rax(), Val::Const(2))]
            + not_overflow_code(),
        Op1::IsNum => seq![
            Instr::And(rax(), Val::Const(1)),
            Instr::Cmp(rax(), Val::Const(0)),
        ] + bool_select_code(TRUE_CONST, FALSE_CONST),
        Op1::IsBool => seq![
            Instr::And(rax(), Val::Const(1)),
            Instr::Cmp(rax(), Val::Const(0)),
        ] + bool_select_code(FALSE_CONST, TRUE_CONST),
    }
}

/// Whether a binary primitive is an ordering comparison, which takes a fresh label.
pub open spec fn is_ordering(op: Op2) -> bool {
    op is Greater || op is GreaterEqual || op is Less || op is LessEqual
}

/// An ordering comparison: `first` in the accumulator, replaced by `second` unless `jump`
/// is taken to `end`.
pub open spec fn compare_code(si: int, first: i64, second: i64, jump: Instr, end: Label) -> Seq<
    Instr,
> {
    not_bool_code(rax()) + not_bool_code(slot(si)) + seq![
        Instr::Cmp(rax(), slot(si)),
        Instr::IMov(rax(), Val::Const(first)),
        jump,
        Instr::IMov(rax(), Val::Const(second)),
        Instr::Label(end),
    ]
}

/// The code after a binary operation's operands: the left one in the accumulator, the right
/// one in slot `si`; `n` is the label counter for a comparison's end label.
pub open spec fn binop_code(op: Op2, si: int, n: u64) -> Seq<Instr> {
    let end = Label::CmpEnd(n);
    match op {
        Op2::Plus => not_bool_code(rax()) + not_bool_code(slot(si)) + seq![
            Instr::IAdd(rax(), slot(si)),
        ] + not_overflow_code(),
        Op2::Minus => not_bool_code(rax()) + not_bool_code(slot(si)) + seq![
            Instr::ISub(rax(), slot(si)),
        ] + not_overflow_code(),
        Op2::Times => not_bool_code(rax()) + not_bool_code(slot(si)) + seq![
            Instr::Sar(rax(), Val::Const(1)),
            Instr::IMul(rax(), slot(si)),
        ] + not_overflow_code(),
        Op2::Equal => seq![
            Instr::IMov(Val::Reg(Reg::RBX), rax()),
            Instr::IMov(Val::Reg(Reg::RCX), slot(si)),
            Instr::And(Val::Reg(Reg::RBX), Val::Const(1)),
            Instr::And(Val::Reg(Reg::RCX), Val::Const(1)),
            Instr::Cmp(Val::Reg(Reg::RBX), Val::Reg(Reg::RCX)),
            Instr::IMov(Val::Reg(Reg::RBX), Val::Const(ERRCODE_INVALID_ARG)),
            Instr::ICMovne(Val::Reg(Reg::RDI), Val::Reg(Reg::RBX)),
            Instr::Jne(Label::ThrowError),
            Instr::Cmp(rax(), slot(si)),
        ] + bool_select_code(TRUE_CONST, FALSE_CONST),
        Op2::Greater => compare_code(si, FALSE_CONST, TRUE_CONST, Instr::Jle(end), end),
        Op2::GreaterEqual => compare_code(si, TRUE_CONST, FALSE_CONST, Instr::Jge(end), end),
        Op2::Less => compare_code(si, FALSE_CONST, TRUE_CONST, Instr::Jge(end), end),
        Op2::LessEqual => compare_code(si, TRUE_CONST, FALSE_CONST, Instr::Jle(end), end),
    }
}

/// Calls `snek_print` on the accumulator, keeping the accumulator and `rdi`.
pub open spec fn print_code(si: int) -> Seq<Instr> {
    seq![
        Instr::IMov(slot(si), rax()),
        Instr::IMov(slot(si + 1), Val::Reg(Reg::RDI)),
        Instr::IMov(Val::Reg(Reg::RDI), rax()),
        Instr::Call(Label::SnekPrint),
        Instr::IMov(rax(), slot(si)),
        Instr::IMov(Val::Reg(Reg::RDI), slot(si + 1)),
    ]
}

/// Copies `k` words from slots `src, src + 1, ...` to slots `dst, dst + 1, ...` through the
/// accumulator.
pub open spec fn moves_code(k: int, src: int, dst: int) -> Seq<Instr>
    decreases k,
{
    if k <= 0 {
        Seq::empty()
    } else {
        moves_code(k - 1, src, dst) + seq![
            Instr::IMov(rax(), slot(src + k - 1)),
            Instr::IMov(slot(dst + k - 1), rax()),
        ]
    }
}

/// The even number of slots set aside below the stack pointer for `n` outgoing arguments.
pub open spec fn param_offset(n: int) -> int {
    (n + 1) / 2 * 2
}

/// The code of a call of the function with index `idx` on `n` arguments spilled at slots
/// `si, si + 1, ...`: a jump that reuses the frame in tail position where the caller has room
/// for the arguments, else an ordinary call.
pub open spec fn call_code(idx: u64, n: int, si: int, tail: bool, fr: Frame) -> Seq<Instr> {
    if tail && n <= fr.arity {
        moves_code(n, si, fr.slots + 1) + seq![
            Instr::IAdd(Val::Reg(Reg::RSP), Val::Const((fr.slots * 8) as i64)),
            Instr::Jmp(Label::Func(idx)),
        ]
    } else {
        let po = param_offset(n);
        moves_code(n, si, -po) + seq![
            Instr::ISub(Val::Reg(Reg::RSP), Val::Const((po * 8) as i64)),
            Instr::Call(Label::Func(idx)),
            Instr::IAdd(Val::Reg(Reg::RSP), Val::Const((po * 8) as i64)),
        ]
    }
}

/// Whether the name of binding `i` is bound by an earlier binding of the same `let`.
pub open spec fn bound_before(bs: Seq<(Seq<char>, ExprV)>, i: int) -> bool {
    exists|m: int| 0 <= m < i && bs[m].0 == bs[i].0
}

/// The first `k` bindings of a `let` evaluated from slot `si` on: their code, the environment
/// they leave, and the next label counter.
pub open spec fn lower_binds(
    bs: Seq<(Seq<char>, ExprV)>,
    k: int,
    si: int,
    env: Map<Seq<char>, i64>,
    brk: Option<u64>,
    fr: Frame,
    funcs: Map<Seq<char>, i64>,
    arities: Seq<u64>,
    l: int,
) -> Result<(Seq<Instr>, Map<Seq<char>, i64>, int), ErrV>
    decreases bs, k,
{
    if k <= 0 {
        Ok((Seq::empty(), env, l))
    } else if k > bs.len() {
        Err(plain_err(ErrorKind::Invalid))
    } else {
        match lower_binds(bs, k - 1, si, env, brk, fr, funcs, arities, l) {
            Err(e) => Err(e),
            Ok((code, env1, l1)) => if bound_before(bs, k - 1) {
                Err((ErrorKind::Duplicate, bs[k - 1].0))
            } else {
                match lower(bs[k - 1].1, si + k - 1, env1, brk, false, fr, funcs, arities, l1) {
                    Err(e) => Err(e),
                    Ok((ci, l2)) => Ok(
                        (
                            code + ci + seq![Instr::IMov(slot(si + k - 1), rax())],
                            env1.insert(bs[k - 1].0, (si + k - 1) as i64),
                            l2,
                        ),
                    ),
                }
            },
        }
    }
}

/// The first `k` items of a list. With `spill`, the arguments of a call: item `i` is
/// evaluated at slot `si + i`, not in tail position, and stored there. Without, the items of
/// a block: each evaluated at `si`, the last one in the block's own tail position.
pub open spec fn lower_list(
    es: Seq<ExprV>,
    k: int,
    spill: bool,
    si: int,
    env: Map<Seq<char>, i64>,
    brk: Option<u64>,
    tail: bool,
    fr: Frame,
    funcs: Map<Seq<char>, i64>,
    arities: Seq<u64>,
    l: int,
) -> Result<(Seq<Instr>, int), ErrV>
    decreases es, k,
{
    if k <= 0 {
        Ok((Seq::empty(), l))
    } else if k > es.len() {
        Err(plain_err(ErrorKind::Invalid))
    } else {
        match lower_list(es, k - 1, spill, si, env, brk, tail, fr, funcs, arities, l) {
            Err(e) => Err(e),
            Ok((code, l1)) => if spill {
                match lower(es[k - 1], si + k - 1, env, brk, false, fr, funcs, arities, l1) {
                    Err(e) => Err(e),
                    Ok((ci, l2)) => Ok(
                        (code + ci + seq![Instr::IMov(slot(si + k - 1), rax())], l2),
                    ),
                }
            } else {
                match lower(es[k - 1], si, env, brk, tail && k == es.len(), fr, funcs, arities, l1) {
                    Err(e) => Err(e),
                    Ok((ci, l2)) => Ok((code + ci, l2)),
                }
            },
        }
    }
}

/// Whether a label counter has room for `n` more labels.
pub open spec fn has_labels(l: int, n: int) -> bool {
    l + n <= u64::MAX
}

/// The code of an expression evaluated with its temporaries from slot `si` on, under the
/// environment `env` (name to slot), the innermost enclosing loop's end label `brk`, in tail
/// position or not, in the frame `fr`, with the function table `funcs` (name to index) and
/// the arities by index; `l` is the label counter. The result is the code and the next label
/// counter, or the first error.
pub open spec fn lower(
    e: ExprV,
    si: int,
    env: Map<Seq<char>, i64>,
    brk: Option<u64>,
    tail: bool,
    fr: Frame,
    funcs: Map<Seq<char>, i64>,
    arities: Seq<u64>,
    l: int,
) -> Result<(Seq<Instr>, int), ErrV>
    decreases e, 0int,
{
    match e {
        ExprV::Number(n) => if in_value_range(n) {
            Ok((seq![Instr::IMov(rax(), Val::Const((2 * n) as i64))], l))
        } else {
            Err(plain_err(ErrorKind::Invalid))
        },
        ExprV::Boolean(b) => Ok(
            (seq![Instr::IMov(rax(), Val::Const(if b { TRUE_CONST } else { FALSE_CONST }))], l),
        ),
        ExprV::Input => if fr.is_main {
            Ok((seq![Instr::IMov(rax(), Val::Reg(Reg::RDI))], l))
        } else {
            Err(plain_err(ErrorKind::InputOutsideMain))
        },
        ExprV::Id(x) => if env.contains_key(x) {
            Ok((seq![Instr::IMov(rax(), slot(env[x] as int))], l))
        } else {
            Err((ErrorKind::Unbound, x))
        },
        ExprV::Let(bs, body) => if bs.len() == 0 {
            Err(plain_err(ErrorKind::Invalid))
        } else {
            match lower_binds(bs, bs.len() as int, si, env, brk, fr, funcs, arities, l) {
                Err(e) => Err(e),
                Ok((code, env1, l1)) => match lower(
                    *body,
                    si + bs.len(),
                    env1,
                    brk,
                    tail,
                    fr,
                    funcs,
                    arities,
                    l1,
                ) {
                    Err(e) => Err(e),
                    Ok((cb, l2)) => Ok((code + cb, l2)),
                },
            }
        },
        ExprV::UnOp(op, x) => match lower(*x, si, env, brk, false, fr, funcs, arities, l) {
            Err(e) => Err(e),
            Ok((cx, l1)) => Ok((cx + unop_code(op), l1)),
        },
        ExprV::BinOp(op, a, b) => match lower(*b, si, env, brk, false, fr, funcs, arities, l) {
            Err(e) => Err(e),
            Ok((cb, l1)) => match lower(*a, si + 1, env, brk, false, fr, funcs, arities, l1) {
                Err(e) => Err(e),
                Ok((ca, l2)) => if is_ordering(op) && !has_labels(l2, 1) {
                    Err(plain_err(ErrorKind::TooLarge))
                } else {
                    Ok(
                        (
                            cb + seq![Instr::IMov(slot(si), rax())] + ca + binop_code(
                                op,
                                si,
                                l2 as u64,
                            ),
                            if is_ordering(op) {
                                l2 + 1
                            } else {
                                l2
                            },
                        ),
                    )
                },
            },
        },
        ExprV::Assign(x, v) => match lower(*v, si, env, brk, false, fr, funcs, arities, l) {
            Err(e) => Err(e),
            Ok((cv, l1)) => if env.contains_key(x) {
                Ok((cv.push(Instr::IMov(slot(env[x] as int), rax())), l1))
            } else {
                Err((ErrorKind::Unbound, x))
            },
        },
        ExprV::If(c, t, f) => if !has_labels(l, 2) {
            Err(plain_err(ErrorKind::TooLarge))
        } else {
            let end = Label::IfEnd(l as u64);
            let els = Label::IfElse((l + 1) as u64);
            match lower(*c, si, env, brk, false, fr, funcs, arities, l + 2) {
                Err(e) => Err(e),
                Ok((cc, l1)) => match lower(*t, si, env, brk, tail, fr, funcs, arities, l1) {
                    Err(e) => Err(e),
                    Ok((ct, l2)) => match lower(*f, si, env, brk, tail, fr, funcs, arities, l2) {
                        Err(e) => Err(e),
                        Ok((cf, l3)) => Ok(
                            (
                                cc + seq![
                                    Instr::Cmp(rax(), Val::Const(FALSE_CONST)),
                                    Instr::Je(els),
                                ] + ct + seq![Instr::Jmp(end), Instr::Label(els)] + cf + seq![
                                    Instr::Label(end),
                                ],
                                l3,
                            ),
                        ),
                    },
                },
            }
        },
        ExprV::Block(es) => if es.len() == 0 {
            Err(plain_err(ErrorKind::Invalid))
        } else {
            lower_list(es, es.len() as int, false, si, env, brk, tail, fr, funcs, arities, l)
        },
        ExprV::Loop(b) => if !has_labels(l, 2) {
            Err(plain_err(ErrorKind::TooLarge))
        } else {
            let start = Label::LoopStart(l as u64);
            let end = Label::LoopEnd((l + 1) as u64);
            match lower(*b, si, env, Some((l + 1) as u64), false, fr, funcs, arities, l + 2) {
                Err(e) => Err(e),
                Ok((cb, l1)) => Ok(
                    (
                        seq![Instr::Label(start)] + cb + seq![Instr::Jmp(start), Instr::Label(end)],
                        l1,
                    ),
                ),
            }
        },
        ExprV::Break(x) => match brk {
            None => Err(plain_err(ErrorKind::BreakOutsideLoop)),
            Some(target) => match lower(*x, si, env, brk, false, fr, funcs, arities, l) {
                Err(e) => Err(e),
                Ok((cx, l1)) => Ok((cx.push(Instr::Jmp(Label::LoopEnd(target))), l1)),
            },
        },
        ExprV::Call(name, args) => if !funcs.contains_key(name) || !(0 <= funcs[name]
            < arities.len()) {
            Err((ErrorKind::UndefinedFunction, name))
        } else if arities[funcs[name] as int] != args.len() {
            Err((ErrorKind::Arity, name))
        } else {
            match lower_list(args, args.len() as int, true, si, env, brk, false, fr, funcs, arities, l) {
                Err(e) => Err(e),
                Ok((ca, l1)) => Ok(
                    (ca + call_code(funcs[name] as u64, args.len() as int, si, tail, fr), l1),
                ),
            }
        },
        ExprV::Print(x) => match lower(*x, si, env, brk, false, fr, funcs, arities, l) {
            Err(e) => Err(e),
            Ok((cx, l1)) => Ok((cx + print_code(si), l1)),
        },
    }
}

} // verus!

verus! {

/// Whether running a lowering left what its specification `s` says: on success the code
/// appended to `before` and the next label counter, else the same error.
pub open spec fn lowered(
    s: Result<(Seq<Instr>, int), ErrV>,
    r: Result<(), CompileError>,
    l: u64,
    before: Seq<Instr>,
    after: Seq<Instr>,
) -> bool {
    match s {
        Ok((code, l2)) => r is Ok && l == l2 && after == before + code,
        Err(e) => r matches Err(x) && x@ == e,
    }
}

/// An error among the first `k` items is the error of the whole list.
pub proof fn lemma_lower_list_err(
    es: Seq<ExprV>,
    k: int,
    spill: bool,
    si: int,
    env: Map<Seq<char>, i64>,
    brk: Option<u64>,
    tail: bool,
    fr: Frame,
    funcs: Map<Seq<char>, i64>,
    arities: Seq<u64>,
    l: int,
    e: ErrV,
)
    requires
        0 <= k <= es.len(),
        lower_list(es, k, spill, si, env, brk, tail, fr, funcs, arities, l) == Err::<
            (Seq<Instr>, int),
            ErrV,
        >(e),
    ensures
        lower_list(es, es.len() as int, spill, si, env, brk, tail, fr, funcs, arities, l) == Err::<
            (Seq<Instr>, int),
            ErrV,
        >(e),
    decreases es.len() - k,
{
    if k < es.len() {
        lemma_lower_list_err(es, k + 1, spill, si, env, brk, tail, fr, funcs, arities, l, e);
    }
}

/// An error among the first `k` bindings is the error of the whole binding list.
pub proof fn lemma_lower_binds_err(
    bs: Seq<(Seq<char>, ExprV)>,
    k: int,
    si: int,
    env: Map<Seq<char>, i64>,
    brk: Option<u64>,
    fr: Frame,
    funcs: Map<Seq<char>, i64>,
    arities: Seq<u64>,
    l: int,
    e: ErrV,
)
    requires
        0 <= k <= bs.len(),
        lower_binds(bs, k, si, env, brk, fr, funcs, arities, l) == Err::<
            (Seq<Instr>, Map<Seq<char>, i64>, int),
            ErrV,
        >(e),
    ensures
        lower_binds(bs, bs.len() as int, si, env, brk, fr, funcs, arities, l) == Err::<
            (Seq<Instr>, Map<Seq<char>, i64>, int),
            ErrV,
        >(e),
    decreases bs.len() - k,
{
    if k < bs.len() {
        lemma_lower_binds_err(bs, k + 1, si, env, brk, fr, funcs, arities, l, e);
    }
}

/// Appends the type check of an arithmetic operand.
fn check_not_bool(out: &mut Vec<Instr>, v: Val)
    ensures
        final(out)@ == old(out)@ + not_bool_code(v),
{
    let ghost before = out@;
    out.push(Instr::IMov(Val::Reg(Reg::RBX), v));
    out.push(Instr::And(Val::Reg(Reg::RBX), Val::Const(1)));
    out.push(Instr::Cmp(Val::Reg(Reg::RBX), Val::Const(0)));
    out.push(Instr::IMov(Val::Reg(Reg::RBX), Val::Const(ERRCODE_INVALID_ARG)));
    out.push(Instr::ICMovne(Val::Reg(Reg::RDI), Val::Reg(Reg::RBX)));
    out.push(Instr::Jne(Label::ThrowError));
    assert(out@ =~= before + not_bool_code(v));
}

/// Appends the overflow check of an arithmetic result.
fn check_not_overflow(out: &mut Vec<Instr>)
    ensures
        final(out)@ == old(out)@ + not_overflow_code(),
{
    let ghost before = out@;
    out.push(Instr::IMov(Val::Reg(Reg::RBX), Val::Const(ERRCODE_OVERFLOW)));
    out.push(Instr::ICMovo(Val::Reg(Reg::RDI), Val::Reg(Reg::RBX)));
    out.push(Instr::Jo(Label::ThrowError));
    assert(out@ =~= before + not_overflow_code());
}

fn emit_bool_select(out: &mut Vec<Instr>, when_zero: i64, otherwise: i64)
    ensures
        final(out)@ == old(out)@ + bool_select_code(when_zero, otherwise),
{
    let ghost before = out@;
    out.push(Instr::IMov(Val::Reg(Reg::RAX), Val::Const(otherwise)));
    out.push(Instr::IMov(Val::Reg(Reg::RBX), Val::Const(when_zero)));
    out.push(Instr::CMov(Val::Reg(Reg::RAX), Val::Reg(Reg::RBX)));
    assert(out@ =~= before + bool_select_code(when_zero, otherwise));
}

fn emit_unop(out: &mut Vec<Instr>, op: Op1)
    ensures
        final(out)@ == old(out)@ + unop_code(op),
{
    let ghost before = out@;
    let rax = Val::Reg(Reg::RAX);
    match op {
        Op1::Add1 => {
            check_not_bool(out, rax);
            out.push(Instr::IAdd(rax, Val::Const(2)));
            check_not_overflow(out);
        },
        Op1::Sub1 => {
            check_not_bool(out, rax);
            out.push(Instr::ISub(rax, Val::Const(2)));
            check_not_overflow(out);
        },
        Op1::IsNum => {
            out.push(Instr::And(rax, Val::Const(1)));
            out.push(Instr::Cmp(rax, Val::Const(0)));
            emit_bool_select(out, TRUE_CONST, FALSE_CONST);
        },
        Op1::IsBool => {
            out.push(Instr::And(rax, Val::Const(1)));
            out.push(Instr::Cmp(rax, Val::Const(0)));
            emit_bool_select(out, FALSE_CONST, TRUE_CONST);
        },
    }
    assert(out@ =~= before + unop_code(op));
}

fn emit_compare(out: &mut Vec<Instr>, si: i64, first: i64, second: i64, jump: Instr, end: Label)
    ensures
        final(out)@ == old(out)@ + compare_code(si as int, first, second, jump, end),
{
    let ghost before = out@;
    let rax = Val::Reg(Reg::RAX);
    let spilled = Val::RegOffset(Reg::RSP, si);
    check_not_bool(out, rax);
    check_not_bool(out, spilled);
    out.push(Instr::Cmp(rax, spilled));
    out.push(Instr::IMov(rax, Val::Const(first)));
    out.push(jump);
    out.push(Instr::IMov(rax, Val::Const(second)));
    out.push(Instr::Label(end));
    assert(out@ =~= before + compare_code(si as int, first, second, jump, end));
}

fn emit_binop(out: &mut Vec<Instr>, op: Op2, si: i64, n: u64)
    ensures
        final(out)@ == old(out)@ + binop_code(op, si as int, n),
{
    let ghost before = out@;
    let rax = Val::Reg(Reg::RAX);
    let rbx = Val::Reg(Reg::RBX);
    let rcx = Val::Reg(Reg::RCX);
    let spilled = Val::RegOffset(Reg::RSP, si);
    let end = Label::CmpEnd(n);
    match op {
        Op2::Plus => {
            check_not_bool(out, rax);
            check_not_bool(out, spilled);
            out.push(Instr::IAdd(rax, spilled));
            check_not_overflow(out);
        },
        Op2::Minus => {
            check_not_bool(out, rax);
            check_not_bool(out, spilled);
            out.push(Instr::ISub(rax, spilled));
            check_not_overflow(out);
        },
        Op2::Times => {
            check_not_bool(out, rax);
            check_not_bool(out, spilled);
            out.push(Instr::Sar(rax, Val::Const(1)));
            out.push(Instr::IMul(rax, spilled));
            check_not_overflow(out);
        },
        Op2::Equal => {
            out.push(Instr::IMov(rbx, rax));
            out.push(Instr::IMov(rcx, spilled));
            out.push(Instr::And(rbx, Val::Const(1)));
            out.push(Instr::And(rcx, Val::Const(1)));
            out.push(Instr::Cmp(rbx, rcx));
            out.push(Instr::IMov(rbx, Val::Const(ERRCODE_INVALID_ARG)));
            out.push(Instr::ICMovne(Val::Reg(Reg::RDI), rbx));
            out.push(Instr::Jne(Label::ThrowError));
            out.push(Instr::Cmp(rax, spilled));
            emit_bool_select(out, TRUE_CONST, FALSE_CONST);
        },
        Op2::Greater => emit_compare(out, si, FALSE_CONST, TRUE_CONST, Instr::Jle(end), end),
        Op2::GreaterEqual => emit_compare(out, si, TRUE_CONST, FALSE_CONST, Instr::Jge(end), end),
        Op2::Less => emit_compare(out, si, FALSE_CONST, TRUE_CONST, Instr::Jge(end), end),
        Op2::LessEqual => emit_compare(out, si, TRUE_CONST, FALSE_CONST, Instr::Jle(end), end),
    }
    assert(out@ =~= before + binop_code(op, si as int, n));
}

fn emit_print(out: &mut Vec<Instr>, si: i64)
    requires
        0 <= si < MAX_SLOTS,
    ensures
        final(out)@ == old(out)@ + print_code(si as int),
{
    let ghost before = out@;
    let rax = Val::Reg(Reg::RAX);
    let rdi = Val::Reg(Reg::RDI);
    out.push(Instr::IMov(Val::RegOffset(Reg::RSP, si), rax));
    out.push(Instr::IMov(Val::RegOffset(Reg::RSP, si + 1), rdi));
    out.push(Instr::IMov(rdi, rax));
    out.push(Instr::Call(Label::SnekPrint));
    out.push(Instr::IMov(rax, Val::RegOffset(Reg::RSP, si)));
    out.push(Instr::IMov(rdi, Val::RegOffset(Reg::RSP, si + 1)));
    assert(out@ =~= before + print_code(si as int));
}

fn emit_moves(out: &mut Vec<Instr>, k: i64, src: i64, dst: i64)
    requires
        0 <= k <= 0x1000_0000,
        0 <= src <= 0x1000_0000,
        -0x2000_0000 <= dst <= 0x2000_0000,
    ensures
        final(out)@ == old(out)@ + moves_code(k as int, src as int, dst as int),
{
    let ghost before = out@;
    let mut j: i64 = 0;
    assert(before =~= before + moves_code(0, src as int, dst as int));
    while j < k
        invariant
            0 <= j <= k <= 0x1000_0000,
            0 <= src <= 0x1000_0000,
            -0x2000_0000 <= dst <= 0x2000_0000,
            out@ == before + moves_code(j as int, src as int, dst as int),
        decreases k - j,
    {
        let ghost mid = out@;
        out.push(Instr::IMov(Val::Reg(Reg::RAX), Val::RegOffset(Reg::RSP, src + j)));
        out.push(Instr::IMov(Val::RegOffset(Reg::RSP, dst + j), Val::Reg(Reg::RAX)));
        assert(out@ =~= before + moves_code(j + 1, src as int, dst as int));
        j += 1;
    }
}

fn emit_call(out: &mut Vec<Instr>, idx: u64, n: usize, si: i64, tail: bool, fr: Frame)
    requires
        0 <= si,
        si + n <= MAX_SLOTS,
        0 <= fr.slots <= MAX_SLOTS + 1,
    ensures
        final(out)@ == old(out)@ + call_code(idx, n as int, si as int, tail, fr),
{
    let ghost before = out@;
    let nn = n as i64;
    if tail && n as u64 <= fr.arity {
        emit_moves(out, nn, si, fr.slots + 1);
        out.push(Instr::IAdd(Val::Reg(Reg::RSP), Val::Const(fr.slots * 8)));
        out.push(Instr::Jmp(Label::Func(idx)));
    } else {
        let po = (nn + 1) / 2 * 2;
        emit_moves(out, nn, si, -po);
        out.push(Instr::ISub(Val::Reg(Reg::RSP), Val::Const(po * 8)));
        out.push(Instr::Call(Label::Func(idx)));
        out.push(Instr::IAdd(Val::Reg(Reg::RSP), Val::Const(po * 8)));
    }
    assert(out@ =~= before + call_code(idx, n as int, si as int, tail, fr));
}

} // verus!

verus! {

/// Whether the name of binding `i` is bound by an earlier binding.
fn name_bound_before(bs: &Vec<Binding>, i: usize) -> (r: bool)
    requires
        i < bs.len(),
    ensures
        r == bound_before(binds_view(bs@), i as int),
{
    let ghost bv = binds_view(bs@);
    let mut m: usize = 0;
    while m < i
        invariant
            m <= i < bs.len(),
            bv == binds_view(bs@),
            forall|j: int| 0 <= j < m ==> bv[j].0 != bv[i as int].0,
        decreases i - m,
    {
        if bs[m].name == bs[i].name {
            assert(bv[m as int].0 == bv[i as int].0);
            return true;
        }
        m += 1;
    }
    false
}

/// Lowers the items of a block (`spill` false) or the arguments of a call (`spill` true).
fn lower_items(
    es: &Vec<Expr>,
    spill: bool,
    si: i64,
    env: &NameMap,
    brk: Option<u64>,
    tail: bool,
    fr: Frame,
    funcs: &NameMap,
    arities: &Vec<u64>,
    l: &mut u64,
    out: &mut Vec<Instr>,
) -> (r: Result<(), CompileError>)
    requires
        0 <= si,
        spill ==> si + es.len() <= MAX_SLOTS,
        forall|i: int|
            0 <= i < es.len() ==> si + (if spill {
                i
            } else {
                0
            }) + depth_spec(#[trigger] es@[i]@) <= MAX_SLOTS,
        0 <= fr.slots <= MAX_SLOTS + 1,
    ensures
        lowered(
            lower_list(
                exprs_view(es@),
                es.len() as int,
                spill,
                si as int,
                entries(*env),
                brk,
                tail,
                fr,
                entries(*funcs),
                arities@,
                *old(l) as int,
            ),
            r,
            *final(l),
            old(out)@,
            final(out)@,
        ),
    decreases es, 0int,
{
    let ghost ev = exprs_view(es@);
    let ghost l0 = *l as int;
    let ghost out0 = out@;
    let mut i: usize = 0;
    assert(out0 =~= out0 + Seq::<Instr>::empty());
    while i < es.len()
        invariant
            i <= es.len(),
            0 <= si,
            spill ==> si + es.len() <= MAX_SLOTS,
            forall|i: int|
                0 <= i < es.len() ==> si + (if spill {
                    i
                } else {
                    0
                }) + depth_spec(#[trigger] es@[i]@) <= MAX_SLOTS,
            0 <= fr.slots <= MAX_SLOTS + 1,
            ev == exprs_view(es@),
            l0 == *old(l) as int,
            out0 == old(out)@,
            lower_list(
                ev,
                i as int,
                spill,
                si as int,
                entries(*env),
                brk,
                tail,
                fr,
                entries(*funcs),
                arities@,
                l0,
            ) matches Ok((code, l1)) && *l == l1 && out@ == out0 + code,
        decreases es.len() - i,
    {
        let ghost mid = out@;
        proof {
            lemma_depth_nonneg(es@[i as int]@);
        }
        let item_si = if spill {
            si + i as i64
        } else {
            si
        };
        let item_tail = !spill && tail && i + 1 == es.len();
        let r = compile_to_instrs(&es[i], item_si, env, brk, item_tail, fr, funcs, arities, l, out);
        match r {
            Err(x) => {
                proof {
                    assert(ev.len() == es.len());
                    lemma_lower_list_err(
                        ev,
                        i + 1,
                        spill,
                        si as int,
                        entries(*env),
                        brk,
                        tail,
                        fr,
                        entries(*funcs),
                        arities@,
                        l0,
                        x@,
                    );
                }
                return Err(x);
            },
            Ok(()) => {},
        }
        if spill {
            out.push(Instr::IMov(Val::RegOffset(Reg::RSP, si + i as i64), Val::Reg(Reg::RAX)));
        }
        proof {
            let prev = lower_list(
                ev,
                i as int,
                spill,
                si as int,
                entries(*env),
                brk,
                tail,
                fr,
                entries(*funcs),
                arities@,
                l0,
            );
            let code = prev->Ok_0.0;
            let item = lower(
                ev[i as int],
                item_si as int,
                entries(*env),
                brk,
                item_tail,
                fr,
                entries(*funcs),
                arities@,
                prev->Ok_0.1,
            );
            if spill {
                assert(out@ =~= out0 + (code + item->Ok_0.0 + seq![
                    Instr::IMov(slot(si + i), rax()),
                ]));
            } else {
                assert(out@ =~= out0 + (code + item->Ok_0.0));
            }
        }
        i += 1;
    }
    Ok(())
}

/// Lowers a `let`.
fn lower_let(
    e: &Expr,
    si: i64,
    env: &NameMap,
    brk: Option<u64>,
    tail: bool,
    fr: Frame,
    funcs: &NameMap,
    arities: &Vec<u64>,
    l: &mut u64,
    out: &mut Vec<Instr>,
) -> (r: Result<(), CompileError>)
    requires
        e is Let,
        0 <= si,
        si + depth_spec(e@) <= MAX_SLOTS,
        0 <= fr.slots <= MAX_SLOTS + 1,
    ensures
        lowered(
            lower(
                e@,
                si as int,
                entries(*env),
                brk,
                tail,
                fr,
                entries(*funcs),
                arities@,
                *old(l) as int,
            ),
            r,
            *final(l),
            old(out)@,
            final(out)@,
        ),
    decreases e, 0int,
{
    proof {
        lemma_expr_view(*e);
    }
    match e {
        Expr::Let(bs, body) => {
            let ghost bv = binds_view(bs@);
            let ghost l0 = *l as int;
            let ghost out0 = out@;
            proof {
                lemma_bind_depth_bounds(bv);
                lemma_depth_nonneg(body@);
            }
            if bs.len() == 0 {
                return Err(CompileError::plain(ErrorKind::Invalid));
            }
            let mut cur: NameMap = map_new();
            let mut i: usize = 0;
            assert(out0 =~= out0 + Seq::<Instr>::empty());
            while i < bs.len()
                invariant
                    i <= bs.len(),
                    0 <= si,
                    bv == binds_view(bs@),
                    l0 == *old(l) as int,
                    out0 == old(out)@,
                    *e == Expr::Let(*bs, *body),
                    bv.len() > 0,
                    e@ == ExprV::Let(bv, Box::new((**body)@)),
                    si + bind_depth(bv) + depth_spec(body@) <= MAX_SLOTS,
                    bind_depth(bv) >= bv.len(),
                    forall|j: int| 0 <= j < bv.len() ==> bind_depth(bv) >= depth_spec(#[trigger] bv[j].1) + j,
                    depth_spec(body@) >= 0,
                    0 <= fr.slots <= MAX_SLOTS + 1,
                    lower_binds(
                        bv,
                        i as int,
                        si as int,
                        entries(*env),
                        brk,
                        fr,
                        entries(*funcs),
                        arities@,
                        l0,
                    ) matches Ok((code, env1, l1)) && *l == l1 && out@ == out0 + code && env1 == (
                    if i == 0 {
                        entries(*env)
                    } else {
                        entries(cur)
                    }),
                decreases bs.len() - i,
            {
                let ghost prev = lower_binds(
                    bv,
                    i as int,
                    si as int,
                    entries(*env),
                    brk,
                    fr,
                    entries(*funcs),
                    arities@,
                    l0,
                );
                if name_bound_before(bs, i) {
                    let x = CompileError::named(ErrorKind::Duplicate, &bs[i].name);
                    proof {
                        assert(bv[i as int].0 == bs@[i as int].name@);
                        assert(bv.len() == bs.len());
                        lemma_lower_binds_err(
                            bv,
                            i + 1,
                            si as int,
                            entries(*env),
                            brk,
                            fr,
                            entries(*funcs),
                            arities@,
                            l0,
                            x@,
                        );
                    }
                    return Err(x);
                }
                let item_si = si + i as i64;
                proof {
                    lemma_depth_nonneg(bv[i as int].1);
                    assert(bv[i as int].0 == bs@[i as int].name@);
                    assert(bv.len() == bs.len());
                }
                let scope: &NameMap = if i == 0 {
                    env
                } else {
                    &cur
                };
                let r = compile_to_instrs(&bs[i].rhs, item_si, scope, brk, false, fr, funcs, arities, l, out);
                match r {
                    Err(x) => {
                        proof {
                            lemma_lower_binds_err(
                                bv,
                                i + 1,
                                si as int,
                                entries(*env),
                                brk,
                                fr,
                                entries(*funcs),
                                arities@,
                                l0,
                                x@,
                            );
                        }
                        return Err(x);
                    },
                    Ok(()) => {},
                }
                out.push(Instr::IMov(Val::RegOffset(Reg::RSP, item_si), Val::Reg(Reg::RAX)));
                let next = if i == 0 {
                    map_update(env, bs[i].name.clone(), item_si)
                } else {
                    map_update(&cur, bs[i].name.clone(), item_si)
                };
                proof {
                    let item = lower(
                        bv[i as int].1,
                        item_si as int,
                        prev->Ok_0.1,
                        brk,
                        false,
                        fr,
                        entries(*funcs),
                        arities@,
                        prev->Ok_0.2,
                    );
                    assert(out@ =~= out0 + (prev->Ok_0.0 + item->Ok_0.0 + seq![
                        Instr::IMov(slot(si + i), rax()),
                    ]));
                }
                cur = next;
                i += 1;
            }
            let ghost binds = lower_binds(
                bv,
                bv.len() as int,
                si as int,
                entries(*env),
                brk,
                fr,
                entries(*funcs),
                arities@,
                l0,
            );
            let ghost mid = out@;
            let r = compile_to_instrs(
                body,
                si + bs.len() as i64,
                &cur,
                brk,
                tail,
                fr,
                funcs,
                arities,
                l,
                out,
            );
            proof {
                let b = lower(
                    body@,
                    si + bs.len(),
                    binds->Ok_0.1,
                    brk,
                    tail,
                    fr,
                    entries(*funcs),
                    arities@,
                    binds->Ok_0.2,
                );
                if b is Ok {
                    assert(out@ =~= out0 + (binds->Ok_0.0 + b->Ok_0.0));
                }
            }
            r
        },
        _ => Err(CompileError::plain(ErrorKind::Invalid)),
    }
}

} // verus!

verus! {

fn is_ordering_op(op: Op2) -> (r: bool)
    ensures
        r == is_ordering(op),
{
    match op {
        Op2::Greater | Op2::GreaterEqual | Op2::Less | Op2::LessEqual => true,
        _ => false,
    }
}

/// Lowers an expression, appending its code to `out` and advancing the label counter `l`;
/// the result is exactly what [`lower`] describes.
pub fn compile_to_instrs(
    e: &Expr,
    si: i64,
    env: &NameMap,
    brk: Option<u64>,
    tail: bool,
    fr: Frame,
    funcs: &NameMap,
    arities: &Vec<u64>,
    l: &mut u64,
    out: &mut Vec<Instr>,
) -> (r: Result<(), CompileError>)
    requires
        0 <= si,
        si + depth_spec(e@) <= MAX_SLOTS,
        0 <= fr.slots <= MAX_SLOTS + 1,
    ensures
        lowered(
            lower(
                e@,
                si as int,
                entries(*env),
                brk,
                tail,
                fr,
                entries(*funcs),
                arities@,
                *old(l) as int,
            ),
            r,
            *final(l),
            old(out)@,
            final(out)@,
        ),
    decreases e, 1int,
{
    proof {
        lemma_expr_view(*e);
        lemma_depth_nonneg(e@);
    }
    let ghost out0 = out@;
    let ghost l0 = *l as int;
    let ghost ev = entries(*env);
    let ghost fv = entries(*funcs);
    let acc = Val::Reg(Reg::RAX);
    match e {
        Expr::Number(n) => {
            if -0x4000_0000_0000_0000i64 <= *n && *n < 0x4000_0000_0000_0000i64 {
                let v = 2 * *n;
                out.push(Instr::IMov(acc, Val::Const(v)));
                assert(out@ =~= out0 + seq![Instr::IMov(acc, Val::Const(v))]);
                Ok(())
            } else {
                Err(CompileError::plain(ErrorKind::Invalid))
            }
        },
        Expr::Boolean(b) => {
            let v = if *b {
                TRUE_CONST
            } else {
                FALSE_CONST
            };
            out.push(Instr::IMov(acc, Val::Const(v)));
            assert(out@ =~= out0 + seq![Instr::IMov(acc, Val::Const(v))]);
            Ok(())
        },
        Expr::Input => {
            if fr.is_main {
                out.push(Instr::IMov(acc, Val::Reg(Reg::RDI)));
                assert(out@ =~= out0 + seq![Instr::IMov(acc, Val::Reg(Reg::RDI))]);
                Ok(())
            } else {
                Err(CompileError::plain(ErrorKind::InputOutsideMain))
            }
        },
        Expr::Id(x) => match map_get(env, x) {
            Some(k) => {
                out.push(Instr::IMov(acc, Val::RegOffset(Reg::RSP, k)));
                assert(out@ =~= out0 + seq![Instr::IMov(acc, Val::RegOffset(Reg::RSP, k))]);
                Ok(())
            },
            None => Err(CompileError::named(ErrorKind::Unbound, x)),
        },
        Expr::Let(_, _) => lower_let(e, si, env, brk, tail, fr, funcs, arities, l, out),
        Expr::UnOp(op, x) => {
            let ghost sx = lower(x@, si as int, ev, brk, false, fr, fv, arities@, l0);
            let r = compile_to_instrs(x, si, env, brk, false, fr, funcs, arities, l, out);
            if r.is_err() {
                return r;
            }
            emit_unop(out, *op);
            assert(out@ =~= out0 + (sx->Ok_0.0 + unop_code(*op)));
            Ok(())
        },
        Expr::BinOp(_, _, _) => lower_binop(e, si, env, brk, tail, fr, funcs, arities, l, out),
        Expr::Assign(x, v) => {
            let ghost sv = lower(v@, si as int, ev, brk, false, fr, fv, arities@, l0);
            let r = compile_to_instrs(v, si, env, brk, false, fr, funcs, arities, l, out);
            if r.is_err() {
                return r;
            }
            match map_get(env, x) {
                Some(k) => {
                    out.push(Instr::IMov(Val::RegOffset(Reg::RSP, k), acc));
                    assert(out@ =~= out0 + sv->Ok_0.0.push(
                        Instr::IMov(Val::RegOffset(Reg::RSP, k), acc),
                    ));
                    Ok(())
                },
                None => Err(CompileError::named(ErrorKind::Unbound, x)),
            }
        },
        Expr::If(_, _, _) => lower_if(e, si, env, brk, tail, fr, funcs, arities, l, out),
        Expr::Block(es) => {
            if es.len() == 0 {
                return Err(CompileError::plain(ErrorKind::Invalid));
            }
            proof {
                lemma_max_depth_bounds(exprs_view(es@), 0, 0);
                assert forall|i: int| 0 <= i < es.len() implies si + 0 + depth_spec(
                    #[trigger] es@[i]@,
                ) <= MAX_SLOTS by {
                    assert(exprs_view(es@)[i] == es@[i]@);
                }
            }
            lower_items(es, false, si, env, brk, tail, fr, funcs, arities, l, out)
        },
        Expr::Loop(_) => lower_loop(e, si, env, brk, tail, fr, funcs, arities, l, out),
        Expr::Break(x) => match brk {
            None => Err(CompileError::plain(ErrorKind::BreakOutsideLoop)),
            Some(target) => {
                let ghost sx = lower(x@, si as int, ev, brk, false, fr, fv, arities@, l0);
                let r = compile_to_instrs(x, si, env, brk, false, fr, funcs, arities, l, out);
                if r.is_err() {
                    return r;
                }
                out.push(Instr::Jmp(Label::LoopEnd(target)));
                assert(out@ =~= out0 + sx->Ok_0.0.push(Instr::Jmp(Label::LoopEnd(target))));
                Ok(())
            },
        },
        Expr::Call(_, _) => lower_call(e, si, env, brk, tail, fr, funcs, arities, l, out),
        Expr::Print(x) => {
            let ghost sx = lower(x@, si as int, ev, brk, false, fr, fv, arities@, l0);
            proof {
                lemma_depth_nonneg(x@);
            }
            let r = compile_to_instrs(x, si, env, brk, false, fr, funcs, arities, l, out);
            if r.is_err() {
                return r;
            }
            emit_print(out, si);
            assert(out@ =~= out0 + (sx->Ok_0.0 + print_code(si as int)));
            Ok(())
        },
    }
}

/// Lowers a binary primitive.
fn lower_binop(
    e: &Expr,
    si: i64,
    env: &NameMap,
    brk: Option<u64>,
    tail: bool,
    fr: Frame,
    funcs: &NameMap,
    arities: &Vec<u64>,
    l: &mut u64,
    out: &mut Vec<Instr>,
) -> (r: Result<(), CompileError>)
    requires
        e is BinOp,
        0 <= si,
        si + depth_spec(e@) <= MAX_SLOTS,
        0 <= fr.slots <= MAX_SLOTS + 1,
    ensures
        lowered(
            lower(
                e@,
                si as int,
                entries(*env),
                brk,
                tail,
                fr,
                entries(*funcs),
                arities@,
                *old(l) as int,
            ),
            r,
            *final(l),
            old(out)@,
            final(out)@,
        ),
    decreases e, 0int,
{
    proof {
        lemma_expr_view(*e);
        lemma_depth_nonneg(e@);
    }
    let ghost out0 = out@;
    let ghost l0 = *l as int;
    let ghost ev = entries(*env);
    let ghost fv = entries(*funcs);
    let acc = Val::Reg(Reg::RAX);
    match e {
        Expr::BinOp(op, a, b) => {
            let ghost sb = lower(b@, si as int, ev, brk, false, fr, fv, arities@, l0);
            let r = compile_to_instrs(b, si, env, brk, false, fr, funcs, arities, l, out);
            if r.is_err() {
                return r;
            }
            out.push(Instr::IMov(Val::RegOffset(Reg::RSP, si), acc));
            let ghost sa = lower(a@, si + 1, ev, brk, false, fr, fv, arities@, sb->Ok_0.1);
            let r = compile_to_instrs(a, si + 1, env, brk, false, fr, funcs, arities, l, out);
            if r.is_err() {
                return r;
            }
            let ghost mid = out@;
            if is_ordering_op(*op) {
                if *l == u64::MAX {
                    return Err(CompileError::plain(ErrorKind::TooLarge));
                }
                let n = *l;
                *l = n + 1;
                emit_binop(out, *op, si, n);
            } else {
                emit_binop(out, *op, si, *l);
            }
            assert(out@ =~= out0 + (sb->Ok_0.0 + seq![Instr::IMov(slot(si as int), rax())]
                + sa->Ok_0.0 + binop_code(*op, si as int, sa->Ok_0.1 as u64)));
            Ok(())
        },
        _ => Err(CompileError::plain(ErrorKind::Invalid)),
    }
}

/// Lowers a conditional.
fn lower_if(
    e: &Expr,
    si: i64,
    env: &NameMap,
    brk: Option<u64>,
    tail: bool,
    fr: Frame,
    funcs: &NameMap,
    arities: &Vec<u64>,
    l: &mut u64,
    out: &mut Vec<Instr>,
) -> (r: Result<(), CompileError>)
    requires
        e is If,
        0 <= si,
        si + depth_spec(e@) <= MAX_SLOTS,
        0 <= fr.slots <= MAX_SLOTS + 1,
    ensures
        lowered(
            lower(
                e@,
                si as int,
                entries(*env),
                brk,
                tail,
                fr,
                entries(*funcs),
                arities@,
                *old(l) as int,
            ),
            r,
            *final(l),
            old(out)@,
            final(out)@,
        ),
    decreases e, 0int,
{
    proof {
        lemma_expr_view(*e);
        lemma_depth_nonneg(e@);
    }
    let ghost out0 = out@;
    let ghost l0 = *l as int;
    let ghost ev = entries(*env);
    let ghost fv = entries(*funcs);
    let acc = Val::Reg(Reg::RAX);
    match e {
        Expr::If(c, t, f) => {
            if *l >= u64::MAX - 1 {
                return Err(CompileError::plain(ErrorKind::TooLarge));
            }
            let n = *l;
            *l = n + 2;
            let end = Label::IfEnd(n);
            let els = Label::IfElse(n + 1);
            let ghost sc = lower(c@, si as int, ev, brk, false, fr, fv, arities@, l0 + 2);
            let r = compile_to_instrs(c, si, env, brk, false, fr, funcs, arities, l, out);
            if r.is_err() {
                return r;
            }
            out.push(Instr::Cmp(acc, Val::Const(FALSE_CONST)));
            out.push(Instr::Je(els));
            let ghost st = lower(t@, si as int, ev, brk, tail, fr, fv, arities@, sc->Ok_0.1);
            let r = compile_to_instrs(t, si, env, brk, tail, fr, funcs, arities, l, out);
            if r.is_err() {
                return r;
            }
            out.push(Instr::Jmp(end));
            out.push(Instr::Label(els));
            let ghost sf = lower(f@, si as int, ev, brk, tail, fr, fv, arities@, st->Ok_0.1);
            let r = compile_to_instrs(f, si, env, brk, tail, fr, funcs, arities, l, out);
            if r.is_err() {
                return r;
            }
            out.push(Instr::Label(end));
            assert(out@ =~= out0 + (sc->Ok_0.0 + seq![
                Instr::Cmp(rax(), Val::Const(FALSE_CONST)),
                Instr::Je(els),
            ] + st->Ok_0.0 + seq![Instr::Jmp(end), Instr::Label(els)] + sf->Ok_0.0 + seq![
                Instr::Label(end),
            ]));
            Ok(())
        },
        _ => Err(CompileError::plain(ErrorKind::Invalid)),
    }
}

/// Lowers a loop.
fn lower_loop(
    e: &Expr,
    si: i64,
    env: &NameMap,
    brk: Option<u64>,
    tail: bool,
    fr: Frame,
    funcs: &NameMap,
    arities: &Vec<u64>,
    l: &mut u64,
    out: &mut Vec<Instr>,
) -> (r: Result<(), CompileError>)
    requires
        e is Loop,
        0 <= si,
        si + depth_spec(e@) <= MAX_SLOTS,
        0 <= fr.slots <= MAX_SLOTS + 1,
    ensures
        lowered(
            lower(
                e@,
                si as int,
                entries(*env),
                brk,
                tail,
                fr,
                entries(*funcs),
                arities@,
                *old(l) as int,
            ),
            r,
            *final(l),
            old(out)@,
            final(out)@,
        ),
    decreases e, 0int,
{
    proof {
        lemma_expr_view(*e);
        lemma_depth_nonneg(e@);
    }
    let ghost out0 = out@;
    let ghost l0 = *l as int;
    let ghost ev = entries(*env);
    let ghost fv = entries(*funcs);
    let acc = Val::Reg(Reg::RAX);
    match e {
        Expr::Loop(b) => {
            if *l >= u64::MAX - 1 {
                return Err(CompileError::plain(ErrorKind::TooLarge));
            }
            let n = *l;
            *l = n + 2;
            let start = Label::LoopStart(n);
            let end = Label::LoopEnd(n + 1);
            out.push(Instr::Label(start));
            let ghost sb = lower(b@, si as int, ev, Some((n + 1) as u64), false, fr, fv, arities@, l0 + 2);
            let r = compile_to_instrs(b, si, env, Some(n + 1), false, fr, funcs, arities, l, out);
            if r.is_err() {
                return r;
            }
            out.push(Instr::Jmp(start));
            out.push(Instr::Label(end));
            assert(out@ =~= out0 + (seq![Instr::Label(start)] + sb->Ok_0.0 + seq![
                Instr::Jmp(start),
                Instr::Label(end),
            ]));
            Ok(())
        },
        _ => Err(CompileError::plain(ErrorKind::Invalid)),
    }
}

/// Lowers a call.
fn lower_call(
    e: &Expr,
    si: i64,
    env: &NameMap,
    brk: Option<u64>,
    tail: bool,
    fr: Frame,
    funcs: &NameMap,
    arities: &Vec<u64>,
    l: &mut u64,
    out: &mut Vec<Instr>,
) -> (r: Result<(), CompileError>)
    requires
        e is Call,
        0 <= si,
        si + depth_spec(e@) <= MAX_SLOTS,
        0 <= fr.slots <= MAX_SLOTS + 1,
    ensures
        lowered(
            lower(
                e@,
                si as int,
                entries(*env),
                brk,
                tail,
                fr,
                entries(*funcs),
                arities@,
                *old(l) as int,
            ),
            r,
            *final(l),
            old(out)@,
            final(out)@,
        ),
    decreases e, 0int,
{
    proof {
        lemma_expr_view(*e);
        lemma_depth_nonneg(e@);
    }
    let ghost out0 = out@;
    let ghost l0 = *l as int;
    let ghost ev = entries(*env);
    let ghost fv = entries(*funcs);
    let acc = Val::Reg(Reg::RAX);
    match e {
        Expr::Call(name, args) => {
            let k = match map_get(funcs, name) {
                Some(k) => k,
                None => {
                    return Err(CompileError::named(ErrorKind::UndefinedFunction, name));
                },
            };
            if k < 0 || k as u64 >= arities.len() as u64 {
                return Err(CompileError::named(ErrorKind::UndefinedFunction, name));
            }
            if arities[k as usize] != args.len() as u64 {
                return Err(CompileError::named(ErrorKind::Arity, name));
            }
            proof {
                lemma_max_depth_bounds(exprs_view(args@), 1, args.len() as int);
                assert forall|i: int| 0 <= i < args.len() implies si + i + depth_spec(
                    #[trigger] args@[i]@,
                ) <= MAX_SLOTS by {
                    assert(exprs_view(args@)[i] == args@[i]@);
                }
            }
            let ghost sa = lower_list(
                exprs_view(args@),
                args.len() as int,
                true,
                si as int,
                ev,
                brk,
                false,
                fr,
                fv,
                arities@,
                l0,
            );
            let r = lower_items(args, true, si, env, brk, false, fr, funcs, arities, l, out);
            if r.is_err() {
                return r;
            }
            emit_call(out, k as u64, args.len(), si, tail, fr);
            assert(out@ =~= out0 + (sa->Ok_0.0 + call_code(
                k as u64,
                args.len() as int,
                si as int,
                tail,
                fr,
            )));
            Ok(())
        },
        _ => Err(CompileError::plain(ErrorKind::Invalid)),
    }
}

} // verus!

verus! {

/// The slots of a frame whose body needs `d`: `d` rounded up to even, plus one, so that the
/// stack stays 16-byte aligned below the return address.
pub open spec fn frame_slots(d: int) -> int {
    (d + 1) / 2 * 2 + 1
}

/// The environment of a function body: parameter `i` at slot `slots + i + 1`, above the frame
/// and the return address (the first `k` parameters).
pub open spec fn param_env(params: Seq<Seq<char>>, slots: int, k: int) -> Map<Seq<char>, i64>
    decreases k,
{
    if k <= 0 {
        Map::empty()
    } else {
        param_env(params, slots, k - 1).insert(params[k - 1], (slots + k) as i64)
    }
}

/// The code of a definition whose function has index `idx`.
pub open spec fn lower_definition(
    d: DefinitionV,
    idx: int,
    funcs: Map<Seq<char>, i64>,
    arities: Seq<u64>,
    l: int,
) -> Result<(Seq<Instr>, int), ErrV> {
    let dep = depth_spec(d.body);
    if dep >= MAX_SLOTS || d.params.len() >= MAX_SLOTS {
        Err(plain_err(ErrorKind::TooLarge))
    } else {
        let slots = frame_slots(dep);
        let fr = Frame { is_main: false, arity: d.params.len() as u64, slots: slots as i64 };
        let bytes = Val::Const((slots * 8) as i64);
        match lower(
            d.body,
            0,
            param_env(d.params, slots, d.params.len() as int),
            None,
            true,
            fr,
            funcs,
            arities,
            l,
        ) {
            Err(e) => Err(e),
            Ok((code, l1)) => Ok(
                (
                    seq![
                        Instr::Label(Label::Func(idx as u64)),
                        Instr::ISub(Val::Reg(Reg::RSP), bytes),
                    ] + code + seq![Instr::IAdd(Val::Reg(Reg::RSP), bytes), Instr::Return],
                    l1,
                ),
            ),
        }
    }
}

/// The function table: the first `k` names, each mapped to its index.
pub open spec fn fn_table(names: Seq<Seq<char>>, k: int) -> Map<Seq<char>, i64>
    decreases k,
{
    if k <= 0 {
        Map::empty()
    } else {
        fn_table(names, k - 1).insert(names[k - 1], (k - 1) as i64)
    }
}

/// The names of the definitions.
pub open spec fn def_names(defs: Seq<DefinitionV>) -> Seq<Seq<char>> {
    Seq::new(defs.len(), |i: int| defs[i].name)
}

/// The arities of the definitions.
pub open spec fn def_arities(defs: Seq<DefinitionV>) -> Seq<u64> {
    Seq::new(defs.len(), |i: int| defs[i].params.len() as u64)
}

/// The code of the first `k` definitions, with the label counter starting at 0.
pub open spec fn lower_defs(
    defs: Seq<DefinitionV>,
    k: int,
    funcs: Map<Seq<char>, i64>,
    arities: Seq<u64>,
) -> Result<(Seq<Instr>, int), ErrV>
    decreases k,
{
    if k <= 0 {
        Ok((Seq::empty(), 0))
    } else {
        match lower_defs(defs, k - 1, funcs, arities) {
            Err(e) => Err(e),
            Ok((code, l)) => match lower_definition(defs[k - 1], k - 1, funcs, arities, l) {
                Err(e) => Err(e),
                Ok((cd, l1)) => Ok((code + cd, l1)),
            },
        }
    }
}

/// The first name that cannot label a function.
pub open spec fn first_bad_name(names: Seq<Seq<char>>) -> Option<Seq<char>>
    decreases names.len(),
{
    if names.len() == 0 {
        None
    } else {
        match first_bad_name(names.drop_last()) {
            Some(x) => Some(x),
            None => if is_function_name(names.last()) {
                None
            } else {
                Some(names.last())
            },
        }
    }
}

/// A name that cannot label a function within a prefix is the first such name of the whole.
proof fn lemma_first_bad_name_prefix(names: Seq<Seq<char>>, k: int, x: Seq<char>)
    requires
        0 <= k <= names.len(),
        first_bad_name(names.take(k)) == Some(x),
    ensures
        first_bad_name(names) == Some(x),
    decreases names.len() - k,
{
    if k == names.len() {
        assert(names.take(k) =~= names);
    } else {
        assert(names.take(k + 1).drop_last() =~= names.take(k));
        lemma_first_bad_name_prefix(names, k + 1, x);
    }
}

/// Where no name is bad, every name can label a function.
pub proof fn lemma_no_bad_name(names: Seq<Seq<char>>)
    requires
        first_bad_name(names) is None,
    ensures
        forall|k: int| 0 <= k < names.len() ==> is_function_name(#[trigger] names[k]),
    decreases names.len(),
{
    if names.len() > 0 {
        lemma_no_bad_name(names.drop_last());
        assert forall|k: int| 0 <= k < names.len() implies is_function_name(#[trigger] names[k]) by {
            if k < names.len() - 1 {
                assert(names[k] == names.drop_last()[k]);
            }
        }
    }
}

/// The index of the first name that cannot label a function.
fn find_bad_name(names: &Vec<String>) -> (r: Option<usize>)
    ensures
        match r {
            None => first_bad_name(strings_view(names@)) is None,
            Some(j) => j < names.len() && first_bad_name(strings_view(names@)) == Some(
                names@[j as int]@,
            ),
        },
{
    let ghost sv = strings_view(names@);
    let mut i: usize = 0;
    assert(sv.take(0) =~= Seq::<Seq<char>>::empty());
    while i < names.len()
        invariant
            i <= names.len(),
            sv == strings_view(names@),
            first_bad_name(sv.take(i as int)) is None,
        decreases names.len() - i,
    {
        assert(sv.take(i + 1).drop_last() =~= sv.take(i as int));
        if !function_name(&names[i]) {
            proof {
                lemma_first_bad_name_prefix(sv, i + 1, sv[i as int]);
            }
            return Some(i);
        }
        i += 1;
    }
    assert(sv.take(i as int) =~= sv);
    None
}

/// The code of a program: each definition under its label, then the main expression under
/// the entry label.
pub open spec fn lower_program(p: ProgramV) -> Result<Seq<Instr>, ErrV> {
    let names = def_names(p.defs);
    match first_bad_name(names) {
        Some(x) => Err((ErrorKind::Invalid, x)),
        None => match first_dup(names) {
        Some(x) => Err((ErrorKind::Duplicate, x)),
        None => {
            let funcs = fn_table(names, names.len() as int);
            let arities = def_arities(p.defs);
            match lower_defs(p.defs, p.defs.len() as int, funcs, arities) {
                Err(e) => Err(e),
                Ok((code, l)) => {
                    let dep = depth_spec(p.main);
                    if dep >= MAX_SLOTS {
                        Err(plain_err(ErrorKind::TooLarge))
                    } else {
                        let slots = frame_slots(dep);
                        let fr = Frame { is_main: true, arity: 0, slots: slots as i64 };
                        let bytes = Val::Const((slots * 8) as i64);
                        match lower(p.main, 0, Map::empty(), None, false, fr, funcs, arities, l) {
                            Err(e) => Err(e),
                            Ok((cm, _)) => Ok(
                                code + seq![
                                    Instr::Label(Label::Entry),
                                    Instr::ISub(Val::Reg(Reg::RSP), bytes),
                                ] + cm + seq![
                                    Instr::IAdd(Val::Reg(Reg::RSP), bytes),
                                    Instr::Return,
                                ],
                            ),
                        }
                    }
                },
            }
        },
    }
    }
}

/// The assembly text of a program's code, or the first compile-time error.
pub open spec fn compiled_text(p: ProgramV) -> Result<Seq<char>, ErrV> {
    match lower_program(p) {
        Err(e) => Err(e),
        Ok(code) => Ok(instrs_text(code, def_names(p.defs))),
    }
}

/// Lowers one definition, whose function has index `idx`.
fn compile_definition(
    d: &Definition,
    idx: u64,
    funcs: &NameMap,
    arities: &Vec<u64>,
    l: &mut u64,
    out: &mut Vec<Instr>,
) -> (r: Result<(), CompileError>)
    ensures
        lowered(
            lower_definition(d@, idx as int, entries(*funcs), arities@, *old(l) as int),
            r,
            *final(l),
            old(out)@,
            final(out)@,
        ),
{
    let ghost out0 = out@;
    match d {
        Definition::Func(_, params, body) => {
            let dep = depth(body);
            if dep >= MAX_SLOTS || params.len() as u64 >= MAX_SLOTS {
                return Err(CompileError::plain(ErrorKind::TooLarge));
            }
            let slots: i64 = ((dep + 1) / 2 * 2 + 1) as i64;
            let ghost pv = strings_view(params@);
            let mut env: NameMap = map_new();
            let mut k: usize = 0;
            assert(entries(env) =~= param_env(pv, slots as int, 0));
            while k < params.len()
                invariant
                    k <= params.len() < MAX_SLOTS,
                    0 < slots <= MAX_SLOTS + 1,
                    pv == strings_view(params@),
                    entries(env) == param_env(pv, slots as int, k as int),
                decreases params.len() - k,
            {
                let next = map_update(&env, params[k].clone(), slots + k as i64 + 1);
                env = next;
                k += 1;
            }
            let fr = Frame { is_main: false, arity: params.len() as u64, slots };
            let bytes = Val::Const(slots * 8);
            out.push(Instr::Label(Label::Func(idx)));
            out.push(Instr::ISub(Val::Reg(Reg::RSP), bytes));
            let ghost mid = out@;
            let r = compile_to_instrs(body, 0, &env, None, true, fr, funcs, arities, l, out);
            if r.is_err() {
                return r;
            }
            out.push(Instr::IAdd(Val::Reg(Reg::RSP), bytes));
            out.push(Instr::Return);
            proof {
                let s = lower(
                    body@,
                    0,
                    entries(env),
                    None,
                    true,
                    fr,
                    entries(*funcs),
                    arities@,
                    *old(l) as int,
                );
                assert(out@ =~= out0 + (seq![
                    Instr::Label(Label::Func(idx)),
                    Instr::ISub(Val::Reg(Reg::RSP), bytes),
                ] + s->Ok_0.0 + seq![Instr::IAdd(Val::Reg(Reg::RSP), bytes), Instr::Return]));
            }
            Ok(())
        },
    }
}

} // verus!

verus! {

proof fn lemma_lower_defs_err(
    defs: Seq<DefinitionV>,
    k: int,
    funcs: Map<Seq<char>, i64>,
    arities: Seq<u64>,
    e: ErrV,
)
    requires
        0 <= k <= defs.len(),
        lower_defs(defs, k, funcs, arities) == Err::<(Seq<Instr>, int), ErrV>(e),
    ensures
        lower_defs(defs, defs.len() as int, funcs, arities) == Err::<(Seq<Instr>, int), ErrV>(e),
    decreases defs.len() - k,
{
    if k < defs.len() {
        lemma_lower_defs_err(defs, k + 1, funcs, arities, e);
    }
}

/// The names and arities of the definitions, in order.
fn def_tables(defs: &Vec<Definition>) -> (r: (Vec<String>, Vec<u64>))
    ensures
        strings_view(r.0@) == def_names(defs_view(defs@)),
        r.1@ == def_arities(defs_view(defs@)),
{
    let ghost dv = defs_view(defs@);
    let mut names: Vec<String> = Vec::new();
    let mut arities: Vec<u64> = Vec::new();
    let mut i: usize = 0;
    while i < defs.len()
        invariant
            i <= defs.len(),
            dv == defs_view(defs@),
            strings_view(names@) =~= def_names(dv).take(i as int),
            arities@ =~= def_arities(dv).take(i as int),
        decreases defs.len() - i,
    {
        match &defs[i] {
            Definition::Func(name, params, _) => {
                assert(dv[i as int] == defs@[i as int]@);
                assert(dv[i as int].name == name@);
                assert(dv[i as int].params.len() == params.len());
                let ghost before = names@;
                names.push(name.clone());
                arities.push(params.len() as u64);
                assert(strings_view(names@) =~= strings_view(before).push(name@));
                assert(def_names(dv).take(i + 1) =~= def_names(dv).take(i as int).push(name@));
            },
        }
        assert(arities@ =~= def_arities(dv).take(i + 1));
        i += 1;
    }
    assert(def_names(dv).take(i as int) =~= def_names(dv));
    assert(def_arities(dv).take(i as int) =~= def_arities(dv));
    (names, arities)
}

/// The function table: each name mapped to its index.
fn build_table(names: &Vec<String>) -> (r: NameMap)
    ensures
        entries(r) == fn_table(strings_view(names@), names.len() as int),
{
    let ghost nv = strings_view(names@);
    let mut funcs: NameMap = map_new();
    let mut k: usize = 0;
    assert(entries(funcs) =~= fn_table(nv, 0));
    while k < names.len()
        invariant
            k <= names.len(),
            nv == strings_view(names@),
            entries(funcs) == fn_table(nv, k as int),
        decreases names.len() - k,
    {
        let next = map_update(&funcs, names[k].clone(), k as i64);
        funcs = next;
        k += 1;
    }
    funcs
}

/// Lowers the definitions in order, the label counter starting at 0.
fn compile_definitions(
    defs: &Vec<Definition>,
    funcs: &NameMap,
    arities: &Vec<u64>,
    l: &mut u64,
    out: &mut Vec<Instr>,
) -> (r: Result<(), CompileError>)
    requires
        *old(l) == 0,
        old(out)@.len() == 0,
    ensures
        match lower_defs(defs_view(defs@), defs.len() as int, entries(*funcs), arities@) {
            Ok((code, l1)) => r is Ok && *final(l) == l1 && final(out)@ == code,
            Err(e) => r matches Err(x) && x@ == e,
        },
{
    let ghost dv = defs_view(defs@);
    let ghost fv = entries(*funcs);
    let ghost av = arities@;
    let mut i: usize = 0;
    assert(out@ =~= Seq::<Instr>::empty());
    while i < defs.len()
        invariant
            i <= defs.len(),
            dv == defs_view(defs@),
            fv == entries(*funcs),
            av == arities@,
            lower_defs(dv, i as int, fv, av) matches Ok((code, l1)) && *l == l1 && out@ == code,
        decreases defs.len() - i,
    {
        let ghost prev = lower_defs(dv, i as int, fv, av);
        let r = compile_definition(&defs[i], i as u64, funcs, arities, l, out);
        match r {
            Err(x) => {
                proof {
                    lemma_lower_defs_err(dv, i + 1, fv, av, x@);
                }
                return Err(x);
            },
            Ok(()) => {},
        }
        proof {
            let d = lower_definition(dv[i as int], i as int, fv, av, prev->Ok_0.1);
            assert(out@ =~= prev->Ok_0.0 + d->Ok_0.0);
        }
        i += 1;
    }
    Ok(())
}

/// The instructions of a program: each definition under its label, then the main expression
/// under the entry label; or the first compile-time error.
pub fn program_instrs(p: &Program) -> (r: Result<Vec<Instr>, CompileError>)
    ensures
        match lower_program(p@) {
            Ok(code) => r matches Ok(v) && v@ == code,
            Err(e) => r matches Err(x) && x@ == e,
        },
{
    let ghost dv = defs_view(p.defs@);
    let (names, arities) = def_tables(&p.defs);
    if let Some(j) = find_bad_name(&names) {
        return Err(CompileError::named(ErrorKind::Invalid, &names[j]));
    }
    if let Some(j) = find_duplicate(&names) {
        return Err(CompileError::named(ErrorKind::Duplicate, &names[j]));
    }
    let funcs = build_table(&names);
    let ghost fv = entries(funcs);
    let ghost av = arities@;
    let mut out: Vec<Instr> = Vec::new();
    let mut l: u64 = 0;
    let r = compile_definitions(&p.defs, &funcs, &arities, &mut l, &mut out);
    if let Err(x) = r {
        return Err(x);
    }
    let dep = depth(&p.main);
    if dep >= MAX_SLOTS {
        return Err(CompileError::plain(ErrorKind::TooLarge));
    }
    let slots: i64 = ((dep + 1) / 2 * 2 + 1) as i64;
    let fr = Frame { is_main: true, arity: 0, slots };
    let bytes = Val::Const(slots * 8);
    let ghost code = out@;
    out.push(Instr::Label(Label::Entry));
    out.push(Instr::ISub(Val::Reg(Reg::RSP), bytes));
    let empty = map_new();
    assert(entries(empty) =~= Map::<Seq<char>, i64>::empty());
    let ghost lm = l as int;
    let r = compile_to_instrs(&p.main, 0, &empty, None, false, fr, &funcs, &arities, &mut l, &mut out);
    if let Err(x) = r {
        return Err(x);
    }
    out.push(Instr::IAdd(Val::Reg(Reg::RSP), bytes));
    out.push(Instr::Return);
    proof {
        let s = lower(p@.main, 0, Map::empty(), None, false, fr, fv, av, lm);
        assert(out@ =~= code + seq![
            Instr::Label(Label::Entry),
            Instr::ISub(Val::Reg(Reg::RSP), bytes),
        ] + s->Ok_0.0 + seq![Instr::IAdd(Val::Reg(Reg::RSP), bytes), Instr::Return]);
    }
    Ok(out)
}

/// Compiles a program to the assembly text of its functions and its entry point, or fails
/// with the first compile-time error.
pub fn compile_program(p: &Program) -> (r: Result<String, CompileError>)
    ensures
        result_view(r) == compiled_text(p@),
        r is Ok ==> label_lines_distinct(p@),
{
    let (names, _) = def_tables(&p.defs);
    match program_instrs(p) {
        Err(x) => Err(x),
        Ok(is) => {
            assert(Seq::new(names@.len(), |k: int| names@[k]@) =~= def_names(p@.defs));
            proof {
                lemma_label_lines_distinct(p@);
            }
            Ok(instrs_to_str(&is, &names))
        },
    }
}

} // verus!
