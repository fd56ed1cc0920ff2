//! Abstract x86-64 instructions and their assembly text.
use vstd::prelude::*;

verus! {

/// The registers the generated code uses.
#[derive(Clone, Copy, Debug, PartialEq, Eq, Hash, Structural)]
pub enum Reg {
    RAX,
    RBX,
    RCX,
    RSP,
    RDI,
}

/// An operand: a register, a constant, or the word at a register plus a number of words.
#[derive(Clone, Copy, Debug, PartialEq, Eq, Hash, Structural)]
pub enum Val {
    Reg(Reg),
    Const(i64),
    RegOffset(Reg, i64),
}

/// A jump target. Fresh labels carry the counter value they were made from; a function's label
/// carries the function's index in the program.
#[derive(Clone, Copy, Debug, PartialEq, Eq, Hash, Structural)]
pub enum Label {
    ThrowError,
    SnekPrint,
    Entry,
    Func(u64),
    CmpEnd(u64),
    IfEnd(u64),
    IfElse(u64),
    LoopStart(u64),
    LoopEnd(u64),
}

/// One instruction.
#[derive(Clone, Copy, Debug, PartialEq, Eq, Hash, Structural)]
pub enum Instr {
    IMov(Val, Val),
    IAdd(Val, Val),
    ISub(Val, Val),
    IMul(Val, Val),
    Cmp(Val, Val),
    Jmp(Label),
    Jne(Label),
    Je(Label),
    Jge(Label),
    Jle(Label),
    And(Val, Val),
    CMov(Val, Val),
    Label(Label),
    Sar(Val, Val),
    Jo(Label),
    Call(Label),
    Return,
    ICMovo(Val, Val),
    ICMovne(Val, Val),
}

/// The text of one decimal digit.
pub open spec fn digit_text(d: int) -> Seq<char> {
    if d == 0 {
        "0"@
    } else if d == 1 {
        "1"@
    } else if d == 2 {
        "2"@
    } else if d == 3 {
        "3"@
    } else if d == 4 {
        "4"@
    } else if d == 5 {
        "5"@
    } else if d == 6 {
        "6"@
    } else if d == 7 {
        "7"@
    } else if d == 8 {
        "8"@
    } else {
        "9"@
    }
}

/// The decimal digits of a natural number, without leading zeros.
pub open spec fn digits_text(n: nat) -> Seq<char>
    decreases n,
{
    if n < 10 {
        digit_text(n as int)
    } else {
        digits_text(n / 10) + digit_text((n % 10) as int)
    }
}

/// The decimal text of an integer, with a leading `-` where it is negative.
pub open spec fn decimal(n: int) -> Seq<char> {
    if n < 0 {
        "-"@ + digits_text((-n) as nat)
    } else {
        digits_text(n as nat)
    }
}

fn digit_str(d: u128) -> (r: &'static str)
    requires
        d < 10,
    ensures
        r@ == digit_text(d as int),
{
    if d == 0 {
        "0"
    } else if d == 1 {
        "1"
    } else if d == 2 {
        "2"
    } else if d == 3 {
        "3"
    } else if d == 4 {
        "4"
    } else if d == 5 {
        "5"
    } else if d == 6 {
        "6"
    } else if d == 7 {
        "7"
    } else if d == 8 {
        "8"
    } else {
        "9"
    }
}

fn digits_str(n: u128) -> (r: String)
    ensures
        r@ == digits_text(n as nat),
    decreases n,
{
    if n < 10 {
        String::from_str(digit_str(n))
    } else {
        let mut s = digits_str(n / 10);
        s.append(digit_str(n % 10));
        s
    }
}

/// The decimal text of an integer.
pub fn decimal_str(n: i128) -> (r: String)
    requires
        n > i128::MIN,
    ensures
        r@ == decimal(n as int),
{
    if n < 0 {
        let mut s = String::from_str("-");
        let d = digits_str((-n) as u128);
        s.append(d.as_str());
        s
    } else {
        digits_str(n as u128)
    }
}

/// The name of a register.
pub open spec fn reg_text(r: Reg) -> Seq<char> {
    match r {
        Reg::RAX => "rax"@,
        Reg::RBX => "rbx"@,
        Reg::RCX => "rcx"@,
        Reg::RSP => "rsp"@,
        Reg::RDI => "rdi"@,
    }
}

/// The text of an operand; an offset in words is written in bytes.
pub open spec fn val_text(v: Val) -> Seq<char> {
    match v {
        Val::Reg(r) => reg_text(r),
        Val::Const(n) => decimal(n as int),
        Val::RegOffset(r, n) => if n >= 0 {
            "["@ + reg_text(r) + "+"@ + decimal(n * 8) + "]"@
        } else {
            "["@ + reg_text(r) + "-"@ + decimal(-n * 8) + "]"@
        },
    }
}

/// The text of a label; a function's label is its name (empty for an index outside `names`).
pub open spec fn label_text(l: Label, names: Seq<Seq<char>>) -> Seq<char> {
    match l {
        Label::ThrowError => "throw_error"@,
        Label::SnekPrint => "snek_print"@,
        Label::Entry => "our_code_starts_here"@,
        Label::Func(k) => if k < names.len() {
            names[k as int]
        } else {
            Seq::empty()
        },
        Label::CmpEnd(n) => "cmp_end_label"@ + decimal(n as int),
        Label::IfEnd(n) => "ifend"@ + decimal(n as int),
        Label::IfElse(n) => "ifelse"@ + decimal(n as int),
        Label::LoopStart(n) => "loop_start"@ + decimal(n as int),
        Label::LoopEnd(n) => "loop_end"@ + decimal(n as int),
    }
}

/// The line of an instruction with two operands.
pub open spec fn binary_text(m: Seq<char>, d: Val, s: Val) -> Seq<char> {
    m + val_text(d) + ", "@ + val_text(s) + "\n"@
}

/// The line of an instruction with a label operand.
pub open spec fn jump_text(m: Seq<char>, l: Label, names: Seq<Seq<char>>) -> Seq<char> {
    m + label_text(l, names) + "\n"@
}

/// The assembly line of an instruction.
pub open spec fn instr_text(i: Instr, names: Seq<Seq<char>>) -> Seq<char> {
    match i {
        Instr::IMov(d, s) => binary_text("  mov "@, d, s),
        Instr::IAdd(d, s) => binary_text("  add "@, d, s),
        Instr::ISub(d, s) => binary_text("  sub "@, d, s),
        Instr::IMul(d, s) => binary_text("  imul "@, d, s),
        Instr::Cmp(d, s) => binary_text("  cmp "@, d, s),
        Instr::And(d, s) => binary_text("  and "@, d, s),
        Instr::CMov(d, s) => binary_text("  cmove "@, d, s),
        Instr::Jmp(l) => jump_text("  jmp "@, l, names),
        Instr::Jne(l) => jump_text("  jne "@, l, names),
        Instr::Je(l) => jump_text("  je "@, l, names),
        Instr::Jge(l) => jump_text("  jge "@, l, names),
        Instr::Jle(l) => jump_text("  jle "@, l, names),
        Instr::Label(l) => label_text(l, names) + ":\n"@,
        Instr::Sar(d, s) => binary_text("  sar "@, d, s),
        Instr::Jo(l) => jump_text("  jo "@, l, names),
        Instr::Call(l) => jump_text("  call "@, l, names),
        Instr::Return => "  ret\n"@,
        Instr::ICMovo(d, s) => binary_text("  cmovo "@, d, s),
        Instr::ICMovne(d, s) => binary_text("  cmovne "@, d, s),
    }
}

/// The text of a sequence of instructions, one line each.
pub open spec fn instrs_text(is: Seq<Instr>, names: Seq<Seq<char>>) -> Seq<char>
    decreases is.len(),
{
    if is.len() == 0 {
        Seq::empty()
    } else {
        instrs_text(is.drop_last(), names) + instr_text(is.last(), names)
    }
}

fn reg_str(r: Reg) -> (s: &'static str)
    ensures
        s@ == reg_text(r),
{
    match r {
        Reg::RAX => "rax",
        Reg::RBX => "rbx",
        Reg::RCX => "rcx",
        Reg::RSP => "rsp",
        Reg::RDI => "rdi",
    }
}

/// The text of an operand.
pub fn val_to_str(v: Val) -> (s: String)
    ensures
        s@ == val_text(v),
{
    match v {
        Val::Reg(r) => String::from_str(reg_str(r)),
        Val::Const(n) => decimal_str(n as i128),
        Val::RegOffset(r, n) => {
            let mut s = String::from_str("[");
            s.append(reg_str(r));
            if n >= 0 {
                s.append("+");
                let d = decimal_str(n as i128 * 8);
                s.append(d.as_str());
            } else {
                s.append("-");
                let d = decimal_str(-(n as i128) * 8);
                s.append(d.as_str());
            }
            s.append("]");
            s
        },
    }
}

fn fresh_label_str(prefix: &str, n: u64) -> (s: String)
    ensures
        s@ == prefix@ + decimal(n as int),
{
    let mut s = String::from_str(prefix);
    let d = decimal_str(n as i128);
    s.append(d.as_str());
    s
}

/// The text of a label.
pub fn label_to_str(l: Label, names: &Vec<String>) -> (s: String)
    ensures
        s@ == label_text(l, Seq::new(names@.len(), |k: int| names@[k]@)),
{
    match l {
        Label::ThrowError => String::from_str("throw_error"),
        Label::SnekPrint => String::from_str("snek_print"),
        Label::Entry => String::from_str("our_code_starts_here"),
        Label::Func(k) => {
            if k < names.len() as u64 {
                names[k as usize].clone()
            } else {
                String::new()
            }
        },
        Label::CmpEnd(n) => fresh_label_str("cmp_end_label", n),
        Label::IfEnd(n) => fresh_label_str("ifend", n),
        Label::IfElse(n) => fresh_label_str("ifelse", n),
        Label::LoopStart(n) => fresh_label_str("loop_start", n),
        Label::LoopEnd(n) => fresh_label_str("loop_end", n),
    }
}

fn binary_str(m: &str, d: Val, v: Val) -> (s: String)
    ensures
        s@ == binary_text(m@, d, v),
{
    let mut s = String::from_str(m);
    let a = val_to_str(d);
    s.append(a.as_str());
    s.append(", ");
    let b = val_to_str(v);
    s.append(b.as_str());
    s.append("\n");
    s
}

fn jump_str(m: &str, l: Label, names: &Vec<String>) -> (s: String)
    ensures
        s@ == jump_text(m@, l, Seq::new(names@.len(), |k: int| names@[k]@)),
{
    let mut s = String::from_str(m);
    let a = label_to_str(l, names);
    s.append(a.as_str());
    s.append("\n");
    s
}

/// The assembly line of an instruction.
pub fn instr_to_str(i: Instr, names: &Vec<String>) -> (s: String)
    ensures
        s@ == instr_text(i, Seq::new(names@.len(), |k: int| names@[k]@)),
{
    match i {
        Instr::IMov(d, v) => binary_str("  mov ", d, v),
        Instr::IAdd(d, v) => binary_str("  add ", d, v),
        Instr::ISub(d, v) => binary_str("  sub ", d, v),
        Instr::IMul(d, v) => binary_str("  imul ", d, v),
        Instr::Cmp(d, v) => binary_str("  cmp ", d, v),
        Instr::And(d, v) => binary_str("  and ", d, v),
        Instr::CMov(d, v) => binary_str("  cmove ", d, v),
        Instr::Jmp(l) => jump_str("  jmp ", l, names),
        Instr::Jne(l) => jump_str("  jne ", l, names),
        Instr::Je(l) => jump_str("  je ", l, names),
        Instr::Jge(l) => jump_str("  jge ", l, names),
        Instr::Jle(l) => jump_str("  jle ", l, names),
        Instr::Label(l) => {
            let mut s = label_to_str(l, names);
            s.append(":\n");
            s
        },
        Instr::Sar(d, v) => binary_str("  sar ", d, v),
        Instr::Jo(l) => jump_str("  jo ", l, names),
        Instr::Call(l) => jump_str("  call ", l, names),
        Instr::Return => String::from_str("  ret\n"),
        Instr::ICMovo(d, v) => binary_str("  cmovo ", d, v),
        Instr::ICMovne(d, v) => binary_str("  cmovne ", d, v),
    }
}

/// The text of a sequence of instructions.
pub fn instrs_to_str(is: &Vec<Instr>, names: &Vec<String>) -> (s: String)
    ensures
        s@ == instrs_text(is@, Seq::new(names@.len(), |k: int| names@[k]@)),
{
    let ghost nv = Seq::new(names@.len(), |k: int| names@[k]@);
    let mut s = String::new();
    let mut i: usize = 0;
    proof {
        assert(is@.take(0) =~= Seq::<Instr>::empty());
    }
    while i < is.len()
        invariant
            i <= is.len(),
            nv == Seq::new(names@.len(), |k: int| names@[k]@),
            s@ == instrs_text(is@.take(i as int), nv),
        decreases is.len() - i,
    {
        let line = instr_to_str(is[i], names);
        proof {
            assert(is@.take(i + 1).drop_last() =~= is@.take(i as int));
        }
        s.append(line.as_str());
        i += 1;
    }
    proof {
        assert(is@.take(i as int) =~= is@);
    }
    s
}

} // verus!
