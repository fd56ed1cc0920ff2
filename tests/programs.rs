use snek_compiler::ast::{Definition, Expr, Program};
use snek_compiler::codegen::program_instrs;
use snek_compiler::compile::parse_source;
use snek_compiler::error::ErrorKind;
use snek_compiler::instr::{Instr, Label, Reg, Val};
use snek_compiler::runtime::{error_text, parse_input, print_value};
use std::collections::HashMap;

/// What a run of a compiled program did.
#[derive(Debug, PartialEq)]
enum Run {
    /// It returned; the printed lines, the last one being the result.
    Printed(Vec<String>),
    /// It stopped through the error trampoline with this report.
    Failed(String),
}

const STACK_TOP: i64 = 1 << 30;
const STACK_WORDS: usize = 1 << 16;

struct Machine {
    regs: [i64; 5],
    mem: Vec<i64>,
    zf: bool,
    sf: bool,
    of: bool,
    lowest_rsp: i64,
}

fn reg_index(r: Reg) -> usize {
    match r {
        Reg::RAX => 0,
        Reg::RBX => 1,
        Reg::RCX => 2,
        Reg::RSP => 3,
        Reg::RDI => 4,
    }
}

impl Machine {
    fn addr(&self, r: Reg, off: i64) -> usize {
        let a = self.regs[reg_index(r)] + off * 8;
        assert!(a % 8 == 0 && a < STACK_TOP, "bad address {}", a);
        ((STACK_TOP - a) / 8) as usize
    }
    fn read(&self, v: Val) -> i64 {
        match v {
            Val::Reg(r) => self.regs[reg_index(r)],
            Val::Const(n) => n,
            Val::RegOffset(r, off) => self.mem[self.addr(r, off)],
        }
    }
    fn write(&mut self, v: Val, x: i64) {
        match v {
            Val::Reg(r) => {
                self.regs[reg_index(r)] = x;
                if r == Reg::RSP && x < self.lowest_rsp {
                    self.lowest_rsp = x;
                }
            }
            Val::Const(_) => panic!("write to a constant"),
            Val::RegOffset(r, off) => {
                let a = self.addr(r, off);
                self.mem[a] = x;
            }
        }
    }
    fn set_result_flags(&mut self, x: i64, overflow: bool) {
        self.zf = x == 0;
        self.sf = x < 0;
        self.of = overflow;
    }
    fn push(&mut self, x: i64) {
        let sp = self.regs[3] - 8;
        self.write(Val::Reg(Reg::RSP), sp);
        self.write(Val::RegOffset(Reg::RSP, 0), x);
    }
    fn pop(&mut self) -> i64 {
        let x = self.read(Val::RegOffset(Reg::RSP, 0));
        self.regs[3] += 8;
        x
    }
}

/// Runs the instructions from the entry label with `input` in `rdi`, as the runtime does.
fn execute(code: &[Instr], input: i64) -> (Run, i64) {
    let mut labels: HashMap<Label, usize> = HashMap::new();
    for (i, ins) in code.iter().enumerate() {
        if let Instr::Label(l) = ins {
            labels.insert(*l, i);
        }
    }
    let mut m = Machine {
        regs: [0, 0, 0, STACK_TOP, input],
        mem: vec![0; STACK_WORDS],
        zf: false,
        sf: false,
        of: false,
        lowest_rsp: STACK_TOP,
    };
    const DONE: i64 = -1;
    m.push(DONE);
    let entry_rsp = m.regs[3];
    let mut printed: Vec<String> = Vec::new();
    let mut pc = labels[&Label::Entry];
    loop {
        let jump = |m: &Machine, l: Label| -> Option<usize> {
            let _ = m;
            Some(labels[&l])
        };
        let mut next = pc + 1;
        match code[pc] {
            Instr::IMov(d, s) => {
                let x = m.read(s);
                m.write(d, x);
            }
            Instr::IAdd(d, s) => {
                let (x, o) = m.read(d).overflowing_add(m.read(s));
                m.write(d, x);
                m.set_result_flags(x, o);
            }
            Instr::ISub(d, s) => {
                let (x, o) = m.read(d).overflowing_sub(m.read(s));
                m.write(d, x);
                m.set_result_flags(x, o);
            }
            Instr::IMul(d, s) => {
                let (x, o) = m.read(d).overflowing_mul(m.read(s));
                m.write(d, x);
                m.set_result_flags(x, o);
            }
            Instr::Cmp(d, s) => {
                let (x, o) = m.read(d).overflowing_sub(m.read(s));
                m.set_result_flags(x, o);
            }
            Instr::And(d, s) => {
                let x = m.read(d) & m.read(s);
                m.write(d, x);
                m.set_result_flags(x, false);
            }
            Instr::Sar(d, s) => {
                let x = m.read(d) >> m.read(s);
                m.write(d, x);
                m.zf = x == 0;
                m.sf = x < 0;
            }
            Instr::CMov(d, s) => {
                if m.zf {
                    let x = m.read(s);
                    m.write(d, x);
                }
            }
            Instr::ICMovo(d, s) => {
                if m.of {
                    let x = m.read(s);
                    m.write(d, x);
                }
            }
            Instr::ICMovne(d, s) => {
                if !m.zf {
                    let x = m.read(s);
                    m.write(d, x);
                }
            }
            Instr::Label(_) => {}
            Instr::Jmp(l) | Instr::Je(l) | Instr::Jne(l) | Instr::Jge(l) | Instr::Jle(l) | Instr::Jo(l) => {
                let taken = match code[pc] {
                    Instr::Jmp(_) => true,
                    Instr::Je(_) => m.zf,
                    Instr::Jne(_) => !m.zf,
                    Instr::Jge(_) => m.sf == m.of,
                    Instr::Jle(_) => m.zf || m.sf != m.of,
                    _ => m.of,
                };
                if taken {
                    if l == Label::ThrowError {
                        return (Run::Failed(error_text(m.regs[4])), entry_rsp - m.lowest_rsp);
                    }
                    next = jump(&m, l).unwrap();
                }
            }
            Instr::Call(Label::SnekPrint) => {
                assert_eq!(m.regs[3] % 16, 0, "stack misaligned at a call");
                printed.push(print_value(m.regs[4]));
                m.regs[0] = m.regs[4];
            }
            Instr::Call(l) => {
                assert_eq!(m.regs[3] % 16, 0, "stack misaligned at a call");
                m.push((pc + 1) as i64);
                next = labels[&l];
            }
            Instr::Return => {
                let back = m.pop();
                if back == DONE {
                    printed.push(print_value(m.regs[0]));
                    return (Run::Printed(printed), entry_rsp - m.lowest_rsp);
                }
                next = back as usize;
            }
        }
        pc = next;
    }
}

fn program(src: &str) -> Program {
    match parse_source(src) {
        Ok(p) => p,
        Err(e) => panic!("{}", e.message()),
    }
}

/// Compiles and runs a program, with an input text as the runtime reads it.
fn run_with(src: &str, input: &str) -> (Run, i64) {
    let p = program(src);
    let code = program_instrs(&p).unwrap_or_else(|e| panic!("{}", e.message()));
    let input = parse_input(input).expect("input");
    execute(&code, input as i64)
}

fn run(src: &str) -> Run {
    run_with(src, "false").0
}

fn printed(lines: &[&str]) -> Run {
    Run::Printed(lines.iter().map(|s| s.to_string()).collect())
}

fn failure_kind(src: &str) -> ErrorKind {
    match parse_source(src) {
        Err(e) => e.kind,
        Ok(p) => program_instrs(&p).err().expect("a compile error").kind,
    }
}

#[test]
fn number_with_default_input() {
    assert_eq!(run("73"), printed(&["73"]));
}

#[test]
fn nested_add1_sub1() {
    assert_eq!(run("(add1 (add1 (add1 (sub1 4))))"), printed(&["6"]));
}

#[test]
fn let_and_set() {
    assert_eq!(run("(let ((x 5)) (set! x (+ x x)) x)"), printed(&["10"]));
    assert_eq!(run("(let ((x 5)) (block (set! x (+ x x)) x))"), printed(&["10"]));
}

#[test]
fn let_with_several_body_forms_is_a_block() {
    assert_eq!(run("(let ((x 1)) (print x) (set! x 7) (+ x 1))"), printed(&["1", "8"]));
    assert_eq!(failure_kind("(let ((x 1)))"), ErrorKind::Invalid);
}

#[test]
fn function_names_that_would_clash_are_rejected() {
    assert_eq!(failure_kind("(fun (ifend0 x) (if x 1 2)) (ifend0 true)"), ErrorKind::Invalid);
    assert_eq!(failure_kind("(fun (loop_start12 x) x) 1"), ErrorKind::Invalid);
    assert_eq!(failure_kind("(fun (cmp_end_label3 x) x) 1"), ErrorKind::Invalid);
    assert_eq!(failure_kind("(fun (rax x) x) (rax 1)"), ErrorKind::Invalid);
    assert_eq!(failure_kind("(fun (rdi) 1) (rdi)"), ErrorKind::Invalid);
    assert_eq!(run("(fun (ifend x) x) (fun (loop_endx y) y) (fun (ifelse7a z) z) (+ (ifend 1) (+ (loop_endx 2) (ifelse7a 3)))"), printed(&["6"]));
}

#[test]
fn set_yields_the_stored_value() {
    assert_eq!(run("(let ((x 5)) (set! x (+ x x)))"), printed(&["10"]));
}

#[test]
fn factorial() {
    assert_eq!(
        run("(fun (fact n) (if (< n 2) 1 (* n (fact (sub1 n))))) (fact 7)"),
        printed(&["5040"])
    );
}

#[test]
fn tail_recursive_sum_in_constant_stack() {
    let src = "(fun (loop-sum n acc) (if (= n 0) acc (loop-sum (sub1 n) (+ acc n)))) (loop-sum 1000000 0)";
    let (r, depth) = run_with(src, "false");
    assert_eq!(r, printed(&["500000500000"]));
    assert!(depth < 256, "stack grew to {} bytes", depth);
    let (_, shallow) = run_with(
        "(fun (loop-sum n acc) (if (= n 0) acc (loop-sum (sub1 n) (+ acc n)))) (loop-sum 10 0)",
        "false",
    );
    assert_eq!(depth, shallow);
}

#[test]
fn overflow_at_the_top_of_the_range() {
    let (r, _) = run_with("(+ 4611686018427387899 10)", "5");
    match r {
        Run::Failed(msg) => assert!(msg.contains("overflow")),
        other => panic!("{:?}", other),
    }
}

#[test]
fn boolean_operand_to_arithmetic() {
    match run("(+ 1 true)") {
        Run::Failed(msg) => assert!(msg.contains("invalid argument")),
        other => panic!("{:?}", other),
    }
}

#[test]
fn loop_with_break_sums() {
    let src = "(block (let ((i 0) (s 0)) (loop (if (> i 10) (break s) (block (set! s (+ s i)) (set! i (add1 i)))))))";
    assert_eq!(run(src), printed(&["55"]));
}

#[test]
fn booleans_print_as_words() {
    assert_eq!(run("true"), printed(&["true"]));
    assert_eq!(run("(< 3 2)"), printed(&["false"]));
    assert_eq!(run("(isbool 4)"), printed(&["false"]));
    assert_eq!(run("(isnum 4)"), printed(&["true"]));
}

#[test]
fn input_values() {
    assert_eq!(run_with("input", "true").0, printed(&["true"]));
    assert_eq!(run_with("input", "false").0, printed(&["false"]));
    assert_eq!(run_with("(+ input 5)", "10").0, printed(&["15"]));
    assert_eq!(run_with("(* input -3)", "-7").0, printed(&["21"]));
}

#[test]
fn comparisons() {
    assert_eq!(run("(>= 2 2)"), printed(&["true"]));
    assert_eq!(run("(<= 3 2)"), printed(&["false"]));
    assert_eq!(run("(> -1 -2)"), printed(&["true"]));
    assert_eq!(run("(= 4 4)"), printed(&["true"]));
    assert_eq!(run("(= true false)"), printed(&["false"]));
}

#[test]
fn equality_across_tags_fails() {
    match run("(= 1 true)") {
        Run::Failed(msg) => assert!(msg.contains("invalid argument")),
        other => panic!("{:?}", other),
    }
}

#[test]
fn add1_of_boolean_fails() {
    match run("(add1 false)") {
        Run::Failed(msg) => assert!(msg.contains("invalid argument")),
        other => panic!("{:?}", other),
    }
}

#[test]
fn multiplication_overflow() {
    match run("(* 4611686018427387903 2)") {
        Run::Failed(msg) => assert!(msg.contains("overflow")),
        other => panic!("{:?}", other),
    }
}

#[test]
fn edges_of_the_range() {
    assert_eq!(run("4611686018427387903"), printed(&["4611686018427387903"]));
    assert_eq!(run("-4611686018427387904"), printed(&["-4611686018427387904"]));
    match run("(sub1 -4611686018427387904)") {
        Run::Failed(msg) => assert!(msg.contains("overflow")),
        other => panic!("{:?}", other),
    }
}

#[test]
fn print_prints_and_returns() {
    assert_eq!(run("(let ((x (print 7))) (+ x 1))"), printed(&["7", "8"]));
    assert_eq!(run("(print (print true))"), printed(&["true", "true", "true"]));
}

#[test]
fn functions_and_mutual_recursion() {
    let src = "(fun (even n) (if (= n 0) true (odd (sub1 n)))) (fun (odd n) (if (= n 0) false (even (sub1 n)))) (even 10)";
    assert_eq!(run(src), printed(&["true"]));
    assert_eq!(run("(fun (f x y z) (+ x (* y z))) (f 1 2 3)"), printed(&["7"]));
    assert_eq!(run("(fun (k) 42) (k)"), printed(&["42"]));
    assert_eq!(run("(fun (g a) (+ a 1)) (fun (h a b c) (g (+ a (+ b c)))) (h 1 2 3)"), printed(&["7"]));
}

#[test]
fn nested_loops_break_to_the_innermost() {
    let src = "(let ((i 0) (n 0)) (block (loop (if (= i 3) (break n) (block (set! n (+ n (let ((j 0)) (loop (if (= j 2) (break j) (set! j (add1 j))))))) (set! i (add1 i)))))))";
    assert_eq!(run(src), printed(&["6"]));
}

#[test]
fn definitions_get_labels_in_order() {
    let p = program("(fun (f x) x) (fun (g y) (f y)) (g 3)");
    assert_eq!(p.defs.len(), 2);
    let Definition::Func(name, params, _) = &p.defs[1];
    assert_eq!(name, "g");
    assert_eq!(params, &vec!["y".to_string()]);
    let code = program_instrs(&p).unwrap();
    assert_eq!(code[0], Instr::Label(Label::Func(0)));
    assert!(code.contains(&Instr::Label(Label::Func(1))));
    assert!(code.contains(&Instr::Jmp(Label::Func(0))));
    assert_eq!(code[code.len() - 1], Instr::Return);
}

#[test]
fn syntax_error() {
    assert_eq!(failure_kind("(let ((x 1)) x"), ErrorKind::Syntax);
}

#[test]
fn invalid_shapes() {
    assert_eq!(failure_kind("(add1 1 2)"), ErrorKind::Invalid);
    assert_eq!(failure_kind("(let () 1)"), ErrorKind::Invalid);
    assert_eq!(failure_kind("(block)"), ErrorKind::Invalid);
    assert_eq!(failure_kind("()"), ErrorKind::Invalid);
    assert_eq!(failure_kind("(if 1 2)"), ErrorKind::Invalid);
    assert_eq!(failure_kind("(set! 1 2)"), ErrorKind::Invalid);
    assert_eq!(failure_kind("4611686018427387904"), ErrorKind::Invalid);
    assert_eq!(failure_kind("1.5"), ErrorKind::Invalid);
    assert_eq!(failure_kind("1 2"), ErrorKind::Invalid);
    assert_eq!(failure_kind("(fun (f x) x)"), ErrorKind::Invalid);
    assert_eq!(failure_kind("(fun (snek_print x) x) 1"), ErrorKind::Invalid);
}

#[test]
fn reserved_word_as_binding() {
    assert_eq!(failure_kind("(let ((let 1)) 1)"), ErrorKind::Keyword);
    assert_eq!(failure_kind("(fun (f if) 1) (f 1)"), ErrorKind::Keyword);
}

#[test]
fn duplicates() {
    assert_eq!(failure_kind("(let ((x 1) (x 2)) x)"), ErrorKind::Duplicate);
    assert_eq!(failure_kind("(fun (f x x) x) (f 1 2)"), ErrorKind::Duplicate);
    assert_eq!(failure_kind("(fun (f x) x) (fun (f y) y) (f 1)"), ErrorKind::Duplicate);
}

#[test]
fn unbound_variables() {
    let e = parse_source("(+ y 1)").map(|p| program_instrs(&p).err().unwrap()).unwrap();
    assert_eq!(e.kind, ErrorKind::Unbound);
    assert_eq!(e.message(), "Unbound variable identifier y");
    assert_eq!(failure_kind("(set! z 1)"), ErrorKind::Unbound);
}

#[test]
fn break_outside_loop() {
    assert_eq!(failure_kind("(break 1)"), ErrorKind::BreakOutsideLoop);
    assert_eq!(failure_kind("(fun (f x) (break x)) (loop (f 1))"), ErrorKind::BreakOutsideLoop);
}

#[test]
fn calls_checked_against_the_table() {
    assert_eq!(failure_kind("(f 1)"), ErrorKind::UndefinedFunction);
    assert_eq!(failure_kind("(fun (f x) x) (f 1 2)"), ErrorKind::Arity);
}

#[test]
fn input_inside_a_function() {
    assert_eq!(failure_kind("(fun (f x) input) (f 1)"), ErrorKind::InputOutsideMain);
}

#[test]
fn labels_are_defined_once() {
    let src = "(fun (f n) (if (< n 1) 0 (if (> n 5) (f (- n 2)) (f (sub1 n))))) (block (loop (if (>= 1 0) (break (f 9)) 2)) (f (if (<= 1 2) 3 4)))";
    let p = program(src);
    let code = program_instrs(&p).unwrap();
    let mut seen = std::collections::HashSet::new();
    for ins in &code {
        if let Instr::Label(l) = ins {
            assert!(seen.insert(*l), "label {:?} defined twice", l);
        }
    }
    assert!(seen.len() >= 10);
    assert_eq!(run(src), printed(&["0"]));
}

#[test]
fn writes_stay_in_the_frame_or_argument_areas() {
    let src = "(fun (g a b c) (let ((x (+ a b)) (y (* b c))) (print (+ x (+ y (g2 x y)))))) (fun (g2 p q) (- p q)) (g 1 2 3)";
    let p = program(src);
    let code = program_instrs(&p).unwrap();
    for ins in &code {
        if let Instr::IMov(Val::RegOffset(Reg::RSP, k), _) = ins {
            assert!(*k < 16, "write far above the frame: {}", k);
        }
    }
    assert_eq!(run(src), printed(&["6", "6"]));
}

#[test]
fn compiling_twice_gives_the_same_text() {
    let src = "(fun (fact n) (if (< n 2) 1 (* n (fact (sub1 n))))) (fact 7)";
    let a = snek_compiler::compile::compile_source(src).unwrap();
    let b = snek_compiler::compile::compile_source(src).unwrap();
    assert_eq!(a, b);
}

#[test]
fn label_lines_of_the_text_are_unique() {
    let src = "(fun (ifend x) (if x 1 2)) (fun (g n) (loop (if (> n 3) (break n) (set! n (add1 n))))) (if (ifend true) (g 0) (< 1 2))";
    let text = snek_compiler::compile::compile_source(src).unwrap();
    let mut seen = std::collections::HashSet::new();
    for line in text.lines() {
        if !line.starts_with(' ') {
            assert!(seen.insert(line.to_string()), "label line {} twice", line);
        }
    }
    assert!(seen.contains("ifend:") && seen.contains("ifend0:") && seen.contains("our_code_starts_here:"));
}

#[test]
fn compile_refuses_clashing_names_without_the_parser() {
    let clash = |name: &str| Program {
        defs: vec![Definition::Func(name.to_string(), vec!["x".to_string()], Expr::Id("x".to_string()))],
        main: Expr::If(Box::new(Expr::Boolean(true)), Box::new(Expr::Number(1)), Box::new(Expr::Number(2))),
    };
    for name in ["ifend0", "throw_error", "our_code_starts_here", "rsp", "loop_end1"] {
        let e = program_instrs(&clash(name)).err().expect("refused");
        assert_eq!(e.kind, ErrorKind::Invalid);
        assert_eq!(e.name, name);
        assert!(snek_compiler::codegen::compile_program(&clash(name)).is_err());
    }
    assert!(program_instrs(&clash("ifend")).is_ok());
}
