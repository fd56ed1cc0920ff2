use snek_compiler::ast::{Expr, Op2};
use snek_compiler::compile::compile_source;
use snek_compiler::depth::depth;
use snek_compiler::error::{CompileError, ErrorKind};
use snek_compiler::harness::{
    TestKind, run_runtime_error_test, run_static_error_test, run_success_test, run_test,
};
use snek_compiler::instr::{Instr, Label, Reg, Val, decimal_str, instr_to_str, val_to_str};
use snek_compiler::parser::{reserved_label, reserved_word};
use snek_compiler::runtime::{error_text, parse_input, print_value};

#[test]
fn decimal_texts() {
    assert_eq!(decimal_str(0), "0");
    assert_eq!(decimal_str(7), "7");
    assert_eq!(decimal_str(1234567890), "1234567890");
    assert_eq!(decimal_str(-42), "-42");
    assert_eq!(decimal_str(-9223372036854775808), "-9223372036854775808");
}

#[test]
fn operand_texts() {
    assert_eq!(val_to_str(Val::Reg(Reg::RAX)), "rax");
    assert_eq!(val_to_str(Val::Const(-3)), "-3");
    assert_eq!(val_to_str(Val::RegOffset(Reg::RSP, 2)), "[rsp+16]");
    assert_eq!(val_to_str(Val::RegOffset(Reg::RSP, -3)), "[rsp-24]");
}

#[test]
fn instruction_texts() {
    let names = vec!["fact".to_string()];
    assert_eq!(instr_to_str(Instr::IMov(Val::RegOffset(Reg::RSP, -2), Val::Reg(Reg::RAX)), &names), "  mov [rsp-16], rax\n");
    assert_eq!(instr_to_str(Instr::CMov(Val::Reg(Reg::RAX), Val::Reg(Reg::RBX)), &names), "  cmove rax, rbx\n");
    assert_eq!(instr_to_str(Instr::Jne(Label::ThrowError), &names), "  jne throw_error\n");
    assert_eq!(instr_to_str(Instr::Label(Label::IfEnd(12)), &names), "ifend12:\n");
    assert_eq!(instr_to_str(Instr::Call(Label::Func(0)), &names), "  call fact\n");
    assert_eq!(instr_to_str(Instr::Label(Label::Entry), &names), "our_code_starts_here:\n");
    assert_eq!(instr_to_str(Instr::Return, &names), "  ret\n");
}

#[test]
fn compiled_text_of_a_number() {
    let text = compile_source("73").unwrap();
    assert_eq!(text, "our_code_starts_here:\n  sub rsp, 8\n  mov rax, 146\n  add rsp, 8\n  ret\n");
}

#[test]
fn compiled_text_of_a_function() {
    let text = compile_source("(fun (id x) x) (id 5)").unwrap();
    assert!(text.starts_with("id:\n  sub rsp, 8\n  mov rax, [rsp+16]\n"));
    assert!(text.contains("  call id\n"));
    assert!(text.contains("our_code_starts_here:\n  sub rsp, 24\n"));
}

#[test]
fn tail_call_text_jumps() {
    let text = compile_source("(fun (f n) (if (= n 0) 0 (f (sub1 n)))) (f 3)").unwrap();
    assert!(text.contains("  jmp f\n"));
    assert!(text.contains("  mov [rsp+32], rax\n  add rsp, 24\n  jmp f\n"));
}

#[test]
fn depths() {
    let num = |n: i64| Box::new(Expr::Number(n));
    assert_eq!(depth(&Expr::Number(1)), 0);
    assert_eq!(depth(&Expr::BinOp(Op2::Plus, num(1), num(2))), 1);
    assert_eq!(depth(&Expr::BinOp(Op2::Plus, Box::new(Expr::BinOp(Op2::Plus, num(1), num(2))), num(3))), 2);
    assert_eq!(depth(&Expr::Print(num(1))), 2);
    assert_eq!(depth(&Expr::Call("f".to_string(), vec![Expr::Number(1), Expr::Number(2), Expr::Number(3)])), 3);
    let let3 = compile_depth("(let ((a 1) (b 2) (c (+ a b))) (+ c 1))");
    assert_eq!(let3, 4);
}

fn compile_depth(src: &str) -> u64 {
    let p = snek_compiler::compile::parse_source(src).unwrap();
    depth(&p.main)
}

#[test]
fn reserved_names() {
    assert!(reserved_word(&"set!".to_string()));
    assert!(reserved_word(&"<=".to_string()));
    assert!(!reserved_word(&"x".to_string()));
    assert!(reserved_label(&"our_code_starts_here".to_string()));
    assert!(!reserved_label(&"main".to_string()));
}

#[test]
fn input_parsing() {
    assert_eq!(parse_input("true"), Some(3));
    assert_eq!(parse_input("false"), Some(1));
    assert_eq!(parse_input("123"), Some(246));
    assert_eq!(parse_input("+4"), Some(8));
    assert_eq!(parse_input("-5"), Some((-10i64) as u64));
    assert_eq!(parse_input("4611686018427387903"), Some(9223372036854775806));
    assert_eq!(parse_input("4611686018427387904"), None);
    assert_eq!(parse_input("-4611686018427387904"), Some(9223372036854775808));
    assert_eq!(parse_input("-4611686018427387905"), None);
    assert_eq!(parse_input("abc"), None);
    assert_eq!(parse_input(" 1"), None);
    assert_eq!(parse_input(""), None);
    assert_eq!(parse_input("-"), None);
    assert_eq!(parse_input("+"), None);
    assert_eq!(parse_input("1 "), None);
    assert_eq!(parse_input("00012"), Some(24));
    assert_eq!(parse_input("-0"), Some(0));
    assert_eq!(parse_input("99999999999999999999999"), None);
    assert_eq!(parse_input("12a"), None);
}

#[test]
fn printed_values() {
    assert_eq!(print_value(3), "true");
    assert_eq!(print_value(1), "false");
    assert_eq!(print_value(246), "123");
    assert_eq!(print_value(-10), "-5");
    assert_eq!(print_value(5), "NaN, with value 5");
}

#[test]
fn error_reports() {
    assert_eq!(error_text(1), "Runtime: invalid argument error");
    assert_eq!(error_text(2), "Runtime: overflow error");
    assert_eq!(error_text(9), "Runtime: unknown error with code 9");
}

#[test]
fn error_messages_name_their_class() {
    let named = |k: ErrorKind, n: &str| CompileError { kind: k, name: n.to_string() }.message();
    assert!(named(ErrorKind::Syntax, "").contains("Syntax"));
    assert_eq!(named(ErrorKind::Keyword, "let"), "Invalid keyword let matches reserved word");
    assert_eq!(named(ErrorKind::Duplicate, "x"), "Duplicate binding x");
    assert!(named(ErrorKind::BreakOutsideLoop, "").contains("break"));
    assert!(named(ErrorKind::UndefinedFunction, "f").contains("Invalid"));
    assert!(compile_source("(let ((x 1)) x").unwrap_err().message().contains("Syntax"));
}

#[test]
fn success_verdicts() {
    let out: Result<String, String> = Ok("5\ntrue\n".to_string());
    assert!(run_success_test("  5\ntrue  \n", &out));
    assert!(!run_success_test("5\nfalse", &out));
    assert!(!run_success_test("5", &Err("boom".to_string())));
    assert!(run_test(TestKind::Success, "5\ntrue", &out));
}

#[test]
fn runtime_error_verdicts() {
    assert!(run_runtime_error_test(&Err("Overflow in add".to_string())));
    assert!(run_runtime_error_test(&Err("Type mismatch".to_string())));
    assert!(!run_runtime_error_test(&Err("something else".to_string())));
    assert!(!run_runtime_error_test(&Err("Typ".to_string())));
    assert!(run_runtime_error_test(&Err("an Overflow".to_string())));
    assert!(!run_runtime_error_test(&Ok("Type".to_string())));
    assert!(run_test(TestKind::RuntimeError, "", &Err("Type".to_string())));
}

#[test]
fn static_error_verdicts() {
    assert!(run_static_error_test("Invalid", &Err("Syntax error".to_string())));
    assert!(!run_static_error_test("Invalid", &Err("BadProgram".to_string())));
    assert!(run_static_error_test("keyword", &Err("BadProgram: keyword".to_string())));
    assert!(!run_static_error_test("keyword", &Ok(String::new())));
    assert!(run_test(TestKind::StaticError, "x", &Err("Syntax".to_string())));
}
