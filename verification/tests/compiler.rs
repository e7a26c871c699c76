use boa::ast::{Expr, Op1, Op2};
use boa::compile::{compile_program, compile_to_instrs, CompileError};
use boa::env::Env;
use boa::instr::{Instr, Reg, Val};

fn imm(n: i32) -> Val {
    Val::Imm(n)
}

fn rax() -> Val {
    Val::Reg(Reg::RAX)
}

fn slot(n: i32) -> Val {
    Val::RegOffset(Reg::RSP, n)
}

#[test]
fn number_compiles_to_single_move() {
    for n in [0i32, 1, -1, 42, i32::MAX, i32::MIN] {
        let e = Expr::Number(n);
        let instrs = compile_to_instrs(&e, &Env::empty(), 0).unwrap();
        assert_eq!(instrs, vec![Instr::IMov(rax(), imm(n))]);
    }
}

#[test]
fn increment_of_literal() {
    let e = Expr::UnOp(Op1::Add1, Box::new(Expr::Number(5)));
    let instrs = compile_to_instrs(&e, &Env::empty(), 0).unwrap();
    assert_eq!(
        instrs,
        vec![Instr::IMov(rax(), imm(5)), Instr::IAdd(rax(), imm(1))]
    );
}

#[test]
fn decrement_of_literal() {
    let e = Expr::UnOp(Op1::Sub1, Box::new(Expr::Number(9)));
    let instrs = compile_to_instrs(&e, &Env::empty(), 0).unwrap();
    assert_eq!(
        instrs,
        vec![Instr::IMov(rax(), imm(9)), Instr::ISub(rax(), imm(1))]
    );
}

#[test]
fn let_allocates_slot_one() {
    let e = Expr::Let(
        vec![("x".to_string(), Expr::Number(5))],
        Box::new(Expr::Id("x".to_string())),
    );
    let instrs = compile_to_instrs(&e, &Env::empty(), 0).unwrap();
    assert_eq!(
        instrs,
        vec![
            Instr::IMov(rax(), imm(5)),
            Instr::IMov(slot(1), rax()),
            Instr::IMov(rax(), slot(1)),
        ]
    );
}

#[test]
fn shadowing_resolves_inner_binding() {
    let inner = Expr::Let(
        vec![("x".to_string(), Expr::Number(2))],
        Box::new(Expr::Id("x".to_string())),
    );
    let outer = Expr::Let(vec![("x".to_string(), Expr::Number(1))], Box::new(inner));
    let instrs = compile_to_instrs(&outer, &Env::empty(), 0).unwrap();
    assert_eq!(
        instrs,
        vec![
            Instr::IMov(rax(), imm(1)),
            Instr::IMov(slot(1), rax()),
            Instr::IMov(rax(), imm(2)),
            Instr::IMov(slot(2), rax()),
            Instr::IMov(rax(), slot(2)),
        ]
    );
}

#[test]
fn later_binding_sees_earlier_one() {
    let e = Expr::Let(
        vec![
            ("a".to_string(), Expr::Number(3)),
            ("b".to_string(), Expr::Id("a".to_string())),
        ],
        Box::new(Expr::Id("b".to_string())),
    );
    let instrs = compile_to_instrs(&e, &Env::empty(), 0).unwrap();
    assert_eq!(
        instrs,
        vec![
            Instr::IMov(rax(), imm(3)),
            Instr::IMov(slot(1), rax()),
            Instr::IMov(rax(), slot(1)),
            Instr::IMov(slot(2), rax()),
            Instr::IMov(rax(), slot(2)),
        ]
    );
}

#[test]
fn unbound_identifier_fails() {
    let e = Expr::Id("y".to_string());
    let r = compile_to_instrs(&e, &Env::empty(), 0);
    assert_eq!(r, Err(CompileError::UnboundIdentifier("y".to_string())));
}

#[test]
fn duplicate_binding_fails() {
    let e = Expr::Let(
        vec![
            ("x".to_string(), Expr::Number(1)),
            ("x".to_string(), Expr::Number(2)),
        ],
        Box::new(Expr::Id("x".to_string())),
    );
    let r = compile_to_instrs(&e, &Env::empty(), 0);
    assert_eq!(r, Err(CompileError::DuplicateBinding("x".to_string())));
}

#[test]
fn duplicate_binding_beats_unbound_value() {
    // the duplicate is found before any binding value is compiled
    let e = Expr::Let(
        vec![
            ("x".to_string(), Expr::Id("nope".to_string())),
            ("x".to_string(), Expr::Number(2)),
        ],
        Box::new(Expr::Id("x".to_string())),
    );
    let r = compile_to_instrs(&e, &Env::empty(), 0);
    assert_eq!(r, Err(CompileError::DuplicateBinding("x".to_string())));
}

#[test]
fn subtraction_computes_left_minus_right() {
    // (- 10 3): the slot is updated in place with left - right and
    // moved back into the accumulator
    let e = Expr::BinOp(
        Op2::Minus,
        Box::new(Expr::Number(10)),
        Box::new(Expr::Number(3)),
    );
    let instrs = compile_to_instrs(&e, &Env::empty(), 0).unwrap();
    assert_eq!(
        instrs,
        vec![
            Instr::IMov(rax(), imm(10)),
            Instr::IMov(slot(1), rax()),
            Instr::IMov(rax(), imm(3)),
            Instr::ISub(slot(1), rax()),
            Instr::IMov(rax(), slot(1)),
        ]
    );
}

#[test]
fn addition_combines_into_accumulator() {
    let e = Expr::BinOp(
        Op2::Plus,
        Box::new(Expr::Number(4)),
        Box::new(Expr::Number(6)),
    );
    let instrs = compile_to_instrs(&e, &Env::empty(), 0).unwrap();
    assert_eq!(
        instrs,
        vec![
            Instr::IMov(rax(), imm(4)),
            Instr::IMov(slot(1), rax()),
            Instr::IMov(rax(), imm(6)),
            Instr::IAdd(rax(), slot(1)),
        ]
    );
}

#[test]
fn multiplication_combines_into_accumulator() {
    let e = Expr::BinOp(
        Op2::Times,
        Box::new(Expr::Number(2)),
        Box::new(Expr::Number(8)),
    );
    let instrs = compile_to_instrs(&e, &Env::empty(), 0).unwrap();
    assert_eq!(
        instrs,
        vec![
            Instr::IMov(rax(), imm(2)),
            Instr::IMov(slot(1), rax()),
            Instr::IMov(rax(), imm(8)),
            Instr::IMul(rax(), slot(1)),
        ]
    );
}

#[test]
fn nested_right_operand_avoids_saved_slot() {
    // the right operand is compiled with its cursor bumped past the
    // saved left value, so its own temporary lands in slot 2
    let e = Expr::BinOp(
        Op2::Plus,
        Box::new(Expr::Number(1)),
        Box::new(Expr::BinOp(
            Op2::Plus,
            Box::new(Expr::Number(2)),
            Box::new(Expr::Number(3)),
        )),
    );
    let instrs = compile_to_instrs(&e, &Env::empty(), 0).unwrap();
    assert_eq!(
        instrs,
        vec![
            Instr::IMov(rax(), imm(1)),
            Instr::IMov(slot(1), rax()),
            Instr::IMov(rax(), imm(2)),
            Instr::IMov(slot(2), rax()),
            Instr::IMov(rax(), imm(3)),
            Instr::IAdd(rax(), slot(2)),
            Instr::IAdd(rax(), slot(1)),
        ]
    );
}

#[test]
fn compilation_is_deterministic() {
    let make = || {
        Expr::Let(
            vec![("x".to_string(), Expr::Number(7))],
            Box::new(Expr::BinOp(
                Op2::Minus,
                Box::new(Expr::Id("x".to_string())),
                Box::new(Expr::Number(3)),
            )),
        )
    };
    let r1 = compile_to_instrs(&make(), &Env::empty(), 0).unwrap();
    let r2 = compile_to_instrs(&make(), &Env::empty(), 0).unwrap();
    assert_eq!(r1, r2);
}

#[test]
fn compile_program_renders_text() {
    let e = Expr::Let(
        vec![("x".to_string(), Expr::Number(5))],
        Box::new(Expr::UnOp(Op1::Add1, Box::new(Expr::Id("x".to_string())))),
    );
    let text = compile_program(&e).unwrap().unwrap();
    assert_eq!(
        text,
        "mov rax, 5\nmov [rsp - 8*1], rax\nmov rax, [rsp - 8*1]\nadd rax, 1\n"
    );
}

#[test]
fn compile_program_reports_failure() {
    let e = Expr::Id("q".to_string());
    let r = compile_program(&e).unwrap();
    assert_eq!(r, Err(CompileError::UnboundIdentifier("q".to_string())));
}

#[test]
fn rendered_lines_match_instruction_grammar() {
    let e = Expr::Let(
        vec![("v".to_string(), Expr::Number(-4))],
        Box::new(Expr::BinOp(
            Op2::Times,
            Box::new(Expr::Id("v".to_string())),
            Box::new(Expr::Number(3)),
        )),
    );
    let text = compile_program(&e).unwrap().unwrap();
    for line in text.lines() {
        let (mnemonic, rest) = line.split_at(4);
        assert!(
            matches!(mnemonic, "mov " | "add " | "sub " | "mul "),
            "unexpected mnemonic in line: {line}"
        );
        let parts: Vec<&str> = rest.split(", ").collect();
        assert_eq!(parts.len(), 2, "expected two operands in line: {line}");
        for op in parts {
            let is_reg = op == "rax" || op == "rsp";
            let is_int = op
                .strip_prefix('-')
                .unwrap_or(op)
                .chars()
                .all(|c| c.is_ascii_digit())
                && !op.trim_start_matches('-').is_empty();
            let is_mem = op.starts_with('[') && op.ends_with(']') && op.contains(" - 8*");
            assert!(is_reg || is_int || is_mem, "unexpected operand: {op}");
        }
    }
}
