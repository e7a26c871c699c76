use boa::compile::{compile_to_instrs, CompileError};
use boa::env::Env;
use boa::instr::{Instr, Reg, Val};
use boa::surface::{parse_bind, parse_expr, ParseError, SexpTree};

fn sym(s: &str) -> SexpTree {
    SexpTree::SymAtom(s.to_string())
}

fn atom(n: i64) -> SexpTree {
    SexpTree::IntAtom(n)
}

fn list(items: Vec<SexpTree>) -> SexpTree {
    SexpTree::List(items)
}

fn compiled(t: &SexpTree) -> Vec<Instr> {
    let e = parse_expr(t).expect("tree should parse");
    compile_to_instrs(&e, &Env::empty(), 0).expect("expression should compile")
}

#[test]
fn parses_integer_atom() {
    let instrs = compiled(&atom(42));
    assert_eq!(
        instrs,
        vec![Instr::IMov(Val::Reg(Reg::RAX), Val::Imm(42))]
    );
}

#[test]
fn parses_add1_form() {
    let instrs = compiled(&list(vec![sym("add1"), atom(5)]));
    assert_eq!(
        instrs,
        vec![
            Instr::IMov(Val::Reg(Reg::RAX), Val::Imm(5)),
            Instr::IAdd(Val::Reg(Reg::RAX), Val::Imm(1)),
        ]
    );
}

#[test]
fn parses_sub1_form() {
    let instrs = compiled(&list(vec![sym("sub1"), atom(5)]));
    assert_eq!(
        instrs,
        vec![
            Instr::IMov(Val::Reg(Reg::RAX), Val::Imm(5)),
            Instr::ISub(Val::Reg(Reg::RAX), Val::Imm(1)),
        ]
    );
}

#[test]
fn parses_binary_forms() {
    for (op, combine) in [
        ("+", Instr::IAdd(Val::Reg(Reg::RAX), Val::RegOffset(Reg::RSP, 1))),
        ("*", Instr::IMul(Val::Reg(Reg::RAX), Val::RegOffset(Reg::RSP, 1))),
    ] {
        let instrs = compiled(&list(vec![sym(op), atom(2), atom(3)]));
        assert_eq!(
            instrs,
            vec![
                Instr::IMov(Val::Reg(Reg::RAX), Val::Imm(2)),
                Instr::IMov(Val::RegOffset(Reg::RSP, 1), Val::Reg(Reg::RAX)),
                Instr::IMov(Val::Reg(Reg::RAX), Val::Imm(3)),
                combine,
            ]
        );
    }
}

#[test]
fn parses_let_form() {
    let t = list(vec![
        sym("let"),
        list(vec![list(vec![sym("x"), atom(5)])]),
        sym("x"),
    ]);
    let instrs = compiled(&t);
    assert_eq!(
        instrs,
        vec![
            Instr::IMov(Val::Reg(Reg::RAX), Val::Imm(5)),
            Instr::IMov(Val::RegOffset(Reg::RSP, 1), Val::Reg(Reg::RAX)),
            Instr::IMov(Val::Reg(Reg::RAX), Val::RegOffset(Reg::RSP, 1)),
        ]
    );
}

#[test]
fn parse_accepts_unbound_identifier_syntactically() {
    // name resolution happens at code generation, not at parsing
    let e = parse_expr(&sym("y")).expect("a lone symbol parses");
    let r = compile_to_instrs(&e, &Env::empty(), 0);
    assert_eq!(r, Err(CompileError::UnboundIdentifier("y".to_string())));
}

#[test]
fn bare_name_clause_is_parse_error() {
    // a binding clause with no value is malformed, distinct from an
    // unbound identifier
    let t = list(vec![
        sym("let"),
        list(vec![list(vec![sym("x")])]),
        sym("x"),
    ]);
    assert_eq!(parse_expr(&t).err(), Some(ParseError));
}

#[test]
fn empty_binding_list_is_parse_error() {
    let t = list(vec![sym("let"), list(vec![]), atom(1)]);
    assert_eq!(parse_expr(&t).err(), Some(ParseError));
}

#[test]
fn unknown_operator_is_parse_error() {
    assert_eq!(parse_expr(&list(vec![sym("foo"), atom(1)])).err(), Some(ParseError));
    assert_eq!(
        parse_expr(&list(vec![sym("add1"), atom(1), atom(2)])).err(),
        Some(ParseError)
    );
    assert_eq!(parse_expr(&list(vec![atom(1), atom(2)])).err(), Some(ParseError));
    assert_eq!(parse_expr(&list(vec![])).err(), Some(ParseError));
}

#[test]
fn float_atom_is_parse_error() {
    assert_eq!(parse_expr(&SexpTree::FloatAtom).err(), Some(ParseError));
    assert_eq!(
        parse_expr(&list(vec![sym("add1"), SexpTree::FloatAtom])).err(),
        Some(ParseError)
    );
}

#[test]
fn out_of_range_integer_atom_is_parse_error() {
    assert_eq!(parse_expr(&atom(i64::from(i32::MAX) + 1)).err(), Some(ParseError));
    assert_eq!(parse_expr(&atom(i64::from(i32::MIN) - 1)).err(), Some(ParseError));
    assert!(parse_expr(&atom(i64::from(i32::MAX))).is_ok());
    assert!(parse_expr(&atom(i64::from(i32::MIN))).is_ok());
}

#[test]
fn parse_bind_reads_one_clause() {
    let (name, value) = parse_bind(&list(vec![sym("n"), atom(3)])).expect("clause parses");
    assert_eq!(name, "n");
    let instrs = compile_to_instrs(&value, &Env::empty(), 0).unwrap();
    assert_eq!(instrs, vec![Instr::IMov(Val::Reg(Reg::RAX), Val::Imm(3))]);
}

#[test]
fn parse_bind_rejects_other_shapes() {
    assert_eq!(parse_bind(&sym("x")).err(), Some(ParseError));
    assert_eq!(parse_bind(&list(vec![atom(1), atom(2)])).err(), Some(ParseError));
    assert_eq!(
        parse_bind(&list(vec![sym("x"), atom(1), atom(2)])).err(),
        Some(ParseError)
    );
}
