use boa::instr::{instr_to_str, instrs_to_string, val_to_str, Instr, Reg, Val};

#[test]
fn registers_render_by_name() {
    assert_eq!(Reg::RAX.to_string(), "rax");
    assert_eq!(Reg::RSP.to_string(), "rsp");
}

#[test]
fn immediates_render_in_decimal() {
    assert_eq!(val_to_str(&Val::Imm(0)), "0");
    assert_eq!(val_to_str(&Val::Imm(42)), "42");
    assert_eq!(val_to_str(&Val::Imm(-7)), "-7");
    assert_eq!(val_to_str(&Val::Imm(i32::MAX)), "2147483647");
    assert_eq!(val_to_str(&Val::Imm(i32::MIN)), "-2147483648");
}

#[test]
fn stack_offsets_render_as_dereferences() {
    assert_eq!(val_to_str(&Val::RegOffset(Reg::RSP, 3)), "[rsp - 8*3]");
    assert_eq!(val_to_str(&Val::RegOffset(Reg::RAX, 1)), "[rax - 8*1]");
}

#[test]
fn instructions_render_as_lines() {
    assert_eq!(
        instr_to_str(&Instr::IMov(Val::Reg(Reg::RAX), Val::Imm(5))),
        "mov rax, 5"
    );
    assert_eq!(
        instr_to_str(&Instr::IAdd(Val::Reg(Reg::RAX), Val::Imm(1))),
        "add rax, 1"
    );
    assert_eq!(
        instr_to_str(&Instr::ISub(Val::RegOffset(Reg::RSP, 1), Val::Reg(Reg::RAX))),
        "sub [rsp - 8*1], rax"
    );
    assert_eq!(
        instr_to_str(&Instr::IMul(Val::Reg(Reg::RAX), Val::RegOffset(Reg::RSP, 2))),
        "mul rax, [rsp - 8*2]"
    );
}

#[test]
fn sequences_render_one_line_per_instruction() {
    let instrs = vec![
        Instr::IMov(Val::Reg(Reg::RAX), Val::Imm(5)),
        Instr::IAdd(Val::Reg(Reg::RAX), Val::Imm(1)),
    ];
    assert_eq!(instrs_to_string(&instrs), "mov rax, 5\nadd rax, 1\n");
    assert_eq!(instrs_to_string(&Vec::new()), "");
}
