//! Properties of the compiler that hold beyond any single run: the
//! shape of the code emitted for a literal, the resolution of shadowed
//! bindings, the syntactic validity of every rendered line, and the
//! determinism of compilation.

use vstd::prelude::*;

use crate::ast::Expr;
use crate::compile::CodeResult;
use crate::compile::CompileError;
use crate::compile::compile_binds;
use crate::compile::compile_expr;
use crate::compile::dup_from;
use crate::compile::first_duplicate;
use crate::compile::let_env;
use crate::compile::names_of;
use crate::compile::result_matches;
use crate::instr::Instr;
use crate::instr::Reg;
use crate::instr::Val;
use crate::instr::instr_text;
use crate::instr::reg_text;
use crate::instr::val_text;
use crate::numeral::dec_digits;
use crate::numeral::digit_char;
use crate::numeral::int_text;
use crate::numeral::is_digit;

verus! {

/// Compiling an integer literal yields exactly one instruction: a move
/// of the immediate into the accumulator. Holds for every literal,
/// every environment and every cursor.
pub proof fn lemma_compile_number(n: i32, env: Map<Seq<char>, i32>, cur: int)
    ensures
        compile_expr(Expr::Number(n), env, cur) == CodeResult::Emitted(
            seq![Instr::IMov(Val::Reg(Reg::RAX), Val::Imm(n))],
        ),
{
}

/// Compilation is deterministic: two results of compiling the same
/// expression against the same environment and cursor are the same
/// instruction sequence, or the same failure with the same name.
pub proof fn lemma_compile_deterministic(
    e: Expr,
    env: Map<Seq<char>, i32>,
    cur: int,
    r1: Result<Vec<Instr>, CompileError>,
    r2: Result<Vec<Instr>, CompileError>,
)
    requires
        result_matches(r1, compile_expr(e, env, cur)),
        result_matches(r2, compile_expr(e, env, cur)),
    ensures
        r1 matches Ok(v1) ==> (r2 matches Ok(v2) && v1@ == v2@),
        r1 matches Err(CompileError::UnboundIdentifier(m1)) ==> (r2 matches Err(
            CompileError::UnboundIdentifier(m2),
        ) && m1@ == m2@),
        r1 matches Err(CompileError::DuplicateBinding(m1)) ==> (r2 matches Err(
            CompileError::DuplicateBinding(m2),
        ) && m1@ == m2@),
{
}

/// A `let` of one binding whose body is a `let` of one binding with the
/// same name resolves the inner body's identifier to the inner, later
/// slot; the outer binding keeps its own slot, unreachable from the
/// inner body.
pub proof fn lemma_shadowing(
    outer: Expr,
    inner: Expr,
    env: Map<Seq<char>, i32>,
    cur: int,
    a: i32,
    b: i32,
)
    requires
        0 <= cur,
        cur + 2 <= i32::MAX,
        outer matches Expr::Let(obs, obody) && obs@.len() == 1 && obs@[0].1 == Expr::Number(a)
            && *obody == inner,
        inner matches Expr::Let(ibs, ibody) && ibs@.len() == 1 && ibs@[0].1 == Expr::Number(b)
            && (outer matches Expr::Let(obs, _) && ibs@[0].0@ == obs@[0].0@)
            && (*ibody matches Expr::Id(z) && z@ == ibs@[0].0@),
    ensures
        compile_expr(outer, env, cur) == CodeResult::Emitted(
            seq![
                Instr::IMov(Val::Reg(Reg::RAX), Val::Imm(a)),
                Instr::IMov(Val::RegOffset(Reg::RSP, (cur + 1) as i32), Val::Reg(Reg::RAX)),
                Instr::IMov(Val::Reg(Reg::RAX), Val::Imm(b)),
                Instr::IMov(Val::RegOffset(Reg::RSP, (cur + 2) as i32), Val::Reg(Reg::RAX)),
                Instr::IMov(Val::Reg(Reg::RAX), Val::RegOffset(Reg::RSP, (cur + 2) as i32)),
            ],
        ),
{
    let obs = outer->Let_0;
    let obody = outer->Let_1;
    let ibs = inner->Let_0;
    let ibody = inner->Let_1;
    let x = obs@[0].0@;
    lemma_single_bind_let(outer, env, cur);
    lemma_single_bind_let(inner, env.insert(x, (cur + 1) as i32), cur + 1);
    let env1 = env.insert(x, (cur + 1) as i32);
    let env2 = env1.insert(x, (cur + 2) as i32);
    assert(env2.dom().contains(x));
    assert(env2[x] == (cur + 2) as i32);
    assert(compile_expr(*ibody, env2, cur + 2) == CodeResult::Emitted(
        seq![Instr::IMov(Val::Reg(Reg::RAX), Val::RegOffset(Reg::RSP, (cur + 2) as i32))],
    ));
    assert(compile_expr(outer, env, cur)->Emitted_0 =~= seq![
        Instr::IMov(Val::Reg(Reg::RAX), Val::Imm(a)),
        Instr::IMov(Val::RegOffset(Reg::RSP, (cur + 1) as i32), Val::Reg(Reg::RAX)),
        Instr::IMov(Val::Reg(Reg::RAX), Val::Imm(b)),
        Instr::IMov(Val::RegOffset(Reg::RSP, (cur + 2) as i32), Val::Reg(Reg::RAX)),
        Instr::IMov(Val::Reg(Reg::RAX), Val::RegOffset(Reg::RSP, (cur + 2) as i32)),
    ]);
}

/// For a `let` of a single binding whose value is a literal, the
/// compilation is the literal move, the save to the next slot, then the
/// body compiled one slot further under the extended environment.
proof fn lemma_single_bind_let(e: Expr, env: Map<Seq<char>, i32>, cur: int)
    requires
        e matches Expr::Let(bs, body) && bs@.len() == 1 && bs@[0].1 matches Expr::Number(_),
    ensures
        compile_expr(e, env, cur) == ({
            let bs = e->Let_0;
            let body = e->Let_1;
            let n = bs@[0].1->Number_0;
            let benv = env.insert(bs@[0].0@, (cur + 1) as i32);
            match compile_expr(*body, benv, cur + 1) {
                CodeResult::Emitted(bcode) => CodeResult::Emitted(
                    seq![
                        Instr::IMov(Val::Reg(Reg::RAX), Val::Imm(n)),
                        Instr::IMov(Val::RegOffset(Reg::RSP, (cur + 1) as i32), Val::Reg(Reg::RAX)),
                    ] + bcode,
                ),
                err => err,
            }
        }),
{
    let bs = e->Let_0;
    let body = e->Let_1;
    let n = bs@[0].1->Number_0;
    let nms = names_of(bs@);
    assert(nms.len() == 1);
    assert(dup_from(nms, 0) == dup_from(nms, 1));
    assert(dup_from(nms, 1) is None);
    assert(first_duplicate(nms) is None);
    let benv = env.insert(bs@[0].0@, (cur + 1) as i32);
    assert(bs@.drop_first() =~= Seq::<(String, Expr)>::empty());
    assert(compile_binds(bs@.drop_first(), benv, cur + 1) == CodeResult::Emitted(
        Seq::<Instr>::empty(),
    ));
    assert(compile_expr(bs@[0].1, env, cur) == CodeResult::Emitted(
        seq![Instr::IMov(Val::Reg(Reg::RAX), Val::Imm(n))],
    ));
    assert(compile_binds(bs@, env, cur) == CodeResult::Emitted(
        seq![Instr::IMov(Val::Reg(Reg::RAX), Val::Imm(n))].push(
            Instr::IMov(Val::RegOffset(Reg::RSP, (cur + 1) as i32), Val::Reg(Reg::RAX)),
        ) + Seq::<Instr>::empty(),
    ));
    assert(let_env(bs@.drop_first(), benv, cur + 1) == benv);
    assert(let_env(bs@, env, cur) == benv);
    match compile_expr(*body, benv, cur + 1) {
        CodeResult::Emitted(bcode) => {
            assert(seq![Instr::IMov(Val::Reg(Reg::RAX), Val::Imm(n))].push(
                Instr::IMov(Val::RegOffset(Reg::RSP, (cur + 1) as i32), Val::Reg(Reg::RAX)),
            ) + Seq::<Instr>::empty() + bcode =~= seq![
                Instr::IMov(Val::Reg(Reg::RAX), Val::Imm(n)),
                Instr::IMov(Val::RegOffset(Reg::RSP, (cur + 1) as i32), Val::Reg(Reg::RAX)),
            ] + bcode);
        },
        _ => {},
    }
}

/// A decimal integer literal: optional minus sign, then at least one
/// digit.
pub open spec fn is_int_literal(s: Seq<char>) -> bool {
    let digits = if s.len() > 0 && s[0] == '-' {
        s.skip(1)
    } else {
        s
    };
    digits.len() > 0 && (forall|k: int| 0 <= k < digits.len() ==> is_digit(#[trigger] digits[k]))
}

/// A register name as assembly text.
pub open spec fn is_reg_name(s: Seq<char>) -> bool {
    s == "rax"@ || s == "rsp"@
}

/// A memory operand: a bracketed base register minus eight times a slot
/// literal.
pub open spec fn is_mem_operand(s: Seq<char>) -> bool {
    exists|r: Seq<char>, n: Seq<char>|
        is_reg_name(r) && is_int_literal(n) && s == "["@ + r + " - 8*"@ + n + "]"@
}

/// One of the three operand forms.
pub open spec fn is_operand_text(s: Seq<char>) -> bool {
    is_reg_name(s) || is_int_literal(s) || is_mem_operand(s)
}

/// One of the four mnemonics.
pub open spec fn is_mnemonic(s: Seq<char>) -> bool {
    s == "mov"@ || s == "add"@ || s == "sub"@ || s == "mul"@
}

/// A line of the instruction grammar: a mnemonic, a space, an operand,
/// a comma and space, and a second operand.
pub open spec fn is_instr_line(s: Seq<char>) -> bool {
    exists|m: Seq<char>, a: Seq<char>, b: Seq<char>|
        is_mnemonic(m) && is_operand_text(a) && is_operand_text(b) && s == m + " "@ + a + ", "@ + b
}

/// Text that holds no line terminator, so that joining lines with
/// newlines can be undone unambiguously.
pub open spec fn newline_free(s: Seq<char>) -> bool {
    forall|k: int| 0 <= k < s.len() ==> s[k] != '\n'
}

/// Every digit sequence the renderer produces consists of digit
/// characters.
proof fn lemma_dec_digits_are_digits(n: nat)
    ensures
        dec_digits(n).len() > 0,
        forall|k: int| 0 <= k < dec_digits(n).len() ==> is_digit(#[trigger] dec_digits(n)[k]),
    decreases n,
{
    assert(is_digit(digit_char((n % 10) as int)));
    assert(is_digit(digit_char(n as int)));
    if n >= 10 {
        lemma_dec_digits_are_digits(n / 10);
    }
}

/// The decimal text of any integer is an integer literal.
proof fn lemma_int_text_literal(n: int)
    ensures
        is_int_literal(int_text(n)),
{
    lemma_dec_digits_are_digits(if n < 0 {
        (-n) as nat
    } else {
        n as nat
    });
    if n < 0 {
        let s = int_text(n);
        assert(s[0] == '-');
        assert(s.skip(1) =~= dec_digits((-n) as nat));
    }
}

/// Joining two newline-free texts yields a newline-free text.
proof fn lemma_concat_newline_free(p: Seq<char>, q: Seq<char>)
    requires
        newline_free(p),
        newline_free(q),
    ensures
        newline_free(p + q),
{
    assert forall|k: int| 0 <= k < (p + q).len() implies (p + q)[k] != '\n' by {
        if k < p.len() {
            assert((p + q)[k] == p[k]);
        } else {
            assert((p + q)[k] == q[k - p.len()]);
        }
    }
}

/// The decimal text of any integer holds no newline.
proof fn lemma_int_text_newline_free(n: int)
    ensures
        newline_free(int_text(n)),
{
    lemma_dec_digits_are_digits(if n < 0 {
        (-n) as nat
    } else {
        n as nat
    });
    assert forall|k: int| 0 <= k < int_text(n).len() implies int_text(n)[k] != '\n' by {
        if n < 0 && k > 0 {
            assert(int_text(n)[k] == dec_digits((-n) as nat)[k - 1]);
            assert(is_digit(int_text(n)[k]));
        } else if n >= 0 {
            assert(is_digit(int_text(n)[k]));
        }
    }
}

/// The name of either register holds no newline.
proof fn lemma_reg_text_newline_free(r: Reg)
    ensures
        newline_free(reg_text(r)),
{
    reveal_strlit("rax");
    reveal_strlit("rsp");
}

/// The text of any operand is one of the three operand forms, and
/// holds no newline.
proof fn lemma_val_text_operand(v: Val)
    ensures
        is_operand_text(val_text(v)),
        newline_free(val_text(v)),
{
    match v {
        Val::Reg(r) => {
            lemma_reg_text_newline_free(r);
        },
        Val::Imm(i) => {
            lemma_int_text_literal(i as int);
            lemma_int_text_newline_free(i as int);
        },
        Val::RegOffset(r, slot) => {
            lemma_int_text_literal(slot as int);
            lemma_int_text_newline_free(slot as int);
            lemma_reg_text_newline_free(r);
            assert(is_reg_name(reg_text(r)));
            assert(val_text(v) == "["@ + reg_text(r) + " - 8*"@ + int_text(slot as int) + "]"@);
            assert(is_mem_operand(val_text(v)));
            reveal_strlit("[");
            reveal_strlit(" - 8*");
            reveal_strlit("]");
            assert(newline_free("["@));
            assert(newline_free(" - 8*"@));
            assert(newline_free("]"@));
            lemma_concat_newline_free("["@, reg_text(r));
            lemma_concat_newline_free("["@ + reg_text(r), " - 8*"@);
            lemma_concat_newline_free("["@ + reg_text(r) + " - 8*"@, int_text(slot as int));
            lemma_concat_newline_free(
                "["@ + reg_text(r) + " - 8*"@ + int_text(slot as int),
                "]"@,
            );
        },
    }
}

/// The text of any instruction is a line of the instruction grammar,
/// and holds no newline of its own.
pub proof fn lemma_instr_line(i: Instr)
    ensures
        is_instr_line(instr_text(i)),
        newline_free(instr_text(i)),
{
    reveal_strlit(", ");
    reveal_strlit("mov ");
    reveal_strlit("add ");
    reveal_strlit("sub ");
    reveal_strlit("mul ");
    reveal_strlit("mov");
    reveal_strlit("add");
    reveal_strlit("sub");
    reveal_strlit("mul");
    reveal_strlit(" ");
    assert("mov "@ =~= "mov"@ + " "@);
    assert("add "@ =~= "add"@ + " "@);
    assert("sub "@ =~= "sub"@ + " "@);
    assert("mul "@ =~= "mul"@ + " "@);
    match i {
        Instr::IMov(a, b) => {
            lemma_val_text_operand(a);
            lemma_val_text_operand(b);
            assert(instr_text(i) == "mov"@ + " "@ + val_text(a) + ", "@ + val_text(b)) by {
                assert(instr_text(i) =~= "mov"@ + " "@ + val_text(a) + ", "@ + val_text(b));
            }
            assert(newline_free("mov "@));
            assert(newline_free(", "@));
            lemma_concat_newline_free("mov "@, val_text(a));
            lemma_concat_newline_free("mov "@ + val_text(a), ", "@);
            lemma_concat_newline_free("mov "@ + val_text(a) + ", "@, val_text(b));
        },
        Instr::IAdd(a, b) => {
            lemma_val_text_operand(a);
            lemma_val_text_operand(b);
            assert(instr_text(i) == "add"@ + " "@ + val_text(a) + ", "@ + val_text(b)) by {
                assert(instr_text(i) =~= "add"@ + " "@ + val_text(a) + ", "@ + val_text(b));
            }
            assert(newline_free("add "@));
            assert(newline_free(", "@));
            lemma_concat_newline_free("add "@, val_text(a));
            lemma_concat_newline_free("add "@ + val_text(a), ", "@);
            lemma_concat_newline_free("add "@ + val_text(a) + ", "@, val_text(b));
        },
        Instr::ISub(a, b) => {
            lemma_val_text_operand(a);
            lemma_val_text_operand(b);
            assert(instr_text(i) == "sub"@ + " "@ + val_text(a) + ", "@ + val_text(b)) by {
                assert(instr_text(i) =~= "sub"@ + " "@ + val_text(a) + ", "@ + val_text(b));
            }
            assert(newline_free("sub "@));
            assert(newline_free(", "@));
            lemma_concat_newline_free("sub "@, val_text(a));
            lemma_concat_newline_free("sub "@ + val_text(a), ", "@);
            lemma_concat_newline_free("sub "@ + val_text(a) + ", "@, val_text(b));
        },
        Instr::IMul(a, b) => {
            lemma_val_text_operand(a);
            lemma_val_text_operand(b);
            assert(instr_text(i) == "mul"@ + " "@ + val_text(a) + ", "@ + val_text(b)) by {
                assert(instr_text(i) =~= "mul"@ + " "@ + val_text(a) + ", "@ + val_text(b));
            }
            assert(newline_free("mul "@));
            assert(newline_free(", "@));
            lemma_concat_newline_free("mul "@, val_text(a));
            lemma_concat_newline_free("mul "@ + val_text(a), ", "@);
            lemma_concat_newline_free("mul "@ + val_text(a) + ", "@, val_text(b));
        },
    }
}

/// Whatever AST is compiled, against whatever environment and cursor:
/// when compilation succeeds, the rendering of every emitted
/// instruction is a syntactically valid line of the instruction
/// grammar, free of newlines of its own — so the rendered program
/// text, which joins the lines with newlines, decomposes back into
/// exactly those valid lines.
pub proof fn lemma_compiled_lines_valid(e: Expr, env: Map<Seq<char>, i32>, cur: int)
    ensures
        compile_expr(e, env, cur) matches CodeResult::Emitted(code) ==> forall|k: int|
            0 <= k < code.len() ==> is_instr_line(#[trigger] instr_text(code[k])) && newline_free(
                instr_text(code[k]),
            ),
{
    if let CodeResult::Emitted(code) = compile_expr(e, env, cur) {
        assert forall|k: int| 0 <= k < code.len() implies is_instr_line(
            #[trigger] instr_text(code[k]),
        ) && newline_free(instr_text(code[k])) by {
            lemma_instr_line(code[k]);
        }
    }
}

} // verus!
