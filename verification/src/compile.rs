//! The code generator: walks the AST, threading the environment and a
//! monotonically increasing stack-slot cursor, and emits an ordered
//! instruction sequence.
//!
//! The combining step for subtraction is asymmetric: after the left
//! value is saved to its slot and the right value is evaluated into the
//! accumulator, the slot is updated in place with `left - right` and
//! then moved back into the accumulator.

use vstd::prelude::*;

use crate::ast::Expr;
use crate::ast::Op1;
use crate::ast::Op2;
use crate::env::Env;
use crate::env::im_set_contains;
use crate::env::im_set_insert;
use crate::env::im_set_model;
use crate::env::im_set_new;
use crate::instr::Instr;
use crate::instr::Reg;
use crate::instr::Val;

verus! {

/// A compilation failure; both kinds abort the compilation with no
/// partial result.
#[derive(Debug, PartialEq, Eq)]
pub enum CompileError {
    /// An identifier was read that the environment does not bind.
    UnboundIdentifier(String),
    /// One `let` bound the same name twice in its binding list.
    DuplicateBinding(String),
}

/// The abstract outcome of compiling an expression: the emitted
/// instruction sequence, or the first failure.
pub enum CodeResult {
    Emitted(Seq<Instr>),
    Unbound(Seq<char>),
    Duplicate(Seq<char>),
}

/// How many stack slots above the starting cursor a compilation may
/// touch; used only to bound the cursor against machine limits.
pub open spec fn slot_need(e: Expr) -> nat
    decreases e,
{
    match e {
        Expr::Number(_) => 0,
        Expr::Id(_) => 0,
        Expr::UnOp(_, e1) => slot_need(*e1),
        Expr::BinOp(_, l, r) => 1 + slot_need(*l) + slot_need(*r),
        Expr::Let(bindings, body) => binds_slot_need(bindings@) + bindings@.len() + slot_need(
            *body,
        ),
    }
}

/// The summed slot need of the value expressions of a binding list.
pub open spec fn binds_slot_need(bs: Seq<(String, Expr)>) -> nat
    decreases bs,
{
    if bs.len() == 0 {
        0
    } else {
        slot_need(bs[0].1) + binds_slot_need(bs.drop_first())
    }
}

/// The names of a binding list, in order.
pub open spec fn names_of(bs: Seq<(String, Expr)>) -> Seq<Seq<char>> {
    bs.map_values(|b: (String, Expr)| b.0@)
}

/// Scanning left to right from position `i`, the first name that
/// repeats an earlier one, if any.
pub open spec fn dup_from(names: Seq<Seq<char>>, i: int) -> Option<Seq<char>>
    decreases names.len() - i,
{
    if i < 0 || i >= names.len() {
        None
    } else if exists|j: int| 0 <= j < i && names[j] == names[i] {
        Some(names[i])
    } else {
        dup_from(names, i + 1)
    }
}

/// The first repeated name of a binding list, if any.
pub open spec fn first_duplicate(names: Seq<Seq<char>>) -> Option<Seq<char>> {
    dup_from(names, 0)
}

/// The environment a `let` body sees: each binding added in order, the
/// binding at position `k` assigned slot `cur + k + 1`.
pub open spec fn let_env(bs: Seq<(String, Expr)>, env: Map<Seq<char>, i32>, cur: int) -> Map<
    Seq<char>,
    i32,
>
    decreases bs.len(),
{
    if bs.len() == 0 {
        env
    } else {
        let_env(bs.drop_first(), env.insert(bs[0].0@, (cur + 1) as i32), cur + 1)
    }
}

/// The instructions that combine a saved left value (in its slot) with
/// a right value (in the accumulator).
pub open spec fn op2_combine(op: Op2, slot: i32) -> Seq<Instr> {
    match op {
        Op2::Plus => seq![Instr::IAdd(Val::Reg(Reg::RAX), Val::RegOffset(Reg::RSP, slot))],
        Op2::Minus => seq![
            Instr::ISub(Val::RegOffset(Reg::RSP, slot), Val::Reg(Reg::RAX)),
            Instr::IMov(Val::Reg(Reg::RAX), Val::RegOffset(Reg::RSP, slot)),
        ],
        Op2::Times => seq![Instr::IMul(Val::Reg(Reg::RAX), Val::RegOffset(Reg::RSP, slot))],
    }
}

/// What compiling an expression yields: the instruction sequence, or
/// the first failure, exactly as the rules of the code generator say.
pub open spec fn compile_expr(e: Expr, env: Map<Seq<char>, i32>, cur: int) -> CodeResult
    decreases e,
{
    match e {
        Expr::Number(n) => CodeResult::Emitted(
            seq![Instr::IMov(Val::Reg(Reg::RAX), Val::Imm(n))],
        ),
        Expr::Id(x) => if env.dom().contains(x@) {
            CodeResult::Emitted(
                seq![Instr::IMov(Val::Reg(Reg::RAX), Val::RegOffset(Reg::RSP, env[x@]))],
            )
        } else {
            CodeResult::Unbound(x@)
        },
        Expr::UnOp(op, e1) => match compile_expr(*e1, env, cur) {
            CodeResult::Emitted(code) => {
                let combine = match op {
                    Op1::Add1 => Instr::IAdd(Val::Reg(Reg::RAX), Val::Imm(1)),
                    Op1::Sub1 => Instr::ISub(Val::Reg(Reg::RAX), Val::Imm(1)),
                };
                CodeResult::Emitted(code.push(combine))
            },
            err => err,
        },
        Expr::BinOp(op, l, r) => match compile_expr(*l, env, cur) {
            CodeResult::Emitted(lcode) => {
                let save = Instr::IMov(
                    Val::RegOffset(Reg::RSP, (cur + 1) as i32),
                    Val::Reg(Reg::RAX),
                );
                match compile_expr(*r, env, cur + 1) {
                    CodeResult::Emitted(rcode) => CodeResult::Emitted(
                        lcode.push(save) + rcode + op2_combine(op, (cur + 1) as i32),
                    ),
                    err => err,
                }
            },
            err => err,
        },
        Expr::Let(bindings, body) => match first_duplicate(names_of(bindings@)) {
            Some(name) => CodeResult::Duplicate(name),
            None => match compile_binds(bindings@, env, cur) {
                CodeResult::Emitted(code) => match compile_expr(
                    *body,
                    let_env(bindings@, env, cur),
                    cur + bindings@.len(),
                ) {
                    CodeResult::Emitted(bcode) => CodeResult::Emitted(code + bcode),
                    err => err,
                },
                err => err,
            },
        },
    }
}

/// What compiling a binding list yields: for each binding in order, the
/// code of its value expression followed by a save to its slot, against
/// the environment accumulated so far; or the first failure.
pub open spec fn compile_binds(bs: Seq<(String, Expr)>, env: Map<Seq<char>, i32>, cur: int) -> CodeResult
    decreases bs,
{
    if bs.len() == 0 {
        CodeResult::Emitted(Seq::empty())
    } else {
        match compile_expr(bs[0].1, env, cur) {
            CodeResult::Emitted(code) => {
                let save = Instr::IMov(
                    Val::RegOffset(Reg::RSP, (cur + 1) as i32),
                    Val::Reg(Reg::RAX),
                );
                match compile_binds(
                    bs.drop_first(),
                    env.insert(bs[0].0@, (cur + 1) as i32),
                    cur + 1,
                ) {
                    CodeResult::Emitted(rest) => CodeResult::Emitted(code.push(save) + rest),
                    err => err,
                }
            },
            err => err,
        }
    }
}

/// Whether an executable result is the one the abstract outcome calls
/// for.
pub open spec fn result_matches(r: Result<Vec<Instr>, CompileError>, c: CodeResult) -> bool {
    match c {
        CodeResult::Emitted(code) => r matches Ok(v) && v@ == code,
        CodeResult::Unbound(n) => r matches Err(CompileError::UnboundIdentifier(m)) && m@ == n,
        CodeResult::Duplicate(n) => r matches Err(CompileError::DuplicateBinding(m)) && m@ == n,
    }
}

/// Each value expression of a binding list needs no more slots than the
/// whole list.
proof fn lemma_binds_slot_need_elem(bs: Seq<(String, Expr)>, i: int)
    requires
        0 <= i < bs.len(),
    ensures
        slot_need(bs[i].1) <= binds_slot_need(bs),
    decreases bs.len(),
{
    if i > 0 {
        lemma_binds_slot_need_elem(bs.drop_first(), i - 1);
        assert(bs.drop_first()[i - 1] == bs[i]);
    }
}

/// Extending a binding list by one binding extends the `let` body's
/// environment by one slot assignment.
proof fn lemma_let_env_push(bs: Seq<(String, Expr)>, b: (String, Expr), env: Map<Seq<char>, i32>, cur: int)
    ensures
        let_env(bs.push(b), env, cur) == let_env(bs, env, cur).insert(
            b.0@,
            (cur + bs.len() + 1) as i32,
        ),
    decreases bs.len(),
{
    if bs.len() == 0 {
        assert(bs.push(b)[0] == b);
        assert(bs.push(b).drop_first() =~= Seq::<(String, Expr)>::empty());
        assert(let_env(bs.push(b).drop_first(), env.insert(b.0@, (cur + 1) as i32), cur + 1)
            == env.insert(b.0@, (cur + 1) as i32));
        assert(let_env(bs, env, cur) == env);
    } else {
        assert(bs.push(b)[0] == bs[0]);
        assert(bs.push(b).drop_first() =~= bs.drop_first().push(b));
        let env1 = env.insert(bs[0].0@, (cur + 1) as i32);
        lemma_let_env_push(bs.drop_first(), b, env1, cur + 1);
        assert(let_env(bs.push(b), env, cur) == let_env(bs.drop_first().push(b), env1, cur + 1));
        assert(let_env(bs, env, cur) == let_env(bs.drop_first(), env1, cur + 1));
    }
}

/// A slot count clipped at `0x8000_0000`, one past the largest cursor
/// the machine representation admits.
pub open spec fn capped(n: nat) -> u64 {
    if n >= 0x8000_0000 {
        0x8000_0000u64
    } else {
        n as u64
    }
}

/// Adds two already-clipped slot counts, clipping the sum.
fn cap_add(a: u64, b: u64) -> (r: u64)
    requires
        a <= 0x8000_0000,
        b <= 0x8000_0000,
    ensures
        r == capped((a + b) as nat),
{
    let s = a + b;
    if s > 0x8000_0000 {
        0x8000_0000
    } else {
        s
    }
}

/// A binding list's slot need grows by the pushed binding's need.
proof fn lemma_binds_slot_need_push(bs: Seq<(String, Expr)>, b: (String, Expr))
    ensures
        binds_slot_need(bs.push(b)) == binds_slot_need(bs) + slot_need(b.1),
    decreases bs,
{
    if bs.len() == 0 {
        assert(bs.push(b)[0] == b);
        assert(bs.push(b).drop_first() =~= Seq::<(String, Expr)>::empty());
        assert(binds_slot_need(bs.push(b).drop_first()) == 0);
    } else {
        assert(bs.push(b)[0] == bs[0]);
        assert(bs.push(b).drop_first() =~= bs.drop_first().push(b));
        lemma_binds_slot_need_push(bs.drop_first(), b);
    }
}

/// Computes the slot need of an expression, clipped at `0x8000_0000`:
/// enough to decide whether a compilation from cursor 0 stays within
/// the machine's slot range.
pub fn slot_need_capped(e: &Expr) -> (r: u64)
    ensures
        r == capped(slot_need(*e)),
    decreases *e,
{
    match e {
        Expr::Number(_) => 0,
        Expr::Id(_) => 0,
        Expr::UnOp(_, e1) => slot_need_capped(e1),
        Expr::BinOp(_, l, r) => {
            let cl = slot_need_capped(l);
            let cr = slot_need_capped(r);
            cap_add(1, cap_add(cl, cr))
        },
        Expr::Let(bindings, body) => {
            let ghost full = bindings@;
            let mut acc = slot_need_capped(body);
            let n = bindings.len();
            proof {
                assert(full.take(0) =~= Seq::<(String, Expr)>::empty());
                assert(binds_slot_need(full.take(0)) == 0);
            }
            for i in 0..n
                invariant
                    n == full.len(),
                    full == bindings@,
                    *e == Expr::Let(*bindings, *body),
                    acc == capped((slot_need(**body) + binds_slot_need(full.take(i as int)) + i) as nat),
            {
                proof {
                    assert(decreases_to!(*e => full[i as int].1)) by {
                        assert(decreases_to!(*e => e->Let_0));
                        assert(decreases_to!(e->Let_0 => full));
                        assert(decreases_to!(full => full[i as int]));
                        assert(decreases_to!(full[i as int] => full[i as int].1));
                    }
                }
                let cb = slot_need_capped(&bindings[i].1);
                acc = cap_add(acc, cap_add(1, cb));
                proof {
                    assert(full.take(i + 1) =~= full.take(i as int).push(full[i as int]));
                    lemma_binds_slot_need_push(full.take(i as int), full[i as int]);
                }
            }
            proof {
                assert(full.take(n as int) =~= full);
            }
            acc
        },
    }
}

/// Compiles an expression against the empty environment and cursor 0
/// and renders the result as assembly text, one line per instruction.
///
/// Returns `None` only when the expression is so large that its slots
/// would not fit the machine's slot range; otherwise the compilation's
/// own outcome, text or first failure.
pub fn compile_program(e: &Expr) -> (r: Option<Result<String, CompileError>>)
    ensures
        r is None <==> slot_need(*e) > i32::MAX,
        r matches Some(res) ==> match compile_expr(*e, crate::env::empty_env_model(), 0) {
            CodeResult::Emitted(code) => res matches Ok(text) && text@ == crate::instr::program_text(
                code,
            ),
            CodeResult::Unbound(n) => res matches Err(er) && (er matches
                CompileError::UnboundIdentifier(m) && m@ == n),
            CodeResult::Duplicate(n) => res matches Err(er) && (er matches
                CompileError::DuplicateBinding(m) && m@ == n),
        },
{
    let cap = slot_need_capped(e);
    if cap > 0x7fff_ffff {
        return None;
    }
    let env = Env::empty();
    match compile_to_instrs(e, &env, 0) {
        Ok(instrs) => Some(Ok(crate::instr::instrs_to_string(&instrs))),
        Err(er) => Some(Err(er)),
    }
}

/// Finds the first name that one binding list repeats, scanning left to
/// right; `None` when all names are distinct.
pub fn find_duplicate(bindings: &Vec<(String, Expr)>) -> (r: Option<String>)
    ensures
        match r {
            Some(s) => first_duplicate(names_of(bindings@)) == Some(s@),
            None => first_duplicate(names_of(bindings@)) is None,
        },
{
    let ghost names = names_of(bindings@);
    let mut seen = im_set_new();
    let n = bindings.len();
    for i in 0..n
        invariant
            n == bindings@.len(),
            names == names_of(bindings@),
            first_duplicate(names) == dup_from(names, i as int),
            forall|s: Seq<char>|
                im_set_model(seen).contains(s) <==> (exists|j: int|
                    0 <= j < i && names[j] == s),
    {
        if im_set_contains(&seen, &bindings[i].0) {
            proof {
                assert(exists|j: int| 0 <= j < i && names[j] == names[i as int]);
                assert(dup_from(names, i as int) == Some(names[i as int]));
            }
            return Some(bindings[i].0.clone());
        }
        im_set_insert(&mut seen, bindings[i].0.clone());
        proof {
            assert(!(exists|j: int| 0 <= j < i && names[j] == names[i as int]));
            assert(dup_from(names, i as int) == dup_from(names, i + 1));
        }
    }
    proof {
        assert(dup_from(names, n as int) is None);
    }
    None
}

/// Compiles one expression against an environment and a slot cursor.
///
/// Yields the instruction sequence the code-generation rules call for,
/// or the first failure: an unbound identifier, or a name bound twice
/// in one `let`'s binding list (detected before any of that `let`'s
/// code is emitted).
pub fn compile_to_instrs(e: &Expr, stack: &Env, stck_ptr: i32) -> (r: Result<
    Vec<Instr>,
    CompileError,
>)
    requires
        0 <= stck_ptr,
        stck_ptr + slot_need(*e) <= i32::MAX,
    ensures
        result_matches(r, compile_expr(*e, stack@, stck_ptr as int)),
    decreases *e,
{
    match e {
        Expr::Number(n) => {
            let mut instrs: Vec<Instr> = Vec::new();
            instrs.push(Instr::IMov(Val::Reg(Reg::RAX), Val::Imm(*n)));
            proof {
                assert(instrs@ =~= seq![Instr::IMov(Val::Reg(Reg::RAX), Val::Imm(*n))]);
            }
            Ok(instrs)
        },
        Expr::Id(x) => match stack.lookup(x) {
            Some(slot) => {
                let mut instrs: Vec<Instr> = Vec::new();
                instrs.push(Instr::IMov(Val::Reg(Reg::RAX), Val::RegOffset(Reg::RSP, slot)));
                proof {
                    assert(instrs@ =~= seq![
                        Instr::IMov(Val::Reg(Reg::RAX), Val::RegOffset(Reg::RSP, stack@[x@])),
                    ]);
                }
                Ok(instrs)
            },
            None => Err(CompileError::UnboundIdentifier(x.clone())),
        },
        Expr::UnOp(op, e1) => {
            let mut instrs = match compile_to_instrs(e1, stack, stck_ptr) {
                Ok(code) => code,
                Err(er) => {
                    return Err(er);
                },
            };
            let combine = match op {
                Op1::Add1 => Instr::IAdd(Val::Reg(Reg::RAX), Val::Imm(1)),
                Op1::Sub1 => Instr::ISub(Val::Reg(Reg::RAX), Val::Imm(1)),
            };
            instrs.push(combine);
            Ok(instrs)
        },
        Expr::BinOp(op, l, r) => {
            let mut instrs = match compile_to_instrs(l, stack, stck_ptr) {
                Ok(code) => code,
                Err(er) => {
                    return Err(er);
                },
            };
            let slot = stck_ptr + 1;
            instrs.push(Instr::IMov(Val::RegOffset(Reg::RSP, slot), Val::Reg(Reg::RAX)));
            let mut rcode = match compile_to_instrs(r, stack, slot) {
                Ok(code) => code,
                Err(er) => {
                    return Err(er);
                },
            };
            instrs.append(&mut rcode);
            match op {
                Op2::Plus => {
                    instrs.push(Instr::IAdd(Val::Reg(Reg::RAX), Val::RegOffset(Reg::RSP, slot)));
                },
                Op2::Minus => {
                    instrs.push(Instr::ISub(Val::RegOffset(Reg::RSP, slot), Val::Reg(Reg::RAX)));
                    instrs.push(Instr::IMov(Val::Reg(Reg::RAX), Val::RegOffset(Reg::RSP, slot)));
                },
                Op2::Times => {
                    instrs.push(Instr::IMul(Val::Reg(Reg::RAX), Val::RegOffset(Reg::RSP, slot)));
                },
            }
            proof {
                let lspec = compile_expr(**l, stack@, stck_ptr as int);
                let rspec = compile_expr(**r, stack@, stck_ptr as int + 1);
                assert(instrs@ =~= lspec->Emitted_0.push(
                    Instr::IMov(Val::RegOffset(Reg::RSP, slot), Val::Reg(Reg::RAX)),
                ) + rspec->Emitted_0 + op2_combine(*op, slot));
            }
            Ok(instrs)
        },
        Expr::Let(bindings, body) => {
            if let Some(name) = find_duplicate(bindings) {
                return Err(CompileError::DuplicateBinding(name));
            }
            let ghost full = bindings@;
            let ghost env0 = stack@;
            let ghost cur0 = stck_ptr as int;
            proof {
                assert(slot_need(*e) == binds_slot_need(full) + full.len() + slot_need(**body));
            }
            let mut instrs: Vec<Instr> = Vec::new();
            let mut env_acc = stack.duplicate();
            let mut cursor = stck_ptr;
            let n = bindings.len();
            proof {
                assert(full.take(0) =~= Seq::<(String, Expr)>::empty());
                assert(full.skip(0) =~= full);
            }
            for i in 0..n
                invariant
                    n == full.len(),
                    full == bindings@,
                    *e == Expr::Let(*bindings, *body),
                    first_duplicate(names_of(full)) is None,
                    0 <= stck_ptr,
                    stck_ptr + slot_need(*e) <= i32::MAX,
                    slot_need(*e) == binds_slot_need(full) + full.len() + slot_need(**body),
                    cursor == cur0 + i,
                    env0 == stack@,
                    cur0 == stck_ptr as int,
                    env_acc@ == let_env(full.take(i as int), env0, cur0),
                    match compile_binds(full.skip(i as int), env_acc@, cur0 + i) {
                        CodeResult::Emitted(rest) => compile_binds(full, env0, cur0)
                            == CodeResult::Emitted(instrs@ + rest),
                        err => compile_binds(full, env0, cur0) == err,
                    },
            {
                proof {
                    lemma_binds_slot_need_elem(full, i as int);
                    assert(full.skip(i as int)[0] == full[i as int]);
                    assert(decreases_to!(*e => full[i as int].1)) by {
                        assert(decreases_to!(*e => e->Let_0));
                        assert(decreases_to!(e->Let_0 => full));
                        assert(decreases_to!(full => full[i as int]));
                        assert(decreases_to!(full[i as int] => full[i as int].1));
                    }
                }
                let (bname, bval) = &bindings[i];
                let mut code = match compile_to_instrs(bval, &env_acc, cursor) {
                    Ok(code) => code,
                    Err(er) => {
                        proof {
                            assert(compile_binds(full, env0, cur0) == compile_expr(
                                full[i as int].1,
                                env_acc@,
                                cur0 + i,
                            ));
                        }
                        return Err(er);
                    },
                };
                let ghost instrs_prev = instrs@;
                let ghost env_prev = env_acc@;
                instrs.append(&mut code);
                let slot = cursor + 1;
                let ghost save = Instr::IMov(Val::RegOffset(Reg::RSP, slot), Val::Reg(Reg::RAX));
                instrs.push(Instr::IMov(Val::RegOffset(Reg::RSP, slot), Val::Reg(Reg::RAX)));
                env_acc = env_acc.extended(bname.clone(), slot);
                cursor = slot;
                proof {
                    assert(full.take(i + 1) =~= full.take(i as int).push(full[i as int]));
                    lemma_let_env_push(full.take(i as int), full[i as int], env0, cur0);
                    assert(full.take(i as int).len() == i);
                    assert(env_acc@ == let_env(full.take(i + 1), env0, cur0));
                    assert(full.skip(i as int).drop_first() =~= full.skip(i + 1));
                    let ghost old_code = compile_expr(full[i as int].1, env_prev, cur0 + i);
                    assert(old_code == CodeResult::Emitted(old_code->Emitted_0));
                    match compile_binds(full.skip(i + 1), env_acc@, cur0 + i + 1) {
                        CodeResult::Emitted(rest) => {
                            assert(compile_binds(full.skip(i as int), env_prev, cur0 + i)
                                == CodeResult::Emitted(old_code->Emitted_0.push(save) + rest));
                            assert(instrs@ + rest =~= instrs_prev + (old_code->Emitted_0.push(save)
                                + rest));
                        },
                        _ => {},
                    }
                }
            }
            proof {
                assert(full.take(n as int) =~= full);
                assert(full.skip(n as int) =~= Seq::<(String, Expr)>::empty());
                assert(instrs@ + Seq::<Instr>::empty() =~= instrs@);
            }
            let mut bcode = match compile_to_instrs(body, &env_acc, cursor) {
                Ok(code) => code,
                Err(er) => {
                    return Err(er);
                },
            };
            instrs.append(&mut bcode);
            proof {
                match compile_binds(full, env0, cur0) {
                    CodeResult::Emitted(code) => {
                        match compile_expr(**body, let_env(full, env0, cur0), cur0 + full.len()) {
                            CodeResult::Emitted(bc) => {
                                assert(instrs@ =~= code + bc);
                            },
                            _ => {},
                        }
                    },
                    _ => {},
                }
            }
            Ok(instrs)
        },
    }
}

} // verus!
