//! The AST builder: turns a generic symbolic-expression tree into the
//! typed AST, rejecting every tree that matches no grammar production.
//!
//! The grammar has fixed arities and dispatches on the first symbol of
//! a list: `(add1 E)`, `(sub1 E)`, `(+ E1 E2)`, `(- E1 E2)`,
//! `(* E1 E2)`, and `(let ((name expr) ...) body)` with at least one
//! binding. An integer atom is a literal, a symbol atom an identifier.
//! No name resolution happens here.

use vstd::prelude::*;

use crate::ast::Expr;
use crate::ast::Op1;
use crate::ast::Op2;

verus! {

/// A generic symbolic-expression tree: atoms and nested lists, the
/// surface syntax the reader hands over before typed parsing.
///
/// A numeric atom with a fractional part carries nothing the grammar
/// reads, so it is kept only as a tag that every production rejects.
#[derive(Debug)]
pub enum SexpTree {
    IntAtom(i64),
    SymAtom(String),
    FloatAtom,
    List(Vec<SexpTree>),
}

/// The failure of the AST builder: the tree matches no grammar
/// production, or a `let` binding clause has the wrong shape. Distinct
/// from the unbound-identifier failure, which only code generation can
/// raise.
#[derive(Debug, Clone, Copy, PartialEq, Eq, Structural)]
pub struct ParseError;

/// The unary operator a list head names, if any.
pub open spec fn un_op_of(s: Seq<char>) -> Option<Op1> {
    if s == "add1"@ {
        Some(Op1::Add1)
    } else if s == "sub1"@ {
        Some(Op1::Sub1)
    } else {
        None
    }
}

/// The binary operator a list head names, if any.
pub open spec fn sym_op2(s: Seq<char>) -> Option<Op2> {
    if s == "+"@ {
        Some(Op2::Plus)
    } else if s == "-"@ {
        Some(Op2::Minus)
    } else if s == "*"@ {
        Some(Op2::Times)
    } else {
        None
    }
}

/// Whether `e` is the AST that the grammar assigns to the tree `t`.
pub open spec fn parses_to(t: SexpTree, e: Expr) -> bool
    decreases t,
{
    match t {
        SexpTree::IntAtom(n) => i32::MIN <= n <= i32::MAX && e == Expr::Number(n as i32),
        SexpTree::SymAtom(s) => e matches Expr::Id(x) && x@ == s@,
        SexpTree::FloatAtom => false,
        SexpTree::List(items) => list_parses_to(items@, e),
    }
}

/// Whether `e` is the AST of the list production with members `items`.
pub open spec fn list_parses_to(items: Seq<SexpTree>, e: Expr) -> bool
    decreases items,
{
    if items.len() == 2 {
        &&& items[0] matches SexpTree::SymAtom(op)
        &&& (op@ == "add1"@ || op@ == "sub1"@)
        &&& e matches Expr::UnOp(o, e1)
        &&& Some(o) == un_op_of(op@)
        &&& parses_to(items[1], *e1)
    } else if items.len() == 3 && (items[0] matches SexpTree::SymAtom(op) && sym_op2(op@) is Some) {
        &&& items[0] matches SexpTree::SymAtom(op)
        &&& e matches Expr::BinOp(o, l, r)
        &&& Some(o) == sym_op2(op@)
        &&& parses_to(items[1], *l)
        &&& parses_to(items[2], *r)
    } else if items.len() == 3 && (items[0] matches SexpTree::SymAtom(op) && op@ == "let"@) {
        &&& items[1] matches SexpTree::List(clauses)
        &&& clauses@.len() > 0
        &&& e matches Expr::Let(bs, body)
        &&& binds_parse_to(clauses@, bs@)
        &&& parses_to(items[2], *body)
    } else {
        false
    }
}

/// Whether `bs` is the parsed form of the binding clauses `ts`, in
/// order.
pub open spec fn binds_parse_to(ts: Seq<SexpTree>, bs: Seq<(String, Expr)>) -> bool
    decreases ts,
{
    if ts.len() == 0 {
        bs.len() == 0
    } else {
        &&& bs.len() == ts.len()
        &&& bind_parses_to(ts[0], bs[0])
        &&& binds_parse_to(ts.drop_first(), bs.drop_first())
    }
}

/// Whether `b` is the parsed form of one binding clause: a two-element
/// list of a symbol and a value expression.
pub open spec fn bind_parses_to(t: SexpTree, b: (String, Expr)) -> bool
    decreases t,
{
    &&& t matches SexpTree::List(pair)
    &&& pair@.len() == 2
    &&& pair@[0] matches SexpTree::SymAtom(s)
    &&& b.0@ == s@
    &&& parses_to(pair@[1], b.1)
}

/// Whether the grammar assigns the tree any AST at all.
pub open spec fn parseable(t: SexpTree) -> bool
    decreases t,
{
    match t {
        SexpTree::IntAtom(n) => i32::MIN <= n <= i32::MAX,
        SexpTree::SymAtom(_) => true,
        SexpTree::FloatAtom => false,
        SexpTree::List(items) => list_parseable(items@),
    }
}

/// Whether some list production accepts the members `items`.
pub open spec fn list_parseable(items: Seq<SexpTree>) -> bool
    decreases items,
{
    if items.len() == 2 {
        &&& items[0] matches SexpTree::SymAtom(op)
        &&& (op@ == "add1"@ || op@ == "sub1"@)
        &&& parseable(items[1])
    } else if items.len() == 3 && (items[0] matches SexpTree::SymAtom(op) && sym_op2(op@) is Some) {
        &&& parseable(items[1])
        &&& parseable(items[2])
    } else if items.len() == 3 && (items[0] matches SexpTree::SymAtom(op) && op@ == "let"@) {
        &&& items[1] matches SexpTree::List(clauses)
        &&& clauses@.len() > 0
        &&& binds_parseable(clauses@)
        &&& parseable(items[2])
    } else {
        false
    }
}

/// Whether every binding clause of a `let` is well-shaped and
/// parseable.
pub open spec fn binds_parseable(ts: Seq<SexpTree>) -> bool
    decreases ts,
{
    if ts.len() == 0 {
        true
    } else {
        bind_parseable(ts[0]) && binds_parseable(ts.drop_first())
    }
}

/// Whether one binding clause is well-shaped and parseable.
pub open spec fn bind_parseable(t: SexpTree) -> bool
    decreases t,
{
    &&& t matches SexpTree::List(pair)
    &&& pair@.len() == 2
    &&& pair@[0] matches SexpTree::SymAtom(_)
    &&& parseable(pair@[1])
}

/// Whether a symbol equals a fixed keyword.
fn sym_is(op: &String, lit: &str) -> (r: bool)
    ensures
        r == (op@ == lit@),
{
    let l = String::from_str(lit);
    *op == l
}

/// Extending a parsed binding list by one parsed clause keeps the lists
/// in the parse relation.
proof fn lemma_binds_parse_push(
    ts: Seq<SexpTree>,
    bs: Seq<(String, Expr)>,
    t: SexpTree,
    b: (String, Expr),
)
    requires
        binds_parse_to(ts, bs),
        bind_parses_to(t, b),
    ensures
        binds_parse_to(ts.push(t), bs.push(b)),
    decreases ts,
{
    assert(ts.push(t)[0] == if ts.len() == 0 {
        t
    } else {
        ts[0]
    });
    if ts.len() == 0 {
        assert(ts.push(t).drop_first() =~= Seq::<SexpTree>::empty());
        assert(bs.push(b).drop_first() =~= Seq::<(String, Expr)>::empty());
        assert(bs.push(b)[0] == b);
        assert(binds_parse_to(Seq::<SexpTree>::empty(), Seq::<(String, Expr)>::empty()));
    } else {
        assert(ts.push(t).drop_first() =~= ts.drop_first().push(t));
        assert(bs.push(b).drop_first() =~= bs.drop_first().push(b));
        assert(bs.push(b)[0] == bs[0]);
        assert(bind_parses_to(ts[0], bs[0]));
        lemma_binds_parse_push(ts.drop_first(), bs.drop_first(), t, b);
        assert(binds_parse_to(ts.drop_first().push(t), bs.drop_first().push(b)));
    }
}

/// A binding list with an ill-shaped clause is not parseable.
proof fn lemma_binds_parseable_elem(ts: Seq<SexpTree>, i: int)
    requires
        0 <= i < ts.len(),
        binds_parseable(ts),
    ensures
        bind_parseable(ts[i]),
    decreases ts,
{
    if i > 0 {
        lemma_binds_parseable_elem(ts.drop_first(), i - 1);
        assert(ts.drop_first()[i - 1] == ts[i]);
    }
}

/// A binding list all of whose clauses are well-shaped and parseable
/// is parseable as a whole.
proof fn lemma_binds_parseable_all(ts: Seq<SexpTree>)
    requires
        forall|j: int| 0 <= j < ts.len() ==> bind_parseable(#[trigger] ts[j]),
    ensures
        binds_parseable(ts),
    decreases ts,
{
    if ts.len() > 0 {
        assert forall|j: int| 0 <= j < ts.drop_first().len() implies bind_parseable(
            #[trigger] ts.drop_first()[j],
        ) by {
            assert(ts.drop_first()[j] == ts[j + 1]);
        }
        lemma_binds_parseable_all(ts.drop_first());
    }
}

/// Parses one symbolic-expression tree into the typed AST.
///
/// Succeeds exactly on the trees the grammar accepts, and then returns
/// the AST the grammar assigns; every other tree is a `ParseError`.
pub fn parse_expr(t: &SexpTree) -> (r: Result<Expr, ParseError>)
    ensures
        r matches Ok(e) ==> parses_to(*t, e),
        r is Err <==> !parseable(*t),
    decreases *t, 1nat,
{
    match t {
        SexpTree::IntAtom(n) => {
            if i32::MIN as i64 <= *n && *n <= i32::MAX as i64 {
                Ok(Expr::Number(*n as i32))
            } else {
                Err(ParseError)
            }
        },
        SexpTree::SymAtom(s) => Ok(Expr::Id(s.clone())),
        SexpTree::FloatAtom => Err(ParseError),
        SexpTree::List(items) => {
            proof {
                reveal_strlit("add1");
                reveal_strlit("sub1");
                reveal_strlit("+");
                reveal_strlit("-");
                reveal_strlit("*");
                reveal_strlit("let");
            }
            if items.len() == 2 {
                if let SexpTree::SymAtom(op) = &items[0] {
                    let un = if sym_is(op, "add1") {
                        Some(Op1::Add1)
                    } else if sym_is(op, "sub1") {
                        Some(Op1::Sub1)
                    } else {
                        None
                    };
                    match un {
                        Some(o) => {
                            proof {
                                assert(decreases_to!(*t => items@[1])) by {
                                    assert(decreases_to!(*t => t->List_0));
                                    assert(decreases_to!(t->List_0 => items@));
                                    assert(decreases_to!(items@ => items@[1]));
                                }
                            }
                            match parse_expr(&items[1]) {
                                Ok(e1) => Ok(Expr::UnOp(o, Box::new(e1))),
                                Err(er) => Err(er),
                            }
                        },
                        None => Err(ParseError),
                    }
                } else {
                    Err(ParseError)
                }
            } else if items.len() == 3 {
                if let SexpTree::SymAtom(op) = &items[0] {
                    let bin = if sym_is(op, "+") {
                        Some(Op2::Plus)
                    } else if sym_is(op, "-") {
                        Some(Op2::Minus)
                    } else if sym_is(op, "*") {
                        Some(Op2::Times)
                    } else {
                        None
                    };
                    proof {
                        assert(decreases_to!(*t => items@[1])) by {
                            assert(decreases_to!(*t => t->List_0));
                            assert(decreases_to!(t->List_0 => items@));
                            assert(decreases_to!(items@ => items@[1]));
                        }
                        assert(decreases_to!(*t => items@[2])) by {
                            assert(decreases_to!(*t => t->List_0));
                            assert(decreases_to!(t->List_0 => items@));
                            assert(decreases_to!(items@ => items@[2]));
                        }
                    }
                    match bin {
                        Some(o) => {
                            let l = match parse_expr(&items[1]) {
                                Ok(e1) => e1,
                                Err(er) => {
                                    return Err(er);
                                },
                            };
                            let r = match parse_expr(&items[2]) {
                                Ok(e2) => e2,
                                Err(er) => {
                                    return Err(er);
                                },
                            };
                            Ok(Expr::BinOp(o, Box::new(l), Box::new(r)))
                        },
                        None => {
                            if sym_is(op, "let") {
                                parse_let(t, items)
                            } else {
                                Err(ParseError)
                            }
                        },
                    }
                } else {
                    Err(ParseError)
                }
            } else {
                Err(ParseError)
            }
        },
    }
}

/// Parses the binding list and body of a `(let (...) body)` form.
fn parse_let(t: &SexpTree, items: &Vec<SexpTree>) -> (r: Result<Expr, ParseError>)
    requires
        *t == SexpTree::List(*items),
        items@.len() == 3,
        items@[0] matches SexpTree::SymAtom(op) && op@ == "let"@,
        items@[0] matches SexpTree::SymAtom(op) && sym_op2(op@) is None,
    ensures
        r matches Ok(e) ==> parses_to(*t, e),
        r is Err <==> !parseable(*t),
    decreases *t, 0nat,
{
    let clauses = match &items[1] {
        SexpTree::List(clauses) => clauses,
        _ => {
            return Err(ParseError);
        },
    };
    if clauses.len() == 0 {
        return Err(ParseError);
    }
    let ghost ts = clauses@;
    let mut parsed: Vec<(String, Expr)> = Vec::new();
    let n = clauses.len();
    proof {
        assert(ts.skip(0) =~= ts);
    }
    for i in 0..n
        invariant
            n == ts.len(),
            0 < ts.len(),
            ts == clauses@,
            *t == SexpTree::List(*items),
            items@.len() == 3,
            items@[0] matches SexpTree::SymAtom(op) && op@ == "let"@,
            items@[0] matches SexpTree::SymAtom(op) && sym_op2(op@) is None,
            items@[1] == SexpTree::List(*clauses),
            parsed@.len() == i,
            binds_parse_to(ts.take(i as int), parsed@),
            forall|j: int| 0 <= j < i ==> bind_parseable(#[trigger] ts[j]),
    {
        proof {
            assert(decreases_to!(*t => ts[i as int])) by {
                assert(decreases_to!(*t => t->List_0));
                assert(decreases_to!(t->List_0 => items@));
                assert(decreases_to!(items@ => items@[1]));
                assert(decreases_to!(items@[1] => items@[1]->List_0));
                assert(decreases_to!(items@[1]->List_0 => ts));
                assert(decreases_to!(ts => ts[i as int]));
            }
        }
        let (name, value) = match parse_bind(&clauses[i]) {
            Ok(b) => b,
            Err(er) => {
                proof {
                    assert(!bind_parseable(ts[i as int]));
                    if binds_parseable(ts) {
                        lemma_binds_parseable_elem(ts, i as int);
                    }
                }
                return Err(er);
            },
        };
        proof {
            assert(ts.take(i + 1) =~= ts.take(i as int).push(ts[i as int]));
        }
        let ghost parsed_prev = parsed@;
        parsed.push((name, value));
        proof {
            lemma_binds_parse_push(ts.take(i as int), parsed_prev, ts[i as int], (name, value));
            assert(parsed@ =~= parsed_prev.push((name, value)));
        }
    }
    proof {
        assert(ts.take(n as int) =~= ts);
        lemma_binds_parseable_all(ts);
        assert(decreases_to!(*t => items@[2])) by {
            assert(decreases_to!(*t => t->List_0));
            assert(decreases_to!(t->List_0 => items@));
            assert(decreases_to!(items@ => items@[2]));
        }
    }
    let body = match parse_expr(&items[2]) {
        Ok(e) => e,
        Err(er) => {
            return Err(er);
        },
    };
    Ok(Expr::Let(parsed, Box::new(body)))
}

/// Parses one binding clause `(name expr)` of a `let`.
///
/// A clause of any other shape — including a bare name with no value —
/// is a `ParseError`.
pub fn parse_bind(s: &SexpTree) -> (r: Result<(String, Expr), ParseError>)
    ensures
        r matches Ok(b) ==> bind_parses_to(*s, b),
        r is Err <==> !bind_parseable(*s),
    decreases *s, 1nat,
{
    let pair = match s {
        SexpTree::List(pair) => pair,
        _ => {
            return Err(ParseError);
        },
    };
    if pair.len() != 2 {
        return Err(ParseError);
    }
    let name = match &pair[0] {
        SexpTree::SymAtom(name) => name,
        _ => {
            return Err(ParseError);
        },
    };
    proof {
        assert(decreases_to!(*s => pair@[1])) by {
            assert(decreases_to!(*s => s->List_0));
            assert(decreases_to!(s->List_0 => pair@));
            assert(decreases_to!(pair@ => pair@[1]));
        }
    }
    match parse_expr(&pair[1]) {
        Ok(e) => Ok((name.clone(), e)),
        Err(er) => Err(er),
    }
}

} // verus!
