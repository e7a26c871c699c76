use boa::adder::{compile, eval, Expr};

#[test]
fn eval_number() {
    assert_eq!(eval(&Expr::Num(10)), 10);
}

#[test]
fn eval_add1() {
    assert_eq!(eval(&Expr::Add1(Box::new(Expr::Num(10)))), 11);
}

#[test]
fn eval_sub1() {
    assert_eq!(eval(&Expr::Sub1(Box::new(Expr::Num(10)))), 9);
}

#[test]
fn eval_negate() {
    assert_eq!(eval(&Expr::Negate(Box::new(Expr::Num(10)))), -10);
    let nested = Expr::Negate(Box::new(Expr::Add1(Box::new(Expr::Num(4)))));
    assert_eq!(eval(&nested), -5);
}

#[test]
fn compile_plain_number() {
    assert_eq!(compile("37".to_string()), "mov rax, 37");
}

#[test]
fn compile_trims_whitespace() {
    assert_eq!(compile("  42\n".to_string()), "mov rax, 42");
    assert_eq!(compile("\t-12 \r\n".to_string()), "mov rax, -12");
}

#[test]
fn compile_signed_numerals() {
    assert_eq!(compile("+5".to_string()), "mov rax, 5");
    assert_eq!(compile("-0".to_string()), "mov rax, 0");
    assert_eq!(compile("2147483647".to_string()), "mov rax, 2147483647");
    assert_eq!(compile("-2147483648".to_string()), "mov rax, -2147483648");
}
