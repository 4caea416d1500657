use fee::{Arithmetic, Op};

#[derive(Clone, Copy, Debug, PartialEq)]
struct ExprFn(fn(&[f64]) -> f64);

impl ExprFn {
    fn new(f: fn(&[f64]) -> f64) -> Self {
        ExprFn(f)
    }
}

impl Default for ExprFn {
    fn default() -> Self {
        fn zero(_: &[f64]) -> f64 {
            0.0
        }
        ExprFn(zero)
    }
}

struct F64;

fn to_bool(x: f64) -> bool {
    x != 0.0
}

fn from_bool(b: bool) -> f64 {
    if b {
        1.0
    } else {
        0.0
    }
}

impl Arithmetic for F64 {
    type Num = f64;
    type Func = ExprFn;

    fn literal(text: &str) -> f64 {
        text.parse().unwrap_or(0.0)
    }

    fn boolean(b: bool) -> f64 {
        from_bool(b)
    }

    fn apply(op: Op, x: &[f64]) -> f64 {
        match op {
            Op::Add => x[0] + x[1],
            Op::Sub => x[0] - x[1],
            Op::Mul => x[0] * x[1],
            Op::Div => x[0] / x[1],
            Op::Pow => {
                if x[1] == x[1] as i64 as f64 {
                    x[0].powi(x[1] as i32)
                } else {
                    x[0].powf(x[1])
                }
            }
            Op::Mod => x[0] % x[1],
            Op::Neg => -x[0],
            Op::Not => from_bool(!to_bool(x[0])),
            Op::Or => from_bool(to_bool(x[0]) || to_bool(x[1])),
            Op::And => from_bool(to_bool(x[0]) && to_bool(x[1])),
            Op::Low => from_bool(x[0] < x[1]),
            Op::Great => from_bool(x[0] > x[1]),
            Op::LowEq => from_bool(x[0] <= x[1]),
            Op::GreatEq => from_bool(x[0] >= x[1]),
            Op::Eq => from_bool(x[0] == x[1]),
            Op::NotEq => from_bool(x[0] != x[1]),
            Op::BitAnd => ((x[0] as i64) & (x[1] as i64)) as f64,
            Op::BitOr => ((x[0] as i64) | (x[1] as i64)) as f64,
            Op::BitXor => ((x[0] as i64) ^ (x[1] as i64)) as f64,
            Op::Shl => ((x[0] as i64) << (x[1] as i64)) as f64,
            Op::Shr => ((x[0] as i64) >> (x[1] as i64)) as f64,
        }
    }

    fn call(f: &ExprFn, args: &[f64]) -> f64 {
        (f.0)(args)
    }
}

use fee::{
    lex, parse_usize, ConstantResolver, Context, DefaultResolver, EmptyResolver, Error, Expr,
    IndexedResolver, LockedResolver, ParseError, Resolver, Rpn, Slot, SmallResolver, Token,
    Unlocked, UnlockedResolver,
};

fn var(n: &str) -> Rpn<f64> {
    Rpn::Var(Slot::Name(n.to_string()), n.to_string())
}

fn fun(n: &str, argc: usize) -> Rpn<f64> {
    Rpn::Fn(Slot::Name(n.to_string()), n.to_string(), argc)
}

fn ivar(n: &str, l: usize, i: usize) -> Rpn<f64> {
    Rpn::Var(Slot::Index(l, i), n.to_string())
}

fn ifun(n: &str, l: usize, i: usize, argc: usize) -> Rpn<f64> {
    Rpn::Fn(Slot::Index(l, i), n.to_string(), argc)
}

/// A readable form of a token list: each token with its text.
fn describe(src: &str, toks: &[(Token, usize)]) -> Vec<String> {
    let chars: Vec<char> = src.chars().collect();
    let text = |s: usize, e: usize| chars[s..e].iter().collect::<String>();
    toks.iter()
        .map(|(t, _)| match t {
            Token::Num(s, e) => format!("num {}", text(*s, *e)),
            Token::Bool(b) => format!("bool {}", b),
            Token::Var(s, e) => format!("var {}", text(*s, *e)),
            Token::Call(s, e) => format!("call {}", text(*s, *e)),
            Token::Comma => ",".to_string(),
            Token::Op(op) => format!("{:?}", op),
            Token::LParen => "(".to_string(),
            Token::RParen => ")".to_string(),
        })
        .collect()
}

fn check_tokens(src: &str, want: &[&str]) {
    let toks = lex(src).unwrap();
    assert_eq!(describe(src, &toks), want.iter().map(|s| s.to_string()).collect::<Vec<_>>());
}

#[test]
fn lexer_test_str_to_infix() {
    check_tokens(
        "2-4-2.4*5+6/p0",
        &["num 2", "Sub", "num 4", "Sub", "num 2.4", "Mul", "num 5", "Add", "num 6", "Div", "var p0"],
    );
    check_tokens(
        "2 - (4 + (p19 - 2) * (p19 + 2))",
        &[
            "num 2", "Sub", "(", "num 4", "Add", "(", "var p19", "Sub", "num 2", ")", "Mul", "(",
            "var p19", "Add", "num 2", ")", ")",
        ],
    );
    check_tokens(
        "abs((2 + 3) * 4, sqrt(5))",
        &[
            "call abs", "(", "num 2", "Add", "num 3", ")", "Mul", "num 4", ",", "call sqrt",
            "num 5", ")", ")",
        ],
    );
    check_tokens(
        "abs((2 * 21) + p0)",
        &["call abs", "(", "num 2", "Mul", "num 21", ")", "Add", "var p0", ")"],
    );
}

#[test]
fn infix_test_str_to_infix() {
    check_tokens(
        "2 - (4 + (p19 - 2) * (-p19 + 2))",
        &[
            "num 2", "Sub", "(", "num 4", "Add", "(", "var p19", "Sub", "num 2", ")", "Mul", "(",
            "Neg", "var p19", "Add", "num 2", ")", ")",
        ],
    );
    check_tokens("21", &["num 21"]);
    check_tokens("true && !false", &["bool true", "And", "Not", "bool false"]);
}

// Error positions are byte offsets in the whole source text, also inside the
// arguments of a call.
#[test]
fn lexer_test_errors() {
    assert_eq!(
        lex("abs((2.0.0 + 3) * 4, sqrt(5))").unwrap_err(),
        ParseError::UnexpectedChar('.', 8)
    );
    assert_eq!(
        lex("abs((2 + 3) &* 4, sqrt(5))").unwrap_err(),
        ParseError::UnexpectedChar('*', 13)
    );
}

#[test]
fn infix_test_errors() {
    let ctx = Context::empty();
    assert_eq!(
        Expr::<F64>::compile("abs((2.0.0 + 3) * 4, sqrt(5))", &ctx).err(),
        Some(Error::ParseError(ParseError::UnexpectedChar('.', 8)))
    );
    assert_eq!(
        Expr::<F64>::compile("é + 1", &ctx).err(),
        Some(Error::ParseError(ParseError::UnexpectedChar('é', 0)))
    );
    assert_eq!(
        Expr::<F64>::compile("1 + é", &ctx).err(),
        Some(Error::ParseError(ParseError::UnexpectedChar('é', 4)))
    );
    assert_eq!(
        Expr::<F64>::compile("1 = 2", &ctx).err(),
        Some(Error::ParseError(ParseError::UnexpectedChar('=', 2)))
    );
}

#[test]
fn unmatched_parentheses() {
    let ctx = Context::empty();
    assert_eq!(
        Expr::<F64>::compile("(1 + 2", &ctx).err(),
        Some(Error::ParseError(ParseError::UnmatchedParentheses(0)))
    );
    assert_eq!(
        Expr::<F64>::compile("1 + 2)", &ctx).err(),
        Some(Error::ParseError(ParseError::UnmatchedParentheses(5)))
    );
    assert_eq!(
        Expr::<F64>::compile("f(1, g(2)", &ctx).err(),
        Some(Error::ParseError(ParseError::UnmatchedParentheses(0)))
    );
}

#[test]
fn rpn_test_new() {
    let ctx = Context::empty();

    let expr = Expr::<F64>::compile("2 - (4 + (p19 - 2) * (p19 + 2))", &ctx).unwrap();
    assert_eq!(
        expr.instructions(),
        &vec![
            Rpn::Num(2.0),
            Rpn::Num(4.0),
            var("p19"),
            Rpn::Num(2.0),
            Rpn::Op(Op::Sub),
            var("p19"),
            Rpn::Num(2.0),
            Rpn::Op(Op::Add),
            Rpn::Op(Op::Mul),
            Rpn::Op(Op::Add),
            Rpn::Op(Op::Sub),
        ]
    );

    let expr = Expr::<F64>::compile("sqrt(5)", &ctx).unwrap();
    assert_eq!(expr.instructions(), &vec![Rpn::Num(5.0), fun("sqrt", 1)]);

    let expr = Expr::<F64>::compile("abs(4, sqrt(5))", &ctx).unwrap();
    assert_eq!(
        expr.instructions(),
        &vec![Rpn::Num(4.0), Rpn::Num(5.0), fun("sqrt", 1), fun("abs", 2)]
    );

    let expr = Expr::<F64>::compile("abs((2 + 3) * 4, sqrt(5))", &ctx).unwrap();
    assert_eq!(
        expr.instructions(),
        &vec![Rpn::Num(20.0), Rpn::Num(5.0), fun("sqrt", 1), fun("abs", 2)]
    );

    let expr =
        Expr::<F64>::compile("(2 * 21) + 3 + -35 - ((5 * 80) + 5) + 10 + -p0", &ctx).unwrap();
    assert_eq!(
        expr.instructions(),
        &vec![Rpn::Num(-385.0), var("p0"), Rpn::Op(Op::Neg), Rpn::Op(Op::Add)]
    );

    let expr = Expr::<F64>::compile("-y1 * (p2 - p3*y0)", &ctx).unwrap();
    assert_eq!(
        expr.instructions(),
        &vec![
            var("y1"),
            Rpn::Op(Op::Neg),
            var("p2"),
            var("p3"),
            var("y0"),
            Rpn::Op(Op::Mul),
            Rpn::Op(Op::Sub),
            Rpn::Op(Op::Mul),
        ]
    );
}

#[test]
fn irpn_test_new() {
    let ctx = Context::new(
        IndexedResolver::<Unlocked, f64>::new(),
        IndexedResolver::<Unlocked, ExprFn>::new(),
    );
    let p = (b'p' - b'a') as usize;
    let y = (b'y' - b'a') as usize;
    let f = (b'f' - b'a') as usize;

    let expr = Expr::<F64>::compile("2 - (4 + (p19 - 2) * (p19 + 2))", &ctx).unwrap();
    assert_eq!(
        expr.instructions(),
        &vec![
            Rpn::Num(2.0),
            Rpn::Num(4.0),
            ivar("p19", p, 19),
            Rpn::Num(2.0),
            Rpn::Op(Op::Sub),
            ivar("p19", p, 19),
            Rpn::Num(2.0),
            Rpn::Op(Op::Add),
            Rpn::Op(Op::Mul),
            Rpn::Op(Op::Add),
            Rpn::Op(Op::Sub),
        ]
    );

    let expr = Expr::<F64>::compile("f0((2 + 3) * 4, f1(5))", &ctx).unwrap();
    assert_eq!(
        expr.instructions(),
        &vec![Rpn::Num(20.0), Rpn::Num(5.0), ifun("f1", f, 1, 1), ifun("f0", f, 0, 2)]
    );

    let expr =
        Expr::<F64>::compile("(2 * 21) + 3 + -35 - ((5 * 80) + 5) + 10 + -p0", &ctx).unwrap();
    assert_eq!(
        expr.instructions(),
        &vec![Rpn::Num(-385.0), ivar("p0", p, 0), Rpn::Op(Op::Neg), Rpn::Op(Op::Add)]
    );

    let expr = Expr::<F64>::compile("-y1 * (p2 - p3*y0)", &ctx).unwrap();
    assert_eq!(
        expr.instructions(),
        &vec![
            ivar("y1", y, 1),
            Rpn::Op(Op::Neg),
            ivar("p2", p, 2),
            ivar("p3", p, 3),
            ivar("y0", y, 0),
            Rpn::Op(Op::Mul),
            Rpn::Op(Op::Sub),
            Rpn::Op(Op::Mul),
        ]
    );
}

fn twenty(_: &[f64]) -> f64 {
    20.0
}

fn zero(_: &[f64]) -> f64 {
    0.0
}

#[test]
fn test_ptr() {
    let mut var_resolver = DefaultResolver::empty();
    var_resolver.insert("p0", 10.0);

    let mut fn_resolver = DefaultResolver::empty();
    fn_resolver.insert("f0", ExprFn::new(zero));

    let mut context = Context::new(var_resolver, fn_resolver).lock();

    let p0_ptr = context.get_var_ptr("p0").unwrap();
    let f0_ptr = context.get_fn_ptr("f0").unwrap();

    p0_ptr.set(context.vars_mut(), 20.0);
    f0_ptr.set(context.fns_mut(), ExprFn::new(twenty));

    assert_eq!(p0_ptr.get(context.vars()), (f0_ptr.get(context.fns()).0)(&[0.0; 0]));
}

#[test]
fn test_lockeable_resolvers() {
    let expr = "p0";

    let mut var_resolver_1 = SmallResolver::new();
    var_resolver_1.insert("p0", 10.0);
    let var_resolver_1 = var_resolver_1.lock();

    let mut var_resolver_2 = SmallResolver::new();
    var_resolver_2.insert("p0", 10.0);
    let var_resolver_2 = var_resolver_2.lock();

    let fn_resolver_1 = EmptyResolver::new();
    let fn_resolver_2 = EmptyResolver::new();

    let mut context_1 = Context::new(var_resolver_1, fn_resolver_1);
    let mut context_2 = Context::new(var_resolver_2, fn_resolver_2);

    let p0_ptr_1 = context_1.vars().get_ptr("p0").unwrap();
    let p0_ptr_2 = context_2.vars().get_ptr("p0").unwrap();

    let rpn_expr_1 = Expr::<F64>::compile(expr, &context_1).unwrap();
    let rpn_expr_2 = Expr::<F64>::compile(expr, &context_2).unwrap();

    let mut stack = Vec::with_capacity(rpn_expr_1.len() / 2);

    assert_eq!(
        rpn_expr_1.eval(&context_1, &mut stack),
        rpn_expr_2.eval(&context_2, &mut stack)
    );

    p0_ptr_1.set(context_1.vars_mut(), 20.0);
    p0_ptr_2.set(context_2.vars_mut(), 20.0);

    assert_eq!(
        rpn_expr_1.eval(&context_1, &mut stack),
        rpn_expr_2.eval(&context_2, &mut stack)
    );
    assert_eq!(rpn_expr_1.eval(&context_1, &mut stack), Ok(20.0));

    p0_ptr_1.set(context_1.vars_mut(), 50.0);
    p0_ptr_2.set(context_2.vars_mut(), 40.0);

    assert_ne!(
        rpn_expr_1.eval(&context_1, &mut stack),
        rpn_expr_2.eval(&context_2, &mut stack)
    );
}

#[test]
fn test_locked_resolver_get_var_mut_updates_value() {
    let mut resolver = DefaultResolver::new_vars::<F64>();
    resolver.insert("x", 10.0);
    let mut resolver = resolver.lock();

    let x = resolver.get_ptr("x").unwrap();
    x.set(&mut resolver, 20.0);

    assert_eq!(resolver.resolve("x"), Some(&20.0));
}

#[test]
fn indexed_write_through_ptr_and_name() {
    let mut vars = IndexedResolver::new();
    vars.add_id('p', 3);
    vars.set('p', 2, 5.0);
    let mut ctx = Context::new(vars, IndexedResolver::<Unlocked, ExprFn>::new()).lock();
    let expr = Expr::<F64>::compile("p2 * 2", &ctx).unwrap();
    assert_eq!(expr.eval(&ctx, &mut Vec::new()), Ok(10.0));
    let ptr = ctx.get_var_ptr("p2").unwrap();
    ptr.set(ctx.vars_mut(), 7.0);
    assert_eq!(expr.eval(&ctx, &mut Vec::new()), Ok(14.0));
    assert_eq!(ctx.vars().resolve("p2"), Some(&7.0));
    assert!(ctx.get_var_ptr("p3").is_none());
    assert!(ctx.get_var_ptr("q0").is_none());
    assert_eq!(ctx.vars().resolve("P2"), None);
}

#[test]
fn indexed_out_of_range_is_unknown() {
    let mut vars = IndexedResolver::new();
    vars.add_id('p', 1);
    let ctx = Context::new(vars, IndexedResolver::<Unlocked, ExprFn>::new());
    let expr = Expr::<F64>::compile("p5 + 1", &ctx).unwrap();
    assert_eq!(
        expr.eval(&ctx, &mut Vec::new()),
        Err(Error::UnknownVar("p5".to_string()))
    );
    assert_eq!(ctx.vars().get(15, 0), Some(&0.0));
    assert_eq!(ctx.vars().get(15, 1), None);
    assert_eq!(ctx.vars().get(40, 0), None);
}

#[test]
fn small_resolver_insert_replaces() {
    let mut r = SmallResolver::new();
    r.insert("a", 1.0);
    r.insert("b", 2.0);
    r.insert("a", 3.0);
    assert_eq!(r.resolve("a"), Some(&3.0));
    assert_eq!(r.resolve("b"), Some(&2.0));
    assert_eq!(r.resolve("c"), None);
}

#[test]
fn constant_and_empty_resolvers() {
    let mut c: ConstantResolver<Unlocked, f64> = ConstantResolver::new(1.0);
    assert_eq!(c.resolve("x"), Some(&1.0));
    c.set(2.5);
    let ctx = Context::new(c, EmptyResolver::new());
    let expr = Expr::<F64>::compile("x + y", &ctx).unwrap();
    assert_eq!(expr.eval(&ctx, &mut Vec::new()), Ok(5.0));

    let e: EmptyResolver<Unlocked> = EmptyResolver::new();
    assert_eq!(Resolver::<Unlocked, f64>::resolve(&e, "x"), None);
}

#[test]
fn constant_resolver_locked_ptr() {
    let c: ConstantResolver<Unlocked, f64> = ConstantResolver::new(1.0);
    let mut ctx = Context::new(c, EmptyResolver::new()).lock::<f64, ExprFn, _, _>();
    let expr = Expr::<F64>::compile("x + y", &ctx).unwrap();
    let p = ctx.get_var_ptr("anything").unwrap();
    p.set(ctx.vars_mut(), 4.0);
    assert_eq!(expr.eval(&ctx, &mut Vec::new()), Ok(8.0));
}

#[test]
fn parse_usize_values() {
    assert_eq!(parse_usize(b"0"), 0);
    assert_eq!(parse_usize(b"19"), 19);
    assert_eq!(parse_usize(b""), 0);
    assert_eq!(parse_usize(b"1234567890"), 1234567890);
}

#[test]
fn operator_table() {
    assert_eq!(Op::Or.precedence(), 0);
    assert_eq!(Op::And.precedence(), 1);
    assert_eq!(Op::Eq.precedence(), 2);
    assert_eq!(Op::BitXor.precedence(), 3);
    assert_eq!(Op::Shl.precedence(), 4);
    assert_eq!(Op::Sub.precedence(), 5);
    assert_eq!(Op::Mod.precedence(), 6);
    assert_eq!(Op::Neg.precedence(), 7);
    assert_eq!(Op::Pow.precedence(), 8);
    assert_eq!(Op::Neg.num_operands(), 1);
    assert_eq!(Op::Not.num_operands(), 1);
    assert_eq!(Op::Add.num_operands(), 2);
    assert!(Op::Pow.is_right_associative());
    assert!(!Op::Sub.is_right_associative());
}

#[test]
fn right_associative_power_and_left_subtraction() {
    let ctx = Context::empty();
    let expr = Expr::<F64>::compile("2 ^ 3 ^ 2", &ctx).unwrap();
    assert_eq!(expr.instructions(), &vec![Rpn::Num(512.0)]);
    let expr = Expr::<F64>::compile("a - b - c", &ctx).unwrap();
    assert_eq!(
        expr.instructions(),
        &vec![var("a"), var("b"), Rpn::Op(Op::Sub), var("c"), Rpn::Op(Op::Sub)]
    );
}

#[test]
fn call_without_arguments_counts_none() {
    let ctx = Context::empty();
    let expr = Expr::<F64>::compile("f()", &ctx).unwrap();
    assert_eq!(expr.instructions(), &vec![fun("f", 0)]);
    let expr = Expr::<F64>::compile("f(g(), 1)", &ctx).unwrap();
    assert_eq!(expr.instructions(), &vec![fun("g", 0), Rpn::Num(1.0), fun("f", 2)]);
}

#[test]
fn indexed_names_with_long_numbers() {
    let mut vars = IndexedResolver::new();
    vars.add_id('a', 1);
    vars.set('a', 0, 3.0);
    assert_eq!(vars.resolve("a0000000000"), Some(&3.0));
    assert_eq!(vars.resolve("a99999999999999999999999"), None);
    let ctx = Context::new(vars, IndexedResolver::<Unlocked, ExprFn>::new());
    let expr = Expr::<F64>::compile("a0000000000 + 1", &ctx).unwrap();
    assert_eq!(expr.eval(&ctx, &mut Vec::new()), Ok(4.0));
}

#[test]
fn lock_keeps_values() {
    let mut v = DefaultResolver::empty();
    v.insert("a", 1.0);
    let mut f = DefaultResolver::empty();
    f.insert("g", ExprFn::new(twenty));
    let ctx = Context::new(v, f).lock();
    assert_eq!(ctx.vars().resolve("a"), Some(&1.0));
    assert!(ctx.fns().resolve("g").is_some());
    let expr = Expr::<F64>::compile("g(a) + a", &ctx).unwrap();
    assert_eq!(expr.eval(&ctx, &mut Vec::new()), Ok(21.0));
}

