use fee::{Arithmetic, Op};

#[derive(Clone, Copy, Debug, PartialEq)]
struct ExprFn(fn(&[f64]) -> f64);

impl ExprFn {
    fn new(f: fn(&[f64]) -> f64) -> Self {
        ExprFn(f)
    }
}

impl Default for ExprFn {
    fn default() -> Self {
        fn zero(_: &[f64]) -> f64 {
            0.0
        }
        ExprFn(zero)
    }
}

struct F64;

fn to_bool(x: f64) -> bool {
    x != 0.0
}

fn from_bool(b: bool) -> f64 {
    if b {
        1.0
    } else {
        0.0
    }
}

impl Arithmetic for F64 {
    type Num = f64;
    type Func = ExprFn;

    fn literal(text: &str) -> f64 {
        text.parse().unwrap_or(0.0)
    }

    fn boolean(b: bool) -> f64 {
        from_bool(b)
    }

    fn apply(op: Op, x: &[f64]) -> f64 {
        match op {
            Op::Add => x[0] + x[1],
            Op::Sub => x[0] - x[1],
            Op::Mul => x[0] * x[1],
            Op::Div => x[0] / x[1],
            Op::Pow => {
                if x[1] == x[1] as i64 as f64 {
                    x[0].powi(x[1] as i32)
                } else {
                    x[0].powf(x[1])
                }
            }
            Op::Mod => x[0] % x[1],
            Op::Neg => -x[0],
            Op::Not => from_bool(!to_bool(x[0])),
            Op::Or => from_bool(to_bool(x[0]) || to_bool(x[1])),
            Op::And => from_bool(to_bool(x[0]) && to_bool(x[1])),
            Op::Low => from_bool(x[0] < x[1]),
            Op::Great => from_bool(x[0] > x[1]),
            Op::LowEq => from_bool(x[0] <= x[1]),
            Op::GreatEq => from_bool(x[0] >= x[1]),
            Op::Eq => from_bool(x[0] == x[1]),
            Op::NotEq => from_bool(x[0] != x[1]),
            Op::BitAnd => ((x[0] as i64) & (x[1] as i64)) as f64,
            Op::BitOr => ((x[0] as i64) | (x[1] as i64)) as f64,
            Op::BitXor => ((x[0] as i64) ^ (x[1] as i64)) as f64,
            Op::Shl => ((x[0] as i64) << (x[1] as i64)) as f64,
            Op::Shr => ((x[0] as i64) >> (x[1] as i64)) as f64,
        }
    }

    fn call(f: &ExprFn, args: &[f64]) -> f64 {
        (f.0)(args)
    }
}

use fee::{
    Context, DefaultResolver, EmptyResolver, Error, EvalError, Expr, IndexedResolver,
    RpnEvaluator, SmallResolver,
};

fn f0(args: &[f64]) -> f64 {
    args[0].sqrt()
}

fn f1(args: &[f64]) -> f64 {
    args[0].abs()
}

fn f2(args: &[f64]) -> f64 {
    if args[0] > args[1] {
        args[0]
    } else {
        args[1]
    }
}

fn f3(args: &[f64]) -> f64 {
    args[0] as i64 as f64
}

const PIPELINE: &str = r#"
f3(-((p0^2 + (3 * p1 - (p2^3))) - (-(p3^2) + f0((p4 - p5)^2 + (p6^2))))
+ f1(((p7^3) - (-(p8^2))))
+ f2((p9 - (p10 - (p11^2))), 3))"#;

fn default_vars() -> DefaultResolver<fee::Unlocked, f64> {
    let mut r = DefaultResolver::empty();
    for i in 0..12 {
        r.insert(&format!("p{}", i), i as f64);
    }
    r
}

fn indexed_vars() -> IndexedResolver<fee::Unlocked, f64> {
    let mut r = IndexedResolver::new();
    r.add_id('p', 12);
    for i in 0..12 {
        r.set('p', i, i as f64);
    }
    r
}

fn default_fns() -> DefaultResolver<fee::Unlocked, ExprFn> {
    let mut r = DefaultResolver::empty();
    r.insert("f0", ExprFn::new(f0));
    r.insert("f1", ExprFn::new(f1));
    r.insert("f2", ExprFn::new(f2));
    r.insert("f3", ExprFn::new(f3));
    r
}

fn indexed_fns() -> IndexedResolver<fee::Unlocked, ExprFn> {
    let mut r = IndexedResolver::new();
    r.add_id('f', 4);
    r.set('f', 0, ExprFn::new(f0));
    r.set('f', 1, ExprFn::new(f1));
    r.set('f', 2, ExprFn::new(f2));
    r.set('f', 3, ExprFn::new(f3));
    r
}

#[test]
fn test_eval_pipelines() {
    let mut stack = Vec::with_capacity(20);

    {
        let context = Context::new(default_vars(), default_fns());
        let expr = Expr::<F64>::compile(PIPELINE, &context).unwrap();
        assert_eq!(expr.eval(&context, &mut stack), Ok(529.0));
    }
    {
        let context = Context::new(indexed_vars(), default_fns());
        let expr = Expr::<F64>::compile(PIPELINE, &context).unwrap();
        assert_eq!(expr.eval(&context, &mut stack), Ok(529.0));
    }
    {
        let context = Context::new(default_vars(), indexed_fns());
        let expr = Expr::<F64>::compile(PIPELINE, &context).unwrap();
        assert_eq!(expr.eval(&context, &mut stack), Ok(529.0));
    }
    {
        let context = Context::new(indexed_vars(), indexed_fns());
        let expr = Expr::<F64>::compile(PIPELINE, &context).unwrap();
        assert_eq!(expr.eval(&context, &mut stack), Ok(529.0));
    }
    {
        let mut context = Context::new(default_vars(), default_fns()).lock();
        let expr = Expr::<F64>::compile(PIPELINE, &context).unwrap();
        assert_eq!(expr.eval(&context, &mut stack), Ok(529.0));

        let p0_ptr = context.get_var_ptr("p0").unwrap();
        p0_ptr.set(context.vars_mut(), 1.0);

        assert_eq!(expr.eval(&context, &mut stack), Ok(528.0));
    }
}

#[test]
fn test_eval_operators() {
    let ctx = Context::empty();
    let mut stack = Vec::new();

    let expr = Expr::<F64>::compile("3 * 3 - (-4) / 4 + 4 % 2 + 4^3", &ctx).unwrap();
    assert_eq!(expr.eval(&ctx, &mut stack).unwrap(), 74.0);

    let expr = Expr::<F64>::compile("!false == 1.0 && !0.0 == true", &ctx).unwrap();
    assert_eq!(expr.eval(&ctx, &mut stack).unwrap(), 1.0);

    let expr = Expr::<F64>::compile(
        "3 > 4 && false || 3 >= 3 && 3 <= 3 && 3 < 4 && 5 != 6",
        &ctx,
    )
    .unwrap();
    assert_eq!(expr.eval(&ctx, &mut stack).unwrap(), 1.0);

    let expr = Expr::<F64>::compile("1 << 3 == 8 && 8 >> 3 == 1", &ctx).unwrap();
    assert_eq!(expr.eval(&ctx, &mut stack).unwrap(), 1.0);

    let expr = Expr::<F64>::compile("6 & 3 == 2 && 6 | 3 == 7 && 6 ^^ 3 == 5", &ctx).unwrap();
    assert_eq!(expr.eval(&ctx, &mut stack).unwrap(), 1.0);
}

#[test]
fn test_hard_expressions() {
    fn min(x: &[f64]) -> f64 {
        let mut res = f64::MAX;
        for x in x.iter() {
            if *x < res {
                res = *x;
            }
        }
        res
    }
    fn max(x: &[f64]) -> f64 {
        let mut res = f64::MIN;
        for x in x.iter() {
            if *x > res {
                res = *x;
            }
        }
        res
    }
    fn abs(x: &[f64]) -> f64 {
        x[0].abs()
    }

    let mut v_resolver = SmallResolver::new();
    v_resolver.insert("x", 0.0);
    v_resolver.insert("y", 0.0);
    v_resolver.insert("z", 1.0);
    v_resolver.insert("a", 1.0);
    v_resolver.insert("b", 1.0);
    v_resolver.insert("c", 10.0);

    let mut f_resolver = SmallResolver::new();
    f_resolver.insert("max", ExprFn::new(max));
    f_resolver.insert("min", ExprFn::new(min));
    f_resolver.insert("abs", ExprFn::new(abs));

    let ctx = Context::new(v_resolver, f_resolver);
    let mut stack = Vec::new();

    let expr = "
        ((x + 3 * y) << 2) & 255 | ((10 ^ 2) % 7)
        ^^ (true && (z > 5 || false))
        + max(a, b, c)
        - min(1, 2, 3)
        * abs(-42)
        ";
    let expr = Expr::<F64>::compile(expr, &ctx).unwrap();
    assert_eq!(expr.eval(&ctx, &mut stack).unwrap(), -30.0);
}

fn abs1(args: &[f64]) -> f64 {
    args[0].abs()
}

#[test]
fn test_rpn_eval_with_indexed_var_resolver() {
    let mut var_resolver = IndexedResolver::new();
    var_resolver.add_id('p', 20);
    var_resolver.set('p', 19, 4.0);

    let fn_resolver: EmptyResolver<fee::Unlocked> = EmptyResolver::new();
    let mut context = Context::new(var_resolver, fn_resolver);

    let expr = Expr::<F64>::compile("(2 + 4) * 6 / (p19 + 2)", &context).unwrap();
    let result = expr.eval(&context, &mut Vec::new()).unwrap();
    assert_eq!(result, 6.0);

    let expr = Expr::<F64>::compile("2 - (4 + (p19 - 2) * (p19 + 2))", &context).unwrap();
    let result = expr.eval(&context, &mut Vec::new()).unwrap();
    assert_eq!(result, -14.0);

    context.vars_mut().set('p', 19, 0.0);

    let result = expr.eval(&context, &mut Vec::new()).unwrap();
    assert_eq!(result, 2.0);
}

#[test]
fn test_rpn_eval_with_vars_and_fn() {
    let mut var_resolver = DefaultResolver::new_vars::<F64>();
    var_resolver.insert("p0", 10.0);
    var_resolver.insert("p1", 4.0);

    let mut fn_resolver = DefaultResolver::empty();
    fn_resolver.insert("abs", ExprFn::new(abs1));

    let context = Context::new(var_resolver, fn_resolver);
    let mut stack = Vec::with_capacity(10);

    let expr = Expr::<F64>::compile("-abs((2 + 4) * 6 / (p1 + 2)) + abs(-2)", &context).unwrap();
    assert_eq!(expr.eval(&context, &mut stack).unwrap(), -4.0);

    let expr = Expr::<F64>::compile("abs((2 + 4) * 6 / (p1 + 2))", &context).unwrap();
    assert_eq!(expr.eval(&context, &mut stack).unwrap(), 6.0);

    let expr = Expr::<F64>::compile("abs((2 * 21) + 3 - 35 + (-((5 * 80) + 5)) + p0)", &context)
        .unwrap();
    assert_eq!(expr.eval(&context, &mut stack).unwrap(), 385.0);

    let expr = Expr::<F64>::compile("-3^2 + (-3)^2", &context).unwrap();
    assert_eq!(expr.eval(&context, &mut stack).unwrap(), 0.0);
}

#[test]
fn test_default_eval_1() {
    let context = Context::new(DefaultResolver::new_vars::<F64>(), DefaultResolver::<fee::Unlocked, ExprFn>::empty());
    let expr = Expr::<F64>::compile("(2 + 4) * 6", &context).unwrap();
    assert_eq!(RpnEvaluator::new().eval(&expr, &context), Ok(36.0));
}

#[test]
fn test_default_eval_2() {
    let mut var_resolver = DefaultResolver::new_vars::<F64>();
    var_resolver.insert("p1", 4.0);
    let context = Context::new(var_resolver, DefaultResolver::<fee::Unlocked, ExprFn>::empty());
    let expr = Expr::<F64>::compile("(2 + 4) * 6 / (p1 + 2)", &context).unwrap();
    assert_eq!(RpnEvaluator::new().eval(&expr, &context), Ok(6.0));
}

#[test]
fn default_eval_test_1() {
    let context = Context::new(DefaultResolver::new_vars::<F64>(), DefaultResolver::<fee::Unlocked, ExprFn>::empty());
    let expr = Expr::<F64>::compile("(2 + 4) * 6", &context).unwrap();
    let mut stack = Vec::new();
    assert_eq!(expr.eval(&context, &mut stack), Ok(36.0));
}

#[test]
fn default_eval_test_2() {
    let mut var_resolver = DefaultResolver::new_vars::<F64>();
    var_resolver.insert("p1", 4.0);
    let context = Context::new(var_resolver, DefaultResolver::<fee::Unlocked, ExprFn>::empty());
    let expr = Expr::<F64>::compile("(2 + 4) * 6 / (p1 + 2)", &context).unwrap();
    let mut stack = Vec::new();
    assert_eq!(expr.eval(&context, &mut stack), Ok(6.0));
}

#[test]
fn arithmetic_only_matches_direct_evaluation() {
    let ctx = Context::empty();
    let mut stack = Vec::new();
    let cases: [(&str, f64); 5] = [
        ("1 + 2 * 3", 1.0 + 2.0 * 3.0),
        ("(1 + 2) * 3", (1.0 + 2.0) * 3.0),
        ("2 ^ 3 ^ 2", 2f64.powi(9)),
        ("10 - 4 - 3", 10.0 - 4.0 - 3.0),
        ("7 / 2 % 3", (7.0 / 2.0) % 3.0),
    ];
    for (src, want) in cases.iter() {
        let expr = Expr::<F64>::compile(src, &ctx).unwrap();
        let got = expr.eval(&ctx, &mut stack).unwrap();
        assert!((got - want).abs() < 1e-12, "{}: {} != {}", src, got, want);
    }
}

#[test]
fn constant_expression_folds_to_one_literal() {
    let ctx = Context::empty();
    let expr = Expr::<F64>::compile("3 * 3 - 3 / 3", &ctx).unwrap();
    assert_eq!(expr.instructions(), &vec![fee::Rpn::Num(8.0)]);
    let mut stack = vec![5.0, 6.0];
    assert_eq!(expr.eval(&ctx, &mut stack), Ok(8.0));
    assert_eq!(stack, vec![5.0, 6.0]);
}

#[test]
fn long_constant_expression_folds() {
    let ctx = Context::empty();
    let expr = Expr::<F64>::compile("(2 * 21) + 3 - 35 - ((5 * 80) + 5) + 10", &ctx).unwrap();
    assert_eq!(expr.instructions(), &vec![fee::Rpn::Num(-385.0)]);
}

#[test]
fn variable_present_and_absent() {
    let mut vars = DefaultResolver::empty();
    vars.insert("p0", 21.0);
    let ctx = Context::new(vars, DefaultResolver::<fee::Unlocked, ExprFn>::empty());
    let expr = Expr::<F64>::compile("p0 * 2", &ctx).unwrap();
    assert_eq!(expr.eval(&ctx, &mut Vec::new()), Ok(42.0));

    let ctx = Context::new(
        DefaultResolver::<fee::Unlocked, f64>::empty(),
        DefaultResolver::<fee::Unlocked, ExprFn>::empty(),
    );
    let expr = Expr::<F64>::compile("p0 * 2", &ctx).unwrap();
    assert_eq!(
        expr.eval(&ctx, &mut Vec::new()),
        Err(Error::UnknownVar("p0".to_string()))
    );
}

use std::sync::Mutex;

static SEEN: Mutex<Vec<Vec<f64>>> = Mutex::new(Vec::new());

fn recording_max(args: &[f64]) -> f64 {
    SEEN.lock().unwrap().push(args.to_vec());
    if args[0] > args[1] {
        args[0]
    } else {
        args[1]
    }
}

fn sqrt1(args: &[f64]) -> f64 {
    args[0].sqrt()
}

#[test]
fn function_arguments_in_order() {
    let mut fns = DefaultResolver::empty();
    fns.insert("abs", ExprFn::new(recording_max));
    fns.insert("sqrt", ExprFn::new(sqrt1));
    let ctx = Context::new(DefaultResolver::<fee::Unlocked, f64>::empty(), fns);
    let expr = Expr::<F64>::compile("abs((2 + 3) * 4, sqrt(5))", &ctx).unwrap();
    assert_eq!(expr.eval(&ctx, &mut Vec::new()), Ok(20.0));
    assert_eq!(SEEN.lock().unwrap().clone(), vec![vec![20.0, 5f64.sqrt()]]);
}

#[test]
fn unary_minus_and_power() {
    let ctx = Context::empty();
    let expr = Expr::<F64>::compile("-3^2 + (-3)^2", &ctx).unwrap();
    assert_eq!(expr.eval(&ctx, &mut Vec::new()), Ok(0.0));
    let expr = Expr::<F64>::compile("-3^2", &ctx).unwrap();
    assert_eq!(expr.eval(&ctx, &mut Vec::new()), Ok(-9.0));
}

#[test]
fn operator_without_operand_underflows() {
    let ctx = Context::empty();
    let expr = Expr::<F64>::compile("1 +", &ctx).unwrap();
    assert_eq!(expr.instructions(), &vec![fee::Rpn::Num(1.0), fee::Rpn::Op(Op::Add)]);
    assert_eq!(
        expr.eval(&ctx, &mut Vec::new()),
        Err(Error::EvalError(EvalError::RPNStackUnderflow))
    );
}

#[test]
fn unary_operator_after_power() {
    let ctx = Context::empty();
    let expr = Expr::<F64>::compile("2 ^ -3", &ctx).unwrap();
    assert_eq!(expr.instructions(), &vec![fee::Rpn::Num(0.125)]);
    let expr = Expr::<F64>::compile("2 * -x", &ctx).unwrap();
    assert_eq!(expr.len(), 4);
    let expr = Expr::<F64>::compile("!0 ^ 2", &ctx).unwrap();
    assert_eq!(expr.eval(&ctx, &mut Vec::new()), Ok(1.0));
}

#[test]
fn successful_eval_empties_the_stack() {
    let mut vars = DefaultResolver::empty();
    vars.insert("x", 2.0);
    let ctx = Context::new(vars, DefaultResolver::<fee::Unlocked, ExprFn>::empty());
    let expr = Expr::<F64>::compile("x * 3", &ctx).unwrap();
    let mut stack = vec![9.0];
    assert_eq!(expr.eval(&ctx, &mut stack), Ok(6.0));
    assert!(stack.is_empty());
}

fn seven(args: &[f64]) -> f64 {
    assert!(args.is_empty());
    7.0
}

#[test]
fn call_without_arguments() {
    let mut fns = DefaultResolver::empty();
    fns.insert("seven", ExprFn::new(seven));
    let ctx = Context::new(DefaultResolver::<fee::Unlocked, f64>::empty(), fns);
    let expr = Expr::<F64>::compile("seven() + 1", &ctx).unwrap();
    assert_eq!(expr.eval(&ctx, &mut Vec::new()), Ok(8.0));
}

#[test]
fn leftover_values_are_malformed() {
    let ctx = Context::empty();
    let expr = Expr::<F64>::compile("1, 2", &ctx).unwrap();
    assert_eq!(
        expr.eval(&ctx, &mut Vec::new()),
        Err(Error::EvalError(EvalError::MalformedExpression))
    );
    let expr = Expr::<F64>::compile("", &ctx).unwrap();
    assert_eq!(
        expr.eval(&ctx, &mut Vec::new()),
        Err(Error::EvalError(EvalError::MalformedExpression))
    );
}

#[test]
fn unknown_function() {
    let ctx = Context::new(
        DefaultResolver::<fee::Unlocked, f64>::empty(),
        DefaultResolver::<fee::Unlocked, ExprFn>::empty(),
    );
    let expr = Expr::<F64>::compile("g(1)", &ctx).unwrap();
    assert_eq!(
        expr.eval(&ctx, &mut Vec::new()),
        Err(Error::UnknownFn("g".to_string()))
    );
}

#[test]
fn constants_of_the_default_vars() {
    let ctx = Context::new(
        DefaultResolver::new_vars::<F64>(),
        DefaultResolver::<fee::Unlocked, ExprFn>::empty(),
    );
    let expr = Expr::<F64>::compile("pi + e + tau + sqrt2", &ctx).unwrap();
    let want = std::f64::consts::PI
        + std::f64::consts::E
        + std::f64::consts::TAU
        + std::f64::consts::SQRT_2;
    assert_eq!(expr.eval(&ctx, &mut Vec::new()), Ok(want));
}

#[test]
fn evaluator_without_context() {
    let ctx = Context::empty();
    let expr = Expr::<F64>::compile("2 + 3 * 4", &ctx).unwrap();
    assert_eq!(RpnEvaluator::new().eval_without_context(&expr), Ok(14.0));
    let mut stack = Vec::with_capacity(3);
    assert_eq!(RpnEvaluator::new().eval_with_stack(&expr, &ctx, &mut stack), Ok(14.0));
}

#[test]
fn indexed_evaluator() {
    let mut vars = IndexedResolver::new();
    vars.add_id('y', 2);
    vars.set('y', 0, 1.0);
    vars.set('y', 1, 2.0);
    vars.add_id('p', 4);
    vars.set('p', 0, 1.0);
    vars.set('p', 1, 0.0);
    vars.set('p', 2, 1.0);
    vars.set('p', 3, 0.0);
    let ctx = Context::new(vars, IndexedResolver::<fee::Unlocked, ExprFn>::new());
    let y0 = Expr::<F64>::compile("y0 * (p0 - p1*y1)", &ctx).unwrap();
    let y1 = Expr::<F64>::compile("-y1 * (p2 - p3*y0)", &ctx).unwrap();
    let ev = fee::IRpnEvaluator::new();
    assert_eq!(ev.eval(&y0, &ctx), Ok(1.0));
    assert_eq!(ev.eval(&y1, &ctx), Ok(-2.0));
    let pre = fee::parse_irpn::<F64>("y0 * (p0 - p1*y1)").unwrap();
    assert_eq!(ev.eval(&pre, &ctx), Ok(1.0));
}
