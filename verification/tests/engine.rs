use advantage::abs_normal::abs_normal;
use advantage::acontext::AContext;
use advantage::afloat::AFloat;
use advantage::function::{Chain, Function};
use advantage::generalized_jacobian::{
    generalized_jacobian, generalized_jacobian_chain, generalized_jacobian_tape,
    GeneralizedJacobian,
};
use advantage::operation::OpCode;
use advantage::tape::ATape;
use advantage::{jacobian_forward, jacobian_reverse, AbsNormalTape, AnfPart, Scalar};
use vstd::prelude::{int, nat, Seq};

/// Double-precision scalar backing the abstract operations with hardware
/// arithmetic.
#[derive(Debug, Clone, Copy, PartialEq)]
pub struct F64(pub f64);

impl Scalar for F64 {
    // The spec-level model of each operation: identical to the executable
    // operation (these are only type-checked, never run).
    fn zero_spec() -> Self {
        F64(0.0)
    }
    fn one_spec() -> Self {
        F64(1.0)
    }
    fn add_spec(a: Self, b: Self) -> Self {
        F64(a.0 + b.0)
    }
    fn sub_spec(a: Self, b: Self) -> Self {
        F64(a.0 - b.0)
    }
    fn mul_spec(a: Self, b: Self) -> Self {
        F64(a.0 * b.0)
    }
    fn div_spec(a: Self, b: Self) -> Self {
        F64(a.0 / b.0)
    }
    fn neg_spec(a: Self) -> Self {
        F64(-a.0)
    }
    fn abs_spec(a: Self) -> Self {
        F64(a.0.abs())
    }
    fn sin_spec(a: Self) -> Self {
        F64(a.0.sin())
    }
    fn cos_spec(a: Self) -> Self {
        F64(a.0.cos())
    }
    fn tan_spec(a: Self) -> Self {
        F64(a.0.tan())
    }
    fn exp_spec(a: Self) -> Self {
        F64(a.0.exp())
    }
    fn ln_spec(a: Self) -> Self {
        F64(a.0.ln())
    }
    fn asin_spec(a: Self) -> Self {
        F64(a.0.asin())
    }
    fn acos_spec(a: Self) -> Self {
        F64(a.0.acos())
    }
    fn atan_spec(a: Self) -> Self {
        F64(a.0.atan())
    }
    fn powf_spec(a: Self, b: Self) -> Self {
        F64(a.0.powf(b.0))
    }
    fn sqrt_spec(a: Self) -> Self {
        F64(a.0.sqrt())
    }
    fn lt_spec(a: Self, b: Self) -> bool {
        a.0 < b.0
    }
    fn eq_spec(a: Self, b: Self) -> bool {
        a.0 == b.0
    }

    fn zero() -> Self {
        F64(0.0)
    }
    fn one() -> Self {
        F64(1.0)
    }
    fn add(a: Self, b: Self) -> Self {
        F64(a.0 + b.0)
    }
    fn sub(a: Self, b: Self) -> Self {
        F64(a.0 - b.0)
    }
    fn mul(a: Self, b: Self) -> Self {
        F64(a.0 * b.0)
    }
    fn div(a: Self, b: Self) -> Self {
        F64(a.0 / b.0)
    }
    fn neg(a: Self) -> Self {
        F64(-a.0)
    }
    fn abs(a: Self) -> Self {
        F64(a.0.abs())
    }
    fn sin(a: Self) -> Self {
        F64(a.0.sin())
    }
    fn cos(a: Self) -> Self {
        F64(a.0.cos())
    }
    fn tan(a: Self) -> Self {
        F64(a.0.tan())
    }
    fn exp(a: Self) -> Self {
        F64(a.0.exp())
    }
    fn ln(a: Self) -> Self {
        F64(a.0.ln())
    }
    fn asin(a: Self) -> Self {
        F64(a.0.asin())
    }
    fn acos(a: Self) -> Self {
        F64(a.0.acos())
    }
    fn atan(a: Self) -> Self {
        F64(a.0.atan())
    }
    fn powf(a: Self, b: Self) -> Self {
        F64(a.0.powf(b.0))
    }
    fn sqrt(a: Self) -> Self {
        F64(a.0.sqrt())
    }
    fn lt(a: Self, b: Self) -> bool {
        a.0 < b.0
    }
    fn eq_val(a: Self, b: Self) -> bool {
        a.0 == b.0
    }
}

type AD = AFloat<F64>;

/// An unbound constant dual.
fn c(v: f64) -> AD {
    AFloat::new(F64(v), F64(0.0))
}

/// Record `max(a, b)` as the smooth-plus-kink expression
/// `0.5 * (a + b + |a - b|)`, with `b` an unbound constant.
fn record_max(ctx: &mut AContext<F64>, a: AD, b: f64) -> AD {
    let t_add = ctx.record_op(OpCode::Add, a, Some(c(b)));
    let t_sub = ctx.record_op(OpCode::Sub, a, Some(c(b)));
    let t_abs = ctx.record_op(OpCode::Abs, t_sub, None);
    let t_sum = ctx.record_op(OpCode::Add, t_add, Some(t_abs));
    ctx.record_op(OpCode::Mul, c(0.5), Some(t_sum))
}

fn fvec(v: &[f64]) -> Vec<F64> {
    v.iter().map(|&x| F64(x)).collect()
}

fn unfvec(v: &Vec<F64>) -> Vec<f64> {
    v.iter().map(|x| x.0).collect()
}

fn unfmat(m: &Vec<Vec<F64>>) -> Vec<Vec<f64>> {
    m.iter().map(unfvec).collect()
}

// ---------------------------------------------------------------------
// Tapeless forward mode
// ---------------------------------------------------------------------

fn test_function(x: AD) -> AD {
    let v1 = AD::sub(AD::add(x, x), AD::div(AD::mul(x, x), x));
    let v2 = AD::div(AD::mul(AD::sub(AD::add(v1, c(2.0)), c(2.0)), c(2.0)), c(2.0));
    let v3 = AD::neg(AD::sub(c(2.0), AD::add(c(2.0), v2)));
    let v4 = AD::div(c(2.0), AD::mul(c(2.0), v3));
    AD::div(c(1.0), v4)
}

#[test]
fn afloat_consistency() {
    let x = AFloat::<F64>::new(F64(2.0), F64(1.0));
    let y = test_function(x);
    assert!((y.value().0 - x.value().0).abs() < f64::EPSILON);
    assert!((y.dvalue().0 - 1.0).abs() < f64::EPSILON);
}

#[test]
fn afloat_nonlinear_functions() {
    const EPS: f64 = 1e-5;
    let cases: Vec<(&str, fn(AD) -> AD, fn(f64) -> f64)> = vec![
        ("sin", AD::sin, |x| x.cos()),
        ("cos", AD::cos, |x| -x.sin()),
        ("tan", AD::tan, |x| (1.0 / x.cos()).powi(2)),
        ("exp", AD::exp, |x| x.exp()),
        ("ln", AD::ln, |x| 1.0 / x),
        ("sqrt", AD::sqrt, |x| 0.5 / x.sqrt()),
        ("asin", AD::asin, |x| 1.0 / (1.0 - x.powi(2)).sqrt()),
        ("acos", AD::acos, |x| -1.0 / (1.0 - x.powi(2)).sqrt()),
        ("atan", AD::atan, |x| 1.0 / (1.0 + x.powi(2))),
    ];
    for (name, func, dy) in cases {
        let x = AFloat::<F64>::new(F64(0.5), F64(1.0));
        let y = func(x);
        println!("{}, {}, {}", name, y.dvalue().0, dy(x.value().0));
        assert!(y.dvalue().0 - dy(x.value().0) < EPS);
    }
}

// ---------------------------------------------------------------------
// Recording
// ---------------------------------------------------------------------

#[test]
fn acontext_record() {
    {
        let mut ctx: AContext<F64> = AContext::new(0);
        let mut a = AFloat::new(F64(1.0), F64(0.0));
        let mut b = AFloat::new(F64(2.0), F64(0.0));
        ctx.set_indep(&mut a);
        ctx.set_indep(&mut b);
        let cc = ctx.record_op(OpCode::Add, a, Some(b));
        ctx.set_dep(&cc);
        let tape = ctx.tape();

        let ops = tape.ops();
        assert_eq!(ops.len(), 1);
        let op = ops[0];
        assert_eq!(op.opcode, OpCode::Add);
        assert_eq!(op.arg1, Some(0));
        assert_eq!(op.arg2, Some(1));
        assert_eq!(op.vid, 2);

        let vals = tape.values();
        assert!((vals[0].0 - 1.0).abs() < f64::EPSILON);
        assert!((vals[1].0 - 2.0).abs() < f64::EPSILON);
        assert!((vals[2].0 - 3.0).abs() < f64::EPSILON);
    }
    {
        let mut ctx: AContext<F64> = AContext::new(0);
        let mut a = AFloat::new(F64(1.0), F64(0.0));
        let b = AFloat::new(F64(2.0), F64(0.0));
        ctx.set_indep(&mut a);
        let cc = ctx.record_op(OpCode::Add, a, Some(b));
        ctx.set_dep(&cc);
        let tape = ctx.tape();

        let ops = tape.ops();
        assert_eq!(ops.len(), 2);
        assert_eq!(ops[0].opcode, OpCode::Const);
        assert_eq!(ops[0].arg1, None);
        assert_eq!(ops[0].arg2, None);
        assert_eq!(ops[0].vid, 1);
        assert_eq!(ops[1].opcode, OpCode::Add);
        assert_eq!(ops[1].arg1, Some(0));
        assert_eq!(ops[1].arg2, Some(1));
        assert_eq!(ops[1].vid, 2);

        let vals = tape.values();
        assert!((vals[0].0 - 1.0).abs() < f64::EPSILON);
        assert!((vals[1].0 - 2.0).abs() < f64::EPSILON);
        assert!((vals[2].0 - 3.0).abs() < f64::EPSILON);
    }
    {
        let mut ctx: AContext<F64> = AContext::new(0);
        let a = AFloat::new(F64(1.0), F64(0.0));
        let mut b = AFloat::new(F64(2.0), F64(0.0));
        ctx.set_indep(&mut b);
        let cc = ctx.record_op(OpCode::Add, a, Some(b));
        ctx.set_dep(&cc);
        let tape = ctx.tape();

        let ops = tape.ops();
        assert_eq!(ops.len(), 2);
        assert_eq!(ops[0].opcode, OpCode::Const);
        assert_eq!(ops[0].arg1, None);
        assert_eq!(ops[0].arg2, None);
        assert_eq!(ops[0].vid, 1);
        assert_eq!(ops[1].opcode, OpCode::Add);
        assert_eq!(ops[1].arg1, Some(1));
        assert_eq!(ops[1].arg2, Some(0));
        assert_eq!(ops[1].vid, 2);

        let vals = tape.values();
        assert!((vals[0].0 - 2.0).abs() < f64::EPSILON);
        assert!((vals[1].0 - 1.0).abs() < f64::EPSILON);
        assert!((vals[2].0 - 3.0).abs() < f64::EPSILON);
    }
}

// ---------------------------------------------------------------------
// Tape interpretation
// ---------------------------------------------------------------------

fn record_all_arithmetic(ctx: &mut AContext<F64>, x: AD) -> AD {
    let t1 = ctx.record_op(OpCode::Add, x, Some(x));
    let t2 = ctx.record_op(OpCode::Mul, x, Some(x));
    let t3 = ctx.record_op(OpCode::Div, t2, Some(x));
    let v1 = ctx.record_op(OpCode::Sub, t1, Some(t3));
    let t4 = ctx.record_op(OpCode::Add, v1, Some(c(2.0)));
    let t5 = ctx.record_op(OpCode::Sub, t4, Some(c(2.0)));
    let t6 = ctx.record_op(OpCode::Mul, t5, Some(c(2.0)));
    let v2 = ctx.record_op(OpCode::Div, t6, Some(c(2.0)));
    let t7 = ctx.record_op(OpCode::Add, c(2.0), Some(v2));
    let t8 = ctx.record_op(OpCode::Sub, c(2.0), Some(t7));
    let t9 = ctx.record_op(OpCode::Sub, c(0.0), Some(c(1.0)));
    let v3 = ctx.record_op(OpCode::Mul, t9, Some(t8));
    let t10 = ctx.record_op(OpCode::Mul, c(2.0), Some(v3));
    let v4 = ctx.record_op(OpCode::Div, c(2.0), Some(t10));
    ctx.record_op(OpCode::Div, c(1.0), Some(v4))
}

fn all_arithmetic_tape(x0: f64) -> ATape<F64> {
    let mut ctx: AContext<F64> = AContext::new(0);
    let mut x = AFloat::new(F64(x0), F64(0.0));
    ctx.set_indep(&mut x);
    let v5 = record_all_arithmetic(&mut ctx, x);
    ctx.set_dep(&v5);
    ctx.tape()
}

fn all_arithmetic_f64(x: f64) -> f64 {
    let v1 = x + x - x * x / x;
    let v2 = (v1 + 2.0 - 2.0) * 2.0 / 2.0;
    let v3 = -(2.0 - (2.0 + v2));
    let v4 = 2.0 / (2.0 * v3);
    1.0 / v4
}

/// The arithmetic recording can be replayed from tape with different inputs
#[test]
fn zero_order_arithmetic() {
    let mut tape = all_arithmetic_tape(0.0);
    tape.zero_order(&fvec(&[3.0]));
    let actual = tape.y()[0].0;
    let expected = all_arithmetic_f64(3.0);
    assert!((actual - expected).abs() < f64::EPSILON);
}

/// Forward-mode AD works on the arithmetic recording
#[test]
fn first_order_forward_arithmetic() {
    let tape = all_arithmetic_tape(3.0);
    let dy = tape.first_order_forward(&fvec(&[1.0]));
    assert!((dy[0].0 - 1.0).abs() < f64::EPSILON);
}

/// Reverse-mode AD works on the arithmetic recording
#[test]
fn first_order_reverse_arithmetic() {
    let tape = all_arithmetic_tape(3.0);
    let xbar = tape.first_order_reverse(&fvec(&[1.0]));
    assert!((xbar[0].0 - 1.0).abs() < f64::EPSILON);
}

fn unary_case(op: OpCode, exponent: Option<f64>, start: f64, end: f64, num_tests: usize, dy: fn(f64) -> f64) {
    const EPS: f64 = 1e-5;
    let dx = (end - start) / (num_tests as f64);
    for i in 0..num_tests {
        let xv = start + (i as f64) * dx;
        let mut ctx: AContext<F64> = AContext::new(0);
        let mut x = AFloat::new(F64(xv), F64(0.0));
        ctx.set_indep(&mut x);
        let y = match exponent {
            Some(e) => ctx.record_op(op, x, Some(c(e))),
            None => ctx.record_op(op, x, None),
        };
        ctx.set_dep(&y);
        let tape = ctx.tape();

        let dyv = tape.first_order_forward(&fvec(&[1.0]));
        assert!((dyv[0].0 - dy(xv)).abs() < EPS);

        let xbar = tape.first_order_reverse(&fvec(&[1.0]));
        assert!((xbar[0].0 - dy(xv)).abs() < EPS);
    }
}

/// Forward-mode and reverse-mode work on nonlinear unary functions
#[test]
fn first_order_unary_nonlinear_functions() {
    unary_case(OpCode::Sin, None, 0.0, 1.0, 10, |x| x.cos());
    unary_case(OpCode::Cos, None, 0.0, 1.0, 10, |x| -x.sin());
    unary_case(OpCode::Tan, None, 0.0, 1.0, 10, |x| (1.0 / x.cos()).powi(2));
    unary_case(OpCode::Exp, None, 0.0, 1.0, 10, |x| x.exp());
    unary_case(OpCode::Ln, None, 0.1, 1.0, 9, |x| 1.0 / x);
    unary_case(OpCode::Powf, Some(0.5), 0.1, 1.0, 9, |x| 0.5 / x.sqrt());
    unary_case(OpCode::Asin, None, 0.0, 1.0, 10, |x| 1.0 / (1.0 - x.powi(2)).sqrt());
    unary_case(OpCode::Acos, None, 0.0, 1.0, 10, |x| -1.0 / (1.0 - x.powi(2)).sqrt());
    unary_case(OpCode::Atan, None, 0.0, 1.0, 10, |x| 1.0 / (1.0 + x.powi(2)));
}

/// Replaying a tape twice with the same input yields identical buffers.
#[test]
fn replay_idempotent_buffers() {
    let mut tape = all_arithmetic_tape(0.5);
    tape.zero_order(&fvec(&[3.0]));
    let first = unfvec(tape.values());
    tape.zero_order(&fvec(&[3.0]));
    let second = unfvec(tape.values());
    assert_eq!(first, second);
}

// ---------------------------------------------------------------------
// Abs-normal decomposition
// ---------------------------------------------------------------------

#[test]
fn abs_decompose() {
    let tape = {
        let mut ctx: AContext<F64> = AContext::new(0);
        let mut a = AFloat::new(F64(0.0), F64(0.0));
        let mut b = AFloat::new(F64(0.0), F64(0.0));
        ctx.set_indep(&mut a);
        ctx.set_indep(&mut b);
        // ||sin(a)| + cos(b)|
        let s1 = ctx.record_op(OpCode::Sin, a, None);
        let s2 = ctx.record_op(OpCode::Abs, s1, None);
        let c1 = ctx.record_op(OpCode::Cos, b, None);
        let ad = ctx.record_op(OpCode::Add, s2, Some(c1));
        let cc = ctx.record_op(OpCode::Abs, ad, None);
        ctx.set_dep(&cc);
        ctx.tape()
    };
    assert_eq!(tape.indeps(), &vec![0, 1]);
    assert_eq!(tape.deps(), &vec![6]);

    let opcodes: Vec<OpCode> = tape.ops().iter().map(|op| op.opcode).collect();
    assert_eq!(
        opcodes,
        vec![OpCode::Sin, OpCode::Abs, OpCode::Cos, OpCode::Add, OpCode::Abs]
    );

    let abs_tape = AbsNormalTape::new(tape);
    let z_tape = abs_tape.view_tape(AnfPart::Z);
    let l_tape = abs_tape.view_tape(AnfPart::L);
    let j_tape = abs_tape.view_tape(AnfPart::J);
    let y_tape = abs_tape.view_tape(AnfPart::Y);
    assert_eq!(z_tape.indeps(), &vec![0, 1]);
    assert_eq!(l_tape.indeps(), &vec![3, 6]);
    assert_eq!(j_tape.indeps(), &vec![0, 1]);
    assert_eq!(y_tape.indeps(), &vec![3, 6]);

    assert_eq!(z_tape.deps(), &vec![2, 5]);
    assert_eq!(l_tape.deps(), &vec![2, 5]);
    assert_eq!(j_tape.deps(), &vec![6]);
    assert_eq!(y_tape.deps(), &vec![6]);

    let blinded: Vec<OpCode> = abs_tape.ops.iter().map(|op| op.opcode).collect();
    assert_eq!(
        blinded,
        vec![OpCode::Sin, OpCode::Nop, OpCode::Cos, OpCode::Add, OpCode::Nop]
    );
}

#[test]
fn anf_consistency() {
    // y = |x1| + x2 at (2, 3)
    let mut ctx: AContext<F64> = AContext::new(0);
    let mut x1 = AFloat::new(F64(2.0), F64(0.0));
    let mut x2 = AFloat::new(F64(3.0), F64(0.0));
    ctx.set_indep(&mut x1);
    ctx.set_indep(&mut x2);
    let t = ctx.record_op(OpCode::Abs, x1, None);
    let y = ctx.record_op(OpCode::Add, t, Some(x2));
    ctx.set_dep(&y);
    let anf = abs_normal(ctx.tape());

    assert_eq!(anf.a.len(), 1);
    assert!((anf.a[0].0 - 2.0).abs() < f64::EPSILON);

    assert_eq!(anf.zmat.len(), 1);
    assert_eq!(anf.zmat[0].len(), 2);
    assert!((anf.zmat[0][0].0 - 1.0).abs() < f64::EPSILON);
    assert!((anf.zmat[0][1].0 - 0.0).abs() < f64::EPSILON);

    assert_eq!(anf.lmat.len(), 1);
    assert_eq!(anf.lmat[0].len(), 1);
    assert!((anf.lmat[0][0].0 - 0.0).abs() < f64::EPSILON);

    assert_eq!(anf.b.len(), 1);
    assert!((anf.b[0].0 + 2.0).abs() < f64::EPSILON);

    assert_eq!(anf.jmat.len(), 1);
    assert_eq!(anf.jmat[0].len(), 2);
    assert!((anf.jmat[0][0].0 - 0.0).abs() < f64::EPSILON);
    assert!((anf.jmat[0][1].0 - 1.0).abs() < f64::EPSILON);

    assert_eq!(anf.ymat.len(), 1);
    assert_eq!(anf.ymat[0].len(), 1);
    assert!((anf.ymat[0][0].0 - 1.0).abs() < f64::EPSILON);
}

/// Record the halfpipe function `max(x1^2 - max(x0, 0), 0)`.
fn halfpipe_tape(x0: f64, x1: f64) -> ATape<F64> {
    let mut ctx: AContext<F64> = AContext::new(0);
    let mut a = AFloat::new(F64(x0), F64(0.0));
    let mut b = AFloat::new(F64(x1), F64(0.0));
    ctx.set_indep(&mut a);
    ctx.set_indep(&mut b);
    let sq = ctx.record_op(OpCode::Mul, b, Some(b));
    let m1 = record_max(&mut ctx, a, 0.0);
    let diff = ctx.record_op(OpCode::Sub, sq, Some(m1));
    let out = record_max(&mut ctx, diff, 0.0);
    ctx.set_dep(&out);
    ctx.tape()
}

struct AnfRef {
    a: Vec<f64>,
    zmat: Vec<Vec<f64>>,
    lmat: Vec<Vec<f64>>,
    b: Vec<f64>,
    jmat: Vec<Vec<f64>>,
    ymat: Vec<Vec<f64>>,
}

fn halfpipe_anf_ref(x: &[f64]) -> AnfRef {
    let zmat = vec![vec![1.0, 0.0], vec![-0.5, 2.0 * x[1]]];
    let lmat = vec![vec![0.0, 0.0], vec![-0.5, 0.0]];
    let jmat = vec![vec![-0.25, x[1]]];
    let ymat = vec![vec![-0.25, 0.5]];
    let z = vec![x[0], x[1] * x[1] - x[0] / 2.0 - x[0].abs() / 2.0];
    let zabs: Vec<f64> = z.iter().map(|v| v.abs()).collect();
    let a: Vec<f64> = (0..2)
        .map(|i| z[i] - (lmat[i][0] * zabs[0] + lmat[i][1] * zabs[1]))
        .collect();
    let b = vec![-(ymat[0][0] * zabs[0] + ymat[0][1] * zabs[1])];
    AnfRef { a, zmat, lmat, b, jmat, ymat }
}

#[test]
fn abs_normal_matrices() {
    let x = [1.0, 2.0];
    let abs_ref = halfpipe_anf_ref(&x);

    let abs_tape = AbsNormalTape::new(halfpipe_tape(x[0], x[1]));
    let zmat_tape = abs_tape.view_tape(AnfPart::Z);
    let lmat_tape = abs_tape.view_tape(AnfPart::L);
    let jmat_tape = abs_tape.view_tape(AnfPart::J);
    let ymat_tape = abs_tape.view_tape(AnfPart::Y);

    let id2: Vec<Vec<F64>> = vec![fvec(&[1.0, 0.0]), fvec(&[0.0, 1.0])];
    let id1: Vec<Vec<F64>> = vec![fvec(&[1.0])];

    assert_eq!(unfmat(&zmat_tape.mul_right(&id2, 2)), abs_ref.zmat);
    assert_eq!(unfmat(&lmat_tape.mul_right(&id2, 2)), abs_ref.lmat);
    assert_eq!(unfmat(&jmat_tape.mul_right(&id2, 2)), abs_ref.jmat);
    assert_eq!(unfmat(&ymat_tape.mul_right(&id2, 2)), abs_ref.ymat);

    assert_eq!(unfmat(&zmat_tape.mul_left(&id2)), abs_ref.zmat);
    assert_eq!(unfmat(&lmat_tape.mul_left(&id2)), abs_ref.lmat);
    assert_eq!(unfmat(&jmat_tape.mul_left(&id1)), abs_ref.jmat);
    assert_eq!(unfmat(&ymat_tape.mul_left(&id1)), abs_ref.ymat);

    let z = abs_tape.z();
    let z_abs: Vec<Vec<F64>> = z.iter().map(|v| vec![F64(v.0.abs())]).collect();
    let l_zabs = lmat_tape.mul_right(&z_abs, 1);
    let a: Vec<f64> = (0..2).map(|i| z[i].0 - l_zabs[i][0].0).collect();
    assert_eq!(a, abs_ref.a);

    let y_zabs = ymat_tape.mul_right(&z_abs, 1);
    let b = vec![-y_zabs[0][0].0];
    assert_eq!(b, abs_ref.b);
}

#[test]
fn halfpipe_function() {
    for x1 in (0..10).map(|i| (i as f64) * 0.5) {
        for x2 in (0..10).map(|i| (i as f64) * 0.5) {
            let x = [x1, x2];
            let anf_ref = halfpipe_anf_ref(&x);
            let anf = abs_normal(halfpipe_tape(x[0], x[1]));
            assert_eq!(unfvec(&anf.a), anf_ref.a);
            assert_eq!(unfmat(&anf.zmat), anf_ref.zmat);
            assert_eq!(unfmat(&anf.lmat), anf_ref.lmat);
            assert_eq!(unfvec(&anf.b), anf_ref.b);
            assert_eq!(unfmat(&anf.jmat), anf_ref.jmat);
            assert_eq!(unfmat(&anf.ymat), anf_ref.ymat);
        }
    }
}

// ---------------------------------------------------------------------
// Generalized Jacobian
// ---------------------------------------------------------------------

struct JacRef {
    homogenous: Vec<Vec<f64>>,
    inhomogenous: Vec<f64>,
    multiplicity: usize,
}

fn halfpipe_jacobian_ref(x: &[f64], dx: &[f64]) -> JacRef {
    let anf = halfpipe_anf_ref(x);

    let dz0 = anf.a[0] + anf.zmat[0][0] * dx[0];
    let dz1 = anf.a[1] + anf.zmat[1][0] * dx[0] + anf.zmat[1][1] * dx[1]
        + anf.lmat[1][0] * dz0.abs();

    let mut multiplicity = 0usize;
    let s0 = if dz0 < 0.0 {
        -1.0
    } else if dz0 > 0.0 {
        1.0
    } else {
        multiplicity += 1;
        -1.0
    };
    let s1 = if dz1 < 0.0 {
        -1.0
    } else if dz1 > 0.0 {
        1.0
    } else {
        multiplicity += 1;
        -1.0
    };

    // amat = (I - L * diag(s))^-1 for the lower-triangular 2x2 case
    let ls = [[anf.lmat[0][0] * s0, anf.lmat[0][1] * s1], [
        anf.lmat[1][0] * s0,
        anf.lmat[1][1] * s1,
    ]];
    let m = [[1.0 - ls[0][0], -ls[0][1]], [-ls[1][0], 1.0 - ls[1][1]]];
    let det = m[0][0] * m[1][1] - m[0][1] * m[1][0];
    let amat = [[m[1][1] / det, -m[0][1] / det], [-m[1][0] / det, m[0][0] / det]];

    // ys = Y * diag(s); ysa = ys * amat
    let ys = [anf.ymat[0][0] * s0, anf.ymat[0][1] * s1];
    let ysa = [
        ys[0] * amat[0][0] + ys[1] * amat[1][0],
        ys[0] * amat[0][1] + ys[1] * amat[1][1],
    ];
    let homogenous = vec![vec![
        anf.jmat[0][0] + (ysa[0] * anf.zmat[0][0] + ysa[1] * anf.zmat[1][0]),
        anf.jmat[0][1] + (ysa[0] * anf.zmat[0][1] + ysa[1] * anf.zmat[1][1]),
    ]];
    let inhomogenous = vec![anf.b[0] + (ysa[0] * anf.a[0] + ysa[1] * anf.a[1])];

    JacRef { homogenous, inhomogenous, multiplicity }
}

fn assert_jac_eq(jac: &GeneralizedJacobian<F64>, jac_ref: &JacRef) {
    assert_eq!(unfmat(&jac.homogenous), jac_ref.homogenous);
    assert_eq!(unfvec(&jac.inhomogenous), jac_ref.inhomogenous);
    assert_eq!(jac.multiplicity, jac_ref.multiplicity);
}

#[test]
fn halfpipe_function_tape() {
    for x1 in (0..10).map(|i| (i as f64) * 0.5) {
        for x2 in (0..10).map(|i| (i as f64) * 0.5) {
            for dx1 in (0..2).map(|i| (i as f64) * 0.5) {
                for dx2 in (0..2).map(|i| (i as f64) * 0.5) {
                    let jac_ref = halfpipe_jacobian_ref(&[x1, x2], &[dx1, dx2]);
                    let tape = halfpipe_tape(x1, x2);
                    let jac =
                        generalized_jacobian_tape(tape, &fvec(&[dx1, dx2]), &vec![0], None);
                    assert_jac_eq(&jac, &jac_ref);
                }
            }
        }
    }
}

#[test]
fn halfpipe_function_with_next() {
    for x1 in (0..10).map(|i| (i as f64) * 0.5) {
        for x2 in (0..10).map(|i| (i as f64) * 0.5) {
            for dx1 in (0..2).map(|i| (i as f64) * 0.5) {
                for dx2 in (0..2).map(|i| (i as f64) * 0.5) {
                    let next = GeneralizedJacobian {
                        homogenous: vec![fvec(&[1.0])],
                        inhomogenous: fvec(&[0.0]),
                        multiplicity: 0,
                    };
                    let jac_ref = halfpipe_jacobian_ref(&[x1, x2], &[dx1, dx2]);
                    let tape = halfpipe_tape(x1, x2);
                    let jac = generalized_jacobian_tape(
                        tape,
                        &fvec(&[dx1, dx2]),
                        &vec![0],
                        Some(next),
                    );
                    assert_jac_eq(&jac, &jac_ref);
                }
            }
        }
    }
}

/// The two halves of the halfpipe function, as a chain.
struct HalfpipeChain;

impl Chain<F64> for HalfpipeChain {
    // Ghost members, never run.
    fn len_spec(&self) -> nat {
        unreachable!()
    }
    fn n_spec(&self, _idx: int) -> nat {
        unreachable!()
    }
    fn m_spec(&self, _idx: int) -> nat {
        unreachable!()
    }
    fn eval_duals_spec(&self, _idx: int, _x: Seq<(F64, F64)>) -> Seq<(F64, F64)> {
        unreachable!()
    }

    fn len(&self) -> usize {
        2
    }
    fn n(&self, _idx: usize) -> usize {
        2
    }
    fn m(&self, idx: usize) -> usize {
        if idx == 0 {
            2
        } else {
            1
        }
    }
    fn tape_at(&self, idx: usize, x: &Vec<F64>) -> advantage::ATape<F64> {
        advantage::function::tape_of_link(self, idx, x)
    }
    fn eval(&self, idx: usize, ctx: &mut AContext<F64>, x: Vec<AFloat<F64>>) -> Vec<AFloat<F64>> {
        if idx == 0 {
            // [max(x0, 0), x1^2]
            let m = record_max(ctx, x[0], 0.0);
            let sq = ctx.record_op(OpCode::Mul, x[1], Some(x[1]));
            vec![m, sq]
        } else {
            // [max(x1 - x0, 0)]
            let d = ctx.record_op(OpCode::Sub, x[1], Some(x[0]));
            vec![record_max(ctx, d, 0.0)]
        }
    }
}

fn halfpipe_f64(x: &[f64]) -> f64 {
    (x[1] * x[1] - x[0].max(0.0)).max(0.0)
}

#[test]
fn halfpipe_function_chain() {
    let chain = HalfpipeChain;
    for x1 in (0..10).map(|i| (i as f64) * 0.5) {
        for x2 in (0..10).map(|i| (i as f64) * 0.5) {
            for dx1 in (0..2).map(|i| (i as f64) * 0.5) {
                for dx2 in (0..2).map(|i| (i as f64) * 0.5) {
                    let x = [x1, x2];
                    let val_ref = halfpipe_f64(&x);
                    let mid = [x[0].max(0.0), x[1] * x[1]];
                    let val = (mid[1] - mid[0]).max(0.0);
                    let jac_ref = halfpipe_jacobian_ref(&x, &[dx1, dx2]);
                    let jac = generalized_jacobian_chain(
                        &chain,
                        fvec(&[x1, x2]),
                        fvec(&[dx1, dx2]),
                        None,
                    );
                    assert_eq!(val, val_ref);
                    assert_jac_eq(&jac, &jac_ref);
                }
            }
        }
    }
}

/// A two-variable function with a single kink: `max(x0, 0) + x1`.
fn single_kink_tape(x0: f64, x1: f64) -> ATape<F64> {
    let mut ctx: AContext<F64> = AContext::new(0);
    let mut a = AFloat::new(F64(x0), F64(0.0));
    let mut b = AFloat::new(F64(x1), F64(0.0));
    ctx.set_indep(&mut a);
    ctx.set_indep(&mut b);
    let m = record_max(&mut ctx, a, 0.0);
    let y = ctx.record_op(OpCode::Add, m, Some(b));
    ctx.set_dep(&y);
    ctx.tape()
}

/// An exact zero-valued kink is sign-ambiguous: the multiplicity reports
/// it and the supplied sign bit selects the one-sided Jacobian.
#[test]
fn single_zero_kink_sides() {
    let dx = fvec(&[0.0, 0.0]);

    let right = generalized_jacobian_tape(single_kink_tape(0.0, 1.0), &dx, &vec![1], None);
    assert_eq!(right.multiplicity, 1);
    assert_eq!(unfmat(&right.homogenous), vec![vec![1.0, 1.0]]);

    let left = generalized_jacobian_tape(single_kink_tape(0.0, 1.0), &dx, &vec![0], None);
    assert_eq!(left.multiplicity, 1);
    assert_eq!(unfmat(&left.homogenous), vec![vec![0.0, 1.0]]);

    // Away from the kink there is nothing to resolve.
    let smooth = generalized_jacobian_tape(single_kink_tape(2.0, 1.0), &dx, &vec![0], None);
    assert_eq!(smooth.multiplicity, 0);
    assert_eq!(unfmat(&smooth.homogenous), vec![vec![1.0, 1.0]]);
}

/// The kink structure of the two-input one-output function `max(x0, 0)`:
/// the single kink reads the first input directly (`Z` row `[1, 0]`) and
/// feeds no other kink (`L == [[0]]`).
#[test]
fn kink_structure_rows() {
    let mut ctx: AContext<F64> = AContext::new(0);
    let mut a = AFloat::new(F64(1.0), F64(0.0));
    let mut b = AFloat::new(F64(2.0), F64(0.0));
    ctx.set_indep(&mut a);
    ctx.set_indep(&mut b);
    let m = record_max(&mut ctx, a, 0.0);
    ctx.set_dep(&m);
    let anf = abs_normal(ctx.tape());
    assert_eq!(unfmat(&anf.zmat), vec![vec![1.0, 0.0]]);
    assert_eq!(unfmat(&anf.lmat), vec![vec![0.0]]);
}

// ---------------------------------------------------------------------
// Dense Jacobian drivers
// ---------------------------------------------------------------------

struct Polar;

impl Function<F64> for Polar {
    // Ghost members, never run.
    fn n_spec(&self) -> nat {
        unreachable!()
    }
    fn m_spec(&self) -> nat {
        unreachable!()
    }
    fn eval_duals_spec(&self, _x: Seq<(F64, F64)>) -> Seq<(F64, F64)> {
        unreachable!()
    }

    fn n(&self) -> usize {
        2
    }
    fn m(&self) -> usize {
        2
    }
    fn tape_at(&self, x: &Vec<F64>) -> advantage::ATape<F64> {
        advantage::tape_of(self, x)
    }
    fn eval(&self, ctx: &mut AContext<F64>, x: Vec<AFloat<F64>>) -> Vec<AFloat<F64>> {
        let cphi = ctx.record_op(OpCode::Cos, x[1], None);
        let xx = ctx.record_op(OpCode::Mul, x[0], Some(cphi));
        let sphi = ctx.record_op(OpCode::Sin, x[1], None);
        let yy = ctx.record_op(OpCode::Mul, x[0], Some(sphi));
        vec![xx, yy]
    }
}

fn reference_jacobian(polar: &[f64]) -> Vec<Vec<f64>> {
    let r = polar[0];
    let phi = polar[1];
    vec![vec![phi.cos(), -r * phi.sin()], vec![phi.sin(), r * phi.cos()]]
}

#[test]
fn jacobian_forward_polar() {
    let polar = [2.0, std::f64::consts::PI];
    let reference = reference_jacobian(&polar);
    let jacobian = jacobian_forward(&Polar, &fvec(&polar));
    assert_eq!(unfmat(&jacobian), reference);
}

#[test]
fn jacobian_reverse_polar() {
    let mut tape = advantage::tape_of(&Polar, &fvec(&[0.0, 0.0]));
    let polar = [2.0, std::f64::consts::PI];
    tape.zero_order(&fvec(&polar));

    let reference = reference_jacobian(&polar);
    let jacobian = jacobian_reverse(&tape);
    assert_eq!(unfmat(&jacobian), reference);
}

/// Vector-valued recording helpers and tape accessors.
#[test]
fn tape_accessors() {
    let mut ctx: AContext<F64> = AContext::new(0);
    let input = ctx.new_indep_vec(2, F64(1.5));
    let sum = ctx.record_op(OpCode::Add, input[0], Some(input[1]));
    let prod = ctx.record_op(OpCode::Mul, input[0], Some(input[1]));
    ctx.set_dep_slice(&vec![sum, prod]);
    assert_eq!(ctx.cid(), 0);

    let mut tape = ctx.tape();
    assert_eq!(tape.num_indeps(), 2);
    assert_eq!(tape.num_deps(), 2);
    assert_eq!(tape.num_abs(), 0);
    assert_eq!(tape.max_id(), 3);
    assert_eq!(unfvec(&tape.x()), vec![1.5, 1.5]);
    assert_eq!(unfvec(&tape.y()), vec![3.0, 2.25]);

    tape.zero_order(&fvec(&[2.0, 3.0]));
    assert_eq!(unfvec(&tape.x()), vec![2.0, 3.0]);
    assert_eq!(unfvec(&tape.y()), vec![5.0, 6.0]);

    tape.values_mut()[0] = F64(4.0);
    assert_eq!(unfvec(&tape.x()), vec![4.0, 3.0]);
}

/// Forward/reverse duality on a smooth tape: the directional derivative
/// equals each adjoint row dotted with the direction.
#[test]
fn forward_reverse_duality() {
    let mut tape = advantage::tape_of(&Polar, &fvec(&[0.0, 0.0]));
    tape.zero_order(&fvec(&[1.5, 0.7]));
    let dx = [0.3, 0.7];
    let dy = tape.first_order_forward(&fvec(&dx));
    for i in 0..2 {
        let mut seed = vec![0.0, 0.0];
        seed[i] = 1.0;
        let xbar = tape.first_order_reverse(&fvec(&seed));
        let dot = xbar[0].0 * dx[0] + xbar[1].0 * dx[1];
        assert!((dot - dy[i].0).abs() < 1e-12);
    }
}
