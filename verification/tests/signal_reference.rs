//! Formulas against a slow recomputation: every value is derived afresh, by scans, in the decimals of
//! `rust_decimal`, over seeded random trees and series.

use quant_engine::decimal::{Dec, Reading};
use quant_engine::domain::{Bar, Price, Qty, Resolution, Timestamp};
use quant_engine::signal::bars::Sample;
use quant_engine::signal::expr::{max_lookback, BinOp, Expr, Field, Period, UnOp, WinOp};
use quant_engine::signal::reference::eval_stream;
use rust_decimal::{Decimal, MathematicalOps};

const CASES: u64 = 256;
const SERIES_LEN: usize = 64;
const MASTER_SEED: u64 = 0x5145_3435_3100_0001;
const MIN: i64 = 60_000;

struct Rng(u64);

impl Rng {
    fn next(&mut self) -> u64 {
        self.0 = self.0.wrapping_add(0x9E37_79B9_7F4A_7C15);
        let mut z = self.0;
        z = (z ^ (z >> 30)).wrapping_mul(0xBF58_476D_1CE4_E5B9);
        z = (z ^ (z >> 27)).wrapping_mul(0x94D0_49BB_1331_11EB);
        z ^ (z >> 31)
    }

    fn below(&mut self, n: u64) -> u64 {
        self.next() % n.max(1)
    }
}

fn derived(master: u64, i: u64) -> u64 {
    let mut r = Rng(master ^ i.wrapping_mul(0x9E37_79B9_7F4A_7C15));
    r.next();
    r.0
}

fn rand_field(rng: &mut Rng) -> Field {
    match rng.below(5) {
        0 => Field::Close,
        1 => Field::High,
        2 => Field::Low,
        3 => Field::Volume,
        _ => Field::Typical,
    }
}

fn rand_unop(rng: &mut Rng) -> UnOp {
    match rng.below(3) {
        0 => UnOp::Abs,
        1 => UnOp::Sign,
        _ => UnOp::Neg,
    }
}

fn rand_binop(rng: &mut Rng) -> BinOp {
    match rng.below(4) {
        0 => BinOp::Add,
        1 => BinOp::Sub,
        2 => BinOp::Mul,
        _ => BinOp::Div,
    }
}

fn rand_winop(rng: &mut Rng) -> WinOp {
    match rng.below(7) {
        0 => WinOp::Mean,
        1 => WinOp::Max,
        2 => WinOp::Min,
        3 => WinOp::Std,
        4 => WinOp::MeanAbsDev,
        5 => WinOp::Delta,
        _ => WinOp::Lag,
    }
}

/// A small constant from -5.00 to 5.00.
fn rand_const(rng: &mut Rng) -> Dec {
    Dec::scaled(rng.below(1001) as i64 - 500, 2)
}

/// Every leaf is an input, except the constants that stand right of a point-wise operator.
fn random_tree(rng: &mut Rng, depth: u32) -> Expr {
    if depth == 0 {
        return Expr::Input(rand_field(rng));
    }
    match rng.below(5) {
        0 => Expr::Input(rand_field(rng)),
        1 => Expr::Unary(rand_unop(rng), Box::new(random_tree(rng, depth - 1))),
        2 => Expr::Binary(
            rand_binop(rng),
            Box::new(random_tree(rng, depth - 1)),
            Box::new(random_tree(rng, depth - 1)),
        ),
        3 => {
            let cap = 2 + rng.below(5) as Period;
            Expr::Window(rand_winop(rng), Box::new(random_tree(rng, depth - 1)), cap)
        }
        _ => Expr::Binary(
            rand_binop(rng),
            Box::new(random_tree(rng, depth - 1)),
            Box::new(Expr::Const(rand_const(rng))),
        ),
    }
}

fn random_series(rng: &mut Rng) -> Vec<Sample> {
    (0..SERIES_LEN)
        .map(|i| {
            let k = i as i64;
            let base = 100 + rng.below(50) as i64;
            let high = base + 1 + rng.below(10) as i64;
            let low = base - 1 - rng.below(10) as i64;
            let close = low + rng.below((high - low).max(1) as u64) as i64;
            let price = |n: i64| Price::new(Dec::from_int(n)).unwrap();
            Sample::from_bar(
                Bar::new(
                    Timestamp::from_millis(k * 5 * MIN),
                    Resolution::M5,
                    price(base),
                    price(high),
                    price(low),
                    price(close),
                    Qty::new(Dec::from_int(1 + rng.below(100) as i64)).unwrap(),
                    1,
                )
                .unwrap(),
            )
        })
        .collect()
}

/// Which mistake, if any, the recomputation makes.
#[derive(Clone, Copy, PartialEq, Eq)]
enum Mistake {
    Nothing,
    WindowTooWide,
}

fn decimal(x: Dec) -> Decimal {
    Decimal::from_i128_with_scale(x.mantissa(), x.scale())
}

fn field_value(field: Field, sample: &Sample) -> Decimal {
    let b = &sample.bar;
    match field {
        Field::Close => decimal(b.close().get()),
        Field::High => decimal(b.high().get()),
        Field::Low => decimal(b.low().get()),
        Field::Volume => decimal(b.volume().get()),
        Field::Typical => {
            (decimal(b.high().get()) + decimal(b.low().get()) + decimal(b.close().get()))
                / Decimal::from(3)
        }
    }
}

fn apply_unary(op: UnOp, v: Decimal) -> Decimal {
    match op {
        UnOp::Abs => v.abs(),
        UnOp::Neg => -v,
        UnOp::Sign => {
            if v.is_zero() {
                Decimal::ZERO
            } else if v.is_sign_positive() {
                Decimal::ONE
            } else {
                -Decimal::ONE
            }
        }
    }
}

fn apply_binary(op: BinOp, x: Decimal, y: Decimal) -> Decimal {
    let eps = Decimal::new(1, 9);
    match op {
        BinOp::Add => x + y,
        BinOp::Sub => x - y,
        BinOp::Mul => x * y,
        BinOp::Div => {
            if y.abs() < eps {
                Decimal::ZERO
            } else {
                x / y
            }
        }
    }
}

fn aggregate(op: WinOp, vals: &[Decimal]) -> Option<Decimal> {
    if vals.is_empty() {
        return None;
    }
    let n = Decimal::from(vals.len());
    match op {
        WinOp::Mean => Some(vals.iter().copied().sum::<Decimal>() / n),
        WinOp::Max => vals.iter().copied().max(),
        WinOp::Min => vals.iter().copied().min(),
        WinOp::Std => {
            let mean = vals.iter().copied().sum::<Decimal>() / n;
            let var = vals
                .iter()
                .map(|&v| (v - mean) * (v - mean))
                .sum::<Decimal>()
                / n;
            var.sqrt()
        }
        WinOp::MeanAbsDev => {
            let mean = vals.iter().copied().sum::<Decimal>() / n;
            Some(vals.iter().map(|&v| (v - mean).abs()).sum::<Decimal>() / n)
        }
        WinOp::Delta => Some(*vals.last()? - *vals.first()?),
        WinOp::Lag => vals.first().copied(),
    }
}

fn reference_eval(expr: &Expr, samples: &[Sample], t: usize, slip: Mistake) -> Option<Decimal> {
    match expr {
        Expr::Input(f) => Some(field_value(*f, &samples[t])),
        Expr::Const(c) => Some(decimal(*c)),
        Expr::Unary(op, child) => {
            reference_eval(child, samples, t, slip).map(|v| apply_unary(*op, v))
        }
        Expr::Binary(op, a, b) => {
            match (
                reference_eval(a, samples, t, slip),
                reference_eval(b, samples, t, slip),
            ) {
                (Some(x), Some(y)) => Some(apply_binary(*op, x, y)),
                _ => None,
            }
        }
        Expr::Window(op, child, cap) => {
            if t + 1 < max_lookback(expr) {
                return None;
            }
            let span = match slip {
                Mistake::Nothing => *cap,
                Mistake::WindowTooWide => *cap + 1,
            };
            let start = (t + 1).saturating_sub(span);
            let mut vals = Vec::with_capacity(span);
            for i in start..=t {
                if let Some(v) = reference_eval(child, samples, i, slip) {
                    vals.push(v);
                }
            }
            aggregate(*op, &vals)
        }
    }
}

fn reference_stream(expr: &Expr, samples: &[Sample], slip: Mistake) -> Vec<Option<Decimal>> {
    (0..samples.len())
        .map(|t| reference_eval(expr, samples, t, slip))
        .collect()
}

fn streamed(expr: &Expr, samples: &[Sample]) -> Vec<Option<Decimal>> {
    eval_stream(expr, samples)
        .into_iter()
        .map(|r| match r {
            Reading::Value(x) => Some(decimal(x)),
            Reading::Undefined => None,
            Reading::Fault => panic!("out of range"),
        })
        .collect()
}

#[test]
fn expr_interpreter_matches_slow_reference_over_seeded_random_trees() {
    let mut non_vacuous = 0u64;
    for i in 0..CASES {
        let mut rng = Rng(derived(MASTER_SEED, i));
        let expr = random_tree(&mut rng, 3);
        let samples = random_series(&mut rng);

        let streaming = streamed(&expr, &samples);
        let reference = reference_stream(&expr, &samples, Mistake::Nothing);

        assert_eq!(
            streaming, reference,
            "case {i}: streaming interpreter != independent reference for {expr:?}"
        );
        if streaming.iter().any(Option::is_some) {
            non_vacuous += 1;
        }
    }
    assert!(
        non_vacuous > CASES / 2,
        "corpus too weak: only {non_vacuous}/{CASES} cases produced any value"
    );
}

#[test]
fn slow_reference_oracle_is_non_vacuous_mutation_guard() {
    let mut caught = false;
    for i in 0..CASES {
        let mut rng = Rng(derived(MASTER_SEED ^ 0xF0, i));
        let expr = random_tree(&mut rng, 3);
        let samples = random_series(&mut rng);

        let streaming = streamed(&expr, &samples);
        let reference = reference_stream(&expr, &samples, Mistake::Nothing);
        let mutant = reference_stream(&expr, &samples, Mistake::WindowTooWide);

        assert_eq!(
            streaming, reference,
            "reference must track the real interpreter (case {i})"
        );
        if reference != mutant {
            caught = true;
        }
    }
    assert!(
        caught,
        "mutation guard vacuous: a window off-by-one was never caught by the reference"
    );
}

#[test]
fn out_of_range_values_are_reported() {
    let big = Dec::new(79_228_162_514_264_337_593_543_950_335, 0).unwrap();
    let expr = Expr::Binary(
        BinOp::Mul,
        Box::new(Expr::Const(big)),
        Box::new(Expr::Input(Field::Close)),
    );
    let samples = random_series(&mut Rng(7));
    assert!(eval_stream(&expr, &samples)
        .iter()
        .all(|r| *r == Reading::Fault));
}
