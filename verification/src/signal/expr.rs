//! Indicator formulas as expression trees, and the interpreter that folds one bar at a time.
//!
//! An [`Expr`] reads the current bar at its leaves and looks back only through finite windows. It is
//! compiled to a tree of windows ([`Node`]) that is advanced by one bar per step. [`reading_at`] says
//! what a formula means without any state, from the whole history; the laws at the end of the module
//! say that the interpreter agrees with it, that a formula becomes defined exactly at its declared
//! lookback, and that nothing older than the lookback has any influence.

use vstd::prelude::*;

use crate::decimal::{
    dec_lt, decimal_difference, decimal_product, decimal_quotient, decimal_sum, lemma_of, lemma_wf,
    magnitude, minus, over, plus, pow10, read_result, reading, subtract_results, times, Dec,
    Reading,
};
use crate::signal::bars::{typical_price, typical_price_of, Sample};
use crate::signal::roll::{
    largest, last_n, smallest, window_mean, window_mean_abs_dev, window_std, Roll,
};

verus! {

/// A price or volume read from the current bar.
#[derive(Debug, Clone, Copy, PartialEq, Eq, Structural)]
pub enum Field {
    /// The close.
    Close,
    /// The high.
    High,
    /// The low.
    Low,
    /// The volume.
    Volume,
    /// The typical price, `(high + low + close) / 3`.
    Typical,
}

/// A point-wise operator on one value.
#[derive(Debug, Clone, Copy, PartialEq, Eq, Structural)]
pub enum UnOp {
    /// Absolute value.
    Abs,
    /// Sign: -1, 0 or 1.
    Sign,
    /// Negation.
    Neg,
}

/// A point-wise operator on two values.
#[derive(Debug, Clone, Copy, PartialEq, Eq, Structural)]
pub enum BinOp {
    /// Addition.
    Add,
    /// Subtraction.
    Sub,
    /// Multiplication.
    Mul,
    /// Protected division: a divisor closer to zero than `1e-9` gives 0.
    Div,
}

/// An operator over a trailing window.
#[derive(Debug, Clone, Copy, PartialEq, Eq, Structural)]
pub enum WinOp {
    /// Arithmetic mean.
    Mean,
    /// Maximum.
    Max,
    /// Minimum.
    Min,
    /// Population standard deviation.
    Std,
    /// Mean absolute deviation from the mean.
    MeanAbsDev,
    /// Newest value less the oldest.
    Delta,
    /// The oldest value.
    Lag,
}

/// The capacity of a window, in bars. For the temporal operators `Lag` and `Delta` over `k` bars it
/// is `k + 1`.
pub type Period = usize;

/// A formula with finite lookback.
#[derive(Debug, PartialEq, Eq)]
pub enum Expr {
    /// A field of the current bar.
    Input(Field),
    /// A constant.
    Const(Dec),
    /// An operator applied to a formula.
    Unary(UnOp, Box<Expr>),
    /// An operator applied to two formulas.
    Binary(BinOp, Box<Expr>, Box<Expr>),
    /// An operator over a trailing window of a formula's values.
    Window(WinOp, Box<Expr>, Period),
}

impl Clone for Expr {
    fn clone(&self) -> (r: Expr)
        ensures
            r == *self,
        decreases self,
    {
        match self {
            Expr::Input(f) => Expr::Input(*f),
            Expr::Const(c) => Expr::Const(*c),
            Expr::Unary(op, c) => Expr::Unary(*op, Box::new((&**c).clone())),
            Expr::Binary(op, a, b) => Expr::Binary(
                *op,
                Box::new((&**a).clone()),
                Box::new((&**b).clone()),
            ),
            Expr::Window(op, c, cap) => Expr::Window(*op, Box::new((&**c).clone()), *cap),
        }
    }
}

/// The number of most recent bars a formula's latest value depends on.
pub open spec fn lookback(e: Expr) -> nat
    decreases e,
{
    match e {
        Expr::Input(_) => 1,
        Expr::Const(_) => 0,
        Expr::Unary(_, c) => lookback(*c),
        Expr::Binary(_, a, b) => if lookback(*a) >= lookback(*b) {
            lookback(*a)
        } else {
            lookback(*b)
        },
        Expr::Window(_, c, cap) => (window_len(cap) - 1 + lookback(*c)) as nat,
    }
}

/// How many values a window of this capacity holds: at least one.
pub open spec fn window_len(cap: Period) -> int {
    if cap == 0 {
        1
    } else {
        cap as int
    }
}

/// The number of most recent bars the latest value of `expr` depends on.
pub fn max_lookback(expr: &Expr) -> (r: usize)
    requires
        lookback(*expr) <= usize::MAX,
    ensures
        r == lookback(*expr),
    decreases expr,
{
    match expr {
        Expr::Input(_) => 1,
        Expr::Const(_) => 0,
        Expr::Unary(_, c) => max_lookback(c),
        Expr::Binary(_, a, b) => {
            let x: usize = max_lookback(a);
            let y: usize = max_lookback(b);
            if x >= y {
                x
            } else {
                y
            }
        },
        Expr::Window(_, c, cap) => {
            let inner: usize = max_lookback(c);
            if *cap == 0 {
                inner
            } else {
                *cap - 1 + inner
            }
        },
    }
}

// ---- what the operators compute ------------------------------------------------------------------

/// The value of a field of a sample's bar.
pub open spec fn field_value(field: Field, sample: Sample) -> Option<Dec> {
    match field {
        Field::Close => Some(sample.bar@.close),
        Field::High => Some(sample.bar@.high),
        Field::Low => Some(sample.bar@.low),
        Field::Volume => Some(sample.bar@.volume),
        Field::Typical => typical_price(sample.bar@),
    }
}

/// What a unary operator makes of a number.
pub open spec fn unary_value(op: UnOp, v: Dec) -> Dec {
    match op {
        UnOp::Abs => Dec::of(magnitude(v.m()), v.s()),
        UnOp::Neg => Dec::of(-v.m(), v.s()),
        UnOp::Sign => if v.m() == 0 {
            Dec::whole(0)
        } else if v.m() > 0 {
            Dec::whole(1)
        } else {
            Dec::whole(-1)
        },
    }
}

/// What a binary operator makes of two numbers.
pub open spec fn binary_value(op: BinOp, x: Dec, y: Dec) -> Option<Dec> {
    match op {
        BinOp::Add => plus(Some(x), Some(y)),
        BinOp::Sub => minus(Some(x), Some(y)),
        BinOp::Mul => times(Some(x), Some(y)),
        BinOp::Div => if dec_lt(Dec::of(magnitude(y.m()), y.s()), Dec::of(1, 9)) {
            Some(Dec::whole(0))
        } else {
            over(Some(x), Some(y))
        },
    }
}

/// What a unary operator makes of a reading.
pub open spec fn unary_reading(op: UnOp, v: Reading) -> Reading {
    match v {
        Reading::Value(x) => Reading::Value(unary_value(op, x)),
        other => other,
    }
}

/// What a binary operator makes of two readings.
pub open spec fn binary_reading(op: BinOp, a: Reading, b: Reading) -> Reading {
    if a is Fault || b is Fault {
        Reading::Fault
    } else {
        match (a, b) {
            (Reading::Value(x), Reading::Value(y)) => reading(binary_value(op, x, y)),
            _ => Reading::Undefined,
        }
    }
}

/// What a window operator makes of a full window, oldest value first. A full window always has a
/// value, unless a number on the way is out of range.
pub open spec fn aggregate(op: WinOp, w: Seq<Dec>) -> Reading {
    let v = match op {
        WinOp::Mean => window_mean(w),
        WinOp::Max => Reading::Value(largest(w)),
        WinOp::Min => Reading::Value(smallest(w)),
        WinOp::Std => window_std(w),
        WinOp::MeanAbsDev => window_mean_abs_dev(w),
        WinOp::Delta => reading(minus(Some(w.last()), Some(w.first()))),
        WinOp::Lag => Reading::Value(w.first()),
    };
    if v is Undefined {
        Reading::Fault
    } else {
        v
    }
}

/// Division is protected: by a number closer to zero than a billionth it gives zero, by any other it is the
/// quotient, dividend first. The other operators are what they are called, first operand first.
pub proof fn law_binary_operators(x: Dec, y: Dec)
    requires
        y.wf(),
    ensures
        ({
            let small = -1_000_000_000 * y.m() < pow10(y.s()) && 1_000_000_000 * y.m() < pow10(
                y.s(),
            );
            &&& small ==> binary_value(BinOp::Div, x, y) == Some(Dec::whole(0))
            &&& !small ==> binary_value(BinOp::Div, x, y) == decimal_quotient(x, y)
        }),
        binary_value(BinOp::Add, x, y) == decimal_sum(x, y),
        binary_value(BinOp::Sub, x, y) == decimal_difference(x, y),
        binary_value(BinOp::Mul, x, y) == decimal_product(x, y),
{
    lemma_wf(y);
    lemma_of(1, 9);
    lemma_of(magnitude(y.m()), y.s());
    assert(pow10(9) == 1_000_000_000) by {
        reveal_with_fuel(pow10, 10);
    }
    assert(magnitude(y.m()) * pow10(9) == 1_000_000_000 * magnitude(y.m())) by (nonlinear_arith)
        requires
            pow10(9) == 1_000_000_000,
    ;
}

/// The absolute value of a number is not negative and the number or its opposite; the opposite of the
/// opposite is the number; a sign is that of the number.
pub proof fn law_unary_operators(v: Dec)
    requires
        v.wf(),
    ensures
        unary_value(UnOp::Abs, v).m() >= 0,
        unary_value(UnOp::Abs, v).m() == v.m() || unary_value(UnOp::Abs, v).m() == -v.m(),
        unary_value(UnOp::Neg, v).m() == -v.m(),
        unary_value(UnOp::Abs, v).s() == v.s(),
        unary_value(UnOp::Neg, v).s() == v.s(),
        v.m() > 0 ==> unary_value(UnOp::Sign, v) == Dec::whole(1),
        v.m() == 0 ==> unary_value(UnOp::Sign, v) == Dec::whole(0),
        v.m() < 0 ==> unary_value(UnOp::Sign, v) == Dec::whole(-1),
{
    lemma_wf(v);
    lemma_of(magnitude(v.m()), v.s());
    lemma_of(-v.m(), v.s());
}

/// A window's lag is its oldest value, its change the newest less the oldest, its maximum one of its values
/// that none is above, and its minimum one that none is below.
pub proof fn law_window_operators(w: Seq<Dec>)
    requires
        w.len() > 0,
        forall|i: int| 0 <= i < w.len() ==> (#[trigger] w[i]).wf(),
    ensures
        aggregate(WinOp::Lag, w) == Reading::Value(w[0]),
        decimal_difference(w[w.len() - 1], w[0]) matches Some(x) ==> aggregate(WinOp::Delta, w)
            == Reading::Value(x),
        aggregate(WinOp::Max, w) matches Reading::Value(x) && w.contains(x) && forall|i: int|
            0 <= i < w.len() ==> !dec_lt(x, #[trigger] w[i]),
        aggregate(WinOp::Min, w) matches Reading::Value(x) && w.contains(x) && forall|i: int|
            0 <= i < w.len() ==> !dec_lt(#[trigger] w[i], x),
        crate::decimal::mean(w) matches Some(x) ==> aggregate(WinOp::Mean, w) == Reading::Value(x),
{
    crate::signal::roll::law_largest_is_maximum(w);
    crate::signal::roll::law_smallest_is_minimum(w);
}

fn field_value_of(field: Field, sample: &Sample) -> (r: Option<Dec>)
    ensures
        r == field_value(field, *sample),
{
    match field {
        Field::Close => Some(sample.bar.close().get()),
        Field::High => Some(sample.bar.high().get()),
        Field::Low => Some(sample.bar.low().get()),
        Field::Volume => Some(sample.bar.volume().get()),
        Field::Typical => typical_price_of(&sample.bar),
    }
}

fn apply_unary(op: UnOp, v: Dec) -> (r: Dec)
    ensures
        r == unary_value(op, v),
{
    match op {
        UnOp::Abs => v.abs(),
        UnOp::Neg => v.negated(),
        UnOp::Sign => {
            if v.is_zero() {
                Dec::from_int(0)
            } else if v.is_negative() {
                Dec::from_int(-1)
            } else {
                Dec::from_int(1)
            }
        },
    }
}

fn apply_binary(op: BinOp, x: Dec, y: Dec) -> (r: Option<Dec>)
    ensures
        r == binary_value(op, x, y),
{
    match op {
        BinOp::Add => x.checked_add(y),
        BinOp::Sub => x.checked_sub(y),
        BinOp::Mul => x.checked_mul(y),
        BinOp::Div => {
            if y.abs().less_than(Dec::scaled(1, 9)) {
                Some(Dec::from_int(0))
            } else {
                x.checked_div(y)
            }
        },
    }
}

fn aggregate_of(op: WinOp, roll: &Roll) -> (r: Reading)
    requires
        roll@.len() > 0,
    ensures
        r == aggregate(op, roll@),
{
    match op {
        WinOp::Mean => roll.mean(),
        WinOp::Max => match roll.max() {
            Some(x) => Reading::Value(x),
            None => Reading::Fault,
        },
        WinOp::Min => match roll.min() {
            Some(x) => Reading::Value(x),
            None => Reading::Fault,
        },
        WinOp::Std => roll.std_pop(),
        WinOp::MeanAbsDev => roll.mean_abs_dev(),
        WinOp::Delta => read_result(subtract_results(roll.last(), roll.first())),
        WinOp::Lag => match roll.first() {
            Some(x) => Reading::Value(x),
            None => Reading::Fault,
        },
    }
}

// ---- the compiled tree ---------------------------------------------------------------------------

/// A compiled formula: the shape of an [`Expr`], each window holding its live values.
#[derive(Debug)]
pub enum Node {
    /// A field of the current bar.
    Input(Field),
    /// A constant.
    Const(Dec),
    /// An operator applied to a node.
    Unary(UnOp, Box<Node>),
    /// An operator applied to two nodes.
    Binary(BinOp, Box<Node>, Box<Node>),
    /// An operator over a window of a node's values.
    Window(WinOp, Box<Node>, Roll),
}

/// What a [`Node`] holds.
pub enum NodeModel {
    /// A field of the current bar.
    Input(Field),
    /// A constant.
    Const(Dec),
    /// An operator applied to a node.
    Unary(UnOp, Box<NodeModel>),
    /// An operator applied to two nodes.
    Binary(BinOp, Box<NodeModel>, Box<NodeModel>),
    /// An operator over a window of a node's values, and the window's capacity.
    Window(WinOp, Box<NodeModel>, Seq<Dec>, int),
}

impl Node {
    /// What the node holds.
    pub open spec fn model(self) -> NodeModel
        decreases self,
    {
        match self {
            Node::Input(f) => NodeModel::Input(f),
            Node::Const(c) => NodeModel::Const(c),
            Node::Unary(op, c) => NodeModel::Unary(op, Box::new((*c).model())),
            Node::Binary(op, a, b) => NodeModel::Binary(
                op,
                Box::new((*a).model()),
                Box::new((*b).model()),
            ),
            Node::Window(op, c, roll) => NodeModel::Window(
                op,
                Box::new((*c).model()),
                roll@,
                roll.capacity(),
            ),
        }
    }
}

/// A freshly compiled formula: every window empty.
pub open spec fn fresh(e: Expr) -> NodeModel
    decreases e,
{
    match e {
        Expr::Input(f) => NodeModel::Input(f),
        Expr::Const(c) => NodeModel::Const(c),
        Expr::Unary(op, c) => NodeModel::Unary(op, Box::new(fresh(*c))),
        Expr::Binary(op, a, b) => NodeModel::Binary(op, Box::new(fresh(*a)), Box::new(fresh(*b))),
        Expr::Window(op, c, cap) => NodeModel::Window(
            op,
            Box::new(fresh(*c)),
            Seq::empty(),
            window_len(cap),
        ),
    }
}

/// The same tree with every window emptied.
pub open spec fn emptied(n: NodeModel) -> NodeModel
    decreases n,
{
    match n {
        NodeModel::Unary(op, c) => NodeModel::Unary(op, Box::new(emptied(*c))),
        NodeModel::Binary(op, a, b) => NodeModel::Binary(
            op,
            Box::new(emptied(*a)),
            Box::new(emptied(*b)),
        ),
        NodeModel::Window(op, c, _, cap) => NodeModel::Window(
            op,
            Box::new(emptied(*c)),
            Seq::empty(),
            cap,
        ),
        other => other,
    }
}

/// A window after a reading of its child: a value is pushed, anything else leaves it as it is.
pub open spec fn window_after(w: Seq<Dec>, cap: int, v: Reading) -> Seq<Dec> {
    match v {
        Reading::Value(x) => last_n(w.push(x), cap),
        _ => w,
    }
}

/// What a window reads once its child has been read.
pub open spec fn window_reading(op: WinOp, w: Seq<Dec>, cap: int, v: Reading) -> Reading {
    if v is Fault {
        Reading::Fault
    } else if w.len() == cap {
        aggregate(op, w)
    } else {
        Reading::Undefined
    }
}

/// One step of the interpreter: the tree after one more bar, and what it reads there. Both children
/// of a binary operator are always stepped, so that every window advances with every bar.
pub open spec fn step(n: NodeModel, sample: Sample) -> (NodeModel, Reading)
    decreases n,
{
    match n {
        NodeModel::Input(f) => (n, reading(field_value(f, sample))),
        NodeModel::Const(c) => (n, Reading::Value(c)),
        NodeModel::Unary(op, c) => {
            let (next, v) = step(*c, sample);
            (NodeModel::Unary(op, Box::new(next)), unary_reading(op, v))
        },
        NodeModel::Binary(op, a, b) => {
            let (next_a, x) = step(*a, sample);
            let (next_b, y) = step(*b, sample);
            (
                NodeModel::Binary(op, Box::new(next_a), Box::new(next_b)),
                binary_reading(op, x, y),
            )
        },
        NodeModel::Window(op, c, w, cap) => {
            let (next, v) = step(*c, sample);
            let after = window_after(w, cap, v);
            (
                NodeModel::Window(op, Box::new(next), after, cap),
                window_reading(op, after, cap, v),
            )
        },
    }
}

/// The tree after a series of bars.
pub open spec fn run(n: NodeModel, samples: Seq<Sample>) -> NodeModel
    decreases samples.len(),
{
    if samples.len() == 0 {
        n
    } else {
        step(run(n, samples.drop_last()), samples.last()).0
    }
}

/// Compiles a formula.
pub fn compile_node(expr: &Expr) -> (r: Node)
    ensures
        r.model() == fresh(*expr),
    decreases expr,
{
    match expr {
        Expr::Input(f) => Node::Input(*f),
        Expr::Const(c) => Node::Const(*c),
        Expr::Unary(op, c) => Node::Unary(*op, Box::new(compile_node(c))),
        Expr::Binary(op, a, b) => Node::Binary(
            *op,
            Box::new(compile_node(a)),
            Box::new(compile_node(b)),
        ),
        Expr::Window(op, c, cap) => Node::Window(*op, Box::new(compile_node(c)), Roll::new(*cap)),
    }
}

/// Advances a compiled formula by one bar. Returns the tree and what it reads there.
pub fn eval(node: Node, sample: &Sample) -> (r: (Node, Reading))
    ensures
        (r.0.model(), r.1) == step(node.model(), *sample),
    decreases node,
{
    match node {
        Node::Input(f) => {
            let v: Reading = read_result(field_value_of(f, sample));
            (Node::Input(f), v)
        },
        Node::Const(c) => (Node::Const(c), Reading::Value(c)),
        Node::Unary(op, c) => {
            let (next, v) = eval(*c, sample);
            let out: Reading = match v {
                Reading::Value(x) => Reading::Value(apply_unary(op, x)),
                other => other,
            };
            (Node::Unary(op, Box::new(next)), out)
        },
        Node::Binary(op, a, b) => {
            let (next_a, x) = eval(*a, sample);
            let (next_b, y) = eval(*b, sample);
            let out: Reading = match (x, y) {
                (Reading::Fault, _) => Reading::Fault,
                (_, Reading::Fault) => Reading::Fault,
                (Reading::Value(u), Reading::Value(v)) => read_result(apply_binary(op, u, v)),
                _ => Reading::Undefined,
            };
            (Node::Binary(op, Box::new(next_a), Box::new(next_b)), out)
        },
        Node::Window(op, c, roll) => {
            let mut roll = roll;
            let cap: usize = roll.cap();
            let (next, v) = eval(*c, sample);
            if let Reading::Value(x) = v {
                roll.push(x);
            }
            let out: Reading = match v {
                Reading::Fault => Reading::Fault,
                _ => {
                    if roll.is_full() {
                        aggregate_of(op, &roll)
                    } else {
                        Reading::Undefined
                    }
                },
            };
            (Node::Window(op, Box::new(next), roll), out)
        },
    }
}

/// Empties every window of a compiled formula.
pub fn clear_node(node: Node) -> (r: Node)
    ensures
        r.model() == emptied(node.model()),
    decreases node,
{
    match node {
        Node::Input(f) => Node::Input(f),
        Node::Const(c) => Node::Const(c),
        Node::Unary(op, c) => Node::Unary(op, Box::new(clear_node(*c))),
        Node::Binary(op, a, b) => Node::Binary(
            op,
            Box::new(clear_node(*a)),
            Box::new(clear_node(*b)),
        ),
        Node::Window(op, c, roll) => {
            let mut roll = roll;
            roll.clear();
            Node::Window(op, Box::new(clear_node(*c)), roll)
        },
    }
}

} // verus!
