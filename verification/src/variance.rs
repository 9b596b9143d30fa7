//! The variance command: population or sample variance of a list of
//! integers, kept as an exact rational.
//!
//! The variance of x1..xn is (n*Σx² − (Σx)²) / n² for the population
//! case and (n*Σx² − (Σx)²) / (n·(n−1)) for the sample case; both are
//! returned as an exact numerator and denominator rather than rounded.

use vstd::prelude::*;

use crate::error::{ErrModel, ShellError};
use crate::pipeline::{pd_items, PipelineData};
use crate::span::Span;
use crate::value::{model_span, vmodels, lemma_vmodels, ValModel, Value};

verus! {

broadcast use vstd::std_specs::vec::group_vec_axioms;

/// An exact rational: `num / den` with a positive denominator.
#[derive(Clone, Copy, Debug, PartialEq, Eq, Structural)]
pub struct Ratio {
    pub num: i128,
    pub den: i128,
}

/// Whether the first `i` values are all integers.
pub open spec fn all_ints(items: Seq<ValModel>, i: int) -> bool {
    forall|k: int| 0 <= k < i ==> (#[trigger] items[k]) is Int
}

/// The sum of the first `i` integer values.
pub open spec fn sum_v(items: Seq<ValModel>, i: int) -> int
    decreases i,
{
    if i <= 0 || i > items.len() {
        0
    } else {
        sum_v(items, i - 1) + (match items[i - 1] {
            ValModel::Int { val, .. } => val as int,
            _ => 0,
        })
    }
}

/// The sum of the squares of the first `i` integer values.
pub open spec fn sum_sq(items: Seq<ValModel>, i: int) -> int
    decreases i,
{
    if i <= 0 || i > items.len() {
        0
    } else {
        sum_sq(items, i - 1) + (match items[i - 1] {
            ValModel::Int { val, .. } => (val as int) * (val as int),
            _ => 0,
        })
    }
}

/// The index of the first non-integer value, if any.
pub open spec fn first_bad(items: Seq<ValModel>, i: int) -> Option<int>
    decreases items.len() - i,
{
    if i < 0 || i >= items.len() {
        Option::None
    } else if !(items[i] is Int) {
        Option::Some(i)
    } else {
        first_bad(items, i + 1)
    }
}

/// The machine bound this command works under: each value fits in
/// thirty-two signed bits and the list length in thirty-three, so every
/// intermediate product provably fits the arithmetic width.
pub open spec fn variance_inputs_ok(items: Seq<ValModel>) -> bool {
    &&& items.len() <= 0x1_0000_0000
    &&& forall|k: int|
        0 <= k < items.len() ==> (match #[trigger] items[k] {
            ValModel::Int { val, .. } => -0x8000_0000 <= val <= 0x7fff_ffff,
            _ => true,
        })
}

/// The sum of squared deviations as an exact rational:
/// `Σx² − (Σx)²/n`, i.e. `(n·Σx² − (Σx)²) / n`. An empty list has no
/// such sum and fails with a division by zero; a non-integer value
/// fails naming its position's span.
#[verifier::loop_isolation(false)]
pub fn sum_of_squares(values: &Vec<Value>, span: &Span) -> (r: Result<Ratio, ShellError>)
    requires
        variance_inputs_ok(vmodels(values@)),
    ensures
        ({
            let items = vmodels(values@);
            let n = items.len() as int;
            match first_bad(items, 0) {
                Option::Some(j) => r matches Err(e) && e@ == ErrModel::UnsupportedInput(
                    "Attempted to compute the sum of squared values of a value that cannot be summed or squared."@,
                    model_span(items[j]),
                ),
                Option::None => if n == 0 {
                    r matches Err(e) && e@ == ErrModel::DivisionByZero(*span)
                } else {
                    r matches Ok(rat) && rat.num == n * sum_sq(items, n) - sum_v(items, n) * sum_v(
                        items,
                        n,
                    ) && rat.den == n
                },
            }
        }),
{
    let ghost items = vmodels(values@);
    proof {
        lemma_vmodels(values@);
    }
    let n: usize = values.len();
    let mut sum_x: i128 = 0;
    let mut sum_x2: i128 = 0;
    let mut i: usize = 0;
    while i < n
        invariant
            n == values@.len(),
            0 <= i <= n,
            first_bad(items, 0) == first_bad(items, i as int),
            all_ints(items, i as int),
            sum_x == sum_v(items, i as int),
            sum_x2 == sum_sq(items, i as int),
            -0x8000_0000_0000_0000 <= sum_x <= 0x8000_0000_0000_0000,
            0 <= sum_x2 <= 0x4000_0000_0000_0000_0000_0000,
        decreases n - i,
    {
        let x: i64 = match &values[i] {
            Value::Int { val, .. } => *val,
            other => {
                let msg = String::from_str(
                    "Attempted to compute the sum of squared values of a value that cannot be summed or squared.",
                );
                proof {
                    reveal_strlit(
                        "Attempted to compute the sum of squared values of a value that cannot be summed or squared.",
                    );
                    assert(msg@
                        =~= "Attempted to compute the sum of squared values of a value that cannot be summed or squared."@);
                    assert(first_bad(items, i as int) == Option::Some(i as int));
                }
                return Result::Err(ShellError::UnsupportedInput(msg, other.span()));
            },
        };
        proof {
            assert(items[i as int] == vmodel_int_of(values@[i as int]));
            assert(-0x8000_0000 <= x <= 0x7fff_ffff);
            assert(sum_v(items, i as int) + x <= 0x1_0000_0000 * 0x8000_0000) by {
                lemma_sum_bounds(items, i as int + 1);
            }
        }
        let x128: i128 = x as i128;
        proof {
            assert(x128 * x128 <= 0x4000_0000_0000_0000) by (nonlinear_arith)
                requires
                    -0x8000_0000 <= x128 <= 0x7fff_ffff,
            ;
            assert(x128 * x128 >= 0) by (nonlinear_arith);
        }
        sum_x = sum_x + x128;
        sum_x2 = sum_x2 + x128 * x128;
        proof {
            lemma_sum_bounds(items, i as int + 1);
        }
        i = i + 1;
    }
    if n == 0 {
        return Result::Err(ShellError::DivisionByZero(*span));
    }
    proof {
        lemma_sum_bounds(items, n as int);
        assert((n as i128) * sum_x2 <= 0x1_0000_0000 * 0x4000_0000_0000_0000_0000_0000)
            by (nonlinear_arith)
            requires
                0 <= sum_x2 <= 0x4000_0000_0000_0000_0000_0000,
                0 < n <= 0x1_0000_0000,
        ;
        assert(sum_x * sum_x <= 0x4000_0000_0000_0000_0000_0000_0000_0000) by (nonlinear_arith)
            requires
                -0x8000_0000_0000_0000 <= sum_x <= 0x8000_0000_0000_0000,
        ;
        assert(sum_x * sum_x >= 0) by (nonlinear_arith);
    }
    let num: i128 = (n as i128) * sum_x2 - sum_x * sum_x;
    Result::Ok(Ratio { num, den: n as i128 })
}

/// The image of one value, used to keep the loop's view of the list in
/// step with the vector.
pub open spec fn vmodel_int_of(v: Value) -> ValModel {
    crate::value::vmodel(v)
}

/// Partial sums stay inside the widths the input bound allows.
proof fn lemma_sum_bounds(items: Seq<ValModel>, i: int)
    requires
        variance_inputs_ok(items),
        0 <= i <= items.len(),
    ensures
        -(i * 0x8000_0000) <= sum_v(items, i) <= i * 0x8000_0000,
        0 <= sum_sq(items, i) <= i * 0x4000_0000_0000_0000,
        -0x8000_0000_0000_0000 <= sum_v(items, i) <= 0x8000_0000_0000_0000,
        0 <= sum_sq(items, i) <= 0x4000_0000_0000_0000_0000_0000,
    decreases i,
{
    if i > 0 {
        lemma_sum_bounds(items, i - 1);
        match items[i - 1] {
            ValModel::Int { val, .. } => {
                assert((val as int) * (val as int) <= 0x4000_0000_0000_0000) by (nonlinear_arith)
                    requires
                        -0x8000_0000 <= val <= 0x7fff_ffff,
                ;
                assert((val as int) * (val as int) >= 0) by (nonlinear_arith);
            },
            _ => {},
        }
        assert(i * 0x8000_0000 == (i - 1) * 0x8000_0000 + 0x8000_0000) by (nonlinear_arith);
        assert(i * 0x4000_0000_0000_0000 == (i - 1) * 0x4000_0000_0000_0000
            + 0x4000_0000_0000_0000) by (nonlinear_arith);
        assert(i * 0x8000_0000 <= 0x1_0000_0000 * 0x8000_0000) by (nonlinear_arith)
            requires
                0 <= i <= items.len() <= 0x1_0000_0000,
        ;
        assert(i * 0x4000_0000_0000_0000 <= 0x1_0000_0000 * 0x4000_0000_0000_0000)
            by (nonlinear_arith)
            requires
                0 <= i <= items.len() <= 0x1_0000_0000,
        ;
    }
}

/// Computes the variance of a list of integers as an exact rational:
/// the sum of squared deviations over `n` (population) or `n − 1`
/// (sample). A single-element sample, like an empty population, has no
/// variance and fails with a division by zero; a non-integer value
/// fails with the variance-specific diagnostic at that value's span.
pub fn compute_variance(values: &Vec<Value>, sample: bool, span: &Span) -> (r: Result<
    Ratio,
    ShellError,
>)
    requires
        variance_inputs_ok(vmodels(values@)),
        sample ==> values@.len() >= 1,
    ensures
        ({
            let items = vmodels(values@);
            let n = items.len() as int;
            let np = if sample {
                n - 1
            } else {
                n
            };
            match first_bad(items, 0) {
                Option::Some(j) => r matches Err(e) && e@ == ErrModel::UnsupportedInput(
                    "Attempted to compute the variance with an item that cannot be used for that."@,
                    model_span(items[j]),
                ),
                Option::None => if n == 0 || np == 0 {
                    r matches Err(e) && e@ == ErrModel::DivisionByZero(*span)
                } else {
                    r matches Ok(rat) && rat.num == n * sum_sq(items, n) - sum_v(items, n) * sum_v(
                        items,
                        n,
                    ) && rat.den == n * np
                },
            }
        }),
{
    proof {
        lemma_vmodels(values@);
    }
    let n: usize = values.len();
    let np: usize = if sample {
        n - 1
    } else {
        n
    };
    let ss = match sum_of_squares(values, span) {
        Result::Ok(ss) => ss,
        Result::Err(e) => {
            match e {
                ShellError::UnsupportedInput(_, err_span) => {
                    let msg = String::from_str(
                        "Attempted to compute the variance with an item that cannot be used for that.",
                    );
                    proof {
                        reveal_strlit(
                            "Attempted to compute the variance with an item that cannot be used for that.",
                        );
                        assert(msg@
                            =~= "Attempted to compute the variance with an item that cannot be used for that."@);
                    }
                    return Result::Err(ShellError::UnsupportedInput(msg, err_span));
                },
                other => {
                    return Result::Err(other);
                },
            }
        },
    };
    if np == 0 {
        return Result::Err(ShellError::DivisionByZero(*span));
    }
    proof {
        assert(ss.den * (np as i128) <= 0x1_0000_0000 * 0x1_0000_0000) by (nonlinear_arith)
            requires
                0 < ss.den <= 0x1_0000_0000,
                0 < np <= 0x1_0000_0000,
        ;
        assert(ss.den * (np as i128) > 0) by (nonlinear_arith)
            requires
                ss.den > 0,
                np > 0,
        ;
    }
    Result::Ok(Ratio { num: ss.num, den: ss.den * (np as i128) })
}

/// The variance command.
pub struct SubCommand;

impl SubCommand {
    pub fn name(&self) -> (r: String)
        ensures
            r@ == "math variance"@,
    {
        String::from_str("math variance")
    }

    pub fn usage(&self) -> (r: String)
        ensures
            r@ == "Finds the variance of a list of numbers or tables"@,
    {
        String::from_str("Finds the variance of a list of numbers or tables")
    }

    /// Computes the variance of the pipeline's elements, as an exact
    /// rational; the flag selects the sample variance.
    pub fn run(&self, input: PipelineData, sample: bool, head: Span) -> (r: Result<
        Ratio,
        ShellError,
    >)
        requires
            variance_inputs_ok(pd_items(input@)),
            sample ==> pd_items(input@).len() >= 1,
        ensures
            ({
                let items = pd_items(input@);
                let n = items.len() as int;
                let np = if sample {
                    n - 1
                } else {
                    n
                };
                match first_bad(items, 0) {
                    Option::Some(j) => r matches Err(e) && e@ == ErrModel::UnsupportedInput(
                        "Attempted to compute the variance with an item that cannot be used for that."@,
                        model_span(items[j]),
                    ),
                    Option::None => if n == 0 || np == 0 {
                        r matches Err(e) && e@ == ErrModel::DivisionByZero(head)
                    } else {
                        r matches Ok(rat) && rat.num == n * sum_sq(items, n) - sum_v(items, n)
                            * sum_v(items, n) && rat.den == n * np
                    },
                }
            }),
    {
        let stream = input.into_value_stream(Option::None);
        let vals = stream.vals;
        proof {
            lemma_vmodels(vals@);
            assert(vmodels(vals@) == pd_items(input@));
        }
        compute_variance(&vals, sample, &head)
    }
}

} // verus!
