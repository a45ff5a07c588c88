//! The decisions of the Epps-Singleton test: which inputs are refused, which
//! give an undefined result, and what the computation works with otherwise.

use vstd::prelude::*;

use crate::decimal::{decimal, push_decimal};

verus! {

/// The class of one sample value.
#[derive(Debug, Clone, Copy, PartialEq, Eq, Structural)]
pub enum ValueKind {
    /// A finite number.
    Finite,
    /// Positive or negative infinity.
    Infinite,
    /// Not a number.
    NotANumber,
}

/// Why the test refuses its input.
#[derive(Debug, Clone, Copy, PartialEq, Eq, Structural)]
pub enum EsError {
    /// One sample holds fewer than five values.
    TooFew { nx: usize, ny: usize },
    /// A frequency is zero or negative.
    NonPositiveT,
    /// The estimated covariance is not finite, so no pseudo-inverse exists.
    SvdDidNotConverge,
}

/// The message reported for each error.
pub open spec fn error_text(e: EsError) -> Seq<char> {
    match e {
        EsError::TooFew { nx, ny } => "x and y should have at least 5 elements, but len(x) = "@
            + decimal(nx as nat) + " and len(y) = "@ + decimal(ny as nat) + "."@,
        EsError::NonPositiveT => "t must contain positive elements only."@,
        EsError::SvdDidNotConverge => "SVD did not converge"@,
    }
}

impl EsError {
    /// The message reported for this error.
    pub fn message(&self) -> (r: String)
        ensures
            r@ == error_text(*self),
    {
        match self {
            EsError::TooFew { nx, ny } => {
                let mut s = String::from_str(
                    "x and y should have at least 5 elements, but len(x) = ",
                );
                push_decimal(&mut s, *nx);
                s.append(" and len(y) = ");
                push_decimal(&mut s, *ny);
                s.append(".");
                s
            },
            EsError::NonPositiveT => String::from_str("t must contain positive elements only."),
            EsError::SvdDidNotConverge => String::from_str("SVD did not converge"),
        }
    }
}

/// The sizes the computation works with once the input is accepted.
#[derive(Debug, Clone, Copy, PartialEq, Eq, Structural)]
pub struct Plan {
    /// Pooled sample size `nx + ny`.
    pub n: usize,
    /// Number of frequencies.
    pub k: usize,
    /// Length of the moment vector: a cosine and a sine row per frequency.
    pub dim: usize,
    /// Whether the small-sample correction applies (`max(nx, ny) < 25`).
    pub small_sample: bool,
}

/// The outcome of checking the input of the test.
#[derive(Debug, Clone, Copy, PartialEq, Eq, Structural)]
pub enum Screening {
    /// The statistic and the p-value are both NaN.
    Undefined,
    /// The input is refused with this error.
    Rejected(EsError),
    /// The statistic is computed with these sizes.
    Proceed(Plan),
}

/// Some value of `v` has kind `k`.
pub open spec fn has_kind(v: Seq<ValueKind>, k: ValueKind) -> bool {
    exists|i: int| 0 <= i < v.len() && v[i] == k
}

/// Some entry of `v` is true.
pub open spec fn any_true(v: Seq<bool>) -> bool {
    exists|i: int| 0 <= i < v.len() && v[i]
}

/// The outcome of the checks, in the order the test makes them: a NaN in
/// either sample gives an undefined result before anything else is looked at;
/// then each sample must hold at least five values; then every frequency must
/// be positive; only then does an infinite value give an undefined result.
/// `t_nonpositive[i]` says whether the `i`-th frequency is `<= 0`.
pub open spec fn screening(x: Seq<ValueKind>, y: Seq<ValueKind>, t_nonpositive: Seq<bool>) -> Screening {
    if has_kind(x, ValueKind::NotANumber) || has_kind(y, ValueKind::NotANumber) {
        Screening::Undefined
    } else if x.len() < 5 || y.len() < 5 {
        Screening::Rejected(EsError::TooFew { nx: x.len() as usize, ny: y.len() as usize })
    } else if any_true(t_nonpositive) {
        Screening::Rejected(EsError::NonPositiveT)
    } else if has_kind(x, ValueKind::Infinite) || has_kind(y, ValueKind::Infinite) {
        Screening::Undefined
    } else {
        Screening::Proceed(
            Plan {
                n: (x.len() + y.len()) as usize,
                k: t_nonpositive.len() as usize,
                dim: (2 * t_nonpositive.len()) as usize,
                small_sample: x.len() < 25 && y.len() < 25,
            },
        )
    }
}

fn contains_kind(v: &[ValueKind], k: ValueKind) -> (r: bool)
    ensures
        r == has_kind(v@, k),
{
    let mut i: usize = 0;
    while i < v.len()
        invariant
            i <= v.len(),
            forall|j: int| 0 <= j < i ==> v@[j] != k,
        decreases v.len() - i,
    {
        if v[i] == k {
            return true;
        }
        i = i + 1;
    }
    false
}

fn contains_true(v: &[bool]) -> (r: bool)
    ensures
        r == any_true(v@),
{
    let mut i: usize = 0;
    while i < v.len()
        invariant
            i <= v.len(),
            forall|j: int| 0 <= j < i ==> !v@[j],
        decreases v.len() - i,
    {
        if v[i] {
            return true;
        }
        i = i + 1;
    }
    false
}

/// Checks the two samples and the frequencies of the test, given the class of
/// each sample value and whether each frequency is `<= 0`.
pub fn screen(x: &[ValueKind], y: &[ValueKind], t_nonpositive: &[bool]) -> (r: Screening)
    requires
        x@.len() + y@.len() <= usize::MAX,
        2 * t_nonpositive@.len() <= usize::MAX,
    ensures
        r == screening(x@, y@, t_nonpositive@),
        (r == Screening::Undefined) <==> (holds_nan(x@, y@) || (x@.len() >= 5 && y@.len() >= 5
            && !holds_nonpositive(t_nonpositive@) && holds_infinite(x@, y@))),
        (r matches Screening::Rejected(EsError::TooFew { .. })) <==> (!holds_nan(x@, y@) && (x@.len()
            < 5 || y@.len() < 5)),
        r matches Screening::Rejected(EsError::TooFew { nx, ny }) ==> nx == x@.len() && ny
            == y@.len(),
        (r == Screening::Rejected(EsError::NonPositiveT)) <==> (!holds_nan(x@, y@) && x@.len() >= 5
            && y@.len() >= 5 && holds_nonpositive(t_nonpositive@)),
        r != Screening::Rejected(EsError::SvdDidNotConverge),
        (r is Proceed) <==> (!holds_nan(x@, y@) && x@.len() >= 5 && y@.len() >= 5
            && !holds_nonpositive(t_nonpositive@) && !holds_infinite(x@, y@)),
        r matches Screening::Proceed(p) ==> {
            &&& p.n == x@.len() + y@.len()
            &&& p.k == t_nonpositive@.len()
            &&& p.dim == 2 * t_nonpositive@.len()
            &&& (p.small_sample <==> x@.len() < 25 && y@.len() < 25)
        },
{
    proof {
        lemma_screening_outcomes(x@, y@, t_nonpositive@);
    }
    if contains_kind(x, ValueKind::NotANumber) || contains_kind(y, ValueKind::NotANumber) {
        return Screening::Undefined;
    }
    let nx = x.len();
    let ny = y.len();
    if nx < 5 || ny < 5 {
        return Screening::Rejected(EsError::TooFew { nx, ny });
    }
    if contains_true(t_nonpositive) {
        return Screening::Rejected(EsError::NonPositiveT);
    }
    if contains_kind(x, ValueKind::Infinite) || contains_kind(y, ValueKind::Infinite) {
        return Screening::Undefined;
    }
    let k = t_nonpositive.len();
    Screening::Proceed(Plan { n: nx + ny, k, dim: 2 * k, small_sample: nx < 25 && ny < 25 })
}

/// Refuses an estimated covariance that holds a value that is not finite.
pub fn check_covariance(cells: &[ValueKind]) -> (r: Result<(), EsError>)
    ensures
        r is Err <==> has_kind(cells@, ValueKind::Infinite) || has_kind(
            cells@,
            ValueKind::NotANumber,
        ),
        r matches Err(e) ==> e == EsError::SvdDidNotConverge,
{
    if contains_kind(cells, ValueKind::Infinite) || contains_kind(cells, ValueKind::NotANumber) {
        Err(EsError::SvdDidNotConverge)
    } else {
        Ok(())
    }
}

/// Some value of either sample is NaN.
pub open spec fn holds_nan(x: Seq<ValueKind>, y: Seq<ValueKind>) -> bool {
    (exists|i: int| 0 <= i < x.len() && x[i] == ValueKind::NotANumber) || (exists|i: int|
        0 <= i < y.len() && y[i] == ValueKind::NotANumber)
}

/// Some value of either sample is infinite.
pub open spec fn holds_infinite(x: Seq<ValueKind>, y: Seq<ValueKind>) -> bool {
    (exists|i: int| 0 <= i < x.len() && x[i] == ValueKind::Infinite) || (exists|i: int|
        0 <= i < y.len() && y[i] == ValueKind::Infinite)
}

/// Some frequency is `<= 0`.
pub open spec fn holds_nonpositive(t_nonpositive: Seq<bool>) -> bool {
    exists|j: int| 0 <= j < t_nonpositive.len() && t_nonpositive[j]
}

/// Law: what each outcome of the checks says about the input. The result is
/// undefined exactly when a value is NaN, or when no value is NaN, both samples
/// hold at least five values, every frequency is positive and some value is
/// infinite; a `TooFew` error comes exactly when no value is NaN and a sample
/// holds fewer than five values, and reports the two sizes; a `NonPositiveT`
/// error comes exactly when no value is NaN, both samples are large enough and
/// some frequency is `<= 0`; the checks never report a covariance failure; and
/// the input is accepted exactly when none of the above holds, with the pooled
/// size, the number of frequencies, twice that number as moment length, and
/// the small-sample correction exactly when both samples hold fewer than 25
/// values.
pub proof fn lemma_screening_outcomes(x: Seq<ValueKind>, y: Seq<ValueKind>, t_nonpositive: Seq<bool>)
    ensures
        (screening(x, y, t_nonpositive) == Screening::Undefined) <==> (holds_nan(x, y) || (x.len()
            >= 5 && y.len() >= 5 && !holds_nonpositive(t_nonpositive) && holds_infinite(x, y))),
        (screening(x, y, t_nonpositive) matches Screening::Rejected(EsError::TooFew { .. }))
            <==> (!holds_nan(x, y) && (x.len() < 5 || y.len() < 5)),
        x.len() <= usize::MAX && y.len() <= usize::MAX ==> (screening(x, y, t_nonpositive) matches Screening::Rejected(EsError::TooFew { nx, ny })
            ==> nx == x.len() && ny == y.len()),
        (screening(x, y, t_nonpositive) == Screening::Rejected(EsError::NonPositiveT)) <==> (
        !holds_nan(x, y) && x.len() >= 5 && y.len() >= 5 && holds_nonpositive(t_nonpositive)),
        screening(x, y, t_nonpositive) != Screening::Rejected(EsError::SvdDidNotConverge),
        (screening(x, y, t_nonpositive) is Proceed) <==> (!holds_nan(x, y) && x.len() >= 5
            && y.len() >= 5 && !holds_nonpositive(t_nonpositive) && !holds_infinite(x, y)),
        screening(x, y, t_nonpositive) matches Screening::Proceed(p) ==> {
            &&& x.len() + y.len() <= usize::MAX ==> p.n == x.len() + y.len()
            &&& t_nonpositive.len() <= usize::MAX ==> p.k == t_nonpositive.len()
            &&& 2 * t_nonpositive.len() <= usize::MAX ==> p.dim == 2 * t_nonpositive.len()
            &&& (p.small_sample <==> x.len() < 25 && y.len() < 25)
        },
{
    assert(has_kind(x, ValueKind::NotANumber) || has_kind(y, ValueKind::NotANumber) <==> holds_nan(x, y));
    assert(has_kind(x, ValueKind::Infinite) || has_kind(y, ValueKind::Infinite) <==> holds_infinite(x, y));
}

/// Law: the small-sample correction applies to an accepted input exactly when
/// both samples hold fewer than 25 values (`max(nx, ny) < 25`).
pub proof fn lemma_small_sample_rule(x: Seq<ValueKind>, y: Seq<ValueKind>, t_nonpositive: Seq<bool>)
    ensures
        screening(x, y, t_nonpositive) matches Screening::Proceed(p) ==> (p.small_sample <==> (
        x.len() < 25 && y.len() < 25)),
{
    lemma_screening_outcomes(x, y, t_nonpositive);
}

/// Law: once no value is NaN, both samples hold at least five values and
/// every frequency is positive, the checks never refuse the input.
pub proof fn lemma_positive_frequencies_accepted(x: Seq<ValueKind>, y: Seq<ValueKind>, t_nonpositive: Seq<bool>)
    requires
        forall|i: int| 0 <= i < x.len() ==> x[i] != ValueKind::NotANumber,
        forall|i: int| 0 <= i < y.len() ==> y[i] != ValueKind::NotANumber,
        x.len() >= 5,
        y.len() >= 5,
        forall|j: int| 0 <= j < t_nonpositive.len() ==> !t_nonpositive[j],
    ensures
        !(screening(x, y, t_nonpositive) is Rejected),
{
    lemma_screening_outcomes(x, y, t_nonpositive);
}

/// The outcome with the roles of the two samples exchanged.
pub open spec fn swap_samples(s: Screening) -> Screening {
    match s {
        Screening::Rejected(EsError::TooFew { nx, ny }) => Screening::Rejected(
            EsError::TooFew { nx: ny, ny: nx },
        ),
        _ => s,
    }
}

/// Law: exchanging the two samples changes the outcome of the checks only by
/// exchanging the two counts that a `TooFew` error reports.
pub proof fn lemma_screening_symmetric(x: Seq<ValueKind>, y: Seq<ValueKind>, t_nonpositive: Seq<bool>)
    ensures
        screening(y, x, t_nonpositive) == swap_samples(screening(x, y, t_nonpositive)),
{
}

/// Law: a NaN in either sample makes the result undefined, whatever the other
/// values, the sample sizes and the frequencies.
pub proof fn lemma_nan_decides_first(x: Seq<ValueKind>, y: Seq<ValueKind>, t_nonpositive: Seq<bool>, i: int)
    requires
        0 <= i < x.len(),
        x[i] == ValueKind::NotANumber,
    ensures
        screening(x, y, t_nonpositive) == Screening::Undefined,
        screening(y, x, t_nonpositive) == Screening::Undefined,
{
}

/// Law: once both samples are large enough and free of NaN, a non-positive
/// frequency is refused even where a value is infinite.
pub proof fn lemma_bad_frequency_beats_infinity(x: Seq<ValueKind>, y: Seq<ValueKind>, t_nonpositive: Seq<bool>, j: int)
    requires
        !has_kind(x, ValueKind::NotANumber),
        !has_kind(y, ValueKind::NotANumber),
        x.len() >= 5,
        y.len() >= 5,
        0 <= j < t_nonpositive.len(),
        t_nonpositive[j],
    ensures
        screening(x, y, t_nonpositive) == Screening::Rejected(EsError::NonPositiveT),
{
}

} // verus!
