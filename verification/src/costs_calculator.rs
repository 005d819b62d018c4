//! The cost of a path, as far as it is decided without arithmetic on reals.
//!
//! The cost of a path is a real number made of three weighted terms. Which
//! distances those terms need is decided here, and so is the integer that
//! stands for the real cost in the frontier. The arithmetic in between works
//! on floating-point numbers and is the caller's: it hands back the decimal
//! rendering of the cost, offset by `100000.000001`.

use vstd::arithmetic::power::{lemma_pow_positive, pow};
use vstd::prelude::*;
use vstd::string::StrSliceExecFns;

use crate::text::texts;

verus! {

/// Why a path has no cost.
#[derive(Clone, Copy, Debug, PartialEq, Eq, Structural)]
pub enum CostError {
    /// The path starts neither at the source nor at the target.
    MalformedPath,
    /// The rendering is no decimal number, or the integer that would stand
    /// for it lies below `LEAST_COST` or at or above `COST_BOUND`.
    CostOutOfRange,
}

/// The least integer that stands for a cost.
pub const LEAST_COST: i64 = 100_000_000_000;

/// The bound of the integers that stand for a cost: what a cost of `99_999`
/// would give.
pub const COST_BOUND: i64 = 199_999_000_001;

/// The number of digits of the integer that stands for a cost.
pub const COST_DIGITS: usize = 12;

/// What the three terms of the cost of a path are made of.
pub struct CostPlan {
    /// The entity that the path is heading for: the target for a path that
    /// starts at the source, the source for one that starts at the target.
    pub directional_target: String,
    /// The entities whose mean distance to that entity the first term
    /// weighs; nothing where the term is zero.
    pub averaged: Vec<String>,
    /// The number of edges on the path, which the second term weighs.
    pub hops: usize,
    /// The entity whose distance to that entity the third term weighs;
    /// nothing where the term is zero.
    pub heading: Option<String>,
}

/// The entity that a path is heading for, if it starts at `source` or at
/// `target`. A path that starts at both is heading for `target`.
pub open spec fn heading_for(
    source: Seq<char>,
    target: Seq<char>,
    path: Seq<Seq<char>>,
) -> Option<Seq<char>> {
    if path.len() == 0 {
        None
    } else if path[0] == source {
        Some(target)
    } else if path[0] == target {
        Some(source)
    } else {
        None
    }
}

/// The entity that `path` is heading for.
///
/// Fails with `MalformedPath` exactly where the path is empty or starts
/// neither at `source` nor at `target`.
pub fn directional_target(source: &str, target: &str, path: &Vec<String>) -> (result: Result<
    String,
    CostError,
>)
    ensures
        match result {
            Ok(entity) => heading_for(source@, target@, texts(path@)) == Some(entity@),
            Err(error) => heading_for(source@, target@, texts(path@)) is None && error
                == CostError::MalformedPath,
        },
{
    if path.len() == 0 {
        return Err(CostError::MalformedPath);
    }
    assert(texts(path@)[0] == path[0]@);
    let source = source.to_owned();
    let target = target.to_owned();
    if path[0] == source {
        Ok(target)
    } else if path[0] == target {
        Ok(source)
    } else {
        Err(CostError::MalformedPath)
    }
}

/// Decides what the cost of `path` is made of.
///
/// The first term weighs the mean distance of all entities but the last; it
/// is zero where its weight is (`weighs_mean` is false) or where the path
/// holds one entity. The second term weighs the number of edges. The third
/// weighs the distance of the last entity; it is zero where its weight is
/// (`weighs_heading` is false).
///
/// Fails with `MalformedPath` exactly where `directional_target` does.
pub fn plan_costs(
    source: &str,
    target: &str,
    path: &Vec<String>,
    weighs_mean: bool,
    weighs_heading: bool,
) -> (result: Result<CostPlan, CostError>)
    ensures
        match result {
            Ok(plan) => {
                &&& heading_for(source@, target@, texts(path@)) == Some(
                    plan.directional_target@,
                )
                &&& texts(plan.averaged@) == if weighs_mean {
                    texts(path@).drop_last()
                } else {
                    Seq::empty()
                }
                &&& plan.hops == path.len() - 1
                &&& match plan.heading {
                    Some(entity) => weighs_heading && entity@ == texts(path@).last(),
                    None => !weighs_heading,
                }
            },
            Err(error) => heading_for(source@, target@, texts(path@)) is None && error
                == CostError::MalformedPath,
        },
{
    let directional_target = match directional_target(source, target, path) {
        Ok(entity) => entity,
        Err(error) => {
            return Err(error);
        },
    };
    let hops = path.len() - 1;
    let mut averaged: Vec<String> = Vec::new();
    if weighs_mean {
        let mut i: usize = 0;
        while i < hops
            invariant
                hops == path.len() - 1,
                i <= hops,
                averaged.len() == i,
                forall|j: int| 0 <= j < i ==> averaged[j]@ == path[j]@,
            decreases hops - i,
        {
            averaged.push(path[i].clone());
            i = i + 1;
        }
        assert(texts(averaged@) =~= texts(path@).drop_last());
    } else {
        assert(texts(averaged@) =~= Seq::empty());
    }
    let heading = if weighs_heading {
        assert(texts(path@).last() == path[hops as int]@);
        Some(path[hops].clone())
    } else {
        None
    };
    Ok(CostPlan { directional_target, averaged, hops, heading })
}

/// Whether `c` is a decimal digit.
pub open spec fn is_digit(c: char) -> bool {
    '0' <= c <= '9'
}

/// The number that a decimal digit stands for.
pub open spec fn digit_value(c: char) -> nat {
    (c as int - '0' as int) as nat
}

/// The number that a sequence of decimal digits stands for.
pub open spec fn number(digits: Seq<char>) -> nat
    decreases digits.len(),
{
    if digits.len() == 0 {
        0
    } else {
        number(digits.drop_last()) * 10 + digit_value(digits.last())
    }
}

/// `text` with every decimal point taken out.
pub open spec fn without_points(text: Seq<char>) -> Seq<char>
    decreases text.len(),
{
    if text.len() == 0 {
        Seq::empty()
    } else if text.last() == '.' {
        without_points(text.drop_last())
    } else {
        without_points(text.drop_last()).push(text.last())
    }
}

/// A run of zeros.
pub open spec fn zeros(count: nat) -> Seq<char> {
    Seq::new(count, |i: int| '0')
}

/// The twelve digits that are read from a sequence of digits: its first
/// twelve, or all of them followed by zeros where it holds fewer.
pub open spec fn key_digits(digits: Seq<char>) -> Seq<char> {
    if digits.len() >= COST_DIGITS {
        digits.take(COST_DIGITS as int)
    } else {
        digits + zeros((COST_DIGITS - digits.len()) as nat)
    }
}

/// The integer that stands for a rendering: the number that its first twelve
/// digits make, where a rendering of fewer digits is read as if zeros
/// followed.
pub open spec fn encoding(rendered: Seq<char>) -> nat {
    number(key_digits(without_points(rendered)))
}

/// Whether a rendering has an encoding: without its decimal points it is not
/// empty, holds digits only among its first twelve characters, does not start
/// with a zero, and its encoding lies below `COST_BOUND`.
pub open spec fn encodable(rendered: Seq<char>) -> bool {
    let digits = without_points(rendered);
    &&& digits.len() > 0
    &&& forall|i: int| 0 <= i < digits.len() && i < COST_DIGITS ==> is_digit(#[trigger] digits[i])
    &&& digits[0] != '0'
    &&& encoding(rendered) < COST_BOUND
}

/// Taking the points out of a longer text only adds to what taking them out
/// of a shorter start of it gives.
pub proof fn lemma_without_points_prefix(text: Seq<char>, count: int)
    requires
        0 <= count <= text.len(),
    ensures
        without_points(text.take(count)).len() <= without_points(text).len(),
        without_points(text.take(count)) == without_points(text).take(
            without_points(text.take(count)).len() as int,
        ),
    decreases text.len(),
{
    if count == text.len() {
        assert(text.take(count) =~= text);
        assert(without_points(text).take(without_points(text).len() as int) =~= without_points(
            text,
        ));
    } else {
        lemma_without_points_prefix(text.drop_last(), count);
        assert(text.drop_last().take(count) =~= text.take(count));
        let short = without_points(text.take(count));
        assert(short =~= without_points(text).take(short.len() as int));
    }
}

/// A number of `n` digits is less than `10^n`, and at least `10^(n-1)` where
/// its first digit is not zero.
pub proof fn lemma_number_bounds(digits: Seq<char>)
    requires
        forall|i: int| 0 <= i < digits.len() ==> is_digit(#[trigger] digits[i]),
    ensures
        number(digits) < pow(10, digits.len()),
        digits.len() > 0 && digits[0] != '0' ==> number(digits) >= pow(
            10,
            (digits.len() - 1) as nat,
        ),
    decreases digits.len(),
{
    reveal(pow);
    if digits.len() > 0 {
        let front = digits.drop_last();
        lemma_number_bounds(front);
        assert(is_digit(digits.last()));
        assert(pow(10, digits.len()) == 10 * pow(10, front.len()));
        if digits.len() > 1 && digits[0] != '0' {
            assert(front[0] == digits[0]);
            assert(pow(10, front.len()) == 10 * pow(10, (front.len() - 1) as nat));
        }
        if digits.len() == 1 && digits[0] != '0' {
            assert(pow(10, 0) == 1);
        }
    }
}

/// The integer that stands for a cost in the frontier, from the decimal
/// rendering of the cost offset by `100000.000001`: the decimal points are
/// taken out of the rendering, and the first twelve digits of what is left
/// are read as a number. A rendering of fewer than twelve digits is read as
/// if zeros followed, so `100000.5` gives `100_000_500_000`.
///
/// Fails with `CostOutOfRange` exactly where nothing is left, where one of
/// the first twelve characters left is not a digit, where the number is
/// below `100_000_000_000`, or where it is at or above `199_999_000_001`.
pub fn encode_cost(rendered: &str) -> (result: Result<i64, CostError>)
    ensures
        match result {
            Ok(cost) => {
                &&& encodable(rendered@)
                &&& cost == encoding(rendered@)
                &&& LEAST_COST <= cost < COST_BOUND
            },
            Err(error) => !encodable(rendered@) && error == CostError::CostOutOfRange,
        },
{
    let length = rendered.unicode_len();
    let mut value: i64 = 0;
    let mut taken: usize = 0;
    let mut i: usize = 0;
    let ghost text = rendered@;
    proof {
        assert(text.take(0) =~= Seq::empty());
        assert(without_points(text.take(0)).take(0) =~= Seq::empty());
        reveal(pow);
        assert(pow(10, 0) == 1);
    }
    while i < length && taken < COST_DIGITS
        invariant
            text == rendered@,
            length == text.len(),
            i <= length,
            taken <= COST_DIGITS,
            taken == without_points(text.take(i as int)).len(),
            forall|k: int| 0 <= k < taken ==> is_digit(#[trigger] without_points(text.take(i as int))[k]),
            value == number(without_points(text.take(i as int))),
            0 <= value < pow(10, taken as nat),
        decreases length - i,
    {
        let c = rendered.get_char(i);
        let ghost before = without_points(text.take(i as int));
        proof {
            assert(text.take(i + 1).drop_last() =~= text.take(i as int));
            assert(text.take(i + 1).last() == c);
            lemma_without_points_prefix(text, i + 1);
        }
        if c != '.' {
            if c < '0' || c > '9' {
                proof {
                    let digits = without_points(text);
                    let short = without_points(text.take(i + 1));
                    assert(short[taken as int] == c);
                    assert(digits[taken as int] == c);
                }
                return Err(CostError::CostOutOfRange);
            }
            let d: i64 = (c as u8 - '0' as u8) as i64;
            proof {
                let after = without_points(text.take(i + 1));
                assert(after =~= before.push(c));
                assert(after.drop_last() =~= before);
                assert(d == digit_value(c));
                lemma_number_bounds(after);
                lemma_pow_bound_12(taken as nat + 1);
            }
            value = value * 10 + d;
            taken = taken + 1;
        }
        i = i + 1;
    }
    let ghost digits = without_points(text);
    let ghost read = without_points(text.take(i as int));
    proof {
        lemma_without_points_prefix(text, i as int);
        if taken < COST_DIGITS {
            assert(text.take(i as int) =~= text);
        }
        assert(read =~= digits.take(taken as int));
    }
    if taken == 0 {
        return Err(CostError::CostOutOfRange);
    }
    let mut width: usize = taken;
    proof {
        assert(read + zeros(0) =~= read);
    }
    while width < COST_DIGITS
        invariant
            taken <= width <= COST_DIGITS,
            value == number(read + zeros((width - taken) as nat)),
            0 <= value < pow(10, width as nat),
        decreases COST_DIGITS - width,
    {
        proof {
            let so_far = read + zeros((width - taken) as nat);
            let longer = read + zeros((width + 1 - taken) as nat);
            assert(longer =~= so_far.push('0'));
            assert(longer.drop_last() =~= so_far);
            reveal(pow);
            assert(pow(10, (width + 1) as nat) == 10 * pow(10, width as nat));
            lemma_pow_bound_12(width as nat + 1);
        }
        value = value * 10;
        width = width + 1;
    }
    proof {
        let key = key_digits(digits);
        assert(key =~= read + zeros((COST_DIGITS - taken) as nat));
        assert forall|k: int| 0 <= k < key.len() implies is_digit(#[trigger] key[k]) by {
            if k < taken {
                assert(key[k] == read[k]);
            }
        }
        assert forall|k: int| 0 <= k < digits.len() && k < COST_DIGITS implies is_digit(
            #[trigger] digits[k],
        ) by {
            assert(read[k] == digits[k]);
        }
        assert(key[0] == digits[0]);
        lemma_number_bounds(key);
        lemma_pow_bound_12(12);
        lemma_pow_bound_12(11);
        if key[0] == '0' {
            lemma_leading_zero(key);
        }
    }
    if value < LEAST_COST || value >= COST_BOUND {
        return Err(CostError::CostOutOfRange);
    }
    Ok(value)
}

/// Powers of ten up to the twelfth, which all fit a 64-bit integer.
pub proof fn lemma_pow_bound_12(exponent: nat)
    requires
        exponent <= 12,
    ensures
        pow(10, exponent) <= 1_000_000_000_000,
        exponent == 11 ==> pow(10, exponent) == 100_000_000_000,
        exponent == 12 ==> pow(10, exponent) == 1_000_000_000_000,
{
    reveal(pow);
    assert(pow(10, 0) == 1);
    assert(pow(10, 1) == 10 * pow(10, 0));
    assert(pow(10, 2) == 10 * pow(10, 1));
    assert(pow(10, 3) == 10 * pow(10, 2));
    assert(pow(10, 4) == 10 * pow(10, 3));
    assert(pow(10, 5) == 10 * pow(10, 4));
    assert(pow(10, 6) == 10 * pow(10, 5));
    assert(pow(10, 7) == 10 * pow(10, 6));
    assert(pow(10, 8) == 10 * pow(10, 7));
    assert(pow(10, 9) == 10 * pow(10, 8));
    assert(pow(10, 10) == 10 * pow(10, 9));
    assert(pow(10, 11) == 10 * pow(10, 10));
    assert(pow(10, 12) == 10 * pow(10, 11));
    if exponent < 12 {
        lemma_pow_increases(exponent, 12);
    }
}

/// Powers of ten grow with their exponent.
pub proof fn lemma_pow_increases(low: nat, high: nat)
    requires
        low <= high,
    ensures
        pow(10, low) <= pow(10, high),
        pow(10, low) > 0,
    decreases high - low,
{
    lemma_pow_positive(10, low);
    if low < high {
        lemma_pow_increases(low + 1, high);
        reveal(pow);
        assert(pow(10, low + 1) == 10 * pow(10, low));
    }
}

/// A number whose first digit is zero has fewer digits than it is written
/// with.
pub proof fn lemma_leading_zero(digits: Seq<char>)
    requires
        digits.len() > 0,
        forall|i: int| 0 <= i < digits.len() ==> is_digit(#[trigger] digits[i]),
        digits[0] == '0',
    ensures
        number(digits) < pow(10, (digits.len() - 1) as nat),
    decreases digits.len(),
{
    reveal(pow);
    if digits.len() == 1 {
        assert(digits.drop_last().len() == 0);
        assert(number(digits.drop_last()) == 0);
        assert(pow(10, 0) == 1);
    } else {
        let front = digits.drop_last();
        assert(front[0] == digits[0]);
        lemma_leading_zero(front);
        assert(is_digit(digits.last()));
        assert(pow(10, front.len()) == 10 * pow(10, (front.len() - 1) as nat));
    }
}

/// Whether a rendering is a decimal number: with its decimal point taken
/// out, it is not empty and holds digits only.
pub open spec fn decimal(rendered: Seq<char>) -> bool {
    let digits = without_points(rendered);
    &&& digits.len() > 0
    &&& forall|i: int| 0 <= i < digits.len() ==> is_digit(#[trigger] digits[i])
}

/// The number of digits of a rendering beyond the twelve that are encoded.
pub open spec fn surplus(rendered: Seq<char>) -> nat {
    let digits = without_points(rendered);
    if digits.len() > COST_DIGITS {
        (digits.len() - COST_DIGITS) as nat
    } else {
        0
    }
}

/// The number of digits that a rendering lacks of the twelve that are
/// encoded.
pub open spec fn shortfall(rendered: Seq<char>) -> nat {
    let digits = without_points(rendered);
    if digits.len() < COST_DIGITS {
        (COST_DIGITS - digits.len()) as nat
    } else {
        0
    }
}

/// The number that the digits of a rendering make, once the digits it lacks
/// are filled with zeros. A rendering with six digits before its decimal
/// point stands for the cost `scaled / 10^(6 + surplus)`.
pub open spec fn scaled(rendered: Seq<char>) -> nat {
    number(without_points(rendered)) * pow(10, shortfall(rendered)) as nat
}

/// Whether the cost that `first` renders is not above the one that `second`
/// renders, where both have six digits before the decimal point. The two
/// fractions `scaled / 10^(6 + surplus)` are compared by cross-multiplication.
pub open spec fn cost_not_above(first: Seq<char>, second: Seq<char>) -> bool {
    scaled(first) * pow(10, surplus(second)) <= scaled(second) * pow(10, surplus(first))
}

/// Whether the cost that `second` renders is above the one that `first`
/// renders by a millionth or more, where both have six digits before the
/// decimal point.
pub open spec fn cost_apart(first: Seq<char>, second: Seq<char>) -> bool {
    scaled(first) * pow(10, surplus(second)) + pow(10, surplus(first)) * pow(
        10,
        surplus(second),
    ) <= scaled(second) * pow(10, surplus(first))
}

/// Zeros after a number multiply it by ten each.
pub proof fn lemma_number_zeros(digits: Seq<char>, count: nat)
    ensures
        number(digits + zeros(count)) == number(digits) * pow(10, count),
    decreases count,
{
    reveal(pow);
    if count == 0 {
        assert(digits + zeros(0) =~= digits);
        assert(pow(10, 0) == 1);
    } else {
        let shorter = digits + zeros((count - 1) as nat);
        let longer = digits + zeros(count);
        lemma_number_zeros(digits, (count - 1) as nat);
        assert(longer.drop_last() =~= shorter);
        assert(longer.last() == '0');
        assert(pow(10, count) == 10 * pow(10, (count - 1) as nat));
        assert(number(digits) * pow(10, (count - 1) as nat) * 10 == number(digits) * (10 * pow(
            10,
            (count - 1) as nat,
        ))) by (nonlinear_arith);
    }
}

/// A number is its first digits, shifted by the count of the digits that
/// follow, plus the number that those make.
pub proof fn lemma_number_split(digits: Seq<char>, count: int)
    requires
        0 <= count <= digits.len(),
    ensures
        number(digits) == number(digits.take(count)) * pow(10, (digits.len() - count) as nat)
            + number(digits.skip(count)),
    decreases digits.len(),
{
    reveal(pow);
    if count == digits.len() {
        assert(digits.take(count) =~= digits);
        assert(digits.skip(count) =~= Seq::empty());
        assert(pow(10, 0) == 1);
    } else {
        let front = digits.drop_last();
        lemma_number_split(front, count);
        assert(front.take(count) =~= digits.take(count));
        assert(front.skip(count) =~= digits.skip(count).drop_last());
        assert(digits.skip(count).last() == digits.last());
        let high = number(digits.take(count));
        let scale = pow(10, (front.len() - count) as nat);
        assert(pow(10, (digits.len() - count) as nat) == 10 * scale);
        assert((high * scale + number(front.skip(count))) * 10 == high * (10 * scale) + number(
            front.skip(count),
        ) * 10) by (nonlinear_arith);
    }
}

/// The encoding is the offset cost times a million, rounded down: it lies
/// within one unit of the scaled number it was cut from.
pub proof fn lemma_encoding_brackets(rendered: Seq<char>)
    requires
        decimal(rendered),
    ensures
        encoding(rendered) * pow(10, surplus(rendered)) <= scaled(rendered),
        scaled(rendered) < (encoding(rendered) + 1) * pow(10, surplus(rendered)),
        pow(10, surplus(rendered)) > 0,
{
    let digits = without_points(rendered);
    reveal(pow);
    assert(pow(10, 0) == 1);
    if digits.len() >= COST_DIGITS {
        lemma_number_split(digits, COST_DIGITS as int);
        let rest = digits.skip(COST_DIGITS as int);
        assert forall|i: int| 0 <= i < rest.len() implies is_digit(#[trigger] rest[i]) by {
            assert(rest[i] == digits[i + COST_DIGITS]);
        }
        lemma_number_bounds(rest);
        lemma_pow_positive(10, surplus(rendered));
        let scale = pow(10, surplus(rendered));
        assert(scaled(rendered) == number(digits)) by (nonlinear_arith)
            requires
                scaled(rendered) == number(digits) * 1,
        ;
        assert((encoding(rendered) + 1) * scale == encoding(rendered) * scale + scale)
            by (nonlinear_arith);
    } else {
        lemma_number_zeros(digits, shortfall(rendered));
        lemma_pow_positive(10, shortfall(rendered));
        assert(key_digits(digits) == digits + zeros(shortfall(rendered)));
        assert(encoding(rendered) == scaled(rendered));
        assert(encoding(rendered) * 1 == encoding(rendered)) by (nonlinear_arith);
        assert((encoding(rendered) + 1) * 1 == encoding(rendered) + 1) by (nonlinear_arith);
    }
}

/// The encoding keeps the order of the costs: of two renderings with six
/// digits before the decimal point, the one of the lower cost has the lower or
/// the same encoding.
pub proof fn lemma_encoding_monotone(first: Seq<char>, second: Seq<char>)
    requires
        decimal(first),
        decimal(second),
        cost_not_above(first, second),
    ensures
        encoding(first) <= encoding(second),
{
    lemma_encoding_brackets(first);
    lemma_encoding_brackets(second);
    let a = pow(10, surplus(first)) as int;
    let b = pow(10, surplus(second)) as int;
    let na = scaled(first) as int;
    let nb = scaled(second) as int;
    let ea = encoding(first) as int;
    let eb = encoding(second) as int;
    if ea > eb {
        assert(ea * a * b >= (eb + 1) * a * b) by (nonlinear_arith)
            requires
                ea >= eb + 1,
                a > 0,
                b > 0,
        ;
        assert(na * b >= ea * a * b) by (nonlinear_arith)
            requires
                na >= ea * a,
                b > 0,
        ;
        assert(nb * a < (eb + 1) * b * a) by (nonlinear_arith)
            requires
                nb < (eb + 1) * b,
                a > 0,
        ;
        assert((eb + 1) * b * a == (eb + 1) * a * b) by (nonlinear_arith);
        assert(false);
    }
}

/// The encoding tells apart two costs that lie a millionth or more apart: of
/// two such renderings with six digits before the decimal point, the one of
/// the lower cost has the lower encoding.
pub proof fn lemma_encoding_strictly_monotone(first: Seq<char>, second: Seq<char>)
    requires
        decimal(first),
        decimal(second),
        cost_apart(first, second),
    ensures
        encoding(first) < encoding(second),
{
    lemma_encoding_brackets(first);
    lemma_encoding_brackets(second);
    let a = pow(10, surplus(first)) as int;
    let b = pow(10, surplus(second)) as int;
    let na = scaled(first) as int;
    let nb = scaled(second) as int;
    let ea = encoding(first) as int;
    let eb = encoding(second) as int;
    if ea >= eb {
        assert(ea * a * b >= eb * a * b) by (nonlinear_arith)
            requires
                ea >= eb,
                a > 0,
                b > 0,
        ;
        assert(na * b >= ea * a * b) by (nonlinear_arith)
            requires
                na >= ea * a,
                b > 0,
        ;
        assert(nb * a < (eb + 1) * b * a) by (nonlinear_arith)
            requires
                nb < (eb + 1) * b,
                a > 0,
        ;
        assert((eb + 1) * b * a == eb * a * b + a * b) by (nonlinear_arith);
        assert(false);
    }
}

} // verus!
