//! The scalar value type flowing through the aggregation engine.
//!
//! Aggregates must stay exact under arbitrarily long sequences of
//! compensating updates, so every numeric value is carried exactly: integers
//! as `i64`, decimals as a fixed-point mantissa (an `i128` holding the number
//! scaled by `NUMERIC_UNIT`).  The mathematical model of a value is [`Val`],
//! in which a decimal is just its (scaled) integer mantissa; all contracts in
//! the crate speak about that model.

use vstd::prelude::*;

use crate::error::AggregateError;

verus! {

/// Number of decimal fractional digits carried by every `DfValue::Numeric`.
pub const NUMERIC_SCALE: u32 = 9;

/// `10 ^ NUMERIC_SCALE`: mantissa units per 1.  A `DfValue::Numeric(m)`
/// denotes the number `m / NUMERIC_UNIT`.
pub const NUMERIC_UNIT: i128 = 1_000_000_000;

/// Mathematical model of a [`DfValue`].  A decimal is modelled by its
/// mantissa alone, since the scale is fixed crate-wide.
pub enum Val {
    Null,
    Int(int),
    Numeric(int),
    Text(Seq<char>),
}

/// A typed scalar: the unit of data in rows processed by the engine.
#[derive(Debug)]
pub enum DfValue {
    /// SQL NULL.
    Null,
    /// A 64-bit integer.
    Int(i64),
    /// An exact decimal: the number `mantissa / NUMERIC_UNIT`.
    Numeric(i128),
    /// A text value.
    Text(String),
}

impl View for DfValue {
    type V = Val;

    open spec fn view(&self) -> Val {
        match self {
            DfValue::Null => Val::Null,
            DfValue::Int(i) => Val::Int(*i as int),
            DfValue::Numeric(m) => Val::Numeric(*m as int),
            DfValue::Text(s) => Val::Text(s@),
        }
    }
}

impl Clone for DfValue {
    fn clone(&self) -> (res: DfValue)
        ensures
            res == *self,
    {
        match self {
            DfValue::Null => DfValue::Null,
            DfValue::Int(i) => DfValue::Int(*i),
            DfValue::Numeric(m) => DfValue::Numeric(*m),
            DfValue::Text(s) => DfValue::Text(s.clone()),
        }
    }
}

impl PartialEq for DfValue {
    fn eq(&self, other: &DfValue) -> (r: bool) {
        match (self, other) {
            (DfValue::Null, DfValue::Null) => true,
            (DfValue::Int(a), DfValue::Int(b)) => a == b,
            (DfValue::Numeric(a), DfValue::Numeric(b)) => a == b,
            (DfValue::Text(a), DfValue::Text(b)) => a.eq(b),
            _ => false,
        }
    }
}

impl vstd::std_specs::cmp::PartialEqSpecImpl for DfValue {
    open spec fn obeys_eq_spec() -> bool {
        true
    }

    open spec fn eq_spec(&self, other: &DfValue) -> bool {
        self@ == other@
    }
}

/// `10 ^ n`.
pub open spec fn pow10(n: nat) -> int
    decreases n,
{
    if n == 0 {
        1
    } else {
        10 * pow10((n - 1) as nat)
    }
}

/// The mantissa a value contributes to exact decimal arithmetic: integers
/// are promoted to the fixed scale, decimals contribute their own mantissa,
/// and non-numeric values none.
pub open spec fn val_mantissa(v: Val) -> Option<int> {
    match v {
        Val::Int(i) => Some(i * (NUMERIC_UNIT as int)),
        Val::Numeric(m) => Some(m),
        _ => None,
    }
}

/// Exact addition on the value model.  Integer + integer stays an integer;
/// any other numeric pair is carried out on mantissas; non-numeric operands
/// are a type mismatch, and a result outside the representable range an
/// overflow.
pub open spec fn spec_add(a: Val, b: Val) -> Result<Val, AggregateError> {
    match (a, b) {
        (Val::Int(x), Val::Int(y)) => if i64::MIN <= x + y <= i64::MAX {
            Ok(Val::Int(x + y))
        } else {
            Err(AggregateError::Overflow)
        },
        _ => match (val_mantissa(a), val_mantissa(b)) {
            (Some(x), Some(y)) => if i128::MIN <= x + y <= i128::MAX {
                Ok(Val::Numeric(x + y))
            } else {
                Err(AggregateError::Overflow)
            },
            _ => Err(AggregateError::TypeMismatch),
        },
    }
}

/// Exact subtraction on the value model, with the same typing rules as
/// [`spec_add`].
pub open spec fn spec_sub(a: Val, b: Val) -> Result<Val, AggregateError> {
    match (a, b) {
        (Val::Int(x), Val::Int(y)) => if i64::MIN <= x - y <= i64::MAX {
            Ok(Val::Int(x - y))
        } else {
            Err(AggregateError::Overflow)
        },
        _ => match (val_mantissa(a), val_mantissa(b)) {
            (Some(x), Some(y)) => if i128::MIN <= x - y <= i128::MAX {
                Ok(Val::Numeric(x - y))
            } else {
                Err(AggregateError::Overflow)
            },
            _ => Err(AggregateError::TypeMismatch),
        },
    }
}

/// Division truncated toward zero, for a positive divisor.
pub open spec fn trunc_div(a: int, d: int) -> int
    recommends
        d > 0,
{
    if a >= 0 {
        a / d
    } else {
        -((-a) / d)
    }
}

/// Dividing a numeric value by a positive row count: the derived average.
pub open spec fn spec_div_count(a: Val, d: int) -> Result<Val, AggregateError>
    recommends
        d > 0,
{
    match val_mantissa(a) {
        Some(x) => Ok(Val::Numeric(trunc_div(x, d))),
        None => Err(AggregateError::TypeMismatch),
    }
}

/// The model of an exec arithmetic result.
pub open spec fn res_model(r: Result<DfValue, AggregateError>) -> Result<Val, AggregateError> {
    match r {
        Ok(v) => Ok(v@),
        Err(e) => Err(e),
    }
}

/// `10 ^ k` as an `i128`, for the scales the engine uses.
pub fn pow10_i128(k: u32) -> (r: i128)
    requires
        k <= 9,
    ensures
        r == pow10(k as nat),
        1 <= r <= 1_000_000_000,
{
    proof {
        reveal_with_fuel(pow10, 11);
    }
    if k == 0 {
        1
    } else if k == 1 {
        10
    } else if k == 2 {
        100
    } else if k == 3 {
        1_000
    } else if k == 4 {
        10_000
    } else if k == 5 {
        100_000
    } else if k == 6 {
        1_000_000
    } else if k == 7 {
        10_000_000
    } else if k == 8 {
        100_000_000
    } else {
        1_000_000_000
    }
}

impl DfValue {
    /// Whether this value is SQL NULL.
    pub fn is_null(&self) -> (r: bool)
        ensures
            r == (self@ is Null),
    {
        match self {
            DfValue::Null => true,
            _ => false,
        }
    }

    /// Build an exact decimal from a mantissa and a decimal scale, e.g.
    /// `numeric(125, 2)` is 1.25.  Returns `None` when the scale exceeds
    /// the fixed crate-wide scale.
    pub fn numeric(mantissa: i64, scale: u32) -> (r: Option<DfValue>)
        ensures
            scale <= NUMERIC_SCALE ==> (r matches Some(v) && v@ == Val::Numeric(
                mantissa * pow10((NUMERIC_SCALE - scale) as nat),
            )),
            scale > NUMERIC_SCALE ==> r is None,
    {
        if scale > NUMERIC_SCALE {
            None
        } else {
            let p = pow10_i128(NUMERIC_SCALE - scale);
            let wide: i128 = mantissa as i128;
            proof {
                assert((i128::MIN as int) <= wide * p <= (i128::MAX as int)) by (nonlinear_arith)
                    requires
                        (i64::MIN as int) <= wide <= (i64::MAX as int),
                        1 <= p <= 1_000_000_000,
                ;
            }
            Some(DfValue::Numeric(wide * p))
        }
    }

    /// The integer inside an `Int` value, if this is one.
    pub fn as_int(&self) -> (r: Option<i64>)
        ensures
            match r {
                Some(i) => self@ == Val::Int(i as int),
                None => !(self@ is Int),
            },
    {
        match self {
            DfValue::Int(i) => Some(*i),
            _ => None,
        }
    }

    /// The mantissa this value contributes to decimal arithmetic, per
    /// [`val_mantissa`].
    pub fn as_mantissa(&self) -> (r: Option<i128>)
        ensures
            match r {
                Some(m) => val_mantissa(self@) == Some(m as int),
                None => val_mantissa(self@) is None,
            },
    {
        match self {
            DfValue::Int(i) => {
                let wide: i128 = *i as i128;
                Some(wide * NUMERIC_UNIT)
            },
            DfValue::Numeric(m) => Some(*m),
            _ => None,
        }
    }

    /// Exact addition; see [`spec_add`] for the full semantics.
    pub fn try_add(&self, other: &DfValue) -> (r: Result<DfValue, AggregateError>)
        ensures
            res_model(r) == spec_add(self@, other@),
    {
        match (self, other) {
            (DfValue::Int(x), DfValue::Int(y)) => match x.checked_add(*y) {
                Some(s) => Ok(DfValue::Int(s)),
                None => Err(AggregateError::Overflow),
            },
            _ => {
                let a = self.as_mantissa();
                let b = other.as_mantissa();
                match (a, b) {
                    (Some(x), Some(y)) => match x.checked_add(y) {
                        Some(s) => Ok(DfValue::Numeric(s)),
                        None => Err(AggregateError::Overflow),
                    },
                    _ => Err(AggregateError::TypeMismatch),
                }
            },
        }
    }

    /// Exact subtraction; see [`spec_sub`] for the full semantics.
    pub fn try_sub(&self, other: &DfValue) -> (r: Result<DfValue, AggregateError>)
        ensures
            res_model(r) == spec_sub(self@, other@),
    {
        match (self, other) {
            (DfValue::Int(x), DfValue::Int(y)) => match x.checked_sub(*y) {
                Some(s) => Ok(DfValue::Int(s)),
                None => Err(AggregateError::Overflow),
            },
            _ => {
                let a = self.as_mantissa();
                let b = other.as_mantissa();
                match (a, b) {
                    (Some(x), Some(y)) => match x.checked_sub(y) {
                        Some(s) => Ok(DfValue::Numeric(s)),
                        None => Err(AggregateError::Overflow),
                    },
                    _ => Err(AggregateError::TypeMismatch),
                }
            },
        }
    }

    /// Divide a numeric value by a positive row count, truncating toward
    /// zero; see [`spec_div_count`].
    pub fn try_div_count(&self, d: i64) -> (r: Result<DfValue, AggregateError>)
        requires
            d > 0,
        ensures
            res_model(r) == spec_div_count(self@, d as int),
    {
        match self.as_mantissa() {
            Some(x) => {
                let den: u128 = d as u128;
                if x >= 0 {
                    let q: u128 = (x as u128) / den;
                    proof {
                        assert(q <= x as u128);
                    }
                    Ok(DfValue::Numeric(q as i128))
                } else {
                    // magnitude of x, computed without overflowing at i128::MIN
                    let mag: u128 = ((-1 - x) as u128) + 1;
                    let q: u128 = mag / den;
                    proof {
                        assert(mag == -(x as int));
                        assert(q == (-(x as int)) / (d as int));
                        assert(q <= mag);
                    }
                    if q == 0 {
                        Ok(DfValue::Numeric(0))
                    } else {
                        let qm1: i128 = (q - 1) as i128;
                        Ok(DfValue::Numeric(-1 - qm1))
                    }
                }
            },
            None => Err(AggregateError::TypeMismatch),
        }
    }
}

} // verus!
