//! The five quantity newtypes.
//!
//! Each is a wrapper over `u64`. Wrapping them costs nothing at runtime and makes the one
//! bug class that matters here — passing base lots where quote lots were expected — a
//! compile error instead of a silent accounting hole.

use vstd::prelude::*;

use crate::text::{decimal, digits};

verus! {

/// A price, in ticks.
///
/// Operators ask for a result that fits. Use the `checked_*` methods where it may not.
#[derive(Copy, Clone, Debug, PartialEq, Eq, PartialOrd, Ord, Hash, Structural)]
pub struct Ticks(pub u64);

impl Ticks {
    /// Wraps a raw `u64`.
    pub fn new(value: u64) -> (quantity: Self)
        ensures
            quantity == Ticks(value),
    {
        Ticks(value)
    }

    /// Unwraps to the raw `u64`.
    pub fn as_u64(self) -> (value: u64)
        ensures
            value == self.0,
    {
        self.0
    }

    /// The number in decimal.
    pub fn display(self) -> (text: String)
        ensures
            text@ == digits(self.0 as nat),
    {
        decimal(self.0)
    }

    /// Whether this is zero.
    pub fn is_zero(self) -> (zero: bool)
        ensures
            zero == (self.0 == 0),
    {
        self.0 == 0
    }

    /// Addition, `None` on overflow.
    pub fn checked_add(self, rhs: Self) -> (sum: Option<Self>)
        ensures
            sum == (if self.0 + rhs.0 <= u64::MAX {
                Some(Ticks((self.0 + rhs.0) as u64))
            } else {
                None
            }),
    {
        match self.0.checked_add(rhs.0) {
            Some(v) => Some(Ticks(v)),
            None => None,
        }
    }

    /// Subtraction, `None` on underflow.
    pub fn checked_sub(self, rhs: Self) -> (difference: Option<Self>)
        ensures
            difference == (if rhs.0 <= self.0 {
                Some(Ticks((self.0 - rhs.0) as u64))
            } else {
                None
            }),
    {
        match self.0.checked_sub(rhs.0) {
            Some(v) => Some(Ticks(v)),
            None => None,
        }
    }

    /// Subtraction clamped at zero.
    pub fn saturating_sub(self, rhs: Self) -> (difference: Self)
        ensures
            difference.0 == (if rhs.0 <= self.0 {
                self.0 - rhs.0
            } else {
                0
            }),
    {
        Ticks(self.0.saturating_sub(rhs.0))
    }

    /// Addition clamped at the largest representable value.
    pub fn saturating_add(self, rhs: Self) -> (sum: Self)
        ensures
            sum.0 == (if self.0 + rhs.0 <= u64::MAX {
                self.0 + rhs.0
            } else {
                u64::MAX as int
            }),
    {
        Ticks(self.0.saturating_add(rhs.0))
    }

    /// The smaller of two values.
    pub fn min(self, rhs: Self) -> (least: Self)
        ensures
            least == (if self.0 < rhs.0 {
                self
            } else {
                rhs
            }),
    {
        if self.0 < rhs.0 {
            self
        } else {
            rhs
        }
    }

    /// The larger of two values.
    pub fn max(self, rhs: Self) -> (greatest: Self)
        ensures
            greatest == (if self.0 > rhs.0 {
                self
            } else {
                rhs
            }),
    {
        if self.0 > rhs.0 {
            self
        } else {
            rhs
        }
    }
}

impl Default for Ticks {
    fn default() -> (zero: Self)
        ensures
            zero == Ticks(0),
    {
        Ticks(0)
    }
}

impl core::ops::Add for Ticks {
    type Output = Ticks;

    fn add(self, rhs: Self) -> (sum: Self) {
        Ticks(self.0 + rhs.0)
    }
}

impl vstd::std_specs::ops::AddSpecImpl for Ticks {
    open spec fn obeys_add_spec() -> bool {
        true
    }

    open spec fn add_req(self, rhs: Self) -> bool {
        self.0 + rhs.0 <= u64::MAX
    }

    open spec fn add_spec(self, rhs: Self) -> Self {
        Ticks((self.0 + rhs.0) as u64)
    }
}

impl core::ops::Sub for Ticks {
    type Output = Ticks;

    fn sub(self, rhs: Self) -> (difference: Self) {
        Ticks(self.0 - rhs.0)
    }
}

impl vstd::std_specs::ops::SubSpecImpl for Ticks {
    open spec fn obeys_sub_spec() -> bool {
        true
    }

    open spec fn sub_req(self, rhs: Self) -> bool {
        rhs.0 <= self.0
    }

    open spec fn sub_spec(self, rhs: Self) -> Self {
        Ticks((self.0 - rhs.0) as u64)
    }
}

impl core::ops::Mul<u64> for Ticks {
    type Output = Ticks;

    fn mul(self, rhs: u64) -> (product: Self) {
        Ticks(self.0 * rhs)
    }
}

impl vstd::std_specs::ops::MulSpecImpl<u64> for Ticks {
    open spec fn obeys_mul_spec() -> bool {
        true
    }

    open spec fn mul_req(self, rhs: u64) -> bool {
        self.0 * rhs <= u64::MAX
    }

    open spec fn mul_spec(self, rhs: u64) -> Self {
        Ticks((self.0 * rhs) as u64)
    }
}

impl From<u64> for Ticks {
    fn from(value: u64) -> (quantity: Self) {
        Ticks(value)
    }
}

impl vstd::std_specs::convert::FromSpecImpl<u64> for Ticks {
    open spec fn obeys_from_spec() -> bool {
        true
    }

    open spec fn from_spec(value: u64) -> Self {
        Ticks(value)
    }
}

impl From<Ticks> for u64 {
    fn from(value: Ticks) -> (raw: u64) {
        value.0
    }
}

impl vstd::std_specs::convert::FromSpecImpl<Ticks> for u64 {
    open spec fn obeys_from_spec() -> bool {
        true
    }

    open spec fn from_spec(value: Ticks) -> u64 {
        value.0
    }
}

/// A size, in base lots.
///
/// Operators ask for a result that fits. Use the `checked_*` methods where it may not.
#[derive(Copy, Clone, Debug, PartialEq, Eq, PartialOrd, Ord, Hash, Structural)]
pub struct BaseLots(pub u64);

impl BaseLots {
    /// Wraps a raw `u64`.
    pub fn new(value: u64) -> (quantity: Self)
        ensures
            quantity == BaseLots(value),
    {
        BaseLots(value)
    }

    /// Unwraps to the raw `u64`.
    pub fn as_u64(self) -> (value: u64)
        ensures
            value == self.0,
    {
        self.0
    }

    /// The number in decimal.
    pub fn display(self) -> (text: String)
        ensures
            text@ == digits(self.0 as nat),
    {
        decimal(self.0)
    }

    /// Whether this is zero.
    pub fn is_zero(self) -> (zero: bool)
        ensures
            zero == (self.0 == 0),
    {
        self.0 == 0
    }

    /// Addition, `None` on overflow.
    pub fn checked_add(self, rhs: Self) -> (sum: Option<Self>)
        ensures
            sum == (if self.0 + rhs.0 <= u64::MAX {
                Some(BaseLots((self.0 + rhs.0) as u64))
            } else {
                None
            }),
    {
        match self.0.checked_add(rhs.0) {
            Some(v) => Some(BaseLots(v)),
            None => None,
        }
    }

    /// Subtraction, `None` on underflow.
    pub fn checked_sub(self, rhs: Self) -> (difference: Option<Self>)
        ensures
            difference == (if rhs.0 <= self.0 {
                Some(BaseLots((self.0 - rhs.0) as u64))
            } else {
                None
            }),
    {
        match self.0.checked_sub(rhs.0) {
            Some(v) => Some(BaseLots(v)),
            None => None,
        }
    }

    /// Subtraction clamped at zero.
    pub fn saturating_sub(self, rhs: Self) -> (difference: Self)
        ensures
            difference.0 == (if rhs.0 <= self.0 {
                self.0 - rhs.0
            } else {
                0
            }),
    {
        BaseLots(self.0.saturating_sub(rhs.0))
    }

    /// Addition clamped at the largest representable value.
    pub fn saturating_add(self, rhs: Self) -> (sum: Self)
        ensures
            sum.0 == (if self.0 + rhs.0 <= u64::MAX {
                self.0 + rhs.0
            } else {
                u64::MAX as int
            }),
    {
        BaseLots(self.0.saturating_add(rhs.0))
    }

    /// The smaller of two values.
    pub fn min(self, rhs: Self) -> (least: Self)
        ensures
            least == (if self.0 < rhs.0 {
                self
            } else {
                rhs
            }),
    {
        if self.0 < rhs.0 {
            self
        } else {
            rhs
        }
    }

    /// The larger of two values.
    pub fn max(self, rhs: Self) -> (greatest: Self)
        ensures
            greatest == (if self.0 > rhs.0 {
                self
            } else {
                rhs
            }),
    {
        if self.0 > rhs.0 {
            self
        } else {
            rhs
        }
    }
}

impl Default for BaseLots {
    fn default() -> (zero: Self)
        ensures
            zero == BaseLots(0),
    {
        BaseLots(0)
    }
}

impl core::ops::Add for BaseLots {
    type Output = BaseLots;

    fn add(self, rhs: Self) -> (sum: Self) {
        BaseLots(self.0 + rhs.0)
    }
}

impl vstd::std_specs::ops::AddSpecImpl for BaseLots {
    open spec fn obeys_add_spec() -> bool {
        true
    }

    open spec fn add_req(self, rhs: Self) -> bool {
        self.0 + rhs.0 <= u64::MAX
    }

    open spec fn add_spec(self, rhs: Self) -> Self {
        BaseLots((self.0 + rhs.0) as u64)
    }
}

impl core::ops::Sub for BaseLots {
    type Output = BaseLots;

    fn sub(self, rhs: Self) -> (difference: Self) {
        BaseLots(self.0 - rhs.0)
    }
}

impl vstd::std_specs::ops::SubSpecImpl for BaseLots {
    open spec fn obeys_sub_spec() -> bool {
        true
    }

    open spec fn sub_req(self, rhs: Self) -> bool {
        rhs.0 <= self.0
    }

    open spec fn sub_spec(self, rhs: Self) -> Self {
        BaseLots((self.0 - rhs.0) as u64)
    }
}

impl core::ops::Mul<u64> for BaseLots {
    type Output = BaseLots;

    fn mul(self, rhs: u64) -> (product: Self) {
        BaseLots(self.0 * rhs)
    }
}

impl vstd::std_specs::ops::MulSpecImpl<u64> for BaseLots {
    open spec fn obeys_mul_spec() -> bool {
        true
    }

    open spec fn mul_req(self, rhs: u64) -> bool {
        self.0 * rhs <= u64::MAX
    }

    open spec fn mul_spec(self, rhs: u64) -> Self {
        BaseLots((self.0 * rhs) as u64)
    }
}

impl From<u64> for BaseLots {
    fn from(value: u64) -> (quantity: Self) {
        BaseLots(value)
    }
}

impl vstd::std_specs::convert::FromSpecImpl<u64> for BaseLots {
    open spec fn obeys_from_spec() -> bool {
        true
    }

    open spec fn from_spec(value: u64) -> Self {
        BaseLots(value)
    }
}

impl From<BaseLots> for u64 {
    fn from(value: BaseLots) -> (raw: u64) {
        value.0
    }
}

impl vstd::std_specs::convert::FromSpecImpl<BaseLots> for u64 {
    open spec fn obeys_from_spec() -> bool {
        true
    }

    open spec fn from_spec(value: BaseLots) -> u64 {
        value.0
    }
}

/// A size or value, in quote lots.
///
/// Operators ask for a result that fits. Use the `checked_*` methods where it may not.
#[derive(Copy, Clone, Debug, PartialEq, Eq, PartialOrd, Ord, Hash, Structural)]
pub struct QuoteLots(pub u64);

impl QuoteLots {
    /// Wraps a raw `u64`.
    pub fn new(value: u64) -> (quantity: Self)
        ensures
            quantity == QuoteLots(value),
    {
        QuoteLots(value)
    }

    /// Unwraps to the raw `u64`.
    pub fn as_u64(self) -> (value: u64)
        ensures
            value == self.0,
    {
        self.0
    }

    /// The number in decimal.
    pub fn display(self) -> (text: String)
        ensures
            text@ == digits(self.0 as nat),
    {
        decimal(self.0)
    }

    /// Whether this is zero.
    pub fn is_zero(self) -> (zero: bool)
        ensures
            zero == (self.0 == 0),
    {
        self.0 == 0
    }

    /// Addition, `None` on overflow.
    pub fn checked_add(self, rhs: Self) -> (sum: Option<Self>)
        ensures
            sum == (if self.0 + rhs.0 <= u64::MAX {
                Some(QuoteLots((self.0 + rhs.0) as u64))
            } else {
                None
            }),
    {
        match self.0.checked_add(rhs.0) {
            Some(v) => Some(QuoteLots(v)),
            None => None,
        }
    }

    /// Subtraction, `None` on underflow.
    pub fn checked_sub(self, rhs: Self) -> (difference: Option<Self>)
        ensures
            difference == (if rhs.0 <= self.0 {
                Some(QuoteLots((self.0 - rhs.0) as u64))
            } else {
                None
            }),
    {
        match self.0.checked_sub(rhs.0) {
            Some(v) => Some(QuoteLots(v)),
            None => None,
        }
    }

    /// Subtraction clamped at zero.
    pub fn saturating_sub(self, rhs: Self) -> (difference: Self)
        ensures
            difference.0 == (if rhs.0 <= self.0 {
                self.0 - rhs.0
            } else {
                0
            }),
    {
        QuoteLots(self.0.saturating_sub(rhs.0))
    }

    /// Addition clamped at the largest representable value.
    pub fn saturating_add(self, rhs: Self) -> (sum: Self)
        ensures
            sum.0 == (if self.0 + rhs.0 <= u64::MAX {
                self.0 + rhs.0
            } else {
                u64::MAX as int
            }),
    {
        QuoteLots(self.0.saturating_add(rhs.0))
    }

    /// The smaller of two values.
    pub fn min(self, rhs: Self) -> (least: Self)
        ensures
            least == (if self.0 < rhs.0 {
                self
            } else {
                rhs
            }),
    {
        if self.0 < rhs.0 {
            self
        } else {
            rhs
        }
    }

    /// The larger of two values.
    pub fn max(self, rhs: Self) -> (greatest: Self)
        ensures
            greatest == (if self.0 > rhs.0 {
                self
            } else {
                rhs
            }),
    {
        if self.0 > rhs.0 {
            self
        } else {
            rhs
        }
    }
}

impl Default for QuoteLots {
    fn default() -> (zero: Self)
        ensures
            zero == QuoteLots(0),
    {
        QuoteLots(0)
    }
}

impl core::ops::Add for QuoteLots {
    type Output = QuoteLots;

    fn add(self, rhs: Self) -> (sum: Self) {
        QuoteLots(self.0 + rhs.0)
    }
}

impl vstd::std_specs::ops::AddSpecImpl for QuoteLots {
    open spec fn obeys_add_spec() -> bool {
        true
    }

    open spec fn add_req(self, rhs: Self) -> bool {
        self.0 + rhs.0 <= u64::MAX
    }

    open spec fn add_spec(self, rhs: Self) -> Self {
        QuoteLots((self.0 + rhs.0) as u64)
    }
}

impl core::ops::Sub for QuoteLots {
    type Output = QuoteLots;

    fn sub(self, rhs: Self) -> (difference: Self) {
        QuoteLots(self.0 - rhs.0)
    }
}

impl vstd::std_specs::ops::SubSpecImpl for QuoteLots {
    open spec fn obeys_sub_spec() -> bool {
        true
    }

    open spec fn sub_req(self, rhs: Self) -> bool {
        rhs.0 <= self.0
    }

    open spec fn sub_spec(self, rhs: Self) -> Self {
        QuoteLots((self.0 - rhs.0) as u64)
    }
}

impl core::ops::Mul<u64> for QuoteLots {
    type Output = QuoteLots;

    fn mul(self, rhs: u64) -> (product: Self) {
        QuoteLots(self.0 * rhs)
    }
}

impl vstd::std_specs::ops::MulSpecImpl<u64> for QuoteLots {
    open spec fn obeys_mul_spec() -> bool {
        true
    }

    open spec fn mul_req(self, rhs: u64) -> bool {
        self.0 * rhs <= u64::MAX
    }

    open spec fn mul_spec(self, rhs: u64) -> Self {
        QuoteLots((self.0 * rhs) as u64)
    }
}

impl From<u64> for QuoteLots {
    fn from(value: u64) -> (quantity: Self) {
        QuoteLots(value)
    }
}

impl vstd::std_specs::convert::FromSpecImpl<u64> for QuoteLots {
    open spec fn obeys_from_spec() -> bool {
        true
    }

    open spec fn from_spec(value: u64) -> Self {
        QuoteLots(value)
    }
}

impl From<QuoteLots> for u64 {
    fn from(value: QuoteLots) -> (raw: u64) {
        value.0
    }
}

impl vstd::std_specs::convert::FromSpecImpl<QuoteLots> for u64 {
    open spec fn obeys_from_spec() -> bool {
        true
    }

    open spec fn from_spec(value: QuoteLots) -> u64 {
        value.0
    }
}

/// A raw base-token amount, in the mint's smallest unit.
///
/// Operators ask for a result that fits. Use the `checked_*` methods where it may not.
#[derive(Copy, Clone, Debug, PartialEq, Eq, PartialOrd, Ord, Hash, Structural)]
pub struct BaseAtoms(pub u64);

impl BaseAtoms {
    /// Wraps a raw `u64`.
    pub fn new(value: u64) -> (quantity: Self)
        ensures
            quantity == BaseAtoms(value),
    {
        BaseAtoms(value)
    }

    /// Unwraps to the raw `u64`.
    pub fn as_u64(self) -> (value: u64)
        ensures
            value == self.0,
    {
        self.0
    }

    /// The number in decimal.
    pub fn display(self) -> (text: String)
        ensures
            text@ == digits(self.0 as nat),
    {
        decimal(self.0)
    }

    /// Whether this is zero.
    pub fn is_zero(self) -> (zero: bool)
        ensures
            zero == (self.0 == 0),
    {
        self.0 == 0
    }

    /// Addition, `None` on overflow.
    pub fn checked_add(self, rhs: Self) -> (sum: Option<Self>)
        ensures
            sum == (if self.0 + rhs.0 <= u64::MAX {
                Some(BaseAtoms((self.0 + rhs.0) as u64))
            } else {
                None
            }),
    {
        match self.0.checked_add(rhs.0) {
            Some(v) => Some(BaseAtoms(v)),
            None => None,
        }
    }

    /// Subtraction, `None` on underflow.
    pub fn checked_sub(self, rhs: Self) -> (difference: Option<Self>)
        ensures
            difference == (if rhs.0 <= self.0 {
                Some(BaseAtoms((self.0 - rhs.0) as u64))
            } else {
                None
            }),
    {
        match self.0.checked_sub(rhs.0) {
            Some(v) => Some(BaseAtoms(v)),
            None => None,
        }
    }

    /// Subtraction clamped at zero.
    pub fn saturating_sub(self, rhs: Self) -> (difference: Self)
        ensures
            difference.0 == (if rhs.0 <= self.0 {
                self.0 - rhs.0
            } else {
                0
            }),
    {
        BaseAtoms(self.0.saturating_sub(rhs.0))
    }

    /// Addition clamped at the largest representable value.
    pub fn saturating_add(self, rhs: Self) -> (sum: Self)
        ensures
            sum.0 == (if self.0 + rhs.0 <= u64::MAX {
                self.0 + rhs.0
            } else {
                u64::MAX as int
            }),
    {
        BaseAtoms(self.0.saturating_add(rhs.0))
    }

    /// The smaller of two values.
    pub fn min(self, rhs: Self) -> (least: Self)
        ensures
            least == (if self.0 < rhs.0 {
                self
            } else {
                rhs
            }),
    {
        if self.0 < rhs.0 {
            self
        } else {
            rhs
        }
    }

    /// The larger of two values.
    pub fn max(self, rhs: Self) -> (greatest: Self)
        ensures
            greatest == (if self.0 > rhs.0 {
                self
            } else {
                rhs
            }),
    {
        if self.0 > rhs.0 {
            self
        } else {
            rhs
        }
    }
}

impl Default for BaseAtoms {
    fn default() -> (zero: Self)
        ensures
            zero == BaseAtoms(0),
    {
        BaseAtoms(0)
    }
}

impl core::ops::Add for BaseAtoms {
    type Output = BaseAtoms;

    fn add(self, rhs: Self) -> (sum: Self) {
        BaseAtoms(self.0 + rhs.0)
    }
}

impl vstd::std_specs::ops::AddSpecImpl for BaseAtoms {
    open spec fn obeys_add_spec() -> bool {
        true
    }

    open spec fn add_req(self, rhs: Self) -> bool {
        self.0 + rhs.0 <= u64::MAX
    }

    open spec fn add_spec(self, rhs: Self) -> Self {
        BaseAtoms((self.0 + rhs.0) as u64)
    }
}

impl core::ops::Sub for BaseAtoms {
    type Output = BaseAtoms;

    fn sub(self, rhs: Self) -> (difference: Self) {
        BaseAtoms(self.0 - rhs.0)
    }
}

impl vstd::std_specs::ops::SubSpecImpl for BaseAtoms {
    open spec fn obeys_sub_spec() -> bool {
        true
    }

    open spec fn sub_req(self, rhs: Self) -> bool {
        rhs.0 <= self.0
    }

    open spec fn sub_spec(self, rhs: Self) -> Self {
        BaseAtoms((self.0 - rhs.0) as u64)
    }
}

impl core::ops::Mul<u64> for BaseAtoms {
    type Output = BaseAtoms;

    fn mul(self, rhs: u64) -> (product: Self) {
        BaseAtoms(self.0 * rhs)
    }
}

impl vstd::std_specs::ops::MulSpecImpl<u64> for BaseAtoms {
    open spec fn obeys_mul_spec() -> bool {
        true
    }

    open spec fn mul_req(self, rhs: u64) -> bool {
        self.0 * rhs <= u64::MAX
    }

    open spec fn mul_spec(self, rhs: u64) -> Self {
        BaseAtoms((self.0 * rhs) as u64)
    }
}

impl From<u64> for BaseAtoms {
    fn from(value: u64) -> (quantity: Self) {
        BaseAtoms(value)
    }
}

impl vstd::std_specs::convert::FromSpecImpl<u64> for BaseAtoms {
    open spec fn obeys_from_spec() -> bool {
        true
    }

    open spec fn from_spec(value: u64) -> Self {
        BaseAtoms(value)
    }
}

impl From<BaseAtoms> for u64 {
    fn from(value: BaseAtoms) -> (raw: u64) {
        value.0
    }
}

impl vstd::std_specs::convert::FromSpecImpl<BaseAtoms> for u64 {
    open spec fn obeys_from_spec() -> bool {
        true
    }

    open spec fn from_spec(value: BaseAtoms) -> u64 {
        value.0
    }
}

/// A raw quote-token amount, in the mint's smallest unit.
///
/// Operators ask for a result that fits. Use the `checked_*` methods where it may not.
#[derive(Copy, Clone, Debug, PartialEq, Eq, PartialOrd, Ord, Hash, Structural)]
pub struct QuoteAtoms(pub u64);

impl QuoteAtoms {
    /// Wraps a raw `u64`.
    pub fn new(value: u64) -> (quantity: Self)
        ensures
            quantity == QuoteAtoms(value),
    {
        QuoteAtoms(value)
    }

    /// Unwraps to the raw `u64`.
    pub fn as_u64(self) -> (value: u64)
        ensures
            value == self.0,
    {
        self.0
    }

    /// The number in decimal.
    pub fn display(self) -> (text: String)
        ensures
            text@ == digits(self.0 as nat),
    {
        decimal(self.0)
    }

    /// Whether this is zero.
    pub fn is_zero(self) -> (zero: bool)
        ensures
            zero == (self.0 == 0),
    {
        self.0 == 0
    }

    /// Addition, `None` on overflow.
    pub fn checked_add(self, rhs: Self) -> (sum: Option<Self>)
        ensures
            sum == (if self.0 + rhs.0 <= u64::MAX {
                Some(QuoteAtoms((self.0 + rhs.0) as u64))
            } else {
                None
            }),
    {
        match self.0.checked_add(rhs.0) {
            Some(v) => Some(QuoteAtoms(v)),
            None => None,
        }
    }

    /// Subtraction, `None` on underflow.
    pub fn checked_sub(self, rhs: Self) -> (difference: Option<Self>)
        ensures
            difference == (if rhs.0 <= self.0 {
                Some(QuoteAtoms((self.0 - rhs.0) as u64))
            } else {
                None
            }),
    {
        match self.0.checked_sub(rhs.0) {
            Some(v) => Some(QuoteAtoms(v)),
            None => None,
        }
    }

    /// Subtraction clamped at zero.
    pub fn saturating_sub(self, rhs: Self) -> (difference: Self)
        ensures
            difference.0 == (if rhs.0 <= self.0 {
                self.0 - rhs.0
            } else {
                0
            }),
    {
        QuoteAtoms(self.0.saturating_sub(rhs.0))
    }

    /// Addition clamped at the largest representable value.
    pub fn saturating_add(self, rhs: Self) -> (sum: Self)
        ensures
            sum.0 == (if self.0 + rhs.0 <= u64::MAX {
                self.0 + rhs.0
            } else {
                u64::MAX as int
            }),
    {
        QuoteAtoms(self.0.saturating_add(rhs.0))
    }

    /// The smaller of two values.
    pub fn min(self, rhs: Self) -> (least: Self)
        ensures
            least == (if self.0 < rhs.0 {
                self
            } else {
                rhs
            }),
    {
        if self.0 < rhs.0 {
            self
        } else {
            rhs
        }
    }

    /// The larger of two values.
    pub fn max(self, rhs: Self) -> (greatest: Self)
        ensures
            greatest == (if self.0 > rhs.0 {
                self
            } else {
                rhs
            }),
    {
        if self.0 > rhs.0 {
            self
        } else {
            rhs
        }
    }
}

impl Default for QuoteAtoms {
    fn default() -> (zero: Self)
        ensures
            zero == QuoteAtoms(0),
    {
        QuoteAtoms(0)
    }
}

impl core::ops::Add for QuoteAtoms {
    type Output = QuoteAtoms;

    fn add(self, rhs: Self) -> (sum: Self) {
        QuoteAtoms(self.0 + rhs.0)
    }
}

impl vstd::std_specs::ops::AddSpecImpl for QuoteAtoms {
    open spec fn obeys_add_spec() -> bool {
        true
    }

    open spec fn add_req(self, rhs: Self) -> bool {
        self.0 + rhs.0 <= u64::MAX
    }

    open spec fn add_spec(self, rhs: Self) -> Self {
        QuoteAtoms((self.0 + rhs.0) as u64)
    }
}

impl core::ops::Sub for QuoteAtoms {
    type Output = QuoteAtoms;

    fn sub(self, rhs: Self) -> (difference: Self) {
        QuoteAtoms(self.0 - rhs.0)
    }
}

impl vstd::std_specs::ops::SubSpecImpl for QuoteAtoms {
    open spec fn obeys_sub_spec() -> bool {
        true
    }

    open spec fn sub_req(self, rhs: Self) -> bool {
        rhs.0 <= self.0
    }

    open spec fn sub_spec(self, rhs: Self) -> Self {
        QuoteAtoms((self.0 - rhs.0) as u64)
    }
}

impl core::ops::Mul<u64> for QuoteAtoms {
    type Output = QuoteAtoms;

    fn mul(self, rhs: u64) -> (product: Self) {
        QuoteAtoms(self.0 * rhs)
    }
}

impl vstd::std_specs::ops::MulSpecImpl<u64> for QuoteAtoms {
    open spec fn obeys_mul_spec() -> bool {
        true
    }

    open spec fn mul_req(self, rhs: u64) -> bool {
        self.0 * rhs <= u64::MAX
    }

    open spec fn mul_spec(self, rhs: u64) -> Self {
        QuoteAtoms((self.0 * rhs) as u64)
    }
}

impl From<u64> for QuoteAtoms {
    fn from(value: u64) -> (quantity: Self) {
        QuoteAtoms(value)
    }
}

impl vstd::std_specs::convert::FromSpecImpl<u64> for QuoteAtoms {
    open spec fn obeys_from_spec() -> bool {
        true
    }

    open spec fn from_spec(value: u64) -> Self {
        QuoteAtoms(value)
    }
}

impl From<QuoteAtoms> for u64 {
    fn from(value: QuoteAtoms) -> (raw: u64) {
        value.0
    }
}

impl vstd::std_specs::convert::FromSpecImpl<QuoteAtoms> for u64 {
    open spec fn obeys_from_spec() -> bool {
        true
    }

    open spec fn from_spec(value: QuoteAtoms) -> u64 {
        value.0
    }
}

} // verus!
