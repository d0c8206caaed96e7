//! Fixed-point coin amounts.

use vstd::prelude::*;
use crate::serialization::{
    Bound, DeserializeError, SerializeError, U64VarIntDeserializer, U64VarIntSerializer,
    in_range, u64_field,
};
use crate::varint::varint_bytes;

verus! {

/// Number of raw units in one coin.
pub const AMOUNT_DECIMAL_FACTOR: u64 = 1_000_000_000;

/// Number of decimal digits after the point that an amount can carry.
pub const AMOUNT_DECIMAL_DIGITS: u32 = 9;

/// A non-negative amount of coins, held as a raw `u64` in units of
/// `1 / AMOUNT_DECIMAL_FACTOR` coin. Every operation is checked or saturating.
#[derive(Clone, Copy, Debug, PartialEq, Eq, Structural, PartialOrd, Ord, Hash)]
pub struct Amount(pub u64);

impl View for Amount {
    type V = nat;

    open spec fn view(&self) -> nat {
        self.0 as nat
    }
}

impl Amount {
    /// The zero amount.
    pub fn zero() -> (r: Amount)
        ensures
            r@ == 0,
    {
        Amount(0)
    }

    /// The raw value, in units of `1 / AMOUNT_DECIMAL_FACTOR` coin.
    pub fn to_raw(&self) -> (r: u64)
        ensures
            r == self.0,
    {
        self.0
    }

    /// Builds an amount from its raw value.
    pub fn from_raw(raw: u64) -> (r: Amount)
        ensures
            r.0 == raw,
    {
        Amount(raw)
    }

    /// Sum of two amounts, capped at the largest raw value.
    pub fn saturating_add(self, amount: Amount) -> (r: Amount)
        ensures
            r@ == if self@ + amount@ > u64::MAX { u64::MAX as nat } else { self@ + amount@ },
    {
        Amount(self.0.saturating_add(amount.0))
    }

    /// Difference of two amounts, floored at zero.
    pub fn saturating_sub(self, amount: Amount) -> (r: Amount)
        ensures
            r@ == if self@ < amount@ { 0 } else { (self@ - amount@) as nat },
    {
        Amount(self.0.saturating_sub(amount.0))
    }

    /// Whether the amount is zero.
    pub fn is_zero(&self) -> (r: bool)
        ensures
            r == (self@ == 0),
    {
        self.0 == 0
    }

    /// Difference of two amounts, or `None` when it would be negative.
    pub fn checked_sub(self, amount: Amount) -> (r: Option<Amount>)
        ensures
            r == (if self@ >= amount@ { Some(Amount((self.0 - amount.0) as u64)) } else { None::<Amount> }),
    {
        if self.0 >= amount.0 {
            Some(Amount(self.0 - amount.0))
        } else {
            None
        }
    }

    /// Sum of two amounts, or `None` when it exceeds the largest raw value.
    pub fn checked_add(self, amount: Amount) -> (r: Option<Amount>)
        ensures
            r == (if self@ + amount@ <= u64::MAX { Some(Amount((self.0 + amount.0) as u64)) } else { None::<Amount> }),
    {
        match self.0.checked_add(amount.0) {
            Some(v) => Some(Amount(v)),
            None => None,
        }
    }

    /// Product with an integer, or `None` when it exceeds the largest raw value.
    pub fn checked_mul_u64(self, factor: u64) -> (r: Option<Amount>)
        ensures
            r == (if self@ * factor <= u64::MAX { Some(Amount((self.0 * factor) as u64)) } else { None::<Amount> }),
    {
        match self.0.checked_mul(factor) {
            Some(v) => Some(Amount(v)),
            None => None,
        }
    }

    /// Product with an integer, capped at the largest raw value.
    pub fn saturating_mul_u64(self, factor: u64) -> (r: Amount)
        ensures
            r@ == if self@ * factor > u64::MAX { u64::MAX as nat } else { (self@ * factor) as nat },
    {
        match self.0.checked_mul(factor) {
            Some(v) => Amount(v),
            None => Amount(u64::MAX),
        }
    }

    /// Quotient by an integer, rounded down, or `None` when the divisor is zero.
    pub fn checked_div_u64(self, factor: u64) -> (r: Option<Amount>)
        ensures
            r == (if factor != 0 { Some(Amount((self.0 / factor) as u64)) } else { None::<Amount> }),
    {
        if factor == 0 {
            None
        } else {
            Some(Amount(self.0 / factor))
        }
    }
}

/// Why a text does not denote an amount.
#[derive(Clone, Copy, Debug, PartialEq, Eq, Structural)]
pub enum AmountParseError {
    /// The text is not a decimal number.
    NotDecimal,
    /// The text uses an exponent (`1e3`).
    ScientificNotation,
    /// The number is strictly negative.
    Negative,
    /// The number has a digit below `1 / AMOUNT_DECIMAL_FACTOR`.
    TooPrecise,
    /// The number exceeds the largest amount.
    TooLarge,
}

/// `10` to the power `k`.
pub open spec fn pow10(k: nat) -> nat
    decreases k,
{
    if k == 0 {
        1
    } else {
        10 * pow10((k - 1) as nat)
    }
}

/// Raw value of the decimal `m * 10^-scale`, when it is a whole number of raw
/// units: trailing zeros of the mantissa are dropped until at most
/// `AMOUNT_DECIMAL_DIGITS` digits stand after the point.
pub open spec fn raw_of_decimal(m: nat, scale: nat) -> Option<nat>
    decreases scale,
{
    if scale <= AMOUNT_DECIMAL_DIGITS {
        Some(m * pow10((AMOUNT_DECIMAL_DIGITS - scale) as nat))
    } else if m % 10 == 0 {
        raw_of_decimal(m / 10, (scale - 1) as nat)
    } else {
        None
    }
}

/// Whether a text holds an exponent marker.
pub open spec fn has_exponent(s: Seq<char>) -> bool {
    exists|i: int| 0 <= i < s.len() && (s[i] == 'e' || s[i] == 'E')
}

/// Result of reading the decimal given by its sign, absolute mantissa and scale.
pub open spec fn amount_of_decimal(negative: bool, m: nat, scale: nat) -> Result<u64, AmountParseError> {
    if negative && m != 0 {
        Err(AmountParseError::Negative)
    } else {
        match raw_of_decimal(m, scale) {
            None => Err(AmountParseError::TooPrecise),
            Some(raw) => if raw <= u64::MAX {
                Ok(raw as u64)
            } else {
                Err(AmountParseError::TooLarge)
            },
        }
    }
}

/// Result of reading an amount from its decimal text.
pub open spec fn amount_of_text(s: Seq<char>) -> Result<u64, AmountParseError> {
    if has_exponent(s) {
        Err(AmountParseError::ScientificNotation)
    } else {
        match decimal_parts_of(s) {
            Err(too_precise) => if too_precise {
                Err(AmountParseError::TooPrecise)
            } else {
                Err(AmountParseError::NotDecimal)
            },
            Ok(parts) => amount_of_decimal(parts.0, parts.1 as nat, parts.2 as nat),
        }
    }
}

/// Sign, absolute mantissa and scale of the decimal number that a text denotes.
pub uninterp spec fn decimal_parts_of(s: Seq<char>) -> Result<(bool, u128, u32), bool>;

/// Decimal text of the quotient `n / d`.
pub uninterp spec fn decimal_quotient_text_of(n: u64, d: u64) -> Seq<char>;

/// Relies on `rust_decimal::Decimal::from_str_exact` to read a decimal number
/// without rounding: its sign, absolute mantissa and scale come back as plain
/// values; the error is `true` when the number has more digits than a decimal
/// holds exactly (`Error::Underflow`), `false` when the text is no number.
#[verifier::external_body]
fn parse_decimal(s: &str) -> (r: Result<(bool, u128, u32), bool>)
    ensures
        r == decimal_parts_of(s@),
{
    match rust_decimal::Decimal::from_str_exact(s) {
        Ok(d) => Ok((d.is_sign_negative(), d.mantissa().unsigned_abs(), d.scale())),
        Err(rust_decimal::Error::Underflow) => Err(true),
        Err(_) => Err(false),
    }
}

/// Relies on `rust_decimal::Decimal`'s division and `Display` to write `n / d`
/// in decimal.
#[verifier::external_body]
fn decimal_quotient_text(n: u64, d: u64) -> (r: String)
    requires
        d != 0,
    ensures
        r@ == decimal_quotient_text_of(n, d),
{
    (rust_decimal::Decimal::from(n) / rust_decimal::Decimal::from(d)).to_string()
}

/// Whether the text holds an `e` or an `E`.
fn text_has_exponent(s: &str) -> (r: bool)
    ensures
        r == has_exponent(s@),
{
    let n = s.unicode_len();
    let mut i: usize = 0;
    while i < n
        invariant
            n == s@.len(),
            i <= n,
            forall|j: int| 0 <= j < i ==> s@[j] != 'e' && s@[j] != 'E',
        decreases n - i,
    {
        let c = s.get_char(i);
        if c == 'e' || c == 'E' {
            return true;
        }
        i += 1;
    }
    false
}

proof fn lemma_pow10_grows(k: nat)
    ensures
        pow10(k) >= 1,
        k >= 1 ==> pow10(k) >= 10,
    decreases k,
{
    if k > 0 {
        lemma_pow10_grows((k - 1) as nat);
    }
}

/// Raw value of the decimal with absolute mantissa `m` and scale `scale`.
pub fn raw_from_decimal(mantissa: u128, scale: u32) -> (r: Result<u64, AmountParseError>)
    ensures
        r == amount_of_decimal(false, mantissa as nat, scale as nat),
{
    let mut m: u128 = mantissa;
    let mut sc: u32 = scale;
    while sc > AMOUNT_DECIMAL_DIGITS
        invariant
            raw_of_decimal(m as nat, sc as nat) == raw_of_decimal(mantissa as nat, scale as nat),
        decreases sc,
    {
        if m % 10 != 0 {
            return Err(AmountParseError::TooPrecise);
        }
        m = m / 10;
        sc = sc - 1;
    }
    if m > u64::MAX as u128 {
        proof {
            lemma_pow10_grows((AMOUNT_DECIMAL_DIGITS - sc) as nat);
            assert(m * pow10((AMOUNT_DECIMAL_DIGITS - sc) as nat) >= m) by (nonlinear_arith)
                requires pow10((AMOUNT_DECIMAL_DIGITS - sc) as nat) >= 1;
        }
        return Err(AmountParseError::TooLarge);
    }
    let mut v: u64 = m as u64;
    while sc < AMOUNT_DECIMAL_DIGITS
        invariant
            sc <= AMOUNT_DECIMAL_DIGITS,
            raw_of_decimal(mantissa as nat, scale as nat) == Some((v * pow10((AMOUNT_DECIMAL_DIGITS - sc) as nat)) as nat),
        decreases AMOUNT_DECIMAL_DIGITS - sc,
    {
        let ghost k = (AMOUNT_DECIMAL_DIGITS - sc - 1) as nat;
        assert(pow10((AMOUNT_DECIMAL_DIGITS - sc) as nat) == 10 * pow10(k));
        if v > u64::MAX / 10 {
            proof {
                lemma_pow10_grows(k);
                assert(v * (10 * pow10(k)) >= v * 10) by (nonlinear_arith)
                    requires pow10(k) >= 1;
            }
            return Err(AmountParseError::TooLarge);
        }
        assert(v * (10 * pow10(k)) == (v * 10) * pow10(k)) by (nonlinear_arith);
        v = v * 10;
        sc = sc + 1;
    }
    assert(pow10(0) == 1);
    assert(v * pow10((AMOUNT_DECIMAL_DIGITS - sc) as nat) == v) by (nonlinear_arith)
        requires pow10((AMOUNT_DECIMAL_DIGITS - sc) as nat) == 1;
    Ok(v)
}

impl Amount {
    /// Reads an amount from its decimal text (`"11.1"`), refusing negative
    /// numbers, exponents, digits below `1 / AMOUNT_DECIMAL_FACTOR` and numbers
    /// above the largest amount.
    pub fn from_str(s: &str) -> (r: Result<Amount, AmountParseError>)
        ensures
            r == (match amount_of_text(s@) {
                Ok(raw) => Ok::<Amount, AmountParseError>(Amount(raw)),
                Err(e) => Err(e),
            }),
    {
        if text_has_exponent(s) {
            return Err(AmountParseError::ScientificNotation);
        }
        match parse_decimal(s) {
            Err(too_precise) => if too_precise {
                Err(AmountParseError::TooPrecise)
            } else {
                Err(AmountParseError::NotDecimal)
            },
            Ok((negative, m, scale)) => Amount::from_decimal_parts(negative, m, scale),
        }
    }

    /// The amount that the decimal `(-1)^negative * mantissa * 10^-scale` coins
    /// denotes: refused when it is strictly negative, has a digit below
    /// `1 / AMOUNT_DECIMAL_FACTOR` or exceeds the largest amount.
    pub fn from_decimal_parts(negative: bool, mantissa: u128, scale: u32) -> (r: Result<Amount, AmountParseError>)
        ensures
            r == (match amount_of_decimal(negative, mantissa as nat, scale as nat) {
                Ok(raw) => Ok::<Amount, AmountParseError>(Amount(raw)),
                Err(e) => Err(e),
            }),
    {
        if negative && mantissa != 0 {
            return Err(AmountParseError::Negative);
        }
        match raw_from_decimal(mantissa, scale) {
            Ok(raw) => Ok(Amount(raw)),
            Err(e) => Err(e),
        }
    }

    /// The amount in decimal coins (`"11.111"`).
    pub fn to_string(&self) -> (r: String)
        ensures
            r@ == decimal_quotient_text_of(self.0, AMOUNT_DECIMAL_FACTOR),
    {
        decimal_quotient_text(self.0, AMOUNT_DECIMAL_FACTOR)
    }
}

/// The binary form of an amount: the varint of its raw value.
pub open spec fn amount_bytes(a: Amount) -> Seq<u8> {
    varint_bytes(a.0 as nat)
}

/// What reading an amount at the start of `b` gives: the amount and the number
/// of bytes it takes.
pub open spec fn amount_field(b: Seq<u8>, min: Bound, max: Bound) -> Result<(Amount, nat), DeserializeError> {
    match u64_field(b, min, max) {
        Ok((v, k)) => Ok((Amount(v), k)),
        Err(e) => Err(e),
    }
}

/// Reading back a written amount, whatever follows it, gives the amount and
/// the length of its binary form.
pub proof fn lemma_amount_round_trip(a: Amount, rest: Seq<u8>, min: Bound, max: Bound)
    requires
        in_range(a.0, min, max),
    ensures
        amount_field(amount_bytes(a) + rest, min, max) == Ok::<(Amount, nat), DeserializeError>(
            (a, amount_bytes(a).len()),
        ),
{
    crate::serialization::lemma_u64_field_round_trip(a.0, rest, min, max);
}

/// Bytes that an amount is read from start with that amount's binary form.
pub proof fn lemma_amount_canonical(b: Seq<u8>, min: Bound, max: Bound)
    requires
        amount_field(b, min, max) is Ok,
    ensures
        ({
            let (a, k) = amount_field(b, min, max).unwrap();
            k <= b.len() && b.subrange(0, k as int) == amount_bytes(a)
        }),
{
    crate::serialization::lemma_u64_field_canonical(b, min, max);
}

/// Writes amounts in binary form, within a range of raw values.
pub struct AmountSerializer {
    pub u64_serializer: U64VarIntSerializer,
}

impl AmountSerializer {
    /// A serializer for the amounts whose raw value lies from `min` to `max`.
    pub fn new(min: Bound, max: Bound) -> (r: AmountSerializer)
        ensures
            r.u64_serializer.min == min,
            r.u64_serializer.max == max,
    {
        AmountSerializer { u64_serializer: U64VarIntSerializer::new(min, max) }
    }

    /// Appends the binary form of `value` to `buffer`, or fails, writing
    /// nothing, when its raw value lies outside the range.
    pub fn serialize(&self, value: &Amount, buffer: &mut Vec<u8>) -> (r: Result<(), SerializeError>)
        ensures
            in_range(value.0, self.u64_serializer.min, self.u64_serializer.max) ==> r is Ok
                && final(buffer)@ == old(buffer)@ + amount_bytes(*value),
            !in_range(value.0, self.u64_serializer.min, self.u64_serializer.max) ==> r == Err::<
                (),
                SerializeError,
            >(SerializeError::NumberOutOfRange) && final(buffer)@ == old(buffer)@,
    {
        self.u64_serializer.serialize(&value.0, buffer)
    }
}

/// Reads amounts in binary form, within a range of raw values.
pub struct AmountDeserializer {
    pub u64_deserializer: U64VarIntDeserializer,
}

impl AmountDeserializer {
    /// A deserializer for the amounts whose raw value lies from `min` to `max`.
    pub fn new(min: Bound, max: Bound) -> (r: AmountDeserializer)
        ensures
            r.u64_deserializer.min == min,
            r.u64_deserializer.max == max,
    {
        AmountDeserializer { u64_deserializer: U64VarIntDeserializer::new(min, max) }
    }

    /// Reads the amount at position `pos` of `buffer`; returns it with the
    /// position that follows it.
    pub fn read_at(&self, buffer: &[u8], pos: usize) -> (r: Result<(Amount, usize), DeserializeError>)
        requires
            pos <= buffer@.len(),
        ensures
            match amount_field(
                buffer@.subrange(pos as int, buffer@.len() as int),
                self.u64_deserializer.min,
                self.u64_deserializer.max,
            ) {
                Ok((a, k)) => pos + k <= buffer@.len() && r == Ok::<(Amount, usize), DeserializeError>(
                    (a, (pos + k) as usize),
                ),
                Err(e) => r == Err::<(Amount, usize), DeserializeError>(e),
            },
    {
        match self.u64_deserializer.read_at(buffer, pos) {
            Ok((v, p)) => Ok((Amount(v), p)),
            Err(e) => Err(e),
        }
    }

    /// Reads the amount at the start of `buffer`; returns the bytes that
    /// follow it, and the amount.
    pub fn deserialize<'a>(&self, buffer: &'a [u8]) -> (r: Result<(&'a [u8], Amount), DeserializeError>)
        ensures
            match amount_field(buffer@, self.u64_deserializer.min, self.u64_deserializer.max) {
                Ok((a, k)) => r matches Ok((rest, b)) && b == a && rest@ == buffer@.subrange(
                    k as int,
                    buffer@.len() as int,
                ),
                Err(e) => r == Err::<(&'a [u8], Amount), DeserializeError>(e),
            },
    {
        match self.u64_deserializer.deserialize(buffer) {
            Ok((rest, v)) => Ok((rest, Amount(v))),
            Err(e) => Err(e),
        }
    }
}

} // verus!
