use massa_execution::amount::{Amount, AmountDeserializer, AmountParseError, AmountSerializer};
use massa_execution::serialization::{Bound, DeserializeError, SerializeError};

#[test]
fn amount_parsing() {
    assert_eq!(Amount::from_str("11.1"), Ok(Amount::from_raw(11_100_000_000)));
    assert_eq!(Amount::from_str("11.1111111111111111111111"), Err(AmountParseError::TooPrecise));
    assert_eq!(Amount::from_str("1111111111111111111111"), Err(AmountParseError::TooLarge));
    assert_eq!(Amount::from_str("-11.1"), Err(AmountParseError::Negative));
    assert_eq!(Amount::from_str("abc"), Err(AmountParseError::NotDecimal));
}

#[test]
fn amount_parsing_edges() {
    assert_eq!(Amount::from_str("0"), Ok(Amount::zero()));
    assert_eq!(Amount::from_str("0.000000001"), Ok(Amount::from_raw(1)));
    assert_eq!(Amount::from_str("0.0000000001"), Err(AmountParseError::TooPrecise));
    assert_eq!(Amount::from_str("18446744073.709551615"), Ok(Amount::from_raw(u64::MAX)));
    assert_eq!(Amount::from_str("18446744073.709551616"), Err(AmountParseError::TooLarge));
    assert_eq!(Amount::from_str("1.50000000000"), Ok(Amount::from_raw(1_500_000_000)));
    assert_eq!(Amount::from_str("1e3"), Err(AmountParseError::ScientificNotation));
    assert_eq!(Amount::from_str("1E3"), Err(AmountParseError::ScientificNotation));
}

#[test]
fn amount_display() {
    assert_eq!(Amount::from_str("11.111").unwrap().to_string(), "11.111");
    assert_eq!(Amount::from_raw(42_000_000_000).to_string(), "42");
    assert_eq!(Amount::from_raw(1).to_string(), "0.000000001");
}

#[test]
fn amount_checked_arithmetic() {
    let a = Amount::from_str("42").unwrap();
    let b = Amount::from_str("7").unwrap();
    assert_eq!(a.checked_sub(b), Some(Amount::from_str("35").unwrap()));
    assert_eq!(a.checked_add(b), Some(Amount::from_str("49").unwrap()));
    assert_eq!(a.checked_mul_u64(7), Some(Amount::from_str("294").unwrap()));
    assert_eq!(a.saturating_mul_u64(7), Amount::from_str("294").unwrap());
    assert_eq!(a.checked_div_u64(7), Some(Amount::from_str("6").unwrap()));
    assert_eq!(b.checked_sub(a), None);
    assert_eq!(Amount::from_raw(u64::MAX).checked_add(Amount::from_raw(1)), None);
    assert_eq!(Amount::from_raw(u64::MAX).checked_mul_u64(2), None);
    assert_eq!(a.checked_div_u64(0), None);
}

#[test]
fn amount_saturating_arithmetic() {
    assert_eq!(Amount::from_raw(u64::MAX).saturating_add(Amount::from_raw(5)), Amount::from_raw(u64::MAX));
    assert_eq!(Amount::from_raw(3).saturating_add(Amount::from_raw(5)), Amount::from_raw(8));
    assert_eq!(Amount::from_raw(3).saturating_sub(Amount::from_raw(5)), Amount::zero());
    assert_eq!(Amount::from_raw(9).saturating_sub(Amount::from_raw(5)), Amount::from_raw(4));
    assert_eq!(Amount::from_raw(u64::MAX).saturating_mul_u64(3), Amount::from_raw(u64::MAX));
    assert!(Amount::zero().is_zero());
    assert!(!Amount::from_raw(1).is_zero());
    assert_eq!(Amount::from_raw(77).to_raw(), 77);
}

#[test]
fn amount_serialization_round_trip() {
    let amount = Amount::from_str("11.111").unwrap();
    let serializer = AmountSerializer::new(Bound::Included(0), Bound::Included(u64::MAX));
    let deserializer = AmountDeserializer::new(Bound::Included(0), Bound::Included(u64::MAX));
    let mut serialized = vec![];
    serializer.serialize(&amount, &mut serialized).unwrap();
    let (rest, amount_deser) = deserializer.deserialize(&serialized).unwrap();
    assert!(rest.is_empty());
    assert_eq!(amount_deser, amount);
}

#[test]
fn amount_binary_form() {
    let serializer = AmountSerializer::new(Bound::Included(0), Bound::Included(u64::MAX));
    let mut out = vec![];
    serializer.serialize(&Amount::from_raw(300), &mut out).unwrap();
    assert_eq!(out, vec![0xAC, 0x02]);
    let mut out = vec![];
    serializer.serialize(&Amount::from_raw(u64::MAX), &mut out).unwrap();
    assert_eq!(out, vec![0xFF, 0xFF, 0xFF, 0xFF, 0xFF, 0xFF, 0xFF, 0xFF, 0xFF, 0x01]);
    let deserializer = AmountDeserializer::new(Bound::Included(0), Bound::Included(u64::MAX));
    let (rest, a) = deserializer.deserialize(&out).unwrap();
    assert!(rest.is_empty());
    assert_eq!(a, Amount::from_raw(u64::MAX));
}

#[test]
fn amount_serialization_errors() {
    let serializer = AmountSerializer::new(Bound::Included(0), Bound::Excluded(100));
    let mut out = vec![9];
    assert_eq!(serializer.serialize(&Amount::from_raw(100), &mut out), Err(SerializeError::NumberOutOfRange));
    assert_eq!(out, vec![9]);
    let deserializer = AmountDeserializer::new(Bound::Excluded(5), Bound::Unbounded);
    assert_eq!(deserializer.deserialize(&[5]), Err(DeserializeError::NumberOutOfRange));
    assert_eq!(deserializer.deserialize(&[0x80]), Err(DeserializeError::InvalidVarint));
    assert_eq!(deserializer.deserialize(&[0x86, 0x00]), Err(DeserializeError::InvalidVarint));
    assert_eq!(deserializer.deserialize(&[]), Err(DeserializeError::InvalidVarint));
    let too_long = [0xFF, 0xFF, 0xFF, 0xFF, 0xFF, 0xFF, 0xFF, 0xFF, 0xFF, 0x02];
    assert_eq!(deserializer.deserialize(&too_long), Err(DeserializeError::InvalidVarint));
    let (rest, a) = deserializer.deserialize(&[6, 1, 2]).unwrap();
    assert_eq!(rest, &[1, 2]);
    assert_eq!(a, Amount::from_raw(6));
}

#[test]
fn amount_refuses_digits_a_decimal_cannot_hold() {
    assert_eq!(Amount::from_str("1.00000000000000000000000000001"), Err(AmountParseError::TooPrecise));
    assert_eq!(Amount::from_str("1.0000000000000000000000000000"), Ok(Amount::from_raw(1_000_000_000)));
}

#[test]
fn amount_from_decimal_parts() {
    assert_eq!(Amount::from_decimal_parts(false, 111, 1), Ok(Amount::from_raw(11_100_000_000)));
    assert_eq!(Amount::from_decimal_parts(true, 0, 3), Ok(Amount::zero()));
    assert_eq!(Amount::from_decimal_parts(true, 5, 0), Err(AmountParseError::Negative));
    assert_eq!(Amount::from_decimal_parts(false, 15, 10), Err(AmountParseError::TooPrecise));
    assert_eq!(Amount::from_decimal_parts(false, 1500, 11), Ok(Amount::from_raw(15)));
    assert_eq!(Amount::from_decimal_parts(false, 150, 11), Err(AmountParseError::TooPrecise));
    assert_eq!(Amount::from_decimal_parts(false, 18_446_744_074, 0), Err(AmountParseError::TooLarge));
}
