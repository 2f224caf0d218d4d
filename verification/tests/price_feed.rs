use oracles::numbers::Natural;
use oracles::plutus::{decode, encode, PlutusData};
use oracles::price_feed::{
    cbor_encode_in_list, decode_enum, decode_struct, deserialize, encode_enum, encode_struct, serialize, DecodeError,
    GenericPriceFeed, IntervalBound, IntervalBoundType, PlutusCompatible, Signed, SyntheticPriceFeed, Validity,
};

fn feed() -> SyntheticPriceFeed {
    SyntheticPriceFeed {
        collateral_names: None,
        collateral_prices: vec![Natural::from_u64(3), Natural::from_u128(u128::MAX)],
        synthetic: "USDb".to_string(),
        denominator: Natural::from_u64(7),
        validity: Validity {
            lower_bound: IntervalBound::unix_timestamp(5, true),
            upper_bound: IntervalBound { bound_type: IntervalBoundType::PositiveInfinity, is_inclusive: false },
        },
    }
}

fn generic() -> GenericPriceFeed {
    GenericPriceFeed { price: Natural::from_u64(6500000), name: "ADA/USD#RAW".to_string(), timestamp: 1337 }
}

#[test]
fn feeds_are_read_as_they_were_written() {
    assert_eq!(deserialize::<SyntheticPriceFeed>(&serialize(&feed())), Ok(feed()));
    assert_eq!(deserialize::<GenericPriceFeed>(&serialize(&generic())), Ok(generic()));
}

#[test]
fn signed_feeds_are_read_as_they_were_written() {
    let signed = Signed { data: generic(), signature: vec![9; 64] };
    let read = deserialize::<Signed<GenericPriceFeed>>(&serialize(&signed)).unwrap();
    assert_eq!(read.data, generic());
    assert_eq!(read.signature, vec![9; 64]);
}

#[test]
fn feeds_without_names_are_signed() {
    let mut named = feed();
    named.collateral_names = Some(vec!["ADA".to_string(), "LENFI".to_string()]);
    assert_eq!(serialize(&named), serialize(&feed()));
}

#[test]
fn generic_feeds_have_a_form() {
    let mut expected = hex::decode("d8799f1a00632ea04b").unwrap();
    expected.extend_from_slice(b"ADA/USD#RAW");
    expected.extend_from_slice(&hex::decode("190539ff").unwrap());
    assert_eq!(serialize(&generic()), expected);
}

#[test]
fn published_feeds_stand_in_a_list() {
    let signed = Signed { data: generic(), signature: vec![9; 64] };
    let expected = format!("9f{}ff", hex::encode(serialize(&signed)));
    assert_eq!(cbor_encode_in_list(&signed), expected);
}

#[test]
fn booleans_and_bounds_are_variants() {
    assert_eq!(hex::encode(serialize(&true)), "d87a80");
    assert_eq!(hex::encode(serialize(&false)), "d87980");
    assert_eq!(deserialize::<bool>(&serialize(&true)), Ok(true));
    assert_eq!(deserialize::<bool>(&serialize(&false)), Ok(false));
    for bound in [IntervalBoundType::NegativeInfinity, IntervalBoundType::Finite(8), IntervalBoundType::PositiveInfinity] {
        assert_eq!(deserialize::<IntervalBoundType>(&serialize(&bound)), Ok(bound));
    }
    assert_eq!(IntervalBound::moment(8_000_000, true), IntervalBound::unix_timestamp(8, true));
}

fn constr(tag: u64, fields: Vec<PlutusData>) -> PlutusData {
    PlutusData::Constr { tag, any_constructor: None, indefinite: true, fields }
}

#[test]
fn bytes_that_are_no_feed_are_refused() {
    assert_eq!(deserialize::<u64>(&[0xff]), Err(DecodeError::Cbor));
    assert_eq!(Vec::<u64>::from_plutus(PlutusData::Int(1)), Err(DecodeError::ExpectedArray));
    assert_eq!(Natural::from_plutus(PlutusData::BoundedBytes(vec![])), Err(DecodeError::ExpectedBigInt));
    assert_eq!(Natural::from_plutus(PlutusData::BigNInt(vec![1])), Err(DecodeError::SignedInteger));
    assert_eq!(u64::from_plutus(PlutusData::BigUInt(vec![1; 9])), Err(DecodeError::OutOfRange));
    assert_eq!(bool::from_plutus(constr(123, vec![])), Err(DecodeError::UnexpectedBool));
    assert_eq!(String::from_plutus(PlutusData::Int(1)), Err(DecodeError::ExpectedBytes));
    assert_eq!(String::from_plutus(PlutusData::BoundedBytes(vec![0xff])), Err(DecodeError::Utf8));
    assert_eq!(GenericPriceFeed::from_plutus(PlutusData::Int(1)), Err(DecodeError::ExpectedStruct));
    assert_eq!(GenericPriceFeed::from_plutus(constr(122, vec![])), Err(DecodeError::StructTag(122)));
    assert_eq!(
        GenericPriceFeed::from_plutus(constr(121, vec![])),
        Err(DecodeError::FieldCount { expected: 3, found: 0 })
    );
    assert_eq!(bool::from_plutus(constr(120, vec![])), Err(DecodeError::EnumTag));
    let two = vec![PlutusData::Int(1), PlutusData::Int(2)];
    assert_eq!(bool::from_plutus(constr(121, two)), Err(DecodeError::EnumData));
    assert_eq!(IntervalBoundType::from_plutus(constr(124, vec![])), Err(DecodeError::UnexpectedVariant(3)));
    let unsigned = constr(121, vec![generic().to_plutus(), PlutusData::Int(1)]);
    assert!(matches!(Signed::<GenericPriceFeed>::from_plutus(unsigned), Err(DecodeError::UnexpectedSignature)));
}

#[test]
fn structs_and_variants_are_taken_apart() {
    let fields = decode_struct(encode_struct(vec![PlutusData::Int(1), PlutusData::Int(2)]), 2).unwrap();
    assert!(matches!(fields[..], [PlutusData::Int(1), PlutusData::Int(2)]));
    let (variant, value) = decode_enum(encode_enum(3, Some(PlutusData::Int(7)))).unwrap();
    assert_eq!(variant, 3);
    assert!(matches!(value, Some(PlutusData::Int(7))));
}

#[test]
fn trees_are_read_as_they_were_written() {
    let tree = constr(
        121,
        vec![
            PlutusData::Array { indefinite: true, items: vec![PlutusData::Int(-5), PlutusData::BigUInt(vec![1; 9])] },
            PlutusData::BoundedBytes(vec![1, 2, 3]),
            PlutusData::Pairs(vec![(PlutusData::Int(1), PlutusData::BoundedBytes(vec![]))]),
        ],
    );
    let bytes = encode(&tree);
    assert_eq!(hex::encode(&bytes), "d8799f9f24c249010101010101010101ff43010203a10140ff");
    assert_eq!(encode(&decode(&bytes).unwrap()), bytes);
    assert!(decode(&[0xff]).is_none());
}

#[test]
fn maps_are_written_with_their_length() {
    let tree = decode(&[0xbf, 0x02, 0x03, 0xff]).unwrap();
    assert_eq!(encode(&tree), [0xa1, 0x02, 0x03]);
}
