use oracles::archive::{to_payload, to_payloads, OraclePayload, PayloadValidity, SyntheticPrice};

fn payload(digits: &str) -> OraclePayload {
    OraclePayload {
        synthetic: "USDb".to_string(),
        synthetic_price: SyntheticPrice { numerator: "3".to_string(), denominator: "4".to_string() },
        validity: PayloadValidity { lower_bound: 5, upper_bound: 6 },
        payload: digits.to_string(),
    }
}

#[test]
fn payloads_are_kept_as_bytes() {
    let archived = to_payload("butane", &payload("00fFa1"), 77).unwrap();
    assert_eq!(archived.payload, Some(vec![0, 255, 161]));
    assert_eq!(archived.timestamp, 77);
    assert_eq!(archived.source.as_deref(), Some("butane"));
    assert_eq!(archived.synthetic.as_deref(), Some("USDb"));
    assert_eq!(archived.synthetic_numerator.as_deref(), Some("3"));
    assert_eq!(archived.synthetic_denominator.as_deref(), Some("4"));
    assert_eq!((archived.validity_lower, archived.validity_upper), (Some(5), Some(6)));
    assert!(archived.id.is_none() && archived.error_text.is_none());
}

#[test]
fn one_bad_payload_spoils_them_all() {
    assert!(to_payload("butane", &payload("0"), 0).is_none());
    assert!(to_payload("butane", &payload("0g"), 0).is_none());
    assert!(to_payloads("butane", &vec![payload("00"), payload("zz")], 0).is_none());
    assert_eq!(to_payloads("butane", &vec![payload("00"), payload("")], 0).unwrap().len(), 2);
}
