use flashloan_rs::address::Address;
use flashloan_rs::calls::Call3;
use flashloan_rs::errors::FlashloanError;
use flashloan_rs::record::serialize_optional_u256;
use flashloan_rs::uint256::U256;

const DAI: [u8; 20] = [
    0x6b, 0x17, 0x54, 0x74, 0xe8, 0x90, 0x94, 0xc4, 0x4d, 0xa9, 0x8b, 0x95, 0x4e, 0xed, 0xea,
    0xc4, 0x95, 0x27, 0x1d, 0x0f,
];

fn addr(bytes: [u8; 20]) -> Address {
    Address::from_bytes(bytes.to_vec()).unwrap()
}

#[test]
fn parse_the_documented_record() {
    let text = "{\
            \"target\": \"0x0000000000000000000000000000000000000000\",\
            \"allowFailure\": false,\
            \"value\": \"0x0\",\
            \"callData\": \"0x0000000000000000000000000000000000000000000000000000000000000000\"\
        }";
    let call = Call3::try_from(text).unwrap();
    assert_eq!(call.target, Address::from_bytes(vec![0; 20]).unwrap());
    assert!(!call.allow_failure);
    assert_eq!(call.value, Some(U256::zero()));
    assert_eq!(call.data, vec![0; 32]);
}

#[test]
fn serialize_writes_the_canonical_record() {
    let call = Call3 {
        target: Address::default_lender(),
        allow_failure: false,
        value: None,
        data: vec![0xde, 0xad],
    };
    assert_eq!(
        call.to_record_string(),
        "{\"target\":\"0x1eb4cf3a948e7d72a198fe073ccb8c7a948cd853\",\
         \"allowFailure\":false,\"value\":\"0x0\",\"callData\":\"0xdead\"}"
    );
}

#[test]
fn round_trip_preserves_every_field() {
    let call = Call3 {
        target: addr(DAI),
        allow_failure: true,
        value: Some(U256 { w0: 0x1234, w1: 7, w2: 0, w3: 0xffff_ffff_ffff_ffff }),
        data: vec![0x09, 0x5e, 0xa7, 0xb3, 0x00, 0xff],
    };
    let text = call.to_record_string();
    let back = Call3::try_from(text.as_str()).unwrap();
    assert_eq!(back.target, call.target);
    assert_eq!(back.allow_failure, call.allow_failure);
    assert_eq!(back.value, call.value);
    assert_eq!(back.data, call.data);
}

#[test]
fn round_trip_writes_an_absent_value_as_zero() {
    let call = Call3 {
        target: addr(DAI),
        allow_failure: false,
        value: None,
        data: vec![],
    };
    let back = Call3::try_from(call.to_record_string().as_str()).unwrap();
    assert_eq!(back.value, Some(U256::zero()));
    assert_eq!(back.target, call.target);
    assert_eq!(back.data, call.data);
}

#[test]
fn parse_accepts_whitespace_and_decimal_value() {
    let text = "  {\n\t\"target\" : \"0x6b175474e89094c44da98b954eedeac495271d0f\" ,\r\n \
        \"allowFailure\" : true , \"value\" : \"1000000\" , \"callData\" : \"0xAB\" }  ";
    let call = Call3::try_from(text).unwrap();
    assert_eq!(call.target, addr(DAI));
    assert!(call.allow_failure);
    assert_eq!(call.value, Some(U256::from_u64(1_000_000)));
    assert_eq!(call.data, vec![0xab]);
}

#[test]
fn parse_accepts_a_record_without_value() {
    let text = "{\"target\":\"0x6b175474e89094c44da98b954eedeac495271d0f\",\
        \"allowFailure\":false,\"callData\":\"0x\"}";
    let call = Call3::try_from(text).unwrap();
    assert_eq!(call.value, None);
    assert_eq!(call.data, vec![]);
}

#[test]
fn parse_failure_carries_the_offending_input() {
    let text = "{\"allowFailure\":false,\"callData\":\"0x\"}";
    match Call3::try_from(text) {
        Err(FlashloanError::CallConstructionError(input)) => assert_eq!(input, text),
        other => panic!("expected a construction error, got {:?}", other),
    }
}

#[test]
fn parse_rejects_malformed_records() {
    let ok_target = "0x6b175474e89094c44da98b954eedeac495271d0f";
    // a short target
    assert!(Call3::try_from(
        "{\"target\":\"0x6b17\",\"allowFailure\":false,\"callData\":\"0x\"}"
    )
    .is_err());
    // a target with a non-hexadecimal digit
    assert!(Call3::try_from(
        "{\"target\":\"0x6b175474e89094c44da98b954eedeac495271d0g\",\
         \"allowFailure\":false,\"callData\":\"0x\"}"
    )
    .is_err());
    // an odd run of payload digits
    assert!(Call3::try_from(&format!(
        "{{\"target\":\"{}\",\"allowFailure\":false,\"callData\":\"0xabc\"}}",
        ok_target
    ))
    .is_err());
    // a boolean that is neither true nor false
    assert!(Call3::try_from(&format!(
        "{{\"target\":\"{}\",\"allowFailure\":maybe,\"callData\":\"0x\"}}",
        ok_target
    ))
    .is_err());
    // a value that is neither hexadecimal nor decimal
    assert!(Call3::try_from(&format!(
        "{{\"target\":\"{}\",\"allowFailure\":true,\"value\":\"ten\",\"callData\":\"0x\"}}",
        ok_target
    ))
    .is_err());
    // trailing text after the closing brace
    assert!(Call3::try_from(&format!(
        "{{\"target\":\"{}\",\"allowFailure\":true,\"callData\":\"0x\"}} x",
        ok_target
    ))
    .is_err());
    // an unknown member in place of the target
    assert!(Call3::try_from(&format!(
        "{{\"destination\":\"{}\",\"allowFailure\":true,\"callData\":\"0x\"}}",
        ok_target
    ))
    .is_err());
    // no record at all
    assert!(Call3::try_from("").is_err());
}

#[test]
fn parse_rejects_values_of_257_bits() {
    let ok_target = "0x6b175474e89094c44da98b954eedeac495271d0f";
    // 2^256 in hexadecimal: a one and 64 zeros
    let too_big_hex = format!("0x1{}", "0".repeat(64));
    assert!(Call3::try_from(&format!(
        "{{\"target\":\"{}\",\"allowFailure\":true,\"value\":\"{}\",\"callData\":\"0x\"}}",
        ok_target, too_big_hex
    ))
    .is_err());
    // 2^256 in decimal
    let too_big_dec =
        "115792089237316195423570985008687907853269984665640564039457584007913129639936";
    assert!(Call3::try_from(&format!(
        "{{\"target\":\"{}\",\"allowFailure\":true,\"value\":\"{}\",\"callData\":\"0x\"}}",
        ok_target, too_big_dec
    ))
    .is_err());
    // and one less than 2^256 is accepted
    let max_dec =
        "115792089237316195423570985008687907853269984665640564039457584007913129639935";
    let call = Call3::try_from(&format!(
        "{{\"target\":\"{}\",\"allowFailure\":true,\"value\":\"{}\",\"callData\":\"0x\"}}",
        ok_target, max_dec
    ))
    .unwrap();
    assert_eq!(
        call.value,
        Some(U256 {
            w0: u64::MAX,
            w1: u64::MAX,
            w2: u64::MAX,
            w3: u64::MAX,
        })
    );
}

#[test]
fn serialize_optional_u256_writes_hexadecimal() {
    assert_eq!(serialize_optional_u256(&None), "0x0");
    assert_eq!(serialize_optional_u256(&Some(U256::zero())), "0x0");
    assert_eq!(serialize_optional_u256(&Some(U256::from_u64(255))), "0xff");
    assert_eq!(serialize_optional_u256(&Some(U256::from_u64(0x1234_5678))), "0x12345678");
    let big = U256 { w0: 0, w1: 0, w2: 0, w3: 1 };
    assert_eq!(serialize_optional_u256(&Some(big)), format!("0x1{}", "0".repeat(48)));
}

#[test]
fn uint256_arithmetic_reads_digits() {
    let mut acc = U256::zero();
    assert!(acc.is_zero());
    for d in [1u64, 2, 3] {
        acc = acc.checked_mul_small_add(10, d).unwrap();
    }
    assert_eq!(acc, U256::from_u64(123));
    let max = U256 { w0: u64::MAX, w1: u64::MAX, w2: u64::MAX, w3: u64::MAX };
    assert!(max.checked_mul_small_add(10, 0).is_none());
    assert_eq!(max.checked_mul_small_add(1, 0), Some(max));
    let (q, r) = U256::from_u64(0x1f).div_rem_16();
    assert_eq!(q, U256::from_u64(1));
    assert_eq!(r, 0xf);
}

#[test]
fn address_must_hold_twenty_bytes() {
    assert!(Address::from_bytes(vec![0; 19]).is_none());
    assert!(Address::from_bytes(vec![0; 21]).is_none());
    let a = Address::from_bytes(vec![7; 20]).unwrap();
    assert_eq!(a.as_bytes(), &vec![7; 20]);
    assert_eq!(a.clone(), a);
    assert_ne!(a, Address::from_bytes(vec![8; 20]).unwrap());
}

#[test]
fn calls_compare_by_content() {
    let a = Call3 { target: addr(DAI), allow_failure: false, value: None, data: vec![1, 2] };
    let b = a.clone();
    assert_eq!(a, b);
    let c = Call3 { target: addr(DAI), allow_failure: false, value: None, data: vec![1, 3] };
    assert_ne!(a, c);
    let d = Call3 {
        target: addr(DAI),
        allow_failure: false,
        value: Some(U256::zero()),
        data: vec![1, 2],
    };
    assert_ne!(a, d);
}
