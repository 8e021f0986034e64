use gfa::GfaError;
use gfa::OptionalField;
use gfa::OptionalFieldValue;

#[test]
fn char_round_trip() {
    let v = OptionalFieldValue::PrintableChar('x');
    let text = v.render();
    assert_eq!(text, "A:x");
    assert_eq!(OptionalFieldValue::parse(&text), Ok(v));
}

#[test]
fn int_round_trip() {
    let v = OptionalFieldValue::SignedInt(-42);
    let text = v.render();
    assert_eq!(text, "i:-42");
    assert_eq!(OptionalFieldValue::parse(&text), Ok(v));
    assert_eq!(
        OptionalFieldValue::parse("i:0"),
        Ok(OptionalFieldValue::SignedInt(0))
    );
}

#[test]
fn int_extremes() {
    let v = OptionalFieldValue::SignedInt(i64::MIN);
    let text = v.render();
    assert_eq!(text, "i:-9223372036854775808");
    assert_eq!(OptionalFieldValue::parse(&text), Ok(v));
    let v = OptionalFieldValue::SignedInt(i64::MAX);
    let text = v.render();
    assert_eq!(text, "i:9223372036854775807");
    assert_eq!(OptionalFieldValue::parse(&text), Ok(v));
    assert_eq!(
        OptionalFieldValue::parse("i:9223372036854775808"),
        Err(GfaError::MalformedValue)
    );
    assert_eq!(
        OptionalFieldValue::parse("i:-9223372036854775809"),
        Err(GfaError::MalformedValue)
    );
}

#[test]
fn int_leading_zeros_decode_but_rerender_canonically() {
    let v = OptionalFieldValue::parse("i:007").unwrap();
    assert_eq!(v, OptionalFieldValue::SignedInt(7));
    assert_eq!(v.render(), "i:7");
}

#[test]
fn float_round_trip() {
    let v = OptionalFieldValue::Float(String::from("3.14"));
    let text = v.render();
    assert_eq!(text, "f:3.14");
    assert_eq!(OptionalFieldValue::parse(&text), Ok(v));
    assert_eq!(
        OptionalFieldValue::parse("f:-0.5"),
        Ok(OptionalFieldValue::Float(String::from("-0.5")))
    );
    assert_eq!(OptionalFieldValue::parse("f:1..2"), Err(GfaError::MalformedValue));
    assert_eq!(OptionalFieldValue::parse("f:"), Err(GfaError::MalformedValue));
    assert_eq!(OptionalFieldValue::parse("f:abc"), Err(GfaError::MalformedValue));
}

#[test]
fn string_and_json_round_trip() {
    let v = OptionalFieldValue::PrintableString(String::from("hello world"));
    let text = v.render();
    assert_eq!(text, "Z:hello world");
    assert_eq!(OptionalFieldValue::parse(&text), Ok(v));

    let v = OptionalFieldValue::JSON(String::from("{\"a\":1}"));
    let text = v.render();
    assert_eq!(text, "J:{\"a\":1}");
    assert_eq!(OptionalFieldValue::parse(&text), Ok(v));

    assert_eq!(OptionalFieldValue::parse("Z:a\tb"), Err(GfaError::MalformedValue));
}

#[test]
fn byte_array_encodes_one_hex_digit_per_nibble() {
    let v = OptionalFieldValue::ByteArray(vec![1, 10, 15]);
    let text = v.render();
    assert_eq!(text, "H:1af");
    assert_eq!(OptionalFieldValue::parse(&text), Ok(v));
}

#[test]
fn byte_array_decoding() {
    assert_eq!(
        OptionalFieldValue::parse("H:1af"),
        Ok(OptionalFieldValue::ByteArray(vec![1, 10, 15]))
    );
    assert_eq!(OptionalFieldValue::parse("H:1g"), Err(GfaError::MalformedValue));
    assert_eq!(OptionalFieldValue::parse("H:1A"), Err(GfaError::MalformedValue));
}

#[test]
fn int_array_round_trip() {
    let v = OptionalFieldValue::IntArray(vec![1, -2, 3]);
    let text = v.render();
    assert_eq!(text, "B:I1,-2,3");
    assert_eq!(OptionalFieldValue::parse(&text), Ok(v));
    assert_eq!(OptionalFieldValue::parse("B:I1,,2"), Err(GfaError::MalformedValue));
    assert_eq!(OptionalFieldValue::parse("B:I1,x"), Err(GfaError::MalformedValue));
}

#[test]
fn float_array_decoding_yields_floats() {
    let v = OptionalFieldValue::parse("B:f1.0,2.5").unwrap();
    match &v {
        OptionalFieldValue::FloatArray(toks) => {
            assert_eq!(toks, &vec![String::from("1.0"), String::from("2.5")]);
            let floats: Vec<f32> = toks.iter().map(|t| t.parse::<f32>().unwrap()).collect();
            assert_eq!(floats, vec![1.0f32, 2.5f32]);
        }
        _ => panic!("expected a float array"),
    }
    assert_eq!(v.render(), "B:f1.0,2.5");
}

#[test]
fn empty_arrays() {
    let v = OptionalFieldValue::ByteArray(vec![]);
    assert_eq!(v.render(), "H:");
    assert_eq!(OptionalFieldValue::parse("H:"), Ok(v));

    let v = OptionalFieldValue::IntArray(vec![]);
    assert_eq!(v.render(), "B:I");
    assert_eq!(OptionalFieldValue::parse("B:I"), Ok(v));

    let v = OptionalFieldValue::FloatArray(vec![]);
    assert_eq!(v.render(), "B:f");
    assert_eq!(OptionalFieldValue::parse("B:f"), Ok(v));
}

#[test]
fn unknown_type_code() {
    assert_eq!(OptionalFieldValue::parse("Q:x"), Err(GfaError::UnknownTypeCode));
    assert_eq!(OptionalFieldValue::parse("q:x"), Err(GfaError::UnknownTypeCode));
}

#[test]
fn malformed_shapes() {
    assert_eq!(OptionalFieldValue::parse(""), Err(GfaError::MalformedValue));
    assert_eq!(OptionalFieldValue::parse("A"), Err(GfaError::MalformedValue));
    assert_eq!(OptionalFieldValue::parse("Ax"), Err(GfaError::MalformedValue));
    assert_eq!(OptionalFieldValue::parse("A:xy"), Err(GfaError::MalformedValue));
    assert_eq!(OptionalFieldValue::parse("A:"), Err(GfaError::MalformedValue));
    assert_eq!(OptionalFieldValue::parse("B:"), Err(GfaError::MalformedValue));
    assert_eq!(OptionalFieldValue::parse("B:x1"), Err(GfaError::MalformedValue));
    assert_eq!(OptionalFieldValue::parse("i:abc"), Err(GfaError::MalformedValue));
    assert_eq!(OptionalFieldValue::parse("i:-"), Err(GfaError::MalformedValue));
}

#[test]
fn full_field_round_trip() {
    let f = OptionalField::new("RC", OptionalFieldValue::SignedInt(123));
    assert_eq!(f.tag, "RC");
    let text = f.render();
    assert_eq!(text, "RC:i:123");
    let parsed = OptionalField::parse(&text).unwrap();
    assert_eq!(parsed, f);
}

#[test]
fn field_without_colon_is_malformed() {
    assert_eq!(OptionalField::parse("notag"), Err(GfaError::MalformedValue));
    assert_eq!(OptionalField::parse(""), Err(GfaError::MalformedValue));
}

#[test]
fn field_with_bad_code_reports_unknown() {
    assert_eq!(OptionalField::parse("RC:Q:x"), Err(GfaError::UnknownTypeCode));
}
