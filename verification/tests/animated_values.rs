use declavatar2::animated_wire::{decode_wire_value, WireValue};
use declavatar2::external::Extern;
use declavatar2::unity_external::Asset;
use declavatar2::value::AnimatedValueType;
use declavatar2::wire::{DecodeError, Encode, EncodeError, Reader, Writer};

fn bits(value: f64) -> u64 {
    value.to_bits()
}

fn written<R>(value: &WireValue<R>) -> Result<Vec<u8>, EncodeError>
where
    WireValue<R>: Encode,
{
    let mut writer = Writer::new();
    value.encode(&mut writer)?;
    Ok(writer.into_bytes())
}

fn read(bytes: &[u8], assets: usize) -> Result<WireValue<Extern<Asset>>, DecodeError> {
    let mut reader = Reader::new(bytes);
    let value = decode_wire_value(&mut reader, assets)?;
    reader.finish()?;
    Ok(value)
}

fn le(value: f64) -> [u8; 8] {
    value.to_bits().to_le_bytes()
}

#[test]
fn a_float_is_its_tag_and_its_bits() {
    let mut expected = vec![0u8];
    expected.extend(le(1.0));
    assert_eq!(written(&WireValue::<Extern<Asset>>::Float(bits(1.0))).unwrap(), expected);
    assert_eq!(expected, [0, 0, 0, 0, 0, 0, 0, 0xf0, 0x3f]);
}

#[test]
fn ints_and_flags_keep_their_own_widths() {
    let mut int = vec![1u8];
    int.extend((-2i64).to_le_bytes());
    assert_eq!(written(&WireValue::<Extern<Asset>>::Int(-2)).unwrap(), int);
    assert_eq!(written(&WireValue::<Extern<Asset>>::Bool(true)).unwrap(), [2, 1]);
    assert_eq!(written(&WireValue::<Extern<Asset>>::Bool(false)).unwrap(), [2, 0]);
}

#[test]
fn vectors_write_their_components_in_order() {
    let value = WireValue::<Extern<Asset>>::Quaternion(bits(0.1), bits(0.2), bits(0.3), bits(0.9));
    let mut expected = vec![6u8];
    for component in [0.1, 0.2, 0.3, 0.9] {
        expected.extend(le(component));
    }
    assert_eq!(written(&value).unwrap(), expected);
    assert_eq!(written(&WireValue::<Extern<Asset>>::Vector3(1, 2, 3)).unwrap().len(), 25);
    assert_eq!(written(&WireValue::<Extern<Asset>>::Color(1, 2, 3, 4)).unwrap()[0], 7);
}

#[test]
fn every_kind_of_value_reads_back() {
    let values = [
        WireValue::Float(bits(-0.5)),
        WireValue::Int(i64::MIN),
        WireValue::Bool(true),
        WireValue::Vector2(bits(1.0), bits(2.0)),
        WireValue::Vector3(bits(1.0), bits(2.0), bits(3.0)),
        WireValue::Vector4(bits(1.0), bits(2.0), bits(3.0), bits(4.0)),
        WireValue::Quaternion(bits(0.0), bits(0.0), bits(0.0), bits(1.0)),
        WireValue::Color(bits(0.25), bits(0.5), bits(0.75), bits(1.0)),
        WireValue::ObjectReference(Extern::from_index(2)),
    ];
    for value in values {
        let bytes = written(&value).unwrap();
        assert_eq!(read(&bytes, 3).unwrap(), value);
    }
}

#[test]
fn a_reference_must_point_into_the_asset_table() {
    let bytes = written(&WireValue::ObjectReference(Extern::<Asset>::from_index(3))).unwrap();
    assert_eq!(bytes, [8, 3, 0, 0, 0]);
    assert_eq!(read(&bytes, 3).unwrap_err(), DecodeError::ExternOutOfRange { kind: "asset", index: 3, len: 3 });
}

#[test]
fn a_reference_without_an_asset_cannot_be_written_or_read() {
    assert_eq!(
        written(&WireValue::ObjectReference(())).unwrap_err(),
        EncodeError::Unrepresentable("an object reference without an asset")
    );
    let mut reader = Reader::new(&[8]);
    assert_eq!(
        decode_wire_value::<()>(&mut reader, 0).unwrap_err(),
        DecodeError::InvalidDiscriminator { of_type: "AnimatedValue<()>", value: 8 }
    );
}

#[test]
fn an_unknown_tag_or_a_short_value_is_rejected() {
    assert_eq!(read(&[9], 0).unwrap_err(), DecodeError::InvalidDiscriminator { of_type: "AnimatedValue", value: 9 });
    assert_eq!(
        read(&[3, 0, 0, 0, 0, 0, 0, 0xf0, 0x3f, 1], 0).unwrap_err(),
        DecodeError::UnexpectedEnd { offset: 9, needed: 8, remaining: 1 }
    );
    assert_eq!(read(&[2, 2], 0).unwrap_err(), DecodeError::InvalidBool(2));
}

#[test]
fn every_value_knows_its_type() {
    let values: Vec<WireValue<()>> = vec![
        WireValue::Float(0),
        WireValue::Int(-3),
        WireValue::Bool(true),
        WireValue::Vector2(1, 2),
        WireValue::Vector3(1, 2, 3),
        WireValue::Vector4(1, 2, 3, 4),
        WireValue::Quaternion(1, 2, 3, 4),
        WireValue::Color(1, 2, 3, 4),
        WireValue::ObjectReference(()),
    ];
    let types: Vec<AnimatedValueType> = values.iter().map(|value| value.value_type()).collect();
    assert_eq!(
        types,
        vec![
            AnimatedValueType::Float,
            AnimatedValueType::Int,
            AnimatedValueType::Bool,
            AnimatedValueType::Vector2,
            AnimatedValueType::Vector3,
            AnimatedValueType::Vector4,
            AnimatedValueType::Quaternion,
            AnimatedValueType::Color,
            AnimatedValueType::ObjectReference,
        ]
    );
}

#[test]
fn zero_values_have_zero_components_and_the_identity_rotation() {
    assert_eq!(WireValue::<()>::Float(2.5f64.to_bits()).zeroed(), Some(WireValue::Float(0.0f64.to_bits())));
    assert_eq!(WireValue::<()>::Int(7).zeroed(), Some(WireValue::Int(0)));
    assert_eq!(WireValue::<()>::Bool(true).zeroed(), Some(WireValue::Bool(false)));
    assert_eq!(WireValue::<()>::Color(1, 2, 3, 4).zeroed(), Some(WireValue::Color(0, 0, 0, 0)));
    assert_eq!(
        WireValue::<()>::Quaternion(1, 2, 3, 4).zeroed(),
        Some(WireValue::Quaternion(0, 0, 0, 1.0f64.to_bits()))
    );
    assert_eq!(WireValue::ObjectReference(()).zeroed(), None);
}
