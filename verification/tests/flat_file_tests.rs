use iguazu::element::ElementSize;
use iguazu::flat_file::{flat_file_options, kind_for_filename, DataType, ScalarType};

const ALL: [DataType; 8] = [
    DataType::Binary,
    DataType::Logic,
    DataType::Real(ScalarType::Unsigned),
    DataType::Real(ScalarType::Signed),
    DataType::Real(ScalarType::Float),
    DataType::Complex(ScalarType::Unsigned),
    DataType::Complex(ScalarType::Signed),
    DataType::Complex(ScalarType::Float),
];

#[test]
fn test_data_type_names() {
    assert_eq!(DataType::from_str("b"), Some(DataType::Binary));
    assert_eq!(DataType::from_str("  logic\n"), Some(DataType::Logic));
    assert_eq!(DataType::from_str("u"), Some(DataType::Real(ScalarType::Unsigned)));
    assert_eq!(DataType::from_str("signed"), Some(DataType::Real(ScalarType::Signed)));
    assert_eq!(DataType::from_str("f"), Some(DataType::Real(ScalarType::Float)));
    assert_eq!(DataType::from_str("cu"), Some(DataType::Complex(ScalarType::Unsigned)));
    assert_eq!(DataType::from_str("complex_signed"), Some(DataType::Complex(ScalarType::Signed)));
    assert_eq!(DataType::from_str("cf"), Some(DataType::Complex(ScalarType::Float)));
    assert_eq!(DataType::from_str("real"), None);
    assert_eq!(DataType::from_str(""), None);
    assert_eq!(DataType::Complex(ScalarType::Unsigned).to_str(), "complex_unsigned");
    assert_eq!(DataType::Logic.to_str(), "logic");
}

#[test]
fn test_data_type_roundtrip() {
    for d in ALL {
        assert_eq!(DataType::from_str(d.to_str()), Some(d));
    }
}

#[test]
fn test_kind_for_filename() {
    assert_eq!(kind_for_filename(Some("capture.logic8")), (ElementSize::U8, DataType::Logic));
    assert_eq!(kind_for_filename(Some("iq.cf32")), (ElementSize::U32, DataType::Complex(ScalarType::Float)));
    assert_eq!(kind_for_filename(Some("a.b.s16")), (ElementSize::U16, DataType::Real(ScalarType::Signed)));
    assert_eq!(kind_for_filename(Some("samples.cu64")), (ElementSize::U64, DataType::Complex(ScalarType::Unsigned)));
    assert_eq!(kind_for_filename(Some("u32")), (ElementSize::U32, DataType::Real(ScalarType::Unsigned)));
    assert_eq!(kind_for_filename(Some("data.f32")), (ElementSize::U32, DataType::Real(ScalarType::Float)));
    assert_eq!(kind_for_filename(Some("data.u32.bin")), (ElementSize::U8, DataType::Binary));
    assert_eq!(kind_for_filename(Some("data.")), (ElementSize::U8, DataType::Binary));
    assert_eq!(kind_for_filename(None), (ElementSize::U8, DataType::Binary));
}

#[test]
fn test_flat_file_options() {
    let names: Vec<&str> = flat_file_options().iter().map(|o| o.name).collect();
    assert_eq!(names, vec!["bits", "dtype", "sample_rate", "offset", "count", "block_size"]);
}
