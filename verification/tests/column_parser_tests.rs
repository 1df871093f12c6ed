use iguazu::column::TimeUnit;
use iguazu::column_parser::{column_parser_kind, EntityShape, FieldKindShape, FieldShape, ParserKind};
use iguazu::element::ElementSize;
use iguazu::srzip::ImportError;

fn field(kind: FieldKindShape, desc: &str) -> FieldShape {
    FieldShape { kind, desc: desc.to_owned() }
}

fn mismatch(r: Result<ParserKind, ImportError>) -> String {
    match r {
        Err(ImportError::SchemaMismatch(m)) => m,
        _ => panic!("expected a schema mismatch"),
    }
}

#[test]
fn data_field_parsers() {
    let k = column_parser_kind(&EntityShape::Data(field(FieldKindShape::Float32 { pos: 0 }, "Float32")));
    assert!(matches!(k, Ok(ParserKind::Float32 { data: ElementSize::U32 })));
    let k = column_parser_kind(&EntityShape::Data(field(
        FieldKindShape::Enum { pos: 0, bits: 8, has_variants: false },
        "Enum",
    )));
    assert!(matches!(k, Ok(ParserKind::Enum8 { data: ElementSize::U8 })));
    let k = column_parser_kind(&EntityShape::Data(field(
        FieldKindShape::Timestamp { has_rate: true, has_epoch: true, unit: Some(TimeUnit::Millisecond) },
        "Timestamp",
    )));
    assert!(matches!(k, Ok(ParserKind::TimestampIso { data: ElementSize::U64, unit: TimeUnit::Millisecond })));
    let k = column_parser_kind(&EntityShape::Data(field(
        FieldKindShape::Timestamp { has_rate: true, has_epoch: false, unit: None },
        "Timestamp",
    )));
    assert!(matches!(k, Ok(ParserKind::TimestampRelative { data: ElementSize::U64 })));
}

#[test]
fn data_field_mismatches() {
    let m = mismatch(column_parser_kind(&EntityShape::Data(field(FieldKindShape::Float32 { pos: 4 }, "Float32 { pos: 4 }"))));
    assert_eq!(m, "Field type Float32 { pos: 4 } not supported in CSV column");
    let m = mismatch(column_parser_kind(&EntityShape::Data(field(
        FieldKindShape::Enum { pos: 0, bits: 9, has_variants: false },
        "Enum9",
    ))));
    assert_eq!(m, "Field type Enum9 not supported in CSV column");
    let m = mismatch(column_parser_kind(&EntityShape::Data(field(
        FieldKindShape::Enum { pos: 0, bits: 4, has_variants: true },
        "EnumV",
    ))));
    assert_eq!(m, "Field type EnumV not supported in CSV column");
    let m = mismatch(column_parser_kind(&EntityShape::Data(field(
        FieldKindShape::Timestamp { has_rate: false, has_epoch: true, unit: Some(TimeUnit::Second) },
        "Timestamp",
    ))));
    assert_eq!(m, "Timestamp rate must be defined");
    let m = mismatch(column_parser_kind(&EntityShape::Data(field(
        FieldKindShape::Timestamp { has_rate: true, has_epoch: true, unit: None },
        "Timestamp",
    ))));
    assert_eq!(m, "Timestamp unit must be s, ms, us, or ns");
    let m = mismatch(column_parser_kind(&EntityShape::Data(field(FieldKindShape::Character { pos: 0 }, "Character"))));
    assert_eq!(m, "Field type Character not supported in CSV column");
    let m = mismatch(column_parser_kind(&EntityShape::Data(field(FieldKindShape::Other, "Bits"))));
    assert_eq!(m, "Field type Bits not supported in CSV column");
}

#[test]
fn array_and_other_entities() {
    let k = column_parser_kind(&EntityShape::VariableArray(Ok(field(FieldKindShape::Character { pos: 0 }, "Character"))));
    assert!(matches!(k, Ok(ParserKind::String { ends: ElementSize::U64, chars: ElementSize::U8 })));
    let m = mismatch(column_parser_kind(&EntityShape::VariableArray(Ok(field(
        FieldKindShape::Float32 { pos: 0 },
        "Float32",
    )))));
    assert_eq!(m, "Field type Float32 not supported in CSV column");
    let m = mismatch(column_parser_kind(&EntityShape::VariableArray(Err("Group".to_owned()))));
    assert_eq!(m, "VariableArray child type Group not supported in CSV column");
    let m = mismatch(column_parser_kind(&EntityShape::Other("Record".to_owned())));
    assert_eq!(m, "Field type Record not supported in CSV column");
}
