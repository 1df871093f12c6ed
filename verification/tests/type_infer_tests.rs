use iguazu::csv_options::CsvImporter;
use iguazu::csv_records::{CsvEvent, CsvRecordReader, HeaderReader};
use iguazu::info::info_tree;
use iguazu::srzip::ImportError;
use iguazu::type_infer::{check_row_width, columns_tree, instant_from_pieces, prioritize_relative, ColumnZone, InferredKind, InferredTypes, TextPieces, TypeInfer};
use iguazu::type_infer::InferredKind::{AbsoluteTimestamp, Enum, Float, RelativeTimestamp};
use jiff::tz::{Offset, TimeZone};

fn strings(v: &[&str]) -> Vec<String> {
    v.iter().map(|s| s.to_string()).collect()
}

// The numeric facts (`relative`: the values are rising numbers; `float`: they
// are numbers of a finite range) are kept by the caller and handed in here,
// so the ranges of number columns are not checked in this test.
#[test]
fn test_infer_type() {
    let mut infer = TypeInfer::new(true);
    infer.update(b"2020-01-01T00:00:00-07:00");
    infer.update(b"2020-01-02T00:00:00-07:00");
    assert_eq!(infer.possible_kinds(false, false), vec![AbsoluteTimestamp, InferredKind::String]);
    assert_eq!(infer.as_absolute_timestamp(), Some(TimeZone::fixed(Offset::from_hours(-7).unwrap())));

    infer.update(b"not a timestamp");
    assert_eq!(infer.possible_kinds(false, false), vec![InferredKind::String]);

    let mut infer = TypeInfer::new(true);
    infer.update(b"1.5");
    infer.update(b"2.5");
    infer.update(b"3.5");
    assert_eq!(infer.possible_kinds(true, true), vec![RelativeTimestamp, Float, Enum, InferredKind::String]);
    assert_eq!(infer.as_enum(), Some(strings(&["1.5", "2.5", "3.5"])));

    infer.update(b"2.5");
    assert_eq!(infer.possible_kinds(false, true), vec![Float, Enum, InferredKind::String]);
    assert_eq!(infer.as_enum(), Some(strings(&["1.5", "2.5", "3.5"])));

    infer.update(b"x");
    assert_eq!(infer.possible_kinds(false, false), vec![Enum, InferredKind::String]);
    assert_eq!(infer.as_enum(), Some(strings(&["1.5", "2.5", "3.5", "x"])));

    let mut infer = TypeInfer::new(false);
    infer.update(b"1.5");
    infer.update(b"2.5");
    assert_eq!(infer.possible_kinds(true, true), vec![Float, RelativeTimestamp, Enum, InferredKind::String]);
    assert_eq!(infer.as_enum(), Some(strings(&["1.5", "2.5"])));

    let mut infer = TypeInfer::new(true);
    infer.update(b"red");
    infer.update(b"red");
    infer.update(b"green");
    infer.update(b"blue");
    assert_eq!(infer.possible_kinds(false, false), vec![Enum, InferredKind::String]);
    assert_eq!(infer.as_enum(), Some(strings(&["blue", "green", "red"])));

    for i in 0..29 {
        infer.update(format!("value{}", i).as_bytes());
    }
    assert!(infer.as_enum().is_some());

    infer.update(b"too many");
    assert_eq!(infer.possible_kinds(false, false), vec![InferredKind::String]);
}

#[test]
fn absolute_zone_sources() {
    let mut infer = TypeInfer::new(false);
    infer.update(b"2020-01-01T00:00:00");
    assert!(matches!(infer.absolute_zone(), Some(ColumnZone::Utc)));
    infer.update(b"2020-01-01T01:00:00-07:00");
    assert!(matches!(infer.absolute_zone(), Some(ColumnZone::Offset(-25200))));
    infer.update(b"2020-01-01T10:00:00+02:00");
    assert!(matches!(infer.absolute_zone(), Some(ColumnZone::Offset(-25200))));
    assert_eq!(infer.as_absolute_timestamp(), Some(TimeZone::fixed(Offset::from_hours(-7).unwrap())));
    infer.update(b"x");
    assert!(infer.absolute_zone().is_none());
}

#[test]
fn test_infer_timestamps_must_rise() {
    let mut infer = TypeInfer::new(false);
    infer.update(b"2020-01-02T00:00:00Z");
    infer.update(b"2020-01-02T00:00:00Z");
    assert_eq!(infer.as_absolute_timestamp(), Some(TimeZone::UTC));
    infer.update(b"2020-01-01T00:00:00Z");
    assert_eq!(infer.as_absolute_timestamp(), None);

    let mut infer = TypeInfer::new(false);
    infer.update(b"1969-12-31T23:59:59Z");
    assert_eq!(infer.as_absolute_timestamp(), None);
}

#[test]
fn test_infer_enum_limits() {
    let mut infer = TypeInfer::new(false);
    infer.update(b"exactly15bytes!");
    assert_eq!(infer.as_enum(), Some(strings(&["exactly15bytes!"])));
    infer.update(b"sixteen bytes!!!");
    assert_eq!(infer.as_enum(), None);

    let mut infer = TypeInfer::new(false);
    infer.update(&[0xff]);
    assert_eq!(infer.as_enum(), None);
}

#[test]
fn test_prioritize_relative() {
    assert!(prioritize_relative(0, "value"));
    assert!(prioritize_relative(3, "t"));
    assert!(prioritize_relative(3, "time"));
    assert!(prioritize_relative(3, "timestamp"));
    assert!(!prioritize_relative(3, "Time"));
    assert!(!prioritize_relative(1, "value"));
}

#[test]
fn test_check_row_width() {
    assert!(check_row_width(4, 3, 3).is_ok());
    match check_row_width(4, 2, 3) {
        Err(ImportError::InvalidFile(m)) => assert_eq!(m, "Line 4 has 2 columns, expected 3"),
        _ => panic!("expected an invalid-file error"),
    }
}

#[test]
fn test_columns_tree() {
    let names = strings(&["timestamp", "value", "enum", "str"]);
    let kinds = [InferredKind::AbsoluteTimestamp, InferredKind::Float, InferredKind::Enum, InferredKind::String];
    let tree = columns_tree("data.csv", &names, &kinds);
    let text = info_tree(&tree);
    let plain: std::string::String = strip_ansi(&text);
    assert_eq!(
        plain,
        "● data.csv (Record)\n├─● timestamp (Timestamp)\n├─● value (Float32)\n├─● enum (Enum)\n└─● str (VariableArray)\n  └─● inner (Char)\n"
    );
}

#[test]
fn test_columns_tree_repeated_name() {
    let names = strings(&["a", "b", "a"]);
    let kinds = [InferredKind::Float, InferredKind::Enum, InferredKind::String];
    let tree = columns_tree("f", &names, &kinds);
    assert_eq!(tree.children.len(), 2);
    assert_eq!(tree.children[0].name, "a");
    assert_eq!(tree.children[0].kind, "VariableArray");
    assert_eq!(tree.children[1].kind, "Enum");
}

fn strip_ansi(s: &str) -> std::string::String {
    let mut out = std::string::String::new();
    let mut chars = s.chars();
    while let Some(c) = chars.next() {
        if c == '\u{1b}' {
            for d in chars.by_ref() {
                if d == 'm' {
                    break;
                }
            }
        } else {
            out.push(c);
        }
    }
    out
}

// The inference half of the importer's CSV test: the records are read with
// the library's reader and each column's values go to a `TypeInfer`; which
// columns hold rising numbers of a finite range is handed in.
#[test]
fn test_csv() {
    let file = b"timestamp,value,enum,str\n2025-01-01T00:00:01Z,1.0,b,abc\n2025-01-01T00:00:01.100Z,2.0,a,\"1234567890,1234567890\"\n";
    let importer = CsvImporter::csv();
    let mut parser = CsvRecordReader::new(&importer);
    let mut pos = 0;
    let mut header = HeaderReader::new(&importer);
    while header.wants_records() {
        let (n, ev) = parser.step(&file[pos..]).ok().unwrap();
        pos += n;
        match ev {
            CsvEvent::Record { fields, .. } => assert!(header.record(&fields).is_ok()),
            CsvEvent::End => break,
            _ => {}
        }
    }
    let names = header.finish().ok().unwrap();
    assert_eq!(names, strings(&["timestamp", "value", "enum", "str"]));

    let mut types = InferredTypes::new(names);
    loop {
        let (n, ev) = parser.step(&file[pos..]).ok().unwrap();
        pos += n;
        match ev {
            CsvEvent::Record { line, fields } => assert!(types.row(line, &fields).is_ok()),
            CsvEvent::End => break,
            _ => {}
        }
    }
    let columns = types.types();
    let numeric = [(false, false), (true, true), (false, false), (false, false)];
    let kinds: Vec<InferredKind> =
        columns.iter().zip(numeric).map(|(c, (rel, float))| c.preferred_kind(rel, float)).collect();
    assert_eq!(kinds, vec![AbsoluteTimestamp, Float, Enum, InferredKind::String]);
    assert_eq!(columns[2].as_enum(), Some(strings(&["a", "b"])));
    assert_eq!(columns[0].as_absolute_timestamp(), Some(TimeZone::UTC));
}

#[test]
fn test_inferred_types_row() {
    let mut types = InferredTypes::new(vec!["time".to_string(), "v".to_string()]);
    assert!(types.row(1, &[b"2020-01-01T00:00:00Z".to_vec(), b"a".to_vec()]).is_ok());
    match types.row(2, &[b"x".to_vec()]) {
        Err(ImportError::InvalidFile(m)) => assert_eq!(m, "Line 2 has 1 columns, expected 2"),
        _ => panic!("expected an invalid-file error"),
    }
    assert_eq!(types.types()[0].possible_kinds(false, false), vec![AbsoluteTimestamp, InferredKind::String]);
    assert_eq!(types.types()[1].as_enum(), Some(strings(&["a"])));
    assert_eq!(types.names(), &["time".to_string(), "v".to_string()]);
}

#[test]
fn instants_of_date_and_time_parts() {
    let p = TextPieces { date: (2020, 1, 1), time: Some((0, 0, 0, 0)), offset: Some(-25200), annotated: false };
    assert_eq!(instant_from_pieces(&p), Some(1_577_862_000_000_000_000));
    let p = TextPieces { date: (2020, 1, 1), time: None, offset: None, annotated: false };
    assert_eq!(instant_from_pieces(&p), Some(1_577_836_800_000_000_000));
    let p = TextPieces { date: (2021, 2, 29), time: None, offset: None, annotated: false };
    assert_eq!(instant_from_pieces(&p), None);
    let p = TextPieces { date: (1969, 12, 31), time: Some((23, 59, 59, 500_000_000)), offset: None, annotated: false };
    assert_eq!(instant_from_pieces(&p), Some(-500_000_000));
    let p = TextPieces { date: (9999, 12, 31), time: Some((23, 59, 59, 0)), offset: Some(-93599), annotated: false };
    assert_eq!(instant_from_pieces(&p), None);
    let p = TextPieces { date: (9999, 12, 31), time: Some((23, 59, 59, 0)), offset: Some(93599), annotated: false };
    assert_eq!(instant_from_pieces(&p), Some(253_402_207_200_000_000_000));
    let p = TextPieces { date: (2020, 1, 1), time: Some((24, 0, 0, 0)), offset: None, annotated: false };
    assert_eq!(instant_from_pieces(&p), None);
}
