use iguazu::formats::{exporters, importers, report_option_errors, ExportOpts, ImportFormats, ImportOpts};

fn opts(filename: &str, format: Option<&str>) -> ImportOpts {
    ImportOpts { filename: filename.to_owned(), format: format.map(|f| f.to_owned()), schema: None, entity: None }
}

#[test]
fn import_format_by_name_or_filename() {
    let list = importers();
    let formats = ImportFormats(&list);
    assert_eq!(formats.by_name("CSV").unwrap().name, "csv");
    assert!(formats.by_name("xls").is_none());
    assert_eq!(formats.first_for_filename("data.tsv").unwrap().name, "tsv");
    assert_eq!(formats.first_for_filename("a.iguazu.json").unwrap().name, "virtual");
    assert_eq!(formats.first_for_filename("signal.cs16").unwrap().name, "raw");
    assert!(formats.first_for_filename("notes.txt").is_none());

    assert_eq!(opts("x.bin", Some("sigrok:foo=1")).format(&formats).unwrap().name, "sigrok");
    assert_eq!(opts("x.sr", None).format(&formats).unwrap().name, "sigrok");
    assert_eq!(opts("x.sr", Some("nope")).format(&formats).err().unwrap(), "No import format `nope`");
    assert_eq!(
        opts("x.txt", None).format(&formats).err().unwrap(),
        "No import format matched filename `x.txt`"
    );
}

#[test]
fn import_format_name_and_options() {
    let o = opts("x", Some("csv:delimiter=;:skip=2:double_quote"));
    assert_eq!(o.format_name(), Some("csv"));
    assert_eq!(
        o.format_options(),
        vec![
            ("delimiter".to_owned(), ";".to_owned()),
            ("skip".to_owned(), "2".to_owned()),
            ("double_quote".to_owned(), String::new()),
        ]
    );
    let o = opts("x", Some("csv:columns=a=b"));
    assert_eq!(o.format_options(), vec![("columns".to_owned(), "a=b".to_owned())]);
    let o = opts("x", None);
    assert_eq!(o.format_name(), None);
    assert!(o.format_options().is_empty());
}

#[test]
fn export_format_choice() {
    let list = exporters();
    let by_name = ExportOpts { out_filename: "out.bin".to_owned(), out_format: Some("IZS".to_owned()) };
    assert_eq!(by_name.exporter(&list).unwrap().name, "izs");
    let by_file = ExportOpts { out_filename: "out.iguazu.json".to_owned(), out_format: None };
    assert_eq!(by_file.exporter(&list).unwrap().name, "virtual");
    let none = ExportOpts { out_filename: "out.csv".to_owned(), out_format: None };
    assert_eq!(none.exporter(&list).err().unwrap(), "No export format matched filename `out.csv`");
    let bad = ExportOpts { out_filename: "out.csv".to_owned(), out_format: Some("csv".to_owned()) };
    assert_eq!(bad.exporter(&list).err().unwrap(), "No export format named `csv`");
}

#[test]
fn option_error_report() {
    assert_eq!(report_option_errors(&[]), Ok(()));
    assert_eq!(
        report_option_errors(&[
            ("skip".to_owned(), "Invalid integer value".to_owned()),
            ("colour".to_owned(), "Unknown option".to_owned()),
        ]),
        Err("Invalid import options\n  - skip: Invalid integer value\n  - colour: Unknown option".to_owned())
    );
}
