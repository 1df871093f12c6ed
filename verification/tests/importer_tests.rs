use iguazu::csv_options::CsvImporter;
use iguazu::config::{Configurable, OptionDescription};
use iguazu::entity::{EnumVariant, NamedColor};
use iguazu::formats::ImportOpts;
use iguazu::importer::{Importer, SrZipImporter};

fn as_importer(i: &mut dyn Importer) -> &mut dyn Importer {
    i
}

#[test]
fn test_importer_defaults() {
    let mut sr = SrZipImporter::new();
    let imp = as_importer(&mut sr);
    assert!(imp.options().is_empty());
    assert!(!imp.should_show_options());
    assert_eq!(imp.set("samplerate", "1"), Err("Unknown option".to_string()));
    assert_eq!(imp.get("samplerate"), None);
}

#[test]
fn test_importer_csv() {
    let mut csv = CsvImporter::csv();
    let imp = as_importer(&mut csv);
    assert!(imp.should_show_options());
    assert_eq!(imp.options().len(), 8);
    assert_eq!(imp.set("delimiter", ";"), Ok(()));
    assert_eq!(imp.get("delimiter"), Some(";".to_string()));
    assert_eq!(imp.set("nothing", "1"), Err("Unknown option".to_string()));
    assert_eq!(csv.delimiter(), b';');
}

struct Plain;

impl Configurable for Plain {}

struct Counter {
    count: u32,
}

impl Configurable for Counter {
    fn options(&self) -> Vec<OptionDescription> {
        vec![OptionDescription { name: "count", description: "A number" }]
    }

    fn set(&mut self, option: &str, value: &str) -> Result<(), String> {
        match option {
            "count" => {
                self.count = value.parse().map_err(|_| "Invalid number".to_string())?;
                Ok(())
            }
            _ => Err("Unknown option".to_string()),
        }
    }

    fn get(&self, option: &str) -> Option<String> {
        if option == "count" {
            Some(self.count.to_string())
        } else {
            None
        }
    }
}

#[test]
fn configurable_defaults() {
    let mut p = Plain;
    assert!(p.options().is_empty());
    assert_eq!(p.set("any", "1"), Err("Unknown option".to_string()));
    assert_eq!(p.get("any"), None);
}

#[test]
fn configurable_box_forwards() {
    let mut b = Box::new(Counter { count: 1 });
    assert_eq!(b.options().len(), 1);
    assert_eq!(b.options()[0].name, "count");
    assert_eq!(Configurable::get(&b, "count"), Some("1".to_string()));
    assert_eq!(Configurable::set(&mut b, "count", "42"), Ok(()));
    assert_eq!(Configurable::get(&b, "count"), Some("42".to_string()));
    assert_eq!(Configurable::set(&mut b, "count", "x"), Err("Invalid number".to_string()));
    assert_eq!(Configurable::set(&mut b, "other", "1"), Err("Unknown option".to_string()));
    assert_eq!(b.count, 42);
    let mut d: Box<dyn Configurable> = Box::new(Counter { count: 3 });
    assert_eq!(d.options().len(), 1);
    assert_eq!(d.set("count", "4"), Ok(()));
    assert_eq!(d.get("count"), Some("4".to_string()));
    let mut e: Box<dyn Configurable> = Box::new(Plain);
    assert_eq!(e.set("count", "4"), Err("Unknown option".to_string()));
}

fn opts(format: &str) -> ImportOpts {
    ImportOpts { filename: "a.csv".to_owned(), format: Some(format.to_owned()), schema: None, entity: None }
}

#[test]
fn apply_options_sets_each_pair() {
    let mut csv = CsvImporter::csv();
    assert_eq!(opts("csv:delimiter=;:skip=2").apply_options(&mut csv), Ok(()));
    assert_eq!(csv.delimiter(), b';');
    assert_eq!(Importer::get(&csv, "skip"), Some("2".to_string()));
}

#[test]
fn apply_options_reports_failures() {
    let mut csv = CsvImporter::csv();
    assert_eq!(
        opts("csv:delimiter=ab:skip=3:nothing").apply_options(&mut csv),
        Err("Invalid import options\n  - delimiter: Invalid single-byte value\n  - nothing: Unknown option".to_string())
    );
    assert_eq!(Importer::get(&csv, "skip"), Some("3".to_string()));
    let mut sr = SrZipImporter::new();
    assert_eq!(opts("sigrok").apply_options(&mut sr), Ok(()));
    assert_eq!(
        opts("sigrok:x=1").apply_options(&mut sr),
        Err("Invalid import options\n  - x: Unknown option".to_string())
    );
}

#[test]
fn named_colors() {
    let v = EnumVariant { color: Some(NamedColor::Red) };
    let w = v.clone();
    assert!(w.color == Some(NamedColor::Red));
    assert!(w.color != Some(NamedColor::Green));
    let none = EnumVariant { color: None };
    assert!(none.clone().color.is_none());
    let all = [
        NamedColor::White,
        NamedColor::Black,
        NamedColor::Red,
        NamedColor::Orange,
        NamedColor::Brown,
        NamedColor::Yellow,
        NamedColor::Green,
        NamedColor::Blue,
        NamedColor::Purple,
    ];
    for (i, a) in all.iter().enumerate() {
        for (j, b) in all.iter().enumerate() {
            assert_eq!(a == b, i == j);
        }
    }
}
