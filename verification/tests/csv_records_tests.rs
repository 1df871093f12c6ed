use iguazu::csv_options::CsvImporter;
use iguazu::csv_records::{decode_fields, CsvEvent, CsvRecordReader, HeaderReader, ReadStatus, Row};
use iguazu::srzip::ImportError;

/// Feeds `text` to a record reader in pieces of `piece` bytes, collecting
/// the records, as an importer reading from a buffered source does.
fn read_all(importer: &CsvImporter, text: &[u8], piece: usize) -> Vec<(u64, Vec<Vec<u8>>)> {
    let mut parser = CsvRecordReader::new(importer);
    let mut pos = 0;
    let mut records = Vec::new();
    loop {
        let end = (pos + piece).min(text.len());
        let (n, ev) = match parser.step(&text[pos..end]) {
            Ok(r) => r,
            Err(_) => panic!("reading failed"),
        };
        pos += n;
        match ev {
            CsvEvent::Record { line, fields } => records.push((line, fields)),
            CsvEvent::End => break,
            CsvEvent::NeedInput | CsvEvent::Grown => {}
        }
    }
    records
}

fn strs(fields: &[Vec<u8>]) -> Vec<String> {
    fields.iter().map(|f| String::from_utf8(f.clone()).unwrap()).collect()
}

fn invalid_file_message<T>(r: Result<T, ImportError>) -> String {
    match r {
        Err(ImportError::InvalidFile(m)) => m,
        _ => panic!("expected an invalid-file error"),
    }
}

fn columns(buf: &[u8], ends: &[usize]) -> Option<Vec<Vec<u8>>> {
    Row { line: 0, buf, col_ends: ends }.column_values()
}

#[test]
fn test_column_values() {
    let fields = columns(b"abcde", &[1, 1, 4, 5]).unwrap();
    assert_eq!(strs(&fields), vec!["a", "", "bcd", "e"]);
    assert_eq!(columns(b"abc", &[]).unwrap().len(), 0);
    assert!(columns(b"abc", &[2, 1]).is_none());
    assert!(columns(b"abc", &[4]).is_none());
}

#[test]
fn test_read_csv_records() {
    let text = b"timestamp,value,enum,str\n2025-01-01T00:00:01Z,1.0,b,abc\n2025-01-01T00:00:01.100Z,2.0,a,\"1234567890,1234567890\"\n";
    for piece in [1, 7, 1000] {
        let records = read_all(&CsvImporter::csv(), text, piece);
        assert_eq!(records.len(), 3);
        assert_eq!(strs(&records[0].1), vec!["timestamp", "value", "enum", "str"]);
        assert_eq!(strs(&records[1].1), vec!["2025-01-01T00:00:01Z", "1.0", "b", "abc"]);
        assert_eq!(
            strs(&records[2].1),
            vec!["2025-01-01T00:00:01.100Z", "2.0", "a", "1234567890,1234567890"]
        );
        assert_eq!(records[0].0, 1);
        assert_eq!(records[1].0, 2);
        assert_eq!(records[2].0, 3);
    }
}

#[test]
fn test_read_tsv_records() {
    let text = b"a\tb\n\"x\"\t2";
    let records = read_all(&CsvImporter::tsv(), text, 3);
    assert_eq!(records.len(), 2);
    assert_eq!(strs(&records[0].1), vec!["a", "b"]);
    assert_eq!(strs(&records[1].1), vec!["\"x\"", "2"]);
}

#[test]
fn test_read_grows_buffers() {
    let long = "x".repeat(3000);
    let many = vec!["1"; 300].join(",");
    let text = format!("{long},y\n{many}\n");
    let records = read_all(&CsvImporter::csv(), text.as_bytes(), 100);
    assert_eq!(records.len(), 2);
    assert_eq!(strs(&records[0].1), vec![long.as_str(), "y"]);
    assert_eq!(records[1].1.len(), 300);
}

#[test]
fn test_advance() {
    let mut parser = CsvRecordReader::new(&CsvImporter::csv());
    assert!(matches!(parser.advance(ReadStatus::InputEmpty, 0, 0, 1), Ok(CsvEvent::NeedInput)));
    assert!(matches!(parser.advance(ReadStatus::OutputFull, 0, 0, 1), Ok(CsvEvent::Grown)));
    match parser.advance(ReadStatus::Record, 0, 1, 1) {
        Ok(CsvEvent::Record { line, fields }) => {
            assert_eq!(line, 0);
            assert_eq!(fields.len(), 1);
            assert!(fields[0].is_empty());
        }
        _ => panic!("expected a record"),
    }
    assert!(matches!(parser.advance(ReadStatus::End, 0, 0, 1), Ok(CsvEvent::End)));
}

#[test]
fn test_decode_fields() {
    let names = decode_fields(&[b"t".to_vec(), "wert\u{e4}".as_bytes().to_vec()]).unwrap();
    assert_eq!(names, vec!["t".to_string(), "wert\u{e4}".to_string()]);
    assert!(decode_fields(&[b"ok".to_vec(), vec![0xff]]).is_none());
}

#[test]
fn test_header_reader() {
    let mut importer = CsvImporter::csv();
    importer.set("skip", "1").unwrap();
    let mut h = HeaderReader::new(&importer);
    assert!(h.wants_records());
    assert!(h.record(&[b"# a comment".to_vec()]).is_ok());
    assert!(h.wants_records());
    assert!(h.record(&[b"t".to_vec(), b"v".to_vec()]).is_ok());
    assert!(!h.wants_records());
    assert_eq!(h.finish().ok().unwrap(), vec!["t".to_string(), "v".to_string()]);

    let mut importer = CsvImporter::csv();
    importer.set("columns", "a, b").unwrap();
    let h = HeaderReader::new(&importer);
    assert!(!h.wants_records());
    assert_eq!(h.finish().ok().unwrap(), vec!["a".to_string(), "b".to_string()]);

    let h = HeaderReader::new(&CsvImporter::csv());
    assert_eq!(invalid_file_message(h.finish()), "CSV file ended before header row");

    let mut h = HeaderReader::new(&CsvImporter::csv());
    assert_eq!(invalid_file_message(h.record(&[vec![0xff]])), "Failed to parse header row as UTF-8");
    assert!(h.wants_records());
}

#[test]
fn test_header_from_records() {
    let text = b"skipped line\nx,y\n1,2\n";
    let mut importer = CsvImporter::csv();
    importer.set("skip", "1").unwrap();
    let mut h = HeaderReader::new(&importer);
    for (_, fields) in read_all(&importer, text, 4) {
        if !h.wants_records() {
            break;
        }
        assert!(h.record(&fields).is_ok());
    }
    assert_eq!(h.finish().ok().unwrap(), vec!["x".to_string(), "y".to_string()]);
}
