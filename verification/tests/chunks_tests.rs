use iguazu::chunks::find_chunks;
use iguazu::zip::{find_entry, ZipEntryInfo};

fn entry(name: &str, offset: u64) -> ZipEntryInfo {
    ZipEntryInfo {
        name: name.as_bytes().to_vec(),
        extra_len: 0,
        compression: 0,
        compressed_size: 1,
        uncompressed_size: 1,
        data_offset: offset,
    }
}

fn names(entries: &[ZipEntryInfo]) -> Vec<String> {
    entries.iter().map(|e| String::from_utf8(e.name.clone()).unwrap()).collect()
}

#[test]
fn test_find_chunks_single_entry() {
    let mut entries = vec![entry("version", 0), entry("logic-1", 1), entry("logic", 2), entry("metadata", 3)];
    let found = find_chunks(&mut entries, b"logic");
    assert_eq!(names(&found), vec!["logic"]);
    assert_eq!(found[0].data_offset, 2);
    assert_eq!(names(&entries), vec!["version", "logic-1", "metadata"]);
}

#[test]
fn test_find_chunks_numeric_order() {
    let mut entries = vec![
        entry("version", 0),
        entry("logic-1-10", 1),
        entry("logic-1-2", 2),
        entry("metadata", 3),
        entry("logic-1-1", 4),
        entry("logic-1-x", 5),
        entry("logic-1-01", 6),
        entry("logic-1-1234567890", 7),
        entry("analog-1-1-1", 8),
    ];
    let found = find_chunks(&mut entries, b"logic-1");
    assert_eq!(names(&found), vec!["logic-1-01", "logic-1-1", "logic-1-2", "logic-1-10"]);
    assert_eq!(
        names(&entries),
        vec!["version", "metadata", "logic-1-x", "logic-1-1234567890", "analog-1-1-1"]
    );
}

#[test]
fn test_find_chunks_none() {
    let mut entries = vec![entry("version", 0), entry("metadata", 1)];
    let found = find_chunks(&mut entries, b"logic-1");
    assert!(found.is_empty());
    assert_eq!(names(&entries), vec!["version", "metadata"]);
}

#[test]
fn test_find_entry() {
    let entries = vec![entry("version", 0), entry("metadata", 1), entry("logic-1-1", 2)];
    assert_eq!(find_entry(&entries, b"metadata"), Some(1));
    assert_eq!(find_entry(&entries, b"version"), Some(0));
    assert_eq!(find_entry(&entries, b"logic"), None);
}

fn directory_record(name: &[u8], offset: u32) -> Vec<u8> {
    let mut r = vec![0u8; 46];
    r[0..4].copy_from_slice(&0x02014b50u32.to_le_bytes());
    r[20..24].copy_from_slice(&5u32.to_le_bytes());
    r[24..28].copy_from_slice(&5u32.to_le_bytes());
    r[28..30].copy_from_slice(&(name.len() as u16).to_le_bytes());
    r[42..46].copy_from_slice(&offset.to_le_bytes());
    r.extend_from_slice(name);
    r
}

#[test]
fn directory_entries_in_name_order() {
    let mut dir = directory_record(b"metadata", 0);
    dir.extend(directory_record(b"logic-1-2", 40));
    dir.extend(directory_record(b"version", 80));
    dir.extend(directory_record(b"logic-1-1", 120));
    dir.extend(directory_record(b"version", 160));
    let entries = match iguazu::zip::parse_central_directory(&dir, 5) {
        Ok(e) => e,
        Err(_) => panic!("directory should parse"),
    };
    let names: Vec<&[u8]> = entries.iter().map(|e| e.name()).collect();
    assert_eq!(names, vec![&b"logic-1-1"[..], b"logic-1-2", b"metadata", b"version"]);
    assert_eq!(entries[3].data_offset, 160);
}

#[test]
fn directory_header_attributes() {
    let mut r = [0u8; 46];
    r[36..38].copy_from_slice(&0x0102u16.to_le_bytes());
    r[38..42].copy_from_slice(&0x81a4_0000u32.to_le_bytes());
    r[42..46].copy_from_slice(&77u32.to_le_bytes());
    let h = iguazu::zip::CentralDirectoryFileHeader(r);
    assert_eq!(h.inter_attr(), 0x0102);
    assert_eq!(h.exter_attr(), 0x81a4_0000);
    assert_eq!(h.lh_offset(), 77);
}
