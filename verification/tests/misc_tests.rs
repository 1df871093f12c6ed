use iguazu::append_array::{AppendArray, AppendArrayWriter};
use iguazu::column::TimeUnit;
use iguazu::info::{info_tree, InfoNode};
use iguazu::ranges::{parse_content_range_total, range_header, read_at, suffix_range_header, MemCursor};
use iguazu::ticks::{time_ticks, Tick, TickLevel};
use iguazu::time::{Time, TimeRange, ATTO_PER_SECOND};

#[test]
fn test_push() {
    let mut writer = AppendArrayWriter::with_capacity(4);
    assert_eq!(writer.reader().capacity(), 4);
    assert_eq!(writer.reader().len(), 0);

    assert_eq!(writer.try_push(1), Ok(0));
    assert_eq!(writer.reader().len(), 1);
    assert_eq!(writer.reader().as_slice(), &[1]);

    assert_eq!(writer.try_push(2), Ok(1));
    assert_eq!(writer.try_push(3), Ok(2));
    assert_eq!(writer.try_push(4), Ok(3));
    assert_eq!(writer.try_push(5), Err(5));

    assert_eq!(writer.reader().len(), 4);
    assert_eq!(writer.reader().as_slice(), &[1, 2, 3, 4]);
}

#[test]
fn test_extend_from_slice() {
    let mut writer = AppendArrayWriter::with_capacity(4);
    assert_eq!(writer.reader().capacity(), 4);
    assert_eq!(writer.reader().len(), 0);

    assert_eq!(writer.extend_from_slice(&[1, 2]), &[]);
    assert_eq!(writer.reader().len(), 2);
    assert_eq!(writer.reader().as_slice(), &[1, 2]);

    assert_eq!(writer.extend_from_slice(&[3, 4, 5, 6]), &[5, 6]);
    assert_eq!(writer.reader().len(), 4);
    assert_eq!(writer.reader().as_slice(), &[1, 2, 3, 4]);
}

#[test]
fn written_elements_stay_over_mixed_calls() {
    let mut v = Vec::with_capacity(5);
    v.extend_from_slice(&[7, 8]);
    let mut writer = AppendArrayWriter::from_vec(v);
    assert_eq!(writer.reader().capacity(), 5);
    let before = writer.reader().as_slice().to_vec();
    let cap = writer.reader().capacity();
    let mut last_len = writer.reader().len();
    assert_eq!(writer.try_push(9), Ok(2));
    assert_eq!(writer.extend_from_slice(&[10, 11, 12]), &[12]);
    assert_eq!(writer.try_push(13), Err(13));
    assert_eq!(writer.extend_from_slice(&[14]), &[14]);
    for _ in 0..2 {
        let _ = writer.try_push(0);
        let len = writer.reader().len();
        assert!(last_len <= len && len <= cap);
        last_len = len;
    }
    assert_eq!(writer.reader().capacity(), cap);
    assert_eq!(&writer.reader().as_slice()[..before.len()], &before[..]);
    assert_eq!(writer.reader().as_slice(), &[7, 8, 9, 10, 11]);
}

#[test]
fn array_from_vec_keeps_elements() {
    let a = AppendArray::from_vec(vec![1u8, 2, 3]);
    assert_eq!(a.as_slice(), &[1, 2, 3]);
    assert_eq!(a.len(), 3);
    assert!(a.capacity() >= 3);
    let w: AppendArrayWriter<u64> = AppendArrayWriter::with_capacity(7);
    assert!(w.reader().capacity() >= 7);
    assert_eq!(w.reader().len(), 0);
}

#[test]
fn content_range_total() {
    assert_eq!(parse_content_range_total("bytes 0-99/1234"), Some(1234));
    assert_eq!(parse_content_range_total("bytes */77"), Some(77));
    assert_eq!(parse_content_range_total("bytes 0-99/*"), None);
    assert_eq!(parse_content_range_total("items 0-99/1234"), None);
    assert_eq!(parse_content_range_total("bytes 0-99"), None);
}

#[test]
fn range_headers() {
    assert_eq!(range_header(0, None), None);
    assert_eq!(range_header(10, None), Some("bytes=10-".to_owned()));
    assert_eq!(range_header(10, Some(5)), Some("bytes=10-14".to_owned()));
    assert_eq!(range_header(0, Some(1)), Some("bytes=0-0".to_owned()));
    assert_eq!(suffix_range_header(22), "bytes=-22");
}

#[test]
fn memory_reads() {
    let data = b"hello world".to_vec();
    assert_eq!(read_at(&data, 6, 100), b"world".to_vec());
    assert_eq!(read_at(&data, 0, 5), b"hello".to_vec());
    assert_eq!(read_at(&data, 20, 5), Vec::<u8>::new());
    assert_eq!(read_at(&data, u64::MAX, 5), Vec::<u8>::new());

    let mut c = MemCursor::new(data.clone(), 2, Some(6));
    assert_eq!(c.fill_buf(), b"llo wo");
    assert_eq!(c.read(4), b"llo ".to_vec());
    c.consume(1);
    assert_eq!(c.fill_buf(), b"o");
    assert_eq!(c.read(10), b"o".to_vec());
    assert_eq!(c.read(10), Vec::<u8>::new());
    let c = MemCursor::new(data, 3, None);
    assert_eq!(c.fill_buf(), b"lo world");
}

#[test]
fn time_unit_scale() {
    assert_eq!(TimeUnit::Second.scale(3, 999_999_999), Some(3));
    assert_eq!(TimeUnit::Millisecond.scale(3, 999_999_999), Some(3999));
    assert_eq!(TimeUnit::Microsecond.scale(1, 1_500), Some(1_000_001));
    assert_eq!(TimeUnit::Nanosecond.scale(2, 5), Some(2_000_000_005));
    assert_eq!(TimeUnit::Nanosecond.scale(u64::MAX / 1_000_000_000 + 1, 0), None);
    assert_eq!(TimeUnit::Second.scale(u64::MAX, 0), Some(u64::MAX));
}

#[test]
fn ticks_over_range() {
    let s = |n: i128| Time::from_attoseconds(n * ATTO_PER_SECOND);
    let visible = TimeRange { min: s(55), max: s(70) };
    let ticks = time_ticks(visible, s(1));
    assert_eq!(ticks.len(), 16);
    assert_eq!(ticks[0], Tick { time: s(55), level: TickLevel::Small, precision: s(1) });
    assert_eq!(ticks[5], Tick { time: s(60), level: TickLevel::Big, precision: s(60) });
    assert_eq!(ticks[15], Tick { time: s(70), level: TickLevel::Medium, precision: s(10) });

    let ticks = time_ticks(TimeRange { min: s(15), max: s(29) }, s(10));
    assert_eq!(ticks.iter().map(|t| t.time).collect::<Vec<_>>(), vec![s(10), s(20)]);
    assert!(time_ticks(TimeRange { min: s(5), max: s(-5) }, s(1)).is_empty());
}

fn node(name: &str, kind: &str, filled: bool, children: Vec<InfoNode>) -> InfoNode {
    InfoNode { name: name.to_owned(), kind: kind.to_owned(), filled, children }
}

#[test]
fn info_tree_lines() {
    let tree = node(
        "file.sr",
        "Group",
        true,
        vec![
            node("digital", "Bit Struct", true, vec![node("D0", "Bits", false, vec![]), node("D1", "Bits", false, vec![])]),
            node("A0", "Float32", true, vec![]),
        ],
    );
    let text = info_tree(&tree);
    let b = |s: &str| format!("\x1b[1m{s}\x1b[0m");
    let expected = format!(
        "● {} (Group)\n├─● {} (Bit Struct)\n│ ├─○ {} (Bits)\n│ └─○ {} (Bits)\n└─● {} (Float32)\n",
        b("file.sr"),
        b("digital"),
        b("D0"),
        b("D1"),
        b("A0")
    );
    assert_eq!(text, expected);
}
