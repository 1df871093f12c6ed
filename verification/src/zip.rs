//! Reading the directory of a ZIP archive.
//!
//! Fetching bytes from the archive is left to the caller; this module decides
//! what those bytes mean: where the central directory is, which entries it
//! lists, and whether an entry's local header agrees with its directory entry.
use vstd::prelude::*;
use crate::le::{le_at, lemma_le_value_bound, lemma_pow256_values, read_u16_le, read_u32_le};
use crate::order::{bytes_lt, lemma_lex_total, lemma_lex_trans, lex_lt};

verus! {

/// Declares `std::io::Error`, which `ZipError::Io` carries.
#[verifier::external_type_specification]
#[verifier::external_body]
pub struct ExIoError(std::io::Error);

/// The end-of-central-directory record, as read from the end of the file.
pub struct EndOfCentralDirectoryRecord(pub [u8; 22]);

/// A central directory file header (without its variable-length parts).
pub struct CentralDirectoryFileHeader(pub [u8; 46]);

/// A local file header (without its variable-length parts).
pub struct LocalFileHeader(pub [u8; 30]);

/// Signature of an end-of-central-directory record.
pub const EOCD_MAGIC: u32 = 0x06054b50;
/// Signature of a central directory file header.
pub const CDFH_MAGIC: u32 = 0x02014b50;
/// Signature of a local file header.
pub const LFH_MAGIC: u32 = 0x04034b50;

/// Byte length of an end-of-central-directory record.
pub const EOCD_LEN: usize = 22;
/// Byte length of the fixed part of a central directory file header.
pub const CDFH_LEN: usize = 46;
/// Byte length of the fixed part of a local file header.
pub const LFH_LEN: usize = 30;

/// Largest central directory that is read.
pub const MAX_CENTRAL_DIRECTORY: u64 = 8 * 1024 * 1024;

impl EndOfCentralDirectoryRecord {
    pub const MAGIC: u32 = 0x06054b50;

    pub fn magic(&self) -> (r: u32)
        ensures
            r == le_at(self.0@, 0, 4),
    {
        read_u32_le(self.0.as_slice(), 0)
    }

    pub fn disk_num(&self) -> (r: u16)
        ensures
            r == le_at(self.0@, 4, 2),
    {
        read_u16_le(self.0.as_slice(), 4)
    }

    pub fn start_cent_dir_disk(&self) -> (r: u16)
        ensures
            r == le_at(self.0@, 6, 2),
    {
        read_u16_le(self.0.as_slice(), 6)
    }

    pub fn num_of_entries_disk(&self) -> (r: u16)
        ensures
            r == le_at(self.0@, 8, 2),
    {
        read_u16_le(self.0.as_slice(), 8)
    }

    pub fn num_entries(&self) -> (r: u16)
        ensures
            r == le_at(self.0@, 10, 2),
    {
        read_u16_le(self.0.as_slice(), 10)
    }

    pub fn size_cent_dir(&self) -> (r: u32)
        ensures
            r == le_at(self.0@, 12, 4),
    {
        read_u32_le(self.0.as_slice(), 12)
    }

    pub fn cent_dir_offset(&self) -> (r: u32)
        ensures
            r == le_at(self.0@, 16, 4),
    {
        read_u32_le(self.0.as_slice(), 16)
    }

    pub fn comment_length(&self) -> (r: u16)
        ensures
            r == le_at(self.0@, 20, 2),
    {
        read_u16_le(self.0.as_slice(), 20)
    }
}

impl CentralDirectoryFileHeader {
    pub const MAGIC: u32 = 0x02014b50;

    pub fn magic(&self) -> (r: u32)
        ensures
            r == le_at(self.0@, 0, 4),
    {
        read_u32_le(self.0.as_slice(), 0)
    }

    pub fn v_made_by(&self) -> (r: u16)
        ensures
            r == le_at(self.0@, 4, 2),
    {
        read_u16_le(self.0.as_slice(), 4)
    }

    pub fn v_needed(&self) -> (r: u16)
        ensures
            r == le_at(self.0@, 6, 2),
    {
        read_u16_le(self.0.as_slice(), 6)
    }

    pub fn flags(&self) -> (r: u16)
        ensures
            r == le_at(self.0@, 8, 2),
    {
        read_u16_le(self.0.as_slice(), 8)
    }

    pub fn compression(&self) -> (r: u16)
        ensures
            r == le_at(self.0@, 10, 2),
    {
        read_u16_le(self.0.as_slice(), 10)
    }

    pub fn mod_time(&self) -> (r: u16)
        ensures
            r == le_at(self.0@, 12, 2),
    {
        read_u16_le(self.0.as_slice(), 12)
    }

    pub fn mod_date(&self) -> (r: u16)
        ensures
            r == le_at(self.0@, 14, 2),
    {
        read_u16_le(self.0.as_slice(), 14)
    }

    pub fn crc(&self) -> (r: u32)
        ensures
            r == le_at(self.0@, 16, 4),
    {
        read_u32_le(self.0.as_slice(), 16)
    }

    pub fn compressed_size(&self) -> (r: u32)
        ensures
            r == le_at(self.0@, 20, 4),
    {
        read_u32_le(self.0.as_slice(), 20)
    }

    pub fn uncompressed_size(&self) -> (r: u32)
        ensures
            r == le_at(self.0@, 24, 4),
    {
        read_u32_le(self.0.as_slice(), 24)
    }

    pub fn file_name_length(&self) -> (r: u16)
        ensures
            r == le_at(self.0@, 28, 2),
    {
        read_u16_le(self.0.as_slice(), 28)
    }

    pub fn extra_field_length(&self) -> (r: u16)
        ensures
            r == le_at(self.0@, 30, 2),
    {
        read_u16_le(self.0.as_slice(), 30)
    }

    pub fn file_comment_length(&self) -> (r: u16)
        ensures
            r == le_at(self.0@, 32, 2),
    {
        read_u16_le(self.0.as_slice(), 32)
    }

    pub fn disk_start(&self) -> (r: u16)
        ensures
            r == le_at(self.0@, 34, 2),
    {
        read_u16_le(self.0.as_slice(), 34)
    }

    pub fn inter_attr(&self) -> (r: u16)
        ensures
            r == le_at(self.0@, 36, 2),
    {
        read_u16_le(self.0.as_slice(), 36)
    }

    /// The external file attributes, the four bytes after the internal ones.
    pub fn exter_attr(&self) -> (r: u32)
        ensures
            r == le_at(self.0@, 38, 4),
    {
        read_u32_le(self.0.as_slice(), 38)
    }

    pub fn lh_offset(&self) -> (r: u32)
        ensures
            r == le_at(self.0@, 42, 4),
    {
        read_u32_le(self.0.as_slice(), 42)
    }
}

impl LocalFileHeader {
    pub const MAGIC: u32 = 0x04034b50;

    pub fn magic(&self) -> (r: u32)
        ensures
            r == le_at(self.0@, 0, 4),
    {
        read_u32_le(self.0.as_slice(), 0)
    }

    pub fn compression(&self) -> (r: u16)
        ensures
            r == le_at(self.0@, 8, 2),
    {
        read_u16_le(self.0.as_slice(), 8)
    }

    pub fn crc(&self) -> (r: u32)
        ensures
            r == le_at(self.0@, 14, 4),
    {
        read_u32_le(self.0.as_slice(), 14)
    }

    pub fn compressed_size(&self) -> (r: u32)
        ensures
            r == le_at(self.0@, 18, 4),
    {
        read_u32_le(self.0.as_slice(), 18)
    }

    pub fn uncompressed_size(&self) -> (r: u32)
        ensures
            r == le_at(self.0@, 22, 4),
    {
        read_u32_le(self.0.as_slice(), 22)
    }

    pub fn file_name_length(&self) -> (r: u16)
        ensures
            r == le_at(self.0@, 26, 2),
    {
        read_u16_le(self.0.as_slice(), 26)
    }

    pub fn extra_field_length(&self) -> (r: u16)
        ensures
            r == le_at(self.0@, 28, 2),
    {
        read_u16_le(self.0.as_slice(), 28)
    }
}

/// Errors from reading a ZIP archive.
pub enum ZipError {
    Io(std::io::Error),
    MalformedFile(&'static str),
    UnsupportedFeature(&'static str),
    LimitExceeded(&'static str),
}

/// Why the archive's directory could not be used.
#[derive(Clone, Copy, Debug, PartialEq, Eq, Structural)]
pub enum DirectoryFault {
    FileTooShort,
    InvalidEndMagic,
    Zip64,
    FileComment,
    MultiDisk,
    DirectoryTooLarge,
    InvalidHeaderMagic,
    HeaderTruncated,
}

/// The error reported for a directory fault.
pub open spec fn spec_fault_error(f: DirectoryFault) -> ZipError {
    match f {
        DirectoryFault::FileTooShort => ZipError::MalformedFile("file too short"),
        DirectoryFault::InvalidEndMagic => ZipError::MalformedFile(
            "invalid magic number on end of central directory record",
        ),
        DirectoryFault::Zip64 => ZipError::UnsupportedFeature("ZIP64 format"),
        DirectoryFault::FileComment => ZipError::UnsupportedFeature("file comment"),
        DirectoryFault::MultiDisk => ZipError::UnsupportedFeature("multi-disk ZIP"),
        DirectoryFault::DirectoryTooLarge => ZipError::LimitExceeded("central directory too large"),
        DirectoryFault::InvalidHeaderMagic => ZipError::MalformedFile(
            "invalid magic number on central directory file header",
        ),
        DirectoryFault::HeaderTruncated => ZipError::MalformedFile(
            "central directory file header truncated",
        ),
    }
}

impl DirectoryFault {
    /// The error reported for this fault.
    pub fn to_error(self) -> (res: ZipError)
        ensures
            res == spec_fault_error(self),
    {
        match self {
            DirectoryFault::FileTooShort => ZipError::MalformedFile("file too short"),
            DirectoryFault::InvalidEndMagic => ZipError::MalformedFile(
                "invalid magic number on end of central directory record",
            ),
            DirectoryFault::Zip64 => ZipError::UnsupportedFeature("ZIP64 format"),
            DirectoryFault::FileComment => ZipError::UnsupportedFeature("file comment"),
            DirectoryFault::MultiDisk => ZipError::UnsupportedFeature("multi-disk ZIP"),
            DirectoryFault::DirectoryTooLarge => ZipError::LimitExceeded(
                "central directory too large",
            ),
            DirectoryFault::InvalidHeaderMagic => ZipError::MalformedFile(
                "invalid magic number on central directory file header",
            ),
            DirectoryFault::HeaderTruncated => ZipError::MalformedFile(
                "central directory file header truncated",
            ),
        }
    }
}

/// Where the central directory lies, as the end record says.
#[derive(Clone, Copy, Debug, PartialEq, Eq, Structural)]
pub struct CentralDirectoryLocation {
    pub num_entries: u16,
    pub offset: u64,
    pub size: u64,
}

/// What the bytes read at the end of the archive say about its central
/// directory.
pub open spec fn spec_end_record(data: Seq<u8>) -> Result<CentralDirectoryLocation, DirectoryFault> {
    if data.len() != 22 {
        Err(DirectoryFault::FileTooShort)
    } else if le_at(data, 0, 4) != EOCD_MAGIC {
        Err(DirectoryFault::InvalidEndMagic)
    } else if le_at(data, 4, 2) == 0xFFFF {
        Err(DirectoryFault::Zip64)
    } else if le_at(data, 20, 2) != 0 {
        Err(DirectoryFault::FileComment)
    } else if le_at(data, 4, 2) != 0 || le_at(data, 6, 2) != 0 || le_at(data, 8, 2) != le_at(
        data,
        10,
        2,
    ) {
        Err(DirectoryFault::MultiDisk)
    } else if le_at(data, 12, 4) > MAX_CENTRAL_DIRECTORY {
        Err(DirectoryFault::DirectoryTooLarge)
    } else {
        Ok(
            CentralDirectoryLocation {
                num_entries: le_at(data, 10, 2) as u16,
                offset: le_at(data, 16, 4) as u64,
                size: le_at(data, 12, 4) as u64,
            },
        )
    }
}

fn fault<T>(f: DirectoryFault) -> (res: Result<T, ZipError>)
    ensures
        res == Err::<T, ZipError>(spec_fault_error(f)),
{
    Err(f.to_error())
}

/// Decides where the central directory is from the last 22 bytes of the
/// archive (fewer if the archive is shorter).
pub fn parse_end_of_central_directory(data: &[u8]) -> (res: Result<CentralDirectoryLocation, ZipError>)
    ensures
        match spec_end_record(data@) {
            Ok(loc) => res == Ok::<CentralDirectoryLocation, ZipError>(loc),
            Err(f) => res == Err::<CentralDirectoryLocation, ZipError>(spec_fault_error(f)),
        },
{
    if data.len() != EOCD_LEN {
        return fault(DirectoryFault::FileTooShort);
    }
    let eocd = EndOfCentralDirectoryRecord(
        [
            data[0], data[1], data[2], data[3], data[4], data[5], data[6], data[7], data[8],
            data[9], data[10], data[11], data[12], data[13], data[14], data[15], data[16],
            data[17], data[18], data[19], data[20], data[21],
        ],
    );
    assert(eocd.0@ =~= data@);
    if eocd.magic() != EndOfCentralDirectoryRecord::MAGIC {
        return fault(DirectoryFault::InvalidEndMagic);
    }
    if eocd.disk_num() == 0xFFFF {
        return fault(DirectoryFault::Zip64);
    }
    if eocd.comment_length() != 0 {
        return fault(DirectoryFault::FileComment);
    }
    if eocd.disk_num() != 0 || eocd.start_cent_dir_disk() != 0 || eocd.num_of_entries_disk()
        != eocd.num_entries() {
        return fault(DirectoryFault::MultiDisk);
    }
    let num_entries = eocd.num_entries();
    let offset = eocd.cent_dir_offset() as u64;
    let size = eocd.size_cent_dir() as u64;
    if size > MAX_CENTRAL_DIRECTORY {
        return fault(DirectoryFault::DirectoryTooLarge);
    }
    Ok(CentralDirectoryLocation { num_entries, offset, size })
}

/// A file listed in the central directory.
pub struct ZipEntryInfo {
    pub name: Vec<u8>,
    pub extra_len: usize,
    pub compression: u16,
    pub compressed_size: u64,
    pub uncompressed_size: u64,
    pub data_offset: u64,
}

/// The abstract content of a directory entry.
pub struct ZipEntryView {
    pub name: Seq<u8>,
    pub extra_len: nat,
    pub compression: u16,
    pub compressed_size: u64,
    pub uncompressed_size: u64,
    pub data_offset: u64,
}

impl View for ZipEntryInfo {
    type V = ZipEntryView;

    open spec fn view(&self) -> ZipEntryView {
        ZipEntryView {
            name: self.name@,
            extra_len: self.extra_len as nat,
            compression: self.compression,
            compressed_size: self.compressed_size,
            uncompressed_size: self.uncompressed_size,
            data_offset: self.data_offset,
        }
    }
}

/// Length of the whole directory record that starts at `pos`.
pub open spec fn spec_record_len(data: Seq<u8>, pos: int) -> int {
    (46 + le_at(data, pos + 28, 2) + le_at(data, pos + 30, 2) + le_at(data, pos + 32, 2)) as int
}

/// The entry described by the directory record at `pos`.
pub open spec fn spec_entry_at(data: Seq<u8>, pos: int) -> ZipEntryView {
    ZipEntryView {
        name: data.subrange(pos + 46, pos + 46 + le_at(data, pos + 28, 2)),
        extra_len: le_at(data, pos + 30, 2),
        compression: le_at(data, pos + 10, 2) as u16,
        compressed_size: le_at(data, pos + 20, 4) as u64,
        uncompressed_size: le_at(data, pos + 24, 4) as u64,
        data_offset: le_at(data, pos + 42, 4) as u64,
    }
}

/// Index of the entry named `name` in `entries`, or -1.
pub open spec fn spec_name_index(entries: Seq<ZipEntryView>, name: Seq<u8>) -> int
    decreases entries.len(),
{
    if entries.len() == 0 {
        -1
    } else if entries.last().name == name {
        entries.len() - 1
    } else {
        spec_name_index(entries.drop_last(), name)
    }
}

/// Adds `e` to a list of entries with distinct names; an entry of the same
/// name is replaced, as in a map keyed by name.
pub open spec fn spec_insert_entry(entries: Seq<ZipEntryView>, e: ZipEntryView) -> Seq<ZipEntryView> {
    let i = spec_name_index(entries, e.name);
    if i >= 0 {
        entries.update(i, e)
    } else {
        entries.push(e)
    }
}

/// The entries read from the directory from `pos` on, given those read so far.
pub open spec fn spec_directory_from(
    data: Seq<u8>,
    pos: int,
    num_entries: int,
    acc: Seq<ZipEntryView>,
) -> Result<Seq<ZipEntryView>, DirectoryFault>
    decreases data.len() - pos,
{
    if data.len() - pos >= 46 && acc.len() < num_entries {
        if le_at(data, pos, 4) != CDFH_MAGIC {
            Err(DirectoryFault::InvalidHeaderMagic)
        } else if data.len() - pos < spec_record_len(data, pos) {
            Err(DirectoryFault::HeaderTruncated)
        } else {
            spec_directory_from(
                data,
                pos + spec_record_len(data, pos),
                num_entries,
                spec_insert_entry(acc, spec_entry_at(data, pos)),
            )
        }
    } else {
        Ok(acc)
    }
}

/// The entries that the central directory `data` lists, at most
/// `num_entries` distinct names.
pub open spec fn spec_directory(data: Seq<u8>, num_entries: int) -> Result<Seq<ZipEntryView>, DirectoryFault> {
    spec_directory_from(data, 0, num_entries, seq![])
}

proof fn lemma_name_index(entries: Seq<ZipEntryView>, name: Seq<u8>)
    ensures
        -1 <= spec_name_index(entries, name) < entries.len(),
        spec_name_index(entries, name) >= 0 ==> entries[spec_name_index(entries, name)].name
            == name,
        spec_name_index(entries, name) < 0 ==> forall|j: int|
            0 <= j < entries.len() ==> entries[j].name != name,
    decreases entries.len(),
{
    if entries.len() > 0 {
        let p = entries.drop_last();
        lemma_name_index(p, name);
        assert forall|j: int| 0 <= j < p.len() implies #[trigger] entries[j] == p[j] by {}
    }
}

/// No two entries share a name.
pub open spec fn distinct_names(entries: Seq<ZipEntryView>) -> bool {
    forall|i: int, j: int|
        0 <= i < entries.len() && 0 <= j < entries.len() && i != j ==> #[trigger] entries[i].name
            != #[trigger] entries[j].name
}

proof fn lemma_insert_distinct(entries: Seq<ZipEntryView>, e: ZipEntryView)
    requires
        distinct_names(entries),
    ensures
        distinct_names(spec_insert_entry(entries, e)),
        spec_insert_entry(entries, e).len() <= entries.len() + 1,
{
    lemma_name_index(entries, e.name);
}

proof fn lemma_directory_from_distinct(data: Seq<u8>, pos: int, n: int, acc: Seq<ZipEntryView>)
    requires
        distinct_names(acc),
        acc.len() <= n || n <= 0,
    ensures
        spec_directory_from(data, pos, n, acc) matches Ok(es) ==> distinct_names(es) && (es.len()
            <= n || es.len() <= acc.len()),
    decreases data.len() - pos,
{
    if data.len() - pos >= 46 && acc.len() < n {
        if le_at(data, pos, 4) != CDFH_MAGIC {
        } else if data.len() - pos < spec_record_len(data, pos) {
        } else {
            let next = spec_insert_entry(acc, spec_entry_at(data, pos));
            lemma_insert_distinct(acc, spec_entry_at(data, pos));
            lemma_directory_from_distinct(data, pos + spec_record_len(data, pos), n, next);
        }
    }
}

/// The entries a central directory lists have distinct names, and there
/// are at most as many as its end record announces.
pub proof fn lemma_directory_distinct(data: Seq<u8>, num_entries: u16)
    ensures
        spec_directory(data, num_entries as int) matches Ok(es) ==> distinct_names(es) && es.len()
            <= num_entries,
{
    lemma_directory_from_distinct(data, 0, num_entries as int, seq![]);
}

/// The position of the entry named `name`, if there is one (the last such
/// entry, as a map keyed by name keeps it).
pub fn find_entry(entries: &Vec<ZipEntryInfo>, name: &[u8]) -> (res: Option<usize>)
    ensures
        match res {
            Some(i) => spec_name_index(entries@.map_values(|e: ZipEntryInfo| e@), name@) == i,
            None => spec_name_index(entries@.map_values(|e: ZipEntryInfo| e@), name@) < 0,
        },
{
    let ghost views = entries@.map_values(|e: ZipEntryInfo| e@);
    let mut i: usize = entries.len();
    assert(views.subrange(0, i as int) =~= views);
    while i > 0
        invariant
            i <= entries@.len(),
            views == entries@.map_values(|e: ZipEntryInfo| e@),
            spec_name_index(views, name@) == spec_name_index(views.subrange(0, i as int), name@),
        decreases i,
    {
        let ghost prefix = views.subrange(0, i as int);
        if bytes_equal(entries[i - 1].name.as_slice(), name) {
            assert(prefix.last().name == name@);
            return Some(i - 1);
        }
        assert(prefix.drop_last() =~= views.subrange(0, i - 1));
        i = i - 1;
    }
    None
}

/// Whether two byte strings are equal.
pub fn bytes_equal(a: &[u8], b: &[u8]) -> (res: bool)
    ensures
        res == (a@ == b@),
{
    if a.len() != b.len() {
        return false;
    }
    let mut i: usize = 0;
    while i < a.len()
        invariant
            a@.len() == b@.len(),
            i <= a@.len(),
            forall|j: int| 0 <= j < i ==> a@[j] == b@[j],
        decreases a@.len() - i,
    {
        if a[i] != b[i] {
            return false;
        }
        i = i + 1;
    }
    assert(a@ =~= b@);
    true
}

fn copy_bytes(data: &[u8], from: usize, to: usize) -> (res: Vec<u8>)
    requires
        from <= to <= data@.len(),
    ensures
        res@ == data@.subrange(from as int, to as int),
{
    let mut v: Vec<u8> = Vec::new();
    let mut i = from;
    while i < to
        invariant
            from <= i <= to <= data@.len(),
            v@ == data@.subrange(from as int, i as int),
        decreases to - i,
    {
        v.push(data[i]);
        assert(v@ =~= data@.subrange(from as int, i + 1));
        i = i + 1;
    }
    v
}

/// `e` is what the directory record at `pos` of `data` says by the ZIP
/// layout: the signature `PK\x01\x02` in its first four bytes, the
/// compression method at offset 10, the compressed size at 20, the
/// uncompressed size at 24, the extra field length at 30 and the offset of
/// the local header at 42 (little-endian), and the name, of the length at
/// offset 28, right after the 46 fixed bytes.
pub open spec fn read_from_record(data: Seq<u8>, pos: int, e: ZipEntryView) -> bool {
    &&& 0 <= pos
    &&& pos + 46 + le_at(data, pos + 28, 2) <= data.len()
    &&& le_at(data, pos, 4) == 0x02014b50
    &&& e.compression as int == le_at(data, pos + 10, 2)
    &&& e.compressed_size as int == le_at(data, pos + 20, 4)
    &&& e.uncompressed_size as int == le_at(data, pos + 24, 4)
    &&& e.extra_len == le_at(data, pos + 30, 2)
    &&& e.data_offset as int == le_at(data, pos + 42, 4)
    &&& e.name == data.subrange(pos + 46, pos + 46 + le_at(data, pos + 28, 2))
}

/// `e` is read from some record of `data`.
pub open spec fn read_from_some_record(data: Seq<u8>, e: ZipEntryView) -> bool {
    exists|pos: int| #[trigger] read_from_record(data, pos, e)
}

/// Each entry is read from some record of `data`.
pub open spec fn all_read_from_records(data: Seq<u8>, entries: Seq<ZipEntryView>) -> bool {
    forall|i: int| 0 <= i < entries.len() ==> #[trigger] read_from_some_record(data, entries[i])
}

/// The entry of a whole record is read from that record.
proof fn lemma_entry_at_read(data: Seq<u8>, pos: int)
    requires
        0 <= pos,
        data.len() - pos >= 46,
        data.len() - pos >= spec_record_len(data, pos),
        le_at(data, pos, 4) == CDFH_MAGIC,
    ensures
        read_from_record(data, pos, spec_entry_at(data, pos)),
{
    lemma_pow256_values();
    lemma_le_value_bound(data.subrange(pos + 10, pos + 12));
    lemma_le_value_bound(data.subrange(pos + 20, pos + 24));
    lemma_le_value_bound(data.subrange(pos + 24, pos + 28));
    lemma_le_value_bound(data.subrange(pos + 42, pos + 46));
}

proof fn lemma_directory_from_read(data: Seq<u8>, pos: int, n: int, acc: Seq<ZipEntryView>)
    requires
        0 <= pos,
        all_read_from_records(data, acc),
    ensures
        spec_directory_from(data, pos, n, acc) matches Ok(es) ==> all_read_from_records(data, es),
    decreases data.len() - pos,
{
    if data.len() - pos >= 46 && acc.len() < n {
        if le_at(data, pos, 4) != CDFH_MAGIC {
        } else if data.len() - pos < spec_record_len(data, pos) {
        } else {
            let e = spec_entry_at(data, pos);
            lemma_entry_at_read(data, pos);
            lemma_name_index(acc, e.name);
            let next = spec_insert_entry(acc, e);
            assert forall|i: int| 0 <= i < next.len() implies #[trigger] read_from_some_record(data, next[i]) by {
                if next[i] == e {
                    assert(read_from_record(data, pos, next[i]));
                } else {
                    assert(next[i] == acc[i]);
                    assert(read_from_some_record(data, acc[i]));
                }
            }
            lemma_directory_from_read(data, pos + spec_record_len(data, pos), n, next);
        }
    }
}

/// Every entry that a central directory lists is read from one of its
/// records by the ZIP layout: its compressed size is the little-endian
/// `u32` at offset 20 of the record, its uncompressed size the one at 24,
/// its name the bytes after the fixed part, and so on.
pub proof fn lemma_directory_entries_from_records(data: Seq<u8>, num_entries: u16)
    ensures
        spec_directory(data, num_entries as int) matches Ok(es) ==> all_read_from_records(data, es),
{
    lemma_directory_from_read(data, 0, num_entries as int, seq![]);
}

/// Each entry's name comes before the next one's in byte order.
pub open spec fn names_sorted(entries: Seq<ZipEntryView>) -> bool {
    forall|i: int, j: int| 0 <= i < j < entries.len() ==> lex_lt(#[trigger] entries[i].name, #[trigger] entries[j].name)
}

/// The views of a list of entries.
pub open spec fn entry_views(v: Seq<ZipEntryInfo>) -> Seq<ZipEntryView> {
    v.map_values(|e: ZipEntryInfo| e@)
}

/// The entries of `entries`, ordered by name.
fn sort_by_name(entries: Vec<ZipEntryInfo>) -> (res: Vec<ZipEntryInfo>)
    requires
        distinct_names(entry_views(entries@)),
    ensures
        res@.len() == entries@.len(),
        names_sorted(entry_views(res@)),
        entry_views(res@).to_set() == entry_views(entries@).to_set(),
{
    let ghost all = entry_views(entries@);
    let mut rest = entries;
    let mut out: Vec<ZipEntryInfo> = Vec::new();
    assert(all.subrange(all.len() as int, all.len() as int).to_set() =~= entry_views(out@).to_set());
    while rest.len() > 0
        invariant
            distinct_names(all),
            rest@.len() <= all.len(),
            entry_views(rest@) == all.subrange(0, rest@.len() as int),
            out@.len() == all.len() - rest@.len(),
            entry_views(out@).to_set() == all.subrange(rest@.len() as int, all.len() as int).to_set(),
            names_sorted(entry_views(out@)),
        decreases rest@.len(),
    {
        let ghost k = rest@.len() - 1;
        let ghost before = rest@;
        assert(entry_views(before)[k] == before[k]@);
        let e = rest.pop().unwrap();
        assert(entry_views(rest@) =~= all.subrange(0, k));
        assert(e == before[k]);
        assert(e@ == all[k]);
        let ghost s = entry_views(out@);
        let ghost later = all.subrange(k + 1, all.len() as int);
        assert forall|a: int| 0 <= a < s.len() implies s[a].name != e@.name by {
            assert(s.to_set().contains(s[a]));
            assert(later.to_set().contains(s[a]));
            let j = choose|j: int| 0 <= j < later.len() && later[j] == s[a];
            assert(all[k + 1 + j] == s[a]);
        }
        let mut p: usize = 0;
        while p < out.len() && bytes_lt(out[p].name.as_slice(), e.name.as_slice())
            invariant
                p <= out@.len(),
                s == entry_views(out@),
                forall|a: int| 0 <= a < p ==> lex_lt(#[trigger] s[a].name, e@.name),
            decreases out@.len() - p,
        {
            assert(s[p as int] == out@[p as int]@);
            p = p + 1;
        }
        proof {
            if p < s.len() {
                assert(s[p as int] == out@[p as int]@);
                lemma_lex_total(s[p as int].name, e@.name);
                assert forall|a: int| p <= a < s.len() implies lex_lt(e@.name, #[trigger] s[a].name) by {
                    if a > p {
                        lemma_lex_trans(e@.name, s[p as int].name, s[a].name);
                    }
                }
            }
        }
        let ghost ev = e@;
        out.insert(p, e);
        proof {
            let t = entry_views(out@);
            assert(t =~= s.insert(p as int, ev));
            assert forall|a: int, b: int| 0 <= a < b < t.len() implies lex_lt(
                #[trigger] t[a].name,
                #[trigger] t[b].name,
            ) by {
                if a < p && b < p {
                    assert(t[a] == s[a] && t[b] == s[b]);
                } else if a < p && b == p {
                    assert(t[a] == s[a]);
                } else if a < p {
                    assert(t[a] == s[a] && t[b] == s[b - 1]);
                    lemma_lex_trans(s[a].name, ev.name, s[b - 1].name);
                } else if a == p {
                    assert(t[b] == s[b - 1]);
                } else {
                    assert(t[a] == s[a - 1] && t[b] == s[b - 1]);
                }
            }
            let whole = all.subrange(k, all.len() as int);
            assert(whole =~= seq![ev] + later);
            assert forall|y: ZipEntryView| t.to_set().contains(y) <==> whole.to_set().contains(y) by {
                if t.to_set().contains(y) {
                    let i = choose|i: int| 0 <= i < t.len() && t[i] == y;
                    if i < p {
                        assert(s[i] == y);
                        assert(s.to_set().contains(y));
                        let j = choose|j: int| 0 <= j < later.len() && later[j] == y;
                        assert(whole[j + 1] == y);
                    } else if i > p {
                        assert(s[i - 1] == y);
                        assert(s.to_set().contains(y));
                        let j = choose|j: int| 0 <= j < later.len() && later[j] == y;
                        assert(whole[j + 1] == y);
                    } else {
                        assert(whole[0] == y);
                    }
                }
                if whole.to_set().contains(y) {
                    let i = choose|i: int| 0 <= i < whole.len() && whole[i] == y;
                    if i == 0 {
                        assert(t[p as int] == y);
                    } else {
                        assert(later[i - 1] == y);
                        assert(later.to_set().contains(y));
                        assert(s.to_set().contains(y));
                        let j = choose|j: int| 0 <= j < s.len() && s[j] == y;
                        if j < p {
                            assert(t[j] == y);
                        } else {
                            assert(t[j + 1] == y);
                        }
                    }
                }
            }
            assert(t.to_set() =~= whole.to_set());
        }
    }
    assert(all.subrange(0, all.len() as int) =~= all);
    out
}

/// Lists the entries of the central directory `data` ordered by name,
/// reading records until the data runs out or `num_entries` distinct names
/// have been seen. A later record with the name of an earlier one replaces
/// it.
pub fn parse_central_directory(data: &[u8], num_entries: u16) -> (res: Result<Vec<ZipEntryInfo>, ZipError>)
    ensures
        match spec_directory(data@, num_entries as int) {
            Ok(entries) => res matches Ok(v) && v@.len() == entries.len() && names_sorted(entry_views(v@))
                && entry_views(v@).to_set() == entries.to_set(),
            Err(f) => res matches Err(e) && e == spec_fault_error(f),
        },
        res matches Ok(v) ==> all_read_from_records(data@, entry_views(v@)),
{
    let r = directory_in_order(data, num_entries);
    match r {
        Ok(entries) => {
            proof {
                lemma_directory_distinct(data@, num_entries);
                lemma_directory_entries_from_records(data@, num_entries);
                assert(entry_views(entries@) == entries@.map_values(|e: ZipEntryInfo| e@));
            }
            let v = sort_by_name(entries);
            proof {
                let es = entry_views(entries@);
                let vs = entry_views(v@);
                assert forall|i: int| 0 <= i < vs.len() implies #[trigger] read_from_some_record(data@, vs[i]) by {
                    assert(vs.to_set().contains(vs[i]));
                    assert(es.to_set().contains(vs[i]));
                    let j = choose|j: int| 0 <= j < es.len() && es[j] == vs[i];
                    assert(read_from_some_record(data@, es[j]));
                }
            }
            Ok(v)
        },
        Err(e) => Err(e),
    }
}

/// The entries of the central directory `data` in the order the directory
/// lists them (see `parse_central_directory`).
fn directory_in_order(data: &[u8], num_entries: u16) -> (res: Result<Vec<ZipEntryInfo>, ZipError>)
    ensures
        match spec_directory(data@, num_entries as int) {
            Ok(entries) => res matches Ok(v) && v@.map_values(|e: ZipEntryInfo| e@) == entries,
            Err(f) => res matches Err(e) && e == spec_fault_error(f),
        },
{
    let len = data.len();
    let mut entries: Vec<ZipEntryInfo> = Vec::new();
    let mut pos: usize = 0;
    assert(entries@.map_values(|e: ZipEntryInfo| e@) =~= seq![]);
    while len - pos >= CDFH_LEN && entries.len() < num_entries as usize
        invariant
            len == data@.len(),
            pos <= len,
            spec_directory(data@, num_entries as int) == spec_directory_from(
                data@,
                pos as int,
                num_entries as int,
                entries@.map_values(|e: ZipEntryInfo| e@),
            ),
        decreases len - pos,
    {
        let ghost views = entries@.map_values(|e: ZipEntryInfo| e@);
        let magic = read_u32_le(data, pos);
        if magic != CDFH_MAGIC {
            return fault(DirectoryFault::InvalidHeaderMagic);
        }
        let name_len = read_u16_le(data, pos + 28) as usize;
        let extra_len = read_u16_le(data, pos + 30) as usize;
        let comment_len = read_u16_le(data, pos + 32) as usize;
        let record_len = CDFH_LEN + name_len + extra_len + comment_len;
        if len - pos < record_len {
            return fault(DirectoryFault::HeaderTruncated);
        }
        let name = copy_bytes(data, pos + CDFH_LEN, pos + CDFH_LEN + name_len);
        let compression = read_u16_le(data, pos + 10);
        let compressed_size = read_u32_le(data, pos + 20) as u64;
        let uncompressed_size = read_u32_le(data, pos + 24) as u64;
        let data_offset = read_u32_le(data, pos + 42) as u64;
        let entry = ZipEntryInfo {
            name,
            extra_len,
            compression,
            compressed_size,
            uncompressed_size,
            data_offset,
        };
        assert(entry@ == spec_entry_at(data@, pos as int));
        proof {
            lemma_name_index(views, entry@.name);
        }
        match find_entry(&entries, entry.name.as_slice()) {
            Some(i) => {
                entries.set(i, entry);
            },
            None => {
                entries.push(entry);
            },
        }
        assert(entries@.map_values(|e: ZipEntryInfo| e@) =~= spec_insert_entry(
            views,
            spec_entry_at(data@, pos as int),
        ));
        pos = pos + record_len;
    }
    Ok(entries)
}

/// How an entry's data is stored.
#[derive(Clone, Copy, Debug, PartialEq, Eq, Structural)]
pub enum EntryCompression {
    Stored,
    Deflate,
}

/// Why an entry's data cannot be read.
#[derive(Clone, Copy, Debug, PartialEq, Eq, Structural)]
pub enum EntryError {
    /// The compressed size plus the local header overflows.
    InvalidCompressedSize,
    /// The archive ended inside the local header.
    UnexpectedEof,
    /// The local header has the wrong signature.
    InvalidLocalHeader,
    /// The local header disagrees with the directory entry.
    HeaderMismatch,
    /// The entry uses a compression method other than stored or deflate.
    UnsupportedCompression,
    /// The entry is larger than the caller allows.
    SizeExceedsLimit,
}

impl ZipEntryInfo {
    /// The entry's name.
    pub fn name(&self) -> (res: &[u8])
        ensures
            res@ == self.name@,
    {
        self.name.as_slice()
    }

    /// Size of the entry once decompressed.
    pub fn uncompressed_size(&self) -> (res: u64)
        ensures
            res == self.uncompressed_size,
    {
        self.uncompressed_size
    }

    /// Size of the local header that precedes the entry's data.
    pub fn local_header_len(&self) -> (res: usize)
        requires
            self.name@.len() <= 0xFFFF,
            self.extra_len <= 0xFFFF,
        ensures
            res == 30 + self.name@.len() + self.extra_len,
    {
        LFH_LEN + self.name.len() + self.extra_len
    }

    /// Number of bytes to read for the local header and the compressed data.
    pub fn read_size(&self) -> (res: Result<u64, EntryError>)
        requires
            self.name@.len() <= 0xFFFF,
            self.extra_len <= 0xFFFF,
        ensures
            self.compressed_size + 30 + self.name@.len() + self.extra_len <= u64::MAX ==> res
                == Ok::<u64, EntryError>(
                (self.compressed_size + 30 + self.name@.len() + self.extra_len) as u64,
            ),
            self.compressed_size + 30 + self.name@.len() + self.extra_len > u64::MAX ==> res
                == Err::<u64, EntryError>(EntryError::InvalidCompressedSize),
    {
        let lfh_size = self.local_header_len() as u64;
        match self.compressed_size.checked_add(lfh_size) {
            Some(n) => Ok(n),
            None => Err(EntryError::InvalidCompressedSize),
        }
    }

    /// Checks the local header read before the entry's data against the
    /// directory entry, and tells how the data is compressed.
    pub fn check_local_header(&self, header: &[u8]) -> (res: Result<EntryCompression, EntryError>)
        requires
            self.name@.len() <= 0xFFFF,
            self.extra_len <= 0xFFFF,
        ensures
            res == spec_check_local_header(self@, header@),
    {
        let lfh_size = self.local_header_len();
        if header.len() != lfh_size {
            return Err(EntryError::UnexpectedEof);
        }
        if read_u32_le(header, 0) != LFH_MAGIC {
            return Err(EntryError::InvalidLocalHeader);
        }
        if read_u16_le(header, 8) != self.compression || read_u32_le(header, 18) as u64
            != self.compressed_size || read_u32_le(header, 22) as u64 != self.uncompressed_size
            || read_u16_le(header, 26) as usize != self.name.len() || read_u16_le(header, 28)
            as usize != self.extra_len {
            return Err(EntryError::HeaderMismatch);
        }
        if self.compression == 0 {
            Ok(EntryCompression::Stored)
        } else if self.compression == 8 {
            Ok(EntryCompression::Deflate)
        } else {
            Err(EntryError::UnsupportedCompression)
        }
    }

    /// Checks that the entry fits in `limit` bytes once decompressed.
    pub fn check_read_limit(&self, limit: usize) -> (res: Result<(), EntryError>)
        ensures
            res is Ok <==> self.uncompressed_size <= limit,
            res is Err ==> res == Err::<(), EntryError>(EntryError::SizeExceedsLimit),
    {
        if self.uncompressed_size > limit as u64 {
            Err(EntryError::SizeExceedsLimit)
        } else {
            Ok(())
        }
    }
}

/// What the local header read before an entry's data says.
pub open spec fn spec_check_local_header(e: ZipEntryView, header: Seq<u8>) -> Result<EntryCompression, EntryError> {
    if header.len() != 30 + e.name.len() + e.extra_len {
        Err(EntryError::UnexpectedEof)
    } else if le_at(header, 0, 4) != LFH_MAGIC {
        Err(EntryError::InvalidLocalHeader)
    } else if le_at(header, 8, 2) != e.compression || le_at(header, 18, 4) != e.compressed_size
        || le_at(header, 22, 4) != e.uncompressed_size || le_at(header, 26, 2) != e.name.len()
        || le_at(header, 28, 2) != e.extra_len {
        Err(EntryError::HeaderMismatch)
    } else if e.compression == 0 {
        Ok(EntryCompression::Stored)
    } else if e.compression == 8 {
        Ok(EntryCompression::Deflate)
    } else {
        Err(EntryError::UnsupportedCompression)
    }
}

} // verus!
