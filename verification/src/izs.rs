//! Encodings shared by readers and writers of the `.izs` (Iguazu Signal)
//! file format: the footer that ends the file and the block indexes that
//! locate the compressed blocks of each stream.
use vstd::prelude::*;
use crate::le::{
    le_at, le_bytes, lemma_le_bytes_len, lemma_le_bytes_of_value, lemma_le_value_bound,
    lemma_le_value_of_bytes, lemma_pow256_values, push_le, read_u32_le, read_u64_le,
};
use crate::element::ElementSize;

verus! {

/// Magic bytes at the start of a `.izs` file.
pub const HEADER_MAGIC: [u8; 8] = [0x00, 0x21, 0x4a, 0xd9, 0xff, 0x90, 0xba, 0xed];

/// Magic bytes at the end of a `.izs` file.
pub const FOOTER_MAGIC: [u8; 8] = [0x01, 0x21, 0x4a, 0xd9, 0x01, 0x90, 0xba, 0xed];

/// Length in bytes of the file footer.
pub const FOOTER_LEN: usize = 16;

/// The footer magic as a sequence.
pub open spec fn footer_magic() -> Seq<u8> {
    seq![0x01u8, 0x21u8, 0x4au8, 0xd9u8, 0x01u8, 0x90u8, 0xbau8, 0xedu8]
}

/// The footer at the end of a `.izs` file.
#[derive(Clone, Copy, Debug, PartialEq, Eq, Structural)]
pub struct Footer {
    /// Length of the compressed metadata that precedes the footer.
    pub meta_len: u32,
    pub reserved: u32,
}

/// The footer decoded from the last 16 bytes of `data`, if those bytes end
/// with the footer magic.
pub open spec fn spec_footer_from_bytes(data: Seq<u8>) -> Option<Footer> {
    if data.len() < 16 {
        None
    } else {
        let tail = data.subrange(data.len() - 16, data.len() as int);
        if tail.subrange(8, 16) != footer_magic() {
            None
        } else {
            Some(
                Footer {
                    meta_len: le_at(tail, 0, 4) as u32,
                    reserved: le_at(tail, 4, 4) as u32,
                },
            )
        }
    }
}

/// The 16 encoded bytes of a footer.
pub open spec fn spec_footer_bytes(f: Footer) -> Seq<u8> {
    le_bytes(f.meta_len as nat, 4) + le_bytes(f.reserved as nat, 4) + footer_magic()
}

fn footer_magic_matches(data: &[u8], at: usize) -> (res: bool)
    requires
        at + 8 <= data@.len(),
    ensures
        res == (data@.subrange(at as int, at + 8) == footer_magic()),
{
    let magic = FOOTER_MAGIC;
    let len = data.len();
    let mut i: usize = 0;
    while i < 8
        invariant
            len == data@.len(),
            i <= 8,
            at + 8 <= data@.len(),
            magic@ == footer_magic(),
            forall|j: int| 0 <= j < i ==> data@[at + j] == footer_magic()[j],
        decreases 8 - i,
    {
        if data[at + i] != magic[i] {
            assert(data@.subrange(at as int, at + 8)[i as int] != footer_magic()[i as int]);
            return false;
        }
        i = i + 1;
    }
    assert(data@.subrange(at as int, at + 8) =~= footer_magic());
    true
}

impl Footer {
    /// Length in bytes of the encoded footer.
    pub const LEN: usize = 16;

    /// Decodes the footer from the end of `data`.
    pub fn from_bytes(data: &[u8]) -> (res: Option<Self>)
        ensures
            res == spec_footer_from_bytes(data@),
    {
        let len = data.len();
        if len < 16 {
            return None;
        }
        let start = len - 16;
        let ghost tail = data@.subrange(start as int, len as int);
        if !footer_magic_matches(data, start + 8) {
            assert(tail.subrange(8, 16) =~= data@.subrange(start + 8, start + 16));
            return None;
        }
        assert(tail.subrange(8, 16) =~= data@.subrange(start + 8, start + 16));
        let meta_len = read_u32_le(data, start);
        let reserved = read_u32_le(data, start + 4);
        assert(tail.subrange(0, 4) =~= data@.subrange(start as int, start + 4));
        assert(tail.subrange(4, 8) =~= data@.subrange(start + 4, start + 8));
        Some(Footer { meta_len, reserved })
    }

    /// Encodes the footer: the two little-endian fields, then the magic.
    pub fn to_bytes(&self) -> (res: [u8; 16])
        ensures
            res@ == spec_footer_bytes(*self),
    {
        let mut v: Vec<u8> = Vec::new();
        push_le(&mut v, self.meta_len as u64, 4);
        push_le(&mut v, self.reserved as u64, 4);
        let magic = FOOTER_MAGIC;
        proof {
            lemma_le_bytes_len(self.meta_len as nat, 4);
            lemma_le_bytes_len(self.reserved as nat, 4);
        }
        let bytes: [u8; 16] = [
            v[0], v[1], v[2], v[3], v[4], v[5], v[6], v[7],
            magic[0], magic[1], magic[2], magic[3], magic[4], magic[5], magic[6], magic[7],
        ];
        assert(bytes@ =~= spec_footer_bytes(*self));
        bytes
    }
}

/// Decoding the encoding of a footer gives the footer back.
pub proof fn lemma_footer_roundtrip(f: Footer)
    ensures
        spec_footer_from_bytes(spec_footer_bytes(f)) == Some(f),
{
    let b = spec_footer_bytes(f);
    lemma_le_bytes_len(f.meta_len as nat, 4);
    lemma_le_bytes_len(f.reserved as nat, 4);
    lemma_pow256_values();
    lemma_le_value_of_bytes(f.meta_len as nat, 4);
    lemma_le_value_of_bytes(f.reserved as nat, 4);
    assert(b.subrange(0, 16) =~= b);
    assert(b.subrange(0, 4) =~= le_bytes(f.meta_len as nat, 4));
    assert(b.subrange(4, 8) =~= le_bytes(f.reserved as nat, 4));
    assert(b.subrange(8, 16) =~= footer_magic());
}

/// A footer decoded from a file encodes back to the file's last 16 bytes.
pub proof fn lemma_footer_bytes_of_decoded(data: Seq<u8>)
    requires
        spec_footer_from_bytes(data) is Some,
    ensures
        spec_footer_bytes(spec_footer_from_bytes(data).unwrap()) == data.subrange(
            data.len() - 16,
            data.len() as int,
        ),
{
    let tail = data.subrange(data.len() - 16, data.len() as int);
    let f = spec_footer_from_bytes(data).unwrap();
    lemma_le_value_bound(tail.subrange(0, 4));
    lemma_le_value_bound(tail.subrange(4, 8));
    lemma_pow256_values();
    lemma_le_bytes_of_value(tail.subrange(0, 4));
    lemma_le_bytes_of_value(tail.subrange(4, 8));
    assert(spec_footer_bytes(f) =~= tail);
}

/// Whether a stream's blocks are stored compressed.
#[derive(Clone, Copy, Debug, PartialEq, Eq, Structural)]
pub enum CompressionMethod {
    /// Blocks are stored as they are (`none` in the metadata).
    Uncompressed,
    Zstd,
    Unknown,
}

/// Stream info in the metadata of a `.izs` file.
#[derive(Clone, Copy, Debug, PartialEq, Eq, Structural)]
pub struct StreamMeta {
    pub element: ElementSize,
    /// Number of elements per block.
    pub block: usize,
    /// Byte offset of the stream's block index.
    pub root: u64,
    /// Byte length of the stream's block index.
    pub root_len: u32,
    /// Number of elements in the stream.
    pub end_idx: u64,
    pub compress: CompressionMethod,
}

impl StreamMeta {
    /// Moves the block index offset from the block-index buffer into the
    /// file, once the buffer has been written at `base`.
    pub fn relocate_root(&mut self, base: u64)
        requires
            old(self).root + base <= u64::MAX,
        ensures
            *final(self) == (StreamMeta { root: (old(self).root + base) as u64, ..*old(self) }),
    {
        self.root = self.root + base;
    }
}

/// The concatenated 8-byte little-endian encodings of `s`.
pub open spec fn ser_u64s(s: Seq<u64>) -> Seq<u8>
    decreases s.len(),
{
    if s.len() == 0 {
        seq![]
    } else {
        ser_u64s(s.drop_last()) + le_bytes(s.last() as nat, 8)
    }
}

/// The concatenated 4-byte little-endian encodings of `s`.
pub open spec fn ser_u32s(s: Seq<u32>) -> Seq<u8>
    decreases s.len(),
{
    if s.len() == 0 {
        seq![]
    } else {
        ser_u32s(s.drop_last()) + le_bytes(s.last() as nat, 4)
    }
}

/// Positions and lengths of the compressed blocks of one stream.
pub struct BlockIndex {
    /// Positions of the compressed blocks within the file
    pub offsets: Vec<u64>,
    /// Lengths of the compressed blocks.
    pub lengths: Vec<u32>,
}

/// The encoding of a block index: all offsets, then all lengths.
pub open spec fn spec_block_index_bytes(offsets: Seq<u64>, lengths: Seq<u32>) -> Seq<u8> {
    ser_u64s(offsets) + ser_u32s(lengths)
}

/// Number of complete entries in an encoded block index of `len` bytes.
pub open spec fn spec_block_count(len: int) -> int {
    len / 12
}

/// The offsets decoded from an encoded block index.
pub open spec fn spec_parsed_offsets(data: Seq<u8>) -> Seq<u64> {
    Seq::new(spec_block_count(data.len() as int) as nat, |i: int| le_at(data, 8 * i, 8) as u64)
}

/// The lengths decoded from an encoded block index.
pub open spec fn spec_parsed_lengths(data: Seq<u8>) -> Seq<u32> {
    let n = spec_block_count(data.len() as int);
    Seq::new(n as nat, |i: int| le_at(data, 8 * n + 4 * i, 4) as u32)
}

pub proof fn lemma_ser_u64s(s: Seq<u64>)
    ensures
        ser_u64s(s).len() == 8 * s.len(),
        forall|i: int|
            0 <= i < s.len() ==> #[trigger] ser_u64s(s).subrange(8 * i, 8 * i + 8) == le_bytes(
                s[i] as nat,
                8,
            ),
    decreases s.len(),
{
    if s.len() > 0 {
        let p = s.drop_last();
        lemma_ser_u64s(p);
        lemma_le_bytes_len(s.last() as nat, 8);
        let whole = ser_u64s(s);
        assert forall|i: int| 0 <= i < s.len() implies #[trigger] whole.subrange(8 * i, 8 * i + 8)
            == le_bytes(s[i] as nat, 8) by {
            if i < p.len() {
                assert(whole.subrange(8 * i, 8 * i + 8) =~= ser_u64s(p).subrange(8 * i, 8 * i + 8));
                assert(p[i] == s[i]);
            } else {
                assert(whole.subrange(8 * i, 8 * i + 8) =~= le_bytes(s.last() as nat, 8));
            }
        }
    }
}

pub proof fn lemma_ser_u32s(s: Seq<u32>)
    ensures
        ser_u32s(s).len() == 4 * s.len(),
        forall|i: int|
            0 <= i < s.len() ==> #[trigger] ser_u32s(s).subrange(4 * i, 4 * i + 4) == le_bytes(
                s[i] as nat,
                4,
            ),
    decreases s.len(),
{
    if s.len() > 0 {
        let p = s.drop_last();
        lemma_ser_u32s(p);
        lemma_le_bytes_len(s.last() as nat, 4);
        let whole = ser_u32s(s);
        assert forall|i: int| 0 <= i < s.len() implies #[trigger] whole.subrange(4 * i, 4 * i + 4)
            == le_bytes(s[i] as nat, 4) by {
            if i < p.len() {
                assert(whole.subrange(4 * i, 4 * i + 4) =~= ser_u32s(p).subrange(4 * i, 4 * i + 4));
                assert(p[i] == s[i]);
            } else {
                assert(whole.subrange(4 * i, 4 * i + 4) =~= le_bytes(s.last() as nat, 4));
            }
        }
    }
}

impl BlockIndex {
    /// An empty block index.
    pub fn new() -> (res: Self)
        ensures
            res.offsets@ == Seq::<u64>::empty(),
            res.lengths@ == Seq::<u32>::empty(),
    {
        BlockIndex { offsets: Vec::new(), lengths: Vec::new() }
    }

    /// Records one more block.
    pub fn push(&mut self, offset: u64, length: u32)
        ensures
            final(self).offsets@ == old(self).offsets@.push(offset),
            final(self).lengths@ == old(self).lengths@.push(length),
    {
        self.offsets.push(offset);
        self.lengths.push(length);
    }

    /// Appends the encoding of the index to `buf`.
    pub fn serialize_into(&self, buf: &mut Vec<u8>)
        ensures
            final(buf)@ == old(buf)@ + spec_block_index_bytes(self.offsets@, self.lengths@),
    {
        let ghost start = buf@;
        let mut i: usize = 0;
        while i < self.offsets.len()
            invariant
                i <= self.offsets@.len(),
                buf@ == start + ser_u64s(self.offsets@.subrange(0, i as int)),
            decreases self.offsets@.len() - i,
        {
            push_le(buf, self.offsets[i], 8);
            assert(self.offsets@.subrange(0, i + 1).drop_last() =~= self.offsets@.subrange(0, i as int));
            i = i + 1;
        }
        assert(self.offsets@.subrange(0, i as int) =~= self.offsets@);
        let ghost mid = buf@;
        let mut j: usize = 0;
        while j < self.lengths.len()
            invariant
                j <= self.lengths@.len(),
                buf@ == mid + ser_u32s(self.lengths@.subrange(0, j as int)),
            decreases self.lengths@.len() - j,
        {
            push_le(buf, self.lengths[j] as u64, 4);
            assert(self.lengths@.subrange(0, j + 1).drop_last() =~= self.lengths@.subrange(0, j as int));
            j = j + 1;
        }
        assert(self.lengths@.subrange(0, j as int) =~= self.lengths@);
    }

    /// Decodes an index: `len / 12` offsets followed by as many lengths.
    pub fn parse(data: &[u8]) -> (res: Self)
        ensures
            res.offsets@ == spec_parsed_offsets(data@),
            res.lengths@ == spec_parsed_lengths(data@),
    {
        let len = data.len();
        let n = len / 12;
        assert(12 * n <= len) by (nonlinear_arith)
            requires
                n == len / 12,
        ;
        let mut offsets: Vec<u64> = Vec::new();
        let mut i: usize = 0;
        while i < n
            invariant
                n == spec_block_count(data@.len() as int),
                len == data@.len(),
                12 * n <= len,
                i <= n,
                offsets@ =~= spec_parsed_offsets(data@).subrange(0, i as int),
            decreases n - i,
        {
            offsets.push(read_u64_le(data, 8 * i));
            i = i + 1;
        }
        let mut lengths: Vec<u32> = Vec::new();
        let mut j: usize = 0;
        while j < n
            invariant
                n == spec_block_count(data@.len() as int),
                len == data@.len(),
                12 * n <= len,
                j <= n,
                lengths@ =~= spec_parsed_lengths(data@).subrange(0, j as int),
            decreases n - j,
        {
            lengths.push(read_u32_le(data, 8 * n + 4 * j));
            j = j + 1;
        }
        BlockIndex { offsets, lengths }
    }
}

/// Decoding the encoding of a block index with as many offsets as lengths
/// gives back the same offsets and lengths.
pub proof fn lemma_block_index_roundtrip(offsets: Seq<u64>, lengths: Seq<u32>)
    requires
        offsets.len() == lengths.len(),
    ensures
        spec_parsed_offsets(spec_block_index_bytes(offsets, lengths)) == offsets,
        spec_parsed_lengths(spec_block_index_bytes(offsets, lengths)) == lengths,
{
    let data = spec_block_index_bytes(offsets, lengths);
    let n = offsets.len() as int;
    lemma_ser_u64s(offsets);
    lemma_ser_u32s(lengths);
    lemma_pow256_values();
    assert(data.len() == 12 * n);
    assert(spec_block_count(data.len() as int) == n);
    assert forall|i: int| 0 <= i < n implies #[trigger] le_at(data, 8 * i, 8) == offsets[i] by {
        assert(data.subrange(8 * i, 8 * i + 8) =~= ser_u64s(offsets).subrange(8 * i, 8 * i + 8));
        lemma_le_value_of_bytes(offsets[i] as nat, 8);
    }
    assert forall|i: int| 0 <= i < n implies #[trigger] le_at(data, 8 * n + 4 * i, 4)
        == lengths[i] by {
        assert(data.subrange(8 * n + 4 * i, 8 * n + 4 * i + 4) =~= ser_u32s(lengths).subrange(
            4 * i,
            4 * i + 4,
        ));
        lemma_le_value_of_bytes(lengths[i] as nat, 4);
    }
    assert(spec_parsed_offsets(data) =~= offsets);
    assert(spec_parsed_lengths(data) =~= lengths);
}

/// Appends the encoding of `block_index` to the buffer of block indexes and
/// returns where it starts in the buffer and how long it is (as a `u32`,
/// keeping the low 32 bits).
pub fn append_block_index(buf: &mut Vec<u8>, block_index: &BlockIndex) -> (res: (u64, u32))
    ensures
        final(buf)@ == old(buf)@ + spec_block_index_bytes(block_index.offsets@, block_index.lengths@),
        res.0 == old(buf)@.len(),
        res.1 == spec_block_index_bytes(block_index.offsets@, block_index.lengths@).len() as u32,
{
    let before = buf.len();
    block_index.serialize_into(buf);
    let after = buf.len();
    (before as u64, (after - before) as u32)
}

/// The bookkeeping of writing an `.izs` file: the position reached, the
/// block indexes still to write, and whether a write has failed.
pub struct WriteState {
    pos: u64,
    block_indexes: Vec<u8>,
    error: bool,
}

/// The content of a `WriteState`.
pub struct WriteStateView {
    pub pos: u64,
    pub block_indexes: Seq<u8>,
    pub error: bool,
}

impl View for WriteState {
    type V = WriteStateView;

    closed spec fn view(&self) -> WriteStateView {
        WriteStateView { pos: self.pos, block_indexes: self.block_indexes@, error: self.error }
    }
}

/// An error of kind `Other` with the message `msg`.
///
/// Trusted: calls `std::io::Error::other` of std, which builds an error
/// from a message; nothing is stated of the opaque result.
#[verifier::external_body]
fn other_io_error(msg: String) -> std::io::Error {
    std::io::Error::other(msg)
}

impl WriteState {
    /// Nothing written yet.
    pub fn new() -> (res: WriteState)
        ensures
            res@.pos == 0,
            res@.block_indexes == Seq::<u8>::empty(),
            !res@.error,
    {
        WriteState { pos: 0, block_indexes: Vec::new(), error: false }
    }

    /// Refuses to write after a failed write.
    pub fn check_error(&self) -> (res: Result<(), std::io::Error>)
        ensures
            res is Ok <==> !self@.error,
    {
        if self.error {
            Err(other_io_error(crate::config::owned("write failed due to previous error")))
        } else {
            Ok(())
        }
    }

    /// Records that `len` bytes were written, returning where they start.
    pub fn wrote(&mut self, len: usize) -> (res: u64)
        requires
            old(self)@.pos + len <= u64::MAX,
        ensures
            res == old(self)@.pos,
            final(self)@.pos == old(self)@.pos + len,
            final(self)@.block_indexes == old(self)@.block_indexes,
            final(self)@.error == old(self)@.error,
    {
        let old_pos = self.pos;
        self.pos = self.pos + len as u64;
        old_pos
    }

    /// Records that a write failed: every later write is refused.
    pub fn failed(&mut self)
        ensures
            final(self)@.error,
            final(self)@.pos == old(self)@.pos,
            final(self)@.block_indexes == old(self)@.block_indexes,
    {
        self.error = true;
    }

    /// Appends a block index to the buffer to be written at the end of the
    /// file, returning its offset within the buffer and its length.
    pub fn add_block_index(&mut self, block_index: &BlockIndex) -> (res: (u64, u32))
        ensures
            final(self)@.block_indexes == old(self)@.block_indexes + spec_block_index_bytes(
                block_index.offsets@,
                block_index.lengths@,
            ),
            res.0 == old(self)@.block_indexes.len(),
            res.1 == spec_block_index_bytes(block_index.offsets@, block_index.lengths@).len() as u32,
            final(self)@.pos == old(self)@.pos,
            final(self)@.error == old(self)@.error,
    {
        append_block_index(&mut self.block_indexes, block_index)
    }

    /// Takes the block indexes out to be written, leaving none.
    pub fn take_block_indexes(&mut self) -> (res: Vec<u8>)
        ensures
            res@ == old(self)@.block_indexes,
            final(self)@.block_indexes == Seq::<u8>::empty(),
            final(self)@.pos == old(self)@.pos,
            final(self)@.error == old(self)@.error,
    {
        let mut taken: Vec<u8> = Vec::new();
        std::mem::swap(&mut taken, &mut self.block_indexes);
        taken
    }
}

} // verus!
