//! Reading the records of a CSV file: the buffers kept between calls of the
//! `csv_core` push parser, the fields of each record, and the header row.
use vstd::prelude::*;
use vstd::utf8::{decode_utf8, valid_utf8};
use crate::config::owned;
use crate::csv_options::{CsvImporter, CsvSettings};
use crate::srzip::ImportError;

verus! {

/// Declares `csv_core::Reader`, the parser that splits CSV text into
/// records and fields.
#[verifier::external_type_specification]
#[verifier::external_body]
pub struct ExCsvReader(csv_core::Reader);

/// What one call of the parser reports, as csv_core's `ReadRecordResult`.
#[derive(Clone, Copy, Debug, PartialEq, Eq, Structural)]
pub enum ReadStatus {
    InputEmpty,
    OutputFull,
    OutputEndsFull,
    Record,
    End,
}

/// The settings a CSV parser is built with: the field delimiter; the
/// record terminator (any of CR, LF or CRLF when none is given); the quote
/// byte and whether quoting is on; the escape byte; whether a doubled quote
/// stands for one; and the byte that starts a comment line.
#[derive(Clone, Copy, PartialEq, Eq, Structural)]
pub struct Dialect {
    pub delimiter: u8,
    pub terminator: Option<u8>,
    pub quote: u8,
    pub quoting: bool,
    pub escape: Option<u8>,
    pub double_quote: bool,
    pub comment: Option<u8>,
}

/// A csv_core parser, with the dialect it was built with.
pub struct CsvParser {
    reader: csv_core::Reader,
    dialect: Dialect,
}

impl CsvParser {
    /// The dialect the parser was built with.
    pub closed spec fn spec_dialect(&self) -> Dialect {
        self.dialect
    }
}

/// A parser for `dialect`.
///
/// Trusted: builds the parser with the setters of `csv_core::ReaderBuilder`
/// (`delimiter`, `terminator`, `quote`, `quoting`, `escape`,
/// `double_quote`, `comment`), each given the matching part of `dialect`,
/// and `build`; and keeps `dialect` beside it. What the parser does with its
/// hidden state is not stated here.
#[verifier::external_body]
fn build_reader(dialect: Dialect) -> (res: CsvParser)
    ensures
        res.spec_dialect() == dialect,
{
    let terminator = match dialect.terminator {
        Some(b) => csv_core::Terminator::Any(b),
        None => csv_core::Terminator::CRLF,
    };
    let reader = csv_core::ReaderBuilder::new().delimiter(dialect.delimiter).terminator(terminator).quote(
        dialect.quote,
    ).quoting(dialect.quoting).escape(dialect.escape).double_quote(dialect.double_quote).comment(
        dialect.comment,
    ).build();
    CsvParser { reader, dialect }
}

/// The parser of an importer's settings takes each of them as it is: the
/// same delimiter, terminator, escape, doubled-quote rule and comment byte,
/// and quoting on exactly when there is a quote byte, which is then the
/// parser's quote.
pub proof fn lemma_dialect_keeps_settings(s: CsvSettings)
    ensures
        importer_dialect(s).delimiter == s.delimiter,
        importer_dialect(s).terminator == s.terminator,
        importer_dialect(s).quoting <==> s.quote is Some,
        s.quote matches Some(q) ==> importer_dialect(s).quote == q,
        importer_dialect(s).escape == s.escape,
        importer_dialect(s).double_quote == s.double_quote,
        importer_dialect(s).comment == s.comment,
{
}

/// The dialect of an importer's settings: quoting is off when there is no
/// quote byte.
pub open spec fn importer_dialect(s: CsvSettings) -> Dialect {
    Dialect {
        delimiter: s.delimiter,
        terminator: s.terminator,
        quote: match s.quote {
            Some(b) => b,
            None => 0,
        },
        quoting: s.quote is Some,
        escape: s.escape,
        double_quote: s.double_quote,
        comment: s.comment,
    }
}

/// The bytes of `a` occur in `b` in the same order, at the positions `idx`.
pub open spec fn picked_at(a: Seq<u8>, b: Seq<u8>, idx: Seq<int>) -> bool {
    &&& idx.len() == a.len()
    &&& forall|i: int| 0 <= i < a.len() ==> 0 <= #[trigger] idx[i] < b.len() && b[idx[i]] == a[i]
    &&& forall|i: int, j: int| 0 <= i < j < a.len() ==> #[trigger] idx[i] < #[trigger] idx[j]
}

/// `a` is `b` with some of its bytes left out.
pub open spec fn subsequence_of(a: Seq<u8>, b: Seq<u8>) -> bool {
    exists|idx: Seq<int>| picked_at(a, b, idx)
}

/// Parses from `input` into the output buffer from `out_start` on and the
/// buffer of field ends from `ends_start` on.
///
/// Trusted: calls `csv_core::Reader::read_record` on those two slices. The
/// contract states what csv_core documents and its source shows of the
/// three counts (bytes read, bytes written, ends written): they fit the
/// input and the two slices; `InputEmpty` comes once all the input is read;
/// `End` comes only for an input that is empty, or holds just the UTF-8
/// byte order mark that is skipped at the start, all of it read; `OutputFull`
/// comes once the output slice is full. Nothing outside the slices changes.
/// The bytes written are bytes read, in their order: the parser copies each
/// byte it writes from the input (`read_record_dfa`).
/// These hold of the DFA parser that `build_reader` makes, the only kind
/// this module builds. Which bytes and positions it writes depends on the
/// parser's hidden state and is left unsaid.
#[verifier::external_body]
fn read_record(
    reader: &mut csv_core::Reader,
    input: &[u8],
    out: &mut Vec<u8>,
    out_start: usize,
    ends: &mut Vec<usize>,
    ends_start: usize,
) -> (res: (ReadStatus, usize, usize, usize))
    requires
        out_start <= old(out)@.len(),
        ends_start <= old(ends)@.len(),
    ensures
        res.1 <= input@.len(),
        res.2 <= old(out)@.len() - out_start,
        res.3 <= old(ends)@.len() - ends_start,
        final(out)@.len() == old(out)@.len(),
        final(ends)@.len() == old(ends)@.len(),
        final(out)@.subrange(0, out_start as int) == old(out)@.subrange(0, out_start as int),
        final(ends)@.subrange(0, ends_start as int) == old(ends)@.subrange(0, ends_start as int),
        res.0 == ReadStatus::InputEmpty ==> res.1 == input@.len(),
        res.0 == ReadStatus::End ==> res.1 == input@.len() && res.2 == 0 && res.3 == 0 && (input@.len()
            == 0 || input@ == seq![0xefu8, 0xbbu8, 0xbfu8]),
        res.0 == ReadStatus::OutputFull ==> res.2 == old(out)@.len() - out_start,
        subsequence_of(
            final(out)@.subrange(out_start as int, out_start + res.2),
            input@.subrange(0, res.1 as int),
        ),
{
    let (r, nin, nout, nend) = reader.read_record(input, &mut out[out_start..], &mut ends[ends_start..]);
    let status = match r {
        csv_core::ReadRecordResult::InputEmpty => ReadStatus::InputEmpty,
        csv_core::ReadRecordResult::OutputFull => ReadStatus::OutputFull,
        csv_core::ReadRecordResult::OutputEndsFull => ReadStatus::OutputEndsFull,
        csv_core::ReadRecordResult::Record => ReadStatus::Record,
        csv_core::ReadRecordResult::End => ReadStatus::End,
    };
    (status, nin, nout, nend)
}

/// The line the parser is on.
///
/// Trusted: calls `csv_core::Reader::line`. Nothing is stated of the number.
#[verifier::external_body]
fn reader_line(reader: &csv_core::Reader) -> u64 {
    reader.line()
}

/// The text of `bytes` when they are valid UTF-8.
///
/// Trusted: calls `std::str::from_utf8`, which std documents to succeed
/// exactly on valid UTF-8, giving the text those bytes encode.
#[verifier::external_body]
pub(crate) fn utf8_text(bytes: &[u8]) -> (res: Option<String>)
    ensures
        res is Some <==> valid_utf8(bytes@),
        res matches Some(s) ==> s@ == decode_utf8(bytes@),
{
    match std::str::from_utf8(bytes) {
        Ok(s) => Some(s.to_owned()),
        Err(_) => None,
    }
}

/// Where field `i` of a record starts: where the one before it ends.
pub open spec fn field_start(ends: Seq<usize>, i: int) -> int {
    if i == 0 {
        0
    } else {
        ends[i - 1] as int
    }
}

/// The end positions mark fields that follow one another inside a buffer
/// of `len` bytes.
pub open spec fn ends_valid(len: nat, ends: Seq<usize>) -> bool {
    forall|i: int| 0 <= i < ends.len() ==> field_start(ends, i) <= #[trigger] ends[i] <= len
}

/// The fields of a record: the bytes of `buf` between consecutive ends.
pub open spec fn record_fields(buf: Seq<u8>, ends: Seq<usize>) -> Seq<Seq<u8>> {
    Seq::new(ends.len(), |i: int| buf.subrange(field_start(ends, i), ends[i] as int))
}

/// The bytes of each field.
pub open spec fn fields_view(fields: Seq<Vec<u8>>) -> Seq<Seq<u8>> {
    fields.map_values(|f: Vec<u8>| f@)
}

/// A record as the parser leaves it: the bytes of its fields one after the
/// other, and where each field ends.
pub struct Row<'a> {
    pub line: u64,
    pub buf: &'a [u8],
    pub col_ends: &'a [usize],
}

impl Row<'_> {
    /// The fields of the record: the bytes between consecutive end
    /// positions, the first field starting at zero. `None` when the end
    /// positions do not mark such fields.
    pub fn column_values(&self) -> (res: Option<Vec<Vec<u8>>>)
        ensures
            match res {
                Some(f) => ends_valid(self.buf@.len(), self.col_ends@) && fields_view(f@) == record_fields(
                    self.buf@,
                    self.col_ends@,
                ),
                None => !ends_valid(self.buf@.len(), self.col_ends@),
            },
    {
        let buf = self.buf;
        let ends = self.col_ends;
        let mut fields: Vec<Vec<u8>> = Vec::new();
        let mut start: usize = 0;
        let mut i: usize = 0;
        while i < ends.len()
            invariant
                buf@ == self.buf@,
                ends@ == self.col_ends@,
                i <= ends@.len(),
                i > 0 ==> start == ends@[i - 1],
                i == 0 ==> start == 0,
                forall|j: int| 0 <= j < i ==> field_start(ends@, j) <= #[trigger] ends@[j] <= buf@.len(),
                fields@.len() == i,
                forall|j: int|
                    0 <= j < i ==> #[trigger] fields@[j]@ == buf@.subrange(field_start(ends@, j), ends@[j] as int),
            decreases ends@.len() - i,
        {
            let end = ends[i];
            assert(start == field_start(ends@, i as int));
            if end < start || end > buf.len() {
                assert(!(field_start(ends@, i as int) <= ends@[i as int] <= buf@.len()));
                return None;
            }
            let f = vstd::slice::slice_to_vec(vstd::slice::slice_subrange(buf, start, end));
            fields.push(f);
            start = end;
            i = i + 1;
        }
        assert(fields_view(fields@) =~= record_fields(buf@, ends@));
        Some(fields)
    }
}

/// The buffers of a record being read: the output bytes and field ends,
/// with how much of each the record has filled; and the dialect that the
/// parser was built with.
pub struct RecordBuffers {
    pub dialect: Dialect,
    pub out: Seq<u8>,
    pub ends: Seq<usize>,
    pub outlen: nat,
    pub endlen: nat,
}

/// What reading reports after one call of the parser.
pub enum CsvEvent {
    /// The input was read without ending a record: more input is needed
    /// (an empty input marks the end of the file).
    NeedInput,
    /// A buffer was grown: the rest of the input is to be handed in again.
    Grown,
    /// A record ended on line `line` (counted from zero), with these fields.
    Record { line: u64, fields: Vec<Vec<u8>> },
    /// All records have been read.
    End,
}

/// `res` is the error of a malformed file with the message `msg`.
pub open spec fn is_invalid_file<T>(res: Result<T, ImportError>, msg: Seq<char>) -> bool {
    res matches Err(ImportError::InvalidFile(m)) && m@ == msg
}

/// Reads CSV records from text handed in piece by piece.
pub struct CsvRecordReader {
    parser: CsvParser,
    out: Vec<u8>,
    ends: Vec<usize>,
    outlen: usize,
    endlen: usize,
}

impl View for CsvRecordReader {
    type V = RecordBuffers;

    closed spec fn view(&self) -> RecordBuffers {
        RecordBuffers {
            dialect: self.parser.spec_dialect(),
            out: self.out@,
            ends: self.ends@,
            outlen: self.outlen as nat,
            endlen: self.endlen as nat,
        }
    }
}

/// The buffers with `nout` more bytes and `nend` more ends counted.
pub open spec fn advanced(b: RecordBuffers, nout: nat, nend: nat) -> RecordBuffers {
    RecordBuffers { outlen: b.outlen + nout, endlen: b.endlen + nend, ..b }
}

/// The line of a record that ended when the parser's count was `line`.
pub open spec fn record_line(line: u64) -> u64 {
    if line > 0 {
        (line - 1) as u64
    } else {
        0
    }
}

impl CsvRecordReader {
    /// The counts stay within the buffers.
    pub open spec fn wf(&self) -> bool {
        self@.outlen <= self@.out.len() && self@.endlen <= self@.ends.len()
    }

    /// A reader for the dialect of `importer`, with room for 1024 bytes and
    /// 128 fields to begin with. The parser is built from the importer's
    /// delimiter, terminator, quote (none disables quoting), escape, double
    /// quote and comment settings.
    pub fn new(importer: &CsvImporter) -> (res: Self)
        ensures
            res.wf(),
            res@.dialect == importer_dialect(importer@),
            res@.dialect.delimiter == importer@.delimiter,
            res@.dialect.terminator == importer@.terminator,
            res@.dialect.quoting <==> importer@.quote is Some,
            importer@.quote matches Some(q) ==> res@.dialect.quote == q,
            res@.dialect.escape == importer@.escape,
            res@.dialect.double_quote == importer@.double_quote,
            res@.dialect.comment == importer@.comment,
            res@.out.len() == 1024,
            res@.ends.len() == 128,
            res@.outlen == 0,
            res@.endlen == 0,
    {
        let quote = importer.quote();
        let (quote_byte, quoting) = match quote {
            Some(b) => (b, true),
            None => (0u8, false),
        };
        let parser = build_reader(
            Dialect {
                delimiter: importer.delimiter(),
                terminator: importer.terminator(),
                quote: quote_byte,
                quoting,
                escape: importer.escape(),
                double_quote: importer.double_quote(),
                comment: importer.comment(),
            },
        );
        CsvRecordReader {
            parser,
            out: vec![0u8; 1024],
            ends: vec![0usize; 128],
            outlen: 0,
            endlen: 0,
        }
    }

    /// What follows a call of the parser that reported `status`, wrote
    /// `nout` bytes and `nend` field ends, and left its line count at `line`.
    /// A full buffer is doubled; a line too long to double it for is an
    /// error. A record is cut into its fields and the buffers are emptied.
    pub fn advance(&mut self, status: ReadStatus, nout: usize, nend: usize, line: u64) -> (res: Result<
        CsvEvent,
        ImportError,
    >)
        requires
            old(self).wf(),
            nout <= old(self)@.out.len() - old(self)@.outlen,
            nend <= old(self)@.ends.len() - old(self)@.endlen,
        ensures
            final(self).wf(),
            final(self)@.dialect == old(self)@.dialect,
            ({
                let b = advanced(old(self)@, nout as nat, nend as nat);
                match status {
                    ReadStatus::InputEmpty => res matches Ok(CsvEvent::NeedInput) && final(self)@ == b,
                    ReadStatus::End => res matches Ok(CsvEvent::End) && final(self)@ == b,
                    ReadStatus::OutputFull => if 2 * b.out.len() <= usize::MAX {
                        &&& res matches Ok(CsvEvent::Grown)
                        &&& final(self)@.out.len() == 2 * b.out.len()
                        &&& final(self)@.out.subrange(0, b.out.len() as int) == b.out
                        &&& final(self)@.ends == b.ends
                        &&& final(self)@.outlen == b.outlen
                        &&& final(self)@.endlen == b.endlen
                    } else {
                        is_invalid_file(res, "line too long"@) && final(self)@ == b
                    },
                    ReadStatus::OutputEndsFull => if 2 * b.ends.len() <= usize::MAX {
                        &&& res matches Ok(CsvEvent::Grown)
                        &&& final(self)@.ends.len() == 2 * b.ends.len()
                        &&& final(self)@.ends.subrange(0, b.ends.len() as int) == b.ends
                        &&& final(self)@.out == b.out
                        &&& final(self)@.outlen == b.outlen
                        &&& final(self)@.endlen == b.endlen
                    } else {
                        is_invalid_file(res, "line too long"@) && final(self)@ == b
                    },
                    ReadStatus::Record => {
                        let buf = b.out.subrange(0, b.outlen as int);
                        let e = b.ends.subrange(0, b.endlen as int);
                        if ends_valid(buf.len(), e) {
                            &&& res matches Ok(CsvEvent::Record { line: l, fields })
                            &&& l == record_line(line)
                            &&& fields_view(fields@) == record_fields(buf, e)
                            &&& final(self)@ == (RecordBuffers { outlen: 0, endlen: 0, ..b })
                        } else {
                            is_invalid_file(res, "malformed record"@) && final(self)@ == b
                        }
                    },
                }
            }),
    {
        let out_cap = self.out.len();
        let ends_cap = self.ends.len();
        self.outlen = self.outlen + nout;
        self.endlen = self.endlen + nend;
        assert(self.outlen <= out_cap && self.endlen <= ends_cap);
        match status {
            ReadStatus::InputEmpty => Ok(CsvEvent::NeedInput),
            ReadStatus::End => Ok(CsvEvent::End),
            ReadStatus::OutputFull => {
                let n = self.out.len();
                match n.checked_mul(2) {
                    Some(len) => {
                        self.out.resize(len, 0u8);
                        Ok(CsvEvent::Grown)
                    },
                    None => Err(ImportError::InvalidFile(owned("line too long"))),
                }
            },
            ReadStatus::OutputEndsFull => {
                let n = self.ends.len();
                match n.checked_mul(2) {
                    Some(len) => {
                        self.ends.resize(len, 0usize);
                        Ok(CsvEvent::Grown)
                    },
                    None => Err(ImportError::InvalidFile(owned("line too long"))),
                }
            },
            ReadStatus::Record => {
                let buf = vstd::slice::slice_subrange(self.out.as_slice(), 0, self.outlen);
                let e = vstd::slice::slice_subrange(self.ends.as_slice(), 0, self.endlen);
                let l = if line > 0 {
                    line - 1
                } else {
                    0
                };
                let row = Row { line: l, buf, col_ends: e };
                match row.column_values() {
                    Some(fields) => {
                        self.outlen = 0;
                        self.endlen = 0;
                        Ok(CsvEvent::Record { line: row.line, fields })
                    },
                    None => Err(ImportError::InvalidFile(owned("malformed record"))),
                }
            },
        }
    }

    /// Hands `input` to the parser once, and returns how many of its bytes
    /// were read with what followed (see `advance`). The bytes and field
    /// ends of the record read so far are kept; a record that ends is cut
    /// into fields of those bytes and of what this call added.
    pub fn step(&mut self, input: &[u8]) -> (res: Result<(usize, CsvEvent), ImportError>)
        requires
            old(self).wf(),
        ensures
            final(self).wf(),
            final(self)@.dialect == old(self)@.dialect,
            res matches Ok((n, _)) ==> n <= input@.len(),
            res matches Ok((_, ev)) && !(ev is Record) ==> (final(self)@.outlen >= old(self)@.outlen
                && final(self)@.endlen >= old(self)@.endlen && final(self)@.out.len() >= old(
                self,
            )@.outlen && final(self)@.ends.len() >= old(self)@.endlen && final(self)@.out.subrange(
                0,
                old(self)@.outlen as int,
            ) == old(self)@.out.subrange(0, old(self)@.outlen as int) && final(self)@.ends.subrange(
                0,
                old(self)@.endlen as int,
            ) == old(self)@.ends.subrange(0, old(self)@.endlen as int)),
            res matches Ok((n, CsvEvent::Record { fields, .. })) ==> exists|p: Seq<u8>, e: Seq<usize>|
                {
                    &&& p.len() >= old(self)@.outlen
                    &&& p.subrange(0, old(self)@.outlen as int) == old(self)@.out.subrange(
                        0,
                        old(self)@.outlen as int,
                    )
                    &&& e.len() >= old(self)@.endlen
                    &&& e.subrange(0, old(self)@.endlen as int) == old(self)@.ends.subrange(
                        0,
                        old(self)@.endlen as int,
                    )
                    &&& subsequence_of(
                        p.subrange(old(self)@.outlen as int, p.len() as int),
                        input@.subrange(0, n as int),
                    )
                    &&& ends_valid(p.len(), e)
                    &&& fields_view(fields@) == record_fields(p, e)
                },
            res matches Ok((n, ev)) ==> (!(ev is Record) ==> subsequence_of(
                final(self)@.out.subrange(old(self)@.outlen as int, final(self)@.outlen as int),
                input@.subrange(0, n as int),
            )),
            res matches Ok((n, CsvEvent::NeedInput)) ==> n == input@.len(),
            res matches Ok((n, CsvEvent::End)) ==> n == input@.len() && (input@.len() == 0 || input@
                == seq![0xefu8, 0xbbu8, 0xbfu8]) && final(self)@.outlen == old(self)@.outlen
                && final(self)@.endlen == old(self)@.endlen,
            res matches Ok((_, CsvEvent::Grown)) ==> ({
                let f = final(self)@;
                let o = old(self)@;
                ||| f.out.len() == 2 * o.out.len() && f.outlen == o.out.len()
                ||| f.ends.len() == 2 * o.ends.len()
            }),
            res is Err ==> final(self)@.out.len() == old(self)@.out.len() && final(self)@.ends.len()
                == old(self)@.ends.len(),
            res is Err ==> ({
                let f = final(self)@;
                ||| is_invalid_file(res, "line too long"@) && (2 * f.out.len() > usize::MAX || 2
                    * f.ends.len() > usize::MAX)
                ||| is_invalid_file(res, "malformed record"@) && !ends_valid(
                    f.outlen,
                    f.ends.subrange(0, f.endlen as int),
                )
            }),
    {
        let ghost old_v = self@;
        let (status, nin, nout, nend) = read_record(
            &mut self.parser.reader,
            input,
            &mut self.out,
            self.outlen,
            &mut self.ends,
            self.endlen,
        );
        let line = reader_line(&self.parser.reader);
        let ghost mid = self@;
        let ev = self.advance(status, nout, nend, line);
        proof {
            let b = advanced(mid, nout as nat, nend as nat);
            assert(b.out.subrange(0, old_v.outlen as int) == old_v.out.subrange(0, old_v.outlen as int));
            assert(b.ends.subrange(0, old_v.endlen as int) == old_v.ends.subrange(0, old_v.endlen as int));
            let w = mid.out.subrange(old_v.outlen as int, old_v.outlen + nout);
            if status == ReadStatus::Record {
                let p = b.out.subrange(0, b.outlen as int);
                let e = b.ends.subrange(0, b.endlen as int);
                assert(p.subrange(0, old_v.outlen as int) =~= b.out.subrange(0, old_v.outlen as int));
                assert(e.subrange(0, old_v.endlen as int) =~= b.ends.subrange(0, old_v.endlen as int));
                assert(p.subrange(old_v.outlen as int, p.len() as int) =~= w);
            } else if ev is Ok {
                assert(self@.out.subrange(old_v.outlen as int, self@.outlen as int) =~= w);
            }
            if status == ReadStatus::OutputFull && 2 * b.out.len() <= usize::MAX {
                assert(self@.out.subrange(0, old_v.outlen as int) =~= self@.out.subrange(
                    0,
                    b.out.len() as int,
                ).subrange(0, old_v.outlen as int));
            }
            if status == ReadStatus::OutputEndsFull && 2 * b.ends.len() <= usize::MAX {
                assert(self@.ends.subrange(0, old_v.endlen as int) =~= self@.ends.subrange(
                    0,
                    b.ends.len() as int,
                ).subrange(0, old_v.endlen as int));
            }
        }
        match ev {
            Ok(ev) => Ok((nin, ev)),
            Err(e) => Err(e),
        }
    }

    /// The line the parser is on.
    pub fn line(&self) -> u64 {
        reader_line(&self.parser.reader)
    }
}

/// The text of each field, if all are valid UTF-8.
pub open spec fn spec_decode_fields(fields: Seq<Seq<u8>>) -> Option<Seq<Seq<char>>> {
    if forall|i: int| 0 <= i < fields.len() ==> valid_utf8(#[trigger] fields[i]) {
        Some(fields.map_values(|f: Seq<u8>| decode_utf8(f)))
    } else {
        None
    }
}

/// The text of each field, if all are valid UTF-8.
pub fn decode_fields(fields: &[Vec<u8>]) -> (res: Option<Vec<String>>)
    ensures
        match res {
            Some(v) => spec_decode_fields(fields_view(fields@)) == Some(v@.map_values(|s: String| s@)),
            None => spec_decode_fields(fields_view(fields@)) is None,
        },
{
    let ghost fv = fields_view(fields@);
    let mut out: Vec<String> = Vec::new();
    let mut i: usize = 0;
    while i < fields.len()
        invariant
            i <= fields@.len(),
            fv == fields_view(fields@),
            out@.len() == i,
            forall|j: int| 0 <= j < i ==> valid_utf8(#[trigger] fv[j]),
            forall|j: int| 0 <= j < i ==> #[trigger] out@[j]@ == decode_utf8(fv[j]),
        decreases fields@.len() - i,
    {
        match utf8_text(fields[i].as_slice()) {
            Some(s) => {
                out.push(s);
            },
            None => {
                assert(!valid_utf8(fv[i as int]));
                return None;
            },
        }
        i = i + 1;
    }
    assert(out@.map_values(|s: String| s@) =~= fv.map_values(|f: Seq<u8>| decode_utf8(f)));
    Some(out)
}

/// What reading the header of a CSV file has got to: records still to be
/// skipped, and the column names once they are known.
pub struct HeaderReader {
    skip: u64,
    header: Option<Vec<String>>,
}

/// The state of a `HeaderReader`.
pub struct HeaderState {
    pub skip: nat,
    pub header: Option<Seq<Seq<char>>>,
}

impl View for HeaderReader {
    type V = HeaderState;

    closed spec fn view(&self) -> HeaderState {
        HeaderState {
            skip: self.skip as nat,
            header: match self.header {
                Some(h) => Some(h@.map_values(|s: String| s@)),
                None => None,
            },
        }
    }
}

/// The state after one more record: a skipped one, the header, or one that
/// is not needed.
pub open spec fn spec_header_record(h: HeaderState, fields: Seq<Seq<u8>>) -> Result<HeaderState, Seq<char>> {
    if h.skip > 0 {
        Ok(HeaderState { skip: (h.skip - 1) as nat, ..h })
    } else if h.header is None {
        match spec_decode_fields(fields) {
            Some(names) => Ok(HeaderState { header: Some(names), ..h }),
            None => Err("Failed to parse header row as UTF-8"@),
        }
    } else {
        Ok(h)
    }
}

impl HeaderReader {
    /// Starts with the records to skip of `importer`, and its column names
    /// when it gives them in place of a header row.
    pub fn new(importer: &CsvImporter) -> (res: Self)
        ensures
            res@.skip == importer@.skip,
            res@.header == importer@.columns,
    {
        let header = match importer.columns() {
            Some(c) => {
                let mut v: Vec<String> = Vec::new();
                let mut i: usize = 0;
                while i < c.len()
                    invariant
                        i <= c@.len(),
                        v@.len() == i,
                        forall|j: int| 0 <= j < i ==> #[trigger] v@[j]@ == c@[j]@,
                    decreases c@.len() - i,
                {
                    v.push(c[i].clone());
                    i = i + 1;
                }
                assert(v@.map_values(|s: String| s@) =~= c@.map_values(|s: String| s@));
                Some(v)
            },
            None => None,
        };
        HeaderReader { skip: importer.skip(), header }
    }

    /// More records are needed: some are still to be skipped, or the header
    /// is not known yet.
    pub fn wants_records(&self) -> (res: bool)
        ensures
            res == (self@.skip > 0 || self@.header is None),
    {
        self.skip > 0 || self.header.is_none()
    }

    /// Takes in the next record. On an error the state is left as it was.
    pub fn record(&mut self, fields: &[Vec<u8>]) -> (res: Result<(), ImportError>)
        ensures
            match spec_header_record(old(self)@, fields_view(fields@)) {
                Ok(h) => res is Ok && final(self)@ == h,
                Err(m) => is_invalid_file(res, m) && final(self)@ == old(self)@,
            },
    {
        if self.skip > 0 {
            self.skip = self.skip - 1;
            Ok(())
        } else if self.header.is_none() {
            match decode_fields(fields) {
                Some(names) => {
                    self.header = Some(names);
                    Ok(())
                },
                None => Err(ImportError::InvalidFile(owned("Failed to parse header row as UTF-8"))),
            }
        } else {
            Ok(())
        }
    }

    /// The column names, or an error when the file ended before them.
    pub fn finish(self) -> (res: Result<Vec<String>, ImportError>)
        ensures
            match self@.header {
                Some(h) => res matches Ok(v) && v@.map_values(|s: String| s@) == h,
                None => is_invalid_file(res, "CSV file ended before header row"@),
            },
    {
        match self.header {
            Some(h) => Ok(h),
            None => Err(ImportError::InvalidFile(owned("CSV file ended before header row"))),
        }
    }
}

} // verus!
