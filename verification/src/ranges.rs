//! Byte ranges of files: the HTTP `Range` headers asked for and the
//! `Content-Range` answer, and reading ranges of a file held in memory.
use vstd::prelude::*;
use vstd::string::{StrSliceExecFns, StringExecFns};
use crate::config::{chars_of, owned};
use crate::text::{dec_nat, push_decimal, spec_parse_u64, parse_u64, split_once};

verus! {

/// The total size in a `Content-Range` header `bytes {offset}-{end}/{total}`:
/// what follows the first `/` after the `bytes ` prefix, read as a `u64`.
pub open spec fn spec_content_range_total(h: Seq<char>) -> Option<u64> {
    let p = "bytes "@;
    if p.len() <= h.len() && h.subrange(0, p.len() as int) == p {
        match split_once(h.subrange(p.len() as int, h.len() as int), '/') {
            Some((_, total)) => spec_parse_u64(total),
            None => None,
        }
    } else {
        None
    }
}

/// Reads the total size from a `Content-Range` header.
pub fn parse_content_range_total(header: &str) -> (res: Option<u64>)
    ensures
        res == spec_content_range_total(header@),
{
    let h = chars_of(header);
    let p = chars_of("bytes ");
    if p.len() > h.len() {
        return None;
    }
    let mut i: usize = 0;
    while i < p.len()
        invariant
            i <= p@.len() <= h@.len(),
            h@ == header@,
            p@ == "bytes "@,
            forall|j: int| 0 <= j < i ==> h@[j] == p@[j],
        decreases p@.len() - i,
    {
        if h[i] != p[i] {
            assert(header@.subrange(0, p@.len() as int)[i as int] != "bytes "@[i as int]);
            return None;
        }
        i = i + 1;
    }
    assert(header@.subrange(0, p@.len() as int) =~= "bytes "@);
    let rest = header.substring_char(p.len(), h.len());
    match crate::text::split_once_str(rest, '/') {
        Some((_, total)) => {
            let t = chars_of(total.as_str());
            parse_u64(t.as_slice())
        },
        None => None,
    }
}

/// The `Range` header asking for `len` bytes from `offset` (to the end when
/// `len` is absent); none for the whole file.
pub open spec fn spec_range_header(offset: u64, len: Option<u64>) -> Option<Seq<char>> {
    match (offset, len) {
        (0, None) => None,
        (start, None) => Some("bytes="@ + dec_nat(start as nat) + "-"@),
        (start, Some(l)) => Some("bytes="@ + dec_nat(start as nat) + "-"@ + dec_nat((start + l - 1) as nat)),
    }
}

/// The `Range` header for `len` bytes from `offset`. The range must hold
/// at least one byte and end within `u64`.
pub fn range_header(offset: u64, len: Option<u64>) -> (res: Option<String>)
    requires
        len matches Some(l) ==> 1 <= offset + l <= u64::MAX,
    ensures
        match spec_range_header(offset, len) {
            Some(h) => res matches Some(s) && s@ == h,
            None => res is None,
        },
{
    match (offset, len) {
        (0, None) => None,
        (start, None) => {
            let mut s = owned("bytes=");
            push_decimal(&mut s, start as u128);
            s.append("-");
            Some(s)
        },
        (start, Some(l)) => {
            let mut s = owned("bytes=");
            push_decimal(&mut s, start as u128);
            s.append("-");
            push_decimal(&mut s, (start + l - 1) as u128);
            Some(s)
        },
    }
}

/// The `Range` header asking for the last `size` bytes.
pub fn suffix_range_header(size: usize) -> (res: String)
    ensures
        res@ == "bytes=-"@ + dec_nat(size as nat),
{
    let mut s = owned("bytes=-");
    push_decimal(&mut s, size as u128);
    s
}

/// The bytes that reading `len` bytes at `offset` of `data` gives: those
/// from `offset` up to `offset + len` or the end, whichever comes first;
/// none when `offset` lies past the end.
pub open spec fn spec_read_at(data: Seq<u8>, offset: u64, len: usize) -> Seq<u8> {
    if offset > usize::MAX {
        Seq::empty()
    } else {
        let end = if offset + len > data.len() {
            data.len() as int
        } else {
            offset + len
        };
        if offset <= end {
            data.subrange(offset as int, end)
        } else {
            Seq::empty()
        }
    }
}

/// Reads `len` bytes at `offset` of a file held in memory.
pub fn read_at(data: &[u8], offset: u64, len: usize) -> (res: Vec<u8>)
    ensures
        res@ == spec_read_at(data@, offset, len),
{
    if offset > usize::MAX as u64 {
        return Vec::new();
    }
    let offset = offset as usize;
    let end = if len > data.len() || offset > data.len() - len {
        data.len()
    } else {
        offset + len
    };
    if offset <= end {
        vstd::slice::slice_to_vec(vstd::slice::slice_subrange(data, offset, end))
    } else {
        Vec::new()
    }
}

/// A reader over part of a file held in memory.
pub struct MemCursor {
    data: Vec<u8>,
    pos: usize,
    end: usize,
}

impl MemCursor {
    /// Whether the cursor is consistent: it ends within the data.
    pub closed spec fn wf(&self) -> bool {
        self.end <= self.data@.len()
    }

    /// The bytes left to read.
    pub closed spec fn remaining(&self) -> Seq<u8> {
        if self.pos >= self.end {
            Seq::empty()
        } else {
            self.data@.subrange(self.pos as int, self.end as int)
        }
    }

    /// A reader over `size` bytes of `data` from `offset` (to the end when
    /// `size` is absent).
    pub fn new(data: Vec<u8>, offset: u64, size: Option<u64>) -> (res: MemCursor)
        ensures
            res.wf(),
            res.remaining() == spec_read_at(
                data@,
                offset,
                match size {
                    Some(s) => if s > usize::MAX { usize::MAX } else { s as usize },
                    None => usize::MAX,
                },
            ),
    {
        let pos: usize = if offset > usize::MAX as u64 {
            usize::MAX
        } else {
            offset as usize
        };
        let size: usize = match size {
            Some(s) => if s > usize::MAX as u64 {
                usize::MAX
            } else {
                s as usize
            },
            None => usize::MAX,
        };
        let sum: usize = if pos > usize::MAX - size {
            usize::MAX
        } else {
            pos + size
        };
        let end = if sum < data.len() {
            sum
        } else {
            data.len()
        };
        let c = MemCursor { data, pos, end };
        proof {
            if offset <= usize::MAX && pos < end {
                assert(c.remaining() == spec_read_at(c.data@, offset, size));
            }
        }
        c
    }

    /// The bytes available to read now: all that remain.
    pub fn fill_buf(&self) -> (res: &[u8])
        requires
            self.wf(),
        ensures
            res@ == self.remaining(),
    {
        if self.pos >= self.end {
            return vstd::slice::slice_subrange(self.data.as_slice(), 0, 0);
        }
        vstd::slice::slice_subrange(self.data.as_slice(), self.pos, self.end)
    }

    /// Marks `amt` bytes as read (no more than remain).
    pub fn consume(&mut self, amt: usize)
        requires
            old(self).wf(),
        ensures
            final(self).wf(),
            final(self).remaining() == old(self).remaining().subrange(
                if amt > old(self).remaining().len() { old(self).remaining().len() as int } else { amt as int },
                old(self).remaining().len() as int,
            ),
    {
        let next = if self.pos > usize::MAX - amt {
            usize::MAX
        } else {
            self.pos + amt
        };
        let ghost before = self.remaining();
        self.pos = if next < self.end {
            next
        } else {
            self.end
        };
        assert(self.remaining() =~= before.subrange(
            if amt > before.len() { before.len() as int } else { amt as int },
            before.len() as int,
        ));
    }

    /// Reads up to `max` bytes: as many as remain, if fewer.
    pub fn read(&mut self, max: usize) -> (res: Vec<u8>)
        requires
            old(self).wf(),
        ensures
            final(self).wf(),
            res@ == old(self).remaining().subrange(
                0,
                if max > old(self).remaining().len() { old(self).remaining().len() as int } else { max as int },
            ),
            old(self).remaining() == res@ + final(self).remaining(),
    {
        if self.pos >= self.end {
            return Vec::new();
        }
        let avail = self.end - self.pos;
        let n = if max < avail {
            max
        } else {
            avail
        };
        let out = vstd::slice::slice_to_vec(
            vstd::slice::slice_subrange(self.data.as_slice(), self.pos, self.pos + n),
        );
        let ghost before = self.remaining();
        self.pos = self.pos + n;
        assert(out@ =~= before.subrange(0, n as int));
        assert(before =~= out@ + self.remaining());
        out
    }
}

} // verus!
