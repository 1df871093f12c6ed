//! Sizes of the fixed-width elements that streams hold.
use vstd::prelude::*;

verus! {

/// Width of one stored element.
#[derive(Clone, Copy, Debug, PartialEq, Eq, Structural)]
pub enum ElementSize {
    U8,
    U16,
    U32,
    U64,
}

/// Width of an element in bytes.
pub open spec fn spec_bytes(e: ElementSize) -> nat {
    match e {
        ElementSize::U8 => 1,
        ElementSize::U16 => 2,
        ElementSize::U32 => 4,
        ElementSize::U64 => 8,
    }
}

/// The smallest element size that holds `bits` bits, if any.
pub open spec fn spec_from_bits(bits: int) -> Option<ElementSize> {
    if bits <= 8 {
        Some(ElementSize::U8)
    } else if bits <= 16 {
        Some(ElementSize::U16)
    } else if bits <= 32 {
        Some(ElementSize::U32)
    } else if bits <= 64 {
        Some(ElementSize::U64)
    } else {
        None
    }
}

/// The smallest element size that holds `bytes` bytes, if any.
pub open spec fn spec_from_bytes(bytes: int) -> Option<ElementSize> {
    if bytes <= 1 {
        Some(ElementSize::U8)
    } else if bytes <= 2 {
        Some(ElementSize::U16)
    } else if bytes <= 4 {
        Some(ElementSize::U32)
    } else if bytes <= 8 {
        Some(ElementSize::U64)
    } else {
        None
    }
}

impl ElementSize {
    /// Width in bytes.
    pub fn bytes(&self) -> (res: usize)
        ensures
            res == spec_bytes(*self),
    {
        match self {
            ElementSize::U8 => 1,
            ElementSize::U16 => 2,
            ElementSize::U32 => 4,
            ElementSize::U64 => 8,
        }
    }

    /// Width in bits.
    pub fn bits(&self) -> (res: usize)
        ensures
            res == 8 * spec_bytes(*self),
    {
        self.bytes() * 8
    }

    /// The smallest element size holding `bits` bits; `None` above 64.
    pub fn from_bits(bits: u8) -> (res: Option<Self>)
        ensures
            res == spec_from_bits(bits as int),
    {
        if bits <= 8 {
            Some(ElementSize::U8)
        } else if bits <= 16 {
            Some(ElementSize::U16)
        } else if bits <= 32 {
            Some(ElementSize::U32)
        } else if bits <= 64 {
            Some(ElementSize::U64)
        } else {
            None
        }
    }

    /// The smallest element size holding `bytes` bytes; `None` above 8.
    pub fn from_bytes(bytes: u8) -> (res: Option<Self>)
        ensures
            res == spec_from_bytes(bytes as int),
    {
        if bytes <= 1 {
            Some(ElementSize::U8)
        } else if bytes <= 2 {
            Some(ElementSize::U16)
        } else if bytes <= 4 {
            Some(ElementSize::U32)
        } else if bytes <= 8 {
            Some(ElementSize::U64)
        } else {
            None
        }
    }
}

/// An element size is recovered from its own width in bytes, and from its
/// own width in bits.
pub proof fn lemma_element_size_roundtrip(e: ElementSize)
    ensures
        spec_from_bytes(spec_bytes(e) as int) == Some(e),
        spec_from_bits((8 * spec_bytes(e)) as int) == Some(e),
{
}

/// The size chosen for a bit count is the smallest one that is wide enough.
pub proof fn lemma_from_bits_smallest(bits: int, e: ElementSize)
    requires
        spec_from_bits(bits) == Some(e),
    ensures
        bits <= 8 * spec_bytes(e),
        forall|f: ElementSize| bits <= 8 * spec_bytes(f) ==> spec_bytes(e) <= spec_bytes(f),
{
}

/// The size chosen for a byte count is the smallest one that is wide enough.
pub proof fn lemma_from_bytes_smallest(bytes: int, e: ElementSize)
    requires
        spec_from_bytes(bytes) == Some(e),
    ensures
        bytes <= spec_bytes(e),
        forall|f: ElementSize| bytes <= spec_bytes(f) ==> spec_bytes(e) <= spec_bytes(f),
{
}

} // verus!
