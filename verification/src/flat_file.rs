//! Flat files of raw samples: the data type of their elements, the names
//! of those types, and the element size and type that a file name implies.
use vstd::prelude::*;
use crate::config::{chars_are, chars_of, OptionDescription};
use crate::element::ElementSize;
use crate::text::{is_ws, trim, trim_bounds, trim_end, trim_start};

verus! {

/// How the bits of a scalar are read.
#[derive(Clone, Copy, Debug, PartialEq, Eq, Structural)]
pub enum ScalarType {
    Unsigned,
    Signed,
    Float,
}

/// What the elements of a flat file hold.
#[derive(Clone, Copy, Debug, PartialEq, Eq, Structural)]
pub enum DataType {
    Binary,
    Logic,
    Real(ScalarType),
    Complex(ScalarType),
}

/// The data type named by `s` (short or long name, surrounding
/// whitespace ignored).
pub open spec fn spec_data_type_from(s: Seq<char>) -> Option<DataType> {
    let t = trim(s);
    if t == "b"@ || t == "binary"@ {
        Some(DataType::Binary)
    } else if t == "l"@ || t == "logic"@ {
        Some(DataType::Logic)
    } else if t == "u"@ || t == "unsigned"@ {
        Some(DataType::Real(ScalarType::Unsigned))
    } else if t == "s"@ || t == "signed"@ {
        Some(DataType::Real(ScalarType::Signed))
    } else if t == "f"@ || t == "float"@ {
        Some(DataType::Real(ScalarType::Float))
    } else if t == "cu"@ || t == "complex_unsigned"@ {
        Some(DataType::Complex(ScalarType::Unsigned))
    } else if t == "cs"@ || t == "complex_signed"@ {
        Some(DataType::Complex(ScalarType::Signed))
    } else if t == "cf"@ || t == "complex_float"@ {
        Some(DataType::Complex(ScalarType::Float))
    } else {
        None
    }
}

/// The long name of a data type.
pub open spec fn spec_data_type_name(d: DataType) -> Seq<char> {
    match d {
        DataType::Binary => "binary"@,
        DataType::Logic => "logic"@,
        DataType::Real(ScalarType::Unsigned) => "unsigned"@,
        DataType::Real(ScalarType::Signed) => "signed"@,
        DataType::Real(ScalarType::Float) => "float"@,
        DataType::Complex(ScalarType::Unsigned) => "complex_unsigned"@,
        DataType::Complex(ScalarType::Signed) => "complex_signed"@,
        DataType::Complex(ScalarType::Float) => "complex_float"@,
    }
}

impl DataType {
    /// Parses a data type from its short or long name.
    pub fn from_str(s: &str) -> (res: Option<Self>)
        ensures
            res == spec_data_type_from(s@),
    {
        let v = chars_of(s);
        let (a, b) = trim_bounds(v.as_slice());
        let t = vstd::slice::slice_subrange(v.as_slice(), a, b);
        if chars_are(t, "b") || chars_are(t, "binary") {
            Some(DataType::Binary)
        } else if chars_are(t, "l") || chars_are(t, "logic") {
            Some(DataType::Logic)
        } else if chars_are(t, "u") || chars_are(t, "unsigned") {
            Some(DataType::Real(ScalarType::Unsigned))
        } else if chars_are(t, "s") || chars_are(t, "signed") {
            Some(DataType::Real(ScalarType::Signed))
        } else if chars_are(t, "f") || chars_are(t, "float") {
            Some(DataType::Real(ScalarType::Float))
        } else if chars_are(t, "cu") || chars_are(t, "complex_unsigned") {
            Some(DataType::Complex(ScalarType::Unsigned))
        } else if chars_are(t, "cs") || chars_are(t, "complex_signed") {
            Some(DataType::Complex(ScalarType::Signed))
        } else if chars_are(t, "cf") || chars_are(t, "complex_float") {
            Some(DataType::Complex(ScalarType::Float))
        } else {
            None
        }
    }

    /// The long name of this data type.
    pub fn to_str(&self) -> (res: &'static str)
        ensures
            res@ == spec_data_type_name(*self),
    {
        match self {
            DataType::Binary => "binary",
            DataType::Logic => "logic",
            DataType::Real(ScalarType::Unsigned) => "unsigned",
            DataType::Real(ScalarType::Signed) => "signed",
            DataType::Real(ScalarType::Float) => "float",
            DataType::Complex(ScalarType::Unsigned) => "complex_unsigned",
            DataType::Complex(ScalarType::Signed) => "complex_signed",
            DataType::Complex(ScalarType::Float) => "complex_float",
        }
    }
}

/// Text without whitespace at either end is left whole by `trim`.
proof fn lemma_trim_plain(s: Seq<char>)
    requires
        s.len() > 0,
        !is_ws(s[0]),
        !is_ws(s.last()),
    ensures
        trim(s) == s,
{
    assert(trim_start(s) == s);
    assert(trim_end(s) == s);
}

/// The long name of a data type reads back as that data type.
pub proof fn lemma_data_type_name_roundtrip(d: DataType)
    ensures
        spec_data_type_from(spec_data_type_name(d)) == Some(d),
{
    reveal_strlit("b");
    reveal_strlit("binary");
    reveal_strlit("l");
    reveal_strlit("logic");
    reveal_strlit("u");
    reveal_strlit("unsigned");
    reveal_strlit("s");
    reveal_strlit("signed");
    reveal_strlit("f");
    reveal_strlit("float");
    reveal_strlit("cu");
    reveal_strlit("complex_unsigned");
    reveal_strlit("cs");
    reveal_strlit("complex_signed");
    reveal_strlit("cf");
    reveal_strlit("complex_float");
    let n = spec_data_type_name(d);
    lemma_trim_plain(n);
}

/// The part of a file name after its last `.`, or the whole name when it
/// has none (the first piece of `rsplit('.')`).
pub open spec fn after_last_dot(s: Seq<char>) -> Seq<char>
    decreases s.len(),
{
    if s.len() == 0 {
        s
    } else if s.last() == '.' {
        Seq::empty()
    } else {
        after_last_dot(s.drop_last()).push(s.last())
    }
}

/// The element size and data type that a file extension stands for; raw
/// bytes where the extension is not known.
pub open spec fn spec_kind_for_extension(ext: Seq<char>) -> (ElementSize, DataType) {
    if ext == "logic8"@ {
        (ElementSize::U8, DataType::Logic)
    } else if ext == "f32"@ {
        (ElementSize::U32, DataType::Real(ScalarType::Float))
    } else if ext == "cf32"@ || ext == "cfile "@ {
        // The name `cfile ` ends in a space, so the extension `cfile` that
        // the import format lists falls to raw bytes; kept as the format has it.
        (ElementSize::U32, DataType::Complex(ScalarType::Float))
    } else if ext == "u8"@ {
        (ElementSize::U8, DataType::Real(ScalarType::Unsigned))
    } else if ext == "u16"@ {
        (ElementSize::U16, DataType::Real(ScalarType::Unsigned))
    } else if ext == "u32"@ {
        (ElementSize::U32, DataType::Real(ScalarType::Unsigned))
    } else if ext == "u64"@ {
        (ElementSize::U64, DataType::Real(ScalarType::Unsigned))
    } else if ext == "s8"@ {
        (ElementSize::U8, DataType::Real(ScalarType::Signed))
    } else if ext == "s16"@ {
        (ElementSize::U16, DataType::Real(ScalarType::Signed))
    } else if ext == "s32"@ {
        (ElementSize::U32, DataType::Real(ScalarType::Signed))
    } else if ext == "s64"@ {
        (ElementSize::U64, DataType::Real(ScalarType::Signed))
    } else if ext == "cu8"@ {
        (ElementSize::U8, DataType::Complex(ScalarType::Unsigned))
    } else if ext == "cu16"@ {
        (ElementSize::U16, DataType::Complex(ScalarType::Unsigned))
    } else if ext == "cu32"@ {
        (ElementSize::U32, DataType::Complex(ScalarType::Unsigned))
    } else if ext == "cu64"@ {
        (ElementSize::U64, DataType::Complex(ScalarType::Unsigned))
    } else if ext == "cs8"@ {
        (ElementSize::U8, DataType::Complex(ScalarType::Signed))
    } else if ext == "cs16"@ {
        (ElementSize::U16, DataType::Complex(ScalarType::Signed))
    } else if ext == "cs32"@ {
        (ElementSize::U32, DataType::Complex(ScalarType::Signed))
    } else if ext == "cs64"@ {
        (ElementSize::U64, DataType::Complex(ScalarType::Signed))
    } else {
        (ElementSize::U8, DataType::Binary)
    }
}

/// The part after the last `.` of a name that ends in `.` and an
/// extension without a `.` is that extension.
pub proof fn lemma_after_last_dot_of(stem: Seq<char>, ext: Seq<char>)
    requires
        forall|i: int| 0 <= i < ext.len() ==> ext[i] != '.',
    ensures
        after_last_dot(stem + "."@ + ext) == ext,
    decreases ext.len(),
{
    reveal_strlit(".");
    let s = stem + "."@ + ext;
    if ext.len() == 0 {
        assert(s.last() == '.');
    } else {
        let e = ext.drop_last();
        lemma_after_last_dot_of(stem, e);
        assert(s.drop_last() =~= stem + "."@ + e);
        assert(s.last() == ext.last());
        assert(e.push(ext.last()) =~= ext);
    }
}

/// A file named with an extension made of a scalar prefix and a bit count
/// holds elements of that many bits, read as the prefix says: `u` unsigned
/// and `s` signed numbers, `cu` and `cs` complex pairs of them.
pub proof fn lemma_integer_extension(stem: Seq<char>, prefix: Seq<char>, digits: Seq<char>, bits: nat)
    requires
        prefix == "u"@ || prefix == "s"@ || prefix == "cu"@ || prefix == "cs"@,
        (digits == "8"@ && bits == 8) || (digits == "16"@ && bits == 16) || (digits == "32"@ && bits
            == 32) || (digits == "64"@ && bits == 64),
    ensures
        ({
            let k = spec_kind_for_extension(after_last_dot(stem + "."@ + prefix + digits));
            let scalar = if prefix.last() == 'u' {
                ScalarType::Unsigned
            } else {
                ScalarType::Signed
            };
            &&& crate::element::spec_bytes(k.0) * 8 == bits
            &&& k.1 == if prefix.len() == 2 {
                DataType::Complex(scalar)
            } else {
                DataType::Real(scalar)
            }
        }),
{
    reveal_strlit("logic8");
    reveal_strlit("f32");
    reveal_strlit("cf32");
    reveal_strlit("cfile ");
    reveal_strlit("u8");
    reveal_strlit("u16");
    reveal_strlit("u32");
    reveal_strlit("u64");
    reveal_strlit("s8");
    reveal_strlit("s16");
    reveal_strlit("s32");
    reveal_strlit("s64");
    reveal_strlit("cu8");
    reveal_strlit("cu16");
    reveal_strlit("cu32");
    reveal_strlit("cu64");
    reveal_strlit("cs8");
    reveal_strlit("cs16");
    reveal_strlit("cs32");
    reveal_strlit("cs64");
    reveal_strlit("u");
    reveal_strlit("s");
    reveal_strlit("cu");
    reveal_strlit("cs");
    reveal_strlit("8");
    reveal_strlit("16");
    reveal_strlit("32");
    reveal_strlit("64");
    reveal_strlit(".");
    let ext = prefix + digits;
    assert forall|i: int| 0 <= i < ext.len() implies ext[i] != '.' by {
        if i < prefix.len() {
            assert(ext[i] == prefix[i]);
        } else {
            assert(ext[i] == digits[i - prefix.len()]);
        }
    }
    lemma_after_last_dot_of(stem, ext);
    assert(stem + "."@ + prefix + digits == stem + "."@ + ext);
    if prefix == "u"@ && digits == "8"@ {
        assert(prefix + digits =~= "u8"@);
        assert(prefix.last() == 'u' && prefix.len() == 1);
        assert(spec_kind_for_extension("u8"@) == (ElementSize::U8, DataType::Real(ScalarType::Unsigned)));
    }
    if prefix == "u"@ && digits == "16"@ {
        assert(prefix + digits =~= "u16"@);
        assert("u16"@[0] != "f32"@[0]);
        assert(prefix.last() == 'u' && prefix.len() == 1);
        assert(spec_kind_for_extension("u16"@) == (ElementSize::U16, DataType::Real(ScalarType::Unsigned)));
    }
    if prefix == "u"@ && digits == "32"@ {
        assert(prefix + digits =~= "u32"@);
        assert("u32"@[0] != "f32"@[0]);
        assert("u32"@[1] != "u16"@[1]);
        assert(prefix.last() == 'u' && prefix.len() == 1);
        assert(spec_kind_for_extension("u32"@) == (ElementSize::U32, DataType::Real(ScalarType::Unsigned)));
    }
    if prefix == "u"@ && digits == "64"@ {
        assert(prefix + digits =~= "u64"@);
        assert("u64"@[0] != "f32"@[0]);
        assert("u64"@[1] != "u16"@[1]);
        assert("u64"@[1] != "u32"@[1]);
        assert(prefix.last() == 'u' && prefix.len() == 1);
        assert(spec_kind_for_extension("u64"@) == (ElementSize::U64, DataType::Real(ScalarType::Unsigned)));
    }
    if prefix == "s"@ && digits == "8"@ {
        assert(prefix + digits =~= "s8"@);
        assert("s8"@[0] != "u8"@[0]);
        assert(prefix.last() == 's' && prefix.len() == 1);
        assert(spec_kind_for_extension("s8"@) == (ElementSize::U8, DataType::Real(ScalarType::Signed)));
    }
    if prefix == "s"@ && digits == "16"@ {
        assert(prefix + digits =~= "s16"@);
        assert("s16"@[0] != "f32"@[0]);
        assert("s16"@[0] != "u16"@[0]);
        assert("s16"@[0] != "u32"@[0]);
        assert("s16"@[0] != "u64"@[0]);
        assert(prefix.last() == 's' && prefix.len() == 1);
        assert(spec_kind_for_extension("s16"@) == (ElementSize::U16, DataType::Real(ScalarType::Signed)));
    }
    if prefix == "s"@ && digits == "32"@ {
        assert(prefix + digits =~= "s32"@);
        assert("s32"@[0] != "f32"@[0]);
        assert("s32"@[0] != "u16"@[0]);
        assert("s32"@[0] != "u32"@[0]);
        assert("s32"@[0] != "u64"@[0]);
        assert("s32"@[1] != "s16"@[1]);
        assert(prefix.last() == 's' && prefix.len() == 1);
        assert(spec_kind_for_extension("s32"@) == (ElementSize::U32, DataType::Real(ScalarType::Signed)));
    }
    if prefix == "s"@ && digits == "64"@ {
        assert(prefix + digits =~= "s64"@);
        assert("s64"@[0] != "f32"@[0]);
        assert("s64"@[0] != "u16"@[0]);
        assert("s64"@[0] != "u32"@[0]);
        assert("s64"@[0] != "u64"@[0]);
        assert("s64"@[1] != "s16"@[1]);
        assert("s64"@[1] != "s32"@[1]);
        assert(prefix.last() == 's' && prefix.len() == 1);
        assert(spec_kind_for_extension("s64"@) == (ElementSize::U64, DataType::Real(ScalarType::Signed)));
    }
    if prefix == "cu"@ && digits == "8"@ {
        assert(prefix + digits =~= "cu8"@);
        assert("cu8"@[0] != "f32"@[0]);
        assert("cu8"@[0] != "u16"@[0]);
        assert("cu8"@[0] != "u32"@[0]);
        assert("cu8"@[0] != "u64"@[0]);
        assert("cu8"@[0] != "s16"@[0]);
        assert("cu8"@[0] != "s32"@[0]);
        assert("cu8"@[0] != "s64"@[0]);
        assert(prefix.last() == 'u' && prefix.len() == 2);
        assert(spec_kind_for_extension("cu8"@) == (ElementSize::U8, DataType::Complex(ScalarType::Unsigned)));
    }
    if prefix == "cu"@ && digits == "16"@ {
        assert(prefix + digits =~= "cu16"@);
        assert("cu16"@[1] != "cf32"@[1]);
        assert(prefix.last() == 'u' && prefix.len() == 2);
        assert(spec_kind_for_extension("cu16"@) == (ElementSize::U16, DataType::Complex(ScalarType::Unsigned)));
    }
    if prefix == "cu"@ && digits == "32"@ {
        assert(prefix + digits =~= "cu32"@);
        assert("cu32"@[1] != "cf32"@[1]);
        assert("cu32"@[2] != "cu16"@[2]);
        assert(prefix.last() == 'u' && prefix.len() == 2);
        assert(spec_kind_for_extension("cu32"@) == (ElementSize::U32, DataType::Complex(ScalarType::Unsigned)));
    }
    if prefix == "cu"@ && digits == "64"@ {
        assert(prefix + digits =~= "cu64"@);
        assert("cu64"@[1] != "cf32"@[1]);
        assert("cu64"@[2] != "cu16"@[2]);
        assert("cu64"@[2] != "cu32"@[2]);
        assert(prefix.last() == 'u' && prefix.len() == 2);
        assert(spec_kind_for_extension("cu64"@) == (ElementSize::U64, DataType::Complex(ScalarType::Unsigned)));
    }
    if prefix == "cs"@ && digits == "8"@ {
        assert(prefix + digits =~= "cs8"@);
        assert("cs8"@[0] != "f32"@[0]);
        assert("cs8"@[0] != "u16"@[0]);
        assert("cs8"@[0] != "u32"@[0]);
        assert("cs8"@[0] != "u64"@[0]);
        assert("cs8"@[0] != "s16"@[0]);
        assert("cs8"@[0] != "s32"@[0]);
        assert("cs8"@[0] != "s64"@[0]);
        assert("cs8"@[1] != "cu8"@[1]);
        assert(prefix.last() == 's' && prefix.len() == 2);
        assert(spec_kind_for_extension("cs8"@) == (ElementSize::U8, DataType::Complex(ScalarType::Signed)));
    }
    if prefix == "cs"@ && digits == "16"@ {
        assert(prefix + digits =~= "cs16"@);
        assert("cs16"@[1] != "cf32"@[1]);
        assert("cs16"@[1] != "cu16"@[1]);
        assert("cs16"@[1] != "cu32"@[1]);
        assert("cs16"@[1] != "cu64"@[1]);
        assert(prefix.last() == 's' && prefix.len() == 2);
        assert(spec_kind_for_extension("cs16"@) == (ElementSize::U16, DataType::Complex(ScalarType::Signed)));
    }
    if prefix == "cs"@ && digits == "32"@ {
        assert(prefix + digits =~= "cs32"@);
        assert("cs32"@[1] != "cf32"@[1]);
        assert("cs32"@[1] != "cu16"@[1]);
        assert("cs32"@[1] != "cu32"@[1]);
        assert("cs32"@[1] != "cu64"@[1]);
        assert("cs32"@[2] != "cs16"@[2]);
        assert(prefix.last() == 's' && prefix.len() == 2);
        assert(spec_kind_for_extension("cs32"@) == (ElementSize::U32, DataType::Complex(ScalarType::Signed)));
    }
    if prefix == "cs"@ && digits == "64"@ {
        assert(prefix + digits =~= "cs64"@);
        assert("cs64"@[1] != "cf32"@[1]);
        assert("cs64"@[1] != "cu16"@[1]);
        assert("cs64"@[1] != "cu32"@[1]);
        assert("cs64"@[1] != "cu64"@[1]);
        assert("cs64"@[2] != "cs16"@[2]);
        assert("cs64"@[2] != "cs32"@[2]);
        assert(prefix.last() == 's' && prefix.len() == 2);
        assert(spec_kind_for_extension("cs64"@) == (ElementSize::U64, DataType::Complex(ScalarType::Signed)));
    }
}

/// The float and logic extensions: `f32` holds 32-bit floats, `cf32`
/// complex pairs of them, and `logic8` bytes of logic levels.
pub proof fn lemma_float_and_logic_extensions(stem: Seq<char>)
    ensures
        spec_kind_for_extension(after_last_dot(stem + "."@ + "f32"@)) == (ElementSize::U32, DataType::Real(
            ScalarType::Float,
        )),
        spec_kind_for_extension(after_last_dot(stem + "."@ + "cf32"@)) == (ElementSize::U32, DataType::Complex(
            ScalarType::Float,
        )),
        spec_kind_for_extension(after_last_dot(stem + "."@ + "logic8"@)) == (ElementSize::U8, DataType::Logic),
{
    reveal_strlit("logic8");
    reveal_strlit("f32");
    reveal_strlit("cf32");
    reveal_strlit("cfile ");
    reveal_strlit("u8");
    reveal_strlit("u16");
    reveal_strlit("u32");
    reveal_strlit("u64");
    reveal_strlit("s8");
    reveal_strlit("s16");
    reveal_strlit("s32");
    reveal_strlit("s64");
    reveal_strlit("cu8");
    reveal_strlit("cu16");
    reveal_strlit("cu32");
    reveal_strlit("cu64");
    reveal_strlit("cs8");
    reveal_strlit("cs16");
    reveal_strlit("cs32");
    reveal_strlit("cs64");
    lemma_after_last_dot_of(stem, "f32"@);
    lemma_after_last_dot_of(stem, "cf32"@);
    lemma_after_last_dot_of(stem, "logic8"@);
    assert("cf32"@[0] != "logic8"@[0]);
}

/// An extension that does not end in a digit, other than `cfile ` (with its
/// trailing space), holds raw bytes of unknown type.
pub proof fn lemma_other_extensions_are_binary(ext: Seq<char>)
    requires
        ext.len() == 0 || !('0' <= ext.last() <= '9'),
        ext != "cfile "@,
    ensures
        spec_kind_for_extension(ext) == (ElementSize::U8, DataType::Binary),
{
    reveal_strlit("logic8");
    reveal_strlit("f32");
    reveal_strlit("cf32");
    reveal_strlit("cfile ");
    reveal_strlit("u8");
    reveal_strlit("u16");
    reveal_strlit("u32");
    reveal_strlit("u64");
    reveal_strlit("s8");
    reveal_strlit("s16");
    reveal_strlit("s32");
    reveal_strlit("s64");
    reveal_strlit("cu8");
    reveal_strlit("cu16");
    reveal_strlit("cu32");
    reveal_strlit("cu64");
    reveal_strlit("cs8");
    reveal_strlit("cs16");
    reveal_strlit("cs32");
    reveal_strlit("cs64");
    assert(ext != "logic8"@) by {
        if ext == "logic8"@ {
            assert(ext.last() == "logic8"@.last());
        }
    }
    assert(ext != "f32"@) by {
        if ext == "f32"@ {
            assert(ext.last() == "f32"@.last());
        }
    }
    assert(ext != "cf32"@) by {
        if ext == "cf32"@ {
            assert(ext.last() == "cf32"@.last());
        }
    }
    assert(ext != "u8"@) by {
        if ext == "u8"@ {
            assert(ext.last() == "u8"@.last());
        }
    }
    assert(ext != "u16"@) by {
        if ext == "u16"@ {
            assert(ext.last() == "u16"@.last());
        }
    }
    assert(ext != "u32"@) by {
        if ext == "u32"@ {
            assert(ext.last() == "u32"@.last());
        }
    }
    assert(ext != "u64"@) by {
        if ext == "u64"@ {
            assert(ext.last() == "u64"@.last());
        }
    }
    assert(ext != "s8"@) by {
        if ext == "s8"@ {
            assert(ext.last() == "s8"@.last());
        }
    }
    assert(ext != "s16"@) by {
        if ext == "s16"@ {
            assert(ext.last() == "s16"@.last());
        }
    }
    assert(ext != "s32"@) by {
        if ext == "s32"@ {
            assert(ext.last() == "s32"@.last());
        }
    }
    assert(ext != "s64"@) by {
        if ext == "s64"@ {
            assert(ext.last() == "s64"@.last());
        }
    }
    assert(ext != "cu8"@) by {
        if ext == "cu8"@ {
            assert(ext.last() == "cu8"@.last());
        }
    }
    assert(ext != "cu16"@) by {
        if ext == "cu16"@ {
            assert(ext.last() == "cu16"@.last());
        }
    }
    assert(ext != "cu32"@) by {
        if ext == "cu32"@ {
            assert(ext.last() == "cu32"@.last());
        }
    }
    assert(ext != "cu64"@) by {
        if ext == "cu64"@ {
            assert(ext.last() == "cu64"@.last());
        }
    }
    assert(ext != "cs8"@) by {
        if ext == "cs8"@ {
            assert(ext.last() == "cs8"@.last());
        }
    }
    assert(ext != "cs16"@) by {
        if ext == "cs16"@ {
            assert(ext.last() == "cs16"@.last());
        }
    }
    assert(ext != "cs32"@) by {
        if ext == "cs32"@ {
            assert(ext.last() == "cs32"@.last());
        }
    }
    assert(ext != "cs64"@) by {
        if ext == "cs64"@ {
            assert(ext.last() == "cs64"@.last());
        }
    }
}

/// The name of a file, `""` when it has none.
pub open spec fn name_or_empty(filename: Option<&str>) -> Seq<char> {
    match filename {
        Some(f) => f@,
        None => Seq::empty(),
    }
}

/// The element size and data type that a flat file is read with, chosen
/// by the extension of its name.
pub fn kind_for_filename(filename: Option<&str>) -> (res: (ElementSize, DataType))
    ensures
        res == spec_kind_for_extension(after_last_dot(name_or_empty(filename))),
{
    let v = match filename {
        Some(f) => chars_of(f),
        None => Vec::new(),
    };
    assert(v@ == name_or_empty(filename));
    let n = v.len();
    let mut i: usize = n;
    assert(v@.subrange(0, n as int) =~= v@);
    assert(v@.subrange(n as int, n as int) =~= Seq::<char>::empty());
    while i > 0 && v[i - 1] != '.'
        invariant
            i <= n,
            n == v@.len(),
            after_last_dot(v@) == after_last_dot(v@.subrange(0, i as int)) + v@.subrange(
                i as int,
                n as int,
            ),
        decreases i,
    {
        assert(v@.subrange(0, i as int).drop_last() =~= v@.subrange(0, i - 1));
        assert(after_last_dot(v@.subrange(0, i - 1)).push(v@[i - 1]) + v@.subrange(i as int, n as int)
            =~= after_last_dot(v@.subrange(0, i - 1)) + v@.subrange(i - 1, n as int));
        i = i - 1;
    }
    assert(after_last_dot(v@.subrange(0, i as int)) =~= Seq::<char>::empty());
    let ext = vstd::slice::slice_subrange(v.as_slice(), i, n);
    assert(ext@ =~= after_last_dot(v@));
    if chars_are(ext, "logic8") {
        (ElementSize::U8, DataType::Logic)
    } else if chars_are(ext, "f32") {
        (ElementSize::U32, DataType::Real(ScalarType::Float))
    } else if chars_are(ext, "cf32") || chars_are(ext, "cfile ") {
        // `cfile ` with its trailing space, as `spec_kind_for_extension` says.
        (ElementSize::U32, DataType::Complex(ScalarType::Float))
    } else if chars_are(ext, "u8") {
        (ElementSize::U8, DataType::Real(ScalarType::Unsigned))
    } else if chars_are(ext, "u16") {
        (ElementSize::U16, DataType::Real(ScalarType::Unsigned))
    } else if chars_are(ext, "u32") {
        (ElementSize::U32, DataType::Real(ScalarType::Unsigned))
    } else if chars_are(ext, "u64") {
        (ElementSize::U64, DataType::Real(ScalarType::Unsigned))
    } else if chars_are(ext, "s8") {
        (ElementSize::U8, DataType::Real(ScalarType::Signed))
    } else if chars_are(ext, "s16") {
        (ElementSize::U16, DataType::Real(ScalarType::Signed))
    } else if chars_are(ext, "s32") {
        (ElementSize::U32, DataType::Real(ScalarType::Signed))
    } else if chars_are(ext, "s64") {
        (ElementSize::U64, DataType::Real(ScalarType::Signed))
    } else if chars_are(ext, "cu8") {
        (ElementSize::U8, DataType::Complex(ScalarType::Unsigned))
    } else if chars_are(ext, "cu16") {
        (ElementSize::U16, DataType::Complex(ScalarType::Unsigned))
    } else if chars_are(ext, "cu32") {
        (ElementSize::U32, DataType::Complex(ScalarType::Unsigned))
    } else if chars_are(ext, "cu64") {
        (ElementSize::U64, DataType::Complex(ScalarType::Unsigned))
    } else if chars_are(ext, "cs8") {
        (ElementSize::U8, DataType::Complex(ScalarType::Signed))
    } else if chars_are(ext, "cs16") {
        (ElementSize::U16, DataType::Complex(ScalarType::Signed))
    } else if chars_are(ext, "cs32") {
        (ElementSize::U32, DataType::Complex(ScalarType::Signed))
    } else if chars_are(ext, "cs64") {
        (ElementSize::U64, DataType::Complex(ScalarType::Signed))
    } else {
        (ElementSize::U8, DataType::Binary)
    }
}

/// The options that a flat file is read with, with their descriptions.
pub fn flat_file_options() -> (res: Vec<OptionDescription>)
    ensures
        res@.len() == 6,
        res@[0].name@ == "bits"@,
        res@[1].name@ == "dtype"@,
        res@[2].name@ == "sample_rate"@,
        res@[3].name@ == "offset"@,
        res@[4].name@ == "count"@,
        res@[5].name@ == "block_size"@,
        res@[0].description@ == "Element size in bits (8, 16, 32, 64)"@,
        res@[1].description@ == "Data type (binary, logic, real, complex)"@,
        res@[2].description@ == "Sample rate"@,
        res@[3].description@ == "Byte offset in the file where the data starts."@,
        res@[4].description@
            == "Number of elements to read from the file. Empty means to read until the end of the file."@,
        res@[5].description@ == "Number of elements to read in each block."@,
{
    let mut v: Vec<OptionDescription> = Vec::new();
    v.push(OptionDescription { name: "bits", description: "Element size in bits (8, 16, 32, 64)" });
    v.push(OptionDescription { name: "dtype", description: "Data type (binary, logic, real, complex)" });
    v.push(OptionDescription { name: "sample_rate", description: "Sample rate" });
    v.push(
        OptionDescription {
            name: "offset",
            description: "Byte offset in the file where the data starts.",
        },
    );
    v.push(
        OptionDescription {
            name: "count",
            description: "Number of elements to read from the file. Empty means to read until the end of the file.",
        },
    );
    v.push(
        OptionDescription { name: "block_size", description: "Number of elements to read in each block." },
    );
    v
}

} // verus!
