//! Choosing how a CSV column is parsed from the schema of the entity it
//! fills: which parser, and the element sizes of the streams it writes.
use vstd::prelude::*;
use vstd::string::StringExecFns;
use crate::column::TimeUnit;
use crate::config::owned;
use crate::element::ElementSize;
use crate::srzip::ImportError;

verus! {

/// The kind of a field, as far as the choice of a column parser reads it.
pub enum FieldKindShape {
    Float32 { pos: u32 },
    Enum { pos: u32, bits: u32, has_variants: bool },
    /// A timestamp: whether the field gives a rate and an epoch, and the
    /// unit that the rate is, when it is one of seconds to nanoseconds.
    Timestamp { has_rate: bool, has_epoch: bool, unit: Option<TimeUnit> },
    Character { pos: u32 },
    Other,
}

/// A field: its kind, and the kind as the schema describes it in messages.
pub struct FieldShape {
    pub kind: FieldKindShape,
    pub desc: String,
}

/// The schema of the entity a column fills.
pub enum EntityShape {
    /// A data field.
    Data(FieldShape),
    /// A variable-length array: its child's field, or the child's
    /// description when the child is no data field.
    VariableArray(Result<FieldShape, String>),
    /// Any other entity, by its description.
    Other(String),
}

/// How a column is parsed, with the element size of each stream written.
#[derive(Clone, Copy, PartialEq, Eq, Structural)]
pub enum ParserKind {
    Float32 { data: ElementSize },
    Enum8 { data: ElementSize },
    TimestampIso { data: ElementSize, unit: TimeUnit },
    TimestampRelative { data: ElementSize },
    String { ends: ElementSize, chars: ElementSize },
}

/// `"Field type DESC not supported in CSV column"`.
pub open spec fn field_not_supported(desc: Seq<char>) -> Seq<char> {
    "Field type "@ + desc + " not supported in CSV column"@
}

/// `"VariableArray child type DESC not supported in CSV column"`.
pub open spec fn child_not_supported(desc: Seq<char>) -> Seq<char> {
    "VariableArray child type "@ + desc + " not supported in CSV column"@
}

/// The parser of a data field: 32-bit floats at position 0; an enumeration
/// of at most 8 bits at position 0 without variants, as bytes; timestamps,
/// which need a rate, as 64-bit counts, in one of the units from seconds to
/// nanoseconds when there is an epoch, else relative.
pub open spec fn spec_data_parser(f: FieldShape) -> Result<ParserKind, Seq<char>> {
    match f.kind {
        FieldKindShape::Float32 { pos } if pos == 0 => Ok(ParserKind::Float32 { data: ElementSize::U32 }),
        FieldKindShape::Enum { pos, bits, has_variants } if pos == 0 && bits <= 8 && !has_variants => Ok(
            ParserKind::Enum8 { data: ElementSize::U8 },
        ),
        FieldKindShape::Timestamp { has_rate, has_epoch, unit } => if !has_rate {
            Err("Timestamp rate must be defined"@)
        } else if has_epoch {
            match unit {
                Some(u) => Ok(ParserKind::TimestampIso { data: ElementSize::U64, unit: u }),
                None => Err("Timestamp unit must be s, ms, us, or ns"@),
            }
        } else {
            Ok(ParserKind::TimestampRelative { data: ElementSize::U64 })
        },
        _ => Err(field_not_supported(f.desc@)),
    }
}

/// The parser of a column filling `s`: a data field as `spec_data_parser`
/// says; a variable-length array of characters at position 0 as 64-bit
/// ends and byte characters; anything else is a schema mismatch.
pub open spec fn spec_column_parser_kind(s: EntityShape) -> Result<ParserKind, Seq<char>> {
    match s {
        EntityShape::Data(f) => spec_data_parser(f),
        EntityShape::VariableArray(Ok(f)) => match f.kind {
            FieldKindShape::Character { pos } if pos == 0 => Ok(
                ParserKind::String { ends: ElementSize::U64, chars: ElementSize::U8 },
            ),
            _ => Err(field_not_supported(f.desc@)),
        },
        EntityShape::VariableArray(Err(desc)) => Err(child_not_supported(desc@)),
        EntityShape::Other(desc) => Err(field_not_supported(desc@)),
    }
}

/// A schema mismatch with the message `"Field type DESC not supported in
/// CSV column"`.
fn not_supported(desc: &String) -> (res: ImportError)
    ensures
        res matches ImportError::SchemaMismatch(m) && m@ == field_not_supported(desc@),
{
    let mut m = owned("Field type ");
    m.append(desc.as_str());
    m.append(" not supported in CSV column");
    ImportError::SchemaMismatch(m)
}

/// The parser of a data field.
fn data_parser(f: &FieldShape) -> (res: Result<ParserKind, ImportError>)
    ensures
        match spec_data_parser(*f) {
            Ok(k) => res == Ok::<ParserKind, ImportError>(k),
            Err(m) => res matches Err(ImportError::SchemaMismatch(e)) && e@ == m,
        },
{
    match f.kind {
        FieldKindShape::Float32 { pos } => {
            if pos == 0 {
                Ok(ParserKind::Float32 { data: ElementSize::U32 })
            } else {
                Err(not_supported(&f.desc))
            }
        },
        FieldKindShape::Enum { pos, bits, has_variants } => {
            if pos == 0 && bits <= 8 && !has_variants {
                Ok(ParserKind::Enum8 { data: ElementSize::U8 })
            } else {
                Err(not_supported(&f.desc))
            }
        },
        FieldKindShape::Timestamp { has_rate, has_epoch, unit } => {
            if !has_rate {
                Err(ImportError::SchemaMismatch(owned("Timestamp rate must be defined")))
            } else if has_epoch {
                match unit {
                    Some(u) => Ok(ParserKind::TimestampIso { data: ElementSize::U64, unit: u }),
                    None => Err(ImportError::SchemaMismatch(owned("Timestamp unit must be s, ms, us, or ns"))),
                }
            } else {
                Ok(ParserKind::TimestampRelative { data: ElementSize::U64 })
            }
        },
        _ => Err(not_supported(&f.desc)),
    }
}

/// How a CSV column that fills the entity `schema` is parsed, or why it
/// cannot be.
pub fn column_parser_kind(schema: &EntityShape) -> (res: Result<ParserKind, ImportError>)
    ensures
        match spec_column_parser_kind(*schema) {
            Ok(k) => res == Ok::<ParserKind, ImportError>(k),
            Err(m) => res matches Err(ImportError::SchemaMismatch(e)) && e@ == m,
        },
{
    match schema {
        EntityShape::Data(f) => data_parser(f),
        EntityShape::VariableArray(Ok(f)) => match f.kind {
            FieldKindShape::Character { pos } => {
                if pos == 0 {
                    Ok(ParserKind::String { ends: ElementSize::U64, chars: ElementSize::U8 })
                } else {
                    Err(not_supported(&f.desc))
                }
            },
            _ => Err(not_supported(&f.desc)),
        },
        EntityShape::VariableArray(Err(desc)) => {
            let mut m = owned("VariableArray child type ");
            m.append(desc.as_str());
            m.append(" not supported in CSV column");
            Err(ImportError::SchemaMismatch(m))
        },
        EntityShape::Other(desc) => Err(not_supported(desc)),
    }
}

} // verus!
