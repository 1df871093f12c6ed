//! Inferring the type of a CSV column from its values: whether they are
//! rising absolute timestamps, and whether they are few enough short texts
//! to form an enumeration. Which types remain possible, in the order of
//! preference, decides the column's type.
use vstd::prelude::*;
use vstd::utf8::{decode_utf8, valid_utf8};
use vstd::string::StringExecFns;
use crate::config::{chars_are, chars_of, owned};
use crate::info::{add_child, names_distinct, node_view, nodes_view, push_child, InfoNode, InfoView};
use crate::order::{bytes_lt, lemma_lex_total, lemma_lex_trans, lex_lt};
use crate::srzip::{leaf_view, ImportError};
use crate::text::{dec_nat, push_decimal, push_str};

verus! {

/// Declares `jiff::tz::TimeZone`, the zone of absolute timestamps.
#[verifier::external_type_specification]
#[verifier::external_body]
pub struct ExTimeZone(jiff::tz::TimeZone);

/// A date (year, month, day).
pub type CivilDate = (i16, i8, i8);

/// A time of day (hour, minute, second, nanosecond).
pub type CivilTime = (i8, i8, i8, i32);

/// What a date and time text holds: its date, its time of day if it gives
/// one, its numeric offset from UTC in seconds if it gives one, and whether
/// it has a time zone annotation such as `[Europe/Paris]`.
pub struct TextPieces {
    pub date: CivilDate,
    pub time: Option<CivilTime>,
    pub offset: Option<i32>,
    pub annotated: bool,
}

/// The parts of a date and time text: date, time of day, numeric offset,
/// and whether there is a time zone annotation.
pub type PiecesView = (CivilDate, Option<CivilTime>, Option<i32>, bool);

/// The parts of a `TextPieces`.
pub open spec fn pieces_view(p: TextPieces) -> PiecesView {
    (p.date, p.time, p.offset, p.annotated)
}

/// The parts of the date and time text `text`, if it is one.
pub uninterp spec fn pieces_of(text: Seq<u8>) -> Option<PiecesView>;

/// The parts of the date and time text `text`.
///
/// Trusted: calls `jiff::fmt::temporal::Pieces::parse`, and reads the date
/// (`Pieces::date`), the time of day (`Pieces::time`), the numeric offset
/// (`Pieces::to_numeric_offset`, `Offset::seconds`) and whether there is a
/// time zone annotation (`Pieces::time_zone_annotation`) of the result.
/// The contract names the result, which depends on the text alone, and
/// states what jiff documents of an offset: it lies within ±25:59:59.
#[verifier::external_body]
fn parse_pieces(text: &[u8]) -> (res: Option<TextPieces>)
    ensures
        match res {
            Some(p) => pieces_of(text@) == Some(pieces_view(p)),
            None => pieces_of(text@) is None,
        },
        res matches Some(p) && p.offset matches Some(o) ==> -93599 <= o <= 93599,
{
    let pieces = jiff::fmt::temporal::Pieces::parse(text).ok()?;
    let d = pieces.date();
    let time = match pieces.time() {
        Some(t) => Some((t.hour(), t.minute(), t.second(), t.subsec_nanosecond())),
        None => None,
    };
    let offset = match pieces.to_numeric_offset() {
        Some(o) => Some(o.seconds()),
        None => None,
    };
    let annotated = pieces.time_zone_annotation().is_some();
    Some(TextPieces { date: (d.year(), d.month(), d.day()), time, offset, annotated })
}

/// `y` is a leap year of the Gregorian calendar.
pub open spec fn leap_year(y: int) -> bool {
    y % 4 == 0 && (y % 100 != 0 || y % 400 == 0)
}

/// The number of days of month `m` of year `y`.
pub open spec fn month_days(y: int, m: int) -> int {
    if m == 2 {
        if leap_year(y) {
            29
        } else {
            28
        }
    } else if m == 4 || m == 6 || m == 9 || m == 11 {
        30
    } else {
        31
    }
}

/// A date of the years -9999 to 9999.
pub open spec fn valid_date(d: CivilDate) -> bool {
    -9999 <= d.0 <= 9999 && 1 <= d.1 <= 12 && 1 <= d.2 <= month_days(d.0 as int, d.1 as int)
}

/// A time of day, without leap seconds.
pub open spec fn valid_time(t: CivilTime) -> bool {
    0 <= t.0 <= 23 && 0 <= t.1 <= 59 && 0 <= t.2 <= 59 && 0 <= t.3 <= 999_999_999
}

/// The number of days from 1970-01-01 to the date, in the proleptic
/// Gregorian calendar.
pub open spec fn epoch_day(d: CivilDate) -> int {
    let y: int = if d.1 <= 2 {
        d.0 - 1
    } else {
        d.0 as int
    };
    let era = y / 400;
    let yoe = y - era * 400;
    let mp: int = if d.1 > 2 {
        d.1 - 3
    } else {
        d.1 + 9
    };
    let doy = (153 * mp + 2) / 5 + d.2 - 1;
    let doe = yoe * 365 + yoe / 4 - yoe / 100 + doy;
    era * 146097 + doe - 719468
}

/// The instant, in nanoseconds since the Unix epoch, of the civil date and
/// time at `offset` seconds from UTC: none when the date or time is not
/// one, the offset is beyond ±25:59:59, or the instant lies outside the
/// seconds -377705023201 to 253402207200 (counted, for an instant before
/// the epoch with a fraction of a second, from the next whole second).
pub open spec fn civil_instant(date: CivilDate, time: CivilTime, offset: int) -> Option<i128> {
    if valid_date(date) && valid_time(time) && -93599 <= offset <= 93599 {
        let s = epoch_day(date) * 86400 + time.0 * 3600 + time.1 * 60 + time.2 - offset;
        let whole = if s < 0 && time.3 != 0 {
            s + 1
        } else {
            s
        };
        if -377705023201 <= whole <= 253402207200 {
            Some((s * 1_000_000_000 + time.3) as i128)
        } else {
            None
        }
    } else {
        None
    }
}

/// The instant of a civil date and time at a fixed offset.
///
/// Trusted: builds the date, time and offset with `Date::new`, `Time::new`
/// and `Offset::from_seconds` of jiff, which refuse what is not a date, a
/// time or an offset within ±25:59:59; converts with `Offset::to_timestamp`
/// (jiff-core: epoch day times 86400, plus the second of the day, minus the
/// offset, refused outside the range of `Timestamp`), and gives
/// `Timestamp::as_nanosecond`. The contract states that computation.
#[verifier::external_body]
fn instant_at_offset(date: CivilDate, time: CivilTime, offset: i32) -> (res: Option<i128>)
    ensures
        res == civil_instant(date, time, offset as int),
{
    let d = jiff::civil::Date::new(date.0, date.1, date.2).ok()?;
    let t = jiff::civil::Time::new(time.0, time.1, time.2, time.3).ok()?;
    let o = jiff::tz::Offset::from_seconds(offset).ok()?;
    o.to_timestamp(jiff::civil::DateTime::from_parts(d, t)).ok().map(|ts| ts.as_nanosecond())
}

/// The instant of a civil date and time in UTC.
///
/// Trusted: builds the date and time as `instant_at_offset` does and calls
/// `TimeZone::to_timestamp` on `TimeZone::UTC`, which jiff converts with
/// the offset zero (`to_ambiguous_timestamp`, then `compatible`), then
/// gives `Timestamp::as_nanosecond`.
#[verifier::external_body]
fn instant_in_utc(date: CivilDate, time: CivilTime) -> (res: Option<i128>)
    ensures
        res == civil_instant(date, time, 0),
{
    let d = jiff::civil::Date::new(date.0, date.1, date.2).ok()?;
    let t = jiff::civil::Time::new(time.0, time.1, time.2, time.3).ok()?;
    jiff::tz::TimeZone::UTC.to_timestamp(jiff::civil::DateTime::from_parts(d, t)).ok().map(
        |ts| ts.as_nanosecond(),
    )
}

/// The instant that the parts of a date and time text denote: the date at
/// its time of day, midnight when it gives none, at its offset if it gives
/// one, else in UTC.
pub open spec fn spec_instant_from_pieces(p: PiecesView) -> Option<i128> {
    let t = match p.1 {
        Some(t) => t,
        None => (0i8, 0i8, 0i8, 0i32),
    };
    match p.2 {
        Some(o) => civil_instant(p.0, t, o as int),
        None => civil_instant(p.0, t, 0),
    }
}

/// The instant that the parts of a date and time text denote: the date at
/// its time of day, midnight when it gives none, at its offset if it gives
/// one, else in UTC.
pub fn instant_from_pieces(p: &TextPieces) -> (res: Option<i128>)
    ensures
        res == spec_instant_from_pieces(pieces_view(*p)),
{
    let t = match p.time {
        Some(t) => t,
        None => (0i8, 0i8, 0i8, 0i32),
    };
    match p.offset {
        Some(o) => instant_at_offset(p.date, t, o),
        None => instant_in_utc(p.date, t),
    }
}

/// The instant that `text` denotes as a date and time, if it is one.
pub open spec fn text_instant(text: Seq<u8>) -> Option<i128> {
    match pieces_of(text) {
        Some(p) => spec_instant_from_pieces(p),
        None => None,
    }
}

/// The time zone that the annotation of `text` names, such as
/// `[Europe/Paris]`.
///
/// Trusted: calls `Pieces::parse` and `Pieces::to_time_zone` of jiff. The
/// zone is looked up in the time zone database of the system, so which
/// zone, and whether one is found, is left unsaid; the contract states only
/// what jiff documents: a text that does not parse, or has no annotation,
/// gives none.
#[verifier::external_body]
fn annotated_zone(text: &[u8]) -> (res: Option<jiff::tz::TimeZone>)
    ensures
        res is Some ==> (pieces_of(text@) matches Some(p) && p.3),
{
    jiff::fmt::temporal::Pieces::parse(text).ok()?.to_time_zone().ok().flatten()
}

/// The time zone at the fixed offset of `seconds` from UTC, as jiff's
/// `Offset::to_time_zone` makes it.
pub uninterp spec fn fixed_offset_zone(seconds: i32) -> jiff::tz::TimeZone;

/// The fixed time zone at `seconds` from UTC.
///
/// Trusted: calls `Offset::from_seconds`, which jiff documents to succeed
/// exactly within ±25:59:59 (the `requires`), and `Offset::to_time_zone`.
/// The contract names the zone, which depends on the offset alone.
#[verifier::external_body]
fn fixed_zone(seconds: i32) -> (res: jiff::tz::TimeZone)
    requires
        -93599 <= seconds <= 93599,
    ensures
        res == fixed_offset_zone(seconds),
{
    match jiff::tz::Offset::from_seconds(seconds) {
        Ok(o) => o.to_time_zone(),
        Err(_) => jiff::tz::TimeZone::UTC,
    }
}

/// A copy of a time zone.
///
/// Trusted: calls `TimeZone::clone` of jiff, which copies the handle of the
/// same zone: the copy is the zone itself.
#[verifier::external_body]
fn copy_zone(z: &jiff::tz::TimeZone) -> (res: jiff::tz::TimeZone)
    ensures
        res == *z,
{
    z.clone()
}

/// The UTC time zone.
///
/// Trusted: gives `jiff::tz::TimeZone::UTC`, which is the fixed zone at
/// offset zero: jiff's `TimeZone::fixed`, which `Offset::to_time_zone`
/// calls, returns `TimeZone::UTC` itself for a zero offset.
#[verifier::external_body]
fn utc_zone() -> (res: jiff::tz::TimeZone)
    ensures
        res == fixed_offset_zone(0),
{
    jiff::tz::TimeZone::UTC
}

/// The byte strings of a list of values.
pub open spec fn byte_strings(v: Seq<Vec<u8>>) -> Seq<Seq<u8>> {
    v.map_values(|b: Vec<u8>| b@)
}

/// Each string comes before the next in byte order.
pub open spec fn strictly_sorted(s: Seq<Seq<u8>>) -> bool {
    forall|i: int, j: int| 0 <= i < j < s.len() ==> lex_lt(#[trigger] s[i], #[trigger] s[j])
}

/// A value that can be a variant of an enumeration: valid UTF-8 of at most
/// 15 bytes.
pub open spec fn enum_value_ok(b: Seq<u8>) -> bool {
    b.len() <= 15 && valid_utf8(b)
}

/// The values of an enumeration once `val` is seen: `val` joins them if it
/// can be a variant and there are then at most 32; otherwise the column is
/// no enumeration.
pub open spec fn spec_enum_update(set: Option<Set<Seq<u8>>>, val: Seq<u8>) -> Option<Set<Seq<u8>>> {
    match set {
        Some(s) => if enum_value_ok(val) && s.insert(val).len() <= 32 {
            Some(s.insert(val))
        } else {
            None
        },
        None => None,
    }
}

/// The latest instant once `val` is seen: the instant of `val` if it is one
/// and not before the latest so far; otherwise the column holds no
/// absolute timestamps.
pub open spec fn spec_absolute_update(latest: Option<i128>, instant: Option<i128>) -> Option<i128> {
    match (latest, instant) {
        (Some(max), Some(t)) => if t >= max {
            Some(t)
        } else {
            None
        },
        _ => None,
    }
}

/// The set of a sorted list of values.
pub open spec fn set_of(o: Option<Seq<Seq<u8>>>) -> Option<Set<Seq<u8>>> {
    match o {
        Some(s) => Some(s.to_set()),
        None => None,
    }
}

/// A strictly sorted list holds each of its values once.
pub proof fn lemma_sorted_set_len(s: Seq<Seq<u8>>)
    requires
        strictly_sorted(s),
    ensures
        s.to_set().len() == s.len(),
        s.to_set().finite(),
{
    assert forall|i: int, j: int| 0 <= i < s.len() && 0 <= j < s.len() && i != j implies s[i] != s[j] by {
        lemma_lex_total(s[i], s[j]);
        if i < j {
            assert(lex_lt(s[i], s[j]));
        } else {
            assert(lex_lt(s[j], s[i]));
        }
    }
    assert(s.no_duplicates());
    s.unique_seq_to_set();
}

/// Adds `x` to a strictly sorted list of values, keeping it so.
fn enum_insert(v: &mut Vec<Vec<u8>>, x: &[u8])
    requires
        strictly_sorted(byte_strings(old(v)@)),
    ensures
        strictly_sorted(byte_strings(final(v)@)),
        byte_strings(final(v)@).to_set() == byte_strings(old(v)@).to_set().insert(x@),
        forall|i: int|
            0 <= i < final(v)@.len() ==> byte_strings(old(v)@).contains(#[trigger] byte_strings(final(v)@)[i])
                || byte_strings(final(v)@)[i] == x@,
{
    let ghost s = byte_strings(v@);
    let mut p: usize = 0;
    while p < v.len() && bytes_lt(v[p].as_slice(), x)
        invariant
            p <= v@.len(),
            s == byte_strings(v@),
            strictly_sorted(s),
            forall|a: int| 0 <= a < p ==> lex_lt(#[trigger] s[a], x@),
        decreases v@.len() - p,
    {
        assert(s[p as int] == v@[p as int]@);
        p = p + 1;
    }
    if p < v.len() && crate::zip::bytes_equal(v[p].as_slice(), x) {
        assert(s[p as int] == x@);
        assert(s.to_set().insert(x@) =~= s.to_set());
        return;
    }
    proof {
        if p < s.len() {
            assert(s[p as int] == v@[p as int]@);
            lemma_lex_total(s[p as int], x@);
            assert forall|a: int| p <= a < s.len() implies lex_lt(x@, #[trigger] s[a]) by {
                if a > p {
                    lemma_lex_trans(x@, s[p as int], s[a]);
                }
            }
        }
    }
    let item = vstd::slice::slice_to_vec(x);
    v.insert(p, item);
    proof {
        let t = byte_strings(v@);
        assert(t =~= s.insert(p as int, x@));
        assert forall|a: int, b: int| 0 <= a < b < t.len() implies lex_lt(#[trigger] t[a], #[trigger] t[b]) by {
            if a < p && b < p {
                assert(t[a] == s[a] && t[b] == s[b]);
            } else if a < p && b == p {
                assert(t[a] == s[a]);
            } else if a < p {
                assert(t[a] == s[a] && t[b] == s[b - 1]);
                lemma_lex_trans(s[a], x@, s[b - 1]);
            } else if a == p {
                assert(t[b] == s[b - 1]);
            } else {
                assert(t[a] == s[a - 1] && t[b] == s[b - 1]);
            }
        }
        assert forall|y: Seq<u8>| t.to_set().contains(y) <==> s.to_set().insert(x@).contains(y) by {
            if t.to_set().contains(y) {
                let i = choose|i: int| 0 <= i < t.len() && t[i] == y;
                if i < p {
                    assert(s[i] == y);
                } else if i > p {
                    assert(s[i - 1] == y);
                }
            }
            if s.to_set().contains(y) {
                let i = choose|i: int| 0 <= i < s.len() && s[i] == y;
                if i < p {
                    assert(t[i] == y);
                } else {
                    assert(t[i + 1] == y);
                }
            }
            if y == x@ {
                assert(t[p as int] == y);
            }
        }
        assert(t.to_set() =~= s.to_set().insert(x@));
        assert forall|i: int| 0 <= i < t.len() implies s.contains(#[trigger] t[i]) || t[i] == x@ by {
            if i < p {
                assert(t[i] == s[i]);
            } else if i > p {
                assert(t[i] == s[i - 1]);
            }
        }
    }
}

/// The types a column may have, in the order of preference.
#[derive(Clone, Copy, Debug, PartialEq, Eq, Structural)]
pub enum InferredKind {
    AbsoluteTimestamp,
    RelativeTimestamp,
    Float,
    Enum,
    String,
}

/// The possible types of a column, most preferred first: absolute
/// timestamps; relative timestamps when preferred; numbers; relative
/// timestamps when not preferred; an enumeration; text, always.
pub open spec fn spec_possible_kinds(
    prioritize_relative: bool,
    absolute: bool,
    relative: bool,
    float: bool,
    enumerated: bool,
) -> Seq<InferredKind> {
    (if absolute {
        seq![InferredKind::AbsoluteTimestamp]
    } else {
        Seq::empty()
    }) + (if prioritize_relative && relative {
        seq![InferredKind::RelativeTimestamp]
    } else {
        Seq::empty()
    }) + (if float {
        seq![InferredKind::Float]
    } else {
        Seq::empty()
    }) + (if !prioritize_relative && relative {
        seq![InferredKind::RelativeTimestamp]
    } else {
        Seq::empty()
    }) + (if enumerated {
        seq![InferredKind::Enum]
    } else {
        Seq::empty()
    }) + seq![InferredKind::String]
}

/// Where the time zone of a column of timestamps was found.
pub enum FoundZone {
    /// The zone that the annotation of a timestamp names, such as
    /// `[Europe/Paris]`, as looked up in the system's time zone database.
    Annotated(jiff::tz::TimeZone),
    /// The numeric offset of a timestamp from UTC, in seconds.
    Offset(i32),
}

/// The time zone of a column of absolute timestamps.
pub enum ColumnZone {
    /// No timestamp gave a zone: UTC.
    Utc,
    Annotated(jiff::tz::TimeZone),
    /// A fixed offset from UTC, in seconds.
    Offset(i32),
}

/// The state of a `TypeInfer`.
pub struct TypeInferView {
    pub prioritize_relative_timestamp: bool,
    pub zone: Option<FoundZone>,
    pub absolute_timestamp: Option<i128>,
    pub enum_set: Option<Seq<Seq<u8>>>,
}

/// The zone of the numeric offset of date and time parts, if they give one
/// within ±25:59:59.
pub open spec fn offset_zone(pieces: Option<PiecesView>) -> Option<FoundZone> {
    match pieces {
        Some(p) => match p.2 {
            Some(o) => if -93599 <= o <= 93599 {
                Some(FoundZone::Offset(o))
            } else {
                None
            },
            None => None,
        },
        None => None,
    }
}

/// `n` is what `o` becomes once the value `val`, with the date and time
/// parts `pieces` and the zone `annotated` that its annotation names, is
/// seen: the same preference; the latest instant and the enumeration
/// updated; a time zone kept once found. Until one is found, an accepted
/// timestamp gives the zone its annotation names, else its numeric offset.
pub open spec fn spec_taken(
    o: TypeInferView,
    n: TypeInferView,
    val: Seq<u8>,
    pieces: Option<PiecesView>,
    annotated: Option<jiff::tz::TimeZone>,
) -> bool {
    let instant = match pieces {
        Some(p) => spec_instant_from_pieces(p),
        None => None,
    };
    &&& n.prioritize_relative_timestamp == o.prioritize_relative_timestamp
    &&& n.absolute_timestamp == spec_absolute_update(o.absolute_timestamp, instant)
    &&& set_of(n.enum_set) == spec_enum_update(set_of(o.enum_set), val)
    &&& n.zone == if o.zone is None && o.absolute_timestamp is Some && n.absolute_timestamp is Some {
        match annotated {
            Some(z) => Some(FoundZone::Annotated(z)),
            None => offset_zone(pieces),
        }
    } else {
        o.zone
    }
}

/// A zone found for the annotation of `val` can be one only when `val` is a
/// date and time text with an annotation.
pub open spec fn annotation_possible(val: Seq<u8>, annotated: Option<jiff::tz::TimeZone>) -> bool {
    annotated is Some ==> (pieces_of(val) matches Some(p) && p.3)
}

/// `n` is what `o` becomes once the value `val` is seen (see `spec_taken`),
/// whichever zone the time zone database finds for its annotation; without
/// an annotation, none.
pub open spec fn spec_updated(o: TypeInferView, n: TypeInferView, val: Seq<u8>) -> bool {
    exists|annotated: Option<jiff::tz::TimeZone>|
        annotation_possible(val, annotated) && spec_taken(o, n, val, pieces_of(val), annotated)
}

/// The parts of an optional `TextPieces`.
pub open spec fn opt_pieces_view(p: Option<&TextPieces>) -> Option<PiecesView> {
    match p {
        Some(p) => Some(pieces_view(*p)),
        None => None,
    }
}

/// What the values of a column seen so far allow it to be, apart from
/// numbers, whose ranges the caller keeps.
pub struct TypeInfer {
    prioritize_relative_timestamp: bool,
    zone: Option<FoundZone>,
    absolute_timestamp: Option<i128>,
    enum_set: Option<Vec<Vec<u8>>>,
}

impl View for TypeInfer {
    type V = TypeInferView;

    closed spec fn view(&self) -> TypeInferView {
        TypeInferView {
            prioritize_relative_timestamp: self.prioritize_relative_timestamp,
            zone: self.zone,
            absolute_timestamp: self.absolute_timestamp,
            enum_set: match self.enum_set {
                Some(v) => Some(byte_strings(v@)),
                None => None,
            },
        }
    }
}

impl TypeInfer {
    /// The values of an enumeration are sorted, each a possible variant,
    /// at most 32 of them.
    pub open spec fn wf(&self) -> bool {
        &&& self@.enum_set matches Some(s) ==> strictly_sorted(s) && s.len() <= 32 && forall|i: int|
            0 <= i < s.len() ==> enum_value_ok(#[trigger] s[i])
        &&& self@.zone matches Some(FoundZone::Offset(o)) ==> -93599 <= o <= 93599
    }

    #[verifier::type_invariant]
    spec fn values_sorted(&self) -> bool {
        self.wf()
    }

    /// Nothing seen yet: every type is still possible, timestamps from the
    /// Unix epoch on.
    pub fn new(prioritize_relative_timestamp: bool) -> (res: Self)
        ensures
            res.wf(),
            res@ == (TypeInferView {
                prioritize_relative_timestamp,
                zone: None,
                absolute_timestamp: Some(0),
                enum_set: Some(Seq::empty()),
            }),
    {
        let res = TypeInfer {
            prioritize_relative_timestamp,
            zone: None,
            absolute_timestamp: Some(0),
            enum_set: Some(Vec::new()),
        };
        assert(byte_strings(Seq::<Vec<u8>>::empty()) =~= Seq::<Seq<u8>>::empty());
        res
    }

    /// Takes in one more value of the column.
    pub fn update(&mut self, val: &[u8])
        ensures
            final(self).wf(),
            spec_updated(old(self)@, final(self)@, val@),
    {
        let ghost before = self@;
        if self.absolute_timestamp.is_some() {
            let pieces = parse_pieces(val);
            match &pieces {
                Some(p) => {
                    let annotated = if self.zone.is_none() {
                        annotated_zone(val)
                    } else {
                        None
                    };
                    let ghost a = annotated;
                    self.take_value(val, Some(p), annotated);
                    assert(annotation_possible(val@, a));
                    assert(spec_taken(before, self@, val@, pieces_of(val@), a));
                },
                None => {
                    self.take_value(val, None, None);
                    assert(annotation_possible(val@, None));
                    assert(spec_taken(before, self@, val@, pieces_of(val@), None));
                },
            }
        } else {
            self.take_value(val, None, None);
            assert(annotation_possible(val@, None));
            assert(spec_taken(before, self@, val@, pieces_of(val@), None));
        }
    }

    /// Takes in one more value of the column, whose date and time parts are
    /// `pieces` if it is a date and time, and whose annotation names the
    /// zone `annotated`, if any. The time zone is taken from the first
    /// accepted timestamp that has one, by its annotation or else its
    /// numeric offset.
    pub fn take_value(&mut self, val: &[u8], pieces: Option<&TextPieces>, annotated: Option<jiff::tz::TimeZone>)
        ensures
            final(self).wf(),
            spec_taken(old(self)@, final(self)@, val@, opt_pieces_view(pieces), annotated),
    {
        let instant = match pieces {
            Some(p) => instant_from_pieces(p),
            None => None,
        };
        proof {
            use_type_invariant(&*self);
        }
        if let Some(max) = self.absolute_timestamp {
            match instant {
                Some(t) => {
                    if t >= max {
                        if self.zone.is_none() {
                            self.zone = match annotated {
                                Some(z) => Some(FoundZone::Annotated(z)),
                                None => match pieces {
                                    Some(p) => match p.offset {
                                        Some(o) => if -93599 <= o && o <= 93599 {
                                            Some(FoundZone::Offset(o))
                                        } else {
                                            None
                                        },
                                        None => None,
                                    },
                                    None => None,
                                },
                            };
                        }
                        self.absolute_timestamp = Some(t);
                    } else {
                        self.absolute_timestamp = None;
                    }
                },
                None => {
                    self.absolute_timestamp = None;
                },
            }
        }
        let ghost old_set = set_of(old(self)@.enum_set);
        let mut set = None;
        std::mem::swap(&mut set, &mut self.enum_set);
        match set {
            Some(mut v) => {
                proof {
                    lemma_sorted_set_len(byte_strings(v@));
                }
                if x_ok(val) {
                    let ghost s0 = byte_strings(v@);
                    enum_insert(&mut v, val);
                    proof {
                        lemma_sorted_set_len(byte_strings(v@));
                    }
                    if v.len() > 32 {
                        self.enum_set = None;
                    } else {
                        proof {
                            let t = byte_strings(v@);
                            assert forall|i: int| 0 <= i < t.len() implies enum_value_ok(#[trigger] t[i]) by {
                                if t[i] != val@ {
                                    let j = choose|j: int| 0 <= j < s0.len() && s0[j] == t[i];
                                    assert(enum_value_ok(s0[j]));
                                }
                            }
                        }
                        self.enum_set = Some(v);
                    }
                } else {
                    self.enum_set = None;
                }
            },
            None => {},
        }
    }

    /// Where the zone of the column's timestamps comes from, if it holds
    /// absolute timestamps: UTC exactly when none of them gave a zone.
    pub fn absolute_zone(&self) -> (res: Option<ColumnZone>)
        ensures
            match self@.absolute_timestamp {
                None => res is None,
                Some(_) => match self@.zone {
                    None => res == Some(ColumnZone::Utc),
                    Some(FoundZone::Annotated(z)) => res == Some(ColumnZone::Annotated(z)),
                    Some(FoundZone::Offset(o)) => res == Some(ColumnZone::Offset(o)),
                },
            },
    {
        match self.absolute_timestamp {
            Some(_) => match &self.zone {
                None => Some(ColumnZone::Utc),
                Some(FoundZone::Annotated(z)) => Some(ColumnZone::Annotated(copy_zone(z))),
                Some(FoundZone::Offset(o)) => Some(ColumnZone::Offset(*o)),
            },
            None => None,
        }
    }

    /// The time zone of the column's timestamps, if it holds absolute
    /// timestamps: the one `absolute_zone` says, built with jiff (UTC, the
    /// fixed zone of the offset, or the annotated zone itself).
    pub fn as_absolute_timestamp(&self) -> (res: Option<jiff::tz::TimeZone>)
        ensures
            match self@.absolute_timestamp {
                None => res is None,
                Some(_) => match self@.zone {
                    None => res == Some(fixed_offset_zone(0)),
                    Some(FoundZone::Annotated(z)) => res == Some(z),
                    Some(FoundZone::Offset(o)) => res == Some(fixed_offset_zone(o)),
                },
            },
    {
        proof {
            use_type_invariant(self);
        }
        match self.absolute_zone() {
            None => None,
            Some(ColumnZone::Utc) => Some(utc_zone()),
            Some(ColumnZone::Annotated(z)) => Some(z),
            Some(ColumnZone::Offset(o)) => Some(fixed_zone(o)),
        }
    }

    /// The variants of the column's enumeration in byte order, if it is one.
    pub fn as_enum(&self) -> (res: Option<Vec<String>>)
        ensures
            match self@.enum_set {
                Some(s) => res matches Some(v) && v@.map_values(|x: String| x@) == s.map_values(
                    |b: Seq<u8>| decode_utf8(b),
                ),
                None => res is None,
            },
    {
        proof {
            use_type_invariant(self);
        }
        match &self.enum_set {
            Some(v) => {
                let ghost s = byte_strings(v@);
                let mut out: Vec<String> = Vec::new();
                let mut i: usize = 0;
                while i < v.len()
                    invariant
                        i <= v@.len(),
                        s == byte_strings(v@),
                        forall|j: int| 0 <= j < s.len() ==> enum_value_ok(#[trigger] s[j]),
                        out@.len() == i,
                        forall|j: int| 0 <= j < i ==> #[trigger] out@[j]@ == decode_utf8(s[j]),
                    decreases v@.len() - i,
                {
                    assert(s[i as int] == v@[i as int]@);
                    match crate::csv_records::utf8_text(v[i].as_slice()) {
                        Some(t) => {
                            out.push(t);
                        },
                        None => {
                            assert(false);
                        },
                    }
                    i = i + 1;
                }
                assert(out@.map_values(|x: String| x@) =~= s.map_values(|b: Seq<u8>| decode_utf8(b)));
                Some(out)
            },
            None => None,
        }
    }

    /// The types the column may have, most preferred first, given whether
    /// its values are rising numbers (`relative`) and whether they are
    /// numbers of a finite range (`float`).
    pub fn possible_kinds(&self, relative: bool, float: bool) -> (res: Vec<InferredKind>)
        ensures
            res@ == spec_possible_kinds(
                self@.prioritize_relative_timestamp,
                self@.absolute_timestamp is Some,
                relative,
                float,
                self@.enum_set is Some,
            ),
    {
        let prio = self.prioritize_relative_timestamp;
        let mut v: Vec<InferredKind> = Vec::new();
        if self.absolute_timestamp.is_some() {
            v.push(InferredKind::AbsoluteTimestamp);
        }
        if prio && relative {
            v.push(InferredKind::RelativeTimestamp);
        }
        if float {
            v.push(InferredKind::Float);
        }
        if !prio && relative {
            v.push(InferredKind::RelativeTimestamp);
        }
        if self.enum_set.is_some() {
            v.push(InferredKind::Enum);
        }
        v.push(InferredKind::String);
        assert(v@ =~= spec_possible_kinds(
            prio,
            self@.absolute_timestamp is Some,
            relative,
            float,
            self@.enum_set is Some,
        ));
        v
    }

    /// The type the column is given: the most preferred of its possible
    /// types.
    pub fn preferred_kind(&self, relative: bool, float: bool) -> (res: InferredKind)
        ensures
            res == spec_possible_kinds(
                self@.prioritize_relative_timestamp,
                self@.absolute_timestamp is Some,
                relative,
                float,
                self@.enum_set is Some,
            )[0],
    {
        let v = self.possible_kinds(relative, float);
        v[0]
    }
}

/// A value fit for an enumeration.
fn x_ok(val: &[u8]) -> (res: bool)
    ensures
        res == enum_value_ok(val@),
{
    val.len() <= 15 && crate::csv_records::utf8_text(val).is_some()
}

/// Relative timestamps are preferred over plain numbers in the first
/// column and in columns named `t`, `time` or `timestamp`.
pub fn prioritize_relative(index: usize, name: &str) -> (res: bool)
    ensures
        res == (index == 0 || name@ == "t"@ || name@ == "time"@ || name@ == "timestamp"@),
{
    let c = chars_of(name);
    index == 0 || chars_are(c.as_slice(), "t") || chars_are(c.as_slice(), "time") || chars_are(
        c.as_slice(),
        "timestamp",
    )
}

/// `"Line L has N columns, expected M"`.
pub open spec fn row_width_message(line: u64, got: nat, expected: nat) -> Seq<char> {
    "Line "@ + dec_nat(line as nat) + " has "@ + dec_nat(got) + " columns, expected "@ + dec_nat(expected)
}

/// A record on `line` with `got` fields where `expected` columns are
/// known is refused unless the two agree.
pub fn check_row_width(line: u64, got: usize, expected: usize) -> (res: Result<(), ImportError>)
    ensures
        got == expected ==> res is Ok,
        got != expected ==> (res matches Err(ImportError::InvalidFile(m)) && m@ == row_width_message(
            line,
            got as nat,
            expected as nat,
        )),
{
    if got == expected {
        return Ok(());
    }
    let mut m = owned("Line ");
    push_decimal(&mut m, line as u128);
    push_str(&mut m, " has ");
    push_decimal(&mut m, got as u128);
    push_str(&mut m, " columns, expected ");
    push_decimal(&mut m, expected as u128);
    Err(ImportError::InvalidFile(m))
}

/// The description of a column of the given type: timestamps, numbers and
/// enumerations are fields; text is a variable array of characters.
pub open spec fn column_view(name: Seq<char>, kind: InferredKind) -> InfoView {
    match kind {
        InferredKind::AbsoluteTimestamp => leaf_view(name, "Timestamp"@, true),
        InferredKind::RelativeTimestamp => leaf_view(name, "Timestamp"@, true),
        InferredKind::Float => leaf_view(name, "Float32"@, true),
        InferredKind::Enum => leaf_view(name, "Enum"@, true),
        InferredKind::String => InfoView {
            name,
            kind: "VariableArray"@,
            filled: true,
            children: seq![leaf_view("inner"@, "Char"@, true)],
        },
    }
}

/// A column is described under its own name; as a timestamp exactly when
/// it holds timestamps, absolute or relative; as 32-bit floats exactly when
/// it holds numbers; as an enumeration exactly when it is one; and as a
/// variable-length array of characters exactly when it holds text.
pub proof fn lemma_column_description(name: Seq<char>, kind: InferredKind)
    ensures
        column_view(name, kind).name == name,
        column_view(name, kind).kind == "Timestamp"@ <==> (kind == InferredKind::AbsoluteTimestamp || kind
            == InferredKind::RelativeTimestamp),
        column_view(name, kind).kind == "Float32"@ <==> kind == InferredKind::Float,
        column_view(name, kind).kind == "Enum"@ <==> kind == InferredKind::Enum,
        column_view(name, kind).kind == "VariableArray"@ <==> kind == InferredKind::String,
{
    reveal_strlit("Timestamp");
    reveal_strlit("Float32");
    reveal_strlit("Enum");
    reveal_strlit("VariableArray");
    assert("Timestamp"@.len() == 9 && "Float32"@.len() == 7 && "Enum"@.len() == 4 && "VariableArray"@.len() == 13);
    match kind {
        InferredKind::AbsoluteTimestamp => {},
        InferredKind::RelativeTimestamp => {},
        InferredKind::Float => {},
        InferredKind::Enum => {},
        InferredKind::String => {},
    }
}

/// Columns added in turn to a record, keyed by name.
pub open spec fn add_columns(names: Seq<Seq<char>>, kinds: Seq<InferredKind>) -> Seq<InfoView>
    decreases names.len(),
{
    if names.len() == 0 {
        Seq::empty()
    } else {
        add_child(
            add_columns(names.drop_last(), kinds.drop_last()),
            column_view(names.last(), kinds.last()),
        )
    }
}

fn leaf_node(name: String, kind: &str) -> (res: InfoNode)
    ensures
        node_view(res) == leaf_view(name@, kind@, true),
{
    let res = InfoNode { name, kind: String::from_str(kind), filled: true, children: Vec::new() };
    assert(nodes_view(res.children@) =~= Seq::<InfoView>::empty());
    res
}

/// The description of a column named `name` of type `kind`.
pub fn column_node(name: String, kind: InferredKind) -> (res: InfoNode)
    ensures
        node_view(res) == column_view(name@, kind),
{
    match kind {
        InferredKind::AbsoluteTimestamp => leaf_node(name, "Timestamp"),
        InferredKind::RelativeTimestamp => leaf_node(name, "Timestamp"),
        InferredKind::Float => leaf_node(name, "Float32"),
        InferredKind::Enum => leaf_node(name, "Enum"),
        InferredKind::String => {
            let inner = leaf_node(owned("inner"), "Char");
            let mut children: Vec<InfoNode> = Vec::new();
            children.push(inner);
            proof {
                crate::info::lemma_nodes_view(children@);
                assert(nodes_view(children@) =~= seq![leaf_view("inner"@, "Char"@, true)]);
            }
            InfoNode { name, kind: owned("VariableArray"), filled: true, children }
        },
    }
}

/// The description of a CSV file named `root`: a record of its columns,
/// each of the type inferred for it.
pub fn columns_tree(root: &str, names: &[String], kinds: &[InferredKind]) -> (res: InfoNode)
    requires
        names@.len() == kinds@.len(),
    ensures
        node_view(res) == (InfoView {
            name: root@,
            kind: "Record"@,
            filled: true,
            children: add_columns(names@.map_values(|s: String| s@), kinds@),
        }),
{
    let mut children: Vec<InfoNode> = Vec::new();
    assert(nodes_view(children@) =~= Seq::<InfoView>::empty());
    let mut i: usize = 0;
    while i < names.len()
        invariant
            i <= names@.len(),
            names@.len() == kinds@.len(),
            names_distinct(nodes_view(children@)),
            nodes_view(children@) == add_columns(
                names@.subrange(0, i as int).map_values(|s: String| s@),
                kinds@.subrange(0, i as int),
            ),
        decreases names@.len() - i,
    {
        let ghost before = names@.subrange(0, i as int).map_values(|s: String| s@);
        let ghost after = names@.subrange(0, i + 1).map_values(|s: String| s@);
        assert(after.drop_last() =~= before);
        assert(kinds@.subrange(0, i + 1).drop_last() =~= kinds@.subrange(0, i as int));
        let node = column_node(names[i].clone(), kinds[i]);
        push_child(&mut children, node);
        i = i + 1;
    }
    assert(names@.subrange(0, i as int) =~= names@);
    assert(kinds@.subrange(0, i as int) =~= kinds@);
    InfoNode { name: String::from_str(root), kind: owned("Record"), filled: true, children }
}

/// Values seen only narrow what a column may be: absolute timestamps or an
/// enumeration, once ruled out, stay ruled out.
pub proof fn lemma_ruled_out_stays(val: Seq<u8>, instant: Option<i128>)
    ensures
        spec_absolute_update(None, instant) is None,
        spec_enum_update(None, val) is None,
{
}

/// Text is always possible, as the least preferred type.
pub proof fn lemma_text_always_possible(
    prioritize_relative: bool,
    absolute: bool,
    relative: bool,
    float: bool,
    enumerated: bool,
)
    ensures
        spec_possible_kinds(prioritize_relative, absolute, relative, float, enumerated).len() >= 1,
        spec_possible_kinds(prioritize_relative, absolute, relative, float, enumerated).last()
            == InferredKind::String,
{
}

/// The state of a fresh `TypeInfer`.
pub open spec fn fresh_view(prioritize_relative_timestamp: bool) -> TypeInferView {
    TypeInferView {
        prioritize_relative_timestamp,
        zone: None,
        absolute_timestamp: Some(0),
        enum_set: Some(Seq::empty()),
    }
}

/// The states of a list of `TypeInfer`s.
pub open spec fn types_view(ts: Seq<TypeInfer>) -> Seq<TypeInferView> {
    ts.map_values(|t: TypeInfer| t@)
}

/// The columns of a CSV file, each with what its values allow it to be.
pub struct InferredTypes {
    names: Vec<String>,
    types: Vec<TypeInfer>,
}

/// The state of an `InferredTypes`.
pub struct InferredTypesView {
    pub names: Seq<Seq<char>>,
    pub types: Seq<TypeInferView>,
}

impl View for InferredTypes {
    type V = InferredTypesView;

    closed spec fn view(&self) -> InferredTypesView {
        InferredTypesView {
            names: self.names@.map_values(|s: String| s@),
            types: types_view(self.types@),
        }
    }
}

impl InferredTypes {
    /// One inference state per column name.
    pub open spec fn wf(&self) -> bool {
        self@.names.len() == self@.types.len()
    }

    /// One column per name of the header, nothing seen yet.
    pub fn new(header: Vec<String>) -> (res: Self)
        ensures
            res.wf(),
            res@.names == header@.map_values(|s: String| s@),
            res@.types.len() == header@.len(),
            forall|i: int|
                0 <= i < header@.len() ==> #[trigger] res@.types[i] == fresh_view(
                    i == 0 || header@[i]@ == "t"@ || header@[i]@ == "time"@ || header@[i]@
                        == "timestamp"@,
                ),
    {
        let mut types: Vec<TypeInfer> = Vec::new();
        let mut i: usize = 0;
        while i < header.len()
            invariant
                i <= header@.len(),
                types@.len() == i,
                forall|j: int|
                    0 <= j < i ==> #[trigger] types@[j]@ == fresh_view(
                        j == 0 || header@[j]@ == "t"@ || header@[j]@ == "time"@ || header@[j]@
                            == "timestamp"@,
                    ),
            decreases header@.len() - i,
        {
            let p = prioritize_relative(i, header[i].as_str());
            types.push(TypeInfer::new(p));
            i = i + 1;
        }
        let res = InferredTypes { names: header, types };
        assert(res@.types.len() == i);
        res
    }

    /// Takes in a record on `line`: each field goes to its column. A record
    /// with another number of fields is refused, and nothing changes.
    pub fn row(&mut self, line: u64, fields: &[Vec<u8>]) -> (res: Result<(), ImportError>)
        requires
            old(self).wf(),
        ensures
            final(self).wf(),
            final(self)@.names == old(self)@.names,
            final(self)@.types.len() == old(self)@.types.len(),
            fields@.len() == old(self)@.types.len() ==> res is Ok && forall|i: int|
                0 <= i < fields@.len() ==> spec_updated(
                    #[trigger] old(self)@.types[i],
                    final(self)@.types[i],
                    fields@[i]@,
                ),
            fields@.len() != old(self)@.types.len() ==> (res matches Err(ImportError::InvalidFile(m))
                && m@ == row_width_message(line, fields@.len() as nat, old(self)@.types.len() as nat)
                && final(self)@ == old(self)@),
    {
        let n = self.types.len();
        match check_row_width(line, fields.len(), n) {
            Ok(()) => {},
            Err(e) => {
                return Err(e);
            },
        }
        let ghost before = self@.types;
        let mut rest: Vec<TypeInfer> = Vec::new();
        std::mem::swap(&mut rest, &mut self.types);
        let mut done: Vec<TypeInfer> = Vec::new();
        let mut i: usize = 0;
        proof {
            assert(types_view(rest@) =~= before.subrange(0, n as int));
        }
        while i < n
            invariant
                i <= n,
                n == fields@.len(),
                n == before.len(),
                rest@.len() == n - i,
                types_view(rest@) == before.subrange(i as int, n as int),
                done@.len() == i,
                forall|j: int| 0 <= j < i ==> spec_updated(before[j], #[trigger] done@[j]@, fields@[j]@),
            decreases n - i,
        {
            let ghost r0 = types_view(rest@);
            assert(r0[0] == rest@[0]@);
            let mut t = rest.remove(0);
            assert(t@ == before[i as int]);
            t.update(fields[i].as_slice());
            done.push(t);
            proof {
                assert forall|j: int| 0 <= j < rest@.len() implies #[trigger] types_view(rest@)[j]
                    == before.subrange(i + 1, n as int)[j] by {
                    assert(r0[j + 1] == before.subrange(i as int, n as int)[j + 1]);
                }
                assert(types_view(rest@) =~= before.subrange(i + 1, n as int));
            }
            i = i + 1;
        }
        self.types = done;
        Ok(())
    }

    /// The column names.
    pub fn names(&self) -> (res: &[String])
        ensures
            res@.map_values(|s: String| s@) == self@.names,
    {
        self.names.as_slice()
    }

    /// The inference state of each column.
    pub fn types(&self) -> (res: &[TypeInfer])
        ensures
            types_view(res@) == self@.types,
    {
        self.types.as_slice()
    }
}

} // verus!
