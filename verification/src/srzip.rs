//! The metadata of sigrok session files (srzip version 2): an INI-like text
//! naming the devices, their sample rates, unit sizes, capture files and
//! channels.
use vstd::prelude::*;
use std::collections::BTreeMap;
use vstd::utf8::{valid_utf8, decode_utf8};
use crate::config::{chars_of, owned};
use crate::info::{InfoNode, InfoView, node_view, nodes_view, add_child, names_distinct, push_child};
use crate::text::dec_nat;
use vstd::string::StringExecFns;
use crate::text::split_on;

verus! {

broadcast use vstd::laws_cmp::group_laws_cmp;

/// An error while importing.
pub enum ImportError {
    Io(std::io::Error),
    SchemaMismatch(String),
    InvalidFile(String),
}

/// The text of `bytes` with invalid UTF-8 replaced, as
/// `String::from_utf8_lossy` gives it.
pub uninterp spec fn utf8_lossy(bytes: Seq<u8>) -> Seq<char>;

/// The text of `bytes`, with invalid UTF-8 replaced.
///
/// Trusted: calls `String::from_utf8_lossy` of std. The contract names the
/// result, and states what std documents of valid UTF-8: it is decoded as
/// is. What replaces invalid sequences is left unsaid.
#[verifier::external_body]
fn lossy_string(bytes: &[u8]) -> (res: String)
    ensures
        res@ == utf8_lossy(bytes@),
        valid_utf8(bytes@) ==> res@ == decode_utf8(bytes@),
{
    String::from_utf8_lossy(bytes).into_owned()
}

/// `lexical_core::parse::<u8>`: an optional `+`, then at least one ASCII
/// digit and nothing else, with a value of at most 255.
pub open spec fn spec_lexical_u8(s: Seq<u8>) -> Option<u8> {
    let body = if s.len() > 0 && s[0] == 43 {
        s.drop_first()
    } else {
        s
    };
    if body.len() > 0 && (forall|i: int| 0 <= i < body.len() ==> 48 <= #[trigger] body[i] <= 57)
        && digit_bytes_value(body) <= 255 {
        Some(digit_bytes_value(body) as u8)
    } else {
        None
    }
}

/// Decimal value of a sequence of ASCII digit bytes.
pub open spec fn digit_bytes_value(s: Seq<u8>) -> nat
    decreases s.len(),
{
    if s.len() == 0 {
        0
    } else {
        digit_bytes_value(s.drop_last()) * 10 + (s.last() - 48) as nat
    }
}

/// Parses a `u8` in decimal.
///
/// Trusted: calls `lexical_core::parse::<u8>`, whose standard format (read
/// in lexical-parse-integer's `algorithm.rs`) takes an optional `+` sign and
/// then decimal digits only, refusing an empty number and any value that
/// does not fit.
#[verifier::external_body]
fn lexical_u8(bytes: &[u8]) -> (res: Option<u8>)
    ensures
        res == spec_lexical_u8(bytes@),
{
    lexical_core::parse::<u8>(bytes).ok()
}

/// `u8::is_ascii_whitespace`: space, tab, line feed, form feed, carriage
/// return.
pub open spec fn ascii_ws(b: u8) -> bool {
    b == 32 || b == 9 || b == 10 || b == 12 || b == 13
}

/// `s` without leading ASCII whitespace.
pub open spec fn trim_ascii_start(s: Seq<u8>) -> Seq<u8>
    decreases s.len(),
{
    if s.len() > 0 && ascii_ws(s[0]) {
        trim_ascii_start(s.drop_first())
    } else {
        s
    }
}

/// `s` without trailing ASCII whitespace.
pub open spec fn trim_ascii_end(s: Seq<u8>) -> Seq<u8>
    decreases s.len(),
{
    if s.len() > 0 && ascii_ws(s.last()) {
        trim_ascii_end(s.drop_last())
    } else {
        s
    }
}

/// `s` holds exactly the ASCII characters of `lit`.
pub open spec fn bytes_are(s: Seq<u8>, lit: Seq<char>) -> bool {
    s.len() == lit.len() && forall|i: int| 0 <= i < s.len() ==> s[i] as u32 == #[trigger] lit[i] as u32
}

/// `s` starts with the ASCII characters of `lit`.
pub open spec fn starts_with_ascii(s: Seq<u8>, lit: Seq<char>) -> bool {
    lit.len() <= s.len() && bytes_are(s.subrange(0, lit.len() as int), lit)
}

/// The metadata of one device.
pub struct Metadata {
    pub device_id: u8,
    /// The text of the sample rate: a number and a unit.
    pub sample_rate: Option<Vec<u8>>,
    pub capturefile: Vec<u8>,
    pub digital_channels: BTreeMap<u8, String>,
    pub analog_channels: BTreeMap<u8, String>,
    pub unitsize: u8,
}

/// The content of a `Metadata`.
#[verifier::ext_equal]
pub struct MetadataView {
    pub device_id: u8,
    pub sample_rate: Option<Seq<u8>>,
    pub capturefile: Seq<u8>,
    pub digital_channels: Map<u8, Seq<char>>,
    pub analog_channels: Map<u8, Seq<char>>,
    pub unitsize: u8,
}

/// Channel names by their characters.
pub open spec fn names_view(m: BTreeMap<u8, String>) -> Map<u8, Seq<char>> {
    m@.map_values(|s: String| s@)
}

impl View for Metadata {
    type V = MetadataView;

    open spec fn view(&self) -> MetadataView {
        MetadataView {
            device_id: self.device_id,
            sample_rate: match self.sample_rate {
                Some(r) => Some(r@),
                None => None,
            },
            capturefile: self.capturefile@,
            digital_channels: names_view(self.digital_channels),
            analog_channels: names_view(self.analog_channels),
            unitsize: self.unitsize,
        }
    }
}

/// A device that a `[device N]` header starts.
pub open spec fn new_device(id: u8) -> MetadataView {
    MetadataView {
        device_id: id,
        sample_rate: None,
        capturefile: Seq::empty(),
        digital_channels: Map::empty(),
        analog_channels: Map::empty(),
        unitsize: 0,
    }
}

/// The power of ten of the unit that follows a number of `number_len`
/// bytes in a sample rate value: after optional spaces, `GHz`, `MHz`, `kHz`
/// or `Hz`.
pub open spec fn spec_samplerate_unit(value: Seq<u8>, number_len: int) -> Option<u8> {
    let unit = trim_ascii_start(value.subrange(number_len, value.len() as int));
    if bytes_are(unit, "GHz"@) {
        Some(9u8)
    } else if bytes_are(unit, "MHz"@) {
        Some(6u8)
    } else if bytes_are(unit, "kHz"@) {
        Some(3u8)
    } else if bytes_are(unit, "Hz"@) {
        Some(0u8)
    } else {
        None
    }
}

/// The index of the first `b` in `s`, if any.
pub open spec fn first_index(s: Seq<u8>, b: u8) -> Option<int> {
    if exists|i: int| 0 <= i < s.len() && s[i] == b {
        Some(choose|i: int| 0 <= i < s.len() && s[i] == b && forall|j: int| 0 <= j < i ==> s[j] != b)
    } else {
        None
    }
}

/// The parsing state: the devices done, and the one being read.
pub type ParseState = (Seq<MetadataView>, Option<MetadataView>);

/// `"invalid `KEY` value `VALUE`"`.
pub open spec fn invalid_value(key: Seq<char>, value: Seq<u8>) -> Seq<char> {
    "invalid `"@ + key + "` value `"@ + utf8_lossy(value) + "`"@
}

/// The length of the number that a sample rate value starts with, as the
/// floating-point reader of the caller finds it; `None` when none starts it.
pub type NumberLen = spec_fn(Seq<u8>) -> Option<usize>;

/// `f` gives, on every value, what `number` says of its bytes.
pub open spec fn agrees<F: Fn(&[u8]) -> Option<usize>>(f: F, number: NumberLen) -> bool {
    forall|v: &[u8], r: Option<usize>| #[trigger] call_ensures(f, (v,), r) ==> r == number(v@)
}

/// A sample rate value is a number followed by a unit that
/// `spec_samplerate_unit` knows.
pub open spec fn spec_rate_ok(value: Seq<u8>, number: NumberLen) -> bool {
    number(value) matches Some(n) && n <= value.len() && spec_samplerate_unit(value, n as int) is Some
}

/// A `KEY=VALUE` line applied to the device being read.
pub open spec fn spec_assign(d: MetadataView, key: Seq<u8>, value: Seq<u8>, number: NumberLen) -> Result<
    MetadataView,
    Seq<char>,
> {
    if bytes_are(key, "samplerate"@) {
        if spec_rate_ok(value, number) {
            Ok(MetadataView { sample_rate: Some(value), ..d })
        } else {
            Err(invalid_value("samplerate"@, value))
        }
    } else if bytes_are(key, "unitsize"@) {
        match spec_lexical_u8(value) {
            Some(u) => Ok(MetadataView { unitsize: u, ..d }),
            None => Err(invalid_value("unitsize"@, value)),
        }
    } else if bytes_are(key, "capturefile"@) {
        Ok(MetadataView { capturefile: value, ..d })
    } else if starts_with_ascii(key, "probe"@) && spec_lexical_u8(key.subrange(5, key.len() as int))
        is Some {
        let ch = spec_lexical_u8(key.subrange(5, key.len() as int))->0;
        Ok(MetadataView { digital_channels: d.digital_channels.insert(ch, utf8_lossy(value)), ..d })
    } else if starts_with_ascii(key, "analog"@) && spec_lexical_u8(
        key.subrange(6, key.len() as int),
    ) is Some {
        let ch = spec_lexical_u8(key.subrange(6, key.len() as int))->0;
        Ok(MetadataView { analog_channels: d.analog_channels.insert(ch, utf8_lossy(value)), ..d })
    } else {
        Ok(d)
    }
}

/// A `[section]` line: at least two bytes, in brackets.
pub open spec fn is_section(l: Seq<u8>) -> bool {
    l.len() >= 2 && l[0] == 91 && l.last() == 93
}

/// A `[section]` line closes the device being read, and opens a new one if
/// it is `[device N]`.
pub open spec fn spec_section(st: ParseState, l: Seq<u8>) -> ParseState {
    let header = l.subrange(1, l.len() - 1);
    let done = match st.1 {
        Some(d) => st.0.push(d),
        None => st.0,
    };
    let next = if starts_with_ascii(header, "device "@) && spec_lexical_u8(
        header.subrange(7, header.len() as int),
    ) is Some {
        Some(new_device(spec_lexical_u8(header.subrange(7, header.len() as int))->0))
    } else {
        None
    };
    (done, next)
}

/// Any other line: a `KEY=VALUE` line sets a property of the device being
/// read; lines without `=`, or outside a device, change nothing.
pub open spec fn spec_other_line(dev: Option<MetadataView>, l: Seq<u8>, number: NumberLen) -> Result<
    Option<MetadataView>,
    Seq<char>,
> {
    match first_index(l, 61) {
        None => Ok(dev),
        Some(sep) => {
            let key = trim_ascii_end(l.subrange(0, sep));
            let value = trim_ascii_start(l.subrange(sep + 1, l.len() as int));
            match dev {
                None => Ok(dev),
                Some(d) => match spec_assign(d, key, value, number) {
                    Ok(d2) => Ok(Some(d2)),
                    Err(e) => Err(e),
                },
            }
        },
    }
}

/// One line of metadata, trimmed of ASCII whitespace, applied to the state.
pub open spec fn spec_line(st: ParseState, line: Seq<u8>, number: NumberLen) -> Result<ParseState, Seq<char>> {
    let l = trim_ascii_end(trim_ascii_start(line));
    if is_section(l) {
        Ok(spec_section(st, l))
    } else {
        match spec_other_line(st.1, l, number) {
            Ok(d) => Ok((st.0, d)),
            Err(e) => Err(e),
        }
    }
}

/// The lines applied in turn from the empty state; the first error stops.
pub open spec fn spec_lines(lines: Seq<Seq<u8>>, number: NumberLen) -> Result<ParseState, Seq<char>>
    decreases lines.len(),
{
    if lines.len() == 0 {
        Ok((Seq::empty(), None))
    } else {
        match spec_lines(lines.drop_last(), number) {
            Ok(st) => spec_line(st, lines.last(), number),
            Err(e) => Err(e),
        }
    }
}

/// The devices described by the metadata text `data`, split into lines at
/// line feeds, where `number` reads the number of each sample rate.
pub open spec fn spec_parse_metadata(data: Seq<u8>, number: NumberLen) -> Result<Seq<MetadataView>, Seq<char>> {
    match spec_lines(split_on(data, 10u8), number) {
        Ok(st) => Ok(
            match st.1 {
                Some(d) => st.0.push(d),
                None => st.0,
            },
        ),
        Err(e) => Err(e),
    }
}

proof fn lemma_lines_error_stays(lines: Seq<Seq<u8>>, k: int, number: NumberLen)
    requires
        0 <= k <= lines.len(),
        spec_lines(lines.subrange(0, k), number) is Err,
    ensures
        spec_lines(lines, number) == spec_lines(lines.subrange(0, k), number),
    decreases lines.len() - k,
{
    if k < lines.len() {
        assert(lines.subrange(0, k + 1).drop_last() =~= lines.subrange(0, k));
        lemma_lines_error_stays(lines, k + 1, number);
    } else {
        assert(lines.subrange(0, k) =~= lines);
    }
}

/// The first index at or after `lo` and before `hi` that holds no ASCII
/// whitespace, or `hi`.
fn skip_ascii_ws(s: &[u8], lo: usize, hi: usize) -> (res: usize)
    requires
        lo <= hi <= s@.len(),
    ensures
        lo <= res <= hi,
        s@.subrange(res as int, hi as int) == trim_ascii_start(s@.subrange(lo as int, hi as int)),
{
    let mut a = lo;
    while a < hi && (s[a] == 32 || s[a] == 9 || s[a] == 10 || s[a] == 12 || s[a] == 13)
        invariant
            lo <= a <= hi <= s@.len(),
            trim_ascii_start(s@.subrange(lo as int, hi as int)) == trim_ascii_start(
                s@.subrange(a as int, hi as int),
            ),
        decreases hi - a,
    {
        assert(s@.subrange(a as int, hi as int).drop_first() =~= s@.subrange(a + 1, hi as int));
        a = a + 1;
    }
    a
}

/// The index after the last byte before `hi` and at or after `lo` that is
/// not ASCII whitespace, or `lo`.
fn back_ascii_ws(s: &[u8], lo: usize, hi: usize) -> (res: usize)
    requires
        lo <= hi <= s@.len(),
    ensures
        lo <= res <= hi,
        s@.subrange(lo as int, res as int) == trim_ascii_end(s@.subrange(lo as int, hi as int)),
{
    let mut b = hi;
    while b > lo && (s[b - 1] == 32 || s[b - 1] == 9 || s[b - 1] == 10 || s[b - 1] == 12 || s[b
        - 1] == 13)
        invariant
            lo <= b <= hi <= s@.len(),
            trim_ascii_end(s@.subrange(lo as int, hi as int)) == trim_ascii_end(
                s@.subrange(lo as int, b as int),
            ),
        decreases b,
    {
        assert(s@.subrange(lo as int, b as int).drop_last() =~= s@.subrange(lo as int, b - 1));
        b = b - 1;
    }
    b
}

/// `s[lo..hi]` holds exactly the ASCII characters of `lit`.
fn range_is(s: &[u8], lo: usize, hi: usize, lit: &str) -> (res: bool)
    requires
        lo <= hi <= s@.len(),
    ensures
        res == bytes_are(s@.subrange(lo as int, hi as int), lit@),
{
    let c = chars_of(lit);
    if hi - lo != c.len() {
        return false;
    }
    let mut i: usize = 0;
    while i < c.len()
        invariant
            lo <= hi <= s@.len(),
            hi - lo == c@.len(),
            c@ == lit@,
            i <= c@.len(),
            forall|j: int| 0 <= j < i ==> s@[lo + j] as u32 == lit@[j] as u32,
        decreases c@.len() - i,
    {
        if s[lo + i] as u32 != c[i] as u32 {
            assert(s@.subrange(lo as int, hi as int)[i as int] == s@[lo + i]);
            return false;
        }
        i = i + 1;
    }
    assert forall|j: int| 0 <= j < hi - lo implies s@.subrange(lo as int, hi as int)[j] as u32
        == #[trigger] lit@[j] as u32 by {
        assert(s@.subrange(lo as int, hi as int)[j] == s@[lo + j]);
    }
    true
}

/// `s[lo..hi]` starts with the ASCII characters of `lit`.
fn range_starts_with(s: &[u8], lo: usize, hi: usize, lit: &str) -> (res: bool)
    requires
        lo <= hi <= s@.len(),
    ensures
        res == starts_with_ascii(s@.subrange(lo as int, hi as int), lit@),
{
    let n = chars_of(lit).len();
    if n > hi - lo {
        return false;
    }
    let r = range_is(s, lo, lo + n, lit);
    assert(s@.subrange(lo as int, hi as int).subrange(0, n as int) =~= s@.subrange(
        lo as int,
        lo + n,
    ));
    r
}

/// The power of ten of the unit of a sample rate value whose number is
/// `number_len` bytes long (as `lexical_core::parse_partial` reads it).
pub fn samplerate_unit(value: &[u8], number_len: usize) -> (res: Option<u8>)
    requires
        number_len <= value@.len(),
    ensures
        res == spec_samplerate_unit(value@, number_len as int),
{
    let n = value.len();
    let u = skip_ascii_ws(value, number_len, n);
    if range_is(value, u, n, "GHz") {
        Some(9)
    } else if range_is(value, u, n, "MHz") {
        Some(6)
    } else if range_is(value, u, n, "kHz") {
        Some(3)
    } else if range_is(value, u, n, "Hz") {
        Some(0)
    } else {
        None
    }
}

/// `"invalid `KEY` value `VALUE`"`.
fn invalid_value_error(key: &str, value: &[u8]) -> (res: ImportError)
    ensures
        res matches ImportError::InvalidFile(m) && m@ == invalid_value(key@, value@),
{
    let mut m = owned("invalid `");
    m.append(key);
    m.append("` value `");
    let v = lossy_string(value);
    m.append(v.as_str());
    m.append("`");
    ImportError::InvalidFile(m)
}

/// Applies the `KEY=VALUE` line with the key in `line[k0..k1]` and the value
/// in `line[v0..v1]` to the device `d`.
fn assign<F: Fn(&[u8]) -> Option<usize>>(
    d: &mut Metadata,
    line: &[u8],
    k0: usize,
    k1: usize,
    v0: usize,
    v1: usize,
    number: &F,
) -> (res: Result<(), ImportError>)
    requires
        k0 <= k1 <= line@.len(),
        v0 <= v1 <= line@.len(),
        forall|v: &[u8]| call_requires(*number, (v,)),
    ensures
        forall|p: NumberLen|
            agrees(*number, p) ==> match spec_assign(
                old(d)@,
                line@.subrange(k0 as int, k1 as int),
                line@.subrange(v0 as int, v1 as int),
                p,
            ) {
                Ok(d2) => res is Ok && final(d)@ == d2,
                Err(e) => res matches Err(ImportError::InvalidFile(m)) && m@ == e,
            },
{
    let ghost key = line@.subrange(k0 as int, k1 as int);
    let value = &line[v0..v1];
    assert(value@ =~= line@.subrange(v0 as int, v1 as int));
    if range_is(line, k0, k1, "samplerate") {
        let n = number(value);
        assert forall|p: NumberLen| agrees(*number, p) implies p(value@) == n by {
            assert(call_ensures(*number, (value,), n));
        }
        let ok = match n {
            Some(k) => k <= value.len() && samplerate_unit(value, k).is_some(),
            None => false,
        };
        if ok {
            d.sample_rate = Some(vstd::slice::slice_to_vec(value));
            Ok(())
        } else {
            Err(invalid_value_error("samplerate", value))
        }
    } else if range_is(line, k0, k1, "unitsize") {
        match lexical_u8(value) {
            Some(u) => {
                d.unitsize = u;
                Ok(())
            },
            None => Err(invalid_value_error("unitsize", value)),
        }
    } else if range_is(line, k0, k1, "capturefile") {
        d.capturefile = vstd::slice::slice_to_vec(value);
        Ok(())
    } else {
        proof {
            reveal_strlit("probe");
            reveal_strlit("analog");
        }
        let probe = range_starts_with(line, k0, k1, "probe");
        let ch = if probe {
            assert(key.subrange(5, key.len() as int) =~= line@.subrange(k0 + 5, k1 as int));
            lexical_u8(&line[k0 + 5..k1])
        } else {
            None
        };
        if probe && ch.is_some() {
            let name = lossy_string(value);
            let ghost before = d.digital_channels@;
            d.digital_channels.insert(ch.unwrap(), name);
            assert(names_view(d.digital_channels) =~= old(d)@.digital_channels.insert(
                ch.unwrap(),
                utf8_lossy(value@),
            ));
            return Ok(());
        }
        let analog = range_starts_with(line, k0, k1, "analog");
        let ch = if analog {
            assert(key.subrange(6, key.len() as int) =~= line@.subrange(k0 + 6, k1 as int));
            lexical_u8(&line[k0 + 6..k1])
        } else {
            None
        };
        if analog && ch.is_some() {
            let name = lossy_string(value);
            d.analog_channels.insert(ch.unwrap(), name);
            assert(names_view(d.analog_channels) =~= old(d)@.analog_channels.insert(
                ch.unwrap(),
                utf8_lossy(value@),
            ));
            return Ok(());
        }
        Ok(())
    }
}

/// The views of the devices.
pub open spec fn devices_view(v: Seq<Metadata>) -> Seq<MetadataView> {
    v.map_values(|m: Metadata| m@)
}

/// The view of the device being read.
pub open spec fn device_view(d: Option<Metadata>) -> Option<MetadataView> {
    match d {
        Some(m) => Some(m@),
        None => None,
    }
}

/// Applies the section line `data[a..b]` to the parsing state.
fn apply_section(devices: &mut Vec<Metadata>, device: &mut Option<Metadata>, data: &[u8], a: usize, b: usize)
    requires
        a <= b <= data@.len(),
        is_section(data@.subrange(a as int, b as int)),
    ensures
        (devices_view(final(devices)@), device_view(*final(device))) == spec_section(
            (devices_view(old(devices)@), device_view(*old(device))),
            data@.subrange(a as int, b as int),
        ),
{
    let ghost l = data@.subrange(a as int, b as int);
    let old_device = device.take();
    match old_device {
        Some(d) => {
            devices.push(d);
        },
        None => {},
    }
    assert(devices_view(devices@) =~= match device_view(*old(device)) {
        Some(d) => devices_view(old(devices)@).push(d),
        None => devices_view(old(devices)@),
    });
    let h0 = a + 1;
    let h1 = b - 1;
    let ghost header = l.subrange(1, l.len() - 1);
    assert(header =~= data@.subrange(h0 as int, h1 as int));
    proof {
        reveal_strlit("device ");
    }
    if range_starts_with(data, h0, h1, "device ") {
        assert(header.subrange(7, header.len() as int) =~= data@.subrange(h0 + 7, h1 as int));
        match lexical_u8(vstd::slice::slice_subrange(data, h0 + 7, h1)) {
            Some(id) => {
                *device = Some(
                    Metadata {
                        device_id: id,
                        sample_rate: None,
                        capturefile: Vec::new(),
                        digital_channels: BTreeMap::new(),
                        analog_channels: BTreeMap::new(),
                        unitsize: 0,
                    },
                );
                assert(device_view(*device)->0 =~= new_device(id));
            },
            None => {},
        }
    }
}

/// The first `=` in `l` is at `k` when none comes before it.
proof fn lemma_first_index(l: Seq<u8>, k: int)
    requires
        0 <= k < l.len(),
        l[k] == 61,
        forall|j: int| 0 <= j < k ==> l[j] != 61,
    ensures
        first_index(l, 61) == Some(k),
{
    let c = choose|i: int| 0 <= i < l.len() && l[i] == 61 && forall|j: int| 0 <= j < i ==> l[j] != 61;
    assert(c == k) by {
        if c > k {
            assert(l[k] == 61);
        }
    }
}

/// Applies the line `data[a..b]`, which is not a section line, to the
/// device being read.
#[verifier::spinoff_prover]
#[verifier::rlimit(40)]
fn apply_other_line<F: Fn(&[u8]) -> Option<usize>>(
    device: &mut Option<Metadata>,
    data: &[u8],
    a: usize,
    b: usize,
    number: &F,
) -> (res: Result<(), ImportError>)
    requires
        a <= b <= data@.len(),
        forall|v: &[u8]| call_requires(*number, (v,)),
    ensures
        forall|p: NumberLen|
            agrees(*number, p) ==> match spec_other_line(
                device_view(*old(device)),
                data@.subrange(a as int, b as int),
                p,
            ) {
                Ok(d) => res is Ok && device_view(*final(device)) == d,
                Err(e) => res matches Err(ImportError::InvalidFile(m)) && m@ == e,
            },
{
    let ghost l = data@.subrange(a as int, b as int);
    let mut sep = a;
    while sep < b && data[sep] != 61
        invariant
            a <= sep <= b <= data@.len(),
            forall|j: int| a <= j < sep ==> data@[j] != 61,
        decreases b - sep,
    {
        sep = sep + 1;
    }
    if sep == b {
        assert(first_index(l, 61) is None) by {
            assert forall|i: int| 0 <= i < l.len() implies l[i] != 61 by {
                assert(l[i] == data@[a + i]);
            }
        }
        return Ok(());
    }
    proof {
        assert forall|j: int| 0 <= j < sep - a implies l[j] != 61 by {
            assert(l[j] == data@[a + j]);
        }
        lemma_first_index(l, (sep - a) as int);
    }
    let k1 = back_ascii_ws(data, a, sep);
    let v0 = skip_ascii_ws(data, sep + 1, b);
    assert(l.subrange(0, (sep - a) as int) =~= data@.subrange(a as int, sep as int));
    assert(l.subrange((sep - a) + 1, l.len() as int) =~= data@.subrange(sep + 1, b as int));
    match device {
        None => Ok(()),
        Some(d) => assign(d, data, a, k1, v0, b, number),
    }
}

/// Applies the line `data[lo..hi]` to the parsing state.
fn apply_line<F: Fn(&[u8]) -> Option<usize>>(
    devices: &mut Vec<Metadata>,
    device: &mut Option<Metadata>,
    data: &[u8],
    lo: usize,
    hi: usize,
    number: &F,
) -> (res: Result<(), ImportError>)
    requires
        lo <= hi <= data@.len(),
        forall|v: &[u8]| call_requires(*number, (v,)),
    ensures
        forall|p: NumberLen|
            agrees(*number, p) ==> match spec_line(
                (devices_view(old(devices)@), device_view(*old(device))),
                data@.subrange(lo as int, hi as int),
                p,
            ) {
                Ok(st) => res is Ok && devices_view(final(devices)@) == st.0 && device_view(
                    *final(device),
                ) == st.1,
                Err(e) => res matches Err(ImportError::InvalidFile(m)) && m@ == e,
            },
{
    let ghost line = data@.subrange(lo as int, hi as int);
    let a = skip_ascii_ws(data, lo, hi);
    let b = back_ascii_ws(data, a, hi);
    let ghost l = trim_ascii_end(trim_ascii_start(line));
    assert(data@.subrange(a as int, b as int) == l);
    if b - a >= 2 && data[a] == 91 && data[b - 1] == 93 {
        assert(l[0] == data@[a as int] && l.last() == data@[b - 1]);
        apply_section(devices, device, data, a, b);
        Ok(())
    } else {
        assert(!is_section(l)) by {
            if l.len() >= 2 {
                assert(l[0] == data@[a as int] && l.last() == data@[b - 1]);
            }
        }
        apply_other_line(device, data, a, b, number)
    }
}

/// Reads the metadata text of a sigrok session file: the devices it
/// describes, in order. `number` gives the length of the number that a
/// `samplerate` value starts with; a value that is not such a number and a
/// known unit fails at its line.
pub fn parse_metadata<F: Fn(&[u8]) -> Option<usize>>(data: &[u8], number: F) -> (res: Result<
    Vec<Metadata>,
    ImportError,
>)
    requires
        forall|v: &[u8]| call_requires(number, (v,)),
    ensures
        forall|p: NumberLen|
            agrees(number, p) ==> match spec_parse_metadata(data@, p) {
                Ok(devs) => res matches Ok(v) && devices_view(v@) == devs,
                Err(e) => res matches Err(ImportError::InvalidFile(m)) && m@ == e,
            },
{
    let mut devices: Vec<Metadata> = Vec::new();
    let mut device: Option<Metadata> = None;
    let n = data.len();
    let mut start: usize = 0;
    let mut i: usize = 0;
    let ghost mut done: Seq<Seq<u8>> = Seq::empty();
    assert(data@.subrange(0, 0) =~= Seq::<u8>::empty());
    assert(split_on(data@.subrange(0, 0), 10u8) =~= done.push(data@.subrange(0, 0)));
    assert(devices_view(devices@) =~= Seq::<MetadataView>::empty());
    while i < n
        invariant
            start <= i <= n,
            n == data@.len(),
            split_on(data@.subrange(0, i as int), 10u8) == done.push(
                data@.subrange(start as int, i as int),
            ),
            forall|v: &[u8]| call_requires(number, (v,)),
            forall|p: NumberLen|
                agrees(number, p) ==> spec_lines(done, p) == Ok::<ParseState, Seq<char>>(
                    (devices_view(devices@), device_view(device)),
                ),
        decreases n - i,
    {
        let ghost prefix = data@.subrange(0, i + 1);
        assert(prefix.drop_last() =~= data@.subrange(0, i as int));
        assert(prefix.last() == data@[i as int]);
        if data[i] == 10 {
            let ghost line = data@.subrange(start as int, i as int);
            let ghost st0: ParseState = (devices_view(devices@), device_view(device));
            let r = apply_line(&mut devices, &mut device, data, start, i, &number);
            proof {
                assert(done.push(line).drop_last() =~= done);
                assert(done.push(line).last() == line);
            }
            match r {
                Ok(()) => {
                    assert forall|p: NumberLen| agrees(number, p) implies spec_lines(done.push(line), p)
                        == Ok::<ParseState, Seq<char>>(
                        (devices_view(devices@), device_view(device)),
                    ) by {
                        assert(spec_lines(done, p) == Ok::<ParseState, Seq<char>>(st0));
                        assert(spec_lines(done.push(line), p) == spec_line(st0, line, p));
                    }
                },
                Err(e) => {
                    proof {
                        let lines = split_on(data@, 10u8);
                        lemma_split_prefix(data@, i + 1, done.push(line));
                        assert forall|p: NumberLen| agrees(number, p) implies match spec_parse_metadata(
                            data@,
                            p,
                        ) {
                            Ok(devs) => false,
                            Err(m) => m == e->InvalidFile_0@,
                        } by {
                            assert(spec_lines(done, p) == Ok::<ParseState, Seq<char>>(st0));
                            assert(spec_lines(done.push(line), p) == spec_line(st0, line, p));
                            assert(lines.subrange(0, done.len() + 1 as int) == done.push(line));
                            lemma_lines_error_stays(lines, done.len() as int + 1, p);
                        }
                    }
                    return Err(e);
                },
            }
            proof {
                done = done.push(line);
            }
            start = i + 1;
            assert(data@.subrange(start as int, i + 1) =~= Seq::<u8>::empty());
            assert(split_on(prefix, 10u8) =~= done.push(data@.subrange(start as int, i + 1)));
        } else {
            assert(data@.subrange(start as int, i + 1) =~= data@.subrange(start as int, i as int).push(
                data@[i as int],
            ));
            assert(split_on(prefix, 10u8) =~= done.push(data@.subrange(start as int, i + 1)));
        }
        i = i + 1;
    }
    let ghost line = data@.subrange(start as int, n as int);
    assert(data@.subrange(0, n as int) =~= data@);
    assert(split_on(data@, 10u8) =~= done.push(line));
    assert(done.push(line).drop_last() =~= done);
    assert(done.push(line).last() == line);
    let ghost st0: ParseState = (devices_view(devices@), device_view(device));
    match apply_line(&mut devices, &mut device, data, start, n, &number) {
        Ok(()) => {},
        Err(e) => {
            assert forall|p: NumberLen| agrees(number, p) implies match spec_parse_metadata(data@, p) {
                Ok(devs) => false,
                Err(m) => m == e->InvalidFile_0@,
            } by {
                assert(spec_lines(done, p) == Ok::<ParseState, Seq<char>>(st0));
                assert(spec_lines(done.push(line), p) == spec_line(st0, line, p));
            }
            return Err(e);
        },
    }
    let ghost st1: ParseState = (devices_view(devices@), device_view(device));
    assert forall|p: NumberLen| agrees(number, p) implies spec_lines(split_on(data@, 10u8), p)
        == Ok::<ParseState, Seq<char>>(st1) by {
        assert(spec_lines(done, p) == Ok::<ParseState, Seq<char>>(st0));
        assert(spec_lines(done.push(line), p) == spec_line(st0, line, p));
    }
    match device {
        Some(d) => {
            devices.push(d);
        },
        None => {},
    }
    assert forall|p: NumberLen| agrees(number, p) implies spec_parse_metadata(data@, p) == Ok::<
        Seq<MetadataView>,
        Seq<char>,
    >(devices_view(devices@)) by {
        let st = st1;
        assert(devices_view(devices@) =~= match st.1 {
            Some(d) => st.0.push(d),
            None => st.0,
        });
    }
    Ok(devices)
}

/// The lines split off before a line feed at `k - 1` are a prefix of all the
/// lines.
proof fn lemma_split_prefix(data: Seq<u8>, k: int, done: Seq<Seq<u8>>)
    requires
        0 < k <= data.len(),
        data[k - 1] == 10,
        split_on(data.subrange(0, k), 10u8) == done.push(Seq::empty()),
    ensures
        split_on(data, 10u8).len() >= done.len(),
        split_on(data, 10u8).subrange(0, done.len() as int) == done,
    decreases data.len() - k,
{
    if k < data.len() {
        let d2 = data.subrange(0, data.len() - 1);
        assert(d2.subrange(0, k) =~= data.subrange(0, k));
        assert(d2[k - 1] == 10);
        lemma_split_prefix(d2, k, done);
        assert(data.drop_last() =~= d2);
        crate::text::lemma_split_on_nonempty(d2, 10u8);
        let p = split_on(d2, 10u8);
        if data.last() == 10 {
            assert(split_on(data, 10u8).subrange(0, done.len() as int) =~= p.subrange(0, done.len() as int));
        } else {
            lemma_split_last_grows(d2, k, done);
            assert(split_on(data, 10u8).subrange(0, done.len() as int) =~= p.subrange(0, done.len() as int));
        }
    } else {
        assert(data.subrange(0, k) =~= data);
        assert(split_on(data, 10u8).subrange(0, done.len() as int) =~= done);
    }
}

/// Past a line feed, the split has more pieces than the lines before it.
proof fn lemma_split_last_grows(d: Seq<u8>, k: int, done: Seq<Seq<u8>>)
    requires
        0 < k <= d.len(),
        split_on(d, 10u8).len() >= done.len(),
        split_on(d, 10u8).subrange(0, done.len() as int) == done,
        split_on(d.subrange(0, k), 10u8) == done.push(Seq::empty()),
    ensures
        split_on(d, 10u8).len() > done.len(),
    decreases d.len() - k,
{
    lemma_split_len_grows(d, k);
}

/// Splitting a longer prefix never gives fewer pieces.
proof fn lemma_split_len_grows(d: Seq<u8>, k: int)
    requires
        0 <= k <= d.len(),
    ensures
        split_on(d, 10u8).len() >= split_on(d.subrange(0, k), 10u8).len(),
    decreases d.len() - k,
{
    if k < d.len() {
        let d2 = d.drop_last();
        assert(d2.subrange(0, k) =~= d.subrange(0, k));
        lemma_split_len_grows(d2, k);
        crate::text::lemma_split_on_nonempty(d2, 10u8);
    } else {
        assert(d.subrange(0, k) =~= d);
    }
}

/// The names of the channels with ids below `k`, in order of id.
pub open spec fn channel_names(m: Map<u8, Seq<char>>, k: nat) -> Seq<Seq<char>>
    decreases k,
{
    if k == 0 {
        Seq::empty()
    } else {
        let p = channel_names(m, (k - 1) as nat);
        if m.contains_key((k - 1) as u8) {
            p.push(m[(k - 1) as u8])
        } else {
            p
        }
    }
}

/// A node with no children.
pub open spec fn leaf_view(name: Seq<char>, kind: Seq<char>, filled: bool) -> InfoView {
    InfoView { name, kind, filled, children: Seq::empty() }
}

/// Leaves of the given names and kind added in turn, keyed by name.
pub open spec fn add_leaves(acc: Seq<InfoView>, names: Seq<Seq<char>>, kind: Seq<char>, filled: bool) -> Seq<InfoView>
    decreases names.len(),
{
    if names.len() == 0 {
        acc
    } else {
        add_child(add_leaves(acc, names.drop_last(), kind, filled), leaf_view(names.last(), kind, filled))
    }
}

/// The digital channels of a device, as a bit structure of one-bit fields.
pub open spec fn digital_view(name: Seq<char>, d: MetadataView) -> InfoView {
    InfoView {
        name,
        kind: "Bit Struct"@,
        filled: true,
        children: add_leaves(Seq::empty(), channel_names(d.digital_channels, 256), "Bits"@, false),
    }
}

/// A device: its digital channels alone when it has no analog channel, else
/// a group of the digital channels (if any) and one `Float32` entity per
/// analog channel.
pub open spec fn device_info(name: Seq<char>, d: MetadataView) -> InfoView {
    let analog = channel_names(d.analog_channels, 256);
    if analog.len() == 0 {
        digital_view(name, d)
    } else {
        let start = if channel_names(d.digital_channels, 256).len() > 0 {
            seq![digital_view("digital"@, d)]
        } else {
            Seq::empty()
        };
        InfoView { name, kind: "Group"@, filled: true, children: add_leaves(start, analog, "Float32"@, true) }
    }
}

/// The devices added in turn to a group, each named `deviceN` by its id.
pub open spec fn add_devices(devs: Seq<MetadataView>) -> Seq<InfoView>
    decreases devs.len(),
{
    if devs.len() == 0 {
        Seq::empty()
    } else {
        add_child(
            add_devices(devs.drop_last()),
            device_info("device"@ + dec_nat(devs.last().device_id as nat), devs.last()),
        )
    }
}

/// The entities of a session file named `root`: the one device itself, or
/// a group of the devices.
pub open spec fn describe_view(root: Seq<char>, devs: Seq<MetadataView>) -> InfoView {
    if devs.len() == 1 {
        device_info(root, devs[0])
    } else {
        InfoView { name: root, kind: "Group"@, filled: true, children: add_devices(devs) }
    }
}

/// The names of the channels of `m`, in order of id.
fn channel_name_list(m: &BTreeMap<u8, String>) -> (res: Vec<String>)
    ensures
        res@.len() == channel_names(names_view(*m), 256).len(),
        forall|i: int| 0 <= i < res@.len() ==> #[trigger] res@[i]@ == channel_names(names_view(*m), 256)[i],
{
    let mut out: Vec<String> = Vec::new();
    let mut k: u16 = 0;
    while k < 256
        invariant
            k <= 256,
            out@.len() == channel_names(names_view(*m), k as nat).len(),
            forall|i: int| 0 <= i < out@.len() ==> #[trigger] out@[i]@ == channel_names(names_view(*m), k as nat)[i],
        decreases 256 - k,
    {
        let key = k as u8;
        assert(((k + 1 - 1) as nat) as u8 == key);
        match m.get(&key) {
            Some(name) => {
                out.push(name.clone());
            },
            None => {},
        }
        k = k + 1;
    }
    out
}

/// Leaves of the given names and kind added in turn to `acc`.
fn push_leaves(acc: &mut Vec<InfoNode>, names: &Vec<String>, kind: &str, filled: bool)
    requires
        names_distinct(nodes_view(old(acc)@)),
    ensures
        names_distinct(nodes_view(final(acc)@)),
        nodes_view(final(acc)@) == add_leaves(
            nodes_view(old(acc)@),
            names@.map_values(|s: String| s@),
            kind@,
            filled,
        ),
{
    let ghost start = nodes_view(acc@);
    let mut i: usize = 0;
    while i < names.len()
        invariant
            i <= names@.len(),
            names_distinct(nodes_view(acc@)),
            nodes_view(acc@) == add_leaves(start, names@.subrange(0, i as int).map_values(|s: String| s@), kind@, filled),
        decreases names@.len() - i,
    {
        let ghost before = names@.subrange(0, i as int).map_values(|s: String| s@);
        let ghost after = names@.subrange(0, i + 1).map_values(|s: String| s@);
        assert(after.drop_last() =~= before);
        let leaf = InfoNode { name: names[i].clone(), kind: String::from_str(kind), filled, children: Vec::new() };
        assert(nodes_view(leaf.children@) =~= Seq::<InfoView>::empty());
        assert(node_view(leaf) == leaf_view(after.last(), kind@, filled));
        push_child(acc, leaf);
        i = i + 1;
    }
    assert(names@.subrange(0, i as int) =~= names@);
}

/// The digital channels of `d`, as a bit structure named `name`.
fn digital_node(name: String, d: &Metadata) -> (res: InfoNode)
    ensures
        node_view(res) == digital_view(name@, d@),
{
    let names = channel_name_list(&d.digital_channels);
    assert(names@.map_values(|s: String| s@) =~= channel_names(d@.digital_channels, 256));
    let mut children: Vec<InfoNode> = Vec::new();
    assert(nodes_view(children@) =~= Seq::<InfoView>::empty());
    push_leaves(&mut children, &names, "Bits", false);
    InfoNode { name, kind: owned("Bit Struct"), filled: true, children }
}

/// A device named `name`: its digital channels alone when it has no analog
/// channel, else a group of them and its analog channels.
fn device_node(name: String, d: &Metadata) -> (res: InfoNode)
    ensures
        node_view(res) == device_info(name@, d@),
{
    let analog = channel_name_list(&d.analog_channels);
    assert(analog@.map_values(|s: String| s@) =~= channel_names(d@.analog_channels, 256));
    if analog.len() == 0 {
        return digital_node(name, d);
    }
    let digital = channel_name_list(&d.digital_channels);
    let mut children: Vec<InfoNode> = Vec::new();
    assert(nodes_view(children@) =~= Seq::<InfoView>::empty());
    if digital.len() > 0 {
        let dn = digital_node(owned("digital"), d);
        children.push(dn);
        assert(children@.drop_last() =~= Seq::<InfoNode>::empty());
        assert(nodes_view(children@.drop_last()) =~= Seq::<InfoView>::empty());
        assert(nodes_view(children@) =~= seq![digital_view("digital"@, d@)]);
    }
    push_leaves(&mut children, &analog, "Float32", true);
    InfoNode { name, kind: owned("Group"), filled: true, children }
}

/// Describes the devices of a session file named `root`: the one device
/// itself, or a group of the devices named `deviceN` by their ids.
pub fn describe_devices(devices: &[Metadata], root: &str) -> (res: InfoNode)
    ensures
        node_view(res) == describe_view(root@, devices_view(devices@)),
{
    if devices.len() == 1 {
        return device_node(String::from_str(root), &devices[0]);
    }
    let mut children: Vec<InfoNode> = Vec::new();
    assert(nodes_view(children@) =~= Seq::<InfoView>::empty());
    let mut i: usize = 0;
    while i < devices.len()
        invariant
            i <= devices@.len(),
            names_distinct(nodes_view(children@)),
            nodes_view(children@) == add_devices(devices_view(devices@.subrange(0, i as int))),
        decreases devices@.len() - i,
    {
        let ghost before = devices_view(devices@.subrange(0, i as int));
        let ghost after = devices_view(devices@.subrange(0, i + 1));
        assert(after.drop_last() =~= before);
        let mut name = owned("device");
        crate::text::push_decimal(&mut name, devices[i].device_id as u128);
        let node = device_node(name, &devices[i]);
        push_child(&mut children, node);
        i = i + 1;
    }
    assert(devices@.subrange(0, i as int) =~= devices@);
    InfoNode { name: String::from_str(root), kind: owned("Group"), filled: true, children }
}

/// The content of the session file's entry `name`, or the error of a
/// session file that lacks it: "missing `NAME` file in srzip".
pub fn require_entry(content: Option<Vec<u8>>, name: &str) -> (res: Result<Vec<u8>, ImportError>)
    ensures
        match content {
            Some(c) => res matches Ok(v) && v@ == c@,
            None => res matches Err(ImportError::InvalidFile(m)) && m@ == "missing `"@ + name@
                + "` file in srzip"@,
        },
{
    match content {
        Some(c) => Ok(c),
        None => {
            let mut m = owned("missing `");
            crate::text::push_str(&mut m, name);
            crate::text::push_str(&mut m, "` file in srzip");
            Err(ImportError::InvalidFile(m))
        },
    }
}

/// `"unsupported srzip version `VERSION`"`.
pub open spec fn bad_version(version: Seq<u8>) -> Seq<char> {
    "unsupported srzip version `"@ + utf8_lossy(version) + "`"@
}

/// Checks the content of the `version` file: version 2, with any ASCII
/// whitespace around it.
pub fn check_version(version: &[u8]) -> (res: Result<(), ImportError>)
    ensures
        bytes_are(trim_ascii_end(trim_ascii_start(version@)), "2"@) ==> res is Ok,
        !bytes_are(trim_ascii_end(trim_ascii_start(version@)), "2"@) ==> (res matches Err(
            ImportError::InvalidFile(m),
        ) && m@ == bad_version(version@)),
{
    let n = version.len();
    let a = skip_ascii_ws(version, 0, n);
    let b = back_ascii_ws(version, a, n);
    assert(version@.subrange(0, n as int) =~= version@);
    if range_is(version, a, b, "2") {
        Ok(())
    } else {
        let mut m = owned("unsupported srzip version `");
        let v = lossy_string(version);
        m.append(v.as_str());
        m.append("`");
        Err(ImportError::InvalidFile(m))
    }
}

} // verus!
