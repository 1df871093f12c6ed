//! Parsing of option values given as text: single bytes, booleans and
//! values that may be switched off.
use vstd::prelude::*;
use vstd::string::StrSliceExecFns;
use vstd::string::StringSliceAdditionalSpecFns;
use vstd::utf8::encode_utf8;

verus! {

/// An option of a configurable object: the name passed to `set` and `get`,
/// and a human-readable description.
pub struct OptionDescription {
    pub name: &'static str,
    pub description: &'static str,
}

/// An object with options that can be listed, set from text, and read back
/// as text.
pub trait Configurable {
    /// The options that `set` and `get` take; none unless the type says.
    fn options(&self) -> (res: Vec<OptionDescription>)
        default_ensures
            res@.len() == 0,
    {
        Vec::new()
    }

    /// Sets an option from text. The option keys and allowed values depend
    /// on the type; no option is known unless the type says.
    fn set(&mut self, option: &str, value: &str) -> (res: Result<(), String>)
        default_ensures
            res matches Err(e) && e@ == "Unknown option"@,
    {
        Err(owned("Unknown option"))
    }

    /// The current value of an option as text; none unless the type says.
    fn get(&self, option: &str) -> (res: Option<String>)
        default_ensures
            res is None,
    {
        None
    }
}

/// A boxed configurable object has the options of what it holds.
impl<T: Configurable + ?Sized> Configurable for Box<T> {
    fn options(&self) -> (res: Vec<OptionDescription>) {
        (**self).options()
    }

    fn set(&mut self, option: &str, value: &str) -> (res: Result<(), String>) {
        (**self).set(option, value)
    }

    fn get(&self, option: &str) -> (res: Option<String>) {
        (**self).get(option)
    }
}

/// An owned string holding the one character `c`.
///
/// Trusted: calls `ToString::to_string` of std on a `char`, which std
/// documents as the string of that character.
#[verifier::external_body]
pub(crate) fn char_string(c: char) -> (res: String)
    ensures
        res@ == seq![c],
{
    c.to_string()
}

/// A result whose error message is taken by its characters.
pub open spec fn err_view<T>(r: Result<T, String>) -> Result<T, Seq<char>> {
    match r {
        Ok(v) => Ok(v),
        Err(e) => Err(e@),
    }
}

/// The characters of `s`, in a vector.
pub fn chars_of(s: &str) -> (res: Vec<char>)
    ensures
        res@ == s@,
{
    let n = s.unicode_len();
    let mut v: Vec<char> = Vec::new();
    let mut i: usize = 0;
    while i < n
        invariant
            i <= n,
            n == s@.len(),
            v@ == s@.subrange(0, i as int),
        decreases n - i,
    {
        let c = s.get_char(i);
        v.push(c);
        assert(s@.subrange(0, i + 1) =~= s@.subrange(0, i as int).push(c));
        i = i + 1;
    }
    assert(s@.subrange(0, n as int) =~= s@);
    v
}

/// True when the characters `a` are exactly those of `lit`.
pub fn chars_are(a: &[char], lit: &str) -> (res: bool)
    ensures
        res == (a@ == lit@),
{
    let b = chars_of(lit);
    if a.len() != b.len() {
        return false;
    }
    let mut i: usize = 0;
    while i < a.len()
        invariant
            i <= a@.len(),
            a@.len() == b@.len(),
            b@ == lit@,
            forall|j: int| 0 <= j < i ==> a@[j] == b@[j],
        decreases a@.len() - i,
    {
        if a[i] != b[i] {
            return false;
        }
        i = i + 1;
    }
    assert(a@ =~= b@);
    true
}

/// An owned copy of a literal.
pub fn owned(lit: &str) -> (res: String)
    ensures
        res@ == lit@,
{
    lit.to_owned()
}

/// The value of a hexadecimal digit character, if it is one.
pub open spec fn hex_digit(c: char) -> Option<u8> {
    if '0' <= c <= '9' {
        Some((c as u32 - '0' as u32) as u8)
    } else if 'a' <= c <= 'f' {
        Some((c as u32 - 'a' as u32 + 10) as u8)
    } else if 'A' <= c <= 'F' {
        Some((c as u32 - 'A' as u32 + 10) as u8)
    } else {
        None
    }
}

/// A two-character hexadecimal byte as `u8::from_str_radix(_, 16)` reads
/// it: two digits, or a `+` sign and one digit.
pub open spec fn hex_pair(a: char, b: char) -> Option<u8> {
    if a == '+' {
        hex_digit(b)
    } else {
        match (hex_digit(a), hex_digit(b)) {
            (Some(h), Some(l)) => Some((16 * h + l) as u8),
            _ => None,
        }
    }
}

/// Reading of a single-byte option value with characters `s`: the escapes
/// `\t`, `\n` and `\r`; `\x` and two hexadecimal digits (four bytes of
/// UTF-8 in all); or one byte standing for itself.
pub open spec fn spec_char_byte(s: Seq<char>) -> Result<u8, Seq<char>> {
    let bytes = encode_utf8(s);
    if s == "\\t"@ {
        Ok(9u8)
    } else if s == "\\n"@ {
        Ok(10u8)
    } else if s == "\\r"@ {
        Ok(13u8)
    } else if s.len() >= 2 && s[0] == '\\' && s[1] == 'x' && bytes.len() == 4 {
        if s.len() == 4 && hex_pair(s[2], s[3]) is Some {
            Ok(hex_pair(s[2], s[3])->0)
        } else {
            Err("Invalid hex byte value"@)
        }
    } else if bytes.len() == 1 {
        Ok(bytes[0])
    } else {
        Err("Invalid single-byte value"@)
    }
}

/// The value of a hexadecimal digit character.
fn hex_digit_value(c: char) -> (res: Option<u8>)
    ensures
        res == hex_digit(c),
{
    if '0' <= c && c <= '9' {
        Some((c as u32 - '0' as u32) as u8)
    } else if 'a' <= c && c <= 'f' {
        Some((c as u32 - 'a' as u32 + 10) as u8)
    } else if 'A' <= c && c <= 'F' {
        Some((c as u32 - 'A' as u32 + 10) as u8)
    } else {
        None
    }
}

/// Parses a single byte given as an escape (`\t`, `\n`, `\r`, `\xHH`) or as
/// one ASCII character.
pub fn parse_char_byte(value: &str) -> (res: Result<u8, String>)
    ensures
        err_view(res) == spec_char_byte(value@),
{
    let s = chars_of(value);
    let bytes = value.as_bytes();
    let nbytes = bytes.len();
    if chars_are(s.as_slice(), "\\t") {
        Ok(9u8)
    } else if chars_are(s.as_slice(), "\\n") {
        Ok(10u8)
    } else if chars_are(s.as_slice(), "\\r") {
        Ok(13u8)
    } else if s.len() >= 2 && s[0] == '\\' && s[1] == 'x' && nbytes == 4 {
        if s.len() == 4 {
            let pair = if s[2] == '+' {
                hex_digit_value(s[3])
            } else {
                match (hex_digit_value(s[2]), hex_digit_value(s[3])) {
                    (Some(h), Some(l)) => Some(16 * h + l),
                    _ => None,
                }
            };
            match pair {
                Some(b) => Ok(b),
                None => Err(owned("Invalid hex byte value")),
            }
        } else {
            Err(owned("Invalid hex byte value"))
        }
    } else if nbytes == 1 {
        Ok(bytes[0])
    } else {
        Err(owned("Invalid single-byte value"))
    }
}

/// The words that switch an optional value off.
pub open spec fn is_off_word(s: Seq<char>) -> bool {
    s == ""@ || s == "no"@ || s == "off"@ || s == "none"@
}

/// True when `s` is one of the words that switch an optional value off.
pub fn off_word(s: &[char]) -> (res: bool)
    ensures
        res == is_off_word(s@),
{
    chars_are(s, "") || chars_are(s, "no") || chars_are(s, "off") || chars_are(s, "none")
}

/// Parses an optional value: the words `""`, `no`, `off` and `none` give
/// `None`, anything else is read by `f`.
pub fn parse_optional<T, F: FnOnce(&str) -> Result<T, String>>(f: F, value: &str) -> (res: Result<
    Option<T>,
    String,
>)
    requires
        !is_off_word(value@) ==> f.requires((value,)),
    ensures
        is_off_word(value@) ==> res == Ok::<Option<T>, String>(None),
        !is_off_word(value@) ==> match res {
            Ok(Some(v)) => f.ensures((value,), Ok::<T, String>(v)),
            Ok(None) => false,
            Err(e) => f.ensures((value,), Err::<T, String>(e)),
        },
{
    let s = chars_of(value);
    if off_word(s.as_slice()) {
        Ok(None)
    } else {
        match f(value) {
            Ok(v) => Ok(Some(v)),
            Err(e) => Err(e),
        }
    }
}

/// An optional single byte: one of the words that switch it off, or a byte
/// as `spec_char_byte` reads it.
pub open spec fn spec_optional_byte(s: Seq<char>) -> Result<Option<u8>, Seq<char>> {
    if is_off_word(s) {
        Ok(None)
    } else {
        match spec_char_byte(s) {
            Ok(b) => Ok(Some(b)),
            Err(e) => Err(e),
        }
    }
}

/// Parses an optional single byte.
pub fn parse_optional_byte(value: &str) -> (res: Result<Option<u8>, String>)
    ensures
        err_view(res) == spec_optional_byte(value@),
{
    let s = chars_of(value);
    if off_word(s.as_slice()) {
        Ok(None)
    } else {
        match parse_char_byte(value) {
            Ok(b) => Ok(Some(b)),
            Err(e) => Err(e),
        }
    }
}

/// Reading of a boolean option value.
pub open spec fn spec_bool(s: Seq<char>) -> Result<bool, Seq<char>> {
    if s == "true"@ || s == "yes"@ || s == "y"@ || s == "on"@ || s == "1"@ {
        Ok(true)
    } else if s == "false"@ || s == "no"@ || s == "n"@ || s == "off"@ || s == "0"@ {
        Ok(false)
    } else {
        Err("Invalid boolean value"@)
    }
}

/// Parses a boolean: `true`, `yes`, `y`, `on`, `1` or `false`, `no`, `n`,
/// `off`, `0`.
pub fn parse_bool(value: &str) -> (res: Result<bool, String>)
    ensures
        err_view(res) == spec_bool(value@),
{
    let s = chars_of(value);
    let s = s.as_slice();
    if chars_are(s, "true") || chars_are(s, "yes") || chars_are(s, "y") || chars_are(s, "on")
        || chars_are(s, "1") {
        Ok(true)
    } else if chars_are(s, "false") || chars_are(s, "no") || chars_are(s, "n") || chars_are(
        s,
        "off",
    ) || chars_are(s, "0") {
        Ok(false)
    } else {
        Err(owned("Invalid boolean value"))
    }
}

} // verus!
