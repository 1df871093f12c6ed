//! Options of the CSV / TSV importer: their defaults, and how they are set
//! from text and rendered back to text.
use vstd::prelude::*;
use vstd::utf8::{encode_utf8, is_ascii_chars, is_ascii_chars_encode_utf8};
use crate::config::{
    OptionDescription, err_view, chars_of, chars_are, owned, char_string, spec_char_byte,
    spec_optional_byte, spec_bool, parse_char_byte, parse_optional_byte, parse_bool, hex_digit,
    hex_pair, is_off_word,
};
use crate::text::{
    dec_nat, digit_char, push_decimal, trim, trim_bounds, split_on, split_commas_trimmed,
    join_with, join_commas, spec_parse_u64, parse_u64, digits_value, all_digits,
};

verus! {

/// Importer settings for CSV / TSV and similar formats.
pub struct CsvImporter {
    delimiter: u8,
    terminator: Option<u8>,
    quote: Option<u8>,
    escape: Option<u8>,
    double_quote: bool,
    comment: Option<u8>,
    skip: u64,
    columns: Option<Vec<String>>,
}

/// The settings of a `CsvImporter`, with column names as character sequences.
pub struct CsvSettings {
    pub delimiter: u8,
    pub terminator: Option<u8>,
    pub quote: Option<u8>,
    pub escape: Option<u8>,
    pub double_quote: bool,
    pub comment: Option<u8>,
    pub skip: u64,
    pub columns: Option<Seq<Seq<char>>>,
}

/// Column names by their characters.
pub open spec fn columns_view(c: Option<Vec<String>>) -> Option<Seq<Seq<char>>> {
    match c {
        Some(v) => Some(v@.map_values(|s: String| s@)),
        None => None,
    }
}

impl View for CsvImporter {
    type V = CsvSettings;

    closed spec fn view(&self) -> CsvSettings {
        CsvSettings {
            delimiter: self.delimiter,
            terminator: self.terminator,
            quote: self.quote,
            escape: self.escape,
            double_quote: self.double_quote,
            comment: self.comment,
            skip: self.skip,
            columns: columns_view(self.columns),
        }
    }
}

/// The settings for comma-separated values: `,` between fields, either
/// line ending, `"` quoting with doubled quotes, no escape or comment byte,
/// no lines skipped, and column names from the first line.
pub open spec fn csv_defaults() -> CsvSettings {
    CsvSettings {
        delimiter: 44,
        terminator: None,
        quote: Some(34u8),
        escape: None,
        double_quote: true,
        comment: None,
        skip: 0,
        columns: None,
    }
}

/// The settings for tab-separated values: as for CSV, with tabs between
/// fields and no quoting.
pub open spec fn tsv_defaults() -> CsvSettings {
    CsvSettings { delimiter: 9, quote: None, ..csv_defaults() }
}

/// The value of the `columns` option: none when blank, else the
/// comma-separated names, each trimmed.
pub open spec fn spec_columns(value: Seq<char>) -> Option<Seq<Seq<char>>> {
    if trim(value).len() == 0 {
        None
    } else {
        Some(split_on(value, ',').map_values(|p: Seq<char>| trim(p)))
    }
}

/// The settings after setting `opt` to the text `value`, or the error.
pub open spec fn spec_set(v: CsvSettings, opt: Seq<char>, value: Seq<char>) -> Result<
    CsvSettings,
    Seq<char>,
> {
    if opt == "delimiter"@ {
        match spec_char_byte(value) {
            Ok(b) => Ok(CsvSettings { delimiter: b, ..v }),
            Err(e) => Err(e),
        }
    } else if opt == "terminator"@ {
        match spec_optional_byte(value) {
            Ok(b) => Ok(CsvSettings { terminator: b, ..v }),
            Err(e) => Err(e),
        }
    } else if opt == "quote"@ {
        match spec_optional_byte(value) {
            Ok(b) => Ok(CsvSettings { quote: b, ..v }),
            Err(e) => Err(e),
        }
    } else if opt == "escape"@ {
        match spec_optional_byte(value) {
            Ok(b) => Ok(CsvSettings { escape: b, ..v }),
            Err(e) => Err(e),
        }
    } else if opt == "double_quote"@ {
        match spec_bool(value) {
            Ok(b) => Ok(CsvSettings { double_quote: b, ..v }),
            Err(e) => Err(e),
        }
    } else if opt == "comment"@ {
        match spec_optional_byte(value) {
            Ok(b) => Ok(CsvSettings { comment: b, ..v }),
            Err(e) => Err(e),
        }
    } else if opt == "skip"@ {
        match spec_parse_u64(value) {
            Some(n) => Ok(CsvSettings { skip: n, ..v }),
            None => Err("Invalid integer value"@),
        }
    } else if opt == "columns"@ {
        Ok(CsvSettings { columns: spec_columns(value), ..v })
    } else {
        Err("Unknown option"@)
    }
}

/// The lower-case hexadecimal digit of `d < 16`.
pub open spec fn hex_char(d: nat) -> char {
    if d < 10 {
        digit_char(d)
    } else if d == 10 {
        'a'
    } else if d == 11 {
        'b'
    } else if d == 12 {
        'c'
    } else if d == 13 {
        'd'
    } else if d == 14 {
        'e'
    } else {
        'f'
    }
}

/// The text of a byte option: the escapes `\t`, `\n`, `\r`, the character
/// itself when it is printable ASCII, else `\x` and two hexadecimal digits.
pub open spec fn char_repr(b: u8) -> Seq<char> {
    if b == 9 {
        "\\t"@
    } else if b == 10 {
        "\\n"@
    } else if b == 13 {
        "\\r"@
    } else if 0x21 <= b <= 0x7e {
        seq![b as char]
    } else {
        "\\x"@ + seq![hex_char((b / 16) as nat), hex_char((b % 16) as nat)]
    }
}

/// The text of an optional byte option, empty when it is off.
pub open spec fn opt_repr(b: Option<u8>) -> Seq<char> {
    match b {
        Some(b) => char_repr(b),
        None => ""@,
    }
}

/// The text of the option `opt`, if there is such an option.
pub open spec fn spec_get(v: CsvSettings, opt: Seq<char>) -> Option<Seq<char>> {
    if opt == "delimiter"@ {
        Some(char_repr(v.delimiter))
    } else if opt == "terminator"@ {
        Some(opt_repr(v.terminator))
    } else if opt == "quote"@ {
        Some(opt_repr(v.quote))
    } else if opt == "escape"@ {
        Some(opt_repr(v.escape))
    } else if opt == "double_quote"@ {
        Some(if v.double_quote { "true"@ } else { "false"@ })
    } else if opt == "comment"@ {
        Some(opt_repr(v.comment))
    } else if opt == "skip"@ {
        Some(dec_nat(v.skip as nat))
    } else if opt == "columns"@ {
        Some(
            match v.columns {
                Some(c) => join_with(c, ","@),
                None => ""@,
            },
        )
    } else {
        None
    }
}

/// An optional string by its characters.
pub open spec fn opt_string_view(s: Option<String>) -> Option<Seq<char>> {
    match s {
        Some(s) => Some(s@),
        None => None,
    }
}

/// The names of the options, in the order `options` lists them.
pub open spec fn csv_option_names() -> Seq<Seq<char>> {
    seq![
        "delimiter"@,
        "terminator"@,
        "quote"@,
        "escape"@,
        "double_quote"@,
        "comment"@,
        "skip"@,
        "columns"@,
    ]
}

/// The descriptions of the options, in the order of their names.
pub open spec fn csv_option_descriptions() -> Seq<Seq<char>> {
    seq![
        "Delimiter byte"@,
        "Record terminator byte. If empty, either `\\n` or `\\r\\n` is accepted."@,
        "Quote byte. Empty or `none` disable quoting."@,
        "Escape byte before quotes. Empty or `none` to disable escaping."@,
        "Whether to interpret doubled quote characters as an escaped quote."@,
        "Comment byte. If specified, lines beginning with this byte will be skipped."@,
        "Number of lines to skip before reading headers."@,
        "Comma-separated list of column names. If empty, the first line of the file (after skip) is used as headers."@,
    ]
}

/// The lower-case hexadecimal digit of `d < 16`, as a string.
fn hex_str(d: u8) -> (res: &'static str)
    requires
        d < 16,
    ensures
        res@ == seq![hex_char(d as nat)],
{
    proof {
        reveal_strlit("a");
        reveal_strlit("b");
        reveal_strlit("c");
        reveal_strlit("d");
        reveal_strlit("e");
        reveal_strlit("f");
    }
    if d < 10 {
        crate::text::digit_str(d)
    } else if d == 10 {
        "a"
    } else if d == 11 {
        "b"
    } else if d == 12 {
        "c"
    } else if d == 13 {
        "d"
    } else if d == 14 {
        "e"
    } else {
        "f"
    }
}

/// Renders a byte option as text.
pub fn char_repr_string(b: u8) -> (res: String)
    ensures
        res@ == char_repr(b),
{
    if b == 9 {
        owned("\\t")
    } else if b == 10 {
        owned("\\n")
    } else if b == 13 {
        owned("\\r")
    } else if 0x21 <= b && b <= 0x7e {
        char_string(b as char)
    } else {
        let mut s = owned("\\x");
        s.append(hex_str(b / 16));
        s.append(hex_str(b % 16));
        s
    }
}

/// Renders an optional byte option as text.
fn opt_repr_string(b: Option<u8>) -> (res: String)
    ensures
        res@ == opt_repr(b),
{
    match b {
        Some(b) => char_repr_string(b),
        None => owned(""),
    }
}

impl CsvImporter {
    /// Settings for comma-separated values.
    pub fn csv() -> (res: Self)
        ensures
            res@ == csv_defaults(),
    {
        CsvImporter {
            delimiter: 44,
            terminator: None,
            quote: Some(34u8),
            escape: None,
            double_quote: true,
            comment: None,
            skip: 0,
            columns: None,
        }
    }

    /// Settings for tab-separated values.
    pub fn tsv() -> (res: Self)
        ensures
            res@ == tsv_defaults(),
    {
        Self::csv().with_delimiter(9).with_quote(None)
    }

    /// The byte between fields.
    pub fn delimiter(&self) -> (res: u8)
        ensures
            res == self@.delimiter,
    {
        self.delimiter
    }

    /// Sets the byte between fields.
    pub fn set_delimiter(&mut self, byte: u8)
        ensures
            final(self)@ == (CsvSettings { delimiter: byte, ..old(self)@ }),
    {
        self.delimiter = byte;
    }

    /// These settings with another byte between fields.
    pub fn with_delimiter(self, byte: u8) -> (res: Self)
        ensures
            res@ == (CsvSettings { delimiter: byte, ..self@ }),
    {
        let mut s = self;
        s.set_delimiter(byte);
        s
    }

    /// The byte ending a record; when there is none, `\n` or `\r\n` ends one.
    pub fn terminator(&self) -> (res: Option<u8>)
        ensures
            res == self@.terminator,
    {
        self.terminator
    }

    /// Sets the byte ending a record.
    pub fn set_terminator(&mut self, byte: Option<u8>)
        ensures
            final(self)@ == (CsvSettings { terminator: byte, ..old(self)@ }),
    {
        self.terminator = byte;
    }

    /// These settings with another byte ending a record.
    pub fn with_terminator(self, byte: Option<u8>) -> (res: Self)
        ensures
            res@ == (CsvSettings { terminator: byte, ..self@ }),
    {
        let mut s = self;
        s.set_terminator(byte);
        s
    }

    /// The quote byte; none when quoting is off.
    pub fn quote(&self) -> (res: Option<u8>)
        ensures
            res == self@.quote,
    {
        self.quote
    }

    /// Sets the quote byte.
    pub fn set_quote(&mut self, byte: Option<u8>)
        ensures
            final(self)@ == (CsvSettings { quote: byte, ..old(self)@ }),
    {
        self.quote = byte;
    }

    /// These settings with another quote byte.
    pub fn with_quote(self, byte: Option<u8>) -> (res: Self)
        ensures
            res@ == (CsvSettings { quote: byte, ..self@ }),
    {
        let mut s = self;
        s.set_quote(byte);
        s
    }

    /// The escape byte before quotes; none when escaping is off.
    pub fn escape(&self) -> (res: Option<u8>)
        ensures
            res == self@.escape,
    {
        self.escape
    }

    /// Sets the escape byte.
    pub fn set_escape(&mut self, byte: Option<u8>)
        ensures
            final(self)@ == (CsvSettings { escape: byte, ..old(self)@ }),
    {
        self.escape = byte;
    }

    /// These settings with another escape byte.
    pub fn with_escape(self, byte: Option<u8>) -> (res: Self)
        ensures
            res@ == (CsvSettings { escape: byte, ..self@ }),
    {
        let mut s = self;
        s.set_escape(byte);
        s
    }

    /// Whether a doubled quote stands for one quote.
    pub fn double_quote(&self) -> (res: bool)
        ensures
            res == self@.double_quote,
    {
        self.double_quote
    }

    /// Sets whether a doubled quote stands for one quote.
    pub fn set_double_quote(&mut self, double_quote: bool)
        ensures
            final(self)@ == (CsvSettings { double_quote: double_quote, ..old(self)@ }),
    {
        self.double_quote = double_quote;
    }

    /// These settings with doubled quotes read another way.
    pub fn with_double_quote(self, double_quote: bool) -> (res: Self)
        ensures
            res@ == (CsvSettings { double_quote: double_quote, ..self@ }),
    {
        let mut s = self;
        s.set_double_quote(double_quote);
        s
    }

    /// The byte that starts a comment line; none when there are no comments.
    pub fn comment(&self) -> (res: Option<u8>)
        ensures
            res == self@.comment,
    {
        self.comment
    }

    /// Sets the byte that starts a comment line.
    pub fn set_comment(&mut self, byte: Option<u8>)
        ensures
            final(self)@ == (CsvSettings { comment: byte, ..old(self)@ }),
    {
        self.comment = byte;
    }

    /// These settings with another comment byte.
    pub fn with_comment(self, byte: Option<u8>) -> (res: Self)
        ensures
            res@ == (CsvSettings { comment: byte, ..self@ }),
    {
        let mut s = self;
        s.set_comment(byte);
        s
    }

    /// The number of lines skipped before the header.
    pub fn skip(&self) -> (res: u64)
        ensures
            res == self@.skip,
    {
        self.skip
    }

    /// The column names given in place of a header line, if any.
    pub fn columns(&self) -> (res: Option<&[String]>)
        ensures
            match res {
                Some(c) => self@.columns == Some(c@.map_values(|s: String| s@)),
                None => self@.columns is None,
            },
    {
        match &self.columns {
            Some(c) => Some(c.as_slice()),
            None => None,
        }
    }

    /// Sets the column names given in place of a header line.
    pub fn set_columns(&mut self, columns: Option<Vec<String>>)
        ensures
            final(self)@ == (CsvSettings { columns: columns_view(columns), ..old(self)@ }),
    {
        self.columns = columns;
    }

    /// These settings with other column names.
    pub fn with_columns(self, columns: Option<Vec<String>>) -> (res: Self)
        ensures
            res@ == (CsvSettings { columns: columns_view(columns), ..self@ }),
    {
        let mut s = self;
        s.set_columns(columns);
        s
    }

    /// The options that `set` and `get` take, with their descriptions.
    pub fn options(&self) -> (res: Vec<OptionDescription>)
        ensures
            res@.len() == csv_option_names().len(),
            forall|i: int| 0 <= i < res@.len() ==> #[trigger] res@[i].name@ == csv_option_names()[i],
            forall|i: int|
                0 <= i < res@.len() ==> #[trigger] res@[i].description@ == csv_option_descriptions()[i],
    {
        let mut v: Vec<OptionDescription> = Vec::new();
        v.push(OptionDescription { name: "delimiter", description: "Delimiter byte" });
        v.push(
            OptionDescription {
                name: "terminator",
                description: "Record terminator byte. If empty, either `\\n` or `\\r\\n` is accepted.",
            },
        );
        v.push(
            OptionDescription {
                name: "quote",
                description: "Quote byte. Empty or `none` disable quoting.",
            },
        );
        v.push(
            OptionDescription {
                name: "escape",
                description: "Escape byte before quotes. Empty or `none` to disable escaping.",
            },
        );
        v.push(
            OptionDescription {
                name: "double_quote",
                description: "Whether to interpret doubled quote characters as an escaped quote.",
            },
        );
        v.push(
            OptionDescription {
                name: "comment",
                description: "Comment byte. If specified, lines beginning with this byte will be skipped.",
            },
        );
        v.push(
            OptionDescription {
                name: "skip",
                description: "Number of lines to skip before reading headers.",
            },
        );
        v.push(
            OptionDescription {
                name: "columns",
                description: "Comma-separated list of column names. If empty, the first line of the file (after skip) is used as headers.",
            },
        );
        v
    }

    /// Sets the option `option` from the text `value`. On an error the
    /// settings are left as they were.
    pub fn set(&mut self, option: &str, value: &str) -> (res: Result<(), String>)
        ensures
            match spec_set(old(self)@, option@, value@) {
                Ok(next) => res is Ok && final(self)@ == next,
                Err(e) => err_view(res) == Err::<(), Seq<char>>(e) && final(self)@ == old(self)@,
            },
    {
        let opt = chars_of(option);
        let opt = opt.as_slice();
        if chars_are(opt, "delimiter") {
            match parse_char_byte(value) {
                Ok(b) => {
                    self.delimiter = b;
                },
                Err(e) => {
                    return Err(e);
                },
            }
        } else if chars_are(opt, "terminator") {
            match parse_optional_byte(value) {
                Ok(b) => {
                    self.terminator = b;
                },
                Err(e) => {
                    return Err(e);
                },
            }
        } else if chars_are(opt, "quote") {
            match parse_optional_byte(value) {
                Ok(b) => {
                    self.quote = b;
                },
                Err(e) => {
                    return Err(e);
                },
            }
        } else if chars_are(opt, "escape") {
            match parse_optional_byte(value) {
                Ok(b) => {
                    self.escape = b;
                },
                Err(e) => {
                    return Err(e);
                },
            }
        } else if chars_are(opt, "double_quote") {
            match parse_bool(value) {
                Ok(b) => {
                    self.double_quote = b;
                },
                Err(e) => {
                    return Err(e);
                },
            }
        } else if chars_are(opt, "comment") {
            match parse_optional_byte(value) {
                Ok(b) => {
                    self.comment = b;
                },
                Err(e) => {
                    return Err(e);
                },
            }
        } else if chars_are(opt, "skip") {
            let v = chars_of(value);
            match parse_u64(v.as_slice()) {
                Some(n) => {
                    self.skip = n;
                },
                None => {
                    return Err(owned("Invalid integer value"));
                },
            }
        } else if chars_are(opt, "columns") {
            let v = chars_of(value);
            let (a, b) = trim_bounds(v.as_slice());
            if a == b {
                self.columns = None;
            } else {
                let cols = split_commas_trimmed(value);
                assert(cols@.map_values(|s: String| s@) =~= split_on(value@, ',').map_values(
                    |p: Seq<char>| trim(p),
                ));
                self.columns = Some(cols);
            }
        } else {
            return Err(owned("Unknown option"));
        }
        Ok(())
    }

    /// The text of the option `option`, if there is such an option.
    pub fn get(&self, option: &str) -> (res: Option<String>)
        ensures
            opt_string_view(res) == spec_get(self@, option@),
    {
        let opt = chars_of(option);
        let opt = opt.as_slice();
        if chars_are(opt, "delimiter") {
            Some(char_repr_string(self.delimiter))
        } else if chars_are(opt, "terminator") {
            Some(opt_repr_string(self.terminator))
        } else if chars_are(opt, "quote") {
            Some(opt_repr_string(self.quote))
        } else if chars_are(opt, "escape") {
            Some(opt_repr_string(self.escape))
        } else if chars_are(opt, "double_quote") {
            Some(
                if self.double_quote {
                    owned("true")
                } else {
                    owned("false")
                },
            )
        } else if chars_are(opt, "comment") {
            Some(opt_repr_string(self.comment))
        } else if chars_are(opt, "skip") {
            let mut s = String::new();
            push_decimal(&mut s, self.skip as u128);
            Some(s)
        } else if chars_are(opt, "columns") {
            match &self.columns {
                Some(c) => Some(join_commas(c.as_slice())),
                None => Some(owned("")),
            }
        } else {
            None
        }
    }
}

proof fn lemma_hex_char_digit(d: nat)
    requires
        d < 16,
    ensures
        hex_digit(hex_char(d)) == Some(d as u8),
        hex_char(d) != '+',
        '\0' <= hex_char(d) <= '\u{7f}',
{
}

/// The text of a byte option reads back as the same byte.
pub proof fn lemma_char_repr_reads_back(b: u8)
    ensures
        spec_char_byte(char_repr(b)) == Ok::<u8, Seq<char>>(b),
        !is_off_word(char_repr(b)),
{
    reveal_strlit("\\t");
    reveal_strlit("\\n");
    reveal_strlit("\\r");
    reveal_strlit("\\x");
    reveal_strlit("");
    reveal_strlit("no");
    reveal_strlit("off");
    reveal_strlit("none");
    let s = char_repr(b);
    if b == 9 || b == 10 || b == 13 {
        assert(s[0] == '\\');
        assert("\\t"@[1] == 't' && "\\n"@[1] == 'n' && "\\r"@[1] == 'r');
        if b == 10 {
            assert(s != "\\t"@) by {
                assert(s[1] != "\\t"@[1]);
            }
        } else if b == 13 {
            assert(s != "\\t"@) by {
                assert(s[1] != "\\t"@[1]);
            }
            assert(s != "\\n"@) by {
                assert(s[1] != "\\n"@[1]);
            }
        }
        assert(s != "no"@) by {
            assert("no"@[0] == 'n');
        }
    } else if 0x21 <= b <= 0x7e {
        assert(is_ascii_chars(s));
        is_ascii_chars_encode_utf8(s);
        assert(s.len() == 1);
        assert(encode_utf8(s).len() == 1);
        assert((b as char) as u8 == b);
        assert(encode_utf8(s)[0] == b);
    } else {
        lemma_hex_char_digit((b / 16) as nat);
        lemma_hex_char_digit((b % 16) as nat);
        assert(s.len() == 4);
        assert(s[0] == '\\');
        assert(s[1] == 'x');
        assert(s[2] == hex_char((b / 16) as nat));
        assert(s[3] == hex_char((b % 16) as nat));
        assert(is_ascii_chars(s));
        is_ascii_chars_encode_utf8(s);
        assert(encode_utf8(s).len() == 4);
        assert(hex_pair(s[2], s[3]) == Some(b));
        assert(s != "none"@) by {
            assert("none"@[0] == 'n');
        }
    }
}

/// The text of an optional byte option reads back as the same option.
pub proof fn lemma_opt_repr_reads_back(b: Option<u8>)
    ensures
        spec_optional_byte(opt_repr(b)) == Ok::<Option<u8>, Seq<char>>(b),
{
    reveal_strlit("");
    match b {
        Some(x) => {
            lemma_char_repr_reads_back(x);
        },
        None => {},
    }
}

/// Reading back what `get` gives: setting an option to its own text leaves
/// the settings as they were. For `columns` this holds when the names are
/// trimmed, hold no comma, and are not a single empty name (nor none).
pub proof fn lemma_set_get_roundtrip(v: CsvSettings, opt: Seq<char>)
    requires
        spec_get(v, opt) is Some,
        opt == "columns"@ ==> match v.columns {
            Some(c) => {
                &&& c.len() >= 1
                &&& !(c.len() == 1 && c[0].len() == 0)
                &&& forall|k: int| 0 <= k < c.len() ==> trim(#[trigger] c[k]) == c[k]
                &&& forall|k: int, i: int|
                    0 <= k < c.len() && 0 <= i < c[k].len() ==> c[k][i] != ','
            },
            None => true,
        },
    ensures
        spec_set(v, opt, spec_get(v, opt)->0) == Ok::<CsvSettings, Seq<char>>(v),
{
    reveal_strlit("true");
    reveal_strlit("false");
    reveal_strlit("yes");
    reveal_strlit("y");
    reveal_strlit("on");
    reveal_strlit("1");
    reveal_strlit("");
    if opt == "delimiter"@ {
        lemma_char_repr_reads_back(v.delimiter);
    } else if opt == "terminator"@ {
        lemma_opt_repr_reads_back(v.terminator);
    } else if opt == "quote"@ {
        lemma_opt_repr_reads_back(v.quote);
    } else if opt == "escape"@ {
        lemma_opt_repr_reads_back(v.escape);
    } else if opt == "double_quote"@ {
    } else if opt == "comment"@ {
        lemma_opt_repr_reads_back(v.comment);
    } else if opt == "skip"@ {
        crate::text::lemma_parse_dec_nat(v.skip);
    } else if opt == "columns"@ {
        match v.columns {
            Some(c) => {
                let j = join_with(c, ","@);
                crate::text::lemma_split_join(c);
                assert(split_on(j, ',').map_values(|p: Seq<char>| trim(p)) =~= c);
                lemma_join_trims_to_something(c);
            },
            None => {
                assert(trim(""@).len() == 0);
            },
        }
    }
}

/// Joined trimmed names that are not a single empty name do not trim to
/// nothing.
proof fn lemma_join_trims_to_something(c: Seq<Seq<char>>)
    requires
        c.len() >= 1,
        !(c.len() == 1 && c[0].len() == 0),
        forall|k: int| 0 <= k < c.len() ==> trim(#[trigger] c[k]) == c[k],
    ensures
        trim(join_with(c, ","@)).len() > 0,
{
    reveal_strlit(",");
    let j = join_with(c, ","@);
    if c.len() == 1 {
        assert(trim(c[0]) == c[0]);
        assert(j == c[0]);
    } else {
        let head = join_with(c.drop_last(), ","@);
        assert(j == head + ","@ + c.last());
        assert(j[head.len() as int] == ',');
        crate::text::lemma_trim_keeps(j, head.len() as int);
    }
}

} // verus!
