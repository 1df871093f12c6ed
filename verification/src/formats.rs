//! The import and export formats, and how one is chosen by name or by file
//! name from the command-line options.
use vstd::prelude::*;
use vstd::string::{StrSliceExecFns, StringExecFns};
use crate::config::{chars_of, owned};
use crate::importer::Importer;
use crate::text::{split_on, split_once, split_str, split_once_str};

verus! {

/// A description of an import format.
pub struct ImportFormat {
    /// Internal identifier for the format.
    pub name: &'static str,
    /// A human-readable description of the format.
    pub description: &'static str,
    /// Filename extensions to detect, including the leading `.`.
    pub extensions: Vec<&'static str>,
}

/// The import formats, in the order in which they are tried.
pub struct ImportFormats<'a>(pub &'a [ImportFormat]);

/// A description of an export format.
pub struct ExportFormat {
    pub name: &'static str,
    pub description: &'static str,
    pub extension: &'static str,
}

/// `suffix` ends `s`.
pub open spec fn ends_with(s: Seq<char>, suffix: Seq<char>) -> bool {
    suffix.len() <= s.len() && s.subrange(s.len() - suffix.len(), s.len() as int) == suffix
}

/// `c` with ASCII upper-case letters made lower-case.
pub open spec fn ascii_lower(c: char) -> char {
    if 'A' <= c <= 'Z' {
        ((c as u32) + 32) as char
    } else {
        c
    }
}

/// `a` and `b` are equal up to the case of ASCII letters.
pub open spec fn eq_ignore_ascii_case(a: Seq<char>, b: Seq<char>) -> bool {
    a.len() == b.len() && forall|i: int| 0 <= i < a.len() ==> ascii_lower(#[trigger] a[i]) == ascii_lower(b[i])
}

/// One of the extensions of `f` ends the file name `name`.
pub open spec fn spec_matches_filename(f: ImportFormat, name: Seq<char>) -> bool {
    exists|i: int| 0 <= i < f.extensions@.len() && ends_with(name, #[trigger] f.extensions@[i]@)
}

/// `suffix` ends `s`.
pub fn str_ends_with(s: &str, suffix: &str) -> (res: bool)
    ensures
        res == ends_with(s@, suffix@),
{
    let a = chars_of(s);
    let b = chars_of(suffix);
    if b.len() > a.len() {
        return false;
    }
    let off = a.len() - b.len();
    let mut i: usize = 0;
    while i < b.len()
        invariant
            i <= b@.len(),
            off + b@.len() == a@.len(),
            a@.len() <= usize::MAX,
            a@ == s@,
            b@ == suffix@,
            forall|j: int| 0 <= j < i ==> a@[off + j] == b@[j],
        decreases b@.len() - i,
    {
        if a[off + i] != b[i] {
            assert(s@.subrange(off as int, s@.len() as int)[i as int] != suffix@[i as int]);
            return false;
        }
        i = i + 1;
    }
    assert(s@.subrange(off as int, s@.len() as int) =~= suffix@);
    true
}

/// `c` with ASCII upper-case letters made lower-case.
fn to_ascii_lower(c: char) -> (res: char)
    ensures
        res == ascii_lower(c),
{
    if 'A' <= c && c <= 'Z' {
        ((c as u8) + 32) as char
    } else {
        c
    }
}

/// `a` and `b` are equal up to the case of ASCII letters.
pub fn str_eq_ignore_ascii_case(a: &str, b: &str) -> (res: bool)
    ensures
        res == eq_ignore_ascii_case(a@, b@),
{
    let x = chars_of(a);
    let y = chars_of(b);
    if x.len() != y.len() {
        return false;
    }
    let mut i: usize = 0;
    while i < x.len()
        invariant
            i <= x@.len(),
            x@.len() == y@.len(),
            x@ == a@,
            y@ == b@,
            forall|j: int| 0 <= j < i ==> ascii_lower(#[trigger] a@[j]) == ascii_lower(b@[j]),
        decreases x@.len() - i,
    {
        if to_ascii_lower(x[i]) != to_ascii_lower(y[i]) {
            return false;
        }
        i = i + 1;
    }
    true
}

impl ImportFormat {
    /// One of the format's extensions ends `name`.
    pub fn matches_filename(&self, name: &str) -> (res: bool)
        ensures
            res == spec_matches_filename(*self, name@),
    {
        let mut i: usize = 0;
        while i < self.extensions.len()
            invariant
                i <= self.extensions@.len(),
                forall|j: int| 0 <= j < i ==> !ends_with(name@, #[trigger] self.extensions@[j]@),
            decreases self.extensions@.len() - i,
        {
            if str_ends_with(name, self.extensions[i]) {
                return true;
            }
            i = i + 1;
        }
        false
    }
}

/// The name of `f` is `name` up to ASCII case.
pub open spec fn named(f: ImportFormat, name: Seq<char>) -> bool {
    eq_ignore_ascii_case(f.name@, name)
}

impl<'a> ImportFormats<'a> {
    /// The first format named `name`, ignoring ASCII case.
    pub fn by_name(&self, name: &str) -> (res: Option<&'a ImportFormat>)
        ensures
            match res {
                Some(f) => exists|i: int|
                    0 <= i < self.0@.len() && *f == self.0@[i] && named(self.0@[i], name@) && forall|
                        j: int,
                    | 0 <= j < i ==> !named(#[trigger] self.0@[j], name@),
                None => forall|i: int| 0 <= i < self.0@.len() ==> !named(#[trigger] self.0@[i], name@),
            },
    {
        let fs: &'a [ImportFormat] = self.0;
        let mut i: usize = 0;
        while i < fs.len()
            invariant
                i <= fs@.len(),
                fs@ == self.0@,
                forall|j: int| 0 <= j < i ==> !named(#[trigger] fs@[j], name@),
            decreases fs@.len() - i,
        {
            if str_eq_ignore_ascii_case(fs[i].name, name) {
                return Some(&fs[i]);
            }
            i = i + 1;
        }
        None
    }

    /// The first format with an extension that ends `fname`.
    pub fn first_for_filename(&self, fname: &str) -> (res: Option<&'a ImportFormat>)
        ensures
            match res {
                Some(f) => exists|i: int|
                    0 <= i < self.0@.len() && *f == self.0@[i] && spec_matches_filename(
                        self.0@[i],
                        fname@,
                    ) && forall|j: int|
                        0 <= j < i ==> !spec_matches_filename(#[trigger] self.0@[j], fname@),
                None => forall|i: int|
                    0 <= i < self.0@.len() ==> !spec_matches_filename(#[trigger] self.0@[i], fname@),
            },
    {
        let fs: &'a [ImportFormat] = self.0;
        let mut i: usize = 0;
        while i < fs.len()
            invariant
                i <= fs@.len(),
                fs@ == self.0@,
                forall|j: int| 0 <= j < i ==> !spec_matches_filename(#[trigger] fs@[j], fname@),
            decreases fs@.len() - i,
        {
            if fs[i].matches_filename(fname) {
                return Some(&fs[i]);
            }
            i = i + 1;
        }
        None
    }
}

/// The content of an import format.
pub struct ImportFormatView {
    pub name: Seq<char>,
    pub description: Seq<char>,
    pub extensions: Seq<Seq<char>>,
}

/// The content of an import format, its strings by their characters.
pub open spec fn format_view(f: ImportFormat) -> ImportFormatView {
    ImportFormatView {
        name: f.name@,
        description: f.description@,
        extensions: f.extensions@.map_values(|e: &str| e@),
    }
}

/// The import formats, in the order they are tried on a file name.
pub open spec fn importer_table() -> Seq<ImportFormatView> {
    seq![
        ImportFormatView {
            name: "virtual"@,
            description: "Iguazu Virtual JSON"@,
            extensions: seq![".iguazu.json"@],
        },
        ImportFormatView { name: "izs"@, description: "Iguazu Pack"@, extensions: seq![".izs"@] },
        ImportFormatView {
            name: "raw"@,
            description: "Raw binary"@,
            extensions: seq![
                ".bin"@,
                ".logic8"@,
                ".f32"@,
                ".cf32"@,
                "cfile"@,
                ".u8"@,
                ".u16"@,
                ".u32"@,
                ".u64"@,
                ".s8"@,
                ".s16"@,
                ".s32"@,
                ".s64"@,
                ".cu8"@,
                ".cu16"@,
                ".cu32"@,
                ".cu64"@,
                ".cs8"@,
                ".cs16"@,
                ".cs32"@,
                ".cs64"@,
            ],
        },
        ImportFormatView { name: "csv"@, description: "Comma-separated values"@, extensions: seq![".csv"@] },
        ImportFormatView { name: "tsv"@, description: "Tab-separated values"@, extensions: seq![".tsv"@] },
        ImportFormatView { name: "sigrok"@, description: "Sigrok (srzip v2)"@, extensions: seq![".sr"@] },
    ]
}

/// A suffix ends with the last character of what it ends.
proof fn lemma_ends_with_last(s: Seq<char>, suffix: Seq<char>)
    requires
        ends_with(s, suffix),
        suffix.len() > 0,
    ensures
        s.last() == suffix.last(),
{
    assert(s.subrange(s.len() - suffix.len(), s.len() as int)[suffix.len() - 1] == s.last());
}

/// A file name ending in `.csv` selects the CSV importer: the import format
/// named `csv` has an extension that ends the name, and no format tried
/// before it has one.
pub proof fn lemma_csv_file_selects_csv(name: Seq<char>)
    requires
        ends_with(name, ".csv"@),
    ensures
        importer_table()[3].name == "csv"@,
        exists|k: int| 0 <= k < importer_table()[3].extensions.len() && ends_with(name, #[trigger] importer_table()[3].extensions[k]),
        forall|j: int, k: int|
            0 <= j < 3 && 0 <= k < importer_table()[j].extensions.len() ==> !ends_with(
                name,
                #[trigger] importer_table()[j].extensions[k],
            ),
{
    reveal_strlit(".iguazu.json");
    reveal_strlit(".izs");
    reveal_strlit(".bin");
    reveal_strlit(".logic8");
    reveal_strlit(".f32");
    reveal_strlit(".cf32");
    reveal_strlit("cfile");
    reveal_strlit(".u8");
    reveal_strlit(".u16");
    reveal_strlit(".u32");
    reveal_strlit(".u64");
    reveal_strlit(".s8");
    reveal_strlit(".s16");
    reveal_strlit(".s32");
    reveal_strlit(".s64");
    reveal_strlit(".cu8");
    reveal_strlit(".cu16");
    reveal_strlit(".cu32");
    reveal_strlit(".cu64");
    reveal_strlit(".cs8");
    reveal_strlit(".cs16");
    reveal_strlit(".cs32");
    reveal_strlit(".cs64");
    reveal_strlit(".csv");
    reveal_strlit("csv");
    reveal_strlit("virtual");
    reveal_strlit("izs");
    reveal_strlit("raw");
    lemma_ends_with_last(name, ".csv"@);
    assert(name.last() == 'v');
    let t = importer_table();
    assert(ends_with(name, t[3].extensions[0]));
    assert forall|j: int, k: int| 0 <= j < 3 && 0 <= k < t[j].extensions.len() implies !ends_with(
        name,
        #[trigger] t[j].extensions[k],
    ) by {
        let e = t[j].extensions[k];
        assert(e.len() > 0 && e.last() != 'v');
        if ends_with(name, e) {
            lemma_ends_with_last(name, e);
        }
    }
}

/// A suffix agrees with what it ends, counted from the end.
proof fn lemma_ends_with_from_end(s: Seq<char>, suffix: Seq<char>, m: int)
    requires
        ends_with(s, suffix),
        0 <= m < suffix.len(),
    ensures
        s[s.len() - 1 - m] == suffix[suffix.len() - 1 - m],
{
    assert(s.subrange(s.len() - suffix.len(), s.len() as int)[suffix.len() - 1 - m] == s[s.len() - 1 - m]);
}

/// A file name ending in a format's own extension selects that format:
/// `.iguazu.json` virtual JSON, `.izs` an Iguazu pack, `.bin` raw binary,
/// `.csv` CSV, `.tsv` TSV and `.sr` sigrok. The format at position `i` of
/// the table has that name and an extension that ends the file name, and no
/// format tried before it has one.
pub proof fn lemma_extension_selects_format(name: Seq<char>, format: Seq<char>, ext: Seq<char>, i: int)
    requires
        (i == 0 && format == "virtual"@ && ext == ".iguazu.json"@) || (i == 1 && format == "izs"@
            && ext == ".izs"@) || (i == 2 && format == "raw"@ && ext == ".bin"@) || (i == 3 && format
            == "csv"@ && ext == ".csv"@) || (i == 4 && format == "tsv"@ && ext == ".tsv"@) || (i == 5
            && format == "sigrok"@ && ext == ".sr"@),
        ends_with(name, ext),
    ensures
        importer_table()[i].name == format,
        exists|k: int| 0 <= k < importer_table()[i].extensions.len() && ends_with(name, #[trigger] importer_table()[i].extensions[k]),
        forall|j: int, k: int|
            0 <= j < i && 0 <= k < importer_table()[j].extensions.len() ==> !ends_with(
                name,
                #[trigger] importer_table()[j].extensions[k],
            ),
{
    reveal_strlit(".iguazu.json");
    reveal_strlit(".izs");
    reveal_strlit(".bin");
    reveal_strlit(".logic8");
    reveal_strlit(".f32");
    reveal_strlit(".cf32");
    reveal_strlit("cfile");
    reveal_strlit(".u8");
    reveal_strlit(".u16");
    reveal_strlit(".u32");
    reveal_strlit(".u64");
    reveal_strlit(".s8");
    reveal_strlit(".s16");
    reveal_strlit(".s32");
    reveal_strlit(".s64");
    reveal_strlit(".cu8");
    reveal_strlit(".cu16");
    reveal_strlit(".cu32");
    reveal_strlit(".cu64");
    reveal_strlit(".cs8");
    reveal_strlit(".cs16");
    reveal_strlit(".cs32");
    reveal_strlit(".cs64");
    reveal_strlit(".csv");
    reveal_strlit(".tsv");
    reveal_strlit(".sr");
    reveal_strlit("virtual");
    reveal_strlit("izs");
    reveal_strlit("raw");
    reveal_strlit("csv");
    reveal_strlit("tsv");
    reveal_strlit("sigrok");
    let t = importer_table();
    assert(ext.len() >= 3);
    lemma_ends_with_from_end(name, ext, 0);
    lemma_ends_with_from_end(name, ext, 1);
    lemma_ends_with_from_end(name, ext, 2);
    if i == 2 {
        assert(ends_with(name, t[2].extensions[0]));
    } else {
        assert(ends_with(name, t[i].extensions[0]));
    }
    assert forall|j: int, k: int| 0 <= j < i && 0 <= k < t[j].extensions.len() implies !ends_with(
        name,
        #[trigger] t[j].extensions[k],
    ) by {
        let e = t[j].extensions[k];
        if ends_with(name, e) {
            assert(e.len() >= 3);
            lemma_ends_with_from_end(name, e, 0);
            lemma_ends_with_from_end(name, e, 1);
            lemma_ends_with_from_end(name, e, 2);
        }
    }
}

/// Over the import formats that `importers` gives, a file name ending in
/// `.csv` matches the CSV format and none before it, so
/// `first_for_filename` picks the CSV format.
pub proof fn lemma_csv_file_matches_csv_format(fs: Seq<ImportFormat>, name: Seq<char>)
    requires
        fs.len() == 6,
        forall|i: int| 0 <= i < 6 ==> #[trigger] format_view(fs[i]) == importer_table()[i],
        ends_with(name, ".csv"@),
    ensures
        fs[3].name@ == "csv"@,
        spec_matches_filename(fs[3], name),
        forall|j: int| 0 <= j < 3 ==> !spec_matches_filename(#[trigger] fs[j], name),
{
    lemma_csv_file_selects_csv(name);
    assert(format_view(fs[3]) == importer_table()[3]);
    let k = choose|k: int| 0 <= k < importer_table()[3].extensions.len() && ends_with(name, #[trigger] importer_table()[3].extensions[k]);
    assert(fs[3].extensions@[k]@ == importer_table()[3].extensions[k]);
    assert forall|j: int| 0 <= j < 3 implies !spec_matches_filename(#[trigger] fs[j], name) by {
        assert(format_view(fs[j]) == importer_table()[j]);
        if spec_matches_filename(fs[j], name) {
            let k = choose|k: int| 0 <= k < fs[j].extensions@.len() && ends_with(name, #[trigger] fs[j].extensions@[k]@);
            assert(fs[j].extensions@[k]@ == importer_table()[j].extensions[k]);
        }
    }
}

/// The import formats: virtual JSON, Iguazu pack, raw binary, CSV, TSV and
/// sigrok, in that order.
pub fn importers() -> (res: Vec<ImportFormat>)
    ensures
        res@.len() == 6,
        res@[0].name@ == "virtual"@,
        res@[1].name@ == "izs"@,
        res@[2].name@ == "raw"@,
        res@[3].name@ == "csv"@,
        res@[4].name@ == "tsv"@,
        res@[5].name@ == "sigrok"@,
        forall|i: int| 0 <= i < 6 ==> #[trigger] format_view(res@[i]) == importer_table()[i],
{
    let mut v: Vec<ImportFormat> = Vec::new();
    v.push(
        ImportFormat {
            name: "virtual",
            description: "Iguazu Virtual JSON",
            extensions: vec![".iguazu.json"],
        },
    );
    v.push(ImportFormat { name: "izs", description: "Iguazu Pack", extensions: vec![".izs"] });
    v.push(
        ImportFormat {
            name: "raw",
            description: "Raw binary",
            extensions: vec![
                ".bin",
                ".logic8",
                ".f32",
                ".cf32",
                "cfile",
                ".u8",
                ".u16",
                ".u32",
                ".u64",
                ".s8",
                ".s16",
                ".s32",
                ".s64",
                ".cu8",
                ".cu16",
                ".cu32",
                ".cu64",
                ".cs8",
                ".cs16",
                ".cs32",
                ".cs64",
            ],
        },
    );
    v.push(
        ImportFormat {
            name: "csv",
            description: "Comma-separated values",
            extensions: vec![".csv"],
        },
    );
    v.push(
        ImportFormat {
            name: "tsv",
            description: "Tab-separated values",
            extensions: vec![".tsv"],
        },
    );
    v.push(
        ImportFormat {
            name: "sigrok",
            description: "Sigrok (srzip v2)",
            extensions: vec![".sr"],
        },
    );
    proof {
        assert(v@[0].extensions@.map_values(|e: &str| e@) =~= importer_table()[0].extensions);
        assert(v@[1].extensions@.map_values(|e: &str| e@) =~= importer_table()[1].extensions);
        assert(v@[2].extensions@.map_values(|e: &str| e@) =~= importer_table()[2].extensions);
        assert(v@[3].extensions@.map_values(|e: &str| e@) =~= importer_table()[3].extensions);
        assert(v@[4].extensions@.map_values(|e: &str| e@) =~= importer_table()[4].extensions);
        assert(v@[5].extensions@.map_values(|e: &str| e@) =~= importer_table()[5].extensions);
        assert(forall|i: int| 0 <= i < 6 ==> #[trigger] format_view(v@[i]) == importer_table()[i]) by {
            assert(format_view(v@[0]) == importer_table()[0]);
            assert(format_view(v@[1]) == importer_table()[1]);
            assert(format_view(v@[2]) == importer_table()[2]);
            assert(format_view(v@[3]) == importer_table()[3]);
            assert(format_view(v@[4]) == importer_table()[4]);
            assert(format_view(v@[5]) == importer_table()[5]);
        }
    }
    v
}

/// The export formats: virtual JSON and Iguazu pack.
pub fn exporters() -> (res: Vec<ExportFormat>)
    ensures
        res@.len() == 2,
        res@[0].name@ == "virtual"@,
        res@[0].extension@ == ".iguazu.json"@,
        res@[1].name@ == "izs"@,
        res@[1].extension@ == ".izs"@,
        res@[0].description@ == "Iguazu Virtual JSON"@,
        res@[1].description@ == "Iguazu Pack"@,
{
    let mut v: Vec<ExportFormat> = Vec::new();
    v.push(
        ExportFormat {
            name: "virtual",
            description: "Iguazu Virtual JSON",
            extension: ".iguazu.json",
        },
    );
    v.push(ExportFormat { name: "izs", description: "Iguazu Pack", extension: ".izs" });
    v
}

/// Import options given on the command line.
pub struct ImportOpts {
    /// Input filename.
    pub filename: String,
    /// Input format and `:` separated options (if not specified, inferred
    /// from the filename).
    pub format: Option<String>,
    /// Schema override from file.
    pub schema: Option<String>,
    /// Select an entity by path within the file.
    pub entity: Option<String>,
}

/// The format name: what comes before the first `:` of the format option.
pub open spec fn spec_format_name(format: Option<String>) -> Option<Seq<char>> {
    match format {
        Some(f) => Some(split_on(f@, ':')[0]),
        None => None,
    }
}

/// An `OPTION=VALUE` piece as a pair; a piece without `=` sets `OPTION` to
/// the empty value.
pub open spec fn option_pair(p: Seq<char>) -> (Seq<char>, Seq<char>) {
    match split_once(p, '=') {
        Some(pair) => pair,
        None => (p, Seq::empty()),
    }
}

/// The characters of the format option; none when it is not given.
pub open spec fn format_chars(format: Option<String>) -> Seq<char> {
    match format {
        Some(f) => f@,
        None => Seq::empty(),
    }
}

/// The `OPTION=VALUE` pairs after the format name.
pub open spec fn spec_format_options(format: Option<String>) -> Seq<(Seq<char>, Seq<char>)> {
    split_on(format_chars(format), ':').skip(1).map_values(|p: Seq<char>| option_pair(p))
}

/// `"No import format `NAME`"`.
pub open spec fn no_format_named(name: Seq<char>) -> Seq<char> {
    "No import format `"@ + name + "`"@
}

/// `"No import format matched filename `NAME`"`.
pub open spec fn no_format_for_file(name: Seq<char>) -> Seq<char> {
    "No import format matched filename `"@ + name + "`"@
}

impl ImportOpts {
    /// The format name, if a format is given.
    pub fn format_name(&self) -> (res: Option<&str>)
        ensures
            match res {
                Some(n) => spec_format_name(self.format) == Some(n@),
                None => spec_format_name(self.format) is None,
            },
    {
        match &self.format {
            Some(f) => {
                let fs = f.as_str();
                let c = chars_of(fs);
                let mut i: usize = 0;
                while i < c.len() && c[i] != ':'
                    invariant
                        i <= c@.len(),
                        c@ == fs@,
                        forall|j: int| 0 <= j < i ==> fs@[j] != ':',
                    decreases c@.len() - i,
                {
                    i = i + 1;
                }
                proof {
                    lemma_first_piece(fs@, ':', i as int);
                }
                Some(fs.substring_char(0, i))
            },
            None => None,
        }
    }

    /// The `OPTION=VALUE` pairs given after the format name.
    pub fn format_options(&self) -> (res: Vec<(String, String)>)
        ensures
            res@.len() == spec_format_options(self.format).len(),
            forall|i: int|
                0 <= i < res@.len() ==> (#[trigger] res@[i]).0@ == spec_format_options(self.format)[i].0
                    && res@[i].1@ == spec_format_options(self.format)[i].1,
    {
        let f: &str = match &self.format {
            Some(f) => f.as_str(),
            None => "",
        };
        let ghost fv = format_chars(self.format);
        proof {
            reveal_strlit("");
        }
        assert(f@ == fv);
        let pieces = split_str(f, ':');
        proof {
            crate::text::lemma_split_on_nonempty(f@, ':');
        }
        let ghost want = spec_format_options(self.format);
        let mut out: Vec<(String, String)> = Vec::new();
        let mut i: usize = 1;
        while i < pieces.len()
            invariant
                1 <= i <= pieces@.len(),
                pieces@.len() == split_on(fv, ':').len(),
                forall|j: int| 0 <= j < pieces@.len() ==> #[trigger] pieces@[j]@ == split_on(fv, ':')[j],
                want == split_on(fv, ':').skip(1).map_values(|p: Seq<char>| option_pair(p)),
                out@.len() == i - 1,
                forall|j: int|
                    0 <= j < out@.len() ==> (#[trigger] out@[j]).0@ == want[j].0 && out@[j].1@
                        == want[j].1,
            decreases pieces@.len() - i,
        {
            let p = pieces[i].as_str();
            let pair = match split_once_str(p, '=') {
                Some(pair) => pair,
                None => (String::from_str(p), owned("")),
            };
            proof {
                reveal_strlit("");
                assert(want[i - 1] == option_pair(split_on(fv, ':')[i as int]));
            }
            out.push(pair);
            i = i + 1;
        }
        out
    }

    /// The format to use: the one named by the format option, or else the
    /// first one whose extension ends the file name.
    pub fn format<'a>(&self, importers: &ImportFormats<'a>) -> (res: Result<&'a ImportFormat, String>)
        ensures
            match spec_format_name(self.format) {
                Some(n) => match res {
                    Ok(f) => exists|i: int|
                        0 <= i < importers.0@.len() && *f == importers.0@[i] && named(
                            importers.0@[i],
                            n,
                        ) && forall|j: int| 0 <= j < i ==> !named(#[trigger] importers.0@[j], n),
                    Err(e) => e@ == no_format_named(n) && forall|i: int|
                        0 <= i < importers.0@.len() ==> !named(#[trigger] importers.0@[i], n),
                },
                None => match res {
                    Ok(f) => exists|i: int|
                        0 <= i < importers.0@.len() && *f == importers.0@[i] && spec_matches_filename(
                            importers.0@[i],
                            self.filename@,
                        ) && forall|j: int|
                            0 <= j < i ==> !spec_matches_filename(
                                #[trigger] importers.0@[j],
                                self.filename@,
                            ),
                    Err(e) => e@ == no_format_for_file(self.filename@) && forall|i: int|
                        0 <= i < importers.0@.len() ==> !spec_matches_filename(
                            #[trigger] importers.0@[i],
                            self.filename@,
                        ),
                },
            },
    {
        match self.format_name() {
            Some(name) => match importers.by_name(name) {
                Some(f) => Ok(f),
                None => {
                    let mut e = owned("No import format `");
                    e.append(name);
                    e.append("`");
                    Err(e)
                },
            },
            None => match importers.first_for_filename(self.filename.as_str()) {
                Some(f) => Ok(f),
                None => {
                    let mut e = owned("No import format matched filename `");
                    e.append(self.filename.as_str());
                    e.append("`");
                    Err(e)
                },
            },
        }
    }
}

/// The first piece of a split is the part before the first separator.
proof fn lemma_first_piece(s: Seq<char>, sep: char, i: int)
    requires
        0 <= i <= s.len(),
        forall|j: int| 0 <= j < i ==> s[j] != sep,
        i < s.len() ==> s[i] == sep,
    ensures
        split_on(s, sep)[0] == s.subrange(0, i),
    decreases s.len(),
{
    crate::text::lemma_split_on_nonempty(s, sep);
    if s.len() > 0 {
        let t = s.drop_last();
        if i < s.len() {
            lemma_first_piece(t, sep, i);
            crate::text::lemma_split_on_nonempty(t, sep);
            let p = split_on(t, sep);
            if s.last() == sep {
                assert(split_on(s, sep)[0] == p[0]);
            } else {
                if p.len() > 1 {
                    assert(split_on(s, sep)[0] == p[0]);
                } else {
                    lemma_single_piece_no_sep(t, sep);
                    if i < t.len() {
                        assert(t[i] == sep);
                    }
                    assert(false);
                }
            }
            assert(t.subrange(0, i) =~= s.subrange(0, i));
        } else {
            lemma_first_piece(t, sep, i - 1);
            crate::text::lemma_split_on_nonempty(t, sep);
            lemma_no_sep_single_piece(t, sep);
            assert(t.subrange(0, i - 1) =~= t);
            assert(t.push(s.last()) =~= s);
        }
    } else {
        assert(s.subrange(0, 0) =~= s);
    }
}

/// Without a separator there is one piece.
proof fn lemma_no_sep_single_piece(s: Seq<char>, sep: char)
    requires
        forall|j: int| 0 <= j < s.len() ==> s[j] != sep,
    ensures
        split_on(s, sep).len() == 1,
    decreases s.len(),
{
    if s.len() > 0 {
        lemma_no_sep_single_piece(s.drop_last(), sep);
    }
}

/// With the separator at index `i`, there are at least two pieces.
proof fn lemma_single_piece_no_sep(s: Seq<char>, sep: char)
    ensures
        forall|j: int| 0 <= j < s.len() && s[j] == sep ==> split_on(s, sep).len() >= 2,
    decreases s.len(),
{
    if s.len() > 0 {
        lemma_single_piece_no_sep(s.drop_last(), sep);
        crate::text::lemma_split_on_nonempty(s.drop_last(), sep);
        assert forall|j: int| 0 <= j < s.len() && s[j] == sep implies split_on(s, sep).len() >= 2 by {
            if j < s.len() - 1 {
                assert(s.drop_last()[j] == sep);
            }
        }
    }
}

/// Export options given on the command line.
pub struct ExportOpts {
    pub out_filename: String,
    pub out_format: Option<String>,
}

/// `"No export format named `NAME`"`.
pub open spec fn no_export_named(name: Seq<char>) -> Seq<char> {
    "No export format named `"@ + name + "`"@
}

/// `"No export format matched filename `NAME`"`.
pub open spec fn no_export_for_file(name: Seq<char>) -> Seq<char> {
    "No export format matched filename `"@ + name + "`"@
}

impl ExportOpts {
    /// The export format to use: the one named by the format option, or
    /// else the first whose extension ends the output file name.
    pub fn exporter<'a>(&self, exporters: &'a [ExportFormat]) -> (res: Result<&'a ExportFormat, String>)
        ensures
            match self.out_format {
                Some(n) => match res {
                    Ok(f) => exists|i: int|
                        #![trigger exporters@[i]]
                        0 <= i < exporters@.len() && *f == exporters@[i] && eq_ignore_ascii_case(
                            exporters@[i].name@,
                            n@,
                        ) && forall|j: int|
                            0 <= j < i ==> !eq_ignore_ascii_case(
                                (#[trigger] exporters@[j]).name@,
                                n@,
                            ),
                    Err(e) => e@ == no_export_named(n@) && forall|i: int|
                        0 <= i < exporters@.len() ==> !eq_ignore_ascii_case(
                            (#[trigger] exporters@[i]).name@,
                            n@,
                        ),
                },
                None => match res {
                    Ok(f) => exists|i: int|
                        #![trigger exporters@[i]]
                        0 <= i < exporters@.len() && *f == exporters@[i] && ends_with(
                            self.out_filename@,
                            exporters@[i].extension@,
                        ) && forall|j: int|
                            0 <= j < i ==> !ends_with(
                                self.out_filename@,
                                (#[trigger] exporters@[j]).extension@,
                            ),
                    Err(e) => e@ == no_export_for_file(self.out_filename@) && forall|i: int|
                        0 <= i < exporters@.len() ==> !ends_with(
                            self.out_filename@,
                            (#[trigger] exporters@[i]).extension@,
                        ),
                },
            },
    {
        match self.out_format.as_ref() {
            Some(fmt) => {
                assert(self.out_format == Some(*fmt));
                let mut i: usize = 0;
                while i < exporters.len()
                    invariant
                        i <= exporters@.len(),
                        self.out_format == Some(*fmt),
                        forall|j: int|
                            0 <= j < i ==> !eq_ignore_ascii_case(
                                (#[trigger] exporters@[j]).name@,
                                fmt@,
                            ),
                    decreases exporters@.len() - i,
                {
                    if str_eq_ignore_ascii_case(exporters[i].name, fmt.as_str()) {
                        let f = &exporters[i];
                        assert(*f == exporters@[i as int]);
                        assert(eq_ignore_ascii_case(exporters@[i as int].name@, fmt@));
                        return Ok(f);
                    }
                    i = i + 1;
                }
                let mut e = owned("No export format named `");
                e.append(fmt.as_str());
                e.append("`");
                Err(e)
            },
            None => {
                let mut i: usize = 0;
                while i < exporters.len()
                    invariant
                        i <= exporters@.len(),
                        self.out_format is None,
                        forall|j: int|
                            0 <= j < i ==> !ends_with(
                                self.out_filename@,
                                (#[trigger] exporters@[j]).extension@,
                            ),
                    decreases exporters@.len() - i,
                {
                    if str_ends_with(self.out_filename.as_str(), exporters[i].extension) {
                        let f = &exporters[i];
                        assert(*f == exporters@[i as int]);
                        return Ok(f);
                    }
                    i = i + 1;
                }
                let mut e = owned("No export format matched filename `");
                e.append(self.out_filename.as_str());
                e.append("`");
                Err(e)
            },
        }
    }
}

/// The outcome of setting the import options: success when no option
/// failed, else one message listing each failed option with its error.
pub open spec fn spec_options_report(errors: Seq<(Seq<char>, Seq<char>)>) -> Result<(), Seq<char>> {
    if errors.len() == 0 {
        Ok(())
    } else {
        Err(options_report_text(errors))
    }
}

/// `"Invalid import options"`, then a line `  - OPTION: ERROR` for each error.
pub open spec fn options_report_text(errors: Seq<(Seq<char>, Seq<char>)>) -> Seq<char>
    decreases errors.len(),
{
    if errors.len() == 0 {
        "Invalid import options"@
    } else {
        options_report_text(errors.drop_last()) + "\n  - "@ + errors.last().0 + ": "@
            + errors.last().1
    }
}

/// `r` is an outcome that `set` of `T` can give when the option `name` is
/// set to `value`.
pub open spec fn set_outcome<T: Importer>(name: Seq<char>, value: Seq<char>, r: Result<(), Seq<char>>) -> bool {
    exists|a: &mut T, o: &str, v: &str, out: Result<(), String>|
        #[trigger] call_ensures(T::set, (a, o, v), out) && o@ == name && v@ == value
            && crate::config::err_view(out) == r
}

/// The options whose outcome is an error, each with its error, in order.
pub open spec fn failed_options(
    options: Seq<(Seq<char>, Seq<char>)>,
    outcomes: Seq<Result<(), Seq<char>>>,
) -> Seq<(Seq<char>, Seq<char>)>
    decreases options.len(),
{
    if options.len() == 0 || outcomes.len() == 0 {
        Seq::empty()
    } else {
        let rest = failed_options(options.drop_last(), outcomes.drop_last());
        match outcomes.last() {
            Ok(()) => rest,
            Err(e) => rest.push((options.last().0, e)),
        }
    }
}

impl ImportOpts {
    /// Sets each `OPTION=VALUE` pair of the format option on `importer`, in
    /// order, and reports the options that failed together.
    ///
    /// The outcome of each pair is one that the importer's `set` gives for
    /// it; which one depends on the importer.
    pub fn apply_options<T: Importer>(&self, importer: &mut T) -> (res: Result<(), String>)
        ensures
            exists|outcomes: Seq<Result<(), Seq<char>>>|
                #![trigger failed_options(spec_format_options(self.format), outcomes)]
                {
                    let options = spec_format_options(self.format);
                    &&& outcomes.len() == options.len()
                    &&& forall|i: int|
                        0 <= i < options.len() ==> set_outcome::<T>(
                            options[i].0,
                            options[i].1,
                            #[trigger] outcomes[i],
                        )
                    &&& crate::config::err_view(res) == spec_options_report(
                        failed_options(options, outcomes),
                    )
                },
            spec_format_options(self.format).len() == 0 ==> res is Ok,
    {
        let pairs = self.format_options();
        let ghost options = spec_format_options(self.format);
        let ghost mut outcomes: Seq<Result<(), Seq<char>>> = Seq::empty();
        let mut errors: Vec<(String, String)> = Vec::new();
        let mut i: usize = 0;
        while i < pairs.len()
            invariant
                i <= pairs@.len(),
                pairs@.len() == options.len(),
                forall|j: int|
                    0 <= j < pairs@.len() ==> (#[trigger] pairs@[j]).0@ == options[j].0 && pairs@[j].1@
                        == options[j].1,
                outcomes.len() == i,
                forall|j: int|
                    0 <= j < i ==> set_outcome::<T>(options[j].0, options[j].1, #[trigger] outcomes[j]),
                errors@.map_values(|e: (String, String)| (e.0@, e.1@)) == failed_options(
                    options.subrange(0, i as int),
                    outcomes,
                ),
            decreases pairs@.len() - i,
        {
            let opt = pairs[i].0.as_str();
            let val = pairs[i].1.as_str();
            let r = importer.set(opt, val);
            let ghost out = crate::config::err_view(r);
            assert(set_outcome::<T>(options[i as int].0, options[i as int].1, out));
            let ghost before = errors@.map_values(|e: (String, String)| (e.0@, e.1@));
            match r {
                Ok(()) => {},
                Err(e) => {
                    let name = pairs[i].0.clone();
                    errors.push((name, e));
                },
            }
            proof {
                let opts2 = options.subrange(0, i + 1);
                let outs2 = outcomes.push(out);
                assert(opts2.drop_last() =~= options.subrange(0, i as int));
                assert(outs2.drop_last() =~= outcomes);
                assert(errors@.map_values(|e: (String, String)| (e.0@, e.1@)) =~= failed_options(
                    opts2,
                    outs2,
                ));
                outcomes = outs2;
            }
            i = i + 1;
        }
        assert(options.subrange(0, i as int) =~= options);
        report_option_errors(&errors)
    }
}

/// Reports the options that failed to be set.
pub fn report_option_errors(errors: &[(String, String)]) -> (res: Result<(), String>)
    ensures
        crate::config::err_view(res) == spec_options_report(
            errors@.map_values(|e: (String, String)| (e.0@, e.1@)),
        ),
{
    if errors.len() == 0 {
        return Ok(());
    }
    let mut msg = owned("Invalid import options");
    let mut i: usize = 0;
    while i < errors.len()
        invariant
            i <= errors@.len(),
            msg@ == options_report_text(
                errors@.subrange(0, i as int).map_values(|e: (String, String)| (e.0@, e.1@)),
            ),
        decreases errors@.len() - i,
    {
        let ghost before = errors@.subrange(0, i as int).map_values(|e: (String, String)| (e.0@, e.1@));
        let ghost after = errors@.subrange(0, i + 1).map_values(|e: (String, String)| (e.0@, e.1@));
        assert(after.drop_last() =~= before);
        msg.append("\n  - ");
        msg.append(errors[i].0.as_str());
        msg.append(": ");
        msg.append(errors[i].1.as_str());
        i = i + 1;
    }
    assert(errors@.subrange(0, i as int) =~= errors@);
    Err(msg)
}

} // verus!
