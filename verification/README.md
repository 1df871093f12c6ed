# iguazu

Tools for viewing, storing, and sharing mixed-signal time series data.

`src/` is the library, written in Verus: every function carries a contract
that Verus proves. Where a property relates several functions or a run of
calls, it is stated and proved as a lemma (`pub proof fn lemma_*`), such as
`append_array::lemma_calls_keep_written` for any run of writer calls on an
`AppendArray` whose length is within its capacity (as `AppendArray::len`
states of a well-formed array). It holds:

- `idx_range`, `element`, `le`, `izs`: index ranges, element sizes,
  little-endian fields, and the footer and block index of `.izs` packs.
- `zip`, `chunks`, `srzip`: the directory of ZIP archives, the capture
  chunks of sigrok session files, their metadata and its description.
- `csv_options`, `csv_records`, `type_infer`: the options of the CSV and TSV
  importers, reading CSV records with `csv_core`, and inferring the type of
  each column.
- `flat_file`, `formats`, `importer`, `config`: data types of raw sample
  files, the choice of import and export formats, configurable objects and
  the setting and parsing of their options.
- `append_array`: a fixed-capacity array that one writer appends to.
- `column_parser`: how a CSV column is parsed, chosen from the schema of
  the entity it fills.
- `entity`: the named colors of entities and enum variants.
- `rel_path`, `ranges`: relative paths between URLs, HTTP range headers and
  reading byte ranges.
- `time`, `time_format`, `ticks`, `column`: times in attoseconds, their
  arithmetic and renderings, the ticks of a time axis, and timestamp units.
- `info`: the tree that describes the entities of a file.
- `text`, `order`: text helpers and the byte order of strings.

Calls into outside crates (`csv_core`, `jiff`, `lexical_core`,
`owo_colors`, `url`) and a few std functions go through small trusted wrappers
whose contracts say what those functions document.

`app/` is the `iguazu info` command: it reads the file, hands its bytes to
the library, and prints the description. What needs floating point (sample
rates, number ranges of CSV columns) also lives there.

`tests/` exercises the library on concrete values.
