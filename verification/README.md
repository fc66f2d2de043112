# latale-tools

Readers, writers and converters for the resource formats of the LaTale
client, with their behaviour stated in contracts and proved by Verus.

## Layout

- `src/` — the verified library.
  - `bytes` — little-endian integers in byte sequences.
  - `common` — the text encodings of the regional clients (GBK, Big5,
    EUC-KR, Shift_JIS, UTF-8), string helpers, and the paths that
    converted files are written to.
  - `spf` — SPF resource packs: the registry of pack names, the FINFO and
    header records, the ChaCha20 variant that encrypts records and
    resources, the reader, the writer, and the order of file names.
  - `ldt` — LDT tables: field types and values, the 8716-byte header, the
    reader, the writer, the CSV form of a table, and which way a directory
    of tables is converted.
  - `stg` — STG stage files: stages, map groups and maps, the reader and
    the writer.
  - `launch` — open requests passed by the desktop shell.
  - `sqlite` — column types, column names, quoted identifiers and the
    rows that go into the SQLite export.
  - `*/laws.rs` — what reading gives back of what the writers wrote.
- `tests/` — tests of the library on concrete values.
- `app/` — the command-line program (`spf`, `ldt` and `stg` commands) and
  the file operations behind the desktop shell: file access, printing,
  JSON, SQLite and the float conversions.
