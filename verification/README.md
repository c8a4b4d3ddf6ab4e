# invman

Invoice management: an invoice is written as a small TOML document, turned
into an `Invoice`, rendered as a standalone HTML page, and printed to PDF.

The library under `src/` is verified with Verus:

- `invoice` — line items, their pricing, the invoice and its builder.
- `date`, `ids` — calendar dates and UUIDs, with the calls into `time` and
  `uuid` behind small trusted wrappers.
- `text` — whitespace, trimming, decimal parsing and printing, ASCII case.
- `toml_frontend` — converts a deserialized invoice document (numbers given
  as `"150,000"`, dates given as `"YY.MM.DD"` or TOML dates, items priced by
  unit or by total) into an invoice; `parse_toml` is proved against the spec
  function `parsed_fields`.
- `codegen` — the HTML page; `render_invoice` is proved to produce exactly
  `rendered_page`.
- `naming` — the `{from}_{to}_invoice{num}{_vN}_{YYMMDD}` file name stem.
- `records`, `saves`, `saving` — the in-memory side of the record stores:
  which files of a folder are records, what a folder loads into, and what a
  save changes.

`app/` holds the program: argument handling, file and directory I/O, the
serde copies of the document and record types (with the TOML field aliases
and defaults), and the PDF printing through headless Chrome.
