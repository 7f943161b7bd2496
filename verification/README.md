# ruach

The backend of Ruach, a personal markdown editor whose documents are plain
`.md` files in a vault directory, with a SQLite sidecar index for tags,
`[[links]]` and full-text search.

- `src/` is the verified library (Verus): the rules of vault-relative paths,
  document titles, tag and link extraction, the rows indexing derives,
  search query planning and escaping, attachment naming and `data:` URL
  decoding, HTML export assembly and escaping, URL encoding for window
  URLs, scan decisions and schema migration steps, and the filter that
  empties link and image URLs in the rendered HTML whose scheme is not
  `http`, `https` or `mailto`. Markdown rendering calls comrak and base64
  coding calls the base64 crate, each behind a small trusted wrapper; the
  encoding is stated as RFC 4648, while the rendered HTML and the decoding
  are named results.
- `app/` is the I/O around it: reading and writing files, the SQLite
  sidecar, settings in JSON, the serialized error, and the commands the
  frontend invokes.
- `tests/` exercises the library on concrete values.
