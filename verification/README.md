# fontsource_downloader

A library to download (and cache) fonts with the [Fontsource] REST API,
written in Verus.

`src/` is the verified library:

- `query` — `Weight`, `FontFileType`, and `QueryBuilder`/`FontQuery`: family
  names and subsets are trimmed, styles normalized to `normal`, `italic` or
  `oblique`, each collection behaves as a set, and `build` fills in defaults.
- `responses` — Fontsource family metadata, the selection of the variants a
  query asks for (`get_variant_subsets`), the `@font-face` CSS for CDN or
  self-hosted URLs (`css`, `css_url_map`) and the font files to fetch
  (`font_files`).
- `caching` — cached family lists and metadata, their expiry, and the
  `Cache-Control: max-age` parser.
- `keyed`, `text`, `api`, `error` — keyed entry lists with distinct keys,
  exact string operations, endpoint URLs, and the error type.

The maps of Fontsource metadata (variants by weight, style and subset, the
URLs of each file type, Unicode ranges, family names) are lists of
(key, value) entries whose keys are distinct (`keyed`), not `HashMap`s.
Verus did not refuse a `HashMap` form; none was tried. Most of these maps
are keyed by strings or by `FontFileType`, whose hashing comes from
`derive`: for such keys Verus proves nothing about a `HashMap` lookup. The
weight map, keyed by `u16`, uses the same form as the others. Variant
selection returns a `Vec` in query order, and its contract states that no
two entries have the same weight, style and subset.

`app/` is the I/O around it: the HTTP client, cache files and locks,
concurrent downloads, the JSON forms of the library's types, and the Python
extension module (`app/python.rs`), whose classes delegate to the library.

[Fontsource]: https://fontsource.org/docs/api/introduction
