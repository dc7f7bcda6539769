# img4schemaorg

Writes schema.org `ImageObject` markup for an uploaded picture: a visible
`<img>` with its `srcset`, and one hidden thumbnail block per configured
resolution of every configured aspect ratio. A small JSON-RPC server keeps the
picture name and the settings in redis and publishes the markup.

Layout:

- `src/` — the verified library (Verus): decimal numbers (`decimal`), field
  splitting (`text`), the markup templates and the settings reader (`markup`),
  JSON-RPC argument checking (`rpc`), and the one trusted call into the url
  crate (`urlpath`).
- `app/` — the server: redis storage, the thumbnail script, JSON-RPC plumbing.
- `tests/` — tests of the library.

Settings are one `|`-separated string: base URL, file name, description, alt
text, meta name, meta description, and the aspect-ratio list, e.g.
`1:1_320x320,640x640;16:9_640x360,1280x720`.
