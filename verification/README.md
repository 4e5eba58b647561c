# inertia

A verified core for serving Inertia.js applications: request-header parsing,
partial-reload prop selection, page metadata and the page object's JSON
text, page drafts and shared-prop merging, untyped pages and the
request's rendering façade, lazy and deferred props, transient flash and
validation state, encrypted cookie transport, redirects and location visits,
form extraction and validation outcomes, script-safe page embedding, Vite
and embedded asset serving, and the SSR startup probe and supervision
step functions.  The library's
laws are stated as proof functions (`law_*`).

What is verified and what is trusted:

- Every function under `src/` with a body that Verus reads is verified
  against its contract.
- The calls into outside crates and the few std calls that vstd gives no
  specification sit behind `#[verifier::external_body]` wrappers, whose
  contracts are trusted: `json_text`, `json_string_value`, `json_object`,
  `json_array`, `object_entries` (serde_json); `sha512_digest`,
  `sha256_digest` (sha2); `parse_cookie_pair`, `private_open_value`,
  `sealed_cookie` (cookie); `check_header_value` (http);
  `parse_uri_reference` (fluent-uri); `parse_uri` (http); `guess_mime`
  (mime_guess); `brotli_decompress` (brotli-decompressor); `push_char`
  (std).  `serde_json::Value`'s `Clone` has an `assume_specification`, and
  `serde_json::Value` is declared as an opaque outside type.  The `uninterp` spec functions name what an outside call returns
  where its result is a function of its arguments alone.

Layout:

- `src/` — the verified library.
- `tests/` — executable tests of the library.
- `app/` — framework glue: Rocket fairing, guards and responders, header
  conversion, JSON (de)serialization of library values, file and process
  access.
