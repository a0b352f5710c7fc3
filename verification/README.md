# url_wasm

A URL parser and a `URLSearchParams` list, written in Verus.

- `src/` is the verified library: the parser's state machine (`machine`,
  with its model in `machine_spec`), host parsing and serializing
  (`parser`, `serializers`), percent-encoding (`encode_sets`), the URL record
  (`url`), the search parameters (`url_search_params`), the `URL` object
  (`url_object`), how the IPv6 parser reads back what the serializer writes
  (`ipv6_text`), and properties that relate these functions (`laws`).
- `app/` is the WebAssembly face of the library: `wasm-bindgen` classes that
  convert JavaScript values and hand them to the library.
- `tests/` runs the library on concrete inputs.

Calls into `idna` and `percent-encoding` stand behind a few small trusted
functions, each of which names the outside function it calls.
