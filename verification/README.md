# strom

The decisions of a media server, as a verified library: which page a remote
control link opens, what a session may ask of a browser, how WHIP offers and
answers are rewritten, how pipelines are written down and read back, and what
every built-in block is made of for the properties it is given.

* `src/` is the library. Every function in it is proved to meet its contract,
  and the laws that span functions are public proof functions beside them.
  * `text`, `sequences`, `json`, `ids`, `http`, `properties`, `flow`: what the
    rest is built on.
  * `devtools`: remote control of HTML sources. `access` checks names and
    addresses, `links` keeps the links, `targets` finds the page of a source,
    `session` answers requests and judges messages.
  * `sdp`, `whip`, `whep`: session descriptions, the WHIP proxy, and the control
    page of vision mixers.
  * `gst_launch`: pipelines in `gst-launch-1.0` syntax.
  * `media`, `endpoints`: media listings and the small endpoints.
  * `blocks`: the built-in blocks. A block is built as a plan (`plan`): elements
    with their settings, and the connections between them. `definition` says how
    a block presents itself.
* `tests/` runs the library on concrete values.
* `app/` is ordinary Rust around the library: the HTTP handlers, the sockets,
  and the code that makes GStreamer elements of plans.

What the library takes from other crates stands behind small functions marked
`external_body`, each with a comment that says what it relies on: `serde_json`
for documents, `uuid` for identifiers, `urlencoding` for addresses, and the few
functions of the standard library on text and paths that Verus has no contract
for.
