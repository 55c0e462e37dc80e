# gl_generator registry parser

Reads the Khronos API registry (`gl.xml`, `egl.xml`, ...) and selects the
enums and commands of one API version, profile and set of extensions.

The XML text is tokenised by the `xml-rs` crate (`src/xml_events.rs`, the
only trusted call). Everything after that is verified with Verus:

- `src/parse.rs` states the registry grammar over XML events as spec
  functions. `RegistryParser::parse` is proved to follow it on every
  document that the grammar accepts (its precondition); `check` and the
  `try_` functions return, for any document, the error that the grammar
  gives exactly where it falls short;
- `src/select.rs` states and implements the choice of features (by API,
  version and profile) and extensions, and the filtering of enums and
  commands;
- `src/laws.rs`, `src/event_laws.rs` and `src/block_laws.rs` prove
  properties that hold for every input, among them that comments,
  whitespace and `<type>` elements inside features change nothing, and
  that a `<remove>` block for another profile, put into any feature of a
  document, leaves the selected registry as it is.

`app/` reads a registry from any `io::Read` source and turns errors into
panics with messages, as the generator does.
