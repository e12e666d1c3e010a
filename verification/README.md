# gateway_core

A Discord gateway client whose logic is verified with Verus.

- `src/` is the verified library:
  - `term.rs`: the Erlang external term model of frames, with the calls into
    `eetf` that decode and encode terms and the check that bytes can be
    decoded;
  - `value.rs`: documents and values read out of terms and written back, with
    the law that a written document reads back as itself;
  - `text.rs`: decimal rendering and parsing, prefixes, suffixes and ASCII
    case folding on text;
  - `obj.rs`: frames, users, attachments, emoji, messages and reactions read
    out of documents, and the avatar, banner and display texts of a user;
  - `stream.rs`: the `flate2` decompression stream, with the record of
    every time it was fed;
  - `inflater.rs`: the zlib-stream inflater built on it;
  - `cache.rs`: the per-channel message caches (`bounded_vec_deque`), each
    kept within its limit by a type invariant;
  - `commands.rs`: command splitting, mentions (`regex`) and the replies;
  - `gateway.rs`: the client state and the decision on every frame, as a
    function from state and frame to new state and actions, with its laws.
- `app/main.rs` is the program: it holds the websocket and the HTTP client,
  runs the heartbeat timer and performs the actions the library decides on.
- `tests/` runs the library on concrete frames and texts.
