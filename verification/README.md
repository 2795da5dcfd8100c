# zed_intellij

The logic of a Zed integration of the JetBrains `intellij-server` backend
(the IntelliJ engine for Java and Kotlin), as a library whose functions carry
`requires`/`ensures` contracts proved with Verus, and a thin program around it.

- `src/` — the verified library:
  - `frame`: LSP/DAP `Content-Length` framing (decoder and encoder, with the
    round-trip law);
  - `json`: the JSON model the protocol logic works on, read from and
    written to bytes and text through `serde_json`;
  - `router`: the proxy's interception table (what goes to the server, what
    goes to the client, what the proxy answers itself);
  - `rewrite`, `uri`, `buildfiles`: cache paths of decompiled `jar:`/`jrt:`
    documents, rewriting of locations and hover links, percent coding,
    build-descriptor detection;
  - `control`, `dap`: the control channel's answers and the debug adapter's
    launch completion;
  - `config`, `eula`, `server`, `install`, `fetch`, `extension`, `paths`,
    `proxy`, `text`: settings, EULA hash, backend and proxy acquisition (as
    state machines), server command line, command-line parsing.
- `app/` — the program: processes, threads, pipes, sockets, files and the
  editor host calls, each decision taken by the library.
- `tests/` — the library's tests.
