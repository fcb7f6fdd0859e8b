# notify-lsp-proxy

An LSP proxy that sits between a client and a language server and adds file
watching on behalf of the client. It keeps `client/registerCapability` requests
back, watches the requested glob patterns itself, and injects
`workspace/didChangeWatchedFiles` notifications into the language server's
input. Everything else passes through unchanged, except that diagnostics lose
their document version.

```sh
notify-lsp-proxy [--notify-open-files] -- <language-server> [arguments...]
```

The logic is a library verified with Verus:

- `src/framing.rs`: the message headers of LSP, written and read
- `src/json.rs`: a model of JSON documents, over which `serde_json` is specified
- `src/globs.rs`: the same for the glob patterns of `globset`
- `src/uri.rs`: file paths and `file:` URIs
- `src/registration.rs`: which patterns a server asks to have watched
- `src/watching.rs`: which file changes are reported
- `src/documents.rs`: the documents that the client has open
- `src/edits.rs`: what becomes of a document's text when it is changed
- `src/messages.rs`: the messages that the proxy itself sends
- `src/proxy.rs`: what is done with each message and each file event
- `src/text.rs`: text and decimal numbers

`app/` is the program around it: arguments, processes, streams and the file
watcher.
