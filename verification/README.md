# anytalk-daemon

A daemon that turns speech into text for an input method. A client connects to
a Unix socket and sends `{"type":"start"}`, `{"type":"stop"}` or
`{"type":"cancel"}`, one JSON object per line. While a session runs, the daemon
captures the default microphone, streams 16 kHz mono PCM to a recognition
service over a WebSocket, and sends `status`, `partial`, `final` and `error`
messages back.

- `src/` is the library, written in Verus: every function states what it does in
  its contract, and the properties that span functions are the proof functions
  whose names begin with `law_`.
  - `wire`: the service's binary frames
  - `request`, `json`: the request that opens a session, and JSON documents
  - `transcript`: from responses to previews and final texts
  - `relay`: the connection to the service, as a state machine
  - `client`, `messages`: the conversation with a client
  - `audio`: mixing, the integer side of resampling, chunks
  - `config`, `text`: settings, paths, text operations
- `app/` is the program around it: sockets, the device, the environment, and
  the floating-point interpolation of samples.
- `tests/` exercises the library from outside.

## Environment

- `ANYTALK_APP_ID` and `ANYTALK_ACCESS_TOKEN` (required)
- `ANYTALK_RESOURCE_ID` (default `volc.seedasr.sauc.duration`)
- `ANYTALK_MODE` (default `bidi_async`)

The socket is `$XDG_RUNTIME_DIR/anytalk.sock`, or else
`/run/user/$UID/anytalk.sock`, or else `/tmp/anytalk.sock`.
