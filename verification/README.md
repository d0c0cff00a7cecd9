# moqtail_apps

A relay, a test client and a media publisher for MOQ Transport. What they decide is a library
written in Verus: its functions carry contracts, and the verifier proves the code against them. What
they do (sockets, files, clocks, floating point) is ordinary Rust around it.

## Layout

`src/` is the library.

- The relay: `session` and `session_context` (negotiation, the control stream, the streams that
  come in, what a lost connection leaves behind), `client` (what is kept of a client, its streams
  and its write rate), `track`, `track_manager`, `subscription`, `subscription_manager` and
  `forwarding` (who gets which object), `switch_context` (the hand-over from one track to another),
  `priority` and `stream_id` (in what order streams are sent and how they are told apart),
  `subscribe_handler` and `fetch_handler` (requests).
- The test client: `cli`, `publisher`, `subscriber`, `switcher`, `stats` and `event_log`.
- The media publisher: `boxes` and `mp4_processor` (an MP4 stream is cut into objects), `catalog`,
  `timeline` and `timeline_producer`.
- Shared: `names`, `location`, `message`, `pairs`, `control`, `table`, `text` and `json`.
- `outside` holds the functions of other crates that the library calls, each with what is taken for
  granted of it.

Laws that relate several functions stand in the modules as public proof functions whose names begin
with `law_`.

`tests/` runs the library on concrete values.

`app/` is the program: `relay`, `client` and `pub` are its subcommands. It turns wire messages into
the library's values and back (`wire`), and carries out what the library decides. What is computed
in floating point is in `payloads`.
