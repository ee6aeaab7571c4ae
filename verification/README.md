# castbell

A webhook server that drives Chromecast devices when a doorbell rings, and a small client that sends
it a test alarm.

- `src/` is the library, verified with Verus: what the flags mean (`flags`, `config`, `address`), what
  an alarm holds (`payload`), which snapshots are served and for how long (`media`, `time`), what is
  played on a device (`cast`) and by which commands (`run`), what the server answers (`web`) and what a
  hit on an endpoint sets going (`webhook`), and the alarm of the test client (`client`). `text` and
  `registry` hold the functions on strings and the map that the others build on.
- `app/` is the program around it: the command line, the HTTP server, the connection to the devices,
  and the test client.
- `tests/` runs the library.

Each function states what it returns in its `ensures`. The properties that span functions are public
proof functions, next to the functions they speak of. Calls into other crates and the clock stand in
small functions marked `external_body`, whose comments say what is taken for granted about them.
