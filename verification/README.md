# l337_audio_server

An audio server that plays, caches and streams tracks for remote clients
over an authenticated HTTPS API (or a local Unix socket).

- `src/` is the library, written in Verus: every function there carries a
  contract that Verus proves. It holds the server's decisions — request
  authorization and token rotation, the one-time challenge by which a client
  obtains the token, the per-address rate limit, the cache manifest and its
  least-played, oldest-first eviction, the playback slots and the skips between them, the
  transport state of the player, the classification of downloader output,
  the stall accounting of streamed playback, and the start-up choices
  (transport, token, default configuration file).
- `tests/` runs the library on concrete values.
- `app/` is the program around it: configuration, HTTP routes, TLS, files,
  downloads, decoding and resampling, and the audio output (ALSA on Linux, with
  its writer's every step decided by the library; silent where ALSA cannot be
  opened and on other systems).
