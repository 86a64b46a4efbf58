# mxl-bridge

Two programs share this library.

The bridge mirrors the streams of a ST 2110-30 daemon as NMOS resources. For each Sink of the daemon
there is a source, a flow and a sender, for each Source a receiver. While they are activated, audio
moves between the daemon's device and flows in shared memory (MXL).

The console is a mixer whose inputs and outputs are such flows: tracks, buses and masters, a patch
bay between them, and a control protocol for its clients.

## Layout

- `src/` is the library, verified with Verus: the rules, the state and the documents of both
  programs. It does no input or output.
  - `bridge/` is the bridge: what changed at the daemon (`daemon_client`), the declared layout of
    streams (`provision`), positions in flows (`mxl_flow`, `mxl_samples`), what playback does about
    failures (`alsa_playback`), and the node (`nmos/`).
  - `console/` is the console: the patch bay (`patch`), strips and their compensation (`mixer`),
    the work of a period (`engine`), creation and deletion (`topology`), the protocol (`ws`), the
    state file (`persistence`), and its node (`nmos/`).
  - `json`, `single`, `table`, `text`, `uuid`, `ids`, `nmos`, `search` are shared.
- `tests/` run the library.
- `app/` is the programs: HTTP, WebSockets, files, the audio device, shared memory, and everything
  in floating point. Levels and samples pass through the library as the bits of their values.

Proof functions whose names begin with `law_` state what holds of several functions together.

What is taken on trust: the three calls into the `uuid` crate in `uuid.rs`.
