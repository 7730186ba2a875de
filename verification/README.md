# hpr-skygate

Beast/Mode-S ingest, decode and fan-out engine with AIS support. The
decoding and protocol logic is a Verus-verified library (`src/`); the
program around it (sockets, threads, files, floating-point geometry) is
ordinary Rust (`app/`).

## Layout

- `src/` — the verified library, crate `hpr_skygate`:
  - `crc`, `mode_s`: CRC-24 with one-bit repair; DF0/4/5/11/16/17/18/20/21
    parsing and ADS-B decoding, speeds and angles kept as received.
  - `beast`, `buffers`, `client`, `ingest`, `receiver`: Beast framing, the
    receiver-id (0xe3) and UUID (0xe4) frames, per-feeder state with rate
    limiting and garbage routing, wire-frame decoding, loop timers.
  - `aircraft`, `enrichment`, `reduce`, `wire`, `sbs`: the aircraft table,
    self-learning route enrichment, per-aircraft rate reduction, the atlas
    static frame, SBS timestamp fields.
  - `writer`, `ws`, `api`, `request_body`, `alerts`, `feeder`, `bincraft`: shared output
    buffer with bounded per-subscriber queues, WebSocket handshake (SHA-1,
    base64) and frame headers, HTTP routing and request bodies, the alert
    ring, feeder matching,
    counts and rankings, the binCraft record layout.
  - `ais`, `nmea`: AIS payload decoding, fragment reassembly, duplicate
    suppression, source lists, the vessel table, NMEA armoring.
  - `sdr`, `sdr_tool`, `compact_ingest`: magnitude tables, preamble
    detection, bit slicing, 1090 MHz demodulation, AIS HDLC deframing, the
    compact frame stream.
- `app/` — the executable: configuration, the epoll ingest loop, output
  sockets, HTTP and WebSocket servers, CPR position decoding, receiver
  coverage, JSON/binCraft/SBS output, AIS readers, SDR front ends.
- `tests/` — tests of the library.

Each public function states its result in its `ensures`, over spec
functions that describe the protocol; laws relating several functions are
public proof functions next to them (`lemma_*`).
