# insight

A small RTSP client. The library (`src/`) holds the logic, each function with a
contract that Verus proves:

- `utils` — splitting an `rtsp://server:port/...` URL into server and port (554 by default).
- `session` — the client's session state: the OPTIONS, DESCRIBE, SETUP and PLAY requests,
  numbered by `CSeq`, and what the DESCRIBE reply's header lines give (session id,
  body length, audio and video tracks).
- `response` — reading the header block of a reply line by line (`Response`), with the
  DESCRIBE reply's numeric session id and body length.
- `rtp_packet` — RTP packets: reading one from an interleaved frame and writing one out,
  with both round trips proved.
- `text` — the character-level helpers these use: search, split, trim, decimal numbers.

`app/` is the program around it: the TCP connection, reading lines and frames off the
socket, and `main`.
