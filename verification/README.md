# sipress_core

A SIP load generator for softswitches. The caller side places calls at a
given rate (INVITE, ACK, BYE, CANCEL) and measures post-dial delay, setup
time, answer and completion ratios; the callee side registers accounts
(with Digest authentication) and answers the calls sent to them. Calls may
carry G.711 audio over RTP, whose loss and jitter are measured.

## Layout

- `src/` — the library, verified with Verus:
  - `text.rs`, `num.rs` — character strings and decimal/hexadecimal text;
  - `sip/` — reading header fields (`parser`), the text of requests and
    responses (`message`), REGISTER and Digest answers (`register`), the
    state of a call (`dialog`);
  - `caller.rs`, `agent.rs`, `registrar.rs` — the decisions of the caller
    side, of the callee side, and of a one-off registration;
  - `rtp/` — packets, G.711 and WAV audio, the sender of a session, and
    reception statistics;
  - `stats.rs`, `sip_logger.rs`, `reporter.rs`, `config.rs` — counters and
    latency distributions, the text of the SIP log, report formats, modes.
- `app/` — the `sipress` command: sockets, timers and tasks, the terminal
  dashboard, and the report figures that are computed in floating point.
- `tests/` — tests of the library.
