# Starfire

A client for hosts that stream a desktop over the GameStream protocol: pairing, RTSP setup, the
control channel, video with forward error correction, audio and input. A tool takes captures of
such connections apart.

- `src/` is the library, verified with Verus. Every function states what it returns; the functions
  whose names begin with `law_` state what holds across functions, such as that a frame survives the
  loss of any shards up to the number of its parity shards.
- `tests/` runs the library on concrete values.
- `app/` is the desktop client around it: sockets, TLS, the window, the GPU, the decoders of the
  platforms, and the command line of the capture tools.

The library calls outside crates for ciphers, certificates and XML. Each such call stands in a small
function whose comment says what is taken on trust.

## Running

    STARFIRE_HOST=192.168.0.224 STARFIRE_PIN=1234 starfire
    starfire slice session.pcap --list
    starfire stream-bench capture.pcap

`STARFIRE_APP`, `STARFIRE_W`, `STARFIRE_H`, `STARFIRE_FPS`, `STARFIRE_BITRATE`, `STARFIRE_SLICES`,
`STARFIRE_FEC` and `STARFIRE_PKT` set what is streamed. `STARFIRE_HEADLESS` runs without a window,
and `STARFIRE_BENCH` prints measures after `STARFIRE_BENCH_SECS` seconds.
