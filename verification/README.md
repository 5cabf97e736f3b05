# daisy_pedal

Verified logic of a guitar pedal built from a Daisy Seed (audio) and an
ESP32 (Wi-Fi control and spectrum display), written in Verus.

- `src/` — the verified library: 16-bit gain/invert stages, 24-bit codec
  sample packing, the FFT sample-buffer hand-over, the delay ring and the
  looper, bit-depth and delay-length settings, the UART command line (CRC-8),
  the binary spectrum packet (CRC-16), COBS frame splitting, the HTTP request
  reader's decisions, register-bit updates and the demo noise generator.
- `tests/` — scenario tests of the library.
- `app/` — board glue: the floating-point effects and reverb delay lengths,
  the FFT, serde/COBS wire types and the byte-at-a-time I/O loops over
  `embedded-hal` traits.
