# divoom_ditoo_pro_controller

Controls a Divoom Ditoo Pro over Bluetooth. The library holds the protocol
and rendering logic, written in Verus and verified against its contracts;
the command-line tool around it is ordinary Rust.

## Layout

- `src/protocol/command.rs`: the command bytes of the device.
- `src/protocol/packet.rs`: framing of packets sent to the device (length,
  checksum, start and end bytes) and decoding of the frames it sends back,
  with the round-trip and uniqueness laws of that encoding.
- `src/protocol/extended_command.rs`: extended commands and the table of
  language codes.
- `src/protocol/bdf_font.rs`: what the text renderer reads of a BDF font,
  through `bdf-parser`.
- `src/protocol/scrolling_text.rs`: glyph rasterization, line layout on the
  16x16 display, frame rendering and the frames of a scrolling text, from
  BDF font data to frames.
- `src/protocol/static_text.rs`: the pixels of a text that does not scroll.
- `src/protocol/video.rs`: pixel conversion for video frames.
- `src/divoom_file_format/`: palettes of the animation format, through
  `indexmap`.
- `src/device.rs`: the requests of a session with the device, what is done
  with its responses, device selection and display modes.
- `src/hex_payload.rs`: raw display mode payloads written in hexadecimal.
- `src/color.rs`: CSS colours given on the command line, through
  `csscolorparser`.
- `app/`: the command-line tool: Bluetooth I/O (`bluer`), font loading
  (`fontconfig`, `fontdue`) and video playback (`libmpv`).
- `tests/`: tests of the library.
