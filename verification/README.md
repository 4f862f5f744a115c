# rpi-loader

A serial boot loader for the Raspberry Pi, the host that drives it, and the
over-the-air bundles that a board installs on itself. What they decide is
verified with [Verus](https://github.com/verus-lang/verus); what touches a port,
a card, a file or a screen is ordinary Rust around it.

- `src/` is the verified library. Texts are specified by their UTF-8 bytes, and
  the two ends of the wire and the installer are state machines: each takes what
  has happened and says what to do next. `src/laws.rs`, `src/card.rs` and
  `src/session.rs` hold what is proved of all bundles, of whole installs and of
  host and loader together.
- `app/` is the program: arguments, the serial port, the terminal, files, and the
  board's own hardware.
- `tests/` runs the library, also against a FAT32 volume in memory.

## What is trusted

The library believes a contract without proof for each of these:

| Called | Where |
| --- | --- |
| `crc::Crc::<u32>::checksum` with `CRC_32_ISO_HDLC` | `src/bundle.rs` |
| `crc32fast::hash` | `src/link.rs` |
| `core::str::from_utf8` | `src/text.rs` |
| `String::from_utf8_lossy` | `src/text.rs` |
| `serde_json::from_str` and `serde_json::to_string_pretty` | `src/upload.rs` |
| `format!` of a text with `{:?}` | `src/text.rs` |

It also carries `resident_fat::Error` and `core::str::Utf8Error` without looking
inside.
