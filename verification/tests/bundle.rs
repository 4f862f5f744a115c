//! Bundles: what parses, what is refused, and what encoding writes.

use rpi_loader::bundle::{
    checksum, encode, Bundle, Checksum, Entry, Error, Format, Role, HEADER_LEN, MIN_LEN,
    TRAILER_LEN, VERSION,
};

const FORMAT: Format = Format {
    magic: *b"TEST",
    max_entries: 8,
};

/// Builds bundles, including malformed ones.
///
/// Deliberately not [`encode`], which cannot produce most of what the
/// decoder has to reject — and which, being the other half of the code
/// under test, would agree with it about a format neither had got
/// right. The golden vectors below are the check on that.
struct Builder {
    magic: [u8; 4],
    version: u8,
    count: Option<u16>,
    entries: Vec<(u8, Vec<u8>, Vec<u8>)>,
    trailing: Vec<u8>,
    corrupt: bool,
}

impl Builder {
    fn new() -> Self {
        Builder {
            magic: *b"TEST",
            version: VERSION,
            count: None,
            entries: Vec::new(),
            trailing: Vec::new(),
            corrupt: false,
        }
    }

    fn entry(mut self, role: u8, path: &str, data: &[u8]) -> Self {
        self.entries
            .push((role, path.as_bytes().to_vec(), data.to_vec()));
        self
    }

    fn raw_path_entry(mut self, role: u8, path: &[u8], data: &[u8]) -> Self {
        self.entries.push((role, path.to_vec(), data.to_vec()));
        self
    }

    fn build(self) -> Vec<u8> {
        let mut out = Vec::new();
        out.extend_from_slice(&self.magic);
        out.push(self.version);
        out.push(0);
        let count = self.count.unwrap_or(self.entries.len() as u16);
        out.extend_from_slice(&count.to_le_bytes());
        for (role, path, data) in &self.entries {
            out.push(*role);
            out.push(path.len() as u8);
            out.extend_from_slice(path);
            out.extend_from_slice(&(data.len() as u32).to_le_bytes());
            out.extend_from_slice(data);
        }
        out.extend_from_slice(&self.trailing);
        let crc = checksum(&out) ^ if self.corrupt { 1 } else { 0 };
        out.extend_from_slice(&crc.to_le_bytes());
        out
    }
}

fn one_file() -> Vec<u8> {
    Builder::new().entry(0, "WWW/INDEX.HTM", b"hello").build()
}

fn parse(bytes: &[u8]) -> Result<Bundle<'_>, Error> {
    Bundle::parse(&FORMAT, bytes)
}

fn error(bytes: &[u8]) -> Error {
    parse(bytes).expect_err("expected this bundle to be rejected")
}

#[test]
fn checksum_matches_the_standard_vector() {
    // The IEEE CRC-32 check value, so a change of polynomial or of
    // reflection is caught here rather than by a board that will not
    // boot.
    assert_eq!(checksum(b"123456789"), 0xCBF4_3926);
}

#[test]
fn a_well_formed_bundle_parses() {
    let bytes = Builder::new()
        .entry(1, "KERNEL7.IMG", b"kernel bytes")
        .entry(0, "WWW/INDEX.HTM", b"<html>")
        .entry(3, "CONFIG.TXT", b"arm_64bit=0\n")
        .build();
    let bundle = parse(&bytes).unwrap();

    assert_eq!(bundle.count(), 3);
    let entries: Vec<_> = bundle.iter().collect();
    assert_eq!(entries.len(), 3);
    assert_eq!(entries[0].role, Role::Kernel);
    assert_eq!(entries[0].path, "KERNEL7.IMG");
    assert_eq!(entries[0].data, b"kernel bytes");
    assert_eq!(entries[1].role, Role::File);
    assert_eq!(entries[1].path, "WWW/INDEX.HTM");
    assert_eq!(entries[2].role, Role::Config);
    assert_eq!(bundle.kernel().unwrap().data, b"kernel bytes");
}

#[test]
fn a_bundle_with_no_kernel_is_valid() {
    let bytes = Builder::new().entry(0, "WATER.CFG", b"zone=1").build();
    let bundle = parse(&bytes).unwrap();
    assert_eq!(bundle.count(), 1);
    assert!(bundle.kernel().is_none());
}

#[test]
fn an_empty_file_is_valid() {
    let bytes = Builder::new().entry(0, "EMPTY.TXT", b"").build();
    assert_eq!(parse(&bytes).unwrap().iter().next().unwrap().data, b"");
}

#[test]
fn too_short() {
    assert_eq!(error(&[]), Error::TooShort);
    assert_eq!(error(&one_file()[..MIN_LEN - 1]), Error::TooShort);
}

#[test]
fn bad_magic() {
    let mut bytes = one_file();
    bytes[0] = b'X';
    assert_eq!(error(&bytes), Error::BadMagic);
}

#[test]
fn bad_version() {
    // The version this replaces, which is the one a stale bundle left
    // in a `target/` directory would carry.
    let mut builder = Builder::new().entry(0, "A.TXT", b"a");
    builder.version = 1;
    assert_eq!(error(&builder.build()), Error::BadVersion(1));
}

#[test]
fn bad_checksum() {
    let mut bytes = one_file();
    let last = bytes.len() - TRAILER_LEN - 1;
    bytes[last] ^= 0xFF;
    assert_eq!(error(&bytes), Error::BadChecksum);
}

#[test]
fn the_checksum_is_checked_before_the_entries() {
    // A count of zero and a broken checksum together: the checksum is
    // what a torn transfer actually looks like, and reporting the count
    // would send someone to look at the packer.
    let mut builder = Builder::new().entry(0, "A.TXT", b"a");
    builder.count = Some(0);
    builder.corrupt = true;
    assert_eq!(error(&builder.build()), Error::BadChecksum);
}

#[test]
fn bad_entry_count() {
    let mut builder = Builder::new().entry(0, "A.TXT", b"a");
    builder.count = Some(0);
    assert_eq!(error(&builder.build()), Error::BadEntryCount(0));

    let mut builder = Builder::new();
    for index in 0..9 {
        builder = builder.entry(0, &format!("F{index}.TXT"), b"x");
    }
    assert_eq!(error(&builder.build()), Error::BadEntryCount(9));
}

#[test]
fn an_entry_running_past_the_end_is_truncated() {
    let mut builder = Builder::new().entry(0, "A.TXT", b"abc");
    builder.count = Some(2);
    assert_eq!(error(&builder.build()), Error::Truncated);
}

#[test]
fn slack_between_the_last_entry_and_the_checksum_is_truncated() {
    let mut builder = Builder::new().entry(0, "A.TXT", b"abc");
    builder.trailing = vec![0; 3];
    assert_eq!(error(&builder.build()), Error::Truncated);
}

#[test]
fn bad_role() {
    let bytes = Builder::new().entry(4, "A.TXT", b"a").build();
    assert_eq!(error(&bytes), Error::BadRole(4));
}

#[test]
fn path_not_utf8() {
    let bytes = Builder::new()
        .raw_path_entry(0, &[0xFF, 0xFE], b"a")
        .build();
    assert_eq!(error(&bytes), Error::PathNotUtf8);
}

#[test]
fn unsafe_paths() {
    for path in [
        "",
        "/ABS.TXT",
        "../ESCAPE.TXT",
        "WWW/../ESCAPE.TXT",
        "./HERE.TXT",
        "WWW//DOUBLE.TXT",
        "TRAILING/",
        "WWW\\INDEX.HTM",
    ] {
        let bytes = Builder::new().entry(0, path, b"x").build();
        assert_eq!(error(&bytes), Error::BadPath, "path {path:?} was accepted");
    }
}

#[test]
fn nested_paths_are_fine() {
    let bytes = Builder::new().entry(0, "CERTS/ROOTS/CA.PEM", b"x").build();
    assert_eq!(parse(&bytes).unwrap().count(), 1);
}

#[test]
fn duplicate_path() {
    let bytes = Builder::new()
        .entry(0, "WWW/INDEX.HTM", b"one")
        .entry(0, "WWW/INDEX.HTM", b"two")
        .build();
    assert_eq!(error(&bytes), Error::DuplicatePath);
}

#[test]
fn two_kernels() {
    let bytes = Builder::new()
        .entry(1, "KERNEL7.IMG", b"a")
        .entry(1, "KERNEL8.IMG", b"b")
        .build();
    assert_eq!(error(&bytes), Error::DuplicateRole(Role::Kernel));
}

#[test]
fn two_configs() {
    let bytes = Builder::new()
        .entry(3, "CONFIG.TXT", b"a")
        .entry(3, "BOOT/CONFIG.TXT", b"b")
        .build();
    assert_eq!(error(&bytes), Error::DuplicateRole(Role::Config));
}

#[test]
fn a_start_without_its_fixup_is_unpaired() {
    let bytes = Builder::new().entry(2, "START.ELF", b"a").build();
    assert_eq!(error(&bytes), Error::UnpairedFirmware);
}

#[test]
fn a_fixup_without_its_start_is_unpaired() {
    let bytes = Builder::new().entry(2, "FIXUP.DAT", b"a").build();
    assert_eq!(error(&bytes), Error::UnpairedFirmware);
}

#[test]
fn a_pair_with_mismatched_suffixes_is_unpaired() {
    let bytes = Builder::new()
        .entry(2, "START4.ELF", b"a")
        .entry(2, "FIXUP.DAT", b"b")
        .build();
    assert_eq!(error(&bytes), Error::UnpairedFirmware);
}

#[test]
fn a_matched_pair_is_accepted_whatever_the_case_and_suffix() {
    for (start, fixup) in [
        ("START.ELF", "FIXUP.DAT"),
        ("start.elf", "fixup.dat"),
        ("Start4.Elf", "fixup4.DAT"),
        ("BOOT/start_x.elf", "FIXUP_X.DAT"),
    ] {
        let bytes = Builder::new()
            .entry(2, start, b"a")
            .entry(2, fixup, b"b")
            .build();
        assert!(parse(&bytes).is_ok(), "{start} + {fixup} was rejected");
    }
}

#[test]
fn firmware_with_no_partner_needs_none() {
    let bytes = Builder::new().entry(2, "BOOTCODE.BIN", b"a").build();
    assert_eq!(parse(&bytes).unwrap().count(), 1);
}

#[test]
fn every_rejection_is_the_senders_fault() {
    assert_eq!(Error::TooShort.http_status(), 400);
    assert_eq!(Error::BadChecksum.http_status(), 400);
    assert_eq!(Error::UnpairedFirmware.http_status(), 400);
}

#[test]
fn roles_round_trip_through_their_wire_bytes() {
    for role in [Role::File, Role::Kernel, Role::Firmware, Role::Config] {
        assert_eq!(Role::from_byte(role.as_byte()), Some(role));
    }
    assert_eq!(Role::from_byte(4), None);
}

// --- Golden vectors -------------------------------------------------
//
// Laid out by hand from the format at the top of this module, byte by
// byte, and never regenerated from `encode`. That is the whole value of
// them: a round trip only proves the encoder and the decoder agree, and
// they would agree just as happily about a container that had drifted.
// These fail instead.
//
// The checksums were computed by Python's `zlib.crc32` — a third
// implementation, so the constant in this crate is pinned to something
// outside it.

/// One file, nothing else. The smallest bundle that is not an error.
const GOLDEN_ONE_FILE: &[u8] = &[
    b'T', b'E', b'S', b'T', // magic
    2,    // version
    0,    // reserved
    1, 0, // count = 1
    0, // [0] role = file
    5, // path_len
    b'A', b'.', b'T', b'X', b'T', // path
    3, 0, 0, 0, // size = 3
    b'a', b'b', b'c', // data
    0xE9, 0xB1, 0x6D, 0xB9, // crc32 of everything above
];

/// A kernel, a nested asset and a `config.txt` — one entry of every
/// role that an ordinary update carries.
const GOLDEN_FULL: &[u8] = &[
    b'T', b'E', b'S', b'T', // magic
    2,    // version
    0,    // reserved
    3, 0,  // count = 3
    1,  // [0] role = kernel
    11, // path_len
    b'K', b'E', b'R', b'N', b'E', b'L', b'7', b'.', b'I', b'M', b'G', 4, 0, 0,
    0, // size = 4
    b'k', b'r', b'n', b'l', 0,  // [1] role = file
    13, // path_len
    b'W', b'W', b'W', b'/', b'I', b'N', b'D', b'E', b'X', b'.', b'H', b'T', b'M', 6, 0, 0,
    0, // size = 6
    b'<', b'h', b't', b'm', b'l', b'>', 3,  // [2] role = config
    10, // path_len
    b'C', b'O', b'N', b'F', b'I', b'G', b'.', b'T', b'X', b'T', 12, 0, 0, 0, // size = 12
    b'a', b'r', b'm', b'_', b'6', b'4', b'b', b'i', b't', b'=', b'0', b'\n', 0xB0, 0xBD, 0xAA,
    0xA1, // crc32
];

/// A firmware pair and no kernel — an update that replaces the
/// Raspberry Pi firmware and leaves the boot image alone.
const GOLDEN_FIRMWARE: &[u8] = &[
    b'T', b'E', b'S', b'T', // magic
    2,    // version
    0,    // reserved
    2, 0, // count = 2
    2, // [0] role = firmware
    9, // path_len
    b'S', b'T', b'A', b'R', b'T', b'.', b'E', b'L', b'F', 2, 0, 0, 0, // size = 2
    b's', b'e', 2, // [1] role = firmware
    9, // path_len
    b'F', b'I', b'X', b'U', b'P', b'.', b'D', b'A', b'T', 2, 0, 0, 0, // size = 2
    b'f', b'd', 0x4F, 0xA4, 0x7B, 0xD1, // crc32
];

/// Both directions against bytes neither direction produced.
fn check_golden(bytes: &[u8], entries: &[Entry<'_>]) {
    let bundle = parse(bytes).expect("the golden vector should parse");
    assert_eq!(bundle.iter().collect(), entries);
    assert_eq!(encode(&FORMAT, entries).unwrap(), bytes);
}

#[test]
fn golden_one_file() {
    check_golden(
        GOLDEN_ONE_FILE,
        &[Entry {
            role: Role::File,
            path: "A.TXT",
            data: b"abc",
        }],
    );
}

#[test]
fn golden_full() {
    check_golden(
        GOLDEN_FULL,
        &[
            Entry {
                role: Role::Kernel,
                path: "KERNEL7.IMG",
                data: b"krnl",
            },
            Entry {
                role: Role::File,
                path: "WWW/INDEX.HTM",
                data: b"<html>",
            },
            Entry {
                role: Role::Config,
                path: "CONFIG.TXT",
                data: b"arm_64bit=0\n",
            },
        ],
    );
}

#[test]
fn golden_firmware() {
    check_golden(
        GOLDEN_FIRMWARE,
        &[
            Entry {
                role: Role::Firmware,
                path: "START.ELF",
                data: b"se",
            },
            Entry {
                role: Role::Firmware,
                path: "FIXUP.DAT",
                data: b"fd",
            },
        ],
    );
}

// --- Encoding -------------------------------------------------------

#[test]
fn what_is_encoded_parses_back() {
    let big = vec![0xA5; 100_000];
    let entries = [
        Entry {
            role: Role::Kernel,
            path: "KERNEL8.IMG",
            data: &big,
        },
        Entry {
            role: Role::File,
            path: "CERTS/ROOTS/CA.PEM",
            data: b"-----BEGIN",
        },
        Entry {
            role: Role::File,
            path: "EMPTY.BIN",
            data: b"",
        },
    ];
    let bytes = encode(&FORMAT, &entries).unwrap();
    let bundle = parse(&bytes).unwrap();
    assert_eq!(bundle.iter().collect(), entries);
    assert_eq!(bundle.kernel().unwrap().data.len(), 100_000);
}

#[test]
fn encoding_reserves_exactly_what_it_writes() {
    // Not a style point: the buffer is megabytes in practice, and a
    // capacity that is merely close still reallocates and copies.
    let entries = [Entry {
        role: Role::File,
        path: "A.TXT",
        data: b"abc",
    }];
    let bytes = encode(&FORMAT, &entries).unwrap();
    assert_eq!(bytes.len(), bytes.capacity());
}

#[test]
fn another_applications_bundle_is_rejected() {
    let entries = [Entry {
        role: Role::File,
        path: "A.TXT",
        data: b"abc",
    }];
    let bytes = encode(
        &Format {
            magic: *b"OTHR",
            max_entries: 8,
        },
        &entries,
    )
    .unwrap();
    assert_eq!(error(&bytes), Error::BadMagic);
}

#[test]
fn encoding_applies_every_rule_the_parser_would() {
    let file = |path| Entry {
        role: Role::File,
        path,
        data: b"x" as &[u8],
    };

    assert_eq!(
        encode(&FORMAT, &[]).unwrap_err(),
        Error::BadEntryCount(0),
        "an empty bundle"
    );

    let many: Vec<_> = ["A", "B", "C", "D", "E", "F", "G", "H", "I"]
        .iter()
        .map(|path| file(path))
        .collect();
    assert_eq!(
        encode(&FORMAT, &many).unwrap_err(),
        Error::BadEntryCount(9),
        "more entries than the format allows"
    );

    assert_eq!(
        encode(&FORMAT, &[file("../ESCAPE.TXT")]).unwrap_err(),
        Error::BadPath
    );
    assert_eq!(
        encode(&FORMAT, &[file("A.TXT"), file("A.TXT")]).unwrap_err(),
        Error::DuplicatePath
    );
    assert_eq!(
        encode(
            &FORMAT,
            &[
                Entry {
                    role: Role::Kernel,
                    path: "KERNEL7.IMG",
                    data: b"a"
                },
                Entry {
                    role: Role::Kernel,
                    path: "KERNEL8.IMG",
                    data: b"b"
                },
            ]
        )
        .unwrap_err(),
        Error::DuplicateRole(Role::Kernel)
    );
    assert_eq!(
        encode(
            &FORMAT,
            &[Entry {
                role: Role::Firmware,
                path: "START.ELF",
                data: b"a"
            }]
        )
        .unwrap_err(),
        Error::UnpairedFirmware
    );
}

#[test]
fn a_path_longer_than_its_length_field() {
    let long = "A".repeat(256);
    assert_eq!(
        encode(
            &FORMAT,
            &[Entry {
                role: Role::File,
                path: &long,
                data: b"x"
            }]
        )
        .unwrap_err(),
        Error::PathTooLong
    );

    // 255 is the largest a `u8` length field can describe, so it has to
    // work rather than being one past a limit nobody tested.
    let limit = "A".repeat(255);
    assert!(
        encode(
            &FORMAT,
            &[Entry {
                role: Role::File,
                path: &limit,
                data: b"x"
            }]
        )
        .is_ok()
    );
}

// --- What holds of every bundle ---------------------------------------------

#[test]
fn one_damaged_byte_is_refused() {
    for at in 0..GOLDEN_FULL.len() {
        for bit in 0..8 {
            let mut bytes = GOLDEN_FULL.to_vec();
            bytes[at] ^= 1 << bit;
            assert!(parse(&bytes).is_err(), "byte {at}, bit {bit}");
        }
    }
}

#[test]
fn what_parses_encodes_back() {
    for golden in [GOLDEN_ONE_FILE, GOLDEN_FULL, GOLDEN_FIRMWARE] {
        let entries = parse(golden).unwrap().iter().collect();
        assert_eq!(encode(&FORMAT, &entries).unwrap(), golden);
    }
}

#[test]
fn a_checksum_can_be_taken_in_pieces() {
    let mut pieces = Checksum::new();
    for piece in GOLDEN_FULL.chunks(7) {
        pieces.update(piece);
    }
    assert_eq!(pieces.finish(), checksum(GOLDEN_FULL));
    assert_eq!(Checksum::default().finish(), checksum(b""));
    assert_eq!(checksum(b""), 0);
}

#[test]
fn a_walk_can_be_taken_up_again() {
    let bundle = parse(GOLDEN_FULL).unwrap();
    let mut walk = bundle.iter();
    assert_eq!(walk.next().unwrap().path, "KERNEL7.IMG");
    let mut again = walk.clone();
    assert_eq!(walk.next(), again.next());
    assert_eq!(again.collect().len(), 1);
    walk.next();
    assert_eq!(walk.next(), None);
    assert_eq!(walk.next(), None);
    assert_eq!(HEADER_LEN + TRAILER_LEN, MIN_LEN);
}

#[test]
fn a_component_of_dots_alone_is_the_only_dotted_one_refused() {
    for path in [".../A", "A.", ".A", "..A", "A/..B", "A/.B"] {
        let bytes = Builder::new().entry(0, path, b"x").build();
        assert_eq!(parse(&bytes).unwrap().count(), 1, "{path}");
    }
    for path in ["A/.", "A/..", ".", ".."] {
        let bytes = Builder::new().entry(0, path, b"x").build();
        assert_eq!(error(&bytes), Error::BadPath, "{path}");
    }
}

#[test]
fn every_error_has_words() {
    for (error, words) in [
        (Error::TooShort, "bundle too short"),
        (Error::BadMagic, "not a bundle for this device"),
        (Error::BadVersion(1), "unsupported bundle version"),
        (Error::BadChecksum, "checksum mismatch"),
        (Error::BadEntryCount(0), "bad entry count"),
        (Error::Truncated, "bundle truncated"),
        (Error::BadRole(4), "unknown entry role"),
        (Error::PathNotUtf8, "bad file path"),
        (Error::PathTooLong, "file path too long"),
        (Error::DataTooLarge, "file too large"),
        (Error::BadPath, "unsafe file path"),
        (Error::DuplicatePath, "two entries with the same path"),
        (Error::DuplicateRole(Role::Config), "two entries with the same role"),
        (Error::UnpairedFirmware, "firmware file without its pair"),
    ] {
        assert_eq!(error.message(), words);
        assert_eq!(error.http_status(), 400);
    }
}

#[test]
fn the_order_entries_are_given_in_does_not_matter() {
    let entries = [
        Entry {
            role: Role::Kernel,
            path: "kernel7.img",
            data: b"kernel",
        },
        Entry {
            role: Role::Firmware,
            path: "start.elf",
            data: b"start",
        },
        Entry {
            role: Role::Firmware,
            path: "fixup.dat",
            data: b"",
        },
    ];
    let mut expected: Vec<&str> = entries.iter().map(|entry| entry.path).collect();
    expected.sort();
    let first = encode(&FORMAT, &entries).unwrap();
    for order in [[0, 1, 2], [2, 1, 0], [1, 2, 0]] {
        let bytes = encode(&FORMAT, &order.map(|i| entries[i])).unwrap();
        assert_eq!(bytes.len(), first.len());
        let bundle = Bundle::parse(&FORMAT, &bytes).unwrap();
        let mut paths: Vec<&str> = bundle.iter().collect().iter().map(|e| e.path).collect();
        paths.sort();
        assert_eq!(paths, expected);
    }
    for order in [[0, 1, 0], [1, 0, 0]] {
        assert_eq!(
            encode(&FORMAT, &order.map(|i| entries[i])),
            Err(Error::DuplicatePath)
        );
    }
}
