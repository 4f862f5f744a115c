//! What is typed, what is printed, and what each subcommand does.

use rpi_loader::cli::{
    exit_status, Command, Origin, Outcome, Run, Step, DEFAULT_PAGE_SIZE, EXIT_INTERRUPTED,
};
use rpi_loader::hat::{check_image, hat_image_length, HatError, Image, HAT_HEADER_LEN};
use rpi_loader::link::{version_warning, Note};
use rpi_loader::listing::{parse_listing, ListingError};
use rpi_loader::numbers::{parse_i2c_address, parse_u32};
use rpi_loader::order::comes_before;
use rpi_loader::ports::{arrange, describe, nothing_found, port_lines, Port, PortKind};
use rpi_loader::protocol::{BASE_BAUD, DEFAULT_BAUD};
use rpi_loader::table::entry_line;
use rpi_loader::terminal::{
    forward_keyboard, hear, read_on, Forward, Heard, Phase, Typed, DRAIN_LIMIT, ESCAPE,
    READ_TIMEOUT,
};
use rpi_loader::text::NumberError;

// --- Numbers --------------------------------------------------------------------

#[test]
fn numbers_are_read_in_any_base() {
    for (typed, value) in [
        ("0x8000", 0x8000),
        ("0X8000", 0x8000),
        ("0b1010", 10),
        ("0B1010", 10),
        ("0o755", 0o755),
        ("0O755", 0o755),
        ("1500000", 1_500_000),
        ("1_500_000", 1_500_000),
        ("  42\t", 42),
        ("\u{2003}7\u{a0}", 7),
        ("0x_ff_", 0xFF),
        ("0_x10", 0x10),
        ("+5", 5),
        ("0x+5", 5),
        ("4294967295", u32::MAX),
        ("0", 0),
    ] {
        assert_eq!(parse_u32(typed), Ok(value), "{typed:?}");
    }
}

#[test]
fn what_is_not_a_number_says_so() {
    for (typed, reason) in [
        ("", "cannot parse integer from empty string"),
        ("   ", "cannot parse integer from empty string"),
        ("0x", "cannot parse integer from empty string"),
        ("_", "cannot parse integer from empty string"),
        ("12a", "invalid digit found in string"),
        ("0b12", "invalid digit found in string"),
        ("0o8", "invalid digit found in string"),
        ("-1", "invalid digit found in string"),
        ("+", "invalid digit found in string"),
        ("1 2", "invalid digit found in string"),
        ("\u{661}", "invalid digit found in string"),
        ("4294967296", "number too large to fit in target type"),
        ("0x100000000", "number too large to fit in target type"),
    ] {
        assert_eq!(
            parse_u32(typed),
            Err(format!("{typed:?} is not a number: {reason}"))
        );
        // What std itself says of the same digits.
        let bare = typed.trim().replace('_', "");
        let std_error = match bare.get(..2) {
            Some("0x") => u32::from_str_radix(&bare[2..], 16),
            Some("0b") => u32::from_str_radix(&bare[2..], 2),
            Some("0o") => u32::from_str_radix(&bare[2..], 8),
            _ => bare.parse(),
        };
        assert_eq!(std_error.unwrap_err().to_string(), reason, "{typed:?}");
    }
}

#[test]
fn white_space_is_what_std_calls_white_space() {
    for c in '\0'..=char::MAX {
        let accepted = parse_u32(&format!("{c}7{c}")).is_ok();
        let expected = c.is_whitespace() || c == '_' || c.is_ascii_digit();
        assert_eq!(accepted, expected, "{c:?}");
    }
}

#[test]
fn an_i2c_address_has_seven_bits() {
    assert_eq!(parse_i2c_address("0x50"), Ok(0x50));
    assert_eq!(parse_i2c_address("0x7f"), Ok(0x7F));
    assert_eq!(parse_i2c_address("0"), Ok(0));
    for typed in ["0x80", "256", "0xffffffff"] {
        assert_eq!(
            parse_i2c_address(typed),
            Err(format!("{typed:?} is not a 7-bit I2C address (0x00-0x7f)"))
        );
    }
    assert_eq!(
        parse_i2c_address("x"),
        Err("\"x\" is not a number: invalid digit found in string".to_string())
    );
}

// --- HAT images -----------------------------------------------------------------

fn header(signature: &[u8; 4], len: u32) -> Vec<u8> {
    let mut bytes = signature.to_vec();
    bytes.extend_from_slice(&[1, 0, 2, 0]);
    bytes.extend_from_slice(&len.to_le_bytes());
    bytes
}

#[test]
fn a_hat_header_gives_the_image_length() {
    assert_eq!(hat_image_length(&header(b"R-Pi", 116), 0x50, 0), Ok(116));
    assert_eq!(
        hat_image_length(&header(b"R-Pi", HAT_HEADER_LEN), 0x50, 0),
        Ok(12)
    );
    assert_eq!(
        hat_image_length(&header(b"R-Pi", 0x1_0000), 0x50, 0),
        Ok(0x1_0000)
    );
}

#[test]
fn a_bad_hat_header_says_why() {
    let missing = hat_image_length(&header(b"R-Px", 116), 0x05, 64).unwrap_err();
    assert_eq!(
        missing,
        HatError::NoSignature {
            address: 0x05,
            offset: 64
        }
    );
    assert_eq!(
        missing.message(),
        "0x05 does not hold a HAT image (no \"R-Pi\" signature at offset 64); \
         pass --length to read it anyway"
    );
    for len in [11, 0x1_0001, u32::MAX] {
        let error = hat_image_length(&header(b"R-Pi", len), 0x50, 0).unwrap_err();
        assert_eq!(error, HatError::Implausible(len));
        assert_eq!(
            error.message(),
            format!(
                "the HAT header claims an image length of {len} bytes, which is not plausible; \
                 pass --length to read it anyway"
            )
        );
    }
}

#[test]
fn an_image_is_looked_at_before_it_is_programmed() {
    assert_eq!(check_image(b"", 0), Image::Empty);
    assert_eq!(check_image(b"", 8), Image::Empty);
    assert_eq!(check_image(b"R-Pi....", 0), Image::Fine);
    assert_eq!(check_image(b"R-P", 0), Image::Unsigned);
    assert_eq!(check_image(b"data", 0), Image::Unsigned);
    assert_eq!(check_image(b"data", 8), Image::Fine);
}

// --- Ports ----------------------------------------------------------------------

fn usb(manufacturer: Option<&str>, product: Option<&str>, serial: Option<&str>) -> PortKind {
    PortKind::Usb {
        vid: 0x0403,
        pid: 0x6001,
        manufacturer: manufacturer.map(str::to_string),
        product: product.map(str::to_string),
        serial_number: serial.map(str::to_string),
    }
}

fn port(name: &str, kind: PortKind) -> Port {
    Port {
        name: name.to_string(),
        kind,
    }
}

#[test]
fn a_port_is_described_by_what_it_reports() {
    assert_eq!(
        describe(&usb(Some("FTDI"), Some("FT232R"), Some("A1B2"))),
        "FTDI FT232R  0403:6001  serial A1B2"
    );
    assert_eq!(describe(&usb(None, Some("FT232R"), None)), "FT232R  0403:6001");
    assert_eq!(describe(&usb(Some("FTDI"), None, None)), "FTDI  0403:6001");
    assert_eq!(describe(&usb(None, None, Some("7"))), "0403:6001  serial 7");
    assert_eq!(describe(&usb(Some(""), None, None)), "0403:6001");
    assert_eq!(describe(&PortKind::Pci), "PCI serial");
    assert_eq!(describe(&PortKind::Bluetooth), "Bluetooth serial");
    assert_eq!(describe(&PortKind::Unknown), "unknown");
}

#[test]
fn ports_are_listed_usb_first_and_then_by_name() {
    let given = || {
        vec![
            port("/dev/ttyS10", PortKind::Unknown),
            port("/dev/ttyUSB1", usb(None, None, Some("second"))),
            port("/dev/ttyS1", PortKind::Pci),
            port("/dev/ttyUSB1", usb(None, None, Some("third"))),
            port("/dev/ttyUSB0", usb(None, None, Some("first"))),
        ]
    };
    let names = |ports: &[Port]| -> Vec<String> {
        ports
            .iter()
            .map(|port| format!("{} {}", port.name, describe(&port.kind)))
            .collect()
    };
    assert_eq!(
        names(&arrange(given(), true)),
        vec![
            "/dev/ttyUSB0 0403:6001  serial first",
            "/dev/ttyUSB1 0403:6001  serial second",
            "/dev/ttyUSB1 0403:6001  serial third",
            "/dev/ttyS1 PCI serial",
            "/dev/ttyS10 unknown",
        ]
    );
    assert_eq!(
        port_lines(&arrange(given(), false)),
        vec![
            "/dev/ttyUSB0  0403:6001  serial first",
            "/dev/ttyUSB1  0403:6001  serial second",
            "/dev/ttyUSB1  0403:6001  serial third",
        ]
    );
    assert_eq!(
        port_lines(&vec![
            port("\u{e9}", PortKind::Pci),
            port("COM10", PortKind::Pci)
        ]),
        vec!["\u{e9}      PCI serial", "COM10  PCI serial"]
    );
    assert!(arrange(vec![port("a", PortKind::Pci)], false).is_empty());
    assert_eq!(nothing_found(true), "No serial ports found.");
    assert_eq!(
        nothing_found(false),
        "No USB serial ports found; pass --all to list every port."
    );
}

#[test]
fn names_are_ordered_byte_by_byte() {
    let names = ["", "a", "ab", "abc", "b", "A", "\u{e9}", "a\u{0}"];
    for a in names {
        for b in names {
            assert_eq!(comes_before(a.as_bytes(), b.as_bytes()), a < b, "{a:?} {b:?}");
        }
    }
}

// --- Listings -------------------------------------------------------------------

#[test]
fn a_listing_is_read_line_by_line() {
    let entries =
        parse_listing("F\t131\tCONFIG.TXT\r\nD\t0\tOVERLAYS\nX\t+7\ta\tb\nF\t78064\tKERNEL7.IMG")
            .unwrap();
    let seen: Vec<(bool, u64, &str)> = entries
        .iter()
        .map(|entry| (entry.is_dir, entry.size, entry.name.as_str()))
        .collect();
    assert_eq!(
        seen,
        vec![
            (false, 131, "CONFIG.TXT"),
            (true, 0, "OVERLAYS"),
            (false, 7, "a\tb"),
            (false, 78064, "KERNEL7.IMG"),
        ]
    );
    assert_eq!(
        entries.iter().map(entry_line).collect::<Vec<_>>(),
        vec![
            "         131  CONFIG.TXT",
            "           0  OVERLAYS/",
            "           7  a\tb",
            "       78064  KERNEL7.IMG",
        ]
    );
    assert!(parse_listing("").unwrap().is_empty());
}

#[test]
fn a_listing_that_cannot_be_read_says_why() {
    match parse_listing("F\t1\tA\nF 2 B\n").unwrap_err() {
        ListingError::Malformed(line) => assert_eq!(line, "F 2 B"),
        error => panic!("{error:?}"),
    }
    for (size, reason) in [
        ("", NumberError::Empty),
        ("x", NumberError::InvalidDigit),
        ("18446744073709551616", NumberError::TooLarge),
    ] {
        match parse_listing(&format!("F\t{size}\tA\n")).unwrap_err() {
            ListingError::BadSize(error) => assert_eq!(error, reason),
            error => panic!("{error:?}"),
        }
    }
    let most = parse_listing("F\t18446744073709551615\tA").unwrap();
    assert_eq!(most[0].size, u64::MAX);
    assert_eq!(entry_line(&most[0]), "18446744073709551615  A");
}

// --- What each subcommand does --------------------------------------------------

/// A step in a few characters.
fn brief(step: &Step<&str>) -> String {
    match step {
        Step::Completions(shell) => format!("completions {shell:?}"),
        Step::ListPorts { all } => format!("list {all}"),
        Step::Pack {
            manifest,
            output,
            sdcard,
            upload,
        } => format!("pack {manifest} {output:?} {sdcard:?} {upload:?}"),
        Step::Open => "open".to_string(),
        Step::Handshake => "greet".to_string(),
        Step::Load(path) => format!("load {path}"),
        Step::CheckImage { offset } => format!("check {offset}"),
        Step::Baud(baud) => format!("baud {baud}"),
        Step::MemWrite(addr) => format!("mem {addr:#x}"),
        Step::Wrote(addr) => format!("wrote {addr:#x}"),
        Step::Exec(addr) => format!("exec {addr:#x}"),
        Step::Terminal => "terminal".to_string(),
        Step::SdList(path) => format!("ls {path}"),
        Step::SdRead(path) => format!("get {path}"),
        Step::SdWrite(path) => format!("put {path}"),
        Step::SdDelete(path) => format!("rm {path}"),
        Step::SdMkdir(path) => format!("mkdir {path}"),
        Step::HatLength { address, offset } => format!("hat {address} {offset}"),
        Step::EepromRead {
            address,
            offset,
            length,
        } => format!("eeget {address} {offset} {length:?}"),
        Step::EepromWrite {
            address,
            offset,
            page_size,
        } => format!("eeput {address} {offset} {page_size}"),
        Step::Programmed { address, offset } => format!("programmed {address} {offset}"),
        Step::Save { local, from } => match from {
            Origin::Card(remote) => format!("save {local} from {remote}"),
            Origin::Eeprom(address) => format!("save {local} from {address}"),
        },
    }
}

/// The steps of a command in which the steps that `fails` names fail.
fn steps(command: Command<&'static str>, fails: &[&str]) -> (Vec<String>, bool) {
    let mut run = Run::new(command);
    let mut done = Vec::new();
    loop {
        let Some(step) = run.step().map(brief) else {
            return (done, run.succeeded());
        };
        let outcome = if fails.contains(&step.as_str()) {
            Outcome::Failed
        } else {
            Outcome::Done
        };
        done.push(step);
        run = run.next(outcome);
    }
}

fn boot() -> Command<&'static str> {
    Command::Boot {
        image: "kernel7.img",
        load_addr: 0x8000,
        baud: DEFAULT_BAUD,
    }
}

#[test]
fn every_subcommand_does_its_steps() {
    let (done, succeeded) = steps(boot(), &[]);
    assert_eq!(
        done,
        vec![
            "open",
            "greet",
            "load kernel7.img",
            "baud 1500000",
            "mem 0x8000",
            "baud 115200",
            "exec 0x8000",
            "terminal",
        ]
    );
    assert!(succeeded);

    let all: Vec<(Command<&'static str>, Vec<&str>)> = vec![
        (
            Command::MemWrite {
                addr: 0x100,
                file: "f",
                baud: 921_600,
            },
            vec![
                "open",
                "greet",
                "load f",
                "baud 921600",
                "mem 0x100",
                "baud 115200",
                "wrote 0x100",
            ],
        ),
        (
            Command::Exec {
                addr: 0x80000,
                terminal: false,
            },
            vec!["open", "greet", "exec 0x80000"],
        ),
        (
            Command::Exec {
                addr: 0x80000,
                terminal: true,
            },
            vec!["open", "greet", "exec 0x80000", "terminal"],
        ),
        (
            Command::SdList {
                path: "/boot".to_string(),
            },
            vec!["open", "greet", "ls /boot"],
        ),
        (
            Command::SdRead {
                remote: "/A".to_string(),
                local: "a",
                baud: 1,
            },
            vec!["open", "greet", "baud 1", "get /A", "baud 115200", "save a from /A"],
        ),
        (
            Command::SdWrite {
                local: "a",
                remote: "/A".to_string(),
                baud: 1,
            },
            vec!["open", "greet", "load a", "baud 1", "put /A", "baud 115200"],
        ),
        (
            Command::SdDelete {
                remote: "/A".to_string(),
            },
            vec!["open", "greet", "rm /A"],
        ),
        (
            Command::SdMkdir {
                remote: "/LOGS".to_string(),
            },
            vec!["open", "greet", "mkdir /LOGS"],
        ),
        (
            Command::EepromRead {
                local: "e",
                length: None,
                address: 0x50,
                offset: 0,
                baud: 1,
            },
            vec![
                "open",
                "greet",
                "baud 1",
                "hat 80 0",
                "eeget 80 0 None",
                "baud 115200",
                "save e from 80",
            ],
        ),
        (
            Command::EepromRead {
                local: "e",
                length: Some(9),
                address: 0x50,
                offset: 4,
                baud: 1,
            },
            vec![
                "open",
                "greet",
                "baud 1",
                "eeget 80 4 Some(9)",
                "baud 115200",
                "save e from 80",
            ],
        ),
        (
            Command::EepromWrite {
                local: "e",
                address: 0x50,
                offset: 4,
                page_size: DEFAULT_PAGE_SIZE,
                baud: 1,
            },
            vec![
                "open",
                "greet",
                "load e",
                "check 4",
                "baud 1",
                "eeput 80 4 32",
                "baud 115200",
                "programmed 80 4",
            ],
        ),
        (Command::Terminal, vec!["open", "terminal"]),
        (Command::List { all: true }, vec!["list true"]),
        (Command::Completions { shell: None }, vec!["completions Bash"]),
        (
            Command::Bundle {
                manifest: "bundle.toml",
                output: None,
                sdcard: None,
                upload: Some("http://10.0.0.5/api/v1/ota".to_string()),
            },
            vec!["pack bundle.toml None None Some(\"http://10.0.0.5/api/v1/ota\")"],
        ),
    ];
    for (command, expected) in all {
        assert_eq!(command.needs_handshake(), expected.contains(&"greet"));
        assert_eq!(command.needs_device(), expected.contains(&"open"));
        assert_eq!(steps(command, &[]), (expected.iter().map(|s| s.to_string()).collect(), true));
    }
}

#[test]
fn a_failed_transfer_still_drops_back() {
    let (done, succeeded) = steps(boot(), &["mem 0x8000"]);
    assert_eq!(
        done,
        vec![
            "open",
            "greet",
            "load kernel7.img",
            "baud 1500000",
            "mem 0x8000",
            "baud 115200",
        ]
    );
    assert!(!succeeded);
    // Nothing to drop back from.
    assert_eq!(
        steps(boot(), &["load kernel7.img"]).0,
        vec!["open", "greet", "load kernel7.img"]
    );
    let (done, succeeded) = steps(boot(), &["exec 0x8000"]);
    assert_eq!(done.last().unwrap(), "exec 0x8000");
    assert!(!succeeded);
    // At the base rate all along.
    let slow = Command::MemWrite {
        addr: 1,
        file: "f",
        baud: BASE_BAUD,
    };
    assert_eq!(steps(slow, &["mem 0x1"]).0.last().unwrap(), "mem 0x1");
}

#[test]
fn a_broken_link_ends_a_run_at_once() {
    let mut run = Run::new(boot());
    for _ in 0..4 {
        run = run.next(Outcome::Done);
    }
    run = run.next(Outcome::Broken);
    assert!(run.step().is_none());
    assert!(!run.succeeded());
    run = run.next(Outcome::Done);
    assert!(run.step().is_none());
    assert!(!run.succeeded());
}

#[test]
fn the_exit_status_tells_an_interrupt_from_a_failure() {
    assert_eq!(exit_status(true, false), 0);
    assert_eq!(exit_status(false, false), 1);
    assert_eq!(exit_status(true, true), EXIT_INTERRUPTED);
    assert_eq!(exit_status(false, true), 130);
}

// --- The terminal ---------------------------------------------------------------

#[test]
fn terminal_sends_what_precedes_the_escape() {
    assert_eq!(forward_keyboard(Typed::Bytes(b"abc")), Forward::Send(b"abc"));
    // Everything before the escape in the same read still goes out; only the
    // escape itself is swallowed.
    assert_eq!(
        forward_keyboard(Typed::Bytes(&[b'd', b'e', b'f', ESCAPE, b'g'])),
        Forward::SendAndLeave(b"def")
    );
    assert_eq!(
        forward_keyboard(Typed::Bytes(&[ESCAPE])),
        Forward::SendAndLeave(b"")
    );
    assert_eq!(forward_keyboard(Typed::Bytes(b"")), Forward::KeepShowing);
    assert_eq!(forward_keyboard(Typed::Nothing), Forward::ReadOn);
    assert_eq!(forward_keyboard(Typed::Failed), Forward::GiveUp);
    assert_eq!(ESCAPE, 0x1D);
}

#[test]
fn terminal_carries_both_directions() {
    // Device to host.
    assert_eq!(
        hear(Phase::Attached, Heard::Bytes(19)),
        (true, Phase::Attached)
    );
    // Host to device: typed input should arrive verbatim.
    assert_eq!(
        forward_keyboard(Typed::Bytes(b"ls -l\r")),
        Forward::Send(b"ls -l\r")
    );
    // Ctrl-] leaves; it is not itself forwarded.
    assert_eq!(
        forward_keyboard(Typed::Bytes(&[ESCAPE])),
        Forward::SendAndLeave(&[])
    );
    // What the device already sent is still shown.
    let phase = read_on(Phase::Attached, true, false);
    assert_eq!(phase, Phase::Draining);
    assert_eq!(hear(phase, Heard::Bytes(3)), (true, Phase::Draining));
    assert_eq!(hear(phase, Heard::Nothing), (false, Phase::Over));
}

#[test]
fn a_quiet_device_ends_the_drain_but_not_the_session() {
    for heard in [Heard::Bytes(0), Heard::Nothing] {
        assert_eq!(hear(Phase::Attached, heard), (false, Phase::Attached));
        assert_eq!(hear(Phase::Draining, heard), (false, Phase::Over));
    }
    assert_eq!(hear(Phase::Attached, Heard::Failed), (false, Phase::Draining));
    assert_eq!(hear(Phase::Draining, Heard::Failed), (false, Phase::Over));
    assert_eq!(hear(Phase::Over, Heard::Bytes(1)), (false, Phase::Over));
    assert_eq!(read_on(Phase::Attached, false, true), Phase::Attached);
    assert_eq!(read_on(Phase::Draining, true, false), Phase::Draining);
    assert_eq!(read_on(Phase::Draining, true, true), Phase::Over);
    assert_eq!(read_on(Phase::Over, false, false), Phase::Over);
    assert_eq!((READ_TIMEOUT, DRAIN_LIMIT), (100, 500));
}

// --- What is said ---------------------------------------------------------------

#[test]
fn a_transfer_is_announced() {
    let write: Step<&str> = Step::MemWrite(0x8000);
    assert_eq!(write.sending(1234), "Sending 1234 bytes to 0x8000...");
    let write: Step<&str> = Step::SdWrite("/APP.BIN".to_string());
    assert_eq!(write.sending(0), "Sending 0 bytes -> /APP.BIN...");
    assert_eq!(Step::<&str>::Open.sending(7), "");
}

#[test]
fn what_was_done_is_said() {
    let said = |step: Step<&str>| step.done(300, "./out.bin");
    assert_eq!(
        said(Step::Wrote(0x80000)).as_deref(),
        Some("Wrote 300 bytes to 0x80000.")
    );
    assert_eq!(said(Step::Exec(0x8000)).as_deref(), Some("Jumped to 0x8000."));
    assert_eq!(
        said(Step::SdDelete("/A".to_string())).as_deref(),
        Some("Deleted /A")
    );
    assert_eq!(
        said(Step::SdMkdir("/LOGS".to_string())).as_deref(),
        Some("Created directory /LOGS")
    );
    assert_eq!(
        said(Step::Programmed { address: 0x50, offset: 16 }).as_deref(),
        Some("Programmed and verified 300 bytes at offset 16 of 0x50.")
    );
    assert_eq!(
        said(Step::Save { local: "x", from: Origin::Card("/config.txt".to_string()) }).as_deref(),
        Some("Read 300 bytes from /config.txt -> ./out.bin")
    );
    assert_eq!(
        said(Step::Save { local: "x", from: Origin::Eeprom(7) }).as_deref(),
        Some("Read 300 bytes from 0x07 -> ./out.bin")
    );
    assert_eq!(said(Step::Handshake), None);
}

#[test]
fn progress_is_told() {
    assert_eq!(Note::Sending.message("Sending..."), "Sending...");
    assert_eq!(Note::Sent { done: 4096, total: 5000 }.message(""), "  4096/5000");
    assert_eq!(
        Note::Retrying { offset: 4096, attempt: 2 }.message(""),
        "  chunk at 4096 failed/timed out, retry 2/5"
    );
    assert_eq!(
        Note::BadChunk { offset: 0, attempt: 1 }.message(""),
        "  chunk at 0 bad CRC, retry 1/5"
    );
    assert_eq!(
        Note::Declined { baud: 1_500_000, current: 115_200 }.message(""),
        "Device declined 1500000 baud; staying at 115200"
    );
}

#[test]
fn another_protocol_version_is_a_warning() {
    assert_eq!(version_warning(2), None);
    assert_eq!(
        version_warning(1).as_deref(),
        Some("Warning: device protocol version 1, expected 2")
    );
    assert_eq!(
        version_warning(9).as_deref(),
        Some("Warning: device protocol version 9, expected 2")
    );
}

#[test]
fn an_odd_image_is_named() {
    assert_eq!(Image::Empty.message("hat.eep").as_deref(), Some("hat.eep is empty"));
    assert_eq!(
        Image::Unsigned.message("hat.eep").as_deref(),
        Some(
            "Warning: hat.eep does not start with the HAT signature \"R-Pi\"; \
             writing it anyway."
        )
    );
    assert_eq!(Image::Fine.message("hat.eep"), None);
}
