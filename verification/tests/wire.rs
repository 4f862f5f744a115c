//! The serial protocol: the host and the loader, against each other and
//! against scripted answers.

use std::collections::{BTreeMap, BTreeSet, VecDeque};

use rpi_loader::cli::{Command, Outcome, Run, Step};
use rpi_loader::crc32::{crc32_of, Crc32};
use rpi_loader::device::{
    self, baud_representable, listing, read_path, split_parent, Line, ListingWriter, Loader,
    LISTING_CAP, MAX_PATH, RELOC_ADDR,
};
use rpi_loader::link::{
    crc32, err_name, Ask, Event, Failure, Link, Note, Reason, Reply, Turn, What, BASE_BAUD,
    DEFAULT_BAUD, MAX_CHUNK_RETRIES,
};
use rpi_loader::listing::ListingError;
use rpi_loader::protocol::{check_frame, scan_next, ACK, CHUNK_SIZE, HELLO};
use rpi_loader::table::entry_line;

const OK: u8 = 1;
const FAIL: u8 = 0;
const CHUNK: usize = 4096;
const FAST_BAUD: u32 = 1_500_000;

/// What the loader answers a greeting with.
const GREETING: &[u8] = b"LIPR\x02";

const CMD_MEM_WRITE: u8 = 1;
const CMD_SET_BAUD: u8 = 2;
const CMD_EXEC: u8 = 3;
const CMD_SD_LIST: u8 = 4;
const CMD_SD_READ: u8 = 5;
const CMD_SD_WRITE: u8 = 6;
const CMD_SD_DELETE: u8 = 7;
const CMD_SD_MKDIR: u8 = 8;

/// Error code the device sends for a missing file.
const ERR_NOT_FOUND: u8 = 2;
/// Error code the device sends when a write cannot be committed.
const ERR_WRITE: u8 = 6;

/// A payload spanning three chunks, so the chunking itself is exercised rather
/// than a single-chunk special case.
fn payload() -> Vec<u8> {
    (0..10_000).map(|i| ((i * 7 + 3) % 256) as u8).collect()
}

/// A chunk on the wire.
fn framed(chunk: &[u8]) -> Vec<u8> {
    let mut frame = crc32(chunk).to_le_bytes().to_vec();
    frame.extend_from_slice(chunk);
    frame
}

/// A command with a path.
fn with_path(command: u8, path: &str) -> Vec<u8> {
    let mut bytes = vec![command];
    bytes.extend_from_slice(&(path.len() as u16).to_le_bytes());
    bytes.extend_from_slice(path.as_bytes());
    bytes
}

/// The other end of the line, as the host sees it.
trait Wire {
    /// The host sends some bytes.
    fn send(&mut self, bytes: &[u8]);
    /// The host reads exactly so many bytes, or times out.
    fn read(&mut self, len: usize) -> Option<Vec<u8>>;
    /// The host drops what it has not read.
    fn clear(&mut self);
}

/// Answers that were written down beforehand, one for each thing the host
/// sends.
#[derive(Default)]
struct Script {
    answers: VecDeque<Vec<u8>>,
    sent: Vec<Vec<u8>>,
    pending: VecDeque<u8>,
}

impl Script {
    fn new(answers: &[&[u8]]) -> Self {
        Script {
            answers: answers.iter().map(|answer| answer.to_vec()).collect(),
            ..Script::default()
        }
    }
}

impl Wire for Script {
    fn send(&mut self, bytes: &[u8]) {
        self.sent.push(bytes.to_vec());
        self.pending
            .extend(self.answers.pop_front().unwrap_or_default());
    }

    fn read(&mut self, len: usize) -> Option<Vec<u8>> {
        if self.pending.len() < len {
            self.pending.clear();
            return None;
        }
        Some(self.pending.drain(..len).collect())
    }

    fn clear(&mut self) {
        self.pending.clear();
    }
}

/// What a host has to say and where its port stands.
#[derive(Default)]
struct Host {
    baud: u32,
    notes: Vec<Note>,
    shown: Vec<u8>,
}

impl Host {
    fn new() -> Self {
        Host {
            baud: BASE_BAUD,
            ..Host::default()
        }
    }

    /// Carries out an exchange.
    fn run<W: Wire>(
        &mut self,
        wire: &mut W,
        begun: (Link, Turn<Vec<u8>>),
    ) -> Result<Reply<Vec<u8>, Vec<rpi_loader::link::Entry>>, Failure<String>> {
        let (mut link, mut turn) = begun;
        loop {
            self.notes.extend(turn.note);
            self.shown.extend_from_slice(&turn.show);
            if !turn.send.is_empty() {
                wire.send(&turn.send);
            }
            let event = match turn.ask {
                Ask::Clear | Ask::Settle(_) => {
                    wire.clear();
                    Event::Done
                }
                Ask::Switch { baud, .. } => {
                    self.baud = baud;
                    wire.clear();
                    Event::Done
                }
                Ask::Read(len) => Event::Got(wire.read(len)),
                Ask::Proceed => Event::Done,
                Ask::Finish => return link.result().expect("the exchange is over"),
                Ask::Again => panic!("the event did not answer what was asked"),
            };
            (link, turn) = link.next(event);
        }
    }
}

/// What a run of a subcommand came to.
struct Ran {
    error: Option<String>,
    printed: Vec<String>,
    saved: Option<Vec<u8>>,
}

/// Runs a subcommand; every local file holds `file`.
fn run<W: Wire>(wire: &mut W, command: Command<&'static str>, file: &[u8]) -> Ran {
    let mut host = Host::new();
    let mut ran = Ran {
        error: None,
        printed: Vec::new(),
        saved: None,
    };
    let mut data = Vec::new();
    let mut run = Run::new(command);
    while let Some(step) = run.step() {
        let begun = match step {
            Step::Open => None,
            Step::Load(_) => {
                data = file.to_vec();
                None
            }
            Step::Wrote(_) => None,
            Step::Save { .. } => {
                ran.saved = Some(data.clone());
                None
            }
            Step::Handshake => Some(Link::handshake()),
            Step::Baud(baud) => Some(Link::negotiate_baud(*baud, host.baud)),
            Step::MemWrite(addr) => Some(Link::mem_write(*addr, data.clone())),
            Step::Exec(addr) => Some(Link::exec(*addr)),
            Step::SdList(path) => Some(Link::sd_list(path)),
            Step::SdRead(path) => Some(Link::sd_read(path)),
            Step::SdWrite(path) => Some(Link::sd_write(path, data.clone())),
            Step::SdDelete(path) => Some(Link::sd_delete(path)),
            Step::SdMkdir(path) => Some(Link::sd_mkdir(path)),
            step => panic!("not over a wire: {step:?}"),
        };
        let outcome = match begun.map(|begun| host.run(wire, begun)) {
            None => Outcome::Done,
            Some(Ok(reply)) => {
                match reply {
                    Reply::Data(bytes) => data = bytes,
                    Reply::Listing(entries) => ran.printed.extend(entries.iter().map(entry_line)),
                    _ => {}
                }
                Outcome::Done
            }
            Some(Err(failure)) => {
                if ran.error.is_none() {
                    ran.error = Some(failure.message());
                }
                Outcome::Failed
            }
        };
        run = run.next(outcome);
    }
    assert_eq!(run.succeeded(), ran.error.is_none());
    ran
}

/// Protocol version that the scripted device claims.
const VERSION: u8 = 1;

fn greeting() -> Vec<u8> {
    let mut bytes = ACK.to_vec();
    bytes.push(VERSION);
    bytes
}

/// What the host sends to ask for a rate.
fn set_baud(baud: u32) -> Vec<u8> {
    let mut bytes = vec![CMD_SET_BAUD];
    bytes.extend_from_slice(&baud.to_le_bytes());
    bytes
}

/// The chunks of some bytes, framed.
fn frames(data: &[u8]) -> Vec<Vec<u8>> {
    data.chunks(CHUNK).map(framed).collect()
}

/// The header of a write to memory.
fn mem_header(addr: u32, data: &[u8]) -> Vec<u8> {
    let mut bytes = vec![CMD_MEM_WRITE];
    for word in [data.len() as u32, CHUNK as u32, addr, crc32(data)] {
        bytes.extend_from_slice(&word.to_le_bytes());
    }
    bytes
}

fn mem_write(baud: u32) -> Command<&'static str> {
    Command::MemWrite {
        addr: 0x8000,
        file: "payload.bin",
        baud,
    }
}

#[test]
fn mem_write_negotiates_transfers_and_drops_back() {
    let data = payload();
    let mut script = Script::new(&[
        &greeting(),
        &[OK],
        &[OK],
        &[OK],
        &[OK],
        &[OK, OK],
        &[OK],
    ]);
    let ran = run(&mut script, mem_write(DEFAULT_BAUD), &data);

    assert_eq!(ran.error, None);
    let mut expected = vec![HELLO.to_vec(), set_baud(FAST_BAUD), mem_header(0x8000, &data)];
    expected.extend(frames(&data));
    // Back down, so the next invocation and any booted kernel find the link
    // at the rate they expect.
    expected.push(set_baud(BASE_BAUD));
    assert_eq!(script.sent, expected);
}

#[test]
fn mem_write_resends_a_rejected_chunk() {
    let data = payload();
    let mut script = Script::new(&[
        &greeting(),
        &[OK],
        &[OK],
        &[FAIL],
        &[OK],
        &[OK],
        &[OK, OK],
        &[OK],
    ]);
    let ran = run(&mut script, mem_write(DEFAULT_BAUD), &data);

    assert_eq!(ran.error, None);
    let chunks = frames(&data);
    let sent = &script.sent[3..7];
    assert_eq!(
        sent,
        [
            chunks[0].clone(),
            chunks[0].clone(),
            chunks[1].clone(),
            chunks[2].clone()
        ],
        "the resent chunk did not arrive intact"
    );
}

#[test]
fn mem_write_at_base_baud_skips_negotiation() {
    let data = payload();
    let mut script = Script::new(&[&greeting(), &[OK], &[OK], &[OK], &[OK, OK]]);
    let ran = run(&mut script, mem_write(115_200), &data);
    // Straight to the command: there is nothing to negotiate when the
    // requested rate is the one already in use.
    assert_eq!(ran.error, None);
    assert_eq!(script.sent[1], mem_header(0x8000, &data));
    assert_eq!(script.sent.len(), 5);
}

#[test]
fn exec_sends_the_address() {
    let mut script = Script::new(&[&greeting(), &[OK]]);
    let command = Command::Exec {
        addr: 0x80000,
        terminal: false,
    };
    let ran = run(&mut script, command, b"");
    assert_eq!(ran.error, None);
    assert_eq!(script.sent[1], [&[CMD_EXEC][..], &0x80000u32.to_le_bytes()].concat());
}

/// A stream to the host: its header, then its first chunk.
fn stream(data: &[u8]) -> Vec<u8> {
    let mut bytes = (data.len() as u32).to_le_bytes().to_vec();
    bytes.extend_from_slice(&(CHUNK as u32).to_le_bytes());
    bytes.extend_from_slice(&frames(data)[0]);
    bytes
}

#[test]
fn sd_list_prints_a_table() {
    let listing = "F\t131\tCONFIG.TXT\nD\t0\tOVERLAYS\nF\t78064\tKERNEL7.IMG\n";
    let answer = [&[OK][..], &stream(listing.as_bytes())].concat();
    let mut script = Script::new(&[&greeting(), &answer]);
    let command = Command::SdList {
        path: "/boot".to_string(),
    };
    let ran = run(&mut script, command, b"");
    assert_eq!(ran.error, None);
    assert_eq!(script.sent[1], with_path(CMD_SD_LIST, "/boot"));
    let stdout = ran.printed.join("\n");
    assert!(
        stdout.contains("       78064  KERNEL7.IMG"),
        "sizes should be right-aligned: {stdout:?}"
    );
    assert!(
        stdout.contains("OVERLAYS/"),
        "directories should be marked: {stdout:?}"
    );
}

#[test]
fn sd_list_names_the_error_code() {
    let mut script = Script::new(&[&greeting(), &[FAIL, ERR_NOT_FOUND]]);
    let command = Command::SdList {
        path: "/nope".to_string(),
    };
    let ran = run(&mut script, command, b"");
    let stderr = ran.error.expect("a device FAIL must fail the CLI");
    assert!(
        stderr.contains("no such file or directory"),
        "the error code should be named, not printed raw: {stderr:?}"
    );
    assert_eq!(stderr, "sd-list failed: no such file or directory");
}

#[test]
fn sd_read_writes_the_local_file() {
    let data = payload();
    let chunks = frames(&data);
    let answer = [&[OK][..], &stream(&data)].concat();
    let mut script = Script::new(&[&greeting(), &[OK], &answer, &chunks[1], &chunks[2], &[], &[OK]]);
    let command = Command::SdRead {
        remote: "/BIG.BIN".to_string(),
        local: "sd-read.out",
        baud: DEFAULT_BAUD,
    };
    let ran = run(&mut script, command, b"");
    assert_eq!(ran.error, None);
    assert_eq!(script.sent[2], with_path(CMD_SD_READ, "/BIG.BIN"));
    assert_eq!(script.sent[6], set_baud(BASE_BAUD));
    assert_eq!(ran.saved.expect("the local file should exist"), data);
}

/// What the host sends to announce a file.
fn sd_header(path: &str, data: &[u8]) -> Vec<u8> {
    let mut bytes = with_path(CMD_SD_WRITE, path);
    bytes.extend_from_slice(&(data.len() as u32).to_le_bytes());
    bytes.extend_from_slice(&(CHUNK as u32).to_le_bytes());
    bytes
}

fn sd_write() -> Command<&'static str> {
    Command::SdWrite {
        local: "sd-write.bin",
        remote: "/BIG.BIN".to_string(),
        baud: DEFAULT_BAUD,
    }
}

#[test]
fn sd_write_sends_the_payload() {
    let data = payload();
    let mut script = Script::new(&[
        &greeting(),
        &[OK],
        &[OK],
        &[OK],
        &[OK],
        &[OK, OK],
        &[OK],
    ]);
    let ran = run(&mut script, sd_write(), &data);
    assert_eq!(ran.error, None);
    let mut expected = vec![
        HELLO.to_vec(),
        set_baud(FAST_BAUD),
        sd_header("/BIG.BIN", &data),
    ];
    expected.extend(frames(&data));
    expected.push(set_baud(BASE_BAUD));
    assert_eq!(script.sent, expected);
}

#[test]
fn sd_write_names_a_failure_before_the_transfer() {
    let data = payload();
    let mut script = Script::new(&[&greeting(), &[OK], &[FAIL, ERR_WRITE]]);
    let ran = run(&mut script, sd_write(), &data);
    let stderr = ran.error.expect("a device FAIL must fail the CLI");
    assert!(stderr.contains("write failed"));
    assert_eq!(script.sent[2], sd_header("/BIG.BIN", &data));
    // Nothing of the payload went out, and the link was asked to drop back.
    assert_eq!(script.sent[3], set_baud(BASE_BAUD));
    assert_eq!(script.sent.len(), 4);
}

#[test]
fn sd_delete_and_mkdir_round_trip_their_paths() {
    for (command, byte, path) in [
        (
            Command::SdDelete {
                remote: "/BIG.BIN".to_string(),
            },
            CMD_SD_DELETE,
            "/BIG.BIN",
        ),
        (
            Command::SdMkdir {
                remote: "/LOGS".to_string(),
            },
            CMD_SD_MKDIR,
            "/LOGS",
        ),
    ] {
        let mut script = Script::new(&[&greeting(), &[OK]]);
        let ran = run(&mut script, command, b"");
        assert_eq!(ran.error, None);
        assert_eq!(script.sent[1], with_path(byte, path));
    }
}

// --- The host alone -------------------------------------------------------------

/// An exchange against scripted answers.
fn exchange(
    begun: (Link, Turn<Vec<u8>>),
    answers: &[&[u8]],
) -> (
    Result<Reply<Vec<u8>, Vec<rpi_loader::link::Entry>>, Failure<String>>,
    Script,
    Host,
) {
    let mut script = Script::new(answers);
    let mut host = Host::new();
    let result = host.run(&mut script, begun);
    (result, script, host)
}

#[test]
fn a_handshake_skips_the_banner_and_noise() {
    let mut answer = b"boot\x01\x80\r\nLILI".to_vec();
    answer.extend_from_slice(&greeting());
    let (result, script, host) = exchange(Link::handshake(), &[b"LIP", &answer]);
    assert!(matches!(result, Ok(Reply::Version(1))));
    // The first greeting went unanswered.
    assert_eq!(script.sent, vec![HELLO.to_vec(), HELLO.to_vec()]);
    assert_eq!(host.shown, b"boot\r\n");
}

#[test]
fn a_version_is_reported_whatever_it_is() {
    let (result, _, _) = exchange(Link::handshake(), &[b"LIPR\x07"]);
    assert!(matches!(result, Ok(Reply::Version(7))));
}

#[test]
fn a_rate_that_is_declined_or_unanswered_stays() {
    for answer in [&[FAIL][..], &[]] {
        let (result, _, host) = exchange(Link::negotiate_baud(9600, BASE_BAUD), &[answer]);
        assert!(matches!(result, Ok(Reply::Baud(115_200))));
        assert_eq!(host.baud, BASE_BAUD);
        assert_eq!(
            host.notes,
            vec![Note::Declined {
                baud: 9600,
                current: BASE_BAUD
            }]
        );
    }
    let (result, script, host) = exchange(Link::negotiate_baud(9600, BASE_BAUD), &[&[OK]]);
    assert!(matches!(result, Ok(Reply::Baud(9600))));
    assert_eq!(host.baud, 9600);
    assert_eq!(script.sent, vec![set_baud(9600)]);
}

#[test]
fn a_write_to_memory_can_fail_at_the_header_and_at_the_end() {
    for answer in [&[FAIL][..], &[]] {
        let (result, script, _) = exchange(Link::mem_write(0x8000, payload()), &[answer]);
        assert_eq!(
            result.unwrap_err().message(),
            "device rejected header (bad size/address?)"
        );
        assert_eq!(script.sent.len(), 1);
    }
    let (result, _, _) = exchange(Link::mem_write(0x8000, b"x".to_vec()), &[&[OK], &[OK, FAIL]]);
    assert_eq!(
        result.unwrap_err().message(),
        "device reported overall checksum mismatch"
    );
}

#[test]
fn a_chunk_is_given_up_on_after_enough_attempts() {
    let (result, script, host) = exchange(
        Link::mem_write(0x8000, payload()),
        &[&[OK], &[OK], &[FAIL], &[], &[FAIL], &[7], &[FAIL]],
    );
    assert_eq!(
        result.unwrap_err().message(),
        "giving up on chunk at 4096 after 5 retries"
    );
    assert_eq!(script.sent.len(), 2 + MAX_CHUNK_RETRIES as usize);
    assert_eq!(host.notes[0], Note::Sending);
    assert_eq!(
        host.notes[1],
        Note::Sent {
            done: 4096,
            total: 10_000
        }
    );
    for attempt in 1..=MAX_CHUNK_RETRIES {
        assert_eq!(
            host.notes[1 + attempt as usize],
            Note::Retrying {
                offset: 4096,
                attempt
            }
        );
    }
}

#[test]
fn a_refused_jump_names_the_address() {
    let (result, _, _) = exchange(Link::exec(0xFFFF_0000), &[&[FAIL]]);
    assert_eq!(
        result.unwrap_err().message(),
        "device refused to exec 0xffff0000 (bad address?)"
    );
    let (result, _, _) = exchange(Link::exec(0), &[]);
    assert_eq!(
        result.unwrap_err().message(),
        "device refused to exec 0x0 (bad address?)"
    );
}

#[test]
fn a_failed_commit_is_not_success() {
    let (result, _, _) = exchange(
        Link::sd_write("/A", b"x".to_vec()),
        &[&[OK], &[OK, FAIL, ERR_WRITE]],
    );
    assert_eq!(
        result.unwrap_err().message(),
        "sd-write did not commit: write failed"
    );
    let (result, _, _) = exchange(Link::sd_write("/A", b"x".to_vec()), &[&[OK], &[OK, FAIL]]);
    assert_eq!(
        result.unwrap_err().message(),
        "sd-write did not commit: timed out reading error code"
    );
}

#[test]
fn a_silent_card_times_out() {
    let (result, _, _) = exchange(Link::sd_delete("/A"), &[]);
    assert_eq!(
        result.unwrap_err().message(),
        "sd-delete failed: timed out reading error code"
    );
    let (result, _, _) = exchange(Link::sd_read("/A"), &[&[OK]]);
    assert_eq!(
        result.unwrap_err().message(),
        "timed out waiting for stream header"
    );
    let answer = [&[OK][..], &stream(&payload())].concat();
    let (result, _, _) = exchange(Link::sd_read("/A"), &[&answer[..100]]);
    assert_eq!(result.unwrap_err().message(), "timed out mid-stream");
}

#[test]
fn a_bad_chunk_of_a_stream_is_asked_for_again() {
    let data = payload();
    let chunks = frames(&data);
    let mut bad = chunks[0].clone();
    bad[100] ^= 1;
    let header = &stream(&data)[..8];
    let first = [&[OK][..], header, &bad].concat();
    let (result, script, host) = exchange(
        Link::sd_read("/A"),
        &[&first, &chunks[0], &chunks[1], &chunks[2]],
    );
    match result {
        Ok(Reply::Data(bytes)) => assert_eq!(bytes, data),
        other => panic!("{other:?}"),
    }
    assert_eq!(script.sent[1..], [vec![FAIL], vec![OK], vec![OK], vec![OK]]);
    assert_eq!(
        host.notes,
        vec![Note::BadChunk {
            offset: 0,
            attempt: 1
        }]
    );

    let (result, script, _) = exchange(Link::sd_read("/A"), &[&first, &bad, &bad, &bad, &bad]);
    assert_eq!(
        result.unwrap_err().message(),
        "giving up on chunk at 0 after 5 retries"
    );
    assert_eq!(script.sent.len(), 6);
}

#[test]
fn a_bad_listing_is_an_error() {
    let answer = |text: &[u8]| [&[OK][..], &stream(text)].concat();
    let (result, _, _) = exchange(Link::sd_list("/"), &[&answer(b"no tabs \"here\"\n")]);
    assert_eq!(
        result.unwrap_err().message(),
        "malformed listing line from the device: \"no tabs \\\"here\\\"\""
    );
    let (result, _, _) = exchange(Link::sd_list("/"), &[&answer(b"F\tbig\tA\n")]);
    match result {
        Err(failure) => {
            assert!(matches!(failure, Failure::Listing(ListingError::BadSize(_))));
            assert_eq!(
                failure.message(),
                "listing entry has a non-numeric size: invalid digit found in string"
            );
        }
        other => panic!("{other:?}"),
    }
    // What is not UTF-8 is replaced.
    let (result, _, _) = exchange(Link::sd_list("/"), &[&answer(b"F\t1\tA\xFF\n")]);
    match result {
        Ok(Reply::Listing(entries)) => assert_eq!(entries[0].name, "A\u{FFFD}"),
        other => panic!("{other:?}"),
    }
}

#[test]
fn a_path_that_does_not_fit_is_not_sent() {
    let long = "A".repeat(0x1_0000);
    let (result, script, _) = exchange(Link::sd_mkdir(&long), &[]);
    assert_eq!(
        result.unwrap_err().message(),
        "path is too long for the protocol: out of range integral type conversion attempted"
    );
    assert_eq!(script.sent, vec![vec![CMD_SD_MKDIR]]);
    let (result, script, _) = exchange(Link::sd_write(&long, Vec::new()), &[]);
    assert!(matches!(result, Err(Failure::PathTooLong)));
    assert_eq!(script.sent, vec![vec![CMD_SD_WRITE]]);
}

#[test]
fn error_codes_have_names() {
    for (code, name) in [
        (1, "SD bring-up failed"),
        (2, "no such file or directory"),
        (3, "filesystem error"),
        (4, "directory listing too large"),
        (5, "bad path"),
        (6, "write failed"),
        (7, "I2C transfer failed"),
        (8, "read-back mismatch"),
        (9, "request outside what the device will address"),
        (10, "the part never answered the read-back"),
        (11, "error code 11"),
        (0, "error code 0"),
        (255, "error code 255"),
    ] {
        assert_eq!(err_name(code), name);
        assert_eq!(Reason::Code(code).message(), name);
    }
    assert_eq!(Reason::Timeout.message(), "timed out reading error code");
    for (what, name) in [
        (What::SdList, "sd-list"),
        (What::SdRead, "sd-read"),
        (What::SdWrite, "sd-write"),
        (What::SdDelete, "sd-delete"),
        (What::SdMkdir, "sd-mkdir"),
    ] {
        assert_eq!(what.name(), name);
    }
}

#[test]
fn an_event_that_answers_nothing_changes_nothing() {
    let (link, _) = Link::exec(0x8000);
    let (link, turn) = link.next(Event::Done);
    assert!(matches!(turn.ask, Ask::Again));
    assert!(turn.send.is_empty());
    let (link, turn) = link.next(Event::Got(Some(vec![OK])));
    assert!(matches!(turn.ask, Ask::Finish));
    assert!(matches!(link.result(), Some(Ok(Reply::Done))));
    let (link, _) = Link::exec(0x8000);
    assert!(link.result().is_none());
}

// --- The device alone -----------------------------------------------------------

/// A board in memory: what the loader asks of it, done.
struct Board {
    loader: Option<Loader>,
    ask: device::Ask<Vec<u8>, String>,
    memory: BTreeMap<u32, u8>,
    baud: u32,
    jumped: Option<u32>,
    files: BTreeMap<String, Vec<u8>>,
    dirs: BTreeSet<String>,
    dir: String,
    open: Option<(String, usize)>,
    no_card: bool,
    card_full: bool,
    to_device: VecDeque<u8>,
    to_host: VecDeque<u8>,
}

impl Board {
    fn new() -> Self {
        let (loader, turn) = Loader::new();
        let mut board = Board {
            loader: Some(loader),
            ask: turn.ask,
            memory: BTreeMap::new(),
            baud: BASE_BAUD,
            jumped: None,
            files: BTreeMap::new(),
            dirs: BTreeSet::new(),
            dir: String::new(),
            open: None,
            no_card: false,
            card_full: false,
            to_device: VecDeque::new(),
            to_host: VecDeque::new(),
        };
        board.to_host.extend(turn.send);
        board
    }

    fn path(&self, name: &str) -> String {
        format!("{}/{name}", self.dir)
    }

    /// Does what is asked, if it can be done now.
    fn perform(&mut self) -> Option<device::Event<Vec<u8>, Vec<Line<String>>>> {
        Some(match &self.ask {
            device::Ask::Read(len) => {
                if self.to_device.len() < *len {
                    return None;
                }
                device::Event::Bytes(self.to_device.drain(..*len).collect())
            }
            device::Ask::Store { at, bytes } => {
                for (i, byte) in bytes.iter().enumerate() {
                    self.memory.insert(at + i as u32, *byte);
                }
                device::Event::Done
            }
            device::Ask::Fetch { at, len } => device::Event::Bytes(
                (*at..at + len)
                    .map(|a| self.memory.get(&a).copied().unwrap_or(0))
                    .collect(),
            ),
            device::Ask::SetBaud(baud) => {
                self.baud = *baud;
                device::Event::Done
            }
            device::Ask::Jump(addr) => {
                self.jumped = Some(*addr);
                return None;
            }
            device::Ask::StartCard => {
                if self.no_card {
                    device::Event::Failed
                } else {
                    device::Event::Done
                }
            }
            device::Ask::OpenVolume => device::Event::Done,
            device::Ask::OpenRoot => {
                self.dir.clear();
                device::Event::Done
            }
            device::Ask::ChangeDir(name) => {
                let path = self.path(name);
                if self.dirs.contains(&path) {
                    self.dir = path;
                    device::Event::Done
                } else {
                    device::Event::NotFound
                }
            }
            device::Ask::ListDir => {
                let prefix = format!("{}/", self.dir);
                let mut lines = Vec::new();
                for path in &self.dirs {
                    if let Some(name) = path.strip_prefix(&prefix) {
                        if !name.contains('/') {
                            lines.push(Line {
                                is_dir: true,
                                size: 0,
                                name: name.to_string(),
                            });
                        }
                    }
                }
                for (path, data) in &self.files {
                    if let Some(name) = path.strip_prefix(&prefix) {
                        if !name.contains('/') {
                            lines.push(Line {
                                is_dir: false,
                                size: data.len() as u32,
                                name: name.to_string(),
                            });
                        }
                    }
                }
                device::Event::Listing(lines)
            }
            device::Ask::OpenFile { name, create } => {
                let path = self.path(name);
                if *create {
                    self.files.insert(path.clone(), Vec::new());
                }
                match self.files.get(&path) {
                    Some(data) => {
                        let len = data.len() as u32;
                        self.open = Some((path, 0));
                        device::Event::Opened(len)
                    }
                    None => device::Event::NotFound,
                }
            }
            device::Ask::ReadFile(len) => {
                let (path, at) = self.open.as_mut().expect("a file is open");
                let data = &self.files[path.as_str()];
                // Short reads, as a card gives them.
                let end = data.len().min(*at + (*len).min(1000));
                let bytes = data[*at..end].to_vec();
                *at = end;
                device::Event::Bytes(bytes)
            }
            device::Ask::WriteFile(bytes) => {
                if self.card_full {
                    device::Event::Failed
                } else {
                    let (path, _) = self.open.as_ref().expect("a file is open");
                    let file = self.files.get_mut(path.as_str()).unwrap();
                    file.extend_from_slice(bytes);
                    device::Event::Done
                }
            }
            device::Ask::CloseFile => {
                self.open = None;
                device::Event::Done
            }
            device::Ask::DeleteFile(name) => {
                let path = self.path(name);
                match self.files.remove(&path) {
                    Some(_) => device::Event::Done,
                    None => device::Event::NotFound,
                }
            }
            device::Ask::MakeDir(name) => {
                let path = self.path(name);
                if self.dirs.insert(path) {
                    device::Event::Done
                } else {
                    device::Event::Failed
                }
            }
            device::Ask::Again => panic!("the event did not answer what was asked"),
        })
    }

    /// Goes on until nothing more can be done.
    fn settle(&mut self) {
        while let Some(event) = self.perform() {
            let (loader, turn) = self.loader.take().unwrap().next(event);
            self.loader = Some(loader);
            self.to_host.extend(turn.send);
            self.ask = turn.ask;
        }
    }

    /// Hands the device some bytes and returns what it answers.
    fn say(&mut self, bytes: &[u8]) -> Vec<u8> {
        self.send(bytes);
        self.to_host.drain(..).collect()
    }

    fn is_idle(&self) -> bool {
        self.loader.as_ref().unwrap().is_idle()
    }
}

impl Wire for Board {
    fn send(&mut self, bytes: &[u8]) {
        self.to_device.extend(bytes);
        self.settle();
    }

    fn read(&mut self, len: usize) -> Option<Vec<u8>> {
        if self.to_host.len() < len {
            self.to_host.clear();
            return None;
        }
        Some(self.to_host.drain(..len).collect())
    }

    fn clear(&mut self) {
        self.to_host.clear();
    }
}

/// A board that has been greeted.
fn greeted() -> Board {
    let mut board = Board::new();
    assert_eq!(board.say(HELLO.as_slice()), GREETING);
    board
}

#[test]
fn the_loader_waits_for_its_magic_through_noise() {
    let mut board = Board::new();
    assert!(!board.is_idle());
    assert_eq!(board.say(b"\x00\xFFRPRPI"), b"");
    assert_eq!(board.say(b"L"), GREETING);
    let mut board = Board::new();
    assert_eq!(board.say(b"\x00\xFFRPRRPIL"), GREETING);
    assert!(board.is_idle());
    // A fresh greeting is answered from the command loop, and half of one is
    // dropped.
    assert_eq!(board.say(b"RPIL"), GREETING);
    assert_eq!(board.say(b"RPx"), b"");
    assert!(board.is_idle());
    assert_eq!(board.say(&[99]), [FAIL]);
}

#[test]
fn memory_is_written_below_the_loader_only() {
    let mut board = greeted();
    let header = |total: u32, chunk: u32, addr: u32| {
        let mut bytes = vec![CMD_MEM_WRITE];
        for word in [total, chunk, addr, 0] {
            bytes.extend_from_slice(&word.to_le_bytes());
        }
        bytes
    };
    for (total, chunk, addr) in [
        (0, 4096, 0x8000),
        (1, 0, 0x8000),
        (1, 4097, 0x8000),
        (1, 1, RELOC_ADDR),
        (2, 2, RELOC_ADDR - 1),
        (u32::MAX, 1, u32::MAX),
    ] {
        assert_eq!(board.say(&header(total, chunk, addr)), [FAIL]);
        assert!(board.is_idle());
    }
    assert_eq!(board.say(&header(1, 1, RELOC_ADDR - 1)), [OK]);
    let mut bad = framed(b"x");
    bad[4] = b'y';
    assert_eq!(board.say(&bad), [FAIL]);
    assert!(board.memory.is_empty());
    // The chunk is stored, and the whole does not match the header's
    // checksum.
    assert_eq!(board.say(&framed(b"x")), [OK, FAIL]);
    assert_eq!(board.memory.get(&(RELOC_ADDR - 1)), Some(&b'x'));
}

#[test]
fn only_rates_the_uart_has_are_accepted() {
    for (baud, fits) in [
        (0, false),
        (45, false),
        (46, true),
        (115_200, true),
        (1_500_000, true),
        (3_000_000, true),
        (3_023_622, true),
        (3_023_623, false),
        (u32::MAX, false),
    ] {
        assert_eq!(baud_representable(baud), fits, "{baud}");
        let mut board = greeted();
        assert_eq!(board.say(&set_baud(baud)), [if fits { OK } else { FAIL }]);
        assert_eq!(board.baud, if fits { baud } else { BASE_BAUD });
        assert!(board.is_idle());
    }
}

#[test]
fn a_jump_stays_below_the_loader() {
    for addr in [0, RELOC_ADDR, u32::MAX] {
        let mut board = greeted();
        assert_eq!(
            board.say(&[&[CMD_EXEC][..], &addr.to_le_bytes()].concat()),
            [FAIL]
        );
        assert_eq!(board.jumped, None);
    }
    let mut board = greeted();
    assert_eq!(
        board.say(&[&[CMD_EXEC][..], &0x8000u32.to_le_bytes()].concat()),
        [OK]
    );
    assert_eq!(board.jumped, Some(0x8000));
}

#[test]
fn bad_paths_are_refused() {
    let mut board = greeted();
    let long = "A".repeat(MAX_PATH + 1);
    assert_eq!(board.say(&with_path(CMD_SD_DELETE, &long)), [FAIL, 5]);
    assert_eq!(board.say(&with_path(CMD_SD_DELETE, "")), [FAIL, 5]);
    assert_eq!(board.say(&with_path(CMD_SD_READ, "///")), [FAIL, 5]);
    assert_eq!(board.say(&[CMD_SD_LIST, 2, 0, 0xFF, 0xFE]), [FAIL, 5]);
    assert_eq!(board.say(&sd_header("/", b"")), [FAIL, 5]);
    assert!(board.is_idle());
    // The sizes behind a refused path are read with it, and not as commands.
    assert_eq!(board.say(&sd_header(&long, b"abc")), [FAIL, 5]);
    assert!(board.is_idle());
    let mut header = vec![CMD_SD_WRITE, 1, 0, 0xFF];
    assert!(board.say(&header).is_empty());
    header = vec![3, 0, 0, 0, 0, 16, 0, 0];
    assert_eq!(board.say(&header), [FAIL, 5]);
    assert!(board.is_idle());
    assert_eq!(board.say(HELLO.as_slice()), GREETING);
    // A chunk size the device cannot hold.
    let mut header = with_path(CMD_SD_WRITE, "/A");
    header.extend_from_slice(&[1, 0, 0, 0, 1, 16, 0, 0]);
    assert_eq!(board.say(&header), [FAIL, 3]);
}

#[test]
fn the_cards_failures_have_codes() {
    let mut board = greeted();
    board.no_card = true;
    assert_eq!(board.say(&with_path(CMD_SD_LIST, "/")), [FAIL, 1]);
    board.no_card = false;
    assert_eq!(board.say(&with_path(CMD_SD_LIST, "/NOPE")), [FAIL, 2]);
    assert_eq!(board.say(&with_path(CMD_SD_READ, "/NOPE")), [FAIL, 2]);
    assert_eq!(board.say(&with_path(CMD_SD_MKDIR, "/LOGS")), [OK]);
    assert_eq!(board.say(&with_path(CMD_SD_MKDIR, "/LOGS")), [FAIL, 3]);
    for i in 0..600 {
        board.files.insert(format!("/FILE{i:04}.TXT"), Vec::new());
    }
    assert_eq!(board.say(&with_path(CMD_SD_LIST, "/")), [FAIL, 4]);
    board.card_full = true;
    assert_eq!(board.say(&sd_header("/B", b"x")), [OK]);
    assert_eq!(board.say(&framed(b"x")), [OK, FAIL, 6]);
    assert!(board.is_idle());
}

#[test]
fn a_listing_has_a_line_per_entry_and_a_cap() {
    let line = |name: &str, size: u32, is_dir: bool| Line {
        is_dir,
        size,
        name: name.to_string(),
    };
    assert_eq!(
        listing(&vec![
            line("CONFIG.TXT", 131, false),
            line("OVERLAYS", 0, true),
            line("BIG.BIN", u32::MAX, false),
        ])
        .unwrap(),
        b"F\t131\tCONFIG.TXT\nD\t0\tOVERLAYS\nF\t4294967295\tBIG.BIN\n"
    );
    let exact = line(&"A".repeat(LISTING_CAP - 5), 1, false);
    assert_eq!(listing(&vec![exact]).unwrap().len(), LISTING_CAP);
    let over = line(&"A".repeat(LISTING_CAP - 4), 1, false);
    assert!(listing(&vec![over]).is_none());
}

#[test]
fn a_full_listing_keeps_what_was_written_first() {
    let mut writer = ListingWriter::new(vec![b'.'; 8]);
    writer.write(b"abc");
    writer.write(b"");
    assert_eq!((writer.len(), writer.overflowed()), (3, false));
    writer.write(b"defgh");
    // Filling the buffer exactly is no overflow.
    assert_eq!((writer.len(), writer.overflowed()), (8, false));
    writer.write(b"ij");
    assert_eq!((writer.len(), writer.overflowed()), (8, true));
    writer.write(b"");
    assert_eq!((writer.len(), writer.overflowed()), (8, true));
    assert_eq!(writer.into_buffer(), b"abcdefgh");

    let mut writer = ListingWriter::new(b"......".to_vec());
    writer.write(b"abcd");
    assert_eq!(writer.into_buffer(), b"abcd..");

    let mut writer = ListingWriter::new(Vec::new());
    assert!(!writer.overflowed());
    writer.write(b"a");
    assert_eq!((writer.len(), writer.overflowed()), (0, true));
}

#[test]
fn paths_split_into_their_parent_and_name() {
    let texts = |all: &[&str]| -> Vec<String> { all.iter().map(|s| s.to_string()).collect() };
    let (dirs, name) = split_parent("/a//b/c.txt/").unwrap();
    assert_eq!((dirs, name), (texts(&["a", "b"]), "c.txt".to_string()));
    let (dirs, name) = split_parent("c.txt").unwrap();
    assert_eq!((dirs, name), (texts(&[]), "c.txt".to_string()));
    assert!(split_parent("").is_err());
    assert!(split_parent("//").is_err());
    assert_eq!(read_path(&b"/a/b".to_vec()).unwrap(), "/a/b");
    assert!(read_path(&vec![0xFF]).is_err());
    assert!(read_path(&vec![b'a'; MAX_PATH]).is_ok());
    assert!(read_path(&vec![b'a'; MAX_PATH + 1]).is_err());
}

// --- Both together --------------------------------------------------------------

#[test]
fn what_is_written_to_memory_is_stored() {
    let data = payload();
    let mut board = Board::new();
    let ran = run(&mut board, mem_write(DEFAULT_BAUD), &data);
    assert_eq!(ran.error, None);
    assert_eq!(board.memory.len(), data.len());
    for (i, byte) in data.iter().enumerate() {
        assert_eq!(board.memory[&(0x8000 + i as u32)], *byte);
    }
    assert_eq!(board.baud, BASE_BAUD);
    assert!(board.is_idle());
}

#[test]
fn what_is_written_to_a_file_reads_back() {
    let data = payload();
    let mut board = Board::new();
    let ran = run(&mut board, sd_write(), &data);
    assert_eq!(ran.error, None);
    assert_eq!(board.files["/BIG.BIN"], data);
    let command = Command::SdRead {
        remote: "/BIG.BIN".to_string(),
        local: "out",
        baud: DEFAULT_BAUD,
    };
    let ran = run(&mut board, command, b"");
    assert_eq!(ran.error, None);
    assert_eq!(ran.saved.unwrap(), data);
    assert_eq!(board.baud, BASE_BAUD);

    // An empty file, too.
    let ran = run(&mut board, sd_write(), b"");
    assert_eq!(ran.error, None);
    assert_eq!(board.files["/BIG.BIN"], b"");
    let command = Command::SdRead {
        remote: "BIG.BIN".to_string(),
        local: "out",
        baud: BASE_BAUD,
    };
    assert_eq!(run(&mut board, command, b"").saved.unwrap(), b"");
}

#[test]
fn directories_are_made_listed_and_files_deleted() {
    let mut board = Board::new();
    let mkdir = |remote: &str| Command::SdMkdir {
        remote: remote.to_string(),
    };
    assert_eq!(run(&mut board, mkdir("/LOGS"), b"").error, None);
    assert_eq!(run(&mut board, mkdir("/LOGS/OLD"), b"").error, None);
    board
        .files
        .insert("/LOGS/A.TXT".to_string(), b"abc".to_vec());
    let list = || Command::SdList {
        path: "/LOGS".to_string(),
    };
    assert_eq!(
        run(&mut board, list(), b"").printed,
        vec!["           0  OLD/", "           3  A.TXT"]
    );
    let delete = Command::SdDelete {
        remote: "LOGS/A.TXT".to_string(),
    };
    assert_eq!(run(&mut board, delete, b"").error, None);
    assert!(board.files.is_empty());
    assert_eq!(
        run(&mut board, mkdir("/"), b"").error.unwrap(),
        "sd-mkdir failed: bad path"
    );
    let write = Command::SdWrite {
        local: "app.bin",
        remote: "A".repeat(MAX_PATH + 1),
        baud: FAST_BAUD,
    };
    assert_eq!(
        run(&mut board, write, b"abc").error.unwrap(),
        "sd-write failed: bad path"
    );
    assert_eq!(run(&mut board, mkdir("/AFTER"), b"").error, None);
}

#[test]
fn a_failed_transfer_leaves_the_link_at_the_base_rate() {
    let mut board = Board::new();
    let command = Command::SdRead {
        remote: "/NOPE".to_string(),
        local: "out",
        baud: DEFAULT_BAUD,
    };
    let ran = run(&mut board, command, b"");
    assert_eq!(
        ran.error.unwrap(),
        "sd-read failed: no such file or directory"
    );
    assert_eq!(board.baud, BASE_BAUD);
    assert!(board.is_idle());
}

#[test]
fn a_write_beyond_memory_is_rejected_and_changes_nothing() {
    let mut board = Board::new();
    let command = Command::MemWrite {
        addr: RELOC_ADDR,
        file: "f",
        baud: DEFAULT_BAUD,
    };
    let ran = run(&mut board, command, b"x");
    assert_eq!(
        ran.error.unwrap(),
        "device rejected header (bad size/address?)"
    );
    assert!(board.memory.is_empty());
    assert_eq!(board.baud, BASE_BAUD);
}

// --- Pieces ---------------------------------------------------------------------

#[test]
fn a_frame_with_one_damaged_byte_is_not_intact() {
    let frame = framed(b"some bytes of a chunk");
    assert!(check_frame(&frame));
    for at in 0..frame.len() {
        for bit in 0..8 {
            let mut bad = frame.clone();
            bad[at] ^= 1 << bit;
            assert!(!check_frame(&bad));
        }
    }
    assert!(!check_frame(&[0, 0, 0]));
    assert!(check_frame(&[0, 0, 0, 0]));
}

#[test]
fn both_ends_compute_the_same_checksum() {
    assert_eq!(crc32(b"123456789"), 0xCBF4_3926);
    assert_eq!(crc32_of(b"123456789"), 0xCBF4_3926);
    assert_eq!(crc32(b""), 0);
    let data = payload();
    assert_eq!(crc32(&data), crc32_of(&data));
    let mut running = Crc32::new();
    for byte in &data {
        running.update(*byte);
    }
    assert_eq!(running.finish(), crc32(&data));
}

#[test]
fn the_scan_restarts_on_a_first_byte() {
    let mut matched = 0;
    for byte in b"xRPRPI" {
        matched = scan_next(&HELLO, matched, *byte);
    }
    assert_eq!(matched, 3);
    assert_eq!(scan_next(&HELLO, matched, b'L'), 4);
    assert_eq!(scan_next(&HELLO, matched, b'R'), 1);
    assert_eq!(scan_next(&HELLO, matched, b'x'), 0);
    let mut reversed = HELLO;
    reversed.reverse();
    assert_eq!(reversed, ACK);
    assert_eq!(CHUNK_SIZE, CHUNK);
}
