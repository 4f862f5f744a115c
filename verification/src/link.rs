//! The host side of the serial protocol.
//!
//! The loader stays resident on the device and services a command at a time,
//! so each of these is an exchange with an already-running agent. [`Link`]
//! decides and its driver acts: each [`Turn`] says what to send and then what
//! to wait for, and the driver hands back an [`Event`]. What is sent and when,
//! how often a chunk is sent again, what counts as accepted and what a reply
//! means are decided here.

use vstd::prelude::*;

pub use crate::listing::Entry;
use crate::listing::{Item, ListingError};
pub use crate::protocol::{BASE_BAUD, DEFAULT_BAUD};
use crate::protocol::{
    ACK, CHUNK_SIZE, CMD_EXEC, CMD_MEM_WRITE, CMD_SD_DELETE, CMD_SD_LIST, CMD_SD_MKDIR,
    CMD_SD_READ, CMD_SD_WRITE, CMD_SET_BAUD, FAIL, HELLO, OK, PROTOCOL_VERSION,
};

verus! {

/// How many times a single chunk is sent before the transfer gives up.
pub const MAX_CHUNK_RETRIES: u32 = 5;

/// Bringing the card up can take a while, so the first status byte of a
/// command on the card gets several timeout windows.
pub const SD_STATUS_ATTEMPTS: u32 = 3;

/// How long to let the line settle after a greeting, in milliseconds.
pub const GREETING_PAUSE: u32 = 20;

/// How long to let the line settle after a change of rate, in milliseconds.
pub const BAUD_PAUSE: u32 = 50;

/// `crc32fast::hash` computes the IEEE CRC-32 of its argument, which is
/// [`crate::crc32::crc32`].
pub assume_specification[ crc32fast::hash ](buf: &[u8]) -> (res: u32)
    ensures
        res == crate::crc32::crc32(buf@),
;

/// A command on the card.
#[derive(Clone, Copy, Debug, PartialEq, Eq, Structural)]
pub enum What {
    /// List a directory.
    SdList,
    /// Copy a file off the card.
    SdRead,
    /// Copy a file onto the card.
    SdWrite,
    /// Delete a file.
    SdDelete,
    /// Create a directory.
    SdMkdir,
}

/// Why a command on the card failed.
#[derive(Clone, Copy, Debug, PartialEq, Eq, Structural)]
pub enum Reason {
    /// The device gave this code.
    Code(u8),
    /// The device said no more.
    Timeout,
}

/// Why an exchange failed. `T` is a text.
#[derive(Debug)]
#[verifier::ext_equal]
pub enum Failure<T> {
    /// The device did not accept the header of a write to memory.
    RejectedHeader,
    /// What ended up in memory is not what was sent.
    ChecksumMismatch,
    /// The device did not accept an address to jump to.
    RefusedExec(u32),
    /// A command on the card could not begin.
    Command { what: What, reason: Reason },
    /// A file was sent and not committed.
    NotCommitted(Reason),
    /// No stream came.
    HeaderTimeout,
    /// A stream stopped. Its framing is lost, and there is no safe point to
    /// go on from.
    StreamTimeout,
    /// The chunk at this offset did not get through.
    GaveUp(usize),
    /// A path does not fit its length field.
    PathTooLong,
    /// A listing cannot be read.
    Listing(ListingError<T>),
}

/// What an exchange came to. `B` holds bytes and `L` lists entries.
#[derive(Debug)]
#[verifier::ext_equal]
pub enum Reply<B, L> {
    /// It was done.
    Done,
    /// The device speaks this version of the protocol.
    Version(u8),
    /// This is the rate in effect.
    Baud(u32),
    /// These are a file's contents.
    Data(B),
    /// These are a directory's entries.
    Listing(L),
}

/// What bytes are sent to.
#[derive(Clone, Copy, Debug, PartialEq, Eq, Structural)]
pub enum Target {
    /// Memory.
    Memory,
    /// A file on the card.
    File,
}

/// Where an exchange stands.
#[verifier::ext_equal]
#[allow(inconsistent_fields)]
pub enum State<B, T, L> {
    /// Dropping whatever is on the line.
    Clearing,
    /// Scanning for the device's answer to HELLO.
    Greeting { matched: usize },
    /// Waiting for the version after it.
    Version,
    /// Letting the line settle.
    Greeted { version: u8 },
    /// Waiting for the answer to a request for another rate.
    BaudStatus { baud: u32, current: u32 },
    /// Switching to it.
    BaudSwitch { baud: u32 },
    /// Waiting for the answer to a request to jump.
    ExecStatus { addr: u32 },
    /// Waiting for the status of a command on the card.
    Started { what: What, tries: u32 },
    /// Waiting for the code after a status that is not OK.
    Explain { commit: bool, what: What },
    /// Waiting for the status of the header before `data`.
    Header { target: Target, data: B, tries: u32 },
    /// Waiting for the status of the chunk at `offset`.
    Chunk { target: Target, data: B, offset: usize, attempt: u32 },
    /// Waiting for the status of the whole.
    Commit { target: Target, tries: u32 },
    /// Waiting for the header of a stream.
    StreamHeader { what: What },
    /// About to wait for a chunk.
    StreamNext { what: What, total: u32, chunk: u32, out: B, attempt: u32 },
    /// Waiting for a chunk's checksum.
    StreamCrc { what: What, total: u32, chunk: u32, out: B, attempt: u32 },
    /// Waiting for a chunk's bytes.
    StreamData { what: What, total: u32, chunk: u32, out: B, attempt: u32, crc: Option<u32> },
    /// The exchange is over.
    Finished { result: Result<Reply<B, L>, Failure<T>> },
}

/// Something to tell whoever is watching.
#[derive(Clone, Copy, Debug, PartialEq, Eq, Structural)]
pub enum Note {
    /// The header was accepted.
    Sending,
    /// This much is through.
    Sent { done: usize, total: usize },
    /// The chunk at this offset failed or timed out.
    Retrying { offset: usize, attempt: u32 },
    /// The chunk at this offset came with a bad checksum.
    BadChunk { offset: usize, attempt: u32 },
    /// The device declined a rate.
    Declined { baud: u32, current: u32 },
}

/// What to wait for.
#[derive(Clone, Copy, Debug, PartialEq, Eq, Structural)]
pub enum Ask {
    /// Everything on the line dropped, in both directions. Answered by
    /// [`Event::Done`].
    Clear,
    /// Exactly this many bytes, or a timeout. Answered by [`Event::Got`].
    Read(usize),
    /// This many milliseconds, then whatever arrived meanwhile dropped.
    /// Answered by [`Event::Done`].
    Settle(u32),
    /// The host's rate changed, then [`Settle`](Ask::Settle). Answered by
    /// [`Event::Done`].
    Switch { baud: u32, pause: u32 },
    /// Nothing. Answered by [`Event::Done`].
    Proceed,
    /// Nothing: the exchange is over, and [`Link::result`] has what it came
    /// to.
    Finish,
    /// Nothing: the event did not answer what was asked, which still stands.
    Again,
}

/// What to do next, in this order.
#[verifier::ext_equal]
pub struct Turn<B> {
    /// Pass this on.
    pub note: Option<Note>,
    /// Show these bytes: the device's boot banner.
    pub show: B,
    /// Stop here if interrupted.
    pub check: bool,
    /// Send these bytes.
    pub send: B,
    /// Wait for this.
    pub ask: Ask,
}

/// What came of it.
#[verifier::ext_equal]
pub enum Event<B> {
    /// It was done.
    Done,
    /// These bytes came, or the line timed out.
    Got(Option<B>),
}

/// [`State`] as a value.
pub type Stand = State<Seq<u8>, Seq<u8>, Seq<Item>>;

/// [`Turn`] as a value.
pub type Move = Turn<Seq<u8>>;

/// [`Event`] as a value.
pub type Happening = Event<Seq<u8>>;

/// What an exchange came to, as a value.
pub type Verdict = Result<Reply<Seq<u8>, Seq<Item>>, Failure<Seq<u8>>>;

// --- The decisions, as values ---------------------------------------------

/// Sends some bytes and waits for something.
pub open spec fn say(send: Seq<u8>, ask: Ask) -> Move {
    Turn { note: None, show: Seq::empty(), check: false, send, ask }
}

/// Ends an exchange.
pub open spec fn finish(result: Verdict) -> (Stand, Move) {
    (State::Finished { result }, say(Seq::empty(), Ask::Finish))
}

/// Greets the device, unless interrupted.
pub open spec fn hello() -> (Stand, Move) {
    (
        State::Greeting { matched: 0 },
        Turn { check: true, ..say(HELLO@, Ask::Read(1)) },
    )
}

/// Whether a byte of the boot banner is shown.
pub open spec fn is_shown(byte: u8) -> bool {
    0x20 <= byte <= 0x7E || byte == 0x0A || byte == 0x0D
}

/// Whether a reply is the status byte OK.
pub open spec fn is_ok(reply: Option<Seq<u8>>) -> bool {
    reply == Some(seq![OK])
}

/// How many timeout windows the status bytes of a transfer get.
pub open spec fn tries_for(target: Target) -> u32 {
    match target {
        Target::Memory => 1,
        Target::File => SD_STATUS_ATTEMPTS,
    }
}

/// Sends the chunk of `data` at `offset`, unless interrupted, or waits for the
/// status of the whole if there is none.
pub open spec fn push_chunk(
    note: Note,
    target: Target,
    data: Seq<u8>,
    offset: int,
    attempt: u32,
) -> (Stand, Move) {
    if offset < data.len() {
        (
            State::Chunk { target, data, offset: offset as usize, attempt },
            Turn {
                note: Some(note),
                check: true,
                ..say(
                    crate::protocol::frame(
                        crate::protocol::chunk_at(data, CHUNK_SIZE as int, offset),
                    ),
                    Ask::Read(1),
                )
            },
        )
    } else {
        (
            State::Commit { target, tries: tries_for(target) },
            Turn { note: Some(note), ..say(Seq::empty(), Ask::Read(1)) },
        )
    }
}

/// Waits for the code that explains a status that is not OK.
pub open spec fn explain(commit: bool, what: What) -> (Stand, Move) {
    (State::Explain { commit, what }, say(Seq::empty(), Ask::Read(1)))
}

/// What a stream that is all there comes to.
pub open spec fn received(what: What, out: Seq<u8>) -> Verdict {
    if what == What::SdList {
        match crate::listing::items(
            crate::listing::lines(crate::text::read_as(out)),
        ) {
            Ok(items) => Ok(Reply::Listing(items)),
            Err(error) => Err(Failure::Listing(error)),
        }
    } else {
        Ok(Reply::Data(out))
    }
}

/// Sends some bytes and goes on with a stream, or ends if it is all there.
pub open spec fn stream_on(
    note: Option<Note>,
    send: Seq<u8>,
    what: What,
    total: u32,
    chunk: u32,
    out: Seq<u8>,
    attempt: u32,
) -> (Stand, Move) {
    if out.len() < total {
        (
            State::StreamNext { what, total, chunk, out, attempt },
            Turn { note, ..say(send, Ask::Proceed) },
        )
    } else {
        (
            State::Finished { result: received(what, out) },
            Turn { note, ..say(send, Ask::Finish) },
        )
    }
}

/// What the host does about `event`. One that does not answer what was asked
/// changes nothing.
pub open spec fn respond(state: Stand, event: Happening) -> (Stand, Move) {
    let none = Seq::<u8>::empty();
    let again = (state, say(none, Ask::Again));
    match (state, event) {
        (State::Clearing, Event::Done) => hello(),
        (State::Greeting { matched }, Event::Got(None)) => hello(),
        (State::Greeting { matched }, Event::Got(Some(bytes))) => if bytes.len() != 1 {
            again
        } else {
            let after = crate::protocol::scan_byte(ACK@, matched as int, bytes[0]);
            if after == 4 {
                (State::Version, say(none, Ask::Read(1)))
            } else {
                (
                    State::Greeting { matched: after as usize },
                    Turn {
                        show: if after == 0 && is_shown(bytes[0]) {
                            bytes
                        } else {
                            none
                        },
                        ..say(none, Ask::Read(1))
                    },
                )
            }
        },
        (State::Version, Event::Got(None)) => hello(),
        (State::Version, Event::Got(Some(bytes))) => if bytes.len() != 1 {
            again
        } else {
            (State::Greeted { version: bytes[0] }, say(none, Ask::Settle(GREETING_PAUSE)))
        },
        (State::Greeted { version }, Event::Done) => finish(Ok(Reply::Version(version))),
        (State::BaudStatus { baud, current }, Event::Got(reply)) => if is_ok(reply) {
            (State::BaudSwitch { baud }, say(none, Ask::Switch { baud, pause: BAUD_PAUSE }))
        } else {
            (
                State::Finished { result: Ok(Reply::Baud(current)) },
                Turn { note: Some(Note::Declined { baud, current }), ..say(none, Ask::Finish) },
            )
        },
        (State::BaudSwitch { baud }, Event::Done) => finish(Ok(Reply::Baud(baud))),
        (State::ExecStatus { addr }, Event::Got(reply)) => if is_ok(reply) {
            finish(Ok(Reply::Done))
        } else {
            finish(Err(Failure::RefusedExec(addr)))
        },
        (State::Started { what, tries }, Event::Got(reply)) => if is_ok(reply) {
            if what == What::SdList || what == What::SdRead {
                (State::StreamHeader { what }, say(none, Ask::Read(8)))
            } else {
                finish(Ok(Reply::Done))
            }
        } else if reply is None && tries > 1 {
            (State::Started { what, tries: (tries - 1) as u32 }, say(none, Ask::Read(1)))
        } else {
            explain(false, what)
        },
        (State::Explain { commit, what }, Event::Got(reply)) => {
            let reason = match reply {
                Some(bytes) => Reason::Code(bytes[0]),
                None => Reason::Timeout,
            };
            if reply matches Some(bytes) && bytes.len() != 1 {
                again
            } else if commit {
                finish(Err(Failure::NotCommitted(reason)))
            } else {
                finish(Err(Failure::Command { what, reason }))
            }
        },
        (State::Header { target, data, tries }, Event::Got(reply)) => if is_ok(reply) {
            push_chunk(Note::Sending, target, data, 0, 1)
        } else if reply is None && tries > 1 {
            (State::Header { target, data, tries: (tries - 1) as u32 }, say(none, Ask::Read(1)))
        } else {
            match target {
                Target::Memory => finish(Err(Failure::RejectedHeader)),
                Target::File => explain(false, What::SdWrite),
            }
        },
        (State::Chunk { target, data, offset, attempt }, Event::Got(reply)) => {
            let len = crate::protocol::chunk_len(
                data.len() as int,
                CHUNK_SIZE as int,
                offset as int,
            );
            if is_ok(reply) {
                push_chunk(
                    Note::Sent { done: (offset + len) as usize, total: data.len() as usize },
                    target,
                    data,
                    offset + len,
                    1,
                )
            } else if attempt < MAX_CHUNK_RETRIES {
                push_chunk(
                    Note::Retrying { offset, attempt },
                    target,
                    data,
                    offset as int,
                    (attempt + 1) as u32,
                )
            } else {
                (
                    State::Finished { result: Err(Failure::GaveUp(offset)) },
                    Turn {
                        note: Some(Note::Retrying { offset, attempt }),
                        ..say(none, Ask::Finish)
                    },
                )
            }
        },
        (State::Commit { target, tries }, Event::Got(reply)) => if is_ok(reply) {
            finish(Ok(Reply::Done))
        } else if reply is None && tries > 1 {
            (State::Commit { target, tries: (tries - 1) as u32 }, say(none, Ask::Read(1)))
        } else {
            match target {
                Target::Memory => finish(Err(Failure::ChecksumMismatch)),
                Target::File => explain(true, What::SdWrite),
            }
        },
        (State::StreamHeader { what }, Event::Got(None)) => finish(Err(Failure::HeaderTimeout)),
        (State::StreamHeader { what }, Event::Got(Some(bytes))) => if bytes.len() != 8 {
            again
        } else {
            stream_on(
                None,
                none,
                what,
                crate::wire::u32_at(bytes, 0),
                crate::wire::u32_at(bytes, 4),
                none,
                1,
            )
        },
        (State::StreamNext { what, total, chunk, out, attempt }, Event::Done) => (
            State::StreamCrc { what, total, chunk, out, attempt },
            Turn { check: true, ..say(none, Ask::Read(4)) },
        ),
        (State::StreamCrc { what, total, chunk, out, attempt }, Event::Got(reply)) => if reply
            matches Some(bytes) && bytes.len() != 4 {
            again
        } else {
            let crc = match reply {
                Some(bytes) => Some(crate::wire::u32_at(bytes, 0)),
                None => None,
            };
            let len = crate::protocol::chunk_len(total as int, chunk as int, out.len() as int);
            (
                State::StreamData { what, total, chunk, out, attempt, crc },
                say(none, Ask::Read(len as usize)),
            )
        },
        (State::StreamData { what, total, chunk, out, attempt, crc }, Event::Got(reply)) => {
            let len = crate::protocol::chunk_len(total as int, chunk as int, out.len() as int);
            match (crc, reply) {
                (Some(crc), Some(bytes)) => if bytes.len() != len {
                    again
                } else if crate::crc32::crc32(bytes) == crc {
                    stream_on(None, seq![OK], what, total, chunk, out + bytes, 1)
                } else if attempt < MAX_CHUNK_RETRIES {
                    stream_on(
                        Some(Note::BadChunk { offset: out.len() as usize, attempt }),
                        seq![FAIL],
                        what,
                        total,
                        chunk,
                        out,
                        (attempt + 1) as u32,
                    )
                } else {
                    (
                        State::Finished { result: Err(Failure::GaveUp(out.len() as usize)) },
                        Turn {
                            note: Some(Note::BadChunk { offset: out.len() as usize, attempt }),
                            ..say(seq![FAIL], Ask::Finish)
                        },
                    )
                },
                _ => finish(Err(Failure::StreamTimeout)),
            }
        },
        _ => again,
    }
}

/// What holds of every exchange from its first turn on.
pub open spec fn is_sound(state: Stand) -> bool {
    match state {
        State::Greeting { matched } => matched < 4,
        State::Started { what, tries } => 1 <= tries <= SD_STATUS_ATTEMPTS,
        State::Header { target, data, tries } => 1 <= tries <= tries_for(target) && data.len()
            <= usize::MAX,
        State::Chunk { target, data, offset, attempt } => offset < data.len() <= usize::MAX && 1
            <= attempt <= MAX_CHUNK_RETRIES,
        State::Commit { target, tries } => 1 <= tries <= tries_for(target),
        State::StreamNext { what, total, chunk, out, attempt } => out.len() < total && 1 <= attempt
            <= MAX_CHUNK_RETRIES,
        State::StreamCrc { what, total, chunk, out, attempt } => out.len() < total && 1 <= attempt
            <= MAX_CHUNK_RETRIES,
        State::StreamData { what, total, chunk, out, attempt, crc } => out.len() < total && 1
            <= attempt <= MAX_CHUNK_RETRIES,
        _ => true,
    }
}

/// Every event leaves an exchange sound.
pub proof fn every_event_leaves_an_exchange_sound(state: Stand, event: Happening)
    requires
        is_sound(state),
    ensures
        is_sound(respond(state, event).0),
{
}

// --- How exchanges begin ----------------------------------------------------

/// Asks the device to switch to another rate, unless it is the one in effect.
pub open spec fn begin_baud(baud: u32, current: u32) -> (Stand, Move) {
    if current == baud {
        finish(Ok(Reply::Baud(baud)))
    } else {
        (
            State::BaudStatus { baud, current },
            say(seq![CMD_SET_BAUD] + crate::wire::u32_bytes(baud), Ask::Read(1)),
        )
    }
}

/// The header of a write to memory.
pub open spec fn mem_header(addr: u32, data: Seq<u8>) -> Seq<u8> {
    seq![CMD_MEM_WRITE] + crate::wire::u32_bytes(data.len() as u32) + crate::wire::u32_bytes(
        CHUNK_SIZE as u32,
    ) + crate::wire::u32_bytes(addr) + crate::wire::u32_bytes(crate::crc32::crc32(data))
}

/// Announces a write to memory.
pub open spec fn begin_mem_write(addr: u32, data: Seq<u8>) -> (Stand, Move) {
    (
        State::Header { target: Target::Memory, data, tries: 1 },
        say(mem_header(addr, data), Ask::Read(1)),
    )
}

/// Asks the device to jump.
pub open spec fn begin_exec(addr: u32) -> (Stand, Move) {
    (
        State::ExecStatus { addr },
        say(seq![CMD_EXEC] + crate::wire::u32_bytes(addr), Ask::Read(1)),
    )
}

/// The byte of a command on the card.
pub open spec fn command_byte(what: What) -> u8 {
    match what {
        What::SdList => CMD_SD_LIST,
        What::SdRead => CMD_SD_READ,
        What::SdWrite => CMD_SD_WRITE,
        What::SdDelete => CMD_SD_DELETE,
        What::SdMkdir => CMD_SD_MKDIR,
    }
}

/// Gives up on a path that does not fit its length field, once the command
/// byte is out.
pub open spec fn path_too_long(what: What) -> (Stand, Move) {
    (
        State::Finished { result: Err(Failure::PathTooLong) },
        say(seq![command_byte(what)], Ask::Finish),
    )
}

/// Starts a command on the card that takes a single path.
pub open spec fn begin_sd_command(what: What, path: Seq<u8>) -> (Stand, Move) {
    if path.len() > u16::MAX {
        path_too_long(what)
    } else {
        (
            State::Started { what, tries: SD_STATUS_ATTEMPTS },
            say(seq![command_byte(what)] + crate::protocol::path_bytes(path), Ask::Read(1)),
        )
    }
}

/// Announces a file to write.
pub open spec fn begin_sd_write(path: Seq<u8>, data: Seq<u8>) -> (Stand, Move) {
    if path.len() > u16::MAX {
        path_too_long(What::SdWrite)
    } else {
        (
            State::Header { target: Target::File, data, tries: SD_STATUS_ATTEMPTS },
            say(
                seq![CMD_SD_WRITE] + crate::protocol::path_bytes(path) + crate::wire::u32_bytes(
                    data.len() as u32,
                ) + crate::wire::u32_bytes(CHUNK_SIZE as u32),
                Ask::Read(1),
            ),
        )
    }
}

// --- The link ---------------------------------------------------------------

/// The value of a failure.
pub open spec fn failure_value(failure: Failure<String>) -> Failure<Seq<u8>> {
    match failure {
        Failure::RejectedHeader => Failure::RejectedHeader,
        Failure::ChecksumMismatch => Failure::ChecksumMismatch,
        Failure::RefusedExec(addr) => Failure::RefusedExec(addr),
        Failure::Command { what, reason } => Failure::Command { what, reason },
        Failure::NotCommitted(reason) => Failure::NotCommitted(reason),
        Failure::HeaderTimeout => Failure::HeaderTimeout,
        Failure::StreamTimeout => Failure::StreamTimeout,
        Failure::GaveUp(offset) => Failure::GaveUp(offset),
        Failure::PathTooLong => Failure::PathTooLong,
        Failure::Listing(error) => Failure::Listing(crate::listing::error_value(error)),
    }
}

/// The value of what an exchange came to.
pub open spec fn result_value(
    result: Result<Reply<Vec<u8>, Vec<Entry>>, Failure<String>>,
) -> Verdict {
    match result {
        Ok(Reply::Done) => Ok(Reply::Done),
        Ok(Reply::Version(version)) => Ok(Reply::Version(version)),
        Ok(Reply::Baud(baud)) => Ok(Reply::Baud(baud)),
        Ok(Reply::Data(data)) => Ok(Reply::Data(data@)),
        Ok(Reply::Listing(entries)) => Ok(Reply::Listing(crate::listing::items_of(entries@))),
        Err(failure) => Err(failure_value(failure)),
    }
}

/// The value of a state.
pub open spec fn state_value(state: State<Vec<u8>, String, Vec<Entry>>) -> Stand {
    match state {
        State::Clearing => State::Clearing,
        State::Greeting { matched } => State::Greeting { matched },
        State::Version => State::Version,
        State::Greeted { version } => State::Greeted { version },
        State::BaudStatus { baud, current } => State::BaudStatus { baud, current },
        State::BaudSwitch { baud } => State::BaudSwitch { baud },
        State::ExecStatus { addr } => State::ExecStatus { addr },
        State::Started { what, tries } => State::Started { what, tries },
        State::Explain { commit, what } => State::Explain { commit, what },
        State::Header { target, data, tries } => State::Header { target, data: data@, tries },
        State::Chunk { target, data, offset, attempt } => State::Chunk {
            target,
            data: data@,
            offset,
            attempt,
        },
        State::Commit { target, tries } => State::Commit { target, tries },
        State::StreamHeader { what } => State::StreamHeader { what },
        State::StreamNext { what, total, chunk, out, attempt } => State::StreamNext {
            what,
            total,
            chunk,
            out: out@,
            attempt,
        },
        State::StreamCrc { what, total, chunk, out, attempt } => State::StreamCrc {
            what,
            total,
            chunk,
            out: out@,
            attempt,
        },
        State::StreamData { what, total, chunk, out, attempt, crc } => State::StreamData {
            what,
            total,
            chunk,
            out: out@,
            attempt,
            crc,
        },
        State::Finished { result } => State::Finished { result: result_value(result) },
    }
}

/// The value of a turn.
pub open spec fn turn_value(turn: Turn<Vec<u8>>) -> Move {
    Turn {
        note: turn.note,
        show: turn.show@,
        check: turn.check,
        send: turn.send@,
        ask: turn.ask,
    }
}

/// The value of an event.
pub open spec fn event_value(event: Event<Vec<u8>>) -> Happening {
    match event {
        Event::Done => Event::Done,
        Event::Got(Some(bytes)) => Event::Got(Some(bytes@)),
        Event::Got(None) => Event::Got(None),
    }
}

/// An exchange with the device, between one turn and the next.
pub struct Link {
    state: State<Vec<u8>, String, Vec<Entry>>,
}

impl View for Link {
    type V = Stand;

    closed spec fn view(&self) -> Stand {
        state_value(self.state)
    }
}

/// A vector of one byte.
fn one(byte: u8) -> (res: Vec<u8>)
    ensures
        res@ == seq![byte],
{
    let mut bytes: Vec<u8> = Vec::new();
    bytes.push(byte);
    proof {
        assert(bytes@ =~= seq![byte]);
    }
    bytes
}

/// Whether a reply is the status byte OK.
fn accepted(reply: &Option<Vec<u8>>) -> (res: bool)
    ensures
        res == match *reply {
            Some(bytes) => bytes@ == seq![OK],
            None => false,
        },
{
    match reply {
        Some(bytes) => {
            proof {
                assert(bytes@.len() == 1 && bytes@[0] == OK ==> bytes@ =~= seq![OK]);
            }
            bytes.len() == 1 && bytes[0] == OK
        },
        None => false,
    }
}

/// The CRC-32 of `data` as the host computes it.
pub fn crc32(data: &[u8]) -> (res: u32)
    ensures
        res == crate::crc32::crc32(data@),
{
    crc32fast::hash(data)
}

/// The start of a command on the card.
fn command(what: What, path: &[u8]) -> (res: Vec<u8>)
    requires
        path@.len() <= u16::MAX,
    ensures
        res@ == seq![command_byte(what)] + crate::protocol::path_bytes(path@),
{
    let mut send = one(byte_of(what));
    crate::wire::push_u16(&mut send, path.len() as u16);
    send.extend_from_slice(path);
    proof {
        assert(send@ =~= seq![command_byte(what)] + crate::protocol::path_bytes(path@));
    }
    send
}

/// The byte of a command on the card.
fn byte_of(what: What) -> (res: u8)
    ensures
        res == command_byte(what),
{
    match what {
        What::SdList => CMD_SD_LIST,
        What::SdRead => CMD_SD_READ,
        What::SdWrite => CMD_SD_WRITE,
        What::SdDelete => CMD_SD_DELETE,
        What::SdMkdir => CMD_SD_MKDIR,
    }
}

impl Link {
    #[verifier::type_invariant]
    spec fn holds(self) -> bool {
        is_sound(state_value(self.state))
    }

    fn made(state: State<Vec<u8>, String, Vec<Entry>>, send: Vec<u8>, ask: Ask) -> (res: (
        Link,
        Turn<Vec<u8>>,
    ))
        requires
            is_sound(state_value(state)),
        ensures
            res.0@ == state_value(state),
            turn_value(res.1) == say(send@, ask),
    {
        (Link { state }, Turn { note: None, show: Vec::new(), check: false, send, ask })
    }

    fn finish(result: Result<Reply<Vec<u8>, Vec<Entry>>, Failure<String>>) -> (res: (
        Link,
        Turn<Vec<u8>>,
    ))
        ensures
            (res.0@, turn_value(res.1)) == finish(result_value(result)),
    {
        Self::made(State::Finished { result }, Vec::new(), Ask::Finish)
    }

    /// Establishes (or re-establishes) contact with the loader.
    ///
    /// Sends HELLO until the device answers ACK and a version. This works
    /// whether the board just booted or is already sitting in its command
    /// loop.
    pub fn handshake() -> (res: (Link, Turn<Vec<u8>>))
        ensures
            res.0@ == Stand::Clearing,
            turn_value(res.1) == say(Seq::empty(), Ask::Clear),
    {
        Self::made(State::Clearing, Vec::new(), Ask::Clear)
    }

    /// Switches the link to `baud`, up for a bulk transfer or back down, from
    /// the `current` rate.
    ///
    /// The device acknowledges at the current rate and then switches; the
    /// host switches to match. Where the device declines or does not answer,
    /// both ends stay put.
    pub fn negotiate_baud(baud: u32, current: u32) -> (res: (Link, Turn<Vec<u8>>))
        ensures
            (res.0@, turn_value(res.1)) == begin_baud(baud, current),
    {
        if current == baud {
            return Self::finish(Ok(Reply::Baud(baud)));
        }
        let mut send = one(CMD_SET_BAUD);
        crate::wire::push_u32(&mut send, baud);
        Self::made(State::BaudStatus { baud, current }, send, Ask::Read(1))
    }

    /// Writes `data` to memory at `addr` (no jump).
    pub fn mem_write(addr: u32, data: Vec<u8>) -> (res: (Link, Turn<Vec<u8>>))
        ensures
            (res.0@, turn_value(res.1)) == begin_mem_write(addr, data@),
    {
        let mut send = one(CMD_MEM_WRITE);
        crate::wire::push_u32(&mut send, data.len() as u32);
        crate::wire::push_u32(&mut send, CHUNK_SIZE as u32);
        crate::wire::push_u32(&mut send, addr);
        crate::wire::push_u32(&mut send, crc32(data.as_slice()));
        proof {
            assert(send@ =~= mem_header(addr, data@));
        }
        let state = State::Header { target: Target::Memory, data, tries: 1 };
        Self::made(state, send, Ask::Read(1))
    }

    /// Jumps to `addr`. The device does not reply again after this.
    pub fn exec(addr: u32) -> (res: (Link, Turn<Vec<u8>>))
        ensures
            (res.0@, turn_value(res.1)) == begin_exec(addr),
    {
        let mut send = one(CMD_EXEC);
        crate::wire::push_u32(&mut send, addr);
        Self::made(State::ExecStatus { addr }, send, Ask::Read(1))
    }

    /// Starts a command on the card that takes a single path.
    fn start_sd_command(what: What, path: &str) -> (res: (Link, Turn<Vec<u8>>))
        ensures
            (res.0@, turn_value(res.1)) == begin_sd_command(
                what,
                vstd::utf8::encode_utf8(path@),
            ),
    {
        let path = path.as_bytes();
        if path.len() > 0xFFFF {
            let result = Err(Failure::PathTooLong);
            return Self::made(State::Finished { result }, one(byte_of(what)), Ask::Finish);
        }
        let state = State::Started { what, tries: SD_STATUS_ATTEMPTS };
        Self::made(state, command(what, path), Ask::Read(1))
    }

    /// Lists a directory on the card's FAT boot partition.
    pub fn sd_list(path: &str) -> (res: (Link, Turn<Vec<u8>>))
        ensures
            (res.0@, turn_value(res.1)) == begin_sd_command(
                What::SdList,
                vstd::utf8::encode_utf8(path@),
            ),
    {
        Self::start_sd_command(What::SdList, path)
    }

    /// Copies `remote` off the card.
    pub fn sd_read(remote: &str) -> (res: (Link, Turn<Vec<u8>>))
        ensures
            (res.0@, turn_value(res.1)) == begin_sd_command(
                What::SdRead,
                vstd::utf8::encode_utf8(remote@),
            ),
    {
        Self::start_sd_command(What::SdRead, remote)
    }

    /// Writes `data` onto the card as `remote`, creating or truncating it.
    pub fn sd_write(remote: &str, data: Vec<u8>) -> (res: (Link, Turn<Vec<u8>>))
        ensures
            (res.0@, turn_value(res.1)) == begin_sd_write(
                vstd::utf8::encode_utf8(remote@),
                data@,
            ),
    {
        let path = remote.as_bytes();
        if path.len() > 0xFFFF {
            let result = Err(Failure::PathTooLong);
            return Self::made(State::Finished { result }, one(CMD_SD_WRITE), Ask::Finish);
        }
        let mut send = command(What::SdWrite, path);
        crate::wire::push_u32(&mut send, data.len() as u32);
        crate::wire::push_u32(&mut send, CHUNK_SIZE as u32);
        let state = State::Header { target: Target::File, data, tries: SD_STATUS_ATTEMPTS };
        Self::made(state, send, Ask::Read(1))
    }

    /// Deletes `remote` from the card.
    pub fn sd_delete(remote: &str) -> (res: (Link, Turn<Vec<u8>>))
        ensures
            (res.0@, turn_value(res.1)) == begin_sd_command(
                What::SdDelete,
                vstd::utf8::encode_utf8(remote@),
            ),
    {
        Self::start_sd_command(What::SdDelete, remote)
    }

    /// Creates the directory `remote` on the card. A single level: the parent
    /// directories must already exist.
    pub fn sd_mkdir(remote: &str) -> (res: (Link, Turn<Vec<u8>>))
        ensures
            (res.0@, turn_value(res.1)) == begin_sd_command(
                What::SdMkdir,
                vstd::utf8::encode_utf8(remote@),
            ),
    {
        Self::start_sd_command(What::SdMkdir, remote)
    }

    /// What the exchange came to, if it is over.
    pub fn result(self) -> (res: Option<Result<Reply<Vec<u8>, Vec<Entry>>, Failure<String>>>)
        ensures
            match self@ {
                State::Finished { result } => res matches Some(found) && result_value(found)
                    == result,
                _ => res is None,
            },
    {
        match self.state {
            State::Finished { result } => Some(result),
            _ => None,
        }
    }
}

impl Link {
    /// Takes what came of the last turn.
    pub fn next(self, event: Event<Vec<u8>>) -> (res: (Link, Turn<Vec<u8>>))
        ensures
            (res.0@, turn_value(res.1)) == respond(self@, event_value(event)),
    {
        proof {
            use_type_invariant(&self);
        }
        match self.state {
            State::Clearing => match event {
                Event::Done => Self::hello(),
                _ => Self::again(State::Clearing),
            },
            State::Greeting { matched } => Self::wait_for_ack(matched, event),
            State::Version => Self::wait_for_version(event),
            State::Greeted { version } => match event {
                Event::Done => Self::finish(Ok(Reply::Version(version))),
                _ => Self::again(State::Greeted { version }),
            },
            State::BaudStatus { baud, current } => match event {
                Event::Got(reply) => Self::baud_status(baud, current, reply),
                _ => Self::again(State::BaudStatus { baud, current }),
            },
            State::BaudSwitch { baud } => match event {
                Event::Done => Self::finish(Ok(Reply::Baud(baud))),
                _ => Self::again(State::BaudSwitch { baud }),
            },
            State::ExecStatus { addr } => match event {
                Event::Got(reply) => if accepted(&reply) {
                    Self::finish(Ok(Reply::Done))
                } else {
                    Self::finish(Err(Failure::RefusedExec(addr)))
                },
                _ => Self::again(State::ExecStatus { addr }),
            },
            State::Started { what, tries } => match event {
                Event::Got(reply) => Self::started(what, tries, reply),
                _ => Self::again(State::Started { what, tries }),
            },
            State::Explain { commit, what } => match event {
                Event::Got(reply) => Self::fail_reason(commit, what, reply),
                _ => Self::again(State::Explain { commit, what }),
            },
            State::Header { target, data, tries } => match event {
                Event::Got(reply) => Self::header(target, data, tries, reply),
                _ => Self::again(State::Header { target, data, tries }),
            },
            State::Chunk { target, data, offset, attempt } => match event {
                Event::Got(reply) => Self::send_chunked(target, data, offset, attempt, reply),
                _ => Self::again(State::Chunk { target, data, offset, attempt }),
            },
            State::Commit { target, tries } => match event {
                Event::Got(reply) => Self::commit(target, tries, reply),
                _ => Self::again(State::Commit { target, tries }),
            },
            State::StreamHeader { what } => match event {
                Event::Got(reply) => Self::stream_header(what, reply),
                _ => Self::again(State::StreamHeader { what }),
            },
            State::StreamNext { what, total, chunk, out, attempt } => match event {
                Event::Done => {
                    let state = State::StreamCrc { what, total, chunk, out, attempt };
                    let (link, turn) = Self::made(state, Vec::new(), Ask::Read(4));
                    (link, Turn { check: true, ..turn })
                },
                _ => Self::again(State::StreamNext { what, total, chunk, out, attempt }),
            },
            State::StreamCrc { what, total, chunk, out, attempt } => match event {
                Event::Got(reply) => Self::stream_crc(what, total, chunk, out, attempt, reply),
                _ => Self::again(State::StreamCrc { what, total, chunk, out, attempt }),
            },
            State::StreamData { what, total, chunk, out, attempt, crc } => match event {
                Event::Got(reply) => Self::recv_chunked(
                    what,
                    total,
                    chunk,
                    out,
                    attempt,
                    crc,
                    reply,
                ),
                _ => Self::again(State::StreamData { what, total, chunk, out, attempt, crc }),
            },
            State::Finished { result } => Self::again(State::Finished { result }),
        }
    }

    /// Stays where it is.
    fn again(state: State<Vec<u8>, String, Vec<Entry>>) -> (res: (Link, Turn<Vec<u8>>))
        requires
            is_sound(state_value(state)),
        ensures
            res.0@ == state_value(state),
            turn_value(res.1) == say(Seq::empty(), Ask::Again),
    {
        Self::made(state, Vec::new(), Ask::Again)
    }

    /// Greets the device, unless interrupted.
    fn hello() -> (res: (Link, Turn<Vec<u8>>))
        ensures
            (res.0@, turn_value(res.1)) == hello(),
    {
        let mut send: Vec<u8> = Vec::new();
        send.extend_from_slice(&HELLO);
        proof {
            assert(send@ =~= HELLO@);
        }
        let (link, turn) = Self::made(State::Greeting { matched: 0 }, send, Ask::Read(1));
        (link, Turn { check: true, ..turn })
    }

    /// Scans for ACK. A boot-time transient can produce a stray byte, so the
    /// whole magic has to match.
    fn wait_for_ack(matched: usize, event: Event<Vec<u8>>) -> (res: (Link, Turn<Vec<u8>>))
        requires
            matched < 4,
        ensures
            (res.0@, turn_value(res.1)) == respond(
                State::Greeting { matched },
                event_value(event),
            ),
    {
        match event {
            Event::Got(None) => Self::hello(),
            Event::Got(Some(bytes)) => {
                if bytes.len() != 1 {
                    return Self::again(State::Greeting { matched });
                }
                let byte: u8 = bytes[0];
                let after: usize = crate::protocol::scan_next(&ACK, matched, byte);
                if after == 4 {
                    return Self::made(State::Version, Vec::new(), Ask::Read(1));
                }
                let state = State::Greeting { matched: after };
                let (link, turn) = Self::made(state, Vec::new(), Ask::Read(1));
                if after == 0 && ((0x20 <= byte && byte <= 0x7E) || byte == 0x0A || byte == 0x0D) {
                    (link, Turn { show: bytes, ..turn })
                } else {
                    (link, turn)
                }
            },
            _ => Self::again(State::Greeting { matched }),
        }
    }

    /// Takes the version after ACK.
    fn wait_for_version(event: Event<Vec<u8>>) -> (res: (Link, Turn<Vec<u8>>))
        ensures
            (res.0@, turn_value(res.1)) == respond(State::Version, event_value(event)),
    {
        match event {
            Event::Got(None) => Self::hello(),
            Event::Got(Some(bytes)) => {
                if bytes.len() != 1 {
                    return Self::again(State::Version);
                }
                let state = State::Greeted { version: bytes[0] };
                Self::made(state, Vec::new(), Ask::Settle(GREETING_PAUSE))
            },
            _ => Self::again(State::Version),
        }
    }

    /// Takes the answer to a request for another rate.
    fn baud_status(baud: u32, current: u32, reply: Option<Vec<u8>>) -> (res: (Link, Turn<Vec<u8>>))
        ensures
            (res.0@, turn_value(res.1)) == respond(
                State::BaudStatus { baud, current },
                event_value(Event::Got(reply)),
            ),
    {
        if accepted(&reply) {
            let ask = Ask::Switch { baud, pause: BAUD_PAUSE };
            return Self::made(State::BaudSwitch { baud }, Vec::new(), ask);
        }
        let (link, turn) = Self::finish(Ok(Reply::Baud(current)));
        (link, Turn { note: Some(Note::Declined { baud, current }), ..turn })
    }

    /// Takes the status of a command on the card.
    fn started(what: What, tries: u32, reply: Option<Vec<u8>>) -> (res: (Link, Turn<Vec<u8>>))
        requires
            1 <= tries <= SD_STATUS_ATTEMPTS,
        ensures
            (res.0@, turn_value(res.1)) == respond(
                State::Started { what, tries },
                event_value(Event::Got(reply)),
            ),
    {
        if accepted(&reply) {
            if what == What::SdList || what == What::SdRead {
                Self::made(State::StreamHeader { what }, Vec::new(), Ask::Read(8))
            } else {
                Self::finish(Ok(Reply::Done))
            }
        } else if reply.is_none() && tries > 1 {
            Self::made(State::Started { what, tries: tries - 1 }, Vec::new(), Ask::Read(1))
        } else {
            Self::made(State::Explain { commit: false, what }, Vec::new(), Ask::Read(1))
        }
    }

    /// Takes the code that explains a status that is not OK.
    fn fail_reason(commit: bool, what: What, reply: Option<Vec<u8>>) -> (res: (Link, Turn<Vec<u8>>))
        ensures
            (res.0@, turn_value(res.1)) == respond(
                State::Explain { commit, what },
                event_value(Event::Got(reply)),
            ),
    {
        let reason = match reply {
            Some(bytes) => {
                if bytes.len() != 1 {
                    return Self::again(State::Explain { commit, what });
                }
                Reason::Code(bytes[0])
            },
            None => Reason::Timeout,
        };
        if commit {
            Self::finish(Err(Failure::NotCommitted(reason)))
        } else {
            Self::finish(Err(Failure::Command { what, reason }))
        }
    }

    /// Takes the status of the header of a transfer.
    fn header(target: Target, data: Vec<u8>, tries: u32, reply: Option<Vec<u8>>) -> (res: (
        Link,
        Turn<Vec<u8>>,
    ))
        requires
            1 <= tries <= tries_for(target),
        ensures
            (res.0@, turn_value(res.1)) == respond(
                State::Header { target, data: data@, tries },
                event_value(Event::Got(reply)),
            ),
    {
        if accepted(&reply) {
            return Self::push_chunk(Note::Sending, target, data, 0, 1);
        }
        if reply.is_none() && tries > 1 {
            assert(data.len() <= usize::MAX);
            let state = State::Header { target, data, tries: tries - 1 };
            return Self::made(state, Vec::new(), Ask::Read(1));
        }
        match target {
            Target::Memory => Self::finish(Err(Failure::RejectedHeader)),
            Target::File => {
                let state = State::Explain { commit: false, what: What::SdWrite };
                Self::made(state, Vec::new(), Ask::Read(1))
            },
        }
    }

    /// Sends the chunk of `data` at `offset`, or waits for the status of the
    /// whole if there is none.
    fn push_chunk(note: Note, target: Target, data: Vec<u8>, offset: usize, attempt: u32) -> (res: (
        Link,
        Turn<Vec<u8>>,
    ))
        requires
            1 <= attempt <= MAX_CHUNK_RETRIES,
        ensures
            (res.0@, turn_value(res.1)) == push_chunk(note, target, data@, offset as int, attempt),
    {
        if offset < data.len() {
            let len: usize = if data.len() - offset < CHUNK_SIZE {
                data.len() - offset
            } else {
                CHUNK_SIZE
            };
            let chunk = crate::text::part(data.as_slice(), offset, offset + len);
            let mut send: Vec<u8> = Vec::new();
            crate::wire::push_u32(&mut send, crc32(chunk));
            send.extend_from_slice(chunk);
            proof {
                assert(send@ =~= crate::protocol::frame(chunk@));
            }
            let state = State::Chunk { target, data, offset, attempt };
            let (link, turn) = Self::made(state, send, Ask::Read(1));
            (link, Turn { note: Some(note), check: true, ..turn })
        } else {
            let tries: u32 = match target {
                Target::Memory => 1,
                Target::File => SD_STATUS_ATTEMPTS,
            };
            let state = State::Commit { target, tries };
            let (link, turn) = Self::made(state, Vec::new(), Ask::Read(1));
            (link, Turn { note: Some(note), ..turn })
        }
    }

    /// Takes the status of a chunk, and sends the next one or the same one
    /// again.
    fn send_chunked(
        target: Target,
        data: Vec<u8>,
        offset: usize,
        attempt: u32,
        reply: Option<Vec<u8>>,
    ) -> (res: (Link, Turn<Vec<u8>>))
        requires
            offset < data@.len(),
            1 <= attempt <= MAX_CHUNK_RETRIES,
        ensures
            (res.0@, turn_value(res.1)) == respond(
                State::Chunk { target, data: data@, offset, attempt },
                event_value(Event::Got(reply)),
            ),
    {
        if accepted(&reply) {
            let total: usize = data.len();
            let done: usize = if total - offset < CHUNK_SIZE {
                total
            } else {
                offset + CHUNK_SIZE
            };
            return Self::push_chunk(Note::Sent { done, total }, target, data, done, 1);
        }
        let note = Note::Retrying { offset, attempt };
        if attempt < MAX_CHUNK_RETRIES {
            Self::push_chunk(note, target, data, offset, attempt + 1)
        } else {
            let (link, turn) = Self::finish(Err(Failure::GaveUp(offset)));
            (link, Turn { note: Some(note), ..turn })
        }
    }

    /// Takes the status of the whole.
    fn commit(target: Target, tries: u32, reply: Option<Vec<u8>>) -> (res: (Link, Turn<Vec<u8>>))
        requires
            1 <= tries <= tries_for(target),
        ensures
            (res.0@, turn_value(res.1)) == respond(
                State::Commit { target, tries },
                event_value(Event::Got(reply)),
            ),
    {
        if accepted(&reply) {
            return Self::finish(Ok(Reply::Done));
        }
        if reply.is_none() && tries > 1 {
            let state = State::Commit { target, tries: tries - 1 };
            return Self::made(state, Vec::new(), Ask::Read(1));
        }
        match target {
            Target::Memory => Self::finish(Err(Failure::ChecksumMismatch)),
            Target::File => {
                let state = State::Explain { commit: true, what: What::SdWrite };
                Self::made(state, Vec::new(), Ask::Read(1))
            },
        }
    }

    /// What a stream that is all there comes to.
    fn received(what: What, out: Vec<u8>) -> (res: Result<
        Reply<Vec<u8>, Vec<Entry>>,
        Failure<String>,
    >)
        ensures
            result_value(res) == received(what, out@),
    {
        if what == What::SdList {
            let listing = crate::text::read_text(out.as_slice());
            match crate::listing::parse_listing(listing.as_str()) {
                Ok(entries) => Ok(Reply::Listing(entries)),
                Err(error) => Err(Failure::Listing(error)),
            }
        } else {
            Ok(Reply::Data(out))
        }
    }

    /// Sends some bytes and goes on with a stream, or ends if it is all there.
    fn stream_on(
        note: Option<Note>,
        send: Vec<u8>,
        what: What,
        total: u32,
        chunk: u32,
        out: Vec<u8>,
        attempt: u32,
    ) -> (res: (Link, Turn<Vec<u8>>))
        requires
            1 <= attempt <= MAX_CHUNK_RETRIES,
        ensures
            (res.0@, turn_value(res.1)) == stream_on(
                note,
                send@,
                what,
                total,
                chunk,
                out@,
                attempt,
            ),
    {
        if (out.len() as u64) < total as u64 {
            let state = State::StreamNext { what, total, chunk, out, attempt };
            let (link, turn) = Self::made(state, send, Ask::Proceed);
            (link, Turn { note, ..turn })
        } else {
            let result = Self::received(what, out);
            let (link, turn) = Self::made(State::Finished { result }, send, Ask::Finish);
            (link, Turn { note, ..turn })
        }
    }

    /// Takes the header of a stream.
    fn stream_header(what: What, reply: Option<Vec<u8>>) -> (res: (Link, Turn<Vec<u8>>))
        ensures
            (res.0@, turn_value(res.1)) == respond(
                State::StreamHeader { what },
                event_value(Event::Got(reply)),
            ),
    {
        match reply {
            None => Self::finish(Err(Failure::HeaderTimeout)),
            Some(bytes) => {
                if bytes.len() != 8 {
                    return Self::again(State::StreamHeader { what });
                }
                let total: u32 = crate::wire::read_u32(bytes.as_slice(), 0);
                let chunk: u32 = crate::wire::read_u32(bytes.as_slice(), 4);
                Self::stream_on(None, Vec::new(), what, total, chunk, Vec::new(), 1)
            },
        }
    }

    /// How long the next chunk of a stream is.
    fn stream_len(total: u32, chunk: u32, got: usize) -> (res: usize)
        requires
            got < total,
        ensures
            res == crate::protocol::chunk_len(total as int, chunk as int, got as int),
    {
        let left: u32 = total - got as u32;
        if left < chunk {
            left as usize
        } else {
            chunk as usize
        }
    }

    /// Takes a chunk's checksum.
    fn stream_crc(
        what: What,
        total: u32,
        chunk: u32,
        out: Vec<u8>,
        attempt: u32,
        reply: Option<Vec<u8>>,
    ) -> (res: (Link, Turn<Vec<u8>>))
        requires
            out@.len() < total,
            1 <= attempt <= MAX_CHUNK_RETRIES,
        ensures
            (res.0@, turn_value(res.1)) == respond(
                State::StreamCrc { what, total, chunk, out: out@, attempt },
                event_value(Event::Got(reply)),
            ),
    {
        let crc: Option<u32> = match reply {
            Some(bytes) => {
                if bytes.len() != 4 {
                    return Self::again(State::StreamCrc { what, total, chunk, out, attempt });
                }
                Some(crate::wire::read_u32(bytes.as_slice(), 0))
            },
            None => None,
        };
        let len: usize = Self::stream_len(total, chunk, out.len());
        let state = State::StreamData { what, total, chunk, out, attempt, crc };
        Self::made(state, Vec::new(), Ask::Read(len))
    }

    /// Takes a chunk's bytes, acknowledges them, and goes on.
    fn recv_chunked(
        what: What,
        total: u32,
        chunk: u32,
        out: Vec<u8>,
        attempt: u32,
        crc: Option<u32>,
        reply: Option<Vec<u8>>,
    ) -> (res: (Link, Turn<Vec<u8>>))
        requires
            out@.len() < total,
            1 <= attempt <= MAX_CHUNK_RETRIES,
        ensures
            (res.0@, turn_value(res.1)) == respond(
                State::StreamData { what, total, chunk, out: out@, attempt, crc },
                event_value(Event::Got(reply)),
            ),
    {
        let (stored, bytes) = match (crc, reply) {
            (Some(stored), Some(bytes)) => (stored, bytes),
            _ => return Self::finish(Err(Failure::StreamTimeout)),
        };
        if bytes.len() != Self::stream_len(total, chunk, out.len()) {
            return Self::again(State::StreamData { what, total, chunk, out, attempt, crc });
        }
        if crc32(bytes.as_slice()) == stored {
            let mut out = out;
            let mut bytes = bytes;
            out.append(&mut bytes);
            return Self::stream_on(None, one(OK), what, total, chunk, out, 1);
        }
        let offset: usize = out.len();
        let note = Some(Note::BadChunk { offset, attempt });
        if attempt < MAX_CHUNK_RETRIES {
            Self::stream_on(note, one(FAIL), what, total, chunk, out, attempt + 1)
        } else {
            let result = Err(Failure::GaveUp(offset));
            let (link, turn) = Self::made(State::Finished { result }, one(FAIL), Ask::Finish);
            (link, Turn { note, ..turn })
        }
    }
}

// --- Messages ---------------------------------------------------------------

/// The text of a code that follows a status that is not OK.
pub open spec fn code_text(code: u8) -> Seq<u8> {
    if code == 1 {
        vstd::utf8::encode_utf8("SD bring-up failed"@)
    } else if code == 2 {
        vstd::utf8::encode_utf8("no such file or directory"@)
    } else if code == 3 {
        vstd::utf8::encode_utf8("filesystem error"@)
    } else if code == 4 {
        vstd::utf8::encode_utf8("directory listing too large"@)
    } else if code == 5 {
        vstd::utf8::encode_utf8("bad path"@)
    } else if code == 6 {
        vstd::utf8::encode_utf8("write failed"@)
    } else if code == 7 {
        vstd::utf8::encode_utf8("I2C transfer failed"@)
    } else if code == 8 {
        vstd::utf8::encode_utf8("read-back mismatch"@)
    } else if code == 9 {
        vstd::utf8::encode_utf8("request outside what the device will address"@)
    } else if code == 10 {
        vstd::utf8::encode_utf8("the part never answered the read-back"@)
    } else {
        vstd::utf8::encode_utf8("error code "@) + crate::text::decimal(code as nat)
    }
}

/// The text of a reason.
pub open spec fn reason_text(reason: Reason) -> Seq<u8> {
    match reason {
        Reason::Code(code) => code_text(code),
        Reason::Timeout => vstd::utf8::encode_utf8("timed out reading error code"@),
    }
}

/// What a command on the card is called.
pub open spec fn what_text(what: What) -> Seq<u8> {
    match what {
        What::SdList => vstd::utf8::encode_utf8("sd-list"@),
        What::SdRead => vstd::utf8::encode_utf8("sd-read"@),
        What::SdWrite => vstd::utf8::encode_utf8("sd-write"@),
        What::SdDelete => vstd::utf8::encode_utf8("sd-delete"@),
        What::SdMkdir => vstd::utf8::encode_utf8("sd-mkdir"@),
    }
}

/// The text of a failure, with its cause where it has one.
pub open spec fn failure_text(failure: Failure<String>) -> Seq<u8> {
    match failure {
        Failure::RejectedHeader => vstd::utf8::encode_utf8(
            "device rejected header (bad size/address?)"@,
        ),
        Failure::ChecksumMismatch => vstd::utf8::encode_utf8(
            "device reported overall checksum mismatch"@,
        ),
        Failure::RefusedExec(addr) => vstd::utf8::encode_utf8("device refused to exec 0x"@)
            + crate::text::hex(addr as nat, 1) + vstd::utf8::encode_utf8(" (bad address?)"@),
        Failure::Command { what, reason } => what_text(what) + vstd::utf8::encode_utf8(
            " failed: "@,
        ) + reason_text(reason),
        Failure::NotCommitted(reason) => vstd::utf8::encode_utf8("sd-write did not commit: "@)
            + reason_text(reason),
        Failure::HeaderTimeout => vstd::utf8::encode_utf8("timed out waiting for stream header"@),
        Failure::StreamTimeout => vstd::utf8::encode_utf8("timed out mid-stream"@),
        Failure::GaveUp(offset) => vstd::utf8::encode_utf8("giving up on chunk at "@)
            + crate::text::decimal(offset as nat) + vstd::utf8::encode_utf8(" after "@)
            + crate::text::decimal(MAX_CHUNK_RETRIES as nat) + vstd::utf8::encode_utf8(
            " retries"@,
        ),
        Failure::PathTooLong => vstd::utf8::encode_utf8(
            "path is too long for the protocol: out of range integral type conversion attempted"@,
        ),
        Failure::Listing(ListingError::Malformed(line)) => vstd::utf8::encode_utf8(
            "malformed listing line from the device: "@,
        ) + vstd::utf8::encode_utf8(crate::text::quoted(line@)),
        Failure::Listing(ListingError::BadSize(error)) => vstd::utf8::encode_utf8(
            "listing entry has a non-numeric size: "@,
        ) + vstd::utf8::encode_utf8(crate::text::number_error(error)),
    }
}

/// Names the code that follows a status that is not OK.
pub fn err_name(code: u8) -> (res: String)
    ensures
        vstd::utf8::encode_utf8(res@) == code_text(code),
{
    match code {
        1 => "SD bring-up failed".to_owned(),
        2 => "no such file or directory".to_owned(),
        3 => "filesystem error".to_owned(),
        4 => "directory listing too large".to_owned(),
        5 => "bad path".to_owned(),
        6 => "write failed".to_owned(),
        7 => "I2C transfer failed".to_owned(),
        8 => "read-back mismatch".to_owned(),
        9 => "request outside what the device will address".to_owned(),
        10 => "the part never answered the read-back".to_owned(),
        other => {
            let mut text: Vec<u8> = Vec::new();
            crate::text::push_text(&mut text, "error code ");
            crate::text::push_decimal_text(&mut text, other as u64);
            proof {
                assert(text@ =~= code_text(code));
            }
            crate::text::to_text(&text)
        },
    }
}

impl Reason {
    /// The reason in words.
    pub fn message(&self) -> (res: String)
        ensures
            vstd::utf8::encode_utf8(res@) == reason_text(*self),
    {
        match self {
            Reason::Code(code) => err_name(*code),
            Reason::Timeout => "timed out reading error code".to_owned(),
        }
    }
}

impl What {
    /// What the command is called.
    pub fn name(&self) -> (res: &'static str)
        ensures
            vstd::utf8::encode_utf8(res@) == what_text(*self),
    {
        match self {
            What::SdList => "sd-list",
            What::SdRead => "sd-read",
            What::SdWrite => "sd-write",
            What::SdDelete => "sd-delete",
            What::SdMkdir => "sd-mkdir",
        }
    }
}

impl Failure<String> {
    /// The failure in words.
    pub fn message(&self) -> (res: String)
        ensures
            vstd::utf8::encode_utf8(res@) == failure_text(*self),
    {
        let mut text: Vec<u8> = Vec::new();
        match self {
            Failure::RejectedHeader => crate::text::push_text(
                &mut text,
                "device rejected header (bad size/address?)",
            ),
            Failure::ChecksumMismatch => crate::text::push_text(
                &mut text,
                "device reported overall checksum mismatch",
            ),
            Failure::RefusedExec(addr) => {
                crate::text::push_text(&mut text, "device refused to exec 0x");
                crate::text::push_hex_text(&mut text, *addr as u64, 1);
                crate::text::push_text(&mut text, " (bad address?)");
            },
            Failure::Command { what, reason } => {
                crate::text::push_text(&mut text, what.name());
                crate::text::push_text(&mut text, " failed: ");
                crate::text::push_text(&mut text, reason.message().as_str());
            },
            Failure::NotCommitted(reason) => {
                crate::text::push_text(&mut text, "sd-write did not commit: ");
                crate::text::push_text(&mut text, reason.message().as_str());
            },
            Failure::HeaderTimeout => crate::text::push_text(
                &mut text,
                "timed out waiting for stream header",
            ),
            Failure::StreamTimeout => crate::text::push_text(&mut text, "timed out mid-stream"),
            Failure::GaveUp(offset) => {
                crate::text::push_text(&mut text, "giving up on chunk at ");
                crate::text::push_decimal_text(&mut text, *offset as u64);
                crate::text::push_text(&mut text, " after ");
                crate::text::push_decimal_text(&mut text, MAX_CHUNK_RETRIES as u64);
                crate::text::push_text(&mut text, " retries");
            },
            Failure::PathTooLong => crate::text::push_text(
                &mut text,
                "path is too long for the protocol: out of range integral type conversion attempted",
            ),
            Failure::Listing(ListingError::Malformed(line)) => {
                crate::text::push_text(&mut text, "malformed listing line from the device: ");
                crate::text::push_text(&mut text, crate::text::quote(line.as_str()).as_str());
            },
            Failure::Listing(ListingError::BadSize(error)) => {
                crate::text::push_text(&mut text, "listing entry has a non-numeric size: ");
                crate::text::push_text(&mut text, error.message());
            },
        }
        proof {
            assert(text@ =~= failure_text(*self));
        }
        crate::text::to_text(&text)
    }
}

/// The text of a note. `sending` is what is said of a header that was accepted.
pub open spec fn note_text(note: Note, sending: Seq<u8>) -> Seq<u8> {
    match note {
        Note::Sending => sending,
        Note::Sent { done, total } => vstd::utf8::encode_utf8("  "@) + crate::text::decimal(
            done as nat,
        ) + vstd::utf8::encode_utf8("/"@) + crate::text::decimal(total as nat),
        Note::Retrying { offset, attempt } => vstd::utf8::encode_utf8("  chunk at "@)
            + crate::text::decimal(offset as nat) + vstd::utf8::encode_utf8(
            " failed/timed out, retry "@,
        ) + crate::text::decimal(attempt as nat) + vstd::utf8::encode_utf8("/"@)
            + crate::text::decimal(MAX_CHUNK_RETRIES as nat),
        Note::BadChunk { offset, attempt } => vstd::utf8::encode_utf8("  chunk at "@)
            + crate::text::decimal(offset as nat) + vstd::utf8::encode_utf8(" bad CRC, retry "@)
            + crate::text::decimal(attempt as nat) + vstd::utf8::encode_utf8("/"@)
            + crate::text::decimal(MAX_CHUNK_RETRIES as nat),
        Note::Declined { baud, current } => vstd::utf8::encode_utf8("Device declined "@)
            + crate::text::decimal(baud as nat) + vstd::utf8::encode_utf8(" baud; staying at "@)
            + crate::text::decimal(current as nat),
    }
}

/// Appends how often a chunk was tried to text.
fn push_attempt(text: &mut Vec<u8>, offset: usize, what: &str, attempt: u32)
    requires
        vstd::utf8::valid_utf8(old(text)@),
    ensures
        final(text)@ == old(text)@ + vstd::utf8::encode_utf8("  chunk at "@)
            + crate::text::decimal(offset as nat) + vstd::utf8::encode_utf8(what@)
            + crate::text::decimal(attempt as nat) + vstd::utf8::encode_utf8("/"@)
            + crate::text::decimal(MAX_CHUNK_RETRIES as nat),
        vstd::utf8::valid_utf8(final(text)@),
{
    crate::text::push_text(text, "  chunk at ");
    crate::text::push_decimal_text(text, offset as u64);
    crate::text::push_text(text, what);
    crate::text::push_decimal_text(text, attempt as u64);
    crate::text::push_text(text, "/");
    crate::text::push_decimal_text(text, MAX_CHUNK_RETRIES as u64);
}

impl Note {
    /// What to print of this. `sending` is what to say of a header that was
    /// accepted.
    pub fn message(&self, sending: &str) -> (res: String)
        ensures
            vstd::utf8::encode_utf8(res@) == note_text(*self, vstd::utf8::encode_utf8(sending@)),
    {
        let mut text: Vec<u8> = Vec::new();
        match *self {
            Note::Sending => crate::text::push_text(&mut text, sending),
            Note::Sent { done, total } => {
                crate::text::push_text(&mut text, "  ");
                crate::text::push_decimal_text(&mut text, done as u64);
                crate::text::push_text(&mut text, "/");
                crate::text::push_decimal_text(&mut text, total as u64);
            },
            Note::Retrying { offset, attempt } => push_attempt(
                &mut text,
                offset,
                " failed/timed out, retry ",
                attempt,
            ),
            Note::BadChunk { offset, attempt } => push_attempt(
                &mut text,
                offset,
                " bad CRC, retry ",
                attempt,
            ),
            Note::Declined { baud, current } => {
                crate::text::push_text(&mut text, "Device declined ");
                crate::text::push_decimal_text(&mut text, baud as u64);
                crate::text::push_text(&mut text, " baud; staying at ");
                crate::text::push_decimal_text(&mut text, current as u64);
            },
        }
        proof {
            assert(text@ =~= note_text(*self, vstd::utf8::encode_utf8(sending@)));
        }
        crate::text::to_text(&text)
    }
}

/// What to warn of once the device has told its protocol version. Another
/// version is no error, so a newer device can still be driven for the parts
/// that match.
pub fn version_warning(version: u8) -> (res: Option<String>)
    ensures
        match res {
            Some(text) => version != PROTOCOL_VERSION && vstd::utf8::encode_utf8(text@)
                == vstd::utf8::encode_utf8("Warning: device protocol version "@)
                + crate::text::decimal(version as nat) + vstd::utf8::encode_utf8(", expected "@)
                + crate::text::decimal(PROTOCOL_VERSION as nat),
            None => version == PROTOCOL_VERSION,
        },
{
    if version == PROTOCOL_VERSION {
        return None;
    }
    let mut text: Vec<u8> = Vec::new();
    crate::text::push_text(&mut text, "Warning: device protocol version ");
    crate::text::push_decimal_text(&mut text, version as u64);
    crate::text::push_text(&mut text, ", expected ");
    crate::text::push_decimal_text(&mut text, PROTOCOL_VERSION as u64);
    Some(crate::text::to_text(&text))
}

} // verus!
