//! The device side of the serial protocol: a loader that stays resident and
//! services one command at a time.
//!
//! [`Loader`] decides and its driver acts. Each [`Turn`] says what to send to
//! the host and then what to ask of the board: bytes from the host, memory to
//! store or fetch, a step on the card. The driver does that and hands back an
//! [`Event`]. The loader outlives any single host invocation: a fresh HELLO in
//! the command loop is answered by greeting again.
//!
//! The success status of a chunk is sent only once the chunk is stored and the
//! loader is ready for the next. The host sends the next chunk the instant it
//! sees that byte, with no hardware flow control, so the deferral is what keeps
//! the transfer in lockstep.

use vstd::prelude::*;

use crate::protocol::{
    ACK, CHUNK_SIZE, CMD_EXEC, CMD_MEM_WRITE, CMD_SD_DELETE, CMD_SD_LIST, CMD_SD_MKDIR,
    CMD_SD_READ, CMD_SD_WRITE, CMD_SET_BAUD, ERR_BAD_PATH, ERR_FS, ERR_NOT_FOUND, ERR_SD_INIT,
    ERR_TOO_LARGE, ERR_WRITE, FAIL, HELLO, OK, PROTOCOL_VERSION,
};

verus! {

/// Where the loader's own copy begins. Memory written and jumped to lies
/// below it, so that a client can never scribble on, or jump into, the running
/// loader.
pub const RELOC_ADDR: u32 = 0x0020_0000;

/// Longest path accepted from the host. Anything longer is drained off the
/// wire, to stay in sync, and refused.
pub const MAX_PATH: usize = 255;

/// Cap on a single directory listing, which is built in memory before it is
/// streamed.
pub const LISTING_CAP: usize = 8192;

/// A command that works on the card.
#[derive(Clone, Copy, Debug, PartialEq, Eq, Structural)]
pub enum Op {
    /// List a directory.
    List,
    /// Stream a file to the host.
    Read,
    /// Stream a file from the host, creating or truncating it.
    Write,
    /// Delete a file.
    Delete,
    /// Create a directory. Its parents must exist already.
    Mkdir,
}

/// The header of a write to memory.
#[derive(Clone, Copy, Debug, PartialEq, Eq, Structural)]
pub struct MemWrite {
    /// Bytes in all.
    pub total: u32,
    /// Bytes per chunk.
    pub chunk: u32,
    /// Where they go.
    pub addr: u32,
    /// CRC-32 of all of them.
    pub crc: u32,
}

/// A command on the card that is under way. `T` is a text and `D` a list of
/// them.
#[verifier::ext_equal]
pub struct Job<T, D> {
    /// What is to be done.
    pub op: Op,
    /// The directories to walk down from the root.
    pub dirs: D,
    /// What it is done to, in the last of them. Nothing for a listing.
    pub name: T,
    /// For a write, bytes in all.
    pub total: u32,
    /// For a write, bytes per chunk.
    pub chunk: u32,
}

/// One entry of a directory. `T` is a text.
#[verifier::ext_equal]
pub struct Line<T> {
    /// Whether it is a directory.
    pub is_dir: bool,
    /// Its size in bytes.
    pub size: u32,
    /// Its name.
    pub name: T,
}

/// Where the loader stands. `B` holds bytes.
#[verifier::ext_equal]
#[allow(inconsistent_fields)]
pub enum State<B, T, D> {
    /// Waiting for the first HELLO, whatever noise comes before it.
    Hello { matched: usize },
    /// Waiting for a command.
    Command,
    /// Waiting for the rest of another HELLO.
    Rehello { matched: usize },
    /// Waiting for the header of a write to memory.
    MemHeader,
    /// Waiting for the chunk at `offset`.
    MemChunk { mem: MemWrite, offset: u32 },
    /// Storing the chunk before `offset`.
    MemStore { mem: MemWrite, offset: u32 },
    /// Reading back what ended up in memory.
    MemCheck { mem: MemWrite },
    /// Waiting for a baud.
    Baud,
    /// Switching to it.
    BaudSwitch,
    /// Waiting for an address to jump to.
    Exec,
    /// Jumped.
    Gone,
    /// Waiting for the length of a path.
    PathLen { op: Op },
    /// Waiting for a path.
    Path { op: Op, len: usize },
    /// Waiting for the sizes of a file to write.
    WriteHeader { path: T },
    /// Bringing the card up.
    CardStart { job: Job<T, D> },
    /// Opening its boot partition.
    CardVolume { job: Job<T, D> },
    /// Opening the root directory.
    CardRoot { job: Job<T, D> },
    /// Entering a directory.
    CardWalk { job: Job<T, D>, at: usize },
    /// Doing what was asked.
    CardAct { job: Job<T, D> },
    /// Waiting for the host's status of the chunk at `offset`.
    SendBulk { data: B, offset: usize },
    /// Filling a chunk from a file with `left` bytes to go.
    ReadFill { left: u32, chunk: B },
    /// Waiting for the host's status of that chunk.
    ReadAck { left: u32, chunk: B },
    /// Waiting for the chunk at `offset` of a file.
    WriteChunk { total: u32, chunk: u32, offset: u32, failed: bool },
    /// Writing the chunk before `offset`.
    WriteSave { total: u32, chunk: u32, offset: u32 },
    /// Closing the file.
    WriteClose { failed: bool },
}

/// What to ask of the board.
#[verifier::ext_equal]
pub enum Ask<B, T> {
    /// Exactly this many bytes from the host. Answered by [`Event::Bytes`].
    Read(usize),
    /// These bytes stored in memory. Answered by [`Event::Done`].
    Store { at: u32, bytes: B },
    /// What is in memory there. Answered by [`Event::Bytes`].
    Fetch { at: u32, len: u32 },
    /// What was sent drained, then the link switched to this baud. Answered
    /// by [`Event::Done`].
    SetBaud(u32),
    /// What was sent drained, then a jump to this address. Never answered.
    Jump(u32),
    /// The card brought up from scratch. Answered by [`Event::Done`] or a
    /// failure, as is everything below unless it says otherwise.
    StartCard,
    /// Its boot partition opened.
    OpenVolume,
    /// The root directory opened.
    OpenRoot,
    /// This directory entered.
    ChangeDir(T),
    /// The entries of the directory. Answered by [`Event::Listing`].
    ListDir,
    /// This file opened, created or truncated if `create`. Answered by
    /// [`Event::Opened`].
    OpenFile { name: T, create: bool },
    /// At most this many bytes from the file. Answered by [`Event::Bytes`].
    ReadFile(usize),
    /// These bytes written to the file.
    WriteFile(B),
    /// The file flushed and closed.
    CloseFile,
    /// This file deleted.
    DeleteFile(T),
    /// This directory created.
    MakeDir(T),
    /// Nothing: the event did not answer what was asked, which still stands.
    Again,
}

/// What to send to the host, and then what to ask of the board.
#[verifier::ext_equal]
pub struct Turn<B, T> {
    /// Bytes for the host.
    pub send: B,
    /// What to do then.
    pub ask: Ask<B, T>,
}

/// What came of it. `L` lists the entries of a directory.
#[verifier::ext_equal]
pub enum Event<B, L> {
    /// It was done.
    Done,
    /// These bytes came.
    Bytes(B),
    /// The file was opened and is this long.
    Opened(u32),
    /// These are the entries of the directory.
    Listing(L),
    /// There is no such file or directory.
    NotFound,
    /// It failed.
    Failed,
}

/// [`State`] as a value.
pub type Stand = State<Seq<u8>, Seq<u8>, Seq<Seq<u8>>>;

/// [`Turn`] as a value.
pub type Move = Turn<Seq<u8>, Seq<u8>>;

/// [`Event`] as a value.
pub type Happening = Event<Seq<u8>, Seq<Line<Seq<u8>>>>;

/// [`Job`] as a value.
pub type Task = Job<Seq<u8>, Seq<Seq<u8>>>;

// --- Rates ----------------------------------------------------------------

/// Whether the UART can be set to `baud`: the integer part of its divisor,
/// rounded to the nearest sixty-fourth of a 48 MHz clock over sixteen, fits
/// its register and is not zero.
pub open spec fn is_representable(baud: u32) -> bool {
    baud != 0 && {
        let divisor = (192_000_000 + baud as int / 2) / baud as int / 64;
        1 <= divisor <= u16::MAX
    }
}

/// Which rates the UART can be set to.
pub proof fn representable_rates(baud: u32)
    ensures
        is_representable(baud) <==> 46 <= baud <= 3_023_622,
{
    let b = baud as int;
    if b > 0 {
        let sum = 192_000_000 + b / 2;
        let q = sum / b;
        assert(q * b <= sum < (q + 1) * b) by (nonlinear_arith)
            requires
                q == sum / b,
                b > 0,
        ;
        if b <= 3_023_622 {
            assert(q >= 64) by (nonlinear_arith)
                requires
                    sum < (q + 1) * b,
                    sum >= 192_000_000 + (b - 1) / 2,
                    0 < b <= 3_023_622,
            ;
        } else {
            assert(q < 64) by (nonlinear_arith)
                requires
                    q * b <= sum,
                    sum <= 192_000_000 + b / 2,
                    b > 3_023_622,
            ;
        }
        if b >= 46 {
            assert(q < 4_194_304) by (nonlinear_arith)
                requires
                    q * b <= sum,
                    sum <= 192_000_000 + b / 2,
                    b >= 46,
            ;
        } else {
            assert(q >= 4_194_304) by (nonlinear_arith)
                requires
                    sum < (q + 1) * b,
                    sum >= 192_000_000,
                    0 < b < 46,
            ;
        }
    }
}

/// Whether the UART can be set to `baud`, asked before switching so that the
/// request can be answered at the old rate.
pub fn baud_representable(baud: u32) -> (res: bool)
    ensures
        res == is_representable(baud),
{
    if baud == 0 {
        return false;
    }
    let divisor: u32 = (192_000_000 + baud / 2) / baud / 64;
    divisor != 0 && divisor <= 0xFFFF
}

// --- Listings -------------------------------------------------------------

/// One line of a listing: kind, size and name, separated by tabs.
pub open spec fn line_bytes(line: Line<Seq<u8>>) -> Seq<u8> {
    seq![if line.is_dir {
        0x44u8
    } else {
        0x46u8
    }, 0x09u8] + crate::text::decimal(line.size as nat) + seq![0x09u8] + line.name + seq![0x0Au8]
}

/// A whole listing.
pub open spec fn listing_bytes(lines: Seq<Line<Seq<u8>>>) -> Seq<u8>
    decreases lines.len(),
{
    if lines.len() == 0 {
        Seq::empty()
    } else {
        listing_bytes(lines.drop_last()) + line_bytes(lines.last())
    }
}

// --- The decisions, as values ---------------------------------------------

/// Sends some bytes and asks for something.
pub open spec fn say(send: Seq<u8>, ask: Ask<Seq<u8>, Seq<u8>>) -> Move {
    Turn { send, ask }
}

/// Sends some bytes and waits for the next command.
pub open spec fn reply(send: Seq<u8>) -> (Stand, Move) {
    (State::Command, say(send, Ask::Read(1)))
}

/// Answers that a command could not begin, and why.
pub open spec fn refuse(code: u8) -> (Stand, Move) {
    reply(seq![FAIL, code])
}

/// The answer to a HELLO.
pub open spec fn greeting() -> Seq<u8> {
    ACK@ + seq![PROTOCOL_VERSION]
}

/// Begins the command that `byte` stands for.
pub open spec fn begin(byte: u8) -> (Stand, Move) {
    let none = Seq::<u8>::empty();
    if byte == HELLO@[0] {
        (State::Rehello { matched: 1 }, say(none, Ask::Read(1)))
    } else if byte == CMD_MEM_WRITE {
        (State::MemHeader, say(none, Ask::Read(16)))
    } else if byte == CMD_SET_BAUD {
        (State::Baud, say(none, Ask::Read(4)))
    } else if byte == CMD_EXEC {
        (State::Exec, say(none, Ask::Read(4)))
    } else if byte == CMD_SD_LIST {
        (State::PathLen { op: Op::List }, say(none, Ask::Read(2)))
    } else if byte == CMD_SD_READ {
        (State::PathLen { op: Op::Read }, say(none, Ask::Read(2)))
    } else if byte == CMD_SD_WRITE {
        (State::PathLen { op: Op::Write }, say(none, Ask::Read(2)))
    } else if byte == CMD_SD_DELETE {
        (State::PathLen { op: Op::Delete }, say(none, Ask::Read(2)))
    } else if byte == CMD_SD_MKDIR {
        (State::PathLen { op: Op::Mkdir }, say(none, Ask::Read(2)))
    } else {
        reply(seq![FAIL])
    }
}

/// Whether a write to memory is accepted: it has chunks that fit the buffer,
/// and ends below the loader's own copy.
pub open spec fn is_acceptable(mem: MemWrite) -> bool {
    &&& mem.total != 0
    &&& 0 < mem.chunk <= CHUNK_SIZE
    &&& mem.addr + mem.total <= RELOC_ADDR
}

/// Sends some bytes and waits for the chunk of memory at `offset`.
pub open spec fn await_mem(send: Seq<u8>, mem: MemWrite, offset: u32) -> (Stand, Move) {
    let len = crate::protocol::chunk_len(mem.total as int, mem.chunk as int, offset as int);
    (State::MemChunk { mem, offset }, say(send, Ask::Read((4 + len) as usize)))
}

/// Brings the card up for a job.
pub open spec fn start(job: Task) -> (Stand, Move) {
    (State::CardStart { job }, say(Seq::empty(), Ask::StartCard))
}

/// Brings the card up for a job on the last component of `path`.
pub open spec fn start_in_parent(op: Op, path: Seq<u8>, total: u32, chunk: u32) -> (Stand, Move) {
    let names = crate::text::names(path, 0);
    if names.len() == 0 {
        refuse(ERR_BAD_PATH)
    } else if op == Op::Write && (chunk == 0 || chunk > CHUNK_SIZE) {
        refuse(ERR_FS)
    } else {
        start(Job { op, dirs: names.drop_last(), name: names.last(), total, chunk })
    }
}

/// Enters the directory at `at`, or does what was asked if there is none.
pub open spec fn descend(job: Task, at: int) -> (Stand, Move) {
    let none = Seq::<u8>::empty();
    if at < job.dirs.len() {
        (State::CardWalk { job, at: at as usize }, say(none, Ask::ChangeDir(job.dirs[at])))
    } else {
        (
            State::CardAct { job },
            say(
                none,
                match job.op {
                    Op::List => Ask::ListDir,
                    Op::Read => Ask::OpenFile { name: job.name, create: false },
                    Op::Write => Ask::OpenFile { name: job.name, create: true },
                    Op::Delete => Ask::DeleteFile(job.name),
                    Op::Mkdir => Ask::MakeDir(job.name),
                },
            ),
        )
    }
}

/// Sends some bytes and the chunk of `data` at `offset`, or just the bytes if
/// there is none.
pub open spec fn send_from(send: Seq<u8>, data: Seq<u8>, offset: int) -> (Stand, Move) {
    if offset < data.len() {
        (
            State::SendBulk { data, offset: offset as usize },
            say(
                send + crate::protocol::frame(
                    crate::protocol::chunk_at(data, CHUNK_SIZE as int, offset),
                ),
                Ask::Read(1),
            ),
        )
    } else {
        reply(send)
    }
}

/// The header of a stream to the host.
pub open spec fn stream_header(total: u32) -> Seq<u8> {
    crate::wire::u32_bytes(total) + crate::wire::u32_bytes(CHUNK_SIZE as u32)
}

/// How long the next chunk of a file with `left` bytes to go is.
pub open spec fn read_len(left: u32) -> int {
    crate::protocol::chunk_len(left as int, CHUNK_SIZE as int, 0)
}

/// Sends some bytes and goes on to the next chunk of a file.
pub open spec fn read_from(send: Seq<u8>, left: u32) -> (Stand, Move) {
    if left == 0 {
        reply(send)
    } else {
        (
            State::ReadFill { left, chunk: Seq::empty() },
            say(send, Ask::ReadFile(read_len(left) as usize)),
        )
    }
}

/// Sends the chunk that was filled.
pub open spec fn send_read(left: u32, chunk: Seq<u8>) -> (Stand, Move) {
    (State::ReadAck { left, chunk }, say(crate::protocol::frame(chunk), Ask::Read(1)))
}

/// Sends some bytes and waits for the chunk of a file at `offset`, or closes
/// the file if there is none.
pub open spec fn await_write(
    send: Seq<u8>,
    total: u32,
    chunk: u32,
    offset: u32,
    failed: bool,
) -> (Stand, Move) {
    if offset < total {
        let len = crate::protocol::chunk_len(total as int, chunk as int, offset as int);
        (
            State::WriteChunk { total, chunk, offset, failed },
            say(send, Ask::Read((4 + len) as usize)),
        )
    } else {
        (State::WriteClose { failed }, say(send, Ask::CloseFile))
    }
}

/// What the loader does about `event`. One that does not answer what was asked
/// changes nothing.
pub open spec fn react(state: Stand, event: Happening) -> (Stand, Move) {
    let none = Seq::<u8>::empty();
    match (state, event) {
        (State::Hello { matched }, Event::Bytes(bytes)) if bytes.len() == 1 => {
            let after = crate::protocol::scan_byte(HELLO@, matched as int, bytes[0]);
            if after == 4 {
                reply(greeting())
            } else {
                (State::Hello { matched: after as usize }, say(none, Ask::Read(1)))
            }
        },
        (State::Command, Event::Bytes(bytes)) if bytes.len() == 1 => begin(bytes[0]),
        (State::Rehello { matched }, Event::Bytes(bytes)) if bytes.len() == 1 => if bytes[0]
            != HELLO@[matched as int] {
            reply(none)
        } else if matched + 1 == 4 {
            reply(greeting())
        } else {
            (State::Rehello { matched: (matched + 1) as usize }, say(none, Ask::Read(1)))
        },
        (State::MemHeader, Event::Bytes(bytes)) if bytes.len() == 16 => {
            let mem = MemWrite {
                total: crate::wire::u32_at(bytes, 0),
                chunk: crate::wire::u32_at(bytes, 4),
                addr: crate::wire::u32_at(bytes, 8),
                crc: crate::wire::u32_at(bytes, 12),
            };
            if is_acceptable(mem) {
                await_mem(seq![OK], mem, 0)
            } else {
                reply(seq![FAIL])
            }
        },
        (State::MemChunk { mem, offset }, Event::Bytes(bytes)) if bytes.len() == 4
            + crate::protocol::chunk_len(mem.total as int, mem.chunk as int, offset as int) => {
            if crate::protocol::is_intact(bytes) {
                (
                    State::MemStore { mem, offset: (offset + bytes.len() - 4) as u32 },
                    say(
                        none,
                        Ask::Store { at: (mem.addr + offset) as u32, bytes: bytes.skip(4) },
                    ),
                )
            } else {
                await_mem(seq![FAIL], mem, offset)
            }
        },
        (State::MemStore { mem, offset }, Event::Done) => if offset < mem.total {
            await_mem(seq![OK], mem, offset)
        } else {
            (
                State::MemCheck { mem },
                say(seq![OK], Ask::Fetch { at: mem.addr, len: mem.total }),
            )
        },
        (State::MemCheck { mem }, Event::Bytes(bytes)) if bytes.len() == mem.total => reply(
            seq![
                if crate::crc32::crc32(bytes) == mem.crc {
                    OK
                } else {
                    FAIL
                },
            ],
        ),
        (State::Baud, Event::Bytes(bytes)) if bytes.len() == 4 => {
            let baud = crate::wire::u32_at(bytes, 0);
            if is_representable(baud) {
                (State::BaudSwitch, say(seq![OK], Ask::SetBaud(baud)))
            } else {
                reply(seq![FAIL])
            }
        },
        (State::BaudSwitch, Event::Done) => reply(none),
        (State::Exec, Event::Bytes(bytes)) if bytes.len() == 4 => {
            let addr = crate::wire::u32_at(bytes, 0);
            if 0 < addr < RELOC_ADDR {
                (State::Gone, say(seq![OK], Ask::Jump(addr)))
            } else {
                reply(seq![FAIL])
            }
        },
        (State::PathLen { op }, Event::Bytes(bytes)) if bytes.len() == 2 => {
            let len = crate::wire::u16_at(bytes, 0) as usize;
            (State::Path { op, len }, say(none, Ask::Read(len)))
        },
        (State::Path { op, len }, Event::Bytes(bytes)) if bytes.len() == len => if len > MAX_PATH
            || !vstd::utf8::valid_utf8(bytes) {
            if op == Op::Write {
                // The sizes follow whatever the path is. They are read before
                // it is refused, as a path that names nothing is, so that the
                // link stays in sync.
                (State::WriteHeader { path: none }, say(none, Ask::Read(8)))
            } else {
                refuse(ERR_BAD_PATH)
            }
        } else {
            match op {
                Op::List => start(
                    Job {
                        op,
                        dirs: crate::text::names(bytes, 0),
                        name: Seq::empty(),
                        total: 0,
                        chunk: 0,
                    },
                ),
                Op::Write => (State::WriteHeader { path: bytes }, say(none, Ask::Read(8))),
                _ => start_in_parent(op, bytes, 0, 0),
            }
        },
        (State::WriteHeader { path }, Event::Bytes(bytes)) if bytes.len() == 8 => start_in_parent(
            Op::Write,
            path,
            crate::wire::u32_at(bytes, 0),
            crate::wire::u32_at(bytes, 4),
        ),
        (State::CardStart { job }, Event::Done) => (
            State::CardVolume { job },
            say(none, Ask::OpenVolume),
        ),
        (State::CardStart { job }, Event::NotFound) => refuse(ERR_SD_INIT),
        (State::CardStart { job }, Event::Failed) => refuse(ERR_SD_INIT),
        (State::CardVolume { job }, Event::Done) => (
            State::CardRoot { job },
            say(none, Ask::OpenRoot),
        ),
        (State::CardVolume { job }, Event::NotFound) => refuse(ERR_NOT_FOUND),
        (State::CardVolume { job }, Event::Failed) => refuse(ERR_FS),
        (State::CardRoot { job }, Event::Done) => descend(job, 0),
        (State::CardRoot { job }, Event::NotFound) => refuse(ERR_NOT_FOUND),
        (State::CardRoot { job }, Event::Failed) => refuse(ERR_FS),
        (State::CardWalk { job, at }, Event::Done) => descend(job, at + 1),
        (State::CardWalk { job, at }, Event::NotFound) => refuse(ERR_NOT_FOUND),
        (State::CardWalk { job, at }, Event::Failed) => refuse(ERR_FS),
        (State::CardAct { job }, Event::NotFound) => refuse(ERR_NOT_FOUND),
        (State::CardAct { job }, Event::Failed) => refuse(ERR_FS),
        (State::CardAct { job }, Event::Listing(lines)) if job.op == Op::List => {
            let listing = listing_bytes(lines);
            if listing.len() > LISTING_CAP {
                refuse(ERR_TOO_LARGE)
            } else {
                send_from(seq![OK] + stream_header(listing.len() as u32), listing, 0)
            }
        },
        (State::CardAct { job }, Event::Opened(len)) if job.op == Op::Read => read_from(
            seq![OK] + stream_header(len),
            len,
        ),
        (State::CardAct { job }, Event::Opened(_)) if job.op == Op::Write => await_write(
            seq![OK],
            job.total,
            job.chunk,
            0,
            false,
        ),
        (State::CardAct { job }, Event::Done) if job.op == Op::Delete || job.op == Op::Mkdir =>
            reply(seq![OK]),
        (State::SendBulk { data, offset }, Event::Bytes(bytes)) if bytes.len() == 1 => if bytes[0]
            == OK {
            send_from(
                none,
                data,
                offset + crate::protocol::chunk_len(
                    data.len() as int,
                    CHUNK_SIZE as int,
                    offset as int,
                ),
            )
        } else {
            send_from(none, data, offset as int)
        },
        (State::ReadFill { left, chunk }, Event::Bytes(bytes)) if chunk.len() + bytes.len()
            <= read_len(left) => if bytes.len() == 0 || chunk.len() + bytes.len() == read_len(
            left,
        ) {
            send_read(left, chunk + bytes)
        } else {
            (
                State::ReadFill { left, chunk: chunk + bytes },
                say(
                    none,
                    Ask::ReadFile((read_len(left) - chunk.len() - bytes.len()) as usize),
                ),
            )
        },
        // The file ended sooner than its length claimed, or a block could not
        // be read: what is there is sent, and the host's timeout surfaces the
        // short transfer.
        (State::ReadFill { left, chunk }, Event::NotFound) => send_read(left, chunk),
        (State::ReadFill { left, chunk }, Event::Failed) => send_read(left, chunk),
        (State::ReadAck { left, chunk }, Event::Bytes(bytes)) if bytes.len() == 1 => if bytes[0]
            != OK {
            send_read(left, chunk)
        } else if chunk.len() < read_len(left) {
            reply(none)
        } else {
            read_from(none, (left - chunk.len()) as u32)
        },
        (State::WriteChunk { total, chunk, offset, failed }, Event::Bytes(bytes)) if bytes.len()
            == 4 + crate::protocol::chunk_len(total as int, chunk as int, offset as int) => {
            let after = (offset + bytes.len() - 4) as u32;
            if !crate::protocol::is_intact(bytes) {
                await_write(seq![FAIL], total, chunk, offset, failed)
            } else if failed {
                // Chunks are drained even after a write error so that the
                // link stays in sync; the failure is reported at the end.
                await_write(seq![OK], total, chunk, after, failed)
            } else {
                (
                    State::WriteSave { total, chunk, offset: after },
                    say(none, Ask::WriteFile(bytes.skip(4))),
                )
            }
        },
        (State::WriteSave { total, chunk, offset }, Event::Done) => await_write(
            seq![OK],
            total,
            chunk,
            offset,
            false,
        ),
        (State::WriteSave { total, chunk, offset }, Event::NotFound) => await_write(
            seq![OK],
            total,
            chunk,
            offset,
            true,
        ),
        (State::WriteSave { total, chunk, offset }, Event::Failed) => await_write(
            seq![OK],
            total,
            chunk,
            offset,
            true,
        ),
        (State::WriteClose { failed }, Event::Done) => if failed {
            refuse(ERR_WRITE)
        } else {
            reply(seq![OK])
        },
        (State::WriteClose { failed }, Event::NotFound) => refuse(ERR_WRITE),
        (State::WriteClose { failed }, Event::Failed) => refuse(ERR_WRITE),
        _ => (state, say(none, Ask::Again)),
    }
}

/// What holds of the loader from power-on, whatever the host and the board do.
pub open spec fn is_sound(state: Stand) -> bool {
    match state {
        State::Hello { matched } => matched < 4,
        State::Rehello { matched } => 1 <= matched < 4,
        State::MemChunk { mem, offset } => is_acceptable(mem) && offset < mem.total,
        State::MemStore { mem, offset } => is_acceptable(mem) && 0 < offset <= mem.total,
        State::MemCheck { mem } => is_acceptable(mem),
        State::Path { op, len } => len <= u16::MAX,
        State::WriteHeader { path } => vstd::utf8::valid_utf8(path),
        State::CardStart { job } => is_sound_job(job),
        State::CardVolume { job } => is_sound_job(job),
        State::CardRoot { job } => is_sound_job(job),
        State::CardWalk { job, at } => is_sound_job(job) && at < job.dirs.len(),
        State::CardAct { job } => is_sound_job(job),
        State::SendBulk { data, offset } => offset < data.len() <= LISTING_CAP,
        State::ReadFill { left, chunk } => left > 0 && chunk.len() < read_len(left),
        State::ReadAck { left, chunk } => left > 0 && chunk.len() <= read_len(left),
        State::WriteChunk { total, chunk, offset, failed } => 0 < chunk <= CHUNK_SIZE && offset
            < total,
        State::WriteSave { total, chunk, offset } => 0 < chunk <= CHUNK_SIZE && 0 < offset <= total,
        _ => true,
    }
}

/// What holds of a job.
pub open spec fn is_sound_job(job: Task) -> bool {
    job.op == Op::Write ==> 0 < job.chunk <= CHUNK_SIZE
}

/// Every event leaves the loader sound.
pub proof fn every_event_leaves_the_loader_sound(state: Stand, event: Happening)
    requires
        is_sound(state),
    ensures
        is_sound(react(state, event).0),
{
}

/// The loader never has memory stored at or above its own copy, nor jumps to
/// zero or into itself, whatever the host sends.
pub proof fn the_running_loader_is_out_of_reach(state: Stand, event: Happening)
    requires
        is_sound(state),
    ensures
        match react(state, event).1.ask {
            Ask::Store { at, bytes } => at + bytes.len() <= RELOC_ADDR,
            Ask::Fetch { at, len } => at + len <= RELOC_ADDR,
            Ask::Jump(addr) => 0 < addr < RELOC_ADDR,
            _ => true,
        },
{
}

/// Only a jump leaves the command loop: the loader is gone once it has asked for
/// one, and never otherwise.
pub proof fn only_a_jump_leaves_the_loop(state: Stand, event: Happening)
    requires
        is_sound(state),
    ensures
        react(state, event).0 is Gone <==> state is Gone || react(state, event).1.ask is Jump,
        react(state, event).1.ask is Jump ==> state is Exec,
{
}

/// Bytes reach memory or a file only from a chunk that arrived intact.
pub proof fn only_intact_chunks_are_stored(state: Stand, event: Happening)
    requires
        is_sound(state),
    ensures
        match react(state, event).1.ask {
            Ask::Store { bytes, .. } => event matches Event::Bytes(chunk)
                && crate::protocol::is_intact(chunk) && bytes == chunk.skip(4),
            Ask::WriteFile(bytes) => event matches Event::Bytes(chunk)
                && crate::protocol::is_intact(chunk) && bytes == chunk.skip(4),
            _ => true,
        },
{
}

// --- The loader -------------------------------------------------------------

/// The value of a job.
pub open spec fn job_value(job: Job<String, Vec<String>>) -> Task {
    Job {
        op: job.op,
        dirs: crate::text::texts(job.dirs@),
        name: vstd::utf8::encode_utf8(job.name@),
        total: job.total,
        chunk: job.chunk,
    }
}

/// The value of a state.
pub open spec fn state_value(state: State<Vec<u8>, String, Vec<String>>) -> Stand {
    match state {
        State::Hello { matched } => State::Hello { matched },
        State::Command => State::Command,
        State::Rehello { matched } => State::Rehello { matched },
        State::MemHeader => State::MemHeader,
        State::MemChunk { mem, offset } => State::MemChunk { mem, offset },
        State::MemStore { mem, offset } => State::MemStore { mem, offset },
        State::MemCheck { mem } => State::MemCheck { mem },
        State::Baud => State::Baud,
        State::BaudSwitch => State::BaudSwitch,
        State::Exec => State::Exec,
        State::Gone => State::Gone,
        State::PathLen { op } => State::PathLen { op },
        State::Path { op, len } => State::Path { op, len },
        State::WriteHeader { path } => State::WriteHeader { path: vstd::utf8::encode_utf8(path@) },
        State::CardStart { job } => State::CardStart { job: job_value(job) },
        State::CardVolume { job } => State::CardVolume { job: job_value(job) },
        State::CardRoot { job } => State::CardRoot { job: job_value(job) },
        State::CardWalk { job, at } => State::CardWalk { job: job_value(job), at },
        State::CardAct { job } => State::CardAct { job: job_value(job) },
        State::SendBulk { data, offset } => State::SendBulk { data: data@, offset },
        State::ReadFill { left, chunk } => State::ReadFill { left, chunk: chunk@ },
        State::ReadAck { left, chunk } => State::ReadAck { left, chunk: chunk@ },
        State::WriteChunk { total, chunk, offset, failed } => State::WriteChunk {
            total,
            chunk,
            offset,
            failed,
        },
        State::WriteSave { total, chunk, offset } => State::WriteSave { total, chunk, offset },
        State::WriteClose { failed } => State::WriteClose { failed },
    }
}

/// The value of a turn.
pub open spec fn turn_value(turn: Turn<Vec<u8>, String>) -> Move {
    Turn {
        send: turn.send@,
        ask: match turn.ask {
            Ask::Read(len) => Ask::Read(len),
            Ask::Store { at, bytes } => Ask::Store { at, bytes: bytes@ },
            Ask::Fetch { at, len } => Ask::Fetch { at, len },
            Ask::SetBaud(baud) => Ask::SetBaud(baud),
            Ask::Jump(addr) => Ask::Jump(addr),
            Ask::StartCard => Ask::StartCard,
            Ask::OpenVolume => Ask::OpenVolume,
            Ask::OpenRoot => Ask::OpenRoot,
            Ask::ChangeDir(name) => Ask::ChangeDir(vstd::utf8::encode_utf8(name@)),
            Ask::ListDir => Ask::ListDir,
            Ask::OpenFile { name, create } => Ask::OpenFile {
                name: vstd::utf8::encode_utf8(name@),
                create,
            },
            Ask::ReadFile(len) => Ask::ReadFile(len),
            Ask::WriteFile(bytes) => Ask::WriteFile(bytes@),
            Ask::CloseFile => Ask::CloseFile,
            Ask::DeleteFile(name) => Ask::DeleteFile(vstd::utf8::encode_utf8(name@)),
            Ask::MakeDir(name) => Ask::MakeDir(vstd::utf8::encode_utf8(name@)),
            Ask::Again => Ask::Again,
        },
    }
}

/// The value of an entry of a directory.
pub open spec fn line_value(line: Line<String>) -> Line<Seq<u8>> {
    Line { is_dir: line.is_dir, size: line.size, name: vstd::utf8::encode_utf8(line.name@) }
}

/// The values of the entries of a directory.
pub open spec fn lines_value(lines: Seq<Line<String>>) -> Seq<Line<Seq<u8>>> {
    lines.map_values(|line: Line<String>| line_value(line))
}

/// The value of an event.
pub open spec fn event_value(event: Event<Vec<u8>, Vec<Line<String>>>) -> Happening {
    match event {
        Event::Done => Event::Done,
        Event::Bytes(bytes) => Event::Bytes(bytes@),
        Event::Opened(len) => Event::Opened(len),
        Event::Listing(lines) => Event::Listing(lines_value(lines@)),
        Event::NotFound => Event::NotFound,
        Event::Failed => Event::Failed,
    }
}

/// What a [`ListingWriter`] was given: the buffer it started with, and everything
/// written to it since, also what did not fit.
pub struct Written {
    /// The buffer as it was at the start.
    pub blank: Seq<u8>,
    /// Everything written.
    pub all: Seq<u8>,
}

impl Written {
    /// How many bytes were kept: all of them, or as many as the buffer holds.
    pub open spec fn kept(self) -> nat {
        if self.all.len() < self.blank.len() {
            self.all.len()
        } else {
            self.blank.len()
        }
    }

    /// Whether something was dropped. Filling the buffer exactly is no overflow.
    pub open spec fn overflows(self) -> bool {
        self.all.len() > self.blank.len()
    }

    /// The buffer: the first bytes written, and behind them what it held at the
    /// start.
    pub open spec fn buffer(self) -> Seq<u8> {
        self.all.take(self.kept() as int) + self.blank.skip(self.kept() as int)
    }

    /// The same after more was written.
    pub open spec fn with(self, text: Seq<u8>) -> Written {
        Written { all: self.all + text, ..self }
    }
}

/// What was written first is kept: more text leaves the bytes kept so far and
/// those past the end of what is kept as they were, and an overflow lasts.
pub proof fn what_was_written_first_is_kept(written: Written, text: Seq<u8>)
    ensures
        ({
            let after = written.with(text);
            &&& after.buffer().len() == written.blank.len()
            &&& written.kept() <= after.kept()
            &&& after.buffer().take(written.kept() as int) == written.buffer().take(
                written.kept() as int,
            )
            &&& after.buffer().skip(after.kept() as int) == written.blank.skip(after.kept() as int)
            &&& written.overflows() ==> after.overflows() && after.buffer() == written.buffer()
        }),
{
    let after = written.with(text);
    let kept = written.kept() as int;
    assert(after.buffer().take(kept) =~= written.buffer().take(kept));
    assert(after.buffer().skip(after.kept() as int) =~= written.blank.skip(after.kept() as int));
    if written.overflows() {
        assert(after.buffer() =~= written.buffer());
    }
}

/// A directory listing under construction, in a buffer of a fixed length. Once
/// the buffer is full, further bytes are dropped and `overflowed` stays set: the
/// listing is then refused rather than sent truncated.
pub struct ListingWriter {
    buf: Vec<u8>,
    len: usize,
    overflowed: bool,
    written: Ghost<Written>,
}

impl View for ListingWriter {
    type V = Written;

    closed spec fn view(&self) -> Written {
        self.written@
    }
}

impl ListingWriter {
    #[verifier::type_invariant]
    spec fn holds(self) -> bool {
        &&& self.buf@ == self.written@.buffer()
        &&& self.len == self.written@.kept()
        &&& self.overflowed == self.written@.overflows()
    }

    /// Starts one in `buf`.
    pub fn new(buf: Vec<u8>) -> (res: ListingWriter)
        ensures
            res@ == (Written { blank: buf@, all: Seq::empty() }),
    {
        let ghost written = Written { blank: buf@, all: Seq::empty() };
        proof {
            assert(written.buffer() =~= buf@);
        }
        ListingWriter { buf, len: 0, overflowed: false, written: Ghost(written) }
    }

    /// Writes `text`, as far as it fits.
    pub fn write(&mut self, text: &[u8])
        ensures
            final(self)@ == old(self)@.with(text@),
    {
        proof {
            use_type_invariant(&*self);
        }
        let mut held = ListingWriter::new(Vec::new());
        core::mem::swap(&mut held, self);
        let ghost before = held.written@;
        let mut buf: Vec<u8> = held.buf;
        let mut len: usize = held.len;
        let already = held.overflowed;
        let mut at: usize = 0;
        proof {
            assert(before.with(text@.take(0)).all =~= before.all);
        }
        while at < text.len() && len < buf.len()
            invariant
                at <= text@.len(),
                already == before.overflows(),
                at > 0 ==> before.all.len() + at <= before.blank.len(),
                buf@ == before.with(text@.take(at as int)).buffer(),
                len == before.with(text@.take(at as int)).kept(),
            decreases text@.len() - at,
        {
            let ghost now = before.with(text@.take(at as int));
            let ghost next = before.with(text@.take(at + 1));
            proof {
                assert(next.all =~= now.all.push(text@[at as int]));
            }
            buf.set(len, text[at]);
            len += 1;
            at += 1;
            proof {
                assert(buf@ =~= next.buffer());
            }
        }
        let overflowed = already || at < text.len();
        proof {
            if at == text@.len() {
                assert(text@.take(at as int) =~= text@);
            }
            let now = before.with(text@.take(at as int));
            assert(before.with(text@).all.take(len as int) =~= now.all.take(len as int));
        }
        *self = ListingWriter { buf, len, overflowed, written: Ghost(before.with(text@)) };
    }

    /// How many bytes were kept.
    pub fn len(&self) -> (res: usize)
        ensures
            res == self@.kept(),
    {
        proof {
            use_type_invariant(self);
        }
        self.len
    }

    /// Whether something was dropped.
    pub fn overflowed(&self) -> (res: bool)
        ensures
            res == self@.overflows(),
    {
        proof {
            use_type_invariant(self);
        }
        self.overflowed
    }

    /// The buffer.
    pub fn into_buffer(self) -> (res: Vec<u8>)
        ensures
            res@ == self@.buffer(),
    {
        proof {
            use_type_invariant(&self);
        }
        self.buf
    }
}

/// The listing of a directory, or `None` if it is too large.
pub fn listing(lines: &Vec<Line<String>>) -> (res: Option<Vec<u8>>)
    ensures
        match res {
            Some(bytes) => listing_bytes(lines_value(lines@)).len() <= LISTING_CAP && bytes@
                == listing_bytes(lines_value(lines@)),
            None => listing_bytes(lines_value(lines@)).len() > LISTING_CAP,
        },
{
    let ghost all = lines_value(lines@);
    let mut writer = ListingWriter::new(vec![0u8; LISTING_CAP]);
    let mut at: usize = 0;
    while at < lines.len()
        invariant
            at <= lines@.len(),
            all == lines_value(lines@),
            writer@.blank.len() == LISTING_CAP,
            writer@.all == listing_bytes(all.take(at as int)),
        decreases lines@.len() - at,
    {
        let line = &lines[at];
        let mut text: Vec<u8> = Vec::new();
        text.push(if line.is_dir {
            0x44
        } else {
            0x46
        });
        text.push(0x09);
        crate::text::push_decimal(&mut text, line.size as u64);
        text.push(0x09);
        text.extend_from_slice(line.name.as_str().as_bytes());
        text.push(0x0A);
        proof {
            assert(text@ =~= line_bytes(all[at as int]));
            assert(all.take(at + 1).drop_last() =~= all.take(at as int));
        }
        writer.write(text.as_slice());
        at += 1;
    }
    proof {
        assert(all.take(at as int) =~= all);
    }
    if writer.overflowed() {
        return None;
    }
    let len: usize = writer.len();
    let mut bytes = writer.into_buffer();
    bytes.truncate(len);
    proof {
        assert(bytes@ =~= listing_bytes(all));
    }
    Some(bytes)
}

/// The loader, between one turn and the next.
pub struct Loader {
    state: State<Vec<u8>, String, Vec<String>>,
}

impl View for Loader {
    type V = Stand;

    closed spec fn view(&self) -> Stand {
        state_value(self.state)
    }
}

/// A vector of one byte.
fn one(byte: u8) -> (res: Vec<u8>)
    ensures
        res@ == seq![byte],
{
    let mut bytes: Vec<u8> = Vec::new();
    bytes.push(byte);
    proof {
        assert(bytes@ =~= seq![byte]);
    }
    bytes
}

/// Splits a path into the directories above its last component and that
/// component, or fails if it has none. Leading, trailing and doubled
/// separators are ignored.
pub fn split_parent(path: &str) -> (res: Result<(Vec<String>, String), u8>)
    ensures
        ({
            let names = crate::text::names(vstd::utf8::encode_utf8(path@), 0);
            match res {
                Ok((dirs, name)) => names.len() > 0 && crate::text::texts(dirs@)
                    == names.drop_last() && vstd::utf8::encode_utf8(name@) == names.last(),
                Err(code) => names.len() == 0 && code == ERR_BAD_PATH,
            }
        }),
{
    let mut dirs = crate::text::components(path);
    let ghost all = dirs@;
    proof {
        assert(crate::text::texts(all).len() == all.len());
    }
    match dirs.pop() {
        Some(name) => {
            proof {
                assert(crate::text::texts(dirs@) =~= crate::text::texts(all).drop_last());
                assert(crate::text::texts(all).last() == vstd::utf8::encode_utf8(name@));
            }
            Ok((dirs, name))
        },
        None => Err(ERR_BAD_PATH),
    }
}

/// The text of a path, or the code to refuse it with.
pub fn read_path(bytes: &Vec<u8>) -> (res: Result<&str, u8>)
    ensures
        match res {
            Ok(path) => bytes@.len() <= MAX_PATH && vstd::utf8::encode_utf8(path@) == bytes@,
            Err(code) => code == ERR_BAD_PATH && (bytes@.len() > MAX_PATH
                || !vstd::utf8::valid_utf8(bytes@)),
        },
        res is Ok <==> bytes@.len() <= MAX_PATH && vstd::utf8::valid_utf8(bytes@),
{
    if bytes.len() > MAX_PATH {
        return Err(ERR_BAD_PATH);
    }
    match core::str::from_utf8(bytes.as_slice()) {
        Ok(path) => Ok(path),
        Err(_) => Err(ERR_BAD_PATH),
    }
}

/// How long the chunk at `offset` is.
fn next_len(total: u32, chunk: u32, offset: u32) -> (res: u32)
    requires
        offset <= total,
    ensures
        res == crate::protocol::chunk_len(total as int, chunk as int, offset as int),
{
    if total - offset < chunk {
        total - offset
    } else {
        chunk
    }
}

/// A chunk as it is sent, by the checksum the device computes.
fn framed(chunk: &[u8]) -> (res: Vec<u8>)
    ensures
        res@ == crate::protocol::frame(chunk@),
{
    let mut bytes: Vec<u8> = Vec::new();
    crate::wire::push_u32(&mut bytes, crate::crc32::crc32_of(chunk));
    bytes.extend_from_slice(chunk);
    proof {
        assert(bytes@ =~= crate::protocol::frame(chunk@));
    }
    bytes
}

impl Loader {
    #[verifier::type_invariant]
    spec fn holds(self) -> bool {
        is_sound(state_value(self.state))
    }

    /// The loader at power-on, blocked on the first HELLO.
    pub fn new() -> (res: (Loader, Turn<Vec<u8>, String>))
        ensures
            res.0@ == (Stand::Hello { matched: 0 }),
            turn_value(res.1) == say(Seq::empty(), Ask::Read(1)),
    {
        Self::made(State::Hello { matched: 0 }, Vec::new(), Ask::Read(1))
    }

    /// Whether the loader waits for a command, with nothing of the card in
    /// use.
    pub fn is_idle(&self) -> (res: bool)
        ensures
            res == (self@ is Command),
    {
        match &self.state {
            State::Command => true,
            _ => false,
        }
    }

    /// Takes what came of the last turn.
    pub fn next(self, event: Event<Vec<u8>, Vec<Line<String>>>) -> (res: (
        Loader,
        Turn<Vec<u8>, String>,
    ))
        ensures
            (res.0@, turn_value(res.1)) == react(self@, event_value(event)),
    {
        proof {
            use_type_invariant(&self);
            every_event_leaves_the_loader_sound(self@, event_value(event));
        }
        let ghost expected = react(self@, event_value(event));
        let res = match self.state {
            State::Hello { matched } => Self::wait_for_hello(matched, event),
            State::Command => Self::read_command(event),
            State::Rehello { matched } => Self::rehello(matched, event),
            State::MemHeader => Self::mem_header(event),
            State::MemChunk { mem, offset } => Self::mem_chunk(mem, offset, event),
            State::MemStore { mem, offset } => Self::mem_stored(mem, offset, event),
            State::MemCheck { mem } => Self::mem_check(mem, event),
            State::Baud => Self::set_baud(event),
            State::BaudSwitch => match event {
                Event::Done => Self::reply(Vec::new()),
                _ => Self::again(State::BaudSwitch),
            },
            State::Exec => Self::exec(event),
            State::Gone => Self::again(State::Gone),
            State::PathLen { op } => Self::path_len(op, event),
            State::Path { op, len } => Self::path(op, len, event),
            State::WriteHeader { path } => Self::write_header(path, event),
            State::CardStart { job } => match event {
                Event::Done => Self::made(State::CardVolume { job }, Vec::new(), Ask::OpenVolume),
                Event::NotFound => Self::refuse(ERR_SD_INIT),
                Event::Failed => Self::refuse(ERR_SD_INIT),
                _ => Self::again(State::CardStart { job }),
            },
            State::CardVolume { job } => match event {
                Event::Done => Self::made(State::CardRoot { job }, Vec::new(), Ask::OpenRoot),
                Event::NotFound => Self::refuse(ERR_NOT_FOUND),
                Event::Failed => Self::refuse(ERR_FS),
                _ => Self::again(State::CardVolume { job }),
            },
            State::CardRoot { job } => match event {
                Event::Done => Self::descend(job, 0),
                Event::NotFound => Self::refuse(ERR_NOT_FOUND),
                Event::Failed => Self::refuse(ERR_FS),
                _ => Self::again(State::CardRoot { job }),
            },
            State::CardWalk { job, at } => match event {
                Event::Done => {
                    assert(at < job.dirs.len());
                    Self::descend(job, at + 1)
                },
                Event::NotFound => Self::refuse(ERR_NOT_FOUND),
                Event::Failed => Self::refuse(ERR_FS),
                _ => Self::again(State::CardWalk { job, at }),
            },
            State::CardAct { job } => Self::act(job, event),
            State::SendBulk { data, offset } => Self::send_bulk(data, offset, event),
            State::ReadFill { left, chunk } => Self::read_fill(left, chunk, event),
            State::ReadAck { left, chunk } => Self::read_ack(left, chunk, event),
            State::WriteChunk { total, chunk, offset, failed } => Self::write_chunk(
                total,
                chunk,
                offset,
                failed,
                event,
            ),
            State::WriteSave { total, chunk, offset } => match event {
                Event::Done => Self::await_write(one(OK), total, chunk, offset, false),
                Event::NotFound => Self::await_write(one(OK), total, chunk, offset, true),
                Event::Failed => Self::await_write(one(OK), total, chunk, offset, true),
                _ => Self::again(State::WriteSave { total, chunk, offset }),
            },
            State::WriteClose { failed } => match event {
                Event::Done => if failed {
                    Self::refuse(ERR_WRITE)
                } else {
                    Self::reply(one(OK))
                },
                Event::NotFound => Self::refuse(ERR_WRITE),
                Event::Failed => Self::refuse(ERR_WRITE),
                _ => Self::again(State::WriteClose { failed }),
            },
        };
        res
    }

    fn made(
        state: State<Vec<u8>, String, Vec<String>>,
        send: Vec<u8>,
        ask: Ask<Vec<u8>, String>,
    ) -> (res: (Loader, Turn<Vec<u8>, String>))
        requires
            is_sound(state_value(state)),
        ensures
            res.0@ == state_value(state),
            res.1 == (Turn { send, ask }),
    {
        (Loader { state }, Turn { send, ask })
    }

    /// Stays where it is.
    fn again(state: State<Vec<u8>, String, Vec<String>>) -> (res: (Loader, Turn<Vec<u8>, String>))
        requires
            is_sound(state_value(state)),
        ensures
            res.0@ == state_value(state),
            turn_value(res.1) == say(Seq::empty(), Ask::Again),
    {
        Self::made(state, Vec::new(), Ask::Again)
    }

    /// Sends some bytes and waits for the next command.
    fn reply(send: Vec<u8>) -> (res: (Loader, Turn<Vec<u8>, String>))
        ensures
            (res.0@, turn_value(res.1)) == reply(send@),
    {
        Self::made(State::Command, send, Ask::Read(1))
    }

    /// Answers that a command could not begin, and why.
    fn refuse(code: u8) -> (res: (Loader, Turn<Vec<u8>, String>))
        ensures
            (res.0@, turn_value(res.1)) == refuse(code),
    {
        let mut send = one(FAIL);
        send.push(code);
        proof {
            assert(send@ =~= seq![FAIL, code]);
        }
        Self::reply(send)
    }

    /// Answers a completed handshake.
    fn greet() -> (res: (Loader, Turn<Vec<u8>, String>))
        ensures
            (res.0@, turn_value(res.1)) == reply(greeting()),
    {
        let mut send: Vec<u8> = Vec::new();
        send.extend_from_slice(&ACK);
        send.push(PROTOCOL_VERSION);
        proof {
            assert(send@ =~= greeting());
        }
        Self::reply(send)
    }

    /// Scans for the first HELLO.
    fn wait_for_hello(matched: usize, event: Event<Vec<u8>, Vec<Line<String>>>) -> (res: (
        Loader,
        Turn<Vec<u8>, String>,
    ))
        requires
            matched < 4,
        ensures
            (res.0@, turn_value(res.1)) == react(State::Hello { matched }, event_value(event)),
    {
        match event {
            Event::Bytes(bytes) => {
                if bytes.len() != 1 {
                    return Self::again(State::Hello { matched });
                }
                let after: usize = crate::protocol::scan_next(&HELLO, matched, bytes[0]);
                if after == 4 {
                    Self::greet()
                } else {
                    Self::made(State::Hello { matched: after }, Vec::new(), Ask::Read(1))
                }
            },
            _ => Self::again(State::Hello { matched }),
        }
    }

    /// Takes a command byte, or the start of another HELLO.
    #[verifier::rlimit(30)]
    fn read_command(event: Event<Vec<u8>, Vec<Line<String>>>) -> (res: (
        Loader,
        Turn<Vec<u8>, String>,
    ))
        ensures
            (res.0@, turn_value(res.1)) == react(State::Command, event_value(event)),
    {
        let bytes = match event {
            Event::Bytes(bytes) => bytes,
            _ => return Self::again(State::Command),
        };
        if bytes.len() != 1 {
            return Self::again(State::Command);
        }
        let byte: u8 = bytes[0];
        if byte == HELLO[0] {
            Self::made(State::Rehello { matched: 1 }, Vec::new(), Ask::Read(1))
        } else if byte == CMD_MEM_WRITE {
            Self::made(State::MemHeader, Vec::new(), Ask::Read(16))
        } else if byte == CMD_SET_BAUD {
            Self::made(State::Baud, Vec::new(), Ask::Read(4))
        } else if byte == CMD_EXEC {
            Self::made(State::Exec, Vec::new(), Ask::Read(4))
        } else if byte == CMD_SD_LIST {
            Self::made(State::PathLen { op: Op::List }, Vec::new(), Ask::Read(2))
        } else if byte == CMD_SD_READ {
            Self::made(State::PathLen { op: Op::Read }, Vec::new(), Ask::Read(2))
        } else if byte == CMD_SD_WRITE {
            Self::made(State::PathLen { op: Op::Write }, Vec::new(), Ask::Read(2))
        } else if byte == CMD_SD_DELETE {
            Self::made(State::PathLen { op: Op::Delete }, Vec::new(), Ask::Read(2))
        } else if byte == CMD_SD_MKDIR {
            Self::made(State::PathLen { op: Op::Mkdir }, Vec::new(), Ask::Read(2))
        } else {
            Self::reply(one(FAIL))
        }
    }

    /// Matches the rest of another HELLO. Its first byte is no command, so
    /// consuming these bytes cannot swallow one.
    fn rehello(matched: usize, event: Event<Vec<u8>, Vec<Line<String>>>) -> (res: (
        Loader,
        Turn<Vec<u8>, String>,
    ))
        requires
            1 <= matched < 4,
        ensures
            (res.0@, turn_value(res.1)) == react(State::Rehello { matched }, event_value(event)),
    {
        match event {
            Event::Bytes(bytes) => {
                if bytes.len() != 1 {
                    return Self::again(State::Rehello { matched });
                }
                if bytes[0] != HELLO[matched] {
                    Self::reply(Vec::new())
                } else if matched + 1 == 4 {
                    Self::greet()
                } else {
                    let matched: usize = matched + 1;
                    Self::made(State::Rehello { matched }, Vec::new(), Ask::Read(1))
                }
            },
            _ => Self::again(State::Rehello { matched }),
        }
    }

    /// Takes the header of a write to memory and holds it against the memory
    /// map.
    fn mem_header(event: Event<Vec<u8>, Vec<Line<String>>>) -> (res: (
        Loader,
        Turn<Vec<u8>, String>,
    ))
        ensures
            (res.0@, turn_value(res.1)) == react(State::MemHeader, event_value(event)),
    {
        let bytes = match event {
            Event::Bytes(bytes) => bytes,
            _ => return Self::again(State::MemHeader),
        };
        if bytes.len() != 16 {
            return Self::again(State::MemHeader);
        }
        let bytes = bytes.as_slice();
        let mem = MemWrite {
            total: crate::wire::read_u32(bytes, 0),
            chunk: crate::wire::read_u32(bytes, 4),
            addr: crate::wire::read_u32(bytes, 8),
            crc: crate::wire::read_u32(bytes, 12),
        };
        let valid = mem.total != 0 && mem.chunk != 0 && mem.chunk <= CHUNK_SIZE as u32
            && match mem.addr.checked_add(mem.total) {
            Some(end) => end <= RELOC_ADDR,
            None => false,
        };
        if valid {
            Self::await_mem(one(OK), mem, 0)
        } else {
            Self::reply(one(FAIL))
        }
    }

    /// Sends some bytes and waits for the chunk of memory at `offset`.
    fn await_mem(send: Vec<u8>, mem: MemWrite, offset: u32) -> (res: (
        Loader,
        Turn<Vec<u8>, String>,
    ))
        requires
            is_acceptable(mem),
            offset < mem.total,
        ensures
            (res.0@, turn_value(res.1)) == await_mem(send@, mem, offset),
    {
        let len: u32 = next_len(mem.total, mem.chunk, offset);
        Self::made(State::MemChunk { mem, offset }, send, Ask::Read(4 + len as usize))
    }

    /// Takes a chunk of memory. The host resends it until its checksum
    /// matches.
    fn mem_chunk(mem: MemWrite, offset: u32, event: Event<Vec<u8>, Vec<Line<String>>>) -> (res: (
        Loader,
        Turn<Vec<u8>, String>,
    ))
        requires
            is_acceptable(mem),
            offset < mem.total,
        ensures
            (res.0@, turn_value(res.1)) == react(
                State::MemChunk { mem, offset },
                event_value(event),
            ),
    {
        let bytes = match event {
            Event::Bytes(bytes) => bytes,
            _ => return Self::again(State::MemChunk { mem, offset }),
        };
        let len: u32 = next_len(mem.total, mem.chunk, offset);
        if bytes.len() != 4 + len as usize {
            return Self::again(State::MemChunk { mem, offset });
        }
        if !crate::protocol::check_frame(bytes.as_slice()) {
            return Self::await_mem(one(FAIL), mem, offset);
        }
        let data = vstd::slice::slice_to_vec(crate::text::part(bytes.as_slice(), 4, bytes.len()));
        proof {
            assert(data@ =~= bytes@.skip(4));
        }
        let ask = Ask::Store { at: mem.addr + offset, bytes: data };
        Self::made(State::MemStore { mem, offset: offset + len }, Vec::new(), ask)
    }

    /// Acknowledges a chunk that is stored, and asks for the next or for what
    /// ended up in memory.
    fn mem_stored(mem: MemWrite, offset: u32, event: Event<Vec<u8>, Vec<Line<String>>>) -> (res: (
        Loader,
        Turn<Vec<u8>, String>,
    ))
        requires
            is_acceptable(mem),
            0 < offset <= mem.total,
        ensures
            (res.0@, turn_value(res.1)) == react(
                State::MemStore { mem, offset },
                event_value(event),
            ),
    {
        match event {
            Event::Done => if offset < mem.total {
                Self::await_mem(one(OK), mem, offset)
            } else {
                let ask = Ask::Fetch { at: mem.addr, len: mem.total };
                Self::made(State::MemCheck { mem }, one(OK), ask)
            },
            _ => Self::again(State::MemStore { mem, offset }),
        }
    }

    /// Holds what ended up in memory against the checksum of the whole.
    fn mem_check(mem: MemWrite, event: Event<Vec<u8>, Vec<Line<String>>>) -> (res: (
        Loader,
        Turn<Vec<u8>, String>,
    ))
        requires
            is_acceptable(mem),
        ensures
            (res.0@, turn_value(res.1)) == react(State::MemCheck { mem }, event_value(event)),
    {
        match event {
            Event::Bytes(bytes) => {
                if bytes.len() != mem.total as usize {
                    return Self::again(State::MemCheck { mem });
                }
                if crate::crc32::crc32_of(bytes.as_slice()) == mem.crc {
                    Self::reply(one(OK))
                } else {
                    Self::reply(one(FAIL))
                }
            },
            _ => Self::again(State::MemCheck { mem }),
        }
    }

    /// Takes a baud. It is acknowledged at the old rate, before the switch.
    fn set_baud(event: Event<Vec<u8>, Vec<Line<String>>>) -> (res: (Loader, Turn<Vec<u8>, String>))
        ensures
            (res.0@, turn_value(res.1)) == react(State::Baud, event_value(event)),
    {
        match event {
            Event::Bytes(bytes) => {
                if bytes.len() != 4 {
                    return Self::again(State::Baud);
                }
                let baud: u32 = crate::wire::read_u32(bytes.as_slice(), 0);
                if baud_representable(baud) {
                    Self::made(State::BaudSwitch, one(OK), Ask::SetBaud(baud))
                } else {
                    Self::reply(one(FAIL))
                }
            },
            _ => Self::again(State::Baud),
        }
    }

    /// Takes an address to jump to.
    fn exec(event: Event<Vec<u8>, Vec<Line<String>>>) -> (res: (Loader, Turn<Vec<u8>, String>))
        ensures
            (res.0@, turn_value(res.1)) == react(State::Exec, event_value(event)),
    {
        match event {
            Event::Bytes(bytes) => {
                if bytes.len() != 4 {
                    return Self::again(State::Exec);
                }
                let addr: u32 = crate::wire::read_u32(bytes.as_slice(), 0);
                if addr == 0 || addr >= RELOC_ADDR {
                    Self::reply(one(FAIL))
                } else {
                    Self::made(State::Gone, one(OK), Ask::Jump(addr))
                }
            },
            _ => Self::again(State::Exec),
        }
    }

    /// Takes the length of a path.
    fn path_len(op: Op, event: Event<Vec<u8>, Vec<Line<String>>>) -> (res: (
        Loader,
        Turn<Vec<u8>, String>,
    ))
        ensures
            (res.0@, turn_value(res.1)) == react(State::PathLen { op }, event_value(event)),
    {
        match event {
            Event::Bytes(bytes) => {
                if bytes.len() != 2 {
                    return Self::again(State::PathLen { op });
                }
                let len: usize = crate::wire::read_u16(bytes.as_slice(), 0) as usize;
                Self::made(State::Path { op, len }, Vec::new(), Ask::Read(len))
            },
            _ => Self::again(State::PathLen { op }),
        }
    }

    /// Takes a path.
    fn path(op: Op, len: usize, event: Event<Vec<u8>, Vec<Line<String>>>) -> (res: (
        Loader,
        Turn<Vec<u8>, String>,
    ))
        requires
            len <= u16::MAX,
        ensures
            (res.0@, turn_value(res.1)) == react(State::Path { op, len }, event_value(event)),
    {
        let bytes = match event {
            Event::Bytes(bytes) => bytes,
            _ => return Self::again(State::Path { op, len }),
        };
        if bytes.len() != len {
            return Self::again(State::Path { op, len });
        }
        let path = match read_path(&bytes) {
            Ok(path) => path,
            Err(code) => {
                if op == Op::Write {
                    let path = String::new();
                    proof {
                        assert(vstd::utf8::encode_utf8(path@) =~= Seq::<u8>::empty());
                    }
                    return Self::made(State::WriteHeader { path }, Vec::new(), Ask::Read(8));
                }
                return Self::refuse(code);
            },
        };
        match op {
            Op::List => {
                let dirs = crate::text::components(path);
                let name = String::new();
                proof {
                    assert(vstd::utf8::encode_utf8(name@) =~= Seq::<u8>::empty());
                }
                let job = Job { op, dirs, name, total: 0, chunk: 0 };
                Self::made(State::CardStart { job }, Vec::new(), Ask::StartCard)
            },
            Op::Write => {
                proof {
                    vstd::utf8::encode_utf8_valid_utf8(path@);
                }
                let path = path.to_owned();
                Self::made(State::WriteHeader { path }, Vec::new(), Ask::Read(8))
            },
            _ => Self::start_in_parent(op, path, 0, 0),
        }
    }

    /// Takes the sizes of a file to write.
    fn write_header(path: String, event: Event<Vec<u8>, Vec<Line<String>>>) -> (res: (
        Loader,
        Turn<Vec<u8>, String>,
    ))
        ensures
            (res.0@, turn_value(res.1)) == react(
                State::WriteHeader { path: vstd::utf8::encode_utf8(path@) },
                event_value(event),
            ),
    {
        proof {
            vstd::utf8::encode_utf8_valid_utf8(path@);
        }
        match event {
            Event::Bytes(bytes) => {
                if bytes.len() != 8 {
                    return Self::again(State::WriteHeader { path });
                }
                let total: u32 = crate::wire::read_u32(bytes.as_slice(), 0);
                let chunk: u32 = crate::wire::read_u32(bytes.as_slice(), 4);
                Self::start_in_parent(Op::Write, path.as_str(), total, chunk)
            },
            _ => Self::again(State::WriteHeader { path }),
        }
    }

    /// Brings the card up for a job on the last component of `path`.
    fn start_in_parent(op: Op, path: &str, total: u32, chunk: u32) -> (res: (
        Loader,
        Turn<Vec<u8>, String>,
    ))
        ensures
            (res.0@, turn_value(res.1)) == start_in_parent(
                op,
                vstd::utf8::encode_utf8(path@),
                total,
                chunk,
            ),
    {
        let (dirs, name) = match split_parent(path) {
            Ok(split) => split,
            Err(code) => return Self::refuse(code),
        };
        if op == Op::Write && (chunk == 0 || chunk > CHUNK_SIZE as u32) {
            return Self::refuse(ERR_FS);
        }
        let job = Job { op, dirs, name, total, chunk };
        Self::made(State::CardStart { job }, Vec::new(), Ask::StartCard)
    }

    /// Enters the directory at `at`, or does what was asked if there is none.
    fn descend(job: Job<String, Vec<String>>, at: usize) -> (res: (Loader, Turn<Vec<u8>, String>))
        requires
            is_sound_job(job_value(job)),
        ensures
            (res.0@, turn_value(res.1)) == descend(job_value(job), at as int),
    {
        proof {
            assert(crate::text::texts(job.dirs@).len() == job.dirs@.len());
        }
        if at < job.dirs.len() {
            let name = job.dirs[at].clone();
            return Self::made(State::CardWalk { job, at }, Vec::new(), Ask::ChangeDir(name));
        }
        let name = job.name.clone();
        let ask = match job.op {
            Op::List => Ask::ListDir,
            Op::Read => Ask::OpenFile { name, create: false },
            Op::Write => Ask::OpenFile { name, create: true },
            Op::Delete => Ask::DeleteFile(name),
            Op::Mkdir => Ask::MakeDir(name),
        };
        Self::made(State::CardAct { job }, Vec::new(), ask)
    }

    /// Goes on by what came of the job.
    fn act(job: Job<String, Vec<String>>, event: Event<Vec<u8>, Vec<Line<String>>>) -> (res: (
        Loader,
        Turn<Vec<u8>, String>,
    ))
        requires
            is_sound_job(job_value(job)),
        ensures
            (res.0@, turn_value(res.1)) == react(
                State::CardAct { job: job_value(job) },
                event_value(event),
            ),
    {
        match event {
            Event::NotFound => Self::refuse(ERR_NOT_FOUND),
            Event::Failed => Self::refuse(ERR_FS),
            Event::Listing(lines) => if job.op == Op::List {
                match listing(&lines) {
                    Some(listing) => {
                        let mut send = one(OK);
                        Self::push_header(&mut send, listing.len() as u32);
                        Self::send_from(send, listing, 0)
                    },
                    None => Self::refuse(ERR_TOO_LARGE),
                }
            } else {
                Self::again(State::CardAct { job })
            },
            Event::Opened(len) => if job.op == Op::Read {
                let mut send = one(OK);
                Self::push_header(&mut send, len);
                Self::read_from(send, len)
            } else if job.op == Op::Write {
                Self::await_write(one(OK), job.total, job.chunk, 0, false)
            } else {
                Self::again(State::CardAct { job })
            },
            Event::Done => if job.op == Op::Delete || job.op == Op::Mkdir {
                Self::reply(one(OK))
            } else {
                Self::again(State::CardAct { job })
            },
            Event::Bytes(_) => Self::again(State::CardAct { job }),
        }
    }

    /// Appends the header of a stream to the host.
    fn push_header(send: &mut Vec<u8>, total: u32)
        ensures
            final(send)@ == old(send)@ + stream_header(total),
    {
        crate::wire::push_u32(send, total);
        crate::wire::push_u32(send, CHUNK_SIZE as u32);
        proof {
            assert(send@ =~= old(send)@ + stream_header(total));
        }
    }

    /// Sends some bytes and the chunk of `data` at `offset`, or just the bytes
    /// if there is none.
    fn send_from(send: Vec<u8>, data: Vec<u8>, offset: usize) -> (res: (
        Loader,
        Turn<Vec<u8>, String>,
    ))
        requires
            offset <= data@.len() <= LISTING_CAP,
        ensures
            (res.0@, turn_value(res.1)) == send_from(send@, data@, offset as int),
    {
        if offset >= data.len() {
            return Self::reply(send);
        }
        let len: usize = if data.len() - offset < CHUNK_SIZE {
            data.len() - offset
        } else {
            CHUNK_SIZE
        };
        let mut send = send;
        let mut frame = framed(crate::text::part(data.as_slice(), offset, offset + len));
        send.append(&mut frame);
        Self::made(State::SendBulk { data, offset }, send, Ask::Read(1))
    }

    /// Sends the next chunk of a listing, or the same one again.
    fn send_bulk(data: Vec<u8>, offset: usize, event: Event<Vec<u8>, Vec<Line<String>>>) -> (res: (
        Loader,
        Turn<Vec<u8>, String>,
    ))
        requires
            offset < data@.len() <= LISTING_CAP,
        ensures
            (res.0@, turn_value(res.1)) == react(
                State::SendBulk { data: data@, offset },
                event_value(event),
            ),
    {
        match event {
            Event::Bytes(bytes) => {
                if bytes.len() != 1 {
                    return Self::again(State::SendBulk { data, offset });
                }
                if bytes[0] != OK {
                    return Self::send_from(Vec::new(), data, offset);
                }
                let offset: usize = if data.len() - offset < CHUNK_SIZE {
                    data.len()
                } else {
                    offset + CHUNK_SIZE
                };
                Self::send_from(Vec::new(), data, offset)
            },
            _ => Self::again(State::SendBulk { data, offset }),
        }
    }

    /// Sends some bytes and goes on to the next chunk of a file.
    fn read_from(send: Vec<u8>, left: u32) -> (res: (Loader, Turn<Vec<u8>, String>))
        ensures
            (res.0@, turn_value(res.1)) == read_from(send@, left),
    {
        if left == 0 {
            return Self::reply(send);
        }
        let want: u32 = next_len(left, CHUNK_SIZE as u32, 0);
        let chunk: Vec<u8> = Vec::new();
        Self::made(State::ReadFill { left, chunk }, send, Ask::ReadFile(want as usize))
    }

    /// Sends the chunk that was filled.
    fn send_read(left: u32, chunk: Vec<u8>) -> (res: (Loader, Turn<Vec<u8>, String>))
        requires
            left > 0,
            chunk@.len() <= read_len(left),
        ensures
            (res.0@, turn_value(res.1)) == send_read(left, chunk@),
    {
        let send = framed(chunk.as_slice());
        Self::made(State::ReadAck { left, chunk }, send, Ask::Read(1))
    }

    /// Fills a chunk from a file, which may be read short.
    fn read_fill(left: u32, chunk: Vec<u8>, event: Event<Vec<u8>, Vec<Line<String>>>) -> (res: (
        Loader,
        Turn<Vec<u8>, String>,
    ))
        requires
            left > 0,
            chunk@.len() < read_len(left),
        ensures
            (res.0@, turn_value(res.1)) == react(
                State::ReadFill { left, chunk: chunk@ },
                event_value(event),
            ),
    {
        match event {
            Event::Bytes(bytes) => {
                let want: usize = next_len(left, CHUNK_SIZE as u32, 0) as usize;
                if bytes.len() > want - chunk.len() {
                    return Self::again(State::ReadFill { left, chunk });
                }
                let ended = bytes.len() == 0;
                let mut chunk = chunk;
                let mut bytes = bytes;
                chunk.append(&mut bytes);
                if ended || chunk.len() == want {
                    Self::send_read(left, chunk)
                } else {
                    let ask = Ask::ReadFile(want - chunk.len());
                    Self::made(State::ReadFill { left, chunk }, Vec::new(), ask)
                }
            },
            Event::NotFound => Self::send_read(left, chunk),
            Event::Failed => Self::send_read(left, chunk),
            _ => Self::again(State::ReadFill { left, chunk }),
        }
    }

    /// Goes on after a chunk of a file, or sends the same one again.
    fn read_ack(left: u32, chunk: Vec<u8>, event: Event<Vec<u8>, Vec<Line<String>>>) -> (res: (
        Loader,
        Turn<Vec<u8>, String>,
    ))
        requires
            left > 0,
            chunk@.len() <= read_len(left),
        ensures
            (res.0@, turn_value(res.1)) == react(
                State::ReadAck { left, chunk: chunk@ },
                event_value(event),
            ),
    {
        match event {
            Event::Bytes(bytes) => {
                if bytes.len() != 1 {
                    return Self::again(State::ReadAck { left, chunk });
                }
                if bytes[0] != OK {
                    return Self::send_read(left, chunk);
                }
                let want: u32 = next_len(left, CHUNK_SIZE as u32, 0);
                if chunk.len() < want as usize {
                    Self::reply(Vec::new())
                } else {
                    Self::read_from(Vec::new(), left - want)
                }
            },
            _ => Self::again(State::ReadAck { left, chunk }),
        }
    }

    /// Sends some bytes and waits for the chunk of a file at `offset`, or
    /// closes the file if there is none.
    fn await_write(send: Vec<u8>, total: u32, chunk: u32, offset: u32, failed: bool) -> (res: (
        Loader,
        Turn<Vec<u8>, String>,
    ))
        requires
            0 < chunk <= CHUNK_SIZE,
        ensures
            (res.0@, turn_value(res.1)) == await_write(send@, total, chunk, offset, failed),
    {
        if offset < total {
            let len: u32 = next_len(total, chunk, offset);
            let state = State::WriteChunk { total, chunk, offset, failed };
            Self::made(state, send, Ask::Read(4 + len as usize))
        } else {
            Self::made(State::WriteClose { failed }, send, Ask::CloseFile)
        }
    }

    /// Takes a chunk of a file.
    fn write_chunk(
        total: u32,
        chunk: u32,
        offset: u32,
        failed: bool,
        event: Event<Vec<u8>, Vec<Line<String>>>,
    ) -> (res: (Loader, Turn<Vec<u8>, String>))
        requires
            0 < chunk <= CHUNK_SIZE,
            offset < total,
        ensures
            (res.0@, turn_value(res.1)) == react(
                State::WriteChunk { total, chunk, offset, failed },
                event_value(event),
            ),
    {
        let bytes = match event {
            Event::Bytes(bytes) => bytes,
            _ => return Self::again(State::WriteChunk { total, chunk, offset, failed }),
        };
        let len: u32 = next_len(total, chunk, offset);
        if bytes.len() != 4 + len as usize {
            return Self::again(State::WriteChunk { total, chunk, offset, failed });
        }
        if !crate::protocol::check_frame(bytes.as_slice()) {
            return Self::await_write(one(FAIL), total, chunk, offset, failed);
        }
        if failed {
            return Self::await_write(one(OK), total, chunk, offset + len, failed);
        }
        let data = vstd::slice::slice_to_vec(crate::text::part(bytes.as_slice(), 4, bytes.len()));
        proof {
            assert(data@ =~= bytes@.skip(4));
        }
        let state = State::WriteSave { total, chunk, offset: offset + len };
        Self::made(state, Vec::new(), Ask::WriteFile(data))
    }
}

} // verus!
