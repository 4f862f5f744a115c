//! The two ends of the serial line together.
//!
//! A [`Session`] is a host and a device whose lines lose nothing, and a board
//! that does what it is asked. What follows is that the commands do what they
//! are for: what the host writes to memory or to a file is what the device
//! stores, and what the device holds is what the host gets.

use vstd::prelude::*;

use crate::device::Line;

verus! {

/// A board that does what it is asked.
pub struct Board {
    /// What is in memory.
    pub memory: spec_fn(int) -> u8,
    /// What is in the file at hand.
    pub file: Seq<u8>,
    /// How far it has been read.
    pub at: int,
    /// What is in the directory at hand.
    pub lines: Seq<Line<Seq<u8>>>,
    /// The rate of its UART.
    pub baud: u32,
    /// The directories entered below the root.
    pub dir: Seq<Seq<u8>>,
    /// The file opened last, the file deleted last and the directory made
    /// last, by their names in the directory at hand.
    pub opened: Option<Seq<u8>>,
    pub deleted: Option<Seq<u8>>,
    pub made: Option<Seq<u8>>,
}

/// Bytes from memory.
pub open spec fn fetched(memory: spec_fn(int) -> u8, at: int, len: int) -> Seq<u8> {
    Seq::new(len as nat, |i: int| memory(at + i))
}

/// Memory with bytes stored in it.
pub open spec fn stored(memory: spec_fn(int) -> u8, at: int, bytes: Seq<u8>) -> spec_fn(int) -> u8 {
    |a: int|
        if at <= a < at + bytes.len() {
            bytes[a - at]
        } else {
            memory(a)
        }
}

impl Board {
    /// The board after it has done what it is asked, and what it answers. What
    /// is not asked of the board is not answered.
    pub open spec fn perform(self, ask: crate::device::Ask<Seq<u8>, Seq<u8>>) -> (
        Board,
        Option<crate::device::Happening>,
    ) {
        match ask {
            crate::device::Ask::Store { at, bytes } => (
                Board { memory: stored(self.memory, at as int, bytes), ..self },
                Some(crate::device::Event::Done),
            ),
            crate::device::Ask::Fetch { at, len } => (
                self,
                Some(crate::device::Event::Bytes(fetched(self.memory, at as int, len as int))),
            ),
            crate::device::Ask::SetBaud(baud) => (
                Board { baud, ..self },
                Some(crate::device::Event::Done),
            ),
            crate::device::Ask::ListDir => (self, Some(crate::device::Event::Listing(self.lines))),
            crate::device::Ask::OpenFile { name, create } => {
                let file = if create {
                    Seq::empty()
                } else {
                    self.file
                };
                (
                    Board { file, at: 0, opened: Some(name), ..self },
                    Some(crate::device::Event::Opened(file.len() as u32)),
                )
            },
            crate::device::Ask::ReadFile(len) => {
                let end = if self.at + len <= self.file.len() {
                    self.at + len
                } else {
                    self.file.len() as int
                };
                (
                    Board { at: end, ..self },
                    Some(crate::device::Event::Bytes(self.file.subrange(self.at, end))),
                )
            },
            crate::device::Ask::WriteFile(bytes) => (
                Board { file: self.file + bytes, ..self },
                Some(crate::device::Event::Done),
            ),
            crate::device::Ask::OpenRoot => (
                Board { dir: Seq::empty(), ..self },
                Some(crate::device::Event::Done),
            ),
            crate::device::Ask::ChangeDir(name) => (
                Board { dir: self.dir.push(name), ..self },
                Some(crate::device::Event::Done),
            ),
            crate::device::Ask::DeleteFile(name) => (
                Board { deleted: Some(name), ..self },
                Some(crate::device::Event::Done),
            ),
            crate::device::Ask::MakeDir(name) => (
                Board { made: Some(name), ..self },
                Some(crate::device::Event::Done),
            ),
            crate::device::Ask::Read(_) => (self, None),
            crate::device::Ask::Jump(_) => (self, None),
            crate::device::Ask::Again => (self, None),
            _ => (self, Some(crate::device::Event::Done)),
        }
    }
}

/// A host and a device, what is on the line between them, and the board.
#[verifier::ext_equal]
pub struct Session {
    /// The host's exchange.
    pub host: crate::link::Stand,
    /// What the host waits for.
    pub host_ask: crate::link::Ask,
    /// The device.
    pub device: crate::device::Stand,
    /// What the device waits for.
    pub device_ask: crate::device::Ask<Seq<u8>, Seq<u8>>,
    /// What the host sent and the device has not read.
    pub to_device: Seq<u8>,
    /// What the device sent and the host has not read.
    pub to_host: Seq<u8>,
    /// The board.
    pub board: Board,
}

/// What the device does about `event`.
#[verifier::opaque]
pub open spec fn device_turn(
    device: crate::device::Stand,
    event: crate::device::Happening,
) -> (crate::device::Stand, crate::device::Move) {
    crate::device::react(device, event)
}

/// What the host does about `event`.
#[verifier::opaque]
pub open spec fn host_turn(host: crate::link::Stand, event: crate::link::Happening) -> (
    crate::link::Stand,
    crate::link::Move,
) {
    crate::link::respond(host, event)
}

impl Session {
    /// The device goes on after `event`.
    pub open spec fn device_goes_on(self, event: crate::device::Happening) -> Session {
        let (device, turn) = device_turn(self.device, event);
        Session { device, device_ask: turn.ask, to_host: self.to_host + turn.send, ..self }
    }

    /// The host goes on after `event`.
    pub open spec fn host_goes_on(self, event: crate::link::Happening) -> Session {
        let (host, turn) = host_turn(self.host, event);
        Session { host, host_ask: turn.ask, to_device: self.to_device + turn.send, ..self }
    }

    /// One step: the board does what it is asked, else the device reads, else
    /// the host goes on.
    #[verifier::opaque]
    pub open spec fn step(self) -> Session {
        let (board, event) = self.board.perform(self.device_ask);
        match event {
            Some(event) => Session { board, ..self }.device_goes_on(event),
            None => match self.device_ask {
                crate::device::Ask::Read(len) if self.to_device.len() >= len => Session {
                    to_device: self.to_device.skip(len as int),
                    ..self
                }.device_goes_on(crate::device::Event::Bytes(self.to_device.take(len as int))),
                _ => match self.host_ask {
                    crate::link::Ask::Read(len) if self.to_host.len() >= len => Session {
                        to_host: self.to_host.skip(len as int),
                        ..self
                    }.host_goes_on(crate::link::Event::Got(Some(self.to_host.take(len as int)))),
                    crate::link::Ask::Proceed => self.host_goes_on(crate::link::Event::Done),
                    crate::link::Ask::Clear => Session {
                        to_host: Seq::empty(),
                        ..self
                    }.host_goes_on(crate::link::Event::Done),
                    crate::link::Ask::Settle(_) => Session {
                        to_host: Seq::empty(),
                        ..self
                    }.host_goes_on(crate::link::Event::Done),
                    crate::link::Ask::Switch { .. } => Session {
                        to_host: Seq::empty(),
                        ..self
                    }.host_goes_on(crate::link::Event::Done),
                    _ => self,
                },
            },
        }
    }

    /// Some steps.
    pub open spec fn run(self, steps: nat) -> Session
        decreases steps,
    {
        if steps == 0 {
            self
        } else {
            self.step().run((steps - 1) as nat)
        }
    }

    /// A device that waits for a command, and a host that begins an exchange.
    pub open spec fn begin(
        begun: (crate::link::Stand, crate::link::Move),
        board: Board,
    ) -> Session {
        Session {
            host: begun.0,
            host_ask: begun.1.ask,
            device: crate::device::State::Command,
            device_ask: crate::device::Ask::Read(1),
            to_device: begun.1.send,
            to_host: Seq::empty(),
            board,
        }
    }

    /// Whether the exchange is over with `result`, the device waits for the
    /// next command, and nothing is left on the line.
    pub open spec fn ended(self, result: crate::link::Verdict) -> bool {
        &&& self.host == (crate::link::Stand::Finished { result })
        &&& self.device == crate::device::Stand::Command
        &&& self.device_ask == crate::device::Ask::<Seq<u8>, Seq<u8>>::Read(1)
        &&& self.to_device.len() == 0
        &&& self.to_host.len() == 0
    }
}

proof fn lemma_run_adds(session: Session, a: nat, b: nat)
    ensures
        session.run(a + b) == session.run(a).run(b),
    decreases a,
{
    if a > 0 {
        lemma_run_adds(session.step(), (a - 1) as nat, b);
    }
}

// --- Writing memory ---------------------------------------------------------

/// A transfer to memory with the chunk at `offset` on the line.
spec fn mem_session(
    data: Seq<u8>,
    mem: crate::device::MemWrite,
    offset: int,
    board: Board,
) -> Session {
    let len = crate::protocol::chunk_len(data.len() as int, mem.chunk as int, offset);
    Session {
        host: crate::link::State::Chunk {
            target: crate::link::Target::Memory,
            data,
            offset: offset as usize,
            attempt: 1,
        },
        host_ask: crate::link::Ask::Read(1),
        device: crate::device::State::MemChunk { mem, offset: offset as u32 },
        device_ask: crate::device::Ask::Read((4 + len) as usize),
        to_device: crate::protocol::frame(
            crate::protocol::chunk_at(data, mem.chunk as int, offset),
        ),
        to_host: Seq::empty(),
        board,
    }
}

/// The header a write to memory is announced with.
pub open spec fn mem_of(addr: u32, data: Seq<u8>) -> crate::device::MemWrite {
    crate::device::MemWrite {
        total: data.len() as u32,
        chunk: crate::protocol::CHUNK_SIZE as u32,
        addr,
        crc: crate::crc32::crc32(data),
    }
}

/// Whether `data` is in memory at `addr` up to `offset`, and everything else
/// is as it was `before`.
pub open spec fn in_memory(
    before: Board,
    board: Board,
    addr: u32,
    data: Seq<u8>,
    offset: int,
) -> bool {
    &&& forall|i: int| 0 <= i < offset ==> (board.memory)(addr + i) == #[trigger] data[i]
    &&& forall|a: int|
        !(addr <= a < addr + offset) ==> #[trigger] (board.memory)(a) == (before.memory)(a)
    &&& board == Board { memory: board.memory, ..before }
}

/// A step in which the device reads.
proof fn lemma_device_reads(
    session: Session,
    len: usize,
    device: crate::device::Stand,
    turn: crate::device::Move,
)
    requires
        session.device_ask == crate::device::Ask::<Seq<u8>, Seq<u8>>::Read(len),
        session.to_device.len() >= len,
        device_turn(
            session.device,
            crate::device::Event::Bytes(session.to_device.take(len as int)),
        ) == (device, turn),
    ensures
        session.step() == (Session {
            device,
            device_ask: turn.ask,
            to_device: session.to_device.skip(len as int),
            to_host: session.to_host + turn.send,
            ..session
        }),
{
    reveal(Session::step);
}

/// A step in which the board acts.
proof fn lemma_board_acts(
    session: Session,
    board: Board,
    event: crate::device::Happening,
    device: crate::device::Stand,
    turn: crate::device::Move,
)
    requires
        session.board.perform(session.device_ask) == (board, Some(event)),
        device_turn(session.device, event) == (device, turn),
    ensures
        session.step() == (Session {
            device,
            device_ask: turn.ask,
            to_host: session.to_host + turn.send,
            board,
            ..session
        }),
{
    reveal(Session::step);
}

/// A step in which the host reads, while the device waits for more than there
/// is.
proof fn lemma_host_reads(
    session: Session,
    len: usize,
    waiting: usize,
    host: crate::link::Stand,
    turn: crate::link::Move,
)
    requires
        session.device_ask == crate::device::Ask::<Seq<u8>, Seq<u8>>::Read(waiting),
        session.to_device.len() < waiting,
        session.host_ask == crate::link::Ask::Read(len),
        session.to_host.len() >= len,
        host_turn(
            session.host,
            crate::link::Event::Got(Some(session.to_host.take(len as int))),
        ) == (host, turn),
    ensures
        session.step() == (Session {
            host,
            host_ask: turn.ask,
            to_host: session.to_host.skip(len as int),
            to_device: session.to_device + turn.send,
            ..session
        }),
{
    reveal(Session::step);
}

/// A step in which the host goes on by itself, while the device waits for more
/// than there is.
proof fn lemma_host_proceeds(
    session: Session,
    waiting: usize,
    host: crate::link::Stand,
    turn: crate::link::Move,
)
    requires
        session.device_ask == crate::device::Ask::<Seq<u8>, Seq<u8>>::Read(waiting),
        session.to_device.len() < waiting,
        session.host_ask == crate::link::Ask::Proceed,
        host_turn(session.host, crate::link::Event::Done) == (host, turn),
    ensures
        session.step() == (Session {
            host,
            host_ask: turn.ask,
            to_device: session.to_device + turn.send,
            ..session
        }),
{
    reveal(Session::step);
}

/// Bytes with nothing before or after them, and a run of one byte.
proof fn lemma_bytes(bytes: Seq<u8>, byte: u8)
    ensures
        bytes.take(bytes.len() as int) == bytes,
        bytes.skip(bytes.len() as int) == Seq::<u8>::empty(),
        Seq::<u8>::empty() + bytes == bytes,
        bytes + Seq::<u8>::empty() == bytes,
        seq![byte].take(1) == seq![byte],
        seq![byte].skip(1) == Seq::<u8>::empty(),
        seq![byte, byte].take(1) == seq![byte],
        seq![byte, byte].skip(1) == seq![byte],
        seq![byte] + seq![byte] == seq![byte, byte],
{
    assert(bytes.take(bytes.len() as int) =~= bytes);
    assert(bytes.skip(bytes.len() as int) =~= Seq::<u8>::empty());
    assert(Seq::<u8>::empty() + bytes =~= bytes);
    assert(bytes + Seq::<u8>::empty() =~= bytes);
    assert(seq![byte].take(1) =~= seq![byte]);
    assert(seq![byte].skip(1) =~= Seq::<u8>::empty());
    assert(seq![byte, byte].take(1) =~= seq![byte]);
    assert(seq![byte, byte].skip(1) =~= seq![byte]);
    assert(seq![byte] + seq![byte] =~= seq![byte, byte]);
}

/// The device has an intact chunk stored.
proof fn lemma_mem_store(mem: crate::device::MemWrite, offset: u32, chunk: Seq<u8>)
    requires
        crate::device::is_acceptable(mem),
        offset < mem.total,
        chunk.len() == crate::protocol::chunk_len(
            mem.total as int,
            mem.chunk as int,
            offset as int,
        ),
    ensures
        device_turn(
            crate::device::State::MemChunk { mem, offset },
            crate::device::Event::Bytes(crate::protocol::frame(chunk)),
        ) == (
            crate::device::Stand::MemStore { mem, offset: (offset + chunk.len()) as u32 },
            crate::device::say(
                Seq::empty(),
                crate::device::Ask::Store { at: (mem.addr + offset) as u32, bytes: chunk },
            ),
        ),
{
    reveal(device_turn);
    crate::protocol::a_frame_is_intact(chunk);
}

/// The device acknowledges a chunk that is stored.
proof fn lemma_mem_ack(mem: crate::device::MemWrite, offset: u32)
    requires
        crate::device::is_acceptable(mem),
    ensures
        device_turn(
            crate::device::State::MemStore { mem, offset },
            crate::device::Event::Done,
        ) == if offset < mem.total {
            crate::device::await_mem(seq![crate::protocol::OK], mem, offset)
        } else {
            (
                crate::device::Stand::MemCheck { mem },
                crate::device::say(
                    seq![crate::protocol::OK],
                    crate::device::Ask::Fetch { at: mem.addr, len: mem.total },
                ),
            )
        },
{
    reveal(device_turn);
}

/// The device confirms what ended up in memory.
proof fn lemma_mem_confirm(mem: crate::device::MemWrite, bytes: Seq<u8>)
    requires
        bytes.len() == mem.total,
        crate::crc32::crc32(bytes) == mem.crc,
    ensures
        device_turn(
            crate::device::State::MemCheck { mem },
            crate::device::Event::Bytes(bytes),
        ) == crate::device::reply(seq![crate::protocol::OK]),
{
    reveal(device_turn);
}

/// The host goes on after a chunk that was accepted.
proof fn lemma_host_chunk(
    target: crate::link::Target,
    data: Seq<u8>,
    offset: usize,
    attempt: u32,
)
    ensures
        ({
            let len = crate::protocol::chunk_len(
                data.len() as int,
                crate::protocol::CHUNK_SIZE as int,
                offset as int,
            );
            host_turn(
                crate::link::State::Chunk { target, data, offset, attempt },
                crate::link::Event::Got(Some(seq![crate::protocol::OK])),
            ) == crate::link::push_chunk(
                crate::link::Note::Sent {
                    done: (offset + len) as usize,
                    total: data.len() as usize,
                },
                target,
                data,
                offset + len,
                1,
            )
        }),
{
    reveal(host_turn);
}

/// The host ends after a whole that was accepted.
proof fn lemma_host_commit(target: crate::link::Target, tries: u32)
    ensures
        host_turn(
            crate::link::State::Commit { target, tries },
            crate::link::Event::Got(Some(seq![crate::protocol::OK])),
        ) == crate::link::finish(Ok(crate::link::Reply::Done)),
{
    reveal(host_turn);
}

/// The chunk on the line reaches memory and the status reaches the host.
proof fn lemma_mem_chunk(
    data: Seq<u8>,
    addr: u32,
    offset: int,
    before: Board,
    board: Board,
) -> (after: Board)
    requires
        crate::device::is_acceptable(mem_of(addr, data)),
        data.len() <= u32::MAX,
        0 <= offset < data.len(),
        in_memory(before, board, addr, data, offset),
    ensures
        ({
            let mem = mem_of(addr, data);
            let len = crate::protocol::chunk_len(data.len() as int, mem.chunk as int, offset);
            let session = mem_session(data, mem, offset, board);
            &&& in_memory(before, after, addr, data, offset + len)
            &&& offset + len < data.len() ==> session.run(3) == mem_session(
                data,
                mem,
                offset + len,
                after,
            )
            &&& offset + len >= data.len() ==> session.run(5).ended(Ok(crate::link::Reply::Done))
                && session.run(5).board == after
        }),
{
    let ok = crate::protocol::OK;
    let none = Seq::<u8>::empty();
    let mem = mem_of(addr, data);
    let chunk = crate::protocol::chunk_at(data, mem.chunk as int, offset);
    let len = chunk.len() as int;
    let frame = crate::protocol::frame(chunk);
    crate::protocol::a_frame_is_intact(chunk);
    lemma_bytes(frame, ok);
    lemma_bytes(none, ok);
    lemma_bytes(seq![ok], ok);

    let s0 = mem_session(data, mem, offset, board);
    let d1 = crate::device::Stand::MemStore { mem, offset: (offset + len) as u32 };
    let t1 = crate::device::say(
        none,
        crate::device::Ask::Store { at: (addr + offset) as u32, bytes: chunk },
    );
    lemma_mem_store(mem, offset as u32, chunk);
    lemma_device_reads(s0, (4 + len) as usize, d1, t1);
    let s1 = s0.step();

    let after = Board { memory: stored(board.memory, addr + offset, chunk), ..board };
    assert forall|i: int| 0 <= i < offset + len implies (after.memory)(addr + i)
        == #[trigger] data[i] by {
        if i >= offset {
            assert(chunk[i - offset] == data[i]);
        }
    }
    lemma_mem_ack(mem, (offset + len) as u32);
    let (d2, t2) = device_turn(d1, crate::device::Event::Done);
    lemma_board_acts(s1, after, crate::device::Event::Done, d2, t2);
    let s2 = s1.step();
    assert(s2.to_host == seq![ok]);

    reveal_with_fuel(Session::run, 6);
    lemma_host_chunk(crate::link::Target::Memory, data, offset as usize, 1);
    let (h3, t3) = host_turn(s2.host, crate::link::Event::Got(Some(seq![ok])));
    if offset + len < data.len() {
        let next = mem_session(data, mem, offset + len, after);
        let wait = 4 + crate::protocol::chunk_len(
            data.len() as int,
            mem.chunk as int,
            offset + len,
        );
        lemma_host_reads(s2, 1, wait as usize, h3, t3);
        lemma_bytes(next.to_device, ok);
        assert(s2.step() == next);
    } else {
        let back = fetched(after.memory, addr as int, data.len() as int);
        assert(back =~= data);
        lemma_mem_confirm(mem, back);
        let (d3, u3) = crate::device::reply(seq![ok]);
        lemma_board_acts(s2, after, crate::device::Event::Bytes(back), d3, u3);
        let s3 = s2.step();
        assert(s3.to_host == seq![ok, ok]);
        lemma_host_reads(s3, 1, 1, h3, t3);
        let s4 = s3.step();
        lemma_host_commit(crate::link::Target::Memory, 1);
        let (h5, t5) = crate::link::finish(Ok(crate::link::Reply::Done));
        lemma_host_reads(s4, 1, 1, h5, t5);
    }
    after
}

/// The chunks from the one on the line on reach memory.
proof fn lemma_mem_chunks(
    data: Seq<u8>,
    addr: u32,
    offset: int,
    before: Board,
    board: Board,
) -> (steps: nat)
    requires
        crate::device::is_acceptable(mem_of(addr, data)),
        data.len() <= u32::MAX,
        0 <= offset < data.len(),
        in_memory(before, board, addr, data, offset),
    ensures
        ({
            let end = mem_session(data, mem_of(addr, data), offset, board).run(steps);
            &&& end.ended(Ok(crate::link::Reply::Done))
            &&& in_memory(before, end.board, addr, data, data.len() as int)
        }),
    decreases data.len() - offset,
{
    let mem = mem_of(addr, data);
    let len = crate::protocol::chunk_len(data.len() as int, mem.chunk as int, offset);
    let session = mem_session(data, mem, offset, board);
    let after = lemma_mem_chunk(data, addr, offset, before, board);
    if offset + len < data.len() {
        let more = lemma_mem_chunks(data, addr, offset + len, before, after);
        lemma_run_adds(session, 3, more);
        3 + more
    } else {
        5
    }
}

/// The header of a write to memory, as the device reads it.
proof fn lemma_mem_header(addr: u32, data: Seq<u8>)
    requires
        data.len() <= u32::MAX,
    ensures
        ({
            let header = crate::link::mem_header(addr, data);
            let mem = mem_of(addr, data);
            &&& header.len() == 17
            &&& header.take(1) == seq![crate::protocol::CMD_MEM_WRITE]
            &&& header.skip(1).len() == 16
            &&& crate::wire::u32_at(header.skip(1), 0) == mem.total
            &&& crate::wire::u32_at(header.skip(1), 4) == mem.chunk
            &&& crate::wire::u32_at(header.skip(1), 8) == mem.addr
            &&& crate::wire::u32_at(header.skip(1), 12) == mem.crc
        }),
{
    let header = crate::link::mem_header(addr, data);
    let mem = mem_of(addr, data);
    let a = crate::wire::u32_bytes(mem.total);
    let b = crate::wire::u32_bytes(mem.chunk);
    let c = crate::wire::u32_bytes(mem.addr);
    let d = crate::wire::u32_bytes(mem.crc);
    crate::wire::u32_read_undoes_write(mem.total);
    crate::wire::u32_read_undoes_write(mem.chunk);
    crate::wire::u32_read_undoes_write(mem.addr);
    crate::wire::u32_read_undoes_write(mem.crc);
    assert(header.take(1) =~= seq![crate::protocol::CMD_MEM_WRITE]);
    assert(header.skip(1) =~= a + b + c + d);
}

/// The device takes the header of a write to memory.
proof fn lemma_mem_begin(addr: u32, data: Seq<u8>)
    requires
        data.len() <= u32::MAX,
    ensures
        ({
            let header = crate::link::mem_header(addr, data);
            let none = Seq::<u8>::empty();
            &&& device_turn(
                crate::device::State::Command,
                crate::device::Event::Bytes(header.take(1)),
            ) == (
                crate::device::Stand::MemHeader,
                crate::device::say(none, crate::device::Ask::Read(16)),
            )
            &&& device_turn(
                crate::device::State::MemHeader,
                crate::device::Event::Bytes(header.skip(1)),
            ) == if crate::device::is_acceptable(mem_of(addr, data)) {
                crate::device::await_mem(seq![crate::protocol::OK], mem_of(addr, data), 0)
            } else {
                crate::device::reply(seq![crate::protocol::FAIL])
            }
        }),
{
    reveal(device_turn);
    lemma_mem_header(addr, data);
}

/// The host goes on after the status of a header.
proof fn lemma_host_header(target: crate::link::Target, data: Seq<u8>, tries: u32)
    ensures
        host_turn(
            crate::link::State::Header { target, data, tries },
            crate::link::Event::Got(Some(seq![crate::protocol::OK])),
        ) == crate::link::push_chunk(crate::link::Note::Sending, target, data, 0, 1),
        host_turn(
            crate::link::State::Header { target, data, tries },
            crate::link::Event::Got(Some(seq![crate::protocol::FAIL])),
        ) == match target {
            crate::link::Target::Memory => crate::link::finish(
                Err(crate::link::Failure::RejectedHeader),
            ),
            crate::link::Target::File => crate::link::explain(false, crate::link::What::SdWrite),
        },
{
    reveal(host_turn);
    assert(seq![crate::protocol::FAIL][0] != seq![crate::protocol::OK][0]);
}

/// What is written to memory is what ends up there. When the host writes some
/// bytes to an address and they end below the loader, the exchange ends well,
/// memory holds exactly those bytes there, and nothing else of it has changed.
/// Otherwise the host is told that the header was rejected, and nothing has
/// changed at all.
pub proof fn what_is_written_to_memory_is_stored(addr: u32, data: Seq<u8>, board: Board) -> (steps:
    nat)
    requires
        data.len() <= u32::MAX,
    ensures
        ({
            let end = Session::begin(crate::link::begin_mem_write(addr, data), board).run(steps);
            if 0 < data.len() && addr + data.len() <= crate::device::RELOC_ADDR {
                &&& end.ended(Ok(crate::link::Reply::Done))
                &&& in_memory(board, end.board, addr, data, data.len() as int)
            } else {
                &&& end.ended(Err(crate::link::Failure::RejectedHeader))
                &&& end.board == board
            }
        }),
{
    let ok = crate::protocol::OK;
    let fail = crate::protocol::FAIL;
    let none = Seq::<u8>::empty();
    let mem = mem_of(addr, data);
    let begun = crate::link::begin_mem_write(addr, data);
    let header = crate::link::mem_header(addr, data);
    lemma_mem_header(addr, data);
    lemma_mem_begin(addr, data);
    lemma_bytes(none, ok);
    lemma_bytes(seq![ok], ok);
    lemma_bytes(seq![fail], fail);
    lemma_bytes(header.skip(1), ok);

    let s0 = Session::begin(begun, board);
    let (d1, t1) = device_turn(s0.device, crate::device::Event::Bytes(header.take(1)));
    lemma_device_reads(s0, 1, d1, t1);
    let s1 = s0.step();
    let (d2, t2) = device_turn(s1.device, crate::device::Event::Bytes(header.skip(1)));
    lemma_device_reads(s1, 16, d2, t2);
    let s2 = s1.step();
    reveal_with_fuel(Session::run, 4);
    lemma_host_header(crate::link::Target::Memory, data, 1);
    if crate::device::is_acceptable(mem) {
        let wait = 4 + crate::protocol::chunk_len(data.len() as int, mem.chunk as int, 0);
        let (h3, t3) = host_turn(s2.host, crate::link::Event::Got(Some(seq![ok])));
        lemma_host_reads(s2, 1, wait as usize, h3, t3);
        let s3 = s2.step();
        let next = mem_session(data, mem, 0, board);
        lemma_bytes(next.to_device, ok);
        assert(s3 == next);
        let more = lemma_mem_chunks(data, addr, 0, board, board);
        lemma_run_adds(s0, 3, more);
        3 + more
    } else {
        let (h3, t3) = host_turn(s2.host, crate::link::Event::Got(Some(seq![fail])));
        lemma_host_reads(s2, 1, 1, h3, t3);
        3
    }
}

// --- Commands on the card ---------------------------------------------------

/// The command on the card that an operation is.
pub open spec fn what_of(op: crate::device::Op) -> crate::link::What {
    match op {
        crate::device::Op::List => crate::link::What::SdList,
        crate::device::Op::Read => crate::link::What::SdRead,
        crate::device::Op::Write => crate::link::What::SdWrite,
        crate::device::Op::Delete => crate::link::What::SdDelete,
        crate::device::Op::Mkdir => crate::link::What::SdMkdir,
    }
}

/// The device goes on by itself while bringing the card up.
proof fn lemma_card_turns(job: crate::device::Task, at: usize)
    ensures
        ({
            let none = Seq::<u8>::empty();
            let done = crate::device::Event::<Seq<u8>, Seq<Line<Seq<u8>>>>::Done;
            &&& device_turn(crate::device::State::CardStart { job }, done) == (
                crate::device::Stand::CardVolume { job },
                crate::device::say(none, crate::device::Ask::OpenVolume),
            )
            &&& device_turn(crate::device::State::CardVolume { job }, done) == (
                crate::device::Stand::CardRoot { job },
                crate::device::say(none, crate::device::Ask::OpenRoot),
            )
            &&& device_turn(crate::device::State::CardRoot { job }, done)
                == crate::device::descend(job, 0)
            &&& device_turn(crate::device::State::CardWalk { job, at }, done)
                == crate::device::descend(job, at + 1)
        }),
{
    reveal(device_turn);
}

/// A session whose device is about to enter the directory at `at`, or to do
/// what was asked.
spec fn walking(session: Session, job: crate::device::Task, at: int) -> Session {
    let (device, turn) = crate::device::descend(job, at);
    Session {
        device,
        device_ask: turn.ask,
        board: Board { dir: job.dirs.take(at), ..session.board },
        ..session
    }
}

/// The device walks down to the directory of a job.
proof fn lemma_card_walk(session: Session, job: crate::device::Task, at: int) -> (steps: nat)
    requires
        0 <= at <= job.dirs.len() <= usize::MAX,
    ensures
        walking(session, job, at).run(steps) == walking(session, job, job.dirs.len() as int),
    decreases job.dirs.len() - at,
{
    if at < job.dirs.len() {
        let s0 = walking(session, job, at);
        lemma_card_turns(job, at as usize);
        let (device, turn) = crate::device::descend(job, at + 1);
        let board = Board { dir: job.dirs.take(at + 1), ..session.board };
        assert(job.dirs.take(at).push(job.dirs[at]) =~= job.dirs.take(at + 1));
        lemma_board_acts(s0, board, crate::device::Event::Done, device, turn);
        lemma_bytes(session.to_host, 0);
        assert(s0.step() == walking(session, job, at + 1));
        let more = lemma_card_walk(session, job, at + 1);
        1 + more
    } else {
        0
    }
}

/// The device brings the card up and walks down to the directory of a job.
proof fn lemma_card(session: Session, job: crate::device::Task) -> (steps: nat)
    requires
        session.device == (crate::device::Stand::CardStart { job }),
        session.device_ask == crate::device::Ask::<Seq<u8>, Seq<u8>>::StartCard,
        job.dirs.len() <= usize::MAX,
    ensures
        session.run(steps) == walking(session, job, job.dirs.len() as int),
{
    let done = crate::device::Event::<Seq<u8>, Seq<Line<Seq<u8>>>>::Done;
    lemma_card_turns(job, 0);
    lemma_bytes(session.to_host, 0);
    let (d1, t1) = device_turn(session.device, done);
    lemma_board_acts(session, session.board, done, d1, t1);
    let s1 = session.step();
    let (d2, t2) = device_turn(s1.device, done);
    lemma_board_acts(s1, s1.board, done, d2, t2);
    let s2 = s1.step();
    let (d3, t3) = device_turn(s2.device, done);
    let board = Board { dir: Seq::empty(), ..s2.board };
    lemma_board_acts(s2, board, done, d3, t3);
    let s3 = s2.step();
    assert(job.dirs.take(0) =~= Seq::<Seq<u8>>::empty());
    assert(s3 == walking(session, job, 0));
    reveal_with_fuel(Session::run, 4);
    let more = lemma_card_walk(session, job, 0);
    lemma_run_adds(session, 3, more);
    3 + more
}

/// Whether the device takes a path at all, whatever it names.
pub open spec fn is_path(path: Seq<u8>) -> bool {
    path.len() <= crate::device::MAX_PATH && vstd::utf8::valid_utf8(path)
}

/// The device takes a command byte and a path.
proof fn lemma_path_turns(op: crate::device::Op, path: Seq<u8>)
    requires
        path.len() <= u16::MAX,
    ensures
        ({
            let none = Seq::<u8>::empty();
            let len = path.len() as usize;
            let byte = seq![crate::link::command_byte(what_of(op))];
            &&& device_turn(crate::device::State::Command, crate::device::Event::Bytes(byte)) == (
                crate::device::Stand::PathLen { op },
                crate::device::say(none, crate::device::Ask::Read(2)),
            )
            &&& device_turn(
                crate::device::State::PathLen { op },
                crate::device::Event::Bytes(crate::wire::u16_bytes(path.len() as u16)),
            ) == (
                crate::device::Stand::Path { op, len },
                crate::device::say(none, crate::device::Ask::Read(len)),
            )
            &&& device_turn(
                crate::device::State::Path { op, len },
                crate::device::Event::Bytes(path),
            ) == if !is_path(path) {
                if op == crate::device::Op::Write {
                    (
                        crate::device::Stand::WriteHeader { path: none },
                        crate::device::say(none, crate::device::Ask::Read(8)),
                    )
                } else {
                    crate::device::refuse(crate::protocol::ERR_BAD_PATH)
                }
            } else {
                match op {
                    crate::device::Op::List => crate::device::start(
                        crate::device::Job {
                            op,
                            dirs: crate::text::names(path, 0),
                            name: none,
                            total: 0,
                            chunk: 0,
                        },
                    ),
                    crate::device::Op::Write => (
                        crate::device::Stand::WriteHeader { path },
                        crate::device::say(none, crate::device::Ask::Read(8)),
                    ),
                    _ => crate::device::start_in_parent(op, path, 0, 0),
                }
            }
        }),
{
    reveal(device_turn);
    crate::wire::u16_read_undoes_write(path.len() as u16);
}

/// A session in which the device took `taken` off the line and stands by
/// `now`.
spec fn took(session: Session, now: (crate::device::Stand, crate::device::Move), rest: Seq<u8>) ->
    Session {
    Session {
        device: now.0,
        device_ask: now.1.ask,
        to_device: rest,
        to_host: session.to_host + now.1.send,
        ..session
    }
}

/// The device reads a command byte and a path, in three steps.
proof fn lemma_path(session: Session, op: crate::device::Op, path: Seq<u8>, rest: Seq<u8>)
    requires
        path.len() <= u16::MAX,
        session.device == crate::device::Stand::Command,
        session.device_ask == crate::device::Ask::<Seq<u8>, Seq<u8>>::Read(1),
        session.to_device == seq![crate::link::command_byte(what_of(op))]
            + crate::protocol::path_bytes(path) + rest,
    ensures
        session.run(3) == took(
            session,
            device_turn(
                crate::device::State::Path { op, len: path.len() as usize },
                crate::device::Event::Bytes(path),
            ),
            rest,
        ),
{
    let byte = seq![crate::link::command_byte(what_of(op))];
    let len = crate::wire::u16_bytes(path.len() as u16);
    lemma_path_turns(op, path);
    lemma_bytes(session.to_host, 0);
    assert(session.to_device.take(1) =~= byte);
    assert(session.to_device.skip(1) =~= len + path + rest);
    let (d1, t1) = device_turn(session.device, crate::device::Event::Bytes(byte));
    lemma_device_reads(session, 1, d1, t1);
    let s1 = session.step();
    assert(s1.to_device.take(2) =~= len);
    assert(s1.to_device.skip(2) =~= path + rest);
    let (d2, t2) = device_turn(s1.device, crate::device::Event::Bytes(len));
    lemma_device_reads(s1, 2, d2, t2);
    let s2 = s1.step();
    assert(s2.to_device.take(path.len() as int) =~= path);
    assert(s2.to_device.skip(path.len() as int) =~= rest);
    let (d3, t3) = device_turn(s2.device, crate::device::Event::Bytes(path));
    lemma_device_reads(s2, path.len() as usize, d3, t3);
    reveal_with_fuel(Session::run, 4);
}

/// A path has no more components than bytes.
proof fn lemma_names_count(path: Seq<u8>, from: int)
    requires
        0 <= from <= path.len(),
    ensures
        crate::text::names(path, from).len() <= path.len() - from,
    decreases path.len() - from,
{
    if from < path.len() {
        if path[from] == 0x2F {
            lemma_names_count(path, from + 1);
        } else {
            crate::text::lemma_find(path, 0x2F, from);
            lemma_names_count(path, crate::text::find(path, 0x2F, from));
        }
    }
}

/// The job on the last component of a path.
pub open spec fn job_on(op: crate::device::Op, path: Seq<u8>, total: u32, chunk: u32) ->
    crate::device::Task {
    let names = crate::text::names(path, 0);
    crate::device::Job { op, dirs: names.drop_last(), name: names.last(), total, chunk }
}

/// From the start of a command on the card that takes just a path to the point
/// where the device is in its directory.
proof fn lemma_card_command(op: crate::device::Op, path: Seq<u8>, board: Board) -> (steps: nat)
    requires
        path.len() <= crate::device::MAX_PATH,
        vstd::utf8::valid_utf8(path),
        op == crate::device::Op::Read || op == crate::device::Op::Delete || op
            == crate::device::Op::Mkdir,
        crate::text::names(path, 0).len() > 0,
    ensures
        ({
            let begun = crate::link::begin_sd_command(what_of(op), path);
            let job = job_on(op, path, 0, 0);
            let session = Session::begin(begun, board);
            session.run(steps) == walking(
                Session { to_device: Seq::empty(), ..session },
                job,
                job.dirs.len() as int,
            )
        }),
{
    let begun = crate::link::begin_sd_command(what_of(op), path);
    let job = job_on(op, path, 0, 0);
    let s0 = Session::begin(begun, board);
    let none = Seq::<u8>::empty();
    lemma_bytes(s0.to_device, 0);
    lemma_bytes(none, 0);
    lemma_path(s0, op, path, none);
    lemma_path_turns(op, path);
    let s3 = s0.run(3);
    lemma_names_count(path, 0);
    let more = lemma_card(s3, job);
    lemma_run_adds(s0, 3, more);
    let session = Session { to_device: none, ..s0 };
    assert(s3 == Session {
        device: crate::device::State::CardStart { job },
        device_ask: crate::device::Ask::StartCard,
        ..session
    });
    assert(walking(s3, job, job.dirs.len() as int) == walking(
        session,
        job,
        job.dirs.len() as int,
    ));
    3 + more
}

/// What follows a delete or a new directory that worked.
proof fn lemma_simple_turns(op: crate::device::Op, job: crate::device::Task, tries: u32)
    requires
        job.op == op,
        op == crate::device::Op::Delete || op == crate::device::Op::Mkdir,
    ensures
        device_turn(crate::device::State::CardAct { job }, crate::device::Event::Done)
            == crate::device::reply(seq![crate::protocol::OK]),
        host_turn(
            crate::link::State::Started { what: what_of(op), tries },
            crate::link::Event::Got(Some(seq![crate::protocol::OK])),
        ) == crate::link::finish(Ok(crate::link::Reply::Done)),
{
    reveal(device_turn);
    reveal(host_turn);
}

/// Deleting a file and making a directory reach what the path names: the
/// device walks down the path's directories and does it to the last component,
/// and the host is told that it was done.
pub proof fn deleting_and_making_reach_the_path(
    op: crate::device::Op,
    path: Seq<u8>,
    board: Board,
) -> (steps: nat)
    requires
        path.len() <= crate::device::MAX_PATH,
        vstd::utf8::valid_utf8(path),
        op == crate::device::Op::Delete || op == crate::device::Op::Mkdir,
        crate::text::names(path, 0).len() > 0,
    ensures
        ({
            let names = crate::text::names(path, 0);
            let begun = crate::link::begin_sd_command(what_of(op), path);
            let end = Session::begin(begun, board).run(steps);
            let there = Board { dir: names.drop_last(), ..board };
            &&& end.ended(Ok(crate::link::Reply::Done))
            &&& end.board == if op == crate::device::Op::Delete {
                Board { deleted: Some(names.last()), ..there }
            } else {
                Board { made: Some(names.last()), ..there }
            }
        }),
{
    let ok = crate::protocol::OK;
    let names = crate::text::names(path, 0);
    let job = job_on(op, path, 0, 0);
    let begun = crate::link::begin_sd_command(what_of(op), path);
    let s0 = Session::begin(begun, board);
    let n = lemma_card_command(op, path, board);
    let s1 = s0.run(n);
    lemma_simple_turns(op, job, crate::link::SD_STATUS_ATTEMPTS);
    lemma_bytes(Seq::empty(), ok);
    lemma_bytes(seq![ok], ok);
    assert(job.dirs.take(job.dirs.len() as int) =~= names.drop_last());
    let done = crate::device::Event::<Seq<u8>, Seq<Line<Seq<u8>>>>::Done;
    let after = s1.board.perform(s1.device_ask).0;
    let (d2, t2) = crate::device::reply(seq![ok]);
    lemma_board_acts(s1, after, done, d2, t2);
    let s2 = s1.step();
    let (h3, t3) = crate::link::finish(Ok(crate::link::Reply::Done));
    lemma_host_reads(s2, 1, 1, h3, t3);
    reveal_with_fuel(Session::run, 3);
    lemma_run_adds(s0, n, 2);
    n + 2
}

/// A path that names nothing, is too long or is no text is refused, with the code
/// for a bad path. The card is not touched, and nothing is left on the line.
pub proof fn a_bad_path_is_refused(op: crate::device::Op, path: Seq<u8>, board: Board) -> (steps:
    nat)
    requires
        path.len() <= u16::MAX,
        op != crate::device::Op::Write,
        !is_path(path) || (op != crate::device::Op::List && crate::text::names(path, 0).len() == 0),
    ensures
        ({
            let begun = crate::link::begin_sd_command(what_of(op), path);
            let end = Session::begin(begun, board).run(steps);
            &&& end.ended(
                Err(
                    crate::link::Failure::Command {
                        what: what_of(op),
                        reason: crate::link::Reason::Code(crate::protocol::ERR_BAD_PATH),
                    },
                ),
            )
            &&& end.board == board
        }),
{
    let none = Seq::<u8>::empty();
    let what = what_of(op);
    let s0 = Session::begin(crate::link::begin_sd_command(what, path), board);
    lemma_bytes(s0.to_device, 0);
    lemma_path(s0, op, path, none);
    lemma_path_turns(op, path);
    let code = crate::protocol::ERR_BAD_PATH;
    lemma_bytes(crate::device::refuse(code).1.send, 0);
    a_refusal_reaches_the_host(s0.run(3), what, code);
    lemma_run_adds(s0, 3, 2);
    5
}

/// A write to such a path is refused in the same way. The sizes that follow the
/// path are taken off the line too, so that the device reads its next command
/// where the host sends it.
pub proof fn a_write_to_a_bad_path_is_refused(path: Seq<u8>, data: Seq<u8>, board: Board) -> (steps:
    nat)
    requires
        path.len() <= u16::MAX,
        data.len() <= u32::MAX,
        !is_path(path) || crate::text::names(path, 0).len() == 0,
    ensures
        ({
            let end = Session::begin(crate::link::begin_sd_write(path, data), board).run(steps);
            &&& end.ended(
                Err(
                    crate::link::Failure::Command {
                        what: crate::link::What::SdWrite,
                        reason: crate::link::Reason::Code(crate::protocol::ERR_BAD_PATH),
                    },
                ),
            )
            &&& end.board == board
        }),
{
    let op = crate::device::Op::Write;
    let none = Seq::<u8>::empty();
    let size = crate::protocol::CHUNK_SIZE as u32;
    let total = data.len() as u32;
    let sizes = crate::wire::u32_bytes(total) + crate::wire::u32_bytes(size);
    let code = crate::protocol::ERR_BAD_PATH;
    let kept = if is_path(path) {
        path
    } else {
        none
    };
    lemma_path_turns(op, path);
    lemma_bytes(none, 0);
    lemma_bytes(sizes, 0);
    lemma_bytes(crate::device::refuse(code).1.send, 0);

    let s0 = Session::begin(crate::link::begin_sd_write(path, data), board);
    assert(s0.to_device =~= seq![crate::protocol::CMD_SD_WRITE] + crate::protocol::path_bytes(path)
        + sizes);
    lemma_path(s0, op, path, sizes);
    let s3 = s0.run(3);
    assert(sizes.len() == 8);
    assert(s3.device == crate::device::Stand::WriteHeader { path: kept });
    let (d4, t4) = crate::device::refuse(code);
    assert(device_turn(s3.device, crate::device::Event::Bytes(sizes)) == (d4, t4)) by {
        reveal(device_turn);
    }
    assert(s3.to_device.take(8) =~= sizes);
    assert(s3.to_device.skip(8) =~= none);
    lemma_device_reads(s3, 8, d4, t4);
    let s4 = s3.step();
    a_refusal_reaches_the_host(s4, crate::link::What::SdWrite, code);
    reveal_with_fuel(Session::run, 2);
    lemma_run_adds(s0, 3, 1);
    lemma_run_adds(s0, 4, 2);
    6
}

// --- Writing a file -----------------------------------------------------------

/// A transfer to a file with the chunk at `offset` on the line.
spec fn file_session(data: Seq<u8>, offset: int, board: Board) -> Session {
    let size = crate::protocol::CHUNK_SIZE;
    let len = crate::protocol::chunk_len(data.len() as int, size as int, offset);
    Session {
        host: crate::link::State::Chunk {
            target: crate::link::Target::File,
            data,
            offset: offset as usize,
            attempt: 1,
        },
        host_ask: crate::link::Ask::Read(1),
        device: crate::device::State::WriteChunk {
            total: data.len() as u32,
            chunk: size as u32,
            offset: offset as u32,
            failed: false,
        },
        device_ask: crate::device::Ask::Read((4 + len) as usize),
        to_device: crate::protocol::frame(crate::protocol::chunk_at(data, size as int, offset)),
        to_host: Seq::empty(),
        board,
    }
}

/// A transfer to a file that is complete, with the file still to be closed and
/// `sent` on its way to the host.
spec fn closing(session: Session, sent: Seq<u8>, board: Board) -> Session {
    Session {
        device: crate::device::State::WriteClose { failed: false },
        device_ask: crate::device::Ask::CloseFile,
        to_device: Seq::empty(),
        to_host: sent,
        board,
        ..session
    }
}

/// What the device does during a transfer to a file.
proof fn lemma_file_turns(total: u32, offset: u32, chunk: Seq<u8>)
    requires
        offset < total,
        chunk.len() == crate::protocol::chunk_len(
            total as int,
            crate::protocol::CHUNK_SIZE as int,
            offset as int,
        ),
    ensures
        ({
            let size = crate::protocol::CHUNK_SIZE as u32;
            let ok = seq![crate::protocol::OK];
            let after = (offset + chunk.len()) as u32;
            let done = crate::device::Event::<Seq<u8>, Seq<Line<Seq<u8>>>>::Done;
            &&& device_turn(
                crate::device::State::WriteChunk { total, chunk: size, offset, failed: false },
                crate::device::Event::Bytes(crate::protocol::frame(chunk)),
            ) == (
                crate::device::Stand::WriteSave { total, chunk: size, offset: after },
                crate::device::say(Seq::empty(), crate::device::Ask::WriteFile(chunk)),
            )
            &&& device_turn(
                crate::device::State::WriteSave { total, chunk: size, offset: after },
                done,
            ) == crate::device::await_write(ok, total, size, after, false)
        }),
{
    reveal(device_turn);
    crate::protocol::a_frame_is_intact(chunk);
}

/// The device closes a file.
proof fn lemma_close_turn()
    ensures
        device_turn(
            crate::device::State::WriteClose { failed: false },
            crate::device::Event::Done,
        ) == crate::device::reply(seq![crate::protocol::OK]),
{
    reveal(device_turn);
}

/// The file is closed and the host, which stands by the last chunk or the
/// header, hears of it.
proof fn lemma_file_closes(session: Session, note: crate::link::Note, data: Seq<u8>, offset: int)
    requires
        session == closing(session, seq![crate::protocol::OK], session.board),
        session.host_ask == crate::link::Ask::Read(1),
        offset >= data.len(),
        host_turn(
            session.host,
            crate::link::Event::Got(Some(seq![crate::protocol::OK])),
        ) == crate::link::push_chunk(note, crate::link::Target::File, data, offset, 1),
    ensures
        session.run(3).ended(Ok(crate::link::Reply::Done)),
        session.run(3).board == session.board,
{
    let ok = crate::protocol::OK;
    lemma_bytes(seq![ok], ok);
    lemma_bytes(Seq::empty(), ok);
    lemma_close_turn();
    let (d1, t1) = crate::device::reply(seq![ok]);
    lemma_board_acts(session, session.board, crate::device::Event::Done, d1, t1);
    let s1 = session.step();
    assert(s1.to_host == seq![ok, ok]);
    let (h2, t2) = crate::link::push_chunk(note, crate::link::Target::File, data, offset, 1);
    lemma_host_reads(s1, 1, 1, h2, t2);
    let s2 = s1.step();
    lemma_host_commit(crate::link::Target::File, crate::link::SD_STATUS_ATTEMPTS);
    let (h3, t3) = crate::link::finish(Ok(crate::link::Reply::Done));
    lemma_host_reads(s2, 1, 1, h3, t3);
    reveal_with_fuel(Session::run, 4);
}

/// The chunks from the one on the line on reach the file.
proof fn lemma_file_chunks(data: Seq<u8>, offset: int, board: Board) -> (steps: nat)
    requires
        data.len() <= u32::MAX,
        0 <= offset < data.len(),
        board.file == data.take(offset),
    ensures
        ({
            let end = file_session(data, offset, board).run(steps);
            &&& end.ended(Ok(crate::link::Reply::Done))
            &&& end.board == Board { file: data, ..board }
        }),
    decreases data.len() - offset,
{
    let ok = crate::protocol::OK;
    let none = Seq::<u8>::empty();
    let size = crate::protocol::CHUNK_SIZE as int;
    let total = data.len() as u32;
    let chunk = crate::protocol::chunk_at(data, size, offset);
    let len = chunk.len() as int;
    let frame = crate::protocol::frame(chunk);
    crate::protocol::a_frame_is_intact(chunk);
    lemma_bytes(frame, ok);
    lemma_bytes(none, ok);
    lemma_bytes(seq![ok], ok);
    lemma_file_turns(total, offset as u32, chunk);

    let s0 = file_session(data, offset, board);
    let (d1, t1) = device_turn(s0.device, crate::device::Event::Bytes(frame));
    lemma_device_reads(s0, (4 + len) as usize, d1, t1);
    let s1 = s0.step();
    let after = Board { file: board.file + chunk, ..board };
    assert(after.file =~= data.take(offset + len));
    let (d2, t2) = device_turn(s1.device, crate::device::Event::Done);
    lemma_board_acts(s1, after, crate::device::Event::Done, d2, t2);
    let s2 = s1.step();
    assert(s2.to_host == seq![ok]);

    reveal_with_fuel(Session::run, 4);
    lemma_host_chunk(crate::link::Target::File, data, offset as usize, 1);
    let (h3, t3) = host_turn(s2.host, crate::link::Event::Got(Some(seq![ok])));
    if offset + len < data.len() {
        let next = file_session(data, offset + len, after);
        let wait = 4 + crate::protocol::chunk_len(data.len() as int, size, offset + len);
        lemma_host_reads(s2, 1, wait as usize, h3, t3);
        lemma_bytes(next.to_device, ok);
        assert(s2.step() == next);
        let more = lemma_file_chunks(data, offset + len, after);
        lemma_run_adds(s0, 3, more);
        3 + more
    } else {
        assert(after.file =~= data);
        let note = crate::link::Note::Sent {
            done: (offset + len) as usize,
            total: data.len() as usize,
        };
        lemma_file_closes(s2, note, data, offset + len);
        lemma_run_adds(s0, 2, 3);
        5
    }
}

/// The device takes the sizes of a file to write, and opens it.
proof fn lemma_write_turns(path: Seq<u8>, total: u32)
    requires
        crate::text::names(path, 0).len() > 0,
    ensures
        ({
            let size = crate::protocol::CHUNK_SIZE as u32;
            let sizes = crate::wire::u32_bytes(total) + crate::wire::u32_bytes(size);
            let job = job_on(crate::device::Op::Write, path, total, size);
            &&& sizes.len() == 8
            &&& device_turn(
                crate::device::State::WriteHeader { path },
                crate::device::Event::Bytes(sizes),
            ) == crate::device::start(job)
            &&& device_turn(
                crate::device::State::CardAct { job },
                crate::device::Event::Opened(0),
            ) == crate::device::await_write(seq![crate::protocol::OK], total, size, 0, false)
        }),
{
    reveal(device_turn);
    let size = crate::protocol::CHUNK_SIZE as u32;
    crate::wire::u32_read_undoes_write(total);
    crate::wire::u32_read_undoes_write(size);
}

/// What is written to a file is what ends up in it. When the host writes some
/// bytes to a path, the device walks down the path's directories, creates or
/// truncates the file the last component names, and it then holds exactly
/// those bytes.
pub proof fn what_is_written_to_a_file_is_stored(
    path: Seq<u8>,
    data: Seq<u8>,
    board: Board,
) -> (steps: nat)
    requires
        path.len() <= crate::device::MAX_PATH,
        vstd::utf8::valid_utf8(path),
        crate::text::names(path, 0).len() > 0,
        data.len() <= u32::MAX,
    ensures
        ({
            let names = crate::text::names(path, 0);
            let end = Session::begin(crate::link::begin_sd_write(path, data), board).run(steps);
            &&& end.ended(Ok(crate::link::Reply::Done))
            &&& end.board == Board {
                file: data,
                at: 0,
                dir: names.drop_last(),
                opened: Some(names.last()),
                ..board
            }
        }),
{
    let op = crate::device::Op::Write;
    let ok = crate::protocol::OK;
    let none = Seq::<u8>::empty();
    let size = crate::protocol::CHUNK_SIZE as u32;
    let total = data.len() as u32;
    let sizes = crate::wire::u32_bytes(total) + crate::wire::u32_bytes(size);
    let job = job_on(op, path, total, size);
    lemma_names_count(path, 0);
    lemma_write_turns(path, total);
    lemma_path_turns(op, path);
    lemma_bytes(none, ok);
    lemma_bytes(sizes, ok);
    lemma_bytes(seq![ok], ok);

    let s0 = Session::begin(crate::link::begin_sd_write(path, data), board);
    assert(s0.to_device =~= seq![crate::protocol::CMD_SD_WRITE] + crate::protocol::path_bytes(path)
        + sizes);
    lemma_path(s0, op, path, sizes);
    let s3 = s0.run(3);
    let (d4, t4) = crate::device::start(job);
    lemma_device_reads(s3, 8, d4, t4);
    let s4 = s3.step();
    let walk = lemma_card(s4, job);
    let s5 = s4.run(walk);
    assert(job.dirs.take(job.dirs.len() as int) =~= job.dirs);
    let opened = Board {
        file: none,
        at: 0,
        dir: job.dirs,
        opened: Some(job.name),
        ..board
    };
    let (d6, t6) = crate::device::await_write(seq![ok], total, size, 0, false);
    lemma_board_acts(s5, opened, crate::device::Event::Opened(0), d6, t6);
    let s6 = s5.step();
    assert(s6.to_host == seq![ok]);
    assert(s0.run(3).run(1) == s4) by {
        reveal_with_fuel(Session::run, 2);
    }
    assert(s5.run(1) == s6) by {
        reveal_with_fuel(Session::run, 2);
    }
    lemma_run_adds(s0, 3, 1);
    lemma_run_adds(s0, 4, walk);
    lemma_run_adds(s0, 4 + walk, 1);
    assert(s0.run(5 + walk) == s6);

    let target = crate::link::Target::File;
    lemma_host_header(target, data, crate::link::SD_STATUS_ATTEMPTS);
    assert(data.take(0) =~= none);
    if data.len() > 0 {
        let wait = 4 + crate::protocol::chunk_len(data.len() as int, size as int, 0);
        let (h7, t7) = host_turn(s6.host, crate::link::Event::Got(Some(seq![ok])));
        lemma_host_reads(s6, 1, wait as usize, h7, t7);
        let next = file_session(data, 0, opened);
        lemma_bytes(next.to_device, ok);
        assert(s6.step() == next);
        assert(s6.run(1) == next) by {
            reveal_with_fuel(Session::run, 2);
        }
        let more = lemma_file_chunks(data, 0, opened);
        lemma_run_adds(s0, 5 + walk, 1);
        lemma_run_adds(s0, 6 + walk, more);
        6 + walk + more
    } else {
        assert(data =~= none);
        lemma_file_closes(s6, crate::link::Note::Sending, data, 0);
        lemma_run_adds(s0, 5 + walk, 3);
        8 + walk
    }
}

// --- Listings ------------------------------------------------------------------

/// Whether a name can stand in a listing: it is valid UTF-8, and neither holds
/// a line feed nor ends in a carriage return.
pub open spec fn is_listable(name: Seq<u8>) -> bool {
    &&& vstd::utf8::valid_utf8(name)
    &&& forall|i: int| 0 <= i < name.len() ==> name[i] != 0x0A
    &&& name.len() > 0 ==> name.last() != 0x0D
}

/// An entry of a directory, as the host reads it.
pub open spec fn item_of(line: Line<Seq<u8>>) -> crate::listing::Item {
    crate::listing::Item { is_dir: line.is_dir, size: line.size as u64, name: line.name }
}

/// The entries of a directory, as the host reads them.
pub open spec fn items_of(lines: Seq<Line<Seq<u8>>>) -> Seq<crate::listing::Item> {
    lines.map_values(|line: Line<Seq<u8>>| item_of(line))
}

/// A line of a listing without its line feed.
spec fn line_text(line: Line<Seq<u8>>) -> Seq<u8> {
    crate::device::line_bytes(line).drop_last()
}

/// A line of a listing reads back.
proof fn lemma_line(line: Line<Seq<u8>>)
    requires
        is_listable(line.name),
    ensures
        ({
            let text = line_text(line);
            &&& crate::listing::item(text) == Ok::<
                crate::listing::Item,
                crate::listing::ListingError<Seq<u8>>,
            >(item_of(line))
            &&& text.len() > 0 && text.last() != 0x0D
            &&& forall|i: int| 0 <= i < text.len() ==> text[i] != 0x0A
            &&& crate::device::line_bytes(line) == text + seq![0x0Au8]
            &&& vstd::utf8::valid_utf8(crate::device::line_bytes(line))
        }),
{
    let kind = if line.is_dir {
        0x44u8
    } else {
        0x46u8
    };
    let digits = crate::text::decimal(line.size as nat);
    let text = seq![kind, 0x09u8] + digits + seq![0x09u8] + line.name;
    let second = 2 + digits.len() as int;
    crate::text::lemma_decimal(line.size as nat);
    assert(line_text(line) =~= text);
    assert(crate::device::line_bytes(line) =~= text + seq![0x0Au8]);
    crate::text::lemma_found(text, 0x09, 0, 1);
    assert forall|k: int| 2 <= k < second implies text[k] != 0x09 by {
        assert(text[k] == digits[k - 2]);
    }
    crate::text::lemma_found(text, 0x09, 2, second);
    assert(text.subrange(2, second) =~= digits);
    assert(text.take(1) =~= seq![kind]);
    assert(seq![kind][0] == kind);
    assert(seq![0x44u8][0] == 0x44u8);
    assert(text.skip(second + 1) =~= line.name);
    crate::text::what_is_written_in_decimal_reads_back(line.size as nat, u64::MAX as nat);
    assert forall|i: int| 0 <= i < text.len() implies text[i] != 0x0A by {
        if 2 <= i < second {
            assert(text[i] == digits[i - 2]);
        } else if i > second {
            assert(text[i] == line.name[i - second - 1]);
        }
    }
    if line.name.len() > 0 {
        assert(text.last() == line.name.last());
    } else {
        assert(text.last() == 0x09);
    }
    let head = seq![kind, 0x09u8] + digits + seq![0x09u8];
    assert forall|i: int| 0 <= i < head.len() implies head[i] < 0x80 by {
        if 2 <= i < second {
            assert(head[i] == digits[i - 2]);
        }
    }
    crate::text::lemma_ascii_is_valid(head);
    crate::text::lemma_ascii_is_valid(seq![0x0Au8]);
    vstd::utf8::valid_utf8_concat(head, line.name);
    vstd::utf8::valid_utf8_concat(head + line.name, seq![0x0Au8]);
    assert(crate::device::line_bytes(line) =~= head + line.name + seq![0x0Au8]);
}

/// A listing begins with its first line.
proof fn lemma_listing_first(lines: Seq<Line<Seq<u8>>>)
    requires
        lines.len() > 0,
    ensures
        crate::device::listing_bytes(lines) == crate::device::line_bytes(lines[0])
            + crate::device::listing_bytes(lines.skip(1)),
    decreases lines.len(),
{
    let first = crate::device::line_bytes(lines[0]);
    let last = crate::device::line_bytes(lines.last());
    if lines.len() == 1 {
        assert(lines.drop_last() =~= Seq::<Line<Seq<u8>>>::empty());
        assert(lines.skip(1) =~= Seq::<Line<Seq<u8>>>::empty());
        assert(Seq::<u8>::empty() + last =~= first + Seq::<u8>::empty());
    } else {
        let init = lines.drop_last();
        lemma_listing_first(init);
        assert(init.skip(1) =~= lines.skip(1).drop_last());
        assert(lines.skip(1).last() == lines.last());
        assert(first + crate::device::listing_bytes(init.skip(1)) + last =~= first + (
        crate::device::listing_bytes(init.skip(1)) + last));
    }
}

/// A listing reads back: the host makes of it the entries that the device
/// wrote down.
pub proof fn what_is_listed_reads_back(lines: Seq<Line<Seq<u8>>>)
    requires
        forall|i: int| 0 <= i < lines.len() ==> is_listable((#[trigger] lines[i]).name),
    ensures
        vstd::utf8::valid_utf8(crate::device::listing_bytes(lines)),
        crate::listing::items(crate::listing::lines(crate::device::listing_bytes(lines))) == Ok::<
            Seq<crate::listing::Item>,
            crate::listing::ListingError<Seq<u8>>,
        >(items_of(lines)),
    decreases lines.len(),
{
    let all = crate::device::listing_bytes(lines);
    if lines.len() == 0 {
        assert(items_of(lines) =~= Seq::<crate::listing::Item>::empty());
    } else {
        let first = lines[0];
        let text = line_text(first);
        let rest = crate::device::listing_bytes(lines.skip(1));
        lemma_listing_first(lines);
        lemma_line(first);
        assert forall|i: int| 0 <= i < lines.skip(1).len() implies is_listable(
            (#[trigger] lines.skip(1)[i]).name,
        ) by {
            assert(lines.skip(1)[i] == lines[i + 1]);
        }
        what_is_listed_reads_back(lines.skip(1));
        vstd::utf8::valid_utf8_concat(crate::device::line_bytes(first), rest);
        assert forall|k: int| 0 <= k < text.len() implies all[k] != 0x0A by {
            assert(all[k] == text[k]);
        }
        crate::text::lemma_found(all, 0x0A, 0, text.len() as int);
        assert(all[text.len() - 1] == text.last());
        assert(all.take(text.len() as int) =~= text);
        assert(all.skip(text.len() as int + 1) =~= rest);
        let split = crate::listing::lines(all);
        assert(split == seq![text] + crate::listing::lines(rest));
        assert(split.first() == text);
        assert(split.skip(1) =~= crate::listing::lines(rest));
        assert(items_of(lines) =~= seq![item_of(first)] + items_of(lines.skip(1)));
    }
}

// --- Streams to the host -----------------------------------------------------

/// The size of a chunk, as the headers carry it.
spec fn chunk_size() -> u32 {
    crate::protocol::CHUNK_SIZE as u32
}

/// What the host does as a stream comes in.
proof fn lemma_stream_turns(what: crate::link::What, tries: u32, total: u32)
    requires
        what == crate::link::What::SdList || what == crate::link::What::SdRead,
    ensures
        ({
            let none = Seq::<u8>::empty();
            let header = crate::device::stream_header(total);
            &&& header.len() == 8
            &&& host_turn(
                crate::link::State::Started { what, tries },
                crate::link::Event::Got(Some(seq![crate::protocol::OK])),
            ) == (
                crate::link::Stand::StreamHeader { what },
                crate::link::say(none, crate::link::Ask::Read(8)),
            )
            &&& host_turn(
                crate::link::State::StreamHeader { what },
                crate::link::Event::Got(Some(header)),
            ) == crate::link::stream_on(None, none, what, total, chunk_size(), none, 1)
        }),
{
    reveal(host_turn);
    crate::wire::u32_read_undoes_write(total);
    crate::wire::u32_read_undoes_write(chunk_size());
}

/// What the host does about a chunk of a stream.
proof fn lemma_stream_chunk_turns(
    what: crate::link::What,
    total: u32,
    out: Seq<u8>,
    chunk: Seq<u8>,
)
    requires
        out.len() < total,
        chunk.len() == crate::protocol::chunk_len(
            total as int,
            chunk_size() as int,
            out.len() as int,
        ),
    ensures
        ({
            let none = Seq::<u8>::empty();
            let size = chunk_size();
            let sum = crate::crc32::crc32(chunk);
            let turn = crate::link::say(none, crate::link::Ask::Read(4));
            &&& host_turn(
                crate::link::State::StreamNext { what, total, chunk: size, out, attempt: 1 },
                crate::link::Event::Done,
            ) == (
                crate::link::Stand::StreamCrc { what, total, chunk: size, out, attempt: 1 },
                crate::link::Turn { check: true, ..turn },
            )
            &&& host_turn(
                crate::link::State::StreamCrc { what, total, chunk: size, out, attempt: 1 },
                crate::link::Event::Got(Some(crate::wire::u32_bytes(sum))),
            ) == (
                crate::link::Stand::StreamData {
                    what,
                    total,
                    chunk: size,
                    out,
                    attempt: 1,
                    crc: Some(sum),
                },
                crate::link::say(none, crate::link::Ask::Read(chunk.len() as usize)),
            )
            &&& host_turn(
                crate::link::State::StreamData {
                    what,
                    total,
                    chunk: size,
                    out,
                    attempt: 1,
                    crc: Some(sum),
                },
                crate::link::Event::Got(Some(chunk)),
            ) == crate::link::stream_on(
                None,
                seq![crate::protocol::OK],
                what,
                total,
                size,
                out + chunk,
                1,
            )
        }),
{
    reveal(host_turn);
    crate::wire::u32_read_undoes_write(crate::crc32::crc32(chunk));
}

/// A session whose host stands by `now`, with this on the line.
spec fn heard(
    session: Session,
    now: (crate::link::Stand, crate::link::Move),
    to_device: Seq<u8>,
    to_host: Seq<u8>,
) -> Session {
    Session { host: now.0, host_ask: now.1.ask, to_device, to_host, ..session }
}

/// The status and the header of a stream reach the host.
proof fn lemma_stream_begins(
    session: Session,
    what: crate::link::What,
    tries: u32,
    total: u32,
    rest: Seq<u8>,
)
    requires
        what == crate::link::What::SdList || what == crate::link::What::SdRead,
        session.host == (crate::link::Stand::Started { what, tries }),
        session.host_ask == crate::link::Ask::Read(1),
        session.device_ask == crate::device::Ask::<Seq<u8>, Seq<u8>>::Read(1),
        session.to_device == Seq::<u8>::empty(),
        session.to_host == seq![crate::protocol::OK] + crate::device::stream_header(total) + rest,
    ensures
        session.run(2) == heard(
            session,
            crate::link::stream_on(
                None,
                Seq::empty(),
                what,
                total,
                chunk_size(),
                Seq::empty(),
                1,
            ),
            Seq::empty(),
            rest,
        ),
{
    let ok = crate::protocol::OK;
    let header = crate::device::stream_header(total);
    lemma_stream_turns(what, tries, total);
    lemma_bytes(Seq::empty(), ok);
    assert(session.to_host.take(1) =~= seq![ok]);
    assert(session.to_host.skip(1) =~= header + rest);
    let (h1, t1) = host_turn(session.host, crate::link::Event::Got(Some(seq![ok])));
    lemma_host_reads(session, 1, 1, h1, t1);
    let s1 = session.step();
    assert(s1.to_host.take(8) =~= header);
    assert(s1.to_host.skip(8) =~= rest);
    let (h2, t2) = host_turn(s1.host, crate::link::Event::Got(Some(header)));
    lemma_host_reads(s1, 8, 1, h2, t2);
    reveal_with_fuel(Session::run, 3);
}

/// A chunk of a stream reaches the host, which accepts it.
proof fn lemma_stream_chunk(
    session: Session,
    what: crate::link::What,
    total: u32,
    out: Seq<u8>,
    chunk: Seq<u8>,
)
    requires
        out.len() < total,
        chunk.len() == crate::protocol::chunk_len(
            total as int,
            chunk_size() as int,
            out.len() as int,
        ),
        session.host == (crate::link::Stand::StreamNext {
            what,
            total,
            chunk: chunk_size(),
            out,
            attempt: 1,
        }),
        session.host_ask == crate::link::Ask::Proceed,
        session.device_ask == crate::device::Ask::<Seq<u8>, Seq<u8>>::Read(1),
        session.to_device == Seq::<u8>::empty(),
        session.to_host == crate::protocol::frame(chunk),
    ensures
        session.run(3) == heard(
            session,
            crate::link::stream_on(
                None,
                seq![crate::protocol::OK],
                what,
                total,
                chunk_size(),
                out + chunk,
                1,
            ),
            seq![crate::protocol::OK],
            Seq::empty(),
        ),
{
    let ok = crate::protocol::OK;
    let sum = crate::wire::u32_bytes(crate::crc32::crc32(chunk));
    lemma_stream_chunk_turns(what, total, out, chunk);
    lemma_bytes(Seq::empty(), ok);
    lemma_bytes(seq![ok], ok);
    lemma_bytes(chunk, ok);
    let (h1, t1) = host_turn(session.host, crate::link::Event::Done);
    lemma_host_proceeds(session, 1, h1, t1);
    let s1 = session.step();
    assert(s1.to_host.take(4) =~= sum);
    assert(s1.to_host.skip(4) =~= chunk);
    let (h2, t2) = host_turn(s1.host, crate::link::Event::Got(Some(sum)));
    lemma_host_reads(s1, 4, 1, h2, t2);
    let s2 = s1.step();
    let (h3, t3) = host_turn(s2.host, crate::link::Event::Got(Some(chunk)));
    lemma_host_reads(s2, chunk.len() as usize, 1, h3, t3);
    reveal_with_fuel(Session::run, 4);
}

/// A stream of a file with the chunk at `offset` on the line.
spec fn read_session(data: Seq<u8>, offset: int, board: Board) -> Session {
    let total = data.len() as u32;
    let chunk = crate::protocol::chunk_at(data, chunk_size() as int, offset);
    Session {
        host: crate::link::State::StreamNext {
            what: crate::link::What::SdRead,
            total,
            chunk: chunk_size(),
            out: data.take(offset),
            attempt: 1,
        },
        host_ask: crate::link::Ask::Proceed,
        device: crate::device::State::ReadAck { left: (total - offset) as u32, chunk },
        device_ask: crate::device::Ask::Read(1),
        to_device: Seq::empty(),
        to_host: crate::protocol::frame(chunk),
        board,
    }
}

/// What the device does as it streams a file.
proof fn lemma_read_turns(left: u32, chunk: Seq<u8>)
    requires
        left > 0,
        chunk.len() == crate::device::read_len(left),
    ensures
        device_turn(
            crate::device::State::ReadAck { left, chunk },
            crate::device::Event::Bytes(seq![crate::protocol::OK]),
        ) == crate::device::read_from(Seq::empty(), (left - chunk.len()) as u32),
        device_turn(
            crate::device::State::ReadFill { left, chunk: Seq::empty() },
            crate::device::Event::Bytes(chunk),
        ) == crate::device::send_read(left, chunk),
{
    reveal(device_turn);
    lemma_bytes(chunk, 0);
}

/// The board hands the device the chunk of a file at `offset`.
proof fn lemma_read_fill(session: Session, data: Seq<u8>, offset: int)
    requires
        data.len() <= u32::MAX,
        0 <= offset < data.len(),
        session.board.file == data,
        session.board.at == offset,
        session.device == crate::device::read_from(
            Seq::empty(),
            (data.len() - offset) as u32,
        ).0,
        session.device_ask == crate::device::read_from(
            Seq::empty(),
            (data.len() - offset) as u32,
        ).1.ask,
    ensures
        ({
            let left = (data.len() - offset) as u32;
            let chunk = crate::protocol::chunk_at(data, chunk_size() as int, offset);
            session.step() == (Session {
                device: crate::device::State::ReadAck { left, chunk },
                device_ask: crate::device::Ask::Read(1),
                to_host: session.to_host + crate::protocol::frame(chunk),
                board: Board { at: offset + chunk.len(), ..session.board },
                ..session
            })
        }),
{
    let left = (data.len() - offset) as u32;
    let chunk = crate::protocol::chunk_at(data, chunk_size() as int, offset);
    lemma_read_turns(left, chunk);
    let board = Board { at: offset + chunk.len(), ..session.board };
    let event = crate::device::Event::<Seq<u8>, Seq<Line<Seq<u8>>>>::Bytes(chunk);
    let answer = session.board.perform(session.device_ask);
    assert(data.subrange(offset, offset + chunk.len()) =~= chunk);
    assert(answer == (board, Some(event)));
    let (device, turn) = crate::device::send_read(left, chunk);
    lemma_board_acts(session, board, event, device, turn);
}

/// The chunks from the one on the line on reach the host.
proof fn lemma_read_chunks(data: Seq<u8>, offset: int, board: Board) -> (steps: nat)
    requires
        data.len() <= u32::MAX,
        0 <= offset < data.len(),
        board.file == data,
        board.at == offset + crate::protocol::chunk_len(
            data.len() as int,
            chunk_size() as int,
            offset,
        ),
    ensures
        ({
            let end = read_session(data, offset, board).run(steps);
            &&& end.ended(Ok(crate::link::Reply::Data(data)))
            &&& end.board == Board { at: data.len() as int, ..board }
        }),
    decreases data.len() - offset,
{
    let ok = crate::protocol::OK;
    let what = crate::link::What::SdRead;
    let total = data.len() as u32;
    let left = (total - offset) as u32;
    let out = data.take(offset);
    let chunk = crate::protocol::chunk_at(data, chunk_size() as int, offset);
    let after = offset + chunk.len();
    let s0 = read_session(data, offset, board);
    lemma_stream_chunk(s0, what, total, out, chunk);
    let s3 = s0.run(3);
    assert(out + chunk =~= data.take(after));
    lemma_bytes(seq![ok], ok);
    lemma_bytes(Seq::empty(), ok);
    lemma_read_turns(left, chunk);
    let (d4, t4) = crate::device::read_from(Seq::empty(), (left - chunk.len()) as u32);
    lemma_device_reads(s3, 1, d4, t4);
    let s4 = s3.step();
    if after < data.len() {
        lemma_read_fill(s4, data, after);
        let s5 = s4.step();
        let next = read_session(data, after, s5.board);
        lemma_bytes(next.to_host, ok);
        assert(s5 == next);
        assert(s3.run(2) == next) by {
            reveal_with_fuel(Session::run, 3);
        }
        let more = lemma_read_chunks(data, after, s5.board);
        lemma_run_adds(s0, 3, 2);
        lemma_run_adds(s0, 5, more);
        5 + more
    } else {
        assert(data.take(after) =~= data);
        assert(s3.run(1) == s4) by {
            reveal_with_fuel(Session::run, 2);
        }
        lemma_run_adds(s0, 3, 1);
        4
    }
}

/// The device opens a file to stream it.
proof fn lemma_open_turn(job: crate::device::Task, len: u32)
    requires
        job.op == crate::device::Op::Read,
    ensures
        device_turn(
            crate::device::State::CardAct { job },
            crate::device::Event::Opened(len),
        ) == crate::device::read_from(
            seq![crate::protocol::OK] + crate::device::stream_header(len),
            len,
        ),
{
    reveal(device_turn);
}

/// What is read from a file is what is in it. When the host reads the file a
/// path names, it gets exactly the file's bytes.
pub proof fn what_is_read_from_a_file_is_its_contents(path: Seq<u8>, board: Board) -> (steps: nat)
    requires
        path.len() <= crate::device::MAX_PATH,
        vstd::utf8::valid_utf8(path),
        crate::text::names(path, 0).len() > 0,
        board.file.len() <= u32::MAX,
    ensures
        ({
            let names = crate::text::names(path, 0);
            let begun = crate::link::begin_sd_command(crate::link::What::SdRead, path);
            let end = Session::begin(begun, board).run(steps);
            &&& end.ended(Ok(crate::link::Reply::Data(board.file)))
            &&& end.board == Board {
                at: board.file.len() as int,
                dir: names.drop_last(),
                opened: Some(names.last()),
                ..board
            }
        }),
{
    let op = crate::device::Op::Read;
    let what = crate::link::What::SdRead;
    let tries = crate::link::SD_STATUS_ATTEMPTS;
    let ok = crate::protocol::OK;
    let data = board.file;
    let total = data.len() as u32;
    let job = job_on(op, path, 0, 0);
    let s0 = Session::begin(crate::link::begin_sd_command(what, path), board);
    let n = lemma_card_command(op, path, board);
    let s1 = s0.run(n);
    assert(job.dirs.take(job.dirs.len() as int) =~= job.dirs);
    let opened = Board { at: 0, dir: job.dirs, opened: Some(job.name), ..board };
    let start = seq![ok] + crate::device::stream_header(total);
    lemma_open_turn(job, total);
    lemma_bytes(start, ok);
    let (d2, t2) = crate::device::read_from(start, total);
    lemma_board_acts(s1, opened, crate::device::Event::Opened(total), d2, t2);
    let s2 = s1.step();
    assert(data.take(0) =~= Seq::<u8>::empty());
    if data.len() > 0 {
        let chunk = crate::protocol::chunk_at(data, chunk_size() as int, 0);
        lemma_read_fill(s2, data, 0);
        let s3 = s2.step();
        lemma_stream_begins(s3, what, tries, total, crate::protocol::frame(chunk));
        let next = read_session(data, 0, s3.board);
        assert(s3.run(2) == next);
        assert(s1.run(2) == s3) by {
            reveal_with_fuel(Session::run, 3);
        }
        let more = lemma_read_chunks(data, 0, s3.board);
        lemma_run_adds(s0, n, 2);
        lemma_run_adds(s0, n + 2, 2);
        lemma_run_adds(s0, n + 4, more);
        n + 4 + more
    } else {
        assert(data =~= Seq::<u8>::empty());
        lemma_stream_begins(s2, what, tries, total, Seq::empty());
        assert(s1.run(1) == s2) by {
            reveal_with_fuel(Session::run, 2);
        }
        lemma_run_adds(s0, n, 1);
        lemma_run_adds(s0, n + 1, 2);
        n + 3
    }
}

// --- Listing a directory -------------------------------------------------------

/// The job of listing the directory a path names.
pub open spec fn job_of_list(path: Seq<u8>) -> crate::device::Task {
    crate::device::Job {
        op: crate::device::Op::List,
        dirs: crate::text::names(path, 0),
        name: Seq::empty(),
        total: 0,
        chunk: 0,
    }
}

/// A stream of a listing with the chunk at `offset` on the line.
spec fn list_session(data: Seq<u8>, offset: int, board: Board) -> Session {
    Session {
        host: crate::link::State::StreamNext {
            what: crate::link::What::SdList,
            total: data.len() as u32,
            chunk: chunk_size(),
            out: data.take(offset),
            attempt: 1,
        },
        host_ask: crate::link::Ask::Proceed,
        device: crate::device::State::SendBulk { data, offset: offset as usize },
        device_ask: crate::device::Ask::Read(1),
        to_device: Seq::empty(),
        to_host: crate::protocol::frame(
            crate::protocol::chunk_at(data, chunk_size() as int, offset),
        ),
        board,
    }
}

/// What the device does as it streams a listing.
proof fn lemma_list_turns(data: Seq<u8>, offset: usize)
    ensures
        device_turn(
            crate::device::State::SendBulk { data, offset },
            crate::device::Event::Bytes(seq![crate::protocol::OK]),
        ) == crate::device::send_from(
            Seq::empty(),
            data,
            offset + crate::protocol::chunk_len(
                data.len() as int,
                chunk_size() as int,
                offset as int,
            ),
        ),
{
    reveal(device_turn);
}

/// What the device does about the entries of a directory.
proof fn lemma_listing_turn(job: crate::device::Task, lines: Seq<Line<Seq<u8>>>)
    requires
        job.op == crate::device::Op::List,
    ensures
        ({
            let listing = crate::device::listing_bytes(lines);
            device_turn(
                crate::device::State::CardAct { job },
                crate::device::Event::Listing(lines),
            ) == if listing.len() > crate::device::LISTING_CAP {
                crate::device::refuse(crate::protocol::ERR_TOO_LARGE)
            } else {
                crate::device::send_from(
                    seq![crate::protocol::OK] + crate::device::stream_header(listing.len() as u32),
                    listing,
                    0,
                )
            }
        }),
{
    reveal(device_turn);
}

/// The chunks from the one on the line on reach the host.
proof fn lemma_list_chunks(data: Seq<u8>, offset: int, board: Board) -> (steps: nat)
    requires
        data.len() <= u32::MAX,
        0 <= offset < data.len(),
    ensures
        ({
            let end = list_session(data, offset, board).run(steps);
            &&& end.ended(crate::link::received(crate::link::What::SdList, data))
            &&& end.board == board
        }),
    decreases data.len() - offset,
{
    let ok = crate::protocol::OK;
    let none = Seq::<u8>::empty();
    let what = crate::link::What::SdList;
    let total = data.len() as u32;
    let out = data.take(offset);
    let chunk = crate::protocol::chunk_at(data, chunk_size() as int, offset);
    let after = offset + chunk.len();
    let s0 = list_session(data, offset, board);
    lemma_stream_chunk(s0, what, total, out, chunk);
    let s3 = s0.run(3);
    assert(out + chunk =~= data.take(after));
    lemma_bytes(seq![ok], ok);
    lemma_bytes(none, ok);
    lemma_list_turns(data, offset as usize);
    let (d4, t4) = crate::device::send_from(none, data, after);
    lemma_device_reads(s3, 1, d4, t4);
    let s4 = s3.step();
    assert(s3.run(1) == s4) by {
        reveal_with_fuel(Session::run, 2);
    }
    lemma_run_adds(s0, 3, 1);
    if after < data.len() {
        let next = list_session(data, after, board);
        lemma_bytes(next.to_host, ok);
        assert(s4 == next);
        let more = lemma_list_chunks(data, after, board);
        lemma_run_adds(s0, 4, more);
        4 + more
    } else {
        assert(data.take(after) =~= data);
        4
    }
}

/// What is listed is what is in the directory. When the host lists the
/// directory a path names and the listing fits, it gets the directory's
/// entries: their kinds, sizes and names, in order. When it does not fit, the
/// host is told so.
pub proof fn what_is_listed_is_what_is_there(path: Seq<u8>, board: Board) -> (steps: nat)
    requires
        path.len() <= crate::device::MAX_PATH,
        vstd::utf8::valid_utf8(path),
        forall|i: int| 0 <= i < board.lines.len() ==> is_listable((#[trigger] board.lines[i]).name),
    ensures
        ({
            let what = crate::link::What::SdList;
            let begun = crate::link::begin_sd_command(what, path);
            let end = Session::begin(begun, board).run(steps);
            &&& end.ended(
                if crate::device::listing_bytes(board.lines).len() <= crate::device::LISTING_CAP {
                    Ok(crate::link::Reply::Listing(items_of(board.lines)))
                } else {
                    Err(
                        crate::link::Failure::Command {
                            what,
                            reason: crate::link::Reason::Code(crate::protocol::ERR_TOO_LARGE),
                        },
                    )
                },
            )
            &&& end.board == Board { dir: crate::text::names(path, 0), ..board }
        }),
{
    let op = crate::device::Op::List;
    let what = crate::link::What::SdList;
    let tries = crate::link::SD_STATUS_ATTEMPTS;
    let ok = crate::protocol::OK;
    let none = Seq::<u8>::empty();
    let job = job_of_list(path);
    let data = crate::device::listing_bytes(board.lines);
    let total = data.len() as u32;
    let s0 = Session::begin(crate::link::begin_sd_command(what, path), board);
    lemma_bytes(s0.to_device, ok);
    lemma_bytes(none, ok);
    lemma_path(s0, op, path, none);
    lemma_path_turns(op, path);
    let s3 = s0.run(3);
    lemma_names_count(path, 0);
    let walk = lemma_card(s3, job);
    lemma_run_adds(s0, 3, walk);
    let s4 = s3.run(walk);
    assert(job.dirs.take(job.dirs.len() as int) =~= job.dirs);
    let there = Board { dir: job.dirs, ..board };
    lemma_listing_turn(job, board.lines);
    let event = crate::device::Event::<Seq<u8>, Seq<Line<Seq<u8>>>>::Listing(board.lines);
    let (d5, t5) = device_turn(s4.device, event);
    lemma_board_acts(s4, there, event, d5, t5);
    let s5 = s4.step();
    assert(s4.run(1) == s5) by {
        reveal_with_fuel(Session::run, 2);
    }
    let n = 3 + walk;
    lemma_run_adds(s0, n, 1);
    if data.len() > crate::device::LISTING_CAP {
        let code = crate::protocol::ERR_TOO_LARGE;
        lemma_bytes(crate::device::refuse(code).1.send, 0);
        a_refusal_reaches_the_host(s5, what, code);
        lemma_run_adds(s0, n + 1, 2);
        n + 3
    } else {
        what_is_listed_reads_back(board.lines);
        let start = seq![ok] + crate::device::stream_header(total);
        lemma_bytes(start, ok);
        if data.len() > 0 {
            let frame = crate::protocol::frame(
                crate::protocol::chunk_at(data, chunk_size() as int, 0),
            );
            lemma_bytes(start + frame, ok);
            lemma_stream_begins(s5, what, tries, total, frame);
            assert(data.take(0) =~= none);
            assert(s5.run(2) == list_session(data, 0, there));
            let more = lemma_list_chunks(data, 0, there);
            lemma_run_adds(s0, n + 1, 2);
            lemma_run_adds(s0, n + 3, more);
            n + 3 + more
        } else {
            assert(data =~= none);
            lemma_stream_begins(s5, what, tries, total, none);
            lemma_run_adds(s0, n + 1, 2);
            n + 3
        }
    }
}

/// Whether the host waits to hear that a command on the card begins.
pub open spec fn awaits_start(host: crate::link::Stand, what: crate::link::What) -> bool {
    match host {
        crate::link::State::Started { what: begun, .. } => begun == what,
        crate::link::State::Header { target, .. } => target == crate::link::Target::File && what
            == crate::link::What::SdWrite,
        _ => false,
    }
}

/// What the host does about a refusal.
proof fn lemma_refusal_turns(
    host: crate::link::Stand,
    what: crate::link::What,
    tries: u32,
    code: u8,
)
    ensures
        ({
            let fail = crate::link::Event::Got(Some(seq![crate::protocol::FAIL]));
            let coded = crate::link::Event::Got(Some(seq![code]));
            let reason = crate::link::Reason::Code(code);
            &&& awaits_start(host, what) ==> host_turn(host, fail) == crate::link::explain(
                false,
                what,
            )
            &&& host_turn(
                crate::link::State::Explain { commit: false, what },
                coded,
            ) == crate::link::finish(Err(crate::link::Failure::Command { what, reason }))
            &&& host_turn(
                crate::link::State::Commit { target: crate::link::Target::File, tries },
                fail,
            ) == crate::link::explain(true, crate::link::What::SdWrite)
            &&& host_turn(
                crate::link::State::Explain { commit: true, what },
                coded,
            ) == crate::link::finish(Err(crate::link::Failure::NotCommitted(reason)))
        }),
{
    reveal(host_turn);
    assert(seq![crate::protocol::FAIL][0] != seq![crate::protocol::OK][0]);
}

/// A refusal reaches the host: when the device answers that a command on the
/// card cannot begin, the host ends with the code it gave.
pub proof fn a_refusal_reaches_the_host(session: Session, what: crate::link::What, code: u8)
    requires
        awaits_start(session.host, what),
        session.host_ask == crate::link::Ask::Read(1),
        session.to_device == Seq::<u8>::empty(),
        session.to_host == crate::device::refuse(code).1.send,
        session.device == crate::device::refuse(code).0,
        session.device_ask == crate::device::refuse(code).1.ask,
    ensures
        session.run(2).ended(
            Err(
                crate::link::Failure::Command { what, reason: crate::link::Reason::Code(code) },
            ),
        ),
        session.run(2).board == session.board,
{
    let fail = crate::protocol::FAIL;
    lemma_refusal_turns(session.host, what, 1, code);
    lemma_bytes(Seq::empty(), code);
    lemma_bytes(seq![code], code);
    assert(session.to_host.take(1) =~= seq![fail]);
    assert(session.to_host.skip(1) =~= seq![code]);
    let (h1, t1) = crate::link::explain(false, what);
    lemma_host_reads(session, 1, 1, h1, t1);
    let s1 = session.step();
    let (h2, t2) = host_turn(h1, crate::link::Event::Got(Some(seq![code])));
    lemma_host_reads(s1, 1, 1, h2, t2);
    reveal_with_fuel(Session::run, 3);
}

/// A file that could not be committed is not taken for written: when the
/// device answers so, the host ends with the code it gave.
pub proof fn a_failed_commit_reaches_the_host(session: Session, tries: u32, code: u8)
    requires
        session.host == (crate::link::Stand::Commit { target: crate::link::Target::File, tries }),
        session.host_ask == crate::link::Ask::Read(1),
        session.to_device == Seq::<u8>::empty(),
        session.to_host == crate::device::refuse(code).1.send,
        session.device == crate::device::refuse(code).0,
        session.device_ask == crate::device::refuse(code).1.ask,
    ensures
        session.run(2).ended(
            Err(crate::link::Failure::NotCommitted(crate::link::Reason::Code(code))),
        ),
        session.run(2).board == session.board,
{
    let fail = crate::protocol::FAIL;
    let what = crate::link::What::SdWrite;
    lemma_refusal_turns(session.host, what, tries, code);
    lemma_bytes(Seq::empty(), code);
    lemma_bytes(seq![code], code);
    assert(session.to_host.take(1) =~= seq![fail]);
    assert(session.to_host.skip(1) =~= seq![code]);
    let (h1, t1) = crate::link::explain(true, what);
    lemma_host_reads(session, 1, 1, h1, t1);
    let s1 = session.step();
    let (h2, t2) = host_turn(h1, crate::link::Event::Got(Some(seq![code])));
    lemma_host_reads(s1, 1, 1, h2, t2);
    reveal_with_fuel(Session::run, 3);
}

// --- Damage on the line ----------------------------------------------------------

/// Whether the device waits for the chunk of `data` at `offset`.
pub open spec fn awaits_chunk(device: crate::device::Stand, data: Seq<u8>, offset: int) -> bool {
    match device {
        crate::device::State::MemChunk { mem, offset: at } => at == offset && mem.total
            == data.len() && mem.chunk == crate::protocol::CHUNK_SIZE,
        crate::device::State::WriteChunk { total, chunk, offset: at, .. } => at == offset && total
            == data.len() && chunk == crate::protocol::CHUNK_SIZE,
        _ => false,
    }
}

/// What both ends do about a damaged chunk.
proof fn lemma_damage_turns(
    device: crate::device::Stand,
    bytes: Seq<u8>,
    target: crate::link::Target,
    data: Seq<u8>,
    offset: usize,
    attempt: u32,
)
    requires
        data.len() <= u32::MAX,
        offset < data.len(),
        attempt < crate::link::MAX_CHUNK_RETRIES,
        awaits_chunk(device, data, offset as int),
        bytes.len() == 4 + crate::protocol::chunk_len(
            data.len() as int,
            crate::protocol::CHUNK_SIZE as int,
            offset as int,
        ),
        !crate::protocol::is_intact(bytes),
    ensures
        device_turn(device, crate::device::Event::Bytes(bytes)) == (
            device,
            crate::device::say(
                seq![crate::protocol::FAIL],
                crate::device::Ask::Read(bytes.len() as usize),
            ),
        ),
        host_turn(
            crate::link::State::Chunk { target, data, offset, attempt },
            crate::link::Event::Got(Some(seq![crate::protocol::FAIL])),
        ) == crate::link::push_chunk(
            crate::link::Note::Retrying { offset, attempt },
            target,
            data,
            offset as int,
            (attempt + 1) as u32,
        ),
{
    reveal(device_turn);
    reveal(host_turn);
    assert(seq![crate::protocol::FAIL][0] != seq![crate::protocol::OK][0]);
}

/// A damaged chunk is sent again: when what reaches the device is not intact,
/// it stores nothing and says so, and the host puts the same chunk on the line
/// once more, as long as it has attempts left.
pub proof fn a_damaged_chunk_is_sent_again(
    session: Session,
    target: crate::link::Target,
    data: Seq<u8>,
    offset: usize,
    attempt: u32,
)
    requires
        data.len() <= u32::MAX,
        offset < data.len(),
        attempt < crate::link::MAX_CHUNK_RETRIES,
        session.host == (crate::link::Stand::Chunk { target, data, offset, attempt }),
        session.host_ask == crate::link::Ask::Read(1),
        awaits_chunk(session.device, data, offset as int),
        session.device_ask == crate::device::Ask::<Seq<u8>, Seq<u8>>::Read(
            session.to_device.len() as usize,
        ),
        session.to_device.len() == 4 + crate::protocol::chunk_len(
            data.len() as int,
            crate::protocol::CHUNK_SIZE as int,
            offset as int,
        ),
        !crate::protocol::is_intact(session.to_device),
        session.to_host == Seq::<u8>::empty(),
    ensures
        session.run(2) == (Session {
            host: crate::link::State::Chunk {
                target,
                data,
                offset,
                attempt: (attempt + 1) as u32,
            },
            to_device: crate::protocol::frame(
                crate::protocol::chunk_at(
                    data,
                    crate::protocol::CHUNK_SIZE as int,
                    offset as int,
                ),
            ),
            ..session
        }),
{
    let fail = crate::protocol::FAIL;
    let bytes = session.to_device;
    let len = bytes.len() as usize;
    lemma_damage_turns(session.device, bytes, target, data, offset, attempt);
    lemma_bytes(bytes, fail);
    lemma_bytes(seq![fail], fail);
    let (d1, t1) = device_turn(session.device, crate::device::Event::Bytes(bytes));
    lemma_device_reads(session, len, d1, t1);
    let s1 = session.step();
    let (h2, t2) = host_turn(s1.host, crate::link::Event::Got(Some(seq![fail])));
    lemma_host_reads(s1, 1, len, h2, t2);
    lemma_bytes(t2.send, fail);
    reveal_with_fuel(Session::run, 3);
}

/// Whether the device has sent `chunk` and waits for the host's status.
pub open spec fn awaits_status(device: crate::device::Stand, chunk: Seq<u8>) -> bool {
    match device {
        crate::device::State::SendBulk { data, offset } => offset < data.len() && chunk
            == crate::protocol::chunk_at(
            data,
            crate::protocol::CHUNK_SIZE as int,
            offset as int,
        ),
        crate::device::State::ReadAck { chunk: sent, .. } => sent == chunk,
        _ => false,
    }
}

/// What both ends do about a damaged chunk of a stream.
proof fn lemma_stream_damage_turns(
    device: crate::device::Stand,
    chunk: Seq<u8>,
    what: crate::link::What,
    total: u32,
    out: Seq<u8>,
    attempt: u32,
    sum: Seq<u8>,
    bytes: Seq<u8>,
)
    requires
        awaits_status(device, chunk),
        out.len() < total,
        attempt < crate::link::MAX_CHUNK_RETRIES,
        sum.len() == 4,
        bytes.len() == crate::protocol::chunk_len(
            total as int,
            chunk_size() as int,
            out.len() as int,
        ),
        crate::crc32::crc32(bytes) != crate::wire::u32_at(sum, 0),
    ensures
        ({
            let none = Seq::<u8>::empty();
            let fail = seq![crate::protocol::FAIL];
            let size = chunk_size();
            let crc = Some(crate::wire::u32_at(sum, 0));
            let turn = crate::link::say(none, crate::link::Ask::Read(4));
            &&& device_turn(device, crate::device::Event::Bytes(fail)) == (
                device,
                crate::device::say(crate::protocol::frame(chunk), crate::device::Ask::Read(1)),
            )
            &&& host_turn(
                crate::link::State::StreamNext { what, total, chunk: size, out, attempt },
                crate::link::Event::Done,
            ) == (
                crate::link::Stand::StreamCrc { what, total, chunk: size, out, attempt },
                crate::link::Turn { check: true, ..turn },
            )
            &&& host_turn(
                crate::link::State::StreamCrc { what, total, chunk: size, out, attempt },
                crate::link::Event::Got(Some(sum)),
            ) == (
                crate::link::Stand::StreamData { what, total, chunk: size, out, attempt, crc },
                crate::link::say(none, crate::link::Ask::Read(bytes.len() as usize)),
            )
            &&& host_turn(
                crate::link::State::StreamData { what, total, chunk: size, out, attempt, crc },
                crate::link::Event::Got(Some(bytes)),
            ) == crate::link::stream_on(
                Some(crate::link::Note::BadChunk { offset: out.len() as usize, attempt }),
                fail,
                what,
                total,
                size,
                out,
                (attempt + 1) as u32,
            )
        }),
{
    reveal(device_turn);
    reveal(host_turn);
    lemma_bytes(crate::protocol::frame(chunk), 0);
    assert(seq![crate::protocol::FAIL][0] != crate::protocol::OK);
}

/// A damaged chunk of a stream is sent again: when what reaches the host is
/// not intact, it keeps nothing of it and says so, and the device puts the same
/// chunk on the line once more, as long as the host has attempts left.
pub proof fn a_damaged_chunk_of_a_stream_is_sent_again(
    session: Session,
    chunk: Seq<u8>,
    what: crate::link::What,
    total: u32,
    out: Seq<u8>,
    attempt: u32,
)
    requires
        out.len() < total,
        attempt < crate::link::MAX_CHUNK_RETRIES,
        session.host == (crate::link::Stand::StreamNext {
            what,
            total,
            chunk: crate::protocol::CHUNK_SIZE as u32,
            out,
            attempt,
        }),
        session.host_ask == crate::link::Ask::Proceed,
        awaits_status(session.device, chunk),
        session.device_ask == crate::device::Ask::<Seq<u8>, Seq<u8>>::Read(1),
        session.to_device == Seq::<u8>::empty(),
        session.to_host.len() == 4 + crate::protocol::chunk_len(
            total as int,
            crate::protocol::CHUNK_SIZE as int,
            out.len() as int,
        ),
        !crate::protocol::is_intact(session.to_host),
    ensures
        session.run(4) == (Session {
            host: crate::link::State::StreamNext {
                what,
                total,
                chunk: crate::protocol::CHUNK_SIZE as u32,
                out,
                attempt: (attempt + 1) as u32,
            },
            to_host: crate::protocol::frame(chunk),
            ..session
        }),
{
    let fail = crate::protocol::FAIL;
    let sum = session.to_host.take(4);
    let bytes = session.to_host.skip(4);
    assert(crate::wire::u32_at(sum, 0) == crate::wire::u32_at(session.to_host, 0));
    lemma_stream_damage_turns(session.device, chunk, what, total, out, attempt, sum, bytes);
    lemma_bytes(Seq::empty(), fail);
    lemma_bytes(seq![fail], fail);
    lemma_bytes(bytes, fail);
    let (h1, t1) = host_turn(session.host, crate::link::Event::Done);
    lemma_host_proceeds(session, 1, h1, t1);
    let s1 = session.step();
    let (h2, t2) = host_turn(s1.host, crate::link::Event::Got(Some(sum)));
    lemma_host_reads(s1, 4, 1, h2, t2);
    let s2 = s1.step();
    let (h3, t3) = host_turn(s2.host, crate::link::Event::Got(Some(bytes)));
    lemma_host_reads(s2, bytes.len() as usize, 1, h3, t3);
    let s3 = s2.step();
    let (d4, t4) = device_turn(s3.device, crate::device::Event::Bytes(seq![fail]));
    lemma_device_reads(s3, 1, d4, t4);
    lemma_bytes(crate::protocol::frame(chunk), fail);
    reveal_with_fuel(Session::run, 5);
}

// --- Rates, jumps and greetings ---------------------------------------------------

/// What both ends do about a request for another rate or for a jump.
proof fn lemma_word_turns(value: u32, current: u32)
    ensures
        ({
            let none = Seq::<u8>::empty();
            let ok = seq![crate::protocol::OK];
            let fail = seq![crate::protocol::FAIL];
            let word = crate::device::Event::<Seq<u8>, Seq<Line<Seq<u8>>>>::Bytes(
                crate::wire::u32_bytes(value),
            );
            let baud = crate::device::Event::<Seq<u8>, Seq<Line<Seq<u8>>>>::Bytes(
                seq![crate::protocol::CMD_SET_BAUD],
            );
            let exec = crate::device::Event::<Seq<u8>, Seq<Line<Seq<u8>>>>::Bytes(
                seq![crate::protocol::CMD_EXEC],
            );
            let turn = crate::link::say(none, crate::link::Ask::Finish);
            &&& crate::wire::u32_bytes(value).len() == 4
            &&& device_turn(crate::device::State::Command, baud) == (
                crate::device::Stand::Baud,
                crate::device::say(none, crate::device::Ask::Read(4)),
            )
            &&& device_turn(crate::device::State::Command, exec) == (
                crate::device::Stand::Exec,
                crate::device::say(none, crate::device::Ask::Read(4)),
            )
            &&& device_turn(crate::device::State::Baud, word)
                == if crate::device::is_representable(value) {
                (
                    crate::device::Stand::BaudSwitch,
                    crate::device::say(ok, crate::device::Ask::SetBaud(value)),
                )
            } else {
                crate::device::reply(fail)
            }
            &&& device_turn(crate::device::State::BaudSwitch, crate::device::Event::Done)
                == crate::device::reply(none)
            &&& device_turn(crate::device::State::Exec, word) == if 0 < value
                < crate::device::RELOC_ADDR {
                (
                    crate::device::Stand::Gone,
                    crate::device::say(ok, crate::device::Ask::Jump(value)),
                )
            } else {
                crate::device::reply(fail)
            }
            &&& host_turn(
                crate::link::State::BaudStatus { baud: value, current },
                crate::link::Event::Got(Some(ok)),
            ) == (
                crate::link::Stand::BaudSwitch { baud: value },
                crate::link::say(
                    none,
                    crate::link::Ask::Switch { baud: value, pause: crate::link::BAUD_PAUSE },
                ),
            )
            &&& host_turn(
                crate::link::State::BaudStatus { baud: value, current },
                crate::link::Event::Got(Some(fail)),
            ) == (
                crate::link::Stand::Finished { result: Ok(crate::link::Reply::Baud(current)) },
                crate::link::Turn {
                    note: Some(crate::link::Note::Declined { baud: value, current }),
                    ..turn
                },
            )
            &&& host_turn(
                crate::link::State::BaudSwitch { baud: value },
                crate::link::Event::Done,
            ) == crate::link::finish(Ok(crate::link::Reply::Baud(value)))
            &&& host_turn(
                crate::link::State::ExecStatus { addr: value },
                crate::link::Event::Got(Some(ok)),
            ) == crate::link::finish(Ok(crate::link::Reply::Done))
            &&& host_turn(
                crate::link::State::ExecStatus { addr: value },
                crate::link::Event::Got(Some(fail)),
            ) == crate::link::finish(Err(crate::link::Failure::RefusedExec(value)))
        }),
{
    reveal(device_turn);
    reveal(host_turn);
    crate::wire::u32_read_undoes_write(value);
    assert(seq![crate::protocol::FAIL][0] != seq![crate::protocol::OK][0]);
}

/// A step in which the host lets the line settle, while the device waits for
/// more than there is.
proof fn lemma_host_settles(
    session: Session,
    waiting: usize,
    host: crate::link::Stand,
    turn: crate::link::Move,
)
    requires
        session.device_ask == crate::device::Ask::<Seq<u8>, Seq<u8>>::Read(waiting),
        session.to_device.len() < waiting,
        session.host_ask is Clear || session.host_ask is Settle || session.host_ask is Switch,
        host_turn(session.host, crate::link::Event::Done) == (host, turn),
    ensures
        session.step() == (Session {
            host,
            host_ask: turn.ask,
            to_host: Seq::empty(),
            to_device: session.to_device + turn.send,
            ..session
        }),
{
    reveal(Session::step);
}

/// Both ends end up at the same rate. When the host asks for a rate, and the
/// rate it believes to be in effect is the board's, the rate it then believes
/// in is the board's again: the one asked for if the UART can be set to it, and
/// the old one otherwise.
pub proof fn both_ends_agree_on_the_rate(baud: u32, board: Board) -> (steps: nat)
    ensures
        ({
            let begun = crate::link::begin_baud(baud, board.baud);
            let end = Session::begin(begun, board).run(steps);
            let rate = if crate::device::is_representable(baud) {
                baud
            } else {
                board.baud
            };
            &&& end.ended(Ok(crate::link::Reply::Baud(rate)))
            &&& end.board == Board { baud: rate, ..board }
        }),
{
    let ok = crate::protocol::OK;
    let fail = crate::protocol::FAIL;
    let none = Seq::<u8>::empty();
    let current = board.baud;
    let word = crate::wire::u32_bytes(baud);
    let s0 = Session::begin(crate::link::begin_baud(baud, current), board);
    if baud == current {
        0
    } else {
        lemma_word_turns(baud, current);
        lemma_bytes(none, ok);
        lemma_bytes(seq![ok], ok);
        lemma_bytes(seq![fail], fail);
        lemma_bytes(word, ok);
        assert(s0.to_device.take(1) =~= seq![crate::protocol::CMD_SET_BAUD]);
        assert(s0.to_device.skip(1) =~= word);
        let (d1, t1) = device_turn(
            s0.device,
            crate::device::Event::Bytes(seq![crate::protocol::CMD_SET_BAUD]),
        );
        lemma_device_reads(s0, 1, d1, t1);
        let s1 = s0.step();
        let (d2, t2) = device_turn(s1.device, crate::device::Event::Bytes(word));
        lemma_device_reads(s1, 4, d2, t2);
        let s2 = s1.step();
        reveal_with_fuel(Session::run, 6);
        if crate::device::is_representable(baud) {
            let after = Board { baud, ..board };
            let (d3, t3) = crate::device::reply(none);
            lemma_board_acts(s2, after, crate::device::Event::Done, d3, t3);
            let s3 = s2.step();
            let (h4, t4) = host_turn(s3.host, crate::link::Event::Got(Some(seq![ok])));
            lemma_host_reads(s3, 1, 1, h4, t4);
            let s4 = s3.step();
            let (h5, t5) = host_turn(s4.host, crate::link::Event::Done);
            lemma_host_settles(s4, 1, h5, t5);
            5
        } else {
            let (h3, t3) = host_turn(s2.host, crate::link::Event::Got(Some(seq![fail])));
            lemma_host_reads(s2, 1, 1, h3, t3);
            3
        }
    }
}

/// A jump that is asked for is made. When the address is neither zero nor in
/// the loader, the device jumps there and the host ends well; otherwise the
/// host is told that it was refused, and the device goes on as before.
pub proof fn a_jump_is_made_or_refused(addr: u32, board: Board) -> (steps: nat)
    ensures
        ({
            let end = Session::begin(crate::link::begin_exec(addr), board).run(steps);
            &&& end.board == board
            &&& if 0 < addr < crate::device::RELOC_ADDR {
                &&& end.host == (crate::link::Stand::Finished {
                    result: Ok(crate::link::Reply::Done),
                })
                &&& end.device == crate::device::Stand::Gone
                &&& end.device_ask == crate::device::Ask::<Seq<u8>, Seq<u8>>::Jump(addr)
            } else {
                end.ended(Err(crate::link::Failure::RefusedExec(addr)))
            }
        }),
{
    let ok = crate::protocol::OK;
    let fail = crate::protocol::FAIL;
    let none = Seq::<u8>::empty();
    let word = crate::wire::u32_bytes(addr);
    let s0 = Session::begin(crate::link::begin_exec(addr), board);
    lemma_word_turns(addr, 0);
    lemma_bytes(none, ok);
    lemma_bytes(seq![ok], ok);
    lemma_bytes(seq![fail], fail);
    lemma_bytes(word, ok);
    assert(s0.to_device.take(1) =~= seq![crate::protocol::CMD_EXEC]);
    assert(s0.to_device.skip(1) =~= word);
    let (d1, t1) = device_turn(
        s0.device,
        crate::device::Event::Bytes(seq![crate::protocol::CMD_EXEC]),
    );
    lemma_device_reads(s0, 1, d1, t1);
    let s1 = s0.step();
    let (d2, t2) = device_turn(s1.device, crate::device::Event::Bytes(word));
    lemma_device_reads(s1, 4, d2, t2);
    let s2 = s1.step();
    reveal_with_fuel(Session::run, 4);
    if 0 < addr < crate::device::RELOC_ADDR {
        let (h3, t3) = host_turn(s2.host, crate::link::Event::Got(Some(seq![ok])));
        assert(s2.step() == heard(s2, (h3, t3), none, none)) by {
            reveal(Session::step);
        }
    } else {
        let (h3, t3) = host_turn(s2.host, crate::link::Event::Got(Some(seq![fail])));
        lemma_host_reads(s2, 1, 1, h3, t3);
    }
    3
}

/// A device that waits for a greeting: just booted, with so much of one seen,
/// or in its command loop.
pub open spec fn waiting(booted: Option<usize>) -> crate::device::Stand {
    match booted {
        Some(matched) => crate::device::State::Hello { matched },
        None => crate::device::State::Command,
    }
}

/// That device after `k` bytes of a greeting, between its first and its last.
spec fn greeted(booted: Option<usize>, k: int) -> crate::device::Stand {
    if k == 0 {
        waiting(booted)
    } else if booted is Some {
        crate::device::State::Hello { matched: k as usize }
    } else {
        crate::device::State::Rehello { matched: k as usize }
    }
}

/// What the device does about a byte of a greeting.
proof fn lemma_hello_turn(booted: Option<usize>, k: int)
    requires
        booted matches Some(matched) ==> matched < 4,
        0 <= k < 4,
    ensures
        device_turn(
            greeted(booted, k),
            crate::device::Event::Bytes(seq![crate::protocol::HELLO@[k]]),
        ) == if k == 3 {
            crate::device::reply(crate::device::greeting())
        } else {
            (
                greeted(booted, k + 1),
                crate::device::say(Seq::empty(), crate::device::Ask::Read(1)),
            )
        },
{
    reveal(device_turn);
    crate::protocol::the_magics_suit_the_scan();
}

/// What the host does about a byte of the answer to its greeting.
proof fn lemma_ack_turn(k: int)
    requires
        0 <= k < 4,
    ensures
        ({
            let none = Seq::<u8>::empty();
            let read = crate::link::say(none, crate::link::Ask::Read(1));
            host_turn(
                crate::link::State::Greeting { matched: k as usize },
                crate::link::Event::Got(Some(seq![crate::protocol::ACK@[k]])),
            ) == if k == 3 {
                (crate::link::Stand::Version, read)
            } else {
                (crate::link::Stand::Greeting { matched: (k + 1) as usize }, read)
            }
        }),
{
    reveal(host_turn);
}

/// What the host does before and after its greeting.
proof fn lemma_greeting_turns(version: u8)
    ensures
        ({
            let none = Seq::<u8>::empty();
            let done = crate::link::Event::<Seq<u8>>::Done;
            &&& host_turn(crate::link::State::Clearing, done) == crate::link::hello()
            &&& host_turn(
                crate::link::State::Version,
                crate::link::Event::Got(Some(seq![version])),
            ) == (
                crate::link::Stand::Greeted { version },
                crate::link::say(none, crate::link::Ask::Settle(crate::link::GREETING_PAUSE)),
            )
            &&& host_turn(crate::link::State::Greeted { version }, done) == crate::link::finish(
                Ok(crate::link::Reply::Version(version)),
            )
        }),
{
    reveal(host_turn);
}

/// The bytes of a greeting from the one at `k` on reach the device.
proof fn lemma_hello(session: Session, booted: Option<usize>, k: int) -> (steps: nat)
    requires
        booted matches Some(matched) ==> matched < 4,
        0 <= k < 4,
        session.device == greeted(booted, k),
        session.device_ask == crate::device::Ask::<Seq<u8>, Seq<u8>>::Read(1),
        session.to_device == crate::protocol::HELLO@.skip(k),
    ensures
        session.run(steps) == (Session {
            device: crate::device::State::Command,
            to_device: Seq::empty(),
            to_host: session.to_host + crate::device::greeting(),
            ..session
        }),
    decreases 4 - k,
{
    let all = crate::protocol::HELLO@;
    lemma_hello_turn(booted, k);
    lemma_bytes(session.to_host, 0);
    assert(all.skip(k).take(1) =~= seq![all[k]]);
    assert(all.skip(k).skip(1) =~= all.skip(k + 1));
    let (device, turn) = device_turn(
        session.device,
        crate::device::Event::Bytes(seq![all[k]]),
    );
    lemma_device_reads(session, 1, device, turn);
    if k < 3 {
        let more = lemma_hello(session.step(), booted, k + 1);
        1 + more
    } else {
        assert(all.skip(4) =~= Seq::<u8>::empty());
        reveal_with_fuel(Session::run, 2);
        1
    }
}

/// The bytes of the answer from the one at `k` on reach the host.
proof fn lemma_ack(session: Session, k: int, rest: Seq<u8>) -> (steps: nat)
    requires
        0 <= k < 4,
        session.host == (crate::link::Stand::Greeting { matched: k as usize }),
        session.host_ask == crate::link::Ask::Read(1),
        session.device_ask == crate::device::Ask::<Seq<u8>, Seq<u8>>::Read(1),
        session.to_device == Seq::<u8>::empty(),
        session.to_host == crate::protocol::ACK@.skip(k) + rest,
    ensures
        session.run(steps) == (Session {
            host: crate::link::State::Version,
            to_host: rest,
            ..session
        }),
    decreases 4 - k,
{
    let all = crate::protocol::ACK@;
    lemma_ack_turn(k);
    lemma_bytes(Seq::empty(), 0);
    assert((all.skip(k) + rest).take(1) =~= seq![all[k]]);
    assert((all.skip(k) + rest).skip(1) =~= all.skip(k + 1) + rest);
    let (host, turn) = host_turn(
        session.host,
        crate::link::Event::Got(Some(seq![all[k]])),
    );
    lemma_host_reads(session, 1, 1, host, turn);
    if k < 3 {
        let more = lemma_ack(session.step(), k + 1, rest);
        1 + more
    } else {
        assert(all.skip(4) + rest =~= rest);
        reveal_with_fuel(Session::run, 2);
        1
    }
}

/// A greeting is answered whether the board just booted or is in its command
/// loop: the host learns the version that the device speaks, and the device
/// then waits for a command.
pub proof fn a_greeting_is_answered(booted: Option<usize>, board: Board) -> (steps: nat)
    requires
        booted matches Some(matched) ==> matched < 4,
    ensures
        ({
            let clearing = (
                crate::link::Stand::Clearing,
                crate::link::say(Seq::empty(), crate::link::Ask::Clear),
            );
            let begun = Session { device: waiting(booted), ..Session::begin(clearing, board) };
            let end = begun.run(steps);
            &&& end.ended(Ok(crate::link::Reply::Version(crate::protocol::PROTOCOL_VERSION)))
            &&& end.board == board
        }),
{
    let none = Seq::<u8>::empty();
    let version = crate::protocol::PROTOCOL_VERSION;
    let clearing = (
        crate::link::Stand::Clearing,
        crate::link::say(none, crate::link::Ask::Clear),
    );
    let s0 = Session { device: waiting(booted), ..Session::begin(clearing, board) };
    lemma_greeting_turns(version);
    lemma_bytes(none, version);
    lemma_bytes(crate::protocol::HELLO@, version);
    lemma_bytes(crate::device::greeting(), version);
    lemma_bytes(seq![version], version);
    let (h1, t1) = crate::link::hello();
    lemma_host_settles(s0, 1, h1, t1);
    let s1 = s0.step();
    assert(crate::protocol::HELLO@.skip(0) =~= crate::protocol::HELLO@);
    let a = lemma_hello(s1, booted, 0);
    let s2 = s1.run(a);
    assert(crate::protocol::ACK@.skip(0) =~= crate::protocol::ACK@);
    let b = lemma_ack(s2, 0, seq![version]);
    let s3 = s2.run(b);
    let (h4, t4) = host_turn(s3.host, crate::link::Event::Got(Some(seq![version])));
    lemma_host_reads(s3, 1, 1, h4, t4);
    let s4 = s3.step();
    let (h5, t5) = host_turn(s4.host, crate::link::Event::Done);
    lemma_host_settles(s4, 1, h5, t5);
    let s5 = s4.step();
    assert(s3.run(2) == s5) by {
        reveal_with_fuel(Session::run, 3);
    }
    assert(s0.run(1) == s1) by {
        reveal_with_fuel(Session::run, 2);
    }
    lemma_run_adds(s0, 1, a);
    lemma_run_adds(s0, 1 + a, b);
    lemma_run_adds(s0, 1 + a + b, 2);
    3 + a + b
}

} // verus!
