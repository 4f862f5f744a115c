//! What the loader does with what it is sent, byte by byte.

use vstd::prelude::*;

use crate::device::{Ask, Event, Job, Line, MemWrite, Op, Stand, Task};
use crate::rules::little;

verus! {

/// Which byte begins which command; any other is answered by a zero.
pub proof fn which_byte_begins_what(byte: u8)
    ensures
        ({
            let (next, turn) = crate::device::react(Stand::Command, Event::Bytes(seq![byte]));
            &&& next == match byte {
                1u8 => Stand::MemHeader,
                2u8 => Stand::Baud,
                3u8 => Stand::Exec,
                4u8 => Stand::PathLen { op: Op::List },
                5u8 => Stand::PathLen { op: Op::Read },
                6u8 => Stand::PathLen { op: Op::Write },
                7u8 => Stand::PathLen { op: Op::Delete },
                8u8 => Stand::PathLen { op: Op::Mkdir },
                0x52u8 => Stand::Rehello { matched: 1 },
                _ => Stand::Command,
            }
            &&& turn.ask == match byte {
                1u8 => Ask::<Seq<u8>, Seq<u8>>::Read(16),
                2u8 => Ask::Read(4),
                3u8 => Ask::Read(4),
                4u8 => Ask::Read(2),
                5u8 => Ask::Read(2),
                6u8 => Ask::Read(2),
                7u8 => Ask::Read(2),
                8u8 => Ask::Read(2),
                _ => Ask::Read(1),
            }
            &&& turn.send == if 1 <= byte <= 8 || byte == 0x52 {
                Seq::<u8>::empty()
            } else {
                seq![0u8]
            }
        }),
{
    assert(seq![byte][0] == byte);
    assert(crate::protocol::HELLO@[0] == 0x52);
}

/// A greeting is answered by `LIPR` and version 2, from power-on and from the
/// command loop alike; what is no greeting is not answered.
pub proof fn how_a_greeting_is_answered(matched: usize, byte: u8)
    requires
        matched < 4,
    ensures
        ({
            let magic = seq![0x52u8, 0x50u8, 0x49u8, 0x4Cu8];
            let answer = seq![0x4Cu8, 0x49u8, 0x50u8, 0x52u8, 2u8];
            let told = Event::Bytes(seq![byte]);
            let (first, greeted) = crate::device::react(Stand::Hello { matched }, told);
            let (next, turn) = crate::device::react(Stand::Rehello { matched }, told);
            let good = byte == magic[matched as int];
            &&& good && matched == 3 ==> first == Stand::Command && greeted.send == answer && next
                == Stand::Command && turn.send == answer
            &&& good && matched < 3 ==> first == (Stand::Hello { matched: (matched + 1) as usize })
                && next == (Stand::Rehello { matched: (matched + 1) as usize })
            &&& !good ==> next == Stand::Command && turn.send.len() == 0
            &&& !good && byte == 0x52 ==> first == (Stand::Hello { matched: 1 })
            &&& !good && byte != 0x52 ==> first == (Stand::Hello { matched: 0 })
            &&& !(good && matched == 3) ==> greeted.send.len() == 0
        }),
{
    assert(seq![byte][0] == byte);
    assert(crate::protocol::HELLO@ =~= seq![0x52u8, 0x50u8, 0x49u8, 0x4Cu8]);
    assert(crate::device::greeting() =~= seq![0x4Cu8, 0x49u8, 0x50u8, 0x52u8, 2u8]);
}

/// A number in the middle of bytes is read as it stands there.
proof fn lemma_read_at(bytes: Seq<u8>, at: int)
    requires
        0 <= at,
        at + 4 <= bytes.len(),
    ensures
        crate::wire::u32_at(bytes, at) == little(bytes.subrange(at, at + 4)),
{
    crate::rules::lemma_read(bytes.subrange(at, at + 4));
    assert(crate::wire::u32_at(bytes.subrange(at, at + 4), 0) == crate::wire::u32_at(bytes, at));
}

/// Which writes to memory are accepted: those of at least one byte, in chunks of 1
/// to 4096, that end at or below 0x200000. What was announced is what is awaited.
pub proof fn which_writes_to_memory_are_accepted(header: Seq<u8>)
    requires
        header.len() == 16,
    ensures
        ({
            let (next, turn) = crate::device::react(Stand::MemHeader, Event::Bytes(header));
            let total = little(header.subrange(0, 4));
            let chunk = little(header.subrange(4, 8));
            let addr = little(header.subrange(8, 12));
            let crc = little(header.subrange(12, 16));
            if total > 0 && 0 < chunk <= 4096 && addr + total <= 0x20_0000 {
                &&& turn.send == seq![1u8]
                &&& next matches Stand::MemChunk { mem, offset } && {
                    &&& mem.total == total && mem.chunk == chunk && mem.addr == addr && mem.crc
                        == crc
                    &&& offset == 0
                }
                &&& turn.ask == Ask::<Seq<u8>, Seq<u8>>::Read(
                    (4 + if total < chunk {
                        total
                    } else {
                        chunk
                    }) as usize,
                )
            } else {
                next == Stand::Command && turn.send == seq![0u8]
            }
        }),
{
    lemma_read_at(header, 0);
    lemma_read_at(header, 4);
    lemma_read_at(header, 8);
    lemma_read_at(header, 12);
}

/// A chunk for memory is stored behind those before it if it is intact and asked
/// for again if not; once all are stored, memory is read back, and the answer is
/// whether its checksum is the one announced.
pub proof fn what_becomes_of_a_chunk_for_memory(mem: MemWrite, offset: u32, bytes: Seq<u8>)
    requires
        mem.addr + mem.total <= 0x20_0000,
        0 < mem.chunk <= 4096,
        offset < mem.total,
    ensures
        ({
            let len = if mem.total - offset < mem.chunk {
                mem.total - offset
            } else {
                mem.chunk as int
            };
            let (next, turn) = crate::device::react(
                Stand::MemChunk { mem, offset },
                Event::Bytes(bytes),
            );
            bytes.len() == 4 + len ==> if little(bytes.take(4)) == crate::crc32::crc32(
                bytes.skip(4),
            ) {
                &&& next == (Stand::MemStore { mem, offset: (offset + len) as u32 })
                &&& turn.send.len() == 0
                &&& turn.ask == (Ask::<Seq<u8>, Seq<u8>>::Store {
                    at: (mem.addr + offset) as u32,
                    bytes: bytes.skip(4),
                })
            } else {
                next == (Stand::MemChunk { mem, offset }) && turn.send == seq![0u8]
            }
        }),
        ({
            let (next, turn) = crate::device::react(Stand::MemStore { mem, offset }, Event::Done);
            next == (Stand::MemChunk { mem, offset }) && turn.send == seq![1u8]
        }),
        ({
            let (next, turn) = crate::device::react(
                Stand::MemStore { mem, offset: mem.total },
                Event::Done,
            );
            next == (Stand::MemCheck { mem }) && turn.send == seq![1u8] && turn.ask == (Ask::<
                Seq<u8>,
                Seq<u8>,
            >::Fetch { at: mem.addr, len: mem.total })
        }),
        ({
            let (next, turn) = crate::device::react(Stand::MemCheck { mem }, Event::Bytes(bytes));
            bytes.len() == mem.total ==> next == Stand::Command && turn.send == seq![
                if crate::crc32::crc32(bytes) == mem.crc {
                    1u8
                } else {
                    0u8
                },
            ]
        }),
{
    crate::exchange::what_a_chunk_is_on_the_line(Seq::empty(), bytes);
}

/// A rate is switched to exactly if it is from 46 to 3023622, and a jump made
/// exactly if it is to an address above zero and below 0x200000; either is
/// answered first.
pub proof fn which_rates_and_jumps_are_accepted(bytes: Seq<u8>)
    requires
        bytes.len() == 4,
    ensures
        ({
            let number = little(bytes);
            let (rated, rate) = crate::device::react(Stand::Baud, Event::Bytes(bytes));
            let (gone, jump) = crate::device::react(Stand::Exec, Event::Bytes(bytes));
            &&& 46 <= number <= 3_023_622 ==> rated == Stand::BaudSwitch && rate.send == seq![1u8]
                && rate.ask == Ask::<Seq<u8>, Seq<u8>>::SetBaud(number as u32)
            &&& !(46 <= number <= 3_023_622) ==> rated == Stand::Command && rate.send == seq![0u8]
            &&& 0 < number < 0x20_0000 ==> gone == Stand::Gone && jump.send == seq![1u8] && jump.ask
                == Ask::<Seq<u8>, Seq<u8>>::Jump(number as u32)
            &&& !(0 < number < 0x20_0000) ==> gone == Stand::Command && jump.send == seq![0u8]
        }),
{
    crate::rules::lemma_read(bytes);
    crate::device::representable_rates(crate::wire::u32_at(bytes, 0));
}

/// Once the rate is switched the next command is awaited, at the new one.
pub proof fn what_follows_a_switch()
    ensures
        crate::device::react(Stand::BaudSwitch, Event::Done).0 == Stand::Command,
        crate::device::react(Stand::BaudSwitch, Event::Done).1.send.len() == 0,
        crate::device::react(Stand::BaudSwitch, Event::Done).1.ask == Ask::<
            Seq<u8>,
            Seq<u8>,
        >::Read(1),
{
}

/// A path is two bytes of length and as many bytes. One of more than 255 bytes, or
/// that is no text, is refused with code 5, once everything that belongs to the
/// command has been read.
pub proof fn how_a_path_is_taken(op: Op, size: Seq<u8>, path: Seq<u8>)
    requires
        size.len() == 2,
        path.len() <= 65535,
    ensures
        ({
            let (next, turn) = crate::device::react(Stand::PathLen { op }, Event::Bytes(size));
            let len = size[0] + 0x100 * size[1];
            next == (Stand::Path { op, len: len as usize }) && turn.ask == Ask::<
                Seq<u8>,
                Seq<u8>,
            >::Read(len as usize) && turn.send.len() == 0
        }),
        ({
            let (next, turn) = crate::device::react(
                Stand::Path { op, len: path.len() as usize },
                Event::Bytes(path),
            );
            if path.len() > 255 || !vstd::utf8::valid_utf8(path) {
                if op == Op::Write {
                    next == (Stand::WriteHeader { path: Seq::empty() }) && turn.send.len() == 0
                } else {
                    next == Stand::Command && turn.send == seq![0u8, 5u8]
                }
            } else if op == Op::Write {
                next == (Stand::WriteHeader { path }) && turn.ask == Ask::<Seq<u8>, Seq<u8>>::Read(
                    8,
                )
            } else if op == Op::List {
                next == (Stand::CardStart {
                    job: Job {
                        op,
                        dirs: crate::text::names(path, 0),
                        name: Seq::empty(),
                        total: 0,
                        chunk: 0,
                    },
                })
            } else {
                let names = crate::text::names(path, 0);
                if names.len() == 0 {
                    next == Stand::Command && turn.send == seq![0u8, 5u8]
                } else {
                    next == (Stand::CardStart {
                        job: Job {
                            op,
                            dirs: names.drop_last(),
                            name: names.last(),
                            total: 0,
                            chunk: 0,
                        },
                    })
                }
            }
        }),
{
    crate::rules::lemma_read_small(size[0], size[1]);
    assert(size =~= seq![size[0], size[1]]);
}

/// A file to write is announced by its length and a chunk size of 1 to 4096, for
/// the last component of its path; a path without one is refused with code 5, and
/// another chunk size with code 3.
pub proof fn how_a_file_to_write_is_announced(path: Seq<u8>, sizes: Seq<u8>)
    requires
        sizes.len() == 8,
    ensures
        ({
            let (next, turn) = crate::device::react(
                Stand::WriteHeader { path },
                Event::Bytes(sizes),
            );
            let total = little(sizes.subrange(0, 4));
            let chunk = little(sizes.subrange(4, 8));
            let names = crate::text::names(path, 0);
            if names.len() == 0 {
                next == Stand::Command && turn.send == seq![0u8, 5u8]
            } else if !(0 < chunk <= 4096) {
                next == Stand::Command && turn.send == seq![0u8, 3u8]
            } else {
                &&& turn.send.len() == 0
                &&& next == (Stand::CardStart {
                    job: Job {
                        op: Op::Write,
                        dirs: names.drop_last(),
                        name: names.last(),
                        total: total as u32,
                        chunk: chunk as u32,
                    },
                })
            }
        }),
{
    lemma_read_at(sizes, 0);
    lemma_read_at(sizes, 4);
}

/// The card is brought up, its partition and root opened, and every directory of
/// the path entered in turn before anything is done there.
pub proof fn how_a_card_is_walked(job: Task, at: int)
    requires
        0 <= at <= job.dirs.len() <= usize::MAX,
    ensures
        crate::device::react(Stand::CardStart { job }, Event::Done).0 == (Stand::CardVolume {
            job,
        }),
        crate::device::react(Stand::CardStart { job }, Event::Done).1.ask == Ask::<
            Seq<u8>,
            Seq<u8>,
        >::OpenVolume,
        crate::device::react(Stand::CardVolume { job }, Event::Done).0 == (Stand::CardRoot { job }),
        crate::device::react(Stand::CardVolume { job }, Event::Done).1.ask == Ask::<
            Seq<u8>,
            Seq<u8>,
        >::OpenRoot,
        ({
            let (next, turn) = if at == 0 {
                crate::device::react(Stand::CardRoot { job }, Event::Done)
            } else {
                crate::device::react(
                    Stand::CardWalk { job, at: (at - 1) as usize },
                    Event::Done,
                )
            };
            &&& turn.send.len() == 0
            &&& at < job.dirs.len() ==> next == (Stand::CardWalk { job, at: at as usize })
                && turn.ask == Ask::<Seq<u8>, Seq<u8>>::ChangeDir(job.dirs[at])
            &&& at == job.dirs.len() ==> next == (Stand::CardAct { job }) && turn.ask
                == match job.op {
                Op::List => Ask::<Seq<u8>, Seq<u8>>::ListDir,
                Op::Read => Ask::OpenFile { name: job.name, create: false },
                Op::Write => Ask::OpenFile { name: job.name, create: true },
                Op::Delete => Ask::DeleteFile(job.name),
                Op::Mkdir => Ask::MakeDir(job.name),
            }
        }),
{
}

/// What fails on the card is answered by a zero and a code: 1 where the card does
/// not come up, 2 where something is not there, and 3 for any other failure.
pub proof fn what_fails_on_a_card_has_a_code(job: Task, at: usize)
    ensures
        forall|state: Stand|
            state == (Stand::CardVolume { job }) || state == (Stand::CardRoot { job }) || state == (
            Stand::CardWalk { job, at }) || state == (Stand::CardAct { job }) ==> {
                &&& (#[trigger] crate::device::react(state, Event::NotFound)).0 == Stand::Command
                &&& crate::device::react(state, Event::NotFound).1.send == seq![0u8, 2u8]
                &&& crate::device::react(state, Event::Failed).0 == Stand::Command
                &&& crate::device::react(state, Event::Failed).1.send == seq![0u8, 3u8]
            },
        crate::device::react(Stand::CardStart { job }, Event::NotFound).1.send == seq![0u8, 1u8],
        crate::device::react(Stand::CardStart { job }, Event::Failed).1.send == seq![0u8, 1u8],
        crate::device::react(Stand::CardStart { job }, Event::NotFound).0 == Stand::Command,
        crate::device::react(Stand::CardStart { job }, Event::Failed).0 == Stand::Command,
{
}

/// What was asked for on the card is answered by a one, and followed by what it
/// is: the length and chunks of a listing or a file, or the chunks to write. A
/// listing of more than 8192 bytes is refused with code 4.
pub proof fn what_is_answered_once_it_is_done(job: Task, lines: Seq<Line<Seq<u8>>>, len: u32)
    ensures
        ({
            let (next, turn) = crate::device::react(Stand::CardAct { job }, Event::Done);
            job.op == Op::Delete || job.op == Op::Mkdir ==> next == Stand::Command && turn.send
                == seq![1u8]
        }),
        ({
            let (next, turn) = crate::device::react(Stand::CardAct { job }, Event::Opened(len));
            job.op == Op::Read ==> {
                &&& turn.send.len() == 9 && turn.send[0] == 1
                &&& little(turn.send.subrange(1, 5)) == len
                &&& little(turn.send.subrange(5, 9)) == 4096
                &&& len == 0 ==> next == Stand::Command
                &&& len > 0 ==> next == (Stand::ReadFill { left: len, chunk: Seq::empty() })
                    && turn.ask == Ask::<Seq<u8>, Seq<u8>>::ReadFile(
                    if len < 4096 {
                        len as usize
                    } else {
                        4096
                    },
                )
            }
        }),
        ({
            let (next, turn) = crate::device::react(Stand::CardAct { job }, Event::Opened(len));
            job.op == Op::Write ==> {
                &&& turn.send == seq![1u8]
                &&& job.total == 0 ==> next == (Stand::WriteClose { failed: false })
                &&& job.total > 0 ==> next == (Stand::WriteChunk {
                    total: job.total,
                    chunk: job.chunk,
                    offset: 0,
                    failed: false,
                })
            }
        }),
        ({
            let (next, turn) = crate::device::react(Stand::CardAct { job }, Event::Listing(lines));
            let text = crate::device::listing_bytes(lines);
            job.op == Op::List ==> if text.len() > 8192 {
                next == Stand::Command && turn.send == seq![0u8, 4u8]
            } else {
                &&& turn.send.len() >= 9 && turn.send[0] == 1
                &&& little(turn.send.subrange(1, 5)) == text.len()
                &&& little(turn.send.subrange(5, 9)) == 4096
                &&& turn.send.skip(9) == if text.len() == 0 {
                    Seq::empty()
                } else {
                    crate::protocol::frame(crate::protocol::chunk_at(text, 4096, 0))
                }
                &&& text.len() == 0 ==> next == Stand::Command
                &&& text.len() > 0 ==> next == (Stand::SendBulk { data: text, offset: 0 })
            }
        }),
{
    crate::rules::lemma_little(len);
    crate::rules::lemma_little(4096);
    let read = crate::device::react(Stand::CardAct { job }, Event::Opened(len)).1.send;
    if job.op == Op::Read {
        assert(read.subrange(1, 5) =~= crate::wire::u32_bytes(len));
        assert(read.subrange(5, 9) =~= crate::wire::u32_bytes(4096));
    }
    let text = crate::device::listing_bytes(lines);
    if job.op == Op::List && text.len() <= 8192 {
        let size = text.len() as u32;
        crate::rules::lemma_little(size);
        let sent = crate::device::react(Stand::CardAct { job }, Event::Listing(lines)).1.send;
        assert(sent.subrange(1, 5) =~= crate::wire::u32_bytes(size));
        assert(sent.subrange(5, 9) =~= crate::wire::u32_bytes(4096));
        if text.len() > 0 {
            assert(sent.skip(9) =~= crate::protocol::frame(
                crate::protocol::chunk_at(text, 4096, 0),
            ));
        } else {
            assert(sent.skip(9) =~= Seq::<u8>::empty());
        }
    }
}

/// What is sent goes on with the next chunk once the host has answered a one, and
/// sends the same again on anything else.
pub proof fn how_a_stream_is_sent(data: Seq<u8>, offset: usize, byte: u8)
    requires
        offset < data.len() <= 8192,
    ensures
        ({
            let (next, turn) = crate::device::react(
                Stand::SendBulk { data, offset },
                Event::Bytes(seq![byte]),
            );
            let after = if byte != 1 {
                offset as int
            } else if offset + 4096 < data.len() {
                offset + 4096
            } else {
                data.len() as int
            };
            &&& after < data.len() ==> next == (Stand::SendBulk { data, offset: after as usize })
                && turn.send == crate::protocol::frame(
                crate::protocol::chunk_at(data, 4096, after),
            )
            &&& after == data.len() ==> next == Stand::Command && turn.send.len() == 0
        }),
{
    assert(seq![byte][0] == byte);
    let none = Seq::<u8>::empty();
    if offset + 4096 < data.len() || byte != 1 {
        let after = if byte != 1 {
            offset as int
        } else {
            offset + 4096
        };
        let piece = crate::protocol::frame(crate::protocol::chunk_at(data, 4096, after));
        assert(none + piece =~= piece);
    }
}

/// A file is sent in chunks of 4096 and a last one of the rest: each is filled
/// from the file, sent, sent again until the host answers a one, and followed by
/// the next. A file that ends early, or fails, ends the stream with what was read.
pub proof fn how_a_file_is_sent(left: u32, chunk: Seq<u8>, bytes: Seq<u8>, byte: u8)
    requires
        left > 0,
        chunk.len() <= if left < 4096 {
            left as int
        } else {
            4096
        },
    ensures
        ({
            let full = if left < 4096 {
                left as int
            } else {
                4096
            };
            let (next, turn) = crate::device::react(
                Stand::ReadFill { left, chunk },
                Event::Bytes(bytes),
            );
            let (failed, last) = crate::device::react(
                Stand::ReadFill { left, chunk },
                Event::Failed,
            );
            let (then, answer) = crate::device::react(
                Stand::ReadAck { left, chunk },
                Event::Bytes(seq![byte]),
            );
            &&& 0 < bytes.len() && chunk.len() + bytes.len() < full ==> next == (Stand::ReadFill {
                left,
                chunk: chunk + bytes,
            }) && turn.ask == Ask::<Seq<u8>, Seq<u8>>::ReadFile(
                (full - chunk.len() - bytes.len()) as usize,
            )
            &&& chunk.len() + bytes.len() == full ==> next == (Stand::ReadAck {
                left,
                chunk: chunk + bytes,
            }) && turn.send == crate::protocol::frame(chunk + bytes)
            &&& bytes.len() == 0 && chunk.len() < full ==> next == (Stand::ReadAck {
                left,
                chunk: chunk + bytes,
            }) && turn.send == crate::protocol::frame(chunk + bytes)
            &&& crate::device::react(Stand::ReadFill { left, chunk }, Event::NotFound) == (
                failed,
                last,
            )
            &&& failed == (Stand::ReadAck { left, chunk }) && last.send == crate::protocol::frame(
                chunk,
            )
            &&& byte != 1 ==> then == (Stand::ReadAck { left, chunk }) && answer.send
                == crate::protocol::frame(chunk)
            &&& byte == 1 && chunk.len() < full ==> then == Stand::Command && answer.send.len() == 0
            &&& byte == 1 && chunk.len() == full && left > 4096 ==> then == (Stand::ReadFill {
                left: (left - 4096) as u32,
                chunk: Seq::empty(),
            })
            &&& byte == 1 && chunk.len() == full && left <= 4096 ==> then == Stand::Command
        }),
{
    assert(seq![byte][0] == byte);
}

/// A chunk of a file is written if it is intact and asked for again if not. After
/// a write that failed the rest is still taken, and the whole answered by a zero
/// and code 6; so is a file that does not close. Otherwise it is answered by a one.
pub proof fn what_becomes_of_a_chunk_of_a_file(
    total: u32,
    chunk: u32,
    offset: u32,
    failed: bool,
    bytes: Seq<u8>,
)
    requires
        0 < chunk <= 4096,
        offset < total,
    ensures
        ({
            let len = if total - offset < chunk {
                total - offset
            } else {
                chunk as int
            };
            let after = (offset + len) as u32;
            let (next, turn) = crate::device::react(
                Stand::WriteChunk { total, chunk, offset, failed },
                Event::Bytes(bytes),
            );
            let good = little(bytes.take(4)) == crate::crc32::crc32(bytes.skip(4));
            bytes.len() == 4 + len ==> {
                &&& !good ==> next == (Stand::WriteChunk { total, chunk, offset, failed })
                    && turn.send == seq![0u8]
                &&& good && !failed ==> next == (Stand::WriteSave { total, chunk, offset: after })
                    && turn.send.len() == 0 && turn.ask == Ask::<Seq<u8>, Seq<u8>>::WriteFile(
                    bytes.skip(4),
                )
                &&& good && failed ==> turn.send == seq![1u8] && next == if after < total {
                    Stand::WriteChunk { total, chunk, offset: after, failed }
                } else {
                    Stand::WriteClose { failed }
                }
            }
        }),
        ({
            let state = Stand::WriteSave { total, chunk, offset };
            let last = Stand::WriteSave { total, chunk, offset: total };
            let good = crate::device::react(state, Event::Done);
            let bad = crate::device::react(state, Event::Failed);
            let end = crate::device::react(last, Event::Done);
            let lost = crate::device::react(last, Event::Failed);
            &&& good.0 == (Stand::WriteChunk { total, chunk, offset, failed: false })
            &&& bad.0 == (Stand::WriteChunk { total, chunk, offset, failed: true })
            &&& end.0 == (Stand::WriteClose { failed: false })
            &&& lost.0 == (Stand::WriteClose { failed: true })
            &&& good.1.send == seq![1u8] && bad.1.send == seq![1u8] && end.1.send == seq![1u8]
                && lost.1.send == seq![1u8]
            &&& end.1.ask == Ask::<Seq<u8>, Seq<u8>>::CloseFile
            &&& crate::device::react(state, Event::NotFound) == bad
            &&& crate::device::react(last, Event::NotFound) == lost
        }),
        ({
            let closed = crate::device::react(Stand::WriteClose { failed }, Event::Done);
            let open = crate::device::react(Stand::WriteClose { failed }, Event::Failed);
            &&& closed.0 == Stand::Command && open.0 == Stand::Command
            &&& closed.1.send == if failed {
                seq![0u8, 6u8]
            } else {
                seq![1u8]
            }
            &&& open.1.send == seq![0u8, 6u8]
            &&& crate::device::react(Stand::WriteClose { failed }, Event::NotFound) == open
        }),
{
    crate::exchange::what_a_chunk_is_on_the_line(Seq::empty(), bytes);
}

/// A listing is a line for each entry: `D` or `F`, its size and its name, with
/// tabs between them and a line feed behind.
pub proof fn what_a_listing_is(lines: Seq<Line<Seq<u8>>>, line: Line<Seq<u8>>)
    ensures
        crate::device::listing_bytes(Seq::empty()) == Seq::<u8>::empty(),
        crate::device::listing_bytes(lines.push(line)) == crate::device::listing_bytes(lines)
            + seq![
            if line.is_dir {
                0x44u8
            } else {
                0x46u8
            },
            0x09u8,
        ] + crate::text::decimal(line.size as nat) + seq![0x09u8] + line.name + seq![0x0Au8],
{
    assert(lines.push(line).drop_last() =~= lines);
    let head = seq![
        if line.is_dir {
            0x44u8
        } else {
            0x46u8
        },
        0x09u8,
    ];
    assert(crate::device::listing_bytes(lines.push(line)) =~= crate::device::listing_bytes(lines)
        + head + crate::text::decimal(line.size as nat) + seq![0x09u8] + line.name + seq![0x0Au8]);
}

/// A buffer that is written to keeps as much as it has room for, from the front,
/// and what it held behind that; it overflows once more was written than it has
/// room for.
pub proof fn what_a_buffer_keeps(written: crate::device::Written, text: Seq<u8>)
    ensures
        written.kept() == if written.all.len() <= written.blank.len() {
            written.all.len()
        } else {
            written.blank.len()
        },
        written.overflows() <==> written.all.len() > written.blank.len(),
        written.buffer().len() == written.blank.len(),
        forall|i: int|
            0 <= i < written.buffer().len() ==> #[trigger] written.buffer()[i] == if i
                < written.all.len() {
                written.all[i]
            } else {
                written.blank[i]
            },
        written.with(text).all == written.all + text,
        written.with(text).blank == written.blank,
{
}

} // verus!
