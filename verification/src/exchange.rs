//! What goes over the serial line, byte by byte, and what each end makes of it.
//!
//! [`crate::session`] says what host and device come to together. Here is what
//! either of them does with any other that speaks the protocol.

use vstd::prelude::*;

use crate::link::{Failure, Note, Reason, Reply, Target, What};
use crate::rules::little;

verus! {

// --- What the host sends --------------------------------------------------------

/// A write to memory is announced by its command, its length, a chunk size of
/// 4096, its address and the checksum of the whole, in this order.
pub proof fn how_a_write_to_memory_is_announced(addr: u32, data: Seq<u8>)
    requires
        data.len() < 0x1_0000_0000,
    ensures
        ({
            let sent = crate::link::begin_mem_write(addr, data).1.send;
            &&& sent.len() == 17
            &&& sent[0] == 1
            &&& little(sent.subrange(1, 5)) == data.len()
            &&& little(sent.subrange(5, 9)) == 4096
            &&& little(sent.subrange(9, 13)) == addr
            &&& little(sent.subrange(13, 17)) == crate::crc32::crc32(data)
        }),
        crate::link::begin_mem_write(addr, data).0 == (crate::link::Stand::Header {
            target: Target::Memory,
            data,
            tries: 1,
        }),
{
    let sent = crate::link::begin_mem_write(addr, data).1.send;
    let crc = crate::crc32::crc32(data);
    crate::rules::lemma_little(data.len() as u32);
    crate::rules::lemma_little(4096);
    crate::rules::lemma_little(addr);
    crate::rules::lemma_little(crc);
    assert(sent.subrange(1, 5) =~= crate::wire::u32_bytes(data.len() as u32));
    assert(sent.subrange(5, 9) =~= crate::wire::u32_bytes(4096));
    assert(sent.subrange(9, 13) =~= crate::wire::u32_bytes(addr));
    assert(sent.subrange(13, 17) =~= crate::wire::u32_bytes(crc));
}

/// A jump and a change of rate are asked for by the command and the number; a
/// rate that is in effect already is not asked for.
pub proof fn how_a_jump_and_a_rate_are_asked_for(addr: u32, baud: u32, current: u32)
    ensures
        ({
            let sent = crate::link::begin_exec(addr).1.send;
            sent.len() == 5 && sent[0] == 3 && little(sent.subrange(1, 5)) == addr
        }),
        crate::link::begin_exec(addr).0 == (crate::link::Stand::ExecStatus { addr }),
        baud == current ==> crate::link::begin_baud(baud, current).1.send.len() == 0
            && crate::link::begin_baud(baud, current).0 == (crate::link::Stand::Finished {
            result: Ok(Reply::Baud(baud)),
        }),
        baud != current ==> {
            let sent = crate::link::begin_baud(baud, current).1.send;
            &&& sent.len() == 5 && sent[0] == 2 && little(sent.subrange(1, 5)) == baud
            &&& crate::link::begin_baud(baud, current).0 == (crate::link::Stand::BaudStatus {
                baud,
                current,
            })
        },
{
    crate::rules::lemma_little(addr);
    crate::rules::lemma_little(baud);
    assert(crate::link::begin_exec(addr).1.send.subrange(1, 5) =~= crate::wire::u32_bytes(addr));
    if baud != current {
        assert(crate::link::begin_baud(baud, current).1.send.subrange(1, 5)
            =~= crate::wire::u32_bytes(baud));
    }
}

/// The number of a command on the card.
pub open spec fn number_of(what: What) -> u8 {
    match what {
        What::SdList => 4,
        What::SdRead => 5,
        What::SdWrite => 6,
        What::SdDelete => 7,
        What::SdMkdir => 8,
    }
}

/// A command on the card is its number, the length of the path in two bytes and
/// the path; a file to write is followed by its length and a chunk size of 4096. A
/// path that is longer than two bytes can say is not sent.
pub proof fn how_a_command_on_the_card_is_sent(what: What, path: Seq<u8>, data: Seq<u8>)
    requires
        data.len() < 0x1_0000_0000,
    ensures
        path.len() <= 65535 ==> {
            let sent = crate::link::begin_sd_command(what, path).1.send;
            &&& sent.len() == 3 + path.len()
            &&& sent[0] == number_of(what)
            &&& sent[1] + 0x100 * sent[2] == path.len()
            &&& sent.skip(3) == path
        },
        path.len() <= 65535 ==> crate::link::begin_sd_command(what, path).0 == (
        crate::link::Stand::Started { what, tries: 3 }) && crate::link::begin_sd_write(path, data).0
            == (crate::link::Stand::Header { target: Target::File, data, tries: 3 }),
        path.len() <= 65535 ==> {
            let sent = crate::link::begin_sd_write(path, data).1.send;
            let n = path.len() as int;
            &&& sent.len() == 11 + n
            &&& sent[0] == 6
            &&& sent[1] + 0x100 * sent[2] == n
            &&& sent.subrange(3, 3 + n) == path
            &&& little(sent.subrange(3 + n, 7 + n)) == data.len()
            &&& little(sent.subrange(7 + n, 11 + n)) == 4096
        },
        path.len() > 65535 ==> {
            &&& crate::link::begin_sd_command(what, path).0 == (crate::link::Stand::Finished {
                result: Err(Failure::PathTooLong),
            })
            &&& crate::link::begin_sd_write(path, data).0 == (crate::link::Stand::Finished {
                result: Err(Failure::PathTooLong),
            })
        },
{
    if path.len() <= 65535 {
        let n = path.len() as int;
        crate::rules::lemma_small(path.len() as u16);
        crate::rules::lemma_little(data.len() as u32);
        crate::rules::lemma_little(4096);
        let size = crate::wire::u16_bytes(path.len() as u16);
        let sent = crate::link::begin_sd_command(what, path).1.send;
        assert(sent[1] == size[0] && sent[2] == size[1]);
        assert(sent.skip(3) =~= path);
        let sent = crate::link::begin_sd_write(path, data).1.send;
        assert(sent[1] == size[0] && sent[2] == size[1]);
        assert(sent.subrange(3, 3 + n) =~= path);
        assert(sent.subrange(3 + n, 7 + n) =~= crate::wire::u32_bytes(data.len() as u32));
        assert(sent.subrange(7 + n, 11 + n) =~= crate::wire::u32_bytes(4096));
    }
}

/// A chunk on the line is the checksum of its bytes, then the bytes; it is taken
/// for intact exactly if they agree.
pub proof fn what_a_chunk_is_on_the_line(chunk: Seq<u8>, bytes: Seq<u8>)
    ensures
        crate::protocol::frame(chunk).len() == 4 + chunk.len(),
        little(crate::protocol::frame(chunk).take(4)) == crate::crc32::crc32(chunk),
        crate::protocol::frame(chunk).skip(4) == chunk,
        crate::protocol::is_intact(bytes) <==> bytes.len() >= 4 && little(bytes.take(4))
            == crate::crc32::crc32(bytes.skip(4)),
{
    crate::rules::lemma_little(crate::crc32::crc32(chunk));
    assert(crate::protocol::frame(chunk).take(4) =~= crate::wire::u32_bytes(
        crate::crc32::crc32(chunk),
    ));
    assert(crate::protocol::frame(chunk).skip(4) =~= chunk);
    if bytes.len() >= 4 {
        crate::rules::lemma_read(bytes.take(4));
        assert(crate::wire::u32_at(bytes.take(4), 0) == crate::wire::u32_at(bytes, 0));
    }
}

/// A chunk begins at its offset, and is as long as a chunk is unless the data ends
/// before.
pub proof fn what_a_chunk_holds(data: Seq<u8>, chunk: int, offset: int)
    requires
        0 <= offset < data.len(),
        0 < chunk,
    ensures
        ({
            let piece = crate::protocol::chunk_at(data, chunk, offset);
            &&& 0 < piece.len() <= chunk
            &&& offset + piece.len() <= data.len()
            &&& piece.len() == chunk || offset + piece.len() == data.len()
            &&& forall|i: int| 0 <= i < piece.len() ==> piece[i] == data[offset + i]
        }),
{
}

// --- What the host makes of an answer -------------------------------------------

/// Only the byte 1 is taken for success. A jump is refused by anything else, a
/// rate declined, and what cannot begin on the card is explained by the code that
/// follows.
pub proof fn what_a_status_means(
    reply: Option<Seq<u8>>,
    addr: u32,
    baud: u32,
    current: u32,
    what: What,
    tries: u32,
)
    requires
        1 <= tries <= 3,
    ensures
        ({
            let got = crate::link::Happening::Got(reply);
            let good = reply == Some(seq![1u8]);
            let jumped = crate::link::respond(crate::link::Stand::ExecStatus { addr }, got).0;
            let (rated, turn) = crate::link::respond(
                crate::link::Stand::BaudStatus { baud, current },
                got,
            );
            let (began, next) = crate::link::respond(
                crate::link::Stand::Started { what, tries },
                got,
            );
            &&& jumped == (crate::link::Stand::Finished {
                result: if good {
                    Ok(Reply::Done)
                } else {
                    Err(Failure::RefusedExec(addr))
                },
            })
            &&& good ==> rated == (crate::link::Stand::BaudSwitch { baud }) && (
            turn.ask matches crate::link::Ask::Switch { baud: to, .. } && to == baud)
            &&& !good ==> rated == (crate::link::Stand::Finished {
                result: Ok(Reply::Baud(current)),
            }) && turn.note == Some(Note::Declined { baud, current })
            &&& good && (what == What::SdList || what == What::SdRead) ==> began == (
            crate::link::Stand::StreamHeader { what }) && next.ask == crate::link::Ask::Read(8)
            &&& good && !(what == What::SdList || what == What::SdRead) ==> began == (
            crate::link::Stand::Finished { result: Ok(Reply::Done) })
            &&& !good && reply is None && tries > 1 ==> began == (crate::link::Stand::Started {
                what,
                tries: (tries - 1) as u32,
            })
            &&& !good && !(reply is None && tries > 1) ==> began == (crate::link::Stand::Explain {
                commit: false,
                what,
            })
        }),
{
    assert(crate::link::is_ok(reply) <==> reply == Some(seq![1u8]));
}

/// The code that follows a failure is what the failure is reported with; where
/// none comes, that is.
pub proof fn what_a_code_explains(commit: bool, what: What, code: u8)
    ensures
        ({
            let state = crate::link::Stand::Explain { commit, what };
            let told = crate::link::respond(state, crate::link::Event::Got(Some(seq![code]))).0;
            let silent = crate::link::respond(state, crate::link::Event::Got(None)).0;
            &&& told == (crate::link::Stand::Finished {
                result: if commit {
                    Err(Failure::NotCommitted(Reason::Code(code)))
                } else {
                    Err(Failure::Command { what, reason: Reason::Code(code) })
                },
            })
            &&& silent == (crate::link::Stand::Finished {
                result: if commit {
                    Err(Failure::NotCommitted(Reason::Timeout))
                } else {
                    Err(Failure::Command { what, reason: Reason::Timeout })
                },
            })
        }),
{
    assert(seq![code][0] == code);
}

/// A chunk that is acknowledged is followed by the next; one that is not is sent
/// again, five times in all, and then given up on.
pub proof fn when_a_chunk_is_sent_again(
    target: Target,
    data: Seq<u8>,
    offset: usize,
    attempt: u32,
    reply: Option<Seq<u8>>,
)
    requires
        offset < data.len() <= usize::MAX,
        1 <= attempt <= 5,
    ensures
        ({
            let (next, turn) = crate::link::respond(
                crate::link::Stand::Chunk { target, data, offset, attempt },
                crate::link::Event::Got(reply),
            );
            let end = if offset + 4096 < data.len() {
                offset + 4096
            } else {
                data.len() as int
            };
            let good = reply == Some(seq![1u8]);
            &&& turn.note == if good {
                Some(Note::Sent { done: end as usize, total: data.len() as usize })
            } else {
                Some(Note::Retrying { offset, attempt })
            }
            &&& next is Chunk ==> turn.check
            &&& next is Chunk || next is Commit ==> turn.ask == crate::link::Ask::Read(1)
            &&& good && end < data.len() ==> next == (crate::link::Stand::Chunk {
                target,
                data,
                offset: end as usize,
                attempt: 1,
            }) && turn.send == crate::protocol::frame(
                crate::protocol::chunk_at(data, 4096, end),
            )
            &&& good && end == data.len() ==> next == (crate::link::Stand::Commit {
                target,
                tries: if target == Target::Memory {
                    1
                } else {
                    3
                },
            }) && turn.send.len() == 0
            &&& !good && attempt < 5 ==> next == (crate::link::Stand::Chunk {
                target,
                data,
                offset,
                attempt: (attempt + 1) as u32,
            }) && turn.send == crate::protocol::frame(
                crate::protocol::chunk_at(data, 4096, offset as int),
            )
            &&& !good && attempt == 5 ==> next == (crate::link::Stand::Finished {
                result: Err(Failure::GaveUp(offset)),
            })
        }),
{
    assert(crate::link::is_ok(reply) <==> reply == Some(seq![1u8]));
}

/// A header or a whole that is accepted is followed by the first chunk or by the
/// end. One that is not fails the write: memory at once, and a file with the code
/// that follows. Silence is waited out only for the card.
pub proof fn how_a_write_begins_and_ends(
    target: Target,
    data: Seq<u8>,
    tries: u32,
    reply: Option<Seq<u8>>,
)
    requires
        1 <= tries <= if target == Target::Memory {
            1u32
        } else {
            3u32
        },
    ensures
        ({
            let got = crate::link::Happening::Got(reply);
            let (began, turn) = crate::link::respond(
                crate::link::Stand::Header { target, data, tries },
                got,
            );
            let ended = crate::link::respond(crate::link::Stand::Commit { target, tries }, got).0;
            let good = reply == Some(seq![1u8]);
            let wait = reply is None && tries > 1;
            &&& good ==> turn.note == Some(Note::Sending) && turn.ask == crate::link::Ask::Read(1)
            &&& good && data.len() > 0 ==> turn.check
            &&& good && data.len() > 0 ==> began == (crate::link::Stand::Chunk {
                target,
                data,
                offset: 0,
                attempt: 1,
            }) && turn.send == crate::protocol::frame(crate::protocol::chunk_at(data, 4096, 0))
            &&& good && data.len() == 0 ==> began is Commit && turn.send.len() == 0
            &&& good ==> ended == (crate::link::Stand::Finished { result: Ok(Reply::Done) })
            &&& wait ==> began is Header && ended is Commit && turn.send.len() == 0
            &&& !good && !wait && target == Target::Memory ==> began == (
            crate::link::Stand::Finished { result: Err(Failure::RejectedHeader) }) && ended == (
            crate::link::Stand::Finished { result: Err(Failure::ChecksumMismatch) })
            &&& !good && !wait && target == Target::File ==> began == (
            crate::link::Stand::Explain { commit: false, what: What::SdWrite }) && ended == (
            crate::link::Stand::Explain { commit: true, what: What::SdWrite })
        }),
{
    assert(crate::link::is_ok(reply) <==> reply == Some(seq![1u8]));
}

/// A stream is its length and chunk size, then chunks. Each that is intact is
/// added to what came before and acknowledged; one that is not is asked for again,
/// five times in all; and silence in the middle ends it.
pub proof fn how_a_stream_is_received(
    what: What,
    total: u32,
    chunk: u32,
    out: Seq<u8>,
    attempt: u32,
    crc: u32,
    bytes: Seq<u8>,
)
    requires
        out.len() < total,
        1 <= attempt <= 5,
        bytes.len() == if total - out.len() < chunk {
            total - out.len()
        } else {
            chunk as int
        },
    ensures
        ({
            let state = crate::link::Stand::StreamData {
                what,
                total,
                chunk,
                out,
                attempt,
                crc: Some(crc),
            };
            let (next, turn) = crate::link::respond(state, crate::link::Event::Got(Some(bytes)));
            let silent = crate::link::respond(state, crate::link::Event::Got(None)).0;
            let good = crate::crc32::crc32(bytes) == crc;
            &&& silent == (crate::link::Stand::Finished { result: Err(Failure::StreamTimeout) })
            &&& good ==> turn.send == seq![1u8]
            &&& good && out.len() + bytes.len() < total ==> next == (
            crate::link::Stand::StreamNext { what, total, chunk, out: out + bytes, attempt: 1 })
            &&& good && out.len() + bytes.len() == total && what != What::SdList ==> next == (
            crate::link::Stand::Finished { result: Ok(Reply::Data(out + bytes)) })
            &&& !good ==> turn.send == seq![0u8] && turn.note == Some(
                Note::BadChunk { offset: out.len() as usize, attempt },
            )
            &&& good ==> turn.note is None
            &&& !good && attempt < 5 ==> next == (crate::link::Stand::StreamNext {
                what,
                total,
                chunk,
                out,
                attempt: (attempt + 1) as u32,
            })
            &&& !good && attempt == 5 ==> next == (crate::link::Stand::Finished {
                result: Err(Failure::GaveUp(out.len() as usize)),
            })
        }),
{
}

/// The header of a stream is read as its length and chunk size, and an empty
/// stream is over at once.
pub proof fn how_a_stream_begins(what: What, header: Seq<u8>)
    requires
        header.len() == 8,
    ensures
        ({
            let state = crate::link::Stand::StreamHeader { what };
            let next = crate::link::respond(state, crate::link::Event::Got(Some(header))).0;
            let silent = crate::link::respond(state, crate::link::Event::Got(None)).0;
            let total = little(header.take(4));
            &&& silent == (crate::link::Stand::Finished { result: Err(Failure::HeaderTimeout) })
            &&& total > 0 ==> (next matches crate::link::Stand::StreamNext {
                what: of,
                total: all,
                chunk,
                out,
                attempt,
            } && of == what && all == total && chunk == little(header.skip(4)) && out.len() == 0
                && attempt == 1)
            &&& total == 0 && what != What::SdList ==> next == (crate::link::Stand::Finished {
                result: Ok(Reply::Data(Seq::empty())),
            })
        }),
{
    crate::rules::lemma_read(header.take(4));
    crate::rules::lemma_read(header.skip(4));
    assert(crate::wire::u32_at(header.take(4), 0) == crate::wire::u32_at(header, 0));
    assert(crate::wire::u32_at(header.skip(4), 0) == crate::wire::u32_at(header, 4));
}

/// What a byte of a greeting does: the device's answer is `LIPR` and a version,
/// what comes before it is shown as far as it prints, and silence is answered by
/// another `RPIL`.
pub proof fn how_a_greeting_is_waited_for(matched: usize, byte: u8)
    requires
        matched < 4,
    ensures
        ({
            let magic = seq![0x4Cu8, 0x49u8, 0x50u8, 0x52u8];
            let state = crate::link::Stand::Greeting { matched };
            let (next, turn) = crate::link::respond(
                state,
                crate::link::Event::Got(Some(seq![byte])),
            );
            let (again, hello) = crate::link::respond(state, crate::link::Event::Got(None));
            &&& again == (crate::link::Stand::Greeting { matched: 0 })
            &&& hello.send == seq![0x52u8, 0x50u8, 0x49u8, 0x4Cu8] && hello.check
            &&& byte == magic[matched as int] && matched == 3 ==> next is Version
            &&& byte == magic[matched as int] && matched < 3 ==> next == (
            crate::link::Stand::Greeting { matched: (matched + 1) as usize }) && turn.show.len()
                == 0
            &&& byte != magic[matched as int] && byte == 0x4C ==> next == (
            crate::link::Stand::Greeting { matched: 1 })
            &&& byte != magic[matched as int] && byte != 0x4C ==> next == (
            crate::link::Stand::Greeting { matched: 0 }) && turn.show == if 0x20 <= byte <= 0x7E
                || byte == 0x0A || byte == 0x0D {
                seq![byte]
            } else {
                Seq::empty()
            }
        }),
        ({
            let version = crate::link::respond(
                crate::link::Stand::Version,
                crate::link::Event::Got(Some(seq![byte])),
            ).0;
            let over = crate::link::respond(
                crate::link::Stand::Greeted { version: byte },
                crate::link::Event::Done,
            ).0;
            &&& version == (crate::link::Stand::Greeted { version: byte })
            &&& over == (crate::link::Stand::Finished { result: Ok(Reply::Version(byte)) })
        }),
{
    assert(seq![byte][0] == byte);
    assert(crate::protocol::HELLO@ =~= seq![0x52u8, 0x50u8, 0x49u8, 0x4Cu8]);
    assert(crate::protocol::ACK@ =~= seq![0x4Cu8, 0x49u8, 0x50u8, 0x52u8]);
}

/// A chunk is awaited checksum first, then as many bytes as a chunk has or are
/// left; a checksum that does not come is remembered as missing.
pub proof fn how_a_chunk_is_awaited(
    what: What,
    total: u32,
    chunk: u32,
    out: Seq<u8>,
    attempt: u32,
    bytes: Seq<u8>,
)
    requires
        out.len() < total,
        bytes.len() == 4,
    ensures
        ({
            let (next, turn) = crate::link::respond(
                crate::link::Stand::StreamNext { what, total, chunk, out, attempt },
                crate::link::Event::Done,
            );
            let state = crate::link::Stand::StreamCrc { what, total, chunk, out, attempt };
            let (told, wait) = crate::link::respond(
                state,
                crate::link::Event::Got(Some(bytes)),
            );
            let (silent, also) = crate::link::respond(state, crate::link::Event::Got(None));
            let len = if total - out.len() < chunk {
                total - out.len()
            } else {
                chunk as int
            };
            &&& next == state && turn.check && turn.ask == crate::link::Ask::Read(4)
            &&& told == (crate::link::Stand::StreamData {
                what,
                total,
                chunk,
                out,
                attempt,
                crc: Some(little(bytes) as u32),
            })
            &&& silent == (crate::link::Stand::StreamData {
                what,
                total,
                chunk,
                out,
                attempt,
                crc: None,
            })
            &&& wait.ask == crate::link::Ask::Read(len as usize) && also.ask
                == crate::link::Ask::Read(len as usize)
        }),
{
    crate::rules::lemma_read(bytes);
}

/// A stream whose checksum never came is over, and a rate that was switched to is
/// the one in effect.
pub proof fn how_a_wait_ends(
    what: What,
    total: u32,
    chunk: u32,
    out: Seq<u8>,
    attempt: u32,
    reply: Option<Seq<u8>>,
    baud: u32,
)
    ensures
        crate::link::respond(
            crate::link::Stand::StreamData { what, total, chunk, out, attempt, crc: None },
            crate::link::Event::Got(reply),
        ).0 == (crate::link::Stand::Finished { result: Err(Failure::StreamTimeout) }),
        crate::link::respond(
            crate::link::Stand::BaudSwitch { baud },
            crate::link::Event::Done,
        ).0 == (crate::link::Stand::Finished { result: Ok(Reply::Baud(baud)) }),
        crate::link::respond(
            crate::link::Stand::Clearing,
            crate::link::Event::Done,
        ).1.send == seq![0x52u8, 0x50u8, 0x49u8, 0x4Cu8],
{
    assert(crate::protocol::HELLO@ =~= seq![0x52u8, 0x50u8, 0x49u8, 0x4Cu8]);
}

/// What a stream that is all there is taken for: a file's contents as they came,
/// and a listing line by line.
pub proof fn what_a_stream_is_taken_for(what: What, out: Seq<u8>)
    ensures
        what != What::SdList ==> crate::link::received(what, out) == Ok::<
            Reply<Seq<u8>, Seq<crate::listing::Item>>,
            Failure<Seq<u8>>,
        >(Reply::Data(out)),
        what == What::SdList ==> match crate::listing::items(
            crate::listing::lines(crate::text::read_as(out)),
        ) {
            Ok(items) => crate::link::received(what, out) == Ok::<
                Reply<Seq<u8>, Seq<crate::listing::Item>>,
                Failure<Seq<u8>>,
            >(Reply::Listing(items)),
            Err(error) => crate::link::received(what, out) == Err::<
                Reply<Seq<u8>, Seq<crate::listing::Item>>,
                Failure<Seq<u8>>,
            >(Failure::Listing(error)),
        },
{
}

} // verus!
