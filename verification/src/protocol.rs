//! What the host and the device agree on: the bytes of the serial protocol.
//!
//! ```text
//! Handshake: host sends HELLO (b"RPIL"); device answers ACK (b"LIPR")
//! plus a version byte. The device answers a fresh HELLO from its command
//! loop too, which is how a new invocation reconnects mid-session. The
//! 4-byte magics (rather than a single byte) keep a boot-time electrical
//! transient from false-matching.
//!
//! Command byte, then per command:
//!   MEM_WRITE  [total,chunk,addr,crc u32 LE] -> OK/FAIL; then chunks
//!              [crc u32][bytes] each OK/FAIL (resend on FAIL); then a
//!              final OK/FAIL for the whole-image CRC.
//!   SET_BAUD   [baud u32 LE] -> device ACKs at the current baud then
//!              switches; host matches on OK.
//!   EXEC       [addr u32 LE] -> OK then the device jumps / FAIL.
//!   SD_LIST    [path] -> OK / FAIL+errcode; on OK a device->host stream.
//!   SD_READ    [path] -> OK / FAIL+errcode; on OK a device->host stream.
//!   SD_WRITE   [path][total,chunk u32 LE] -> OK / FAIL+errcode; on OK
//!              host->device chunks; then a final OK / FAIL+errcode.
//!   SD_DELETE  [path] -> OK / FAIL+errcode.
//!   SD_MKDIR   [path] -> OK / FAIL+errcode.
//!
//! A path is a u16 LE length followed by that many UTF-8 bytes. A
//! device->host stream is [total_len,chunk_size u32 LE] then chunks
//! [crc u32][bytes], each ACKed OK/FAIL by the host (device resends on
//! FAIL) -- the mirror of the host->device chunk flow.
//! ```

use vstd::prelude::*;

verus! {

/// Magic the host sends to open (or reopen) a session: `RPIL`.
pub const HELLO: [u8; 4] = [0x52, 0x50, 0x49, 0x4C];

/// Magic the device answers [`HELLO`] with, followed by a version byte:
/// `LIPR`.
pub const ACK: [u8; 4] = [0x4C, 0x49, 0x50, 0x52];

/// The protocol version spoken here.
pub const PROTOCOL_VERSION: u8 = 2;

/// Status byte meaning that the last thing sent was accepted.
pub const OK: u8 = 1;

/// Status byte meaning that it was not.
pub const FAIL: u8 = 0;

/// Payload bytes per chunk, in both directions.
pub const CHUNK_SIZE: usize = 4096;

/// Write a blob to a memory address (no jump).
pub const CMD_MEM_WRITE: u8 = 1;

/// Switch the link to a different baud.
pub const CMD_SET_BAUD: u8 = 2;

/// Jump to an address already in memory.
pub const CMD_EXEC: u8 = 3;

/// List a directory on the SD card's FAT boot partition.
pub const CMD_SD_LIST: u8 = 4;

/// Stream a file off the SD card.
pub const CMD_SD_READ: u8 = 5;

/// Stream a file onto the SD card.
pub const CMD_SD_WRITE: u8 = 6;

/// Delete a file from the SD card.
pub const CMD_SD_DELETE: u8 = 7;

/// Create a directory on the SD card.
pub const CMD_SD_MKDIR: u8 = 8;

/// The card could not be brought up.
pub const ERR_SD_INIT: u8 = 1;

/// No such file or directory.
pub const ERR_NOT_FOUND: u8 = 2;

/// The filesystem failed, or the request does not suit it.
pub const ERR_FS: u8 = 3;

/// The directory listing is too large.
pub const ERR_TOO_LARGE: u8 = 4;

/// The path is too long, not UTF-8, or names nothing.
pub const ERR_BAD_PATH: u8 = 5;

/// The file could not be written or committed.
pub const ERR_WRITE: u8 = 6;

/// Baud the handshake and terminal always run at. The bulk transfers
/// negotiate up from here and drop back before returning.
pub const BASE_BAUD: u32 = 115_200;

/// Default transfer baud: an exact divisor of the UART's clock, and about
/// thirteen times faster than the base rate.
pub const DEFAULT_BAUD: u32 = 1_500_000;

// --- Chunks ---------------------------------------------------------------

/// A chunk on the wire: its checksum, then its bytes.
pub open spec fn frame(chunk: Seq<u8>) -> Seq<u8> {
    crate::wire::u32_bytes(crate::crc32::crc32(chunk)) + chunk
}

/// Whether bytes on the wire are a chunk that arrived intact.
pub open spec fn is_intact(bytes: Seq<u8>) -> bool {
    bytes.len() >= 4 && crate::wire::u32_at(bytes, 0) == crate::crc32::crc32(bytes.skip(4))
}

/// How long the chunk at `offset` of `total` bytes is.
pub open spec fn chunk_len(total: int, chunk: int, offset: int) -> int {
    if total - offset < chunk {
        total - offset
    } else {
        chunk
    }
}

/// The chunk of `data` at `offset`.
pub open spec fn chunk_at(data: Seq<u8>, chunk: int, offset: int) -> Seq<u8> {
    data.subrange(offset, offset + chunk_len(data.len() as int, chunk, offset))
}

/// A chunk that is framed is intact, and carries the chunk.
pub proof fn a_frame_is_intact(chunk: Seq<u8>)
    ensures
        is_intact(frame(chunk)),
        frame(chunk).skip(4) == chunk,
        frame(chunk).len() == 4 + chunk.len(),
{
    let crc = crate::wire::u32_bytes(crate::crc32::crc32(chunk));
    crate::wire::u32_read_undoes_write(crate::crc32::crc32(chunk));
    assert(frame(chunk).skip(4) =~= chunk);
    assert(frame(chunk)[0] == crc[0] && frame(chunk)[1] == crc[1] && frame(chunk)[2] == crc[2]
        && frame(chunk)[3] == crc[3]);
}

/// A framed chunk with one damaged byte, in the data or in the checksum, is
/// not intact.
pub proof fn a_damaged_frame_is_not_intact(chunk: Seq<u8>, at: int, byte: u8)
    requires
        0 <= at < frame(chunk).len(),
        frame(chunk)[at] != byte,
    ensures
        !is_intact(frame(chunk).update(at, byte)),
{
    a_frame_is_intact(chunk);
    let good = frame(chunk);
    let bad = good.update(at, byte);
    if at < 4 {
        assert(bad.skip(4) =~= chunk);
        crate::wire::u32_write_undoes_read(good.take(4));
        crate::wire::u32_write_undoes_read(bad.take(4));
        assert(crate::wire::u32_at(good.take(4), 0) == crate::wire::u32_at(good, 0));
        assert(crate::wire::u32_at(bad.take(4), 0) == crate::wire::u32_at(bad, 0));
        assert(good.take(4)[at] != bad.take(4)[at]);
    } else {
        assert(bad.skip(4) =~= chunk.update(at - 4, byte));
        assert(chunk[at - 4] == good[at]);
        crate::crc32::one_damaged_byte_changes_the_checksum(chunk, at - 4, byte);
    }
}

/// Whether bytes on the wire are a chunk that arrived intact, by the
/// checksum the device computes.
pub fn check_frame(bytes: &[u8]) -> (res: bool)
    ensures
        res == is_intact(bytes@),
{
    if bytes.len() < 4 {
        return false;
    }
    let data = crate::text::part(bytes, 4, bytes.len());
    proof {
        assert(data@ =~= bytes@.skip(4));
    }
    crate::wire::read_u32(bytes, 0) == crate::crc32::crc32_of(data)
}

// --- Paths ----------------------------------------------------------------

/// A path argument on the wire.
pub open spec fn path_bytes(path: Seq<u8>) -> Seq<u8> {
    crate::wire::u16_bytes(path.len() as u16) + path
}

// --- Scanning for a magic -------------------------------------------------

/// How much of `magic` has been matched after `byte`, if `matched` bytes of
/// it had been before.
pub open spec fn scan_byte(magic: Seq<u8>, matched: int, byte: u8) -> int {
    if byte == magic[matched] {
        matched + 1
    } else if byte == magic[0] {
        1
    } else {
        0
    }
}

/// How much of `magic` has been matched after `bytes`.
pub open spec fn scan(magic: Seq<u8>, bytes: Seq<u8>) -> int
    decreases bytes.len(),
{
    if bytes.len() == 0 {
        0
    } else {
        scan_byte(magic, scan(magic, bytes.drop_last()), bytes.last())
    }
}

/// Whether `bytes` end with the first `n` bytes of `magic`.
pub open spec fn ends_with(bytes: Seq<u8>, magic: Seq<u8>, n: int) -> bool {
    &&& 0 <= n <= magic.len()
    &&& n <= bytes.len()
    &&& bytes.skip(bytes.len() - n) == magic.take(n)
}

/// Whether no byte occurs twice.
pub open spec fn all_distinct(magic: Seq<u8>) -> bool {
    forall|i: int, j: int| 0 <= i < j < magic.len() ==> magic[i] != magic[j]
}

/// The match-or-reset scan finds a magic of distinct bytes wherever it first
/// occurs, whatever noise comes before: as long as the magic has not occurred,
/// the scan has matched exactly the longest piece of it that the input ends
/// with. So no table of shorter matches to fall back on is needed.
pub proof fn a_scan_matches_the_longest_piece(magic: Seq<u8>, bytes: Seq<u8>)
    requires
        magic.len() > 0,
        all_distinct(magic),
        forall|k: int|
            0 <= k < bytes.len() ==> !#[trigger] ends_with(
                bytes.take(k),
                magic,
                magic.len() as int,
            ),
    ensures
        0 <= scan(magic, bytes) <= magic.len(),
        ends_with(bytes, magic, scan(magic, bytes)),
        forall|n: int| scan(magic, bytes) < n <= magic.len() ==> !ends_with(bytes, magic, n),
        scan(magic, bytes) == magic.len() <==> ends_with(bytes, magic, magic.len() as int),
    decreases bytes.len(),
{
    if bytes.len() == 0 {
        assert(bytes.skip(0) =~= magic.take(0));
    } else {
        let fewer = bytes.drop_last();
        let byte = bytes.last();
        assert forall|k: int| 0 <= k < fewer.len() implies !#[trigger] ends_with(
            fewer.take(k),
            magic,
            magic.len() as int,
        ) by {
            assert(fewer.take(k) =~= bytes.take(k));
            assert(!ends_with(bytes.take(k), magic, magic.len() as int));
        }
        a_scan_matches_the_longest_piece(magic, fewer);
        assert(bytes.take(bytes.len() - 1) =~= fewer);
        assert(!ends_with(bytes.take(bytes.len() - 1), magic, magic.len() as int));
        let m = scan(magic, fewer);
        assert(m < magic.len());
        let after = scan(magic, bytes);
        // Ending with n + 1 bytes of the magic means that the rest ended with
        // n of them.
        assert forall|n: int| 0 < n <= magic.len() && ends_with(bytes, magic, n) implies ends_with(
            fewer,
            magic,
            n - 1,
        ) && byte == magic[n - 1] by {
            let tail = bytes.skip(bytes.len() - n);
            assert(tail[n - 1] == byte);
            assert(fewer.skip(fewer.len() - (n - 1)) =~= tail.drop_last());
            assert(magic.take(n).drop_last() =~= magic.take(n - 1));
        }
        if byte == magic[m] {
            assert(bytes.skip(bytes.len() - (m + 1)) =~= fewer.skip(fewer.len() - m).push(byte));
            assert(magic.take(m + 1) =~= magic.take(m).push(magic[m]));
        } else if byte == magic[0] {
            assert(bytes.skip(bytes.len() - 1) =~= seq![byte]);
            assert(magic.take(1) =~= seq![magic[0]]);
        } else {
            assert(bytes.skip(bytes.len() - 0) =~= magic.take(0));
        }
        assert forall|n: int| after < n <= magic.len() implies !ends_with(bytes, magic, n) by {
            if ends_with(bytes, magic, n) {
                assert(ends_with(fewer, magic, n - 1));
                if n - 1 > m {
                    assert(false);
                }
                // The input ended with m bytes of the magic and with n - 1
                // fewer-or-equal ones; their last bytes agree only where the
                // lengths do.
                if 0 < n - 1 && n - 1 < m {
                    let x = fewer.skip(fewer.len() - m);
                    let y = fewer.skip(fewer.len() - (n - 1));
                    assert(x[m - 1] == fewer.last());
                    assert(y[n - 2] == fewer.last());
                    assert(magic.take(m)[m - 1] == magic[m - 1]);
                    assert(magic.take(n - 1)[n - 2] == magic[n - 2]);
                }
            }
        }
    }
}

/// Both magics are made of distinct bytes, and each is the other reversed.
pub proof fn the_magics_suit_the_scan()
    ensures
        all_distinct(HELLO@),
        all_distinct(ACK@),
        ACK@ == HELLO@.reverse(),
{
    assert(ACK@ =~= HELLO@.reverse());
}

/// One step of the scan for a magic.
pub fn scan_next(magic: &[u8; 4], matched: usize, byte: u8) -> (res: usize)
    requires
        matched < 4,
    ensures
        res == scan_byte(magic@, matched as int, byte),
        res <= 4,
{
    if byte == magic[matched] {
        matched + 1
    } else if byte == magic[0] {
        1
    } else {
        0
    }
}

} // verus!
