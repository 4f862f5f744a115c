//! What follows from the definition of a bundle.

use vstd::prelude::*;

use crate::bundle::{Error, Format};
use crate::layout::EntryView;

verus! {

/// A successful walk finds as many entries as it was asked for.
pub proof fn lemma_walk_counts(rest: Seq<u8>, count: nat)
    ensures
        crate::layout::walk(rest, count) matches Ok((entries, _)) ==> entries.len() == count,
    decreases count,
{
    if count > 0 {
        if let Ok((entry, next)) = crate::layout::split(rest) {
            lemma_walk_counts(next, (count - 1) as nat);
        }
    }
}

/// Where nothing is oversize, everything fits.
pub proof fn lemma_oversize(entries: Seq<EntryView>)
    ensures
        crate::layout::oversize(entries) is None <==> forall|i: int|
            0 <= i < entries.len() ==> crate::layout::fits(#[trigger] entries[i]),
    decreases entries.len(),
{
    if entries.len() > 0 {
        let rest = entries.skip(1);
        lemma_oversize(rest);
        assert forall|i: int|
            0 <= i < entries.len() && crate::layout::oversize(
                entries,
            ) is None implies crate::layout::fits(#[trigger] entries[i]) by {
            if i > 0 {
                assert(entries[i] == rest[i - 1]);
            }
        }
        if forall|i: int| 0 <= i < entries.len() ==> crate::layout::fits(#[trigger] entries[i]) {
            assert(crate::layout::fits(entries[0]));
            assert forall|i: int| 0 <= i < rest.len() implies crate::layout::fits(
                #[trigger] rest[i],
            ) by {
                assert(crate::layout::fits(entries[i + 1]));
            }
        }
    }
}

/// Entries are written one after another.
pub proof fn lemma_entries_bytes_push(entries: Seq<EntryView>, entry: EntryView)
    ensures
        crate::layout::entries_bytes(entries.push(entry)) == crate::layout::entries_bytes(entries)
            + crate::layout::entry_bytes(entry),
    decreases entries.len(),
{
    if entries.len() == 0 {
        assert(entries.push(entry).skip(1) =~= Seq::empty());
        assert(crate::layout::entries_bytes(entries.push(entry).skip(1)) =~= Seq::empty());
    } else {
        lemma_entries_bytes_push(entries.skip(1), entry);
        assert(entries.push(entry).skip(1) =~= entries.skip(1).push(entry));
    }
}

/// Joining sequences is associative.
proof fn lemma_joined(a: Seq<u8>, b: Seq<u8>, c: Seq<u8>)
    ensures
        (a + b) + c == a + (b + c),
{
    assert((a + b) + c =~= a + (b + c));
}

/// Splitting what an entry was written as gives the entry back.
proof fn lemma_split_undoes_entry_bytes(entry: EntryView, tail: Seq<u8>)
    requires
        crate::layout::fits(entry),
        vstd::utf8::valid_utf8(entry.path),
    ensures
        crate::layout::split(crate::layout::entry_bytes(entry) + tail) == Ok::<
            (EntryView, Seq<u8>),
            Error,
        >((entry, tail)),
{
    let size = crate::wire::u32_bytes(entry.data.len() as u32);
    let rest = crate::layout::entry_bytes(entry) + tail;
    let n = entry.path.len() as int;
    assert(rest[0] == crate::layout::role_byte(entry.role));
    assert(rest[1] == entry.path.len() as u8);
    assert(rest.subrange(2, 2 + n) =~= entry.path);
    let after = rest.skip(2 + n);
    assert(after =~= size + entry.data + tail);
    assert(after[0] == size[0] && after[1] == size[1] && after[2] == size[2] && after[3]
        == size[3]);
    crate::wire::u32_read_undoes_write(entry.data.len() as u32);
    assert(crate::wire::u32_at(after, 0) == entry.data.len() as u32);
    assert(after.subrange(4, 4 + entry.data.len() as int) =~= entry.data);
    assert(after.skip(4 + entry.data.len() as int) =~= tail);
}

/// Walking what entries were written as gives the entries back.
#[verifier::rlimit(30)]
pub proof fn lemma_walk_undoes_entries_bytes(entries: Seq<EntryView>, tail: Seq<u8>)
    requires
        forall|i: int|
            0 <= i < entries.len() ==> crate::layout::fits(#[trigger] entries[i])
                && vstd::utf8::valid_utf8(entries[i].path),
    ensures
        crate::layout::walk(crate::layout::entries_bytes(entries) + tail, entries.len()) == Ok::<
            (Seq<EntryView>, Seq<u8>),
            Error,
        >((entries, tail)),
    decreases entries.len(),
{
    if entries.len() == 0 {
        assert(crate::layout::entries_bytes(entries) + tail =~= tail);
        assert(entries =~= Seq::empty());
    } else {
        let others = entries.skip(1);
        assert forall|i: int| 0 <= i < others.len() implies crate::layout::fits(
            #[trigger] others[i],
        ) && vstd::utf8::valid_utf8(others[i].path) by {
            assert(others[i] == entries[i + 1]);
        }
        lemma_walk_undoes_entries_bytes(others, tail);
        lemma_split_undoes_entry_bytes(
            entries.first(),
            crate::layout::entries_bytes(others) + tail,
        );
        lemma_joined(
            crate::layout::entry_bytes(entries.first()),
            crate::layout::entries_bytes(others),
            tail,
        );
        assert(seq![entries.first()] + others =~= entries);
    }
}

/// An entry that was split off was written as the bytes it came from.
proof fn lemma_entry_bytes_undoes_split(rest: Seq<u8>)
    ensures
        crate::layout::split(rest) matches Ok((entry, next)) ==> {
            &&& rest == crate::layout::entry_bytes(entry) + next
            &&& crate::layout::fits(entry)
            &&& vstd::utf8::valid_utf8(entry.path)
        },
{
    if let Ok((entry, next)) = crate::layout::split(rest) {
        let n = rest[1] as int;
        let after = rest.skip(2 + n);
        crate::wire::u32_write_undoes_read(after.take(4));
        assert(crate::wire::u32_at(after.take(4), 0) == crate::wire::u32_at(after, 0));
        assert(after =~= after.take(4) + entry.data + next);
        assert(rest =~= seq![rest[0], rest[1]] + entry.path + after);
        assert(rest =~= crate::layout::entry_bytes(entry) + next);
    }
}

/// Entries that were walked were written as the bytes they came from.
proof fn lemma_entries_bytes_undoes_walk(rest: Seq<u8>, count: nat)
    ensures
        crate::layout::walk(rest, count) matches Ok((entries, slack)) ==> {
            &&& rest == crate::layout::entries_bytes(entries) + slack
            &&& entries.len() == count
            &&& forall|i: int|
                0 <= i < entries.len() ==> crate::layout::fits(#[trigger] entries[i])
                    && vstd::utf8::valid_utf8(entries[i].path)
        },
    decreases count,
{
    if count == 0 {
        assert(crate::layout::entries_bytes(Seq::empty()) + rest =~= rest);
    } else {
        lemma_entry_bytes_undoes_split(rest);
        if let Ok((entry, next)) = crate::layout::split(rest) {
            lemma_entries_bytes_undoes_walk(next, (count - 1) as nat);
            if let Ok((others, slack)) = crate::layout::walk(next, (count - 1) as nat) {
                let entries = seq![entry] + others;
                assert(entries.first() == entry);
                assert(entries.skip(1) =~= others);
                lemma_joined(
                    crate::layout::entry_bytes(entry),
                    crate::layout::entries_bytes(others),
                    slack,
                );
                assert forall|i: int| 0 <= i < entries.len() implies crate::layout::fits(
                    #[trigger] entries[i],
                ) && vstd::utf8::valid_utf8(entries[i].path) by {
                    if i > 0 {
                        assert(entries[i] == others[i - 1]);
                    }
                }
            }
        }
    }
}

/// The parts of a bundle stand where reading looks for them.
proof fn lemma_bundle_bytes_parts(magic: Seq<u8>, reserved: u8, entries: Seq<EntryView>)
    requires
        magic.len() == 4,
        entries.len() <= u16::MAX,
    ensures
        ({
            let bytes = crate::layout::bundle_bytes(magic, reserved, entries);
            let end = bytes.len() - crate::bundle::TRAILER_LEN;
            &&& bytes.len() >= crate::bundle::MIN_LEN
            &&& bytes.take(4) == magic
            &&& bytes[4] == crate::bundle::VERSION
            &&& bytes.take(end) == crate::layout::body_bytes(magic, reserved, entries)
            &&& crate::wire::u32_at(bytes, end) == crate::crc32::crc32(bytes.take(end))
            &&& crate::wire::u16_at(bytes, 6) == entries.len()
            &&& bytes.subrange(crate::bundle::HEADER_LEN as int, end)
                == crate::layout::entries_bytes(entries)
        }),
{
    let body = crate::layout::body_bytes(magic, reserved, entries);
    let bytes = crate::layout::bundle_bytes(magic, reserved, entries);
    let end = bytes.len() - crate::bundle::TRAILER_LEN;
    let crc = crate::wire::u32_bytes(crate::crc32::crc32(body));
    let count = crate::wire::u16_bytes(entries.len() as u16);
    assert(bytes.take(end) =~= body);
    assert(bytes.take(4) =~= magic);
    crate::wire::u32_read_undoes_write(crate::crc32::crc32(body));
    assert(bytes[end] == crc[0] && bytes[end + 1] == crc[1] && bytes[end + 2] == crc[2] && bytes[end
        + 3] == crc[3]);
    crate::wire::u16_read_undoes_write(entries.len() as u16);
    assert(bytes[6] == count[0] && bytes[7] == count[1]);
    assert(bytes.subrange(crate::bundle::HEADER_LEN as int, end) =~= crate::layout::entries_bytes(
        entries,
    ));
}

/// What is encoded parses back: reading a bundle that was built gives exactly
/// the entries it was built from, in their order. In particular nothing can be
/// built that the same format's reader would reject.
pub proof fn what_is_encoded_parses_back(format: Format, entries: Seq<EntryView>)
    requires
        forall|i: int|
            0 <= i < entries.len() ==> vstd::utf8::valid_utf8(#[trigger] entries[i].path),
    ensures
        crate::layout::encoded(format, entries) matches Ok(bytes) ==> crate::layout::decoded(
            format,
            bytes,
        ) == Ok::<Seq<EntryView>, Error>(entries),
{
    if let Ok(bytes) = crate::layout::encoded(format, entries) {
        lemma_oversize(entries);
        lemma_bundle_bytes_parts(format.magic@, 0, entries);
        assert forall|i: int| 0 <= i < entries.len() implies crate::layout::fits(
            #[trigger] entries[i],
        ) && vstd::utf8::valid_utf8(entries[i].path) by {
            assert(vstd::utf8::valid_utf8(entries[i].path));
        }
        lemma_walk_undoes_entries_bytes(entries, Seq::empty());
        assert(crate::layout::entries_bytes(entries) + Seq::<u8>::empty()
            =~= crate::layout::entries_bytes(entries));
    }
}

proof fn lemma_joined_empty(a: Seq<u8>, b: Seq<u8>)
    requires
        b.len() == 0,
    ensures
        a + b == a,
{
    assert(a + b =~= a);
}

/// A long enough run of bytes, cut where reading cuts it.
proof fn lemma_bytes_in_parts(bytes: Seq<u8>)
    requires
        bytes.len() >= crate::bundle::MIN_LEN,
    ensures
        ({
            let end = bytes.len() - crate::bundle::TRAILER_LEN;
            &&& bytes.take(end) == bytes.take(4) + seq![bytes[4], bytes[5]] + bytes.subrange(6, 8)
                + bytes.subrange(crate::bundle::HEADER_LEN as int, end)
            &&& bytes == bytes.take(end) + bytes.skip(end)
        }),
{
    let end = bytes.len() - crate::bundle::TRAILER_LEN;
    assert(bytes.take(end) =~= bytes.take(4) + seq![bytes[4], bytes[5]] + bytes.subrange(6, 8)
        + bytes.subrange(crate::bundle::HEADER_LEN as int, end));
    assert(bytes =~= bytes.take(end) + bytes.skip(end));
}

/// The bytes that entries were walked from, put together again.
proof fn lemma_rebuilt(bytes: Seq<u8>, entries: Seq<EntryView>, slack: Seq<u8>)
    requires
        bytes.len() >= crate::bundle::MIN_LEN,
        bytes[4] == crate::bundle::VERSION,
        crate::crc32::crc32(bytes.take(bytes.len() - crate::bundle::TRAILER_LEN))
            == crate::wire::u32_at(bytes, bytes.len() - crate::bundle::TRAILER_LEN),
        crate::layout::walk(
            bytes.subrange(
                crate::bundle::HEADER_LEN as int,
                bytes.len() - crate::bundle::TRAILER_LEN,
            ),
            crate::wire::u16_at(bytes, 6) as nat,
        ) == Ok::<(Seq<EntryView>, Seq<u8>), Error>((entries, slack)),
        slack.len() == 0,
    ensures
        bytes == crate::layout::bundle_bytes(bytes.take(4), bytes[5], entries),
        entries.len() == crate::wire::u16_at(bytes, 6),
        crate::layout::oversize(entries) is None,
{
    let end = bytes.len() - crate::bundle::TRAILER_LEN;
    let count = crate::wire::u16_at(bytes, 6);
    let region = bytes.subrange(crate::bundle::HEADER_LEN as int, end);
    lemma_entries_bytes_undoes_walk(region, count as nat);
    lemma_oversize(entries);
    lemma_joined_empty(crate::layout::entries_bytes(entries), slack);
    let count_bytes = bytes.subrange(6, 8);
    crate::wire::u16_write_undoes_read(count_bytes);
    assert(crate::wire::u16_at(count_bytes, 0) == count);
    let crc_bytes = bytes.skip(end);
    crate::wire::u32_write_undoes_read(crc_bytes);
    assert(crate::wire::u32_at(crc_bytes, 0) == crate::wire::u32_at(bytes, end));
    lemma_bytes_in_parts(bytes);
}

/// What parses encodes back: the entries of a bundle that was read can be
/// built again, and the bytes are the ones that were read but for the reserved
/// byte, which building always writes as zero.
pub proof fn what_parses_encodes_back(format: Format, bytes: Seq<u8>)
    ensures
        crate::layout::decoded(format, bytes) matches Ok(entries) ==> {
            &&& crate::layout::encoded(format, entries) == Ok::<Seq<u8>, Error>(
                crate::layout::bundle_bytes(format.magic@, 0, entries),
            )
            &&& bytes == crate::layout::bundle_bytes(format.magic@, bytes[5], entries)
        },
{
    if let Ok(entries) = crate::layout::decoded(format, bytes) {
        let region = bytes.subrange(
            crate::bundle::HEADER_LEN as int,
            bytes.len() - crate::bundle::TRAILER_LEN,
        );
        let walked = crate::layout::walk(region, crate::wire::u16_at(bytes, 6) as nat);
        lemma_rebuilt(bytes, entries, walked->Ok_0.1);
    }
}

/// A bundle with one damaged byte, wherever it is, is refused: by the magic or
/// the version where the damage is there, and by the checksum everywhere else.
pub proof fn one_damaged_byte_is_refused(format: Format, bytes: Seq<u8>, at: int, byte: u8)
    requires
        crate::layout::decoded(format, bytes) is Ok,
        0 <= at < bytes.len(),
        bytes[at] != byte,
    ensures
        crate::layout::decoded(format, bytes.update(at, byte)) == Err::<Seq<EntryView>, Error>(
            if at < 4 {
                Error::BadMagic
            } else if at == 4 {
                Error::BadVersion(byte)
            } else {
                Error::BadChecksum
            },
        ),
{
    let damaged = bytes.update(at, byte);
    let end = bytes.len() - crate::bundle::TRAILER_LEN;
    if at < 4 {
        assert(damaged.take(4)[at] != bytes.take(4)[at]);
    } else {
        assert(damaged.take(4) =~= bytes.take(4));
        if at < end {
            assert(damaged.take(end) =~= bytes.take(end).update(at, byte));
            crate::crc32::one_damaged_byte_changes_the_checksum(bytes.take(end), at, byte);
            assert(crate::wire::u32_at(damaged, end) == crate::wire::u32_at(bytes, end));
        } else {
            assert(damaged.take(end) =~= bytes.take(end));
            let good = bytes.skip(end);
            let bad = damaged.skip(end);
            crate::wire::u32_write_undoes_read(good);
            crate::wire::u32_write_undoes_read(bad);
            assert(crate::wire::u32_at(good, 0) == crate::wire::u32_at(bytes, end));
            assert(crate::wire::u32_at(bad, 0) == crate::wire::u32_at(damaged, end));
            assert(good[at - end] != bad[at - end]);
        }
    }
}

/// A bundle whose checksum does not match is refused for that, whatever its
/// entries look like.
pub proof fn the_checksum_is_checked_before_the_entries(format: Format, bytes: Seq<u8>)
    requires
        bytes.len() >= crate::bundle::MIN_LEN,
        bytes.take(4) == format.magic@,
        bytes[4] == crate::bundle::VERSION,
        crate::crc32::crc32(bytes.take(bytes.len() - crate::bundle::TRAILER_LEN))
            != crate::wire::u32_at(bytes, bytes.len() - crate::bundle::TRAILER_LEN),
    ensures
        crate::layout::decoded(format, bytes) == Err::<Seq<EntryView>, Error>(Error::BadChecksum),
{
}

/// A bundle built for one application is refused by every other.
pub proof fn another_applications_bundle_is_rejected(
    ours: Format,
    theirs: Format,
    entries: Seq<EntryView>,
)
    requires
        ours.magic@ != theirs.magic@,
    ensures
        crate::layout::encoded(theirs, entries) matches Ok(bytes) ==> crate::layout::decoded(
            ours,
            bytes,
        ) == Err::<Seq<EntryView>, Error>(Error::BadMagic),
{
    if let Ok(bytes) = crate::layout::encoded(theirs, entries) {
        lemma_bundle_bytes_parts(theirs.magic@, 0, entries);
    }
}

/// Every path of a bundle that was read stays inside the volume: it is
/// relative, and no component is empty, `.` or `..`. No two paths are the
/// same, and at most one entry is the kernel and at most one the
/// configuration.
pub proof fn what_parses_obeys_the_rules(format: Format, bytes: Seq<u8>)
    ensures
        crate::layout::decoded(format, bytes) matches Ok(entries) ==> {
            &&& 0 < entries.len() <= format.max_entries
            &&& forall|i: int|
                0 <= i < entries.len() ==> crate::layout::is_relative_path(
                    #[trigger] entries[i].path,
                )
            &&& forall|i: int, j: int|
                0 <= i < j < entries.len() ==> #[trigger] entries[i].path
                    != #[trigger] entries[j].path
            &&& !crate::layout::repeats_role(entries, crate::bundle::Role::Kernel)
            &&& !crate::layout::repeats_role(entries, crate::bundle::Role::Config)
            &&& forall|i: int|
                0 <= i < entries.len() ==> crate::layout::is_paired(entries, #[trigger] entries[i])
        },
{
    if let Ok(entries) = crate::layout::decoded(format, bytes) {
        lemma_walk_counts(
            bytes.subrange(
                crate::bundle::HEADER_LEN as int,
                bytes.len() - crate::bundle::TRAILER_LEN,
            ),
            crate::wire::u16_at(bytes, 6) as nat,
        );
    }
}

/// No more entries are ever read than the count field can hold.
pub proof fn lemma_decoded_counts(format: Format, bytes: Seq<u8>)
    ensures
        crate::layout::decoded(format, bytes) matches Ok(entries) ==> entries.len() <= u16::MAX,
{
    if let Ok(entries) = crate::layout::decoded(format, bytes) {
        lemma_walk_counts(
            bytes.subrange(
                crate::bundle::HEADER_LEN as int,
                bytes.len() - crate::bundle::TRAILER_LEN,
            ),
            crate::wire::u16_at(bytes, 6) as nat,
        );
    }
}

/// A role survives its wire byte, and no other byte names one.
pub proof fn roles_round_trip(role: crate::bundle::Role, byte: u8)
    ensures
        crate::layout::byte_role(crate::layout::role_byte(role)) == Some(role),
        crate::layout::byte_role(byte) matches Some(named) ==> crate::layout::role_byte(named)
            == byte,
        crate::layout::byte_role(byte) is None <==> byte > 3,
{
}

} // verus!
