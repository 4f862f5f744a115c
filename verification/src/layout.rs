//! What a bundle is: its bytes, the rules its entries obey, and what reading
//! and building one amount to.
//!
//! Everything here is specification. [`crate::bundle`] holds the code that
//! meets it and [`crate::laws`] what follows from it.
//!
//! Little-endian throughout.
//!
//! ```text
//! magic   : 4 bytes             per-application; see `Format`
//! version : u8      = 2
//! reserved: u8      = 0
//! count   : u16                 number of entries
//! entries : count x {
//!             role    : u8      see `Role`
//!             path_len: u8
//!             path    : [u8; path_len]
//!             size    : u32
//!             data    : [u8; size]
//!           }
//! crc32   : u32                 CRC-32 over every preceding byte
//! ```

use vstd::prelude::*;

use crate::bundle::{Error, Format, Role, HEADER_LEN, MIN_LEN, TRAILER_LEN, VERSION};

verus! {

/// An entry as a value: its role, the UTF-8 bytes of its path, its contents.
#[verifier::ext_equal]
pub struct EntryView {
    /// How the device should treat it.
    pub role: Role,
    /// The path's bytes.
    pub path: Seq<u8>,
    /// The file's contents.
    pub data: Seq<u8>,
}

// --- Paths ---------------------------------------------------------------

/// Whether `path[start..end]` is one component of `path`: a stretch without a
/// separator, between separators or the ends.
pub open spec fn is_component(path: Seq<u8>, start: int, end: int) -> bool {
    &&& 0 <= start <= end <= path.len()
    &&& start == 0 || path[start - 1] == 0x2F
    &&& end == path.len() || path[end] == 0x2F
    &&& forall|k: int| start <= k < end ==> path[k] != 0x2F
}

/// Whether a component names something: not empty, not `.` and not `..`.
pub open spec fn is_plain_name(name: Seq<u8>) -> bool {
    &&& name.len() > 0
    &&& name != seq![0x2Eu8]
    &&& name != seq![0x2Eu8, 0x2Eu8]
}

/// Whether `path` is a plain relative path: no backslash, and every component
/// a plain name. An empty path has one component, which is empty, and an
/// absolute one begins with such a component.
pub open spec fn is_relative_path(path: Seq<u8>) -> bool {
    &&& forall|k: int| 0 <= k < path.len() ==> path[k] != 0x5C
    &&& forall|start: int, end: int| #[trigger]
        is_component(path, start, end) ==> is_plain_name(path.subrange(start, end))
}

/// Where the last component of `path` begins.
pub open spec fn basename_start(path: Seq<u8>) -> int
    decreases path.len(),
{
    if path.len() == 0 || path.last() == 0x2F {
        path.len() as int
    } else {
        basename_start(path.drop_last())
    }
}

/// The last component of `path`.
pub open spec fn basename_of(path: Seq<u8>) -> Seq<u8> {
    path.skip(basename_start(path))
}

// --- Names as FAT compares them -----------------------------------------

/// An ASCII letter in lower case; anything else as it is.
pub open spec fn lower(byte: u8) -> u8 {
    if 0x41 <= byte <= 0x5A {
        (byte + 0x20) as u8
    } else {
        byte
    }
}

/// Equality up to the case of ASCII letters.
pub open spec fn same_name(a: Seq<u8>, b: Seq<u8>) -> bool {
    &&& a.len() == b.len()
    &&& forall|i: int| 0 <= i < a.len() ==> lower(#[trigger] a[i]) == lower(b[i])
}

/// Whether `name` is `<prefix><middle><suffix>`.
pub open spec fn is_around(name: Seq<u8>, prefix: Seq<u8>, suffix: Seq<u8>) -> bool {
    &&& name.len() >= prefix.len() + suffix.len()
    &&& same_name(name.take(prefix.len() as int), prefix)
    &&& same_name(name.skip(name.len() - suffix.len()), suffix)
}

/// The middle of `<prefix><middle><suffix>`.
pub open spec fn middle(name: Seq<u8>, prefix: Seq<u8>, suffix: Seq<u8>) -> Seq<u8> {
    name.subrange(prefix.len() as int, name.len() - suffix.len())
}

/// `start`
pub open spec fn start_prefix() -> Seq<u8> {
    seq![0x73u8, 0x74u8, 0x61u8, 0x72u8, 0x74u8]
}

/// `.elf`
pub open spec fn start_suffix() -> Seq<u8> {
    seq![0x2Eu8, 0x65u8, 0x6Cu8, 0x66u8]
}

/// `fixup`
pub open spec fn fixup_prefix() -> Seq<u8> {
    seq![0x66u8, 0x69u8, 0x78u8, 0x75u8, 0x70u8]
}

/// `.dat`
pub open spec fn fixup_suffix() -> Seq<u8> {
    seq![0x2Eu8, 0x64u8, 0x61u8, 0x74u8]
}

// --- Rules about a set of entries ---------------------------------------

/// Whether two entries want the same path.
pub open spec fn shares_a_path(entries: Seq<EntryView>) -> bool {
    exists|i: int, j: int|
        0 <= i < j < entries.len() && #[trigger] entries[i].path == #[trigger] entries[j].path
}

/// Whether two entries claim `role`.
pub open spec fn repeats_role(entries: Seq<EntryView>, role: Role) -> bool {
    exists|i: int, j: int|
        0 <= i < j < entries.len() && #[trigger] entries[i].role == role
            && #[trigger] entries[j].role == role
}

/// Whether a firmware entry `<prefix><middle><suffix>` is present.
pub open spec fn names_firmware(
    entries: Seq<EntryView>,
    prefix: Seq<u8>,
    wanted: Seq<u8>,
    suffix: Seq<u8>,
) -> bool {
    exists|i: int|
        0 <= i < entries.len() && (#[trigger] entries[i]).role == Role::Firmware && is_around(
            basename_of(entries[i].path),
            prefix,
            suffix,
        ) && same_name(middle(basename_of(entries[i].path), prefix, suffix), wanted)
}

/// Whether an entry that needs a partner has it: `start*.elf` goes with
/// `fixup*.dat`, and the other way round.
pub open spec fn is_paired(entries: Seq<EntryView>, entry: EntryView) -> bool {
    let name = basename_of(entry.path);
    entry.role == Role::Firmware ==> if is_around(name, start_prefix(), start_suffix()) {
        names_firmware(
            entries,
            fixup_prefix(),
            middle(name, start_prefix(), start_suffix()),
            fixup_suffix(),
        )
    } else if is_around(name, fixup_prefix(), fixup_suffix()) {
        names_firmware(
            entries,
            start_prefix(),
            middle(name, fixup_prefix(), fixup_suffix()),
            start_suffix(),
        )
    } else {
        true
    }
}

/// The first rule that a set of entries breaks, if it breaks one.
pub open spec fn broken_rule(entries: Seq<EntryView>) -> Option<Error> {
    if exists|i: int| 0 <= i < entries.len() && !is_relative_path(#[trigger] entries[i].path) {
        Some(Error::BadPath)
    } else if shares_a_path(entries) {
        Some(Error::DuplicatePath)
    } else if repeats_role(entries, Role::Kernel) {
        Some(Error::DuplicateRole(Role::Kernel))
    } else if repeats_role(entries, Role::Config) {
        Some(Error::DuplicateRole(Role::Config))
    } else if exists|i: int| 0 <= i < entries.len() && !is_paired(entries, #[trigger] entries[i]) {
        Some(Error::UnpairedFirmware)
    } else {
        None
    }
}

// --- The container's bytes ----------------------------------------------

/// The wire byte of a role.
pub open spec fn role_byte(role: Role) -> u8 {
    match role {
        Role::File => 0,
        Role::Kernel => 1,
        Role::Firmware => 2,
        Role::Config => 3,
    }
}

/// The role a wire byte names.
pub open spec fn byte_role(byte: u8) -> Option<Role> {
    if byte == 0 {
        Some(Role::File)
    } else if byte == 1 {
        Some(Role::Kernel)
    } else if byte == 2 {
        Some(Role::Firmware)
    } else if byte == 3 {
        Some(Role::Config)
    } else {
        None
    }
}

/// Whether an entry fits its length fields.
pub open spec fn fits(entry: EntryView) -> bool {
    &&& entry.path.len() <= u8::MAX
    &&& entry.data.len() <= u32::MAX
}

/// One entry on the wire.
pub open spec fn entry_bytes(entry: EntryView) -> Seq<u8> {
    seq![role_byte(entry.role), entry.path.len() as u8] + entry.path + crate::wire::u32_bytes(
        entry.data.len() as u32,
    ) + entry.data
}

/// Entries on the wire, one after another.
pub open spec fn entries_bytes(entries: Seq<EntryView>) -> Seq<u8>
    decreases entries.len(),
{
    if entries.len() == 0 {
        Seq::empty()
    } else {
        entry_bytes(entries.first()) + entries_bytes(entries.skip(1))
    }
}

/// Everything before the checksum.
pub open spec fn body_bytes(magic: Seq<u8>, reserved: u8, entries: Seq<EntryView>) -> Seq<u8> {
    magic + seq![VERSION, reserved] + crate::wire::u16_bytes(entries.len() as u16) + entries_bytes(
        entries,
    )
}

/// A whole bundle.
pub open spec fn bundle_bytes(magic: Seq<u8>, reserved: u8, entries: Seq<EntryView>) -> Seq<u8> {
    let body = body_bytes(magic, reserved, entries);
    body + crate::wire::u32_bytes(crate::crc32::crc32(body))
}

// --- Reading ------------------------------------------------------------

/// One entry split off the front of `rest`, and what follows it.
pub open spec fn split(rest: Seq<u8>) -> Result<(EntryView, Seq<u8>), Error> {
    if rest.len() < 1 {
        Err(Error::Truncated)
    } else if byte_role(rest[0]) is None {
        Err(Error::BadRole(rest[0]))
    } else if rest.len() < 2 || rest.len() < 2 + rest[1] {
        Err(Error::Truncated)
    } else {
        let path = rest.subrange(2, 2 + rest[1]);
        let tail = rest.skip(2 + rest[1]);
        if !vstd::utf8::valid_utf8(path) {
            Err(Error::PathNotUtf8)
        } else if tail.len() < 4 || tail.len() < 4 + crate::wire::u32_at(tail, 0) {
            Err(Error::Truncated)
        } else {
            let size = crate::wire::u32_at(tail, 0) as int;
            Ok(
                (
                    EntryView {
                        role: byte_role(rest[0])->0,
                        path,
                        data: tail.subrange(4, 4 + size),
                    },
                    tail.skip(4 + size),
                ),
            )
        }
    }
}

/// The first `count` entries of `rest`, and what follows them.
pub open spec fn walk(rest: Seq<u8>, count: nat) -> Result<(Seq<EntryView>, Seq<u8>), Error>
    decreases count,
{
    if count == 0 {
        Ok((Seq::empty(), rest))
    } else {
        match split(rest) {
            Err(error) => Err(error),
            Ok((entry, next)) => match walk(next, (count - 1) as nat) {
                Err(error) => Err(error),
                Ok((entries, end)) => Ok((seq![entry] + entries, end)),
            },
        }
    }
}

/// What reading `bytes` gives: the entries, or the first thing wrong.
///
/// The checksum is looked at before any entry, and the shape of the entries
/// before their meaning.
pub open spec fn decoded(format: Format, bytes: Seq<u8>) -> Result<Seq<EntryView>, Error> {
    let end = bytes.len() - TRAILER_LEN;
    let count = crate::wire::u16_at(bytes, 6);
    if bytes.len() < MIN_LEN {
        Err(Error::TooShort)
    } else if bytes.take(4) != format.magic@ {
        Err(Error::BadMagic)
    } else if bytes[4] != VERSION {
        Err(Error::BadVersion(bytes[4]))
    } else if crate::crc32::crc32(bytes.take(end)) != crate::wire::u32_at(bytes, end) {
        Err(Error::BadChecksum)
    } else if count == 0 || count > format.max_entries {
        Err(Error::BadEntryCount(count as usize))
    } else {
        match walk(bytes.subrange(HEADER_LEN as int, end), count as nat) {
            Err(error) => Err(error),
            Ok((entries, slack)) => if slack.len() > 0 {
                Err(Error::Truncated)
            } else if broken_rule(entries) is Some {
                Err(broken_rule(entries)->0)
            } else {
                Ok(entries)
            },
        }
    }
}

// --- Building -----------------------------------------------------------

/// What is wrong with the first entry that does not fit its length fields.
pub open spec fn oversize(entries: Seq<EntryView>) -> Option<Error>
    decreases entries.len(),
{
    if entries.len() == 0 {
        None
    } else if entries.first().path.len() > u8::MAX {
        Some(Error::PathTooLong)
    } else if entries.first().data.len() > u32::MAX {
        Some(Error::DataTooLarge)
    } else {
        oversize(entries.skip(1))
    }
}

/// What building a bundle of `entries` gives: its bytes, or the first thing
/// wrong.
pub open spec fn encoded(format: Format, entries: Seq<EntryView>) -> Result<Seq<u8>, Error> {
    if entries.len() == 0 || entries.len() > format.max_entries || entries.len() > u16::MAX {
        Err(Error::BadEntryCount(entries.len() as usize))
    } else if broken_rule(entries) is Some {
        Err(broken_rule(entries)->0)
    } else if oversize(entries) is Some {
        Err(oversize(entries)->0)
    } else {
        Ok(bundle_bytes(format.magic@, 0, entries))
    }
}

} // verus!
