//! The container: reading a bundle in place, and building one.
//!
//! A bundle is a list of **(path, role, bytes)** under a single checksum, so
//! that a board can reject a damaged transfer before it writes anything to
//! its card. The encoder and the decoder run the same rules, so nothing can
//! be built that would not be read. What the container is, byte by byte, is
//! stated in [`crate::layout`].

use vstd::prelude::*;

use crate::layout::EntryView;

verus! {

/// Bundle format version this crate reads and writes.
pub const VERSION: u8 = 2;

/// Magic, version, reserved byte and entry count.
pub const HEADER_LEN: usize = 8;

/// The trailing whole-bundle CRC-32.
pub const TRAILER_LEN: usize = 4;

/// A header and a checksum with nothing between them.
pub const MIN_LEN: usize = 12;

/// What an application must agree with its packer about.
///
/// Everything else a bundle needs to describe is in the bundle.
#[derive(Clone, Copy, Debug, PartialEq, Eq)]
pub struct Format {
    /// Four bytes identifying which application a bundle was built for, so
    /// that one board rejects another's update.
    pub magic: [u8; 4],
    /// Most entries to accept.
    pub max_entries: usize,
}

/// How the device should treat an entry.
///
/// The byte values are wire values and say nothing about the order entries
/// are written in: that order is the installer's, and it is not this one.
#[derive(Clone, Copy, Debug, PartialEq, Eq, Structural)]
pub enum Role {
    /// Anything the application owns: assets, settings, data.
    File,
    /// The boot image. At most one per bundle.
    Kernel,
    /// A Raspberry Pi firmware file: `bootcode.bin`, `start*.elf`,
    /// `fixup*.dat`.
    Firmware,
    /// `config.txt`. At most one per bundle.
    Config,
}

/// One file in a bundle, borrowed from the buffer it arrived in.
#[derive(Clone, Copy, Debug, PartialEq, Eq)]
pub struct Entry<'a> {
    /// How the device should treat it.
    pub role: Role,
    /// Where it goes, relative to the root of the volume.
    pub path: &'a str,
    /// The file's contents.
    pub data: &'a [u8],
}

impl<'a> View for Entry<'a> {
    type V = EntryView;

    open spec fn view(&self) -> EntryView {
        EntryView { role: self.role, path: vstd::utf8::encode_utf8(self.path@), data: self.data@ }
    }
}

/// Why a bundle was rejected, reading one or building one.
///
/// Most variants can arise either way. The exceptions are marked.
#[derive(Clone, Copy, Debug, PartialEq, Eq, Structural)]
pub enum Error {
    /// Fewer bytes than a header and a checksum. Reading only.
    TooShort,
    /// The magic did not match the one this application expects. Reading
    /// only.
    BadMagic,
    /// A format version this build does not read. Carries the version seen.
    /// Reading only.
    BadVersion(u8),
    /// The trailing CRC-32 did not match the content. Reading only.
    BadChecksum,
    /// No entries at all, or more than [`Format::max_entries`].
    BadEntryCount(usize),
    /// An entry ran past the end of the bundle, or the entries did not fill
    /// it exactly. Reading only.
    Truncated,
    /// An entry named a role this build does not know. Carries the byte.
    /// Reading only.
    BadRole(u8),
    /// An entry's path was not valid UTF-8. Reading only.
    PathNotUtf8,
    /// A path longer than the 255 bytes its length field can hold. Building
    /// only.
    PathTooLong,
    /// A file larger than the 4 GiB its size field can hold. Building only.
    DataTooLarge,
    /// An entry's path was empty, absolute, or contained `.`, `..`, an
    /// empty component or a backslash.
    BadPath,
    /// Two entries wanted the same path.
    DuplicatePath,
    /// More than one entry claimed a role that allows only one.
    DuplicateRole(Role),
    /// A `start*.elf` arrived without its `fixup*.dat`, or the reverse.
    UnpairedFirmware,
}

impl Role {
    /// The wire byte for this role.
    pub fn as_byte(self) -> (res: u8)
        ensures
            res == crate::layout::role_byte(self),
    {
        match self {
            Role::File => 0,
            Role::Kernel => 1,
            Role::Firmware => 2,
            Role::Config => 3,
        }
    }

    /// The role a wire byte names, or `None` if it names none.
    pub fn from_byte(byte: u8) -> (res: Option<Role>)
        ensures
            res == crate::layout::byte_role(byte),
    {
        match byte {
            0 => Some(Role::File),
            1 => Some(Role::Kernel),
            2 => Some(Role::Firmware),
            3 => Some(Role::Config),
            _ => None,
        }
    }
}

impl Error {
    /// The HTTP status to answer this with, for a device that took the
    /// bundle over HTTP: every rejection is a statement about the bytes that
    /// arrived, so it is always the sender's fault.
    pub fn http_status(&self) -> (res: u16)
        ensures
            res == 400,
    {
        400
    }

    /// What went wrong, in a few words.
    pub fn message(&self) -> (res: &'static str)
        ensures
            res@ == match *self {
                Error::TooShort => "bundle too short"@,
                Error::BadMagic => "not a bundle for this device"@,
                Error::BadVersion(_) => "unsupported bundle version"@,
                Error::BadChecksum => "checksum mismatch"@,
                Error::BadEntryCount(_) => "bad entry count"@,
                Error::Truncated => "bundle truncated"@,
                Error::BadRole(_) => "unknown entry role"@,
                Error::PathNotUtf8 => "bad file path"@,
                Error::PathTooLong => "file path too long"@,
                Error::DataTooLarge => "file too large"@,
                Error::BadPath => "unsafe file path"@,
                Error::DuplicatePath => "two entries with the same path"@,
                Error::DuplicateRole(_) => "two entries with the same role"@,
                Error::UnpairedFirmware => "firmware file without its pair"@,
            },
    {
        match self {
            Error::TooShort => "bundle too short",
            Error::BadMagic => "not a bundle for this device",
            Error::BadVersion(_) => "unsupported bundle version",
            Error::BadChecksum => "checksum mismatch",
            Error::BadEntryCount(_) => "bad entry count",
            Error::Truncated => "bundle truncated",
            Error::BadRole(_) => "unknown entry role",
            Error::PathNotUtf8 => "bad file path",
            Error::PathTooLong => "file path too long",
            Error::DataTooLarge => "file too large",
            Error::BadPath => "unsafe file path",
            Error::DuplicatePath => "two entries with the same path",
            Error::DuplicateRole(_) => "two entries with the same role",
            Error::UnpairedFirmware => "firmware file without its pair",
        }
    }
}

// --- Checksums ----------------------------------------------------------

/// `crc::Crc::<u32>::checksum` with the catalogue's `CRC_32_ISO_HDLC`: width
/// 32, polynomial 0x04C11DB7, register preset to all ones, bytes and result
/// reflected, result inverted. That is [`crate::crc32::crc32`].
#[verifier::external_body]
fn iso_hdlc(data: &[u8]) -> (res: u32)
    ensures
        res == crate::crc32::crc32(data@),
{
    crc::Crc::<u32>::new(&crc::CRC_32_ISO_HDLC).checksum(data)
}

/// The IEEE CRC-32 of `data`, as it appears in a bundle.
///
/// Exposed so that a device comparing a file on its card against an entry
/// checksums both the same way.
pub fn checksum(data: &[u8]) -> (res: u32)
    ensures
        res == crate::crc32::crc32(data@),
{
    iso_hdlc(data)
}

/// The same checksum, over data that arrives in pieces.
///
/// [`checksum`] is what a caller holding the whole thing wants. This is for
/// the other side of the comparison: a file already on a card, read a chunk
/// at a time so that checking it needs no second copy of it in memory.
pub struct Checksum {
    crc: crate::crc32::Crc32,
}

impl View for Checksum {
    type V = Seq<u8>;

    /// The bytes added so far.
    closed spec fn view(&self) -> Seq<u8> {
        self.crc@
    }
}

impl Checksum {
    /// Starts one.
    pub fn new() -> (res: Checksum)
        ensures
            res@ == Seq::<u8>::empty(),
    {
        Checksum { crc: crate::crc32::Crc32::new() }
    }

    /// Adds the next piece.
    pub fn update(&mut self, data: &[u8])
        ensures
            final(self)@ == old(self)@ + data@,
    {
        let mut at: usize = 0;
        while at < data.len()
            invariant
                at <= data@.len(),
                self.crc@ == old(self).crc@ + data@.take(at as int),
            decreases data@.len() - at,
        {
            self.crc.update(data[at]);
            at += 1;
            proof {
                assert(data@.take(at as int) =~= data@.take(at - 1).push(data@[at - 1]));
                assert(self.crc@ =~= old(self).crc@ + data@.take(at as int));
            }
        }
        proof {
            assert(data@.take(at as int) =~= data@);
        }
    }

    /// The checksum of everything added, comparable with [`checksum`] of the
    /// same bytes.
    pub fn finish(self) -> (res: u32)
        ensures
            res == crate::crc32::crc32(self@),
    {
        self.crc.finish()
    }
}

impl Default for Checksum {
    fn default() -> (res: Checksum)
        ensures
            res@ == Seq::<u8>::empty(),
    {
        Checksum::new()
    }
}

// --- Reading ------------------------------------------------------------

/// Splits one entry off the front of `rest`, returning it and what follows.
fn split_entry(rest: &[u8]) -> (res: Result<(Entry<'_>, &[u8]), Error>)
    ensures
        match res {
            Ok((entry, next)) => crate::layout::split(rest@) == Ok::<(EntryView, Seq<u8>), Error>(
                (entry@, next@),
            ),
            Err(error) => crate::layout::split(rest@) == Err::<(EntryView, Seq<u8>), Error>(error),
        },
{
    if rest.len() < 1 {
        return Err(Error::Truncated);
    }
    let role = match Role::from_byte(rest[0]) {
        Some(role) => role,
        None => return Err(Error::BadRole(rest[0])),
    };
    if rest.len() < 2 {
        return Err(Error::Truncated);
    }
    let path_len: usize = rest[1] as usize;
    if rest.len() - 2 < path_len {
        return Err(Error::Truncated);
    }
    let (head, tail) = rest.split_at(2 + path_len);
    let path = match core::str::from_utf8(crate::text::part(head, 2, 2 + path_len)) {
        Ok(path) => path,
        Err(_) => {
            proof {
                assert(head@.subrange(2, 2 + path_len) =~= rest@.subrange(2, 2 + path_len));
            }
            return Err(Error::PathNotUtf8);
        },
    };
    proof {
        assert(head@.subrange(2, 2 + path_len) =~= rest@.subrange(2, 2 + path_len));
        assert(tail@ =~= rest@.skip(2 + path_len));
    }
    if tail.len() < 4 {
        return Err(Error::Truncated);
    }
    let size: u32 = crate::wire::read_u32(tail, 0);
    if ((tail.len() - 4) as u64) < size as u64 {
        return Err(Error::Truncated);
    }
    let size: usize = size as usize;
    let (head, next) = tail.split_at(4 + size);
    let data = crate::text::part(head, 4, 4 + size);
    proof {
        assert(data@ =~= tail@.subrange(4, 4 + size));
        assert(next@ =~= tail@.skip(4 + size));
    }
    Ok((Entry { role, path, data }, next))
}

/// Walks the entries of a [`Bundle`].
#[derive(Debug)]
pub struct Iter<'a> {
    rest: &'a [u8],
    left: usize,
}

impl<'a> Clone for Iter<'a> {
    fn clone(&self) -> (res: Iter<'a>)
        ensures
            res@ == self@,
    {
        proof {
            use_type_invariant(self);
        }
        Iter { rest: self.rest, left: self.left }
    }
}

impl<'a> View for Iter<'a> {
    type V = Seq<EntryView>;

    /// The entries still to come.
    closed spec fn view(&self) -> Seq<EntryView> {
        match crate::layout::walk(self.rest@, self.left as nat) {
            Ok((entries, _)) => entries,
            Err(_) => Seq::empty(),
        }
    }
}

impl<'a> Iter<'a> {
    /// The region holds exactly the entries that are left.
    #[verifier::type_invariant]
    spec fn holds(self) -> bool {
        match crate::layout::walk(self.rest@, self.left as nat) {
            Ok((_, slack)) => slack.len() == 0,
            Err(_) => false,
        }
    }

    /// The next entry, or `None` at the end.
    pub fn next(&mut self) -> (res: Option<Entry<'a>>)
        ensures
            match res {
                None => old(self)@.len() == 0 && final(self)@ == old(self)@,
                Some(entry) => {
                    &&& old(self)@.len() > 0
                    &&& entry@ == old(self)@.first()
                    &&& final(self)@ == old(self)@.skip(1)
                },
            },
    {
        proof {
            use_type_invariant(&*self);
            reveal_with_fuel(crate::layout::walk, 2);
        }
        if self.left == 0 {
            return None;
        }
        let ghost before = *self;
        let left: usize = self.left - 1;
        match split_entry(self.rest) {
            Ok((entry, rest)) => {
                proof {
                    let after = crate::layout::walk(rest@, left as nat)->Ok_0.0;
                    assert(before@ =~= seq![entry@] + after);
                    assert(before@.skip(1) =~= after);
                }
                *self = Iter { rest, left };
                Some(entry)
            },
            Err(_) => None,
        }
    }

    /// Every entry still to come, in order.
    pub fn collect(self) -> (res: Vec<Entry<'a>>)
        ensures
            res@.len() == self@.len(),
            forall|i: int| 0 <= i < res@.len() ==> (#[trigger] res@[i])@ == self@[i],
    {
        let mut walk = self;
        let mut entries: Vec<Entry<'a>> = Vec::new();
        loop
            invariant
                entries@.len() + walk@.len() == self@.len(),
                walk@ == self@.skip(entries@.len() as int),
                forall|i: int| 0 <= i < entries@.len() ==> (#[trigger] entries@[i])@ == self@[i],
            ensures
                walk@.len() == 0,
            decreases walk@.len(),
        {
            match walk.next() {
                Some(entry) => entries.push(entry),
                None => break,
            }
        }
        entries
    }
}

// --- Rules --------------------------------------------------------------

/// Whether a component names something.
fn is_plain(name: &[u8]) -> (res: bool)
    ensures
        res == crate::layout::is_plain_name(name@),
{
    proof {
        assert(name@.len() == 1 && name@[0] == 0x2E ==> name@ =~= seq![0x2Eu8]);
        assert(name@.len() == 2 && name@[0] == 0x2E && name@[1] == 0x2E ==> name@ =~= seq![
            0x2Eu8,
            0x2Eu8,
        ]);
    }
    name.len() > 0 && !(name.len() == 1 && name[0] == 0x2E) && !(name.len() == 2 && name[0] == 0x2E
        && name[1] == 0x2E)
}

/// Rejects a path that is not a plain relative one.
///
/// This is about a bundle escaping the volume it is being written to, and
/// is unrelated to whether writing a particular file is a good idea.
fn check_path(path: &str) -> (res: Result<(), Error>)
    ensures
        res == if crate::layout::is_relative_path(vstd::utf8::encode_utf8(path@)) {
            Ok::<(), Error>(())
        } else {
            Err(Error::BadPath)
        },
{
    let bytes = path.as_bytes();
    let mut start: usize = 0;
    let mut at: usize = 0;
    while at < bytes.len()
        invariant
            bytes@ == vstd::utf8::encode_utf8(path@),
            start <= at <= bytes@.len(),
            start == 0 || bytes@[start - 1] == 0x2F,
            forall|k: int| start <= k < at ==> bytes@[k] != 0x2F,
            forall|k: int| 0 <= k < at ==> bytes@[k] != 0x5C,
            forall|s: int, e: int| #[trigger]
                crate::layout::is_component(bytes@, s, e) && e < start
                    ==> crate::layout::is_plain_name(bytes@.subrange(s, e)),
        decreases bytes@.len() - at,
    {
        if bytes[at] == 0x5C {
            return Err(Error::BadPath);
        }
        if bytes[at] == 0x2F {
            proof {
                assert(crate::layout::is_component(bytes@, start as int, at as int));
            }
            if !is_plain(crate::text::part(bytes, start, at)) {
                return Err(Error::BadPath);
            }
            proof {
                assert forall|s: int, e: int| #[trigger]
                    crate::layout::is_component(bytes@, s, e) && e < at
                        + 1 implies crate::layout::is_plain_name(bytes@.subrange(s, e)) by {
                    if e >= start {
                        assert(e == at);
                        if s < start {
                            assert(bytes@[start - 1] == 0x2F);
                        }
                        assert(s == start);
                    }
                }
            }
            start = at + 1;
        }
        at += 1;
    }
    proof {
        assert(crate::layout::is_component(bytes@, start as int, at as int));
    }
    if !is_plain(crate::text::part(bytes, start, at)) {
        return Err(Error::BadPath);
    }
    proof {
        assert forall|s: int, e: int| #[trigger]
            crate::layout::is_component(bytes@, s, e) implies crate::layout::is_plain_name(
            bytes@.subrange(s, e),
        ) by {
            if e >= start {
                assert(e == at);
                if s < start {
                    assert(bytes@[start - 1] == 0x2F);
                }
                assert(s == start);
            }
        }
    }
    Ok(())
}

/// The last component of `path`.
fn basename(path: &[u8]) -> (res: &[u8])
    ensures
        res@ == crate::layout::basename_of(path@),
{
    let mut at: usize = path.len();
    proof {
        assert(path@.take(at as int) =~= path@);
    }
    while at > 0 && path[at - 1] != 0x2F
        invariant
            at <= path@.len(),
            crate::layout::basename_start(path@.take(at as int)) == crate::layout::basename_start(
                path@,
            ),
        decreases at,
    {
        proof {
            assert(path@.take(at as int).drop_last() =~= path@.take(at - 1));
        }
        at -= 1;
    }
    let name = crate::text::part(path, at, path.len());
    proof {
        assert(name@ =~= path@.skip(at as int));
    }
    name
}

/// The middle of `<prefix><middle><suffix>`, matching the ends the way FAT
/// compares names.
fn strip_around<'a>(name: &'a [u8], prefix: &[u8], suffix: &[u8]) -> (res: Option<&'a [u8]>)
    requires
        prefix@.len() + suffix@.len() <= usize::MAX,
    ensures
        match res {
            Some(found) => crate::layout::is_around(name@, prefix@, suffix@) && found@
                == crate::layout::middle(name@, prefix@, suffix@),
            None => !crate::layout::is_around(name@, prefix@, suffix@),
        },
{
    if name.len() < prefix.len() + suffix.len() {
        return None;
    }
    let (head, rest) = name.split_at(prefix.len());
    proof {
        assert(head@ =~= name@.take(prefix@.len() as int));
    }
    if !crate::text::equal_ignoring_case(head, prefix) {
        return None;
    }
    let (found, tail) = rest.split_at(rest.len() - suffix.len());
    proof {
        assert(tail@ =~= name@.skip(name@.len() - suffix@.len()));
        assert(found@ =~= crate::layout::middle(name@, prefix@, suffix@));
    }
    if !crate::text::equal_ignoring_case(tail, suffix) {
        return None;
    }
    Some(found)
}

/// Entries that can be walked more than once, wherever they are held.
trait Entries<'a>: Sized {
    /// The entries still to come.
    spec fn to_come(&self) -> Seq<EntryView>;

    /// A second walk from the same place.
    fn again(&self) -> (res: Self)
        ensures
            res.to_come() == self.to_come(),
    ;

    /// The next entry, or `None` at the end.
    fn advance(&mut self) -> (res: Option<Entry<'a>>)
        ensures
            match res {
                None => old(self).to_come().len() == 0 && final(self).to_come() == old(
                    self,
                ).to_come(),
                Some(entry) => {
                    &&& old(self).to_come().len() > 0
                    &&& entry@ == old(self).to_come().first()
                    &&& final(self).to_come() == old(self).to_come().skip(1)
                },
            },
    ;
}

impl<'a> Entries<'a> for Iter<'a> {
    closed spec fn to_come(&self) -> Seq<EntryView> {
        self@
    }

    fn again(&self) -> (res: Self) {
        self.clone()
    }

    fn advance(&mut self) -> (res: Option<Entry<'a>>) {
        self.next()
    }
}

/// The values of a list of entries.
pub open spec fn views(entries: Seq<Entry<'_>>) -> Seq<EntryView> {
    entries.map_values(|entry: Entry<'_>| entry@)
}

/// A walk over entries held in a slice.
struct Listed<'e, 'a> {
    entries: &'e [Entry<'a>],
    at: usize,
}

impl<'e, 'a> Listed<'e, 'a> {
    #[verifier::type_invariant]
    spec fn holds(self) -> bool {
        self.at <= self.entries@.len()
    }
}

impl<'e, 'a> Entries<'a> for Listed<'e, 'a> {
    closed spec fn to_come(&self) -> Seq<EntryView> {
        views(self.entries@).skip(self.at as int)
    }

    fn again(&self) -> (res: Self) {
        proof {
            use_type_invariant(self);
        }
        Listed { entries: self.entries, at: self.at }
    }

    fn advance(&mut self) -> (res: Option<Entry<'a>>) {
        proof {
            use_type_invariant(&*self);
        }
        if self.at >= self.entries.len() {
            return None;
        }
        let entry = self.entries[self.at];
        self.at = self.at + 1;
        proof {
            assert(self.to_come() =~= old(self).to_come().skip(1));
        }
        Some(entry)
    }
}

/// Rejects two entries wanting the same destination.
///
/// The second would simply overwrite the first, so the file the packer
/// meant to ship is not the one that lands.
fn check_unique_paths<'a, I: Entries<'a>>(entries: &I) -> (res: Result<(), Error>)
    ensures
        res == if crate::layout::shares_a_path(entries.to_come()) {
            Err::<(), Error>(Error::DuplicatePath)
        } else {
            Ok(())
        },
{
    let ghost all = entries.to_come();
    let ghost mut i: int = 0;
    let mut outer = entries.again();
    loop
        invariant
            all == entries.to_come(),
            0 <= i <= all.len(),
            outer.to_come() == all.skip(i),
            forall|a: int, b: int| 0 <= a < i && a < b < all.len() ==> all[a].path != all[b].path,
        ensures
            i == all.len(),
        decreases all.len() - i,
    {
        let entry = match outer.advance() {
            Some(entry) => entry,
            None => break,
        };
        proof {
            assert(outer.to_come() =~= all.skip(i + 1));
            assert(entry@ == all[i]);
        }
        let ghost mut j: int = i + 1;
        let mut inner = outer.again();
        loop
            invariant
                all == entries.to_come(),
                0 <= i < j <= all.len(),
                entry@ == all[i],
                inner.to_come() == all.skip(j),
                forall|b: int| i < b < j ==> all[i].path != all[b].path,
            ensures
                j == all.len(),
            decreases all.len() - j,
        {
            let other = match inner.advance() {
                Some(other) => other,
                None => break,
            };
            proof {
                assert(other@ == all[j]);
                assert(all.skip(j).skip(1) =~= all.skip(j + 1));
            }
            if crate::text::equal_bytes(other.path.as_bytes(), entry.path.as_bytes()) {
                proof {
                    assert(all[i].path == all[j].path);
                }
                return Err(Error::DuplicatePath);
            }
            proof {
                j = j + 1;
            }
        }
        proof {
            i = i + 1;
        }
    }
    Ok(())
}

/// Rejects a second entry claiming a role that admits only one.
fn check_single<'a, I: Entries<'a>>(entries: &I, role: Role) -> (res: Result<(), Error>)
    ensures
        res == if crate::layout::repeats_role(entries.to_come(), role) {
            Err::<(), Error>(Error::DuplicateRole(role))
        } else {
            Ok(())
        },
{
    let ghost all = entries.to_come();
    let ghost mut i: int = 0;
    let ghost mut first: int = -1;
    let mut seen = false;
    let mut walk = entries.again();
    loop
        invariant
            all == entries.to_come(),
            0 <= i <= all.len(),
            walk.to_come() == all.skip(i),
            seen ==> 0 <= first < i && all[first].role == role,
            forall|a: int| 0 <= a < i && a != first ==> all[a].role != role,
            !seen ==> first == -1,
        ensures
            i == all.len(),
        decreases all.len() - i,
    {
        let entry = match walk.advance() {
            Some(entry) => entry,
            None => break,
        };
        proof {
            assert(entry@ == all[i]);
            assert(all.skip(i).skip(1) =~= all.skip(i + 1));
        }
        if entry.role == role {
            if seen {
                proof {
                    assert(all[first].role == role && all[i].role == role);
                }
                return Err(Error::DuplicateRole(role));
            }
            seen = true;
            proof {
                first = i;
            }
        }
        proof {
            i = i + 1;
        }
    }
    Ok(())
}

/// Whether a firmware entry named `<prefix><middle><suffix>` is present,
/// comparing the way FAT does.
fn has_firmware<'a, I: Entries<'a>>(
    entries: &I,
    prefix: &[u8],
    middle: &[u8],
    suffix: &[u8],
) -> (res: bool)
    requires
        prefix@.len() + suffix@.len() <= usize::MAX,
    ensures
        res == crate::layout::names_firmware(entries.to_come(), prefix@, middle@, suffix@),
{
    let ghost all = entries.to_come();
    let ghost mut i: int = 0;
    let mut walk = entries.again();
    loop
        invariant
            prefix@.len() + suffix@.len() <= usize::MAX,
            all == entries.to_come(),
            0 <= i <= all.len(),
            walk.to_come() == all.skip(i),
            forall|a: int|
                0 <= a < i && (#[trigger] all[a]).role == Role::Firmware
                    && crate::layout::is_around(
                    crate::layout::basename_of(all[a].path),
                    prefix@,
                    suffix@,
                ) ==> !crate::layout::same_name(
                    crate::layout::middle(
                        crate::layout::basename_of(all[a].path),
                        prefix@,
                        suffix@,
                    ),
                    middle@,
                ),
        ensures
            i == all.len(),
        decreases all.len() - i,
    {
        let entry = match walk.advance() {
            Some(entry) => entry,
            None => break,
        };
        proof {
            assert(entry@ == all[i]);
            assert(all.skip(i).skip(1) =~= all.skip(i + 1));
        }
        if entry.role == Role::Firmware {
            match strip_around(basename(entry.path.as_bytes()), prefix, suffix) {
                Some(found) => {
                    if crate::text::equal_ignoring_case(found, middle) {
                        return true;
                    }
                },
                None => {},
            }
        }
        proof {
            i = i + 1;
        }
    }
    false
}

/// Rejects a `start*.elf` without its `fixup*.dat`, or the reverse.
///
/// The two are released together and a mismatched pair does not boot. Only
/// the pairing is checked, not the names: an entry marked
/// [`Role::Firmware`] may be called anything.
fn check_firmware_pairs<'a, I: Entries<'a>>(entries: &I) -> (res: Result<(), Error>)
    ensures
        res == if exists|i: int|
            0 <= i < entries.to_come().len() && !crate::layout::is_paired(
                entries.to_come(),
                #[trigger] entries.to_come()[i],
            ) {
            Err::<(), Error>(Error::UnpairedFirmware)
        } else {
            Ok(())
        },
{
    let start: [u8; 5] = [0x73, 0x74, 0x61, 0x72, 0x74];
    let elf: [u8; 4] = [0x2E, 0x65, 0x6C, 0x66];
    let fixup: [u8; 5] = [0x66, 0x69, 0x78, 0x75, 0x70];
    let dat: [u8; 4] = [0x2E, 0x64, 0x61, 0x74];
    proof {
        assert(start@ =~= crate::layout::start_prefix());
        assert(elf@ =~= crate::layout::start_suffix());
        assert(fixup@ =~= crate::layout::fixup_prefix());
        assert(dat@ =~= crate::layout::fixup_suffix());
    }
    let ghost all = entries.to_come();
    let ghost mut i: int = 0;
    let mut walk = entries.again();
    loop
        invariant
            start@ == crate::layout::start_prefix(),
            elf@ == crate::layout::start_suffix(),
            fixup@ == crate::layout::fixup_prefix(),
            dat@ == crate::layout::fixup_suffix(),
            all == entries.to_come(),
            0 <= i <= all.len(),
            walk.to_come() == all.skip(i),
            forall|a: int| 0 <= a < i ==> crate::layout::is_paired(all, #[trigger] all[a]),
        ensures
            i == all.len(),
        decreases all.len() - i,
    {
        let entry = match walk.advance() {
            Some(entry) => entry,
            None => break,
        };
        proof {
            assert(entry@ == all[i]);
            assert(all.skip(i).skip(1) =~= all.skip(i + 1));
        }
        if entry.role == Role::Firmware {
            let name = basename(entry.path.as_bytes());
            let paired = match strip_around(name, &start, &elf) {
                Some(found) => has_firmware(entries, &fixup, found, &dat),
                None => match strip_around(name, &fixup, &dat) {
                    Some(found) => has_firmware(entries, &start, found, &elf),
                    None => true,
                },
            };
            proof {
                assert(paired == crate::layout::is_paired(all, all[i]));
            }
            if !paired {
                return Err(Error::UnpairedFirmware);
            }
        }
        proof {
            i = i + 1;
        }
    }
    Ok(())
}

/// Every rule about a set of entries that does not depend on which direction
/// they came from. [`Bundle::parse`] runs it after it has proved that there
/// is a bundle there at all, and [`encode`] before it writes one.
fn check_entries<'a, I: Entries<'a>>(entries: &I) -> (res: Result<(), Error>)
    ensures
        match crate::layout::broken_rule(entries.to_come()) {
            Some(error) => res == Err::<(), Error>(error),
            None => res is Ok,
        },
{
    let ghost all = entries.to_come();
    let ghost mut i: int = 0;
    let mut walk = entries.again();
    loop
        invariant
            all == entries.to_come(),
            0 <= i <= all.len(),
            walk.to_come() == all.skip(i),
            forall|a: int| 0 <= a < i ==> crate::layout::is_relative_path(#[trigger] all[a].path),
        ensures
            i == all.len(),
        decreases all.len() - i,
    {
        let entry = match walk.advance() {
            Some(entry) => entry,
            None => break,
        };
        proof {
            assert(entry@ == all[i]);
            assert(all.skip(i).skip(1) =~= all.skip(i + 1));
        }
        match check_path(entry.path) {
            Ok(()) => {},
            Err(error) => {
                proof {
                    assert(!crate::layout::is_relative_path(all[i].path));
                }
                return Err(error);
            },
        }
        proof {
            i = i + 1;
        }
    }
    check_unique_paths(entries)?;
    check_single(entries, Role::Kernel)?;
    check_single(entries, Role::Config)?;
    check_firmware_pairs(entries)
}

/// A validated bundle: a handle onto the buffer it was parsed from.
///
/// Holding one is the proof that every check in this module passed, which
/// is why walking it with [`iter`](Bundle::iter) cannot fail.
#[derive(Clone, Copy, Debug)]
pub struct Bundle<'a> {
    /// Exactly the entry region: header and trailing checksum removed.
    entries: &'a [u8],
    count: usize,
}

impl<'a> View for Bundle<'a> {
    type V = Seq<EntryView>;

    /// The entries, in the order they were packed.
    closed spec fn view(&self) -> Seq<EntryView> {
        match crate::layout::walk(self.entries@, self.count as nat) {
            Ok((entries, _)) => entries,
            Err(_) => Seq::empty(),
        }
    }
}

impl<'a> Bundle<'a> {
    #[verifier::type_invariant]
    spec fn holds(self) -> bool {
        match crate::layout::walk(self.entries@, self.count as nat) {
            Ok((entries, slack)) => slack.len() == 0 && crate::layout::broken_rule(entries) is None
                && entries.len() == self.count,
            Err(_) => false,
        }
    }

    /// Checks `bytes` against `format` and returns a handle to it.
    ///
    /// Allocates nothing: the result borrows the buffer.
    ///
    /// # Order of checks
    ///
    /// The checksum is verified **before** any entry is walked. A transfer
    /// that lost bytes produces lengths that still look plausible, and
    /// reporting the first one that happens not to fit describes a symptom
    /// rather than what went wrong.
    pub fn parse(format: &Format, bytes: &'a [u8]) -> (res: Result<Bundle<'a>, Error>)
        ensures
            match res {
                Ok(bundle) => crate::layout::decoded(*format, bytes@) == Ok::<
                    Seq<EntryView>,
                    Error,
                >(bundle@),
                Err(error) => crate::layout::decoded(*format, bytes@) == Err::<
                    Seq<EntryView>,
                    Error,
                >(error),
            },
    {
        if bytes.len() < MIN_LEN {
            return Err(Error::TooShort);
        }
        let magic = crate::text::part(bytes, 0, 4);
        proof {
            assert(magic@ =~= bytes@.take(4));
        }
        if !crate::text::equal_bytes(magic, &format.magic) {
            return Err(Error::BadMagic);
        }
        if bytes[4] != VERSION {
            return Err(Error::BadVersion(bytes[4]));
        }
        let end: usize = bytes.len() - TRAILER_LEN;
        let stored: u32 = crate::wire::read_u32(bytes, end);
        let body = crate::text::part(bytes, 0, end);
        proof {
            assert(body@ =~= bytes@.take(end as int));
        }
        if checksum(body) != stored {
            return Err(Error::BadChecksum);
        }
        let count: usize = crate::wire::read_u16(bytes, 6) as usize;
        if count == 0 || count > format.max_entries {
            return Err(Error::BadEntryCount(count));
        }
        let entries = crate::text::part(bytes, HEADER_LEN, end);
        let ghost whole = crate::layout::walk(entries@, count as nat);
        let mut rest = entries;
        let mut left: usize = count;
        while left > 0
            invariant
                left <= count,
                whole == crate::layout::walk(entries@, count as nat),
                entries@ == bytes@.subrange(HEADER_LEN as int, end as int),
                end == bytes@.len() - TRAILER_LEN,
                bytes@.len() >= MIN_LEN,
                match crate::layout::walk(rest@, left as nat) {
                    Ok((_, slack)) => whole matches Ok((_, all_slack)) && all_slack == slack,
                    Err(error) => whole == Err::<(Seq<EntryView>, Seq<u8>), Error>(error),
                },
                crate::layout::decoded(*format, bytes@) == match whole {
                    Err(error) => Err::<Seq<EntryView>, Error>(error),
                    Ok((found, slack)) => if slack.len() > 0 {
                        Err(Error::Truncated)
                    } else if crate::layout::broken_rule(found) is Some {
                        Err(crate::layout::broken_rule(found)->0)
                    } else {
                        Ok(found)
                    },
                },
            decreases left,
        {
            proof {
                reveal_with_fuel(crate::layout::walk, 2);
            }
            match split_entry(rest) {
                Ok((_, next)) => {
                    rest = next;
                },
                Err(error) => return Err(error),
            }
            left -= 1;
        }
        if rest.len() != 0 {
            return Err(Error::Truncated);
        }
        check_entries(&Iter { rest: entries, left: count })?;
        proof {
            crate::laws::lemma_walk_counts(entries@, count as nat);
        }
        Ok(Bundle { entries, count })
    }

    /// How many entries it holds.
    pub fn count(&self) -> (res: usize)
        ensures
            res == self@.len(),
    {
        proof {
            use_type_invariant(self);
        }
        self.count
    }

    /// The entries, in the order they were packed.
    ///
    /// Not the order they should be written in: see [`Role`].
    pub fn iter(&self) -> (res: Iter<'a>)
        ensures
            res@ == self@,
    {
        proof {
            use_type_invariant(self);
        }
        Iter { rest: self.entries, left: self.count }
    }

    /// The entry carrying the boot image, if the bundle has one.
    ///
    /// A bundle without a kernel is valid and useful: it updates a website
    /// or a settings file without rewriting an image that has not changed.
    pub fn kernel(&self) -> (res: Option<Entry<'a>>)
        ensures
            match res {
                Some(entry) => entry.role == Role::Kernel && self@.contains(entry@),
                None => forall|i: int|
                    0 <= i < self@.len() ==> (#[trigger] self@[i]).role != Role::Kernel,
            },
            crate::layout::broken_rule(self@) is None,
    {
        proof {
            use_type_invariant(self);
        }
        let mut walk = self.iter();
        let ghost mut i: int = 0;
        loop
            invariant
                0 <= i <= self@.len(),
                walk@ == self@.skip(i),
                forall|a: int| 0 <= a < i ==> (#[trigger] self@[a]).role != Role::Kernel,
                crate::layout::broken_rule(self@) is None,
            ensures
                i == self@.len(),
            decreases self@.len() - i,
        {
            match walk.next() {
                Some(entry) => {
                    proof {
                        assert(entry@ == self@[i]);
                        assert(self@.skip(i).skip(1) =~= self@.skip(i + 1));
                    }
                    if entry.role == Role::Kernel {
                        return Some(entry);
                    }
                    proof {
                        i = i + 1;
                    }
                },
                None => break,
            }
        }
        None
    }
}

// --- Building -----------------------------------------------------------

/// Builds a bundle from `entries`.
///
/// The entries are written in the order given. That order carries no
/// meaning: an installer decides what to write when from [`Role`], not from
/// where an entry sits.
///
/// # Errors
///
/// Every rule [`Bundle::parse`] would apply to the result is applied here
/// first, so this cannot produce a bundle its own parser rejects, plus the
/// two limits of the container itself: [`Error::PathTooLong`] and
/// [`Error::DataTooLarge`].
pub fn encode(format: &Format, entries: &[Entry<'_>]) -> (res: Result<Vec<u8>, Error>)
    ensures
        match res {
            Ok(bytes) => crate::layout::encoded(*format, views(entries@)) == Ok::<Seq<u8>, Error>(
                bytes@,
            ),
            Err(error) => crate::layout::encoded(*format, views(entries@)) == Err::<
                Seq<u8>,
                Error,
            >(error),
        },
{
    let ghost all = views(entries@);
    if entries.len() == 0 || entries.len() > format.max_entries || entries.len() > 0xFFFF {
        return Err(Error::BadEntryCount(entries.len()));
    }
    let walk = Listed { entries, at: 0 };
    proof {
        assert(walk.to_come() =~= all);
    }
    check_entries(&walk)?;

    let mut size: usize = HEADER_LEN + TRAILER_LEN;
    let mut at: usize = 0;
    proof {
        assert(all.skip(0) =~= all);
    }
    while at < entries.len()
        invariant
            at <= entries@.len(),
            all == views(entries@),
            crate::layout::oversize(all) == crate::layout::oversize(all.skip(at as int)),
            crate::layout::broken_rule(all) is None,
            0 < all.len() <= 0xFFFF,
            all.len() <= format.max_entries,
        decreases entries@.len() - at,
    {
        let entry = entries[at];
        let path_len: usize = entry.path.as_bytes().len();
        proof {
            assert(all.skip(at as int).first() == entry@);
            assert(all.skip(at as int).skip(1) =~= all.skip(at + 1));
        }
        if path_len > 0xFF {
            return Err(Error::PathTooLong);
        }
        if entry.data.len() as u64 > 0xFFFF_FFFF {
            return Err(Error::DataTooLarge);
        }
        size = size.saturating_add(6 + path_len).saturating_add(entry.data.len());
        at += 1;
    }

    // Sized up front: a bundle carrying a kernel and the boot firmware is
    // several megabytes.
    let mut out: Vec<u8> = Vec::with_capacity(size);
    out.extend_from_slice(&format.magic);
    out.push(VERSION);
    out.push(0);
    crate::wire::push_u16(&mut out, entries.len() as u16);
    let ghost header = out@;
    proof {
        assert(header =~= format.magic@ + seq![VERSION, 0u8] + crate::wire::u16_bytes(
            all.len() as u16,
        ));
        assert(all.take(0) =~= Seq::<EntryView>::empty());
        assert(out@ =~= header + crate::layout::entries_bytes(all.take(0)));
    }
    let mut at: usize = 0;
    while at < entries.len()
        invariant
            at <= entries@.len(),
            all == views(entries@),
            out@ == header + crate::layout::entries_bytes(all.take(at as int)),
            crate::layout::oversize(all) is None,
        decreases entries@.len() - at,
    {
        let entry = entries[at];
        let path = entry.path.as_bytes();
        proof {
            crate::laws::lemma_oversize(all);
            assert(all[at as int] == entry@);
            assert(crate::layout::fits(all[at as int]));
        }
        let ghost before = out@;
        out.push(entry.role.as_byte());
        out.push(path.len() as u8);
        out.extend_from_slice(path);
        crate::wire::push_u32(&mut out, entry.data.len() as u32);
        out.extend_from_slice(entry.data);
        proof {
            assert(out@ =~= before + crate::layout::entry_bytes(entry@));
            crate::laws::lemma_entries_bytes_push(all.take(at as int), entry@);
            assert(all.take(at as int).push(entry@) =~= all.take(at + 1));
            assert(out@ =~= header + crate::layout::entries_bytes(all.take(at + 1)));
        }
        at += 1;
    }
    proof {
        assert(all.take(at as int) =~= all);
        assert(out@ =~= crate::layout::body_bytes(format.magic@, 0, all));
    }
    let crc: u32 = checksum(out.as_slice());
    crate::wire::push_u32(&mut out, crc);
    Ok(out)
}

} // verus!
