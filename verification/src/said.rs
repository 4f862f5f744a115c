//! What is said to a user, word for word, and that what is handed over is what was
//! decided.

use vstd::prelude::*;

use crate::cli::{Origin, Step};
use crate::hat::{HatError, Image};
use crate::link::{Failure, Note, Reason, What};
use crate::listing::ListingError;
use crate::text::NumberError;

verus! {

/// A text in bytes.
pub open spec fn said(text: Seq<char>) -> Seq<u8> {
    vstd::utf8::encode_utf8(text)
}

/// A number in decimal.
pub open spec fn count(n: int) -> Seq<u8> {
    crate::text::decimal(n as nat)
}

// --- Failures -------------------------------------------------------------------

/// Each code that a device answers with has a name, and one that has none is given
/// as the number it is.
pub proof fn what_a_code_is_called(code: u8)
    ensures
        ({
            let text = crate::link::code_text(code);
            &&& code == 1 ==> text == said("SD bring-up failed"@)
            &&& code == 2 ==> text == said("no such file or directory"@)
            &&& code == 3 ==> text == said("filesystem error"@)
            &&& code == 4 ==> text == said("directory listing too large"@)
            &&& code == 5 ==> text == said("bad path"@)
            &&& code == 6 ==> text == said("write failed"@)
            &&& code == 7 ==> text == said("I2C transfer failed"@)
            &&& code == 8 ==> text == said("read-back mismatch"@)
            &&& code == 9 ==> text == said("request outside what the device will address"@)
            &&& code == 10 ==> text == said("the part never answered the read-back"@)
            &&& code == 0 || code > 10 ==> text == said("error code "@) + count(code as int)
        }),
{
}

/// A failed command on the card is named, with the device's reason behind it.
pub proof fn what_is_said_of_a_failed_command(what: What, code: u8)
    ensures
        ({
            let name = match what {
                What::SdList => "sd-list"@,
                What::SdRead => "sd-read"@,
                What::SdWrite => "sd-write"@,
                What::SdDelete => "sd-delete"@,
                What::SdMkdir => "sd-mkdir"@,
            };
            &&& crate::link::what_text(what) == said(name)
            &&& crate::link::failure_text(Failure::Command { what, reason: Reason::Code(code) })
                == said(name) + said(" failed: "@) + crate::link::code_text(code)
            &&& crate::link::failure_text(Failure::Command { what, reason: Reason::Timeout })
                == said(name) + said(" failed: "@) + said("timed out reading error code"@)
            &&& crate::link::failure_text(Failure::NotCommitted(Reason::Code(code))) == said(
                "sd-write did not commit: "@,
            ) + crate::link::code_text(code)
            &&& crate::link::failure_text(Failure::NotCommitted(Reason::Timeout)) == said(
                "sd-write did not commit: "@,
            ) + said("timed out reading error code"@)
        }),
{
}

/// What is said of any other failure.
pub proof fn what_is_said_of_any_other_failure(
    addr: u32,
    offset: usize,
    line: String,
    error: NumberError,
)
    ensures
        crate::link::failure_text(Failure::RejectedHeader) == said(
            "device rejected header (bad size/address?)"@,
        ),
        crate::link::failure_text(Failure::ChecksumMismatch) == said(
            "device reported overall checksum mismatch"@,
        ),
        crate::link::failure_text(Failure::HeaderTimeout) == said(
            "timed out waiting for stream header"@,
        ),
        crate::link::failure_text(Failure::StreamTimeout) == said("timed out mid-stream"@),
        crate::link::failure_text(Failure::RefusedExec(addr)) == said("device refused to exec 0x"@)
            + crate::text::hex(addr as nat, 1) + said(" (bad address?)"@),
        crate::link::failure_text(Failure::GaveUp(offset)) == said("giving up on chunk at "@)
            + count(offset as int) + said(" after "@) + count(5) + said(" retries"@),
        crate::link::failure_text(Failure::PathTooLong) == said(
            "path is too long for the protocol: out of range integral type conversion attempted"@,
        ),
        crate::link::failure_text(Failure::Listing(ListingError::Malformed(line))) == said(
            "malformed listing line from the device: "@,
        ) + said(crate::text::quoted(line@)),
        crate::link::failure_text(Failure::Listing(ListingError::BadSize(error))) == said(
            "listing entry has a non-numeric size: "@,
        ) + said(
            match error {
                NumberError::Empty => "cannot parse integer from empty string"@,
                NumberError::InvalidDigit => "invalid digit found in string"@,
                NumberError::TooLarge => "number too large to fit in target type"@,
            },
        ),
{
}

/// What is said on the way.
pub proof fn what_is_said_on_the_way(
    sending: Seq<u8>,
    done: usize,
    total: usize,
    attempt: u32,
    baud: u32,
    current: u32,
)
    ensures
        crate::link::note_text(Note::Sending, sending) == sending,
        crate::link::note_text(Note::Sent { done, total }, sending) == said("  "@) + count(
            done as int,
        ) + said("/"@) + count(total as int),
        crate::link::note_text(Note::Retrying { offset: done, attempt }, sending) == said(
            "  chunk at "@,
        ) + count(done as int) + said(" failed/timed out, retry "@) + count(attempt as int) + said(
            "/"@,
        ) + count(5),
        crate::link::note_text(Note::BadChunk { offset: done, attempt }, sending) == said(
            "  chunk at "@,
        ) + count(done as int) + said(" bad CRC, retry "@) + count(attempt as int) + said("/"@)
            + count(5),
        crate::link::note_text(Note::Declined { baud, current }, sending) == said(
            "Device declined "@,
        ) + count(baud as int) + said(" baud; staying at "@) + count(current as int),
{
}

/// What is said of an address or number that was not typed as one.
pub proof fn what_is_said_of_what_was_typed(typed: Seq<char>, error: NumberError)
    ensures
        crate::numbers::not_a_number(typed, error) == said(crate::text::quoted(typed)) + said(
            " is not a number: "@,
        ) + said(
            match error {
                NumberError::Empty => "cannot parse integer from empty string"@,
                NumberError::InvalidDigit => "invalid digit found in string"@,
                NumberError::TooLarge => "number too large to fit in target type"@,
            },
        ),
        crate::numbers::not_an_address(typed) == said(crate::text::quoted(typed)) + said(
            " is not a 7-bit I2C address (0x00-0x7f)"@,
        ),
        crate::manifest::bad_magic(typed) == said(
            "magic must be exactly four ASCII characters, not "@,
        ) + said(crate::text::quoted(typed)),
{
}

/// What is said of an EEPROM and of an image for one.
pub proof fn what_is_said_of_a_hat(address: u8, offset: u32, len: u32, place: Seq<u8>)
    ensures
        crate::hat::error_text(HatError::NoSignature { address, offset }) == said("0x"@)
            + crate::text::hex(address as nat, 2) + said(
            " does not hold a HAT image (no \"R-Pi\" signature at offset "@,
        ) + count(offset as int) + said("); pass --length to read it anyway"@),
        crate::hat::error_text(HatError::Implausible(len)) == said(
            "the HAT header claims an image length of "@,
        ) + count(len as int) + said(
            " bytes, which is not plausible; pass --length to read it anyway"@,
        ),
        crate::hat::image_text(Image::Empty, place) == Some(place + said(" is empty"@)),
        crate::hat::image_text(Image::Unsigned, place) == Some(
            said("Warning: "@) + place + said(
                " does not start with the HAT signature \"R-Pi\"; writing it anyway."@,
            ),
        ),
        crate::hat::image_text(Image::Fine, place) == None::<Seq<u8>>,
{
}

/// What is said as a transfer begins.
pub proof fn what_is_said_as_a_transfer_begins<P>(addr: u32, remote: String, len: nat)
    ensures
        crate::cli::sending_text(Step::<P>::MemWrite(addr), len) == said("Sending "@) + count(
            len as int,
        ) + said(" bytes to 0x"@) + crate::text::hex(addr as nat, 1) + said("..."@),
        crate::cli::sending_text(Step::<P>::SdWrite(remote), len) == said("Sending "@) + count(
            len as int,
        ) + said(" bytes -> "@) + said(remote@) + said("..."@),
{
}

/// What is said of what was done.
pub proof fn what_is_said_of_what_was_done<P>(
    addr: u32,
    remote: String,
    address: u8,
    offset: u32,
    local: P,
    len: nat,
    place: Seq<u8>,
)
    ensures
        crate::cli::done_text(Step::<P>::Wrote(addr), len, place) == Some(
            said("Wrote "@) + count(len as int) + said(" bytes to 0x"@) + crate::text::hex(
                addr as nat,
                1,
            ) + said("."@),
        ),
        crate::cli::done_text(Step::<P>::Exec(addr), len, place) == Some(
            said("Jumped to 0x"@) + crate::text::hex(addr as nat, 1) + said("."@),
        ),
        crate::cli::done_text(Step::<P>::SdDelete(remote), len, place) == Some(
            said("Deleted "@) + said(remote@),
        ),
        crate::cli::done_text(Step::<P>::SdMkdir(remote), len, place) == Some(
            said("Created directory "@) + said(remote@),
        ),
        crate::cli::done_text(Step::<P>::Programmed { address, offset }, len, place) == Some(
            said("Programmed and verified "@) + count(len as int) + said(" bytes at offset "@)
                + count(offset as int) + said(" of 0x"@) + crate::text::hex(address as nat, 2)
                + said("."@),
        ),
        crate::cli::done_text(Step::Save { local, from: Origin::Card(remote) }, len, place) == Some(
            said("Read "@) + count(len as int) + said(" bytes from "@) + said(remote@) + said(
                " -> "@,
            ) + place,
        ),
        crate::cli::done_text(Step::Save { local, from: Origin::Eeprom(address) }, len, place)
            == Some(
            said("Read "@) + count(len as int) + said(" bytes from "@) + (said("0x"@)
                + crate::text::hex(address as nat, 2)) + said(" -> "@) + place,
        ),
{
}

/// The line of a file that was packed: its path in a column, its size at the right
/// of nine, and its role if it is no mere file.
pub proof fn what_the_line_of_a_file_is(file: crate::manifest::Loaded, width: nat)
    ensures
        crate::manifest::file_text(file, width) == said("  "@) + crate::table::left(
            file.path@,
            width,
        ) + said("  "@) + crate::table::right(file.data@.len(), 9) + said(
            match file.role {
                crate::bundle::Role::File => ""@,
                crate::bundle::Role::Kernel => "  kernel"@,
                crate::bundle::Role::Firmware => "  firmware"@,
                crate::bundle::Role::Config => "  config"@,
            },
        ),
{
}

/// The line of a port: its name in a column, and what it is.
pub proof fn what_the_line_of_a_port_is(port: crate::ports::Port, width: nat)
    ensures
        crate::ports::port_text(port, width) == crate::table::left(port.name@, width) + said("  "@)
            + crate::ports::description(port.kind),
{
}

// --- What is handed over --------------------------------------------------------

/// What the host is told to send, show and wait for is what was decided, and what
/// came is what it is told.
pub proof fn the_host_does_what_was_decided(
    turn: crate::link::Turn<Vec<u8>>,
    bytes: Vec<u8>,
    entries: Vec<crate::link::Entry>,
    failure: Failure<String>,
)
    ensures
        ({
            let value = crate::link::turn_value(turn);
            &&& value.note == turn.note
            &&& value.show == turn.show@
            &&& value.check == turn.check
            &&& value.send == turn.send@
            &&& value.ask == turn.ask
        }),
        crate::link::event_value(crate::link::Event::Got(Some(bytes))) == (
        crate::link::Happening::Got(Some(bytes@))),
        crate::link::event_value(crate::link::Event::Got(None)) == (crate::link::Happening::Got(
            None,
        )),
        crate::link::event_value(crate::link::Event::Done) == crate::link::Happening::Done,
        crate::link::result_value(Ok(crate::link::Reply::Data(bytes))) == (Ok::<
            crate::link::Reply<Seq<u8>, Seq<crate::listing::Item>>,
            Failure<Seq<u8>>,
        >(crate::link::Reply::Data(bytes@))),
        ({
            let value = crate::link::result_value(Ok(crate::link::Reply::Listing(entries)));
            value matches Ok(crate::link::Reply::Listing(items)) && items.len() == entries@.len()
                && forall|i: int|
                0 <= i < items.len() ==> (#[trigger] items[i]).is_dir == entries@[i].is_dir
                    && items[i].size == entries@[i].size && items[i].name
                    == vstd::utf8::encode_utf8(entries@[i].name@)
        }),
        crate::link::result_value(Err(failure)) is Err,
        match (failure, crate::link::failure_value(failure)) {
            (Failure::RejectedHeader, Failure::RejectedHeader) => true,
            (Failure::ChecksumMismatch, Failure::ChecksumMismatch) => true,
            (Failure::RefusedExec(a), Failure::RefusedExec(b)) => a == b,
            (
                Failure::Command { what: a, reason: r },
                Failure::Command { what: b, reason: s },
            ) => a == b && r == s,
            (Failure::NotCommitted(a), Failure::NotCommitted(b)) => a == b,
            (Failure::HeaderTimeout, Failure::HeaderTimeout) => true,
            (Failure::StreamTimeout, Failure::StreamTimeout) => true,
            (Failure::GaveUp(a), Failure::GaveUp(b)) => a == b,
            (Failure::PathTooLong, Failure::PathTooLong) => true,
            (
                Failure::Listing(ListingError::Malformed(a)),
                Failure::Listing(ListingError::Malformed(b)),
            ) => b == vstd::utf8::encode_utf8(a@),
            (
                Failure::Listing(ListingError::BadSize(a)),
                Failure::Listing(ListingError::BadSize(b)),
            ) => a == b,
            _ => false,
        },
{
}

/// What the board is asked for and sent is what was decided, and what it answers is
/// what the loader is told.
pub proof fn the_board_does_what_was_decided(
    turn: crate::device::Turn<Vec<u8>, String>,
    bytes: Vec<u8>,
    lines: Vec<crate::device::Line<String>>,
)
    ensures
        ({
            let value = crate::device::turn_value(turn);
            &&& value.send == turn.send@
            &&& match (turn.ask, value.ask) {
                (crate::device::Ask::Read(a), crate::device::Ask::Read(b)) => a == b,
                (
                    crate::device::Ask::Store { at: a, bytes: x },
                    crate::device::Ask::Store { at: b, bytes: y },
                ) => a == b && x@ == y,
                (
                    crate::device::Ask::Fetch { at: a, len: m },
                    crate::device::Ask::Fetch { at: b, len: n },
                ) => a == b && m == n,
                (crate::device::Ask::SetBaud(a), crate::device::Ask::SetBaud(b)) => a == b,
                (crate::device::Ask::Jump(a), crate::device::Ask::Jump(b)) => a == b,
                (crate::device::Ask::ChangeDir(a), crate::device::Ask::ChangeDir(b)) => b
                    == vstd::utf8::encode_utf8(a@),
                (
                    crate::device::Ask::OpenFile { name: a, create: c },
                    crate::device::Ask::OpenFile { name: b, create: d },
                ) => b == vstd::utf8::encode_utf8(a@) && c == d,
                (crate::device::Ask::ReadFile(a), crate::device::Ask::ReadFile(b)) => a == b,
                (crate::device::Ask::WriteFile(a), crate::device::Ask::WriteFile(b)) => b == a@,
                (crate::device::Ask::DeleteFile(a), crate::device::Ask::DeleteFile(b)) => b
                    == vstd::utf8::encode_utf8(a@),
                (crate::device::Ask::MakeDir(a), crate::device::Ask::MakeDir(b)) => b
                    == vstd::utf8::encode_utf8(a@),
                (crate::device::Ask::StartCard, crate::device::Ask::StartCard) => true,
                (crate::device::Ask::OpenVolume, crate::device::Ask::OpenVolume) => true,
                (crate::device::Ask::OpenRoot, crate::device::Ask::OpenRoot) => true,
                (crate::device::Ask::ListDir, crate::device::Ask::ListDir) => true,
                (crate::device::Ask::CloseFile, crate::device::Ask::CloseFile) => true,
                (crate::device::Ask::Again, crate::device::Ask::Again) => true,
                _ => false,
            }
        }),
        crate::device::event_value(crate::device::Event::Bytes(bytes)) == (
        crate::device::Happening::Bytes(bytes@)),
        ({
            let value = crate::device::lines_value(lines@);
            &&& crate::device::event_value(crate::device::Event::Listing(lines)) == (
            crate::device::Happening::Listing(value))
            &&& value.len() == lines@.len()
            &&& forall|i: int|
                0 <= i < value.len() ==> (#[trigger] value[i]).is_dir == lines@[i].is_dir
                    && value[i].size == lines@[i].size && value[i].name == vstd::utf8::encode_utf8(
                    lines@[i].name@,
                )
        }),
{
}

/// Lists of texts and of entries are handed over one by one, and bytes that are
/// text are read as themselves.
pub proof fn lists_are_handed_over_one_by_one(
    texts: Seq<String>,
    entries: Seq<crate::bundle::Entry<'_>>,
    bytes: Seq<u8>,
)
    ensures
        crate::text::texts(texts).len() == texts.len(),
        forall|i: int|
            0 <= i < texts.len() ==> #[trigger] crate::text::texts(texts)[i]
                == vstd::utf8::encode_utf8(texts[i]@),
        crate::bundle::views(entries).len() == entries.len(),
        forall|i: int|
            0 <= i < entries.len() ==> {
                &&& (#[trigger] crate::bundle::views(entries)[i]).role == entries[i].role
                &&& crate::bundle::views(entries)[i].path == vstd::utf8::encode_utf8(
                    entries[i].path@,
                )
                &&& crate::bundle::views(entries)[i].data == entries[i].data@
            },
        vstd::utf8::valid_utf8(bytes) ==> crate::text::read_as(bytes) == bytes,
        !vstd::utf8::valid_utf8(bytes) ==> crate::text::read_as(bytes) == vstd::utf8::encode_utf8(
            crate::text::lossy(bytes),
        ),
{
}

/// A bundle that was refused and a card that failed stay apart.
pub proof fn what_went_wrong_stays_apart<E>(
    refused: crate::bundle::Error,
    failed: resident_fat::Error<E>,
)
    ensures
        <crate::apply::Error<E> as vstd::std_specs::convert::FromSpec<
            crate::bundle::Error,
        >>::from_spec(refused) == crate::apply::Error::<E>::Bundle(refused),
        <crate::apply::Error<E> as vstd::std_specs::convert::FromSpec<
            resident_fat::Error<E>,
        >>::from_spec(failed) == crate::apply::Error::<E>::Storage(failed),
{
}

} // verus!
