//! What is read from a device and printed for a user: names in order, listings,
//! ports, and what is packed.

use vstd::prelude::*;

use crate::bundle::Role;
use crate::layout::EntryView;
use crate::listing::{Item, ListingError};
use crate::manifest::{Contents, FileRole, Loaded, Manifest, Source};
use crate::ports::{Port, PortKind};

verus! {

// --- The order of names ---------------------------------------------------------

/// One name comes before another exactly if it has the smaller byte where they
/// first differ, or is what the other begins with.
pub proof fn which_name_comes_first(a: Seq<u8>, b: Seq<u8>)
    ensures
        crate::order::precedes(a, b) <==> exists|k: int|
            0 <= k <= a.len() && k < b.len() && #[trigger] a.take(k) == b.take(k) && (k == a.len()
                || a[k] < b[k]),
    decreases a.len(),
{
    if a.len() > 0 && b.len() > 0 && a[0] == b[0] {
        let x = a.skip(1);
        let y = b.skip(1);
        which_name_comes_first(x, y);
        if crate::order::precedes(a, b) {
            let k = choose|k: int|
                0 <= k <= x.len() && k < y.len() && #[trigger] x.take(k) == y.take(k) && (k
                    == x.len() || x[k] < y[k]);
            assert(a.take(k + 1) =~= seq![a[0]] + x.take(k));
            assert(b.take(k + 1) =~= seq![b[0]] + y.take(k));
            assert(a.take(k + 1) == b.take(k + 1));
        }
        if exists|k: int|
            0 <= k <= a.len() && k < b.len() && #[trigger] a.take(k) == b.take(k) && (k == a.len()
                || a[k] < b[k]) {
            let k = choose|k: int|
                0 <= k <= a.len() && k < b.len() && #[trigger] a.take(k) == b.take(k) && (k
                    == a.len() || a[k] < b[k]);
            assert(k > 0);
            assert(x.take(k - 1) =~= a.take(k).skip(1));
            assert(y.take(k - 1) =~= b.take(k).skip(1));
            assert(x.take(k - 1) == y.take(k - 1));
        }
    } else if b.len() > 0 {
        assert(a.take(0) =~= b.take(0));
        if exists|k: int|
            0 <= k <= a.len() && k < b.len() && #[trigger] a.take(k) == b.take(k) && (k == a.len()
                || a[k] < b[k]) {
            let k = choose|k: int|
                0 <= k <= a.len() && k < b.len() && #[trigger] a.take(k) == b.take(k) && (k
                    == a.len() || a[k] < b[k]);
            if k > 0 {
                assert(a.take(k)[0] == a[0] && b.take(k)[0] == b[0]);
            }
        }
    }
}

// --- Listings -------------------------------------------------------------------

/// What a line is without a carriage return at its end.
pub open spec fn without_return(line: Seq<u8>) -> Seq<u8> {
    if line.len() > 0 && line.last() == 0x0D {
        line.drop_last()
    } else {
        line
    }
}

/// A text is read line by line: what precedes a line feed is a line, without the
/// carriage return before it; what is left at the end is one if it is not empty.
pub proof fn what_the_lines_of_a_text_are(line: Seq<u8>, rest: Seq<u8>)
    requires
        forall|k: int| 0 <= k < line.len() ==> line[k] != 0x0A,
    ensures
        crate::listing::lines(Seq::empty()) == Seq::<Seq<u8>>::empty(),
        line.len() > 0 ==> crate::listing::lines(line) == seq![line],
        crate::listing::lines(line + seq![0x0Au8] + rest) == seq![without_return(line)]
            + crate::listing::lines(rest),
{
    crate::text::lemma_find(line, 0x0A, 0);
    let text = line + seq![0x0Au8] + rest;
    let n = line.len() as int;
    crate::text::lemma_found(text, 0x0A, 0, n);
    assert(text.skip(n + 1) =~= rest);
    assert(text.take(n) =~= line);
    if n > 0 {
        assert(text[n - 1] == line.last());
        assert(text.take(n - 1) =~= line.drop_last());
    }
}

/// A line of a listing is a kind, a size and a name, with tabs between them. The
/// kind `D` is a directory, the size a number in decimal, and the name all the
/// rest; a line with fewer tabs is refused, and so is a size that is no number.
pub proof fn what_a_line_of_a_listing_says(kind: Seq<u8>, size: Seq<u8>, name: Seq<u8>)
    requires
        forall|k: int| 0 <= k < kind.len() ==> kind[k] != 0x09,
        forall|k: int| 0 <= k < size.len() ==> size[k] != 0x09,
    ensures
        ({
            let line = kind + seq![0x09u8] + size + seq![0x09u8] + name;
            let number = crate::text::number(size, 10, 0xFFFF_FFFF_FFFF_FFFF);
            match crate::listing::item(line) {
                Ok(item) => number == Ok::<nat, crate::text::NumberError>(item.size as nat)
                    && item.name == name && item.is_dir == (kind == seq![0x44u8]),
                Err(ListingError::BadSize(error)) => number == Err::<
                    nat,
                    crate::text::NumberError,
                >(error),
                _ => false,
            }
        }),
        crate::listing::item(kind) == Err::<Item, ListingError<Seq<u8>>>(
            ListingError::Malformed(kind),
        ),
        crate::listing::item(kind + seq![0x09u8] + size) == Err::<Item, ListingError<Seq<u8>>>(
            ListingError::Malformed(kind + seq![0x09u8] + size),
        ),
{
    let line = kind + seq![0x09u8] + size + seq![0x09u8] + name;
    let a = kind.len() as int;
    let b = a + 1 + size.len();
    assert forall|k: int| a + 1 <= k < b implies line[k] != 0x09 by {
        assert(line[k] == size[k - a - 1]);
    }
    crate::text::lemma_found(line, 0x09, 0, a);
    crate::text::lemma_found(line, 0x09, a + 1, b);
    assert(line.subrange(a + 1, b) =~= size);
    assert(line.skip(b + 1) =~= name);
    assert(line.take(a) =~= kind);
    crate::text::lemma_number_fits(size, 10, u64::MAX as nat);

    crate::text::lemma_find(kind, 0x09, 0);
    let short = kind + seq![0x09u8] + size;
    assert forall|k: int| a + 1 <= k < short.len() implies short[k] != 0x09 by {
        assert(short[k] == size[k - a - 1]);
    }
    crate::text::lemma_found(short, 0x09, 0, a);
    crate::text::lemma_find(short, 0x09, a + 1);
}

/// A listing is read entry by entry, and the first line that is wrong fails it.
pub proof fn how_a_listing_is_read(line: Seq<u8>, rest: Seq<Seq<u8>>)
    ensures
        crate::listing::items(Seq::empty()) == Ok::<Seq<Item>, ListingError<Seq<u8>>>(Seq::empty()),
        ({
            let all = crate::listing::items(seq![line] + rest);
            match (crate::listing::item(line), crate::listing::items(rest)) {
                (Err(error), _) => all == Err::<Seq<Item>, ListingError<Seq<u8>>>(error),
                (Ok(_), Err(error)) => all == Err::<Seq<Item>, ListingError<Seq<u8>>>(error),
                (Ok(item), Ok(items)) => all == Ok::<Seq<Item>, ListingError<Seq<u8>>>(
                    seq![item] + items,
                ),
            }
        }),
{
    let lines = seq![line] + rest;
    assert(lines.first() == line);
    assert(lines.skip(1) =~= rest);
}

// --- Ports ----------------------------------------------------------------------

/// Filtering keeps as many of what it keeps as there were.
proof fn lemma_filter_counts(ports: Seq<Port>, keep: spec_fn(Port) -> bool, port: Port)
    requires
        keep(port),
    ensures
        ports.filter(keep).to_multiset().count(port) == ports.to_multiset().count(port),
    decreases ports.len(),
{
    broadcast use vstd::seq_lib::group_to_multiset_ensures;

    reveal(Seq::filter);
    if ports.len() > 0 {
        let fewer = ports.drop_last();
        let last = ports.last();
        lemma_filter_counts(fewer, keep, port);
        assert(ports =~= fewer.push(last));
        assert(ports.to_multiset() =~= fewer.to_multiset().insert(last));
        if keep(last) {
            assert(ports.filter(keep) =~= fewer.filter(keep).push(last));
            assert(ports.filter(keep).to_multiset() =~= fewer.filter(keep).to_multiset().insert(
                last,
            ));
        } else {
            assert(ports.filter(keep) =~= fewer.filter(keep));
        }
    } else {
        assert(ports.filter(keep) =~= ports);
    }
}

/// Every port is listed, or just those that are USB, and each of those once. USB
/// comes before everything else, and among the same kind the smaller name first.
pub proof fn how_ports_are_listed(out: Seq<Port>, ports: Seq<Port>, all: bool)
    requires
        crate::ports::is_arranged(out, crate::ports::shown(ports, all)),
    ensures
        out.to_multiset() == if all {
            ports.to_multiset()
        } else {
            ports.filter(|port: Port| port.kind is Usb).to_multiset()
        },
        forall|i: int, j: int|
            0 <= i < j < out.len() ==> {
                &&& (#[trigger] out[j]).kind is Usb ==> (#[trigger] out[i]).kind is Usb
                &&& (out[i].kind is Usb) == (out[j].kind is Usb) ==> !crate::order::precedes(
                    vstd::utf8::encode_utf8(out[j].name@),
                    vstd::utf8::encode_utf8(out[i].name@),
                )
            },
{
    let listed = crate::ports::shown(ports, all);
    assert forall|port: Port| out.to_multiset().count(port) == listed.to_multiset().count(port) by {
        let k = crate::ports::key(port);
        let keep = |p: Port| crate::ports::key(p) == k;
        lemma_filter_counts(out, keep, port);
        lemma_filter_counts(listed, keep, port);
        assert(crate::ports::with_key(out, k) == crate::ports::with_key(listed, k));
    }
    assert(out.to_multiset() =~= listed.to_multiset());
    assert(listed == if all {
        ports
    } else {
        ports.filter(|port: Port| port.kind is Usb)
    });
    assert forall|i: int, j: int| 0 <= i < j < out.len() implies {
        &&& (#[trigger] out[j]).kind is Usb ==> (#[trigger] out[i]).kind is Usb
        &&& (out[i].kind is Usb) == (out[j].kind is Usb) ==> !crate::order::precedes(
            vstd::utf8::encode_utf8(out[j].name@),
            vstd::utf8::encode_utf8(out[i].name@),
        )
    } by {
        assert(!crate::ports::is_before(crate::ports::key(out[j]), crate::ports::key(out[i])));
    }
}

/// The column of names is as wide as the longest of them.
pub proof fn how_wide_the_names_are(ports: Seq<Port>)
    ensures
        forall|i: int|
            0 <= i < ports.len() ==> vstd::utf8::encode_utf8((#[trigger] ports[i]).name@).len()
                <= crate::ports::name_width(ports),
        ports.len() == 0 ==> crate::ports::name_width(ports) == 0,
        ports.len() > 0 ==> exists|i: int|
            0 <= i < ports.len() && vstd::utf8::encode_utf8((#[trigger] ports[i]).name@).len()
                == crate::ports::name_width(ports),
    decreases ports.len(),
{
    if ports.len() > 0 {
        let fewer = ports.drop_last();
        how_wide_the_names_are(fewer);
        let width = crate::ports::name_width(ports);
        let n = ports.len() - 1;
        assert forall|i: int| 0 <= i < ports.len() implies vstd::utf8::encode_utf8(
            (#[trigger] ports[i]).name@,
        ).len() <= width by {
            if i < n {
                assert(fewer[i] == ports[i]);
            }
        }
        if vstd::utf8::encode_utf8(ports[n].name@).len() == width {
        } else {
            let i = choose|i: int|
                0 <= i < fewer.len() && vstd::utf8::encode_utf8((#[trigger] fewer[i]).name@).len()
                    == crate::ports::name_width(fewer);
            assert(ports[i] == fewer[i]);
        }
    }
}

/// A port is described by what it is; a USB one by what of its maker, product and
/// serial number it reports, around its numbers in four hexadecimal figures each.
pub proof fn how_a_port_is_described(
    vid: u16,
    pid: u16,
    manufacturer: String,
    product: String,
    serial: String,
)
    ensures
        ({
            let numbers = crate::text::hex(vid as nat, 4) + vstd::utf8::encode_utf8(":"@)
                + crate::text::hex(pid as nat, 4);
            let behind = numbers + vstd::utf8::encode_utf8("  serial "@) + vstd::utf8::encode_utf8(
                serial@,
            );
            let m = vstd::utf8::encode_utf8(manufacturer@);
            let p = vstd::utf8::encode_utf8(product@);
            let gap = vstd::utf8::encode_utf8("  "@);
            &&& crate::ports::description(
                PortKind::Usb {
                    vid,
                    pid,
                    manufacturer: None,
                    product: None,
                    serial_number: None,
                },
            ) == numbers
            &&& m.len() > 0 && p.len() > 0 ==> crate::ports::description(
                PortKind::Usb {
                    vid,
                    pid,
                    manufacturer: Some(manufacturer),
                    product: Some(product),
                    serial_number: Some(serial),
                },
            ) == m + vstd::utf8::encode_utf8(" "@) + p + gap + behind
            &&& p.len() > 0 ==> crate::ports::description(
                PortKind::Usb {
                    vid,
                    pid,
                    manufacturer: None,
                    product: Some(product),
                    serial_number: None,
                },
            ) == p + gap + numbers
            &&& m.len() > 0 ==> crate::ports::description(
                PortKind::Usb {
                    vid,
                    pid,
                    manufacturer: Some(manufacturer),
                    product: None,
                    serial_number: None,
                },
            ) == m + gap + numbers
        }),
        crate::ports::description(PortKind::Pci) == vstd::utf8::encode_utf8("PCI serial"@),
        crate::ports::description(PortKind::Bluetooth) == vstd::utf8::encode_utf8(
            "Bluetooth serial"@,
        ),
{
    let numbers = crate::text::hex(vid as nat, 4) + vstd::utf8::encode_utf8(":"@)
        + crate::text::hex(pid as nat, 4);
    assert(Seq::<u8>::empty() + numbers =~= numbers);
}

/// Whatever a USB port reports of itself, its description is its name and two
/// spaces, if it has a name, then its numbers, then its serial number if it has
/// one; its name is its maker and its product, with a space between them if it has
/// both.
pub proof fn how_any_usb_port_is_described(
    vid: u16,
    pid: u16,
    manufacturer: Option<String>,
    product: Option<String>,
    serial_number: Option<String>,
)
    ensures
        ({
            let none = Seq::<u8>::empty();
            let m = match manufacturer {
                Some(text) => vstd::utf8::encode_utf8(text@),
                None => none,
            };
            let p = match product {
                Some(text) => vstd::utf8::encode_utf8(text@),
                None => none,
            };
            let name = if manufacturer is Some && product is Some {
                m + vstd::utf8::encode_utf8(" "@) + p
            } else {
                m + p
            };
            let front = if name.len() > 0 {
                name + vstd::utf8::encode_utf8("  "@)
            } else {
                none
            };
            let numbers = crate::text::hex(vid as nat, 4) + vstd::utf8::encode_utf8(":"@)
                + crate::text::hex(pid as nat, 4);
            let behind = match serial_number {
                Some(text) => numbers + vstd::utf8::encode_utf8("  serial "@)
                    + vstd::utf8::encode_utf8(text@),
                None => numbers,
            };
            crate::ports::description(
                PortKind::Usb { vid, pid, manufacturer, product, serial_number },
            ) == front + behind
        }),
{
    let none = Seq::<u8>::empty();
    if let Some(text) = manufacturer {
        assert(vstd::utf8::encode_utf8(text@) + none =~= vstd::utf8::encode_utf8(text@));
    }
    if let Some(text) = product {
        assert(none + vstd::utf8::encode_utf8(text@) =~= vstd::utf8::encode_utf8(text@));
    }
    assert(none + none =~= none);
    assert(crate::ports::usb_name(manufacturer, product).len() == 0 ==> crate::ports::usb_name(
        manufacturer,
        product,
    ) =~= none);
}

// --- What is packed -------------------------------------------------------------

/// What a manifest names is packed in its order: the kernel first, as the kernel,
/// and then each file under its own role, where each is to go where it says. A
/// file may not claim to be the kernel.
pub proof fn what_a_manifest_names<P>(manifest: Manifest<P>, i: int)
    requires
        0 <= i < manifest.files@.len(),
    ensures
        ({
            let sources = crate::manifest::sources(manifest);
            let first = if manifest.kernel is Some {
                1int
            } else {
                0
            };
            let file = manifest.files@[i];
            let source = sources[first + i];
            &&& sources.len() == first + manifest.files@.len()
            &&& source.path == file.source && source.dest == file.dest
            &&& source.role == match file.role {
                FileRole::File => Some(Role::File),
                FileRole::Firmware => Some(Role::Firmware),
                FileRole::Config => Some(Role::Config),
                FileRole::Kernel => None,
            }
        }),
{
}

/// The kernel that a manifest names comes first, and has to be a file; nothing
/// else has to be.
pub proof fn the_kernel_comes_first_and_is_a_file<P>(manifest: Manifest<P>, source: Source<P>)
    ensures
        manifest.kernel matches Some(kernel) ==> {
            let first = crate::manifest::sources(manifest)[0];
            first.path == kernel.source && first.dest == kernel.dest && first.role == Some(
                Role::Kernel,
            )
        },
        crate::manifest::must_be_file(source) <==> source.role == Some(Role::Kernel),
{
}

/// A file is packed as one entry at its destination, and a directory as an entry
/// for each of its files in order, each behind the destination and a slash.
pub proof fn what_a_source_is_packed_as(role: Role, dest: Seq<u8>, contents: Contents)
    ensures
        ({
            let packed = crate::manifest::contents_entries(role, dest, contents);
            match contents {
                Contents::File(data) => packed.len() == 1 && packed[0] == (EntryView {
                    role,
                    path: dest,
                    data: data@,
                }),
                Contents::Directory(tree) => packed.len() == tree@.len() && forall|i: int|
                    0 <= i < packed.len() ==> #[trigger] packed[i] == (EntryView {
                        role,
                        path: dest + seq![0x2Fu8] + tree@[i].0,
                        data: tree@[i].1,
                    }),
            }
        }),
{
    reveal_strlit("/");
    crate::figures::lemma_ascii_text("/"@);
    assert(vstd::utf8::encode_utf8("/"@) =~= seq![0x2Fu8]);
}

/// What was loaded is packed as it was loaded.
pub proof fn what_was_loaded_is_packed(loaded: Seq<Loaded>, i: int)
    requires
        0 <= i < loaded.len(),
    ensures
        crate::manifest::entries(loaded).len() == loaded.len(),
        crate::manifest::entries(loaded)[i] == (EntryView {
            role: loaded[i].role,
            path: vstd::utf8::encode_utf8(loaded[i].path@),
            data: loaded[i].data@,
        }),
{
}

/// A magic is accepted exactly if it is four bytes long and every byte ASCII.
pub proof fn which_magics_are_accepted(magic: Seq<char>)
    ensures
        crate::manifest::is_magic(magic) <==> {
            let bytes = vstd::utf8::encode_utf8(magic);
            bytes.len() == 4 && bytes[0] <= 0x7F && bytes[1] <= 0x7F && bytes[2] <= 0x7F && bytes[3]
                <= 0x7F
        },
        magic.len() == 4 && vstd::utf8::is_ascii_chars(magic) ==> crate::manifest::is_magic(magic),
{
    if magic.len() == 4 && vstd::utf8::is_ascii_chars(magic) {
        vstd::utf8::is_ascii_chars_encode_utf8(magic);
        let bytes = vstd::utf8::encode_utf8(magic);
        assert forall|i: int| 0 <= i < bytes.len() implies bytes[i] < 0x80 by {
            assert(magic[i] as u8 == bytes[i]);
        }
    }
}

/// The column of paths is as wide as the longest of them.
pub proof fn how_wide_the_paths_are(loaded: Seq<Loaded>)
    ensures
        forall|i: int|
            0 <= i < loaded.len() ==> vstd::utf8::encode_utf8((#[trigger] loaded[i]).path@).len()
                <= crate::manifest::path_width(loaded),
        loaded.len() == 0 ==> crate::manifest::path_width(loaded) == 0,
        loaded.len() > 0 ==> exists|i: int|
            0 <= i < loaded.len() && vstd::utf8::encode_utf8((#[trigger] loaded[i]).path@).len()
                == crate::manifest::path_width(loaded),
    decreases loaded.len(),
{
    if loaded.len() > 0 {
        let fewer = loaded.drop_last();
        how_wide_the_paths_are(fewer);
        let width = crate::manifest::path_width(loaded);
        let n = loaded.len() - 1;
        assert forall|i: int| 0 <= i < loaded.len() implies vstd::utf8::encode_utf8(
            (#[trigger] loaded[i]).path@,
        ).len() <= width by {
            if i < n {
                assert(fewer[i] == loaded[i]);
            }
        }
        if vstd::utf8::encode_utf8(loaded[n].path@).len() == width {
        } else {
            let i = choose|i: int|
                0 <= i < fewer.len() && vstd::utf8::encode_utf8((#[trigger] fewer[i]).path@).len()
                    == crate::manifest::path_width(fewer);
            assert(loaded[i] == fewer[i]);
        }
    }
}

// --- The signature of a HAT -----------------------------------------------------

/// An image is a HAT's exactly if it begins with `R-Pi`.
pub proof fn which_images_are_signed(bytes: Seq<u8>)
    ensures
        crate::hat::is_signed(bytes) <==> bytes.len() >= 4 && bytes[0] == 0x52 && bytes[1] == 0x2D
            && bytes[2] == 0x50 && bytes[3] == 0x69,
{
    let sign = crate::hat::HAT_SIGNATURE@;
    assert(sign =~= seq![0x52u8, 0x2Du8, 0x50u8, 0x69u8]);
    if crate::hat::is_signed(bytes) {
        assert(bytes.take(4) =~= sign);
        assert(bytes[0] == bytes.take(4)[0] && bytes[1] == bytes.take(4)[1] && bytes[2]
            == bytes.take(4)[2] && bytes[3] == bytes.take(4)[3]);
    }
    if bytes.len() >= 4 && bytes[0] == 0x52 && bytes[1] == 0x2D && bytes[2] == 0x50 && bytes[3]
        == 0x69 {
        assert(bytes.take(4) =~= sign);
    }
}

// --- The checksum ---------------------------------------------------------------

/// What the checksum is: a register of all ones, into which each byte is taken bit
/// by bit, lowest first; each bit that leaves it as a one folds the polynomial in,
/// and at the end every bit is turned.
pub proof fn what_the_checksum_is(data: Seq<u8>, byte: u8, register: u32)
    ensures
        crate::crc32::crc32(Seq::empty()) == 0,
        crate::crc32::crc32(data) == !crate::crc32::crc32_register(data),
        crate::crc32::crc32_register(Seq::empty()) == 0xFFFF_FFFF,
        ({
            let b0 = crate::crc32::crc32_register(data) ^ (byte as u32);
            let b1 = crate::crc32::crc32_bit(b0);
            let b2 = crate::crc32::crc32_bit(b1);
            let b3 = crate::crc32::crc32_bit(b2);
            let b4 = crate::crc32::crc32_bit(b3);
            let b5 = crate::crc32::crc32_bit(b4);
            let b6 = crate::crc32::crc32_bit(b5);
            let b7 = crate::crc32::crc32_bit(b6);
            crate::crc32::crc32_register(data.push(byte)) == crate::crc32::crc32_bit(b7)
        }),
        register & 1 == 0 ==> crate::crc32::crc32_bit(register) == register >> 1,
        register & 1 != 0 ==> crate::crc32::crc32_bit(register) == (register >> 1) ^ 0xEDB8_8320,
{
    assert(data.push(byte).drop_last() =~= data);
    assert(!0xFFFF_FFFFu32 == 0) by (bit_vector);
}

} // verus!
