//! Directory listings as the host reads them: one line per entry, with kind,
//! size and name separated by tabs.

use vstd::prelude::*;

use crate::text::NumberError;

verus! {

/// One entry of an `sd-list` listing.
#[derive(Debug)]
pub struct Entry {
    /// Whether the entry is a directory rather than a file.
    pub is_dir: bool,
    /// Size in bytes as the device reported it.
    pub size: u64,
    /// Entry name within the listed directory.
    pub name: String,
}

/// An entry as a value: its name is the bytes of the name.
#[verifier::ext_equal]
pub struct Item {
    /// Whether the entry is a directory rather than a file.
    pub is_dir: bool,
    /// Size in bytes.
    pub size: u64,
    /// The name's bytes.
    pub name: Seq<u8>,
}

impl View for Entry {
    type V = Item;

    open spec fn view(&self) -> Item {
        Item {
            is_dir: self.is_dir,
            size: self.size,
            name: vstd::utf8::encode_utf8(self.name@),
        }
    }
}

/// Why a listing cannot be read. `T` is a text.
#[derive(Debug)]
#[verifier::ext_equal]
pub enum ListingError<T> {
    /// This line does not have three fields.
    Malformed(T),
    /// A size is not a number.
    BadSize(NumberError),
}

/// The values of some entries.
pub open spec fn items_of(entries: Seq<Entry>) -> Seq<Item> {
    entries.map_values(|entry: Entry| entry@)
}

/// The lines of a text: what stands between line feeds, without the carriage
/// return before one. A last line needs no line feed.
pub open spec fn lines(text: Seq<u8>) -> Seq<Seq<u8>>
    decreases text.len(),
{
    let end = crate::text::find(text, 0x0A, 0);
    if text.len() == 0 {
        Seq::empty()
    } else if end >= text.len() {
        seq![text]
    } else {
        proof {
            crate::text::lemma_find(text, 0x0A, 0);
        }
        seq![first_line(text)] + lines(text.skip(end + 1))
    }
}

/// The first line of a text that has a line feed.
pub open spec fn first_line(text: Seq<u8>) -> Seq<u8> {
    let end = crate::text::find(text, 0x0A, 0);
    if end > 0 && text[end - 1] == 0x0D {
        text.take(end - 1)
    } else {
        text.take(end)
    }
}

/// The entry that a line describes. The name is everything after the second
/// tab, so it may hold tabs itself.
pub open spec fn item(line: Seq<u8>) -> Result<Item, ListingError<Seq<u8>>> {
    let first = crate::text::find(line, 0x09, 0);
    let second = crate::text::find(line, 0x09, first + 1);
    if first >= line.len() || second >= line.len() {
        Err(ListingError::Malformed(line))
    } else {
        match crate::text::number(line.subrange(first + 1, second), 10, u64::MAX as nat) {
            Err(error) => Err(ListingError::BadSize(error)),
            Ok(size) => Ok(
                Item {
                    is_dir: line.take(first) == seq![0x44u8],
                    size: size as u64,
                    name: line.skip(second + 1),
                },
            ),
        }
    }
}

/// The entries that lines describe, or the first thing wrong.
pub open spec fn items(lines: Seq<Seq<u8>>) -> Result<Seq<Item>, ListingError<Seq<u8>>>
    decreases lines.len(),
{
    if lines.len() == 0 {
        Ok(Seq::empty())
    } else {
        match item(lines.first()) {
            Err(error) => Err(error),
            Ok(first) => match items(lines.skip(1)) {
                Err(error) => Err(error),
                Ok(rest) => Ok(seq![first] + rest),
            },
        }
    }
}

/// The value of an error.
pub open spec fn error_value(error: ListingError<String>) -> ListingError<Seq<u8>> {
    match error {
        ListingError::Malformed(line) => ListingError::Malformed(
            vstd::utf8::encode_utf8(line@),
        ),
        ListingError::BadSize(number) => ListingError::BadSize(number),
    }
}

/// Reads one line of a listing.
fn parse_line(line: &str) -> (res: Result<Entry, ListingError<String>>)
    ensures
        match res {
            Ok(entry) => item(vstd::utf8::encode_utf8(line@)) == Ok::<
                Item,
                ListingError<Seq<u8>>,
            >(entry@),
            Err(error) => item(vstd::utf8::encode_utf8(line@)) == Err::<
                Item,
                ListingError<Seq<u8>>,
            >(error_value(error)),
        },
{
    let bytes = line.as_bytes();
    let ghost all = bytes@;
    let first: usize = crate::text::find_byte(bytes, 0x09, 0);
    proof {
        crate::text::lemma_find(all, 0x09, 0);
        crate::text::lemma_find(all, 0x09, first + 1);
    }
    if first >= bytes.len() {
        return Err(ListingError::Malformed(line.to_owned()));
    }
    let second: usize = crate::text::find_byte(bytes, 0x09, first + 1);
    if second >= bytes.len() {
        return Err(ListingError::Malformed(line.to_owned()));
    }
    let digits = crate::text::part(bytes, first + 1, second);
    let size: u64 = match crate::text::parse_number(digits, 10, u64::MAX) {
        Ok(size) => size,
        Err(error) => return Err(ListingError::BadSize(error)),
    };
    let kind = crate::text::part(bytes, 0, first);
    let directory: [u8; 1] = [0x44];
    proof {
        assert(kind@ =~= all.take(first as int));
        assert(directory@ =~= seq![0x44u8]);
    }
    let is_dir = crate::text::equal_bytes(kind, &directory);
    let (_, name) = crate::text::split_around(line, second);
    Ok(Entry { is_dir, size, name: name.to_owned() })
}

/// Reads a listing.
pub fn parse_listing(listing: &str) -> (res: Result<Vec<Entry>, ListingError<String>>)
    ensures
        match res {
            Ok(entries) => items(lines(vstd::utf8::encode_utf8(listing@))) == Ok::<
                Seq<Item>,
                ListingError<Seq<u8>>,
            >(items_of(entries@)),
            Err(error) => items(lines(vstd::utf8::encode_utf8(listing@))) == Err::<
                Seq<Item>,
                ListingError<Seq<u8>>,
            >(error_value(error)),
        },
{
    let ghost all = items(lines(vstd::utf8::encode_utf8(listing@)));
    let mut entries: Vec<Entry> = Vec::new();
    let mut rest = listing;
    loop
        invariant_except_break
            ({
                let left = items(lines(vstd::utf8::encode_utf8(rest@)));
                all == match left {
                    Err(error) => Err::<Seq<Item>, ListingError<Seq<u8>>>(error),
                    Ok(others) => Ok(items_of(entries@) + others),
                }
            }),
        invariant
            all == items(lines(vstd::utf8::encode_utf8(listing@))),
        ensures
            all == Ok::<Seq<Item>, ListingError<Seq<u8>>>(items_of(entries@)),
        decreases vstd::utf8::encode_utf8(rest@).len(),
    {
        let ghost text = vstd::utf8::encode_utf8(rest@);
        let ghost left = lines(text);
        let ghost held = entries@;
        let bytes = rest.as_bytes();
        if bytes.len() == 0 {
            proof {
                assert(items_of(entries@) + Seq::<Item>::empty() =~= items_of(entries@));
            }
            break;
        }
        let end: usize = crate::text::find_byte(bytes, 0x0A, 0);
        proof {
            crate::text::lemma_find(text, 0x0A, 0);
        }
        if end >= bytes.len() {
            proof {
                reveal_with_fuel(items, 3);
                assert(left =~= seq![text]);
                assert(left.skip(1) =~= Seq::<Seq<u8>>::empty());
                assert(left.first() == text);
            }
            let entry = match parse_line(rest) {
                Ok(entry) => entry,
                Err(error) => return Err(error),
            };
            entries.push(entry);
            proof {
                assert(items_of(entries@) =~= items_of(held) + (seq![entry@]
                    + Seq::<Item>::empty()));
            }
            break;
        }
        let (head, tail) = crate::text::split_around(rest, end);
        let line = if end > 0 && bytes[end - 1] == 0x0D {
            let line = crate::text::cut(head, end - 1).0;
            proof {
                assert(vstd::utf8::encode_utf8(line@) =~= text.take(end - 1));
            }
            line
        } else {
            head
        };
        proof {
            assert(vstd::utf8::encode_utf8(line@) == first_line(text));
            assert(left == seq![first_line(text)] + lines(text.skip(end + 1)));
            assert(left.first() == first_line(text));
            assert(left.skip(1) =~= lines(text.skip(end + 1)));
        }
        let entry = match parse_line(line) {
            Ok(entry) => entry,
            Err(error) => return Err(error),
        };
        entries.push(entry);
        proof {
            assert(items_of(entries@) =~= items_of(held).push(entry@));
            let rest_items = items(lines(text.skip(end + 1)));
            if let Ok(others) = rest_items {
                assert(items_of(entries@) + others =~= items_of(held) + (seq![entry@] + others));
            }
        }
        rest = tail;
    }
    Ok(entries)
}

} // verus!
