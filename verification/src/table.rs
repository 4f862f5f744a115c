//! Lines of a table: texts and numbers padded to the width of their column.

use vstd::prelude::*;

use crate::listing::Entry;

verus! {

/// Some spaces.
pub open spec fn spaces(n: int) -> Seq<u8> {
    Seq::new(
        if n < 0 {
            0
        } else {
            n as nat
        },
        |i: int| 0x20u8,
    )
}

/// A text at the left of a column so many characters wide.
pub open spec fn left(text: Seq<char>, width: nat) -> Seq<u8> {
    vstd::utf8::encode_utf8(text) + spaces(width - text.len())
}

/// A number at the right of a column so many characters wide.
pub open spec fn right(value: nat, width: nat) -> Seq<u8> {
    spaces(width - crate::text::decimal(value).len()) + crate::text::decimal(value)
}

/// Appends as many spaces as `filled` characters are short of `width`.
fn push_spaces(out: &mut Vec<u8>, width: usize, filled: usize)
    requires
        vstd::utf8::valid_utf8(old(out)@),
    ensures
        final(out)@ == old(out)@ + spaces(width - filled),
        vstd::utf8::valid_utf8(final(out)@),
{
    let ghost before = out@;
    let mut at: usize = filled;
    proof {
        assert(before + spaces(0) =~= before);
        assert(width < filled ==> spaces(width - filled) =~= spaces(0));
    }
    while at < width
        invariant
            at <= width || at == filled,
            filled <= at,
            out@ == before + spaces(at - filled),
        decreases width - at,
    {
        out.push(0x20);
        proof {
            assert(spaces(at - filled).push(0x20) =~= spaces(at + 1 - filled));
            assert(out@ =~= before + spaces(at + 1 - filled));
        }
        at += 1;
    }
    proof {
        crate::text::lemma_ascii_is_valid(spaces(width - filled));
        vstd::utf8::valid_utf8_concat(before, spaces(width - filled));
    }
}

/// Appends a text at the left of a column.
pub fn push_left(out: &mut Vec<u8>, text: &str, width: usize)
    requires
        vstd::utf8::valid_utf8(old(out)@),
    ensures
        final(out)@ == old(out)@ + left(text@, width as nat),
        vstd::utf8::valid_utf8(final(out)@),
{
    let ghost before = out@;
    crate::text::push_text(out, text);
    push_spaces(out, width, text.unicode_len());
    proof {
        assert(out@ =~= before + left(text@, width as nat));
    }
}

/// Appends a number at the right of a column.
pub fn push_right(out: &mut Vec<u8>, value: u64, width: usize)
    requires
        vstd::utf8::valid_utf8(old(out)@),
    ensures
        final(out)@ == old(out)@ + right(value as nat, width as nat),
        vstd::utf8::valid_utf8(final(out)@),
{
    let ghost before = out@;
    let mut digits: Vec<u8> = Vec::new();
    crate::text::push_decimal(&mut digits, value);
    proof {
        assert(digits@ =~= crate::text::decimal(value as nat));
    }
    push_spaces(out, width, digits.len());
    crate::text::push_decimal_text(out, value);
    proof {
        assert(out@ =~= before + right(value as nat, width as nat));
    }
}

/// How an entry of a directory is printed: its size, its name, and a mark if it
/// is a directory.
pub open spec fn entry_text(entry: Entry) -> Seq<u8> {
    right(entry.size as nat, 12) + vstd::utf8::encode_utf8("  "@) + vstd::utf8::encode_utf8(
        entry.name@,
    ) + vstd::utf8::encode_utf8(
        if entry.is_dir {
            "/"@
        } else {
            ""@
        },
    )
}

/// The line for an entry of a directory.
pub fn entry_line(entry: &Entry) -> (res: String)
    ensures
        vstd::utf8::encode_utf8(res@) == entry_text(*entry),
{
    let mut line: Vec<u8> = Vec::new();
    push_right(&mut line, entry.size, 12);
    crate::text::push_text(&mut line, "  ");
    crate::text::push_text(&mut line, entry.name.as_str());
    crate::text::push_text(
        &mut line,
        if entry.is_dir {
            "/"
        } else {
            ""
        },
    );
    proof {
        assert(line@ =~= entry_text(*entry));
    }
    crate::text::to_text(&line)
}

} // verus!
