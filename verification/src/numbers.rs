//! Numbers as they are typed on a command line: in any of the bases a user is
//! likely to use, such as `0x8000`, `0b1010`, `0o755`, `1500000` or
//! `1_500_000`.

use vstd::prelude::*;

use crate::text::NumberError;

verus! {

/// Whether a character has Unicode's `White_Space` property.
pub open spec fn is_white_space(c: char) -> bool {
    let n = c as u32;
    ||| 0x09 <= n <= 0x0D
    ||| n == 0x20
    ||| n == 0x85
    ||| n == 0xA0
    ||| n == 0x1680
    ||| 0x2000 <= n <= 0x200A
    ||| n == 0x2028
    ||| n == 0x2029
    ||| n == 0x202F
    ||| n == 0x205F
    ||| n == 0x3000
}

/// A text without the white space at either end.
pub open spec fn trimmed(text: Seq<char>) -> Seq<char>
    decreases text.len(),
{
    if text.len() == 0 {
        text
    } else if is_white_space(text.first()) {
        trimmed(text.skip(1))
    } else if is_white_space(text.last()) {
        trimmed(text.drop_last())
    } else {
        text
    }
}

/// What is left of a typed number: no white space around it, and no
/// underscores in it.
pub open spec fn bare(typed: Seq<char>) -> Seq<char> {
    trimmed(typed).filter(|c: char| c != '_')
}

/// The base that the first two characters of a number stand for, if they do.
pub open spec fn prefix(text: Seq<char>) -> Option<nat> {
    if text.len() < 2 || text[0] != '0' {
        None
    } else if text[1] == 'x' || text[1] == 'X' {
        Some(16)
    } else if text[1] == 'b' || text[1] == 'B' {
        Some(2)
    } else if text[1] == 'o' || text[1] == 'O' {
        Some(8)
    } else {
        None
    }
}

/// A character as a byte. What is not ASCII becomes a byte that is no digit in
/// any base.
pub open spec fn ascii(c: char) -> u8 {
    if (c as u32) < 0x80 {
        c as u8
    } else {
        0xFF
    }
}

/// The number, of at most 32 bits, that was typed.
pub open spec fn typed_number(typed: Seq<char>) -> Result<nat, NumberError> {
    let text = bare(typed);
    match prefix(text) {
        Some(radix) => crate::text::number(
            text.skip(2).map_values(|c: char| ascii(c)),
            radix,
            u32::MAX as nat,
        ),
        None => crate::text::number(
            text.map_values(|c: char| ascii(c)),
            10,
            u32::MAX as nat,
        ),
    }
}

/// Whether a character has Unicode's `White_Space` property.
pub(crate) fn white_space(c: char) -> (res: bool)
    ensures
        res == is_white_space(c),
{
    let n: u32 = c as u32;
    (0x09 <= n && n <= 0x0D) || n == 0x20 || n == 0x85 || n == 0xA0 || n == 0x1680 || (0x2000 <= n
        && n <= 0x200A) || n == 0x2028 || n == 0x2029 || n == 0x202F || n == 0x205F || n == 0x3000
}

/// The characters of a text.
pub(crate) fn characters(text: &str) -> (res: Vec<char>)
    ensures
        res@ == text@,
{
    let mut all: Vec<char> = Vec::new();
    for c in it: text.chars()
        invariant
            all@ == it.seq().take(it.index()),
            it.seq() == text@,
    {
        all.push(c);
        proof {
            assert(all@ =~= it.seq().take(it.index() + 1));
        }
    }
    proof {
        assert(all@ =~= text@);
    }
    all
}

/// What is left of a typed number.
fn strip(typed: &str) -> (res: Vec<char>)
    ensures
        res@ == bare(typed@),
{
    let all = characters(typed);
    let mut start: usize = 0;
    let mut end: usize = all.len();
    proof {
        assert(all@.subrange(0, end as int) =~= all@);
    }
    while start < end && white_space(all[start])
        invariant
            start <= end == all@.len(),
            trimmed(all@) == trimmed(all@.subrange(start as int, end as int)),
        decreases end - start,
    {
        proof {
            assert(all@.subrange(start as int, end as int).skip(1) =~= all@.subrange(
                start + 1,
                end as int,
            ));
        }
        start += 1;
    }
    while start < end && white_space(all[end - 1])
        invariant
            start <= end <= all@.len(),
            start < end ==> !is_white_space(all@[start as int]),
            trimmed(all@) == trimmed(all@.subrange(start as int, end as int)),
        decreases end - start,
    {
        proof {
            let now = all@.subrange(start as int, end as int);
            assert(now.drop_last() =~= all@.subrange(start as int, end - 1));
            assert(now.first() == all@[start as int]);
            assert(now.last() == all@[end - 1]);
        }
        end -= 1;
    }
    let ghost text = all@.subrange(start as int, end as int);
    proof {
        if start < end {
            assert(text.first() == all@[start as int]);
            assert(text.last() == all@[end - 1]);
        }
        assert(trimmed(all@) == text);
    }
    let mut left: Vec<char> = Vec::new();
    let mut at: usize = start;
    let ghost keep = |c: char| c != '_';
    proof {
        assert(text.take(0).filter(keep) =~= Seq::<char>::empty()) by {
            reveal(Seq::filter);
        }
    }
    while at < end
        invariant
            start <= at <= end <= all@.len(),
            text == all@.subrange(start as int, end as int),
            keep == (|c: char| c != '_'),
            left@ == text.take(at - start).filter(keep),
        decreases end - at,
    {
        proof {
            let next = text.take(at - start + 1);
            assert(next.drop_last() =~= text.take(at - start));
            assert(next.last() == all@[at as int]);
            reveal(Seq::filter);
        }
        if all[at] != '_' {
            left.push(all[at]);
        }
        at += 1;
    }
    proof {
        assert(text.take(end - start) =~= text);
    }
    left
}

/// Characters from `from` on, as bytes.
fn to_bytes(text: &Vec<char>, from: usize) -> (res: Vec<u8>)
    requires
        from <= text@.len(),
    ensures
        res@ == text@.skip(from as int).map_values(|c: char| ascii(c)),
{
    let mut bytes: Vec<u8> = Vec::new();
    let mut at: usize = from;
    while at < text.len()
        invariant
            from <= at <= text@.len(),
            bytes@.len() == at - from,
            forall|i: int| 0 <= i < bytes@.len() ==> bytes@[i] == ascii(#[trigger] text@[from + i]),
        decreases text@.len() - at,
    {
        let c = text[at];
        let byte: u8 = if (c as u32) < 0x80 {
            c as u8
        } else {
            0xFF
        };
        bytes.push(byte);
        at += 1;
    }
    proof {
        let whole = text@.skip(from as int).map_values(|c: char| ascii(c));
        assert forall|i: int| 0 <= i < whole.len() implies bytes@[i] == whole[i] by {
            assert(text@[from + i] == text@.skip(from as int)[i]);
        }
        assert(bytes@ =~= whole);
    }
    bytes
}

/// The number that was typed.
pub fn read_number(typed: &str) -> (res: Result<u32, NumberError>)
    ensures
        match res {
            Ok(value) => typed_number(typed@) == Ok::<nat, NumberError>(value as nat),
            Err(error) => typed_number(typed@) == Err::<nat, NumberError>(error),
        },
{
    let text = strip(typed);
    let radix: u32 = if text.len() < 2 || text[0] != '0' {
        0
    } else if text[1] == 'x' || text[1] == 'X' {
        16
    } else if text[1] == 'b' || text[1] == 'B' {
        2
    } else if text[1] == 'o' || text[1] == 'O' {
        8
    } else {
        0
    };
    let digits = if radix == 0 {
        to_bytes(&text, 0)
    } else {
        to_bytes(&text, 2)
    };
    proof {
        assert(text@.skip(0) =~= text@);
    }
    let base: u32 = if radix == 0 {
        10
    } else {
        radix
    };
    match crate::text::parse_number(digits.as_slice(), base, u32::MAX as u64) {
        Ok(value) => {
            proof {
                crate::text::lemma_number_fits(digits@, base as nat, u32::MAX as nat);
            }
            Ok(value as u32)
        },
        Err(error) => Err(error),
    }
}

/// The text of a complaint about a number.
pub open spec fn not_a_number(typed: Seq<char>, error: NumberError) -> Seq<u8> {
    vstd::utf8::encode_utf8(crate::text::quoted(typed)) + vstd::utf8::encode_utf8(
        " is not a number: "@,
    ) + vstd::utf8::encode_utf8(crate::text::number_error(error))
}

/// The text of a complaint about an address on the I2C bus.
pub open spec fn not_an_address(typed: Seq<char>) -> Seq<u8> {
    vstd::utf8::encode_utf8(crate::text::quoted(typed)) + vstd::utf8::encode_utf8(
        " is not a 7-bit I2C address (0x00-0x7f)"@,
    )
}

/// Parses an address or a baud.
pub fn parse_u32(s: &str) -> (res: Result<u32, String>)
    ensures
        match (typed_number(s@), res) {
            (Ok(number), Ok(value)) => value == number,
            (Err(error), Err(text)) => vstd::utf8::encode_utf8(text@) == not_a_number(s@, error),
            _ => false,
        },
{
    match read_number(s) {
        Ok(value) => Ok(value),
        Err(error) => {
            let mut text: Vec<u8> = Vec::new();
            crate::text::push_text(&mut text, crate::text::quote(s).as_str());
            crate::text::push_text(&mut text, " is not a number: ");
            crate::text::push_text(&mut text, error.message());
            proof {
                assert(text@ =~= not_a_number(s@, error));
            }
            Err(crate::text::to_text(&text))
        },
    }
}

/// Parses a 7-bit I2C address. Some of them are reserved, but a part answering
/// there is the user's business: only the range is enforced.
pub fn parse_i2c_address(s: &str) -> (res: Result<u8, String>)
    ensures
        match (typed_number(s@), res) {
            (Ok(number), Ok(value)) => value == number && number <= 0x7F,
            (Ok(number), Err(text)) => number > 0x7F && vstd::utf8::encode_utf8(text@)
                == not_an_address(s@),
            (Err(error), Err(text)) => vstd::utf8::encode_utf8(text@) == not_a_number(s@, error),
            _ => false,
        },
{
    let value: u32 = match parse_u32(s) {
        Ok(value) => value,
        Err(text) => return Err(text),
    };
    if value <= 0x7F {
        return Ok(value as u8);
    }
    let mut text: Vec<u8> = Vec::new();
    crate::text::push_text(&mut text, crate::text::quote(s).as_str());
    crate::text::push_text(&mut text, " is not a 7-bit I2C address (0x00-0x7f)");
    proof {
        assert(text@ =~= not_an_address(s@));
    }
    Err(crate::text::to_text(&text))
}

} // verus!
