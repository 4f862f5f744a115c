//! Bytes and text.

use vstd::prelude::*;

verus! {

/// The error of [`core::str::from_utf8`], which nothing here looks into.
#[verifier::external_type_specification]
#[verifier::external_body]
pub struct ExUtf8Error(core::str::Utf8Error);

/// [`core::str::from_utf8`] accepts exactly the valid UTF-8 sequences, and
/// gives back a string of the same bytes.
pub assume_specification[ core::str::from_utf8 ](v: &[u8]) -> (res: Result<
    &str,
    core::str::Utf8Error,
>)
    ensures
        res is Ok <==> vstd::utf8::valid_utf8(v@),
        res matches Ok(text) ==> vstd::utf8::encode_utf8(text@) == v@,
;

/// Whether two byte strings are equal.
pub fn equal_bytes(a: &[u8], b: &[u8]) -> (res: bool)
    ensures
        res == (a@ == b@),
{
    if a.len() != b.len() {
        return false;
    }
    let mut at: usize = 0;
    while at < a.len()
        invariant
            at <= a@.len(),
            a@.len() == b@.len(),
            forall|i: int| 0 <= i < at ==> a@[i] == b@[i],
        decreases a@.len() - at,
    {
        if a[at] != b[at] {
            return false;
        }
        at += 1;
    }
    proof {
        assert(a@ =~= b@);
    }
    true
}

/// An ASCII letter in lower case; anything else as it is.
pub fn to_lower(byte: u8) -> (res: u8)
    ensures
        res == crate::layout::lower(byte),
{
    if 0x41 <= byte && byte <= 0x5A {
        byte + 0x20
    } else {
        byte
    }
}

/// Whether two byte strings are equal up to the case of ASCII letters.
pub fn equal_ignoring_case(a: &[u8], b: &[u8]) -> (res: bool)
    ensures
        res == crate::layout::same_name(a@, b@),
{
    if a.len() != b.len() {
        return false;
    }
    let mut at: usize = 0;
    while at < a.len()
        invariant
            at <= a@.len(),
            a@.len() == b@.len(),
            forall|i: int|
                0 <= i < at ==> crate::layout::lower(#[trigger] a@[i]) == crate::layout::lower(
                    b@[i],
                ),
        decreases a@.len() - at,
    {
        if to_lower(a[at]) != to_lower(b[at]) {
            return false;
        }
        at += 1;
    }
    true
}

/// The stretch of `bytes` from `start` to `end`.
pub fn part(bytes: &[u8], start: usize, end: usize) -> (res: &[u8])
    requires
        start <= end <= bytes@.len(),
    ensures
        res@ == bytes@.subrange(start as int, end as int),
{
    vstd::slice::slice_subrange(bytes, start, end)
}

/// The text before the ASCII byte at `at`, and the text from there on.
pub fn cut(text: &str, at: usize) -> (res: (&str, &str))
    requires
        at < vstd::utf8::encode_utf8(text@).len(),
        vstd::utf8::encode_utf8(text@)[at as int] < 0x80,
    ensures
        vstd::utf8::encode_utf8(res.0@) == vstd::utf8::encode_utf8(text@).take(at as int),
        vstd::utf8::encode_utf8(res.1@) == vstd::utf8::encode_utf8(text@).skip(at as int),
{
    proof {
        vstd::utf8::encode_utf8_valid_utf8(text@);
        vstd::utf8::is_char_boundary_iff_not_is_continuation_byte(
            vstd::utf8::encode_utf8(text@),
            at as int,
        );
    }
    text.split_at(at)
}

// --- Looking for a byte -----------------------------------------------------

/// Where `byte` first occurs in `bytes` at or after `from`, or their length.
pub open spec fn find(bytes: Seq<u8>, byte: u8, from: int) -> int
    decreases bytes.len() - from,
{
    if from >= bytes.len() {
        bytes.len() as int
    } else if bytes[from] == byte {
        from
    } else {
        find(bytes, byte, from + 1)
    }
}

/// What is found is there, and not before.
pub proof fn lemma_find(bytes: Seq<u8>, byte: u8, from: int)
    requires
        0 <= from,
    ensures
        find(bytes, byte, from) <= bytes.len(),
        from <= bytes.len() ==> from <= find(bytes, byte, from),
        find(bytes, byte, from) < bytes.len() ==> bytes[find(bytes, byte, from)] == byte,
        forall|k: int| from <= k < find(bytes, byte, from) ==> bytes[k] != byte,
    decreases bytes.len() - from,
{
    if from < bytes.len() && bytes[from] != byte {
        lemma_find(bytes, byte, from + 1);
    }
}

/// What is there, and not before, is found.
pub proof fn lemma_found(bytes: Seq<u8>, byte: u8, from: int, at: int)
    requires
        0 <= from <= at < bytes.len(),
        bytes[at] == byte,
        forall|k: int| from <= k < at ==> bytes[k] != byte,
    ensures
        find(bytes, byte, from) == at,
{
    lemma_find(bytes, byte, from);
}

/// Where `byte` first occurs in `bytes` at or after `from`, or their length.
pub fn find_byte(bytes: &[u8], byte: u8, from: usize) -> (res: usize)
    ensures
        res == find(bytes@, byte, from as int),
{
    let mut at: usize = from;
    while at < bytes.len() && bytes[at] != byte
        invariant
            from <= at,
            from <= bytes@.len() ==> at <= bytes@.len(),
            find(bytes@, byte, from as int) == find(bytes@, byte, at as int),
        decreases bytes@.len() - at,
    {
        at += 1;
    }
    if at < bytes.len() {
        at
    } else {
        bytes.len()
    }
}

// --- Numbers --------------------------------------------------------------

/// A number in decimal, without leading zeros.
pub open spec fn decimal(value: nat) -> Seq<u8>
    decreases value,
{
    if value < 10 {
        seq![(0x30 + value) as u8]
    } else {
        decimal(value / 10).push((0x30 + value % 10) as u8)
    }
}

/// Appends a number in decimal.
pub fn push_decimal(out: &mut Vec<u8>, value: u64)
    ensures
        final(out)@ == old(out)@ + decimal(value as nat),
    decreases value,
{
    if value >= 10 {
        push_decimal(out, value / 10);
    }
    out.push(0x30 + (value % 10) as u8);
    proof {
        assert(out@ =~= old(out)@ + decimal(value as nat));
    }
}

/// A hexadecimal digit, in lower case.
pub open spec fn hex_digit(value: nat) -> u8 {
    if value < 10 {
        (0x30 + value) as u8
    } else {
        (0x61 + value - 10) as u8
    }
}

/// A number in hexadecimal, in at least `width` digits.
pub open spec fn hex(value: nat, width: nat) -> Seq<u8>
    decreases value, width,
{
    if value < 16 && width <= 1 {
        seq![hex_digit(value)]
    } else {
        hex(
            value / 16,
            if width == 0 {
                0
            } else {
                (width - 1) as nat
            },
        ).push(hex_digit(value % 16))
    }
}

/// Hexadecimal digits are ASCII.
pub proof fn lemma_hex(value: nat, width: nat)
    ensures
        hex(value, width).len() > 0,
        forall|i: int| 0 <= i < hex(value, width).len() ==> #[trigger] hex(value, width)[i] < 0x80,
    decreases value, width,
{
    if !(value < 16 && width <= 1) {
        lemma_hex(
            value / 16,
            if width == 0 {
                0
            } else {
                (width - 1) as nat
            },
        );
    }
}

/// Appends a number in hexadecimal, in at least `width` digits.
fn push_hex(out: &mut Vec<u8>, value: u64, width: u64)
    ensures
        final(out)@ == old(out)@ + hex(value as nat, width as nat),
    decreases value, width,
{
    let digit: u8 = (value % 16) as u8;
    let digit: u8 = if digit < 10 {
        0x30 + digit
    } else {
        0x61 + (digit - 10)
    };
    if !(value < 16 && width <= 1) {
        push_hex(
            out,
            value / 16,
            if width == 0 {
                0
            } else {
                width - 1
            },
        );
    }
    out.push(digit);
    proof {
        assert(out@ =~= old(out)@ + hex(value as nat, width as nat));
    }
}

/// Appends a number in hexadecimal to text, in at least `width` digits.
pub fn push_hex_text(out: &mut Vec<u8>, value: u64, width: u64)
    requires
        vstd::utf8::valid_utf8(old(out)@),
    ensures
        final(out)@ == old(out)@ + hex(value as nat, width as nat),
        vstd::utf8::valid_utf8(final(out)@),
{
    proof {
        lemma_hex(value as nat, width as nat);
        lemma_ascii_is_valid(hex(value as nat, width as nat));
        vstd::utf8::valid_utf8_concat(out@, hex(value as nat, width as nat));
    }
    push_hex(out, value, width);
}

/// Why some text is not a number.
#[derive(Clone, Copy, Debug, PartialEq, Eq, Structural)]
pub enum NumberError {
    /// There is nothing there.
    Empty,
    /// Something in it is not a digit.
    InvalidDigit,
    /// It does not fit.
    TooLarge,
}

/// What is wrong with a number, in a few words.
pub open spec fn number_error(error: NumberError) -> Seq<char> {
    match error {
        NumberError::Empty => "cannot parse integer from empty string"@,
        NumberError::InvalidDigit => "invalid digit found in string"@,
        NumberError::TooLarge => "number too large to fit in target type"@,
    }
}

impl NumberError {
    /// What is wrong, in a few words.
    pub fn message(&self) -> (res: &'static str)
        ensures
            res@ == number_error(*self),
    {
        match self {
            NumberError::Empty => "cannot parse integer from empty string",
            NumberError::InvalidDigit => "invalid digit found in string",
            NumberError::TooLarge => "number too large to fit in target type",
        }
    }
}

/// The value of a digit in a base up to 36, if it is one.
pub open spec fn digit(byte: u8, radix: nat) -> Option<nat> {
    let value = if 0x30 <= byte <= 0x39 {
        (byte - 0x30) as nat
    } else if 0x41 <= byte <= 0x5A {
        (byte - 0x41 + 10) as nat
    } else if 0x61 <= byte <= 0x7A {
        (byte - 0x61 + 10) as nat
    } else {
        radix
    };
    if value < radix {
        Some(value)
    } else {
        None
    }
}

/// The number that `text` continues `value` to, reading digits from the left
/// until one is wrong or the number exceeds `max`.
pub open spec fn digits(text: Seq<u8>, radix: nat, max: nat, value: nat) -> Result<nat, NumberError>
    decreases text.len(),
{
    if text.len() == 0 {
        Ok(value)
    } else {
        match digit(text.first(), radix) {
            None => Err(NumberError::InvalidDigit),
            Some(next) => if value * radix + next > max {
                Err(NumberError::TooLarge)
            } else {
                digits(text.skip(1), radix, max, value * radix + next)
            },
        }
    }
}

/// The number, at most `max`, that `text` spells: digits, with one `+` in
/// front of them or none.
pub open spec fn number(text: Seq<u8>, radix: nat, max: nat) -> Result<nat, NumberError> {
    if text.len() == 0 {
        Err(NumberError::Empty)
    } else if text.first() == 0x2B && text.len() > 1 {
        digits(text.skip(1), radix, max, 0)
    } else {
        digits(text, radix, max, 0)
    }
}

/// A number that is read does not exceed `max`.
pub proof fn lemma_number_fits(text: Seq<u8>, radix: nat, max: nat)
    ensures
        number(text, radix, max) matches Ok(value) ==> value <= max,
{
    lemma_digits_fit(text, radix, max, 0);
    if text.len() > 1 {
        lemma_digits_fit(text.skip(1), radix, max, 0);
    }
}

proof fn lemma_digits_fit(text: Seq<u8>, radix: nat, max: nat, value: nat)
    requires
        value <= max,
    ensures
        digits(text, radix, max, value) matches Ok(value) ==> value <= max,
    decreases text.len(),
{
    if text.len() > 0 {
        if let Some(next) = digit(text.first(), radix) {
            if value * radix + next <= max {
                lemma_digits_fit(text.skip(1), radix, max, value * radix + next);
            }
        }
    }
}

/// The value of a digit, if it is one.
fn to_digit(byte: u8, radix: u32) -> (res: Option<u32>)
    requires
        radix <= 36,
    ensures
        match res {
            Some(value) => digit(byte, radix as nat) == Some(value as nat),
            None => digit(byte, radix as nat) is None,
        },
{
    let value: u32 = if 0x30 <= byte && byte <= 0x39 {
        (byte - 0x30) as u32
    } else if 0x41 <= byte && byte <= 0x5A {
        (byte - 0x41) as u32 + 10
    } else if 0x61 <= byte && byte <= 0x7A {
        (byte - 0x61) as u32 + 10
    } else {
        radix
    };
    if value < radix {
        Some(value)
    } else {
        None
    }
}

/// The number, at most `max`, that `text` spells in base `radix`.
pub fn parse_number(text: &[u8], radix: u32, max: u64) -> (res: Result<u64, NumberError>)
    requires
        2 <= radix <= 36,
    ensures
        match res {
            Ok(value) => number(text@, radix as nat, max as nat) == Ok::<nat, NumberError>(
                value as nat,
            ),
            Err(error) => number(text@, radix as nat, max as nat) == Err::<nat, NumberError>(error),
        },
{
    if text.len() == 0 {
        return Err(NumberError::Empty);
    }
    let mut at: usize = if text[0] == 0x2B && text.len() > 1 {
        1
    } else {
        0
    };
    let mut value: u64 = 0;
    proof {
        assert(text@.skip(0) =~= text@);
    }
    while at < text.len()
        invariant
            2 <= radix <= 36,
            at <= text@.len(),
            value <= max,
            number(text@, radix as nat, max as nat) == digits(
                text@.skip(at as int),
                radix as nat,
                max as nat,
                value as nat,
            ),
        decreases text@.len() - at,
    {
        proof {
            assert(text@.skip(at as int).first() == text@[at as int]);
            assert(text@.skip(at as int).skip(1) =~= text@.skip(at + 1));
        }
        let next: u32 = match to_digit(text[at], radix) {
            Some(next) => next,
            None => return Err(NumberError::InvalidDigit),
        };
        proof {
            assert(value as u128 * radix as u128 <= u64::MAX * 36) by (nonlinear_arith)
                requires
                    value <= u64::MAX,
                    radix <= 36,
            ;
        }
        let longer: u128 = value as u128 * radix as u128 + next as u128;
        if longer > max as u128 {
            return Err(NumberError::TooLarge);
        }
        value = longer as u64;
        at += 1;
    }
    Ok(value)
}

/// A number that is written in decimal and does not exceed `max` is read back.
pub proof fn what_is_written_in_decimal_reads_back(value: nat, max: nat)
    requires
        value <= max,
    ensures
        number(decimal(value), 10, max) == Ok::<nat, NumberError>(value),
{
    lemma_decimal(value);
    lemma_digits(value, Seq::empty(), max);
    assert(decimal(value) + Seq::<u8>::empty() =~= decimal(value));
}

/// Reading goes on from a number that was read.
proof fn lemma_digits(value: nat, rest: Seq<u8>, max: nat)
    requires
        value <= max,
    ensures
        digits(decimal(value) + rest, 10, max, 0) == digits(rest, 10, max, value),
    decreases value,
{
    let last = (0x30 + value % 10) as u8;
    let tail = seq![last] + rest;
    assert(tail.skip(1) =~= rest);
    assert(tail.first() == last);
    if value < 10 {
        assert(decimal(value) + rest =~= tail);
    } else {
        lemma_digits(value / 10, tail, max);
        assert(decimal(value) + rest =~= decimal(value / 10) + tail);
    }
}

// --- Path components -------------------------------------------------------

/// The named components of `path` from `from` on: the stretches between
/// separators that are not empty.
pub open spec fn names(path: Seq<u8>, from: int) -> Seq<Seq<u8>>
    decreases path.len() - from,
{
    if from < 0 || from >= path.len() {
        Seq::empty()
    } else if path[from] == 0x2F {
        names(path, from + 1)
    } else {
        proof {
            lemma_find(path, 0x2F, from);
        }
        seq![path.subrange(from, find(path, 0x2F, from))] + names(path, find(path, 0x2F, from))
    }
}

/// The byte after an ASCII byte begins a character.
proof fn lemma_boundary_after_ascii(bytes: Seq<u8>, at: int)
    requires
        vstd::utf8::valid_utf8(bytes),
        0 <= at < bytes.len(),
        at > 0 ==> bytes[at - 1] < 0x80,
    ensures
        !vstd::utf8::is_continuation_byte(bytes[at]),
{
    vstd::utf8::is_char_boundary_start_end_of_seq(bytes);
    vstd::utf8::is_char_boundary_iff_not_is_continuation_byte(bytes, at);
    if at > 0 {
        vstd::utf8::is_char_boundary_iff_not_is_continuation_byte(bytes, at - 1);
        vstd::utf8::valid_utf8_split(bytes, at - 1);
        let tail = bytes.subrange(at - 1, bytes.len() as int);
        assert(tail[0] == bytes[at - 1]);
        assert(vstd::utf8::valid_first_scalar(tail));
        assert(vstd::utf8::length_of_first_scalar(tail) == 1);
        assert(vstd::utf8::valid_utf8(vstd::utf8::pop_first_scalar(tail)));
        let rest = vstd::utf8::pop_first_scalar(tail);
        assert(rest[0] == bytes[at]);
        assert(vstd::utf8::valid_first_scalar(rest));
    }
}

/// The named components of `path`.
pub fn components(path: &str) -> (res: Vec<String>)
    ensures
        texts(res@) == names(vstd::utf8::encode_utf8(path@), 0),
{
    let bytes = path.as_bytes();
    let ghost all = bytes@;
    let mut found: Vec<String> = Vec::new();
    let mut at: usize = 0;
    proof {
        vstd::utf8::encode_utf8_valid_utf8(path@);
        assert(texts(found@) + names(all, 0) =~= names(all, 0));
    }
    while at < bytes.len()
        invariant
            bytes@ == all,
            all == vstd::utf8::encode_utf8(path@),
            vstd::utf8::valid_utf8(all),
            at <= all.len(),
            0 < at < all.len() ==> all[at - 1] == 0x2F || all[at as int] == 0x2F,
            texts(found@) + names(all, at as int) == names(all, 0),
        decreases all.len() - at,
    {
        if bytes[at] == 0x2F {
            at += 1;
        } else {
            let start: usize = at;
            let ghost held = found@;
            at = find_byte(bytes, 0x2F, start);
            proof {
                lemma_find(all, 0x2F, start as int);
                lemma_boundary_after_ascii(all, start as int);
            }
            let name = between(path, start, at);
            found.push(name);
            proof {
                let piece = all.subrange(start as int, at as int);
                assert(texts(found@) =~= texts(held).push(piece));
                assert(texts(found@) + names(all, at as int) =~= texts(held) + (seq![piece]
                    + names(all, at as int)));
            }
        }
    }
    proof {
        assert(texts(found@) + names(all, at as int) =~= texts(found@));
    }
    found
}

/// The UTF-8 bytes of each of some texts.
pub open spec fn texts(texts: Seq<String>) -> Seq<Seq<u8>> {
    texts.map_values(|text: String| vstd::utf8::encode_utf8(text@))
}

/// The stretch of a text between two positions, each of which is at an end of
/// the text or at a separator.
fn between(text: &str, start: usize, end: usize) -> (res: String)
    requires
        start <= end <= vstd::utf8::encode_utf8(text@).len(),
        start < vstd::utf8::encode_utf8(text@).len() ==> !vstd::utf8::is_continuation_byte(
            vstd::utf8::encode_utf8(text@)[start as int],
        ),
        end < vstd::utf8::encode_utf8(text@).len() ==> vstd::utf8::encode_utf8(text@)[end as int]
            == 0x2F,
    ensures
        vstd::utf8::encode_utf8(res@) == vstd::utf8::encode_utf8(text@).subrange(
            start as int,
            end as int,
        ),
{
    let ghost bytes = vstd::utf8::encode_utf8(text@);
    let head = if end < text.as_bytes().len() {
        cut(text, end).0
    } else {
        proof {
            assert(bytes.take(end as int) =~= bytes);
        }
        text
    };
    let ghost left = vstd::utf8::encode_utf8(head@);
    proof {
        assert(left =~= bytes.take(end as int));
        vstd::utf8::encode_utf8_valid_utf8(head@);
        vstd::utf8::is_char_boundary_start_end_of_seq(left);
        if start < end {
            vstd::utf8::is_char_boundary_iff_not_is_continuation_byte(left, start as int);
        }
    }
    let tail = head.split_at(start).1;
    proof {
        assert(vstd::utf8::encode_utf8(tail@) =~= bytes.subrange(start as int, end as int));
    }
    tail.to_owned()
}

/// The text before the ASCII byte at `at`, and the text after it.
pub fn split_around(text: &str, at: usize) -> (res: (&str, &str))
    requires
        at < vstd::utf8::encode_utf8(text@).len(),
        vstd::utf8::encode_utf8(text@)[at as int] < 0x80,
    ensures
        vstd::utf8::encode_utf8(res.0@) == vstd::utf8::encode_utf8(text@).take(at as int),
        vstd::utf8::encode_utf8(res.1@) == vstd::utf8::encode_utf8(text@).skip(at + 1),
{
    let (head, tail) = cut(text, at);
    let ghost bytes = vstd::utf8::encode_utf8(text@);
    let ghost rest = vstd::utf8::encode_utf8(tail@);
    proof {
        vstd::utf8::encode_utf8_valid_utf8(tail@);
        vstd::utf8::is_char_boundary_start_end_of_seq(rest);
        if rest.len() > 1 {
            lemma_boundary_after_ascii(rest, 1);
            vstd::utf8::is_char_boundary_iff_not_is_continuation_byte(rest, 1);
        }
    }
    let after = tail.split_at(1).1;
    proof {
        assert(vstd::utf8::encode_utf8(after@) =~= bytes.skip(at + 1));
    }
    (head, after)
}

/// The text that valid bytes spell.
pub fn to_text(bytes: &Vec<u8>) -> (res: String)
    requires
        vstd::utf8::valid_utf8(bytes@),
    ensures
        vstd::utf8::encode_utf8(res@) == bytes@,
{
    match core::str::from_utf8(bytes.as_slice()) {
        Ok(text) => text.to_owned(),
        Err(_) => String::new(),
    }
}

/// Appends the bytes of `text`.
pub fn push_text(out: &mut Vec<u8>, text: &str)
    requires
        vstd::utf8::valid_utf8(old(out)@),
    ensures
        final(out)@ == old(out)@ + vstd::utf8::encode_utf8(text@),
        vstd::utf8::valid_utf8(final(out)@),
{
    proof {
        vstd::utf8::encode_utf8_valid_utf8(text@);
        vstd::utf8::valid_utf8_concat(out@, vstd::utf8::encode_utf8(text@));
    }
    out.extend_from_slice(text.as_bytes());
}

/// ASCII is valid UTF-8.
pub proof fn lemma_ascii_is_valid(bytes: Seq<u8>)
    requires
        forall|i: int| 0 <= i < bytes.len() ==> bytes[i] < 0x80,
    ensures
        vstd::utf8::valid_utf8(bytes),
    decreases bytes.len(),
{
    if bytes.len() > 0 {
        lemma_ascii_is_valid(bytes.skip(1));
        assert(vstd::utf8::length_of_first_scalar(bytes) == 1);
        assert(vstd::utf8::pop_first_scalar(bytes) =~= bytes.skip(1));
        assert(vstd::utf8::valid_first_scalar(bytes)) by {
            let b = bytes[0];
            assert(b < 0x80 ==> (b & 0x7F) < 0x80) by (bit_vector);
        }
    }
}

/// Decimal digits are ASCII.
pub proof fn lemma_decimal(value: nat)
    ensures
        decimal(value).len() > 0,
        forall|i: int|
            0 <= i < decimal(value).len() ==> 0x30 <= #[trigger] decimal(value)[i] <= 0x39,
    decreases value,
{
    if value >= 10 {
        lemma_decimal(value / 10);
    }
}

/// Appends a number in decimal to text.
pub fn push_decimal_text(out: &mut Vec<u8>, value: u64)
    requires
        vstd::utf8::valid_utf8(old(out)@),
    ensures
        final(out)@ == old(out)@ + decimal(value as nat),
        vstd::utf8::valid_utf8(final(out)@),
{
    proof {
        lemma_decimal(value as nat);
        lemma_ascii_is_valid(decimal(value as nat));
        vstd::utf8::valid_utf8_concat(out@, decimal(value as nat));
    }
    push_decimal(out, value);
}

/// The name of what [`str`]'s `Debug` writes for a text: the text in double
/// quotes, with what does not print escaped.
pub uninterp spec fn quoted(text: Seq<char>) -> Seq<char>;

/// `format!` with `{:?}` of a string slice. What it writes depends on the
/// text alone and is named [`quoted`].
#[verifier::external_body]
pub(crate) fn quote(text: &str) -> (res: String)
    ensures
        res@ == quoted(text@),
{
    format!("{:?}", text)
}

/// The name of what `String::from_utf8_lossy` makes of bytes.
pub uninterp spec fn lossy(bytes: Seq<u8>) -> Seq<char>;

/// `String::from_utf8_lossy`. Valid UTF-8 comes back as the text it spells;
/// what is invalid is replaced, in a way that depends on the bytes alone and
/// is named [`lossy`].
#[verifier::external_body]
pub(crate) fn from_utf8_lossy(bytes: &[u8]) -> (res: String)
    ensures
        res@ == lossy(bytes@),
        vstd::utf8::valid_utf8(bytes@) ==> res@ == vstd::utf8::decode_utf8(bytes@),
{
    String::from_utf8_lossy(bytes).into_owned()
}

/// The text that bytes are read as: themselves if they are valid, and what
/// [`lossy`] names otherwise.
pub open spec fn read_as(bytes: Seq<u8>) -> Seq<u8> {
    if vstd::utf8::valid_utf8(bytes) {
        bytes
    } else {
        vstd::utf8::encode_utf8(lossy(bytes))
    }
}

/// Reads bytes as text.
pub fn read_text(bytes: &[u8]) -> (res: String)
    ensures
        vstd::utf8::encode_utf8(res@) == read_as(bytes@),
{
    let text = from_utf8_lossy(bytes);
    proof {
        if vstd::utf8::valid_utf8(bytes@) {
            vstd::utf8::decode_utf8_encode_utf8(bytes@);
        }
    }
    text
}

} // verus!
