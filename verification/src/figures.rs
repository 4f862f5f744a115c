//! What numbers are in writing, and which writing is a number.

use vstd::prelude::*;

use crate::text::NumberError;

verus! {

/// The value of a figure: 0 to 9, and then the letters of either case.
pub open spec fn figure(byte: u8) -> int {
    if 0x30 <= byte <= 0x39 {
        byte - 0x30
    } else if 0x41 <= byte <= 0x5A {
        byte - 0x41 + 10
    } else if 0x61 <= byte <= 0x7A {
        byte - 0x61 + 10
    } else {
        -1
    }
}

/// Whether every byte is a figure of a base.
pub open spec fn are_figures(text: Seq<u8>, base: int) -> bool {
    forall|i: int| 0 <= i < text.len() ==> 0 <= figure(#[trigger] text[i]) < base
}

/// What figures amount to: the last one once, and those before it as many times as
/// the base.
pub open spec fn amount(text: Seq<u8>, base: int) -> int
    decreases text.len(),
{
    if text.len() == 0 {
        0
    } else {
        amount(text.drop_last(), base) * base + figure(text.last())
    }
}

/// What a text amounts to does not shrink as it grows.
proof fn lemma_amount_grows(text: Seq<u8>, n: int, base: int)
    requires
        are_figures(text, base),
        0 <= n <= text.len(),
        base >= 2,
    ensures
        0 <= amount(text.take(n), base) <= amount(text, base),
    decreases text.len() - n, text.len(),
{
    if n == text.len() {
        assert(text.take(n) =~= text);
        if n > 0 {
            let fewer = text.drop_last();
            assert forall|i: int| 0 <= i < fewer.len() implies 0 <= figure(#[trigger] fewer[i])
                < base by {
                assert(fewer[i] == text[i]);
            }
            lemma_amount_grows(fewer, fewer.len() as int, base);
            assert(fewer.take(fewer.len() as int) =~= fewer);
            let a = amount(fewer, base);
            assert(a * base >= 0) by (nonlinear_arith)
                requires
                    a >= 0,
                    base >= 2,
            ;
            assert(0 <= figure(text[text.len() - 1]) < base);
        }
    } else {
        let fewer = text.drop_last();
        assert forall|i: int| 0 <= i < fewer.len() implies 0 <= figure(#[trigger] fewer[i])
            < base by {
            assert(fewer[i] == text[i]);
        }
        lemma_amount_grows(fewer, n, base);
        assert(fewer.take(n) =~= text.take(n));
        let a = amount(fewer, base);
        assert(a * base >= a) by (nonlinear_arith)
            requires
                a >= 0,
                base >= 2,
        ;
        assert(0 <= figure(text[text.len() - 1]) < base);
    }
}

/// A figure is a digit as it is read.
proof fn lemma_figure(byte: u8, base: nat)
    requires
        2 <= base <= 36,
    ensures
        match crate::text::digit(byte, base) {
            Some(value) => 0 <= figure(byte) < base && value == figure(byte),
            None => !(0 <= figure(byte) < base),
        },
{
}

/// Reading goes on from what figures amount to.
proof fn lemma_read_on(text: Seq<u8>, base: nat, max: nat, n: int)
    requires
        2 <= base <= 36,
        0 <= n <= text.len(),
        are_figures(text.take(n), base as int),
        amount(text.take(n), base as int) <= max,
    ensures
        amount(text.take(n), base as int) >= 0,
        crate::text::digits(text, base, max, 0) == crate::text::digits(
            text.skip(n),
            base,
            max,
            amount(text.take(n), base as int) as nat,
        ),
    decreases n,
{
    let head = text.take(n);
    lemma_amount_grows(head, n, base as int);
    if n == 0 {
        assert(text.skip(0) =~= text);
    } else {
        let before = text.take(n - 1);
        assert(head.drop_last() =~= before);
        assert(head.take(n - 1) =~= before);
        assert(head.take(n) =~= head);
        lemma_amount_grows(head, n - 1, base as int);
        assert forall|i: int| 0 <= i < before.len() implies 0 <= figure(#[trigger] before[i])
            < base by {
            assert(before[i] == head[i]);
        }
        lemma_read_on(text, base, max, n - 1);
        let rest = text.skip(n - 1);
        assert(rest.first() == head[n - 1]);
        assert(rest.skip(1) =~= text.skip(n));
        lemma_figure(head[n - 1], base);
    }
}

/// A text is read as a number exactly if it is figures of the base, with one `+`
/// in front or none, that amount to no more than the limit; the number is what
/// they amount to. Nothing at all is an error of its own, and so is too much.
pub proof fn which_texts_are_numbers(text: Seq<u8>, base: nat, max: nat)
    requires
        2 <= base <= 36,
    ensures
        ({
            let figures = if text.len() > 1 && text[0] == 0x2B {
                text.skip(1)
            } else {
                text
            };
            let good = text.len() > 0 && are_figures(figures, base as int);
            let read = crate::text::number(text, base, max);
            &&& read == Err::<nat, NumberError>(NumberError::Empty) <==> text.len() == 0
            &&& good && amount(figures, base as int) <= max ==> (read matches Ok(value) && value
                == amount(figures, base as int))
            &&& good && amount(figures, base as int) > max ==> read == Err::<nat, NumberError>(
                NumberError::TooLarge,
            )
            &&& !good ==> read is Err
        }),
{
    if text.len() > 0 {
        let figures = if text.len() > 1 && text[0] == 0x2B {
            text.skip(1)
        } else {
            text
        };
        assert(text.first() == text[0]);
        lemma_digits(figures, base, max, 0);
    }
}

/// What reading comes to from the figure at `n` on.
proof fn lemma_digits(figures: Seq<u8>, base: nat, max: nat, n: int)
    requires
        2 <= base <= 36,
        0 <= n <= figures.len(),
        are_figures(figures.take(n), base as int),
        amount(figures.take(n), base as int) <= max,
    ensures
        ({
            let read = crate::text::digits(figures, base, max, 0);
            let good = are_figures(figures, base as int);
            let sum = amount(figures, base as int);
            &&& read != Err::<nat, NumberError>(NumberError::Empty)
            &&& good && sum <= max ==> (read matches Ok(value) && value == sum)
            &&& good && sum > max ==> read == Err::<nat, NumberError>(NumberError::TooLarge)
            &&& !good ==> read is Err
        }),
    decreases figures.len() - n,
{
    lemma_read_on(figures, base, max, n);
    let rest = figures.skip(n);
    let head = figures.take(n);
    if n == figures.len() {
        assert(head =~= figures);
    } else {
        let byte = figures[n];
        let longer = figures.take(n + 1);
        assert(rest.first() == byte);
        assert(longer.drop_last() =~= head);
        assert(longer.last() == byte);
        lemma_figure(byte, base);
        if 0 <= figure(byte) < base {
            assert forall|i: int| 0 <= i < longer.len() implies 0 <= figure(#[trigger] longer[i])
                < base by {
                if i < n {
                    assert(longer[i] == head[i]);
                }
            }
            if amount(longer, base as int) <= max {
                lemma_digits(figures, base, max, n + 1);
            } else if are_figures(figures, base as int) {
                lemma_amount_grows(figures, n + 1, base as int);
            }
        }
    }
}

/// A number in decimal is the figures 0 to 9 that amount to it, without a zero in
/// front.
pub proof fn what_a_number_is_in_decimal(value: nat)
    ensures
        ({
            let text = crate::text::decimal(value);
            &&& text.len() > 0
            &&& forall|i: int| 0 <= i < text.len() ==> 0x30 <= #[trigger] text[i] <= 0x39
            &&& amount(text, 10) == value
            &&& text[0] == 0x30 ==> text.len() == 1
        }),
    decreases value,
{
    let text = crate::text::decimal(value);
    if value >= 10 {
        what_a_number_is_in_decimal(value / 10);
        let fewer = crate::text::decimal(value / 10);
        assert(text.drop_last() =~= fewer);
        assert(text[0] == fewer[0]);
        if fewer[0] == 0x30 {
            assert(fewer.drop_last().len() == 0);
            assert(amount(fewer.drop_last(), 10) == 0);
            assert(fewer.last() == 0x30);
        }
    } else {
        assert(text.drop_last().len() == 0);
        assert(amount(text.drop_last(), 10) == 0);
    }
}

/// A number in hexadecimal is the figures 0 to 9 and a to f that amount to it, as
/// many as asked for at least, and no zero in front beyond that.
pub proof fn what_a_number_is_in_hexadecimal(value: nat, width: nat)
    ensures
        ({
            let text = crate::text::hex(value, width);
            &&& text.len() > 0
            &&& text.len() >= width
            &&& forall|i: int|
                0 <= i < text.len() ==> 0x30 <= #[trigger] text[i] <= 0x39 || 0x61 <= text[i]
                    <= 0x66
            &&& amount(text, 16) == value
            &&& text.len() > width && text.len() > 1 ==> text[0] != 0x30
        }),
    decreases value, width,
{
    let text = crate::text::hex(value, width);
    if value < 16 && width <= 1 {
        assert(text.drop_last().len() == 0);
        assert(amount(text.drop_last(), 16) == 0);
    } else {
        let narrow = if width == 0 {
            0
        } else {
            (width - 1) as nat
        };
        what_a_number_is_in_hexadecimal(value / 16, narrow);
        let fewer = crate::text::hex(value / 16, narrow);
        assert(text.drop_last() =~= fewer);
        assert(text[0] == fewer[0]);
        if text.len() > width && text.len() > 1 && fewer.len() == 1 {
            assert(fewer.drop_last().len() == 0);
            assert(amount(fewer.drop_last(), 16) == 0);
            assert(value >= 16);
        }
    }
}

// --- Numbers as they are typed --------------------------------------------------

/// What is cut off a typed number is the white space at either end, and all of it.
pub proof fn what_is_trimmed_is_white_space(text: Seq<char>) -> (start: int)
    ensures
        ({
            let kept = crate::numbers::trimmed(text);
            let end = start + kept.len();
            &&& 0 <= start && end <= text.len()
            &&& kept == text.subrange(start, end)
            &&& forall|i: int|
                0 <= i < start ==> crate::numbers::is_white_space(#[trigger] text[i])
            &&& forall|i: int|
                end <= i < text.len() ==> crate::numbers::is_white_space(#[trigger] text[i])
            &&& kept.len() > 0 ==> !crate::numbers::is_white_space(kept.first())
                && !crate::numbers::is_white_space(kept.last())
        }),
    decreases text.len(),
{
    let kept = crate::numbers::trimmed(text);
    if text.len() == 0 {
        assert(text.subrange(0, 0) =~= text);
        0
    } else if crate::numbers::is_white_space(text.first()) {
        let rest = text.skip(1);
        let from = what_is_trimmed_is_white_space(rest);
        let end = from + kept.len();
        assert(text.subrange(from + 1, end + 1) =~= rest.subrange(from, end));
        assert forall|i: int| 0 <= i < from + 1 implies crate::numbers::is_white_space(
            #[trigger] text[i],
        ) by {
            if i > 0 {
                assert(rest[i - 1] == text[i]);
            }
        }
        assert forall|i: int| end + 1 <= i < text.len() implies crate::numbers::is_white_space(
            #[trigger] text[i],
        ) by {
            assert(rest[i - 1] == text[i]);
        }
        from + 1
    } else if crate::numbers::is_white_space(text.last()) {
        let rest = text.drop_last();
        let from = what_is_trimmed_is_white_space(rest);
        let end = from + kept.len();
        assert(text.subrange(from, end) =~= rest.subrange(from, end));
        assert forall|i: int| 0 <= i < from implies crate::numbers::is_white_space(
            #[trigger] text[i],
        ) by {
            assert(rest[i] == text[i]);
        }
        assert forall|i: int| end <= i < text.len() implies crate::numbers::is_white_space(
            #[trigger] text[i],
        ) by {
            if i < text.len() - 1 {
                assert(rest[i] == text[i]);
            }
        }
        from
    } else {
        assert(text.subrange(0, text.len() as int) =~= text);
        0
    }
}

/// Which base a typed number is in: `0x` is sixteen, `0b` two and `0o` eight, in
/// either case, and anything else ten. White space around it and underscores in it
/// do not count, and it is 4294967295 at most.
pub proof fn which_base_a_typed_number_is_in(typed: Seq<char>, figures: Seq<char>, mark: char)
    requires
        crate::numbers::trimmed(typed).filter(|c: char| c != '_') == seq!['0', mark] + figures,
    ensures
        ({
            let bytes = figures.map_values(
                |c: char|
                    if (c as u32) < 0x80 {
                        c as u8
                    } else {
                        0xFFu8
                    },
            );
            let read = crate::numbers::typed_number(typed);
            &&& mark == 'x' || mark == 'X' ==> read == crate::text::number(bytes, 16, 4_294_967_295)
            &&& mark == 'b' || mark == 'B' ==> read == crate::text::number(bytes, 2, 4_294_967_295)
            &&& mark == 'o' || mark == 'O' ==> read == crate::text::number(bytes, 8, 4_294_967_295)
        }),
{
    let text = seq!['0', mark] + figures;
    assert(text.skip(2) =~= figures);
    assert(text[0] == '0' && text[1] == mark);
    let bytes = figures.map_values(
        |c: char|
            if (c as u32) < 0x80 {
                c as u8
            } else {
                0xFFu8
            },
    );
    assert(figures.map_values(|c: char| crate::numbers::ascii(c)) =~= bytes);
}

/// A typed number that begins with no mark of a base is in base ten.
pub proof fn any_other_number_is_in_decimal(typed: Seq<char>)
    ensures
        ({
            let text = crate::numbers::trimmed(typed).filter(|c: char| c != '_');
            let bytes = text.map_values(
                |c: char|
                    if (c as u32) < 0x80 {
                        c as u8
                    } else {
                        0xFFu8
                    },
            );
            let marked = text.len() >= 2 && text[0] == '0' && (text[1] == 'x' || text[1] == 'X'
                || text[1] == 'b' || text[1] == 'B' || text[1] == 'o' || text[1] == 'O');
            !marked ==> crate::numbers::typed_number(typed) == crate::text::number(
                bytes,
                10,
                4_294_967_295,
            )
        }),
{
    let text = crate::numbers::trimmed(typed).filter(|c: char| c != '_');
    let bytes = text.map_values(
        |c: char|
            if (c as u32) < 0x80 {
                c as u8
            } else {
                0xFFu8
            },
    );
    assert(text.map_values(|c: char| crate::numbers::ascii(c)) =~= bytes);
}

/// A character is white space exactly if it is one of Unicode's twenty-five.
pub proof fn which_characters_are_white_space(c: char)
    ensures
        crate::numbers::is_white_space(c) <==> {
            let n = c as u32;
            n == 0x09 || n == 0x0A || n == 0x0B || n == 0x0C || n == 0x0D || n == 0x20 || n == 0x85
                || n == 0xA0 || n == 0x1680 || (0x2000 <= n && n <= 0x200A) || n == 0x2028 || n
                == 0x2029 || n == 0x202F || n == 0x205F || n == 0x3000
        },
{
}

// --- Columns --------------------------------------------------------------------

/// A number at the right of a column is the number, with spaces in front of it up
/// to the width; a text at the left is the text, with spaces behind it up to the
/// width. What is wider than its column is not cut.
pub proof fn what_is_in_a_column(value: nat, text: Seq<char>, width: nat)
    ensures
        ({
            let number = crate::text::decimal(value);
            let cell = crate::table::right(value, width);
            let pad = cell.len() - number.len();
            &&& pad == if number.len() < width {
                width - number.len()
            } else {
                0
            }
            &&& cell.skip(pad) == number
            &&& forall|i: int| 0 <= i < pad ==> cell[i] == 0x20
        }),
        ({
            let bytes = vstd::utf8::encode_utf8(text);
            let cell = crate::table::left(text, width);
            let pad = cell.len() - bytes.len();
            &&& pad == if text.len() < width {
                width - text.len()
            } else {
                0
            }
            &&& cell.take(bytes.len() as int) == bytes
            &&& forall|i: int| bytes.len() <= i < cell.len() ==> cell[i] == 0x20
        }),
{
    let number = crate::text::decimal(value);
    let cell = crate::table::right(value, width);
    assert(cell.skip(cell.len() - number.len()) =~= number);
    let bytes = vstd::utf8::encode_utf8(text);
    assert(crate::table::left(text, width).take(bytes.len() as int) =~= bytes);
}

/// The line of a directory's entry: its size at the right of twelve columns, two
/// spaces, its name, and a slash behind a directory.
pub proof fn what_the_line_of_an_entry_is(entry: crate::listing::Entry)
    ensures
        ({
            let line = crate::table::entry_text(entry);
            let name = vstd::utf8::encode_utf8(entry.name@);
            let size = crate::table::right(entry.size as nat, 12);
            line == size + seq![0x20u8, 0x20u8] + name + if entry.is_dir {
                seq![0x2Fu8]
            } else {
                Seq::empty()
            }
        }),
{
    reveal_strlit("  ");
    reveal_strlit("/");
    reveal_strlit("");
    lemma_ascii_text("  "@);
    lemma_ascii_text("/"@);
    lemma_ascii_text(""@);
    assert(vstd::utf8::encode_utf8("  "@) =~= seq![0x20u8, 0x20u8]);
    assert(vstd::utf8::encode_utf8("/"@) =~= seq![0x2Fu8]);
    assert(vstd::utf8::encode_utf8(""@) =~= Seq::<u8>::empty());
    assert(crate::table::entry_text(entry) =~= crate::table::right(entry.size as nat, 12) + seq![
        0x20u8,
        0x20u8,
    ] + vstd::utf8::encode_utf8(entry.name@) + if entry.is_dir {
        seq![0x2Fu8]
    } else {
        Seq::empty()
    });
}

/// ASCII characters are a byte each.
pub proof fn lemma_ascii_text(text: Seq<char>)
    requires
        vstd::utf8::is_ascii_chars(text),
    ensures
        vstd::utf8::encode_utf8(text).len() == text.len(),
        forall|i: int|
            0 <= i < text.len() ==> #[trigger] vstd::utf8::encode_utf8(text)[i] == text[i] as u8,
{
    vstd::utf8::is_ascii_chars_encode_utf8(text);
}

} // verus!
