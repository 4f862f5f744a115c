//! The same entries in another order.

use vstd::prelude::*;

use crate::bundle::Format;
use crate::layout::EntryView;

verus! {

/// What holds of any two entries holds of any two in another order.
pub proof fn lemma_pairs(
    a: Seq<EntryView>,
    b: Seq<EntryView>,
    holds: spec_fn(EntryView, EntryView) -> bool,
)
    requires
        a.to_multiset() == b.to_multiset(),
        forall|x: EntryView, y: EntryView| #[trigger] holds(x, y) ==> holds(y, x),
        forall|i: int, j: int|
            0 <= i < j < a.len() ==> holds(#[trigger] a[i], #[trigger] a[j]),
    ensures
        forall|i: int, j: int|
            0 <= i < j < b.len() ==> holds(#[trigger] b[i], #[trigger] b[j]),
    decreases b.len(),
{
    broadcast use vstd::seq_lib::group_to_multiset_ensures;

    if b.len() > 0 {
        let last = b.last();
        let fewer = b.drop_last();
        let at = lemma_taken(a, b, b.len() - 1);
        let rest = a.remove(at);
        assert(b.remove(b.len() - 1) =~= fewer);
        assert forall|i: int, j: int| 0 <= i < j < rest.len() implies holds(
            #[trigger] rest[i],
            #[trigger] rest[j],
        ) by {
            let x = if i < at {
                i
            } else {
                i + 1
            };
            let y = if j < at {
                j
            } else {
                j + 1
            };
            assert(rest[i] == a[x] && rest[j] == a[y]);
        }
        lemma_pairs(rest, fewer, holds);
        assert forall|i: int, j: int| 0 <= i < j < b.len() implies holds(
            #[trigger] b[i],
            #[trigger] b[j],
        ) by {
            assert(b[i] == fewer[i]);
            if j == b.len() - 1 {
                assert(fewer.to_multiset().count(fewer[i]) > 0);
                assert(rest.contains(fewer[i]));
                let k = choose|k: int| 0 <= k < rest.len() && rest[k] == fewer[i];
                let x = if k < at {
                    k
                } else {
                    k + 1
                };
                assert(rest[k] == a[x] && x != at);
                assert(holds(a[at], a[x]) || holds(a[x], a[at]));
            } else {
                assert(b[j] == fewer[j]);
            }
        }
    }
}

/// Where an entry of one order stands in another, and that the rest of both are
/// the same entries again.
proof fn lemma_taken(a: Seq<EntryView>, b: Seq<EntryView>, from: int) -> (at: int)
    requires
        a.to_multiset() == b.to_multiset(),
        0 <= from < b.len(),
    ensures
        0 <= at < a.len(),
        a[at] == b[from],
        a.remove(at).to_multiset() == b.remove(from).to_multiset(),
{
    broadcast use vstd::seq_lib::group_to_multiset_ensures;

    let entry = b[from];
    assert(b.contains(entry));
    assert(b.to_multiset().count(entry) > 0);
    assert(a.contains(entry));
    let at = choose|i: int| 0 <= i < a.len() && a[i] == entry;
    assert(a.remove(at).to_multiset() =~= a.to_multiset().remove(entry));
    assert(b.remove(from).to_multiset() =~= b.to_multiset().remove(entry));
    at
}

/// The same entries are in both orders.
proof fn lemma_same_contents(a: Seq<EntryView>, b: Seq<EntryView>)
    requires
        a.to_multiset() == b.to_multiset(),
    ensures
        a.len() == b.len(),
        forall|i: int| 0 <= i < a.len() ==> b.contains(#[trigger] a[i]),
{
    broadcast use vstd::seq_lib::group_to_multiset_ensures;

    assert forall|i: int| 0 <= i < a.len() implies b.contains(#[trigger] a[i]) by {
        assert(a.contains(a[i]));
        assert(a.to_multiset().count(a[i]) > 0);
    }
    assert(a.len() == a.to_multiset().len());
    assert(b.len() == b.to_multiset().len());
}

/// Where no path is shared in one order, none is in another.
proof fn lemma_sharing(a: Seq<EntryView>, b: Seq<EntryView>)
    requires
        a.to_multiset() == b.to_multiset(),
        !crate::layout::shares_a_path(a),
    ensures
        !crate::layout::shares_a_path(b),
{
    lemma_pairs(a, b, |x: EntryView, y: EntryView| x.path != y.path);
}

/// A role that is not repeated in one order is not in another.
proof fn lemma_repeating(a: Seq<EntryView>, b: Seq<EntryView>, role: crate::bundle::Role)
    requires
        a.to_multiset() == b.to_multiset(),
        !crate::layout::repeats_role(a, role),
    ensures
        !crate::layout::repeats_role(b, role),
{
    lemma_pairs(a, b, |x: EntryView, y: EntryView| x.role != role || y.role != role);
}

/// An entry that has its partner in one order has it in another.
proof fn lemma_pairing(a: Seq<EntryView>, b: Seq<EntryView>, entry: EntryView)
    requires
        a.to_multiset() == b.to_multiset(),
        crate::layout::is_paired(a, entry),
    ensures
        crate::layout::is_paired(b, entry),
{
    lemma_same_contents(a, b);
    assert forall|prefix: Seq<u8>, wanted: Seq<u8>, suffix: Seq<u8>| #[trigger]
        crate::layout::names_firmware(
            a,
            prefix,
            wanted,
            suffix,
        ) implies crate::layout::names_firmware(b, prefix, wanted, suffix) by {
        let i = choose|i: int|
            0 <= i < a.len() && (#[trigger] a[i]).role == crate::bundle::Role::Firmware
                && crate::layout::is_around(
                crate::layout::basename_of(a[i].path),
                prefix,
                suffix,
            ) && crate::layout::same_name(
                crate::layout::middle(crate::layout::basename_of(a[i].path), prefix, suffix),
                wanted,
            );
        assert(b.contains(a[i]));
        let j = choose|j: int| 0 <= j < b.len() && b[j] == a[i];
        assert(b[j].role == crate::bundle::Role::Firmware);
    }
}

/// Entries that break no rule in one order break none in another.
proof fn lemma_rules(a: Seq<EntryView>, b: Seq<EntryView>)
    requires
        a.to_multiset() == b.to_multiset(),
        crate::layout::broken_rule(a) is None,
    ensures
        crate::layout::broken_rule(b) is None,
{
    lemma_same_contents(a, b);
    lemma_same_contents(b, a);
    lemma_sharing(a, b);
    lemma_repeating(a, b, crate::bundle::Role::Kernel);
    lemma_repeating(a, b, crate::bundle::Role::Config);
    assert forall|i: int| 0 <= i < b.len() implies crate::layout::is_relative_path(
        #[trigger] b[i].path,
    ) && crate::layout::is_paired(b, b[i]) by {
        assert(a.contains(b[i]));
        let j = choose|j: int| 0 <= j < a.len() && a[j] == b[i];
        assert(crate::layout::is_relative_path(a[j].path));
        assert(crate::layout::is_paired(a, a[j]));
        lemma_pairing(a, b, b[i]);
    }
}

/// Entries take up as much as one of them and the rest.
proof fn lemma_length_without(entries: Seq<EntryView>, at: int)
    requires
        0 <= at < entries.len(),
    ensures
        crate::layout::entries_bytes(entries).len() == crate::layout::entry_bytes(
            entries[at],
        ).len() + crate::layout::entries_bytes(entries.remove(at)).len(),
    decreases entries.len(),
{
    let without = entries.remove(at);
    if at == 0 {
        assert(without =~= entries.skip(1));
    } else {
        lemma_length_without(entries.skip(1), at - 1);
        assert(entries.skip(1).remove(at - 1) =~= without.skip(1));
        assert(without.first() == entries.first());
    }
}

/// Entries take up the same in any order.
proof fn lemma_same_length(a: Seq<EntryView>, b: Seq<EntryView>)
    requires
        a.to_multiset() == b.to_multiset(),
    ensures
        crate::layout::entries_bytes(a).len() == crate::layout::entries_bytes(b).len(),
    decreases b.len(),
{
    lemma_same_contents(a, b);
    if b.len() > 0 {
        let at = lemma_taken(a, b, 0);
        lemma_length_without(a, at);
        lemma_length_without(b, 0);
        lemma_same_length(a.remove(at), b.remove(0));
    }
}

/// How long a bundle is.
proof fn lemma_bundle_length(format: Format, entries: Seq<EntryView>)
    ensures
        crate::layout::bundle_bytes(format.magic@, 0, entries).len() == 12
            + crate::layout::entries_bytes(entries).len(),
{
    let body = crate::layout::body_bytes(format.magic@, 0, entries);
    assert(crate::wire::u16_bytes(entries.len() as u16).len() == 2);
    assert(crate::wire::u32_bytes(crate::crc32::crc32(body)).len() == 4);
}

/// Entries that are accepted in one order are in another, and make a bundle of
/// the same length.
proof fn lemma_accepted(format: Format, a: Seq<EntryView>, b: Seq<EntryView>)
    requires
        a.to_multiset() == b.to_multiset(),
        crate::layout::encoded(format, a) is Ok,
    ensures
        crate::layout::encoded(format, b) is Ok,
        crate::layout::encoded(format, b)->Ok_0.len() == crate::layout::encoded(
            format,
            a,
        )->Ok_0.len(),
{
    lemma_same_contents(a, b);
    lemma_same_contents(b, a);
    lemma_rules(a, b);
    assert(crate::layout::oversize(b) is None) by {
        crate::laws::lemma_oversize(a);
        crate::laws::lemma_oversize(b);
        assert forall|i: int| 0 <= i < b.len() implies crate::layout::fits(#[trigger] b[i]) by {
            assert(a.contains(b[i]));
        }
    }
    lemma_same_length(a, b);
    lemma_bundle_length(format, a);
    lemma_bundle_length(format, b);
}

/// The order that entries are given in carries no meaning: in any other order
/// they are accepted or refused alike, make a bundle of the same length, and
/// parse back to the same entries.
pub proof fn the_order_of_entries_carries_no_meaning(
    format: Format,
    a: Seq<EntryView>,
    b: Seq<EntryView>,
)
    requires
        a.to_multiset() == b.to_multiset(),
        forall|i: int| 0 <= i < a.len() ==> vstd::utf8::valid_utf8(#[trigger] a[i].path),
    ensures
        match (crate::layout::encoded(format, a), crate::layout::encoded(format, b)) {
            (Ok(x), Ok(y)) => {
                &&& x.len() == y.len()
                &&& crate::layout::decoded(format, x) matches Ok(left) && (
                crate::layout::decoded(format, y) matches Ok(right) && left.to_multiset()
                    == right.to_multiset())
            },
            (Err(_), Err(_)) => true,
            _ => false,
        },
{
    if crate::layout::encoded(format, a) is Ok {
        lemma_accepted(format, a, b);
    }
    if crate::layout::encoded(format, b) is Ok {
        lemma_accepted(format, b, a);
    }
    assert forall|i: int| 0 <= i < b.len() implies vstd::utf8::valid_utf8(#[trigger] b[i].path) by {
        lemma_same_contents(b, a);
        assert(a.contains(b[i]));
        let j = choose|j: int| 0 <= j < a.len() && a[j] == b[i];
        assert(vstd::utf8::valid_utf8(a[j].path));
    }
    crate::laws::what_is_encoded_parses_back(format, a);
    crate::laws::what_is_encoded_parses_back(format, b);
}

} // verus!
