//! What the components of a path are.

use vstd::prelude::*;

verus! {

/// What is found behind the first `d` bytes is found there in the rest.
proof fn lemma_find_behind(bytes: Seq<u8>, byte: u8, d: int, from: int)
    requires
        0 <= d <= bytes.len(),
        0 <= from,
    ensures
        crate::text::find(bytes, byte, d + from) == d + crate::text::find(
            bytes.skip(d),
            byte,
            from,
        ),
    decreases bytes.len() - d - from,
{
    if d + from < bytes.len() && bytes[d + from] != byte {
        lemma_find_behind(bytes, byte, d, from + 1);
    }
}

/// The components behind the first `d` bytes are those of the rest.
proof fn lemma_names_behind(path: Seq<u8>, d: int, from: int)
    requires
        0 <= d <= path.len(),
        0 <= from,
    ensures
        crate::text::names(path, d + from) == crate::text::names(path.skip(d), from),
    decreases path.len() - d - from,
{
    let rest = path.skip(d);
    if d + from < path.len() {
        if path[d + from] == 0x2F {
            lemma_names_behind(path, d, from + 1);
        } else {
            lemma_find_behind(path, 0x2F, d, from);
            crate::text::lemma_find(path, 0x2F, d + from);
            let end = crate::text::find(rest, 0x2F, from);
            lemma_names_behind(path, d, end);
            assert(path.subrange(d + from, d + end) =~= rest.subrange(from, end));
        }
    }
}

/// Whether a name can be a component: not empty and without a separator.
pub open spec fn is_name(name: Seq<u8>) -> bool {
    &&& name.len() > 0
    &&& forall|k: int| 0 <= k < name.len() ==> name[k] != 0x2F
}

/// A name alone is its own component; one before a separator comes before the
/// components behind it; a separator in front changes nothing; and an empty path
/// has no components. As every path is empty, begins with a separator or begins
/// with a name, this says what the components of every path are.
pub proof fn what_the_components_of_a_path_are(name: Seq<u8>, rest: Seq<u8>)
    requires
        is_name(name),
    ensures
        crate::text::names(Seq::empty(), 0) == Seq::<Seq<u8>>::empty(),
        crate::text::names(seq![0x2Fu8] + rest, 0) == crate::text::names(rest, 0),
        crate::text::names(name, 0) == seq![name],
        crate::text::names(name + seq![0x2Fu8] + rest, 0) == seq![name] + crate::text::names(
            rest,
            0,
        ),
{
    let led = seq![0x2Fu8] + rest;
    lemma_names_behind(led, 1, 0);
    assert(led.skip(1) =~= rest);

    crate::text::lemma_find(name, 0x2F, 0);
    let end = crate::text::find(name, 0x2F, 0);
    assert(end == name.len());
    assert(name.subrange(0, end) =~= name);
    assert(crate::text::names(name, end) =~= Seq::<Seq<u8>>::empty());
    assert(crate::text::names(name, 0) =~= seq![name]);

    let path = name + seq![0x2Fu8] + rest;
    let n = name.len() as int;
    crate::text::lemma_find(path, 0x2F, 0);
    crate::text::lemma_found(path, 0x2F, 0, n);
    assert(path.subrange(0, n) =~= name);
    assert(path[0] == name[0]);
    assert(path[n] == 0x2F);
    lemma_names_behind(path, n + 1, 0);
    assert(path.skip(n + 1) =~= rest);
    assert(crate::text::names(path, n) == crate::text::names(path, n + 1));
}

/// Names with a separator between every two.
pub open spec fn joined(names: Seq<Seq<u8>>) -> Seq<u8>
    decreases names.len(),
{
    if names.len() == 0 {
        Seq::empty()
    } else if names.len() == 1 {
        names[0]
    } else {
        names[0] + seq![0x2Fu8] + joined(names.skip(1))
    }
}

/// Names that are joined into a path, with a separator in front or without, are
/// its components again.
pub proof fn names_that_are_joined_come_apart_again(names: Seq<Seq<u8>>)
    requires
        forall|i: int| 0 <= i < names.len() ==> is_name(#[trigger] names[i]),
    ensures
        crate::text::names(joined(names), 0) == names,
        crate::text::names(seq![0x2Fu8] + joined(names), 0) == names,
    decreases names.len(),
{
    if names.len() == 0 {
        assert(crate::text::names(joined(names), 0) =~= names);
        let slash = seq![0x2Fu8] + joined(names);
        assert(crate::text::names(slash, 1) =~= names);
        assert(crate::text::names(slash, 0) =~= names);
    } else {
        let rest = joined(names.skip(1));
        assert(is_name(names[0]));
        assert forall|i: int| 0 <= i < names.skip(1).len() implies is_name(
            #[trigger] names.skip(1)[i],
        ) by {
            assert(is_name(names[i + 1]));
        }
        names_that_are_joined_come_apart_again(names.skip(1));
        what_the_components_of_a_path_are(names[0], rest);
        what_the_components_of_a_path_are(names[0], joined(names));
        if names.len() == 1 {
            assert(seq![names[0]] =~= names);
        } else {
            assert(seq![names[0]] + names.skip(1) =~= names);
        }
    }
}

/// Every component is a name: not empty and without a separator.
pub proof fn every_component_is_a_name(path: Seq<u8>, from: int)
    requires
        0 <= from,
    ensures
        forall|i: int|
            0 <= i < crate::text::names(path, from).len() ==> is_name(
                #[trigger] crate::text::names(path, from)[i],
            ),
    decreases path.len() - from,
{
    if from < path.len() {
        if path[from] == 0x2F {
            every_component_is_a_name(path, from + 1);
            assert(crate::text::names(path, from) == crate::text::names(path, from + 1));
        } else {
            crate::text::lemma_find(path, 0x2F, from);
            let end = crate::text::find(path, 0x2F, from);
            every_component_is_a_name(path, end);
            let all = crate::text::names(path, from);
            let piece = path.subrange(from, end);
            assert forall|i: int| 0 <= i < all.len() implies is_name(#[trigger] all[i]) by {
                if i == 0 {
                    assert(all[0] == piece);
                } else {
                    assert(all[i] == crate::text::names(path, end)[i - 1]);
                }
            }
        }
    } else {
        assert(crate::text::names(path, from).len() == 0);
    }
}

} // verus!
