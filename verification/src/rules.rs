//! The rules of a bundle, each in its own words.
//!
//! [`crate::layout`] says what reading and building a bundle come to. What is
//! stated here is what they are for: which paths a bundle may name, which entries
//! may stand together, which bytes they become, and what is refused for which
//! reason.

use vstd::prelude::*;

use crate::bundle::{Error, Format, Role};
use crate::layout::EntryView;

verus! {

// --- Paths ----------------------------------------------------------------------

/// Whether `.` stands alone at `k`, between separators or the ends.
pub open spec fn lone_dot(path: Seq<u8>, k: int) -> bool {
    &&& 0 <= k < path.len()
    &&& path[k] == 0x2E
    &&& k == 0 || path[k - 1] == 0x2F
    &&& k + 1 == path.len() || path[k + 1] == 0x2F
}

/// Whether `..` stands alone at `k`, between separators or the ends.
pub open spec fn lone_dots(path: Seq<u8>, k: int) -> bool {
    &&& 0 <= k && k + 1 < path.len()
    &&& path[k] == 0x2E && path[k + 1] == 0x2E
    &&& k == 0 || path[k - 1] == 0x2F
    &&& k + 2 == path.len() || path[k + 2] == 0x2F
}

/// A path is accepted exactly if it is not empty, neither begins nor ends with a
/// separator, has no two separators in a row and no backslash, and has no `.` or
/// `..` among its components.
pub proof fn which_paths_are_accepted(path: Seq<u8>)
    ensures
        crate::layout::is_relative_path(path) <==> {
            &&& path.len() > 0
            &&& path.first() != 0x2F
            &&& path.last() != 0x2F
            &&& forall|k: int| 0 <= k < path.len() ==> path[k] != 0x5C
            &&& forall|k: int|
                0 < k < path.len() ==> !(#[trigger] path[k] == 0x2F && path[k - 1] == 0x2F)
            &&& forall|k: int| !(#[trigger] lone_dot(path, k))
            &&& forall|k: int| !(#[trigger] lone_dots(path, k))
        },
{
    let dot = seq![0x2Eu8];
    let dots = seq![0x2Eu8, 0x2Eu8];
    if crate::layout::is_relative_path(path) {
        let n = path.len() as int;
        if n == 0 || path.first() == 0x2F {
            assert(crate::layout::is_component(path, 0, 0));
        }
        if n > 0 && path.last() == 0x2F {
            assert(crate::layout::is_component(path, n, n));
        }
        assert forall|k: int| 0 < k < path.len() implies !(#[trigger] path[k] == 0x2F && path[k - 1]
            == 0x2F) by {
            if path[k] == 0x2F && path[k - 1] == 0x2F {
                assert(crate::layout::is_component(path, k, k));
            }
        }
        assert forall|k: int| !(#[trigger] lone_dot(path, k)) by {
            if lone_dot(path, k) {
                assert(crate::layout::is_component(path, k, k + 1));
                assert(path.subrange(k, k + 1) =~= dot);
            }
        }
        assert forall|k: int| !(#[trigger] lone_dots(path, k)) by {
            if lone_dots(path, k) {
                assert(crate::layout::is_component(path, k, k + 2));
                assert(path.subrange(k, k + 2) =~= dots);
            }
        }
    }
    if path.len() > 0 && path.first() != 0x2F && path.last() != 0x2F && (forall|k: int|
        0 <= k < path.len() ==> path[k] != 0x5C) && (forall|k: int|
        0 < k < path.len() ==> !(#[trigger] path[k] == 0x2F && path[k - 1] == 0x2F)) && (forall|
        k: int,
    | !(#[trigger] lone_dot(path, k))) && (forall|k: int| !(#[trigger] lone_dots(path, k))) {
        assert forall|start: int, end: int| #[trigger]
            crate::layout::is_component(path, start, end) implies crate::layout::is_plain_name(
            path.subrange(start, end),
        ) by {
            let name = path.subrange(start, end);
            if name.len() == 0 {
                if 0 < start < path.len() {
                    assert(path[start] == 0x2F && path[start - 1] == 0x2F);
                }
            } else if name == dot {
                assert(name[0] == path[start]);
                assert(lone_dot(path, start));
            } else if name == dots {
                assert(name[0] == path[start] && name[1] == path[start + 1]);
                assert(lone_dots(path, start));
            }
        }
    }
}

// --- Firmware -------------------------------------------------------------------

/// Whether two bytes are the same letter in either case, or the same byte.
pub open spec fn same_letter(a: u8, b: u8) -> bool {
    ||| a == b
    ||| 0x41 <= a <= 0x5A && b == a + 0x20
    ||| 0x41 <= b <= 0x5A && a == b + 0x20
}

/// Whether two names are the same but for the case of ASCII letters.
pub open spec fn alike(a: Seq<u8>, b: Seq<u8>) -> bool {
    &&& a.len() == b.len()
    &&& forall|i: int| 0 <= i < a.len() ==> same_letter(#[trigger] a[i], b[i])
}

/// Whether `name` is what a path ends in, behind its last separator.
pub open spec fn ends_in(path: Seq<u8>, name: Seq<u8>) -> bool {
    let start = path.len() - name.len();
    &&& 0 <= start
    &&& path.skip(start) == name
    &&& start == 0 || path[start - 1] == 0x2F
    &&& forall|k: int| 0 <= k < name.len() ==> name[k] != 0x2F
}

/// Whether an entry is firmware of this name, in whatever directory and case.
pub open spec fn is_firmware(entry: EntryView, wanted: Seq<u8>) -> bool {
    &&& entry.role == Role::Firmware
    &&& exists|name: Seq<u8>| #[trigger] ends_in(entry.path, name) && alike(name, wanted)
}

/// Whether firmware of this name is among entries.
pub open spec fn has_firmware(entries: Seq<EntryView>, wanted: Seq<u8>) -> bool {
    exists|i: int| 0 <= i < entries.len() && #[trigger] is_firmware(entries[i], wanted)
}

/// `start<which>.elf`
pub open spec fn start_file(which: Seq<u8>) -> Seq<u8> {
    seq![0x73u8, 0x74u8, 0x61u8, 0x72u8, 0x74u8] + which + seq![0x2Eu8, 0x65u8, 0x6Cu8, 0x66u8]
}

/// `fixup<which>.dat`
pub open spec fn fixup_file(which: Seq<u8>) -> Seq<u8> {
    seq![0x66u8, 0x69u8, 0x78u8, 0x75u8, 0x70u8] + which + seq![0x2Eu8, 0x64u8, 0x61u8, 0x74u8]
}

/// Names as they are compared are the same exactly if they are alike.
proof fn lemma_alike(a: Seq<u8>, b: Seq<u8>)
    ensures
        crate::layout::same_name(a, b) <==> alike(a, b),
{
    assert forall|x: u8, y: u8| (#[trigger] crate::layout::lower(x) == #[trigger]
        crate::layout::lower(y)) == same_letter(x, y) by {}
    if crate::layout::same_name(a, b) {
        assert forall|i: int| 0 <= i < a.len() implies same_letter(#[trigger] a[i], b[i]) by {
            assert(crate::layout::lower(a[i]) == crate::layout::lower(b[i]));
        }
    }
    if alike(a, b) {
        assert forall|i: int| 0 <= i < a.len() implies crate::layout::lower(#[trigger] a[i])
            == crate::layout::lower(b[i]) by {
            assert(same_letter(a[i], b[i]));
        }
    }
}

/// A path ends in its base name, and in no other.
proof fn lemma_base(path: Seq<u8>)
    ensures
        ends_in(path, crate::layout::basename_of(path)),
        forall|name: Seq<u8>| #[trigger]
            ends_in(path, name) ==> name == crate::layout::basename_of(path),
{
    lemma_base_start(path);
    let start = crate::layout::basename_start(path);
    let base = crate::layout::basename_of(path);
    assert(path.len() - base.len() == start);
    assert forall|name: Seq<u8>| #[trigger] ends_in(path, name) implies name == base by {
        let other = path.len() - name.len();
        if other < start {
            assert(name[start - 1 - other] == path[start - 1]);
        } else if start < other {
            assert(path[other - 1] == 0x2F);
        }
    }
}

proof fn lemma_base_start(path: Seq<u8>)
    ensures
        ({
            let start = crate::layout::basename_start(path);
            &&& 0 <= start <= path.len()
            &&& start == 0 || path[start - 1] == 0x2F
            &&& forall|k: int| start <= k < path.len() ==> path[k] != 0x2F
        }),
    decreases path.len(),
{
    if path.len() > 0 && path.last() != 0x2F {
        lemma_base_start(path.drop_last());
        let start = crate::layout::basename_start(path);
        assert forall|k: int| start <= k < path.len() implies path[k] != 0x2F by {
            if k < path.len() - 1 {
                assert(path.drop_last()[k] == path[k]);
            }
        }
    }
}

/// A name is around a middle exactly if it is alike the three joined.
proof fn lemma_around(name: Seq<u8>, prefix: Seq<u8>, wanted: Seq<u8>, suffix: Seq<u8>)
    ensures
        crate::layout::is_around(name, prefix, suffix) && crate::layout::same_name(
            crate::layout::middle(name, prefix, suffix),
            wanted,
        ) <==> alike(name, prefix + wanted + suffix),
{
    let whole = prefix + wanted + suffix;
    lemma_alike(name.take(prefix.len() as int), prefix);
    lemma_alike(name.skip(name.len() - suffix.len()), suffix);
    let middle = crate::layout::middle(name, prefix, suffix);
    lemma_alike(middle, wanted);
    if crate::layout::is_around(name, prefix, suffix) && crate::layout::same_name(middle, wanted) {
        let head = name.take(prefix.len() as int);
        let tail = name.skip(name.len() - suffix.len());
        assert forall|i: int| 0 <= i < name.len() implies same_letter(#[trigger] name[i], whole[i]) by {
            if i < prefix.len() {
                assert(same_letter(head[i], prefix[i]));
            } else if i < prefix.len() + wanted.len() {
                assert(same_letter(middle[i - prefix.len()], wanted[i - prefix.len()]));
            } else {
                let j = i - prefix.len() - wanted.len();
                assert(same_letter(tail[j], suffix[j]));
            }
        }
    }
    if alike(name, whole) {
        let head = name.take(prefix.len() as int);
        let tail = name.skip(name.len() - suffix.len());
        assert forall|i: int| 0 <= i < head.len() implies same_letter(#[trigger] head[i], prefix[i]) by {
            assert(same_letter(name[i], whole[i]));
        }
        assert forall|i: int| 0 <= i < middle.len() implies same_letter(
            #[trigger] middle[i],
            wanted[i],
        ) by {
            assert(same_letter(name[i + prefix.len()], whole[i + prefix.len()]));
        }
        assert forall|i: int| 0 <= i < tail.len() implies same_letter(#[trigger] tail[i], suffix[i]) by {
            let j = i + prefix.len() + wanted.len();
            assert(same_letter(name[j], whole[j]));
        }
    }
}

/// What names firmware in the one way names it in the other.
proof fn lemma_has(
    entries: Seq<EntryView>,
    prefix: Seq<u8>,
    wanted: Seq<u8>,
    suffix: Seq<u8>,
)
    ensures
        crate::layout::names_firmware(entries, prefix, wanted, suffix) <==> has_firmware(
            entries,
            prefix + wanted + suffix,
        ),
{
    let whole = prefix + wanted + suffix;
    assert forall|i: int| 0 <= i < entries.len() implies (#[trigger] is_firmware(entries[i], whole)
        <==> entries[i].role == Role::Firmware && crate::layout::is_around(
        crate::layout::basename_of(entries[i].path),
        prefix,
        suffix,
    ) && crate::layout::same_name(
        crate::layout::middle(crate::layout::basename_of(entries[i].path), prefix, suffix),
        wanted,
    )) by {
        let base = crate::layout::basename_of(entries[i].path);
        lemma_base(entries[i].path);
        lemma_around(base, prefix, wanted, suffix);
    }
    if crate::layout::names_firmware(entries, prefix, wanted, suffix) {
        let i = choose|i: int|
            0 <= i < entries.len() && (#[trigger] entries[i]).role == Role::Firmware
                && crate::layout::is_around(
                crate::layout::basename_of(entries[i].path),
                prefix,
                suffix,
            ) && crate::layout::same_name(
                crate::layout::middle(
                    crate::layout::basename_of(entries[i].path),
                    prefix,
                    suffix,
                ),
                wanted,
            );
        assert(is_firmware(entries[i], whole));
    }
    if has_firmware(entries, whole) {
        let i = choose|i: int| 0 <= i < entries.len() && #[trigger] is_firmware(entries[i], whole);
        assert(entries[i].role == Role::Firmware);
    }
}

/// Names that are alike a name are alike each other.
proof fn lemma_alike_passes(a: Seq<u8>, b: Seq<u8>, c: Seq<u8>)
    requires
        alike(a, b),
        alike(b, c),
    ensures
        alike(a, c),
        alike(b, a),
{
    assert forall|i: int| 0 <= i < a.len() implies same_letter(#[trigger] a[i], c[i]) by {
        assert(same_letter(a[i], b[i]) && same_letter(b[i], c[i]));
    }
    assert forall|i: int| 0 <= i < b.len() implies same_letter(#[trigger] b[i], a[i]) by {
        assert(same_letter(a[i], b[i]));
    }
}

/// Firmware is found by any name alike its own.
proof fn lemma_has_alike(entries: Seq<EntryView>, a: Seq<u8>, b: Seq<u8>)
    requires
        alike(a, b),
        has_firmware(entries, a),
    ensures
        has_firmware(entries, b),
{
    let i = choose|i: int| 0 <= i < entries.len() && #[trigger] is_firmware(entries[i], a);
    let name = choose|name: Seq<u8>| #[trigger] ends_in(entries[i].path, name) && alike(name, a);
    lemma_alike_passes(name, a, b);
    assert(is_firmware(entries[i], b));
}

/// Names around middles that are alike are alike.
proof fn lemma_alike_around(a: Seq<u8>, b: Seq<u8>)
    requires
        alike(a, b),
    ensures
        alike(start_file(a), start_file(b)),
        alike(fixup_file(a), fixup_file(b)),
{
    assert forall|i: int| 0 <= i < start_file(a).len() implies same_letter(
        #[trigger] start_file(a)[i],
        start_file(b)[i],
    ) && same_letter(fixup_file(a)[i], fixup_file(b)[i]) by {
        if 5 <= i < 5 + a.len() {
            assert(same_letter(a[i - 5], b[i - 5]));
        }
    }
    assert forall|i: int| 0 <= i < fixup_file(a).len() implies same_letter(
        #[trigger] fixup_file(a)[i],
        fixup_file(b)[i],
    ) by {
        assert(same_letter(start_file(a)[i], start_file(b)[i]));
    }
}

/// Whether every `start<which>.elf` is there together with its
/// `fixup<which>.dat`, whichever it is.
pub open spec fn is_complete(entries: Seq<EntryView>) -> bool {
    forall|which: Seq<u8>| #[trigger]
        has_firmware(entries, start_file(which)) <==> has_firmware(entries, fixup_file(which))
}

/// The two halves of the firmware of an entry that has one of them.
proof fn lemma_partner(entries: Seq<EntryView>, which: Seq<u8>, i: int, started: bool)
    requires
        0 <= i < entries.len(),
        crate::layout::is_paired(entries, entries[i]),
        is_firmware(
            entries[i],
            if started {
                start_file(which)
            } else {
                fixup_file(which)
            },
        ),
    ensures
        has_firmware(
            entries,
            if started {
                fixup_file(which)
            } else {
                start_file(which)
            },
        ),
{
    let base = crate::layout::basename_of(entries[i].path);
    lemma_base(entries[i].path);
    let start = crate::layout::start_prefix();
    let elf = crate::layout::start_suffix();
    let fixup = crate::layout::fixup_prefix();
    let dat = crate::layout::fixup_suffix();
    if started {
        assert(alike(base, start + which + elf));
        lemma_around(base, start, which, elf);
        let middle = crate::layout::middle(base, start, elf);
        lemma_has(entries, fixup, middle, dat);
        lemma_alike(middle, which);
        lemma_alike_around(middle, which);
        lemma_has_alike(entries, fixup_file(middle), fixup_file(which));
    } else {
        assert(alike(base, fixup + which + dat));
        lemma_around(base, fixup, which, dat);
        assert(!crate::layout::is_around(base, start, elf)) by {
            if crate::layout::is_around(base, start, elf) {
                lemma_alike(base.take(5), start);
                assert(same_letter(base.take(5)[0], start[0]));
                assert(same_letter(base[0], (fixup + which + dat)[0]));
            }
        }
        let middle = crate::layout::middle(base, fixup, dat);
        lemma_has(entries, start, middle, elf);
        lemma_alike(middle, which);
        lemma_alike_around(middle, which);
        lemma_has_alike(entries, start_file(middle), start_file(which));
    }
}

/// A bundle's firmware comes in pairs: entries are taken for paired exactly if
/// every `start<which>.elf` among them has its `fixup<which>.dat` and the other
/// way round, in any directory, in any case and whatever `<which>` is.
pub proof fn firmware_comes_in_pairs(entries: Seq<EntryView>)
    ensures
        (forall|i: int|
            0 <= i < entries.len() ==> crate::layout::is_paired(entries, #[trigger] entries[i]))
            <==> is_complete(entries),
{
    let start = crate::layout::start_prefix();
    let elf = crate::layout::start_suffix();
    let fixup = crate::layout::fixup_prefix();
    let dat = crate::layout::fixup_suffix();
    if forall|i: int|
        0 <= i < entries.len() ==> crate::layout::is_paired(entries, #[trigger] entries[i]) {
        assert forall|which: Seq<u8>| #[trigger]
            has_firmware(entries, start_file(which)) <==> has_firmware(
                entries,
                fixup_file(which),
            ) by {
            if has_firmware(entries, start_file(which)) {
                let i = choose|i: int|
                    0 <= i < entries.len() && #[trigger] is_firmware(entries[i], start_file(which));
                assert(crate::layout::is_paired(entries, entries[i]));
                lemma_partner(entries, which, i, true);
            }
            if has_firmware(entries, fixup_file(which)) {
                let i = choose|i: int|
                    0 <= i < entries.len() && #[trigger] is_firmware(entries[i], fixup_file(which));
                assert(crate::layout::is_paired(entries, entries[i]));
                lemma_partner(entries, which, i, false);
            }
        }
    }
    if is_complete(entries) {
        assert forall|i: int| 0 <= i < entries.len() implies crate::layout::is_paired(
            entries,
            #[trigger] entries[i],
        ) by {
            let base = crate::layout::basename_of(entries[i].path);
            lemma_base(entries[i].path);
            lemma_alike(
                crate::layout::middle(base, start, elf),
                crate::layout::middle(base, start, elf),
            );
            lemma_alike(
                crate::layout::middle(base, fixup, dat),
                crate::layout::middle(base, fixup, dat),
            );
            if entries[i].role == Role::Firmware {
                if crate::layout::is_around(base, start, elf) {
                    let which = crate::layout::middle(base, start, elf);
                    lemma_around(base, start, which, elf);
                    assert(is_firmware(entries[i], start_file(which)));
                    assert(has_firmware(entries, start_file(which)));
                    lemma_has(entries, fixup, which, dat);
                } else if crate::layout::is_around(base, fixup, dat) {
                    let which = crate::layout::middle(base, fixup, dat);
                    lemma_around(base, fixup, which, dat);
                    assert(is_firmware(entries[i], fixup_file(which)));
                    assert(has_firmware(entries, fixup_file(which)));
                    assert(has_firmware(entries, start_file(which)));
                    lemma_has(entries, start, which, elf);
                }
            }
        }
    }
}

// --- All of them ----------------------------------------------------------------

/// Whether two entries claim a role.
pub open spec fn is_claimed_twice(entries: Seq<EntryView>, role: Role) -> bool {
    exists|i: int, j: int|
        0 <= i < entries.len() && 0 <= j < entries.len() && i != j && (#[trigger] entries[i]).role
            == role && (#[trigger] entries[j]).role == role
}

/// Which rule a set of entries breaks first, and that it breaks none exactly if
/// every path is a relative one, no two are the same, there is at most one kernel
/// and at most one configuration, and the firmware comes in pairs.
pub proof fn which_entries_may_stand_together(entries: Seq<EntryView>)
    ensures
        crate::layout::broken_rule(entries) == if exists|i: int|
            0 <= i < entries.len() && !crate::layout::is_relative_path(
                (#[trigger] entries[i]).path,
            ) {
            Some(Error::BadPath)
        } else if exists|i: int, j: int|
            0 <= i < entries.len() && 0 <= j < entries.len() && i != j && (
            #[trigger] entries[i]).path == (#[trigger] entries[j]).path {
            Some(Error::DuplicatePath)
        } else if is_claimed_twice(entries, Role::Kernel) {
            Some(Error::DuplicateRole(Role::Kernel))
        } else if is_claimed_twice(entries, Role::Config) {
            Some(Error::DuplicateRole(Role::Config))
        } else if !is_complete(entries) {
            Some(Error::UnpairedFirmware)
        } else {
            None
        },
{
    firmware_comes_in_pairs(entries);
    lemma_claims(entries, Role::Kernel);
    lemma_claims(entries, Role::Config);
    assert(crate::layout::shares_a_path(entries) <==> exists|i: int, j: int|
        0 <= i < entries.len() && 0 <= j < entries.len() && i != j && (#[trigger] entries[i]).path
            == (#[trigger] entries[j]).path) by {
        if exists|i: int, j: int|
            0 <= i < entries.len() && 0 <= j < entries.len() && i != j && (
            #[trigger] entries[i]).path == (#[trigger] entries[j]).path {
            let (i, j) = choose|i: int, j: int|
                0 <= i < entries.len() && 0 <= j < entries.len() && i != j && (
                #[trigger] entries[i]).path == (#[trigger] entries[j]).path;
            if j < i {
                assert(entries[j].path == entries[i].path);
            }
        }
    }
}

proof fn lemma_claims(entries: Seq<EntryView>, role: Role)
    ensures
        crate::layout::repeats_role(entries, role) <==> is_claimed_twice(entries, role),
{
    if is_claimed_twice(entries, role) {
        let (i, j) = choose|i: int, j: int|
            0 <= i < entries.len() && 0 <= j < entries.len() && i != j && (
            #[trigger] entries[i]).role == role && (#[trigger] entries[j]).role == role;
        if j < i {
            assert(entries[j].role == role && entries[i].role == role);
        }
    }
}

/// No bundle that is accepted lacks half of a firmware: what parses, and what is
/// encoded, has `fixup<which>.dat` for each `start<which>.elf` and the other way
/// round.
pub proof fn no_accepted_bundle_lacks_half_a_firmware(
    format: Format,
    bytes: Seq<u8>,
    entries: Seq<EntryView>,
    which: Seq<u8>,
)
    requires
        crate::layout::decoded(format, bytes) == Ok::<Seq<EntryView>, Error>(entries)
            || crate::layout::encoded(format, entries) is Ok,
    ensures
        has_firmware(entries, start_file(which)) <==> has_firmware(entries, fixup_file(which)),
{
    which_entries_may_stand_together(entries);
}

/// Entries can be encoded exactly if there is at least one and no more than the
/// format and the count's two bytes allow, they may stand together, each path is
/// at most 255 bytes long, and each file less than 4 GiB.
pub proof fn which_entries_can_be_encoded(format: Format, entries: Seq<EntryView>)
    ensures
        crate::layout::encoded(format, entries) is Ok <==> {
            &&& 1 <= entries.len() <= format.max_entries
            &&& entries.len() <= 65535
            &&& crate::layout::broken_rule(entries) is None
            &&& forall|i: int|
                0 <= i < entries.len() ==> (#[trigger] entries[i]).path.len() <= 255
                    && entries[i].data.len() < 0x1_0000_0000
        },
{
    crate::laws::lemma_oversize(entries);
    if crate::layout::oversize(entries) is None {
        assert forall|i: int| 0 <= i < entries.len() implies (#[trigger] entries[i]).path.len()
            <= 255 && entries[i].data.len() < 0x1_0000_0000 by {
            assert(crate::layout::fits(entries[i]));
        }
    }
}

// --- Bytes ----------------------------------------------------------------------

/// The number that four bytes spell, the lowest first.
pub open spec fn little(bytes: Seq<u8>) -> int {
    bytes[0] + 0x100 * bytes[1] + 0x1_0000 * bytes[2] + 0x100_0000 * bytes[3]
}

/// What an entry is on the wire: the number of its role, the length of its path,
/// the path, the length of its contents in four bytes, and the contents.
pub proof fn what_an_entry_is_on_the_wire(entry: EntryView)
    requires
        entry.path.len() <= 255,
        entry.data.len() < 0x1_0000_0000,
    ensures
        ({
            let bytes = crate::layout::entry_bytes(entry);
            let n = entry.path.len() as int;
            &&& bytes.len() == 6 + n + entry.data.len()
            &&& bytes[0] == match entry.role {
                Role::File => 0u8,
                Role::Kernel => 1u8,
                Role::Firmware => 2u8,
                Role::Config => 3u8,
            }
            &&& bytes[1] == n
            &&& bytes.subrange(2, 2 + n) == entry.path
            &&& little(bytes.subrange(2 + n, 6 + n)) == entry.data.len()
            &&& bytes.skip(6 + n) == entry.data
        }),
{
    let bytes = crate::layout::entry_bytes(entry);
    let n = entry.path.len() as int;
    let size = crate::wire::u32_bytes(entry.data.len() as u32);
    lemma_little(entry.data.len() as u32);
    assert(bytes.subrange(2, 2 + n) =~= entry.path);
    assert(bytes.subrange(2 + n, 6 + n) =~= size);
    assert(bytes.skip(6 + n) =~= entry.data);
}

/// What a bundle is on the wire: the magic, version 2, a zero, the number of
/// entries in two bytes, the entries one after another, and the checksum of all
/// that in four bytes.
pub proof fn what_a_bundle_is_on_the_wire(format: Format, entries: Seq<EntryView>)
    requires
        crate::layout::encoded(format, entries) is Ok,
    ensures
        ({
            let bytes = crate::layout::encoded(format, entries)->Ok_0;
            let end = bytes.len() - 4;
            &&& end >= 8
            &&& bytes.take(4) == format.magic@
            &&& bytes[4] == 2
            &&& bytes[5] == 0
            &&& bytes[6] + 0x100 * bytes[7] == entries.len()
            &&& bytes.subrange(8, end) == crate::layout::entries_bytes(entries)
            &&& little(bytes.skip(end)) == crate::crc32::crc32(bytes.take(end))
        }),
{
    let bytes = crate::layout::encoded(format, entries)->Ok_0;
    let end = bytes.len() - 4;
    let body = crate::layout::body_bytes(format.magic@, 0, entries);
    let crc = crate::crc32::crc32(body);
    lemma_little(crc);
    let count = crate::wire::u16_bytes(entries.len() as u16);
    lemma_small(entries.len() as u16);
    assert(crate::wire::u32_bytes(crc).len() == 4);
    assert(bytes.take(end) =~= body);
    assert(bytes.skip(end) =~= crate::wire::u32_bytes(crc));
    assert(bytes.take(4) =~= format.magic@);
    assert(bytes[6] == count[0] && bytes[7] == count[1]);
    assert(bytes.subrange(8, end) =~= crate::layout::entries_bytes(entries));
}

/// Entries stand on the wire one after another.
pub proof fn entries_stand_one_after_another(entries: Seq<EntryView>, entry: EntryView)
    ensures
        crate::layout::entries_bytes(Seq::empty()) == Seq::<u8>::empty(),
        crate::layout::entries_bytes(entries.push(entry)) == crate::layout::entries_bytes(entries)
            + crate::layout::entry_bytes(entry),
    decreases entries.len(),
{
    if entries.len() == 0 {
        assert(entries.push(entry).skip(1) =~= Seq::<EntryView>::empty());
        assert(entries =~= Seq::<EntryView>::empty());
        assert(entries.push(entry).first() == entry);
        assert(crate::layout::entries_bytes(entries.push(entry)) =~= crate::layout::entries_bytes(
            entries,
        ) + crate::layout::entry_bytes(entry));
    } else {
        assert(entries.push(entry).skip(1) =~= entries.skip(1).push(entry));
        entries_stand_one_after_another(entries.skip(1), entry);
        assert(entries.push(entry).first() == entries.first());
        assert(crate::layout::entries_bytes(entries.push(entry)) =~= crate::layout::entries_bytes(
            entries,
        ) + crate::layout::entry_bytes(entry));
    }
}

/// A 32-bit number is written as four bytes, the lowest first.
pub proof fn lemma_little(value: u32)
    ensures
        crate::wire::u32_bytes(value).len() == 4,
        little(crate::wire::u32_bytes(value)) == value,
{
    assert(((value & 0xFF) as u8) + 0x100 * (((value >> 8) & 0xFF) as u8) + 0x1_0000 * (((value
        >> 16) & 0xFF) as u8) + 0x100_0000 * ((value >> 24) as u8) == value) by (bit_vector);
}

/// A 16-bit number is written as two bytes, the lowest first.
pub proof fn lemma_small(value: u16)
    ensures
        crate::wire::u16_bytes(value).len() == 2,
        crate::wire::u16_bytes(value)[0] + 0x100 * crate::wire::u16_bytes(value)[1] == value,
{
    assert(((value & 0xFF) as u8) + 0x100 * ((value >> 8) as u8) == value) by (bit_vector);
}

// --- What is refused ------------------------------------------------------------

/// What is looked at first, and what is said of it: the length, the magic, the
/// version, the checksum and the number of entries, in this order and before any
/// entry.
pub proof fn what_is_refused_before_the_entries(format: Format, bytes: Seq<u8>)
    ensures
        ({
            let end = bytes.len() - 4;
            let count = bytes[6] + 0x100 * bytes[7];
            let refused = crate::layout::decoded(format, bytes);
            if bytes.len() < 12 {
                refused == Err::<Seq<EntryView>, Error>(Error::TooShort)
            } else if bytes.take(4) != format.magic@ {
                refused == Err::<Seq<EntryView>, Error>(Error::BadMagic)
            } else if bytes[4] != 2 {
                refused == Err::<Seq<EntryView>, Error>(Error::BadVersion(bytes[4]))
            } else if little(bytes.skip(end)) != crate::crc32::crc32(bytes.take(end)) {
                refused == Err::<Seq<EntryView>, Error>(Error::BadChecksum)
            } else if count == 0 || count > format.max_entries {
                refused == Err::<Seq<EntryView>, Error>(Error::BadEntryCount(count as usize))
            } else {
                refused matches Ok(entries) ==> entries.len() == count
            }
        }),
{
    if bytes.len() >= 12 {
        let end = bytes.len() - 4;
        lemma_read(bytes.skip(end));
        lemma_read_small(bytes[6], bytes[7]);
        assert(crate::wire::u32_at(bytes, end) == crate::wire::u32_at(bytes.skip(end), 0));
        let rest = bytes.subrange(8, end);
        let count = crate::wire::u16_at(bytes, 6) as nat;
        crate::laws::lemma_walk_counts(rest, count);
    }
}

/// Four bytes are read as the number they spell.
pub proof fn lemma_read(bytes: Seq<u8>)
    requires
        bytes.len() == 4,
    ensures
        crate::wire::u32_at(bytes, 0) == little(bytes),
{
    crate::wire::u32_write_undoes_read(bytes);
    lemma_little(crate::wire::u32_at(bytes, 0));
    assert(bytes.subrange(0, 4) =~= bytes);
}

pub proof fn lemma_read_small(low: u8, high: u8)
    ensures
        crate::wire::u16_at(seq![low, high], 0) == low + 0x100 * high,
{
    let bytes = seq![low, high];
    crate::wire::u16_write_undoes_read(bytes);
    lemma_small(crate::wire::u16_at(bytes, 0));
}

/// What is wrong with an entry: too few bytes for what it announces, a role that
/// is none of the four, or a path that is no text; the role is looked at first and
/// the contents last. What is right with it is read as it was written.
pub proof fn what_is_wrong_with_an_entry(rest: Seq<u8>)
    ensures
        ({
            let read = crate::layout::split(rest);
            let n = rest[1] as int;
            let size = little(rest.subrange(2 + n, 6 + n));
            if rest.len() == 0 {
                read == Err::<(EntryView, Seq<u8>), Error>(Error::Truncated)
            } else if rest[0] > 3 {
                read == Err::<(EntryView, Seq<u8>), Error>(Error::BadRole(rest[0]))
            } else if rest.len() < 2 || rest.len() < 2 + n {
                read == Err::<(EntryView, Seq<u8>), Error>(Error::Truncated)
            } else if !vstd::utf8::valid_utf8(rest.subrange(2, 2 + n)) {
                read == Err::<(EntryView, Seq<u8>), Error>(Error::PathNotUtf8)
            } else if rest.len() < 6 + n || rest.len() < 6 + n + size {
                read == Err::<(EntryView, Seq<u8>), Error>(Error::Truncated)
            } else {
                read matches Ok((entry, next)) && {
                    &&& entry.role == if rest[0] == 0 {
                        Role::File
                    } else if rest[0] == 1 {
                        Role::Kernel
                    } else if rest[0] == 2 {
                        Role::Firmware
                    } else {
                        Role::Config
                    }
                    &&& entry.path == rest.subrange(2, 2 + n)
                    &&& entry.data == rest.subrange(6 + n, 6 + n + size)
                    &&& next == rest.skip(6 + n + size)
                }
            }
        }),
{
    if rest.len() >= 2 && rest.len() >= 6 + rest[1] {
        let n = rest[1] as int;
        let tail = rest.skip(2 + n);
        let four = rest.subrange(2 + n, 6 + n);
        lemma_read(four);
        assert(crate::wire::u32_at(four, 0) == crate::wire::u32_at(tail, 0));
        let size = little(four);
        if rest.len() >= 6 + n + size {
            assert(tail.subrange(4, 4 + size) =~= rest.subrange(6 + n, 6 + n + size));
            assert(tail.skip(4 + size) =~= rest.skip(6 + n + size));
        }
    }
}

/// What a bundle with a sound header comes to: the first entry that is wrong fails
/// it, so do bytes behind the last entry and a rule that is broken, and otherwise it
/// is its entries.
pub proof fn what_a_bundle_comes_to(format: Format, bytes: Seq<u8>, rest: Seq<u8>, count: nat)
    ensures
        crate::layout::walk(rest, 0) == Ok::<(Seq<EntryView>, Seq<u8>), Error>((Seq::empty(), rest)),
        match crate::layout::split(rest) {
            Err(error) => crate::layout::walk(rest, count + 1) == Err::<
                (Seq<EntryView>, Seq<u8>),
                Error,
            >(error),
            Ok((entry, next)) => match crate::layout::walk(next, count) {
                Err(error) => crate::layout::walk(rest, count + 1) == Err::<
                    (Seq<EntryView>, Seq<u8>),
                    Error,
                >(error),
                Ok((others, end)) => crate::layout::walk(rest, count + 1) == Ok::<
                    (Seq<EntryView>, Seq<u8>),
                    Error,
                >((seq![entry] + others, end)),
            },
        },
        ({
            let end = bytes.len() - 4;
            let number = bytes[6] + 0x100 * bytes[7];
            let read = crate::layout::decoded(format, bytes);
            bytes.len() >= 12 && bytes.take(4) == format.magic@ && bytes[4] == 2 && little(
                bytes.skip(end),
            ) == crate::crc32::crc32(bytes.take(end)) && 1 <= number <= format.max_entries ==> {
                match crate::layout::walk(bytes.subrange(8, end), number as nat) {
                    Err(error) => read == Err::<Seq<EntryView>, Error>(error),
                    Ok((entries, slack)) => if slack.len() > 0 {
                        read == Err::<Seq<EntryView>, Error>(Error::Truncated)
                    } else {
                        match crate::layout::broken_rule(entries) {
                            Some(error) => read == Err::<Seq<EntryView>, Error>(error),
                            None => read == Ok::<Seq<EntryView>, Error>(entries),
                        }
                    },
                }
            }
        }),
{
    if bytes.len() >= 12 {
        let end = bytes.len() - 4;
        lemma_read(bytes.skip(end));
        lemma_read_small(bytes[6], bytes[7]);
        assert(crate::wire::u32_at(bytes, end) == crate::wire::u32_at(bytes.skip(end), 0));
    }
}

/// A bundle that is what it ought to be is accepted, and its entries are those it
/// was made of, whatever its reserved byte holds.
pub proof fn a_sound_bundle_is_accepted(format: Format, bytes: Seq<u8>, entries: Seq<EntryView>)
    requires
        bytes.len() >= 12,
        bytes.take(4) == format.magic@,
        bytes[4] == 2,
        bytes[6] + 0x100 * bytes[7] == entries.len(),
        1 <= entries.len() <= format.max_entries,
        bytes.subrange(8, bytes.len() - 4) == crate::layout::entries_bytes(entries),
        little(bytes.skip(bytes.len() - 4)) == crate::crc32::crc32(bytes.take(bytes.len() - 4)),
        forall|i: int|
            0 <= i < entries.len() ==> (#[trigger] entries[i]).path.len() <= 255
                && entries[i].data.len() < 0x1_0000_0000 && vstd::utf8::valid_utf8(entries[i].path),
        crate::layout::broken_rule(entries) is None,
    ensures
        crate::layout::decoded(format, bytes) == Ok::<Seq<EntryView>, Error>(entries),
{
    let none = Seq::<u8>::empty();
    let region = crate::layout::entries_bytes(entries);
    assert forall|i: int| 0 <= i < entries.len() implies crate::layout::fits(#[trigger] entries[i])
        && vstd::utf8::valid_utf8(entries[i].path) by {
        assert(entries[i].path.len() <= 255);
    }
    crate::laws::lemma_walk_undoes_entries_bytes(entries, none);
    assert(region + none =~= region);
    what_a_bundle_comes_to(format, bytes, none, 0);
}

/// Why entries cannot be encoded: there are none or too many, they may not stand
/// together, or the first that is too large has too long a path or too much in it.
pub proof fn why_entries_cannot_be_encoded(format: Format, entries: Seq<EntryView>, i: int)
    ensures
        ({
            let built = crate::layout::encoded(format, entries);
            if entries.len() == 0 || entries.len() > format.max_entries || entries.len() > 65535 {
                built == Err::<Seq<u8>, Error>(Error::BadEntryCount(entries.len() as usize))
            } else if crate::layout::broken_rule(entries) is Some {
                built == Err::<Seq<u8>, Error>(crate::layout::broken_rule(entries)->0)
            } else {
                0 <= i < entries.len() && (entries[i].path.len() > 255 || entries[i].data.len()
                    >= 0x1_0000_0000) && (forall|k: int|
                    0 <= k < i ==> (#[trigger] entries[k]).path.len() <= 255
                        && entries[k].data.len() < 0x1_0000_0000) ==> built == Err::<
                    Seq<u8>,
                    Error,
                >(
                    if entries[i].path.len() > 255 {
                        Error::PathTooLong
                    } else {
                        Error::DataTooLarge
                    },
                )
            }
        }),
{
    if 0 <= i < entries.len() && (entries[i].path.len() > 255 || entries[i].data.len()
        >= 0x1_0000_0000) && (forall|k: int|
        0 <= k < i ==> (#[trigger] entries[k]).path.len() <= 255 && entries[k].data.len()
            < 0x1_0000_0000) {
        lemma_first_oversize(entries, i);
    }
}

proof fn lemma_first_oversize(entries: Seq<EntryView>, i: int)
    requires
        0 <= i < entries.len(),
        entries[i].path.len() > 255 || entries[i].data.len() >= 0x1_0000_0000,
        forall|k: int|
            0 <= k < i ==> (#[trigger] entries[k]).path.len() <= 255 && entries[k].data.len()
                < 0x1_0000_0000,
    ensures
        crate::layout::oversize(entries) == Some(
            if entries[i].path.len() > 255 {
                Error::PathTooLong
            } else {
                Error::DataTooLarge
            },
        ),
    decreases i,
{
    if i > 0 {
        assert(entries[0].path.len() <= 255);
        let rest = entries.skip(1);
        assert forall|k: int| 0 <= k < i - 1 implies (#[trigger] rest[k]).path.len() <= 255
            && rest[k].data.len() < 0x1_0000_0000 by {
            assert(entries[k + 1].path.len() <= 255);
        }
        lemma_first_oversize(rest, i - 1);
    }
}

} // verus!
