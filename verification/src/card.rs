//! Installing onto a card that does what it is asked.
//!
//! A [`Card`] holds a file for each path and gives back what was written to it.
//! What follows is that an install does what it is for: afterwards the card
//! holds every entry of the bundle, and installing the same bundle again writes
//! nothing.

use vstd::prelude::*;

use crate::apply::{Event, Install, Stage, SCRATCH};
use crate::layout::EntryView;

verus! {

/// A card that does what it is asked.
pub struct Card {
    /// What is in each file.
    pub files: Map<Seq<u8>, Seq<u8>>,
    /// The directories there are.
    pub dirs: Set<Seq<u8>>,
}

impl Card {
    /// Whether `event` is what this card answers to what an install asks. It
    /// reads as much of a file at a time as it likes.
    pub open spec fn answers<E>(self, install: Install<E>, event: Event<'_, E>) -> bool {
        let path = install.entry().path;
        match install.stage {
            Stage::Open { .. } => if self.files.dom().contains(path) {
                event matches Event::Opened(len) && len == self.files[path].len()
            } else {
                event is Missing
            },
            Stage::Read { seen, .. } => event matches Event::Read(bytes) && {
                &&& 0 < bytes@.len() <= SCRATCH
                &&& seen.len() + bytes@.len() <= self.files[path].len()
                &&& bytes@ == self.files[path].subrange(
                    seen.len() as int,
                    (seen.len() + bytes@.len()) as int,
                )
            },
            Stage::Parent { end } => if self.dirs.contains(path.take(end)) {
                event is Done
            } else {
                event is Failed
            },
            _ => event is Done,
        }
    }

    /// The card after it has done what an install asks.
    pub open spec fn after<E>(self, install: Install<E>) -> Card {
        let entry = install.entry();
        match install.stage {
            Stage::Create { end } => Card { dirs: self.dirs.insert(entry.path.take(end)), ..self },
            Stage::Write => Card { files: self.files.insert(entry.path, entry.data), ..self },
            _ => self,
        }
    }

    /// Whether the card holds a file at an entry's path that an install takes
    /// for the entry: one of its length and its checksum.
    pub open spec fn holds(self, entry: EntryView) -> bool {
        &&& self.files.dom().contains(entry.path)
        &&& self.files[entry.path].len() == entry.data.len()
        &&& crate::crc32::crc32(self.files[entry.path]) == crate::crc32::crc32(entry.data)
    }

    /// Whether the card holds an entry byte for byte.
    pub open spec fn has(self, entry: EntryView) -> bool {
        &&& self.files.dom().contains(entry.path)
        &&& self.files[entry.path] == entry.data
    }

    /// Whether the directories that the first `below` bytes of a path name are
    /// there.
    pub open spec fn has_dirs(self, path: Seq<u8>, below: int) -> bool {
        forall|k: int|
            0 <= k < below && k < path.len() && path[k] == 0x2F ==> self.dirs.contains(
                #[trigger] path.take(k),
            )
    }

    /// Whether the way to the file at hand is there, as far as an install has come
    /// along it.
    pub open spec fn leads<E>(self, install: Install<E>) -> bool {
        let path = install.entry().path;
        match install.stage {
            Stage::Parent { end } => self.has_dirs(path, end),
            Stage::Create { end } => self.has_dirs(path, end),
            Stage::Write => self.has_dirs(path, path.len() as int),
            _ => true,
        }
    }

    /// Whether a path holds what it held on `before`.
    pub open spec fn keeps(self, before: Card, path: Seq<u8>) -> bool {
        &&& self.files.dom().contains(path) == before.files.dom().contains(path)
        &&& before.files.dom().contains(path) ==> self.files[path] == before.files[path]
    }

    /// What holds of this card and an install onto it, from the start on.
    pub open spec fn agrees<E>(self, install: Install<E>) -> bool {
        let entry = install.entry();
        let there = self.files.dom().contains(entry.path);
        let file = self.files[entry.path];
        &&& install.failed is None
        &&& forall|i: int| 0 <= i < install.at ==> self.holds(#[trigger] install.plan[i])
        &&& install.report.skipped == 0 ==> forall|i: int|
            0 <= i < install.at ==> self.has(#[trigger] install.plan[i])
        &&& match install.stage {
            Stage::Open { after } => after ==> self.has(entry),
            Stage::Read { after, len, seen } => {
                &&& there
                &&& file.len() == len
                &&& seen.len() < len
                &&& seen == file.take(seen.len() as int)
                &&& after ==> file == entry.data
            },
            Stage::Wrote => self.has(entry),
            Stage::Skipped => self.holds(entry),
            Stage::Verified => self.has(entry),
            _ => true,
        }
    }
}

/// Whether no two entries have the same path.
pub open spec fn have_own_paths(entries: Seq<EntryView>) -> bool {
    forall|i: int, j: int|
        0 <= i < j < entries.len() ==> (#[trigger] entries[i]).path != (#[trigger] entries[j]).path
}

/// A card that does what it is asked never fails an install, and keeps every
/// entry that was dealt with.
pub proof fn a_good_card_keeps_what_is_installed<E>(
    card: Card,
    install: Install<E>,
    event: Event<'_, E>,
)
    requires
        install.sound(),
        have_own_paths(install.plan),
        forall|i: int|
            0 <= i < install.plan.len() ==> (#[trigger] install.plan[i]).data.len() <= u32::MAX,
        card.agrees(install),
        card.answers(install, event),
    ensures
        card.after(install).agrees(install.after(event)),
{
    let next = install.after(event);
    let after = card.after(install);
    let entry = install.entry();
    crate::apply::every_event_leaves_an_install_sound(install, event);
    match install.stage {
        Stage::Write => {
            assert forall|i: int| 0 <= i < next.at implies after.holds(#[trigger] next.plan[i]) by {
                assert(card.holds(install.plan[i]));
                assert(install.plan[i].path != install.plan[install.at].path);
            }
            if next.report.skipped == 0 {
                assert forall|i: int| 0 <= i < next.at implies after.has(
                    #[trigger] next.plan[i],
                ) by {
                    assert(card.has(install.plan[i]));
                    assert(install.plan[i].path != install.plan[install.at].path);
                }
            }
        },
        Stage::Read { after: again, len, seen } => {
            let file = card.files[entry.path];
            if let Event::Read(bytes) = event {
                assert(seen + bytes@ =~= file.take((seen.len() + bytes@.len()) as int));
                if seen.len() + bytes@.len() >= len {
                    assert(seen + bytes@ =~= file);
                }
            }
        },
        Stage::Open { after: again } => {
            if let Event::Opened(len) = event {
                let file = card.files[entry.path];
                assert(file.take(0) =~= Seq::<u8>::empty());
                if len == 0 && entry.data.len() == 0 {
                    assert(file =~= entry.data);
                }
            }
        },
        Stage::Skipped => {
            assert(forall|i: int| 0 <= i < next.at ==> card.holds(#[trigger] next.plan[i]));
        },
        Stage::Verified => {
            assert(forall|i: int| 0 <= i < next.at ==> card.holds(#[trigger] next.plan[i]));
        },
        _ => {},
    }
}

/// An install goes down a path one directory at a time, and makes each that is
/// not there.
pub proof fn an_install_makes_its_way<E>(card: Card, install: Install<E>, event: Event<'_, E>)
    requires
        install.sound(),
        card.leads(install),
        card.answers(install, event),
    ensures
        card.after(install).leads(install.after(event)),
        card.dirs.subset_of(card.after(install).dirs),
{
    let path = install.entry().path;
    let after = card.after(install);
    match install.stage {
        Stage::Parent { end } => {
            crate::text::lemma_find(path, 0x2F, end + 1);
            assert forall|k: int|
                0 <= k < crate::text::find(path, 0x2F, end + 1) && k < path.len() && path[k]
                    == 0x2F && event is Done implies after.dirs.contains(#[trigger] path.take(k)) by {
                assert(k <= end);
            }
        },
        Stage::Create { end } => {
            crate::text::lemma_find(path, 0x2F, end + 1);
            assert forall|k: int|
                0 <= k < crate::text::find(path, 0x2F, end + 1) && k < path.len() && path[k]
                    == 0x2F implies after.dirs.contains(#[trigger] path.take(k)) by {
                assert(k <= end);
                if k < end {
                    assert(card.dirs.contains(path.take(k)));
                }
            }
        },
        _ => {
            crate::text::lemma_find(path, 0x2F, 0);
        },
    }
}

/// Whether an install has found every entry so far on the card already.
pub open spec fn only_skips<E>(install: Install<E>) -> bool {
    &&& install.report.written == 0
    &&& match install.stage {
        Stage::Consider => true,
        Stage::Open { after } => !after,
        Stage::Read { after, .. } => !after,
        Stage::Skipped => true,
        Stage::Sync => true,
        Stage::Done => true,
        _ => false,
    }
}

/// An update that changes nothing writes nothing: onto a card that holds every
/// entry already, an install never asks for a directory or a write, and leaves
/// the card as it was.
pub proof fn what_is_there_is_not_written_again<E>(
    card: Card,
    install: Install<E>,
    event: Event<'_, E>,
)
    requires
        install.sound(),
        card.agrees(install),
        card.answers(install, event),
        forall|i: int| 0 <= i < install.plan.len() ==> card.holds(#[trigger] install.plan[i]),
        only_skips(install),
    ensures
        only_skips(install.after(event)),
        card.after(install) == card,
{
    if install.at < install.plan.len() {
        assert(card.holds(install.plan[install.at]));
        let entry = install.entry();
        let file = card.files[entry.path];
        if let Stage::Read { len, seen, .. } = install.stage {
            if let Event::Read(bytes) = event {
                if seen.len() + bytes@.len() >= len {
                    assert(seen + bytes@ =~= file);
                }
            }
        }
    }
}

/// The entries of a bundle have paths of their own, also in the order they are
/// installed in.
pub proof fn installed_entries_have_own_paths(entries: Seq<EntryView>)
    requires
        crate::layout::broken_rule(entries) is None,
    ensures
        have_own_paths(crate::apply::in_role_order(entries)),
{
    let order = crate::apply::in_role_order(entries);
    assert(have_own_paths(entries)) by {
        assert(!crate::layout::shares_a_path(entries));
    }
    crate::apply::role_order_keeps_every_entry(entries);
    crate::reorder::lemma_pairs(entries, order, |x: EntryView, y: EntryView| x.path != y.path);
}

// --- Whole installs -----------------------------------------------------------

/// Where a card and an install onto it stand after some answers.
pub open spec fn course<E>(card: Card, install: Install<E>, events: Seq<Event<'_, E>>) -> (
    Card,
    Install<E>,
)
    decreases events.len(),
{
    if events.len() == 0 {
        (card, install)
    } else {
        let (then, now) = course(card, install, events.drop_last());
        (then.after(now), now.after(events.last()))
    }
}

/// Whether every answer is the card's.
pub open spec fn is_answered<E>(card: Card, install: Install<E>, events: Seq<Event<'_, E>>) -> bool
    decreases events.len(),
{
    events.len() == 0 || {
        let (then, now) = course(card, install, events.drop_last());
        &&& is_answered(card, install, events.drop_last())
        &&& then.answers(now, events.last())
    }
}

/// Whether entries can be in a bundle.
pub open spec fn can_be_packed(entries: Seq<EntryView>) -> bool {
    &&& 0 < entries.len() <= u16::MAX
    &&& crate::layout::broken_rule(entries) is None
    &&& forall|i: int| 0 <= i < entries.len() ==> (#[trigger] entries[i]).data.len() <= u32::MAX
}

/// The entries of a bundle and those that are installed are the same.
proof fn lemma_same_entries(entries: Seq<EntryView>)
    ensures
        ({
            let order = crate::apply::in_role_order(entries);
            &&& order.len() == entries.len()
            &&& forall|i: int| 0 <= i < entries.len() ==> order.contains(#[trigger] entries[i])
            &&& forall|i: int| 0 <= i < order.len() ==> entries.contains(#[trigger] order[i])
        }),
{
    broadcast use vstd::seq_lib::group_to_multiset_ensures;

    let order = crate::apply::in_role_order(entries);
    crate::apply::role_order_keeps_every_entry(entries);
    assert forall|i: int| 0 <= i < entries.len() implies order.contains(#[trigger] entries[i]) by {
        assert(entries.contains(entries[i]));
        assert(entries.to_multiset().count(entries[i]) > 0);
    }
    assert forall|i: int| 0 <= i < order.len() implies entries.contains(#[trigger] order[i]) by {
        assert(order.contains(order[i]));
        assert(order.to_multiset().count(order[i]) > 0);
    }
}

/// What holds of a card and an install onto it on the way.
pub proof fn lemma_course<E>(card: Card, entries: Seq<EntryView>, events: Seq<Event<'_, E>>)
    requires
        can_be_packed(entries),
        is_answered(card, Install::begin(entries), events),
    ensures
        ({
            let (then, now) = course(card, Install::<E>::begin(entries), events);
            &&& now.plan == crate::apply::in_role_order(entries)
            &&& now.sound()
            &&& then.agrees(now)
        }),
    decreases events.len(),
{
    let begun = Install::<E>::begin(entries);
    lemma_same_entries(entries);
    if events.len() == 0 {
        assert(begun.plan.take(0).len() == 0);
    } else {
        lemma_course(card, entries, events.drop_last());
        let (then, now) = course(card, begun, events.drop_last());
        installed_entries_have_own_paths(entries);
        assert forall|i: int| 0 <= i < now.plan.len() implies (#[trigger] now.plan[i]).data.len()
            <= u32::MAX by {
            assert(entries.contains(now.plan[i]));
        }
        crate::apply::every_event_leaves_an_install_sound(now, events.last());
        a_good_card_keeps_what_is_installed(then, now, events.last());
    }
}

/// Installing a bundle onto a good card puts every entry on it: the install
/// never fails, and when it is over the card holds every entry of the bundle,
/// each either written or found there. If none was found there, the card holds
/// every entry byte for byte.
pub proof fn an_install_puts_every_entry_on_the_card<E>(
    card: Card,
    entries: Seq<EntryView>,
    events: Seq<Event<'_, E>>,
)
    requires
        can_be_packed(entries),
        is_answered(card, Install::begin(entries), events),
    ensures
        ({
            let (then, now) = course(card, Install::<E>::begin(entries), events);
            &&& now.failed is None
            &&& now.stage is Done ==> {
                &&& now.report.written + now.report.skipped == entries.len()
                &&& forall|i: int| 0 <= i < entries.len() ==> then.holds(#[trigger] entries[i])
                &&& now.report.skipped == 0 ==> forall|i: int|
                    0 <= i < entries.len() ==> then.has(#[trigger] entries[i])
            }
        }),
{
    lemma_course(card, entries, events);
    lemma_same_entries(entries);
    let (then, now) = course(card, Install::<E>::begin(entries), events);
    if now.stage is Done {
        assert forall|i: int| 0 <= i < entries.len() implies then.holds(#[trigger] entries[i]) by {
            assert(now.plan.contains(entries[i]));
        }
        if now.report.skipped == 0 {
            assert forall|i: int| 0 <= i < entries.len() implies then.has(#[trigger] entries[i]) by {
                assert(now.plan.contains(entries[i]));
            }
        }
    }
}

/// Installing a bundle that is on a card already writes nothing: the card stays
/// as it is, and when the install is over every entry was skipped.
pub proof fn installing_again_writes_nothing<E>(
    card: Card,
    entries: Seq<EntryView>,
    events: Seq<Event<'_, E>>,
)
    requires
        can_be_packed(entries),
        is_answered(card, Install::begin(entries), events),
        forall|i: int| 0 <= i < entries.len() ==> card.holds(#[trigger] entries[i]),
    ensures
        ({
            let (then, now) = course(card, Install::<E>::begin(entries), events);
            &&& then == card
            &&& only_skips(now)
            &&& now.stage is Done ==> now.report.skipped == entries.len()
        }),
    decreases events.len(),
{
    let begun = Install::<E>::begin(entries);
    lemma_course(card, entries, events);
    lemma_same_entries(entries);
    if events.len() > 0 {
        installing_again_writes_nothing(card, entries, events.drop_last());
        lemma_course(card, entries, events.drop_last());
        let (then, now) = course(card, begun, events.drop_last());
        assert forall|i: int| 0 <= i < now.plan.len() implies card.holds(
            #[trigger] now.plan[i],
        ) by {
            assert(entries.contains(now.plan[i]));
        }
        what_is_there_is_not_written_again(then, now, events.last());
    }
}

/// The directories above a file are there when it is written, and no directory
/// is ever lost.
pub proof fn a_file_is_written_where_its_directories_are<E>(
    card: Card,
    entries: Seq<EntryView>,
    events: Seq<Event<'_, E>>,
)
    requires
        can_be_packed(entries),
        is_answered(card, Install::begin(entries), events),
    ensures
        ({
            let (then, now) = course(card, Install::<E>::begin(entries), events);
            let path = now.entry().path;
            &&& then.leads(now)
            &&& now.stage is Write ==> then.has_dirs(path, path.len() as int)
            &&& card.dirs.subset_of(then.dirs)
        }),
    decreases events.len(),
{
    if events.len() > 0 {
        let earlier = events.drop_last();
        a_file_is_written_where_its_directories_are(card, entries, earlier);
        lemma_course(card, entries, earlier);
        let (then, now) = course(card, Install::<E>::begin(entries), earlier);
        an_install_makes_its_way(then, now, events.last());
    }
}

/// An install touches only what it installs: a path that no entry of the bundle
/// has holds what it held before, or still nothing.
pub proof fn other_files_stay_as_they_were<E>(
    card: Card,
    entries: Seq<EntryView>,
    events: Seq<Event<'_, E>>,
    path: Seq<u8>,
)
    requires
        can_be_packed(entries),
        is_answered(card, Install::begin(entries), events),
        forall|i: int| 0 <= i < entries.len() ==> (#[trigger] entries[i]).path != path,
    ensures
        course(card, Install::<E>::begin(entries), events).0.keeps(card, path),
    decreases events.len(),
{
    if events.len() > 0 {
        let earlier = events.drop_last();
        other_files_stay_as_they_were(card, entries, earlier, path);
        lemma_course(card, entries, earlier);
        lemma_same_entries(entries);
        let (then, now) = course(card, Install::<E>::begin(entries), earlier);
        if now.stage is Write {
            assert(entries.contains(now.plan[now.at]));
            assert(now.entry().path != path);
        }
    }
}

} // verus!
