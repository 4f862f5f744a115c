//! What an install does and reports.

use vstd::prelude::*;

use crate::apply::{Action, Error, Event, Install, Notice, Stage};
use crate::bundle::Role;
use crate::card::Card;
use crate::layout::EntryView;

verus! {

// --- The report -----------------------------------------------------------------

/// The size of the kernel among entries is there if a kernel is.
proof fn lemma_kernel_size(entries: Seq<EntryView>)
    requires
        forall|i: int| 0 <= i < entries.len() ==> (#[trigger] entries[i]).data.len() < 0x1_0000_0000,
    ensures
        match crate::apply::kernel_size(entries) {
            Some(n) => exists|i: int|
                0 <= i < entries.len() && (#[trigger] entries[i]).role == Role::Kernel
                    && entries[i].data.len() == n,
            None => forall|i: int|
                0 <= i < entries.len() ==> (#[trigger] entries[i]).role != Role::Kernel,
        },
    decreases entries.len(),
{
    if entries.len() > 0 {
        let fewer = entries.drop_last();
        assert forall|i: int| 0 <= i < fewer.len() implies (#[trigger] fewer[i]).data.len()
            < 0x1_0000_0000 by {
            assert(entries[i].data.len() < 0x1_0000_0000);
        }
        lemma_kernel_size(fewer);
        if entries.last().role == Role::Kernel {
            assert(entries[entries.len() - 1].data.len() == entries.last().data.len());
        } else {
            match crate::apply::kernel_size(fewer) {
                Some(n) => {
                    let i = choose|i: int|
                        0 <= i < fewer.len() && (#[trigger] fewer[i]).role == Role::Kernel
                            && fewer[i].data.len() == n;
                    assert(entries[i].role == Role::Kernel);
                },
                None => {
                    assert forall|i: int| 0 <= i < entries.len() implies (
                    #[trigger] entries[i]).role != Role::Kernel by {
                        if i < fewer.len() {
                            assert(fewer[i].role != Role::Kernel);
                        }
                    }
                },
            }
        }
    }
}

/// An install that ends without an error reports the length of the bundle's
/// kernel, whatever it is, and that there is none where there is none.
pub proof fn the_size_of_the_kernel_is_reported<E>(install: Install<E>, entries: Seq<EntryView>)
    requires
        install.sound(),
        install.plan == crate::apply::in_role_order(entries),
        install.stage is Done,
        install.failed is None,
        crate::layout::broken_rule(entries) is None,
        forall|i: int| 0 <= i < entries.len() ==> (#[trigger] entries[i]).data.len() < 0x1_0000_0000,
    ensures
        forall|i: int|
            0 <= i < entries.len() && (#[trigger] entries[i]).role == Role::Kernel ==> (
            install.report.kernel_len matches Some(n) && n as int == entries[i].data.len()),
        (forall|i: int| 0 <= i < entries.len() ==> (#[trigger] entries[i]).role != Role::Kernel)
            ==> install.report.kernel_len is None,
{
    broadcast use vstd::seq_lib::group_to_multiset_ensures;

    let plan = install.plan;
    crate::apply::role_order_keeps_every_entry(entries);
    assert(plan.take(install.at) =~= plan);
    assert forall|i: int| 0 <= i < plan.len() implies (#[trigger] plan[i]).data.len()
        < 0x1_0000_0000 by {
        lemma_is_in(plan, entries, i);
    }
    lemma_kernel_size(plan);
    crate::rules::which_entries_may_stand_together(entries);
    assert forall|i: int|
        0 <= i < entries.len() && (#[trigger] entries[i]).role == Role::Kernel implies (
    install.report.kernel_len matches Some(n) && n as int == entries[i].data.len()) by {
        let j = lemma_is_in(entries, plan, i);
        assert(plan[j].role == Role::Kernel);
        let n = crate::apply::kernel_size(plan)->0;
        let k = choose|k: int|
            0 <= k < plan.len() && (#[trigger] plan[k]).role == Role::Kernel && plan[k].data.len()
                == n;
        let l = lemma_is_in(plan, entries, k);
        assert(entries[l].role == Role::Kernel);
        assert(l == i);
    }
    if forall|i: int| 0 <= i < entries.len() ==> (#[trigger] entries[i]).role != Role::Kernel {
        if crate::apply::kernel_size(plan) is Some {
            let n = crate::apply::kernel_size(plan)->0;
            let k = choose|k: int|
                0 <= k < plan.len() && (#[trigger] plan[k]).role == Role::Kernel
                    && plan[k].data.len() == n;
            let l = lemma_is_in(plan, entries, k);
            assert(entries[l].role == Role::Kernel);
        }
    }
}

/// Where an entry stands in another order.
proof fn lemma_is_in(a: Seq<EntryView>, b: Seq<EntryView>, i: int) -> (j: int)
    requires
        a.to_multiset() == b.to_multiset(),
        0 <= i < a.len(),
    ensures
        0 <= j < b.len(),
        b[j] == a[i],
{
    broadcast use vstd::seq_lib::group_to_multiset_ensures;

    assert(a.contains(a[i]));
    assert(a.to_multiset().count(a[i]) > 0);
    assert(b.contains(a[i]));
    choose|j: int| 0 <= j < b.len() && b[j] == a[i]
}

/// The kernel comes behind everything else, the configuration behind everything
/// but the kernel, and firmware behind every file.
pub proof fn what_comes_before_what(entries: Seq<EntryView>, i: int, j: int)
    requires
        0 <= i < j < crate::apply::in_role_order(entries).len(),
    ensures
        ({
            let plan = crate::apply::in_role_order(entries);
            &&& plan[i].role == Role::Kernel ==> plan[j].role == Role::Kernel
            &&& plan[i].role == Role::Config ==> plan[j].role == Role::Kernel || plan[j].role
                == Role::Config
            &&& plan[i].role == Role::Firmware ==> plan[j].role != Role::File
        }),
{
    crate::apply::entries_are_installed_in_role_order(entries);
    let plan = crate::apply::in_role_order(entries);
    assert(crate::apply::rank(plan[i].role) <= crate::apply::rank(plan[j].role));
}

// --- What is asked of a card ----------------------------------------------------

/// What a card that does what it is asked has done after an action.
pub open spec fn performed(card: Card, action: Action<'_>) -> Card {
    match action {
        Action::CreateDir(path) => Card {
            dirs: card.dirs.insert(vstd::utf8::encode_utf8(path@)),
            ..card
        },
        Action::Write(entry) => Card {
            files: card.files.insert(vstd::utf8::encode_utf8(entry.path@), entry.data@),
            ..card
        },
        _ => card,
    }
}

/// What an install asks for is what it is at: the entry's own path to open, its
/// own path and contents to write, the directories above it, and the read to go on
/// where the last one ended. What the card becomes is what comes of that action.
pub proof fn an_install_asks_for_what_it_is_at<E>(
    install: Install<E>,
    action: Action<'_>,
    card: Card,
)
    requires
        crate::apply::asks(install, action),
    ensures
        card.after(install) == performed(card, action),
        match action {
            Action::Tell(notice, entry) => {
                &&& entry@ == install.plan[install.at]
                &&& match notice {
                    Notice::Starting => install.stage is Consider,
                    Notice::Wrote => install.stage is Wrote,
                    Notice::Verified => install.stage is Verified,
                    Notice::Skipped => install.stage is Skipped,
                }
            },
            Action::Open(path) => install.stage is Open && vstd::utf8::encode_utf8(path@)
                == install.plan[install.at].path,
            Action::Read(offset) => install.stage matches Stage::Read { seen, .. } && offset
                == seen.len(),
            Action::OpenDir(path) => install.stage matches Stage::Parent { end }
                && vstd::utf8::encode_utf8(path@) == install.plan[install.at].path.take(end),
            Action::CreateDir(path) => install.stage matches Stage::Create { end }
                && vstd::utf8::encode_utf8(path@) == install.plan[install.at].path.take(end),
            Action::Write(entry) => install.stage is Write && entry@ == install.plan[install.at],
            Action::Sync => install.stage is Sync,
            Action::Finish => install.stage is Done,
        },
{
}

/// What fails an install, and what it is then reported as: the card's own error
/// where looking for a file, reading, making a directory or writing failed, and a
/// failed verification where what was read back is not what was written. A
/// directory that cannot be opened is made instead.
pub proof fn what_fails_an_install<E>(install: Install<E>, event: Event<'_, E>)
    requires
        install.sound(),
        install.failed is None,
    ensures
        match (install.stage, event) {
            (Stage::Open { .. }, Event::Failed(error)) => install.after(event).failed == Some(
                Error::Storage(error),
            ),
            (Stage::Read { .. }, Event::Failed(error)) => install.after(event).failed == Some(
                Error::Storage(error),
            ),
            (Stage::Create { .. }, Event::Failed(error)) => install.after(event).failed == Some(
                Error::Storage(error),
            ),
            (Stage::Write, Event::Failed(error)) => install.after(event).failed == Some(
                Error::Storage(error),
            ),
            (Stage::Sync, Event::Failed(error)) => install.after(event).failed == Some(
                Error::Storage(error),
            ),
            (Stage::Open { after: true }, Event::Missing) => install.after(event).failed == Some(
                Error::<E>::VerifyFailed,
            ),
            (Stage::Open { after: true }, Event::Opened(len)) => install.after(event).failed
                == if len == install.entry().data.len() {
                None
            } else {
                Some(Error::<E>::VerifyFailed)
            },
            (Stage::Read { after: true, len, seen }, Event::Read(bytes)) => if 0 < bytes@.len()
                <= crate::apply::SCRATCH && seen.len() + bytes@.len() >= len {
                install.after(event).failed == if crate::crc32::crc32(seen + bytes@)
                    == crate::crc32::crc32(install.entry().data) {
                    None
                } else {
                    Some(Error::<E>::VerifyFailed)
                }
            } else {
                bytes@.len() == 0 ==> install.after(event).failed == Some(Error::<E>::VerifyFailed)
            },
            _ => install.after(event).failed is None,
        },
        install.after(event).failed is Some ==> install.after(event).stage is Sync || install.after(
            event,
        ).stage is Done,
{
}

// --- What is counted ------------------------------------------------------------

/// How many of some entries a card takes for its own.
pub open spec fn held(card: Card, entries: Seq<EntryView>) -> nat
    decreases entries.len(),
{
    if entries.len() == 0 {
        0
    } else {
        held(card, entries.drop_last()) + if card.holds(entries.last()) {
            1nat
        } else {
            0
        }
    }
}

/// Whether an entry that an install is at has not been written yet.
spec fn is_untouched(stage: Stage) -> bool {
    match stage {
        Stage::Consider => true,
        Stage::Open { after } => !after,
        Stage::Read { after, .. } => !after,
        Stage::Skipped => true,
        Stage::Parent { .. } => true,
        Stage::Create { .. } => true,
        Stage::Write => true,
        _ => false,
    }
}

/// What holds of the counts on the way.
spec fn is_counted<E>(before: Card, then: Card, now: Install<E>) -> bool {
    &&& forall|j: int|
        now.at <= j < now.plan.len() && (j > now.at || is_untouched(now.stage)) ==> then.keeps(
            before,
            (#[trigger] now.plan[j]).path,
        )
    &&& now.report.skipped == held(before, now.plan.take(now.at))
    &&& match now.stage {
        Stage::Skipped => before.holds(now.entry()),
        Stage::Parent { .. } => !before.holds(now.entry()),
        Stage::Create { .. } => !before.holds(now.entry()),
        Stage::Write => !before.holds(now.entry()),
        Stage::Wrote => !before.holds(now.entry()),
        Stage::Open { after } => after ==> !before.holds(now.entry()),
        Stage::Read { after, .. } => after ==> !before.holds(now.entry()),
        Stage::Verified => !before.holds(now.entry()),
        _ => true,
    }
}

proof fn lemma_counts<E>(before: Card, then: Card, now: Install<E>, event: Event<'_, E>)
    requires
        now.sound(),
        crate::card::have_own_paths(now.plan),
        forall|i: int|
            0 <= i < now.plan.len() ==> (#[trigger] now.plan[i]).data.len() <= u32::MAX,
        then.agrees(now),
        then.answers(now, event),
        is_counted(before, then, now),
    ensures
        is_counted(before, then.after(now), now.after(event)),
{
    let next = now.after(event);
    let after = then.after(now);
    let entry = now.entry();
    crate::apply::every_event_leaves_an_install_sound(now, event);
    if now.at < now.plan.len() {
        assert(now.plan.take(now.at + 1).drop_last() =~= now.plan.take(now.at));
        assert(now.plan.take(now.at + 1).last() == entry);
        assert(is_untouched(now.stage) ==> then.keeps(before, now.plan[now.at].path));
    }
    assert forall|j: int|
        next.at <= j < next.plan.len() && (j > next.at || is_untouched(next.stage)) implies after.keeps(
        before,
        (#[trigger] next.plan[j]).path,
    ) by {
        assert(now.plan[j] == next.plan[j]);
        if now.stage is Write && j > now.at {
            assert(now.plan[now.at].path != now.plan[j].path);
        }
        assert(j > now.at || is_untouched(now.stage));
        assert(then.keeps(before, now.plan[j].path));
    }
    match now.stage {
        Stage::Open { after: again } => {
            if let Event::Opened(len) = event {
                if len == 0 && entry.data.len() == 0 {
                    assert(then.files[entry.path] =~= entry.data);
                }
            }
        },
        Stage::Read { after: again, len, seen } => {
            let file = then.files[entry.path];
            if let Event::Read(bytes) = event {
                if seen.len() + bytes@.len() >= len {
                    assert(seen + bytes@ =~= file);
                }
            }
        },
        _ => {},
    }
}

/// What an install onto a good card skips is exactly what the card held before,
/// and it writes all the rest.
pub proof fn what_is_skipped_was_there_before<E>(
    card: Card,
    entries: Seq<EntryView>,
    events: Seq<Event<'_, E>>,
)
    requires
        crate::card::can_be_packed(entries),
        crate::card::is_answered(card, Install::begin(entries), events),
    ensures
        ({
            let (then, now) = crate::card::course(card, Install::<E>::begin(entries), events);
            let order = crate::apply::in_role_order(entries);
            now.stage is Done ==> {
                &&& now.report.skipped == held(card, order)
                &&& now.report.written == entries.len() - held(card, order)
            }
        }),
{
    lemma_all_counts(card, entries, events);
    crate::card::an_install_puts_every_entry_on_the_card(card, entries, events);
    let (then, now) = crate::card::course(card, Install::<E>::begin(entries), events);
    if now.stage is Done {
        assert(now.plan.take(now.at) =~= now.plan);
    }
}

proof fn lemma_all_counts<E>(card: Card, entries: Seq<EntryView>, events: Seq<Event<'_, E>>)
    requires
        crate::card::can_be_packed(entries),
        crate::card::is_answered(card, Install::begin(entries), events),
    ensures
        ({
            let (then, now) = crate::card::course(card, Install::<E>::begin(entries), events);
            &&& now.plan == crate::apply::in_role_order(entries)
            &&& now.sound()
            &&& is_counted(card, then, now)
        }),
    decreases events.len(),
{
    crate::card::lemma_course(card, entries, events);
    if events.len() == 0 {
        let begun = Install::<E>::begin(entries);
        assert(begun.plan.take(0).len() == 0);
    } else {
        let earlier = events.drop_last();
        lemma_all_counts(card, entries, earlier);
        crate::card::lemma_course(card, entries, earlier);
        let (then, now) = crate::card::course(card, Install::<E>::begin(entries), earlier);
        crate::card::installed_entries_have_own_paths(entries);
        crate::apply::role_order_keeps_every_entry(entries);
        assert forall|i: int| 0 <= i < now.plan.len() implies (#[trigger] now.plan[i]).data.len()
            <= u32::MAX by {
            let j = lemma_is_in(now.plan, entries, i);
            assert(entries[j].data.len() <= u32::MAX);
        }
        lemma_counts(card, then, now, events.last());
    }
}

} // verus!
