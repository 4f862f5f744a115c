//! Installing a validated bundle onto a FAT volume.
//!
//! This is the half that knows what a boot partition is. It takes the
//! entries of a bundle and has them written where they say, in an order
//! chosen so that a failure part-way through leaves a board that still boots.
//!
//! [`Installer`] decides and its driver acts: the installer names the next
//! [`Action`] on the volume, the driver carries it out and hands back an
//! [`Event`] saying what came of it. Every decision is here: what is looked
//! at before it is written, which directories are made, what counts as
//! verified, and that the volume is synced whatever happened before.
//!
//! **One write per entry, with the length known up front.** The file's chain
//! is then allocated in one go and comes out contiguous, which is what lets
//! the layer underneath issue one long transfer instead of thousands of short
//! ones.
//!
//! **Skipping costs a read, and a read is much cheaper than a write.** An
//! entry that the card already holds is read in full and not written at all.

use vstd::prelude::*;

use crate::bundle::{Bundle, Checksum, Entry, Format, Role};
use crate::layout::EntryView;
use resident_fat::Error as VolumeError;

verus! {

/// Bytes read at a time when checking what is already on the card.
///
/// A card charges per command far more than per block, so a small buffer
/// would defeat the comparison it exists to make cheap.
pub const SCRATCH: usize = 0x1_0000;

/// `resident_fat::Error`, the error of every operation on a volume. It is
/// carried through and never looked into.
#[verifier::external_type_specification]
#[verifier::external_body]
#[verifier::reject_recursive_types(E)]
pub struct ExVolumeError<E>(VolumeError<E>);

/// What installing a bundle touched.
#[derive(Clone, Copy, Debug, PartialEq, Eq)]
pub struct Report {
    /// Size of the kernel installed, when the bundle carried one.
    pub kernel_len: Option<u32>,
    /// Entries written.
    pub written: u32,
    /// Entries the card already held, and which were therefore not written.
    pub skipped: u32,
}

impl Default for Report {
    fn default() -> (res: Report)
        ensures
            res == (Report { kernel_len: None, written: 0, skipped: 0 }),
    {
        Report { kernel_len: None, written: 0, skipped: 0 }
    }
}

/// Told what the installer is doing, so that timing stays with the caller.
///
/// Every method does nothing by default, so an implementation names only
/// what it cares about, and `()` implements the whole thing for a caller
/// that cares about none of it.
pub trait Progress {
    /// About to consider `entry`; nothing has been read or written yet.
    fn starting(&mut self, entry: Entry<'_>)
        default_ensures
            &*final(self) == &*old(self),
    {
        let _ = entry;
    }

    /// `entry` has been written and is about to be read back.
    fn wrote(&mut self, entry: Entry<'_>)
        default_ensures
            &*final(self) == &*old(self),
    {
        let _ = entry;
    }

    /// `entry` has been read back and matched.
    fn verified(&mut self, entry: Entry<'_>)
        default_ensures
            &*final(self) == &*old(self),
    {
        let _ = entry;
    }

    /// The card already held `entry`, so nothing was written. It has still
    /// been read in full: that is how this was established.
    fn skipped(&mut self, entry: Entry<'_>)
        default_ensures
            &*final(self) == &*old(self),
    {
        let _ = entry;
    }
}

impl Progress for () {

}

/// Why an install was refused or failed.
#[derive(Debug)]
#[verifier::reject_recursive_types(E)]
pub enum Error<E> {
    /// The bundle was rejected before anything was written.
    Bundle(crate::bundle::Error),
    /// The card or the filesystem failed.
    Storage(VolumeError<E>),
    /// A file read back after writing did not match what was written.
    VerifyFailed,
}

impl<E> Error<E> {
    /// The HTTP status to answer this with, for a device that took the
    /// bundle over HTTP.
    ///
    /// A rejected bundle is the sender's fault and a card that failed
    /// mid-write is not.
    pub fn http_status(&self) -> (res: u16)
        ensures
            res == if self is Bundle {
                400u16
            } else {
                500u16
            },
    {
        match self {
            Error::Bundle(error) => error.http_status(),
            Error::Storage(_) => 500,
            Error::VerifyFailed => 500,
        }
    }
}

impl<E> From<crate::bundle::Error> for Error<E> {
    fn from(error: crate::bundle::Error) -> (res: Error<E>) {
        Error::Bundle(error)
    }
}

impl<E> vstd::std_specs::convert::FromSpecImpl<crate::bundle::Error> for Error<E> {
    open spec fn obeys_from_spec() -> bool {
        true
    }

    open spec fn from_spec(error: crate::bundle::Error) -> Error<E> {
        Error::Bundle(error)
    }
}

impl<E> From<VolumeError<E>> for Error<E> {
    fn from(error: VolumeError<E>) -> (res: Error<E>) {
        Error::Storage(error)
    }
}

impl<E> vstd::std_specs::convert::FromSpecImpl<VolumeError<E>> for Error<E> {
    open spec fn obeys_from_spec() -> bool {
        true
    }

    open spec fn from_spec(error: VolumeError<E>) -> Error<E> {
        Error::Storage(error)
    }
}

// --- The order of an install --------------------------------------------

/// The entries of one role, in the order they were packed.
pub open spec fn of_role(entries: Seq<EntryView>, role: Role) -> Seq<EntryView> {
    entries.filter(|entry: EntryView| entry.role == role)
}

/// The order entries are installed in, whatever order they were packed in.
///
/// 1. Files: nothing here is loaded by the firmware, so a failure leaves a
///    board that still boots what it booted last time.
/// 2. Firmware.
/// 3. The configuration, which cannot on its own stop a board booting.
/// 4. The kernel, last, because with one boot image this write is the
///    commit.
pub open spec fn in_role_order(entries: Seq<EntryView>) -> Seq<EntryView> {
    of_role(entries, Role::File) + of_role(entries, Role::Firmware) + of_role(entries, Role::Config)
        + of_role(entries, Role::Kernel)
}

/// Appends the entries of one role to a plan.
fn plan_role<'a>(bundle: &Bundle<'a>, role: Role, plan: &mut Vec<Entry<'a>>)
    ensures
        crate::bundle::views(final(plan)@) == crate::bundle::views(old(plan)@) + of_role(
            bundle@,
            role,
        ),
{
    let ghost all = bundle@;
    let ghost wanted = |entry: EntryView| entry.role == role;
    let ghost before = crate::bundle::views(plan@);
    let ghost mut i: int = 0;
    let mut walk = bundle.iter();
    proof {
        reveal(Seq::filter);
        assert(all.take(0).filter(wanted) =~= Seq::<EntryView>::empty());
        assert(all.skip(0) =~= all);
        assert(before + all.take(0).filter(wanted) =~= before);
    }
    loop
        invariant
            all == bundle@,
            wanted == |entry: EntryView| entry.role == role,
            0 <= i <= all.len(),
            walk@ == all.skip(i),
            crate::bundle::views(plan@) == before + all.take(i).filter(wanted),
        ensures
            i == all.len(),
        decreases all.len() - i,
    {
        let entry = match walk.next() {
            Some(entry) => entry,
            None => break,
        };
        proof {
            reveal(Seq::filter);
            assert(entry@ == all[i]);
            assert(all.skip(i).skip(1) =~= all.skip(i + 1));
            assert(all.take(i + 1).drop_last() =~= all.take(i));
        }
        if entry.role == role {
            let ghost held = plan@;
            plan.push(entry);
            proof {
                assert(crate::bundle::views(plan@) =~= crate::bundle::views(held).push(entry@));
                assert(crate::bundle::views(plan@) =~= before + all.take(i + 1).filter(wanted));
            }
        }
        proof {
            i = i + 1;
        }
    }
    proof {
        assert(all.take(i) =~= all);
    }
}

/// The entries of a bundle in the order they are to be installed.
fn plan_of<'a>(bundle: &Bundle<'a>) -> (res: Vec<Entry<'a>>)
    ensures
        crate::bundle::views(res@) == in_role_order(bundle@),
{
    let mut plan: Vec<Entry<'a>> = Vec::new();
    plan_role(bundle, Role::File, &mut plan);
    plan_role(bundle, Role::Firmware, &mut plan);
    plan_role(bundle, Role::Config, &mut plan);
    plan_role(bundle, Role::Kernel, &mut plan);
    proof {
        let empty = crate::bundle::views(Seq::<Entry<'a>>::empty());
        assert(empty =~= Seq::<EntryView>::empty());
        assert(empty + of_role(bundle@, Role::File) =~= of_role(bundle@, Role::File));
    }
    plan
}

// --- The decisions, as values -------------------------------------------

/// Where an install stands with the entry it is at.
pub enum Stage {
    /// About to consider it.
    Consider,
    /// Looking for it on the card, before or after writing it.
    Open { after: bool },
    /// Reading what is on the card, which is as long as the entry.
    Read { after: bool, len: u32, seen: Seq<u8> },
    /// It was on the card already.
    Skipped,
    /// Looking for the directory `path[..end]`.
    Parent { end: int },
    /// Making the directory `path[..end]`.
    Create { end: int },
    /// Writing it.
    Write,
    /// It was written.
    Wrote,
    /// It was read back and matched.
    Verified,
    /// Nothing is left to install, or something failed; the volume is synced.
    Sync,
    /// The install is over.
    Done,
}

/// An install under way.
#[verifier::reject_recursive_types(E)]
pub struct Install<E> {
    /// The entries, in the order they are installed.
    pub plan: Seq<EntryView>,
    /// How many of them are dealt with.
    pub at: int,
    /// What is being done about the next one.
    pub stage: Stage,
    /// What was done so far.
    pub report: Report,
    /// What went wrong, if anything did.
    pub failed: Option<Error<E>>,
}

/// The size of the kernel among `entries`.
pub open spec fn kernel_size(entries: Seq<EntryView>) -> Option<u32>
    decreases entries.len(),
{
    if entries.len() == 0 {
        None
    } else if entries.last().role == Role::Kernel {
        Some(entries.last().data.len() as u32)
    } else {
        kernel_size(entries.drop_last())
    }
}

impl<E> Install<E> {
    /// The entry being dealt with.
    pub open spec fn entry(self) -> EntryView {
        self.plan[self.at]
    }

    /// An install that has not begun.
    pub open spec fn begin(entries: Seq<EntryView>) -> Install<E> {
        Install {
            plan: in_role_order(entries),
            at: 0,
            stage: Stage::Consider,
            report: Report { kernel_len: None, written: 0, skipped: 0 },
            failed: None,
        }
    }

    /// The install given up on, for `error`. The volume is still synced.
    pub open spec fn fail(self, error: Error<E>) -> Install<E> {
        Install { stage: Stage::Sync, failed: Some(error), ..self }
    }

    /// The directories above the entry from position `from` of its path on,
    /// and then the entry itself.
    pub open spec fn descend(self, from: int) -> Install<E> {
        let end = crate::text::find(self.entry().path, 0x2F, from);
        Install {
            stage: if end < self.entry().path.len() {
                Stage::Parent { end }
            } else {
                Stage::Write
            },
            ..self
        }
    }

    /// What follows from the card holding exactly this entry, or not. Before
    /// a write it decides whether to write at all, and after one it is the
    /// verification.
    pub open spec fn settle(self, after: bool, held: bool) -> Install<E> {
        if held && after {
            Install { stage: Stage::Verified, ..self }
        } else if held {
            Install { stage: Stage::Skipped, ..self }
        } else if after {
            self.fail(Error::VerifyFailed)
        } else {
            self.descend(0)
        }
    }

    /// One entry dealt with.
    pub open spec fn count(self, written: bool) -> Install<E> {
        Install {
            at: self.at + 1,
            stage: if self.at + 1 < self.plan.len() {
                Stage::Consider
            } else {
                Stage::Sync
            },
            report: Report {
                kernel_len: if self.entry().role == Role::Kernel {
                    Some(self.entry().data.len() as u32)
                } else {
                    self.report.kernel_len
                },
                written: if written {
                    (self.report.written + 1) as u32
                } else {
                    self.report.written
                },
                skipped: if written {
                    self.report.skipped
                } else {
                    (self.report.skipped + 1) as u32
                },
            },
            ..self
        }
    }

    /// The install after `event`. An event that answers no question leaves it
    /// where it was.
    pub open spec fn after(self, event: Event<'_, E>) -> Install<E> {
        match (self.stage, event) {
            (Stage::Consider, Event::Done) => Install {
                stage: Stage::Open { after: false },
                ..self
            },
            // Absent is an answer, not a failure. Any other error is the card
            // and is not to be reported as "different".
            (Stage::Open { after }, Event::Missing) => self.settle(after, false),
            (Stage::Open { after }, Event::Failed(error)) => self.fail(Error::Storage(error)),
            (Stage::Open { after }, Event::Opened(len)) => if len != self.entry().data.len() {
                self.settle(after, false)
            } else if len == 0 {
                self.settle(after, true)
            } else {
                Install { stage: Stage::Read { after, len, seen: Seq::empty() }, ..self }
            },
            (Stage::Read { after, len, seen }, Event::Failed(error)) => self.fail(
                Error::Storage(error),
            ),
            (Stage::Read { after, len, seen }, Event::Read(bytes)) => if bytes@.len() > SCRATCH {
                self
            } else if bytes@.len() == 0 {
                self.settle(after, false)
            } else if seen.len() + bytes@.len() < len {
                Install { stage: Stage::Read { after, len, seen: seen + bytes@ }, ..self }
            } else {
                self.settle(
                    after,
                    crate::crc32::crc32(seen + bytes@) == crate::crc32::crc32(self.entry().data),
                )
            },
            (Stage::Skipped, Event::Done) => self.count(false),
            (Stage::Parent { end }, Event::Done) => self.descend(end + 1),
            (Stage::Parent { end }, Event::Failed(_)) => Install {
                stage: Stage::Create { end },
                ..self
            },
            (Stage::Create { end }, Event::Done) => self.descend(end + 1),
            (Stage::Create { end }, Event::Failed(error)) => self.fail(Error::Storage(error)),
            (Stage::Write, Event::Done) => Install { stage: Stage::Wrote, ..self },
            (Stage::Write, Event::Failed(error)) => self.fail(Error::Storage(error)),
            (Stage::Wrote, Event::Done) => Install { stage: Stage::Open { after: true }, ..self },
            (Stage::Verified, Event::Done) => self.count(true),
            (Stage::Sync, Event::Done) => Install { stage: Stage::Done, ..self },
            (Stage::Sync, Event::Failed(error)) => Install {
                stage: Stage::Done,
                failed: match self.failed {
                    Some(earlier) => Some(earlier),
                    None => Some(Error::Storage(error)),
                },
                ..self
            },
            _ => self,
        }
    }

    /// What holds of every install that began and took events since.
    pub open spec fn sound(self) -> bool {
        &&& 0 <= self.at <= self.plan.len() <= 0xFFFF
        &&& self.report.written + self.report.skipped == self.at
        &&& self.report.kernel_len == kernel_size(self.plan.take(self.at))
        &&& if self.stage is Sync || self.stage is Done {
            self.failed is None ==> self.at == self.plan.len()
        } else {
            self.failed is None && self.at < self.plan.len()
        }
        &&& match self.stage {
            Stage::Read { after, len, seen } => seen.len() < len && len == self.entry().data.len(),
            Stage::Parent { end } => 0 <= end < self.entry().path.len() && self.entry().path[end]
                == 0x2F,
            Stage::Create { end } => 0 <= end < self.entry().path.len() && self.entry().path[end]
                == 0x2F,
            _ => true,
        }
    }
}

/// Every event leaves an install sound. So whatever the card does, the
/// entries dealt with are exactly the ones written and the ones skipped, an
/// install that did not fail has dealt with all of them, and one that is
/// still at an entry has not failed.
pub proof fn every_event_leaves_an_install_sound<E>(install: Install<E>, event: Event<'_, E>)
    requires
        install.sound(),
    ensures
        install.after(event).sound(),
        install.after(event).plan == install.plan,
        install.at <= install.after(event).at <= install.at + 1,
{
    let path = install.entry().path;
    crate::text::lemma_find(path, 0x2F, 0);
    match install.stage {
        Stage::Parent { end } => {
            crate::text::lemma_find(path, 0x2F, end + 1);
        },
        Stage::Create { end } => {
            crate::text::lemma_find(path, 0x2F, end + 1);
        },
        _ => {},
    }
    if install.at < install.plan.len() {
        assert(install.plan.take(install.at + 1).drop_last() =~= install.plan.take(install.at));
        assert(install.plan.take(install.at + 1).last() == install.entry());
    }
}

// --- The installer -------------------------------------------------------

/// What to tell whoever is watching the install.
#[derive(Clone, Copy, Debug, PartialEq, Eq, Structural)]
pub enum Notice {
    /// See [`Progress::starting`].
    Starting,
    /// See [`Progress::wrote`].
    Wrote,
    /// See [`Progress::verified`].
    Verified,
    /// See [`Progress::skipped`].
    Skipped,
}

/// What the installer wants done next.
#[derive(Clone, Copy, Debug)]
pub enum Action<'a> {
    /// Pass a notice on. Answer with [`Event::Done`].
    Tell(Notice, Entry<'a>),
    /// Open the file at this path for reading. Answer with
    /// [`Event::Opened`], [`Event::Missing`] or [`Event::Failed`].
    Open(&'a str),
    /// Read from the open file at this offset, at most [`SCRATCH`] bytes.
    /// Answer with [`Event::Read`] or [`Event::Failed`].
    Read(u32),
    /// See whether this directory can be opened. Answer with [`Event::Done`]
    /// or [`Event::Failed`].
    OpenDir(&'a str),
    /// Create this directory. Answer with [`Event::Done`] or
    /// [`Event::Failed`].
    CreateDir(&'a str),
    /// Create or replace the file at this entry's path with its data, in one
    /// go. Answer with [`Event::Done`] or [`Event::Failed`].
    Write(Entry<'a>),
    /// Write out what the volume still holds in memory. Answer with
    /// [`Event::Done`] or [`Event::Failed`].
    Sync,
    /// Nothing more; the result is in [`Installer::outcome`].
    Finish,
}

/// What came of an action.
#[verifier::reject_recursive_types(E)]
pub enum Event<'b, E> {
    /// It succeeded.
    Done,
    /// The file was opened and is this long.
    Opened(u32),
    /// There is no such file.
    Missing,
    /// These bytes were read. None means that the file ended early.
    Read(&'b [u8]),
    /// It failed.
    Failed(VolumeError<E>),
}

/// [`Stage`] as the installer holds it: what was read is kept as a running
/// checksum.
enum Phase {
    Consider,
    Open { after: bool },
    Read { after: bool, len: u32, at: u32, seen: Checksum },
    Skipped,
    Parent { end: usize },
    Create { end: usize },
    Write,
    Wrote,
    Verified,
    Sync,
    Done,
}

impl Phase {
    spec fn stage(self) -> Stage {
        match self {
            Phase::Consider => Stage::Consider,
            Phase::Open { after } => Stage::Open { after },
            Phase::Read { after, len, at, seen } => Stage::Read { after, len, seen: seen@ },
            Phase::Skipped => Stage::Skipped,
            Phase::Parent { end } => Stage::Parent { end: end as int },
            Phase::Create { end } => Stage::Create { end: end as int },
            Phase::Write => Stage::Write,
            Phase::Wrote => Stage::Wrote,
            Phase::Verified => Stage::Verified,
            Phase::Sync => Stage::Sync,
            Phase::Done => Stage::Done,
        }
    }
}

/// An install of one bundle.
#[verifier::reject_recursive_types(E)]
pub struct Installer<'a, E> {
    plan: Vec<Entry<'a>>,
    at: usize,
    phase: Phase,
    report: Report,
    failed: Option<Error<E>>,
}

impl<'a, E> View for Installer<'a, E> {
    type V = Install<E>;

    closed spec fn view(&self) -> Install<E> {
        Install {
            plan: crate::bundle::views(self.plan@),
            at: self.at as int,
            stage: self.phase.stage(),
            report: self.report,
            failed: self.failed,
        }
    }
}

/// What an install at this point asks for.
pub open spec fn asks<E>(install: Install<E>, action: Action<'_>) -> bool {
    match install.stage {
        Stage::Consider => action matches Action::Tell(Notice::Starting, entry) && entry@
            == install.entry(),
        Stage::Open { .. } => action matches Action::Open(path) && vstd::utf8::encode_utf8(path@)
            == install.entry().path,
        Stage::Read { seen, .. } => action matches Action::Read(offset) && offset == seen.len(),
        Stage::Skipped => action matches Action::Tell(Notice::Skipped, entry) && entry@
            == install.entry(),
        Stage::Parent { end } => action matches Action::OpenDir(path) && vstd::utf8::encode_utf8(
            path@,
        ) == install.entry().path.take(end),
        Stage::Create { end } => action matches Action::CreateDir(path) && vstd::utf8::encode_utf8(
            path@,
        ) == install.entry().path.take(end),
        Stage::Write => action matches Action::Write(entry) && entry@ == install.entry(),
        Stage::Wrote => action matches Action::Tell(Notice::Wrote, entry) && entry@
            == install.entry(),
        Stage::Verified => action matches Action::Tell(Notice::Verified, entry) && entry@
            == install.entry(),
        Stage::Sync => action is Sync,
        Stage::Done => action is Finish,
    }
}

impl<'a, E> Installer<'a, E> {
    #[verifier::type_invariant]
    spec fn holds(self) -> bool {
        &&& self@.sound()
        &&& self.phase matches Phase::Read { after, len, at, seen } ==> at == seen@.len()
    }

    /// Begins installing `bundle`.
    ///
    /// Every check that is a statement about the bundle happens here, before
    /// anything is asked of the volume.
    pub fn new(format: &Format, bundle: &'a [u8]) -> (res: Result<Installer<'a, E>, Error<E>>)
        ensures
            match crate::layout::decoded(*format, bundle@) {
                Ok(entries) => res matches Ok(installer) && installer@ == Install::<E>::begin(
                    entries,
                ),
                Err(error) => res == Err::<Installer<'a, E>, Error<E>>(Error::Bundle(error)),
            },
    {
        let parsed = match Bundle::parse(format, bundle) {
            Ok(parsed) => parsed,
            Err(error) => return Err(Error::Bundle(error)),
        };
        let plan = plan_of(&parsed);
        proof {
            crate::laws::what_parses_obeys_the_rules(*format, bundle@);
            crate::laws::lemma_decoded_counts(*format, bundle@);
            role_order_keeps_every_entry(parsed@);
            let begun = Install::<E>::begin(parsed@);
            assert(begun.plan.take(0) =~= Seq::<EntryView>::empty());
        }
        Ok(
            Installer {
                plan,
                at: 0,
                phase: Phase::Consider,
                report: Report { kernel_len: None, written: 0, skipped: 0 },
                failed: None,
            },
        )
    }

    /// What to do next.
    pub fn action(&self) -> (res: Action<'a>)
        ensures
            asks(self@, res),
    {
        proof {
            use_type_invariant(self);
        }
        match &self.phase {
            Phase::Consider => Action::Tell(Notice::Starting, self.plan[self.at]),
            Phase::Open { .. } => Action::Open(self.plan[self.at].path),
            Phase::Read { at, .. } => Action::Read(*at),
            Phase::Skipped => Action::Tell(Notice::Skipped, self.plan[self.at]),
            Phase::Parent { end } => Action::OpenDir(
                crate::text::cut(self.plan[self.at].path, *end).0,
            ),
            Phase::Create { end } => Action::CreateDir(
                crate::text::cut(self.plan[self.at].path, *end).0,
            ),
            Phase::Write => Action::Write(self.plan[self.at]),
            Phase::Wrote => Action::Tell(Notice::Wrote, self.plan[self.at]),
            Phase::Verified => Action::Tell(Notice::Verified, self.plan[self.at]),
            Phase::Sync => Action::Sync,
            Phase::Done => Action::Finish,
        }
    }

    /// Takes what came of the action. An event that does not answer it
    /// changes nothing.
    pub fn next(self, event: Event<'_, E>) -> (res: Installer<'a, E>)
        ensures
            res@ == self@.after(event),
    {
        proof {
            use_type_invariant(&self);
            every_event_leaves_an_install_sound(self@, event);
        }
        let Installer { plan, at, phase, report, failed } = self;
        match (phase, event) {
            (Phase::Consider, Event::Done) => Installer {
                plan,
                at,
                phase: Phase::Open { after: false },
                report,
                failed,
            },
            (Phase::Open { after }, Event::Missing) => Self::settle(plan, at, report, after, false),
            (Phase::Open { after }, Event::Opened(len)) => {
                if len as u64 != plan[at].data.len() as u64 {
                    Self::settle(plan, at, report, after, false)
                } else if len == 0 {
                    Self::settle(plan, at, report, after, true)
                } else {
                    let phase = Phase::Read { after, len, at: 0, seen: Checksum::new() };
                    Installer { plan, at, phase, report, failed }
                }
            },
            (Phase::Open { .. }, Event::Failed(error)) => Installer {
                plan,
                at,
                phase: Phase::Sync,
                report,
                failed: Some(Error::Storage(error)),
            },
            (Phase::Read { after, len, at: offset, seen }, Event::Read(bytes)) => {
                if bytes.len() > SCRATCH {
                    let phase = Phase::Read { after, len, at: offset, seen };
                    return Installer { plan, at, phase, report, failed };
                }
                if bytes.len() == 0 {
                    // Short of the length the directory entry claims.
                    // Whatever that is, it is not the file being asked about.
                    return Self::settle(plan, at, report, after, false);
                }
                let mut seen = seen;
                seen.update(bytes);
                if (offset as u64) + (bytes.len() as u64) < len as u64 {
                    let offset: u32 = offset + bytes.len() as u32;
                    let phase = Phase::Read { after, len, at: offset, seen };
                    Installer { plan, at, phase, report, failed }
                } else {
                    let held = seen.finish() == crate::bundle::checksum(plan[at].data);
                    Self::settle(plan, at, report, after, held)
                }
            },
            (Phase::Read { .. }, Event::Failed(error)) => Installer {
                plan,
                at,
                phase: Phase::Sync,
                report,
                failed: Some(Error::Storage(error)),
            },
            (Phase::Skipped, Event::Done) => Self::count(plan, at, report, false),
            (Phase::Parent { end }, Event::Done) => {
                let from: usize = past(plan[at].path, end);
                Self::descend(plan, at, report, from)
            },
            (Phase::Parent { end }, Event::Failed(_)) => Installer {
                plan,
                at,
                phase: Phase::Create { end },
                report,
                failed,
            },
            (Phase::Create { end }, Event::Done) => {
                let from: usize = past(plan[at].path, end);
                Self::descend(plan, at, report, from)
            },
            (Phase::Create { .. }, Event::Failed(error)) => Installer {
                plan,
                at,
                phase: Phase::Sync,
                report,
                failed: Some(Error::Storage(error)),
            },
            (Phase::Write, Event::Done) => Installer {
                plan,
                at,
                phase: Phase::Wrote,
                report,
                failed,
            },
            (Phase::Write, Event::Failed(error)) => Installer {
                plan,
                at,
                phase: Phase::Sync,
                report,
                failed: Some(Error::Storage(error)),
            },
            (Phase::Wrote, Event::Done) => Installer {
                plan,
                at,
                phase: Phase::Open { after: true },
                report,
                failed,
            },
            (Phase::Verified, Event::Done) => Self::count(plan, at, report, true),
            (Phase::Sync, Event::Done) => Installer {
                plan,
                at,
                phase: Phase::Done,
                report,
                failed,
            },
            (Phase::Sync, Event::Failed(error)) => {
                let failed = match failed {
                    Some(earlier) => Some(earlier),
                    None => Some(Error::Storage(error)),
                };
                Installer { plan, at, phase: Phase::Done, report, failed }
            },
            (phase, _) => Installer { plan, at, phase, report, failed },
        }
    }

    /// An install at an entry that has not been looked at.
    spec fn at_entry(plan: Seq<Entry<'a>>, at: int, report: Report) -> Install<E> {
        Install {
            plan: crate::bundle::views(plan),
            at,
            stage: Stage::Consider,
            report,
            failed: None,
        }
    }

    /// Goes on by whether the card holds exactly this entry.
    fn settle(plan: Vec<Entry<'a>>, at: usize, report: Report, after: bool, held: bool) -> (res:
        Installer<'a, E>)
        requires
            Self::at_entry(plan@, at as int, report).sound(),
        ensures
            res@ == Self::at_entry(plan@, at as int, report).settle(after, held),
    {
        if held && after {
            Installer { plan, at, phase: Phase::Verified, report, failed: None }
        } else if held {
            Installer { plan, at, phase: Phase::Skipped, report, failed: None }
        } else if after {
            let failed = Some(Error::VerifyFailed);
            Installer { plan, at, phase: Phase::Sync, report, failed }
        } else {
            Self::descend(plan, at, report, 0)
        }
    }

    /// Goes on to the next directory above this entry, or to writing it.
    fn descend(plan: Vec<Entry<'a>>, at: usize, report: Report, from: usize) -> (res: Installer<
        'a,
        E,
    >)
        requires
            Self::at_entry(plan@, at as int, report).sound(),
        ensures
            res@ == Self::at_entry(plan@, at as int, report).descend(from as int),
    {
        let path = plan[at].path.as_bytes();
        let end: usize = crate::text::find_byte(path, 0x2F, from);
        proof {
            crate::text::lemma_find(path@, 0x2F, from as int);
        }
        let phase = if end < path.len() {
            Phase::Parent { end }
        } else {
            Phase::Write
        };
        Installer { plan, at, phase, report, failed: None }
    }

    /// Counts one entry as written or skipped, and goes on to the next.
    fn count(plan: Vec<Entry<'a>>, at: usize, report: Report, written: bool) -> (res: Installer<
        'a,
        E,
    >)
        requires
            Self::at_entry(plan@, at as int, report).sound(),
        ensures
            res@ == Self::at_entry(plan@, at as int, report).count(written),
    {
        proof {
            let plan = crate::bundle::views(plan@);
            assert(plan.take(at + 1).drop_last() =~= plan.take(at as int));
            assert(plan.take(at + 1).last() == plan[at as int]);
        }
        let mut report = report;
        if plan[at].role == Role::Kernel {
            report.kernel_len = Some(plan[at].data.len() as u32);
        }
        record(&mut report, written);
        let phase = if at + 1 < plan.len() {
            Phase::Consider
        } else {
            Phase::Sync
        };
        Installer { plan, at: at + 1, phase, report, failed: None }
    }

    /// What the install came to, once [`Action::Finish`] is asked for.
    pub fn outcome(self) -> (res: Result<Report, Error<E>>)
        ensures
            match self@.failed {
                Some(error) => res == Err::<Report, Error<E>>(error),
                None => res == Ok::<Report, Error<E>>(self@.report),
            },
            self@.sound(),
    {
        proof {
            use_type_invariant(&self);
        }
        match self.failed {
            Some(error) => Err(error),
            None => Ok(self.report),
        }
    }
}

/// The position after `end` in `path`.
fn past(path: &str, end: usize) -> (res: usize)
    requires
        end < vstd::utf8::encode_utf8(path@).len(),
    ensures
        res == end + 1,
{
    let path = path.as_bytes();
    assert(end < path.len());
    end + 1
}

/// Counts one entry as written or skipped.
fn record(report: &mut Report, written: bool)
    requires
        old(report).written < u32::MAX,
        old(report).skipped < u32::MAX,
    ensures
        final(report).kernel_len == old(report).kernel_len,
        final(report).written == old(report).written + if written {
            1int
        } else {
            0
        },
        final(report).skipped == old(report).skipped + if written {
            0int
        } else {
            1
        },
{
    if written {
        report.written = report.written + 1;
    } else {
        report.skipped = report.skipped + 1;
    }
}

// --- What follows ---------------------------------------------------------

/// When in the order of an install a role comes.
pub open spec fn rank(role: Role) -> int {
    match role {
        Role::File => 0,
        Role::Firmware => 1,
        Role::Config => 2,
        Role::Kernel => 3,
    }
}

proof fn lemma_of_role_push(entries: Seq<EntryView>, entry: EntryView, role: Role)
    ensures
        of_role(entries.push(entry), role) == if entry.role == role {
            of_role(entries, role).push(entry)
        } else {
            of_role(entries, role)
        },
{
    reveal(Seq::filter);
    assert(entries.push(entry).drop_last() =~= entries);
}

/// Entries of one role have that role.
proof fn lemma_of_role(entries: Seq<EntryView>, role: Role)
    ensures
        forall|i: int|
            0 <= i < of_role(entries, role).len() ==> (#[trigger] of_role(entries, role)[i]).role
                == role,
    decreases entries.len(),
{
    if entries.len() == 0 {
        reveal(Seq::filter);
    } else {
        lemma_of_role(entries.drop_last(), role);
        assert(entries.drop_last().push(entries.last()) =~= entries);
        lemma_of_role_push(entries.drop_last(), entries.last(), role);
    }
}

/// An install deals with every entry of the bundle exactly once: the order is
/// another, the entries are the same.
pub proof fn role_order_keeps_every_entry(entries: Seq<EntryView>)
    ensures
        in_role_order(entries).to_multiset() == entries.to_multiset(),
        in_role_order(entries).len() == entries.len(),
    decreases entries.len(),
{
    broadcast use vstd::seq_lib::group_to_multiset_ensures;

    if entries.len() == 0 {
        reveal(Seq::filter);
        assert(in_role_order(entries) =~= entries);
    } else {
        let fewer = entries.drop_last();
        let entry = entries.last();
        role_order_keeps_every_entry(fewer);
        assert(fewer.push(entry) =~= entries);
        lemma_of_role_push(fewer, entry, Role::File);
        lemma_of_role_push(fewer, entry, Role::Firmware);
        lemma_of_role_push(fewer, entry, Role::Config);
        lemma_of_role_push(fewer, entry, Role::Kernel);
        let file = of_role(fewer, Role::File);
        let firmware = of_role(fewer, Role::Firmware);
        let config = of_role(fewer, Role::Config);
        let kernel = of_role(fewer, Role::Kernel);
        let at = match entry.role {
            Role::File => file.len() as int,
            Role::Firmware => (file + firmware).len() as int,
            Role::Config => (file + firmware + config).len() as int,
            Role::Kernel => (file + firmware + config + kernel).len() as int,
        };
        let before = in_role_order(fewer);
        assert(in_role_order(entries) =~= before.insert(at, entry));
        let after = in_role_order(entries);
        assert(after[at] == entry);
        assert(after.remove(at) =~= before);
        assert(before.to_multiset() == after.to_multiset().remove(entry));
        assert(after.to_multiset().count(entry) > 0);
        assert(after.to_multiset() =~= before.to_multiset().insert(entry));
    }
}

/// Files come first, then firmware, then the configuration, then the kernel,
/// however the bundle was packed.
pub proof fn entries_are_installed_in_role_order(entries: Seq<EntryView>)
    ensures
        forall|i: int, j: int|
            0 <= i <= j < in_role_order(entries).len() ==> rank(
                (#[trigger] in_role_order(entries)[i]).role,
            ) <= rank((#[trigger] in_role_order(entries)[j]).role),
{
    lemma_of_role(entries, Role::File);
    lemma_of_role(entries, Role::Firmware);
    lemma_of_role(entries, Role::Config);
    lemma_of_role(entries, Role::Kernel);
    let file = of_role(entries, Role::File);
    let firmware = of_role(entries, Role::Firmware);
    let config = of_role(entries, Role::Config);
    let kernel = of_role(entries, Role::Kernel);
    let order = in_role_order(entries);
    assert forall|i: int| 0 <= i < order.len() implies rank((#[trigger] order[i]).role) == if i
        < file.len() {
        0int
    } else if i < file.len() + firmware.len() {
        1
    } else if i < file.len() + firmware.len() + config.len() {
        2
    } else {
        3
    } by {
        if i < file.len() {
            assert(order[i] == file[i]);
        } else if i < file.len() + firmware.len() {
            assert(order[i] == firmware[i - file.len()]);
        } else if i < file.len() + firmware.len() + config.len() {
            assert(order[i] == config[i - file.len() - firmware.len()]);
        } else {
            assert(order[i] == kernel[i - file.len() - firmware.len() - config.len()]);
        }
    }
}

/// At most one of the entries is installed as the kernel.
proof fn lemma_one_kernel(entries: Seq<EntryView>)
    requires
        !crate::layout::repeats_role(entries, Role::Kernel),
    ensures
        of_role(entries, Role::Kernel).len() <= 1,
    decreases entries.len(),
{
    if entries.len() == 0 {
        reveal(Seq::filter);
    } else {
        let fewer = entries.drop_last();
        assert(fewer.push(entries.last()) =~= entries);
        lemma_of_role_push(fewer, entries.last(), Role::Kernel);
        assert forall|i: int, j: int| 0 <= i < j < fewer.len() implies !(#[trigger] fewer[i].role
            == Role::Kernel && #[trigger] fewer[j].role == Role::Kernel) by {
            assert(entries[i] == fewer[i] && entries[j] == fewer[j]);
        }
        lemma_one_kernel(fewer);
        if entries.last().role == Role::Kernel && of_role(fewer, Role::Kernel).len() > 0 {
            lemma_of_role_comes_from(fewer, Role::Kernel);
            let i = choose|i: int| 0 <= i < fewer.len() && fewer[i].role == Role::Kernel;
            assert(entries[i].role == Role::Kernel && entries[entries.len() - 1].role
                == Role::Kernel);
        }
    }
}

proof fn lemma_of_role_comes_from(entries: Seq<EntryView>, role: Role)
    requires
        of_role(entries, role).len() > 0,
    ensures
        exists|i: int| 0 <= i < entries.len() && entries[i].role == role,
    decreases entries.len(),
{
    if entries.len() == 0 {
        reveal(Seq::filter);
    } else {
        let fewer = entries.drop_last();
        assert(fewer.push(entries.last()) =~= entries);
        lemma_of_role_push(fewer, entries.last(), role);
        if entries.last().role == role {
            assert(entries[entries.len() - 1].role == role);
        } else {
            lemma_of_role_comes_from(fewer, role);
            let i = choose|i: int| 0 <= i < fewer.len() && fewer[i].role == role;
            assert(entries[i].role == role);
        }
    }
}

/// The kernel is written last. When an install of a bundle's entries asks for
/// its kernel to be written, every other entry has been written or skipped.
pub proof fn the_kernel_is_written_last<E>(
    install: Install<E>,
    entries: Seq<EntryView>,
    action: Action<'_>,
)
    requires
        install.sound(),
        install.plan == in_role_order(entries),
        crate::layout::broken_rule(entries) is None,
        asks(install, action),
    ensures
        action matches Action::Write(entry) && entry.role == Role::Kernel ==> {
            &&& install.at == entries.len() - 1
            &&& install.report.written + install.report.skipped == entries.len() - 1
        },
{
    role_order_keeps_every_entry(entries);
    if let Action::Write(entry) = action {
        if entry.role == Role::Kernel {
            lemma_one_kernel(entries);
            lemma_of_role(entries, Role::File);
            lemma_of_role(entries, Role::Firmware);
            lemma_of_role(entries, Role::Config);
            let file = of_role(entries, Role::File);
            let firmware = of_role(entries, Role::Firmware);
            let config = of_role(entries, Role::Config);
            let at = install.at;
            if at < file.len() {
                assert(install.entry() == file[at]);
            } else if at < file.len() + firmware.len() {
                assert(install.entry() == firmware[at - file.len()]);
            } else if at < file.len() + firmware.len() + config.len() {
                assert(install.entry() == config[at - file.len() - firmware.len()]);
            }
        }
    }
}

/// An install only ever ends by way of the sync: whatever failed before it,
/// what was written is not left behind in memory.
pub proof fn the_volume_is_always_synced<E>(install: Install<E>, event: Event<'_, E>)
    requires
        install.stage !is Done,
    ensures
        install.after(event).stage is Done ==> install.stage is Sync,
        install.after(event).failed is Some && install.failed is None ==> {
            ||| install.after(event).stage is Sync
            ||| install.stage is Sync
        },
{
}

/// An install that ends without an error has written or skipped every entry,
/// and reports the size of the kernel if there is one.
pub proof fn a_finished_install_dealt_with_every_entry<E>(install: Install<E>)
    requires
        install.sound(),
        install.stage is Done,
        install.failed is None,
    ensures
        install.report.written + install.report.skipped == install.plan.len(),
        install.report.kernel_len == kernel_size(install.plan),
{
    assert(install.plan.take(install.at) =~= install.plan);
}

/// An entry is skipped, or counted as written, only when the card was found to
/// hold a file of its length whose checksum is the entry's. A skipped entry
/// has been checked exactly as strictly as a written one.
pub proof fn what_is_on_the_card_was_read_and_matched<E>(install: Install<E>, event: Event<'_, E>)
    requires
        install.sound(),
        install.after(event).stage is Skipped || install.after(event).stage is Verified,
        install.after(event) != install,
    ensures
        ({
            let data = install.entry().data;
            match (install.stage, event) {
                (Stage::Open { .. }, Event::Opened(len)) => len == 0 && data.len() == 0,
                (Stage::Read { len, seen, .. }, Event::Read(bytes)) => {
                    &&& len == data.len()
                    &&& seen.len() + bytes@.len() >= len
                    &&& crate::crc32::crc32(seen + bytes@) == crate::crc32::crc32(data)
                },
                _ => false,
            }
        }),
{
}

/// How far an install is from its end: entries left, then how far it is with
/// the one it is at, then how much of that step is left.
pub open spec fn distance<E>(install: Install<E>) -> (int, int, int) {
    let left = install.plan.len() - install.at;
    match install.stage {
        Stage::Consider => (left, 9, 0),
        Stage::Open { after } => (left, if after {
            3
        } else {
            8
        }, 0),
        Stage::Read { after, len, seen } => (left, if after {
            2
        } else {
            7
        }, len - seen.len()),
        Stage::Parent { end } => (left, 6, 2 * (install.entry().path.len() - end) + 1),
        Stage::Create { end } => (left, 6, 2 * (install.entry().path.len() - end)),
        Stage::Write => (left, 5, 0),
        Stage::Wrote => (left, 4, 0),
        Stage::Skipped => (left, 1, 0),
        Stage::Verified => (left, 1, 0),
        Stage::Sync => (left, 0, 1),
        Stage::Done => (left, 0, 0),
    }
}

/// Every event that answers an install brings it closer to its end, so an
/// install ends whatever the card answers.
pub proof fn every_answer_brings_an_install_closer<E>(install: Install<E>, event: Event<'_, E>)
    requires
        install.sound(),
        install.after(event) != install,
    ensures
        ({
            let before = distance(install);
            let after = distance(install.after(event));
            &&& 0 <= after.0 && 0 <= after.1 && 0 <= after.2
            &&& after.0 < before.0 || (after.0 == before.0 && (after.1 < before.1 || (after.1
                == before.1 && after.2 < before.2)))
        }),
{
    every_event_leaves_an_install_sound(install, event);
    let path = install.entry().path;
    crate::text::lemma_find(path, 0x2F, 0);
    match install.stage {
        Stage::Parent { end } => {
            crate::text::lemma_find(path, 0x2F, end + 1);
        },
        Stage::Create { end } => {
            crate::text::lemma_find(path, 0x2F, end + 1);
        },
        _ => {},
    }
}

} // verus!
