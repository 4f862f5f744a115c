//! The passthrough terminal: what the device sends is shown, and what is typed
//! goes to the device.
//!
//! The two directions block independently, so each has a loop of its own. What
//! either does about what it reads is decided here.

use vstd::prelude::*;

verus! {

/// Key that leaves terminal mode: Ctrl-]. Ctrl-C cannot be the way out, because
/// it has to reach the device.
pub const ESCAPE: u8 = 0x1D;

/// How long a read of the device waits, in milliseconds.
pub const READ_TIMEOUT: u64 = 100;

/// How long what the device already sent is still shown after the exit key, in
/// milliseconds, before a device that never pauses is given up on.
pub const DRAIN_LIMIT: u64 = 500;

/// What reading the keyboard came to.
pub enum Typed<'a> {
    /// These bytes; none at the end of the input.
    Bytes(&'a [u8]),
    /// Nothing yet: the read was interrupted.
    Nothing,
    /// The keyboard cannot be read.
    Failed,
}

/// What to do about it.
#[derive(Debug, PartialEq, Eq)]
pub enum Forward<'a> {
    /// Send this and read on.
    Send(&'a [u8]),
    /// Send this and leave.
    SendAndLeave(&'a [u8]),
    /// Read on.
    ReadOn,
    /// The input is over. The device may still have plenty to say, so keep
    /// showing it until interrupted or the port is gone.
    KeepShowing,
    /// Leave, with the failure.
    GiveUp,
}

/// What is typed ahead of the escape goes to the device; only the escape
/// itself, and what comes after it, does not.
pub fn forward_keyboard<'a>(typed: Typed<'a>) -> (res: Forward<'a>)
    ensures
        match typed {
            Typed::Bytes(bytes) => {
                let at = crate::text::find(bytes@, ESCAPE, 0);
                if bytes@.len() == 0 {
                    res is KeepShowing
                } else if at < bytes@.len() {
                    res matches Forward::SendAndLeave(sent) && sent@ == bytes@.take(at)
                } else {
                    res matches Forward::Send(sent) && sent@ == bytes@
                }
            },
            Typed::Nothing => res is ReadOn,
            Typed::Failed => res is GiveUp,
        },
{
    match typed {
        Typed::Bytes(bytes) => {
            if bytes.len() == 0 {
                return Forward::KeepShowing;
            }
            let at: usize = crate::text::find_byte(bytes, ESCAPE, 0);
            proof {
                crate::text::lemma_find(bytes@, ESCAPE, 0);
            }
            if at < bytes.len() {
                let sent = crate::text::part(bytes, 0, at);
                proof {
                    assert(sent@ =~= bytes@.take(at as int));
                }
                Forward::SendAndLeave(sent)
            } else {
                Forward::Send(bytes)
            }
        },
        Typed::Nothing => Forward::ReadOn,
        Typed::Failed => Forward::GiveUp,
    }
}

/// What is sent to the device never holds the escape, and is everything typed
/// before it.
pub proof fn the_escape_is_never_sent(typed: Seq<u8>)
    ensures
        ({
            let sent = typed.take(crate::text::find(typed, ESCAPE, 0));
            &&& !sent.contains(ESCAPE)
            &&& typed.contains(ESCAPE) ==> sent.push(ESCAPE).is_prefix_of(typed)
            &&& !typed.contains(ESCAPE) ==> sent == typed
        }),
{
    crate::text::lemma_find(typed, ESCAPE, 0);
    let at = crate::text::find(typed, ESCAPE, 0);
    let sent = typed.take(at);
    if at < typed.len() {
        assert(typed[at] == ESCAPE);
        assert(sent.push(ESCAPE) =~= typed.take(at + 1));
    } else {
        assert(sent =~= typed);
    }
}

/// The escape is Ctrl-], and nothing else: what holds no such byte is all sent.
pub proof fn only_one_key_leaves(typed: Seq<u8>)
    requires
        forall|i: int| 0 <= i < typed.len() ==> typed[i] != 0x1D,
    ensures
        crate::text::find(typed, ESCAPE, 0) == typed.len(),
{
    crate::text::lemma_find(typed, ESCAPE, 0);
}

/// How far the reader of the device is.
#[derive(Clone, Copy, Debug, PartialEq, Eq, Structural)]
pub enum Phase {
    /// The terminal is in use.
    Attached,
    /// It is being left. What the device already sent is still worth showing:
    /// the device knew nothing of the exit when it sent it.
    Draining,
    /// Nothing is read any more.
    Over,
}

/// What reading the device came to.
#[derive(Clone, Copy, Debug, PartialEq, Eq, Structural)]
pub enum Heard {
    /// This many bytes.
    Bytes(usize),
    /// Nothing within a timeout, or the read was interrupted.
    Nothing,
    /// The port is gone.
    Failed,
}

/// Whether to read again, given whether the terminal is being left and whether
/// the drain has taken too long; otherwise, the next phase.
pub fn read_on(phase: Phase, leaving: bool, overdue: bool) -> (res: Phase)
    ensures
        res == match phase {
            Phase::Attached => if leaving {
                Phase::Draining
            } else {
                Phase::Attached
            },
            Phase::Draining => if overdue {
                Phase::Over
            } else {
                Phase::Draining
            },
            Phase::Over => Phase::Over,
        },
{
    match phase {
        Phase::Attached if leaving => Phase::Draining,
        Phase::Draining if overdue => Phase::Over,
        _ => phase,
    }
}

/// Whether what was heard is shown, and the phase after it. A quiet device
/// ends a drain but not the session; a port that is gone ends either.
pub fn hear(phase: Phase, heard: Heard) -> (res: (bool, Phase))
    ensures
        res.0 == (phase != Phase::Over && (heard matches Heard::Bytes(n) && n > 0)),
        res.1 == match phase {
            Phase::Attached => if heard is Failed {
                Phase::Draining
            } else {
                Phase::Attached
            },
            Phase::Draining => if res.0 {
                Phase::Draining
            } else {
                Phase::Over
            },
            Phase::Over => Phase::Over,
        },
{
    let show = match heard {
        Heard::Bytes(n) => n > 0,
        _ => false,
    };
    match phase {
        Phase::Attached => match heard {
            Heard::Failed => (false, Phase::Draining),
            _ => (show, Phase::Attached),
        },
        Phase::Draining => if show {
            (true, Phase::Draining)
        } else {
            (false, Phase::Over)
        },
        Phase::Over => (false, Phase::Over),
    }
}

} // verus!
