//! The command line: what each subcommand does, step by step.
//!
//! [`Run`] decides and its driver acts: the driver performs the step at hand
//! and says how it went. The handshake and the terminal always run at
//! [`BASE_BAUD`]; the bulk transfers negotiate a faster rate and always drop
//! back before the run ends, also where the transfer fails, so that the next
//! invocation can greet the loader at the rate it is left listening on.

use vstd::prelude::*;

use crate::completions::{Shell, DEFAULT_SHELL};
use crate::protocol::BASE_BAUD;
use crate::text::{push_decimal_text, push_hex_text, push_text, to_text};

verus! {

/// Exit status for a Ctrl-C: 128 plus the signal number.
pub const EXIT_INTERRUPTED: u8 = 130;

/// Page size assumed when programming an EEPROM. 32 bytes is the page of the
/// smallest part a HAT may carry, and every larger part's page is a multiple of
/// it.
pub const DEFAULT_PAGE_SIZE: u32 = 32;

/// A subcommand. `P` is a path on this machine.
#[derive(Debug)]
pub enum Command<P> {
    /// Upload an image to memory, jump to it, then act as a terminal.
    Boot { image: P, load_addr: u32, baud: u32 },
    /// Write a file to a memory address (no jump).
    MemWrite { addr: u32, file: P, baud: u32 },
    /// Jump to an address already loaded in memory.
    Exec { addr: u32, terminal: bool },
    /// List a directory on the card.
    SdList { path: String },
    /// Copy a file off the card.
    SdRead { remote: String, local: P, baud: u32 },
    /// Copy a local file onto the card.
    SdWrite { local: P, remote: String, baud: u32 },
    /// Delete a file from the card.
    SdDelete { remote: String },
    /// Create a directory on the card.
    SdMkdir { remote: String },
    /// Copy an EEPROM's contents into a file.
    EepromRead { local: P, length: Option<u32>, address: u8, offset: u32, baud: u32 },
    /// Program a local image into an EEPROM.
    EepromWrite { local: P, address: u8, offset: u32, page_size: u32, baud: u32 },
    /// Pack an over-the-air bundle, and optionally unpack or upload it.
    Bundle { manifest: P, output: Option<P>, sdcard: Option<P>, upload: Option<String> },
    /// Passthrough serial terminal only, with no handshake.
    Terminal,
    /// List the serial ports on this machine.
    List { all: bool },
    /// Print a script that completes this command line in a shell, or in
    /// [`DEFAULT_SHELL`].
    Completions { shell: Option<Shell> },
}

/// One step of a run. Bytes go from the step that gets them to the one that
/// uses them.
#[derive(Debug)]
pub enum Step<P> {
    /// List the serial ports, or just the USB ones.
    ListPorts { all: bool },
    /// Print the script that completes this command line in this shell.
    Completions(Shell),
    /// Pack a bundle.
    Pack { manifest: P, output: Option<P>, sdcard: Option<P>, upload: Option<String> },
    /// Open the serial device at [`BASE_BAUD`].
    Open,
    /// Greet the loader.
    Handshake,
    /// Read this file.
    Load(P),
    /// Check an image to be programmed at this offset.
    CheckImage { offset: u32 },
    /// Negotiate this rate.
    Baud(u32),
    /// Write what was loaded to this address.
    MemWrite(u32),
    /// Say how much was written to this address.
    Wrote(u32),
    /// Jump to this address, and say so.
    Exec(u32),
    /// Act as a terminal.
    Terminal,
    /// List this directory and print it.
    SdList(String),
    /// Read this file off the card.
    SdRead(String),
    /// Write what was loaded to this file on the card.
    SdWrite(String),
    /// Delete this file, and say so.
    SdDelete(String),
    /// Create this directory, and say so.
    SdMkdir(String),
    /// Find out how long the HAT image is.
    HatLength { address: u8, offset: u32 },
    /// Read an EEPROM: this much, or as much as its HAT image is long.
    EepromRead { address: u8, offset: u32, length: Option<u32> },
    /// Write what was loaded to an EEPROM.
    EepromWrite { address: u8, offset: u32, page_size: u32 },
    /// Say how much was programmed.
    Programmed { address: u8, offset: u32 },
    /// Write what was read to this file, and say so.
    Save { local: P, from: Origin },
}

/// What was read.
#[derive(Debug)]
pub enum Origin {
    /// A file on the card.
    Card(String),
    /// The EEPROM at this address.
    Eeprom(u8),
}

// --- What each subcommand does ------------------------------------------------

/// Whether a command needs a serial device.
pub open spec fn opens_port<P>(command: Command<P>) -> bool {
    !(command is List) && !(command is Bundle) && !(command is Completions)
}

/// Whether a command greets the loader before it runs.
pub open spec fn greets<P>(command: Command<P>) -> bool {
    opens_port(command) && !(command is Terminal)
}

/// A transfer at a rate of its own.
pub open spec fn at_rate<P>(baud: u32, transfer: Seq<Step<P>>) -> Seq<Step<P>> {
    seq![Step::Baud(baud)] + transfer + seq![Step::Baud(BASE_BAUD)]
}

/// What a command does once the loader is greeted, or instead of greeting it.
pub open spec fn work<P>(command: Command<P>) -> Seq<Step<P>> {
    match command {
        Command::Boot { image, load_addr, baud } => seq![Step::Load(image)] + at_rate(
            baud,
            seq![Step::MemWrite(load_addr)],
        ) + seq![Step::Exec(load_addr), Step::Terminal],
        Command::MemWrite { addr, file, baud } => seq![Step::Load(file)] + at_rate(
            baud,
            seq![Step::MemWrite(addr)],
        ) + seq![Step::Wrote(addr)],
        Command::Exec { addr, terminal } => if terminal {
            seq![Step::Exec(addr), Step::Terminal]
        } else {
            seq![Step::Exec(addr)]
        },
        Command::SdList { path } => seq![Step::SdList(path)],
        Command::SdRead { remote, local, baud } => at_rate(baud, seq![Step::SdRead(remote)])
            + seq![Step::Save { local, from: Origin::Card(remote) }],
        Command::SdWrite { local, remote, baud } => seq![Step::Load(local)] + at_rate(
            baud,
            seq![Step::SdWrite(remote)],
        ),
        Command::SdDelete { remote } => seq![Step::SdDelete(remote)],
        Command::SdMkdir { remote } => seq![Step::SdMkdir(remote)],
        Command::EepromRead { local, length, address, offset, baud } => at_rate(
            baud,
            if length is None {
                seq![
                    Step::HatLength { address, offset },
                    Step::EepromRead { address, offset, length },
                ]
            } else {
                seq![Step::EepromRead { address, offset, length }]
            },
        ) + seq![Step::Save { local, from: Origin::Eeprom(address) }],
        Command::EepromWrite { local, address, offset, page_size, baud } => seq![
            Step::Load(local),
            Step::CheckImage { offset },
        ] + at_rate(baud, seq![Step::EepromWrite { address, offset, page_size }])
            + seq![Step::Programmed { address, offset }],
        Command::Bundle { manifest, output, sdcard, upload } => seq![
            Step::Pack { manifest, output, sdcard, upload },
        ],
        Command::Terminal => seq![Step::Terminal],
        Command::List { all } => seq![Step::ListPorts { all }],
        Command::Completions { shell } => seq![
            Step::Completions(
                match shell {
                    Some(shell) => shell,
                    None => DEFAULT_SHELL,
                },
            ),
        ],
    }
}

/// Everything a command does.
pub open spec fn steps<P>(command: Command<P>) -> Seq<Step<P>> {
    let opened = if opens_port(command) {
        seq![Step::Open]
    } else {
        Seq::empty()
    };
    let greeted = if greets(command) {
        seq![Step::Handshake]
    } else {
        Seq::empty()
    };
    opened + greeted + work(command)
}

impl<P> Command<P> {
    /// Whether this command must greet the loader before running.
    ///
    /// The terminal is the exception among the ones that open the port: it
    /// exists to watch a kernel that is already running, which would never
    /// answer.
    pub fn needs_handshake(&self) -> (res: bool)
        ensures
            res == greets(*self),
    {
        !matches!(
            self,
            Command::Terminal | Command::List { .. } | Command::Bundle { .. }
                | Command::Completions { .. }
        )
    }

    /// Whether this command needs a serial device. Listing the ports is how a
    /// user finds out which one to name, a bundle never involves one, and a
    /// completion script describes the command line alone.
    pub fn needs_device(&self) -> (res: bool)
        ensures
            res == opens_port(*self),
    {
        !matches!(
            self,
            Command::List { .. } | Command::Bundle { .. } | Command::Completions { .. }
        )
    }

    /// Everything this command does.
    pub fn plan(self) -> (res: Vec<Step<P>>)
        ensures
            res@ == steps(self),
    {
        let ghost command = self;
        let mut plan: Vec<Step<P>> = Vec::new();
        if self.needs_device() {
            plan.push(Step::Open);
        }
        if self.needs_handshake() {
            plan.push(Step::Handshake);
        }
        match self {
            Command::Boot { image, load_addr, baud } => {
                plan.push(Step::Load(image));
                plan.push(Step::Baud(baud));
                plan.push(Step::MemWrite(load_addr));
                plan.push(Step::Baud(BASE_BAUD));
                plan.push(Step::Exec(load_addr));
                plan.push(Step::Terminal);
            },
            Command::MemWrite { addr, file, baud } => {
                plan.push(Step::Load(file));
                plan.push(Step::Baud(baud));
                plan.push(Step::MemWrite(addr));
                plan.push(Step::Baud(BASE_BAUD));
                plan.push(Step::Wrote(addr));
            },
            Command::Exec { addr, terminal } => {
                plan.push(Step::Exec(addr));
                if terminal {
                    plan.push(Step::Terminal);
                }
            },
            Command::SdList { path } => plan.push(Step::SdList(path)),
            Command::SdRead { remote, local, baud } => {
                let from = Origin::Card(remote.clone());
                plan.push(Step::Baud(baud));
                plan.push(Step::SdRead(remote));
                plan.push(Step::Baud(BASE_BAUD));
                plan.push(Step::Save { local, from });
            },
            Command::SdWrite { local, remote, baud } => {
                plan.push(Step::Load(local));
                plan.push(Step::Baud(baud));
                plan.push(Step::SdWrite(remote));
                plan.push(Step::Baud(BASE_BAUD));
            },
            Command::SdDelete { remote } => plan.push(Step::SdDelete(remote)),
            Command::SdMkdir { remote } => plan.push(Step::SdMkdir(remote)),
            Command::EepromRead { local, length, address, offset, baud } => {
                plan.push(Step::Baud(baud));
                if length.is_none() {
                    plan.push(Step::HatLength { address, offset });
                }
                plan.push(Step::EepromRead { address, offset, length });
                plan.push(Step::Baud(BASE_BAUD));
                plan.push(Step::Save { local, from: Origin::Eeprom(address) });
            },
            Command::EepromWrite { local, address, offset, page_size, baud } => {
                plan.push(Step::Load(local));
                plan.push(Step::CheckImage { offset });
                plan.push(Step::Baud(baud));
                plan.push(Step::EepromWrite { address, offset, page_size });
                plan.push(Step::Baud(BASE_BAUD));
                plan.push(Step::Programmed { address, offset });
            },
            Command::Bundle { manifest, output, sdcard, upload } => plan.push(
                Step::Pack { manifest, output, sdcard, upload },
            ),
            Command::Terminal => plan.push(Step::Terminal),
            Command::List { all } => plan.push(Step::ListPorts { all }),
            Command::Completions { shell } => plan.push(
                Step::Completions(
                    match shell {
                        Some(shell) => shell,
                        None => DEFAULT_SHELL,
                    },
                ),
            ),
        }
        proof {
            assert(plan@ =~= steps(command));
        }
        plan
    }
}

// --- Running it ---------------------------------------------------------------

/// How a step went.
#[derive(Clone, Copy, Debug, PartialEq, Eq, Structural)]
pub enum Outcome {
    /// It was done.
    Done,
    /// It failed, and the serial link is still there.
    Failed,
    /// The link is gone, or the user has interrupted.
    Broken,
}

/// The rate that the steps before `at` leave the link at.
pub open spec fn rate<P>(steps: Seq<Step<P>>, at: int) -> u32
    decreases at,
{
    if at <= 0 || at > steps.len() {
        BASE_BAUD
    } else {
        match steps[at - 1] {
            Step::Baud(baud) => baud,
            _ => rate(steps, at - 1),
        }
    }
}

/// Where a run that failed at `at` goes: to the step that drops back, if the
/// link is at another rate.
pub open spec fn drop_back<P>(steps: Seq<Step<P>>, from: int) -> int
    decreases steps.len() - from,
{
    if from >= steps.len() {
        steps.len() as int
    } else if steps[from] == Step::<P>::Baud(BASE_BAUD) {
        from
    } else {
        drop_back(steps, from + 1)
    }
}

/// Where a run stands, as a value.
pub struct Standing<P> {
    /// Everything it does.
    pub steps: Seq<Step<P>>,
    /// The step at hand.
    pub at: int,
    /// Whether something failed.
    pub failed: bool,
}

/// Where a run stands after the step at hand.
pub open spec fn after<P>(run: Standing<P>, outcome: Outcome) -> Standing<P> {
    let end = run.steps.len() as int;
    if run.at >= end {
        run
    } else {
        match outcome {
            Outcome::Done => Standing {
                at: if run.failed {
                    end
                } else {
                    run.at + 1
                },
                ..run
            },
            Outcome::Failed => Standing {
                at: if run.failed || rate(run.steps, run.at) == BASE_BAUD {
                    end
                } else {
                    drop_back(run.steps, run.at + 1)
                },
                failed: true,
                ..run
            },
            Outcome::Broken => Standing { at: end, failed: true, ..run },
        }
    }
}

/// A run of a command.
#[derive(Debug)]
pub struct Run<P> {
    steps: Vec<Step<P>>,
    at: usize,
    rate: u32,
    failed: bool,
}

impl<P> View for Run<P> {
    type V = Standing<P>;

    closed spec fn view(&self) -> Standing<P> {
        Standing { steps: self.steps@, at: self.at as int, failed: self.failed }
    }
}

impl<P> Run<P> {
    #[verifier::type_invariant]
    spec fn holds(self) -> bool {
        &&& self.at <= self.steps@.len()
        &&& !self.failed ==> self.rate == rate(self.steps@, self.at as int)
    }

    /// Begins one.
    pub fn new(command: Command<P>) -> (res: Run<P>)
        ensures
            res@ == (Standing { steps: steps(command), at: 0, failed: false }),
    {
        Run { steps: command.plan(), at: 0, rate: BASE_BAUD, failed: false }
    }

    /// The step at hand, if there is one.
    pub fn step(&self) -> (res: Option<&Step<P>>)
        ensures
            match res {
                Some(step) => 0 <= self@.at < self@.steps.len() && *step == self@.steps[self@.at],
                None => self@.at == self@.steps.len(),
            },
    {
        proof {
            use_type_invariant(self);
        }
        if self.at < self.steps.len() {
            Some(&self.steps[self.at])
        } else {
            None
        }
    }

    /// Whether nothing has failed.
    pub fn succeeded(&self) -> (res: bool)
        ensures
            res == !self@.failed,
    {
        !self.failed
    }

    /// Goes on after the step at hand.
    pub fn next(self, outcome: Outcome) -> (res: Run<P>)
        ensures
            res@ == after(self@, outcome),
    {
        proof {
            use_type_invariant(&self);
        }
        let Run { steps, at, rate, failed } = self;
        let end: usize = steps.len();
        if at >= end {
            return Run { steps, at, rate, failed };
        }
        match outcome {
            Outcome::Done if failed => Run { steps, at: end, rate, failed },
            Outcome::Done => {
                let rate: u32 = match &steps[at] {
                    Step::Baud(baud) => *baud,
                    _ => rate,
                };
                Run { steps, at: at + 1, rate, failed }
            },
            Outcome::Failed if failed || rate == BASE_BAUD => Run {
                steps,
                at: end,
                rate,
                failed: true,
            },
            Outcome::Failed => {
                let mut to: usize = at + 1;
                while to < end && !is_drop_back(&steps[to])
                    invariant
                        at < to <= end == steps@.len(),
                        drop_back(steps@, at + 1) == drop_back(steps@, to as int),
                    decreases end - to,
                {
                    to += 1;
                }
                Run { steps, at: to, rate, failed: true }
            },
            Outcome::Broken => Run { steps, at: end, rate, failed: true },
        }
    }
}

/// Whether a step drops back to the base rate.
fn is_drop_back<P>(step: &Step<P>) -> (res: bool)
    ensures
        res == (*step == Step::<P>::Baud(BASE_BAUD)),
{
    match step {
        Step::Baud(baud) => *baud == BASE_BAUD,
        _ => false,
    }
}

/// The exit status of a run that ended well or not, and was interrupted or not.
pub fn exit_status(succeeded: bool, interrupted: bool) -> (res: u8)
    ensures
        interrupted ==> res == 130,
        !interrupted ==> res == if succeeded {
            0u8
        } else {
            1u8
        },
        res == if interrupted {
            EXIT_INTERRUPTED
        } else if succeeded {
            0
        } else {
            1
        },
{
    if interrupted {
        EXIT_INTERRUPTED
    } else if succeeded {
        0
    } else {
        1
    }
}

// --- What holds of every run ----------------------------------------------------

/// A step that drops back is found if there is one.
proof fn lemma_drop_back<P>(steps: Seq<Step<P>>, from: int, at: int)
    requires
        0 <= from <= at < steps.len(),
        steps[at] == Step::<P>::Baud(BASE_BAUD),
    ensures
        from <= drop_back(steps, from) <= at,
        steps[drop_back(steps, from)] == Step::<P>::Baud(BASE_BAUD),
    decreases at - from,
{
    if steps[from] != Step::<P>::Baud(BASE_BAUD) {
        lemma_drop_back(steps, from + 1, at);
    }
}

/// The rate is the one in effect at an earlier step where no rate is
/// negotiated in between.
proof fn lemma_rate<P>(steps: Seq<Step<P>>, from: int, at: int)
    requires
        0 <= from <= at <= steps.len(),
        forall|k: int| from <= k < at ==> !(#[trigger] steps[k] is Baud),
    ensures
        rate(steps, at) == rate(steps, from),
    decreases at - from,
{
    if from < at {
        assert(!(steps[at - 1] is Baud));
        lemma_rate(steps, from, at - 1);
    }
}

/// Where in a command's steps the transfer's rate is negotiated and where it is
/// dropped back from, if there is a transfer.
spec fn transfer<P>(command: Command<P>) -> Option<(int, int)> {
    match command {
        Command::Boot { .. } => Some((3, 5)),
        Command::MemWrite { .. } => Some((3, 5)),
        Command::SdRead { .. } => Some((2, 4)),
        Command::SdWrite { .. } => Some((3, 5)),
        Command::EepromRead { length, .. } => if length is None {
            Some((2, 5))
        } else {
            Some((2, 4))
        },
        Command::EepromWrite { .. } => Some((4, 6)),
        _ => None,
    }
}

/// What a command's steps look like.
proof fn lemma_steps<P>(command: Command<P>)
    ensures
        match transfer(command) {
            Some((up, down)) => {
                let all = steps(command);
                &&& 0 <= up < down < all.len()
                &&& all[down] == Step::<P>::Baud(BASE_BAUD)
                &&& forall|k: int|
                    0 <= k < all.len() && #[trigger] all[k] is Baud ==> k == up || k == down
                &&& forall|k: int|
                    up <= k < down ==> !(#[trigger] all[k] is Handshake) && !(all[k] is Terminal)
                        && !(all[k] is Exec)
            },
            None => forall|k: int|
                0 <= k < steps(command).len() ==> !(#[trigger] steps(command)[k] is Baud),
        },
{
}

/// The rate that a command's steps leave the link at.
proof fn lemma_rate_of<P>(command: Command<P>, at: int)
    requires
        0 <= at <= steps(command).len(),
    ensures
        match transfer(command) {
            Some((up, down)) => !(up < at <= down) ==> rate(steps(command), at) == BASE_BAUD,
            None => rate(steps(command), at) == BASE_BAUD,
        },
{
    let all = steps(command);
    lemma_steps(command);
    match transfer(command) {
        Some((up, down)) => {
            if at <= up {
                lemma_rate(all, 0, at);
            } else if at > down {
                lemma_rate(all, down + 1, at);
            }
        },
        None => {
            lemma_rate(all, 0, at);
        },
    }
}

/// The loader is greeted, jumped away from and watched at the base rate only,
/// and a run whose steps are all done leaves the link at it.
pub proof fn only_transfers_leave_the_base_rate<P>(command: Command<P>, at: int)
    requires
        0 <= at <= steps(command).len(),
    ensures
        at == steps(command).len() ==> rate(steps(command), at) == BASE_BAUD,
        at < steps(command).len() && (steps(command)[at] is Handshake || steps(command)[at] is Exec
            || steps(command)[at] is Terminal) ==> rate(steps(command), at) == BASE_BAUD,
{
    lemma_steps(command);
    lemma_rate_of(command, at);
    if let Some((up, down)) = transfer(command) {
        if up < at <= down {
            assert(at < steps(command).len());
        }
    }
}

/// A command greets the loader first of all if it needs to, and never
/// otherwise.
pub proof fn a_command_greets_first_or_not_at_all<P>(command: Command<P>, at: int)
    requires
        0 <= at < steps(command).len(),
    ensures
        steps(command)[at] is Handshake <==> greets(command) && at == 1,
        steps(command)[at] is Open <==> opens_port(command) && at == 0,
{
}

/// Where a run stands after some outcomes, and the rate the link is then at. A
/// rate is in effect once its step is done.
pub open spec fn trace<P>(command: Command<P>, outcomes: Seq<Outcome>) -> (Standing<P>, u32)
    decreases outcomes.len(),
{
    if outcomes.len() == 0 {
        (Standing { steps: steps(command), at: 0, failed: false }, BASE_BAUD)
    } else {
        let (run, rate) = trace(command, outcomes.drop_last());
        let outcome = outcomes.last();
        let rate = if run.at < run.steps.len() && outcome == Outcome::Done {
            match run.steps[run.at] {
                Step::Baud(baud) => baud,
                _ => rate,
            }
        } else {
            rate
        };
        (after(run, outcome), rate)
    }
}

/// Whether only steps other than those that negotiate a rate fail, and the link
/// stays.
pub open spec fn the_link_holds<P>(command: Command<P>, outcomes: Seq<Outcome>) -> bool
    decreases outcomes.len(),
{
    outcomes.len() == 0 || {
        let run = trace(command, outcomes.drop_last()).0;
        &&& the_link_holds(command, outcomes.drop_last())
        &&& outcomes.last() != Outcome::Broken
        &&& outcomes.last() == Outcome::Failed && run.at < run.steps.len() ==> !(
        run.steps[run.at] is Baud)
    }
}

/// What holds of a run on the way.
proof fn lemma_trace<P>(command: Command<P>, outcomes: Seq<Outcome>)
    requires
        the_link_holds(command, outcomes),
    ensures
        ({
            let (run, rate) = trace(command, outcomes);
            &&& run.steps == steps(command)
            &&& 0 <= run.at <= run.steps.len()
            &&& !run.failed ==> rate == self::rate(run.steps, run.at)
            &&& run.failed && run.at < run.steps.len() ==> run.steps[run.at] == Step::<P>::Baud(
                BASE_BAUD,
            )
            &&& run.failed && run.at == run.steps.len() ==> rate == BASE_BAUD
        }),
    decreases outcomes.len(),
{
    if outcomes.len() > 0 {
        lemma_trace(command, outcomes.drop_last());
        let (run, _) = trace(command, outcomes.drop_last());
        if run.at < run.steps.len() && !run.failed && outcomes.last() == Outcome::Failed
            && rate(run.steps, run.at) != BASE_BAUD {
            lemma_steps(command);
            lemma_rate_of(command, run.at);
            let (up, down) = transfer(command)->0;
            assert(up < run.at <= down);
            assert(!(run.steps[run.at] is Baud));
            lemma_drop_back(run.steps, run.at + 1, down);
        }
    }
}

/// Every run ends at the base rate, whatever fails on the way, as long as the
/// link itself holds.
pub proof fn every_run_ends_at_the_base_rate<P>(command: Command<P>, outcomes: Seq<Outcome>)
    requires
        the_link_holds(command, outcomes),
    ensures
        ({
            let (run, rate) = trace(command, outcomes);
            run.at == run.steps.len() ==> rate == BASE_BAUD
        }),
{
    lemma_trace(command, outcomes);
    lemma_rate_of(command, steps(command).len() as int);
    lemma_steps(command);
}

// --- What is said -------------------------------------------------------------

/// What is said once a transfer of `len` bytes begins.
pub open spec fn sending_text<P>(step: Step<P>, len: nat) -> Seq<u8> {
    match step {
        Step::MemWrite(addr) => vstd::utf8::encode_utf8("Sending "@) + crate::text::decimal(len)
            + vstd::utf8::encode_utf8(" bytes to 0x"@) + crate::text::hex(addr as nat, 1)
            + vstd::utf8::encode_utf8("..."@),
        Step::SdWrite(remote) => vstd::utf8::encode_utf8("Sending "@) + crate::text::decimal(len)
            + vstd::utf8::encode_utf8(" bytes -> "@) + vstd::utf8::encode_utf8(remote@)
            + vstd::utf8::encode_utf8("..."@),
        _ => Seq::empty(),
    }
}

/// What is said of a step that was performed, if anything. `len` is how many
/// bytes it was about, and `place` what the path it saved to is called.
pub open spec fn done_text<P>(step: Step<P>, len: nat, place: Seq<u8>) -> Option<Seq<u8>> {
    match step {
        Step::Wrote(addr) => Some(
            vstd::utf8::encode_utf8("Wrote "@) + crate::text::decimal(len)
                + vstd::utf8::encode_utf8(" bytes to 0x"@) + crate::text::hex(addr as nat, 1)
                + vstd::utf8::encode_utf8("."@),
        ),
        Step::Exec(addr) => Some(
            vstd::utf8::encode_utf8("Jumped to 0x"@) + crate::text::hex(addr as nat, 1)
                + vstd::utf8::encode_utf8("."@),
        ),
        Step::SdDelete(remote) => Some(
            vstd::utf8::encode_utf8("Deleted "@) + vstd::utf8::encode_utf8(remote@),
        ),
        Step::SdMkdir(remote) => Some(
            vstd::utf8::encode_utf8("Created directory "@) + vstd::utf8::encode_utf8(remote@),
        ),
        Step::Programmed { address, offset } => Some(
            vstd::utf8::encode_utf8("Programmed and verified "@) + crate::text::decimal(len)
                + vstd::utf8::encode_utf8(" bytes at offset "@) + crate::text::decimal(
                offset as nat,
            ) + vstd::utf8::encode_utf8(" of 0x"@) + crate::text::hex(address as nat, 2)
                + vstd::utf8::encode_utf8("."@),
        ),
        Step::Save { from, .. } => Some(
            vstd::utf8::encode_utf8("Read "@) + crate::text::decimal(len)
                + vstd::utf8::encode_utf8(" bytes from "@) + origin_text(from)
                + vstd::utf8::encode_utf8(" -> "@) + place,
        ),
        _ => None,
    }
}

/// What was read, in words.
pub open spec fn origin_text(from: Origin) -> Seq<u8> {
    match from {
        Origin::Card(remote) => vstd::utf8::encode_utf8(remote@),
        Origin::Eeprom(address) => vstd::utf8::encode_utf8("0x"@) + crate::text::hex(
            address as nat,
            2,
        ),
    }
}

impl<P> Step<P> {
    /// What to say once this begins to send `len` bytes.
    pub fn sending(&self, len: usize) -> (res: String)
        ensures
            vstd::utf8::encode_utf8(res@) == sending_text(*self, len as nat),
    {
        let mut text: Vec<u8> = Vec::new();
        match self {
            Step::MemWrite(addr) => {
                push_text(&mut text, "Sending ");
                push_decimal_text(&mut text, len as u64);
                push_text(&mut text, " bytes to 0x");
                push_hex_text(&mut text, *addr as u64, 1);
                push_text(&mut text, "...");
            },
            Step::SdWrite(remote) => {
                push_text(&mut text, "Sending ");
                push_decimal_text(&mut text, len as u64);
                push_text(&mut text, " bytes -> ");
                push_text(&mut text, remote.as_str());
                push_text(&mut text, "...");
            },
            _ => {},
        }
        proof {
            assert(text@ =~= sending_text(*self, len as nat));
        }
        to_text(&text)
    }

    /// What to say once this is done, if anything. `len` is how many bytes it
    /// was about, and `place` what the path it saved to is called.
    pub fn done(&self, len: usize, place: &str) -> (res: Option<String>)
        ensures
            match res {
                Some(text) => done_text(*self, len as nat, vstd::utf8::encode_utf8(place@)) == Some(
                    vstd::utf8::encode_utf8(text@),
                ),
                None => done_text(*self, len as nat, vstd::utf8::encode_utf8(place@)) is None,
            },
    {
        let mut text: Vec<u8> = Vec::new();
        match self {
            Step::Wrote(addr) => {
                push_text(&mut text, "Wrote ");
                push_decimal_text(&mut text, len as u64);
                push_text(&mut text, " bytes to 0x");
                push_hex_text(&mut text, *addr as u64, 1);
                push_text(&mut text, ".");
            },
            Step::Exec(addr) => {
                push_text(&mut text, "Jumped to 0x");
                push_hex_text(&mut text, *addr as u64, 1);
                push_text(&mut text, ".");
            },
            Step::SdDelete(remote) => {
                push_text(&mut text, "Deleted ");
                push_text(&mut text, remote.as_str());
            },
            Step::SdMkdir(remote) => {
                push_text(&mut text, "Created directory ");
                push_text(&mut text, remote.as_str());
            },
            Step::Programmed { address, offset } => {
                push_text(&mut text, "Programmed and verified ");
                push_decimal_text(&mut text, len as u64);
                push_text(&mut text, " bytes at offset ");
                push_decimal_text(&mut text, *offset as u64);
                push_text(&mut text, " of 0x");
                push_hex_text(&mut text, *address as u64, 2);
                push_text(&mut text, ".");
            },
            Step::Save { from, .. } => {
                push_text(&mut text, "Read ");
                push_decimal_text(&mut text, len as u64);
                push_text(&mut text, " bytes from ");
                push_origin(&mut text, from);
                push_text(&mut text, " -> ");
                push_text(&mut text, place);
            },
            _ => return None,
        }
        proof {
            let said = done_text(*self, len as nat, vstd::utf8::encode_utf8(place@));
            assert(said is Some);
            assert(text@ =~= said->0);
        }
        Some(to_text(&text))
    }
}

/// Appends what was read, in words, to text.
fn push_origin(text: &mut Vec<u8>, from: &Origin)
    requires
        vstd::utf8::valid_utf8(old(text)@),
    ensures
        final(text)@ == old(text)@ + origin_text(*from),
        vstd::utf8::valid_utf8(final(text)@),
{
    match from {
        Origin::Card(remote) => push_text(text, remote.as_str()),
        Origin::Eeprom(address) => {
            push_text(text, "0x");
            push_hex_text(text, *address as u64, 2);
        },
    }
    proof {
        assert(text@ =~= old(text)@ + origin_text(*from));
    }
}

} // verus!
