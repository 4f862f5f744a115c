//! What each subcommand comes to.

use vstd::prelude::*;

use crate::cli::{Command, Origin, Outcome, Standing, Step};
use crate::completions::Shell;

verus! {

/// Every step acts on what its command names: the addresses, paths, rates and
/// lengths that it uses are those that were given for it.
pub proof fn a_step_acts_on_what_the_command_names<P>(command: Command<P>, at: int)
    requires
        0 <= at < crate::cli::steps(command).len(),
    ensures
        match crate::cli::steps(command)[at] {
            Step::Open => !(command is List || command is Bundle || command is Completions),
            Step::Handshake => !(command is List || command is Bundle || command is Completions
                || command is Terminal),
            Step::Load(path) => match command {
                Command::Boot { image, .. } => path == image,
                Command::MemWrite { file, .. } => path == file,
                Command::SdWrite { local, .. } => path == local,
                Command::EepromWrite { local, .. } => path == local,
                _ => false,
            },
            Step::Baud(rate) => rate == 115_200 || match command {
                Command::Boot { baud, .. } => rate == baud,
                Command::MemWrite { baud, .. } => rate == baud,
                Command::SdRead { baud, .. } => rate == baud,
                Command::SdWrite { baud, .. } => rate == baud,
                Command::EepromRead { baud, .. } => rate == baud,
                Command::EepromWrite { baud, .. } => rate == baud,
                _ => false,
            },
            Step::MemWrite(to) => match command {
                Command::Boot { load_addr, .. } => to == load_addr,
                Command::MemWrite { addr, .. } => to == addr,
                _ => false,
            },
            Step::Wrote(to) => command matches Command::MemWrite { addr, .. } && to == addr,
            Step::Exec(to) => match command {
                Command::Boot { load_addr, .. } => to == load_addr,
                Command::Exec { addr, .. } => to == addr,
                _ => false,
            },
            Step::Terminal => match command {
                Command::Boot { .. } => true,
                Command::Exec { terminal, .. } => terminal,
                Command::Terminal => true,
                _ => false,
            },
            Step::SdList(of) => command matches Command::SdList { path } && of == path,
            Step::SdRead(of) => command matches Command::SdRead { remote, .. } && of == remote,
            Step::SdWrite(to) => command matches Command::SdWrite { remote, .. } && to == remote,
            Step::SdDelete(of) => command matches Command::SdDelete { remote } && of == remote,
            Step::SdMkdir(of) => command matches Command::SdMkdir { remote } && of == remote,
            Step::CheckImage { offset: from } => command matches Command::EepromWrite {
                offset,
                ..
            } && from == offset,
            Step::HatLength { address: of, offset: from } => command matches Command::EepromRead {
                length,
                address,
                offset,
                ..
            } && of == address && from == offset && length is None,
            Step::EepromRead { address: of, offset: from, length: many } => {
                command matches Command::EepromRead { length, address, offset, .. } && of == address
                    && from == offset && many == length
            },
            Step::EepromWrite { address: of, offset: from, page_size: size } => {
                command matches Command::EepromWrite { address, offset, page_size, .. } && of
                    == address && from == offset && size == page_size
            },
            Step::Programmed { address: of, offset: from } => {
                command matches Command::EepromWrite { address, offset, .. } && of == address
                    && from == offset
            },
            Step::Save { local: to, from } => match command {
                Command::SdRead { remote, local, .. } => to == local && from == Origin::Card(remote),
                Command::EepromRead { local, address, .. } => to == local && from
                    == Origin::Eeprom(address),
                _ => false,
            },
            Step::Pack { manifest: of, output: to, sdcard: card, upload: url } => {
                command matches Command::Bundle { manifest, output, sdcard, upload } && of
                    == manifest && to == output && card == sdcard && url == upload
            },
            Step::ListPorts { all: every } => command matches Command::List { all } && every == all,
            Step::Completions(of) => command matches Command::Completions { shell } && of
                == match shell {
                Some(shell) => shell,
                None => Shell::Bash,
            },
        },
{
}

/// Booting writes the image to the address it was given once, jumps there once and
/// only after that, and then attaches; writing memory alone never jumps.
pub proof fn an_image_is_jumped_to_where_it_was_written<P>(command: Command<P>)
    ensures
        command matches Command::Boot { image, load_addr, baud } ==> {
            let steps = crate::cli::steps(command);
            &&& steps.len() == 8
            &&& steps[2] == Step::Load(image)
            &&& steps[3] == Step::<P>::Baud(baud)
            &&& steps[4] == Step::<P>::MemWrite(load_addr)
            &&& steps[5] == Step::<P>::Baud(115_200)
            &&& steps[6] == Step::<P>::Exec(load_addr)
            &&& steps[7] == Step::<P>::Terminal
            &&& forall|i: int| 0 <= i < 8 && (#[trigger] steps[i] is MemWrite) ==> i == 4
            &&& forall|i: int| 0 <= i < 8 && (#[trigger] steps[i] is Exec) ==> i == 6
        },
        command matches Command::MemWrite { addr, file, baud } ==> {
            let steps = crate::cli::steps(command);
            &&& steps.len() == 7
            &&& steps[2] == Step::Load(file)
            &&& steps[3] == Step::<P>::Baud(baud)
            &&& steps[4] == Step::<P>::MemWrite(addr)
            &&& steps[5] == Step::<P>::Baud(115_200)
            &&& steps[6] == Step::<P>::Wrote(addr)
        },
        command matches Command::Exec { addr, terminal } ==> {
            let steps = crate::cli::steps(command);
            &&& steps.len() == if terminal {
                4int
            } else {
                3
            }
            &&& steps[2] == Step::<P>::Exec(addr)
            &&& terminal ==> steps[3] == Step::<P>::Terminal
        },
{
}

/// A file is copied between the card and this machine by one transfer at the rate
/// it was given, between loading and saving it; the other commands on the card are
/// one exchange.
pub proof fn a_file_is_copied_by_one_transfer<P>(command: Command<P>)
    ensures
        command matches Command::SdRead { remote, local, baud } ==> {
            let steps = crate::cli::steps(command);
            &&& steps.len() == 6
            &&& steps[2] == Step::<P>::Baud(baud)
            &&& steps[3] == Step::<P>::SdRead(remote)
            &&& steps[4] == Step::<P>::Baud(115_200)
            &&& steps[5] == (Step::Save { local, from: Origin::Card(remote) })
        },
        command matches Command::SdWrite { local, remote, baud } ==> {
            let steps = crate::cli::steps(command);
            &&& steps.len() == 6
            &&& steps[2] == Step::Load(local)
            &&& steps[3] == Step::<P>::Baud(baud)
            &&& steps[4] == Step::<P>::SdWrite(remote)
            &&& steps[5] == Step::<P>::Baud(115_200)
        },
        command matches Command::SdList { path } ==> {
            let steps = crate::cli::steps(command);
            steps.len() == 3 && steps[2] == Step::<P>::SdList(path)
        },
        command matches Command::SdDelete { remote } ==> {
            let steps = crate::cli::steps(command);
            steps.len() == 3 && steps[2] == Step::<P>::SdDelete(remote)
        },
        command matches Command::SdMkdir { remote } ==> {
            let steps = crate::cli::steps(command);
            steps.len() == 3 && steps[2] == Step::<P>::SdMkdir(remote)
        },
{
}

/// An EEPROM is read as far as was asked for, or as its own header says, and
/// programmed only with an image that was looked at first.
pub proof fn an_eeprom_is_read_and_programmed<P>(command: Command<P>)
    ensures
        command matches Command::EepromRead { local, length, address, offset, baud } ==> {
            let steps = crate::cli::steps(command);
            let n = steps.len() as int;
            &&& n == if length is None {
                7int
            } else {
                6
            }
            &&& steps[2] == Step::<P>::Baud(baud)
            &&& length is None ==> steps[3] == (Step::<P>::HatLength { address, offset })
            &&& steps[n - 3] == (Step::<P>::EepromRead { address, offset, length })
            &&& steps[n - 2] == Step::<P>::Baud(115_200)
            &&& steps[n - 1] == (Step::Save { local, from: Origin::Eeprom(address) })
        },
        command matches Command::EepromWrite { local, address, offset, page_size, baud } ==> {
            let steps = crate::cli::steps(command);
            &&& steps.len() == 8
            &&& steps[2] == Step::Load(local)
            &&& steps[3] == (Step::<P>::CheckImage { offset })
            &&& steps[4] == Step::<P>::Baud(baud)
            &&& steps[5] == (Step::<P>::EepromWrite { address, offset, page_size })
            &&& steps[6] == Step::<P>::Baud(115_200)
            &&& steps[7] == (Step::<P>::Programmed { address, offset })
        },
{
}

/// What opens no port is one step of its own; every other command opens the port
/// first, and all of those but the terminal greet the loader next.
pub proof fn how_a_command_begins<P>(command: Command<P>)
    ensures
        ({
            let steps = crate::cli::steps(command);
            match command {
                Command::List { all } => steps == seq![Step::<P>::ListPorts { all }],
                Command::Bundle { manifest, output, sdcard, upload } => steps == seq![
                    Step::Pack { manifest, output, sdcard, upload },
                ],
                Command::Completions { shell: Some(shell) } => steps == seq![
                    Step::<P>::Completions(shell),
                ],
                Command::Completions { shell: None } => steps == seq![
                    Step::<P>::Completions(Shell::Bash),
                ],
                Command::Terminal => steps == seq![Step::<P>::Open, Step::<P>::Terminal],
                _ => steps.len() >= 3 && steps[0] == Step::<P>::Open && steps[1]
                    == Step::<P>::Handshake,
            }
        }),
        crate::cli::opens_port(command) <==> !(command is List || command is Bundle
            || command is Completions),
        crate::cli::greets(command) <==> !(command is List || command is Bundle
            || command is Completions || command is Terminal),
{
    let steps = crate::cli::steps(command);
    match command {
        Command::List { all } => {
            assert(steps =~= seq![Step::<P>::ListPorts { all }]);
        },
        Command::Bundle { manifest, output, sdcard, upload } => {
            assert(steps =~= seq![Step::Pack { manifest, output, sdcard, upload }]);
        },
        Command::Completions { shell: Some(shell) } => {
            assert(steps =~= seq![Step::<P>::Completions(shell)]);
        },
        Command::Completions { shell: None } => {
            assert(steps =~= seq![Step::<P>::Completions(Shell::Bash)]);
        },
        Command::Terminal => {
            assert(steps =~= seq![Step::<P>::Open, Step::<P>::Terminal]);
        },
        _ => {},
    }
}

/// A run goes through its steps one by one as long as each is done. One that
/// fails is the last, but for the step that drops back to the base rate, and a run
/// counts as failed from then on.
pub proof fn a_run_stops_at_what_fails<P>(run: Standing<P>, outcome: Outcome)
    requires
        0 <= run.at < run.steps.len(),
    ensures
        ({
            let next = crate::cli::after(run, outcome);
            let end = run.steps.len() as int;
            &&& next.steps == run.steps
            &&& !run.failed && outcome == Outcome::Done ==> next.at == run.at + 1 && !next.failed
            &&& run.failed ==> next.at == end && next.failed
            &&& outcome == Outcome::Broken ==> next.at == end
            &&& outcome != Outcome::Done ==> next.failed && run.at < next.at && (next.at == end
                || next.steps[next.at] == Step::<P>::Baud(115_200))
        }),
{
    lemma_drop_back(run.steps, run.at + 1);
}

/// The rate in effect is that of the last step that negotiated one, and 115200
/// before any has; a step that fails at 115200 leaves nothing to drop back from.
pub proof fn which_rate_is_in_effect<P>(run: Standing<P>)
    requires
        0 <= run.at < run.steps.len(),
    ensures
        crate::cli::rate(run.steps, 0) == 115_200,
        run.at > 0 ==> crate::cli::rate(run.steps, run.at) == match run.steps[run.at - 1] {
            Step::Baud(baud) => baud,
            _ => crate::cli::rate(run.steps, run.at - 1),
        },
        crate::cli::rate(run.steps, run.at) == 115_200 ==> crate::cli::after(
            run,
            Outcome::Failed,
        ).at == run.steps.len(),
{
}

proof fn lemma_drop_back<P>(steps: Seq<Step<P>>, from: int)
    requires
        0 <= from <= steps.len(),
    ensures
        ({
            let at = crate::cli::drop_back(steps, from);
            &&& from <= at <= steps.len()
            &&& at < steps.len() ==> steps[at] == Step::<P>::Baud(115_200)
        }),
    decreases steps.len() - from,
{
    if from < steps.len() && steps[from] != Step::<P>::Baud(crate::protocol::BASE_BAUD) {
        lemma_drop_back(steps, from + 1);
    }
}

} // verus!
