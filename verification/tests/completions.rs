//! Completion scripts, generated from a tree of subcommands and finished.

use rpi_loader::cli::{Command, Outcome, Run, Step};
use rpi_loader::completions::{script, Shell, DEFAULT_SHELL};

const SUBCOMMANDS: [&str; 13] = [
    "boot",
    "mem-write",
    "exec",
    "sd-list",
    "sd-read",
    "sd-write",
    "sd-delete",
    "sd-mkdir",
    "eeprom-read",
    "eeprom-write",
    "bundle",
    "terminal",
    "list",
];

/// The argument tree, as far as completion goes.
fn tree() -> clap::Command {
    let device = clap::Arg::new("device").short('d').long("device").global(true);
    let mut tree = clap::Command::new("rpi-loader").arg(device);
    for name in SUBCOMMANDS {
        let baud = clap::Arg::new("baud").long("baud");
        tree = tree.subcommand(clap::Command::new(name).arg(baud));
    }
    tree.subcommand(clap::Command::new("completions").arg(clap::Arg::new("shell")))
}

/// What a generator writes for a shell.
fn generated(shell: Shell) -> String {
    let generator = match shell {
        Shell::Bash => clap_complete::Shell::Bash,
        Shell::Elvish => clap_complete::Shell::Elvish,
        Shell::Fish => clap_complete::Shell::Fish,
        Shell::PowerShell => clap_complete::Shell::PowerShell,
        Shell::Zsh => clap_complete::Shell::Zsh,
    };
    let mut bytes = Vec::new();
    clap_complete::generate(generator, &mut tree(), "rpi-loader", &mut bytes);
    String::from_utf8(bytes).expect("completion script is not UTF-8")
}

/// Reads `completions [shell]`.
fn command(args: &[&str]) -> Command<&'static str> {
    assert_eq!(args[0], "completions");
    let shell = args.get(1).map(|name| match *name {
        "bash" => Shell::Bash,
        "elvish" => Shell::Elvish,
        "fish" => Shell::Fish,
        "powershell" => Shell::PowerShell,
        "zsh" => Shell::Zsh,
        other => panic!("no such shell: {other}"),
    });
    Command::Completions { shell }
}

/// What the command prints, after asserting that it succeeded.
fn stdout_of(args: &[&str]) -> String {
    let mut out = String::new();
    let mut run = Run::new(command(args));
    while let Some(step) = run.step() {
        match step {
            Step::Completions(shell) => out.push_str(&script(*shell, &generated(*shell))),
            other => panic!("completions asked for {other:?}"),
        }
        run = run.next(Outcome::Done);
    }
    assert!(run.succeeded());
    out
}

#[test]
fn bash_script_registers_against_this_binary() {
    let script = stdout_of(&["completions", "bash"]);

    // The line that makes the whole file do anything. `-F` names the
    // function, and the last word is the command being completed: that
    // word is what has to match the installed binary.
    let registration = script
        .lines()
        .find(|line| line.trim_start().starts_with("complete -F"))
        .expect("no `complete -F` line: nothing would register the completion");
    assert!(
        registration.split_whitespace().next_back() == Some("rpi-loader"),
        "completion registers against the wrong command: {registration}"
    );
}

#[test]
fn bash_script_covers_the_subcommands() {
    let script = stdout_of(&["completions", "bash"]);
    for subcommand in ["boot", "bundle", "sd-write", "eeprom-read", "completions"] {
        assert!(
            script.contains(subcommand),
            "`{subcommand}` is missing from the completion script"
        );
    }
}

#[test]
fn every_subcommand_the_script_dispatches_to_has_a_branch() {
    let script = stdout_of(&["completions", "bash"]);

    // The bash script is two halves that have to agree on a name: a
    // dispatcher that walks the typed words and sets `cmd="<label>"`, and
    // a second `case` whose arms are those labels and which is where each
    // subcommand's options live. Every label the dispatcher can set must
    // exist as an arm.
    let dispatched: Vec<String> = script
        .lines()
        .filter_map(|line| line.trim().strip_prefix("cmd=\""))
        .filter_map(|rest| rest.strip_suffix('"'))
        .filter(|label| !label.is_empty())
        .map(str::to_string)
        .collect();
    assert!(
        dispatched.len() > 10,
        "found only {} dispatch labels; the script's shape has changed \
         enough that this test is no longer checking anything",
        dispatched.len()
    );

    for label in &dispatched {
        assert!(
            script.contains(&format!("\n        {label})")),
            "the dispatcher can set cmd=\"{label}\" but no case arm \
             matches it, so that subcommand completes to nothing"
        );
    }
}

#[test]
fn bash_script_completes_device_from_live_ports() {
    let script = stdout_of(&["completions", "bash"]);

    assert!(
        script.contains("_rpi_loader_device_complete()"),
        "the --device wrapper is missing"
    );

    // It has to ask the binary, not guess: the ports are a runtime fact.
    assert!(
        script.contains("rpi-loader list"),
        "the --device wrapper does not consult `rpi-loader list`"
    );

    // And the registration has to be the wrapper's: all the `complete -F`
    // lines are in the file, and the last one wins.
    let last = script
        .lines()
        .rfind(|line| line.trim_start().starts_with("complete -F"))
        .expect("no `complete -F` line at all");
    assert!(
        last.contains("_rpi_loader_device_complete"),
        "the wrapper is defined but not registered: {last}"
    );
}

#[test]
fn only_bash_is_wrapped() {
    for shell in ["zsh", "fish", "elvish", "powershell"] {
        let script = stdout_of(&["completions", shell]);
        assert!(
            !script.contains("_rpi_loader_device_complete"),
            "the bash --device wrapper leaked into the {shell} script"
        );
    }
}

#[test]
fn shell_defaults_to_bash() {
    assert_eq!(DEFAULT_SHELL, Shell::Bash);
    assert_eq!(
        stdout_of(&["completions"]),
        stdout_of(&["completions", "bash"]),
        "`completions` with no shell should mean bash"
    );
}

#[test]
fn other_shells_are_available_and_differ() {
    let bash = stdout_of(&["completions", "bash"]);
    for shell in ["zsh", "fish"] {
        let script = stdout_of(&["completions", shell]);
        assert!(!script.is_empty(), "`completions {shell}` produced nothing");
        assert_ne!(
            script, bash,
            "`completions {shell}` produced the bash script"
        );
    }
}

#[test]
fn completions_needs_no_device() {
    let completions = command(&["completions", "bash"]);
    assert!(!completions.needs_device());
    assert!(!completions.needs_handshake());
    assert!(!stdout_of(&["completions", "bash"]).is_empty());
}

#[test]
fn the_wrapper_leaves_the_rest_to_what_was_registered() {
    let finished = script(Shell::Bash, "x rpi__subcmd__loader)\n  complete -F _old -o y z\n");
    assert!(finished.starts_with("x rpi__loader)\n  complete -F _old -o y z\n"));
    assert!(finished.contains("\n    _old \"$@\"\n"));
    assert_eq!(
        finished.lines().last(),
        Some("complete -F _rpi_loader_device_complete -o bashdefault -o default rpi-loader")
    );
    // Where nothing is registered there is nothing to leave the rest to.
    for text in ["", "complete -F", "complete -F \n", "rpi__subcmd__load"] {
        assert_eq!(script(Shell::Bash, text), text);
    }
    assert_eq!(
        script(Shell::Bash, "rpi__subcmd__loaderrpi__subcmd__loader\u{e9}"),
        "rpi__loaderrpi__loader\u{e9}"
    );
    // Another shell's script is left alone.
    let text = "rpi__subcmd__loader complete -F x";
    assert_eq!(script(Shell::Zsh, text), text);
}
