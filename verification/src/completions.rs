//! Shell completions: what is added to a generated script.
//!
//! A generator writes the script from the argument tree. The bash one needs two
//! things more. Its halves disagree on how to write the hyphen in the program's
//! name, which leaves every subcommand without its options; and `--device` is
//! best completed from the ports that are there.

use vstd::prelude::*;

use crate::numbers::characters;

verus! {

/// A shell to complete for.
#[derive(Clone, Copy, Debug, PartialEq, Eq, Structural)]
pub enum Shell {
    /// The Bourne Again Shell.
    Bash,
    /// Elvish.
    Elvish,
    /// The Friendly Interactive Shell.
    Fish,
    /// PowerShell.
    PowerShell,
    /// The Z shell.
    Zsh,
}

/// The shell that is meant where none is named.
pub const DEFAULT_SHELL: Shell = Shell::Bash;

/// How a bash script starts the labels of subcommands where it lists their
/// options.
pub const LISTED: &'static str = "rpi__subcmd__loader";

/// How it starts them where it picks one.
pub const PICKED: &'static str = "rpi__loader";

/// What precedes the name of the function that a bash script registers.
pub const REGISTRATION: &'static str = "complete -F ";

/// What wraps the registered function, up to its name.
pub const WRAPPER_HEAD: &'static str = "
# Completes --device from the ports that are there, and leaves the rest alone.
_rpi_loader_device_complete() {
    if [[ \"$3\" == \"--device\" ]]; then
        COMPREPLY=( $(compgen -W \"$(rpi-loader list 2>/dev/null | cut -d ' ' -f 1)\" -- \"$2\") )
        return 0
    fi
    ";

/// What wraps the registered function, from its name on.
pub const WRAPPER_TAIL: &'static str = " \"$@\"
}

complete -F _rpi_loader_device_complete -o bashdefault -o default rpi-loader
";

// --- Texts in texts -----------------------------------------------------------

/// Where `wanted` first stands in a text, from `from` on.
pub open spec fn first(text: Seq<char>, wanted: Seq<char>, from: int) -> Option<int>
    decreases text.len() + 1 - from,
{
    if from + wanted.len() > text.len() {
        None
    } else if text.subrange(from, from + wanted.len()) == wanted {
        Some(from)
    } else {
        first(text, wanted, from + 1)
    }
}

/// A text from `from` on, with `by` for each `wanted`.
pub open spec fn replaced(text: Seq<char>, wanted: Seq<char>, by: Seq<char>, from: int) -> Seq<char>
    decreases text.len() - from,
    when 0 <= from <= text.len() && wanted.len() > 0
    via replaced_ends
{
    match first(text, wanted, from) {
        None => text.skip(from),
        Some(at) => text.subrange(from, at) + by + replaced(text, wanted, by, at + wanted.len()),
    }
}

#[via_fn]
proof fn replaced_ends(text: Seq<char>, wanted: Seq<char>, by: Seq<char>, from: int) {
    lemma_first(text, wanted, from);
}

/// Where a text is found, it stands.
proof fn lemma_first(text: Seq<char>, wanted: Seq<char>, from: int)
    ensures
        first(text, wanted, from) matches Some(at) ==> from <= at <= text.len() - wanted.len(),
    decreases text.len() + 1 - from,
{
    if from + wanted.len() <= text.len() && text.subrange(from, from + wanted.len()) != wanted {
        lemma_first(text, wanted, from + 1);
    }
}

/// Whether a character ends a word.
pub open spec fn is_gap(c: char) -> bool {
    c == ' ' || c == '\n'
}

/// Where the word that `from` is in ends.
pub open spec fn word_end(text: Seq<char>, from: int) -> int
    decreases text.len() - from,
{
    if from >= text.len() || is_gap(text[from]) {
        from
    } else {
        word_end(text, from + 1)
    }
}

/// The function that a bash script registers first, if it registers one.
pub open spec fn registered(script: Seq<char>) -> Option<Seq<char>> {
    match first(script, REGISTRATION@, 0) {
        None => None,
        Some(at) => {
            let start = at + REGISTRATION@.len();
            let name = script.subrange(start, word_end(script, start));
            if name.len() == 0 {
                None
            } else {
                Some(name)
            }
        },
    }
}

/// The script for a shell, of what was generated for it. That of bash gets its
/// labels mended, and `--device` completed from the ports wherever there is a
/// function to leave the rest to. Every other is left as it is.
pub open spec fn finished(shell: Shell, generated: Seq<char>) -> Seq<char> {
    if shell != Shell::Bash {
        generated
    } else {
        let mended = replaced(generated, LISTED@, PICKED@, 0);
        match registered(mended) {
            None => mended,
            Some(name) => mended + WRAPPER_HEAD@ + name + WRAPPER_TAIL@,
        }
    }
}

/// Whether `wanted` stands in a text at `from`.
fn stands(text: &Vec<char>, wanted: &Vec<char>, from: usize) -> (res: bool)
    requires
        from + wanted@.len() <= text@.len(),
    ensures
        res == (text@.subrange(from as int, from + wanted@.len()) == wanted@),
{
    let total: usize = text.len();
    let mut at: usize = 0;
    while at < wanted.len()
        invariant
            at <= wanted@.len(),
            from + wanted@.len() <= text@.len() == total,
            forall|i: int| 0 <= i < at ==> text@[from + i] == #[trigger] wanted@[i],
        decreases wanted@.len() - at,
    {
        if text[from + at] != wanted[at] {
            proof {
                assert(text@.subrange(from as int, from + wanted@.len())[at as int]
                    != wanted@[at as int]);
            }
            return false;
        }
        at += 1;
    }
    proof {
        assert(text@.subrange(from as int, from + wanted@.len()) =~= wanted@);
    }
    true
}

/// Where `wanted` first stands in a text, from `from` on.
fn find(text: &Vec<char>, wanted: &Vec<char>, from: usize) -> (res: Option<usize>)
    requires
        from <= text@.len(),
    ensures
        match res {
            Some(at) => first(text@, wanted@, from as int) == Some(at as int),
            None => first(text@, wanted@, from as int) is None,
        },
{
    let mut at: usize = from;
    while at <= text.len() && wanted.len() <= text.len() - at
        invariant
            from <= at <= text@.len() + 1,
            first(text@, wanted@, from as int) == first(text@, wanted@, at as int),
        decreases text@.len() + 1 - at,
    {
        if stands(text, wanted, at) {
            return Some(at);
        }
        if at == text.len() {
            proof {
                assert(first(text@, wanted@, at + 1) is None);
            }
            return None;
        }
        at += 1;
    }
    None
}

/// A text with `by` for each `wanted`.
fn replace(text: &str, wanted: &str, by: &str) -> (res: String)
    requires
        wanted@.len() > 0,
    ensures
        res@ == replaced(text@, wanted@, by@, 0),
{
    let all = characters(text);
    let sought = characters(wanted);
    let total: usize = all.len();
    let mut out = String::new();
    let mut from: usize = 0;
    let mut found = find(&all, &sought, 0);
    proof {
        assert(out@ + replaced(text@, wanted@, by@, 0) =~= replaced(text@, wanted@, by@, 0));
    }
    while found.is_some()
        invariant
            all@ == text@,
            total == text@.len(),
            sought@ == wanted@,
            wanted@.len() > 0,
            from <= text@.len(),
            match found {
                Some(at) => first(text@, wanted@, from as int) == Some(at as int),
                None => first(text@, wanted@, from as int) is None,
            },
            out@ + replaced(text@, wanted@, by@, from as int) == replaced(text@, wanted@, by@, 0),
        decreases text@.len() - from,
    {
        let at: usize = found.unwrap();
        proof {
            lemma_first(text@, wanted@, from as int);
        }
        let ghost before = out@;
        out.append(text.substring_char(from, at));
        out.append(by);
        proof {
            let rest = replaced(text@, wanted@, by@, at + wanted@.len());
            assert(out@ + rest =~= before + (text@.subrange(from as int, at as int) + by@ + rest));
        }
        from = at + sought.len();
        found = find(&all, &sought, from);
    }
    proof {
        assert(text@.subrange(from as int, text@.len() as int) =~= text@.skip(from as int));
    }
    out.append(text.substring_char(from, total));
    out
}

/// The function that a bash script registers first, if it registers one.
fn registration(script: &str) -> (res: Option<String>)
    ensures
        match res {
            Some(name) => registered(script@) == Some(name@),
            None => registered(script@) is None,
        },
{
    let all = characters(script);
    let sought = characters(REGISTRATION);
    let total: usize = all.len();
    match find(&all, &sought, 0) {
        None => None,
        Some(at) => {
            proof {
                lemma_first(script@, REGISTRATION@, 0);
            }
            let start: usize = at + sought.len();
            let mut end: usize = start;
            while end < total && all[end] != ' ' && all[end] != '\n'
                invariant
                    start <= end <= all@.len() == total,
                    word_end(all@, start as int) == word_end(all@, end as int),
                decreases all@.len() - end,
            {
                end += 1;
            }
            if start == end {
                None
            } else {
                Some(script.substring_char(start, end).to_owned())
            }
        },
    }
}

/// The script for a shell, of what was generated for it.
pub fn script(shell: Shell, generated: &str) -> (res: String)
    ensures
        res@ == finished(shell, generated@),
{
    if shell != Shell::Bash {
        return generated.to_owned();
    }
    proof {
        reveal_strlit("rpi__subcmd__loader");
    }
    let mut script = replace(generated, LISTED, PICKED);
    match registration(script.as_str()) {
        None => {},
        Some(name) => {
            script.append(WRAPPER_HEAD);
            script.append(name.as_str());
            script.append(WRAPPER_TAIL);
        },
    }
    script
}

// --- What follows ---------------------------------------------------------------

/// Where a text is found it stands, and it stands nowhere before; where it is not
/// found it stands nowhere.
pub proof fn what_is_found_stands_there_first(text: Seq<char>, wanted: Seq<char>, from: int)
    requires
        0 <= from,
    ensures
        match first(text, wanted, from) {
            Some(at) => {
                &&& from <= at <= text.len() - wanted.len()
                &&& text.subrange(at, at + wanted.len()) == wanted
                &&& forall|k: int|
                    from <= k < at ==> #[trigger] text.subrange(k, k + wanted.len()) != wanted
            },
            None => forall|k: int|
                from <= k <= text.len() - wanted.len() ==> #[trigger] text.subrange(
                    k,
                    k + wanted.len(),
                ) != wanted,
        },
    decreases text.len() + 1 - from,
{
    if from + wanted.len() <= text.len() && text.subrange(from, from + wanted.len()) != wanted {
        what_is_found_stands_there_first(text, wanted, from + 1);
    }
}

/// A text in which nothing is to be replaced stays; otherwise the first of what is
/// to be replaced gives way, what stands before it stays, and what follows is
/// treated alike.
pub proof fn what_is_replaced_gives_way(text: Seq<char>, wanted: Seq<char>, by: Seq<char>, from: int)
    requires
        wanted.len() > 0,
        0 <= from <= text.len(),
    ensures
        match first(text, wanted, from) {
            Some(at) => replaced(text, wanted, by, from) == text.subrange(from, at) + by + replaced(
                text,
                wanted,
                by,
                at + wanted.len(),
            ),
            None => replaced(text, wanted, by, from) == text.skip(from),
        },
{
    what_is_found_stands_there_first(text, wanted, from);
}

/// A script for any shell but bash is left as it was generated. A bash script is
/// kept too, but for its labels, and ends with the registration of the wrapper
/// exactly if it registers a function for the wrapper to call.
pub proof fn what_is_made_of_a_script(shell: Shell, generated: Seq<char>)
    ensures
        shell != Shell::Bash ==> finished(shell, generated) == generated,
        shell == Shell::Bash ==> {
            let mended = replaced(generated, "rpi__subcmd__loader"@, "rpi__loader"@, 0);
            match first(mended, "complete -F "@, 0) {
                None => finished(shell, generated) == mended,
                Some(at) => {
                    let start = at + "complete -F "@.len();
                    let end = word_end(mended, start);
                    let name = mended.subrange(start, end);
                    finished(shell, generated) == if end == start {
                        mended
                    } else {
                        mended + WRAPPER_HEAD@ + name + WRAPPER_TAIL@
                    }
                },
            }
        },
{
    let mended = replaced(generated, "rpi__subcmd__loader"@, "rpi__loader"@, 0);
    if let Some(at) = first(mended, "complete -F "@, 0) {
        lemma_first(mended, "complete -F "@, 0);
        where_a_word_ends(mended, at + "complete -F "@.len());
    }
}

/// A word ends at the first space or line feed, or with the text.
pub proof fn where_a_word_ends(text: Seq<char>, from: int)
    requires
        0 <= from <= text.len(),
    ensures
        ({
            let end = word_end(text, from);
            &&& from <= end <= text.len()
            &&& forall|k: int| from <= k < end ==> text[k] != ' ' && text[k] != '\n'
            &&& end < text.len() ==> text[end] == ' ' || text[end] == '\n'
        }),
    decreases text.len() - from,
{
    if from < text.len() && !is_gap(text[from]) {
        where_a_word_ends(text, from + 1);
    }
}

} // verus!
