//! `afssh`: runs one command behind a filter of its own.

use vstd::prelude::*;
use vstd::string::StringExecFns;
use crate::text::{from_utf8_lossy, lists, same_text};
use crate::text::{texts, utf8_lossy};

verus! {

/// What the arguments ask for.
pub enum Launch {
    /// Show how the program is used.
    Usage,
    /// The separator between the filter's options and the command is missing.
    NoSeparator,
    /// Run a command behind a filter with these options.
    Run { filter_args: Vec<String>, command: Vec<String> },
}

/// Where the first separator stands, or the length where there is none.
pub open spec fn separator_at(args: Seq<Seq<char>>) -> nat
    decreases args.len(),
{
    if args.len() == 0 || args[0] == "--"@ {
        0
    } else {
        1 + separator_at(args.drop_first())
    }
}

/// Whether the arguments ask for help.
pub open spec fn asks_help(args: Seq<Seq<char>>) -> bool {
    args.len() == 0 || args.contains("-h"@) || args.contains("--help"@)
}

/// The arguments that are not separators.
pub open spec fn without_separators(args: Seq<Seq<char>>) -> Seq<Seq<char>> {
    args.filter(|arg: Seq<char>| arg != "--"@)
}

/// The first separator is the one before which there is none.
proof fn lemma_separator_at(args: Seq<Seq<char>>, k: int)
    requires
        0 <= k <= args.len(),
        forall|j: int| 0 <= j < k ==> args[j] != "--"@,
        k < args.len() ==> args[k] == "--"@,
    ensures
        separator_at(args) == k,
    decreases args.len(),
{
    if k > 0 {
        let rest = args.drop_first();
        assert(args[0] != "--"@);
        assert forall|j: int| 0 <= j < k - 1 implies rest[j] != "--"@ by {
            assert(rest[j] == args[j + 1]);
        }
        lemma_separator_at(rest, k - 1);
    }
}

/// Reads the arguments. Whatever stands in front of the first separator is for the
/// filter, and what stands behind it is the command; further separators are dropped.
pub fn parse_args(args: &[String]) -> (launch: Launch)
    ensures
        ({
            let all = texts(args@);
            let k = separator_at(all);
            if asks_help(all) {
                launch is Usage
            } else if k >= all.len() {
                launch is NoSeparator
            } else {
                launch matches Launch::Run { filter_args, command } && texts(filter_args@)
                    == all.take(k as int) && texts(command@) == without_separators(
                    all.skip(k as int + 1),
                )
            }
        }),
{
    let ghost all = texts(args@);
    if args.len() == 0 || lists(args, "-h") || lists(args, "--help") {
        return Launch::Usage;
    }
    let mut filter_args: Vec<String> = Vec::new();
    let mut k: usize = 0;
    assert(texts(filter_args@) =~= all.take(0));
    while k < args.len() && !same_text(args[k].as_str(), "--")
        invariant
            k <= args@.len(),
            all == texts(args@),
            texts(filter_args@) == all.take(k as int),
            forall|j: int| 0 <= j < k ==> all[j] != "--"@,
        decreases args@.len() - k,
    {
        let ghost before = texts(filter_args@);
        filter_args.push(args[k].clone());
        proof {
            assert(texts(filter_args@) =~= before.push(all[k as int]));
            assert(texts(filter_args@) =~= all.take(k + 1));
        }
        k = k + 1;
    }
    proof {
        lemma_separator_at(all, k as int);
    }
    if k >= args.len() {
        return Launch::NoSeparator;
    }
    let mut command: Vec<String> = Vec::new();
    let ghost tail = all.skip(k + 1);
    proof {
        reveal(Seq::filter);
        assert(tail.take(0) =~= Seq::empty());
        assert(texts(command@) =~= without_separators(tail.take(0)));
    }
    let mut i: usize = k + 1;
    while i < args.len()
        invariant
            k < i <= args@.len(),
            all == texts(args@),
            tail == all.skip(k + 1),
            texts(command@) == without_separators(tail.take(i - k - 1)),
        decreases args@.len() - i,
    {
        proof {
            assert(tail.take(i - k).drop_last() =~= tail.take(i - k - 1));
            reveal(Seq::filter);
        }
        let ghost before = texts(command@);
        if !same_text(args[i].as_str(), "--") {
            command.push(args[i].clone());
            assert(texts(command@) =~= before.push(all[i as int]));
        }
        i = i + 1;
    }
    assert(tail.take(i - k - 1) =~= tail);
    Launch::Run { filter_args, command }
}

/// Whether the filter is to show what it does.
pub fn wants_debug(filter_args: &[String]) -> (res: bool)
    ensures
        res == (texts(filter_args@).contains("-d"@) || texts(filter_args@).contains("--debug"@)),
{
    lists(filter_args, "-d") || lists(filter_args, "--debug")
}

/// The arguments for the filter that listens at a path: it stays in the foreground.
pub fn filter_command_line(filter_args: &[String], listen_path: &str, windows: bool) -> (args: Vec<
    String,
>)
    ensures
        texts(args@) == texts(filter_args@) + seq![
            "--debug"@,
            if windows {
                "--out-pipe"@
            } else {
                "--out-sock"@
            },
            listen_path@,
        ],
{
    let mut args: Vec<String> = Vec::new();
    let mut i: usize = 0;
    while i < filter_args.len()
        invariant
            i <= filter_args@.len(),
            args@.len() == i,
            forall|j: int| 0 <= j < i ==> args@[j]@ == filter_args@[j]@,
        decreases filter_args@.len() - i,
    {
        args.push(filter_args[i].clone());
        i = i + 1;
    }
    args.push("--debug".to_owned());
    if windows {
        args.push("--out-pipe".to_owned());
    } else {
        args.push("--out-sock".to_owned());
    }
    args.push(listen_path.to_owned());
    assert(texts(args@) =~= texts(filter_args@) + seq![
        "--debug"@,
        if windows {
            "--out-pipe"@
        } else {
            "--out-sock"@
        },
        listen_path@,
    ]);
    args
}

/// A program and its arguments.
pub struct CommandLine {
    pub program: String,
    pub args: Vec<String>,
}

/// The program that a command is run with: `git` where the command starts with it,
/// `ssh` otherwise.
pub open spec fn program_of(command: Seq<Seq<char>>) -> Seq<char> {
    if command.len() > 0 && command[0] == "git"@ {
        "git"@
    } else {
        "ssh"@
    }
}

/// The arguments that a command is run with. `ssh` need not be written, and is told
/// to forward the agent. A host that is called `git` or `ssh` is reached where `ssh`
/// is written in front of it.
pub open spec fn arguments_of(command: Seq<Seq<char>>) -> Seq<Seq<char>> {
    if command.len() > 0 && command[0] == "git"@ {
        command.skip(1)
    } else if command.len() > 0 && command[0] == "ssh"@ {
        seq!["-A"@] + command.skip(1)
    } else {
        seq!["-A"@] + command
    }
}

/// How a command is run.
pub fn command_line(command: &[String]) -> (line: CommandLine)
    ensures
        line.program@ == program_of(texts(command@)),
        texts(line.args@) == arguments_of(texts(command@)),
{
    let ghost all = texts(command@);
    let git = command.len() > 0 && same_text(command[0].as_str(), "git");
    let ssh = command.len() > 0 && same_text(command[0].as_str(), "ssh");
    let mut args: Vec<String> = Vec::new();
    if !git {
        args.push("-A".to_owned());
    }
    let ghost start = texts(args@);
    let first: usize = if git || ssh {
        1
    } else {
        0
    };
    proof {
        if command@.len() > 0 {
            assert(all[0] == command@[0]@);
        }
        assert(start =~= if git {
            Seq::empty()
        } else {
            seq!["-A"@]
        });
        assert(start =~= start + all.subrange(first as int, first as int));
    }
    let mut i: usize = first;
    while i < command.len()
        invariant
            first <= i <= command@.len(),
            all == texts(command@),
            texts(args@) == start + all.subrange(first as int, i as int),
        decreases command@.len() - i,
    {
        let ghost before = texts(args@);
        args.push(command[i].clone());
        proof {
            assert(texts(args@) =~= before.push(all[i as int]));
            assert(texts(args@) =~= start + all.subrange(first as int, i + 1));
        }
        i = i + 1;
    }
    proof {
        assert(all.subrange(first as int, i as int) =~= all.skip(first as int));
        assert(texts(args@) =~= arguments_of(all));
    }
    let program: String = if git {
        "git".to_owned()
    } else {
        "ssh".to_owned()
    };
    CommandLine { program, args }
}

/// How often to look whether the filter listens, before giving up on it.
pub const STARTUP_POLLS: u32 = 100;

/// What to do while the filter starts.
#[derive(Debug, Clone, Copy, PartialEq, Eq, Structural)]
pub enum StartupStep {
    /// The filter has ended.
    ExitedEarly,
    /// The filter listens.
    Ready,
    /// Wait a little and look again.
    Wait,
    /// The filter took too long.
    GiveUp,
}

/// What to do when the filter has been looked at `polls` times, given what another
/// look shows.
pub fn startup_step(polls: u32, exited: bool, listening: bool) -> (step: StartupStep)
    ensures
        step == if polls >= STARTUP_POLLS {
            StartupStep::GiveUp
        } else if exited {
            StartupStep::ExitedEarly
        } else if listening {
            StartupStep::Ready
        } else {
            StartupStep::Wait
        },
{
    if polls >= STARTUP_POLLS {
        StartupStep::GiveUp
    } else if exited {
        StartupStep::ExitedEarly
    } else if listening {
        StartupStep::Ready
    } else {
        StartupStep::Wait
    }
}

/// Why the filter did not start, with what it wrote before it ended.
pub fn startup_failure(reason: &str, stderr: &[u8]) -> (text: String)
    ensures
        text@ == if stderr@.len() == 0 {
            reason@
        } else {
            reason@ + "\nstderr:\n"@ + utf8_lossy(stderr@)
        },
{
    let mut text: String = reason.to_owned();
    if stderr.len() > 0 {
        text.append("\nstderr:\n");
        text.append(from_utf8_lossy(stderr).as_str());
    }
    text
}

/// The exit code that stands for how a command ended: its own where it has one, and
/// one above 128 where a signal ended it.
pub fn exit_code(code: Option<i32>, signal: Option<i32>) -> (res: i32)
    requires
        code is None && signal is Some ==> signal->Some_0 <= i32::MAX - 128,
    ensures
        res == match (code, signal) {
            (Some(code), _) => code as int,
            (None, Some(signal)) => 128 + signal,
            (None, None) => 1,
        },
{
    match code {
        Some(code) => code,
        None => match signal {
            Some(signal) => 128 + signal,
            None => 1,
        },
    }
}

/// No separator reaches the filter or the command.
pub proof fn law_separators_are_consumed(args: Seq<Seq<char>>)
    ensures
        !args.take(separator_at(args) as int).contains("--"@),
        !without_separators(args).contains("--"@),
        separator_at(args) <= args.len(),
    decreases args.len(),
{
    let kept = without_separators(args);
    assert forall|i: int| 0 <= i < kept.len() implies kept[i] != "--"@ by {
        args.lemma_filter_pred(|arg: Seq<char>| arg != "--"@, i);
    }
    if args.len() > 0 && args[0] != "--"@ {
        let rest = args.drop_first();
        law_separators_are_consumed(rest);
        let k = separator_at(args) as int;
        assert forall|i: int| 0 <= i < k implies args.take(k)[i] != "--"@ by {
            if i > 0 {
                assert(args[i] == rest.take(k - 1)[i - 1]);
            }
        }
    }
}

/// What stands in front of the first separator is for the filter, and what stands
/// behind it is the command, without further separators and with all else in its
/// order.
pub proof fn law_first_separator_parts(front: Seq<Seq<char>>, behind: Seq<Seq<char>>)
    requires
        forall|i: int| 0 <= i < front.len() ==> #[trigger] front[i] != "--"@,
    ensures
        separator_at(front) == front.len(),
        separator_at(front + seq!["--"@] + behind) == front.len(),
        (front + seq!["--"@] + behind).take(front.len() as int) == front,
        (front + seq!["--"@] + behind).skip(front.len() as int + 1) == behind,
        without_separators(behind) == behind.filter(|arg: Seq<char>| arg != "--"@),
{
    let all = front + seq!["--"@] + behind;
    let k = front.len() as int;
    assert forall|i: int| 0 <= i < k implies all[i] != "--"@ by {
        assert(all[i] == front[i]);
    }
    lemma_separator_at(front, k);
    lemma_separator_at(all, k);
    assert(all.take(k) =~= front);
    assert(all.skip(k + 1) =~= behind);
}

/// Help is asked for by no arguments at all, or by one of the two options anywhere.
pub proof fn law_help_is_asked_anywhere(args: Seq<Seq<char>>)
    ensures
        asks_help(args) <==> args.len() == 0 || exists|i: int|
            0 <= i < args.len() && ((#[trigger] args[i]) == "-h"@ || args[i] == "--help"@),
{
}

/// A command that starts with `git` is run as it is. Any other is run by `ssh`, which
/// may be written or not, with the agent forwarded and all its arguments.
pub proof fn law_commands_keep_their_arguments(rest: Seq<Seq<char>>, other: Seq<Seq<char>>)
    requires
        other.len() > 0 ==> other[0] != "git"@ && other[0] != "ssh"@,
    ensures
        program_of(seq!["git"@] + rest) == "git"@,
        arguments_of(seq!["git"@] + rest) == rest,
        program_of(seq!["ssh"@] + rest) == "ssh"@,
        arguments_of(seq!["ssh"@] + rest) == seq!["-A"@] + rest,
        program_of(other) == "ssh"@,
        arguments_of(other) == seq!["-A"@] + other,
{
    reveal_strlit("git");
    reveal_strlit("ssh");
    assert("git"@[0] != "ssh"@[0]);
    assert((seq!["git"@] + rest).skip(1) =~= rest);
    assert((seq!["ssh"@] + rest).skip(1) =~= rest);
}

} // verus!
