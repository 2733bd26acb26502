//! Where the filter listens, and what it tells the shell about it.

use vstd::prelude::*;
use vstd::string::StringExecFns;
use crate::text::{append_all, decimal_text};
use crate::text::{decimal, texts};

verus! {

/// Where a filter listens that was not told where.
pub fn default_listen_path(pid: u32) -> (path: String)
    ensures
        path@ == "/tmp/agent."@ + decimal(pid as nat),
{
    let mut path: String = "/tmp/agent.".to_owned();
    path.append(decimal_text(pid as u64).as_str());
    path
}

/// The line by which a shell sets a variable and hands it on.
pub open spec fn export_line(name: Seq<char>, value: Seq<char>) -> Seq<char> {
    name + "='"@ + value + "'; export "@ + name + ";"@
}

/// Writes the line by which a shell sets a variable and hands it on.
fn export(name: &str, value: &str) -> (line: String)
    ensures
        line@ == export_line(name@, value@),
{
    let mut line: String = name.to_owned();
    append_all(&mut line, "='", value, "'; export ");
    line.append(name);
    line.append(";");
    line
}

/// The lines by which a shell is pointed at a filter that listens at a path.
pub fn export_lines(listen_path: &str, pid: u32) -> (lines: Vec<String>)
    ensures
        texts(lines@) == seq![
            export_line("SSH_AUTH_SOCK"@, listen_path@),
            export_line("SSH_AGENT_PID"@, decimal(pid as nat)),
        ],
{
    let mut lines: Vec<String> = Vec::new();
    lines.push(export("SSH_AUTH_SOCK", listen_path));
    lines.push(export("SSH_AGENT_PID", decimal_text(pid as u64).as_str()));
    assert(texts(lines@) =~= seq![
        export_line("SSH_AUTH_SOCK"@, listen_path@),
        export_line("SSH_AGENT_PID"@, decimal(pid as nat)),
    ]);
    lines
}

/// The lines by which PowerShell and a Unix shell are pointed at a filter that
/// listens on a named pipe.
pub fn pipe_lines(pipe_path: &str) -> (lines: Vec<String>)
    ensures
        texts(lines@) == seq![
            "$env:SSH_AUTH_SOCK='"@ + pipe_path@ + "'"@,
            export_line("SSH_AUTH_SOCK"@, pipe_path@),
        ],
{
    let mut powershell: String = "$env:SSH_AUTH_SOCK='".to_owned();
    powershell.append(pipe_path);
    powershell.append("'");
    let mut lines: Vec<String> = Vec::new();
    lines.push(powershell);
    lines.push(export("SSH_AUTH_SOCK", pipe_path));
    assert(texts(lines@) =~= seq![
        "$env:SSH_AUTH_SOCK='"@ + pipe_path@ + "'"@,
        export_line("SSH_AUTH_SOCK"@, pipe_path@),
    ]);
    lines
}

/// The line by which a shell shows the process of a filter in the background.
pub fn agent_pid_line(pid: u32) -> (line: String)
    ensures
        line@ == "echo 'Agent pid "@ + decimal(pid as nat) + "';"@,
{
    let mut line: String = "echo 'Agent pid ".to_owned();
    line.append(decimal_text(pid as u64).as_str());
    line.append("';");
    line
}

/// A variable is set to the value between quotes, and handed on under its name.
pub proof fn law_export_line_sets_variable(name: Seq<char>, value: Seq<char>)
    ensures
        export_line(name, value) == name + "='"@ + value + "'; export "@ + name + ";"@,
{
}

} // verus!
