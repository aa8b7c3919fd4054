//! What the server asks of the container for each message of a client.

use crate::container::{env_entries, exec_request, texts_view, ExecRequest};
use crate::shell::{push_onto, push_path};
use vstd::prelude::*;

verus! {

/// A message of a client.
#[derive(Debug)]
pub enum ClientMessage {
    /// Type a command into the shell.
    ShellExec { command: String },
    /// Show a file.
    OpenFile { path: String },
    /// Write a file.
    SaveFile { path: String, contents: String },
    /// Trace the program and show the trace.
    RunVis,
}

/// The request that finds the file a client asks for: `ls` of the path, seen
/// from the shell's directory, run in that directory.
pub fn list_request(cwd: &String, path: &str) -> (request: ExecRequest)
    ensures
        texts_view(request.cmd@) == seq!["ls"@, push_path(cwd@, path@)],
        request.env@.len() == 0,
        request.working_dir is Some,
        request.working_dir->0@ == cwd@,
        request.attach_stdout,
        !request.attach_stdin,
{
    let mut args: Vec<String> = Vec::new();
    args.push(push_onto(cwd, path));
    let request = exec_request("ls", &args, &Vec::new(), Some(cwd.clone()));
    proof {
        assert(texts_view(request.cmd@) =~= seq!["ls"@, push_path(cwd@, path@)]);
        assert(texts_view(request.env@).len() == 0);
    }
    request
}

/// The request that reads a file: `cat` of its path.
pub fn read_request(resolved: &str) -> (request: ExecRequest)
    ensures
        texts_view(request.cmd@) == seq!["cat"@, resolved@],
        request.env@.len() == 0,
        request.working_dir is None,
        request.attach_stdout,
        !request.attach_stdin,
{
    let mut args: Vec<String> = Vec::new();
    args.push(String::from_str(resolved));
    let request = exec_request("cat", &args, &Vec::new(), None);
    proof {
        assert(texts_view(request.cmd@) =~= seq!["cat"@, resolved@]);
        assert(texts_view(request.env@).len() == 0);
    }
    request
}

/// The request that writes a file: a copy of what is typed in to the path.
pub fn save_request(path: &str) -> (request: ExecRequest)
    ensures
        texts_view(request.cmd@) == seq!["cp"@, "/dev/stdin"@, path@],
        request.env@.len() == 0,
        request.working_dir is None,
        !request.attach_stdout,
        request.attach_stdin,
{
    let mut cmd: Vec<String> = Vec::new();
    cmd.push(String::from_str("cp"));
    cmd.push(String::from_str("/dev/stdin"));
    cmd.push(String::from_str(path));
    proof {
        assert(texts_view(cmd@) =~= seq!["cp"@, "/dev/stdin"@, path@]);
    }
    ExecRequest {
        cmd,
        env: Vec::new(),
        working_dir: None,
        attach_stdout: false,
        attach_stdin: true,
    }
}

/// The request that traces the program in the shell's directory: the
/// tracer's `cargo` command, with the compiler's log kept to errors.
pub fn vis_request(cwd: &String) -> (request: ExecRequest)
    ensures
        texts_view(request.cmd@) == seq!["cargo"@, "mirivis"@],
        texts_view(request.env@) == seq!["RUSTC_LOG"@ + seq!['='] + "error"@],
        request.working_dir is Some,
        request.working_dir->0@ == cwd@,
        request.attach_stdout,
        !request.attach_stdin,
{
    let mut args: Vec<String> = Vec::new();
    args.push(String::from_str("mirivis"));
    let mut envs: Vec<(String, Option<String>)> = Vec::new();
    envs.push((String::from_str("RUSTC_LOG"), Some(String::from_str("error"))));
    let request = exec_request("cargo", &args, &envs, Some(cwd.clone()));
    proof {
        assert(texts_view(request.cmd@) =~= seq!["cargo"@, "mirivis"@]);
        assert(env_entries(envs@) =~= seq!["RUSTC_LOG"@ + seq!['='] + "error"@]);
    }
    request
}

} // verus!
