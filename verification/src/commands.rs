//! What is handed to `ssh`, `ssh-keygen` and the shell, and how what they
//! print is read. Nothing here starts a process: the caller does, with the
//! arguments built here, and hands back what was printed.

use crate::messages::{
    key_exists_message, key_exists_text, key_failed_message, key_failed_text,
    key_generated_message, key_generated_text,
};
use crate::text::{chars_of, has_prefix, string_views};
use vstd::prelude::*;
use vstd::string::{StrSliceExecFns, StringExecFns};

verus! {

/// Whether `pattern` stands somewhere in `s`.
pub open spec fn contains_text(s: Seq<char>, pattern: Seq<char>) -> bool {
    exists|i: int|
        0 <= i <= s.len() - pattern.len() && #[trigger] s.subrange(i, i + pattern.len())
            == pattern
}

/// `s` with each single quote written twice.
pub open spec fn doubled_quotes(s: Seq<char>) -> Seq<char>
    decreases s.len(),
{
    if s.len() == 0 {
        s
    } else if s.last() == '\'' {
        doubled_quotes(s.drop_last()).push('\'').push('\'')
    } else {
        doubled_quotes(s.drop_last()).push(s.last())
    }
}

/// The command that a new PowerShell window is started with, so that it
/// runs `command` and stays open.
pub open spec fn powershell_script_text(command: Seq<char>) -> Seq<char> {
    "Start-Process powershell -ArgumentList '-NoExit', '-Command', '"@ + doubled_quotes(command)
        + "' -WindowStyle Normal"@
}

/// What a command on a remote host gave: what it printed, unless it wrote
/// to its error stream, which is then the failure.
pub open spec fn remote_outcome(stdout: Seq<char>, stderr: Seq<char>) -> Result<
    Seq<char>,
    Seq<char>,
> {
    if stderr.len() > 0 {
        Err(stderr)
    } else {
        Ok(stdout)
    }
}

/// What a command in the local shell gave. It failed where it wrote to its
/// error stream and ended without success. Else it gave what it printed,
/// or, where it printed nothing, what it wrote to its error stream.
pub open spec fn local_outcome(stdout: Seq<char>, stderr: Seq<char>, success: bool) -> Result<
    Seq<char>,
    Seq<char>,
> {
    if stderr.len() > 0 && !success {
        Err(stderr)
    } else if stdout.len() > 0 {
        Ok(stdout)
    } else {
        Ok(stderr)
    }
}

/// What is to be done about a key pair at `private_key`: nothing but a
/// refusal where a file stands there already, else a run of `ssh-keygen`
/// with these arguments.
pub open spec fn keygen_plan(private_key: Seq<char>, exists: bool) -> Result<
    Seq<Seq<char>>,
    Seq<char>,
> {
    if exists {
        Err(key_exists_text(private_key))
    } else {
        Ok(keygen_argument_texts(private_key))
    }
}

/// The arguments of `ssh-keygen` for a key pair at `private_key`.
pub open spec fn keygen_argument_texts(private_key: Seq<char>) -> Seq<Seq<char>> {
    seq![
        "-t"@,
        "rsa"@,
        "-b"@,
        "4096"@,
        "-f"@,
        private_key,
        "-N"@,
        ""@,
        "-C"@,
        "generated-by-ssh-commander"@,
    ]
}

/// How the making of a key pair ended, from how `ssh-keygen` ended and
/// what it wrote to its error stream.
pub open spec fn keygen_result(private_key: Seq<char>, success: bool, stderr: Seq<char>) -> Result<
    Seq<char>,
    Seq<char>,
> {
    if success {
        Ok(key_generated_text(private_key))
    } else {
        Err(key_failed_text(stderr))
    }
}

/// The views of a plan.
pub open spec fn plan_view(r: Result<Vec<String>, String>) -> Result<Seq<Seq<char>>, Seq<char>> {
    match r {
        Ok(args) => Ok(string_views(args@)),
        Err(text) => Err(text@),
    }
}

/// The views of an outcome.
pub open spec fn outcome_view(r: Result<String, String>) -> Result<Seq<char>, Seq<char>> {
    match r {
        Ok(s) => Ok(s@),
        Err(s) => Err(s@),
    }
}

/// The arguments with which `ssh` runs `command` on the host
/// `server_name` of the configuration file at `config_path`.
pub fn ssh_arguments(config_path: &str, server_name: &str, command: &str) -> (args: Vec<String>)
    ensures
        string_views(args@) == seq!["-F"@, config_path@, server_name@, command@],
{
    let mut args: Vec<String> = Vec::new();
    args.push("-F".to_owned());
    args.push(config_path.to_owned());
    args.push(server_name.to_owned());
    args.push(command.to_owned());
    proof {
        assert(string_views(args@) =~= seq!["-F"@, config_path@, server_name@, command@]);
    }
    args
}

/// The arguments with which `ssh` tries the connection to `server_name`:
/// the host is asked to print a fixed sentence.
pub fn verify_arguments(config_path: &str, server_name: &str) -> (args: Vec<String>)
    ensures
        string_views(args@) == seq![
            "-F"@,
            config_path@,
            server_name@,
            "echo 'Connection successful'"@,
        ],
{
    ssh_arguments(config_path, server_name, "echo 'Connection successful'")
}

/// Whether the fixed sentence stands in what `ssh` printed: then the
/// connection works.
pub fn connection_succeeded(stdout: &str) -> (r: bool)
    ensures
        r == contains_text(stdout@, "Connection successful"@),
{
    let v = chars_of(stdout);
    let n = "Connection successful".unicode_len();
    if n > v.len() {
        return false;
    }
    let ghost pattern = "Connection successful"@;
    let mut i: usize = 0;
    while i <= v.len() - n
        invariant
            n <= v.len(),
            i <= v.len() - n + 1,
            v@ == stdout@,
            pattern == "Connection successful"@,
            n == pattern.len(),
            forall|j: int| 0 <= j < i ==> #[trigger] v@.subrange(j, j + n) != pattern,
        decreases v.len() - i,
    {
        proof {
            assert(v@.subrange(i as int, v.len() as int).subrange(0, n as int) == v@.subrange(
                i as int,
                i + n,
            ));
        }
        if has_prefix(&v, i, v.len(), "Connection successful") {
            return true;
        }
        i += 1;
    }
    false
}

/// What a command on a remote host gave, from what `ssh` printed and what
/// it wrote to its error stream.
pub fn ssh_command_outcome(stdout: String, stderr: String) -> (r: Result<String, String>)
    ensures
        outcome_view(r) == remote_outcome(stdout@, stderr@),
{
    if !stderr.as_str().is_empty() {
        return Err(stderr);
    }
    Ok(stdout)
}

/// The shell that runs a local command, and the option before the
/// command: PowerShell on Windows, `bash` elsewhere.
pub fn terminal_shell(windows: bool) -> (shell: (String, String))
    ensures
        shell.0@ == (if windows {
            "powershell.exe"@
        } else {
            "bash"@
        }),
        shell.1@ == (if windows {
            "-Command"@
        } else {
            "-c"@
        }),
{
    if windows {
        ("powershell.exe".to_owned(), "-Command".to_owned())
    } else {
        ("bash".to_owned(), "-c".to_owned())
    }
}

/// What a command in the local shell gave, from what it printed, what it
/// wrote to its error stream, and whether it ended with success.
pub fn terminal_command_outcome(stdout: String, stderr: String, success: bool) -> (r: Result<
    String,
    String,
>)
    ensures
        outcome_view(r) == local_outcome(stdout@, stderr@, success),
{
    if !stderr.as_str().is_empty() && !success {
        return Err(stderr);
    }
    Ok(
        if !stdout.as_str().is_empty() {
            stdout
        } else {
            stderr
        },
    )
}

/// The command that a new PowerShell window is started with, so that it
/// runs `command` and stays open. Single quotes in `command` are doubled,
/// as PowerShell asks inside a quoted argument.
pub fn powershell_script(command: &str) -> (script: String)
    ensures
        script@ == powershell_script_text(command@),
{
    let v = chars_of(command);
    let mut script = "Start-Process powershell -ArgumentList '-NoExit', '-Command', '".to_owned();
    let ghost head = script@;
    let mut i: usize = 0;
    proof {
        assert(v@.take(0) == Seq::<char>::empty());
        assert(head + doubled_quotes(v@.take(0)) == head);
    }
    while i < v.len()
        invariant
            i <= v.len(),
            script@ == head + doubled_quotes(v@.take(i as int)),
        decreases v.len() - i,
    {
        proof {
            let next = v@.take(i + 1);
            assert(next.drop_last() == v@.take(i as int));
            assert(next.last() == v@[i as int]);
            let d = doubled_quotes(v@.take(i as int));
            assert((head + d).push('\'').push('\'') == head + d.push('\'').push('\''));
            assert((head + d).push(v@[i as int]) == head + d.push(v@[i as int]));
        }
        if v[i] == '\'' {
            script.push('\'');
            script.push('\'');
        } else {
            script.push(v[i]);
        }
        i += 1;
    }
    proof {
        assert(v@.take(v.len() as int) == v@);
    }
    script.append("' -WindowStyle Normal");
    script
}

/// The arguments with which a hidden PowerShell opens the visible one that
/// runs `command`.
pub fn powershell_arguments(command: &str) -> (args: Vec<String>)
    ensures
        string_views(args@) == seq![
            "-WindowStyle"@,
            "Hidden"@,
            "-Command"@,
            powershell_script_text(command@),
        ],
{
    let mut args: Vec<String> = Vec::new();
    args.push("-WindowStyle".to_owned());
    args.push("Hidden".to_owned());
    args.push("-Command".to_owned());
    args.push(powershell_script(command));
    proof {
        assert(string_views(args@) =~= seq![
            "-WindowStyle"@,
            "Hidden"@,
            "-Command"@,
            powershell_script_text(command@),
        ]);
    }
    args
}

/// The arguments with which `ssh-keygen` makes a key pair at
/// `private_key`: RSA, 4096 bits, no passphrase.
pub fn keygen_arguments(private_key: &str) -> (args: Vec<String>)
    ensures
        string_views(args@) == keygen_argument_texts(private_key@),
{
    let mut args: Vec<String> = Vec::new();
    args.push("-t".to_owned());
    args.push("rsa".to_owned());
    args.push("-b".to_owned());
    args.push("4096".to_owned());
    args.push("-f".to_owned());
    args.push(private_key.to_owned());
    args.push("-N".to_owned());
    args.push("".to_owned());
    args.push("-C".to_owned());
    args.push("generated-by-ssh-commander".to_owned());
    proof {
        assert(string_views(args@) =~= seq![
            "-t"@,
            "rsa"@,
            "-b"@,
            "4096"@,
            "-f"@,
            private_key@,
            "-N"@,
            ""@,
            "-C"@,
            "generated-by-ssh-commander"@,
        ]);
    }
    args
}

/// What is to be done about a key pair at `private_key`, given whether a
/// file stands there already: then the key is not overwritten, and the
/// refusal says so. Else the arguments for `ssh-keygen` come back.
pub fn plan_key_generation(private_key: &str, exists: bool) -> (r: Result<Vec<String>, String>)
    ensures
        plan_view(r) == keygen_plan(private_key@, exists),
{
    if exists {
        return Err(key_exists_message(private_key));
    }
    Ok(keygen_arguments(private_key))
}

/// How the making of a key pair at `private_key` ended, given whether
/// `ssh-keygen` ended with success and what it wrote to its error stream.
pub fn key_generation_outcome(private_key: &str, success: bool, stderr: &str) -> (r: Result<
    String,
    String,
>)
    ensures
        outcome_view(r) == keygen_result(private_key@, success, stderr@),
{
    if !success {
        return Err(key_failed_message(stderr));
    }
    Ok(key_generated_message(private_key))
}

} // verus!
