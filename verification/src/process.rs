use vstd::prelude::*;

use crate::strmap::StrMap;

verus! {

/// What a standard stream of a child process is connected to.
#[derive(Copy, Clone, Debug, PartialEq, Eq, Structural)]
pub enum Stdio {
    Inherit,
    Piped,
    Null,
}

/// A standard stream of a child process: a kind of connection, or a
/// resource (by its identifier).
#[derive(Copy, Clone, Debug, PartialEq, Eq, Structural)]
pub enum StdioOrRid {
    Stdio(Stdio),
    Rid(u32),
}

/// A request to run a command: its arguments (the command first), working
/// directory, environment (cleared first or not), user and group, and
/// standard streams.
pub struct RunArgs {
    pub cmd: Vec<String>,
    pub cwd: Option<String>,
    pub clear_env: bool,
    pub env: Vec<(String, String)>,
    pub gid: Option<u32>,
    pub uid: Option<u32>,
    pub stdin: StdioOrRid,
    pub stdout: StdioOrRid,
    pub stderr: StdioOrRid,
}

/// The JSON value that describes a standard stream, as far as it matters: a
/// string, a number (with its value if it is a non-negative integer that
/// fits 64 bits), or anything else.
pub enum StdioValue {
    String(String),
    Number(Option<u64>),
    Other,
}

/// Why a JSON value does not describe a standard stream.
#[derive(Debug)]
pub enum StdioError {
    /// A string other than `inherit`, `piped` and `null`.
    UnknownVariant(String),
    /// A number that is not a resource identifier.
    ExpectedPositiveInteger,
    /// Neither a string nor a number.
    ExpectedResourceId,
}

/// What a JSON value describes.
pub open spec fn spec_stdio_or_rid(value: StdioValue) -> Result<StdioOrRid, ()> {
    match value {
        StdioValue::String(s) => if s@ == "inherit"@ {
            Ok(StdioOrRid::Stdio(Stdio::Inherit))
        } else if s@ == "piped"@ {
            Ok(StdioOrRid::Stdio(Stdio::Piped))
        } else if s@ == "null"@ {
            Ok(StdioOrRid::Stdio(Stdio::Null))
        } else {
            Err(())
        },
        StdioValue::Number(Some(n)) => if n <= u32::MAX {
            Ok(StdioOrRid::Rid(n as u32))
        } else {
            Err(())
        },
        _ => Err(()),
    }
}

/// Reads a standard stream from its JSON value: `"inherit"`, `"piped"`,
/// `"null"`, or a resource identifier.
pub fn stdio_or_rid_from_value(value: &StdioValue) -> (r: Result<StdioOrRid, StdioError>)
    ensures
        match r {
            Ok(s) => spec_stdio_or_rid(*value) == Ok::<StdioOrRid, ()>(s),
            Err(e) => spec_stdio_or_rid(*value) is Err && match e {
                StdioError::UnknownVariant(v) => *value matches StdioValue::String(s) && v@ == s@,
                StdioError::ExpectedPositiveInteger => *value is Number,
                StdioError::ExpectedResourceId => *value is Other,
            },
        },
{
    match value {
        StdioValue::String(val) => {
            let inherit: String = "inherit".to_owned();
            let piped: String = "piped".to_owned();
            let null: String = "null".to_owned();
            if *val == inherit {
                Ok(StdioOrRid::Stdio(Stdio::Inherit))
            } else if *val == piped {
                Ok(StdioOrRid::Stdio(Stdio::Piped))
            } else if *val == null {
                Ok(StdioOrRid::Stdio(Stdio::Null))
            } else {
                Err(StdioError::UnknownVariant(val.clone()))
            }
        },
        StdioValue::Number(val) => match val {
            Some(v) => {
                if *v <= u32::MAX as u64 {
                    Ok(StdioOrRid::Rid(*v as u32))
                } else {
                    Err(StdioError::ExpectedPositiveInteger)
                }
            },
            None => Err(StdioError::ExpectedPositiveInteger),
        },
        StdioValue::Other => Err(StdioError::ExpectedResourceId),
    }
}

/// A standard output or error stream that inherits the parent's is given
/// the parent's own stream resource (`inherit_rid`) instead.
pub fn child_stdio(value: StdioOrRid, inherit_rid: u32) -> (r: StdioOrRid)
    ensures
        r == match value {
            StdioOrRid::Stdio(Stdio::Inherit) => StdioOrRid::Rid(inherit_rid),
            other => other,
        },
{
    match value {
        StdioOrRid::Stdio(Stdio::Inherit) => StdioOrRid::Rid(inherit_rid),
        value => value,
    }
}

/// The exit status of a child process, as reported to scripts.
#[derive(Copy, Clone, Debug, PartialEq, Eq, Structural)]
pub struct ProcessStatus {
    pub got_signal: bool,
    pub exit_code: i32,
    pub exit_signal: i32,
}

/// The status of a child that exited with `code` or was stopped by `signal`:
/// -1 stands for the missing one.
pub fn process_status(code: Option<i32>, signal: Option<i32>) -> (r: ProcessStatus)
    requires
        code is Some || signal is Some,
    ensures
        r.got_signal == signal is Some,
        r.exit_code == match code {
            Some(c) => c,
            None => -1i32,
        },
        r.exit_signal == match signal {
            Some(s) => s,
            None => -1i32,
        },
{
    let got_signal = signal.is_some();
    ProcessStatus {
        got_signal,
        exit_code: match code {
            Some(c) => c,
            None => -1,
        },
        exit_signal: match signal {
            Some(s) => s,
            None => -1,
        },
    }
}

/// Why a process cannot be killed.
#[derive(Debug)]
pub enum KillError {
    /// Only `SIGKILL` and `SIGTERM` can be sent.
    InvalidSignal(String),
    /// The process identifier is not positive.
    InvalidPid,
}

/// Checks a request to kill a process where only termination is available:
/// the signal must be `SIGKILL` or `SIGTERM`, then the process identifier
/// positive.
pub fn check_kill_request(pid: i32, signal: &String) -> (r: Result<(), KillError>)
    ensures
        match r {
            Ok(()) => (signal@ == "SIGKILL"@ || signal@ == "SIGTERM"@) && pid > 0,
            Err(KillError::InvalidSignal(s)) => s@ == signal@ && !(signal@ == "SIGKILL"@ || signal@
                == "SIGTERM"@),
            Err(KillError::InvalidPid) => (signal@ == "SIGKILL"@ || signal@ == "SIGTERM"@) && pid
                <= 0,
        },
{
    let sigkill: String = "SIGKILL".to_owned();
    let sigterm: String = "SIGTERM".to_owned();
    if !(*signal == sigkill || *signal == sigterm) {
        Err(KillError::InvalidSignal(signal.clone()))
    } else if pid <= 0 {
        Err(KillError::InvalidPid)
    } else {
        Ok(())
    }
}

/// The commands that run in a cage of their own: a cage is made once per
/// command path; a command whose sandbox turned out empty is remembered by
/// its file name and runs without a cage.
pub struct CagePool {
    pub caged: StrMap<()>,
    pub unboxed: StrMap<()>,
}

/// How to run a command.
#[derive(Copy, Clone, Debug, PartialEq, Eq, Structural)]
pub enum RunRoute {
    /// Make a cage for the command first, then decide again.
    CreateCage,
    /// Send the command to its cage.
    InCage,
    /// Spawn the command directly.
    Direct,
}

impl CagePool {
    pub open spec fn wf(&self) -> bool {
        self.caged.wf() && self.unboxed.wf()
    }

    /// How a command runs, given its path and file name.
    pub open spec fn spec_route(&self, cmd: Seq<char>, cmd_name: Seq<char>) -> RunRoute {
        if self.unboxed.view().contains_key(cmd_name) {
            RunRoute::Direct
        } else if self.caged.view().contains_key(cmd) {
            RunRoute::InCage
        } else {
            RunRoute::CreateCage
        }
    }

    pub fn new() -> (p: CagePool)
        ensures
            p.wf(),
            p.caged.view() == Map::<Seq<char>, ()>::empty(),
            p.unboxed.view() == Map::<Seq<char>, ()>::empty(),
    {
        CagePool { caged: StrMap::new(), unboxed: StrMap::new() }
    }

    /// How to run the command at path `cmd` whose file name is `cmd_name`.
    pub fn route(&self, cmd: &String, cmd_name: &String) -> (r: RunRoute)
        requires
            self.wf(),
        ensures
            r == self.spec_route(cmd@, cmd_name@),
    {
        if self.unboxed.get(cmd_name).is_some() {
            RunRoute::Direct
        } else if self.caged.get(cmd).is_some() {
            RunRoute::InCage
        } else {
            RunRoute::CreateCage
        }
    }

    /// Records the outcome of making a cage for `cmd`: its channels are kept
    /// when the cage sandboxes it, else its file name is remembered as
    /// running unboxed.
    pub fn record_cage(&mut self, cmd: &String, cmd_name: &String, is_sandboxed: bool)
        requires
            old(self).wf(),
        ensures
            final(self).wf(),
            is_sandboxed ==> final(self).caged.view() == old(self).caged.view().insert(cmd@, ())
                && final(self).unboxed.view() == old(self).unboxed.view(),
            !is_sandboxed ==> final(self).unboxed.view() == old(self).unboxed.view().insert(
                cmd_name@,
                (),
            ) && final(self).caged.view() == old(self).caged.view(),
    {
        if is_sandboxed {
            self.caged.insert(cmd.clone(), ());
        } else {
            self.unboxed.insert(cmd_name.clone(), ());
        }
    }
}

/// A command gets a cage at most once: once its cage is recorded, the
/// command runs in it, or directly when the cage turned out not to sandbox
/// it; it never gets another.
pub proof fn lemma_cage_made_once(
    before: CagePool,
    after: CagePool,
    cmd: Seq<char>,
    cmd_name: Seq<char>,
    is_sandboxed: bool,
)
    requires
        is_sandboxed ==> after.caged.view() == before.caged.view().insert(cmd, ())
            && after.unboxed.view() == before.unboxed.view(),
        !is_sandboxed ==> after.unboxed.view() == before.unboxed.view().insert(cmd_name, ())
            && after.caged.view() == before.caged.view(),
        before.spec_route(cmd, cmd_name) == RunRoute::CreateCage,
    ensures
        after.spec_route(cmd, cmd_name) == if is_sandboxed {
            RunRoute::InCage
        } else {
            RunRoute::Direct
        },
{
}

} // verus!
