//! The subprocess that drives a virtual terminal: how it is recognised on the command
//! line, which mode it runs in, and the exit code it reports for the command it ran.
use vstd::prelude::*;
use crate::text::str_eq;

verus! {

/// The flag that makes the binary run as the subprocess that drives a virtual terminal.
pub const INTERNAL_SUBPROCESS_MODE_FLAG: &'static str = "--internal-subprocess-mode";

/// The option that gives the subprocess the path of its local socket.
pub const SOCKET_PATH: &'static str = "--socket-path";

/// The arguments of the driving subprocess.
pub struct SubprocArgs {
    pub internal_subprocess_mode: bool,
    pub socket_path: String,
    pub command: Vec<String>,
}

impl SubprocArgs {
    /// Whether the subprocess runs a command (rather than forwarding bytes it reads).
    pub fn cmd_mode(&self) -> (r: bool)
        ensures
            r == (self.command@.len() > 0),
    {
        self.command.len() != 0
    }
}

/// Whether the arguments of the process (program name first) ask for the driving
/// subprocess: the first argument after the program name is the subprocess flag.
pub fn is_internal_subprocess(args: &Vec<String>) -> (r: bool)
    ensures
        r == (args@.len() >= 2 && args@[1]@ == INTERNAL_SUBPROCESS_MODE_FLAG@),
{
    if args.len() < 2 {
        return false;
    }
    str_eq(args[1].as_str(), INTERNAL_SUBPROCESS_MODE_FLAG)
}

/// The exit code reported for a finished command, given its exit status code (if it
/// exited) and the signal that ended it (if it was killed): the exit status when it fits
/// a byte, else 1; for a killed command on Unix, 128 plus the signal number (1 standing in
/// for a signal that does not fit a byte, 0 for an unknown one); elsewhere 1.
pub open spec fn exit_code_spec(code: Option<i32>, signal: Option<i32>, unix: bool) -> int {
    match code {
        Some(ec) => if 0 <= ec <= 255 { ec as int } else { 1 },
        None => if unix {
            let s: i32 = match signal {
                Some(s) => s,
                None => 0,
            };
            128 + if 0 <= s <= 255 { s as int } else { 1 }
        } else {
            1
        },
    }
}

/// The exit code reported for a finished command (see `exit_code_spec`). A signal
/// number from 128 to 255 would overflow the byte, so such statuses are left out.
pub fn get_exit_code(code: Option<i32>, signal: Option<i32>, unix: bool) -> (r: u8)
    requires
        code is None && unix ==> !(signal matches Some(s) && 128 <= s <= 255),
    ensures
        r as int == exit_code_spec(code, signal, unix),
{
    match code {
        Some(ec) => {
            if 0 <= ec && ec <= 255 {
                ec as u8
            } else {
                1
            }
        },
        None => {
            if unix {
                let s: i32 = match signal {
                    Some(s) => s,
                    None => 0,
                };
                let b: u8 = if 0 <= s && s <= 255 {
                    s as u8
                } else {
                    1
                };
                128 + b
            } else {
                1
            }
        },
    }
}

} // verus!
