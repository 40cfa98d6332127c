//! The decisions of the virtual terminal: the command line of its driving subprocess,
//! the bytes it feeds to the terminal, its answer to cursor position requests, and what
//! its driver loop does on each event.
use vstd::prelude::*;
use crate::terminal_subprocess::{INTERNAL_SUBPROCESS_MODE_FLAG, SOCKET_PATH};

verus! {

/// Why no snapshot could be had from a virtual terminal.
#[derive(Clone, Copy, Debug, PartialEq, Eq, Structural)]
pub enum SnapshotError {
    /// The terminal stopped without sending a snapshot.
    TerminalCrashed,
    /// The terminal did not answer in time.
    TerminalTimedOut,
}

/// The chars of a list of strings.
pub open spec fn strings_view(v: Seq<String>) -> Seq<Seq<char>> {
    v.map_values(|s: String| s@)
}

/// The chars of an optional list of strings.
pub open spec fn opt_strings_view(v: Option<Vec<String>>) -> Option<Seq<Seq<char>>> {
    match v {
        Some(c) => Some(strings_view(c@)),
        None => None,
    }
}

/// The command line of the driving subprocess: the program, the subprocess flag, the
/// socket option and its path; in command mode then `--` and the command.
pub open spec fn subprocess_command_spec(exe: Seq<char>, socket: Seq<char>, cmd: Option<Seq<Seq<char>>>) -> Seq<Seq<char>> {
    let base = seq![exe, INTERNAL_SUBPROCESS_MODE_FLAG@, SOCKET_PATH@, socket];
    match cmd {
        Some(c) => base + seq!["--"@] + c,
        None => base,
    }
}

/// The command line the virtual terminal runs its driving subprocess with.
pub fn subprocess_command(exe: String, socket_path: String, cmd: Option<Vec<String>>) -> (r: Vec<String>)
    ensures
        strings_view(r@) == subprocess_command_spec(exe@, socket_path@, opt_strings_view(cmd)),
{
    let ghost cmd_view = opt_strings_view(cmd);
    let mut r: Vec<String> = Vec::new();
    r.push(exe);
    r.push(String::from_str(INTERNAL_SUBPROCESS_MODE_FLAG));
    r.push(String::from_str(SOCKET_PATH));
    r.push(socket_path);
    if let Some(c) = cmd {
        r.push(String::from_str("--"));
        let ghost base = r@;
        let mut c = c;
        let ghost c0 = c@;
        let mut i: usize = 0;
        let n = c.len();
        while i < n
            invariant
                n == c0.len(),
                i <= n,
                c@ == c0.skip(i as int),
                r@ == base + c0.take(i as int),
            decreases n - i,
        {
            let s = c.remove(0);
            assert(s == c0[i as int]);
            assert(c@ =~= c0.skip(i + 1));
            r.push(s);
            assert(r@ =~= base + c0.take(i + 1));
            i = i + 1;
        }
        assert(c0.take(n as int) =~= c0);
        assert(strings_view(r@) =~= subprocess_command_spec(exe@, socket_path@, cmd_view));
    } else {
        assert(strings_view(r@) =~= subprocess_command_spec(exe@, socket_path@, cmd_view));
    }
    r
}

/// The exit code that stops the snapshot: a command that exited with a non-zero code
/// reports that code instead of a snapshot.
pub fn failed_exit_code(exit_code: Option<u8>) -> (r: Option<u8>)
    ensures
        r == (match exit_code {
            Some(ec) => if ec != 0 { Some(ec) } else { None },
            None => None,
        }),
{
    match exit_code {
        Some(ec) => if ec != 0 { Some(ec) } else { None },
        None => None,
    }
}

/// The length of a PTY payload: payloads are fixed-size arrays whose end is marked by
/// the first NUL byte (none: the whole array).
pub fn payload_len(bytes: &[u8]) -> (r: usize)
    ensures
        r <= bytes@.len(),
        forall|i: int| 0 <= i < r ==> bytes@[i] != 0,
        r < bytes@.len() ==> bytes@[r as int] == 0,
{
    let mut i: usize = 0;
    while i < bytes.len()
        invariant
            i <= bytes@.len(),
            forall|j: int| 0 <= j < i ==> bytes@[j] != 0,
        decreases bytes@.len() - i,
    {
        if bytes[i] == 0 {
            return i;
        }
        i = i + 1;
    }
    i
}

/// The cursor position request `ESC [ 6 n`.
pub open spec fn cursor_request() -> Seq<u8> {
    seq![0x1bu8, 0x5bu8, 0x36u8, 0x6eu8]
}

/// Whether the bytes hold a cursor position request.
pub open spec fn has_cursor_request(b: Seq<u8>) -> bool {
    exists|i: int| 0 <= i && i + 4 <= b.len() && #[trigger] b.subrange(i, i + 4) == cursor_request()
}

/// Whether the bytes fed to the terminal ask for the cursor position.
pub fn requests_cursor_position(bytes: &[u8]) -> (r: bool)
    ensures
        r == has_cursor_request(bytes@),
{
    let n = bytes.len();
    if n < 4 {
        assert forall|i: int| 0 <= i && i + 4 <= bytes@.len() implies #[trigger] bytes@.subrange(i, i + 4) != cursor_request() by {}
        return false;
    }
    let mut i: usize = 0;
    while i <= n - 4
        invariant
            n == bytes@.len(),
            n >= 4,
            i + 3 <= n,
            forall|j: int| 0 <= j < i ==> #[trigger] bytes@.subrange(j, j + 4) != cursor_request(),
        decreases n - i,
    {
        if bytes[i] == 0x1b && bytes[i + 1] == 0x5b && bytes[i + 2] == 0x36 && bytes[i + 3] == 0x6e {
            assert(bytes@.subrange(i as int, i + 4) =~= cursor_request());
            return true;
        }
        assert(bytes@.subrange(i as int, i + 4)[0] == bytes@[i as int]);
        assert(bytes@.subrange(i as int, i + 4)[1] == bytes@[i + 1]);
        assert(bytes@.subrange(i as int, i + 4)[2] == bytes@[i + 2]);
        assert(bytes@.subrange(i as int, i + 4)[3] == bytes@[i + 3]);
        i = i + 1;
    }
    false
}

/// The ASCII digits of `n`, without leading zeros.
pub open spec fn decimal_bytes(n: nat) -> Seq<u8>
    decreases n,
{
    if n < 10 {
        seq![(0x30 + n) as u8]
    } else {
        decimal_bytes(n / 10).push((0x30 + n % 10) as u8)
    }
}

/// The ASCII text of an integer: a minus sign for a negative one, then its digits.
pub open spec fn signed_decimal_bytes(n: int) -> Seq<u8> {
    if n < 0 {
        seq![0x2du8] + decimal_bytes((-n) as nat)
    } else {
        decimal_bytes(n as nat)
    }
}

/// The answer to a cursor position request, for the cursor at row `row` and column
/// `col` counted from 1: `ESC [ row ; col R`.
pub open spec fn cursor_report(row: int, col: int) -> Seq<u8> {
    seq![0x1bu8, 0x5bu8] + signed_decimal_bytes(row) + seq![0x3bu8] + signed_decimal_bytes(col) + seq![0x52u8]
}

/// Appends the ASCII digits of `n`.
fn push_decimal_bytes(out: &mut Vec<u8>, n: u64)
    ensures
        final(out)@ == old(out)@ + decimal_bytes(n as nat),
    decreases n,
{
    if n >= 10 {
        push_decimal_bytes(out, n / 10);
    }
    out.push((0x30 + n % 10) as u8);
    assert(out@ =~= old(out)@ + decimal_bytes(n as nat));
}

/// The input payload answering a cursor position request for the cursor at visible row
/// `y` and column `x` (both counted from 0): the answer, padded with NUL bytes to the
/// payload size of 128 bytes.
pub fn cursor_position_reply(y: i64, x: usize) -> (r: Vec<u8>)
    requires
        y < i64::MAX,
        x < usize::MAX,
    ensures
        r@.len() == 128,
        r@.take(cursor_report(y + 1, x + 1).len() as int) == cursor_report(y + 1, x + 1),
        forall|i: int| cursor_report(y + 1, x + 1).len() <= i < 128 ==> r@[i] == 0,
{
    let mut out: Vec<u8> = Vec::new();
    out.push(0x1b);
    out.push(0x5b);
    let row = y + 1;
    if row < 0 {
        out.push(0x2d);
        push_decimal_bytes(&mut out, (-row) as u64);
    } else {
        push_decimal_bytes(&mut out, row as u64);
    }
    out.push(0x3b);
    push_decimal_bytes(&mut out, (x + 1) as u64);
    out.push(0x52);
    let ghost report = cursor_report(y + 1, x + 1);
    assert(out@ =~= report);
    proof {
        lemma_decimal_bytes_len(if row < 0 { (-row) as nat } else { row as nat });
        lemma_decimal_bytes_len((x + 1) as nat);
    }
    let len = out.len();
    while out.len() < 128
        invariant
            len == report.len(),
            len <= 128,
            out@.len() <= 128,
            out@.len() >= len,
            out@.take(len as int) == report,
            forall|i: int| len <= i < out@.len() ==> out@[i] == 0,
        decreases 128 - out@.len(),
    {
        out.push(0);
        assert(out@.take(len as int) =~= report);
    }
    out
}

/// The ASCII digits of a number below 2^64 are at most 20.
proof fn lemma_decimal_bytes_len(n: nat)
    ensures
        n <= u64::MAX ==> decimal_bytes(n).len() <= 20,
        decimal_bytes(n).len() >= 1,
    decreases n,
{
    if n >= 10 {
        lemma_decimal_bytes_len(n / 10);
        if n <= u64::MAX {
            lemma_decimal_bytes_bound(n);
        }
    }
}

/// A number with `k + 1` digits is at least 10^k.
proof fn lemma_decimal_bytes_bound(n: nat)
    requires
        n <= u64::MAX,
    ensures
        decimal_bytes(n).len() <= 20,
    decreases n,
{
    reveal_with_fuel(decimal_bytes, 20);
    assert(n / 10 / 10 / 10 / 10 / 10 / 10 / 10 / 10 / 10 / 10 / 10 / 10 / 10 / 10 / 10 / 10 / 10 / 10 / 10 < 10);
}

/// An event of the driver loop of a virtual terminal.
#[derive(Clone, Copy, Debug, PartialEq, Eq, Structural)]
pub enum TermEvent {
    /// The PTY sent output.
    Output,
    /// The PTY's output channel closed.
    OutputClosed,
    /// The terminal reported its end.
    ControlEnd,
    /// The owner asked for a snapshot.
    SnapshotRequested,
}

/// What the driver loop does on an event: feed the output to the terminal, drain the
/// output that is still coming, take (and send) the snapshot, and stop.
#[derive(Clone, Copy, Debug, PartialEq, Eq, Structural)]
pub struct TermStep {
    pub feed: bool,
    pub drain: bool,
    pub take_snapshot: bool,
    pub stop: bool,
}

/// The driver loop's answer to `event` when the snapshot was already sent or not: output
/// is fed to the terminal; a closed output or a snapshot request takes the snapshot and
/// stops, unless the snapshot was already sent; the terminal's end drains the remaining
/// output, takes the snapshot if it was not sent yet, and stops in any case. So the
/// snapshot is sent at most once.
pub fn driver_step(snapshot_sent: bool, event: TermEvent) -> (r: TermStep)
    ensures
        r.feed == (event == TermEvent::Output),
        r.drain == (event == TermEvent::ControlEnd),
        r.take_snapshot == (event != TermEvent::Output && !snapshot_sent),
        r.stop == (event == TermEvent::ControlEnd || (event != TermEvent::Output && !snapshot_sent)),
{
    match event {
        TermEvent::Output => TermStep { feed: true, drain: false, take_snapshot: false, stop: false },
        TermEvent::OutputClosed | TermEvent::SnapshotRequested => TermStep {
            feed: false,
            drain: false,
            take_snapshot: !snapshot_sent,
            stop: !snapshot_sent,
        },
        TermEvent::ControlEnd => TermStep { feed: false, drain: true, take_snapshot: !snapshot_sent, stop: true },
    }
}

// ---------------------------------------------------------------------------
// Capturing a command until its screen settles
// ---------------------------------------------------------------------------

/// How long (in milliseconds) the capture waits for the next output: up to 10 s for the
/// first output (TUI apps can be slow to paint their first frame), then 500 ms of quiet
/// count as a settled screen.
pub fn capture_idle_limit_ms(seen_output: bool) -> (r: u64)
    ensures
        r == (if seen_output { 500u64 } else { 10_000u64 }),
{
    if seen_output { 500 } else { 10_000 }
}

/// An event of the capture loop.
#[derive(Clone, Copy, Debug, PartialEq, Eq, Structural)]
pub enum CaptureEvent {
    /// The PTY sent output.
    Output,
    /// No output can arrive any more.
    OutputClosed,
    /// No output arrived within the idle limit.
    Idle,
    /// The command exited.
    ControlEnd,
}

/// What the capture loop does on an event: feed the output (then stop if the capture has
/// run past its cutoff), drain what is still in flight, stop, or give up because the
/// command never produced output.
#[derive(Clone, Copy, Debug, PartialEq, Eq, Structural)]
pub struct CaptureStep {
    pub feed: bool,
    pub check_cutoff: bool,
    pub drain: bool,
    pub stop: bool,
    pub no_output: bool,
}

/// The cutoff of a capture in milliseconds, for commands that never stop redrawing.
pub fn capture_cutoff_ms() -> (r: u64)
    ensures
        r == 6_000,
{
    6_000
}

/// The capture loop's answer to `event`: output is fed, after which the capture stops if
/// it has run past its cutoff; a closed output stops it; an idle period stops it once
/// output was seen, and otherwise means the command produced no output; the command's
/// exit drains the remaining output and stops.
pub fn capture_step(seen_output: bool, event: CaptureEvent) -> (r: CaptureStep)
    ensures
        r.feed == (event == CaptureEvent::Output),
        r.check_cutoff == (event == CaptureEvent::Output),
        r.drain == (event == CaptureEvent::ControlEnd),
        r.no_output == (event == CaptureEvent::Idle && !seen_output),
        r.stop == (event == CaptureEvent::OutputClosed || event == CaptureEvent::ControlEnd
            || (event == CaptureEvent::Idle && seen_output)),
{
    match event {
        CaptureEvent::Output => CaptureStep { feed: true, check_cutoff: true, drain: false, stop: false, no_output: false },
        CaptureEvent::OutputClosed => CaptureStep { feed: false, check_cutoff: false, drain: false, stop: true, no_output: false },
        CaptureEvent::Idle => CaptureStep {
            feed: false,
            check_cutoff: false,
            drain: false,
            stop: seen_output,
            no_output: !seen_output,
        },
        CaptureEvent::ControlEnd => CaptureStep { feed: false, check_cutoff: false, drain: true, stop: true, no_output: false },
    }
}

} // verus!
