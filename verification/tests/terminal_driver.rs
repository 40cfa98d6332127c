//! The driving subprocess of the virtual terminal and the decisions of its driver loop.
use trmnl_console::terminal_subprocess::{get_exit_code, is_internal_subprocess, SubprocArgs, INTERNAL_SUBPROCESS_MODE_FLAG};
use trmnl_console::virtual_terminal::{
    capture_cutoff_ms, capture_idle_limit_ms, capture_step, cursor_position_reply, driver_step, failed_exit_code,
    payload_len, requests_cursor_position, subprocess_command, CaptureEvent, CaptureStep, TermEvent, TermStep,
};

fn strings(v: &[&str]) -> Vec<String> {
    v.iter().map(|s| s.to_string()).collect()
}

#[test]
fn exit_code_of_exited_command() {
    assert_eq!(get_exit_code(Some(0), None, true), 0);
    assert_eq!(get_exit_code(Some(3), None, true), 3);
    assert_eq!(get_exit_code(Some(255), None, false), 255);
    assert_eq!(get_exit_code(Some(256), None, true), 1);
    assert_eq!(get_exit_code(Some(-1), None, true), 1);
}

#[test]
fn exit_code_of_killed_command() {
    assert_eq!(get_exit_code(None, Some(9), true), 137);
    assert_eq!(get_exit_code(None, Some(15), true), 143);
    assert_eq!(get_exit_code(None, None, true), 128);
    assert_eq!(get_exit_code(None, Some(-5), true), 129);
    assert_eq!(get_exit_code(None, Some(9), false), 1);
}

#[test]
fn subprocess_invocation_is_recognised() {
    assert!(is_internal_subprocess(&strings(&["prog", INTERNAL_SUBPROCESS_MODE_FLAG, "--socket-path", "/tmp/s"])));
    assert!(!is_internal_subprocess(&strings(&["prog"])));
    assert!(!is_internal_subprocess(&strings(&["prog", "-w", "10"])));
    assert!(!is_internal_subprocess(&strings(&["prog", "-w", INTERNAL_SUBPROCESS_MODE_FLAG])));
}

#[test]
fn cmd_mode_needs_a_command() {
    let mut args = SubprocArgs { internal_subprocess_mode: true, socket_path: "/tmp/s".into(), command: vec![] };
    assert!(!args.cmd_mode());
    args.command.push("ls".into());
    assert!(args.cmd_mode());
}

#[test]
fn subprocess_command_line() {
    assert_eq!(
        subprocess_command("exe".into(), "/tmp/s".into(), None),
        strings(&["exe", "--internal-subprocess-mode", "--socket-path", "/tmp/s"])
    );
    assert_eq!(
        subprocess_command("exe".into(), "/tmp/s".into(), Some(strings(&["ls", "-l"]))),
        strings(&["exe", "--internal-subprocess-mode", "--socket-path", "/tmp/s", "--", "ls", "-l"])
    );
}

#[test]
fn non_zero_exit_code_replaces_the_snapshot() {
    assert_eq!(failed_exit_code(None), None);
    assert_eq!(failed_exit_code(Some(0)), None);
    assert_eq!(failed_exit_code(Some(2)), Some(2));
}

#[test]
fn payload_ends_at_first_nul() {
    assert_eq!(payload_len(b"abc\0def"), 3);
    assert_eq!(payload_len(b"abc"), 3);
    assert_eq!(payload_len(b"\0"), 0);
    assert_eq!(payload_len(b""), 0);
}

#[test]
fn cursor_position_requests_are_found() {
    assert!(requests_cursor_position(b"\x1b[6n"));
    assert!(requests_cursor_position(b"ab\x1b[6ncd"));
    assert!(!requests_cursor_position(b"\x1b[6"));
    assert!(!requests_cursor_position(b"\x1b[5n"));
    assert!(!requests_cursor_position(b""));
}

#[test]
fn cursor_position_reply_counts_from_one() {
    let r = cursor_position_reply(4, 9);
    assert_eq!(r.len(), 128);
    assert_eq!(&r[..7], b"\x1b[5;10R");
    assert!(r[7..].iter().all(|&b| b == 0));
    let r = cursor_position_reply(-3, 0);
    assert_eq!(&r[..7], b"\x1b[-2;1R");
}

#[test]
fn driver_loop_sends_the_snapshot_once() {
    let feed = TermStep { feed: true, drain: false, take_snapshot: false, stop: false };
    assert_eq!(driver_step(false, TermEvent::Output), feed);
    assert_eq!(driver_step(true, TermEvent::Output), feed);
    assert_eq!(
        driver_step(false, TermEvent::SnapshotRequested),
        TermStep { feed: false, drain: false, take_snapshot: true, stop: true }
    );
    assert_eq!(
        driver_step(true, TermEvent::OutputClosed),
        TermStep { feed: false, drain: false, take_snapshot: false, stop: false }
    );
    assert_eq!(
        driver_step(true, TermEvent::ControlEnd),
        TermStep { feed: false, drain: true, take_snapshot: false, stop: true }
    );
    assert_eq!(
        driver_step(false, TermEvent::ControlEnd),
        TermStep { feed: false, drain: true, take_snapshot: true, stop: true }
    );
}

#[test]
fn capture_waits_longer_for_first_output() {
    assert_eq!(capture_idle_limit_ms(false), 10_000);
    assert_eq!(capture_idle_limit_ms(true), 500);
    assert_eq!(capture_cutoff_ms(), 6_000);
}

#[test]
fn capture_stops_when_the_screen_settles() {
    assert_eq!(
        capture_step(false, CaptureEvent::Output),
        CaptureStep { feed: true, check_cutoff: true, drain: false, stop: false, no_output: false }
    );
    assert_eq!(
        capture_step(true, CaptureEvent::Idle),
        CaptureStep { feed: false, check_cutoff: false, drain: false, stop: true, no_output: false }
    );
    assert_eq!(
        capture_step(false, CaptureEvent::Idle),
        CaptureStep { feed: false, check_cutoff: false, drain: false, stop: false, no_output: true }
    );
    assert_eq!(
        capture_step(false, CaptureEvent::ControlEnd),
        CaptureStep { feed: false, check_cutoff: false, drain: true, stop: true, no_output: false }
    );
    assert!(capture_step(true, CaptureEvent::OutputClosed).stop);
}
