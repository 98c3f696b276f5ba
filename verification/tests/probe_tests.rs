use std::collections::HashMap;

use basset_hound::audit::{
    presence, presence_verdict, probe_pid_syscalls, syscall_entry, SyscallOutcome,
};
use basset_hound::netlink::{absorb_payload, netlink_step, NetlinkStep, NLMSG_DONE};

#[test]
fn test_presence_of_outcomes() {
    assert!(presence(SyscallOutcome::Succeeded));
    assert!(presence(SyscallOutcome::PermissionDenied));
    assert!(!presence(SyscallOutcome::Failed(3)));
    // Code 1 is EPERM, however it is given.
    assert!(presence(SyscallOutcome::Failed(1)));
}

#[test]
fn test_presence_verdict() {
    let gone = SyscallOutcome::Failed(3);
    assert!(!presence_verdict(gone, gone, gone, gone));
    assert!(presence_verdict(SyscallOutcome::Succeeded, gone, gone, gone));
    assert!(presence_verdict(gone, SyscallOutcome::PermissionDenied, gone, gone));
    assert!(presence_verdict(gone, gone, SyscallOutcome::Failed(1), gone));
    assert!(presence_verdict(gone, gone, gone, SyscallOutcome::Succeeded));
}

#[test]
fn test_syscall_entry_texts() {
    assert_eq!(syscall_entry(SyscallOutcome::Succeeded), Ok(true));
    assert_eq!(syscall_entry(SyscallOutcome::PermissionDenied), Ok(true));
    assert_eq!(syscall_entry(SyscallOutcome::Failed(1)), Ok(true));
    assert_eq!(syscall_entry(SyscallOutcome::Failed(3)), Err("ESRCH: No such process".to_string()));
    assert_eq!(syscall_entry(SyscallOutcome::Failed(22)), Err("EINVAL: Invalid argument".to_string()));
}

#[test]
fn test_probe_finds_init() {
    // PID 1 always exists; `kill` succeeds or fails with EPERM.
    let report = probe_pid_syscalls(1, SyscallOutcome::Failed(3));
    assert!(report.found);
    assert!(presence(report.kill_zero));
    // The first probe showed the process, so no other was made.
    assert_eq!(report.getpgid, None);
    assert_eq!(report.getsid, None);
}

#[test]
fn test_probe_falls_back_on_scheduler_outcome() {
    // PID i32::MAX exceeds every pid_max, so the nix probes all fail.
    let report = probe_pid_syscalls(i32::MAX, SyscallOutcome::Failed(3));
    assert!(!report.found);
    assert!(!presence(report.kill_zero));
    assert!(report.getpgid.is_some());
    assert!(report.getsid.is_some());
    assert!(probe_pid_syscalls(i32::MAX, SyscallOutcome::PermissionDenied).found);
    assert!(probe_pid_syscalls(i32::MAX, SyscallOutcome::Succeeded).found);
}

#[test]
fn test_netlink_steps() {
    assert_eq!(netlink_step(0, 0, 0), NetlinkStep::Stop);
    assert_eq!(netlink_step(15, 0, 0), NetlinkStep::Stop);
    assert_eq!(netlink_step(40, 40, 0), NetlinkStep::Payload { len: 24, done: false });
    assert_eq!(netlink_step(16, 16, NLMSG_DONE), NetlinkStep::Payload { len: 0, done: true });
}

#[test]
fn test_absorb_payload() {
    let mut table: HashMap<i32, String> = HashMap::new();
    absorb_payload("1\tinit\n2\tkthreadd\n".as_bytes(), &mut table);
    absorb_payload(&[0x33, 0x09, 0xff, 0xfe], &mut table);
    absorb_payload("3\tk\u{e9}rnel".as_bytes(), &mut table);
    let mut expected: HashMap<i32, String> = HashMap::new();
    expected.insert(1, "init".to_string());
    expected.insert(2, "kthreadd".to_string());
    expected.insert(3, "k\u{e9}rnel".to_string());
    assert_eq!(table, expected);
}
