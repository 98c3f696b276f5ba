use std::collections::HashMap;

use basset_hound::audit::{ProcfsProbes, SyscallAuditReport};
use basset_hound::detector::{
    analyze_results, complete_report, process_map, HiddenProcessDetail, ProcessEvidence, ScanResults,
};

/// A PID standing for the scanner's own, far from every PID below.
fn own_pid() -> i32 {
    1_000_000_000
}

fn sample_audit() -> SyscallAuditReport {
    SyscallAuditReport {
        kill_zero: Ok(true),
        getpgid: Ok(true),
        getsid: Ok(true),
        sched_getscheduler: Ok(true),
        stat_proc_dir: Err("No such file or directory (os error 2)".to_string()),
        open_status: Ok(true),
        readlink_exe: Ok(true),
        readdir_task: Ok(true),
    }
}

#[test]
fn test_normal_system_no_hidden() {
    let mut results = ScanResults::default();
    results.proc_readdir.insert(1);
    results.proc_readdir.insert(100);

    results.proc_direct.insert(1);
    results.proc_direct.insert(100);

    results.syscalls.insert(1);
    results.syscalls.insert(100);

    results.ps_cmds.insert(1, "systemd".to_string());
    results.ps_cmds.insert(100, "bash".to_string());

    let report = analyze_results(&results, own_pid());
    assert_eq!(report.hidden_processes.len(), 0);
    assert_eq!(report.total_scanned, 2);
}

#[test]
fn test_kernel_level_hiding_detected() {
    let mut results = ScanResults::default();
    results.proc_readdir.insert(1);
    results.proc_direct.insert(1);
    results.proc_direct.insert(1234);
    results.syscalls.insert(1);
    results.syscalls.insert(1234);
    results.ps_cmds.insert(1, "systemd".to_string());

    let report = analyze_results(&results, own_pid());
    assert_eq!(report.hidden_processes.len(), 1);
    assert_eq!(report.hidden_processes[0].pid, 1234);
    assert!(report.hidden_processes[0].description.contains("Kernel-level process hiding"));
    assert!(report.hidden_processes[0].hidden_from.contains(&"proc_readdir".to_string()));
    assert!(report.hidden_processes[0].hidden_from.contains(&"ps".to_string()));
}

#[test]
fn test_userland_utility_hijack_detected() {
    let mut results = ScanResults::default();
    results.proc_readdir.insert(1);
    results.proc_readdir.insert(5555);
    results.proc_direct.insert(1);
    results.proc_direct.insert(5555);
    results.syscalls.insert(1);
    results.syscalls.insert(5555);
    results.ps_cmds.insert(1, "systemd".to_string());

    let report = analyze_results(&results, own_pid());
    assert_eq!(report.hidden_processes.len(), 1);
    assert_eq!(report.hidden_processes[0].pid, 5555);
    assert!(report.hidden_processes[0].description.contains("Userland utility hijack"));
}

#[test]
fn test_advanced_kernel_rootkit_detected() {
    let mut results = ScanResults::default();
    results.proc_readdir.insert(1);
    results.proc_direct.insert(1);
    results.syscalls.insert(1);
    results.ps_cmds.insert(1, "systemd".to_string());

    let mut lkm_map = HashMap::new();
    lkm_map.insert(1, "systemd".to_string());
    lkm_map.insert(9999, "backdoor".to_string());
    results.lkm = Some(lkm_map);

    let report = analyze_results(&results, own_pid());
    assert_eq!(report.hidden_processes.len(), 1);
    assert_eq!(report.hidden_processes[0].pid, 9999);
    assert_eq!(report.hidden_processes[0].name.as_deref(), Some("backdoor"));
    assert!(report.hidden_processes[0].description.contains("Sophisticated kernel rootkit"));
}

#[test]
fn test_labels_follow_source_order() {
    let mut results = ScanResults::default();
    results.proc_direct.insert(42);
    results.ps_cmds.insert(42, "sshd".to_string());
    let mut ebpf = HashMap::new();
    ebpf.insert(42, "sshd".to_string());
    results.ebpf = Some(ebpf);
    results.lkm = Some(HashMap::new());

    let report = analyze_results(&results, own_pid());
    assert_eq!(report.total_scanned, 1);
    assert_eq!(report.hidden_processes.len(), 1);
    let f = &report.hidden_processes[0];
    assert_eq!(f.detected_by, vec!["proc_direct", "ps", "ebpf"]);
    assert_eq!(f.hidden_from, vec!["proc_readdir", "syscalls", "lkm"]);
    // Missing from /proc and the syscalls, found by the eBPF iterator.
    assert_eq!(
        f.description,
        "Sophisticated kernel rootkit hiding from standard syscalls but found via kernel traversal"
    );
    // The kernel module was queried and lacks the PID: its name is unknown.
    assert_eq!(f.name.as_deref(), Some("unknown"));
}

#[test]
fn test_ebpf_name_when_no_module() {
    let mut results = ScanResults::default();
    results.proc_readdir.insert(7);
    let mut ebpf = HashMap::new();
    ebpf.insert(7, "kworker/0:1".to_string());
    results.ebpf = Some(ebpf);
    let report = analyze_results(&results, own_pid());
    assert_eq!(report.hidden_processes.len(), 1);
    let f = &report.hidden_processes[0];
    assert_eq!(f.name.as_deref(), Some("kworker/0:1"));
    // In /proc but not in ps: a userland hijack.
    assert!(f.description.starts_with("Userland utility hijack"));
}

#[test]
fn test_inconsistent_diagnosis() {
    let mut results = ScanResults::default();
    results.proc_readdir.insert(12);
    results.ps_cmds.insert(12, "x".to_string());
    results.syscalls.insert(13);
    results.ps_cmds.insert(13, "y".to_string());
    let report = analyze_results(&results, own_pid());
    // 13: not in /proc, in ps, seen by syscalls.
    assert_eq!(report.hidden_processes.len(), 1);
    assert_eq!(report.hidden_processes[0].pid, 13);
    assert_eq!(
        report.hidden_processes[0].description,
        "Inconsistent process visibility across APIs"
    );
}

#[test]
fn test_traversal_only_diagnosis() {
    let mut results = ScanResults::default();
    results.ps_cmds.insert(3, "init".to_string());
    let mut lkm = HashMap::new();
    lkm.insert(3, "init".to_string());
    results.lkm = Some(lkm);
    let report = analyze_results(&results, own_pid());
    assert_eq!(report.hidden_processes.len(), 1);
    assert_eq!(
        report.hidden_processes[0].description,
        "Sophisticated kernel rootkit hiding from standard syscalls but found via kernel traversal"
    );
}

#[test]
fn test_name_must_come_from_procfs() {
    let mut results = ScanResults::default();
    results.syscalls.insert(321);
    let report = analyze_results(&results, own_pid());
    assert_eq!(report.hidden_processes.len(), 1);
    assert_eq!(report.hidden_processes[0].name, None);
    assert_eq!(
        report.hidden_processes[0].description,
        "Kernel-level process hiding detected (getdents hook / rootkit)"
    );
}

#[test]
fn test_own_pid_is_never_reported() {
    let mut results = ScanResults::default();
    results.syscalls.insert(777);
    results.proc_direct.insert(778);
    let report = analyze_results(&results, 777);
    assert_eq!(report.total_scanned, 2);
    assert_eq!(report.hidden_processes.len(), 1);
    assert_eq!(report.hidden_processes[0].pid, 778);
}

#[test]
fn test_visible_only_in_high_level_sources_is_not_flagged() {
    let mut results = ScanResults::default();
    results.proc_readdir.insert(10);
    results.ps_cmds.insert(11, "ghost".to_string());
    let report = analyze_results(&results, own_pid());
    assert_eq!(report.total_scanned, 2);
    assert_eq!(report.hidden_processes.len(), 0);
}

#[test]
fn test_each_flagged_pid_reported_once() {
    let mut results = ScanResults::default();
    for pid in 100..140 {
        results.syscalls.insert(pid);
        results.proc_direct.insert(pid);
        if pid % 2 == 0 {
            results.proc_readdir.insert(pid);
            results.ps_cmds.insert(pid, format!("p{}", pid));
        }
    }
    let report = analyze_results(&results, own_pid());
    assert_eq!(report.total_scanned, 40);
    let mut pids: Vec<i32> = report.hidden_processes.iter().map(|f| f.pid).collect();
    pids.sort();
    let expected: Vec<i32> = (100..140).filter(|p| p % 2 == 1).collect();
    assert_eq!(pids, expected);
}

#[test]
fn test_detail_uses_trimmed_comm() {
    let mut results = ScanResults::default();
    results.syscalls.insert(55);
    let mut report = analyze_results(&results, own_pid());
    let finding = report.hidden_processes.remove(0);
    let detail = HiddenProcessDetail::from_finding(finding, Some("  evil\n".to_string()), sample_audit());
    assert_eq!(detail.pid, 55);
    assert_eq!(detail.name, "evil");
    assert_eq!(detail.audit, sample_audit());
    assert_eq!(detail.hidden_from, vec!["proc_readdir", "proc_direct", "ps"]);
}

#[test]
fn test_detail_unknown_when_comm_unreadable() {
    let mut results = ScanResults::default();
    results.syscalls.insert(56);
    let mut report = analyze_results(&results, own_pid());
    let finding = report.hidden_processes.remove(0);
    let detail = HiddenProcessDetail::from_finding(finding, None, sample_audit());
    assert_eq!(detail.name, "unknown");
}

#[test]
fn test_detail_keeps_known_name() {
    let mut results = ScanResults::default();
    results.proc_readdir.insert(57);
    results.syscalls.insert(57);
    let mut lkm = HashMap::new();
    lkm.insert(57, "hidden_d".to_string());
    results.lkm = Some(lkm);
    let mut report = analyze_results(&results, own_pid());
    let finding = report.hidden_processes.remove(0);
    let detail = HiddenProcessDetail::from_finding(finding, Some("other".to_string()), sample_audit());
    assert_eq!(detail.name, "hidden_d");
}

#[test]
fn test_audit_records_procfs_outcomes() {
    let probes = ProcfsProbes {
        stat_proc_dir: Ok(()),
        open_status: Err("Permission denied (os error 13)".to_string()),
        readlink_exe: Ok(()),
        readdir_task: Err("No such file or directory (os error 2)".to_string()),
    };
    // PID 1 always exists: the syscalls see it (directly or through EPERM).
    let report = basset_hound::audit::audit_process(
        1,
        basset_hound::audit::SyscallOutcome::Failed(3),
        probes,
    );
    assert_eq!(report.stat_proc_dir, Ok(true));
    assert_eq!(report.open_status, Err("Permission denied (os error 13)".to_string()));
    assert_eq!(report.readlink_exe, Ok(true));
    assert_eq!(report.readdir_task, Err("No such file or directory (os error 2)".to_string()));
    assert_eq!(report.sched_getscheduler, Err("ESRCH: No such process".to_string()));
    assert_eq!(report.kill_zero, Ok(true));
    assert_eq!(report.getpgid, Ok(true));
    assert_eq!(report.getsid, Ok(true));
    assert_eq!(report.clone(), report);
}

#[test]
fn test_process_map_sorted_with_names() {
    let mut results = ScanResults::default();
    for pid in [300, 2, 45, 1, 1000] {
        results.proc_readdir.insert(pid);
    }
    results.ps_cmds.insert(45, "cron".to_string());
    results.ps_cmds.insert(1, "systemd".to_string());
    results.ps_cmds.insert(77, "not listed".to_string());
    let map = process_map(&results);
    let expected: Vec<(i32, String)> = vec![
        (1, "systemd".to_string()),
        (2, "unknown".to_string()),
        (45, "cron".to_string()),
        (300, "unknown".to_string()),
        (1000, "unknown".to_string()),
    ];
    assert_eq!(map, expected);
}

#[test]
fn test_complete_report_pairs_each_finding_with_its_evidence() {
    let mut results = ScanResults::default();
    results.syscalls.insert(60);
    results.syscalls.insert(61);
    let mut lkm = HashMap::new();
    lkm.insert(61, "rk".to_string());
    results.lkm = Some(lkm);
    let analysis = analyze_results(&results, own_pid());
    let pids: Vec<i32> = analysis.hidden_processes.iter().map(|f| f.pid).collect();
    let evidence: Vec<ProcessEvidence> = pids
        .iter()
        .map(|&pid| {
            let mut audit = sample_audit();
            audit.kill_zero = Err(format!("marker {}", pid));
            ProcessEvidence { comm: Some(format!(" comm{} ", pid)), audit }
        })
        .collect();
    let report = complete_report(analysis, evidence);
    assert_eq!(report.total_scanned, 2);
    assert_eq!(report.hidden_processes.len(), 2);
    for d in &report.hidden_processes {
        assert_eq!(d.audit.kill_zero, Err(format!("marker {}", d.pid)));
        if d.pid == 61 {
            assert_eq!(d.name, "rk");
        } else {
            // The module was queried and lacks PID 60.
            assert_eq!(d.name, "unknown");
        }
    }
}
