//! Probing a PID through process syscalls, and the deep audit of a flagged
//! PID.  The `kill`, `getpgid` and `getsid` probes go through `nix`; the
//! scheduler-policy probe and the procfs probes are made by the caller and
//! handed in as outcomes.
use vstd::prelude::*;
use nix::errno::Errno;
use nix::sys::signal::kill;
use nix::unistd::{getpgid, getsid, Pid};

verus! {

/// What a probing syscall on a PID returned: success, `EPERM` (the process
/// exists but may not be touched), or another errno.
#[derive(Clone, Copy, Debug, PartialEq, Eq, Structural)]
pub enum SyscallOutcome {
    Succeeded,
    PermissionDenied,
    Failed(i32),
}

/// The errno code of `EPERM`.
pub const EPERM_CODE: i32 = 1;

/// A probe outcome shows that the process exists: the call succeeded or was
/// refused with `EPERM` (however that errno is given).
pub open spec fn shows_presence(o: SyscallOutcome) -> bool {
    match o {
        SyscallOutcome::Succeeded => true,
        SyscallOutcome::PermissionDenied => true,
        SyscallOutcome::Failed(code) => code == EPERM_CODE,
    }
}

/// Whether a probe outcome shows that the process exists.
pub fn presence(o: SyscallOutcome) -> (b: bool)
    ensures
        b == shows_presence(o),
{
    match o {
        SyscallOutcome::Succeeded => true,
        SyscallOutcome::PermissionDenied => true,
        SyscallOutcome::Failed(code) => code == EPERM_CODE,
    }
}

/// Holds when `o` is an outcome that `kill(pid, 0)` can give on this
/// machine.  The outcome depends on the processes that exist when the call
/// is made, so two calls on one PID may differ: this is a relation between
/// the PID and the outcome, not a function from the PID.
pub uninterp spec fn kill_answers(pid: i32, o: SyscallOutcome) -> bool;

/// Holds when `o` is an outcome that `getpgid(pid)` can give on this
/// machine; like `kill_answers`, a relation and not a function of `pid`.
pub uninterp spec fn getpgid_answers(pid: i32, o: SyscallOutcome) -> bool;

/// Holds when `o` is an outcome that `getsid(pid)` can give on this
/// machine; like `kill_answers`, a relation and not a function of `pid`.
pub uninterp spec fn getsid_answers(pid: i32, o: SyscallOutcome) -> bool;

/// `nix::sys::signal::kill(pid, None)`, the null signal.  The contract
/// claims only that the call was made on `pid`: the outcome is one that
/// `kill` answers for `pid`.  Which outcome that is depends on the processes
/// of the machine and is left unsaid.
#[verifier::external_body]
fn kill_probe(pid: i32) -> (o: SyscallOutcome)
    ensures
        kill_answers(pid, o),
{
    match kill(Pid::from_raw(pid), None) {
        Ok(_) => SyscallOutcome::Succeeded,
        Err(Errno::EPERM) => SyscallOutcome::PermissionDenied,
        Err(e) => SyscallOutcome::Failed(e as i32),
    }
}

/// `nix::unistd::getpgid(Some(pid))`.  The contract claims only that the
/// outcome is one that `getpgid` answers for `pid`; which one depends on the
/// processes of the machine and is left unsaid.
#[verifier::external_body]
fn getpgid_probe(pid: i32) -> (o: SyscallOutcome)
    ensures
        getpgid_answers(pid, o),
{
    match getpgid(Some(Pid::from_raw(pid))) {
        Ok(_) => SyscallOutcome::Succeeded,
        Err(Errno::EPERM) => SyscallOutcome::PermissionDenied,
        Err(e) => SyscallOutcome::Failed(e as i32),
    }
}

/// `nix::unistd::getsid(Some(pid))`.  The contract claims only that the
/// outcome is one that `getsid` answers for `pid`; which one depends on the
/// processes of the machine and is left unsaid.
#[verifier::external_body]
fn getsid_probe(pid: i32) -> (o: SyscallOutcome)
    ensures
        getsid_answers(pid, o),
{
    match getsid(Some(Pid::from_raw(pid))) {
        Ok(_) => SyscallOutcome::Succeeded,
        Err(Errno::EPERM) => SyscallOutcome::PermissionDenied,
        Err(e) => SyscallOutcome::Failed(e as i32),
    }
}

/// The text of `nix::errno::Errno::from_raw(code).to_string()`, which is
/// the errno's name and description (`"ESRCH: No such process"`); it
/// depends on `code` alone.
pub uninterp spec fn errno_message(code: i32) -> Seq<char>;

/// `Errno::from_raw(code)` formatted with its `Display` impl.  The result
/// is claimed to be `errno_message(code)` and nothing more.
#[verifier::external_body]
fn errno_text(code: i32) -> (s: String)
    ensures
        s@ == errno_message(code),
{
    Errno::from_raw(code).to_string()
}

/// Whether the process exists by four probe outcomes: it does when any of
/// them shows it.
pub fn presence_verdict(
    kill: SyscallOutcome,
    getpgid: SyscallOutcome,
    getsid: SyscallOutcome,
    sched: SyscallOutcome,
) -> (found: bool)
    ensures
        found == presence_verdict_spec(kill, getpgid, getsid, sched),
{
    presence(kill) || presence(getpgid) || presence(getsid) || presence(sched)
}

/// The probes that `probe_pid_syscalls` made and what it concluded.  A probe
/// is `None` when it was not made because an earlier one already showed the
/// process.
#[derive(Clone, Copy, Debug, PartialEq, Eq, Structural)]
pub struct SyscallProbeReport {
    pub found: bool,
    pub kill_zero: SyscallOutcome,
    pub getpgid: Option<SyscallOutcome>,
    pub getsid: Option<SyscallOutcome>,
}

/// An optional probe outcome shows the process.
pub open spec fn made_and_shows(o: Option<SyscallOutcome>) -> bool {
    o matches Some(o) && shows_presence(o)
}

/// The probes were made in order, each only while no earlier one showed the
/// process, and the conclusion is that some probe made, or the scheduler
/// outcome, shows the process.
pub open spec fn probe_report_valid(r: SyscallProbeReport, sched: SyscallOutcome) -> bool {
    &&& (r.getpgid is Some <==> !shows_presence(r.kill_zero))
    &&& (r.getsid is Some <==> (r.getpgid matches Some(g) && !shows_presence(g)))
    &&& r.found == (shows_presence(r.kill_zero) || made_and_shows(r.getpgid) || made_and_shows(
        r.getsid,
    ) || shows_presence(sched))
}

/// Probes `pid` with non-destructive syscalls in the order `kill(pid, 0)`,
/// `getpgid`, `getsid`, stopping at the first that shows the process to
/// exist (success or `EPERM`); when none does, the verdict is that of all
/// four outcomes, the last being `sched_getscheduler(pid)`, which the caller
/// has made.  The result records each probe's outcome and whether the
/// process was found: it was exactly when one of those outcomes, or the
/// scheduler outcome, shows it.
pub fn probe_pid_syscalls(pid: i32, sched_outcome: SyscallOutcome) -> (report: SyscallProbeReport)
    ensures
        probe_report_valid(report, sched_outcome),
        kill_answers(pid, report.kill_zero),
        report.getpgid matches Some(g) ==> getpgid_answers(pid, g),
        report.getsid matches Some(s) ==> getsid_answers(pid, s),
        report.getsid matches Some(s) ==> report.found == presence_verdict_spec(
            report.kill_zero,
            report.getpgid->0,
            s,
            sched_outcome,
        ),
{
    let kill_zero = kill_probe(pid);
    if presence(kill_zero) {
        return SyscallProbeReport { found: true, kill_zero, getpgid: None, getsid: None };
    }
    let getpgid = getpgid_probe(pid);
    if presence(getpgid) {
        return SyscallProbeReport { found: true, kill_zero, getpgid: Some(getpgid), getsid: None };
    }
    let getsid = getsid_probe(pid);
    let found = presence_verdict(kill_zero, getpgid, getsid, sched_outcome);
    SyscallProbeReport { found, kill_zero, getpgid: Some(getpgid), getsid: Some(getsid) }
}

/// Whether any of four probe outcomes shows the process.
pub open spec fn presence_verdict_spec(
    kill: SyscallOutcome,
    getpgid: SyscallOutcome,
    getsid: SyscallOutcome,
    sched: SyscallOutcome,
) -> bool {
    shows_presence(kill) || shows_presence(getpgid) || shows_presence(getsid) || shows_presence(
        sched,
    )
}

/// The verdict over four probe outcomes agrees with the deep audit of the
/// same outcomes: the process is found exactly when some audit entry is
/// `Ok`.
pub proof fn lemma_verdict_agrees_with_audit(
    kill: SyscallOutcome,
    getpgid: SyscallOutcome,
    getsid: SyscallOutcome,
    sched: SyscallOutcome,
)
    ensures
        presence_verdict_spec(kill, getpgid, getsid, sched) == (audit_entry(kill) is Ok
            || audit_entry(getpgid) is Ok || audit_entry(getsid) is Ok || audit_entry(sched) is Ok),
{
}

/// The audit entry of a syscall probe: visible (`Ok(true)`) when it shows
/// the process, else the errno's text.
pub open spec fn audit_entry(o: SyscallOutcome) -> Result<bool, Seq<char>> {
    match o {
        SyscallOutcome::Failed(code) => if code == EPERM_CODE {
            Ok(true)
        } else {
            Err(errno_message(code))
        },
        _ => Ok(true),
    }
}

/// The audit entry of a procfs probe: visible when the file operation
/// succeeded, else the error text.
pub open spec fn procfs_entry(r: Result<(), Seq<char>>) -> Result<bool, Seq<char>> {
    match r {
        Ok(()) => Ok(true),
        Err(m) => Err(m),
    }
}

/// An audit entry as a value over character sequences.
pub open spec fn entry_view(e: Result<bool, String>) -> Result<bool, Seq<char>> {
    match e {
        Ok(b) => Ok(b),
        Err(m) => Err(m@),
    }
}

/// A procfs outcome as a value over character sequences.
pub open spec fn outcome_view(r: Result<(), String>) -> Result<(), Seq<char>> {
    match r {
        Ok(()) => Ok(()),
        Err(m) => Err(m@),
    }
}

/// Converts a syscall probe outcome into an audit entry.
pub fn syscall_entry(o: SyscallOutcome) -> (e: Result<bool, String>)
    ensures
        entry_view(e) == audit_entry(o),
{
    match o {
        SyscallOutcome::Succeeded => Ok(true),
        SyscallOutcome::PermissionDenied => Ok(true),
        SyscallOutcome::Failed(code) => if code == EPERM_CODE {
            Ok(true)
        } else {
            Err(errno_text(code))
        },
    }
}

/// Converts a procfs probe outcome into an audit entry.
pub fn procfs_audit_entry(r: Result<(), String>) -> (e: Result<bool, String>)
    ensures
        entry_view(e) == procfs_entry(outcome_view(r)),
{
    match r {
        Ok(()) => Ok(true),
        Err(m) => Err(m),
    }
}

/// The outcomes of the file operations on `/proc/<pid>` that the caller
/// made: `stat` of the directory, `open` of `status`, `readlink` of `exe`
/// and `readdir` of `task`; an error carries its text.
pub struct ProcfsProbes {
    pub stat_proc_dir: Result<(), String>,
    pub open_status: Result<(), String>,
    pub readlink_exe: Result<(), String>,
    pub readdir_task: Result<(), String>,
}

/// How a flagged PID answers each process and filesystem API: `Ok(true)`
/// when the API shows it, else the error text.
#[derive(Debug, PartialEq)]
pub struct SyscallAuditReport {
    pub kill_zero: Result<bool, String>,
    pub getpgid: Result<bool, String>,
    pub getsid: Result<bool, String>,
    pub sched_getscheduler: Result<bool, String>,
    pub stat_proc_dir: Result<bool, String>,
    pub open_status: Result<bool, String>,
    pub readlink_exe: Result<bool, String>,
    pub readdir_task: Result<bool, String>,
}

/// A copy of an audit entry.
fn clone_entry(e: &Result<bool, String>) -> (c: Result<bool, String>)
    ensures
        c == *e,
{
    match e {
        Ok(b) => Ok(*b),
        Err(m) => Err(m.clone()),
    }
}

impl Clone for SyscallAuditReport {
    fn clone(&self) -> (c: SyscallAuditReport)
        ensures
            c == *self,
    {
        SyscallAuditReport {
            kill_zero: clone_entry(&self.kill_zero),
            getpgid: clone_entry(&self.getpgid),
            getsid: clone_entry(&self.getsid),
            sched_getscheduler: clone_entry(&self.sched_getscheduler),
            stat_proc_dir: clone_entry(&self.stat_proc_dir),
            open_status: clone_entry(&self.open_status),
            readlink_exe: clone_entry(&self.readlink_exe),
            readdir_task: clone_entry(&self.readdir_task),
        }
    }
}

/// Audits a flagged PID: probes it with `kill(pid, 0)`, `getpgid` and
/// `getsid`, and records those together with the `sched_getscheduler`
/// outcome and the procfs outcomes that the caller made.  A syscall that
/// shows the process (success or `EPERM`) is recorded as `Ok(true)`, any
/// other errno as its text; a procfs operation as `Ok(true)` or its error
/// text.
pub fn audit_process(pid: i32, sched_outcome: SyscallOutcome, procfs: ProcfsProbes) -> (report:
    SyscallAuditReport)
    ensures
        exists|o: SyscallOutcome|
            kill_answers(pid, o) && entry_view(report.kill_zero) == audit_entry(o),
        exists|o: SyscallOutcome|
            getpgid_answers(pid, o) && entry_view(report.getpgid) == audit_entry(o),
        exists|o: SyscallOutcome|
            getsid_answers(pid, o) && entry_view(report.getsid) == audit_entry(o),
        entry_view(report.sched_getscheduler) == audit_entry(sched_outcome),
        entry_view(report.stat_proc_dir) == procfs_entry(outcome_view(procfs.stat_proc_dir)),
        entry_view(report.open_status) == procfs_entry(outcome_view(procfs.open_status)),
        entry_view(report.readlink_exe) == procfs_entry(outcome_view(procfs.readlink_exe)),
        entry_view(report.readdir_task) == procfs_entry(outcome_view(procfs.readdir_task)),
{
    let kill_outcome = kill_probe(pid);
    let kill_zero = syscall_entry(kill_outcome);
    let getpgid_outcome = getpgid_probe(pid);
    let getpgid_res = syscall_entry(getpgid_outcome);
    let getsid_outcome = getsid_probe(pid);
    let getsid_res = syscall_entry(getsid_outcome);
    assert(audit_entry(kill_outcome) == entry_view(kill_zero));
    assert(audit_entry(getpgid_outcome) == entry_view(getpgid_res));
    assert(audit_entry(getsid_outcome) == entry_view(getsid_res));
    SyscallAuditReport {
        kill_zero,
        getpgid: getpgid_res,
        getsid: getsid_res,
        sched_getscheduler: syscall_entry(sched_outcome),
        stat_proc_dir: procfs_audit_entry(procfs.stat_proc_dir),
        open_status: procfs_audit_entry(procfs.open_status),
        readlink_exe: procfs_audit_entry(procfs.readlink_exe),
        readdir_task: procfs_audit_entry(procfs.readdir_task),
    }
}

} // verus!
