//! Discrepancy analysis: which PIDs each source of truth sees, which of them
//! look hidden, and how each hidden one is described.
use vstd::prelude::*;
use std::collections::HashMap;
use std::collections::HashSet;
use vstd::std_specs::iter::IteratorSpec;
use crate::audit::SyscallAuditReport;
use crate::text::{trim, trim_str};

verus! {

broadcast use vstd::std_specs::hash::group_hash_axioms, vstd::string::group_string_axioms;

/// The PIDs (and, where the source gives them, names) that each source of
/// truth reported.  `lkm` and `ebpf` are `None` when that source was not
/// queried or could not be read.
pub struct ScanResults {
    pub proc_readdir: HashSet<i32>,
    pub proc_direct: HashSet<i32>,
    pub syscalls: HashSet<i32>,
    pub ps_cmds: HashMap<i32, String>,
    pub lkm: Option<HashMap<i32, String>>,
    pub ebpf: Option<HashMap<i32, String>>,
}

impl Default for ScanResults {
    fn default() -> (r: ScanResults)
        ensures
            r.proc_readdir@ == Set::<i32>::empty(),
            r.proc_direct@ == Set::<i32>::empty(),
            r.syscalls@ == Set::<i32>::empty(),
            r.ps_cmds@ == Map::<i32, String>::empty(),
            r.lkm is None,
            r.ebpf is None,
    {
        ScanResults {
            proc_readdir: HashSet::new(),
            proc_direct: HashSet::new(),
            syscalls: HashSet::new(),
            ps_cmds: HashMap::new(),
            lkm: None,
            ebpf: None,
        }
    }
}

/// The PIDs of an optional source; none when the source is absent.
pub open spec fn optional_pids(m: Option<HashMap<i32, String>>) -> Set<i32> {
    match m {
        Some(m) => m@.dom(),
        None => Set::empty(),
    }
}

/// An optional source is present and lists `pid`.
pub open spec fn optional_has(m: Option<HashMap<i32, String>>, pid: i32) -> bool {
    m matches Some(m) && m@.contains_key(pid)
}

impl ScanResults {
    /// The `/proc` directory listing shows `pid`.
    pub open spec fn in_readdir(&self, pid: i32) -> bool {
        self.proc_readdir@.contains(pid)
    }

    /// A direct probe of `/proc/<pid>` found `pid`.
    pub open spec fn in_direct(&self, pid: i32) -> bool {
        self.proc_direct@.contains(pid)
    }

    /// The syscall brute force found `pid`.
    pub open spec fn in_syscalls(&self, pid: i32) -> bool {
        self.syscalls@.contains(pid)
    }

    /// `ps` lists `pid`.
    pub open spec fn in_ps(&self, pid: i32) -> bool {
        self.ps_cmds@.contains_key(pid)
    }

    /// The kernel module was queried and lists `pid`.
    pub open spec fn in_lkm(&self, pid: i32) -> bool {
        optional_has(self.lkm, pid)
    }

    /// The eBPF iterator was queried and lists `pid`.
    pub open spec fn in_ebpf(&self, pid: i32) -> bool {
        optional_has(self.ebpf, pid)
    }

    /// Every PID that any source reported.
    pub open spec fn all_pids(&self) -> Set<i32> {
        self.proc_readdir@.union(self.proc_direct@).union(self.syscalls@).union(
            self.ps_cmds@.dom(),
        ).union(optional_pids(self.lkm)).union(optional_pids(self.ebpf))
    }

    /// Seen by a low-level source: a direct `/proc/<pid>` probe, the syscall
    /// brute force, the kernel module or the eBPF iterator.
    pub open spec fn visible_low_level(&self, pid: i32) -> bool {
        self.in_direct(pid) || self.in_syscalls(pid) || self.in_lkm(pid) || self.in_ebpf(pid)
    }

    /// Missing from the `/proc` listing or from `ps`.
    pub open spec fn hidden_high_level(&self, pid: i32) -> bool {
        !self.in_readdir(pid) || !self.in_ps(pid)
    }

    /// A PID is flagged as hidden when a low-level source sees it but the
    /// `/proc` listing or `ps` does not.
    pub open spec fn is_flagged(&self, pid: i32) -> bool {
        self.visible_low_level(pid) && self.hidden_high_level(pid)
    }

    /// The PIDs that the analysis reports, leaving out the scanner's own.
    pub open spec fn flagged_pids(&self, self_pid: i32) -> Set<i32> {
        Set::new(|pid: i32| pid != self_pid && self.is_flagged(pid))
    }

    /// The sources that see `pid`, in the order `proc_readdir`,
    /// `proc_direct`, `syscalls`, `ps`, then `lkm` and `ebpf` when present.
    pub open spec fn detected_by(&self, pid: i32) -> Seq<Seq<char>> {
        label_if(self.in_readdir(pid), "proc_readdir"@) + label_if(
            self.in_direct(pid),
            "proc_direct"@,
        ) + label_if(self.in_syscalls(pid), "syscalls"@) + label_if(self.in_ps(pid), "ps"@)
            + label_if(self.lkm is Some && self.in_lkm(pid), "lkm"@) + label_if(
            self.ebpf is Some && self.in_ebpf(pid),
            "ebpf"@,
        )
    }

    /// The sources that were queried but do not see `pid`, in the same order.
    pub open spec fn hidden_from(&self, pid: i32) -> Seq<Seq<char>> {
        label_if(!self.in_readdir(pid), "proc_readdir"@) + label_if(
            !self.in_direct(pid),
            "proc_direct"@,
        ) + label_if(!self.in_syscalls(pid), "syscalls"@) + label_if(!self.in_ps(pid), "ps"@)
            + label_if(self.lkm is Some && !self.in_lkm(pid), "lkm"@) + label_if(
            self.ebpf is Some && !self.in_ebpf(pid),
            "ebpf"@,
        )
    }

    /// The diagnosis of a flagged PID.
    pub open spec fn description(&self, pid: i32) -> Seq<char> {
        if !self.in_readdir(pid) && !self.in_ps(pid) && (self.in_syscalls(pid) || self.in_direct(
            pid,
        )) {
            kernel_hiding_text()
        } else if self.in_readdir(pid) && !self.in_ps(pid) {
            userland_hijack_text()
        } else if !self.in_readdir(pid) && !self.in_syscalls(pid) && (self.in_lkm(pid)
            || self.in_ebpf(pid)) {
            kernel_traversal_text()
        } else {
            inconsistent_text()
        }
    }

    /// The name of a flagged PID as far as the sources give it: from the
    /// kernel module when it was queried (`unknown` if it lacks the PID),
    /// else from the eBPF iterator likewise, else from `ps`; `None` means
    /// that the name must be read from `/proc/<pid>/comm`.
    pub open spec fn known_name(&self, pid: i32) -> Option<Seq<char>> {
        match self.lkm {
            Some(m) => Some(name_or_unknown(m@, pid)),
            None => match self.ebpf {
                Some(m) => Some(name_or_unknown(m@, pid)),
                None => if self.ps_cmds@.contains_key(pid) {
                    Some(self.ps_cmds@[pid]@)
                } else {
                    None
                },
            },
        }
    }
}

/// A one-label sequence when `cond` holds, else the empty sequence.
pub open spec fn label_if(cond: bool, label: Seq<char>) -> Seq<Seq<char>> {
    if cond {
        seq![label]
    } else {
        seq![]
    }
}

/// The name a table gives `pid`, or `unknown`.
pub open spec fn name_or_unknown(m: Map<i32, String>, pid: i32) -> Seq<char> {
    if m.contains_key(pid) {
        m[pid]@
    } else {
        unknown_text()
    }
}

/// Diagnosis: hidden from both `/proc` listing and `ps` but answering probes.
pub open spec fn kernel_hiding_text() -> Seq<char> {
    "Kernel-level process hiding detected (getdents hook / rootkit)"@
}

/// Diagnosis: listed in `/proc` but missing from `ps`.
pub open spec fn userland_hijack_text() -> Seq<char> {
    "Userland utility hijack detected (ps binary modified or LD_PRELOAD hook)"@
}

/// Diagnosis: seen only by walking the kernel's task list.
pub open spec fn kernel_traversal_text() -> Seq<char> {
    "Sophisticated kernel rootkit hiding from standard syscalls but found via kernel traversal"@
}

/// Diagnosis for every other flagged pattern.
pub open spec fn inconsistent_text() -> Seq<char> {
    "Inconsistent process visibility across APIs"@
}

/// The name used when no source gives one.
pub open spec fn unknown_text() -> Seq<char> {
    "unknown"@
}

/// Adds the members of `src` to `all`.
fn add_set(all: &mut HashSet<i32>, src: &HashSet<i32>)
    ensures
        final(all)@ == old(all)@.union(src@),
{
    let ghost start = all@;
    let ghost sq = src.iter().remaining();
    for p in it: src.iter()
        invariant
            it.seq() == sq,
            sq.unref().to_set() == src@,
            start.subset_of(all@),
            all@.subset_of(start.union(src@)),
            forall|j: int| 0 <= j < it.index() ==> all@.contains(*#[trigger] sq[j]),
    {
        all.insert(*p);
    }
    assert forall|x: i32| src@.contains(x) implies all@.contains(x) by {
        assert(sq.unref().to_set().contains(x));
        let j = choose|j: int| 0 <= j < sq.unref().len() && sq.unref()[j] == x;
        assert(*sq[j] == x);
    }
    assert(all@ =~= start.union(src@));
}

/// Adds the PIDs of `src` to `all`.
fn add_keys(all: &mut HashSet<i32>, src: &HashMap<i32, String>)
    ensures
        final(all)@ == old(all)@.union(src@.dom()),
{
    let ghost start = all@;
    let ghost sq = src.keys().remaining();
    for p in it: src.keys()
        invariant
            it.seq() == sq,
            sq.unref().to_set() == src@.dom(),
            start.subset_of(all@),
            all@.subset_of(start.union(src@.dom())),
            forall|j: int| 0 <= j < it.index() ==> all@.contains(*#[trigger] sq[j]),
    {
        all.insert(*p);
    }
    assert forall|x: i32| src@.dom().contains(x) implies all@.contains(x) by {
        assert(sq.unref().to_set().contains(x));
        let j = choose|j: int| 0 <= j < sq.unref().len() && sq.unref()[j] == x;
        assert(*sq[j] == x);
    }
    assert(all@ =~= start.union(src@.dom()));
}

/// The names of a list of labels.
pub open spec fn labels_view(v: Seq<String>) -> Seq<Seq<char>> {
    v.map_values(|s: String| s@)
}

/// An optional string as an optional character sequence.
pub open spec fn opt_view(o: Option<String>) -> Option<Seq<char>> {
    match o {
        Some(s) => Some(s@),
        None => None,
    }
}

/// A PID that the analysis flags, with what the sources say about it.
/// `name` is `None` when no source names the PID and the name has to be
/// read from `/proc/<pid>/comm`.
pub struct HiddenProcessFinding {
    pub pid: i32,
    pub name: Option<String>,
    pub detected_by: Vec<String>,
    pub hidden_from: Vec<String>,
    pub description: String,
}

impl HiddenProcessFinding {
    /// This finding is exactly what the scan results say about `pid`.
    pub open spec fn describes(&self, r: &ScanResults, pid: i32) -> bool {
        &&& self.pid == pid
        &&& opt_view(self.name) == r.known_name(pid)
        &&& labels_view(self.detected_by@) == r.detected_by(pid)
        &&& labels_view(self.hidden_from@) == r.hidden_from(pid)
        &&& self.description@ == r.description(pid)
    }
}

/// The result of the discrepancy analysis: the flagged PIDs, in the order
/// in which the set of all PIDs was walked, and how many distinct PIDs the
/// sources reported together.
pub struct ScanAnalysis {
    pub hidden_processes: Vec<HiddenProcessFinding>,
    pub total_scanned: usize,
}

/// The PIDs of a list of findings.
pub open spec fn finding_pids(v: Seq<HiddenProcessFinding>) -> Seq<i32> {
    v.map_values(|f: HiddenProcessFinding| f.pid)
}

fn push_label(v: &mut Vec<String>, label: &str)
    ensures
        labels_view(final(v)@) == labels_view(old(v)@).push(label@),
{
    v.push(label.to_string());
    assert(labels_view(v@) =~= labels_view(old(v)@).push(label@));
}

/// Whether an optional source lists `pid`.
fn optional_contains(m: &Option<HashMap<i32, String>>, pid: i32) -> (b: bool)
    ensures
        b == optional_has(*m, pid),
{
    match m {
        Some(m) => m.contains_key(&pid),
        None => false,
    }
}

/// The name a table gives `pid`, or `unknown`.
fn lookup_name(m: &HashMap<i32, String>, pid: i32) -> (n: String)
    ensures
        n@ == name_or_unknown(m@, pid),
{
    match m.get(&pid) {
        Some(n) => n.clone(),
        None => "unknown".to_string(),
    }
}

/// Appends `label` to `detected` when the source saw the PID, else to
/// `hidden`.
fn sort_label(detected: &mut Vec<String>, hidden: &mut Vec<String>, seen: bool, label: &str)
    ensures
        labels_view(final(detected)@) == labels_view(old(detected)@) + label_if(seen, label@),
        labels_view(final(hidden)@) == labels_view(old(hidden)@) + label_if(!seen, label@),
{
    if seen {
        push_label(detected, label);
        assert(labels_view(hidden@) =~= labels_view(old(hidden)@) + label_if(!seen, label@));
        assert(labels_view(detected@) =~= labels_view(old(detected)@) + label_if(seen, label@));
    } else {
        push_label(hidden, label);
        assert(labels_view(hidden@) =~= labels_view(old(hidden)@) + label_if(!seen, label@));
        assert(labels_view(detected@) =~= labels_view(old(detected)@) + label_if(seen, label@));
    }
}

/// The sources that see `pid` and those that do not.
fn sources_for(r: &ScanResults, pid: i32) -> (lists: (Vec<String>, Vec<String>))
    ensures
        labels_view(lists.0@) == r.detected_by(pid),
        labels_view(lists.1@) == r.hidden_from(pid),
{
    let mut detected: Vec<String> = Vec::new();
    let mut hidden: Vec<String> = Vec::new();
    assert(labels_view(detected@) =~= seq![]);
    assert(labels_view(hidden@) =~= seq![]);
    sort_label(&mut detected, &mut hidden, r.proc_readdir.contains(&pid), "proc_readdir");
    sort_label(&mut detected, &mut hidden, r.proc_direct.contains(&pid), "proc_direct");
    sort_label(&mut detected, &mut hidden, r.syscalls.contains(&pid), "syscalls");
    sort_label(&mut detected, &mut hidden, r.ps_cmds.contains_key(&pid), "ps");
    let ghost d4 = labels_view(detected@);
    let ghost h4 = labels_view(hidden@);
    match &r.lkm {
        Some(m) => {
            sort_label(&mut detected, &mut hidden, m.contains_key(&pid), "lkm");
        },
        None => {
            assert(labels_view(detected@) =~= d4 + label_if(false, "lkm"@));
            assert(labels_view(hidden@) =~= h4 + label_if(false, "lkm"@));
        },
    }
    let ghost d5 = labels_view(detected@);
    let ghost h5 = labels_view(hidden@);
    match &r.ebpf {
        Some(m) => {
            sort_label(&mut detected, &mut hidden, m.contains_key(&pid), "ebpf");
        },
        None => {
            assert(labels_view(detected@) =~= d5 + label_if(false, "ebpf"@));
            assert(labels_view(hidden@) =~= h5 + label_if(false, "ebpf"@));
        },
    }
    (detected, hidden)
}

/// The diagnosis of `pid`.
fn description_for(r: &ScanResults, pid: i32) -> (d: String)
    ensures
        d@ == r.description(pid),
{
    let in_readdir = r.proc_readdir.contains(&pid);
    let in_direct = r.proc_direct.contains(&pid);
    let in_syscalls = r.syscalls.contains(&pid);
    let in_ps = r.ps_cmds.contains_key(&pid);
    let in_lkm = optional_contains(&r.lkm, pid);
    let in_ebpf = optional_contains(&r.ebpf, pid);
    if !in_readdir && !in_ps && (in_syscalls || in_direct) {
        "Kernel-level process hiding detected (getdents hook / rootkit)".to_string()
    } else if in_readdir && !in_ps {
        "Userland utility hijack detected (ps binary modified or LD_PRELOAD hook)".to_string()
    } else if !in_readdir && !in_syscalls && (in_lkm || in_ebpf) {
        "Sophisticated kernel rootkit hiding from standard syscalls but found via kernel traversal".to_string()
    } else {
        "Inconsistent process visibility across APIs".to_string()
    }
}

/// The name the sources give `pid`, if any does (see `known_name`).
fn name_for(r: &ScanResults, pid: i32) -> (n: Option<String>)
    ensures
        opt_view(n) == r.known_name(pid),
{
    match &r.lkm {
        Some(m) => Some(lookup_name(m, pid)),
        None => match &r.ebpf {
            Some(m) => Some(lookup_name(m, pid)),
            None => match r.ps_cmds.get(&pid) {
                Some(n) => Some(n.clone()),
                None => None,
            },
        },
    }
}

/// A PID missing from the `/proc` listing or `ps` is hidden from at least
/// one source.
pub proof fn lemma_hidden_from_nonempty(r: &ScanResults, pid: i32)
    requires
        r.hidden_high_level(pid),
    ensures
        r.hidden_from(pid).len() > 0,
{
    let a = label_if(!r.in_readdir(pid), "proc_readdir"@);
    let b = label_if(!r.in_direct(pid), "proc_direct"@);
    let c = label_if(!r.in_syscalls(pid), "syscalls"@);
    let d = label_if(!r.in_ps(pid), "ps"@);
    assert((a + b + c + d).len() > 0);
}

/// Classifies one PID: `Some` with its description exactly when it is
/// flagged.
fn examine_pid(r: &ScanResults, pid: i32) -> (f: Option<HiddenProcessFinding>)
    ensures
        f is Some <==> r.is_flagged(pid),
        f matches Some(f) ==> f.describes(r, pid),
{
    let (detected_by, hidden_from) = sources_for(r, pid);
    let in_readdir = r.proc_readdir.contains(&pid);
    let in_ps = r.ps_cmds.contains_key(&pid);
    let visible_in_low_level = r.proc_direct.contains(&pid) || r.syscalls.contains(&pid)
        || optional_contains(&r.lkm, pid) || optional_contains(&r.ebpf, pid);
    // Flagged when seen at a low level but missing from `/proc` or `ps`.
    let is_hidden = if hidden_from.len() == 0 {
        false
    } else {
        let hidden_in_high_level = !in_readdir || !in_ps;
        visible_in_low_level && hidden_in_high_level
    };
    proof {
        if r.hidden_high_level(pid) {
            lemma_hidden_from_nonempty(r, pid);
        }
        assert(hidden_from@.len() == labels_view(hidden_from@).len());
    }
    if !is_hidden {
        return None;
    }
    let name = name_for(r, pid);
    let description = description_for(r, pid);
    Some(HiddenProcessFinding { pid, name, detected_by, hidden_from, description })
}

/// Cross-checks the sources.  A PID is reported exactly when a low-level
/// source (direct `/proc/<pid>` probe, syscall brute force, kernel module or
/// eBPF iterator) sees it while the `/proc` listing or `ps` does not, and it
/// is not the scanner's own PID `self_pid`; each PID is reported once, with
/// the sources that see and miss it, its diagnosis and the name the sources
/// give.  `total_scanned` counts the distinct PIDs of all sources together.
pub fn analyze_results(results: &ScanResults, self_pid: i32) -> (a: ScanAnalysis)
    ensures
        a.total_scanned == results.all_pids().len(),
        finding_pids(a.hidden_processes@).no_duplicates(),
        finding_pids(a.hidden_processes@).to_set() == results.flagged_pids(self_pid),
        forall|i: int|
            0 <= i < a.hidden_processes@.len() ==> (#[trigger] a.hidden_processes@[i]).describes(
                results,
                a.hidden_processes@[i].pid,
            ),
{
    // Union of all PIDs discovered across all sources.
    let mut all_pids: HashSet<i32> = HashSet::new();
    add_set(&mut all_pids, &results.proc_readdir);
    add_set(&mut all_pids, &results.proc_direct);
    add_set(&mut all_pids, &results.syscalls);
    add_keys(&mut all_pids, &results.ps_cmds);
    match &results.lkm {
        Some(m) => add_keys(&mut all_pids, m),
        None => {},
    }
    match &results.ebpf {
        Some(m) => add_keys(&mut all_pids, m),
        None => {},
    }
    assert(all_pids@ =~= results.all_pids());

    let mut hidden: Vec<HiddenProcessFinding> = Vec::new();
    // Position in the walk of the set at which each finding's PID came.
    let ghost mut origin: Seq<int> = seq![];
    let ghost sq = all_pids.iter().remaining();
    for p in it: all_pids.iter()
        invariant
            it.seq() == sq,
            sq.no_duplicates(),
            sq.unref().to_set() == all_pids@,
            origin.len() == hidden@.len(),
            forall|k: int|
                0 <= k < hidden@.len() ==> 0 <= #[trigger] origin[k] < it.index()
                    && hidden@[k].pid == *sq[origin[k]],
            forall|k1: int, k2: int|
                0 <= k1 < k2 < hidden@.len() ==> #[trigger] origin[k1] < #[trigger] origin[k2],
            forall|k: int|
                0 <= k < hidden@.len() ==> (#[trigger] hidden@[k]).pid != self_pid
                    && results.is_flagged(hidden@[k].pid) && hidden@[k].describes(
                    results,
                    hidden@[k].pid,
                ),
            forall|j: int|
                0 <= j < it.index() && *sq[j] != self_pid && results.is_flagged(*sq[j])
                    ==> finding_pids(hidden@).contains(*#[trigger] sq[j]),
    {
        let pid = *p;
        let ghost idx = it.index();
        assert(p == sq[idx]);
        let ghost old_hidden = hidden@;
        let ghost old_origin = origin;
        // The scanner's own PID is left out.
        if pid != self_pid {
            match examine_pid(results, pid) {
                Some(f) => {
                    hidden.push(f);
                    proof {
                        origin = origin.push(idx);
                    }
                },
                None => {},
            }
        }
        proof {
            assert forall|k: int| 0 <= k < old_hidden.len() implies hidden@[k] == old_hidden[k]
                && origin[k] == old_origin[k] by {}
            assert forall|j: int|
                0 <= j < idx + 1 && *sq[j] != self_pid && results.is_flagged(*sq[j])
                    implies finding_pids(hidden@).contains(*#[trigger] sq[j]) by {
                if j < idx {
                    let k = choose|k: int| 0 <= k < finding_pids(old_hidden).len() && finding_pids(old_hidden)[k] == *sq[j];
                    assert(finding_pids(hidden@)[k] == *sq[j]);
                } else {
                    assert(finding_pids(hidden@)[old_hidden.len() as int] == *sq[j]);
                }
            }
        }
    }
    let ghost pids = finding_pids(hidden@);
    assert forall|i: int, j: int| 0 <= i < pids.len() && 0 <= j < pids.len() && i != j implies pids[i] != pids[j] by {
        assert(pids[i] == *sq[origin[i]]);
        assert(pids[j] == *sq[origin[j]]);
        if i < j {
            assert(origin[i] < origin[j]);
        } else {
            assert(origin[j] < origin[i]);
        }
    }
    let total_scanned = all_pids.len();
    assert forall|x: i32| pids.to_set().contains(x) <==> results.flagged_pids(self_pid).contains(x) by {
        if pids.to_set().contains(x) {
            let k = choose|k: int| 0 <= k < pids.len() && pids[k] == x;
            assert(hidden@[k].pid == x);
            assert(results.is_flagged(hidden@[k].pid));
        }
        if results.flagged_pids(self_pid).contains(x) {
            assert(results.all_pids().contains(x));
            assert(sq.unref().to_set().contains(x));
            let j = choose|j: int| 0 <= j < sq.unref().len() && sq.unref()[j] == x;
            assert(*sq[j] == x);
            assert(pids.contains(*sq[j]));
        }
    }
    assert(pids.to_set() =~= results.flagged_pids(self_pid));
    ScanAnalysis { hidden_processes: hidden, total_scanned }
}

/// The name of a flagged PID: the one the sources give; else the trimmed
/// content of `/proc/<pid>/comm` when it could be read; else `unknown`.
pub open spec fn resolved_name(known: Option<Seq<char>>, comm: Option<Seq<char>>) -> Seq<char> {
    match known {
        Some(n) => n,
        None => match comm {
            Some(c) => trim(c),
            None => unknown_text(),
        },
    }
}

/// A hidden process as reported: the finding, its resolved name and the
/// deep syscall audit of its PID.
pub struct HiddenProcessDetail {
    pub pid: i32,
    pub name: String,
    pub detected_by: Vec<String>,
    pub hidden_from: Vec<String>,
    pub description: String,
    pub audit: SyscallAuditReport,
}

impl HiddenProcessDetail {
    /// Completes a finding with the content of `/proc/<pid>/comm` (`None`
    /// when it was not read or could not be) and the audit of its PID.
    pub fn from_finding(finding: HiddenProcessFinding, comm: Option<String>, audit: SyscallAuditReport) -> (d: HiddenProcessDetail)
        ensures
            d.pid == finding.pid,
            d.name@ == resolved_name(opt_view(finding.name), opt_view(comm)),
            d.detected_by@ == finding.detected_by@,
            d.hidden_from@ == finding.hidden_from@,
            d.description@ == finding.description@,
            d.audit == audit,
    {
        let name = match finding.name {
            Some(n) => n,
            None => match comm {
                Some(c) => trim_str(c.as_str()),
                None => "unknown".to_string(),
            },
        };
        HiddenProcessDetail {
            pid: finding.pid,
            name,
            detected_by: finding.detected_by,
            hidden_from: finding.hidden_from,
            description: finding.description,
            audit,
        }
    }
}

/// The final report: every hidden process with its details, and how many
/// distinct PIDs the sources reported together.
pub struct DetectionReport {
    pub hidden_processes: Vec<HiddenProcessDetail>,
    pub total_scanned: usize,
}

/// What the caller gathered about one flagged PID: the content of
/// `/proc/<pid>/comm` if it was read, and the deep audit of the PID.
pub struct ProcessEvidence {
    pub comm: Option<String>,
    pub audit: SyscallAuditReport,
}

/// The detail that a finding and its evidence make.
pub open spec fn detail_of(d: HiddenProcessDetail, f: HiddenProcessFinding, e: ProcessEvidence) -> bool {
    &&& d.pid == f.pid
    &&& d.name@ == resolved_name(opt_view(f.name), opt_view(e.comm))
    &&& d.detected_by@ == f.detected_by@
    &&& d.hidden_from@ == f.hidden_from@
    &&& d.description@ == f.description@
    &&& d.audit == e.audit
}

/// Completes the analysis: the `i`-th flagged process gets the `i`-th
/// evidence, its own audit and its resolved name, and the count of scanned
/// PIDs is kept.
pub fn complete_report(analysis: ScanAnalysis, evidence: Vec<ProcessEvidence>) -> (report: DetectionReport)
    requires
        evidence@.len() == analysis.hidden_processes@.len(),
    ensures
        report.total_scanned == analysis.total_scanned,
        report.hidden_processes@.len() == analysis.hidden_processes@.len(),
        forall|i: int|
            0 <= i < report.hidden_processes@.len() ==> detail_of(
                #[trigger] report.hidden_processes@[i],
                analysis.hidden_processes@[i],
                evidence@[i],
            ),
{
    let ghost fs = analysis.hidden_processes@;
    let ghost es = evidence@;
    let total_scanned = analysis.total_scanned;
    let mut findings = analysis.hidden_processes;
    let mut evidence = evidence;
    let mut details: Vec<HiddenProcessDetail> = Vec::new();
    while findings.len() > 0
        invariant
            findings@.len() == evidence@.len(),
            details@.len() + findings@.len() == fs.len(),
            fs.len() == es.len(),
            findings@ == fs.skip(details@.len() as int),
            evidence@ == es.skip(details@.len() as int),
            forall|i: int| 0 <= i < details@.len() ==> detail_of(#[trigger] details@[i], fs[i], es[i]),
        decreases findings@.len(),
    {
        let ghost k = details@.len() as int;
        let finding = findings.remove(0);
        let ev = evidence.remove(0);
        assert(finding == fs[k]);
        assert(ev == es[k]);
        assert(findings@ =~= fs.skip(k + 1));
        assert(evidence@ =~= es.skip(k + 1));
        let ProcessEvidence { comm, audit } = ev;
        let detail = HiddenProcessDetail::from_finding(finding, comm, audit);
        details.push(detail);
    }
    DetectionReport { hidden_processes: details, total_scanned }
}

/// The view of a `HashSet` is finite.
proof fn lemma_hash_set_finite(s: &HashSet<i32>)
    ensures
        s@.finite(),
{
    let sq = vstd::std_specs::hash::spec_hash_keys_iter(s).remaining();
    vstd::seq_lib::seq_to_set_is_finite(sq.unref());
}

/// Number of sources that were queried: the four userland ones, plus the
/// kernel module and the eBPF iterator when present.
pub open spec fn queried_sources(r: &ScanResults) -> nat {
    4 + (if r.lkm is Some { 1nat } else { 0nat }) + (if r.ebpf is Some { 1nat } else { 0nat })
}

/// Every flagged PID was reported by at least one source, so the report
/// never holds more processes than were scanned.
pub proof fn lemma_flagged_within_scanned(r: &ScanResults, self_pid: i32)
    ensures
        r.flagged_pids(self_pid).subset_of(r.all_pids()),
        r.all_pids().finite(),
        r.flagged_pids(self_pid).len() <= r.all_pids().len(),
{
    lemma_hash_set_finite(&r.proc_readdir);
    lemma_hash_set_finite(&r.proc_direct);
    lemma_hash_set_finite(&r.syscalls);
    assert(optional_pids(r.lkm).finite());
    assert(optional_pids(r.ebpf).finite());
    vstd::set_lib::lemma_len_subset(r.flagged_pids(self_pid), r.all_pids());
}

/// The scanner never reports its own PID.
pub proof fn lemma_self_never_flagged(r: &ScanResults, self_pid: i32)
    ensures
        !r.flagged_pids(self_pid).contains(self_pid),
{
}

/// When the `/proc` listing and `ps` both see every PID that any source
/// reported, nothing is flagged.
pub proof fn lemma_consistent_scan_flags_nothing(r: &ScanResults, self_pid: i32)
    requires
        forall|pid: i32| #[trigger] r.all_pids().contains(pid) ==> r.in_readdir(pid) && r.in_ps(pid),
    ensures
        r.flagged_pids(self_pid) == Set::<i32>::empty(),
{
    assert forall|pid: i32| !r.flagged_pids(self_pid).contains(pid) by {
        if r.is_flagged(pid) {
            assert(r.all_pids().contains(pid));
        }
    }
    assert(r.flagged_pids(self_pid) =~= Set::<i32>::empty());
}

/// For a flagged PID the queried sources split into those that see it and
/// those that miss it: both lists are non-empty, they share no source, and
/// together they name every queried source once.
pub proof fn lemma_flagged_sources_partition(r: &ScanResults, pid: i32)
    requires
        r.is_flagged(pid),
    ensures
        r.detected_by(pid).len() > 0,
        r.hidden_from(pid).len() > 0,
        r.detected_by(pid).len() + r.hidden_from(pid).len() == queried_sources(r),
        forall|i: int, j: int|
            0 <= i < r.detected_by(pid).len() && 0 <= j < r.hidden_from(pid).len()
                ==> r.detected_by(pid)[i] != r.hidden_from(pid)[j],
{
    lemma_hidden_from_nonempty(r, pid);
    let d = r.detected_by(pid);
    let h = r.hidden_from(pid);
    assert(d.len() > 0) by {
        if r.in_direct(pid) {
        } else if r.in_syscalls(pid) {
        } else if r.in_lkm(pid) {
            assert(r.lkm is Some);
        } else {
            assert(r.ebpf is Some);
        }
    }
    lemma_detected_labels_see(r, pid);
    lemma_hidden_labels_miss(r, pid);
    assert forall|i: int, j: int| 0 <= i < d.len() && 0 <= j < h.len() implies d[i] != h[j] by {
        assert(source_sees(r, pid, d[i]));
        assert(!source_sees(r, pid, h[j]));
    }
}

proof fn lemma_detected_labels_see(r: &ScanResults, pid: i32)
    ensures
        forall|k: int| 0 <= k < r.detected_by(pid).len() ==> source_sees(r, pid, #[trigger] r.detected_by(pid)[k]),
{
    let sees = |l: Seq<char>| source_sees(r, pid, l);
    let dp = seq![
        label_if(r.in_readdir(pid), "proc_readdir"@),
        label_if(r.in_direct(pid), "proc_direct"@),
        label_if(r.in_syscalls(pid), "syscalls"@),
        label_if(r.in_ps(pid), "ps"@),
        label_if(r.lkm is Some && r.in_lkm(pid), "lkm"@),
        label_if(r.ebpf is Some && r.in_ebpf(pid), "ebpf"@),
    ];
    assert forall|p: int, k: int| 0 <= p < dp.len() && 0 <= k < dp[p].len() implies sees(#[trigger] dp[p][k]) by {
        lemma_label_lengths();
        if p == 0 {} else if p == 1 {} else if p == 2 {} else if p == 3 {} else if p == 4 {} else {}
    }
    lemma_labels_all(dp, sees);
    reveal_with_fuel(concat_labels, 7);
    assert(concat_labels(dp) =~= r.detected_by(pid));
}

proof fn lemma_hidden_labels_miss(r: &ScanResults, pid: i32)
    ensures
        forall|k: int| 0 <= k < r.hidden_from(pid).len() ==> !source_sees(r, pid, #[trigger] r.hidden_from(pid)[k]),
{
    let misses = |l: Seq<char>| !source_sees(r, pid, l);
    let hp = seq![
        label_if(!r.in_readdir(pid), "proc_readdir"@),
        label_if(!r.in_direct(pid), "proc_direct"@),
        label_if(!r.in_syscalls(pid), "syscalls"@),
        label_if(!r.in_ps(pid), "ps"@),
        label_if(r.lkm is Some && !r.in_lkm(pid), "lkm"@),
        label_if(r.ebpf is Some && !r.in_ebpf(pid), "ebpf"@),
    ];
    assert forall|p: int, k: int| 0 <= p < hp.len() && 0 <= k < hp[p].len() implies misses(#[trigger] hp[p][k]) by {
        lemma_label_lengths();
        if p == 0 {} else if p == 1 {} else if p == 2 {} else if p == 3 {} else if p == 4 {} else {}
    }
    lemma_labels_all(hp, misses);
    reveal_with_fuel(concat_labels, 7);
    assert(concat_labels(hp) =~= r.hidden_from(pid));
}

proof fn lemma_label_lengths()
    ensures
        "proc_readdir"@.len() == 12,
        "proc_direct"@.len() == 11,
        "syscalls"@.len() == 8,
        "ps"@.len() == 2,
        "lkm"@.len() == 3,
        "ebpf"@.len() == 4,
{
    reveal_strlit("proc_readdir");
    reveal_strlit("proc_direct");
    reveal_strlit("syscalls");
    reveal_strlit("ps");
    reveal_strlit("lkm");
    reveal_strlit("ebpf");
}

/// Concatenates a list of label lists.
pub open spec fn concat_labels(parts: Seq<Seq<Seq<char>>>) -> Seq<Seq<char>>
    decreases parts.len(),
{
    if parts.len() == 0 {
        seq![]
    } else {
        concat_labels(parts.drop_last()) + parts.last()
    }
}

proof fn lemma_labels_all(parts: Seq<Seq<Seq<char>>>, pred: spec_fn(Seq<char>) -> bool)
    requires
        forall|p: int, k: int| 0 <= p < parts.len() && 0 <= k < parts[p].len() ==> pred(#[trigger] parts[p][k]),
    ensures
        forall|k: int| 0 <= k < concat_labels(parts).len() ==> pred(#[trigger] concat_labels(parts)[k]),
    decreases parts.len(),
{
    if parts.len() > 0 {
        let init = parts.drop_last();
        assert forall|p: int, k: int| 0 <= p < init.len() && 0 <= k < init[p].len() implies pred(#[trigger] init[p][k]) by {
            assert(init[p] == parts[p]);
        }
        lemma_labels_all(init, pred);
        let c = concat_labels(parts);
        assert forall|k: int| 0 <= k < c.len() implies pred(#[trigger] c[k]) by {
            if k < concat_labels(init).len() {
                assert(c[k] == concat_labels(init)[k]);
            } else {
                assert(c[k] == parts.last()[k - concat_labels(init).len()]);
                assert(parts[parts.len() - 1] == parts.last());
            }
        }
    }
}

/// The diagnosis of a finding follows only from which sources see its PID:
/// missing from both the `/proc` listing and `ps` while the syscall brute
/// force or the direct `/proc/<pid>` probe sees it is kernel-level hiding,
/// whether or not the kernel module or the eBPF iterator was queried or
/// lists it; listed in `/proc` but not by `ps` is a userland hijack; missing
/// from the listing and the syscalls and seen only by kernel traversal is a
/// kernel rootkit; anything else is an inconsistency.
pub proof fn lemma_finding_diagnosis(r: &ScanResults, f: HiddenProcessFinding)
    requires
        f.describes(r, f.pid),
    ensures
        ({
            let pid = f.pid;
            let rd = r.proc_readdir@.contains(pid);
            let dir = r.proc_direct@.contains(pid);
            let sys = r.syscalls@.contains(pid);
            let ps = r.ps_cmds@.contains_key(pid);
            let kern = (r.lkm matches Some(m) && m@.contains_key(pid)) || (r.ebpf matches Some(
                m,
            ) && m@.contains_key(pid));
            let hiding = !rd && !ps && (sys || dir);
            let hijack = rd && !ps;
            let traversal = !rd && !sys && kern && (ps || !dir);
            &&& hiding ==> f.description@
                == "Kernel-level process hiding detected (getdents hook / rootkit)"@
            &&& hijack ==> f.description@
                == "Userland utility hijack detected (ps binary modified or LD_PRELOAD hook)"@
            &&& traversal ==> f.description@
                == "Sophisticated kernel rootkit hiding from standard syscalls but found via kernel traversal"@
            &&& !hiding && !hijack && !traversal ==> f.description@
                == "Inconsistent process visibility across APIs"@
        }),
{
}

/// A PID other than the scanner's is flagged exactly when the direct
/// `/proc/<pid>` probe, the syscall brute force, or a queried kernel module
/// or eBPF iterator sees it while the `/proc` listing or `ps` misses it.
pub proof fn lemma_flagged_exactly(r: &ScanResults, self_pid: i32, pid: i32)
    ensures
        r.flagged_pids(self_pid).contains(pid) <==> pid != self_pid && (r.proc_direct@.contains(pid)
            || r.syscalls@.contains(pid) || (r.lkm matches Some(m) && m@.contains_key(pid)) || (
        r.ebpf matches Some(m) && m@.contains_key(pid))) && (!r.proc_readdir@.contains(pid)
            || !r.ps_cmds@.contains_key(pid)),
{
}

/// The name of a finding: the kernel module's when it was queried (or
/// `unknown` when it lacks the PID), else the eBPF iterator's likewise, else
/// the one `ps` gives; with none of these it is left to `/proc/<pid>/comm`.
pub proof fn lemma_finding_name(r: &ScanResults, f: HiddenProcessFinding)
    requires
        f.describes(r, f.pid),
    ensures
        r.lkm matches Some(m) ==> (m@.contains_key(f.pid) ==> opt_view(f.name) == Some(
            m@[f.pid]@,
        )) && (!m@.contains_key(f.pid) ==> opt_view(f.name) == Some("unknown"@)),
        r.lkm is None ==> (r.ebpf matches Some(m) ==> (m@.contains_key(f.pid) ==> opt_view(f.name)
            == Some(m@[f.pid]@)) && (!m@.contains_key(f.pid) ==> opt_view(f.name) == Some(
            "unknown"@,
        ))),
        r.lkm is None && r.ebpf is None && r.ps_cmds@.contains_key(f.pid) ==> opt_view(f.name)
            == Some(r.ps_cmds@[f.pid]@),
        r.lkm is None && r.ebpf is None && !r.ps_cmds@.contains_key(f.pid) ==> f.name is None,
{
}

/// Whether the source with this label sees `pid`.
pub open spec fn source_sees(r: &ScanResults, pid: i32, label: Seq<char>) -> bool {
    if label == "proc_readdir"@ {
        r.in_readdir(pid)
    } else if label == "proc_direct"@ {
        r.in_direct(pid)
    } else if label == "syscalls"@ {
        r.in_syscalls(pid)
    } else if label == "ps"@ {
        r.in_ps(pid)
    } else if label == "lkm"@ {
        r.in_lkm(pid)
    } else {
        r.in_ebpf(pid)
    }
}

/// Seeing more in the `/proc` listing or `ps` never flags more PIDs: when
/// two scans differ only in that the second one's listing and `ps` table see
/// at least what the first one's do, every PID the second flags the first
/// flags too.
pub proof fn lemma_more_visibility_fewer_flags(r1: &ScanResults, r2: &ScanResults, self_pid: i32)
    requires
        r1.proc_readdir@.subset_of(r2.proc_readdir@),
        r1.ps_cmds@.dom().subset_of(r2.ps_cmds@.dom()),
        r1.proc_direct@ == r2.proc_direct@,
        r1.syscalls@ == r2.syscalls@,
        optional_pids(r1.lkm) == optional_pids(r2.lkm),
        optional_pids(r1.ebpf) == optional_pids(r2.ebpf),
    ensures
        r2.flagged_pids(self_pid).subset_of(r1.flagged_pids(self_pid)),
{
    assert forall|pid: i32| r2.flagged_pids(self_pid).contains(pid) implies r1.flagged_pids(
        self_pid,
    ).contains(pid) by {
        assert(r1.in_lkm(pid) == r2.in_lkm(pid)) by {
            assert(optional_pids(r1.lkm).contains(pid) == optional_pids(r2.lkm).contains(pid));
        }
        assert(r1.in_ebpf(pid) == r2.in_ebpf(pid)) by {
            assert(optional_pids(r1.ebpf).contains(pid) == optional_pids(r2.ebpf).contains(pid));
        }
    }
}

/// The PIDs are in strictly increasing order.
pub open spec fn strictly_increasing(s: Seq<i32>) -> bool {
    forall|i: int, j: int| 0 <= i < j < s.len() ==> s[i] < s[j]
}

/// Inserts `x` into a strictly increasing list that lacks it.
fn insert_sorted(v: &mut Vec<i32>, x: i32)
    requires
        strictly_increasing(old(v)@),
        !old(v)@.contains(x),
    ensures
        strictly_increasing(final(v)@),
        final(v)@.to_set() == old(v)@.to_set().insert(x),
{
    let mut pos: usize = 0;
    while pos < v.len() && v[pos] < x
        invariant
            pos <= v@.len(),
            forall|k: int| 0 <= k < pos ==> v@[k] < x,
        decreases v@.len() - pos,
    {
        pos = pos + 1;
    }
    let ghost before = v@;
    v.insert(pos, x);
    proof {
        assert forall|k: int| pos <= k < before.len() implies x < #[trigger] before[k] by {
            assert(before[pos as int] >= x);
            assert(before[pos as int] != x);
        }
        assert(v@.to_set() =~= before.to_set().insert(x)) by {
            assert forall|y: i32| v@.to_set().contains(y) implies before.to_set().insert(x).contains(y) by {
                let k = choose|k: int| 0 <= k < v@.len() && v@[k] == y;
                if k < pos {
                    assert(before[k] == y);
                } else if k > pos {
                    assert(before[k - 1] == y);
                }
            }
            assert forall|y: i32| before.to_set().insert(x).contains(y) implies v@.to_set().contains(y) by {
                if y == x {
                    assert(v@[pos as int] == x);
                } else {
                    let k = choose|k: int| 0 <= k < before.len() && before[k] == y;
                    if k < pos {
                        assert(v@[k] == y);
                    } else {
                        assert(v@[k + 1] == y);
                    }
                }
            }
        }
    }
}

/// The PIDs of the `/proc` listing in increasing order, each with the name
/// `ps` gives it, or `unknown`.
pub fn process_map(results: &ScanResults) -> (m: Vec<(i32, String)>)
    ensures
        strictly_increasing(m@.map_values(|e: (i32, String)| e.0)),
        m@.map_values(|e: (i32, String)| e.0).to_set() == results.proc_readdir@,
        forall|i: int|
            0 <= i < m@.len() ==> (#[trigger] m@[i]).1@ == name_or_unknown(
                results.ps_cmds@,
                m@[i].0,
            ),
{
    let mut pids: Vec<i32> = Vec::new();
    let ghost sq = results.proc_readdir.iter().remaining();
    for p in it: results.proc_readdir.iter()
        invariant
            it.seq() == sq,
            sq.no_duplicates(),
            sq.unref().to_set() == results.proc_readdir@,
            strictly_increasing(pids@),
            pids@.to_set() == sq.unref().take(it.index()).to_set(),
    {
        let ghost idx = it.index();
        assert(sq.unref().take(idx + 1) =~= sq.unref().take(idx).push(*p));
        proof {
            if pids@.contains(*p) {
                assert(pids@.to_set().contains(*p));
                let k = choose|k: int| 0 <= k < idx && sq.unref().take(idx)[k] == *p;
                assert(*sq[k] == *sq[idx]);
            }
            sq.unref().take(idx).lemma_push_to_set_commute(*p);
        }
        insert_sorted(&mut pids, *p);
    }
    assert(sq.unref().take(sq.len() as int) =~= sq.unref());
    let mut out: Vec<(i32, String)> = Vec::new();
    let mut i: usize = 0;
    while i < pids.len()
        invariant
            0 <= i <= pids@.len(),
            out@.len() == i,
            forall|k: int| 0 <= k < i ==> (#[trigger] out@[k]).0 == pids@[k],
            forall|k: int|
                0 <= k < i ==> (#[trigger] out@[k]).1@ == name_or_unknown(
                    results.ps_cmds@,
                    out@[k].0,
                ),
        decreases pids@.len() - i,
    {
        let pid = pids[i];
        let name = match results.ps_cmds.get(&pid) {
            Some(n) => n.clone(),
            None => "unknown".to_string(),
        };
        out.push((pid, name));
        i = i + 1;
    }
    assert(out@.map_values(|e: (i32, String)| e.0) =~= pids@);
    out
}

} // verus!
