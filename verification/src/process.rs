//! Tracking of processes that keep using too much CPU or memory.

use vstd::prelude::*;
use std::collections::HashMap;
use crate::text::{decimal, push_decimal};

verus! {

broadcast use vstd::std_specs::hash::group_hash_axioms;

/// One process as seen by a scan. The usage figures are carried as the bit
/// patterns of the measured floating-point values; whether they exceed the
/// thresholds is decided by the caller and given in `suspicious`.
#[derive(Debug)]
pub struct ProcessSample {
    pub pid: u32,
    pub name: String,
    pub suspicious: bool,
    pub cpu_usage_bits: u32,
    pub mem_usage_bits: u64,
}

/// A process under watch because it was suspicious when last seen.
#[derive(Clone, Debug)]
pub struct Process {
    pub pid: u32,
    pub name: String,
    pub cpu_usage_bits: u32,
    pub mem_usage_bits: u64,
    /// Whole seconds between `first_seen` and the latest scan.
    pub run_time: u64,
    /// Milliseconds on the watcher's clock when it was first seen suspicious.
    pub first_seen: u64,
}

/// What a scan reports.
#[derive(Debug, PartialEq, Eq)]
pub enum ProcessEvent {
    /// A process has stayed suspicious for at least the time threshold.
    Suspicious { pid: u32, name: String, cpu_usage_bits: u32, mem_usage_bits: u64 },
    /// A watched process is no longer suspicious.
    Normal { pid: u32, name: String },
}

/// Watches processes across scans.
#[derive(Debug)]
pub struct ProcessWatcher {
    pub tracked_processes: HashMap<u32, Process>,
    /// Seconds a process must stay suspicious before it is reported.
    pub time_threshold: u64,
    pub warning_active: bool,
    /// The first scan only primes the usage figures and reports nothing.
    pub is_first_run: bool,
}

/// Whole seconds from `since` to `now` (milliseconds), zero if `now` is earlier.
pub open spec fn elapsed_secs(since: u64, now: u64) -> u64 {
    if now >= since {
        ((now - since) / 1000) as u64
    } else {
        0
    }
}

/// The pids of the given samples.
pub open spec fn sample_pids(samples: Seq<ProcessSample>) -> Set<u32> {
    Set::new(|p: u32| exists|i: int| 0 <= i < samples.len() && samples[i].pid == p)
}

/// The effect of one sample on the watched processes and the reports.
pub open spec fn watch_step(
    m: Map<u32, Process>,
    events: Seq<ProcessEvent>,
    s: ProcessSample,
    now: u64,
    threshold: u64,
) -> (Map<u32, Process>, Seq<ProcessEvent>) {
    if s.suspicious {
        if m.contains_key(s.pid) {
            let e = m[s.pid];
            let run_time = elapsed_secs(e.first_seen, now);
            let updated = Process {
                cpu_usage_bits: s.cpu_usage_bits,
                mem_usage_bits: s.mem_usage_bits,
                run_time,
                ..e
            };
            let events = if run_time >= threshold {
                events.push(
                    ProcessEvent::Suspicious {
                        pid: s.pid,
                        name: s.name,
                        cpu_usage_bits: s.cpu_usage_bits,
                        mem_usage_bits: s.mem_usage_bits,
                    },
                )
            } else {
                events
            };
            (m.insert(s.pid, updated), events)
        } else {
            let fresh = Process {
                pid: s.pid,
                name: s.name,
                cpu_usage_bits: s.cpu_usage_bits,
                mem_usage_bits: s.mem_usage_bits,
                run_time: 0,
                first_seen: now,
            };
            (m.insert(s.pid, fresh), events)
        }
    } else if m.contains_key(s.pid) {
        (m.remove(s.pid), events.push(ProcessEvent::Normal { pid: s.pid, name: s.name }))
    } else {
        (m, events)
    }
}

/// The watched processes and the reports after all `samples`, in order.
pub open spec fn watch_all(
    m: Map<u32, Process>,
    samples: Seq<ProcessSample>,
    now: u64,
    threshold: u64,
) -> (Map<u32, Process>, Seq<ProcessEvent>)
    decreases samples.len(),
{
    if samples.len() == 0 {
        (m, Seq::empty())
    } else {
        let prev = watch_all(m, samples.drop_last(), now, threshold);
        watch_step(prev.0, prev.1, samples.last(), now, threshold)
    }
}

/// The outcome of a scan from watched processes `m`: processes that are gone
/// are dropped first, then each sample is applied in order.
pub open spec fn scan_outcome(
    m: Map<u32, Process>,
    samples: Seq<ProcessSample>,
    now: u64,
    threshold: u64,
) -> (Map<u32, Process>, Seq<ProcessEvent>) {
    watch_all(m.restrict(sample_pids(samples)), samples, now, threshold)
}

/// Some sample is of process `pid`.
pub open spec fn pid_seen(samples: Seq<ProcessSample>, pid: u32) -> bool {
    exists|i: int| 0 <= i < samples.len() && (#[trigger] samples[i]).pid == pid
}

/// The last sample of process `pid` finds it suspicious.
pub open spec fn last_suspicious(samples: Seq<ProcessSample>, pid: u32) -> bool {
    exists|i: int|
        0 <= i < samples.len() && (#[trigger] samples[i]).pid == pid && samples[i].suspicious
            && forall|j: int| i < j < samples.len() ==> (#[trigger] samples[j]).pid != pid
}

/// Which processes are watched after applying `samples` to `m0`.
pub proof fn lemma_watch_all_tracks(
    m0: Map<u32, Process>,
    samples: Seq<ProcessSample>,
    now: u64,
    threshold: u64,
)
    ensures
        forall|p: u32|
            #[trigger] watch_all(m0, samples, now, threshold).0.contains_key(p) <==> (
            last_suspicious(samples, p) || (m0.contains_key(p) && !pid_seen(samples, p))),
    decreases samples.len(),
{
    if samples.len() > 0 {
        let prev = samples.drop_last();
        let x = samples.last();
        let n = samples.len() - 1;
        lemma_watch_all_tracks(m0, prev, now, threshold);
        let q = watch_all(m0, prev, now, threshold);
        let r = watch_all(m0, samples, now, threshold);
        assert forall|p: u32|
            #[trigger] r.0.contains_key(p) <==> (last_suspicious(samples, p) || (m0.contains_key(p)
                && !pid_seen(samples, p))) by {
            assert(samples[n] == x);
            if p == x.pid {
                assert(pid_seen(samples, p));
                if x.suspicious {
                    assert(last_suspicious(samples, p));
                } else {
                    assert(!last_suspicious(samples, p)) by {
                        if last_suspicious(samples, p) {
                            let i = choose|i: int|
                                0 <= i < samples.len() && (#[trigger] samples[i]).pid == p
                                    && samples[i].suspicious && forall|j: int|
                                    i < j < samples.len() ==> (#[trigger] samples[j]).pid != p;
                            assert(i != n);
                            assert(samples[n].pid != p);
                        }
                    }
                }
            } else {
                assert(q.0.contains_key(p) == r.0.contains_key(p));
                assert(pid_seen(samples, p) == pid_seen(prev, p)) by {
                    if pid_seen(samples, p) {
                        let i = choose|i: int| 0 <= i < samples.len() && (#[trigger] samples[i]).pid == p;
                        assert(prev[i] == samples[i]);
                    }
                    if pid_seen(prev, p) {
                        let i = choose|i: int| 0 <= i < prev.len() && (#[trigger] prev[i]).pid == p;
                        assert(prev[i] == samples[i]);
                    }
                }
                assert(last_suspicious(samples, p) == last_suspicious(prev, p)) by {
                    if last_suspicious(samples, p) {
                        let i = choose|i: int|
                            0 <= i < samples.len() && (#[trigger] samples[i]).pid == p
                                && samples[i].suspicious && forall|j: int|
                                i < j < samples.len() ==> (#[trigger] samples[j]).pid != p;
                        assert(prev[i] == samples[i]);
                        assert forall|j: int| i < j < prev.len() implies (#[trigger] prev[j]).pid
                            != p by {
                            assert(prev[j] == samples[j]);
                        }
                    }
                    if last_suspicious(prev, p) {
                        let i = choose|i: int|
                            0 <= i < prev.len() && (#[trigger] prev[i]).pid == p
                                && prev[i].suspicious && forall|j: int|
                                i < j < prev.len() ==> (#[trigger] prev[j]).pid != p;
                        assert(prev[i] == samples[i]);
                        assert forall|j: int| i < j < samples.len() implies (#[trigger] samples[j]).pid
                            != p by {
                            if j < n {
                                assert(prev[j] == samples[j]);
                            }
                        }
                    }
                }
            }
        }
    }
}

/// After a scan, a process is watched exactly when its last sample in the
/// scan found it suspicious; processes absent from the scan are dropped.
pub proof fn lemma_tracked_after_scan(
    m: Map<u32, Process>,
    samples: Seq<ProcessSample>,
    now: u64,
    threshold: u64,
)
    ensures
        forall|p: u32|
            #[trigger] scan_outcome(m, samples, now, threshold).0.contains_key(p)
                <==> last_suspicious(samples, p),
{
    let m0 = m.restrict(sample_pids(samples));
    lemma_watch_all_tracks(m0, samples, now, threshold);
    assert forall|p: u32| #[trigger] m0.contains_key(p) implies pid_seen(samples, p) by {
        assert(sample_pids(samples).contains(p));
    }
}

/// Whether a report of process `pid` is backed by the watch it came from:
/// the process was watched before the scan and first seen at least the
/// threshold earlier, or the threshold is zero.
pub open spec fn report_backed(m: Map<u32, Process>, pid: u32, now: u64, threshold: u64) -> bool {
    (m.contains_key(pid) && elapsed_secs(m[pid].first_seen, now) >= threshold) || threshold == 0
}

proof fn lemma_watch_all_reports(
    m0: Map<u32, Process>,
    samples: Seq<ProcessSample>,
    now: u64,
    threshold: u64,
)
    ensures
        ({
            let r = watch_all(m0, samples, now, threshold);
            &&& forall|p: u32|
                #[trigger] r.0.contains_key(p) ==> r.0[p].first_seen == now || (m0.contains_key(p)
                    && r.0[p].first_seen == m0[p].first_seen)
            &&& forall|i: int|
                0 <= i < r.1.len() && (#[trigger] r.1[i]) is Suspicious ==> report_backed(
                    m0,
                    r.1[i]->Suspicious_pid,
                    now,
                    threshold,
                )
        }),
    decreases samples.len(),
{
    if samples.len() > 0 {
        lemma_watch_all_reports(m0, samples.drop_last(), now, threshold);
    }
}

/// Every process a scan reports as suspicious was already watched before
/// the scan, first seen at least the threshold earlier (or the threshold
/// is zero).
pub proof fn lemma_reports_backed(
    m: Map<u32, Process>,
    samples: Seq<ProcessSample>,
    now: u64,
    threshold: u64,
)
    ensures
        forall|i: int|
            0 <= i < scan_outcome(m, samples, now, threshold).1.len() && (#[trigger] scan_outcome(
                m,
                samples,
                now,
                threshold,
            ).1[i]) is Suspicious ==> report_backed(
                m,
                scan_outcome(m, samples, now, threshold).1[i]->Suspicious_pid,
                now,
                threshold,
            ),
{
    let m0 = m.restrict(sample_pids(samples));
    lemma_watch_all_reports(m0, samples, now, threshold);
}

/// Samples of other processes leave the watch of `pid` as it was.
proof fn lemma_watch_untouched(
    m0: Map<u32, Process>,
    samples: Seq<ProcessSample>,
    now: u64,
    threshold: u64,
    pid: u32,
)
    requires
        forall|j: int| 0 <= j < samples.len() ==> (#[trigger] samples[j]).pid != pid,
    ensures
        watch_all(m0, samples, now, threshold).0.contains_key(pid) == m0.contains_key(pid),
        m0.contains_key(pid) ==> watch_all(m0, samples, now, threshold).0[pid] == m0[pid],
    decreases samples.len(),
{
    if samples.len() > 0 {
        let prev = samples.drop_last();
        assert forall|j: int| 0 <= j < prev.len() implies (#[trigger] prev[j]).pid != pid by {
            assert(prev[j] == samples[j]);
        }
        assert(samples[samples.len() - 1].pid != pid);
        lemma_watch_untouched(m0, prev, now, threshold, pid);
    }
}

/// A watched process whose first sample in a run is suspicious, and which
/// was first seen at least the threshold earlier, is reported with that
/// sample's name and usage.
proof fn lemma_watch_reports(
    m0: Map<u32, Process>,
    samples: Seq<ProcessSample>,
    now: u64,
    threshold: u64,
    k: int,
)
    requires
        0 <= k < samples.len(),
        samples[k].suspicious,
        forall|j: int| 0 <= j < k ==> (#[trigger] samples[j]).pid != samples[k].pid,
        m0.contains_key(samples[k].pid),
        elapsed_secs(m0[samples[k].pid].first_seen, now) >= threshold,
    ensures
        exists|i: int|
            0 <= i < watch_all(m0, samples, now, threshold).1.len() && #[trigger] watch_all(
                m0,
                samples,
                now,
                threshold,
            ).1[i] == (ProcessEvent::Suspicious {
                pid: samples[k].pid,
                name: samples[k].name,
                cpu_usage_bits: samples[k].cpu_usage_bits,
                mem_usage_bits: samples[k].mem_usage_bits,
            }),
    decreases samples.len(),
{
    let prev = samples.drop_last();
    let n = samples.len() - 1;
    let q = watch_all(m0, prev, now, threshold);
    let r = watch_all(m0, samples, now, threshold);
    let ev = ProcessEvent::Suspicious {
        pid: samples[k].pid,
        name: samples[k].name,
        cpu_usage_bits: samples[k].cpu_usage_bits,
        mem_usage_bits: samples[k].mem_usage_bits,
    };
    if k == n {
        assert forall|j: int| 0 <= j < prev.len() implies (#[trigger] prev[j]).pid
            != samples[k].pid by {
            assert(prev[j] == samples[j]);
        }
        lemma_watch_untouched(m0, prev, now, threshold, samples[k].pid);
        assert(r.1[q.1.len() as int] == ev);
    } else {
        assert(prev[k] == samples[k]);
        assert forall|j: int| 0 <= j < k implies (#[trigger] prev[j]).pid != prev[k].pid by {
            assert(prev[j] == samples[j]);
        }
        lemma_watch_reports(m0, prev, now, threshold, k);
        let i = choose|i: int| 0 <= i < q.1.len() && #[trigger] q.1[i] == ev;
        assert(r.1[i] == ev);
    }
}

/// Every process that was watched before a scan, whose first sample in
/// the scan is suspicious, and which was first seen at least the threshold
/// before the scan, is reported as suspicious, with that sample's name and
/// usage.
pub proof fn lemma_reports_complete(
    m: Map<u32, Process>,
    samples: Seq<ProcessSample>,
    now: u64,
    threshold: u64,
    k: int,
)
    requires
        0 <= k < samples.len(),
        samples[k].suspicious,
        forall|j: int| 0 <= j < k ==> (#[trigger] samples[j]).pid != samples[k].pid,
        m.contains_key(samples[k].pid),
        elapsed_secs(m[samples[k].pid].first_seen, now) >= threshold,
    ensures
        exists|i: int|
            0 <= i < scan_outcome(m, samples, now, threshold).1.len() && #[trigger] scan_outcome(
                m,
                samples,
                now,
                threshold,
            ).1[i] == (ProcessEvent::Suspicious {
                pid: samples[k].pid,
                name: samples[k].name,
                cpu_usage_bits: samples[k].cpu_usage_bits,
                mem_usage_bits: samples[k].mem_usage_bits,
            }),
{
    let m0 = m.restrict(sample_pids(samples));
    assert(sample_pids(samples).contains(samples[k].pid));
    lemma_watch_reports(m0, samples, now, threshold, k);
    let w = watch_all(m0, samples, now, threshold);
    assert(scan_outcome(m, samples, now, threshold) == w);
    let ev = ProcessEvent::Suspicious {
        pid: samples[k].pid,
        name: samples[k].name,
        cpu_usage_bits: samples[k].cpu_usage_bits,
        mem_usage_bits: samples[k].mem_usage_bits,
    };
    let i = choose|i: int| 0 <= i < w.1.len() && #[trigger] w.1[i] == ev;
    assert(scan_outcome(m, samples, now, threshold).1[i] == ev);
}

/// A watched process whose first sample in a run is not suspicious is
/// reported back to normal, with that sample's name.
proof fn lemma_watch_reports_normal(
    m0: Map<u32, Process>,
    samples: Seq<ProcessSample>,
    now: u64,
    threshold: u64,
    k: int,
)
    requires
        0 <= k < samples.len(),
        !samples[k].suspicious,
        forall|j: int| 0 <= j < k ==> (#[trigger] samples[j]).pid != samples[k].pid,
        m0.contains_key(samples[k].pid),
    ensures
        exists|i: int|
            0 <= i < watch_all(m0, samples, now, threshold).1.len() && #[trigger] watch_all(
                m0,
                samples,
                now,
                threshold,
            ).1[i] == (ProcessEvent::Normal { pid: samples[k].pid, name: samples[k].name }),
    decreases samples.len(),
{
    let prev = samples.drop_last();
    let n = samples.len() - 1;
    let q = watch_all(m0, prev, now, threshold);
    let r = watch_all(m0, samples, now, threshold);
    let ev = ProcessEvent::Normal { pid: samples[k].pid, name: samples[k].name };
    if k == n {
        assert forall|j: int| 0 <= j < prev.len() implies (#[trigger] prev[j]).pid
            != samples[k].pid by {
            assert(prev[j] == samples[j]);
        }
        lemma_watch_untouched(m0, prev, now, threshold, samples[k].pid);
        assert(r.1[q.1.len() as int] == ev);
    } else {
        assert(prev[k] == samples[k]);
        assert forall|j: int| 0 <= j < k implies (#[trigger] prev[j]).pid != prev[k].pid by {
            assert(prev[j] == samples[j]);
        }
        lemma_watch_reports_normal(m0, prev, now, threshold, k);
        let i = choose|i: int| 0 <= i < q.1.len() && #[trigger] q.1[i] == ev;
        assert(r.1[i] == ev);
    }
}

/// Every process that was watched before a scan and whose first sample in
/// the scan is not suspicious is reported back to normal, with that
/// sample's name.
pub proof fn lemma_normal_reported(
    m: Map<u32, Process>,
    samples: Seq<ProcessSample>,
    now: u64,
    threshold: u64,
    k: int,
)
    requires
        0 <= k < samples.len(),
        !samples[k].suspicious,
        forall|j: int| 0 <= j < k ==> (#[trigger] samples[j]).pid != samples[k].pid,
        m.contains_key(samples[k].pid),
    ensures
        exists|i: int|
            0 <= i < scan_outcome(m, samples, now, threshold).1.len() && #[trigger] scan_outcome(
                m,
                samples,
                now,
                threshold,
            ).1[i] == (ProcessEvent::Normal { pid: samples[k].pid, name: samples[k].name }),
{
    let m0 = m.restrict(sample_pids(samples));
    assert(sample_pids(samples).contains(samples[k].pid));
    lemma_watch_reports_normal(m0, samples, now, threshold, k);
    let w = watch_all(m0, samples, now, threshold);
    assert(scan_outcome(m, samples, now, threshold) == w);
    let ev = ProcessEvent::Normal { pid: samples[k].pid, name: samples[k].name };
    let i = choose|i: int| 0 <= i < w.1.len() && #[trigger] w.1[i] == ev;
    assert(scan_outcome(m, samples, now, threshold).1[i] == ev);
}

/// The message logged when a watched process is no longer suspicious.
pub open spec fn normal_message(name: Seq<char>, pid: u32) -> Seq<char> {
    " "@ + name + " PID "@ + decimal(pid as nat) + " is now normal"@
}

/// The message logged when the watched process `pid`, named `name`, is no
/// longer suspicious.
pub fn normal_message_text(name: &str, pid: u32) -> (r: String)
    ensures
        r@ == normal_message(name@, pid),
{
    let mut s = " ".to_owned();
    s.append(name);
    s.append(" PID ");
    push_decimal(&mut s, pid as u64);
    s.append(" is now normal");
    s
}

impl Default for ProcessWatcher {
    /// Reports processes that stay suspicious for five minutes.
    fn default() -> (w: ProcessWatcher)
        ensures
            w.tracked_processes@ == Map::<u32, Process>::empty(),
            w.time_threshold == 300,
            !w.warning_active,
            w.is_first_run,
    {
        ProcessWatcher::new(300)
    }
}

fn elapsed(since: u64, now: u64) -> (r: u64)
    ensures
        r == elapsed_secs(since, now),
{
    if now >= since {
        (now - since) / 1000
    } else {
        0
    }
}

impl ProcessWatcher {
    /// A watcher with nothing tracked, the given threshold in seconds, and
    /// its first scan still ahead.
    pub fn new(time_threshold: u64) -> (w: ProcessWatcher)
        ensures
            w.tracked_processes@ == Map::<u32, Process>::empty(),
            w.time_threshold == time_threshold,
            !w.warning_active,
            w.is_first_run,
    {
        ProcessWatcher {
            tracked_processes: HashMap::new(),
            time_threshold,
            warning_active: false,
            is_first_run: true,
        }
    }

    /// Processes one scan taken at `now` (milliseconds on the watcher's
    /// clock). The first scan only clears the first-run flag. Later scans
    /// drop processes that no longer exist, start watching newly suspicious
    /// ones, report those suspicious for at least the threshold, and report
    /// watched ones that have become normal.
    pub fn scan_processes(&mut self, samples: &Vec<ProcessSample>, now: u64) -> (events: Vec<
        ProcessEvent,
    >)
        ensures
            !final(self).is_first_run,
            final(self).time_threshold == old(self).time_threshold,
            final(self).warning_active == old(self).warning_active,
            old(self).is_first_run ==> {
                &&& events@.len() == 0
                &&& final(self).tracked_processes@ == old(self).tracked_processes@
            },
            !old(self).is_first_run ==> {
                let r = scan_outcome(
                    old(self).tracked_processes@,
                    samples@,
                    now,
                    old(self).time_threshold,
                );
                &&& final(self).tracked_processes@ == r.0
                &&& events@ == r.1
            },
    {
        let is_first = self.is_first_run;
        self.is_first_run = false;
        if is_first {
            return Vec::new();
        }
        self.drop_vanished(samples);
        let ghost start = self.tracked_processes@;
        let mut events: Vec<ProcessEvent> = Vec::new();
        let n = samples.len();
        let mut i: usize = 0;
        while i < n
            invariant
                n == samples@.len(),
                i <= n,
                !self.is_first_run,
                self.time_threshold == old(self).time_threshold,
                self.warning_active == old(self).warning_active,
                start == old(self).tracked_processes@.restrict(sample_pids(samples@)),
                ({
                    let r = watch_all(start, samples@.take(i as int), now, self.time_threshold);
                    &&& self.tracked_processes@ == r.0
                    &&& events@ == r.1
                }),
            decreases n - i,
        {
            assert(samples@.take(i + 1).drop_last() =~= samples@.take(i as int));
            let s = &samples[i];
            if s.suspicious {
                match self.tracked_processes.remove(&s.pid) {
                    Some(e) => {
                        let run_time = elapsed(e.first_seen, now);
                        if run_time >= self.time_threshold {
                            events.push(
                                ProcessEvent::Suspicious {
                                    pid: s.pid,
                                    name: s.name.clone(),
                                    cpu_usage_bits: s.cpu_usage_bits,
                                    mem_usage_bits: s.mem_usage_bits,
                                },
                            );
                        }
                        let updated = Process {
                            cpu_usage_bits: s.cpu_usage_bits,
                            mem_usage_bits: s.mem_usage_bits,
                            run_time,
                            ..e
                        };
                        self.tracked_processes.insert(s.pid, updated);
                    },
                    None => {
                        let fresh = Process {
                            pid: s.pid,
                            name: s.name.clone(),
                            cpu_usage_bits: s.cpu_usage_bits,
                            mem_usage_bits: s.mem_usage_bits,
                            run_time: 0,
                            first_seen: now,
                        };
                        self.tracked_processes.insert(s.pid, fresh);
                    },
                }
            } else {
                match self.tracked_processes.remove(&s.pid) {
                    Some(_) => {
                        events.push(ProcessEvent::Normal { pid: s.pid, name: s.name.clone() });
                    },
                    None => {},
                }
            }
            i = i + 1;
        }
        assert(samples@.take(n as int) =~= samples@);
        events
    }

    /// Stops watching every process whose pid is not among `samples`.
    fn drop_vanished(&mut self, samples: &Vec<ProcessSample>)
        ensures
            final(self).tracked_processes@ == old(self).tracked_processes@.restrict(
                sample_pids(samples@),
            ),
            final(self).time_threshold == old(self).time_threshold,
            final(self).warning_active == old(self).warning_active,
            final(self).is_first_run == old(self).is_first_run,
    {
        let ghost orig = self.tracked_processes@;
        let mut kept: HashMap<u32, Process> = HashMap::new();
        let n = samples.len();
        let mut i: usize = 0;
        while i < n
            invariant
                n == samples@.len(),
                i <= n,
                kept@ == orig.restrict(sample_pids(samples@.take(i as int))),
                self.tracked_processes@ == orig.remove_keys(sample_pids(samples@.take(i as int))),
                self.time_threshold == old(self).time_threshold,
                self.warning_active == old(self).warning_active,
                self.is_first_run == old(self).is_first_run,
            decreases n - i,
        {
            let pid = samples[i].pid;
            let ghost before = sample_pids(samples@.take(i as int));
            let ghost after = sample_pids(samples@.take(i + 1));
            let ghost pre0 = samples@.take(i as int);
            let ghost pre1 = samples@.take(i + 1);
            assert(after =~= before.insert(pid)) by {
                assert(pre1[i as int].pid == pid);
                assert forall|p: u32| after.contains(p) implies before.insert(pid).contains(p) by {
                    let k = choose|k: int| 0 <= k < pre1.len() && (#[trigger] pre1[k]).pid == p;
                    if k < i {
                        assert(pre0[k].pid == p);
                    }
                }
                assert forall|p: u32| before.contains(p) implies after.contains(p) by {
                    let k = choose|k: int| 0 <= k < pre0.len() && (#[trigger] pre0[k]).pid == p;
                    assert(pre1[k].pid == p);
                }
            }
            match self.tracked_processes.remove(&pid) {
                Some(e) => {
                    kept.insert(pid, e);
                },
                None => {},
            }
            assert(kept@ =~= orig.restrict(after));
            assert(self.tracked_processes@ =~= orig.remove_keys(after));
            i = i + 1;
        }
        assert(samples@.take(n as int) =~= samples@);
        self.tracked_processes = kept;
    }
}

} // verus!
