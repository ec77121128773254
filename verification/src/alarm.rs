//! The alarm state machines behind the resource monitors. Each takes what a
//! measurement decided (a threshold crossed or not) and says which
//! notifications to send.

use vstd::prelude::*;
use crate::text::{chars_of, has_substring, lowercase_of, to_lowercase, vec_contains};

verus! {

/// How long the CPU must stay at full load before it is reported (ms).
pub const FULL_LOAD_HOLD_MS: u64 = 3000;

/// How long the CPU must stay above its threshold before it is reported (ms).
/// The notice's text speaks of 5 seconds; the hold is 10.
pub const HIGH_LOAD_HOLD_MS: u64 = 10000;

/// Whether a condition that started at `start` has held for `hold` ms at `now`.
pub open spec fn held_for(start: u64, now: u64, hold: u64) -> bool {
    now >= start && now - start >= hold
}

/// The CPU alarms: one for full load, one for load above the configured
/// threshold. Times are milliseconds on a monotonic clock.
#[derive(Clone, Copy, Debug, PartialEq, Eq, Structural)]
pub struct CpuWatch {
    pub cpu_warning_active: bool,
    pub cpu_warning_start: Option<u64>,
    pub cpu_100_notif: bool,
    pub cpu_100_start: Option<u64>,
}

/// The notifications one CPU sample calls for.
#[derive(Clone, Copy, Debug, PartialEq, Eq, Structural)]
pub struct CpuNotices {
    /// The CPU has been at full load for long enough.
    pub full_load: bool,
    /// The CPU has been above the threshold for long enough.
    pub sustained_high: bool,
}

/// The full-load alarm after a sample: its start time, whether it has
/// notified, and whether it notifies now. Its start time and notified flag
/// are never cleared.
pub open spec fn full_load_step(
    start: Option<u64>,
    notified: bool,
    full_load: bool,
    now: u64,
) -> (Option<u64>, bool, bool) {
    if full_load {
        match start {
            None => (Some(now), notified, false),
            Some(t) => if held_for(t, now, FULL_LOAD_HOLD_MS) && !notified {
                (start, true, true)
            } else {
                (start, notified, false)
            },
        }
    } else {
        (start, notified, false)
    }
}

/// The high-load alarm after a sample: its start time, whether it is
/// active, and whether it notifies now. A sample at or below the threshold
/// re-arms it.
pub open spec fn high_load_step(
    start: Option<u64>,
    active: bool,
    above: bool,
    now: u64,
) -> (Option<u64>, bool, bool) {
    if above {
        match start {
            None => (Some(now), active, false),
            Some(t) => if held_for(t, now, HIGH_LOAD_HOLD_MS) && !active {
                (start, true, true)
            } else {
                (start, active, false)
            },
        }
    } else {
        (None, false, false)
    }
}

/// The CPU alarms and notifications after one sample.
pub open spec fn cpu_step(w: CpuWatch, full_load: bool, above: bool, now: u64) -> (
    CpuWatch,
    CpuNotices,
) {
    let f = full_load_step(w.cpu_100_start, w.cpu_100_notif, full_load, now);
    let h = high_load_step(w.cpu_warning_start, w.cpu_warning_active, above, now);
    (
        CpuWatch {
            cpu_warning_active: h.1,
            cpu_warning_start: h.0,
            cpu_100_notif: f.1,
            cpu_100_start: f.0,
        },
        CpuNotices { full_load: f.2, sustained_high: h.2 },
    )
}

impl CpuWatch {
    /// Both alarms idle.
    pub fn new() -> (w: CpuWatch)
        ensures
            !w.cpu_warning_active,
            w.cpu_warning_start is None,
            !w.cpu_100_notif,
            w.cpu_100_start is None,
    {
        CpuWatch {
            cpu_warning_active: false,
            cpu_warning_start: None,
            cpu_100_notif: false,
            cpu_100_start: None,
        }
    }

    /// Takes one CPU sample at `now`: `full_load` when usage reached 99%,
    /// `above_threshold` when it exceeded the configured threshold.
    pub fn moncpu(&mut self, full_load: bool, above_threshold: bool, now: u64) -> (r: CpuNotices)
        ensures
            (*final(self), r) == cpu_step(*old(self), full_load, above_threshold, now),
    {
        let mut notices = CpuNotices { full_load: false, sustained_high: false };
        if full_load {
            match self.cpu_100_start {
                None => {
                    self.cpu_100_start = Some(now);
                },
                Some(t) => {
                    if now >= t && now - t >= FULL_LOAD_HOLD_MS && !self.cpu_100_notif {
                        notices.full_load = true;
                        self.cpu_100_notif = true;
                    }
                },
            }
        }
        if above_threshold {
            match self.cpu_warning_start {
                None => {
                    self.cpu_warning_start = Some(now);
                },
                Some(t) => {
                    if now >= t && now - t >= HIGH_LOAD_HOLD_MS && !self.cpu_warning_active {
                        notices.sustained_high = true;
                        self.cpu_warning_active = true;
                    }
                },
            }
        } else {
            self.cpu_warning_start = None;
            self.cpu_warning_active = false;
        }
        notices
    }
}

/// The memory alarm: it notifies when usage becomes high and re-arms when
/// usage drops.
#[derive(Clone, Copy, Debug, PartialEq, Eq, Structural)]
pub struct MemWatch {
    pub warning_active: bool,
}

impl MemWatch {
    /// An idle memory alarm.
    pub fn new() -> (w: MemWatch)
        ensures
            !w.warning_active,
    {
        MemWatch { warning_active: false }
    }

    /// Takes one memory sample; `high` when usage reached 80% of the total.
    /// Returns whether to notify.
    pub fn check_mem(&mut self, high: bool) -> (notify: bool)
        ensures
            notify == (high && !old(self).warning_active),
            final(self).warning_active == high,
    {
        if high {
            if !self.warning_active {
                self.warning_active = true;
                return true;
            }
            false
        } else {
            self.warning_active = false;
            false
        }
    }
}

/// How a connectivity probe went.
#[derive(Clone, Copy, Debug, PartialEq, Eq, Structural)]
pub enum PingOutcome {
    /// The probe ran and got an answer.
    Replied,
    /// The probe ran and got no answer.
    NoReply,
    /// The probe could not be run.
    Failed,
}

/// A change of connectivity worth reporting.
#[derive(Clone, Copy, Debug, PartialEq, Eq, Structural)]
pub enum NetChange {
    /// The network came back.
    Up,
    /// The probe got no answer while the network was up.
    Down,
    /// The probe could not be run while the network was up.
    Lost,
}

/// The network alarm: remembers whether the network was last seen up.
#[derive(Clone, Copy, Debug, PartialEq, Eq, Structural)]
pub struct NetWatch {
    pub is_up: bool,
}

impl NetWatch {
    /// A network alarm that starts out believing the network is `is_up`.
    pub fn new(is_up: bool) -> (w: NetWatch)
        ensures
            w.is_up == is_up,
    {
        NetWatch { is_up }
    }

    /// Takes one probe result; returns the change to report, if any.
    pub fn check_net(&mut self, outcome: PingOutcome) -> (r: Option<NetChange>)
        ensures
            final(self).is_up == (outcome == PingOutcome::Replied),
            r == (if final(self).is_up == old(self).is_up {
                None
            } else {
                match outcome {
                    PingOutcome::Replied => Some(NetChange::Up),
                    PingOutcome::NoReply => Some(NetChange::Down),
                    PingOutcome::Failed => Some(NetChange::Lost),
                }
            }),
    {
        let was_up = self.is_up;
        match outcome {
            PingOutcome::Replied => {
                if !was_up {
                    self.is_up = true;
                    return Some(NetChange::Up);
                }
                None
            },
            PingOutcome::NoReply => {
                if was_up {
                    self.is_up = false;
                    return Some(NetChange::Down);
                }
                None
            },
            PingOutcome::Failed => {
                if was_up {
                    self.is_up = false;
                    return Some(NetChange::Lost);
                }
                None
            },
        }
    }
}

/// The notice for a disk that is filling up.
pub open spec fn fill_notice(name: Seq<char>) -> Seq<char> {
    "disk:"@ + name + ",is filling please check"@
}

/// The texts of a list of strings.
pub open spec fn texts(v: Seq<String>) -> Seq<Seq<char>> {
    v.map_values(|s: String| s@)
}

/// `list` with `item` appended unless already there.
pub open spec fn add_unique(list: Seq<Seq<char>>, item: Seq<char>) -> Seq<Seq<char>> {
    if list.contains(item) {
        list
    } else {
        list.push(item)
    }
}

/// `list` after the notices of the disks `names`, in order.
pub open spec fn add_fill_notices(list: Seq<Seq<char>>, names: Seq<Seq<char>>) -> Seq<Seq<char>>
    decreases names.len(),
{
    if names.len() == 0 {
        list
    } else {
        add_unique(add_fill_notices(list, names.drop_last()), fill_notice(names.last()))
    }
}

/// The disk alarm: the notices of every disk seen filling up, and whether
/// they have been sent.
#[derive(Debug)]
pub struct DiskWatch {
    pub disks_fill: Vec<String>,
    pub disk_warning_active: bool,
}

/// The notice for the disk named `name`.
pub fn fill_notice_text(name: &str) -> (r: String)
    ensures
        r@ == fill_notice(name@),
{
    let mut s = "disk:".to_owned();
    s.append(name);
    s.append(",is filling please check");
    s
}

fn contains_text(list: &Vec<String>, item: &String) -> (r: bool)
    ensures
        r == texts(list@).contains(item@),
{
    let mut i: usize = 0;
    while i < list.len()
        invariant
            i <= list@.len(),
            forall|k: int| 0 <= k < i ==> list@[k]@ != item@,
        decreases list@.len() - i,
    {
        if list[i] == *item {
            assert(texts(list@)[i as int] == item@);
            return true;
        }
        i = i + 1;
    }
    assert forall|k: int| 0 <= k < texts(list@).len() implies texts(list@)[k] != item@ by {
        assert(list@[k]@ != item@);
    }
    false
}

impl DiskWatch {
    /// No disk seen filling up.
    pub fn new() -> (w: DiskWatch)
        ensures
            w.disks_fill@.len() == 0,
            !w.disk_warning_active,
    {
        DiskWatch { disks_fill: Vec::new(), disk_warning_active: false }
    }

    /// Takes one round over the disks; `filling` names, in order, the disks
    /// whose usage reached 90%. Returns the notices to send: all recorded
    /// notices, once, when the first ones are recorded.
    pub fn check_disk(&mut self, filling: &Vec<String>) -> (notices: Vec<String>)
        ensures
            texts(final(self).disks_fill@) == add_fill_notices(
                texts(old(self).disks_fill@),
                texts(filling@),
            ),
            final(self).disks_fill@.len() == add_fill_notices(
                texts(old(self).disks_fill@),
                texts(filling@),
            ).len(),
            final(self).disk_warning_active == (final(self).disks_fill@.len() > 0),
            notices@.len() == (if final(self).disks_fill@.len() > 0
                && !old(self).disk_warning_active {
                final(self).disks_fill@.len()
            } else {
                0
            }),
            texts(notices@) == (if final(self).disks_fill@.len() > 0
                && !old(self).disk_warning_active {
                texts(final(self).disks_fill@)
            } else {
                Seq::empty()
            }),
    {
        let ghost start = texts(self.disks_fill@);
        let n = filling.len();
        let mut i: usize = 0;
        while i < n
            invariant
                n == filling@.len(),
                i <= n,
                self.disk_warning_active == old(self).disk_warning_active,
                start == texts(old(self).disks_fill@),
                texts(self.disks_fill@) == add_fill_notices(
                    start,
                    texts(filling@).take(i as int),
                ),
            decreases n - i,
        {
            assert(texts(filling@).take(i + 1).drop_last() =~= texts(filling@).take(i as int));
            let body = fill_notice_text(filling[i].as_str());
            if !contains_text(&self.disks_fill, &body) {
                self.disks_fill.push(body);
            }
            assert(texts(self.disks_fill@) =~= add_fill_notices(
                start,
                texts(filling@).take(i + 1),
            ));
            i = i + 1;
        }
        assert(texts(filling@).take(n as int) =~= texts(filling@));
        let mut notices: Vec<String> = Vec::new();
        if self.disks_fill.len() > 0 {
            if !self.disk_warning_active {
                let m = self.disks_fill.len();
                let mut j: usize = 0;
                while j < m
                    invariant
                        m == self.disks_fill@.len(),
                        j <= m,
                        notices@.len() == j,
                        texts(notices@) == texts(self.disks_fill@).take(j as int),
                    decreases m - j,
                {
                    let item = self.disks_fill[j].clone();
                    assert(item@ == self.disks_fill@[j as int]@);
                    notices.push(item);
                    assert(notices@[j as int]@ == texts(self.disks_fill@)[j as int]);
                    assert(texts(notices@) =~= texts(self.disks_fill@).take(j + 1));
                    j = j + 1;
                }
                assert(texts(self.disks_fill@).take(m as int) =~= texts(self.disks_fill@));
                self.disk_warning_active = true;
            }
        } else {
            self.disk_warning_active = false;
        }
        notices
    }
}

/// One CPU sample: at full load, above the threshold, and when (ms).
pub struct CpuSample {
    pub full_load: bool,
    pub above: bool,
    pub now: u64,
}

/// The CPU alarms after a run of samples.
pub open spec fn cpu_run(w: CpuWatch, samples: Seq<CpuSample>) -> CpuWatch
    decreases samples.len(),
{
    if samples.len() == 0 {
        w
    } else {
        let x = samples.last();
        cpu_step(cpu_run(w, samples.drop_last()), x.full_load, x.above, x.now).0
    }
}

/// How many full-load notices a run of samples sends.
pub open spec fn full_load_notices(w: CpuWatch, samples: Seq<CpuSample>) -> nat
    decreases samples.len(),
{
    if samples.len() == 0 {
        0
    } else {
        let x = samples.last();
        let prev = samples.drop_last();
        full_load_notices(w, prev) + if cpu_step(cpu_run(w, prev), x.full_load, x.above, x.now).1.full_load {
            1nat
        } else {
            0nat
        }
    }
}

/// How many sustained-load notices a run of samples sends.
pub open spec fn high_load_notices(w: CpuWatch, samples: Seq<CpuSample>) -> nat
    decreases samples.len(),
{
    if samples.len() == 0 {
        0
    } else {
        let x = samples.last();
        let prev = samples.drop_last();
        high_load_notices(w, prev) + if cpu_step(cpu_run(w, prev), x.full_load, x.above, x.now).1.sustained_high {
            1nat
        } else {
            0nat
        }
    }
}

/// The full-load notice is sent at most once over any run of samples, and
/// never again once it has been sent.
pub proof fn lemma_full_load_notified_once(w: CpuWatch, samples: Seq<CpuSample>)
    ensures
        full_load_notices(w, samples) <= 1,
        w.cpu_100_notif ==> full_load_notices(w, samples) == 0,
        cpu_run(w, samples).cpu_100_notif == (w.cpu_100_notif || full_load_notices(w, samples) == 1),
    decreases samples.len(),
{
    if samples.len() > 0 {
        lemma_full_load_notified_once(w, samples.drop_last());
    }
}

/// Once the sustained-load notice is sent, no other is sent while every
/// sample stays above the threshold.
pub proof fn lemma_high_load_rearms(w: CpuWatch, samples: Seq<CpuSample>)
    requires
        w.cpu_warning_active,
        forall|i: int| 0 <= i < samples.len() ==> (#[trigger] samples[i]).above,
    ensures
        high_load_notices(w, samples) == 0,
        cpu_run(w, samples).cpu_warning_active,
    decreases samples.len(),
{
    if samples.len() > 0 {
        let prev = samples.drop_last();
        assert forall|i: int| 0 <= i < prev.len() implies (#[trigger] prev[i]).above by {
            assert(prev[i] == samples[i]);
        }
        lemma_high_load_rearms(w, prev);
        assert(samples[samples.len() - 1].above);
    }
}

/// What one CPU sample does to the two alarms, stated over the sample's
/// inputs: each alarm sees only its own condition; a condition that starts
/// holding starts its alarm's clock; a condition held long enough (three
/// seconds at full load, ten seconds above the threshold) on an alarm that
/// has not yet notified sends its notice, and no notice comes sooner; a
/// sample at or below
/// the threshold re-arms the high-load alarm.
pub proof fn lemma_cpu_sample(w: CpuWatch, full_load: bool, above: bool, now: u64)
    ensures
        ({
            let (a, n) = cpu_step(w, full_load, above, now);
            let (b, m) = cpu_step(w, !full_load, above, now);
            let (c, o) = cpu_step(w, full_load, !above, now);
            &&& b.cpu_warning_start == a.cpu_warning_start
            &&& b.cpu_warning_active == a.cpu_warning_active
            &&& m.sustained_high == n.sustained_high
            &&& c.cpu_100_start == a.cpu_100_start
            &&& c.cpu_100_notif == a.cpu_100_notif
            &&& o.full_load == n.full_load
            &&& (above && !w.cpu_warning_active && w.cpu_warning_start is Some && now
                >= w.cpu_warning_start->0 && now - w.cpu_warning_start->0 >= 10_000)
                ==> n.sustained_high && a.cpu_warning_active
            &&& (full_load && !w.cpu_100_notif && w.cpu_100_start is Some && now
                >= w.cpu_100_start->0 && now - w.cpu_100_start->0 >= 3_000)
                ==> n.full_load && a.cpu_100_notif
            &&& (above && w.cpu_warning_start is None) ==> a.cpu_warning_start == Some(now)
                && !n.sustained_high
            &&& (full_load && w.cpu_100_start is None) ==> a.cpu_100_start == Some(now)
                && !n.full_load
            &&& !above ==> a.cpu_warning_start is None && !a.cpu_warning_active && !n.sustained_high
            &&& !full_load ==> a.cpu_100_start == w.cpu_100_start && a.cpu_100_notif
                == w.cpu_100_notif && !n.full_load
            &&& n.sustained_high ==> above && !w.cpu_warning_active && w.cpu_warning_start is Some
                && now >= w.cpu_warning_start->0 && now - w.cpu_warning_start->0 >= 10_000
            &&& n.full_load ==> full_load && !w.cpu_100_notif && w.cpu_100_start is Some && now
                >= w.cpu_100_start->0 && now - w.cpu_100_start->0 >= 3_000
        }),
{
}

/// The full-load alarm's start is the time of the first full-load sample.
proof fn lemma_full_load_start(w: CpuWatch, samples: Seq<CpuSample>)
    requires
        w.cpu_100_start is None,
    ensures
        cpu_run(w, samples).cpu_100_start matches Some(t) ==> exists|k: int|
            0 <= k < samples.len() && (#[trigger] samples[k]).now == t && samples[k].full_load
                && forall|j: int| 0 <= j < k ==> !(#[trigger] samples[j]).full_load,
        cpu_run(w, samples).cpu_100_start is None ==> forall|j: int|
            0 <= j < samples.len() ==> !(#[trigger] samples[j]).full_load,
    decreases samples.len(),
{
    if samples.len() > 0 {
        let prev = samples.drop_last();
        lemma_full_load_start(w, prev);
        let n = samples.len() - 1;
        match cpu_run(w, prev).cpu_100_start {
            Some(t0) => {
                let k = choose|k: int|
                    0 <= k < prev.len() && (#[trigger] prev[k]).now == t0 && prev[k].full_load
                        && forall|j: int| 0 <= j < k ==> !(#[trigger] prev[j]).full_load;
                assert(samples[k] == prev[k]);
                assert forall|j: int| 0 <= j < k implies !(#[trigger] samples[j]).full_load by {
                    assert(samples[j] == prev[j]);
                }
            },
            None => {
                assert forall|j: int| 0 <= j < n implies !(#[trigger] samples[j]).full_load by {
                    assert(samples[j] == prev[j]);
                }
            },
        }
    }
}

/// The full-load notice is sent only once the hold time has passed since
/// the first full-load sample, and only at a full-load sample.
pub proof fn lemma_full_load_needs_hold(w: CpuWatch, samples: Seq<CpuSample>)
    requires
        w.cpu_100_start is None,
        samples.len() > 0,
        ({
            let x = samples.last();
            cpu_step(cpu_run(w, samples.drop_last()), x.full_load, x.above, x.now).1.full_load
        }),
    ensures
        samples.last().full_load,
        exists|k: int|
            0 <= k < samples.len() && (#[trigger] samples[k]).full_load && held_for(
                samples[k].now,
                samples.last().now,
                FULL_LOAD_HOLD_MS,
            ) && forall|j: int| 0 <= j < k ==> !(#[trigger] samples[j]).full_load,
{
    let prev = samples.drop_last();
    lemma_full_load_start(w, prev);
    let t = cpu_run(w, prev).cpu_100_start->0;
    let k = choose|k: int|
        0 <= k < prev.len() && (#[trigger] prev[k]).now == t && prev[k].full_load && forall|j: int|
            0 <= j < k ==> !(#[trigger] prev[j]).full_load;
    assert(samples[k] == prev[k]);
    assert forall|j: int| 0 <= j < k implies !(#[trigger] samples[j]).full_load by {
        assert(samples[j] == prev[j]);
    }
}

/// While the high-load alarm runs, it started at a sample from which on
/// every sample was above the threshold.
proof fn lemma_high_load_start(w: CpuWatch, samples: Seq<CpuSample>)
    requires
        w.cpu_warning_start is None,
    ensures
        cpu_run(w, samples).cpu_warning_start matches Some(t) ==> exists|k: int|
            0 <= k < samples.len() && (#[trigger] samples[k]).now == t && forall|j: int|
                k <= j < samples.len() ==> (#[trigger] samples[j]).above,
    decreases samples.len(),
{
    if samples.len() > 0 {
        let prev = samples.drop_last();
        lemma_high_load_start(w, prev);
        let n = samples.len() - 1;
        let x = samples[n];
        match cpu_run(w, samples).cpu_warning_start {
            Some(t) => {
                assert(x.above);
                match cpu_run(w, prev).cpu_warning_start {
                    Some(t0) => {
                        let k = choose|k: int|
                            0 <= k < prev.len() && (#[trigger] prev[k]).now == t0 && forall|j: int|
                                k <= j < prev.len() ==> (#[trigger] prev[j]).above;
                        assert(samples[k] == prev[k]);
                        assert forall|j: int| k <= j < samples.len() implies (#[trigger] samples[
                            j
                        ]).above by {
                            if j < n {
                                assert(samples[j] == prev[j]);
                            }
                        }
                    },
                    None => {
                        assert(samples[n].now == t);
                    },
                }
            },
            None => {},
        }
    }
}

/// A sustained-load notice is sent only after the CPU was above the
/// threshold at every sample over at least the hold time.
pub proof fn lemma_high_load_needs_hold(w: CpuWatch, samples: Seq<CpuSample>)
    requires
        w.cpu_warning_start is None,
        samples.len() > 0,
        ({
            let x = samples.last();
            cpu_step(cpu_run(w, samples.drop_last()), x.full_load, x.above, x.now).1.sustained_high
        }),
    ensures
        exists|k: int|
            0 <= k < samples.len() && held_for(
                (#[trigger] samples[k]).now,
                samples.last().now,
                HIGH_LOAD_HOLD_MS,
            ) && forall|j: int| k <= j < samples.len() ==> (#[trigger] samples[j]).above,
{
    let prev = samples.drop_last();
    let n = samples.len() - 1;
    lemma_high_load_start(w, prev);
    let t = cpu_run(w, prev).cpu_warning_start->0;
    let k = choose|k: int|
        0 <= k < prev.len() && (#[trigger] prev[k]).now == t && forall|j: int|
            k <= j < prev.len() ==> (#[trigger] prev[j]).above;
    assert(samples[k] == prev[k]);
    assert forall|j: int| k <= j < samples.len() implies (#[trigger] samples[j]).above by {
        if j < n {
            assert(samples[j] == prev[j]);
        }
    }
}

/// The disk alarm's notice list and flag after a round, and whether it
/// sends notices in that round.
pub open spec fn disk_round(list: Seq<Seq<char>>, active: bool, filling: Seq<Seq<char>>) -> (
    Seq<Seq<char>>,
    bool,
    bool,
) {
    let l = add_fill_notices(list, filling);
    (l, l.len() > 0, l.len() > 0 && !active)
}

/// How many rounds send notices.
pub open spec fn disk_notifying_rounds(
    list: Seq<Seq<char>>,
    active: bool,
    rounds: Seq<Seq<Seq<char>>>,
) -> nat
    decreases rounds.len(),
{
    if rounds.len() == 0 {
        0
    } else {
        let prev = rounds.drop_last();
        let st = disk_rounds(list, active, prev);
        disk_notifying_rounds(list, active, prev) + if disk_round(st.0, st.1, rounds.last()).2 {
            1nat
        } else {
            0nat
        }
    }
}

/// The disk alarm's notice list and flag after a run of rounds.
pub open spec fn disk_rounds(list: Seq<Seq<char>>, active: bool, rounds: Seq<Seq<Seq<char>>>) -> (
    Seq<Seq<char>>,
    bool,
)
    decreases rounds.len(),
{
    if rounds.len() == 0 {
        (list, active)
    } else {
        let st = disk_rounds(list, active, rounds.drop_last());
        let r = disk_round(st.0, st.1, rounds.last());
        (r.0, r.1)
    }
}

/// Adding notices never removes one, keeps the list free of repeats, and
/// leaves the notice of every filling disk in it.
pub proof fn lemma_fill_notices_grow(list: Seq<Seq<char>>, names: Seq<Seq<char>>)
    ensures
        add_fill_notices(list, names).len() >= list.len(),
        forall|i: int| 0 <= i < list.len() ==> add_fill_notices(list, names)[i] == list[i],
        list.no_duplicates() ==> add_fill_notices(list, names).no_duplicates(),
        forall|i: int|
            0 <= i < names.len() ==> add_fill_notices(list, names).contains(
                fill_notice(#[trigger] names[i]),
            ),
    decreases names.len(),
{
    if names.len() > 0 {
        let prev = names.drop_last();
        lemma_fill_notices_grow(list, prev);
        let q = add_fill_notices(list, prev);
        let item = fill_notice(names.last());
        assert forall|i: int|
            0 <= i < names.len() implies add_fill_notices(list, names).contains(
                fill_notice(#[trigger] names[i]),
            ) by {
            if i < names.len() - 1 {
                assert(prev[i] == names[i]);
                let k = choose|k: int| 0 <= k < q.len() && q[k] == fill_notice(prev[i]);
                if !q.contains(item) {
                    assert(q.push(item)[k] == q[k]);
                }
            } else if !q.contains(item) {
                assert(q.push(item)[q.len() as int] == item);
            }
        }
    }
}

/// With the flag set exactly when notices are recorded (as every round
/// leaves it), notices are sent in at most one round of any run, and in
/// none once they have been sent.
pub proof fn lemma_disk_notified_once(
    list: Seq<Seq<char>>,
    active: bool,
    rounds: Seq<Seq<Seq<char>>>,
)
    requires
        active == (list.len() > 0),
    ensures
        disk_notifying_rounds(list, active, rounds) <= 1,
        active ==> disk_notifying_rounds(list, active, rounds) == 0,
        disk_rounds(list, active, rounds).1 == (disk_rounds(list, active, rounds).0.len() > 0),
        disk_rounds(list, active, rounds).1 == (active || disk_notifying_rounds(list, active, rounds)
            == 1),
    decreases rounds.len(),
{
    if rounds.len() > 0 {
        let prev = rounds.drop_last();
        lemma_disk_notified_once(list, active, prev);
        let st = disk_rounds(list, active, prev);
        lemma_fill_notices_grow(st.0, rounds.last());
    }
}

/// A temperature sensor that belongs to the CPU: its label, in lower case,
/// mentions "cpu" or "core".
pub open spec fn is_cpu_label(label: Seq<char>) -> bool {
    has_substring(lowercase_of(label), "cpu"@) || has_substring(lowercase_of(label), "core"@)
}

/// A sensor measures the CPU exactly when its lower-case label mentions
/// "cpu" or "core".
pub proof fn lemma_cpu_label_words(label: Seq<char>)
    ensures
        has_substring(lowercase_of(label), "cpu"@) ==> is_cpu_label(label),
        has_substring(lowercase_of(label), "core"@) ==> is_cpu_label(label),
        !has_substring(lowercase_of(label), "cpu"@) && !has_substring(lowercase_of(label), "core"@)
            ==> !is_cpu_label(label),
{
}

/// Whether the sensor labelled `label` measures the CPU.
pub fn cpu_label(label: &str) -> (r: bool)
    ensures
        r == is_cpu_label(label@),
{
    let lower = chars_of(to_lowercase(label).as_str());
    vec_contains(&lower, &chars_of("cpu")) || vec_contains(&lower, &chars_of("core"))
}

/// The first of the sensors `labels` that measures the CPU, if any.
pub fn cpu_sensor(labels: &Vec<String>) -> (r: Option<usize>)
    ensures
        match r {
            Some(i) => i < labels@.len() && is_cpu_label(labels@[i as int]@) && forall|j: int|
                0 <= j < i ==> !is_cpu_label(labels@[j]@),
            None => forall|j: int| 0 <= j < labels@.len() ==> !is_cpu_label(labels@[j]@),
        },
{
    let mut i: usize = 0;
    while i < labels.len()
        invariant
            i <= labels@.len(),
            forall|j: int| 0 <= j < i ==> !is_cpu_label(labels@[j]@),
        decreases labels@.len() - i,
    {
        if cpu_label(labels[i].as_str()) {
            return Some(i);
        }
        i = i + 1;
    }
    None
}

} // verus!
