//! When a daemon is stopped because it uses too much memory or processor time.
use crate::collect::{TextMap, TextSet};
use crate::daemon_id;
use crate::daemon_id::DaemonId;
use crate::text;
use vstd::prelude::*;

verus! {

/// What is known of a daemon with respect to its limits.
#[derive(Debug)]
pub struct LimitedDaemon {
    pub id: DaemonId,
    pub pid: Option<u32>,
    pub running: bool,
    /// The memory that it may use, in bytes.
    pub memory_limit: Option<u64>,
    /// Whether the processor time that it may use is limited.
    pub cpu_limited: bool,
}

/// A daemon by its qualified identifier, with its limits.
pub struct Limits {
    pub id: Seq<char>,
    pub memory: Option<u64>,
    pub cpu: bool,
}

impl LimitedDaemon {
    /// The limits of the daemon.
    pub open spec fn limits(&self) -> Limits {
        Limits {
            id: daemon_id::qualified_text(self.id@.0, self.id@.1),
            memory: self.memory_limit,
            cpu: self.cpu_limited,
        }
    }

    /// Whether the daemon has a limit. The supervisor itself has none.
    pub open spec fn is_limited(&self) -> bool {
        self.id@ != ("global"@, "pitchfork"@) && (self.memory_limit is Some || self.cpu_limited)
    }

    /// Whether the daemon is to be checked: it has a limit and runs.
    pub open spec fn is_checked(&self) -> bool {
        self.is_limited() && self.pid is Some && self.running
    }

    /// Whether the daemon is to be checked.
    pub fn to_check(&self) -> (r: bool)
        ensures
            r == self.is_checked(),
    {
        !self.id.same(&DaemonId::pitchfork()) && (self.memory_limit.is_some() || self.cpu_limited)
            && self.pid.is_some() && self.running
    }
}

/// What a process uses.
#[derive(Debug, Clone, Copy, PartialEq, Eq, Structural)]
pub struct Sample {
    /// The memory, in bytes.
    pub memory: u64,
    /// Whether the processor time is over the limit.
    pub cpu_over: bool,
}

/// What is done about a daemon.
#[derive(Debug, Clone, Copy, PartialEq, Eq, Structural)]
pub enum Enforcement {
    /// Nothing is known of its process.
    Unknown,
    /// It is within its limits.
    Within,
    /// It was over the limit of the processor time, so many times in a row.
    Counted(u32),
    /// It is stopped for its memory.
    StopForMemory,
    /// It is stopped because it was over the limit of the processor time so many times in a row.
    StopForCpu(u32),
}

/// The number of samples in a row over the limit of the processor time that stop a daemon.
pub fn cpu_threshold(setting: i64) -> (r: u32)
    ensures
        r == (if setting < 1 {
            1
        } else {
            setting as int
        }) as u32,
{
    if setting < 1 {
        1
    } else {
        #[verifier::truncate]
        (setting as u32)
    }
}

/// The number of samples in a row that were over the limit.
pub open spec fn counted(counts: Map<Seq<char>, u32>, id: Seq<char>) -> nat {
    if counts.contains_key(id) {
        counts[id] as nat
    } else {
        0
    }
}

/// What a sample does to the counts, and what is done about the daemon.
pub open spec fn judged(
    counts: Map<Seq<char>, u32>,
    daemon: Limits,
    sample: Option<Sample>,
    threshold: nat,
) -> (Map<Seq<char>, u32>, Enforcement) {
    match sample {
        None => (counts, Enforcement::Unknown),
        Some(s) => if daemon.memory matches Some(limit) && s.memory > limit {
            (counts.remove(daemon.id), Enforcement::StopForMemory)
        } else if !daemon.cpu {
            (counts, Enforcement::Within)
        } else if !s.cpu_over {
            (counts.remove(daemon.id), Enforcement::Within)
        } else {
            let count = counted(counts, daemon.id) + 1;
            if count >= threshold {
                (counts.remove(daemon.id), Enforcement::StopForCpu(count as u32))
            } else {
                (counts.insert(daemon.id, count as u32), Enforcement::Counted(count as u32))
            }
        },
    }
}

/// What the samples of daemons do to the counts, and what is done about each daemon.
pub open spec fn judged_all(
    counts: Map<Seq<char>, u32>,
    daemons: Seq<LimitedDaemon>,
    samples: Seq<Option<Sample>>,
    threshold: nat,
) -> (Map<Seq<char>, u32>, Seq<Enforcement>)
    decreases daemons.len(),
{
    if daemons.len() == 0 {
        (counts, Seq::empty())
    } else {
        let (before, done) = judged_all(counts, daemons.drop_last(), samples, threshold);
        let (after, last) = judged(
            before,
            daemons.last().limits(),
            samples[daemons.len() - 1],
            threshold,
        );
        (after, done.push(last))
    }
}

/// The daemons whose processes are known.
pub open spec fn sampled(daemons: Seq<LimitedDaemon>, samples: Seq<Option<Sample>>) -> Set<
    Seq<char>,
> {
    Set::new(
        |id: Seq<char>|
            exists|i: int|
                #![trigger daemons[i]]
                0 <= i < daemons.len() && samples[i] is Some && daemons[i].limits().id == id,
    )
}

/// The counts of daemons whose processor time was over the limit in the last samples.
#[derive(Debug)]
pub struct Violations {
    counts: TextMap<u32>,
}

impl View for Violations {
    type V = Map<Seq<char>, u32>;

    closed spec fn view(&self) -> Map<Seq<char>, u32> {
        self.counts@
    }
}

impl Violations {
    /// Whether every count can grow by one.
    pub open spec fn wf(&self) -> bool {
        forall|id: Seq<char>| #[trigger] self@.contains_key(id) ==> self@[id] < u32::MAX
    }

    /// No daemon was over its limit.
    pub fn new() -> (r: Violations)
        ensures
            r@ == Map::<Seq<char>, u32>::empty(),
            r.wf(),
    {
        Violations { counts: TextMap::new() }
    }

    /// Judges the sample of a daemon.
    fn judge(&mut self, daemon: &LimitedDaemon, sample: Option<Sample>, threshold: u32) -> (r:
        Enforcement)
        requires
            old(self).wf(),
        ensures
            (final(self)@, r) == judged(old(self)@, daemon.limits(), sample, threshold as nat),
            r is StopForMemory <==> (sample matches Some(s) && (daemon.memory_limit matches Some(
                limit,
            ) && s.memory > limit)),
            r is Unknown <==> sample is None,
            final(self).wf(),
    {
        let s = match sample {
            Some(s) => s,
            None => {
                return Enforcement::Unknown;
            },
        };
        let id = daemon.id.qualified();
        if let Some(limit) = daemon.memory_limit {
            if s.memory > limit {
                let _ = self.counts.remove(id.as_str());
                return Enforcement::StopForMemory;
            }
        }
        if !daemon.cpu_limited {
            return Enforcement::Within;
        }
        if !s.cpu_over {
            let _ = self.counts.remove(id.as_str());
            return Enforcement::Within;
        }
        let count: u32 = match self.counts.get(id.as_str()) {
            Some(n) => *n + 1,
            None => 1,
        };
        if count >= threshold {
            let _ = self.counts.remove(id.as_str());
            Enforcement::StopForCpu(count)
        } else {
            self.counts.insert(id, count);
            Enforcement::Counted(count)
        }
    }

    /// Judges the samples of daemons in turn. Counts of daemons whose processes are not known
    /// are forgotten, unless there is no daemon to judge.
    pub fn check(
        &mut self,
        daemons: &Vec<LimitedDaemon>,
        samples: &Vec<Option<Sample>>,
        threshold: u32,
    ) -> (r: Vec<Enforcement>)
        requires
            old(self).wf(),
            samples@.len() == daemons@.len(),
        ensures
            final(self).wf(),
            r@ == judged_all(old(self)@, daemons@, samples@, threshold as nat).1,
            final(self)@ == if daemons@.len() == 0 {
                old(self)@
            } else {
                judged_all(old(self)@, daemons@, samples@, threshold as nat).0.restrict(
                    sampled(daemons@, samples@),
                )
            },
    {
        let mut out: Vec<Enforcement> = Vec::new();
        if daemons.len() == 0 {
            return out;
        }
        let ghost start = self@;
        let mut active = TextSet::new();
        let mut i: usize = 0;
        assert(out@ =~= judged_all(start, daemons@.take(0), samples@, threshold as nat).1);
        while i < daemons.len()
            invariant
                i <= daemons@.len(),
                samples@.len() == daemons@.len(),
                self.wf(),
                (self@, out@) == judged_all(
                    start,
                    daemons@.take(i as int),
                    samples@,
                    threshold as nat,
                ),
                forall|id: Seq<char>| #[trigger]
                    active@.contains(id) <==> exists|k: int|
                        #![trigger daemons@[k]]
                        0 <= k < i && samples@[k] is Some && daemons@[k].limits().id == id,
            decreases daemons@.len() - i,
        {
            let ghost before = active@;
            let sample = samples[i];
            if sample.is_some() {
                active.insert(daemons[i].id.qualified());
            }
            let verdict = self.judge(&daemons[i], sample, threshold);
            out.push(verdict);
            proof {
                assert(daemons@.take(i + 1).drop_last() =~= daemons@.take(i as int));
                assert(daemons@.take(i + 1).last() == daemons@[i as int]);
                assert forall|id: Seq<char>| #[trigger] active@.contains(id) <==> exists|k: int|
                    #![trigger daemons@[k]]
                    0 <= k < i + 1 && samples@[k] is Some && daemons@[k].limits().id == id by {
                    if active@.contains(id) && !before.contains(id) {
                        assert(daemons@[i as int].limits().id == id);
                    }
                }
            }
            i = i + 1;
        }
        assert(daemons@.take(i as int) =~= daemons@);
        assert(active@ =~= sampled(daemons@, samples@));
        let ghost grown = self@;
        let keys = self.counts.keys();
        let mut kept: TextMap<u32> = TextMap::new();
        let mut j: usize = 0;
        while j < keys.len()
            invariant
                j <= keys@.len(),
                grown == self.counts@,
                text::texts(keys@).to_set() == grown.dom(),
                forall|id: Seq<char>|
                    {
                        &&& #[trigger] kept@.contains_key(id) <==> (text::texts(keys@).take(
                            j as int,
                        ).contains(id) && active@.contains(id))
                        &&& kept@.contains_key(id) ==> grown.contains_key(id) && kept@[id]
                            == grown[id]
                    },
            decreases keys@.len() - j,
        {
            let ghost all = text::texts(keys@);
            let ghost key = keys@[j as int]@;
            let ghost before = kept@;
            proof {
                assert(all[j as int] == key);
                assert(all.to_set().contains(key));
                assert(all.take(j + 1) =~= all.take(j as int).push(key));
                assert forall|id: Seq<char>| #[trigger] all.take(j + 1).contains(id) == (all.take(
                    j as int,
                ).contains(id) || id == key) by {
                    if all.take(j as int).contains(id) {
                        let k = choose|k: int| 0 <= k < j && all.take(j as int)[k] == id;
                        assert(all.take(j + 1)[k] == id);
                    }
                    assert(all.take(j + 1)[j as int] == key);
                }
            }
            if active.contains(keys[j].as_str()) {
                if let Some(count) = self.counts.get(keys[j].as_str()) {
                    kept.insert(keys[j].clone(), *count);
                }
            }
            assert forall|id: Seq<char>|
                {
                    &&& #[trigger] kept@.contains_key(id) <==> (all.take(j + 1).contains(id)
                        && active@.contains(id))
                    &&& kept@.contains_key(id) ==> grown.contains_key(id) && kept@[id] == grown[id]
                } by {
                if id != key {
                    assert(before.contains_key(id) == kept@.contains_key(id));
                }
            }
            j = j + 1;
        }
        proof {
            let all = text::texts(keys@);
            assert(all.take(j as int) =~= all);
            assert forall|id: Seq<char>| #[trigger] kept@.contains_key(id) == grown.restrict(
                active@,
            ).contains_key(id) by {
                if grown.contains_key(id) {
                    assert(all.to_set().contains(id));
                }
            }
            assert(kept@ =~= grown.restrict(active@));
        }
        self.counts = kept;
        out
    }
}

/// A daemon is stopped for its memory exactly where it has a limit and the sample is above it,
/// whatever its processor time and the counts are.
pub proof fn memory_over_the_limit_stops(
    counts: Map<Seq<char>, u32>,
    daemon: LimitedDaemon,
    sample: Sample,
    threshold: nat,
)
    ensures
        judged(counts, daemon.limits(), Some(sample), threshold).1 is StopForMemory <==> (
        daemon.memory_limit matches Some(limit) && sample.memory > limit),
        !(judged(counts, daemon.limits(), None, threshold).1 is StopForMemory),
{
}

/// A daemon within its memory is judged by its processor time: without a limit of that, or below it,
/// it is within its limits. Above it, it is stopped exactly where with this sample it was so as many
/// times in a row as the threshold says; before that the times are counted.
pub proof fn processor_time_over_the_limit_counts(
    counts: Map<Seq<char>, u32>,
    daemon: LimitedDaemon,
    sample: Sample,
    threshold: nat,
)
    requires
        daemon.memory_limit matches Some(limit) ==> sample.memory <= limit,
        counts.contains_key(daemon.limits().id) ==> counts[daemon.limits().id] < u32::MAX,
    ensures
        ({
            let verdict = judged(counts, daemon.limits(), Some(sample), threshold).1;
            let times = 1 + if counts.contains_key(daemon.limits().id) {
                counts[daemon.limits().id] as int
            } else {
                0
            };
            &&& verdict is Within <==> !daemon.cpu_limited || !sample.cpu_over
            &&& daemon.cpu_limited && sample.cpu_over && times >= threshold ==> verdict
                == Enforcement::StopForCpu(times as u32)
            &&& daemon.cpu_limited && sample.cpu_over && times < threshold ==> verdict
                == Enforcement::Counted(times as u32)
        }),
        judged(counts, daemon.limits(), None, threshold) == (counts, Enforcement::Unknown),
{
}

/// A sample over the limit of the processor time that does not stop the daemon adds one to its
/// count. A sample below it, or one that stops the daemon, starts the count anew. The counts of other
/// daemons stay.
pub proof fn only_the_own_count_changes(
    counts: Map<Seq<char>, u32>,
    daemon: LimitedDaemon,
    sample: Option<Sample>,
    threshold: nat,
    id: Seq<char>,
)
    requires
        counts.contains_key(daemon.limits().id) ==> counts[daemon.limits().id] < u32::MAX,
    ensures
        ({
            let (after, verdict) = judged(counts, daemon.limits(), sample, threshold);
            let own = daemon.limits().id;
            &&& id != own ==> after.contains_key(id) == counts.contains_key(id) && (
            counts.contains_key(id) ==> after[id] == counts[id])
            &&& verdict matches Enforcement::Counted(n) ==> after.contains_key(own) && after[own] == n
                && n == 1 + if counts.contains_key(own) {
                counts[own] as int
            } else {
                0
            }
            &&& verdict is StopForCpu || verdict is StopForMemory ==> !after.contains_key(own)
            &&& verdict is Within && daemon.cpu_limited ==> !after.contains_key(own)
            &&& verdict is Unknown ==> after == counts
        }),
{
}

/// No daemon has two samples in a round.
pub open spec fn are_distinct(daemons: Seq<LimitedDaemon>) -> bool {
    forall|i: int, j: int|
        #![trigger daemons[i], daemons[j]]
        0 <= i < j < daemons.len() ==> daemons[i].limits().id != daemons[j].limits().id
}

/// In a round each daemon is judged by its own sample and its own count alone: a daemon is stopped
/// for its memory exactly where its sample is above its limit, and what is done about one does not
/// depend on the others.
pub proof fn each_daemon_is_judged_alone(
    counts: Map<Seq<char>, u32>,
    daemons: Seq<LimitedDaemon>,
    samples: Seq<Option<Sample>>,
    threshold: nat,
    at: int,
)
    requires
        are_distinct(daemons),
        samples.len() == daemons.len(),
        0 <= at < daemons.len(),
    ensures
        ({
            let verdicts = judged_all(counts, daemons, samples, threshold).1;
            &&& verdicts.len() == daemons.len()
            &&& verdicts[at] == judged(counts, daemons[at].limits(), samples[at], threshold).1
            &&& verdicts[at] is Unknown <==> samples[at] is None
            &&& verdicts[at] is StopForMemory <==> (samples[at] matches Some(s) && (
            daemons[at].memory_limit matches Some(limit) && s.memory > limit))
        }),
{
    lemma_rounds(counts, daemons, samples, threshold, daemons.len() as int);
    lemma_one_of_round(counts, daemons, samples, threshold, at);
}

/// A round has as many verdicts as daemons, and touches the counts of those alone.
proof fn lemma_rounds(
    counts: Map<Seq<char>, u32>,
    daemons: Seq<LimitedDaemon>,
    samples: Seq<Option<Sample>>,
    threshold: nat,
    n: int,
)
    requires
        n == daemons.len(),
    ensures
        judged_all(counts, daemons, samples, threshold).1.len() == daemons.len(),
        forall|id: Seq<char>|
            (forall|i: int| 0 <= i < daemons.len() ==> (#[trigger] daemons[i]).limits().id != id) ==> {
                &&& #[trigger] judged_all(counts, daemons, samples, threshold).0.contains_key(id)
                    == counts.contains_key(id)
                &&& counts.contains_key(id) ==> judged_all(counts, daemons, samples, threshold).0[id]
                    == counts[id]
            },
    decreases daemons.len(),
{
    if daemons.len() > 0 {
        let first = daemons.drop_last();
        lemma_rounds(counts, first, samples, threshold, n - 1);
        let after = judged_all(counts, daemons, samples, threshold).0;
        assert forall|id: Seq<char>|
            (forall|i: int| 0 <= i < daemons.len() ==> (#[trigger] daemons[i]).limits().id != id) implies {
            &&& #[trigger] after.contains_key(id) == counts.contains_key(id)
            &&& counts.contains_key(id) ==> after[id] == counts[id]
        } by {
            assert forall|i: int| 0 <= i < first.len() implies (#[trigger] first[i]).limits().id
                != id by {
                assert(daemons[i] == first[i]);
            }
            assert(daemons[daemons.len() - 1].limits().id != id);
            let earlier = judged_all(counts, first, samples, threshold).0;
            assert(earlier.contains_key(id) == counts.contains_key(id));
        }
    }
}

/// What is done about a daemon depends on its own sample and count.
proof fn lemma_one_of_round(
    counts: Map<Seq<char>, u32>,
    daemons: Seq<LimitedDaemon>,
    samples: Seq<Option<Sample>>,
    threshold: nat,
    at: int,
)
    requires
        are_distinct(daemons),
        0 <= at < daemons.len(),
    ensures
        judged_all(counts, daemons, samples, threshold).1[at] == judged(
            counts,
            daemons[at].limits(),
            samples[at],
            threshold,
        ).1,
    decreases daemons.len(),
{
    let first = daemons.drop_last();
    lemma_rounds(counts, first, samples, threshold, first.len() as int);
    if at < daemons.len() - 1 {
        assert(are_distinct(first)) by {
            assert forall|i: int, j: int|
                #![trigger first[i], first[j]]
                0 <= i < j < first.len() implies first[i].limits().id != first[j].limits().id by {
                assert(daemons[i] == first[i] && daemons[j] == first[j]);
            }
        }
        lemma_one_of_round(counts, first, samples, threshold, at);
        assert(first[at] == daemons[at]);
    } else {
        let earlier = judged_all(counts, first, samples, threshold).0;
        let id = daemons[at].limits().id;
        assert forall|i: int| 0 <= i < first.len() implies (#[trigger] first[i]).limits().id
            != id by {
            assert(daemons[i] == first[i]);
        }
        assert(earlier.contains_key(id) == counts.contains_key(id));
    }
}

/// Limits are checked of exactly the daemons that run and have a limit, and never of the supervisor.
pub proof fn running_limited_daemons_are_checked(d: LimitedDaemon)
    ensures
        d.is_checked() <==> {
            &&& d.running && d.pid is Some
            &&& d.memory_limit is Some || d.cpu_limited
            &&& d.id@ != ("global"@, "pitchfork"@)
        },
        d.limits().memory == d.memory_limit,
        d.limits().cpu == d.cpu_limited,
        d.limits().id == daemon_id::qualified_text(d.id@.0, d.id@.1),
{
}

/// The counts after the samples of one daemon.
pub open spec fn counts_after(daemon: Limits, samples: Seq<Sample>, threshold: nat) -> Map<
    Seq<char>,
    u32,
>
    decreases samples.len(),
{
    if samples.len() == 0 {
        Map::empty()
    } else {
        judged(
            counts_after(daemon, samples.drop_last(), threshold),
            daemon,
            Some(samples.last()),
            threshold,
        ).0
    }
}

/// What the last of the samples of one daemon leads to.
pub open spec fn last_verdict(
    daemon: Limits,
    samples: Seq<Sample>,
    threshold: nat,
) -> Enforcement {
    judged(
        counts_after(daemon, samples.drop_last(), threshold),
        daemon,
        Some(samples.last()),
        threshold,
    ).1
}

/// The count after some samples is below the threshold, and as many samples were over the limit
/// in a row.
proof fn lemma_count_is_a_run(daemon: Limits, samples: Seq<Sample>, threshold: nat)
    requires
        0 < threshold <= u32::MAX,
    ensures
        !daemon.cpu ==> counted(counts_after(daemon, samples, threshold), daemon.id) == 0,
        counted(counts_after(daemon, samples, threshold), daemon.id) < threshold,
        counted(counts_after(daemon, samples, threshold), daemon.id) <= samples.len(),
        forall|k: int|
            samples.len() - counted(counts_after(daemon, samples, threshold), daemon.id) <= k
                < samples.len() ==> (#[trigger] samples[k]).cpu_over,
    decreases samples.len(),
{
    if samples.len() > 0 {
        lemma_count_is_a_run(daemon, samples.drop_last(), threshold);
        let n = counted(counts_after(daemon, samples, threshold), daemon.id);
        assert forall|k: int| samples.len() - n <= k < samples.len() implies (
        #[trigger] samples[k]).cpu_over by {
            if k < samples.len() - 1 {
                assert(samples.drop_last()[k] == samples[k]);
            }
        }
    }
}

/// A daemon is stopped for its processor time only after as many samples in a row over the limit
/// as the threshold says. A single spike does not stop it.
pub proof fn spikes_do_not_stop(daemon: Limits, samples: Seq<Sample>, threshold: nat)
    requires
        0 < threshold <= u32::MAX,
        samples.len() > 0,
        last_verdict(daemon, samples, threshold) is StopForCpu,
    ensures
        samples.len() >= threshold,
        forall|k: int|
            samples.len() - threshold <= k < samples.len() ==> (#[trigger] samples[k]).cpu_over,
{
    let before = samples.drop_last();
    lemma_count_is_a_run(daemon, before, threshold);
    assert forall|k: int| samples.len() - threshold <= k < samples.len() implies (
    #[trigger] samples[k]).cpu_over by {
        if k < samples.len() - 1 {
            assert(before[k] == samples[k]);
        }
    }
}

/// Whether one of the last `n` samples stops the daemon for its processor time.
pub open spec fn stopped_within(
    daemon: Limits,
    samples: Seq<Sample>,
    threshold: nat,
    n: nat,
) -> bool
    decreases n,
{
    n > 0 && samples.len() > 0 && (last_verdict(daemon, samples, threshold) is StopForCpu
        || stopped_within(daemon, samples.drop_last(), threshold, (n - 1) as nat))
}

/// The count grows with every sample over the limit until the daemon is stopped.
proof fn lemma_count_grows(daemon: Limits, samples: Seq<Sample>, threshold: nat, n: nat)
    requires
        0 < threshold <= u32::MAX,
        daemon.cpu,
        n <= samples.len(),
        forall|k: int|
            samples.len() - n <= k < samples.len() ==> (#[trigger] samples[k]).cpu_over && (
            daemon.memory matches Some(limit) ==> samples[k].memory <= limit),
    ensures
        stopped_within(daemon, samples, threshold, n) || counted(
            counts_after(daemon, samples, threshold),
            daemon.id,
        ) >= n,
    decreases n,
{
    if n > 0 {
        let before = samples.drop_last();
        assert forall|k: int| before.len() - (n - 1) <= k < before.len() implies (
        #[trigger] before[k]).cpu_over && (daemon.memory matches Some(limit) ==> before[k].memory
            <= limit) by {
            assert(before[k] == samples[k]);
        }
        lemma_count_grows(daemon, before, threshold, (n - 1) as nat);
        lemma_count_is_a_run(daemon, before, threshold);
        assert(samples[samples.len() - 1].cpu_over);
    }
}

/// A daemon that is over the limit of its processor time in as many samples in a row as the
/// threshold says, and within its memory, is stopped at the latest by the last of them.
pub proof fn sustained_use_stops(daemon: Limits, samples: Seq<Sample>, threshold: nat)
    requires
        0 < threshold <= u32::MAX,
        daemon.cpu,
        threshold <= samples.len(),
        forall|k: int|
            samples.len() - threshold <= k < samples.len() ==> (#[trigger] samples[k]).cpu_over && (
            daemon.memory matches Some(limit) ==> samples[k].memory <= limit),
    ensures
        stopped_within(daemon, samples, threshold, threshold),
{
    lemma_count_grows(daemon, samples, threshold, threshold);
    lemma_count_is_a_run(daemon, samples, threshold);
}

/// The seconds between two rounds of log retention.
pub const RETENTION_INTERVAL: u64 = 3600;

/// Whether log retention is due, some seconds after its last round.
pub fn retention_due(elapsed_secs: u64) -> (r: bool)
    ensures
        r == (elapsed_secs >= RETENTION_INTERVAL),
{
    elapsed_secs >= RETENTION_INTERVAL
}

/// Whether any daemon has a limit. Without one nothing is checked.
pub fn any_limits(daemons: &Vec<LimitedDaemon>) -> (r: bool)
    ensures
        r == exists|i: int| 0 <= i < daemons@.len() && (#[trigger] daemons@[i]).is_limited(),
{
    let supervisor = DaemonId::pitchfork();
    let mut i: usize = 0;
    while i < daemons.len()
        invariant
            i <= daemons@.len(),
            supervisor@ == ("global"@, "pitchfork"@),
            forall|k: int| 0 <= k < i ==> !(#[trigger] daemons@[k]).is_limited(),
        decreases daemons@.len() - i,
    {
        let d = &daemons[i];
        if !d.id.same(&supervisor) && (d.memory_limit.is_some() || d.cpu_limited) {
            assert(daemons@[i as int].is_limited());
            return true;
        }
        i = i + 1;
    }
    false
}

/// The daemons whose counts are kept are those with a sample: a daemon without one starts anew.
pub proof fn daemons_without_a_sample_start_anew(
    daemons: Seq<LimitedDaemon>,
    samples: Seq<Option<Sample>>,
    id: Seq<char>,
)
    requires
        samples.len() == daemons.len(),
    ensures
        sampled(daemons, samples).contains(id) <==> exists|i: int|
            #![trigger daemons[i]]
            0 <= i < daemons.len() && samples[i] is Some && daemons[i].limits().id == id,
        (forall|i: int|
            #![trigger daemons[i]]
            0 <= i < daemons.len() && daemons[i].limits().id == id ==> samples[i] is None)
            ==> !sampled(daemons, samples).contains(id),
{
}

} // verus!
