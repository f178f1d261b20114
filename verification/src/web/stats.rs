//! The counts of daemons, and the numbers of the system that they run on.
use crate::collect::TextSet;
use crate::daemon_id;
use crate::daemon_id::DaemonId;
use crate::daemon_status::DaemonStatus;
use vstd::prelude::*;

verus! {

/// The numbers of the system.
#[derive(Debug, Clone, Copy, PartialEq, Eq, Structural)]
pub struct SystemStats {
    pub process_count: usize,
    pub cpu_count: usize,
    /// The memory, in bytes.
    pub total_memory: u64,
}

/// The numbers of the system, how many daemons there are, and in which states.
#[derive(Debug, Clone, Copy, PartialEq, Eq, Structural)]
pub struct ApiStats {
    pub process_count: usize,
    pub cpu_count: usize,
    /// The memory of the system, in bytes.
    pub total_memory: u64,
    pub total: usize,
    pub running: usize,
    pub stopped: usize,
    pub errored: usize,
    /// Those that are configured and were not started.
    pub available: usize,
}

/// A daemon of the state.
#[derive(Debug)]
pub struct StateDaemon {
    pub id: DaemonId,
    pub status: DaemonStatus,
    /// Whether it is there because it is configured, and was never started.
    pub config_registered: bool,
}

/// The id of the supervisor.
pub open spec fn supervisor() -> (Seq<char>, Seq<char>) {
    ("global"@, "pitchfork"@)
}

/// Whether a daemon is counted in a state.
pub open spec fn counts_as(d: StateDaemon, status: DaemonStatus) -> bool {
    d.id@ != supervisor() && d.status == status && !d.config_registered
}

/// Whether a daemon of the state is available.
pub open spec fn waits_for_start(d: StateDaemon) -> bool {
    d.id@ != supervisor() && d.config_registered
}

/// Whether a daemon of the user is in the state.
pub open spec fn in_state(state: Seq<StateDaemon>, id: (Seq<char>, Seq<char>)) -> bool {
    exists|i: int| 0 <= i < state.len() && (#[trigger] state[i]).id@ == id && id != supervisor()
}

/// The number of daemons in a state.
pub open spec fn count_of(state: Seq<StateDaemon>, status: DaemonStatus) -> nat {
    state.filter(|d: StateDaemon| counts_as(d, status)).len()
}

/// The number of configured daemons that are not in the state.
pub open spec fn unknown_count(state: Seq<StateDaemon>, config: Seq<DaemonId>) -> nat {
    config.filter(|id: DaemonId| id@ != supervisor() && !in_state(state, id@)).len()
}

/// The number of daemons that are available.
pub open spec fn available_count(state: Seq<StateDaemon>, config: Seq<DaemonId>) -> nat {
    unknown_count(state, config) + state.filter(|d: StateDaemon| waits_for_start(d)).len()
}

/// The names of the daemons of the state, without the supervisor.
pub open spec fn state_names(state: Seq<StateDaemon>) -> Set<Seq<char>> {
    Set::new(
        |name: Seq<char>|
            exists|i: int|
                0 <= i < state.len() && (#[trigger] state[i]).id@ != supervisor() && name
                    == daemon_id::qualified_text(state[i].id@.0, state[i].id@.1),
    )
}

/// The names of the configured daemons.
pub open spec fn config_names(config: Seq<DaemonId>) -> Set<Seq<char>> {
    Set::new(
        |name: Seq<char>|
            exists|i: int|
                0 <= i < config.len() && name == daemon_id::qualified_text(
                    (#[trigger] config[i])@.0,
                    config[i]@.1,
                ),
    )
}

fn counts(d: &StateDaemon, status: DaemonStatus, supervisor: &DaemonId) -> (r: bool)
    requires
        supervisor@ == self::supervisor(),
    ensures
        r == counts_as(*d, status),
{
    !d.id.same(supervisor) && d.status == status && !d.config_registered
}

fn count(state: &Vec<StateDaemon>, status: DaemonStatus) -> (r: usize)
    ensures
        r == count_of(state@, status),
{
    let supervisor = DaemonId::pitchfork();
    let mut n: usize = 0;
    let mut i: usize = 0;
    while i < state.len()
        invariant
            i <= state@.len(),
            n <= i,
            supervisor@ == self::supervisor(),
            n == count_of(state@.take(i as int), status),
        decreases state@.len() - i,
    {
        proof {
            lemma_filter_step(state@, i as int, |d: StateDaemon| counts_as(d, status));
        }
        if counts(&state[i], status, &supervisor) {
            n = n + 1;
        }
        i = i + 1;
    }
    assert(state@.take(i as int) =~= state@);
    n
}

/// What a test lets through of one element more.
proof fn lemma_filter_step<A>(s: Seq<A>, i: int, f: spec_fn(A) -> bool)
    requires
        0 <= i < s.len(),
    ensures
        s.take(i + 1).filter(f).len() == s.take(i).filter(f).len() + if f(s[i]) {
            1nat
        } else {
            0nat
        },
{
    reveal(Seq::filter);
    assert(s.take(i + 1).drop_last() =~= s.take(i));
}

fn is_in_state(state: &Vec<StateDaemon>, id: &DaemonId, supervisor: &DaemonId) -> (r: bool)
    requires
        supervisor@ == self::supervisor(),
    ensures
        r == in_state(state@, id@),
{
    if id.same(supervisor) {
        return false;
    }
    let mut i: usize = 0;
    while i < state.len()
        invariant
            i <= state@.len(),
            id@ != self::supervisor(),
            forall|k: int| 0 <= k < i ==> (#[trigger] state@[k]).id@ != id@,
        decreases state@.len() - i,
    {
        if state[i].id.same(id) {
            return true;
        }
        i = i + 1;
    }
    false
}

impl ApiStats {
    /// Whether the numbers of the system are these.
    pub open spec fn tells(&self, system: SystemStats) -> bool {
        &&& self.process_count == system.process_count
        &&& self.cpu_count == system.cpu_count
        &&& self.total_memory == system.total_memory
    }

    /// The numbers where nothing is known of the configuration.
    pub fn none(system: SystemStats) -> (r: ApiStats)
        ensures
            r.tells(system),
            r.total == 0 && r.running == 0 && r.stopped == 0 && r.errored == 0 && r.available == 0,
    {
        ApiStats {
            process_count: system.process_count,
            cpu_count: system.cpu_count,
            total_memory: system.total_memory,
            total: 0,
            running: 0,
            stopped: 0,
            errored: 0,
            available: 0,
        }
    }

    /// The numbers of the system, and the counts of the daemons of the state and of the
    /// configuration.
    pub fn count(state: &Vec<StateDaemon>, config: &Vec<DaemonId>, system: SystemStats) -> (r:
        ApiStats)
        requires
            state@.len() + config@.len() <= usize::MAX,
        ensures
            r.tells(system),
            r.running == count_of(state@, DaemonStatus::Running),
            r.stopped == count_of(state@, DaemonStatus::Stopped),
            r.errored == count_of(state@, DaemonStatus::Errored),
            r.available == available_count(state@, config@),
            r.total == state_names(state@).union(config_names(config@)).len(),
    {
        let supervisor = DaemonId::pitchfork();
        let running: usize = self::count(state, DaemonStatus::Running);
        let stopped: usize = self::count(state, DaemonStatus::Stopped);
        let errored: usize = self::count(state, DaemonStatus::Errored);
        let mut available: usize = 0;
        let mut all = TextSet::new();
        let mut i: usize = 0;
        assert(all@ =~= state_names(state@.take(0)));
        while i < state.len()
            invariant
                i <= state@.len(),
                supervisor@ == self::supervisor(),
                available <= i,
                available == state@.take(i as int).filter(
                    |d: StateDaemon| waits_for_start(d),
                ).len(),
                all@ == state_names(state@.take(i as int)),
            decreases state@.len() - i,
        {
            let ghost before = state@.take(i as int);
            proof {
                lemma_filter_step(state@, i as int, |d: StateDaemon| waits_for_start(d));
                assert(state@.take(i + 1) =~= before.push(state@[i as int]));
                lemma_names_push(before, state@[i as int]);
            }
            if !state[i].id.same(&supervisor) {
                if state[i].config_registered {
                    available = available + 1;
                }
                all.insert(state[i].id.qualified());
            }
            i = i + 1;
        }
        assert(state@.take(i as int) =~= state@);
        let mut k: usize = 0;
        assert(all@ =~= state_names(state@).union(config_names(config@.take(0))));
        while k < config.len()
            invariant
                k <= config@.len(),
                state@.len() + config@.len() <= usize::MAX,
                supervisor@ == self::supervisor(),
                available <= state@.len() + k,
                available == available_count(state@, config@.take(k as int)),
                all@ == state_names(state@).union(config_names(config@.take(k as int))),
            decreases config@.len() - k,
        {
            let ghost before = config@.take(k as int);
            proof {
                lemma_filter_step(
                    config@,
                    k as int,
                    |id: DaemonId| id@ != self::supervisor() && !in_state(state@, id@),
                );
                assert(config@.take(k + 1) =~= before.push(config@[k as int]));
                lemma_config_names_push(before, config@[k as int]);
            }
            if !config[k].same(&supervisor) && !is_in_state(state, &config[k], &supervisor) {
                available = available + 1;
            }
            all.insert(config[k].qualified());
            assert(all@ =~= state_names(state@).union(config_names(config@.take(k + 1))));
            k = k + 1;
        }
        assert(config@.take(k as int) =~= config@);
        ApiStats {
            process_count: system.process_count,
            cpu_count: system.cpu_count,
            total_memory: system.total_memory,
            total: all.len(),
            running,
            stopped,
            errored,
            available,
        }
    }
}

proof fn lemma_names_push(before: Seq<StateDaemon>, d: StateDaemon)
    ensures
        state_names(before.push(d)) == if d.id@ != supervisor() {
            state_names(before).insert(daemon_id::qualified_text(d.id@.0, d.id@.1))
        } else {
            state_names(before)
        },
{
    let after = before.push(d);
    assert(after[before.len() as int] == d);
    assert forall|name: Seq<char>| state_names(before).contains(name) implies state_names(
        after,
    ).contains(name) by {
        let i = choose|i: int|
            0 <= i < before.len() && (#[trigger] before[i]).id@ != supervisor() && name
                == daemon_id::qualified_text(before[i].id@.0, before[i].id@.1);
        assert(after[i] == before[i]);
    }
    assert forall|name: Seq<char>| state_names(after).contains(name) implies state_names(
        before,
    ).contains(name) || (d.id@ != supervisor() && name == daemon_id::qualified_text(
        d.id@.0,
        d.id@.1,
    )) by {
        let i = choose|i: int|
            0 <= i < after.len() && (#[trigger] after[i]).id@ != supervisor() && name
                == daemon_id::qualified_text(after[i].id@.0, after[i].id@.1);
        if i < before.len() {
            assert(after[i] == before[i]);
        }
    }
    assert(state_names(after) =~= if d.id@ != supervisor() {
        state_names(before).insert(daemon_id::qualified_text(d.id@.0, d.id@.1))
    } else {
        state_names(before)
    });
}

proof fn lemma_config_names_push(before: Seq<DaemonId>, id: DaemonId)
    ensures
        config_names(before.push(id)) == config_names(before).insert(
            daemon_id::qualified_text(id@.0, id@.1),
        ),
{
    let after = before.push(id);
    assert(after[before.len() as int] == id);
    assert forall|name: Seq<char>| config_names(before).contains(name) implies config_names(
        after,
    ).contains(name) by {
        let i = choose|i: int|
            0 <= i < before.len() && name == daemon_id::qualified_text(
                (#[trigger] before[i])@.0,
                before[i]@.1,
            );
        assert(after[i] == before[i]);
    }
    assert forall|name: Seq<char>| config_names(after).contains(name) implies config_names(
        before,
    ).contains(name) || name == daemon_id::qualified_text(id@.0, id@.1) by {
        let i = choose|i: int|
            0 <= i < after.len() && name == daemon_id::qualified_text(
                (#[trigger] after[i])@.0,
                after[i]@.1,
            );
        if i < before.len() {
            assert(after[i] == before[i]);
        }
    }
    assert(config_names(after) =~= config_names(before).insert(
        daemon_id::qualified_text(id@.0, id@.1),
    ));
}

/// Whether the ids are ones of daemons, and no two the same.
pub open spec fn are_ids(ids: Seq<(Seq<char>, Seq<char>)>) -> bool {
    &&& ids.no_duplicates()
    &&& forall|i: int|
        0 <= i < ids.len() ==> daemon_id::valid_component((#[trigger] ids[i]).0)
            && daemon_id::valid_component(ids[i].1)
}

/// The ids of the daemons of the state.
pub open spec fn state_ids(state: Seq<StateDaemon>) -> Seq<(Seq<char>, Seq<char>)> {
    state.map_values(|d: StateDaemon| d.id@)
}

/// The ids of the configured daemons.
pub open spec fn config_ids(config: Seq<DaemonId>) -> Seq<(Seq<char>, Seq<char>)> {
    config.map_values(|id: DaemonId| id@)
}

/// No daemon is counted twice: those that run, have stopped, have failed or are available are
/// together no more than there are.
pub proof fn no_daemon_is_counted_twice(state: Seq<StateDaemon>, config: Seq<DaemonId>)
    requires
        are_ids(state_ids(state)),
        are_ids(config_ids(config)),
    ensures
        count_of(state, DaemonStatus::Running) + count_of(state, DaemonStatus::Stopped) + count_of(
            state,
            DaemonStatus::Errored,
        ) + available_count(state, config) <= state_names(state).union(config_names(config)).len(),
{
    lemma_state_counts(state);
    lemma_all_names(state, config);
}

/// The daemons that are counted by their states are different ones.
proof fn lemma_state_counts(state: Seq<StateDaemon>)
    requires
        are_ids(state_ids(state)),
    ensures
        state_names(state).finite(),
        count_of(state, DaemonStatus::Running) + count_of(state, DaemonStatus::Stopped) + count_of(
            state,
            DaemonStatus::Errored,
        ) + state.filter(|d: StateDaemon| waits_for_start(d)).len() <= state_names(state).len(),
    decreases state.len(),
{
    if state.len() == 0 {
        reveal(Seq::filter);
        assert(state_names(state) =~= Set::<Seq<char>>::empty());
    } else {
        let before = state.drop_last();
        let d = state.last();
        let last = state.len() - 1;
        assert(before == state.take(last));
        assert(state.take(last + 1) =~= state);
        assert(before.push(d) =~= state);
        assert forall|i: int| 0 <= i < before.len() implies state_ids(before)[i] == state_ids(
            state,
        )[i] by {}
        lemma_state_counts(before);
        lemma_names_push(before, d);
        lemma_filter_step(state, last, |d: StateDaemon| counts_as(d, DaemonStatus::Running));
        lemma_filter_step(state, last, |d: StateDaemon| counts_as(d, DaemonStatus::Stopped));
        lemma_filter_step(state, last, |d: StateDaemon| counts_as(d, DaemonStatus::Errored));
        lemma_filter_step(state, last, |d: StateDaemon| waits_for_start(d));
        let name = daemon_id::qualified_text(d.id@.0, d.id@.1);
        assert(state_ids(state)[last] == d.id@);
        if state_names(before).contains(name) {
            let i = choose|i: int|
                0 <= i < before.len() && (#[trigger] before[i]).id@ != supervisor() && name
                    == daemon_id::qualified_text(before[i].id@.0, before[i].id@.1);
            assert(state_ids(state)[i] == before[i].id@);
            daemon_id::forms_identify(before[i].id@, d.id@);
        }
    }
}

/// The configured daemons that are not in the state are further ones.
proof fn lemma_all_names(state: Seq<StateDaemon>, config: Seq<DaemonId>)
    requires
        are_ids(state_ids(state)),
        are_ids(config_ids(config)),
        state_names(state).finite(),
    ensures
        state_names(state).union(config_names(config)).finite(),
        state_names(state).len() + unknown_count(state, config) <= state_names(state).union(
            config_names(config),
        ).len(),
    decreases config.len(),
{
    let known = state_names(state);
    if config.len() == 0 {
        reveal(Seq::filter);
        assert(known.union(config_names(config)) =~= known);
    } else {
        let before = config.drop_last();
        let id = config.last();
        let last = config.len() - 1;
        assert(before == config.take(last));
        assert(config.take(last + 1) =~= config);
        assert(before.push(id) =~= config);
        assert forall|i: int| 0 <= i < before.len() implies config_ids(before)[i] == config_ids(
            config,
        )[i] by {}
        lemma_all_names(state, before);
        lemma_config_names_push(before, id);
        lemma_filter_step(
            config,
            last,
            |id: DaemonId| id@ != supervisor() && !in_state(state, id@),
        );
        let name = daemon_id::qualified_text(id@.0, id@.1);
        let all = known.union(config_names(before));
        assert(known.union(config_names(config)) =~= all.insert(name));
        assert(config_ids(config)[last] == id@);
        if config_names(before).contains(name) {
            let i = choose|i: int|
                0 <= i < before.len() && name == daemon_id::qualified_text(
                    (#[trigger] before[i])@.0,
                    before[i]@.1,
                );
            assert(config_ids(config)[i] == before[i]@);
            daemon_id::forms_identify(before[i]@, id@);
        }
        if known.contains(name) {
            let i = choose|i: int|
                0 <= i < state.len() && (#[trigger] state[i]).id@ != supervisor() && name
                    == daemon_id::qualified_text(state[i].id@.0, state[i].id@.1);
            assert(state_ids(state)[i] == state[i].id@);
            daemon_id::forms_identify(state[i].id@, id@);
            assert(in_state(state, id@));
        }
    }
}

/// One more daemon in the state counts once, in its own status and only where it was started; one that
/// was not is available. The supervisor does not count.
pub proof fn each_daemon_counts_once(
    state: Seq<StateDaemon>,
    config: Seq<DaemonId>,
    d: StateDaemon,
    status: DaemonStatus,
)
    ensures
        count_of(state.push(d), status) == count_of(state, status) + if d.id@ != (
            "global"@,
            "pitchfork"@,
        ) && !d.config_registered && d.status == status {
            1nat
        } else {
            0nat
        },
        count_of(Seq::empty(), status) == 0,
        state.push(d).filter(|d: StateDaemon| waits_for_start(d)).len() == state.filter(
            |d: StateDaemon| waits_for_start(d),
        ).len() + if d.id@ != ("global"@, "pitchfork"@) && d.config_registered {
            1nat
        } else {
            0nat
        },
{
    reveal(Seq::filter);
    assert(state.push(d).drop_last() =~= state);
}

/// One more configured daemon is available exactly where the state does not have it.
pub proof fn configured_daemons_are_available(
    state: Seq<StateDaemon>,
    config: Seq<DaemonId>,
    id: DaemonId,
)
    ensures
        available_count(state, config.push(id)) == available_count(state, config) + if id@ != (
            "global"@,
            "pitchfork"@,
        ) && (forall|i: int| 0 <= i < state.len() ==> (#[trigger] state[i]).id@ != id@) {
            1nat
        } else {
            0nat
        },
        available_count(state, Seq::empty()) == state.filter(
            |d: StateDaemon| waits_for_start(d),
        ).len(),
{
    reveal(Seq::filter);
    assert(config.push(id).drop_last() =~= config);
}

/// The total counts each daemon of the state and of the configuration by its qualified form, and of the
/// state not the supervisor.
pub proof fn the_total_counts_names(
    state: Seq<StateDaemon>,
    config: Seq<DaemonId>,
    name: Seq<char>,
)
    ensures
        state_names(state).union(config_names(config)).contains(name) <==> {
            ||| exists|i: int|
                0 <= i < state.len() && (#[trigger] state[i]).id@ != ("global"@, "pitchfork"@)
                    && daemon_id::qualified_text(state[i].id@.0, state[i].id@.1) == name
            ||| exists|i: int|
                0 <= i < config.len() && daemon_id::qualified_text(
                    (#[trigger] config[i])@.0,
                    config[i]@.1,
                ) == name
        },
{
}

} // verus!
