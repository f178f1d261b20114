//! When scheduled daemons run, and which of them the supervisor knows.
use crate::clock;
use crate::clock::{Moment, TimeSpan};
use crate::daemon_id::DaemonId;
use crate::text;
use crate::text::copy_list;
use vstd::prelude::*;

verus! {

/// `cron::Schedule`: a parsed cron expression.
#[verifier::external_type_specification]
#[verifier::external_body]
pub struct ExSchedule(cron::Schedule);

/// What is wrong with a cron expression, where something is.
pub uninterp spec fn schedule_fault(expression: Seq<char>) -> Option<Seq<char>>;

/// The expression that a schedule was parsed from.
pub uninterp spec fn schedule_source(schedule: cron::Schedule) -> Seq<char>;

/// Whether a cron expression holds a date and a time, counted in seconds from 1970-01-01 on a clock
/// without an offset.
pub uninterp spec fn schedule_holds(expression: Seq<char>, wall: int) -> bool;

/// `cron::Schedule::from_str`: parses a cron expression.
///
/// Whether it parses, and the text of the error where it does not, depends on the expression
/// alone. The schedule keeps the expression as its source.
#[verifier::external_body]
fn parse_schedule(expression: &str) -> (r: Result<cron::Schedule, String>)
    ensures
        match r {
            Ok(s) => schedule_fault(expression@) is None && schedule_source(s) == expression@,
            Err(e) => schedule_fault(expression@) == Some(e@),
        },
{
    <cron::Schedule as std::str::FromStr>::from_str(expression).map_err(|e| e.to_string())
}

/// Whether a moment, in seconds, is one at which a clock with some offset shows a date and a time
/// of a schedule.
pub open spec fn is_scheduled_at(expression: Seq<char>, secs: int) -> bool {
    exists|offset: int|
        #[trigger] clock::valid_offset(offset) && schedule_holds(expression, secs + offset)
}

/// `cron::Schedule::after`: the first time of a schedule on the local clock that follows what the
/// clock shows at a moment, as seconds and nanoseconds.
///
/// The time zone of the machine decides. Whatever it is, the local clock shows a time of the
/// schedule then, on the full second, and the result lies in the calendar. As the clock may be put
/// back in between, the result can lie before the moment, but by less than two days. The function
/// panics in the last second of the calendar, which is left out.
#[verifier::external_body]
fn schedule_next(schedule: &cron::Schedule, secs: i64, nanos: u32) -> (r: Option<(i64, u32)>)
    requires
        clock::CALENDAR_START <= secs < clock::CALENDAR_END,
        nanos < 1_000_000_000,
    ensures
        r matches Some(at) ==> {
            &&& clock::in_calendar(at.0 as int, at.1 as int)
            &&& exists|offset: int|
                #[trigger] clock::valid_offset(offset) && schedule_holds(
                    schedule_source(*schedule),
                    at.0 + offset,
                )
            &&& at.0 > secs - 2 * 86400
            &&& at.1 == 0
        },
{
    let since = chrono::DateTime::from_timestamp(secs, nanos)?.with_timezone(&chrono::Local);
    let next = schedule.after(&since).next()?;
    Some((next.timestamp(), next.timestamp_subsec_nanos()))
}

/// When a scheduled daemon runs again, with respect to its last run.
#[derive(Debug, Clone, Copy, PartialEq, Eq, Structural)]
pub enum CronRetrigger {
    /// When the last run has ended.
    Finish,
    /// Always; a run that has not ended is ended.
    Always,
    /// When the last run has ended well.
    Success,
    /// When the last run has failed.
    Fail,
}

/// What is known of a scheduled daemon.
#[derive(Debug)]
pub struct CronDaemon {
    pub schedule: String,
    pub retrigger: CronRetrigger,
    pub last_triggered: Option<Moment>,
    /// Whether a time that passed just before the first check counts.
    pub immediate: Option<bool>,
    pub pid: Option<u32>,
    pub last_exit_success: Option<bool>,
    pub cmd: Option<Vec<String>>,
}

/// How long a time may have passed before the first check of a daemon and still count, in
/// seconds.
pub const LOOK_BACK: u32 = 10;

/// Whether the daemon was never checked and does not look back.
pub open spec fn anchors(d: CronDaemon) -> bool {
    d.last_triggered is None && d.immediate != Some(true)
}

/// Whether the daemon was never checked and looks back.
pub open spec fn looks_back(d: CronDaemon) -> bool {
    d.last_triggered is None && d.immediate == Some(true)
}

/// The moment after which a time of the schedule counts.
pub open spec fn counts_since(d: CronDaemon, now: int) -> int {
    match d.last_triggered {
        Some(t) => t@,
        None => now - LOOK_BACK * 1_000_000_000,
    }
}

/// The moment after which a time of the schedule counts; nothing where the daemon only takes its
/// bearings now.
pub fn check_since(d: &CronDaemon, now: &Moment) -> (r: Option<Moment>)
    requires
        looks_back(*d) ==> clock::nanos_in_calendar(now@ - LOOK_BACK * 1_000_000_000),
    ensures
        match r {
            Some(since) => !anchors(*d) && since@ == counts_since(*d, now@),
            None => anchors(*d),
        },
{
    match d.last_triggered {
        Some(t) => Some(t),
        None => match d.immediate {
            Some(true) => now.minus(&TimeSpan::seconds(LOOK_BACK)),
            _ => None,
        },
    }
}

/// Whether a daemon runs when its time has come.
pub open spec fn runs(retrigger: CronRetrigger, alive: bool, last_success: Option<bool>) -> bool {
    match retrigger {
        CronRetrigger::Finish => !alive,
        CronRetrigger::Always => true,
        CronRetrigger::Success => !alive && last_success != Some(false),
        CronRetrigger::Fail => !alive && last_success != Some(true),
    }
}

/// Whether a daemon runs when its time has come. One that never ran may run.
pub fn should_run(retrigger: CronRetrigger, pid: Option<u32>, last_success: Option<bool>) -> (r:
    bool)
    ensures
        r == runs(retrigger, pid is Some, last_success),
        r ==> pid is None || retrigger is Always,
        pid is None && last_success is None ==> r,
        pid is None && last_success == Some(true) ==> r == !(retrigger is Fail),
        pid is None && last_success == Some(false) ==> r == !(retrigger is Success),
        retrigger is Always ==> r,
{
    match retrigger {
        CronRetrigger::Finish => pid.is_none(),
        CronRetrigger::Always => true,
        CronRetrigger::Success => pid.is_none() && match last_success {
            Some(ok) => ok,
            None => true,
        },
        CronRetrigger::Fail => pid.is_none() && match last_success {
            Some(ok) => !ok,
            None => true,
        },
    }
}

/// Only a daemon that is always triggered again runs while its last run has not ended.
pub proof fn only_always_runs_twice(retrigger: CronRetrigger, last_success: Option<bool>)
    ensures
        runs(retrigger, true, last_success) <==> retrigger == CronRetrigger::Always,
        runs(retrigger, false, None),
{
}

/// A daemon that is not running runs again by how its last run ended: with `Finish` and `Always`
/// either way, with `Success` exactly where it did not fail, with `Fail` exactly where it did not
/// end well. While a run has not ended only `Always` runs again.
pub proof fn last_run_decides(last_success: Option<bool>, alive: bool)
    ensures
        runs(CronRetrigger::Always, alive, last_success),
        runs(CronRetrigger::Finish, alive, last_success) == !alive,
        runs(CronRetrigger::Success, false, Some(true)),
        !runs(CronRetrigger::Success, false, Some(false)),
        !runs(CronRetrigger::Fail, false, Some(true)),
        runs(CronRetrigger::Fail, false, Some(false)),
        runs(CronRetrigger::Success, false, None) && runs(CronRetrigger::Fail, false, None),
        alive ==> !runs(CronRetrigger::Success, alive, last_success) && !runs(
            CronRetrigger::Fail,
            alive,
            last_success,
        ),
{
}

/// For a daemon that has run and is not running, `Success` and `Fail` are opposites of each other.
pub proof fn success_and_fail_are_opposites(ended_well: bool)
    ensures
        runs(CronRetrigger::Success, false, Some(ended_well)) == ended_well,
        runs(CronRetrigger::Fail, false, Some(ended_well)) == !ended_well,
        runs(CronRetrigger::Success, false, Some(ended_well)) != runs(
            CronRetrigger::Fail,
            false,
            Some(ended_well),
        ),
{
}

/// What is done about a scheduled daemon.
#[derive(Debug)]
pub enum CronStep {
    /// Its schedule does not parse.
    Invalid { error: String },
    /// It is noted that it was checked now.
    Anchor,
    /// Its time has not come.
    NotDue,
    /// Its time has come, and it does not run; that is noted.
    Skip,
    /// Its time has come, and its command is not known; that is noted.
    NoCommand,
    /// It runs; that is noted. A run that is forced ends the one before; the supervisor waits
    /// until the daemon is ready only where it is asked to.
    Run { cmd: Vec<String>, force: bool, wait_ready: bool },
    /// The moment after which a time counts lies before the calendar or in its last second.
    OutOfRange,
}

impl CronStep {
    /// Whether the present moment is kept as the last trigger. A time of the schedule that was
    /// acted on is then not acted on again.
    pub fn sets_last_triggered(&self) -> (r: bool)
        ensures
            r == (self is Anchor || self is Skip || self is NoCommand || self is Run),
    {
        match self {
            CronStep::Anchor => true,
            CronStep::Skip => true,
            CronStep::NoCommand => true,
            CronStep::Run { .. } => true,
            _ => false,
        }
    }
}

/// Whether a time of the schedule has come.
pub open spec fn is_due(next: Option<int>, now: int) -> bool {
    next matches Some(t) && t <= now
}

/// The value of an optional moment.
pub open spec fn opt_moment(m: Option<Moment>) -> Option<int> {
    match m {
        Some(m) => Some(m@),
        None => None,
    }
}

/// Whether a step is what is done about a daemon that does not take its bearings only, from the next
/// time of its schedule. A run does not wait until the daemon is ready.
pub open spec fn is_due_step(r: CronStep, d: CronDaemon, next: Option<int>, now: int) -> bool {
    if !is_due(next, now) {
        r is NotDue
    } else if !runs(d.retrigger, d.pid is Some, d.last_exit_success) {
        r is Skip
    } else {
        match d.cmd {
            None => r is NoCommand,
            Some(cmd) => r matches CronStep::Run { cmd: kept, force, wait_ready } && text::texts(
                kept@,
            ) == text::texts(cmd@) && force == (d.retrigger == CronRetrigger::Always)
                && !wait_ready,
        }
    }
}

/// What is done about a daemon that does not take its bearings only, from the next time of its
/// schedule.
pub fn due_step(d: &CronDaemon, next: Option<Moment>, now: &Moment) -> (r: CronStep)
    ensures
        is_due_step(r, *d, opt_moment(next), now@),
{
    let due = match next {
        Some(t) => !t.is_after(now),
        None => false,
    };
    if !due {
        return CronStep::NotDue;
    }
    if !should_run(d.retrigger, d.pid, d.last_exit_success) {
        return CronStep::Skip;
    }
    match &d.cmd {
        None => CronStep::NoCommand,
        Some(cmd) => CronStep::Run {
            cmd: copy_list(cmd),
            force: d.retrigger == CronRetrigger::Always,
            wait_ready: false,
        },
    }
}

/// What is done about a daemon whose schedule has a next time: before that time nothing; from that
/// time on it runs exactly where its last run lets it, with its command, and by force exactly where
/// it is always triggered again.
pub proof fn due_daemons_run(r: CronStep, d: CronDaemon, next: Option<int>, now: int)
    requires
        is_due_step(r, d, next, now),
    ensures
        next is None ==> r is NotDue,
        next matches Some(t) ==> (r is NotDue <==> now < t),
        d.pid is None && d.last_exit_success is None && d.cmd is Some && next is Some && next->0
            <= now ==> r is Run,
        d.retrigger is Always && d.cmd is Some && next is Some && next->0 <= now ==> r is Run,
        d.pid is None && d.retrigger is Finish && d.cmd is Some && next is Some && next->0 <= now
            ==> r is Run,
        d.pid is None && d.retrigger is Success && d.last_exit_success == Some(true) && d.cmd is Some
            && next is Some && next->0 <= now ==> r is Run,
        d.pid is None && d.retrigger is Fail && d.last_exit_success == Some(false) && d.cmd is Some
            && next is Some && next->0 <= now ==> r is Run,
        r is Run ==> d.pid is None || d.retrigger is Always,
        r is Run && d.retrigger is Success ==> d.last_exit_success != Some(false),
        r is Run && d.retrigger is Fail ==> d.last_exit_success != Some(true),
        r is NoCommand ==> d.cmd is None,
        r is Skip ==> !(d.retrigger is Always),
        r is Anchor || r is Invalid || r is OutOfRange ==> false,
        r matches CronStep::Run { cmd, force, wait_ready } ==> {
            &&& d.cmd matches Some(own) && cmd@.len() == own@.len() && forall|i: int|
                0 <= i < cmd@.len() ==> (#[trigger] cmd@[i])@ == own@[i]@
            &&& force <==> d.retrigger is Always
            &&& !wait_ready
        },
{
    if let CronStep::Run { cmd, force, wait_ready } = r {
        let own = d.cmd->0;
        assert(text::texts(cmd@).len() == cmd@.len());
        assert(text::texts(own@).len() == own@.len());
        assert forall|i: int| 0 <= i < cmd@.len() implies (#[trigger] cmd@[i])@ == own@[i]@ by {
            assert(text::texts(cmd@)[i] == text::texts(own@)[i]);
        }
    }
}

/// A daemon that was never checked takes its bearings first, unless it looks back; then a time counts
/// that came at most ten seconds ago. One that was checked goes on from its last trigger.
pub proof fn first_check_takes_bearings(d: CronDaemon, now: int)
    ensures
        anchors(d) <==> d.last_triggered is None && !(d.immediate matches Some(b) && b),
        looks_back(d) <==> d.last_triggered is None && (d.immediate matches Some(b) && b),
        d.last_triggered matches Some(t) ==> counts_since(d, now) == t@,
        d.last_triggered is None ==> counts_since(d, now) == now - 10_000_000_000,
{
}

/// Whether the calendar goes on behind a moment.
pub open spec fn is_before_the_end(nanos: int) -> bool {
    clock::nanos_in_calendar(nanos) && clock::second_of(nanos) < clock::CALENDAR_END
}

/// Whether there is a time of a schedule that came after a moment, on a clock that may have been put
/// back in between, and is not still to come.
pub open spec fn time_came(expression: Seq<char>, since: int, now: int) -> bool {
    exists|secs: int|
        #[trigger] is_scheduled_at(expression, secs) && clock::second_of(since) - 2 * 86400 < secs
            && secs * 1_000_000_000 <= now
}

/// Whether a moment, or none, is what the machine may answer when it is asked for the first time of
/// a schedule after a moment.
pub closed spec fn schedule_answers(
    expression: Seq<char>,
    since: int,
    next: Option<int>,
) -> bool {
    exists|schedule: &cron::Schedule, answer: Option<(i64, u32)>| #[trigger]
        call_ensures(
            schedule_next,
            (schedule, clock::second_of(since) as i64, clock::rest_of(since) as u32),
            answer,
        ) && schedule_source(*schedule) == expression && next == clock::answered_moment(answer)
}

/// What is done about a scheduled daemon now.
///
/// The local clock decides on the next time of the schedule, and that time on what is done. Nothing
/// is done unless a time of the schedule has come.
pub fn check_cron(d: &CronDaemon, now: &Moment) -> (r: CronStep)
    ensures
        match schedule_fault(d.schedule@) {
            Some(fault) => r matches CronStep::Invalid { error } && error@ == fault,
            None => if anchors(*d) {
                r is Anchor
            } else if !is_before_the_end(counts_since(*d, now@)) {
                r is OutOfRange
            } else {
                &&& exists|next: Option<int>| #[trigger]
                    schedule_answers(d.schedule@, counts_since(*d, now@), next) && is_due_step(
                        r,
                        *d,
                        next,
                        now@,
                    )
                &&& r is NotDue || time_came(d.schedule@, counts_since(*d, now@), now@)
            },
        },
{
    let schedule = match parse_schedule(d.schedule.as_str()) {
        Ok(s) => s,
        Err(error) => {
            return CronStep::Invalid { error };
        },
    };
    let looks_back = d.last_triggered.is_none() && match d.immediate {
        Some(b) => b,
        None => false,
    };
    if looks_back && now.minus(&TimeSpan::seconds(LOOK_BACK)).is_none() {
        return CronStep::OutOfRange;
    }
    match check_since(d, now) {
        None => CronStep::Anchor,
        Some(since) => {
            let (secs, nanos) = since.parts();
            if secs >= clock::CALENDAR_END {
                return CronStep::OutOfRange;
            }
            let ask = schedule_next;
            let answer = ask(&schedule, secs, nanos);
            let next = match answer {
                Some((s, n)) => {
                    assert(is_scheduled_at(d.schedule@, s as int));
                    Moment::new(s, n)
                },
                None => None,
            };
            assert(call_ensures(
                schedule_next,
                (&schedule, clock::second_of(since@) as i64, clock::rest_of(since@) as u32),
                answer,
            ));
            assert(schedule_answers(d.schedule@, since@, opt_moment(next)));
            due_step(d, next, now)
        },
    }
}

/// The words of a command line; nothing where a quote is not closed.
pub uninterp spec fn command_words(line: Seq<char>) -> Option<Seq<Seq<char>>>;

/// The words as texts.
pub open spec fn opt_words(words: Option<Vec<String>>) -> Option<Seq<Seq<char>>> {
    match words {
        Some(w) => Some(text::texts(w@)),
        None => None,
    }
}

/// `shell_words::split`: the words of a command line; nothing where a quote is not closed.
///
/// The words depend on the line alone.
#[verifier::external_body]
fn split_command(line: &str) -> (r: Option<Vec<String>>)
    ensures
        opt_words(r) == command_words(line@),
{
    shell_words::split(line).ok()
}

/// A daemon as the configuration has it.
#[derive(Debug)]
pub struct ConfiguredDaemon {
    pub id: DaemonId,
    /// Whether it has a schedule.
    pub cron: bool,
    pub run: String,
}

/// A daemon as the supervisor knows it.
#[derive(Debug)]
pub struct KnownDaemon {
    pub id: DaemonId,
    /// Whether it is known for its schedule only.
    pub config_registered: bool,
}

/// Whether the configuration has a daemon with a schedule.
pub open spec fn is_scheduled(config: Seq<ConfiguredDaemon>, id: (Seq<char>, Seq<char>)) -> bool {
    exists|i: int| 0 <= i < config.len() && (#[trigger] config[i]).cron && config[i].id@ == id
}

/// Whether the supervisor knows a daemon.
pub open spec fn is_known(known: Seq<KnownDaemon>, id: (Seq<char>, Seq<char>)) -> bool {
    exists|i: int| 0 <= i < known.len() && (#[trigger] known[i]).id@ == id
}

fn scheduled(config: &Vec<ConfiguredDaemon>, id: &DaemonId) -> (r: bool)
    ensures
        r == is_scheduled(config@, id@),
{
    let mut i: usize = 0;
    while i < config.len()
        invariant
            i <= config@.len(),
            forall|k: int| 0 <= k < i ==> !((#[trigger] config@[k]).cron && config@[k].id@ == id@),
        decreases config@.len() - i,
    {
        if config[i].cron && config[i].id.same(id) {
            return true;
        }
        i = i + 1;
    }
    false
}

fn knows(known: &Vec<KnownDaemon>, id: &DaemonId) -> (r: bool)
    ensures
        r == is_known(known@, id@),
{
    let mut i: usize = 0;
    while i < known.len()
        invariant
            i <= known@.len(),
            forall|k: int| 0 <= k < i ==> (#[trigger] known@[k]).id@ != id@,
        decreases known@.len() - i,
    {
        if known[i].id.same(id) {
            return true;
        }
        i = i + 1;
    }
    false
}

/// The daemons that are known for a schedule only that the configuration does not have any more.
pub open spec fn stale(known: Seq<KnownDaemon>, config: Seq<ConfiguredDaemon>) -> Seq<
    (Seq<char>, Seq<char>),
>
    decreases known.len(),
{
    if known.len() == 0 {
        Seq::empty()
    } else {
        let before = stale(known.drop_last(), config);
        if known.last().config_registered && !is_scheduled(config, known.last().id@) {
            before.push(known.last().id@)
        } else {
            before
        }
    }
}

/// The values of identifiers.
pub open spec fn ids(list: Seq<DaemonId>) -> Seq<(Seq<char>, Seq<char>)> {
    list.map_values(|d: DaemonId| d@)
}

/// The daemons that the supervisor forgets.
pub fn stale_daemons(known: &Vec<KnownDaemon>, config: &Vec<ConfiguredDaemon>) -> (r: Vec<
    DaemonId,
>)
    ensures
        ids(r@) == stale(known@, config@),
{
    let mut out: Vec<DaemonId> = Vec::new();
    let mut i: usize = 0;
    assert(ids(out@) =~= stale(known@.take(0), config@));
    while i < known.len()
        invariant
            i <= known@.len(),
            ids(out@) == stale(known@.take(i as int), config@),
        decreases known@.len() - i,
    {
        let ghost before = ids(out@);
        assert(known@.take(i + 1).drop_last() =~= known@.take(i as int));
        assert(known@.take(i + 1).last() == known@[i as int]);
        if known[i].config_registered && !scheduled(config, &known[i].id) {
            out.push(known[i].id.duplicate());
            assert(ids(out@) =~= before.push(known@[i as int].id@));
        }
        i = i + 1;
    }
    assert(known@.take(i as int) =~= known@);
    out
}

/// The supervisor forgets exactly those that it knows for a schedule only and that no daemon of the
/// configuration with a schedule is.
pub proof fn only_lost_schedules_are_forgotten(
    known: Seq<KnownDaemon>,
    config: Seq<ConfiguredDaemon>,
    id: (Seq<char>, Seq<char>),
)
    ensures
        stale(known, config).contains(id) <==> {
            &&& exists|i: int|
                0 <= i < known.len() && (#[trigger] known[i]).config_registered && known[i].id@ == id
            &&& forall|j: int|
                0 <= j < config.len() && (#[trigger] config[j]).cron ==> config[j].id@ != id
        },
    decreases known.len(),
{
    let all = stale(known, config);
    if known.len() > 0 {
        let first = known.drop_last();
        let before = stale(first, config);
        only_lost_schedules_are_forgotten(first, config, id);
        let last = known.last();
        assert(known[known.len() - 1] == last);
        if before.contains(id) {
            let k = choose|k: int| 0 <= k < before.len() && before[k] == id;
            assert(all[k] == id);
            let i = choose|i: int|
                0 <= i < first.len() && (#[trigger] first[i]).config_registered && first[i].id@ == id;
            assert(known[i] == first[i]);
        }
        if all.contains(id) && !before.contains(id) {
            let k = choose|k: int| 0 <= k < all.len() && all[k] == id;
            if k < before.len() {
                assert(before[k] == id);
            }
        }
        if exists|i: int|
            0 <= i < known.len() && (#[trigger] known[i]).config_registered && known[i].id@ == id {
            let i = choose|i: int|
                0 <= i < known.len() && (#[trigger] known[i]).config_registered && known[i].id@ == id;
            if i < first.len() {
                assert(first[i] == known[i]);
            } else if !is_scheduled(config, id) {
                assert(all[before.len() as int] == id);
            }
        }
    }
}

/// A daemon that the supervisor gets to know for its schedule: its words, where its command line
/// has them.
pub struct RegistrationView {
    pub id: (Seq<char>, Seq<char>),
    pub words: Option<Seq<Seq<char>>>,
}

/// A daemon that the supervisor gets to know for its schedule.
#[derive(Debug)]
pub struct Registration {
    pub id: DaemonId,
    /// The words of its command; nothing where they cannot be told, and then it stays unknown.
    pub words: Option<Vec<String>>,
}

impl View for Registration {
    type V = RegistrationView;

    open spec fn view(&self) -> RegistrationView {
        RegistrationView { id: self.id@, words: opt_words(self.words) }
    }
}

/// The scheduled daemons that the supervisor does not know yet.
pub open spec fn unknown(known: Seq<KnownDaemon>, config: Seq<ConfiguredDaemon>) -> Seq<
    RegistrationView,
>
    decreases config.len(),
{
    if config.len() == 0 {
        Seq::empty()
    } else {
        let before = unknown(known, config.drop_last());
        let d = config.last();
        if d.cron && !is_known(known, d.id@) {
            before.push(RegistrationView { id: d.id@, words: command_words(d.run@) })
        } else {
            before
        }
    }
}

/// The scheduled daemons that the supervisor gets to know.
pub fn daemons_to_register(known: &Vec<KnownDaemon>, config: &Vec<ConfiguredDaemon>) -> (r: Vec<
    Registration,
>)
    ensures
        r@.map_values(|d: Registration| d@) == unknown(known@, config@),
{
    let mut out: Vec<Registration> = Vec::new();
    let mut i: usize = 0;
    assert(out@.map_values(|d: Registration| d@) =~= unknown(known@, config@.take(0)));
    while i < config.len()
        invariant
            i <= config@.len(),
            out@.map_values(|d: Registration| d@) == unknown(known@, config@.take(i as int)),
        decreases config@.len() - i,
    {
        let ghost before = out@.map_values(|d: Registration| d@);
        let d = &config[i];
        assert(config@.take(i + 1).drop_last() =~= config@.take(i as int));
        assert(config@.take(i + 1).last() == *d);
        if d.cron && !knows(known, &d.id) {
            let words = split_command(d.run.as_str());
            let entry = Registration { id: d.id.duplicate(), words };
            let ghost view = entry@;
            out.push(entry);
            assert(out@.map_values(|d: Registration| d@) =~= before.push(view));
        }
        i = i + 1;
    }
    assert(config@.take(i as int) =~= config@);
    out
}

/// The supervisor gets to know exactly the daemons of the configuration that have a schedule and that
/// it does not know, each with the words of its own command line.
pub proof fn unknown_schedules_are_registered(
    known: Seq<KnownDaemon>,
    config: Seq<ConfiguredDaemon>,
    entry: RegistrationView,
)
    ensures
        unknown(known, config).contains(entry) <==> {
            &&& exists|i: int|
                0 <= i < config.len() && (#[trigger] config[i]).cron && config[i].id@ == entry.id
                    && command_words(config[i].run@) == entry.words
            &&& forall|j: int| 0 <= j < known.len() ==> (#[trigger] known[j]).id@ != entry.id
        },
{
    let all = unknown(known, config);
    if all.contains(entry) {
        let k = choose|k: int| 0 <= k < all.len() && all[k] == entry;
        lemma_unknown_is_configured(known, config, k);
    }
    if (exists|i: int|
        0 <= i < config.len() && (#[trigger] config[i]).cron && config[i].id@ == entry.id
            && command_words(config[i].run@) == entry.words) && (forall|j: int|
        0 <= j < known.len() ==> (#[trigger] known[j]).id@ != entry.id) {
        let i = choose|i: int|
            0 <= i < config.len() && (#[trigger] config[i]).cron && config[i].id@ == entry.id
                && command_words(config[i].run@) == entry.words;
        lemma_unknown_holds(known, config, i);
    }
}

/// Whether the supervisor knows what it knew, without the stale daemons.
pub open spec fn without_stale(
    before: Seq<KnownDaemon>,
    rest: Seq<KnownDaemon>,
    config: Seq<ConfiguredDaemon>,
) -> bool {
    forall|d: KnownDaemon| #[trigger]
        rest.contains(d) <==> before.contains(d) && !stale(before, config).contains(d.id@)
}

/// Whether a daemon is one that the supervisor gets to know: its command line has words.
pub open spec fn registers(
    rest: Seq<KnownDaemon>,
    config: Seq<ConfiguredDaemon>,
    id: (Seq<char>, Seq<char>),
) -> bool {
    exists|k: int|
        0 <= k < unknown(rest, config).len() && (#[trigger] unknown(rest, config)[k]).id == id
            && unknown(rest, config)[k].words is Some
}

/// Whether the supervisor knows what it knew, and those that it got to know for their schedules.
pub open spec fn with_registered(
    rest: Seq<KnownDaemon>,
    after: Seq<KnownDaemon>,
    config: Seq<ConfiguredDaemon>,
) -> bool {
    &&& forall|d: KnownDaemon| #[trigger]
        after.contains(d) ==> rest.contains(d) || (d.config_registered && registers(
            rest,
            config,
            d.id@,
        ))
    &&& forall|d: KnownDaemon| #[trigger] rest.contains(d) ==> after.contains(d)
    &&& forall|id: (Seq<char>, Seq<char>)| #[trigger]
        registers(rest, config, id) ==> is_known(after, id)
}

/// After the stale daemons were forgotten and the unknown ones registered, no daemon is stale, and
/// of the scheduled ones only those are unknown whose command line has no words. A second round
/// changes nothing.
pub proof fn registration_settles(
    before: Seq<KnownDaemon>,
    rest: Seq<KnownDaemon>,
    after: Seq<KnownDaemon>,
    config: Seq<ConfiguredDaemon>,
)
    requires
        without_stale(before, rest, config),
        with_registered(rest, after, config),
    ensures
        stale(after, config) == Seq::<(Seq<char>, Seq<char>)>::empty(),
        forall|k: int|
            0 <= k < unknown(after, config).len() ==> (#[trigger] unknown(after, config)[k]).words
                is None,
{
    assert forall|i: int| 0 <= i < after.len() implies !((
    #[trigger] after[i]).config_registered && !is_scheduled(config, after[i].id@)) by {
        let d = after[i];
        assert(after.contains(d));
        if rest.contains(d) {
            let j = choose|j: int| 0 <= j < before.len() && before[j] == d;
            if d.config_registered && !is_scheduled(config, d.id@) {
                lemma_stale_holds(before, config, j);
            }
        } else {
            let k = choose|k: int|
                0 <= k < unknown(rest, config).len() && (#[trigger] unknown(rest, config)[k]).id
                    == d.id@ && unknown(rest, config)[k].words is Some;
            lemma_unknown_is_configured(rest, config, k);
        }
    }
    lemma_none_stale(after, config);
    assert forall|k: int| 0 <= k < unknown(after, config).len() implies (#[trigger] unknown(
        after,
        config,
    )[k]).words is None by {
        let entry = unknown(after, config)[k];
        lemma_unknown_is_configured(after, config, k);
        let i = choose|i: int|
            0 <= i < config.len() && (#[trigger] config[i]).cron && config[i].id@ == entry.id
                && command_words(config[i].run@) == entry.words && !is_known(after, entry.id);
        if entry.words is Some {
            if is_known(rest, entry.id) {
                let j = choose|j: int| 0 <= j < rest.len() && (#[trigger] rest[j]).id@ == entry.id;
                assert(rest.contains(rest[j]));
                assert(after.contains(rest[j]));
                let n = choose|n: int| 0 <= n < after.len() && after[n] == rest[j];
                assert(after[n].id@ == entry.id);
            }
            lemma_unknown_holds(rest, config, i);
            let m = choose|m: int|
                0 <= m < unknown(rest, config).len() && unknown(rest, config)[m] == entry;
            assert(unknown(rest, config)[m].id == entry.id);
            assert(registers(rest, config, entry.id));
        }
    }
}

/// A daemon whose schedule is gone is stale.
proof fn lemma_stale_holds(known: Seq<KnownDaemon>, config: Seq<ConfiguredDaemon>, j: int)
    requires
        0 <= j < known.len(),
        known[j].config_registered,
        !is_scheduled(config, known[j].id@),
    ensures
        stale(known, config).contains(known[j].id@),
    decreases known.len(),
{
    let all = stale(known, config);
    let before = stale(known.drop_last(), config);
    if j == known.len() - 1 {
        assert(all[before.len() as int] == known[j].id@);
    } else {
        lemma_stale_holds(known.drop_last(), config, j);
        let k = choose|k: int| 0 <= k < before.len() && before[k] == known[j].id@;
        assert(all[k] == known[j].id@);
    }
}

/// Where every schedule is still there nothing is stale.
proof fn lemma_none_stale(known: Seq<KnownDaemon>, config: Seq<ConfiguredDaemon>)
    requires
        forall|i: int|
            0 <= i < known.len() ==> !((#[trigger] known[i]).config_registered && !is_scheduled(
                config,
                known[i].id@,
            )),
    ensures
        stale(known, config) == Seq::<(Seq<char>, Seq<char>)>::empty(),
    decreases known.len(),
{
    if known.len() > 0 {
        assert forall|i: int| 0 <= i < known.drop_last().len() implies !((
        #[trigger] known.drop_last()[i]).config_registered && !is_scheduled(
            config,
            known.drop_last()[i].id@,
        )) by {
            assert(known.drop_last()[i] == known[i]);
        }
        lemma_none_stale(known.drop_last(), config);
        assert(known.last() == known[known.len() - 1]);
    }
}

/// An unknown daemon is a scheduled one of the configuration that is not known.
proof fn lemma_unknown_is_configured(
    known: Seq<KnownDaemon>,
    config: Seq<ConfiguredDaemon>,
    k: int,
)
    requires
        0 <= k < unknown(known, config).len(),
    ensures
        exists|i: int|
            0 <= i < config.len() && (#[trigger] config[i]).cron && config[i].id@ == unknown(
                known,
                config,
            )[k].id && command_words(config[i].run@) == unknown(known, config)[k].words && !is_known(
                known,
                unknown(known, config)[k].id,
            ),
    decreases config.len(),
{
    let before = unknown(known, config.drop_last());
    if k < before.len() {
        lemma_unknown_is_configured(known, config.drop_last(), k);
        let i = choose|i: int|
            0 <= i < config.drop_last().len() && (#[trigger] config.drop_last()[i]).cron
                && config.drop_last()[i].id@ == before[k].id && command_words(
                config.drop_last()[i].run@,
            ) == before[k].words && !is_known(known, before[k].id);
        assert(config[i] == config.drop_last()[i]);
    } else {
        assert(config[config.len() - 1] == config.last());
    }
}

/// A scheduled daemon of the configuration that is not known is an unknown one.
proof fn lemma_unknown_holds(known: Seq<KnownDaemon>, config: Seq<ConfiguredDaemon>, i: int)
    requires
        0 <= i < config.len(),
        config[i].cron,
        !is_known(known, config[i].id@),
    ensures
        unknown(known, config).contains(
            RegistrationView { id: config[i].id@, words: command_words(config[i].run@) },
        ),
    decreases config.len(),
{
    let entry = RegistrationView { id: config[i].id@, words: command_words(config[i].run@) };
    let all = unknown(known, config);
    let before = unknown(known, config.drop_last());
    if i == config.len() - 1 {
        assert(all[before.len() as int] == entry);
    } else {
        lemma_unknown_holds(known, config.drop_last(), i);
        let k = choose|k: int| 0 <= k < before.len() && before[k] == entry;
        assert(all[k] == entry);
    }
}

/// A time that came is one of the schedule, lies at most two days before the moment that is counted
/// from, and is not still to come; where no time of the schedule lies there, none came.
pub proof fn times_that_came_are_scheduled(expression: Seq<char>, since: int, now: int)
    ensures
        time_came(expression, since, now) ==> exists|secs: int|
            {
                &&& #[trigger] is_scheduled_at(expression, secs)
                &&& secs > clock::second_of(since) - 172800
                &&& secs * 1_000_000_000 <= now
            },
        (forall|secs: int|
            #[trigger] is_scheduled_at(expression, secs) ==> secs * 1_000_000_000 > now)
            ==> !time_came(expression, since, now),
{
}

/// A moment is one of a schedule exactly where a clock less than a day away from a clock without an
/// offset shows a time of the schedule at it.
pub proof fn scheduled_moments_are_shown_by_a_clock(expression: Seq<char>, secs: int)
    ensures
        is_scheduled_at(expression, secs) <==> exists|offset: int|
            #[trigger] clock::valid_offset(offset) && -86400 < offset < 86400 && schedule_holds(
                expression,
                secs + offset,
            ),
        schedule_holds(expression, secs) ==> is_scheduled_at(expression, secs),
{
    if is_scheduled_at(expression, secs) {
        let offset = choose|offset: int|
            #[trigger] clock::valid_offset(offset) && schedule_holds(expression, secs + offset);
        assert(clock::valid_offset(offset) && -86400 < offset < 86400);
    }
    if schedule_holds(expression, secs) {
        assert(clock::valid_offset(0) && schedule_holds(expression, secs + 0));
    }
}

} // verus!
