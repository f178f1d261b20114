//! Which log entries are kept, for all daemons and for each one.
use crate::clock;
use crate::clock::{parse_duration, TimeSpan};
use crate::daemon_id;
use crate::daemon_id::DaemonId;
use crate::log_store::rotation;
use crate::log_store::sqlite::Row;
use crate::log_store::table;
use crate::log_store::table::{Pruned, Turn};
use crate::log_store::{ArchiveHook, LogStore, RetentionPolicy, StoreError};
use crate::text;
use crate::text::trim;
use vstd::prelude::*;

verus! {

/// What a setting says about the age of entries.
#[derive(Debug, Clone, Copy, PartialEq, Eq, Structural)]
pub enum AgeSetting {
    /// Nothing.
    Unset,
    /// It is no duration.
    Invalid,
    /// A duration.
    Span { secs: u64, nanos: u32 },
}

/// What a text says about the age of entries.
pub open spec fn age_of(s: Seq<char>) -> AgeSetting {
    if s.len() == 0 {
        AgeSetting::Unset
    } else {
        match clock::duration_of(s) {
            Some((secs, nanos)) => AgeSetting::Span { secs, nanos },
            None => AgeSetting::Invalid,
        }
    }
}

/// Reads what a text says about the age of entries.
pub fn read_age(s: &str) -> (r: AgeSetting)
    ensures
        r == age_of(s@),
{
    if s.is_empty() {
        AgeSetting::Unset
    } else {
        match parse_duration(s) {
            Some((secs, nanos)) => AgeSetting::Span { secs, nanos },
            None => AgeSetting::Invalid,
        }
    }
}

/// The span of an age, in nanoseconds; an age that is too long for a span counts as none.
pub open spec fn age_span(age: AgeSetting) -> Option<int> {
    match age {
        AgeSetting::Span { secs, nanos } => if clock::nanos_at(secs as int, nanos as int)
            <= clock::LONGEST_SPAN {
            Some(clock::nanos_at(secs as int, nanos as int))
        } else {
            None
        },
        _ => None,
    }
}

/// The number of entries that a setting keeps; one that is not above zero keeps all.
pub open spec fn kept_lines(setting: int) -> Option<u64> {
    if setting > 0 {
        Some(setting as u64)
    } else {
        None
    }
}

/// A policy: the longest age in nanoseconds and the largest number of entries.
pub struct PolicyView {
    pub age: Option<int>,
    pub count: Option<u64>,
}

impl View for RetentionPolicy {
    type V = PolicyView;

    open spec fn view(&self) -> PolicyView {
        PolicyView {
            age: match self.age {
                Some(span) => Some(span@),
                None => None,
            },
            count: self.count,
        }
    }
}

impl View for ArchiveHook {
    type V = (Seq<char>, usize);

    open spec fn view(&self) -> (Seq<char>, usize) {
        (self.command@, self.batch_size)
    }
}

/// The value of an optional hook.
pub open spec fn opt_hook(hook: Option<ArchiveHook>) -> Option<(Seq<char>, usize)> {
    match hook {
        Some(h) => Some(h@),
        None => None,
    }
}

fn to_span(age: AgeSetting) -> (r: Option<TimeSpan>)
    ensures
        match r {
            Some(span) => age_span(age) == Some(span@),
            None => age_span(age) is None,
        },
{
    match age {
        AgeSetting::Span { secs, nanos } => TimeSpan::from_std(secs, nanos),
        _ => None,
    }
}

fn to_count(setting: i64) -> (r: Option<u64>)
    ensures
        r == kept_lines(setting as int),
{
    if setting > 0 {
        Some(setting as u64)
    } else {
        None
    }
}

/// The policy for all daemons.
pub fn global_policy(age: AgeSetting, line_retention: i64) -> (r: RetentionPolicy)
    ensures
        r@ == (PolicyView { age: age_span(age), count: kept_lines(line_retention as int) }),
{
    RetentionPolicy { age: to_span(age), count: to_count(line_retention) }
}

/// The batch size of a hook: at least one.
pub open spec fn hook_batch_size(setting: i64) -> usize {
    (if setting < 1 {
        1
    } else {
        setting
    }) as usize
}

fn to_batch_size(setting: i64) -> (r: usize)
    ensures
        r == hook_batch_size(setting),
{
    let at_least: i64 = if setting < 1 {
        1
    } else {
        setting
    };
    #[verifier::truncate]
    (at_least as usize)
}

/// The hook of the settings: the command without the white space around it, where there is one.
pub open spec fn settings_hook(command: Seq<char>, batch_size: i64) -> Option<(Seq<char>, usize)> {
    if text::trimmed(command).len() == 0 {
        None
    } else {
        Some((text::trimmed(command), hook_batch_size(batch_size)))
    }
}

/// Build an optional archive hook from the configured settings.
pub fn build_archive_hook(command: &str, batch_size: i64) -> (r: Option<ArchiveHook>)
    ensures
        opt_hook(r) == settings_hook(command@, batch_size),
{
    let command = trim(command);
    if command.as_str().is_empty() {
        None
    } else {
        Some(ArchiveHook { command, batch_size: to_batch_size(batch_size) })
    }
}

/// What a daemon says about its log entries.
#[derive(Debug)]
pub struct DaemonRetention {
    pub id: DaemonId,
    pub time_retention: Option<String>,
    pub line_retention: Option<i64>,
    pub archive_hook: Option<String>,
}

/// The age that a daemon sets.
pub open spec fn own_age(d: DaemonRetention) -> AgeSetting {
    match d.time_retention {
        Some(s) => age_of(s@),
        None => AgeSetting::Unset,
    }
}

/// The number of entries that a daemon sets.
pub open spec fn own_count(d: DaemonRetention) -> Option<u64> {
    match d.line_retention {
        Some(n) => kept_lines(n as int),
        None => None,
    }
}

/// The hook that a daemon sets: a command that is not only white space, as it stands.
pub open spec fn own_hook(d: DaemonRetention, batch_size: i64) -> Option<(Seq<char>, usize)> {
    match d.archive_hook {
        Some(command) => if text::trimmed(command@).len() == 0 {
            None
        } else {
            Some((command@, hook_batch_size(batch_size)))
        },
        None => None,
    }
}

/// What holds for the entries of a daemon with settings of its own.
pub struct OverrideView {
    pub id: (Seq<char>, Seq<char>),
    pub policy: PolicyView,
    pub hook: Option<(Seq<char>, usize)>,
}

/// The first of two values that is there.
pub open spec fn first_of<A>(own: Option<A>, global: Option<A>) -> Option<A> {
    match own {
        Some(_) => own,
        None => global,
    }
}

/// What holds for the entries of a daemon, where it has settings of its own: those, and for the
/// rest the settings for all daemons.
pub open spec fn override_of(
    d: DaemonRetention,
    age: AgeSetting,
    global: PolicyView,
    global_hook: Option<(Seq<char>, usize)>,
    batch_size: i64,
) -> Option<OverrideView> {
    if age is Span || own_count(d) is Some || own_hook(d, batch_size) is Some {
        Some(
            OverrideView {
                id: d.id@,
                policy: PolicyView {
                    age: first_of(age_span(age), global.age),
                    count: first_of(own_count(d), global.count),
                },
                hook: first_of(own_hook(d, batch_size), global_hook),
            },
        )
    } else {
        None
    }
}

/// What holds for the entries of one daemon.
#[derive(Debug)]
pub struct RetentionOverride {
    pub id: DaemonId,
    pub policy: RetentionPolicy,
    pub hook: Option<ArchiveHook>,
}

impl View for RetentionOverride {
    type V = OverrideView;

    open spec fn view(&self) -> OverrideView {
        OverrideView { id: self.id@, policy: self.policy@, hook: opt_hook(self.hook) }
    }
}

fn copy_hook(hook: &Option<ArchiveHook>) -> (r: Option<ArchiveHook>)
    ensures
        opt_hook(r) == opt_hook(*hook),
{
    match hook {
        Some(h) => Some(ArchiveHook { command: h.command.clone(), batch_size: h.batch_size }),
        None => None,
    }
}

/// What holds for the entries of a daemon, from the age that it sets and its other settings.
pub fn daemon_override(
    d: &DaemonRetention,
    age: AgeSetting,
    global: &RetentionPolicy,
    global_hook: &Option<ArchiveHook>,
    batch_size: i64,
) -> (r: Option<RetentionOverride>)
    ensures
        match r {
            Some(o) => override_of(*d, age, global@, opt_hook(*global_hook), batch_size) == Some(
                o@,
            ),
            None => override_of(*d, age, global@, opt_hook(*global_hook), batch_size) is None,
        },
{
    let count = match d.line_retention {
        Some(n) => to_count(n),
        None => None,
    };
    let hook = match &d.archive_hook {
        Some(command) => if trim(command.as_str()).as_str().is_empty() {
            None
        } else {
            Some(
                ArchiveHook { command: command.clone(), batch_size: to_batch_size(batch_size) },
            )
        },
        None => None,
    };
    let has_age = match age {
        AgeSetting::Span { .. } => true,
        _ => false,
    };
    if !has_age && count.is_none() && hook.is_none() {
        return None;
    }
    let policy = RetentionPolicy {
        age: match to_span(age) {
            Some(span) => Some(span),
            None => global.age,
        },
        count: match count {
            Some(n) => Some(n),
            None => global.count,
        },
    };
    let hook = match hook {
        Some(h) => Some(h),
        None => copy_hook(global_hook),
    };
    Some(RetentionOverride { id: d.id.duplicate(), policy, hook })
}

/// A setting that has no effect.
#[derive(Debug)]
pub enum RetentionNote {
    /// The age for all daemons is no duration.
    InvalidGlobalAge { text: String },
    /// The age of a daemon is no duration.
    InvalidAge { text: String, id: DaemonId },
    /// The age for all daemons is too long.
    GlobalAgeTooLong { secs: u64, nanos: u32 },
    /// The age of a daemon is too long.
    AgeTooLong { secs: u64, nanos: u32, id: DaemonId },
}

/// The message about an age for all daemons that is no duration.
pub open spec fn invalid_global_age(s: Seq<char>) -> Seq<char> {
    "invalid global logs.time_retention '"@ + s
        + "': expected format like '7d', '24h', '30min'"@
}

/// The message about an age of a daemon that is no duration.
pub open spec fn invalid_age(s: Seq<char>, id: (Seq<char>, Seq<char>)) -> Seq<char> {
    "invalid time_retention '"@ + s + "' for daemon "@ + daemon_id::qualified_text(id.0, id.1)
        + ": expected format like '7d', '24h', '30min'"@
}

impl RetentionNote {
    /// The message, where it does not show a duration.
    pub fn message(&self) -> (r: Option<String>)
        ensures
            match self {
                RetentionNote::InvalidGlobalAge { text } => r matches Some(s) && s@
                    == invalid_global_age(text@),
                RetentionNote::InvalidAge { text, id } => r matches Some(s) && s@ == invalid_age(
                    text@,
                    id@,
                ),
                _ => r is None,
            },
    {
        match self {
            RetentionNote::InvalidGlobalAge { text } => Some(
                "invalid global logs.time_retention '".to_string().concat(text.as_str()).concat(
                    "': expected format like '7d', '24h', '30min'",
                ),
            ),
            RetentionNote::InvalidAge { text, id } => Some(
                "invalid time_retention '".to_string().concat(text.as_str()).concat(
                    "' for daemon ",
                ).concat(id.qualified().as_str()).concat(
                    ": expected format like '7d', '24h', '30min'",
                ),
            ),
            _ => None,
        }
    }
}

/// The settings about log entries for all daemons.
#[derive(Debug)]
pub struct LogsRetention {
    pub time_retention: String,
    pub line_retention: i64,
    pub hook_command: String,
    pub hook_batch_size: i64,
}

/// What is done about the log entries in one round.
#[derive(Debug)]
pub struct RetentionPlan {
    /// The policy for the daemons without settings of their own.
    pub policy: RetentionPolicy,
    pub hook: Option<ArchiveHook>,
    /// The daemons with settings of their own.
    pub overrides: Vec<RetentionOverride>,
    /// The settings that have no effect.
    pub notes: Vec<RetentionNote>,
}

/// The policy of settings.
pub open spec fn planned_policy(s: LogsRetention) -> PolicyView {
    PolicyView {
        age: age_span(age_of(s.time_retention@)),
        count: kept_lines(s.line_retention as int),
    }
}

/// The daemons with settings of their own.
pub open spec fn planned_overrides(s: LogsRetention, daemons: Seq<DaemonRetention>) -> Seq<
    OverrideView,
>
    decreases daemons.len(),
{
    if daemons.len() == 0 {
        Seq::empty()
    } else {
        let before = planned_overrides(s, daemons.drop_last());
        match override_of(
            daemons.last(),
            own_age(daemons.last()),
            planned_policy(s),
            settings_hook(s.hook_command@, s.hook_batch_size),
            s.hook_batch_size,
        ) {
            Some(o) => before.push(o),
            None => before,
        }
    }
}

/// What notes say, by their messages.
pub enum NoteView {
    InvalidGlobalAge(Seq<char>),
    InvalidAge(Seq<char>, (Seq<char>, Seq<char>)),
    GlobalAgeTooLong(u64, u32),
    AgeTooLong(u64, u32, (Seq<char>, Seq<char>)),
}

impl View for RetentionNote {
    type V = NoteView;

    open spec fn view(&self) -> NoteView {
        match self {
            RetentionNote::InvalidGlobalAge { text } => NoteView::InvalidGlobalAge(text@),
            RetentionNote::InvalidAge { text, id } => NoteView::InvalidAge(text@, id@),
            RetentionNote::GlobalAgeTooLong { secs, nanos } => NoteView::GlobalAgeTooLong(
                *secs,
                *nanos,
            ),
            RetentionNote::AgeTooLong { secs, nanos, id } => NoteView::AgeTooLong(
                *secs,
                *nanos,
                id@,
            ),
        }
    }
}

/// The note about the age for all daemons.
pub open spec fn global_note(s: Seq<char>) -> Seq<NoteView> {
    match age_of(s) {
        AgeSetting::Unset => Seq::empty(),
        AgeSetting::Invalid => seq![NoteView::InvalidGlobalAge(s)],
        AgeSetting::Span { secs, nanos } => if age_span(age_of(s)) is None {
            seq![NoteView::GlobalAgeTooLong(secs, nanos)]
        } else {
            Seq::empty()
        },
    }
}

/// The note about the age of a daemon.
pub open spec fn daemon_note(d: DaemonRetention) -> Seq<NoteView> {
    match own_age(d) {
        AgeSetting::Unset => Seq::empty(),
        AgeSetting::Invalid => seq![NoteView::InvalidAge(d.time_retention->0@, d.id@)],
        AgeSetting::Span { secs, nanos } => if age_span(own_age(d)) is None {
            seq![NoteView::AgeTooLong(secs, nanos, d.id@)]
        } else {
            Seq::empty()
        },
    }
}

/// The notes about all ages.
pub open spec fn planned_notes(s: LogsRetention, daemons: Seq<DaemonRetention>) -> Seq<NoteView>
    decreases daemons.len(),
{
    if daemons.len() == 0 {
        global_note(s.time_retention@)
    } else {
        planned_notes(s, daemons.drop_last()) + daemon_note(daemons.last())
    }
}

/// The values of notes.
pub open spec fn note_views(notes: Seq<RetentionNote>) -> Seq<NoteView> {
    notes.map_values(|n: RetentionNote| n@)
}

/// The values of overrides.
pub open spec fn override_views(overrides: Seq<RetentionOverride>) -> Seq<OverrideView> {
    overrides.map_values(|o: RetentionOverride| o@)
}

/// Plans a round of log retention.
pub fn plan_retention(s: &LogsRetention, daemons: &Vec<DaemonRetention>) -> (r: RetentionPlan)
    ensures
        r.policy@ == planned_policy(*s),
        opt_hook(r.hook) == settings_hook(s.hook_command@, s.hook_batch_size),
        override_views(r.overrides@) == planned_overrides(*s, daemons@),
        note_views(r.notes@) == planned_notes(*s, daemons@),
{
    let mut notes: Vec<RetentionNote> = Vec::new();
    let age = read_age(s.time_retention.as_str());
    let policy = global_policy(age, s.line_retention);
    match age {
        AgeSetting::Unset => {},
        AgeSetting::Invalid => {
            notes.push(RetentionNote::InvalidGlobalAge { text: s.time_retention.clone() });
        },
        AgeSetting::Span { secs, nanos } => {
            if to_span(age).is_none() {
                notes.push(RetentionNote::GlobalAgeTooLong { secs, nanos });
            }
        },
    }
    assert(note_views(notes@) =~= planned_notes(*s, daemons@.take(0)));
    let hook = build_archive_hook(s.hook_command.as_str(), s.hook_batch_size);
    let mut overrides: Vec<RetentionOverride> = Vec::new();
    assert(override_views(overrides@) =~= planned_overrides(*s, daemons@.take(0)));
    let mut i: usize = 0;
    while i < daemons.len()
        invariant
            i <= daemons@.len(),
            policy@ == planned_policy(*s),
            opt_hook(hook) == settings_hook(s.hook_command@, s.hook_batch_size),
            override_views(overrides@) == planned_overrides(*s, daemons@.take(i as int)),
            note_views(notes@) == planned_notes(*s, daemons@.take(i as int)),
        decreases daemons@.len() - i,
    {
        let d = &daemons[i];
        let ghost before = override_views(overrides@);
        let ghost noted = note_views(notes@);
        assert(daemons@.take(i + 1).drop_last() =~= daemons@.take(i as int));
        assert(daemons@.take(i + 1).last() == *d);
        let own = match &d.time_retention {
            Some(text) => read_age(text.as_str()),
            None => AgeSetting::Unset,
        };
        match own {
            AgeSetting::Unset => {},
            AgeSetting::Invalid => {
                if let Some(text) = &d.time_retention {
                    notes.push(
                        RetentionNote::InvalidAge { text: text.clone(), id: d.id.duplicate() },
                    );
                }
            },
            AgeSetting::Span { secs, nanos } => {
                if to_span(own).is_none() {
                    notes.push(
                        RetentionNote::AgeTooLong { secs, nanos, id: d.id.duplicate() },
                    );
                }
            },
        }
        assert(note_views(notes@) =~= noted + daemon_note(*d));
        match daemon_override(d, own, &policy, &hook, s.hook_batch_size) {
            Some(o) => {
                overrides.push(o);
                assert(override_views(overrides@) =~= before.push(o@));
            },
            None => {},
        }
        i = i + 1;
    }
    assert(daemons@.take(i as int) =~= daemons@);
    RetentionPlan { policy, hook, overrides, notes }
}

/// The identifiers of overrides.
pub open spec fn override_ids(overrides: Seq<OverrideView>) -> Seq<(Seq<char>, Seq<char>)> {
    overrides.map_values(|o: OverrideView| o.id)
}

impl RetentionPlan {
    /// The daemons that the policy for all does not touch: those with settings of their own.
    pub fn excluded(&self) -> (r: Vec<DaemonId>)
        ensures
            r@.map_values(|d: DaemonId| d@) == override_ids(override_views(self.overrides@)),
    {
        let mut out: Vec<DaemonId> = Vec::new();
        let ghost ids = override_ids(override_views(self.overrides@));
        let mut i: usize = 0;
        assert(out@.map_values(|d: DaemonId| d@) =~= ids.take(0));
        while i < self.overrides.len()
            invariant
                i <= self.overrides@.len(),
                ids == override_ids(override_views(self.overrides@)),
                out@.map_values(|d: DaemonId| d@) == ids.take(i as int),
            decreases self.overrides@.len() - i,
        {
            let ghost before = out@.map_values(|d: DaemonId| d@);
            out.push(self.overrides[i].id.duplicate());
            assert(out@.map_values(|d: DaemonId| d@) =~= before.push(ids[i as int]));
            i = i + 1;
        }
        assert(ids.take(i as int) =~= ids);
        out
    }
}

/// A daemon that sets an age, a number of entries or a hook has settings of its own in a plan: what
/// it sets, and for the rest the settings for all daemons.
pub proof fn own_settings_take_effect(s: LogsRetention, daemons: Seq<DaemonRetention>, at: int)
    requires
        0 <= at < daemons.len(),
        sets_something(daemons[at], s.hook_batch_size),
    ensures
        planned_overrides(s, daemons).contains(
            OverrideView {
                id: daemons[at].id@,
                policy: PolicyView {
                    age: first_of(age_span(own_age(daemons[at])), planned_policy(s).age),
                    count: first_of(own_count(daemons[at]), planned_policy(s).count),
                },
                hook: first_of(
                    own_hook(daemons[at], s.hook_batch_size),
                    settings_hook(s.hook_command@, s.hook_batch_size),
                ),
            },
        ),
    decreases daemons.len(),
{
    let all = planned_overrides(s, daemons);
    let before = planned_overrides(s, daemons.drop_last());
    if at == daemons.len() - 1 {
        assert(all[before.len() as int] == all.last());
    } else {
        own_settings_take_effect(s, daemons.drop_last(), at);
        let o = override_of(
            daemons[at],
            own_age(daemons[at]),
            planned_policy(s),
            settings_hook(s.hook_command@, s.hook_batch_size),
            s.hook_batch_size,
        )->0;
        let k = choose|k: int| 0 <= k < before.len() && before[k] == o;
        assert(all[k] == o);
    }
}

/// A daemon whose `time_retention` is a duration is planned for by itself, with that duration as the
/// longest age of its entries, in nanoseconds.
pub proof fn own_duration_is_planned(
    s: LogsRetention,
    daemons: Seq<DaemonRetention>,
    at: int,
    secs: u64,
    nanos: u32,
)
    requires
        0 <= at < daemons.len(),
        daemons[at].time_retention matches Some(text) && text@.len() > 0 && clock::duration_of(text@)
            == Some((secs, nanos)),
        secs * 1_000_000_000 + nanos <= clock::LONGEST_SPAN,
    ensures
        exists|k: int|
            {
                &&& 0 <= k < planned_overrides(s, daemons).len()
                &&& (#[trigger] planned_overrides(s, daemons)[k]).id == daemons[at].id@
                &&& planned_overrides(s, daemons)[k].policy.age == Some(
                    secs * 1_000_000_000 + nanos,
                )
            },
{
    own_settings_take_effect(s, daemons, at);
    lemma_own_override(s, daemons, at);
}

/// A daemon whose `line_retention` is above zero is planned for by itself, with that number of
/// entries.
pub proof fn own_line_count_is_planned(
    s: LogsRetention,
    daemons: Seq<DaemonRetention>,
    at: int,
    count: i64,
)
    requires
        0 <= at < daemons.len(),
        daemons[at].line_retention == Some(count),
        count > 0,
    ensures
        exists|k: int|
            {
                &&& 0 <= k < planned_overrides(s, daemons).len()
                &&& (#[trigger] planned_overrides(s, daemons)[k]).id == daemons[at].id@
                &&& planned_overrides(s, daemons)[k].policy.count == Some(count as u64)
            },
{
    own_settings_take_effect(s, daemons, at);
    lemma_own_override(s, daemons, at);
}

/// A daemon whose archive hook is more than white space is planned for by itself, with that hook.
pub proof fn own_hook_is_planned(s: LogsRetention, daemons: Seq<DaemonRetention>, at: int, i: int)
    requires
        0 <= at < daemons.len(),
        daemons[at].archive_hook is Some,
        0 <= i < daemons[at].archive_hook->0@.len(),
        !text::whitespace(daemons[at].archive_hook->0@[i]),
    ensures
        exists|k: int|
            {
                &&& 0 <= k < planned_overrides(s, daemons).len()
                &&& (#[trigger] planned_overrides(s, daemons)[k]).id == daemons[at].id@
                &&& planned_overrides(s, daemons)[k].hook matches Some(hook) && hook.0
                    == daemons[at].archive_hook->0@ && (1 <= s.hook_batch_size <= usize::MAX
                    ==> hook.1 == s.hook_batch_size) && (s.hook_batch_size < 1 ==> hook.1 == 1)
            },
{
    text::lemma_trimmed_empty(daemons[at].archive_hook->0@);
    own_settings_take_effect(s, daemons, at);
    lemma_own_override(s, daemons, at);
}

/// The settings of a daemon of its own stand in the plan.
proof fn lemma_own_override(s: LogsRetention, daemons: Seq<DaemonRetention>, at: int)
    requires
        0 <= at < daemons.len(),
        sets_something(daemons[at], s.hook_batch_size),
    ensures
        exists|k: int|
            {
                &&& 0 <= k < planned_overrides(s, daemons).len()
                &&& (#[trigger] planned_overrides(s, daemons)[k]).id == daemons[at].id@
                &&& planned_overrides(s, daemons)[k].policy.age == first_of(
                    age_span(own_age(daemons[at])),
                    planned_policy(s).age,
                )
                &&& planned_overrides(s, daemons)[k].policy.count == first_of(
                    own_count(daemons[at]),
                    planned_policy(s).count,
                )
                &&& planned_overrides(s, daemons)[k].hook == first_of(
                    own_hook(daemons[at], s.hook_batch_size),
                    settings_hook(s.hook_command@, s.hook_batch_size),
                )
            },
{
    own_settings_take_effect(s, daemons, at);
    let all = planned_overrides(s, daemons);
    let o = OverrideView {
        id: daemons[at].id@,
        policy: PolicyView {
            age: first_of(age_span(own_age(daemons[at])), planned_policy(s).age),
            count: first_of(own_count(daemons[at]), planned_policy(s).count),
        },
        hook: first_of(
            own_hook(daemons[at], s.hook_batch_size),
            settings_hook(s.hook_command@, s.hook_batch_size),
        ),
    };
    let k = choose|k: int| 0 <= k < all.len() && all[k] == o;
    assert(planned_overrides(s, daemons)[k].id == daemons[at].id@);
}

/// What a daemon with settings of its own leaves open is that of the settings for all: an age where
/// it sets no duration, a number where it sets none above zero, a hook where it sets no command.
pub proof fn open_settings_are_those_for_all(
    s: LogsRetention,
    daemons: Seq<DaemonRetention>,
    k: int,
)
    requires
        0 <= k < planned_overrides(s, daemons).len(),
    ensures
        ({
            let o = planned_overrides(s, daemons)[k];
            exists|at: int|
                {
                    &&& 0 <= at < daemons.len()
                    &&& (#[trigger] daemons[at]).id@ == o.id
                    &&& daemons[at].time_retention is None ==> o.policy.age == planned_policy(s).age
                    &&& daemons[at].line_retention is None || daemons[at].line_retention->0 <= 0
                        ==> o.policy.count == planned_policy(s).count
                    &&& daemons[at].archive_hook is None ==> o.hook == settings_hook(
                        s.hook_command@,
                        s.hook_batch_size,
                    )
                    &&& daemons[at].time_retention is Some || daemons[at].line_retention is Some
                        || daemons[at].archive_hook is Some
                }
        }),
    decreases daemons.len(),
{
    let before = planned_overrides(s, daemons.drop_last());
    let o = planned_overrides(s, daemons)[k];
    if k < before.len() {
        open_settings_are_those_for_all(s, daemons.drop_last(), k);
        let first = daemons.drop_last();
        let at = choose|at: int|
            {
                &&& 0 <= at < first.len()
                &&& (#[trigger] first[at]).id@ == o.id
                &&& first[at].time_retention is None ==> o.policy.age == planned_policy(s).age
                &&& first[at].line_retention is None || first[at].line_retention->0 <= 0
                    ==> o.policy.count == planned_policy(s).count
                &&& first[at].archive_hook is None ==> o.hook == settings_hook(
                    s.hook_command@,
                    s.hook_batch_size,
                )
                &&& first[at].time_retention is Some || first[at].line_retention is Some
                    || first[at].archive_hook is Some
            };
        assert(daemons[at] == first[at]);
    } else {
        assert(daemons[daemons.len() - 1] == daemons.last());
    }
}

/// The policy for all daemons is that of the settings: the duration of `time_retention` in
/// nanoseconds, and `line_retention` where it is above zero.
pub proof fn settings_are_the_common_policy(s: LogsRetention)
    ensures
        s.time_retention@.len() == 0 ==> planned_policy(s).age is None,
        s.time_retention@.len() > 0 && clock::duration_of(s.time_retention@) is None
            ==> planned_policy(s).age is None,
        s.time_retention@.len() > 0 && clock::duration_of(s.time_retention@) is Some ==> {
            let (secs, nanos) = clock::duration_of(s.time_retention@)->0;
            let span = secs * 1_000_000_000 + nanos;
            planned_policy(s).age == if span <= clock::LONGEST_SPAN {
                Some(span)
            } else {
                None
            }
        },
        s.line_retention > 0 ==> planned_policy(s).count == Some(s.line_retention as u64),
        s.line_retention <= 0 ==> planned_policy(s).count is None,
{
}

/// The hook for all daemons is the command of the settings without the white space around it, and
/// there is none where the command is white space. It takes at least one entry at a time.
pub proof fn settings_are_the_common_hook(command: Seq<char>, batch_size: i64)
    ensures
        settings_hook(command, batch_size) is None <==> forall|i: int|
            0 <= i < command.len() ==> text::whitespace(#[trigger] command[i]),
        settings_hook(command, batch_size) matches Some(hook) ==> hook.0 == text::trimmed(command)
            && (1 <= batch_size <= usize::MAX ==> hook.1 == batch_size) && (batch_size < 1
            ==> hook.1 == 1),
{
    text::lemma_trimmed_empty(command);
}

/// A duration that cannot be read is told, for all daemons and for each one.
pub proof fn unreadable_durations_are_told(
    s: LogsRetention,
    daemons: Seq<DaemonRetention>,
    at: int,
)
    requires
        0 <= at < daemons.len(),
    ensures
        daemons[at].time_retention matches Some(text) && text@.len() > 0 && clock::duration_of(text@)
            is None ==> planned_notes(s, daemons).contains(
            NoteView::InvalidAge(daemons[at].time_retention->0@, daemons[at].id@),
        ),
        s.time_retention@.len() > 0 && clock::duration_of(s.time_retention@) is None
            ==> planned_notes(s, daemons).contains(NoteView::InvalidGlobalAge(s.time_retention@)),
    decreases daemons.len(),
{
    let all = planned_notes(s, daemons);
    let first = daemons.drop_last();
    let before = planned_notes(s, first);
    let own = daemon_note(daemons.last());
    let note = NoteView::InvalidAge(daemons[at].time_retention->0@, daemons[at].id@);
    let common = NoteView::InvalidGlobalAge(s.time_retention@);
    if first.len() > 0 {
        unreadable_durations_are_told(
            s,
            first,
            if at < first.len() {
                at
            } else {
                0
            },
        );
    } else {
        if s.time_retention@.len() > 0 && clock::duration_of(s.time_retention@) is None {
            assert(before[0] == common);
        }
    }
    if before.contains(common) {
        let k = choose|k: int| 0 <= k < before.len() && before[k] == common;
        assert(all[k] == common);
    }
    if at < first.len() {
        assert(first[at] == daemons[at]);
        if before.contains(note) {
            let k = choose|k: int| 0 <= k < before.len() && before[k] == note;
            assert(all[k] == note);
        }
    } else if own.len() > 0 {
        assert(all[before.len() as int] == own[0]);
    }
}

/// Whether a daemon sets an age, a number of entries or a hook.
pub open spec fn sets_something(d: DaemonRetention, batch_size: i64) -> bool {
    own_age(d) is Span || own_count(d) is Some || own_hook(d, batch_size) is Some
}

/// Only a daemon that sets something has settings of its own in a plan; all others fall under the
/// policy for all.
pub proof fn only_own_settings_override(s: LogsRetention, daemons: Seq<DaemonRetention>, k: int)
    requires
        0 <= k < planned_overrides(s, daemons).len(),
    ensures
        exists|at: int|
            0 <= at < daemons.len() && sets_something(#[trigger] daemons[at], s.hook_batch_size)
                && daemons[at].id@ == planned_overrides(s, daemons)[k].id,
    decreases daemons.len(),
{
    let before = planned_overrides(s, daemons.drop_last());
    if k < before.len() {
        only_own_settings_override(s, daemons.drop_last(), k);
        let at = choose|at: int|
            0 <= at < daemons.drop_last().len() && sets_something(
                #[trigger] daemons.drop_last()[at],
                s.hook_batch_size,
            ) && daemons.drop_last()[at].id@ == before[k].id;
        assert(daemons[at] == daemons.drop_last()[at]);
    } else {
        assert(daemons[daemons.len() - 1] == daemons.last());
    }
}

/// Whether a number of entries, or an error, is what a store may answer when a policy is applied to
/// all daemons but some.
pub open spec fn may_prune_all<S: LogStore>(
    store: &S,
    plan: &RetentionPlan,
    excluded: &Vec<DaemonId>,
    answer: Result<u64, StoreError>,
) -> bool {
    &&& excluded@.map_values(|d: DaemonId| d@) == override_ids(override_views(plan.overrides@))
    &&& call_ensures(
        S::apply_retention,
        (
            store,
            &plan.policy,
            excluded,
            match plan.hook {
                Some(h) => Some(&h),
                None => None,
            },
        ),
        answer,
    )
}

/// Whether a number of entries, or an error, is what a store may answer when the settings of one
/// daemon are applied to it.
pub open spec fn may_prune_one<S: LogStore>(
    store: &S,
    own: &RetentionOverride,
    answer: Result<u64, StoreError>,
) -> bool {
    call_ensures(
        S::apply_retention_for_daemon,
        (
            store,
            &own.id,
            &own.policy,
            match own.hook {
                Some(h) => Some(&h),
                None => None,
            },
        ),
        answer,
    )
}

/// Whether the first steps of a plan removed these numbers of entries: the policy for all daemons
/// comes first, then each daemon with settings of its own.
pub open spec fn removed_by<S: LogStore>(
    store: &S,
    plan: &RetentionPlan,
    excluded: &Vec<DaemonId>,
    counts: Seq<u64>,
) -> bool {
    &&& counts.len() <= plan.overrides@.len() + 1
    &&& counts.len() > 0 ==> may_prune_all(store, plan, excluded, Ok(counts[0]))
    &&& forall|i: int|
        1 <= i < counts.len() ==> may_prune_one(
            store,
            &plan.overrides@[i - 1],
            Ok(#[trigger] counts[i]),
        )
}

/// Whether a plan failed with an error after its first steps, as many as there are numbers.
pub open spec fn failed_with<S: LogStore>(
    store: &S,
    plan: &RetentionPlan,
    excluded: &Vec<DaemonId>,
    counts: Seq<u64>,
    e: StoreError,
) -> bool {
    &&& counts.len() <= plan.overrides@.len()
    &&& if counts.len() == 0 {
        may_prune_all(store, plan, excluded, Err(e))
    } else {
        may_prune_one(store, &plan.overrides@[counts.len() - 1], Err(e))
    }
}

/// The sum of numbers.
pub open spec fn sum_of(counts: Seq<u64>) -> nat
    decreases counts.len(),
{
    if counts.len() == 0 {
        0
    } else {
        sum_of(counts.drop_last()) + counts.last() as nat
    }
}

impl RetentionPlan {
    /// Applies the plan to a store; the number of entries that were removed. The first error ends
    /// it.
    pub fn apply<S: LogStore>(&self, store: &S) -> (r: Result<u128, StoreError>)
        ensures
            match r {
                Ok(total) => exists|excluded: &Vec<DaemonId>, counts: Seq<u64>|
                    {
                        &&& #[trigger] removed_by(store, self, excluded, counts)
                        &&& counts.len() == self.overrides@.len() + 1
                        &&& total == sum_of(counts)
                    },
                Err(e) => exists|excluded: &Vec<DaemonId>, counts: Seq<u64>| #[trigger]
                    removed_by(store, self, excluded, counts) && failed_with(
                        store,
                        self,
                        excluded,
                        counts,
                        e,
                    ),
            },
    {
        let excluded = self.excluded();
        let left_out = &excluded;
        let ghost mut counts: Seq<u64> = Seq::empty();
        let prune_all = S::apply_retention;
        let hook = match &self.hook {
            Some(h) => Some(h),
            None => None,
        };
        let first: u64 = match prune_all(store, &self.policy, left_out, hook) {
            Ok(n) => n,
            Err(e) => {
                assert(removed_by(store, self, left_out, counts));
                return Err(e);
            },
        };
        let mut total: u128 = first as u128;
        proof {
            counts = seq![first];
            assert(counts.drop_last() =~= Seq::<u64>::empty());
            assert(sum_of(counts.drop_last()) == 0);
        }
        let mut i: usize = 0;
        while i < self.overrides.len()
            invariant
                i <= self.overrides@.len(),
                counts.len() == i + 1,
                removed_by(store, self, left_out, counts),
                total == sum_of(counts),
                total <= (i + 1) * u64::MAX,
            decreases self.overrides@.len() - i,
        {
            let own = &self.overrides[i];
            let prune_one = S::apply_retention_for_daemon;
            let hook = match &own.hook {
                Some(h) => Some(h),
                None => None,
            };
            let more: u64 = match prune_one(store, &own.id, &own.policy, hook) {
                Ok(n) => n,
                Err(e) => {
                    return Err(e);
                },
            };
            let ghost before = counts;
            proof {
                counts = counts.push(more);
                assert(counts.drop_last() =~= before);
                assert forall|k: int| 1 <= k < counts.len() implies may_prune_one(
                    store,
                    &self.overrides@[k - 1],
                    Ok(#[trigger] counts[k]),
                ) by {
                    if k < before.len() {
                        assert(counts[k] == before[k]);
                    }
                }
                assert((i + 1) * u64::MAX + u64::MAX == (i + 2) * u64::MAX) by (nonlinear_arith);
                assert((i + 2) * u64::MAX <= u128::MAX) by (nonlinear_arith)
                    requires
                        i < usize::MAX,
                ;
            }
            total = total + more as u128;
            i = i + 1;
        }
        Ok(total)
    }
}

/// The size of the batches that a hook takes, where there is one with a command.
pub open spec fn batch_of(hook: Option<ArchiveHook>) -> Option<usize> {
    rotation::hook_batch(
        match hook {
            Some(h) => Some(&h),
            None => None,
        },
    )
}

/// The qualified form of an identifier.
pub open spec fn form_of(id: (Seq<char>, Seq<char>)) -> Seq<char> {
    daemon_id::qualified_text(id.0, id.1)
}

impl RetentionOverride {
    /// The turn of the daemon in a pass; `now` tells when the turn of a daemon comes.
    pub open spec fn turn(&self, now: spec_fn(Seq<char>) -> int) -> Turn {
        Turn {
            daemon: form_of(self.id@),
            policy: self.policy,
            now: now(form_of(self.id@)),
            batch: batch_of(self.hook),
        }
    }
}

impl RetentionPlan {
    /// The qualified forms of the daemons with settings of their own.
    pub open spec fn own_forms(&self) -> Seq<Seq<char>> {
        self.overrides@.map_values(|o: RetentionOverride| form_of(o.id@))
    }

    /// The turn in a pass of a daemon without settings of its own.
    pub open spec fn common_turn(
        &self,
        daemon: Seq<char>,
        now: spec_fn(Seq<char>) -> int,
    ) -> Turn {
        Turn { daemon, policy: self.policy, now: now(daemon), batch: batch_of(self.hook) }
    }

    /// The turns of a pass over the daemons that have entries: first those without settings of their
    /// own, then the others.
    pub open spec fn turns(
        &self,
        stored: Seq<Seq<char>>,
        now: spec_fn(Seq<char>) -> int,
    ) -> Seq<Turn> {
        rotation::pruned_daemons(stored, self.own_forms()).map_values(
            |id: (Seq<char>, Seq<char>)| self.common_turn(form_of(id), now),
        ) + self.overrides@.map_values(|o: RetentionOverride| o.turn(now))
    }

    /// Whether this is a plan whose hooks take at least one entry at a time, and in which no daemon
    /// has settings of its own twice.
    pub open spec fn is_sound(&self) -> bool {
        &&& batch_of(self.hook) != Some(0usize)
        &&& forall|i: int|
            0 <= i < self.overrides@.len() ==> batch_of((#[trigger] self.overrides@[i]).hook)
                != Some(0usize)
        &&& forall|i: int, j: int|
            #![trigger self.overrides@[i], self.overrides@[j]]
            0 <= i < j < self.overrides@.len() ==> form_of(self.overrides@[i].id@) != form_of(
                self.overrides@[j].id@,
            )
    }
}

/// The daemons that a policy for all prunes are those with entries that it does not exclude.
proof fn lemma_common_daemons(stored: Seq<Seq<char>>, excluded: Seq<Seq<char>>)
    requires
        forall|i: int|
            0 <= i < stored.len() ==> daemon_id::qualified_fault(#[trigger] stored[i]) is None,
    ensures
        ({
            let ids = rotation::pruned_daemons(stored, excluded);
            &&& forall|i: int|
                0 <= i < ids.len() ==> stored.contains(form_of(#[trigger] ids[i]))
                    && !excluded.contains(form_of(ids[i]))
            &&& forall|d: Seq<char>|
                stored.contains(d) && !excluded.contains(d) ==> exists|i: int|
                    0 <= i < ids.len() && form_of(#[trigger] ids[i]) == d
        }),
    decreases stored.len(),
{
    let ids = rotation::pruned_daemons(stored, excluded);
    if stored.len() > 0 {
        let first = stored.drop_last();
        let before = rotation::pruned_daemons(first, excluded);
        let last = stored.last();
        assert forall|i: int| 0 <= i < first.len() implies daemon_id::qualified_fault(
            #[trigger] first[i],
        ) is None by {
            assert(stored[i] == first[i]);
        }
        assert(stored[stored.len() - 1] == last);
        daemon_id::lemma_split_is_qualified(last);
        lemma_common_daemons(first, excluded);
        assert forall|i: int| 0 <= i < ids.len() implies stored.contains(form_of(#[trigger] ids[i]))
            && !excluded.contains(form_of(ids[i])) by {
            if i < before.len() {
                assert(ids[i] == before[i]);
                let k = choose|k: int| 0 <= k < first.len() && first[k] == form_of(before[i]);
                assert(stored[k] == form_of(ids[i]));
            } else {
                assert(form_of(ids[i]) == last);
            }
        }
        assert forall|d: Seq<char>| stored.contains(d) && !excluded.contains(d) implies exists|i: int|
            0 <= i < ids.len() && form_of(#[trigger] ids[i]) == d by {
            let k = choose|k: int| 0 <= k < stored.len() && stored[k] == d;
            if d == last {
                assert(form_of(ids[before.len() as int]) == d);
            } else {
                assert(first[k] == d);
                assert(first.contains(d));
                let i = choose|i: int| 0 <= i < before.len() && form_of(#[trigger] before[i]) == d;
                assert(ids[i] == before[i]);
            }
        }
    }
}

/// Each turn of a pass is that of a daemon with settings of its own, or of one with entries and
/// without such settings.
proof fn lemma_turns(
    plan: RetentionPlan,
    stored: Seq<Seq<char>>,
    now: spec_fn(Seq<char>) -> int,
)
    requires
        forall|i: int|
            0 <= i < stored.len() ==> daemon_id::qualified_fault(#[trigger] stored[i]) is None,
    ensures
        ({
            let turns = plan.turns(stored, now);
            &&& forall|i: int|
                #![trigger turns[i]]
                0 <= i < turns.len() ==> {
                    ||| {
                        &&& stored.contains(turns[i].daemon)
                        &&& !plan.own_forms().contains(turns[i].daemon)
                        &&& turns[i] == plan.common_turn(turns[i].daemon, now)
                    }
                    ||| exists|k: int|
                        0 <= k < plan.overrides@.len() && turns[i] == (
                        #[trigger] plan.overrides@[k]).turn(now)
                }
            &&& forall|d: Seq<char>|
                stored.contains(d) && !plan.own_forms().contains(d) ==> turns.contains(
                    #[trigger] plan.common_turn(d, now),
                )
            &&& forall|k: int|
                0 <= k < plan.overrides@.len() ==> turns.contains(
                    (#[trigger] plan.overrides@[k]).turn(now),
                )
        }),
{
    let turns = plan.turns(stored, now);
    let forms = plan.own_forms();
    let ids = rotation::pruned_daemons(stored, forms);
    lemma_common_daemons(stored, forms);
    assert forall|i: int|
        #![trigger turns[i]]
        0 <= i < turns.len() implies {
        ||| {
            &&& stored.contains(turns[i].daemon)
            &&& !forms.contains(turns[i].daemon)
            &&& turns[i] == plan.common_turn(turns[i].daemon, now)
        }
        ||| exists|k: int|
            0 <= k < plan.overrides@.len() && turns[i] == (#[trigger] plan.overrides@[k]).turn(now)
    } by {
        if i < ids.len() {
            assert(turns[i] == plan.common_turn(form_of(ids[i]), now));
        } else {
            assert(turns[i] == plan.overrides@[i - ids.len()].turn(now));
        }
    }
    assert forall|d: Seq<char>| stored.contains(d) && !forms.contains(d) implies turns.contains(
        #[trigger] plan.common_turn(d, now),
    ) by {
        let i = choose|i: int| 0 <= i < ids.len() && form_of(#[trigger] ids[i]) == d;
        assert(turns[i] == plan.common_turn(d, now));
    }
    assert forall|k: int| 0 <= k < plan.overrides@.len() implies turns.contains(
        (#[trigger] plan.overrides@[k]).turn(now),
    ) by {
        assert(turns[ids.len() + k] == plan.overrides@[k].turn(now));
    }
}

/// The turns of a sound plan could be those of a pass.
proof fn lemma_turns_are_sound(
    plan: RetentionPlan,
    stored: Seq<Seq<char>>,
    now: spec_fn(Seq<char>) -> int,
)
    requires
        plan.is_sound(),
        forall|i: int|
            0 <= i < stored.len() ==> daemon_id::qualified_fault(#[trigger] stored[i]) is None,
    ensures
        table::are_turns(plan.turns(stored, now)),
{
    let turns = plan.turns(stored, now);
    let forms = plan.own_forms();
    lemma_turns(plan, stored, now);
    assert forall|k: int| 0 <= k < plan.overrides@.len() implies forms.contains(
        form_of((#[trigger] plan.overrides@[k]).id@),
    ) by {
        assert(forms[k] == form_of(plan.overrides@[k].id@));
    }
    assert forall|i: int, j: int|
        #![trigger turns[i], turns[j]]
        0 <= i < turns.len() && 0 <= j < turns.len() && turns[i].daemon == turns[j].daemon implies
        turns[i] == turns[j] by {
        if forms.contains(turns[i].daemon) {
            let a = choose|k: int|
                0 <= k < plan.overrides@.len() && turns[i] == (#[trigger] plan.overrides@[k]).turn(
                    now,
                );
            let b = choose|k: int|
                0 <= k < plan.overrides@.len() && turns[j] == (#[trigger] plan.overrides@[k]).turn(
                    now,
                );
            assert(form_of(plan.overrides@[a].id@) == form_of(plan.overrides@[b].id@));
            assert(a == b);
        }
    }
}

/// A whole retention pass leaves of each daemon the newest of its entries that are not too old, as
/// many as hold for it: by its own settings where it has such, else by those for all daemons. It
/// counts the entries that went, and a second pass at the same moments removes nothing. It makes no
/// difference whether hooks take the entries.
pub proof fn whole_pass_keeps_by_policy(
    plan: RetentionPlan,
    rows: Set<Row>,
    stored: Seq<Seq<char>>,
    now: spec_fn(Seq<char>) -> int,
    stored_then: Seq<Seq<char>>,
)
    requires
        plan.is_sound(),
        table::are_rows(rows),
        forall|i: int|
            0 <= i < stored.len() ==> daemon_id::qualified_fault(#[trigger] stored[i]) is None,
        forall|i: int| 0 <= i < stored_then.len() ==> stored.contains(#[trigger] stored_then[i]),
    ensures
        ({
            let after = table::pass_made(rows, plan.turns(stored, now));
            &&& forall|k: int|
                #![trigger plan.overrides@[k]]
                0 <= k < plan.overrides@.len() ==> table::rows_of(
                    after.rows,
                    form_of(plan.overrides@[k].id@),
                ) == table::kept(
                    table::rows_of(rows, form_of(plan.overrides@[k].id@)),
                    plan.overrides@[k].turn(now),
                )
            &&& forall|d: Seq<char>|
                stored.contains(d) && !plan.own_forms().contains(d) ==> #[trigger] table::rows_of(
                    after.rows,
                    d,
                ) == table::kept(table::rows_of(rows, d), plan.common_turn(d, now))
            &&& forall|d: Seq<char>|
                !stored.contains(d) && !plan.own_forms().contains(d) ==> #[trigger] table::rows_of(
                    after.rows,
                    d,
                ) == table::rows_of(rows, d)
            &&& after.total == rows.len() - after.rows.len()
            &&& after.rows.subset_of(rows)
            &&& table::pass_made(after.rows, plan.turns(stored_then, now)) == (Pruned {
                rows: after.rows,
                total: 0,
            })
        }),
{
    let turns = plan.turns(stored, now);
    let again = plan.turns(stored_then, now);
    let forms = plan.own_forms();
    assert forall|i: int| 0 <= i < stored_then.len() implies daemon_id::qualified_fault(
        #[trigger] stored_then[i],
    ) is None by {
        assert(stored.contains(stored_then[i]));
    }
    lemma_turns(plan, stored, now);
    lemma_turns(plan, stored_then, now);
    lemma_turns_are_sound(plan, stored, now);
    assert forall|i: int| 0 <= i < again.len() implies turns.contains(#[trigger] again[i]) by {
        if !(exists|k: int|
            0 <= k < plan.overrides@.len() && again[i] == (#[trigger] plan.overrides@[k]).turn(now)) {
            let d = again[i].daemon;
            let k = choose|k: int| 0 <= k < stored_then.len() && stored_then[k] == d;
            assert(stored.contains(stored_then[k]));
            assert(turns.contains(plan.common_turn(d, now)));
        }
    }
    table::pass_keeps_by_policy(rows, turns, again);
    let after = table::pass_made(rows, turns);
    assert forall|k: int|
        #![trigger plan.overrides@[k]]
        0 <= k < plan.overrides@.len() implies table::rows_of(
        after.rows,
        form_of(plan.overrides@[k].id@),
    ) == table::kept(
        table::rows_of(rows, form_of(plan.overrides@[k].id@)),
        plan.overrides@[k].turn(now),
    ) by {
        assert(turns.contains(plan.overrides@[k].turn(now)));
        let i = choose|i: int| 0 <= i < turns.len() && turns[i] == plan.overrides@[k].turn(now);
        assert(turns[i].daemon == form_of(plan.overrides@[k].id@));
    }
    assert forall|d: Seq<char>| stored.contains(d) && !forms.contains(d) implies #[trigger]
        table::rows_of(after.rows, d) == table::kept(
        table::rows_of(rows, d),
        plan.common_turn(d, now),
    ) by {
        assert(turns.contains(plan.common_turn(d, now)));
        let i = choose|i: int| 0 <= i < turns.len() && turns[i] == plan.common_turn(d, now);
        assert(turns[i].daemon == d);
    }
    assert forall|d: Seq<char>| !stored.contains(d) && !forms.contains(d) implies #[trigger]
        table::rows_of(after.rows, d) == table::rows_of(rows, d) by {
        if table::has_turn(turns, d) {
            let i = choose|i: int| 0 <= i < turns.len() && (#[trigger] turns[i]).daemon == d;
            let k = choose|k: int|
                0 <= k < plan.overrides@.len() && turns[i] == (#[trigger] plan.overrides@[k]).turn(
                    now,
                );
            assert(forms[k] == d);
        }
    }
}

/// What a pass removes is the sum of what its steps removed.
pub proof fn removed_entries_add_up(counts: Seq<u64>, n: u64)
    ensures
        sum_of(Seq::empty()) == 0,
        sum_of(counts.push(n)) == sum_of(counts) + n,
{
    assert(counts.push(n).drop_last() =~= counts);
}

/// The policy for all daemons is applied first, and to none of the daemons with settings of their
/// own; then each of those has its turn, in order.
pub proof fn own_turns_come_behind_the_common_one<S: LogStore>(
    store: &S,
    plan: &RetentionPlan,
    excluded: &Vec<DaemonId>,
    counts: Seq<u64>,
    i: int,
)
    requires
        removed_by(store, plan, excluded, counts),
        counts.len() > 0,
        0 <= i < plan.overrides@.len(),
    ensures
        excluded@.len() == plan.overrides@.len(),
        excluded@[i]@ == plan.overrides@[i].id@,
        may_prune_all(store, plan, excluded, Ok(counts[0])),
        i + 1 < counts.len() ==> may_prune_one(store, &plan.overrides@[i], Ok(counts[i + 1])),
        counts.len() <= plan.overrides@.len() + 1,
{
    let ids = excluded@.map_values(|d: DaemonId| d@);
    assert(ids == override_ids(override_views(plan.overrides@)));
    assert(ids.len() == plan.overrides@.len());
    assert(ids[i] == excluded@[i]@);
    assert(override_views(plan.overrides@)[i] == plan.overrides@[i]@);
}

} // verus!
