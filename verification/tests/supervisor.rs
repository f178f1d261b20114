use pitchfork::clock::Moment;
use pitchfork::collect::TextSet;
use pitchfork::daemon_id::DaemonId;
use pitchfork::supervisor::cron::{
    check_cron, check_since, daemons_to_register, due_step, should_run, stale_daemons,
    ConfiguredDaemon, CronDaemon, CronRetrigger, CronStep, KnownDaemon,
};
use pitchfork::supervisor::resources::{
    any_limits, cpu_threshold, retention_due, Enforcement, LimitedDaemon, Sample, Violations,
};
use pitchfork::supervisor::retention::{
    build_archive_hook, global_policy, plan_retention, read_age, AgeSetting, DaemonRetention,
    LogsRetention,
};
use pitchfork::supervisor::watch::{
    daemons_to_restart, restart_step, watch_start, Answers, FileWatch, Report, Requirements,
    RestartStep, WatchConfig, WatchMode, WatchStart, WatchedDaemon,
};

fn s(text: &str) -> String {
    text.to_string()
}

fn id(text: &str) -> DaemonId {
    DaemonId::parse(text).unwrap()
}

fn moment(secs: i64) -> Moment {
    Moment::new(secs, 0).unwrap()
}

fn set(items: &[&str]) -> TextSet {
    let mut set = TextSet::new();
    for item in items {
        set.insert(s(item));
    }
    set
}

fn sorted(set: &TextSet) -> Vec<String> {
    let mut items = set.items().clone();
    items.sort();
    items
}

fn config(id: &str, dirs: &[&str], mode: WatchMode) -> WatchConfig {
    WatchConfig {
        id: s(id),
        dirs: dirs.iter().map(|d| s(d)).collect(),
        mode,
    }
}

#[test]
fn requirements_name_the_daemons() {
    let need = Requirements::of(&vec![
        config("a/x", &["/p"], WatchMode::Auto),
        config("b/y", &["/p", "/q"], WatchMode::Native),
    ]);
    assert_eq!(need.daemon_ids_for_dir("/p"), "a/x, b/y");
    assert_eq!(need.daemon_ids_for_dir("/q"), "b/y");
    assert_eq!(need.daemon_ids_for_dir("/r"), "");
}

/// Runs a round; the watchers can be created and refuse the given directories.
fn round(
    watch: &mut FileWatch,
    configs: &Vec<WatchConfig>,
    native_up: bool,
    native_refuses: &[&str],
    poll_refuses: &[&str],
) -> (Vec<String>, Vec<String>) {
    let mut round = watch.begin(configs);
    if watch.needs_native(&round) {
        watch.native_answer(native_up);
    }
    let native = watch.native_to_watch(&round);
    let refused = native.common(&set(native_refuses));
    let native_now = sorted(&native.without(&refused));
    watch.native_watched(&mut round, &refused);
    if watch.needs_poll(&round) {
        watch.poll_answer(true);
    }
    let poll = watch.poll_to_watch(&round);
    let refused = poll.common(&set(poll_refuses));
    let poll_now = sorted(&poll.without(&refused));
    watch.poll_watched(&mut round, &refused);
    watch.finish(round);
    (native_now, poll_now)
}

#[test]
fn modes_decide_the_watcher() {
    let mut watch = FileWatch::new();
    let configs = vec![
        config("a/x", &["/auto"], WatchMode::Auto),
        config("a/y", &["/native"], WatchMode::Native),
        config("a/z", &["/poll"], WatchMode::Poll),
    ];
    let (native, poll) = round(&mut watch, &configs, true, &[], &[]);
    assert_eq!(native, vec!["/auto", "/native"]);
    assert_eq!(poll, vec!["/poll"]);
    let again = round(&mut watch, &configs, true, &[], &[]);
    assert_eq!(again, (vec![], vec![]));
}

#[test]
fn automatic_directories_fall_back() {
    let mut watch = FileWatch::new();
    let configs = vec![config("a/x", &["/p"], WatchMode::Auto)];
    let (native, poll) = round(&mut watch, &configs, true, &["/p"], &[]);
    assert!(native.is_empty());
    assert_eq!(poll, vec!["/p"]);
    assert_eq!(round(&mut watch, &configs, true, &[], &[]), (vec![], vec![]));
    let none = vec![];
    let mut gone = watch.begin(&none);
    assert_eq!(sorted(&watch.poll_to_unwatch(&gone)), vec!["/p"]);
    watch.native_watched(&mut gone, &set(&[]));
    watch.poll_watched(&mut gone, &set(&[]));
    watch.finish(gone);
    let (native, poll) = round(&mut watch, &configs, true, &[], &[]);
    assert_eq!(native, vec!["/p"]);
    assert!(poll.is_empty());
}

#[test]
fn a_round_is_its_steps() {
    let mut watch = FileWatch::new();
    let configs = vec![
        config("a/x", &["/p"], WatchMode::Auto),
        config("a/y", &["/q"], WatchMode::Native),
    ];
    watch.play_round(
        &configs,
        &Answers {
            native_created: true,
            native_failed: set(&["/p"]),
            poll_created: true,
            poll_failed: set(&[]),
        },
    );
    let next = watch.begin(&vec![]);
    assert_eq!(sorted(&watch.native_to_unwatch(&next)), vec!["/q"]);
    assert_eq!(sorted(&watch.poll_to_unwatch(&next)), vec!["/p"]);
}

#[test]
fn shared_directories_keep_their_mode() {
    let mut watch = FileWatch::new();
    let configs = vec![
        config("a/x", &["/p"], WatchMode::Auto),
        config("a/y", &["/p"], WatchMode::Native),
    ];
    let (native, poll) = round(&mut watch, &configs, true, &["/p"], &[]);
    assert!(native.is_empty() && poll.is_empty());
}

#[test]
fn without_a_native_watcher_all_is_polled() {
    let mut watch = FileWatch::new();
    let configs = vec![
        config("a/x", &["/p"], WatchMode::Auto),
        config("a/y", &["/q"], WatchMode::Native),
    ];
    let (native, poll) = round(&mut watch, &configs, false, &[], &[]);
    assert!(native.is_empty());
    assert_eq!(poll, vec!["/p", "/q"]);
    let (native, _) = round(&mut watch, &configs, true, &[], &[]);
    assert_eq!(native, vec!["/p", "/q"]);
}

#[test]
fn refusals_are_reported_once() {
    let mut watch = FileWatch::new();
    assert!(matches!(watch.native_answer(false), Report::Loud));
    assert!(matches!(watch.native_answer(false), Report::Quiet));
    assert!(matches!(watch.native_answer(true), Report::Nothing));
    let mut watch = FileWatch::new();
    let configs = vec![config("a/y", &["/q"], WatchMode::Native)];
    let mut first = watch.begin(&configs);
    watch.native_answer(true);
    let news = watch.native_watched(&mut first, &set(&["/q"]));
    assert_eq!(sorted(&news), vec!["/q"]);
}

#[test]
fn watching_starts_where_there_is_something() {
    let configs = vec![config("a/x", &[], WatchMode::Auto)];
    assert!(matches!(watch_start(0, &vec![]), WatchStart::NoDaemons));
    assert!(matches!(watch_start(1, &configs), WatchStart::NoDirectories));
    let configs = vec![config("a/x", &["/p"], WatchMode::Auto)];
    assert!(matches!(watch_start(1, &configs), WatchStart::Start));
}

#[test]
fn changed_files_restart_their_daemons_once() {
    let ids = vec![s("a/x"), s("b/y"), s("c/z")];
    let hits = vec![vec![true, false, false], vec![true, false, true]];
    assert_eq!(sorted(&daemons_to_restart(&ids, &hits)), vec!["a/x", "c/z"]);
    assert!(daemons_to_restart(&ids, &vec![]).is_empty());
}

#[test]
fn only_running_daemons_restart() {
    let daemon = || WatchedDaemon {
        pid: Some(1),
        running: true,
        disabled: false,
        cmd: Some(vec![s("run")]),
    };
    assert!(matches!(restart_step(None), RestartStep::NotFound));
    let stopped = WatchedDaemon {
        pid: None,
        ..daemon()
    };
    assert!(matches!(restart_step(Some(stopped)), RestartStep::NotRunning));
    let disabled = WatchedDaemon {
        disabled: true,
        ..daemon()
    };
    assert!(matches!(restart_step(Some(disabled)), RestartStep::Disabled));
    let bare = WatchedDaemon {
        cmd: None,
        ..daemon()
    };
    assert!(matches!(restart_step(Some(bare)), RestartStep::NoCommand));
    assert!(
        matches!(
            restart_step(Some(daemon())),
            RestartStep::Restart { cmd, force: true, retry_count: 0, wait_ready: false }
                if cmd == vec!["run"]
        )
    );
}

fn limited(name: &str, memory: Option<u64>, cpu: bool) -> LimitedDaemon {
    LimitedDaemon {
        id: id(name),
        pid: Some(3),
        running: true,
        memory_limit: memory,
        cpu_limited: cpu,
    }
}

fn sample(memory: u64, cpu_over: bool) -> Option<Sample> {
    Some(Sample { memory, cpu_over })
}

#[test]
fn limits_are_for_running_daemons() {
    assert!(limited("a/x", Some(1), false).to_check());
    assert!(!limited("a/x", None, false).to_check());
    assert!(!limited("global/pitchfork", Some(1), true).to_check());
    let stopped = LimitedDaemon {
        running: false,
        ..limited("a/x", Some(1), false)
    };
    assert!(!stopped.to_check());
    assert!(any_limits(&vec![stopped]));
    assert!(!any_limits(&vec![limited("a/x", None, false)]));
    assert_eq!(cpu_threshold(0), 1);
    assert_eq!(cpu_threshold(5), 5);
}

#[test]
fn memory_is_enforced_at_once() {
    let mut violations = Violations::new();
    let daemons = vec![limited("a/x", Some(100), true)];
    assert!(matches!(
        violations.check(&daemons, &vec![sample(101, true)], 3)[0],
        Enforcement::StopForMemory
    ));
    assert!(matches!(
        violations.check(&daemons, &vec![sample(100, false)], 3)[0],
        Enforcement::Within
    ));
    assert!(matches!(
        violations.check(&daemons, &vec![None], 3)[0],
        Enforcement::Unknown
    ));
}

#[test]
fn sustained_cpu_use_is_enforced() {
    let mut violations = Violations::new();
    let daemons = vec![limited("a/x", None, true)];
    let mut over = || violations.check(&daemons, &vec![sample(1, true)], 3)[0];
    assert!(matches!(over(), Enforcement::Counted(1)));
    assert!(matches!(over(), Enforcement::Counted(2)));
    assert!(matches!(over(), Enforcement::StopForCpu(3)));
    assert!(matches!(over(), Enforcement::Counted(1)));
}

#[test]
fn a_calm_sample_starts_the_count_anew() {
    let mut violations = Violations::new();
    let daemons = vec![limited("a/x", None, true)];
    for calm in [sample(1, false), None] {
        violations.check(&daemons, &vec![sample(1, true)], 2);
        violations.check(&daemons, &vec![calm], 2);
        assert!(matches!(
            violations.check(&daemons, &vec![sample(1, true)], 2)[0],
            Enforcement::Counted(1)
        ));
        violations.check(&daemons, &vec![sample(1, false)], 2);
    }
}

#[test]
fn retention_runs_hourly() {
    assert!(!retention_due(3599));
    assert!(retention_due(3600));
}

#[test]
fn ages_are_read() {
    assert!(matches!(read_age(""), AgeSetting::Unset));
    assert!(matches!(read_age("soon"), AgeSetting::Invalid));
    assert!(matches!(
        read_age("1d"),
        AgeSetting::Span {
            secs: 86_400,
            nanos: 0
        }
    ));
}

#[test]
fn hooks_are_built_from_settings() {
    assert!(build_archive_hook("  ", 10).is_none());
    let hook = build_archive_hook(" gzip ", 0).unwrap();
    assert_eq!(hook.command, "gzip");
    assert_eq!(hook.batch_size, 1);
    let policy = global_policy(AgeSetting::Unset, 0);
    assert!(policy.is_none());
    assert_eq!(global_policy(AgeSetting::Invalid, 5).count, Some(5));
}

fn retention(name: &str, age: Option<&str>, lines: Option<i64>, hook: Option<&str>) -> DaemonRetention {
    DaemonRetention {
        id: id(name),
        time_retention: age.map(s),
        line_retention: lines,
        archive_hook: hook.map(s),
    }
}

#[test]
fn own_settings_of_daemons_win() {
    let settings = LogsRetention {
        time_retention: s("7d"),
        line_retention: 1000,
        hook_command: s("gzip"),
        hook_batch_size: 50,
    };
    let daemons = vec![
        retention("a/plain", None, Some(0), Some(" ")),
        retention("a/lines", None, Some(10), None),
        retention("a/odd", Some("soon"), None, Some("cat")),
    ];
    let plan = plan_retention(&settings, &daemons);
    assert_eq!(plan.policy.count, Some(1000));
    assert!(plan.policy.age.is_some());
    assert_eq!(plan.overrides.len(), 2);
    let excluded: Vec<String> = plan.excluded().iter().map(|d| d.qualified()).collect();
    assert_eq!(excluded, vec!["a/lines", "a/odd"]);
    assert_eq!(plan.overrides[0].policy.count, Some(10));
    assert!(plan.overrides[0].policy.age.is_some());
    assert_eq!(plan.overrides[0].hook.as_ref().unwrap().command, "gzip");
    assert_eq!(plan.overrides[1].policy.count, Some(1000));
    assert_eq!(plan.overrides[1].hook.as_ref().unwrap().command, "cat");
    assert_eq!(plan.notes.len(), 1);
    assert_eq!(
        plan.notes[0].message().unwrap(),
        "invalid time_retention 'soon' for daemon a/odd: expected format like '7d', '24h', '30min'"
    );
}

#[test]
fn a_bad_global_age_is_noted() {
    let settings = LogsRetention {
        time_retention: s("soon"),
        line_retention: 0,
        hook_command: s(""),
        hook_batch_size: 50,
    };
    let plan = plan_retention(&settings, &vec![]);
    assert!(plan.policy.is_none() && plan.hook.is_none());
    assert_eq!(
        plan.notes[0].message().unwrap(),
        "invalid global logs.time_retention 'soon': expected format like '7d', '24h', '30min'"
    );
}

fn cron(schedule: &str, retrigger: CronRetrigger) -> CronDaemon {
    CronDaemon {
        schedule: s(schedule),
        retrigger,
        last_triggered: Some(moment(1_700_000_000)),
        immediate: None,
        pid: None,
        last_exit_success: None,
        cmd: Some(vec![s("job")]),
    }
}

#[test]
fn retriggers_look_at_the_last_run() {
    let idle = |r, last| should_run(r, None, last);
    assert!(idle(CronRetrigger::Finish, Some(false)));
    assert!(!should_run(CronRetrigger::Finish, Some(1), None));
    assert!(should_run(CronRetrigger::Always, Some(1), None));
    assert!(idle(CronRetrigger::Success, None));
    assert!(!idle(CronRetrigger::Success, Some(false)));
    assert!(idle(CronRetrigger::Fail, None));
    assert!(idle(CronRetrigger::Fail, Some(false)));
    assert!(!idle(CronRetrigger::Fail, Some(true)));
}

#[test]
fn first_checks_anchor_or_look_back() {
    let now = moment(1_700_000_100);
    let fresh = CronDaemon {
        last_triggered: None,
        ..cron("* * * * * *", CronRetrigger::Finish)
    };
    assert!(check_since(&fresh, &now).is_none());
    assert!(matches!(check_cron(&fresh, &now), CronStep::Anchor));
    let eager = CronDaemon {
        immediate: Some(true),
        ..fresh
    };
    assert_eq!(check_since(&eager, &now).unwrap().millis(), 1_700_000_090_000);
    assert!(matches!(check_cron(&eager, &now), CronStep::Run { .. }));
}

#[test]
fn the_ends_of_the_calendar_are_checked() {
    let now = moment(1_700_000_100);
    let at = |secs| CronDaemon {
        last_triggered: Some(moment(secs)),
        ..cron("* * * * * *", CronRetrigger::Always)
    };
    assert!(matches!(check_cron(&at(-8_334_601_228_800), &now), CronStep::NotDue));
    assert!(matches!(check_cron(&at(8_210_266_876_798), &now), CronStep::NotDue));
    assert!(matches!(check_cron(&at(8_210_266_876_799), &now), CronStep::OutOfRange));
    assert!(matches!(check_cron(&at(-1_000_000_000), &now), CronStep::Run { .. }));
}

#[test]
fn due_jobs_run() {
    let now = moment(1_700_000_100);
    let daemon = cron("* * * * * *", CronRetrigger::Always);
    match check_cron(&daemon, &now) {
        CronStep::Run { cmd, force, wait_ready } => {
            assert!(!wait_ready);
            assert_eq!(cmd, vec!["job"]);
            assert!(force);
        }
        other => panic!("{other:?}"),
    }
    let yearly = cron("0 0 0 1 1 *", CronRetrigger::Always);
    assert!(matches!(check_cron(&yearly, &now), CronStep::NotDue));
    let broken = cron("every day", CronRetrigger::Always);
    assert!(matches!(check_cron(&broken, &now), CronStep::Invalid { .. }));
}

#[test]
fn what_is_due_is_decided() {
    let now = moment(100);
    let daemon = cron("", CronRetrigger::Finish);
    assert!(matches!(due_step(&daemon, None, &now), CronStep::NotDue));
    assert!(matches!(due_step(&daemon, Some(moment(101)), &now), CronStep::NotDue));
    match due_step(&daemon, Some(moment(100)), &now) {
        CronStep::Run { force, .. } => assert!(!force),
        other => panic!("{other:?}"),
    }
    let busy = CronDaemon {
        pid: Some(1),
        ..cron("", CronRetrigger::Finish)
    };
    let step = due_step(&busy, Some(moment(99)), &now);
    assert!(matches!(step, CronStep::Skip));
    assert!(step.sets_last_triggered());
    let bare = CronDaemon {
        cmd: None,
        ..cron("", CronRetrigger::Finish)
    };
    assert!(matches!(due_step(&bare, Some(moment(99)), &now), CronStep::NoCommand));
    assert!(!CronStep::NotDue.sets_last_triggered());
}

#[test]
fn configured_jobs_are_registered() {
    let config = vec![
        ConfiguredDaemon {
            id: id("a/job"),
            cron: true,
            run: s("sh -c 'echo hi'"),
        },
        ConfiguredDaemon {
            id: id("a/web"),
            cron: false,
            run: s("serve"),
        },
        ConfiguredDaemon {
            id: id("a/odd"),
            cron: true,
            run: s("echo 'open"),
        },
    ];
    let known = vec![
        KnownDaemon {
            id: id("a/old"),
            config_registered: true,
        },
        KnownDaemon {
            id: id("a/web"),
            config_registered: true,
        },
        KnownDaemon {
            id: id("a/user"),
            config_registered: false,
        },
    ];
    let stale: Vec<String> = stale_daemons(&known, &config).iter().map(|d| d.qualified()).collect();
    assert_eq!(stale, vec!["a/old", "a/web"]);
    let new = daemons_to_register(&known, &config);
    assert_eq!(new.len(), 2);
    assert_eq!(new[0].id.qualified(), "a/job");
    assert_eq!(new[0].words.clone().unwrap(), vec!["sh", "-c", "echo hi"]);
    assert!(new[1].words.is_none());
}
