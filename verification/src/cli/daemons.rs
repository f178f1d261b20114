//! The `daemons` command: which daemons are configured, and which config file is written.
use crate::cli::json_output::JsonDaemonConfigEntry;
use crate::daemon_id;
use crate::daemon_id::DaemonId;
use crate::text;
use crate::text::text_eq;
use vstd::prelude::*;

verus! {

/// List configured daemons from all merged config files.
#[derive(Debug)]
pub struct Daemons {
    /// Output in JSON format
    pub json: bool,
}

/// A daemon of the configuration.
#[derive(Debug)]
pub struct DaemonRun {
    pub id: DaemonId,
    pub run: String,
}

/// The line about a daemon.
pub open spec fn run_line(d: DaemonRun) -> Seq<char> {
    daemon_id::qualified_text(d.id@.0, d.id@.1) + "\t"@ + d.run@
}

impl Daemons {
    /// The lines about the daemons.
    pub fn lines(&self, daemons: &Vec<DaemonRun>) -> (r: Vec<String>)
        ensures
            text::texts(r@) == if daemons@.len() == 0 {
                seq!["No daemons configured."@]
            } else {
                daemons@.map_values(|d: DaemonRun| run_line(d))
            },
    {
        let mut out: Vec<String> = Vec::new();
        if daemons.len() == 0 {
            out.push("No daemons configured.".to_string());
            assert(text::texts(out@) =~= seq!["No daemons configured."@]);
            return out;
        }
        let ghost goal = daemons@.map_values(|d: DaemonRun| run_line(d));
        let mut i: usize = 0;
        while i < daemons.len()
            invariant
                i <= daemons@.len(),
                goal == daemons@.map_values(|d: DaemonRun| run_line(d)),
                text::texts(out@) == goal.take(i as int),
            decreases daemons@.len() - i,
        {
            let ghost before = text::texts(out@);
            out.push(daemons[i].id.qualified().concat("\t").concat(daemons[i].run.as_str()));
            assert(text::texts(out@) =~= before.push(goal[i as int]));
            i = i + 1;
        }
        assert(text::texts(out@) =~= goal);
        out
    }

    /// The JSON entries of the daemons.
    pub fn entries(&self, daemons: &Vec<DaemonRun>) -> (r: Vec<JsonDaemonConfigEntry>)
        ensures
            r@.len() == daemons@.len(),
            forall|i: int|
                0 <= i < r@.len() ==> (#[trigger] r@[i]).id@ == daemon_id::qualified_text(
                    daemons@[i].id@.0,
                    daemons@[i].id@.1,
                ) && r@[i].run@ == daemons@[i].run@,
    {
        let mut out: Vec<JsonDaemonConfigEntry> = Vec::new();
        let mut i: usize = 0;
        while i < daemons.len()
            invariant
                i <= daemons@.len(),
                out@.len() == i,
                forall|k: int|
                    0 <= k < i ==> (#[trigger] out@[k]).id@ == daemon_id::qualified_text(
                        daemons@[k].id@.0,
                        daemons@[k].id@.1,
                    ) && out@[k].run@ == daemons@[k].run@,
            decreases daemons@.len() - i,
        {
            out.push(
                JsonDaemonConfigEntry {
                    id: daemons[i].id.qualified(),
                    run: daemons[i].run.clone(),
                },
            );
            i = i + 1;
        }
        out
    }
}

/// A path of a config file.
#[derive(Debug)]
pub struct ConfigPath {
    /// The last part of the path, where it has one.
    pub file_name: Option<String>,
    pub exists: bool,
}

/// Whether a path is one of a name.
pub open spec fn is_named(p: ConfigPath, name: Seq<char>) -> bool {
    p.file_name matches Some(n) && n@ == name
}

/// Whether a path is one of a project config.
pub open spec fn is_project_config(p: ConfigPath) -> bool {
    is_named(p, "pitchfork.toml"@) || is_named(p, "pitchfork.local.toml"@)
}

/// Whether a path is considered: where only files that exist are, it must.
pub open spec fn is_considered(p: ConfigPath, exists_filter: bool) -> bool {
    is_project_config(p) && (exists_filter ==> p.exists)
}

/// The position of the nearest considered path of a name. Paths are listed from the root to the
/// current directory, so the nearest one is the last.
pub open spec fn nearest_named(
    paths: Seq<ConfigPath>,
    name: Seq<char>,
    exists_filter: bool,
) -> Option<int>
    decreases paths.len(),
{
    if paths.len() == 0 {
        None
    } else if is_considered(paths.last(), exists_filter) && is_named(paths.last(), name) {
        Some(paths.len() - 1)
    } else {
        nearest_named(paths.drop_last(), name, exists_filter)
    }
}

/// The config file that is written.
#[derive(Debug, Clone, Copy, PartialEq, Eq, Structural)]
pub enum ConfigTarget {
    /// The path at a position.
    Listed(usize),
    /// `pitchfork.local.toml` in the directory of the path at a position.
    LocalBeside(usize),
    /// `pitchfork.local.toml` in the current directory.
    LocalHere,
    /// `pitchfork.toml` in the current directory.
    ProjectHere,
}

/// The config file that is written.
pub open spec fn config_target(paths: Seq<ConfigPath>, local: bool, exists_filter: bool) -> ConfigTarget {
    let project_file = nearest_named(paths, "pitchfork.toml"@, exists_filter);
    if local {
        match project_file {
            Some(at) => ConfigTarget::LocalBeside(at as usize),
            None => ConfigTarget::LocalHere,
        }
    } else {
        match project_file {
            Some(at) => ConfigTarget::Listed(at as usize),
            None => ConfigTarget::ProjectHere,
        }
    }
}

fn named(p: &ConfigPath, name: &str) -> (r: bool)
    ensures
        r == is_named(*p, name@),
{
    match &p.file_name {
        Some(n) => text_eq(n.as_str(), name),
        None => false,
    }
}

/// Whether a path is one of a project config.
pub fn is_project_config_path(p: &ConfigPath) -> (r: bool)
    ensures
        r == is_project_config(*p),
{
    named(p, "pitchfork.toml") || named(p, "pitchfork.local.toml")
}

fn find_nearest(paths: &Vec<ConfigPath>, name: &str, exists_filter: bool) -> (r: Option<usize>)
    ensures
        match r {
            Some(at) => at < paths@.len() && nearest_named(paths@, name@, exists_filter) == Some(
                at as int,
            ),
            None => nearest_named(paths@, name@, exists_filter) is None,
        },
{
    let mut i: usize = paths.len();
    assert(paths@.take(i as int) =~= paths@);
    while i > 0
        invariant
            i <= paths@.len(),
            nearest_named(paths@, name@, exists_filter) == nearest_named(
                paths@.take(i as int),
                name@,
                exists_filter,
            ),
        decreases i,
    {
        i = i - 1;
        assert(paths@.take(i + 1).drop_last() =~= paths@.take(i as int));
        let p = &paths[i];
        if is_project_config_path(p) && (!exists_filter || p.exists) && named(p, name) {
            return Some(i);
        }
    }
    None
}

/// Resolve which project-level config file is meant by the `--local`/`--project` flags.
///
/// Resolution rules:
/// - `--local`: Find or create `pitchfork.local.toml` next to the nearest `pitchfork.toml`.
///   If no `pitchfork.toml` exists, fall back to `pitchfork.local.toml` in CWD.
/// - `--project`: Find or create `pitchfork.toml` in the project hierarchy.
///   If none exists, fall back to `pitchfork.toml` in CWD.
/// - Default (no flag): Same as `--project`.
///
/// `paths` are the config files from the root to the current directory. The `exists_filter`
/// parameter controls whether only existing files are considered.
pub fn resolve_project_config(
    paths: &Vec<ConfigPath>,
    local: bool,
    project: bool,
    exists_filter: bool,
) -> (r: Result<ConfigTarget, String>)
    ensures
        match r {
            Ok(target) => !(local && project) && target == config_target(
                paths@,
                local,
                exists_filter,
            ),
            Err(e) => local && project && e@ == "cannot specify both --local and --project"@,
        },
{
    if local && project {
        return Err("cannot specify both --local and --project".to_string());
    }
    let project_file = find_nearest(paths, "pitchfork.toml", exists_filter);
    if local {
        return match project_file {
            Some(at) => Ok(ConfigTarget::LocalBeside(at)),
            None => Ok(ConfigTarget::LocalHere),
        };
    }
    match project_file {
        Some(at) => Ok(ConfigTarget::Listed(at)),
        None => Ok(ConfigTarget::ProjectHere),
    }
}

/// A project file is written to the nearest `pitchfork.toml`, and the local one stands beside it,
/// whatever other files are listed.
pub proof fn local_file_stands_by_the_project_file(paths: Seq<ConfigPath>, exists_filter: bool)
    requires
        paths.len() <= usize::MAX,
    ensures
        config_target(paths, false, exists_filter) matches ConfigTarget::Listed(at) ==> at
            < paths.len() && is_named(paths[at as int], "pitchfork.toml"@),
        config_target(paths, false, exists_filter) matches ConfigTarget::Listed(at) ==> forall|k: int|
            at < k < paths.len() ==> !(is_considered(#[trigger] paths[k], exists_filter) && is_named(
                paths[k],
                "pitchfork.toml"@,
            )),
        config_target(paths, true, exists_filter) == match config_target(
            paths,
            false,
            exists_filter,
        ) {
            ConfigTarget::Listed(at) => ConfigTarget::LocalBeside(at),
            _ => ConfigTarget::LocalHere,
        },
{
    lemma_nearest_named(paths, "pitchfork.toml"@, exists_filter);
}

proof fn lemma_nearest_named(paths: Seq<ConfigPath>, name: Seq<char>, exists_filter: bool)
    ensures
        nearest_named(paths, name, exists_filter) matches Some(at) ==> 0 <= at < paths.len()
            && is_named(paths[at], name) && is_considered(paths[at], exists_filter) && forall|k: int|
            at < k < paths.len() ==> !(is_considered(#[trigger] paths[k], exists_filter)
                && is_named(paths[k], name)),
    decreases paths.len(),
{
    if paths.len() > 0 && !(is_considered(paths.last(), exists_filter) && is_named(
        paths.last(),
        name,
    )) {
        lemma_nearest_named(paths.drop_last(), name, exists_filter);
        if let Some(at) = nearest_named(paths, name, exists_filter) {
            assert forall|k: int| at < k < paths.len() implies !(is_considered(
                #[trigger] paths[k],
                exists_filter,
            ) && is_named(paths[k], name)) by {
                if k < paths.len() - 1 {
                    assert(paths.drop_last()[k] == paths[k]);
                }
            }
        }
    }
}

/// The nearest project file is written, or the local one beside it; where there is none, a file in
/// the current directory is. The nearest one is the last that is listed.
pub proof fn the_nearest_project_file_is_written(
    paths: Seq<ConfigPath>,
    exists_filter: bool,
    k: int,
)
    requires
        paths.len() <= usize::MAX,
    ensures
        0 <= k < paths.len() && paths[k].file_name is Some && paths[k].file_name->0@
            == "pitchfork.toml"@ && (exists_filter ==> paths[k].exists) && (forall|i: int|
            k < i < paths.len() ==> !((#[trigger] paths[i]).file_name is Some
                && paths[i].file_name->0@ == "pitchfork.toml"@ && (exists_filter
                ==> paths[i].exists))) ==> config_target(paths, false, exists_filter)
            == ConfigTarget::Listed(k as usize) && config_target(paths, true, exists_filter)
            == ConfigTarget::LocalBeside(k as usize),
        (forall|i: int|
            0 <= i < paths.len() ==> !((#[trigger] paths[i]).file_name is Some
                && paths[i].file_name->0@ == "pitchfork.toml"@ && (exists_filter
                ==> paths[i].exists))) ==> config_target(paths, false, exists_filter)
            == ConfigTarget::ProjectHere && config_target(paths, true, exists_filter)
            == ConfigTarget::LocalHere,
    decreases paths.len(),
{
    if paths.len() > 0 {
        let rest = paths.drop_last();
        the_nearest_project_file_is_written(rest, exists_filter, k);
        assert(forall|i: int| 0 <= i < rest.len() ==> rest[i] == #[trigger] paths[i]);
        assert(forall|i: int| 0 <= i < rest.len() ==> #[trigger] rest[i] == paths[i]);
        let last = paths[paths.len() - 1];
        assert(paths.last() == last);
    }
}

/// The line about a daemon is its qualified form and what it runs, with a tab between them.
pub proof fn lines_tell_what_is_run(d: DaemonRun)
    ensures
        run_line(d) == d.id@.0 + "/"@ + d.id@.1 + "\t"@ + d.run@,
{
}

} // verus!
