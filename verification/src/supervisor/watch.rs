//! Which directories are watched for changes, and by which kind of watcher.
use crate::collect::{TextMap, TextSet};
use crate::text;
use crate::text::{join, list_contains};
use vstd::prelude::*;

verus! {

/// How the files of a daemon are watched.
#[derive(Debug, Clone, Copy, PartialEq, Eq, Structural)]
pub enum WatchMode {
    /// By notifications of the system.
    Native,
    /// By looking at the files again and again.
    Poll,
    /// By notifications where they are available, else by looking.
    Auto,
}

/// The directories of a daemon that are to be watched.
#[derive(Debug)]
pub struct WatchConfig {
    pub id: String,
    pub dirs: Vec<String>,
    pub mode: WatchMode,
}

/// A directory that a daemon wants to be watched.
pub struct Wish {
    pub dir: Seq<char>,
    pub id: Seq<char>,
    pub mode: WatchMode,
}

/// The directories that one daemon wants to be watched.
pub open spec fn wishes_of(config: WatchConfig) -> Seq<Wish> {
    config.dirs@.map_values(
        |dir: String| Wish { dir: dir@, id: config.id@, mode: config.mode },
    )
}

/// The directories that daemons want to be watched.
pub open spec fn all_wishes(configs: Seq<WatchConfig>) -> Seq<Wish>
    decreases configs.len(),
{
    if configs.len() == 0 {
        Seq::empty()
    } else {
        all_wishes(configs.drop_last()) + wishes_of(configs.last())
    }
}

/// Whether a daemon wants a directory to be watched in a mode.
pub open spec fn wanted(wishes: Seq<Wish>, dir: Seq<char>, mode: WatchMode) -> bool {
    exists|i: int|
        0 <= i < wishes.len() && (#[trigger] wishes[i]).dir == dir && wishes[i].mode == mode
}

/// The directories that are to be watched in a mode.
pub open spec fn required(wishes: Seq<Wish>, mode: WatchMode) -> Set<Seq<char>> {
    Set::new(|dir: Seq<char>| wanted(wishes, dir, mode))
}

/// The daemons that want a directory to be watched.
pub open spec fn ids_for(wishes: Seq<Wish>, dir: Seq<char>) -> Seq<Seq<char>>
    decreases wishes.len(),
{
    if wishes.len() == 0 {
        Seq::empty()
    } else if wishes.last().dir == dir {
        ids_for(wishes.drop_last(), dir).push(wishes.last().id)
    } else {
        ids_for(wishes.drop_last(), dir)
    }
}

/// The lists of a map.
pub open spec fn id_lists(m: Map<Seq<char>, Vec<String>>) -> Map<Seq<char>, Seq<Seq<char>>> {
    m.map_values(|v: Vec<String>| text::texts(v@))
}

/// What the daemons want to be watched, sorted by mode and by directory.
#[derive(Debug)]
pub struct Requirements {
    native: TextSet,
    poll: TextSet,
    auto: TextSet,
    daemons: TextMap<Vec<String>>,
}

impl Requirements {
    /// Whether these are the requirements of wishes.
    pub closed spec fn meets(&self, wishes: Seq<Wish>) -> bool {
        &&& self.native@ == required(wishes, WatchMode::Native)
        &&& self.poll@ == required(wishes, WatchMode::Poll)
        &&& self.auto@ == required(wishes, WatchMode::Auto)
        &&& forall|dir: Seq<char>|
            {
                &&& #[trigger] self.daemons@.contains_key(dir) <==> ids_for(wishes, dir).len() > 0
                &&& self.daemons@.contains_key(dir) ==> text::texts(self.daemons@[dir]@)
                    == ids_for(wishes, dir)
            }
    }

    /// Nothing is wanted.
    fn none() -> (r: Requirements)
        ensures
            r.meets(Seq::empty()),
    {
        let r = Requirements {
            native: TextSet::new(),
            poll: TextSet::new(),
            auto: TextSet::new(),
            daemons: TextMap::new(),
        };
        assert(r.native@ =~= required(Seq::empty(), WatchMode::Native));
        assert(r.poll@ =~= required(Seq::empty(), WatchMode::Poll));
        assert(r.auto@ =~= required(Seq::empty(), WatchMode::Auto));
        r
    }

    /// Adds a wish.
    fn add_wish(
        &mut self,
        dir: &String,
        id: &String,
        mode: WatchMode,
        Ghost(wishes): Ghost<Seq<Wish>>,
    )
        requires
            old(self).meets(wishes),
        ensures
            final(self).meets(wishes.push(Wish { dir: dir@, id: id@, mode })),
    {
        let ghost wish = Wish { dir: dir@, id: id@, mode };
        let ghost all = wishes.push(wish);
        let mut ids = match self.daemons.remove(dir.as_str()) {
            Some(ids) => ids,
            None => Vec::new(),
        };
        assert(text::texts(ids@) =~= ids_for(wishes, dir@));
        ids.push(id.clone());
        proof {
            assert(text::texts(ids@) =~= ids_for(wishes, dir@).push(id@));
            assert(all.drop_last() =~= wishes);
            assert forall|d: Seq<char>, m: WatchMode| #[trigger]
                wanted(all, d, m) == (wanted(wishes, d, m) || (d == dir@ && m == mode)) by {
                if wanted(wishes, d, m) {
                    let i = choose|i: int|
                        0 <= i < wishes.len() && (#[trigger] wishes[i]).dir == d && wishes[i].mode
                            == m;
                    assert(all[i] == wishes[i]);
                }
                assert(all[wishes.len() as int] == wish);
            }
        }
        self.daemons.insert(dir.clone(), ids);
        match mode {
            WatchMode::Native => {
                self.native.insert(dir.clone());
            },
            WatchMode::Poll => {
                self.poll.insert(dir.clone());
            },
            WatchMode::Auto => {
                self.auto.insert(dir.clone());
            },
        }
        assert(self.native@ =~= required(all, WatchMode::Native));
        assert(self.poll@ =~= required(all, WatchMode::Poll));
        assert(self.auto@ =~= required(all, WatchMode::Auto));
    }

    /// What the daemons want to be watched.
    pub fn of(configs: &Vec<WatchConfig>) -> (r: Requirements)
        ensures
            r.meets(all_wishes(configs@)),
    {
        let mut r = Requirements::none();
        let mut i: usize = 0;
        while i < configs.len()
            invariant
                i <= configs@.len(),
                r.meets(all_wishes(configs@.take(i as int))),
            decreases configs@.len() - i,
        {
            let config = &configs[i];
            let ghost before = all_wishes(configs@.take(i as int));
            let mut j: usize = 0;
            assert(before + wishes_of(*config).take(0) =~= before);
            while j < config.dirs.len()
                invariant
                    j <= config.dirs@.len(),
                    r.meets(before + wishes_of(*config).take(j as int)),
                decreases config.dirs@.len() - j,
            {
                let ghost wishes = before + wishes_of(*config).take(j as int);
                r.add_wish(&config.dirs[j], &config.id, config.mode, Ghost(wishes));
                assert(wishes.push(wishes_of(*config)[j as int]) =~= before + wishes_of(
                    *config,
                ).take(j + 1));
                j = j + 1;
            }
            assert(wishes_of(*config).take(j as int) =~= wishes_of(*config));
            assert(configs@.take(i + 1).drop_last() =~= configs@.take(i as int));
            i = i + 1;
        }
        assert(configs@.take(i as int) =~= configs@);
        r
    }

    /// The daemons that want a directory to be watched, for a message.
    pub fn daemon_ids_for_dir(&self, dir: &str) -> (r: String)
        ensures
            forall|wishes: Seq<Wish>| #[trigger]
                self.meets(wishes) ==> r@ == text::joined(ids_for(wishes, dir@), ", "@),
    {
        match self.daemons.get(dir) {
            Some(ids) => join(ids, ", "),
            None => {
                let none: Vec<String> = Vec::new();
                assert(text::texts(none@) =~= Seq::<Seq<char>>::empty());
                assert forall|wishes: Seq<Wish>| #[trigger] self.meets(wishes) implies ids_for(
                    wishes,
                    dir@,
                ) == text::texts(none@) by {
                    assert(ids_for(wishes, dir@) =~= Seq::<Seq<char>>::empty());
                }
                join(&none, ", ")
            },
        }
    }
}

/// The directories that only daemons without a choice of their own want to be watched. They may
/// go from one kind of watcher to the other.
pub open spec fn auto_only(wishes: Seq<Wish>) -> Set<Seq<char>> {
    required(wishes, WatchMode::Auto).difference(
        required(wishes, WatchMode::Native),
    ).difference(required(wishes, WatchMode::Poll))
}

/// The directories for the native watcher: those that must be, and those that may be and have
/// not fallen back to polling.
pub open spec fn native_goal(wishes: Seq<Wish>, fallen: Set<Seq<char>>) -> Set<Seq<char>> {
    required(wishes, WatchMode::Native).union(
        required(wishes, WatchMode::Auto).difference(fallen),
    )
}

/// The directories for the polling watcher: those that must be, and those that have fallen back.
pub open spec fn poll_goal(wishes: Seq<Wish>, fallen: Set<Seq<char>>) -> Set<Seq<char>> {
    required(wishes, WatchMode::Poll).union(
        required(wishes, WatchMode::Auto).intersect(fallen),
    )
}

/// The directories of both watchers in one round.
pub struct Goals {
    pub native: Set<Seq<char>>,
    pub poll: Set<Seq<char>>,
}

/// The directories before any watcher is asked.
pub open spec fn first_goals(wishes: Seq<Wish>, fallen: Set<Seq<char>>) -> Goals {
    Goals { native: native_goal(wishes, fallen), poll: poll_goal(wishes, fallen) }
}

/// The directories after the native watcher was asked.
///
/// `failed` are those that it did not take. Of them, those that may go to the polling watcher do.
/// Without a native watcher all directories go there.
pub open spec fn goals_after_native(
    goals: Goals,
    auto_only: Set<Seq<char>>,
    native_up: bool,
    failed: Set<Seq<char>>,
) -> Goals {
    if native_up {
        let falling = fallen_now(goals, auto_only, native_up, failed);
        Goals { native: goals.native.difference(falling), poll: goals.poll.union(falling) }
    } else {
        Goals { native: Set::empty(), poll: goals.poll.union(goals.native) }
    }
}

/// The directories that fall back to polling in a round.
pub open spec fn fallen_now(
    goals: Goals,
    auto_only: Set<Seq<char>>,
    native_up: bool,
    failed: Set<Seq<char>>,
) -> Set<Seq<char>> {
    if native_up {
        goals.native.intersect(failed).intersect(auto_only)
    } else {
        Set::empty()
    }
}

/// The directories after the polling watcher was asked. Without one none are polled.
pub open spec fn goals_after_poll(goals: Goals, poll_up: bool) -> Goals {
    if poll_up {
        goals
    } else {
        Goals { native: goals.native, poll: Set::empty() }
    }
}

/// The directories whose failure was already reported.
pub open spec fn reported_after(
    reported: Set<Seq<char>>,
    goal: Set<Seq<char>>,
    failed: Set<Seq<char>>,
) -> Set<Seq<char>> {
    reported.union(goal.intersect(failed)).intersect(goal)
}

/// The daemons of `ids` that are also in `watching`.
pub open spec fn still_in(ids: Seq<Seq<char>>, watching: Seq<Seq<char>>) -> Seq<Seq<char>>
    decreases ids.len(),
{
    if ids.len() == 0 {
        Seq::empty()
    } else if watching.contains(ids.last()) {
        still_in(ids.drop_last(), watching).push(ids.last())
    } else {
        still_in(ids.drop_last(), watching)
    }
}

/// The daemons for which a directory stays with the polling watcher.
pub open spec fn keeps_fallback(
    ids: Seq<Seq<char>>,
    wishes: Seq<Wish>,
    dir: Seq<char>,
) -> Seq<Seq<char>> {
    if wanted(wishes, dir, WatchMode::Auto) {
        still_in(ids, ids_for(wishes, dir))
    } else {
        Seq::empty()
    }
}

/// The daemons that made directories fall back, after a round.
pub open spec fn fallback_after(
    fallback: Map<Seq<char>, Seq<Seq<char>>>,
    falling: Set<Seq<char>>,
    wishes: Seq<Wish>,
) -> Map<Seq<char>, Seq<Seq<char>>> {
    let grown = Map::new(
        |dir: Seq<char>| fallback.contains_key(dir) || falling.contains(dir),
        |dir: Seq<char>| if falling.contains(dir) {
            ids_for(wishes, dir)
        } else {
            fallback[dir]
        },
    );
    Map::new(
        |dir: Seq<char>|
            grown.contains_key(dir) && keeps_fallback(grown[dir], wishes, dir).len() > 0,
        |dir: Seq<char>| keeps_fallback(grown[dir], wishes, dir),
    )
}

/// The state of file watching between two rounds.
pub struct WatchState {
    pub native_up: bool,
    pub poll_up: bool,
    pub native_refused: bool,
    pub poll_refused: bool,
    pub native: Set<Seq<char>>,
    pub poll: Set<Seq<char>>,
    pub fallback: Map<Seq<char>, Seq<Seq<char>>>,
    pub reported_native: Set<Seq<char>>,
    pub reported_poll: Set<Seq<char>>,
}

/// File watching: which watchers there are and what they watch.
#[derive(Debug)]
pub struct FileWatch {
    native_up: bool,
    poll_up: bool,
    native_refused: bool,
    poll_refused: bool,
    native: TextSet,
    poll: TextSet,
    /// The directories that the native watcher did not take, each with the daemons that wanted
    /// it at that time.
    fallback: TextMap<Vec<String>>,
    reported_native: TextSet,
    reported_poll: TextSet,
}

impl View for FileWatch {
    type V = WatchState;

    closed spec fn view(&self) -> WatchState {
        WatchState {
            native_up: self.native_up,
            poll_up: self.poll_up,
            native_refused: self.native_refused,
            poll_refused: self.poll_refused,
            native: self.native@,
            poll: self.poll@,
            fallback: id_lists(self.fallback@),
            reported_native: self.reported_native@,
            reported_poll: self.reported_poll@,
        }
    }
}

/// How loudly the failure to create a watcher is reported.
#[derive(Debug, Clone, Copy, PartialEq, Eq, Structural)]
pub enum Report {
    /// There is no failure.
    Nothing,
    /// The failure is known already.
    Quiet,
    /// The failure is new.
    Loud,
}

/// The report on an attempt to create a watcher.
pub open spec fn creation_report(created: bool, refused_before: bool) -> Report {
    if created {
        Report::Nothing
    } else if refused_before {
        Report::Quiet
    } else {
        Report::Loud
    }
}

/// One round of file watching, under way.
#[derive(Debug)]
pub struct Round {
    need: Requirements,
    auto_only: TextSet,
    native: TextSet,
    poll: TextSet,
    falling: TextSet,
}

impl Round {
    /// The directories of both watchers.
    pub closed spec fn goals(&self) -> Goals {
        Goals { native: self.native@, poll: self.poll@ }
    }

    /// The directories that fall back to polling in this round.
    pub closed spec fn falling(&self) -> Set<Seq<char>> {
        self.falling@
    }

    /// Whether the round serves wishes.
    pub closed spec fn serves(&self, wishes: Seq<Wish>) -> bool {
        self.need.meets(wishes) && self.auto_only@ == auto_only(wishes)
    }

    /// The daemons that want a directory to be watched, for a message.
    pub fn daemon_ids_for_dir(&self, dir: &str) -> (r: String)
        ensures
            forall|wishes: Seq<Wish>| #[trigger]
                self.serves(wishes) ==> r@ == text::joined(ids_for(wishes, dir@), ", "@),
    {
        self.need.daemon_ids_for_dir(dir)
    }
}

impl FileWatch {
    /// No watcher exists and nothing is watched.
    pub fn new() -> (r: FileWatch)
        ensures
            r@ == (WatchState {
                native_up: false,
                poll_up: false,
                native_refused: false,
                poll_refused: false,
                native: Set::empty(),
                poll: Set::empty(),
                fallback: Map::empty(),
                reported_native: Set::empty(),
                reported_poll: Set::empty(),
            }),
    {
        let r = FileWatch {
            native_up: false,
            poll_up: false,
            native_refused: false,
            poll_refused: false,
            native: TextSet::new(),
            poll: TextSet::new(),
            fallback: TextMap::new(),
            reported_native: TextSet::new(),
            reported_poll: TextSet::new(),
        };
        assert(id_lists(r.fallback@) =~= Map::<Seq<char>, Seq<Seq<char>>>::empty());
        r
    }

    /// The directories that have fallen back to polling.
    fn fallen(&self) -> (r: TextSet)
        ensures
            r@ == self@.fallback.dom(),
    {
        let keys = self.fallback.keys();
        let mut out = TextSet::new();
        let mut i: usize = 0;
        assert(text::texts(keys@).take(0).to_set() =~= out@);
        while i < keys.len()
            invariant
                i <= keys@.len(),
                out@ == text::texts(keys@).take(i as int).to_set(),
            decreases keys@.len() - i,
        {
            let ghost all = text::texts(keys@);
            out.insert(keys[i].clone());
            proof {
                assert(all.take(i + 1) =~= all.take(i as int).push(all[i as int]));
                lemma_push_to_set(all.take(i as int), all[i as int]);
            }
            i = i + 1;
        }
        assert(text::texts(keys@).take(i as int) =~= text::texts(keys@));
        assert(out@ =~= self@.fallback.dom());
        out
    }

    /// Starts a round for what the daemons want now.
    pub fn begin(&self, configs: &Vec<WatchConfig>) -> (r: Round)
        ensures
            r.serves(all_wishes(configs@)),
            r.goals() == first_goals(all_wishes(configs@), self@.fallback.dom()),
            r.falling() == Set::<Seq<char>>::empty(),
    {
        let need = Requirements::of(configs);
        let fallen = self.fallen();
        let auto_only = need.auto.without(&need.native).without(&need.poll);
        let native = need.native.with(&need.auto.without(&fallen));
        let poll = need.poll.with(&need.auto.common(&fallen));
        Round { need, auto_only, native, poll, falling: TextSet::new() }
    }

    /// The directories that the native watcher is to let go of.
    pub fn native_to_unwatch(&self, round: &Round) -> (r: TextSet)
        ensures
            r@ == if self@.native_up {
                self@.native.difference(round.goals().native)
            } else {
                Set::<Seq<char>>::empty()
            },
    {
        if self.native_up {
            self.native.without(&round.native)
        } else {
            TextSet::new()
        }
    }

    /// Whether a native watcher is to be created.
    pub fn needs_native(&self, round: &Round) -> (r: bool)
        ensures
            r == (!self@.native_up && some_dir(round.goals().native)),
    {
        !self.native_up && !round.native.is_empty()
    }

    /// Notes whether the native watcher was created.
    pub fn native_answer(&mut self, created: bool) -> (r: Report)
        ensures
            r == creation_report(created, old(self)@.native_refused),
            final(self)@ == (WatchState {
                native_up: created,
                native_refused: !created,
                ..old(self)@
            }),
    {
        let r = if created {
            Report::Nothing
        } else if self.native_refused {
            Report::Quiet
        } else {
            Report::Loud
        };
        self.native_up = created;
        self.native_refused = !created;
        r
    }

    /// The directories that the native watcher is to take.
    pub fn native_to_watch(&self, round: &Round) -> (r: TextSet)
        ensures
            r@ == if self@.native_up {
                round.goals().native.difference(self@.native)
            } else {
                Set::<Seq<char>>::empty()
            },
    {
        if self.native_up {
            round.native.without(&self.native)
        } else {
            TextSet::new()
        }
    }

    /// Notes which directories the native watcher did not take; gives those of them whose failure
    /// is to be reported.
    pub fn native_watched(&mut self, round: &mut Round, failed: &TextSet) -> (r: TextSet)
        ensures
            forall|wishes: Seq<Wish>| #[trigger]
                old(round).serves(wishes) ==> {
                    let goal = old(round).goals();
                    let only = auto_only(wishes);
                    let up = old(self)@.native_up;
                    &&& final(round).serves(wishes)
                    &&& final(round).goals() == goals_after_native(goal, only, up, failed@)
                    &&& final(round).falling() == fallen_now(goal, only, up, failed@)
                    &&& r@ == if up {
                        goal.native.intersect(failed@).difference(only).difference(
                            old(self)@.reported_native,
                        )
                    } else {
                        Set::<Seq<char>>::empty()
                    }
                    &&& final(self)@ == after_native_watched(old(self)@, goal, only, failed@)
                },
    {
        let ghost goal = round.goals();
        let ghost before = self@;
        if !self.native_up {
            round.poll = round.poll.with(&round.native);
            round.native = TextSet::new();
            round.falling = TextSet::new();
            return TextSet::new();
        }
        if round.native.is_empty() {
            let none = TextSet::new();
            round.falling = TextSet::new();
            proof {
                assert forall|wishes: Seq<Wish>| #[trigger] old(round).serves(wishes) implies ({
                    let only = auto_only(wishes);
                    &&& round.goals() == goals_after_native(goal, only, true, failed@)
                    &&& round.falling() == fallen_now(goal, only, true, failed@)
                    &&& none@ == goal.native.intersect(failed@).difference(only).difference(
                        before.reported_native,
                    )
                }) by {
                    let only = auto_only(wishes);
                    assert(goal.native =~= Set::<Seq<char>>::empty());
                    assert(fallen_now(goal, only, true, failed@) =~= Set::<Seq<char>>::empty());
                    assert(goal.native.difference(Set::<Seq<char>>::empty()) =~= goal.native);
                    assert(goal.poll.union(Set::<Seq<char>>::empty()) =~= goal.poll);
                    assert(goal.native.intersect(failed@).difference(only).difference(
                        before.reported_native,
                    ) =~= Set::<Seq<char>>::empty());
                }
            }
            return none;
        }
        let refused = round.native.common(failed);
        let falling = refused.common(&round.auto_only);
        let lost = refused.without(&round.auto_only);
        let fresh = lost.without(&self.reported_native);
        self.reported_native = self.reported_native.with(&lost).common(&round.native);
        round.native = round.native.without(&falling);
        round.poll = round.poll.with(&falling);
        round.falling = falling;
        proof {
            assert forall|wishes: Seq<Wish>| #[trigger] old(round).serves(wishes) implies
                self.reported_native@ == reported_after(
                before.reported_native,
                goal.native,
                failed@.difference(auto_only(wishes)),
            ) by {
                assert(self.reported_native@ =~= reported_after(
                    before.reported_native,
                    goal.native,
                    failed@.difference(auto_only(wishes)),
                ));
            }
        }
        fresh
    }

    /// The directories that the polling watcher is to let go of.
    pub fn poll_to_unwatch(&self, round: &Round) -> (r: TextSet)
        ensures
            r@ == if self@.poll_up {
                self@.poll.difference(round.goals().poll)
            } else {
                Set::<Seq<char>>::empty()
            },
    {
        if self.poll_up {
            self.poll.without(&round.poll)
        } else {
            TextSet::new()
        }
    }

    /// Whether a polling watcher is to be created.
    pub fn needs_poll(&self, round: &Round) -> (r: bool)
        ensures
            r == (!self@.poll_up && some_dir(round.goals().poll)),
    {
        !self.poll_up && !round.poll.is_empty()
    }

    /// Notes whether the polling watcher was created.
    pub fn poll_answer(&mut self, created: bool) -> (r: Report)
        ensures
            r == creation_report(created, old(self)@.poll_refused),
            final(self)@ == (WatchState {
                poll_up: created,
                poll_refused: !created,
                ..old(self)@
            }),
    {
        let r = if created {
            Report::Nothing
        } else if self.poll_refused {
            Report::Quiet
        } else {
            Report::Loud
        };
        self.poll_up = created;
        self.poll_refused = !created;
        r
    }

    /// The directories that the polling watcher is to take.
    pub fn poll_to_watch(&self, round: &Round) -> (r: TextSet)
        ensures
            r@ == if self@.poll_up {
                round.goals().poll.difference(self@.poll)
            } else {
                Set::<Seq<char>>::empty()
            },
    {
        if self.poll_up {
            round.poll.without(&self.poll)
        } else {
            TextSet::new()
        }
    }

    /// Notes which directories the polling watcher did not take; gives those of them whose
    /// failure is to be reported.
    pub fn poll_watched(&mut self, round: &mut Round, failed: &TextSet) -> (r: TextSet)
        ensures
            forall|wishes: Seq<Wish>| #[trigger]
                old(round).serves(wishes) ==> final(round).serves(wishes),
            final(round).goals() == goals_after_poll(old(round).goals(), old(self)@.poll_up),
            final(round).falling() == old(round).falling(),
            r@ == if old(self)@.poll_up {
                old(round).goals().poll.intersect(failed@).difference(old(self)@.reported_poll)
            } else {
                Set::<Seq<char>>::empty()
            },
            final(self)@ == after_poll_watched(old(self)@, old(round).goals(), failed@),
    {
        if !self.poll_up {
            round.poll = TextSet::new();
            return TextSet::new();
        }
        if round.poll.is_empty() {
            let none = TextSet::new();
            assert(none@ =~= round.poll@.intersect(failed@).difference(self.reported_poll@));
            return none;
        }
        let refused = round.poll.common(failed);
        let fresh = refused.without(&self.reported_poll);
        self.reported_poll = self.reported_poll.with(&refused).common(&round.poll);
        fresh
    }
}

/// The daemons of `ids` that are also in `watching`.
fn still_watching(ids: &Vec<String>, watching: &Vec<String>) -> (r: Vec<String>)
    ensures
        text::texts(r@) == still_in(text::texts(ids@), text::texts(watching@)),
{
    let mut out: Vec<String> = Vec::new();
    let ghost all = text::texts(ids@);
    let ghost now = text::texts(watching@);
    let mut i: usize = 0;
    assert(text::texts(out@) =~= still_in(all.take(0), now));
    while i < ids.len()
        invariant
            i <= ids@.len(),
            all == text::texts(ids@),
            now == text::texts(watching@),
            text::texts(out@) == still_in(all.take(i as int), now),
        decreases ids@.len() - i,
    {
        let ghost before = text::texts(out@);
        assert(all.take(i + 1).drop_last() =~= all.take(i as int));
        if list_contains(watching, ids[i].as_str()) {
            out.push(ids[i].clone());
            assert(text::texts(out@) =~= before.push(all[i as int]));
        }
        i = i + 1;
    }
    assert(all.take(i as int) =~= all);
    out
}

impl FileWatch {
    /// The daemons for which a directory stays with the polling watcher after a round.
    fn keepers(&self, round: &Round, dir: &str) -> (r: Vec<String>)
        requires
            self@.fallback.contains_key(dir@) || round.falling().contains(dir@),
        ensures
            forall|wishes: Seq<Wish>| #[trigger]
                round.serves(wishes) ==> text::texts(r@) == keeps_fallback(
                    if round.falling().contains(dir@) {
                        ids_for(wishes, dir@)
                    } else {
                        self@.fallback[dir@]
                    },
                    wishes,
                    dir@,
                ),
    {
        let none: Vec<String> = Vec::new();
        assert(text::texts(none@) =~= Seq::<Seq<char>>::empty());
        let watching = match round.need.daemons.get(dir) {
            Some(ids) => ids,
            None => &none,
        };
        proof {
            assert forall|wishes: Seq<Wish>| #[trigger] round.serves(wishes) implies text::texts(
                watching@,
            ) == ids_for(wishes, dir@) by {
                if !round.need.daemons@.contains_key(dir@) {
                    assert(ids_for(wishes, dir@) =~= Seq::<Seq<char>>::empty());
                }
            }
        }
        if !round.need.auto.contains(dir) {
            return none;
        }
        if round.falling.contains(dir) {
            still_watching(watching, watching)
        } else {
            match self.fallback.get(dir) {
                Some(ids) => still_watching(ids, watching),
                None => none,
            }
        }
    }

    /// Ends a round: what the watchers were asked for is what is watched, and a directory stays
    /// with the polling watcher only while a daemon that made it fall back still wants it there.
    pub fn finish(&mut self, round: Round)
        ensures
            forall|wishes: Seq<Wish>| #[trigger]
                round.serves(wishes) ==> final(self)@ == after_finish(
                    old(self)@,
                    round.goals(),
                    round.falling(),
                    wishes,
                ),
    {
        let ghost before = self@;
        let all = self.fallen().with(&round.falling);
        let list = all.items();
        let mut fallback: TextMap<Vec<String>> = TextMap::new();
        let mut i: usize = 0;
        while i < list.len()
            invariant
                i <= list@.len(),
                before == self@,
                text::texts(list@).no_duplicates(),
                text::texts(list@).to_set() == before.fallback.dom().union(round.falling()),
                forall|wishes: Seq<Wish>, dir: Seq<char>|
                    #![trigger round.serves(wishes), fallback@.contains_key(dir)]
                    round.serves(wishes) ==> {
                        let goal = fallback_after(before.fallback, round.falling(), wishes);
                        &&& fallback@.contains_key(dir) <==> (text::texts(list@).take(
                            i as int,
                        ).contains(dir) && goal.contains_key(dir))
                        &&& fallback@.contains_key(dir) ==> text::texts(fallback@[dir]@)
                            == goal[dir]
                    },
            decreases list@.len() - i,
        {
            let ghost keys = text::texts(list@);
            let ghost dir = list@[i as int]@;
            let ghost done = fallback@;
            proof {
                assert(keys[i as int] == dir);
                assert(keys.to_set().contains(dir));
                assert(keys.take(i + 1) =~= keys.take(i as int).push(dir));
                assert forall|d: Seq<char>| #[trigger] keys.take(i + 1).contains(d) == (keys.take(
                    i as int,
                ).contains(d) || d == dir) by {
                    if keys.take(i as int).contains(d) {
                        let k = choose|k: int| 0 <= k < i && keys.take(i as int)[k] == d;
                        assert(keys.take(i + 1)[k] == d);
                    }
                    assert(keys.take(i + 1)[i as int] == dir);
                }
            }
            let kept = self.keepers(&round, list[i].as_str());
            let ghost ids = text::texts(kept@);
            let some = kept.len() > 0;
            assert(some == (ids.len() > 0));
            if some {
                fallback.insert(list[i].clone(), kept);
            }
            proof {
                assert(!keys.take(i as int).contains(dir)) by {
                    if keys.take(i as int).contains(dir) {
                        let k = choose|k: int| 0 <= k < i && keys.take(i as int)[k] == dir;
                        assert(keys[k] == keys[i as int]);
                    }
                }
                assert forall|wishes: Seq<Wish>, d: Seq<char>|
                    #![trigger round.serves(wishes), fallback@.contains_key(d)]
                    round.serves(wishes) implies ({
                    let goal = fallback_after(before.fallback, round.falling(), wishes);
                    &&& fallback@.contains_key(d) <==> (keys.take(i + 1).contains(d)
                        && goal.contains_key(d))
                    &&& fallback@.contains_key(d) ==> text::texts(fallback@[d]@) == goal[d]
                }) by {
                    let goal = fallback_after(before.fallback, round.falling(), wishes);
                    if d == dir {
                        assert(goal.contains_key(dir) == (ids.len() > 0));
                    } else {
                        assert(done.contains_key(d) == fallback@.contains_key(d));
                    }
                }
            }
            i = i + 1;
        }
        proof {
            let keys = text::texts(list@);
            assert(keys.take(i as int) =~= keys);
            assert forall|wishes: Seq<Wish>| #[trigger] round.serves(wishes) implies id_lists(
                fallback@,
            ) == fallback_after(before.fallback, round.falling(), wishes) by {
                let goal = fallback_after(before.fallback, round.falling(), wishes);
                assert forall|dir: Seq<char>| id_lists(fallback@).contains_key(dir)
                    == #[trigger] goal.contains_key(dir) by {
                    assert(fallback@.contains_key(dir) <==> (keys.contains(dir)
                        && goal.contains_key(dir)));
                    if goal.contains_key(dir) {
                        assert(keys.to_set().contains(dir));
                    }
                }
                assert(id_lists(fallback@) =~= goal);
            }
        }
        let Round { need: _, auto_only: _, native, poll, falling: _ } = round;
        self.native = native;
        self.poll = poll;
        self.fallback = fallback;
    }
}

/// A list with one more item has that item in its set.
proof fn lemma_push_to_set(list: Seq<Seq<char>>, item: Seq<char>)
    ensures
        list.push(item).to_set() == list.to_set().insert(item),
{
    assert forall|x: Seq<char>| #[trigger] list.push(item).contains(x) == (list.contains(x) || x
        == item) by {
        if list.contains(x) {
            let k = choose|k: int| 0 <= k < list.len() && list[k] == x;
            assert(list.push(item)[k] == x);
        }
        assert(list.push(item)[list.len() as int] == item);
    }
    assert(list.push(item).to_set() =~= list.to_set().insert(item));
}

/// What happens in a round: whether the watchers can be created where they are missing, and which
/// directories they do not take.
pub struct RoundEvents {
    pub native_created: bool,
    pub native_failed: Set<Seq<char>>,
    pub poll_created: bool,
    pub poll_failed: Set<Seq<char>>,
}

/// Whether there is a directory.
pub open spec fn some_dir(dirs: Set<Seq<char>>) -> bool {
    !(dirs =~= Set::<Seq<char>>::empty())
}

/// The state after an attempt to create the native watcher, which is made where directories are
/// for it and there is none.
pub open spec fn after_native_creation(s: WatchState, goals: Goals, created: bool) -> WatchState {
    if !s.native_up && some_dir(goals.native) {
        WatchState { native_up: created, native_refused: !created, ..s }
    } else {
        s
    }
}

/// The state after an attempt to create the polling watcher, which is made where directories are
/// for it and there is none.
pub open spec fn after_poll_creation(s: WatchState, goals: Goals, created: bool) -> WatchState {
    if !s.poll_up && some_dir(goals.poll) {
        WatchState { poll_up: created, poll_refused: !created, ..s }
    } else {
        s
    }
}

/// The state after the native watcher was given its directories.
pub open spec fn after_native_watched(
    s: WatchState,
    goals: Goals,
    only: Set<Seq<char>>,
    failed: Set<Seq<char>>,
) -> WatchState {
    WatchState {
        reported_native: if s.native_up && some_dir(goals.native) {
            reported_after(s.reported_native, goals.native, failed.difference(only))
        } else {
            s.reported_native
        },
        ..s
    }
}

/// The state after the polling watcher was given its directories.
pub open spec fn after_poll_watched(
    s: WatchState,
    goals: Goals,
    failed: Set<Seq<char>>,
) -> WatchState {
    WatchState {
        reported_poll: if s.poll_up && some_dir(goals.poll) {
            reported_after(s.reported_poll, goals.poll, failed)
        } else {
            s.reported_poll
        },
        ..s
    }
}

/// The state after a round has ended.
pub open spec fn after_finish(
    s: WatchState,
    goals: Goals,
    falling: Set<Seq<char>>,
    wishes: Seq<Wish>,
) -> WatchState {
    WatchState {
        native: goals.native,
        poll: goals.poll,
        fallback: fallback_after(s.fallback, falling, wishes),
        ..s
    }
}

/// The state after a round: both watchers are created where they are missing and wanted, are
/// given their directories, and the round ends.
pub open spec fn after_round(s: WatchState, wishes: Seq<Wish>, e: RoundEvents) -> WatchState {
    let only = auto_only(wishes);
    let first = first_goals(wishes, s.fallback.dom());
    let s1 = after_native_creation(s, first, e.native_created);
    let second = goals_after_native(first, only, s1.native_up, e.native_failed);
    let falling = fallen_now(first, only, s1.native_up, e.native_failed);
    let s2 = after_native_watched(s1, first, only, e.native_failed);
    let s3 = after_poll_creation(s2, second, e.poll_created);
    let last = goals_after_poll(second, s3.poll_up);
    let s4 = after_poll_watched(s3, second, e.poll_failed);
    after_finish(s4, last, falling, wishes)
}

/// The answers of the watchers in a round.
#[derive(Debug)]
pub struct Answers {
    /// Whether a native watcher can be created.
    pub native_created: bool,
    /// The directories that the native watcher does not take.
    pub native_failed: TextSet,
    /// Whether a polling watcher can be created.
    pub poll_created: bool,
    /// The directories that the polling watcher does not take.
    pub poll_failed: TextSet,
}

impl View for Answers {
    type V = RoundEvents;

    open spec fn view(&self) -> RoundEvents {
        RoundEvents {
            native_created: self.native_created,
            native_failed: self.native_failed@,
            poll_created: self.poll_created,
            poll_failed: self.poll_failed@,
        }
    }
}

impl FileWatch {
    /// A whole round for watchers whose answers are known beforehand: the steps of a round in
    /// their order.
    pub fn play_round(&mut self, configs: &Vec<WatchConfig>, answers: &Answers)
        ensures
            final(self)@ == after_round(old(self)@, all_wishes(configs@), answers@),
    {
        let mut round = self.begin(configs);
        assert(round.serves(all_wishes(configs@)));
        if self.needs_native(&round) {
            self.native_answer(answers.native_created);
        }
        self.native_watched(&mut round, &answers.native_failed);
        assert(round.serves(all_wishes(configs@)));
        if self.needs_poll(&round) {
            self.poll_answer(answers.poll_created);
        }
        self.poll_watched(&mut round, &answers.poll_failed);
        assert(round.serves(all_wishes(configs@)));
        self.finish(round);
    }
}

/// A directory that a daemon wants in a mode of its choice stays with the watcher of that mode,
/// as long as there is one.
pub proof fn explicit_modes_are_kept(
    s: WatchState,
    wishes: Seq<Wish>,
    e: RoundEvents,
    dir: Seq<char>,
)
    ensures
        wanted(wishes, dir, WatchMode::Native) && after_round(s, wishes, e).native_up
            ==> after_round(s, wishes, e).native.contains(dir),
        wanted(wishes, dir, WatchMode::Poll) && after_round(s, wishes, e).poll_up ==> after_round(
            s,
            wishes,
            e,
        ).poll.contains(dir),
{
}

/// With a polling watcher every directory that a daemon wants is watched, whatever becomes of the
/// native watcher.
pub proof fn every_wish_is_served(
    s: WatchState,
    wishes: Seq<Wish>,
    e: RoundEvents,
    dir: Seq<char>,
    mode: WatchMode,
)
    requires
        wanted(wishes, dir, mode),
    ensures
        after_round(s, wishes, e).poll_up ==> after_round(s, wishes, e).native.contains(dir)
            || after_round(s, wishes, e).poll.contains(dir),
{
}

/// Nothing counts as watched by a watcher that does not exist.
pub proof fn nothing_is_watched_by_no_one(s: WatchState, wishes: Seq<Wish>, e: RoundEvents)
    ensures
        !after_round(s, wishes, e).native_up ==> after_round(s, wishes, e).native == Set::<
            Seq<char>,
        >::empty(),
        !after_round(s, wishes, e).poll_up ==> after_round(s, wishes, e).poll == Set::<
            Seq<char>,
        >::empty(),
{
}

/// A directory that has fallen back to polling is not given to the native watcher again, unless
/// a daemon asks for that watcher.
pub proof fn fallen_stay_polled(
    s: WatchState,
    wishes: Seq<Wish>,
    e: RoundEvents,
    dir: Seq<char>,
)
    requires
        s.fallback.contains_key(dir),
        !wanted(wishes, dir, WatchMode::Native),
    ensures
        !after_round(s, wishes, e).native.contains(dir),
{
}

/// Only daemons that are in a list are still in it.
proof fn lemma_still_in(ids: Seq<Seq<char>>, watching: Seq<Seq<char>>, id: Seq<char>)
    ensures
        still_in(ids, watching).contains(id) ==> ids.contains(id) && watching.contains(id),
    decreases ids.len(),
{
    if ids.len() > 0 {
        lemma_still_in(ids.drop_last(), watching, id);
        let rest = still_in(ids.drop_last(), watching);
        if still_in(ids, watching).contains(id) {
            if rest.contains(id) {
                let k = choose|k: int| 0 <= k < ids.len() - 1 && ids.drop_last()[k] == id;
                assert(ids[k] == id);
            } else {
                assert(watching.contains(ids.last()));
                let k = choose|k: int|
                    0 <= k < rest.push(ids.last()).len() && rest.push(ids.last())[k] == id;
                if k < rest.len() {
                    assert(rest[k] == id);
                }
                assert(ids[ids.len() - 1] == id);
            }
        }
    }
}

/// After a round a directory stays with the polling watcher only for daemons that want it
/// watched now, and only where one of them leaves the choice of the watcher open.
pub proof fn fallback_has_a_reason(
    s: WatchState,
    wishes: Seq<Wish>,
    e: RoundEvents,
    dir: Seq<char>,
    id: Seq<char>,
)
    requires
        after_round(s, wishes, e).fallback.contains_key(dir),
    ensures
        wanted(wishes, dir, WatchMode::Auto),
        after_round(s, wishes, e).fallback[dir].len() > 0,
        after_round(s, wishes, e).fallback[dir].contains(id) ==> ids_for(wishes, dir).contains(id),
{
    let first = first_goals(wishes, s.fallback.dom());
    let native_up = s.native_up || (some_dir(first.native) && e.native_created);
    let falling = fallen_now(first, auto_only(wishes), native_up, e.native_failed);
    let ids = if falling.contains(dir) {
        ids_for(wishes, dir)
    } else {
        s.fallback[dir]
    };
    lemma_still_in(ids, ids_for(wishes, dir), id);
}

/// Whether file watching starts.
#[derive(Debug, Clone, Copy, PartialEq, Eq, Structural)]
pub enum WatchStart {
    /// No daemon wants files to be watched.
    NoDaemons,
    /// No directory comes of what the daemons want.
    NoDirectories,
    /// There is something to watch.
    Start,
}

/// Whether file watching starts, for a number of daemons that want files to be watched and the
/// directories that come of it.
pub fn watch_start(daemons: usize, configs: &Vec<WatchConfig>) -> (r: WatchStart)
    ensures
        r == if daemons == 0 {
            WatchStart::NoDaemons
        } else if all_wishes(configs@).len() == 0 {
            WatchStart::NoDirectories
        } else {
            WatchStart::Start
        },
{
    if daemons == 0 {
        return WatchStart::NoDaemons;
    }
    let mut i: usize = 0;
    while i < configs.len()
        invariant
            daemons > 0,
            i <= configs@.len(),
            all_wishes(configs@.take(i as int)).len() == 0,
        decreases configs@.len() - i,
    {
        assert(configs@.take(i + 1).drop_last() =~= configs@.take(i as int));
        if configs[i].dirs.len() > 0 {
            proof {
                assert(configs@.take(i + 1).last() == configs@[i as int]);
                assert(wishes_of(configs@[i as int]).len() > 0);
                lemma_wishes_grow(configs@, i + 1);
            }
            return WatchStart::Start;
        }
        i = i + 1;
    }
    assert(configs@.take(i as int) =~= configs@);
    WatchStart::NoDirectories
}

/// More daemons do not want less.
proof fn lemma_wishes_grow(configs: Seq<WatchConfig>, n: int)
    requires
        0 <= n <= configs.len(),
    ensures
        all_wishes(configs.take(n)).len() <= all_wishes(configs).len(),
    decreases configs.len(),
{
    if n < configs.len() {
        lemma_wishes_grow(configs.drop_last(), n);
        assert(configs.drop_last().take(n) =~= configs.take(n));
    } else {
        assert(configs.take(n) =~= configs);
    }
}

/// The daemons that changed files ask to restart: those of which a changed file matches a
/// pattern. `hits` holds a row for each changed file, and in it a mark for each daemon.
pub open spec fn hit_daemons(ids: Seq<Seq<char>>, hits: Seq<Vec<bool>>) -> Set<Seq<char>> {
    Set::new(
        |id: Seq<char>|
            exists|p: int, d: int|
                #![trigger hits[p]@[d]]
                0 <= p < hits.len() && 0 <= d < ids.len() && d < hits[p]@.len() && hits[p]@[d]
                    && ids[d] == id,
    )
}

/// Every mark counts, and nothing else does: a daemon is to restart exactly where some changed file
/// is marked for it.
pub proof fn every_changed_file_counts(ids: Seq<Seq<char>>, hits: Seq<Vec<bool>>)
    ensures
        forall|p: int, d: int|
            #![trigger hits[p]@[d]]
            0 <= p < hits.len() && 0 <= d < ids.len() && d < hits[p]@.len() && hits[p]@[d]
                ==> hit_daemons(ids, hits).contains(ids[d]),
        forall|id: Seq<char>| #[trigger]
            hit_daemons(ids, hits).contains(id) ==> exists|p: int, d: int|
                #![trigger hits[p]@[d]]
                0 <= p < hits.len() && 0 <= d < ids.len() && d < hits[p]@.len() && hits[p]@[d]
                    && ids[d] == id,
{
}

/// Changes that come together ask for the daemons that each of them asks for, in whatever order they
/// come.
pub proof fn changes_add_up(ids: Seq<Seq<char>>, first: Seq<Vec<bool>>, second: Seq<Vec<bool>>)
    ensures
        hit_daemons(ids, first + second) == hit_daemons(ids, first).union(hit_daemons(ids, second)),
        hit_daemons(ids, first + second) == hit_daemons(ids, second + first),
        hit_daemons(ids, Seq::empty()) == Set::<Seq<char>>::empty(),
{
    lemma_changes_add_up(ids, first, second);
    lemma_changes_add_up(ids, second, first);
    assert(hit_daemons(ids, first + second) =~= hit_daemons(ids, second + first));
    assert(hit_daemons(ids, Seq::empty()) =~= Set::<Seq<char>>::empty());
}

proof fn lemma_changes_add_up(
    ids: Seq<Seq<char>>,
    first: Seq<Vec<bool>>,
    second: Seq<Vec<bool>>,
)
    ensures
        hit_daemons(ids, first + second) == hit_daemons(ids, first).union(hit_daemons(ids, second)),
{
    let both = first + second;
    assert forall|id: Seq<char>| hit_daemons(ids, both).contains(id) == (hit_daemons(
        ids,
        first,
    ).contains(id) || hit_daemons(ids, second).contains(id)) by {
        if hit_daemons(ids, both).contains(id) {
            let (p, d) = choose|p: int, d: int|
                #![trigger both[p]@[d]]
                0 <= p < both.len() && 0 <= d < ids.len() && d < both[p]@.len() && both[p]@[d]
                    && ids[d] == id;
            if p < first.len() {
                assert(first[p]@[d]);
            } else {
                assert(second[p - first.len()]@[d]);
            }
        }
        if hit_daemons(ids, first).contains(id) {
            let (p, d) = choose|p: int, d: int|
                #![trigger first[p]@[d]]
                0 <= p < first.len() && 0 <= d < ids.len() && d < first[p]@.len() && first[p]@[d]
                    && ids[d] == id;
            assert(both[p]@[d]);
        }
        if hit_daemons(ids, second).contains(id) {
            let (p, d) = choose|p: int, d: int|
                #![trigger second[p]@[d]]
                0 <= p < second.len() && 0 <= d < ids.len() && d < second[p]@.len() && second[p]@[d]
                    && ids[d] == id;
            assert(both[first.len() + p]@[d]);
        }
    }
    assert(hit_daemons(ids, both) =~= hit_daemons(ids, first).union(hit_daemons(ids, second)));
}

/// The daemons that changed files ask to restart.
pub fn daemons_to_restart(ids: &Vec<String>, hits: &Vec<Vec<bool>>) -> (r: TextSet)
    ensures
        r@ == hit_daemons(text::texts(ids@), hits@),
{
    let mut out = TextSet::new();
    let ghost all = text::texts(ids@);
    let mut p: usize = 0;
    while p < hits.len()
        invariant
            p <= hits@.len(),
            all == text::texts(ids@),
            forall|id: Seq<char>| #[trigger]
                out@.contains(id) <==> exists|q: int, d: int|
                    #![trigger hits@[q]@[d]]
                    0 <= q < p && 0 <= d < all.len() && d < hits@[q]@.len() && hits@[q]@[d]
                        && all[d] == id,
        decreases hits@.len() - p,
    {
        let mut d: usize = 0;
        while d < ids.len()
            invariant
                p < hits@.len(),
                d <= ids@.len(),
                all == text::texts(ids@),
                forall|id: Seq<char>| #[trigger]
                    out@.contains(id) <==> exists|q: int, e: int|
                        #![trigger hits@[q]@[e]]
                        0 <= q <= p && 0 <= e < all.len() && e < hits@[q]@.len() && hits@[q]@[e]
                            && all[e] == id && (q < p || e < d),
            decreases ids@.len() - d,
        {
            let ghost before = out@;
            if d < hits[p].len() && hits[p][d] {
                out.insert(ids[d].clone());
                assert(hits@[p as int]@[d as int]);
            }
            proof {
                assert forall|id: Seq<char>| #[trigger]
                    out@.contains(id) <==> exists|q: int, e: int|
                        #![trigger hits@[q]@[e]]
                        0 <= q <= p && 0 <= e < all.len() && e < hits@[q]@.len() && hits@[q]@[e]
                            && all[e] == id && (q < p || e < d + 1) by {
                    if out@.contains(id) && !before.contains(id) {
                        assert(all[d as int] == id);
                        assert(hits@[p as int]@[d as int]);
                    }
                }
            }
            d = d + 1;
        }
        p = p + 1;
    }
    assert(out@ =~= hit_daemons(all, hits@));
    out
}

/// What is known of a daemon whose files have changed.
#[derive(Debug)]
pub struct WatchedDaemon {
    pub pid: Option<u32>,
    pub running: bool,
    pub disabled: bool,
    pub cmd: Option<Vec<String>>,
}

/// What becomes of a daemon whose files have changed.
#[derive(Debug)]
pub enum RestartStep {
    /// It is not known.
    NotFound,
    /// It does not run.
    NotRunning,
    /// It is disabled.
    Disabled,
    /// Its command is not known.
    NoCommand,
    /// It is stopped and started again with its command. A start that is forced ends a run that is
    /// still there; the count of attempts starts anew, and the supervisor waits until the daemon is
    /// ready only where it is asked to.
    Restart { cmd: Vec<String>, force: bool, retry_count: u32, wait_ready: bool },
}

/// What becomes of a daemon whose files have changed: only a daemon that runs and is not disabled
/// is restarted, by force, as if it had not been tried before, and without waiting until it is ready.
pub fn restart_step(daemon: Option<WatchedDaemon>) -> (r: RestartStep)
    ensures
        match daemon {
            None => r is NotFound,
            Some(d) => if d.pid is None || !d.running {
                r is NotRunning
            } else if d.disabled {
                r is Disabled
            } else {
                match d.cmd {
                    Some(cmd) => r matches RestartStep::Restart {
                        cmd: kept,
                        force,
                        retry_count,
                        wait_ready,
                    } && kept@ == cmd@ && force && retry_count == 0 && !wait_ready,
                    None => r is NoCommand,
                }
            },
        },
{
    match daemon {
        None => RestartStep::NotFound,
        Some(d) => if d.pid.is_none() || !d.running {
            RestartStep::NotRunning
        } else if d.disabled {
            RestartStep::Disabled
        } else {
            match d.cmd {
                Some(cmd) => RestartStep::Restart {
                    cmd,
                    force: true,
                    retry_count: 0,
                    wait_ready: false,
                },
                None => RestartStep::NoCommand,
            }
        },
    }
}

/// What daemons want to be watched is what stands in their configurations.
pub proof fn wishes_come_from_configurations(
    configs: Seq<WatchConfig>,
    dir: Seq<char>,
    mode: WatchMode,
    id: Seq<char>,
)
    ensures
        wanted(all_wishes(configs), dir, mode) <==> exists|i: int, j: int|
            #![trigger configs[i].dirs@[j]]
            0 <= i < configs.len() && 0 <= j < configs[i].dirs@.len() && configs[i].dirs@[j]@ == dir
                && configs[i].mode == mode,
        ids_for(all_wishes(configs), dir).contains(id) <==> exists|i: int, j: int|
            #![trigger configs[i].dirs@[j]]
            0 <= i < configs.len() && 0 <= j < configs[i].dirs@.len() && configs[i].dirs@[j]@ == dir
                && configs[i].id@ == id,
{
    let wishes = all_wishes(configs);
    lemma_wish_indices(configs);
    if wanted(wishes, dir, mode) {
        let k = choose|k: int|
            0 <= k < wishes.len() && (#[trigger] wishes[k]).dir == dir && wishes[k].mode == mode;
        let (i, j) = choose|i: int, j: int|
            #![trigger configs[i].dirs@[j]]
            0 <= i < configs.len() && 0 <= j < configs[i].dirs@.len() && wishes[k] == (Wish {
                dir: configs[i].dirs@[j]@,
                id: configs[i].id@,
                mode: configs[i].mode,
            });
        assert(configs[i].dirs@[j]@ == dir);
    }
    if exists|i: int, j: int|
        #![trigger configs[i].dirs@[j]]
        0 <= i < configs.len() && 0 <= j < configs[i].dirs@.len() && configs[i].dirs@[j]@ == dir
            && configs[i].mode == mode {
        let (i, j) = choose|i: int, j: int|
            #![trigger configs[i].dirs@[j]]
            0 <= i < configs.len() && 0 <= j < configs[i].dirs@.len() && configs[i].dirs@[j]@ == dir
                && configs[i].mode == mode;
        let wish = Wish { dir, id: configs[i].id@, mode };
        assert(wishes.contains(wish));
        let k = choose|k: int| 0 <= k < wishes.len() && wishes[k] == wish;
        assert(wishes[k].dir == dir);
    }
    lemma_ids_for(wishes, dir, id);
    if ids_for(wishes, dir).contains(id) {
        let k = choose|k: int|
            0 <= k < wishes.len() && (#[trigger] wishes[k]).dir == dir && wishes[k].id == id;
        let (i, j) = choose|i: int, j: int|
            #![trigger configs[i].dirs@[j]]
            0 <= i < configs.len() && 0 <= j < configs[i].dirs@.len() && wishes[k] == (Wish {
                dir: configs[i].dirs@[j]@,
                id: configs[i].id@,
                mode: configs[i].mode,
            });
        assert(configs[i].dirs@[j]@ == dir);
    }
    if exists|i: int, j: int|
        #![trigger configs[i].dirs@[j]]
        0 <= i < configs.len() && 0 <= j < configs[i].dirs@.len() && configs[i].dirs@[j]@ == dir
            && configs[i].id@ == id {
        let (i, j) = choose|i: int, j: int|
            #![trigger configs[i].dirs@[j]]
            0 <= i < configs.len() && 0 <= j < configs[i].dirs@.len() && configs[i].dirs@[j]@ == dir
                && configs[i].id@ == id;
        let wish = Wish { dir, id, mode: configs[i].mode };
        assert(wishes.contains(wish));
        let k = choose|k: int| 0 <= k < wishes.len() && wishes[k] == wish;
        assert(wishes[k].dir == dir && wishes[k].id == id);
    }
}

/// Each wish is a directory of a configuration, and each such directory is a wish.
proof fn lemma_wish_indices(configs: Seq<WatchConfig>)
    ensures
        forall|k: int|
            0 <= k < all_wishes(configs).len() ==> exists|i: int, j: int|
                #![trigger configs[i].dirs@[j]]
                0 <= i < configs.len() && 0 <= j < configs[i].dirs@.len() && (#[trigger] all_wishes(
                    configs,
                )[k]) == (Wish {
                    dir: configs[i].dirs@[j]@,
                    id: configs[i].id@,
                    mode: configs[i].mode,
                }),
        forall|i: int, j: int|
            #![trigger configs[i].dirs@[j]]
            0 <= i < configs.len() && 0 <= j < configs[i].dirs@.len() ==> all_wishes(
                configs,
            ).contains(
                Wish { dir: configs[i].dirs@[j]@, id: configs[i].id@, mode: configs[i].mode },
            ),
    decreases configs.len(),
{
    if configs.len() > 0 {
        let first = configs.drop_last();
        let last = configs.last();
        let before = all_wishes(first);
        let own = wishes_of(last);
        let all = all_wishes(configs);
        lemma_wish_indices(first);
        assert(configs[configs.len() - 1] == last);
        assert forall|k: int| 0 <= k < all.len() implies exists|i: int, j: int|
            #![trigger configs[i].dirs@[j]]
            0 <= i < configs.len() && 0 <= j < configs[i].dirs@.len() && (#[trigger] all[k]) == (Wish {
                dir: configs[i].dirs@[j]@,
                id: configs[i].id@,
                mode: configs[i].mode,
            }) by {
            if k < before.len() {
                assert(all[k] == before[k]);
                let (i, j) = choose|i: int, j: int|
                    #![trigger first[i].dirs@[j]]
                    0 <= i < first.len() && 0 <= j < first[i].dirs@.len() && before[k] == (Wish {
                        dir: first[i].dirs@[j]@,
                        id: first[i].id@,
                        mode: first[i].mode,
                    });
                assert(configs[i] == first[i]);
                assert(configs[i].dirs@[j] == first[i].dirs@[j]);
            } else {
                let j = k - before.len();
                assert(all[k] == own[j]);
                assert(configs[configs.len() - 1].dirs@[j] == last.dirs@[j]);
            }
        }
        assert forall|i: int, j: int|
            #![trigger configs[i].dirs@[j]]
            0 <= i < configs.len() && 0 <= j < configs[i].dirs@.len() implies all.contains(
            Wish { dir: configs[i].dirs@[j]@, id: configs[i].id@, mode: configs[i].mode },
        ) by {
            let wish = Wish { dir: configs[i].dirs@[j]@, id: configs[i].id@, mode: configs[i].mode };
            if i < first.len() {
                assert(first[i] == configs[i]);
                assert(first[i].dirs@[j] == configs[i].dirs@[j]);
                assert(before.contains(wish));
                let k = choose|k: int| 0 <= k < before.len() && before[k] == wish;
                assert(all[k] == wish);
            } else {
                assert(own[j] == wish);
                assert(all[before.len() + j] == wish);
            }
        }
    }
}

/// The daemons that want a directory are those of its wishes.
proof fn lemma_ids_for(wishes: Seq<Wish>, dir: Seq<char>, id: Seq<char>)
    ensures
        ids_for(wishes, dir).contains(id) <==> exists|k: int|
            0 <= k < wishes.len() && (#[trigger] wishes[k]).dir == dir && wishes[k].id == id,
    decreases wishes.len(),
{
    if wishes.len() > 0 {
        let first = wishes.drop_last();
        let before = ids_for(first, dir);
        let all = ids_for(wishes, dir);
        lemma_ids_for(first, dir, id);
        assert(wishes[wishes.len() - 1] == wishes.last());
        if before.contains(id) {
            let k = choose|k: int| 0 <= k < before.len() && before[k] == id;
            assert(all[k] == id);
            let n = choose|n: int|
                0 <= n < first.len() && (#[trigger] first[n]).dir == dir && first[n].id == id;
            assert(wishes[n] == first[n]);
        }
        if all.contains(id) && !before.contains(id) {
            let k = choose|k: int| 0 <= k < all.len() && all[k] == id;
            if k < before.len() {
                assert(before[k] == id);
            }
        }
        if exists|k: int|
            0 <= k < wishes.len() && (#[trigger] wishes[k]).dir == dir && wishes[k].id == id {
            let k = choose|k: int|
                0 <= k < wishes.len() && (#[trigger] wishes[k]).dir == dir && wishes[k].id == id;
            if k < first.len() {
                assert(first[k] == wishes[k]);
            } else {
                assert(all[before.len() as int] == id);
            }
        }
    }
}

/// Nothing is watched that no daemon wants: the native watcher holds only directories that a daemon
/// wants there or leaves open, the polling one only such as a daemon wants at all.
pub proof fn only_wishes_are_watched(
    s: WatchState,
    wishes: Seq<Wish>,
    e: RoundEvents,
    dir: Seq<char>,
)
    ensures
        after_round(s, wishes, e).native.contains(dir) ==> wanted(wishes, dir, WatchMode::Native)
            || wanted(wishes, dir, WatchMode::Auto),
        after_round(s, wishes, e).poll.contains(dir) ==> wanted(wishes, dir, WatchMode::Poll) || wanted(
            wishes,
            dir,
            WatchMode::Auto,
        ) || wanted(wishes, dir, WatchMode::Native),
        wanted(wishes, dir, WatchMode::Native) && after_round(s, wishes, e).native_up && !wanted(
            wishes,
            dir,
            WatchMode::Poll,
        ) && !wanted(wishes, dir, WatchMode::Auto) ==> !after_round(s, wishes, e).poll.contains(dir),
        wanted(wishes, dir, WatchMode::Poll) && !wanted(wishes, dir, WatchMode::Native) && !wanted(
            wishes,
            dir,
            WatchMode::Auto,
        ) ==> !after_round(s, wishes, e).native.contains(dir),
{
}

/// A directory whose watcher is left open is watched natively where there is a native watcher that
/// takes it and it has not fallen back before. Where that watcher does not take it, and no daemon
/// insists on a watcher, it is polled instead and stays with the polling watcher.
pub proof fn open_choices_fall_back_to_polling(
    s: WatchState,
    wishes: Seq<Wish>,
    e: RoundEvents,
    dir: Seq<char>,
)
    requires
        wanted(wishes, dir, WatchMode::Auto),
        after_round(s, wishes, e).native_up,
        !s.fallback.contains_key(dir),
    ensures
        !e.native_failed.contains(dir) ==> after_round(s, wishes, e).native.contains(dir),
        e.native_failed.contains(dir) && !wanted(wishes, dir, WatchMode::Native) && !wanted(
            wishes,
            dir,
            WatchMode::Poll,
        ) ==> {
            &&& !after_round(s, wishes, e).native.contains(dir)
            &&& after_round(s, wishes, e).poll_up ==> after_round(s, wishes, e).poll.contains(dir)
            &&& after_round(s, wishes, e).fallback.contains_key(dir)
        },
{
    let first = first_goals(wishes, s.fallback.dom());
    assert(first.native.contains(dir));
    if e.native_failed.contains(dir) && !wanted(wishes, dir, WatchMode::Native) && !wanted(
        wishes,
        dir,
        WatchMode::Poll,
    ) {
        lemma_wanted_has_ids(wishes, dir, WatchMode::Auto);
        lemma_still_in_self(ids_for(wishes, dir), ids_for(wishes, dir));
        assert(after_round(s, wishes, e).fallback.contains_key(dir));
    }
}

/// A directory that a daemon wants has a daemon.
proof fn lemma_wanted_has_ids(wishes: Seq<Wish>, dir: Seq<char>, mode: WatchMode)
    requires
        wanted(wishes, dir, mode),
    ensures
        ids_for(wishes, dir).len() > 0,
{
    let k = choose|k: int|
        0 <= k < wishes.len() && (#[trigger] wishes[k]).dir == dir && wishes[k].mode == mode;
    lemma_ids_for(wishes, dir, wishes[k].id);
    assert(wishes[k].id == wishes[k].id);
    assert(ids_for(wishes, dir).contains(wishes[k].id));
}

/// All daemons of a part of a list are still in it.
proof fn lemma_still_in_self(ids: Seq<Seq<char>>, all: Seq<Seq<char>>)
    requires
        forall|i: int| 0 <= i < ids.len() ==> all.contains(#[trigger] ids[i]),
    ensures
        still_in(ids, all) == ids,
    decreases ids.len(),
{
    if ids.len() > 0 {
        let first = ids.drop_last();
        assert forall|i: int| 0 <= i < first.len() implies all.contains(#[trigger] first[i]) by {
            assert(ids[i] == first[i]);
        }
        lemma_still_in_self(first, all);
        assert(all.contains(ids[ids.len() - 1]));
        assert(still_in(ids, all) =~= ids);
    } else {
        assert(still_in(ids, all) =~= ids);
    }
}

/// A directory that fell back stays with the polling watcher as long as a daemon that made it fall
/// back still wants it and its watcher is left open, and not longer.
pub proof fn fallback_lasts_while_it_is_wanted(
    s: WatchState,
    wishes: Seq<Wish>,
    e: RoundEvents,
    dir: Seq<char>,
    id: Seq<char>,
)
    requires
        s.fallback.contains_key(dir),
    ensures
        wanted(wishes, dir, WatchMode::Auto) && s.fallback[dir].contains(id) && ids_for(
            wishes,
            dir,
        ).contains(id) && !wanted(wishes, dir, WatchMode::Native) ==> after_round(
            s,
            wishes,
            e,
        ).fallback.contains_key(dir),
        !wanted(wishes, dir, WatchMode::Auto) ==> !after_round(s, wishes, e).fallback.contains_key(dir),
{
    let ids = s.fallback[dir];
    let now = ids_for(wishes, dir);
    if wanted(wishes, dir, WatchMode::Auto) && ids.contains(id) && now.contains(id) && !wanted(
        wishes,
        dir,
        WatchMode::Native,
    ) {
        lemma_still_in_holds(ids, now, id);
        lemma_wanted_has_ids(wishes, dir, WatchMode::Auto);
        lemma_still_in_self(now, now);
    }
}

/// A daemon of both lists is still in.
proof fn lemma_still_in_holds(ids: Seq<Seq<char>>, watching: Seq<Seq<char>>, id: Seq<char>)
    requires
        ids.contains(id),
        watching.contains(id),
    ensures
        still_in(ids, watching).contains(id),
    decreases ids.len(),
{
    let first = ids.drop_last();
    let before = still_in(first, watching);
    let all = still_in(ids, watching);
    let k = choose|k: int| 0 <= k < ids.len() && ids[k] == id;
    if k < first.len() {
        assert(first[k] == id);
        lemma_still_in_holds(first, watching, id);
        let n = choose|n: int| 0 <= n < before.len() && before[n] == id;
        assert(all[n] == id);
    } else {
        assert(all[before.len() as int] == id);
    }
}

/// A watcher that could not be created is reported loudly the first time, and quietly after that.
pub proof fn failures_are_loud_once(refused_before: bool)
    ensures
        creation_report(true, refused_before) is Nothing,
        creation_report(false, false) is Loud,
        creation_report(false, true) is Quiet,
{
}

/// A watcher is created where directories are for it and there is none; one that is there stays.
/// Whether that failed is kept for the next round.
pub proof fn watchers_are_created_when_wanted(
    s: WatchState,
    goals: Goals,
    created: bool,
    dir: Seq<char>,
)
    ensures
        s.native_up ==> after_native_creation(s, goals, created) == s,
        s.poll_up ==> after_poll_creation(s, goals, created) == s,
        !s.native_up && goals.native.contains(dir) ==> after_native_creation(
            s,
            goals,
            created,
        ).native_up == created && after_native_creation(s, goals, created).native_refused
            == !created,
        !s.poll_up && goals.poll.contains(dir) ==> after_poll_creation(s, goals, created).poll_up
            == created && after_poll_creation(s, goals, created).poll_refused == !created,
        goals.native =~= Set::<Seq<char>>::empty() ==> after_native_creation(s, goals, created)
            == s,
        goals.poll =~= Set::<Seq<char>>::empty() ==> after_poll_creation(s, goals, created) == s,
        after_native_creation(s, goals, created).poll_up == s.poll_up,
        after_poll_creation(s, goals, created).native_up == s.native_up,
{
}

/// A failure counts as reported while the directory is still to be watched: where it was reported
/// before, and where it failed now.
pub proof fn failures_are_remembered(
    reported: Set<Seq<char>>,
    goal: Set<Seq<char>>,
    failed: Set<Seq<char>>,
    dir: Seq<char>,
)
    ensures
        reported_after(reported, goal, failed).contains(dir) <==> goal.contains(dir) && (
        reported.contains(dir) || failed.contains(dir)),
{
}

/// A directory falls back where a native watcher is there and does not take it, and all who want it
/// leave the choice open; it is then for the polling watcher alone. Without a native watcher all
/// directories are polled, and none counts as fallen back.
pub proof fn refused_directories_fall_back(
    goals: Goals,
    only: Set<Seq<char>>,
    failed: Set<Seq<char>>,
    dir: Seq<char>,
)
    ensures
        fallen_now(goals, only, true, failed).contains(dir) <==> goals.native.contains(dir)
            && failed.contains(dir) && only.contains(dir),
        !fallen_now(goals, only, false, failed).contains(dir),
        goals_after_native(goals, only, true, failed).poll.contains(dir) <==> goals.poll.contains(
            dir,
        ) || (goals.native.contains(dir) && failed.contains(dir) && only.contains(dir)),
        goals_after_native(goals, only, true, failed).native.contains(dir) <==> goals.native.contains(
            dir,
        ) && !(failed.contains(dir) && only.contains(dir)),
        goals_after_native(goals, only, false, failed).poll.contains(dir) <==> goals.poll.contains(
            dir,
        ) || goals.native.contains(dir),
        !goals_after_native(goals, only, false, failed).native.contains(dir),
        goals_after_poll(goals, true) == goals,
        !goals_after_poll(goals, false).poll.contains(dir),
        goals_after_poll(goals, false).native == goals.native,
{
}

/// After a round the watchers have the directories that were settled in it, and what failed with
/// either of them, where it has been told, is remembered.
pub proof fn rounds_settle_directories(
    s: WatchState,
    goals: Goals,
    only: Set<Seq<char>>,
    failed: Set<Seq<char>>,
    wishes: Seq<Wish>,
    dir: Seq<char>,
)
    ensures
        after_finish(s, goals, failed, wishes).native == goals.native,
        after_finish(s, goals, failed, wishes).poll == goals.poll,
        after_finish(s, goals, failed, wishes).native_up == s.native_up,
        after_finish(s, goals, failed, wishes).poll_up == s.poll_up,
        s.native_up && goals.native.contains(dir) ==> (after_native_watched(
            s,
            goals,
            only,
            failed,
        ).reported_native.contains(dir) <==> s.reported_native.contains(dir) || (failed.contains(
            dir,
        ) && !only.contains(dir))),
        s.poll_up && goals.poll.contains(dir) ==> (after_poll_watched(
            s,
            goals,
            failed,
        ).reported_poll.contains(dir) <==> s.reported_poll.contains(dir) || failed.contains(dir)),
        !s.native_up ==> after_native_watched(s, goals, only, failed) == s,
        !s.poll_up ==> after_poll_watched(s, goals, failed) == s,
{
}

} // verus!
