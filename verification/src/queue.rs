//! The build queue: a two-slot priority queue with request coalescing, the
//! worker-loop decisions, and the build-execution decisions around the
//! compilation context.
//!
//! Clients request builds quickly (possibly on every keystroke); there is no
//! point running every one, and never more than one build at once. A request
//! is therefore queued into one of two slots — one for Normal-priority work,
//! one for priority work — and a newer request squashes a pending older one,
//! whose waiter is told so exactly once. One background worker drains the
//! slots, priority first; the caller that flips the `building` flag from
//! false to true is the one that spawns it, under the same lock as the
//! enqueue, so a request can never be stranded without a worker.
//!
//! The outside world (thread spawning, sleeping out the debounce interval,
//! invoking the build-system and compiler adapters, delivering results to
//! callbacks) stays with the embedding program: each step here is a decision
//! from state and event to new state and action, and callbacks are named by
//! tokens. What holds of every such decision is stated in its contract.

use crate::dirty::{spec_reconcile, DirtyFileMap};
use crate::plan::Plan;
use vstd::prelude::*;

verus! {

/// Priority for a build request.
#[derive(Clone, Copy, Debug, PartialEq, Eq, Structural)]
pub enum BuildPriority {
    /// Run this build as soon as possible: an internal promotion of `Normal`
    /// granted when both queue slots are idle, skipping the debounce wait.
    Immediate,
    /// Immediate, plus re-run the full resolution pass of the external build
    /// system; forced whenever no cached invocation exists yet.
    Cargo,
    /// A regular build request (e.g., on a minor edit); waits out a debounce
    /// interval before running, so rapid edits coalesce into one build.
    Normal,
}

/// The one value ever delivered to a completion callback.
#[derive(Debug)]
pub enum BuildResult<A> {
    /// The build succeeded; the arguments are warnings and analysis
    /// artifacts.
    Success(Vec<String>, Vec<A>),
    /// The build finished with errors; the arguments are diagnostics and
    /// analysis artifacts.
    Failure(Vec<String>, Vec<A>),
    /// The request was coalesced into a newer one and never ran.
    Squashed,
    /// There was an error attempting to build.
    Error,
}

/// A queued build request.
pub struct PendingBuild {
    /// The directory the build was requested for.
    pub build_dir: String,
    /// Effective priority, after any escalation or promotion.
    pub priority: BuildPriority,
    /// Snapshot of the dirty-file map at enqueue time.
    pub built_files: DirtyFileMap,
    /// Names the completion callback the embedding program holds for this
    /// request; every request carries a distinct token.
    pub token: u64,
}

/// One queue slot. `Pending` may only be replaced once built or squashed;
/// `InProgress` marks the slot whose request the worker is running, so a
/// later enqueue cannot accidentally treat it as replaceable pending work.
pub enum Build {
    /// The worker is running this slot's request.
    InProgress,
    /// A build is queued.
    Pending(PendingBuild),
    /// No build.
    Empty,
}

/// Mathematical value of a queued request.
pub ghost struct PendingBuildV {
    pub build_dir: Seq<char>,
    pub priority: BuildPriority,
    pub built_files: Map<Seq<char>, u64>,
    pub token: u64,
}

/// Mathematical value of a slot.
pub ghost enum BuildV {
    InProgress,
    Pending(PendingBuildV),
    Empty,
}

/// Mathematical value of the whole queue.
pub ghost struct QueueV {
    /// The Normal-class slot.
    pub low: BuildV,
    /// The priority-class slot.
    pub high: BuildV,
    /// Whether a worker is alive.
    pub building: bool,
    /// Contents of the dirty-file map.
    pub dirty: Map<Seq<char>, u64>,
    /// The cached top-level invocation's arguments; empty until a full
    /// resolution pass stores them.
    pub args: Seq<Seq<char>>,
    /// The cached invocation's environment overrides.
    pub envs: Seq<(Seq<char>, Option<Seq<char>>)>,
    /// The active build directory, unset initially.
    pub build_dir: Option<Seq<char>>,
    /// The build plan's units.
    pub plan: Seq<crate::plan::PlanUnit>,
    /// The debounce interval for Normal-priority builds, in milliseconds.
    pub wait_to_build: u64,
}

impl View for PendingBuild {
    type V = PendingBuildV;

    open spec fn view(&self) -> PendingBuildV {
        PendingBuildV {
            build_dir: self.build_dir@,
            priority: self.priority,
            built_files: self.built_files@,
            token: self.token,
        }
    }
}

impl View for Build {
    type V = BuildV;

    open spec fn view(&self) -> BuildV {
        match self {
            Build::InProgress => BuildV::InProgress,
            Build::Pending(b) => BuildV::Pending(b@),
            Build::Empty => BuildV::Empty,
        }
    }
}

impl Build {
    pub fn is_pending(&self) -> (r: bool)
        ensures
            r == (self@ is Pending),
    {
        match self {
            Build::Pending(_) => true,
            _ => false,
        }
    }

    /// True if the build is waiting, in a state where it is impossible for
    /// one to be in progress.
    pub fn is_pending_fresh(&self) -> (r: bool)
        requires
            !(self@ is InProgress),
        ensures
            r == (self@ is Pending),
    {
        match self {
            Build::Pending(_) => true,
            Build::InProgress => false,
            Build::Empty => false,
        }
    }

    pub fn as_pending(self) -> (r: PendingBuild)
        requires
            self@ is Pending,
        ensures
            self == Build::Pending(r),
    {
        match self {
            Build::Pending(b) => b,
            _ => vstd::pervasive::unreached(),
        }
    }
}

/// The queue still has cached arguments or environment from the last full
/// resolution pass; without them every request escalates to `Cargo`.
pub open spec fn has_invocation(q: QueueV) -> bool {
    q.args.len() > 0 || q.envs.len() > 0
}

/// The tokens a slot would give up when squashed.
pub open spec fn slot_tokens(s: BuildV) -> Seq<u64> {
    match s {
        BuildV::Pending(b) => seq![b.token],
        _ => Seq::empty(),
    }
}

/// How an incoming build lands in the two slots: a Normal build finding both
/// slots idle is promoted to Immediate and takes the priority slot; an
/// ordinary Normal build replaces (squashing) only the Normal slot; a
/// priority build squashes both slots and takes the priority slot, because
/// the compilation context is about to change and pending Normal-class work
/// would run against stale context.
pub open spec fn spec_push(low: BuildV, high: BuildV, b: PendingBuildV) -> (BuildV, BuildV, Seq<
    u64,
>) {
    if b.priority is Normal {
        if low is Empty && high is Empty {
            (
                low,
                BuildV::Pending(PendingBuildV { priority: BuildPriority::Immediate, ..b }),
                Seq::empty(),
            )
        } else {
            (BuildV::Pending(b), high, slot_tokens(low))
        }
    } else {
        (BuildV::Empty, BuildV::Pending(b), slot_tokens(low) + slot_tokens(high))
    }
}

/// A whole `request_build` call: escalate to `Cargo` when no invocation is
/// cached, snapshot the dirty map, place the request, and report whether the
/// caller must spawn the worker — exactly when the `building` flag was not
/// yet set. Returns the new queue, the squashed tokens, and the spawn
/// decision.
pub open spec fn spec_request(q: QueueV, dir: Seq<char>, p: BuildPriority, token: u64) -> (
    QueueV,
    Seq<u64>,
    bool,
) {
    let p2 = if !has_invocation(q) {
        BuildPriority::Cargo
    } else {
        p
    };
    let b = PendingBuildV { build_dir: dir, priority: p2, built_files: q.dirty, token };
    let (low2, high2, sq) = spec_push(q.low, q.high, b);
    (QueueV { low: low2, high: high2, building: true, ..q }, sq, !q.building)
}

/// Queue-level well-formedness: at most one slot is in progress, a non-empty
/// slot implies a live worker (no request is ever stranded), and while the
/// Normal slot's request runs the priority slot is empty.
pub open spec fn queue_wf_v(q: QueueV) -> bool {
    &&& (q.low is InProgress ==> q.high is Empty)
    &&& (!(q.low is Empty) || !(q.high is Empty)) ==> q.building
}

/// Information passed to the build-system and compiler adapters: the cached
/// top-level invocation (arguments and environment, empty until the first
/// full resolution pass), the active build directory, and the build plan.
pub struct CompilationContext {
    /// Arguments of the cached compiler invocation.
    pub args: Vec<String>,
    /// Environment overrides of the cached invocation.
    pub envs: Vec<(String, Option<String>)>,
    /// The build directory supplied by the client.
    pub build_dir: Option<String>,
    /// The cached dependency/build plan.
    pub build_plan: Plan,
}

impl CompilationContext {
    pub fn new() -> (r: CompilationContext)
        ensures
            r.args@.len() == 0,
            r.envs@.len() == 0,
            r.build_dir is None,
            r.build_plan@.len() == 0,
            r.build_plan.wf(),
    {
        CompilationContext {
            args: Vec::new(),
            envs: Vec::new(),
            build_dir: Option::None,
            build_plan: Plan::new(),
        }
    }
}

/// What a caller gets back from `request_build`.
pub struct SubmitOutcome {
    /// This caller flipped the `building` flag and must start the worker.
    pub spawn: bool,
    /// Tokens of the requests this one squashed; each waiter must be told
    /// `Squashed`, exactly once.
    pub squashed: Vec<u64>,
}

/// Manages builds: the two-slot queue, the shared compilation context, and
/// the dirty-file map.
pub struct BuildQueue {
    low: Build,
    high: Build,
    building: bool,
    dirty_files: DirtyFileMap,
    cx: CompilationContext,
    wait_to_build: u64,
}

impl View for BuildQueue {
    type V = QueueV;

    closed spec fn view(&self) -> QueueV {
        QueueV {
            low: self.low@,
            high: self.high@,
            building: self.building,
            dirty: self.dirty_files@,
            args: self.cx.args.deep_view(),
            envs: self.cx.envs.deep_view(),
            build_dir: match self.cx.build_dir {
                Option::Some(d) => Option::Some(d@),
                Option::None => Option::None,
            },
            plan: self.cx.build_plan@,
            wait_to_build: self.wait_to_build,
        }
    }
}

impl BuildQueue {
    /// Structure invariants: the queue-level slot/flag discipline, plus
    /// well-formedness of the dirty map, the plan, and every held snapshot.
    pub closed spec fn wf(&self) -> bool {
        &&& queue_wf_v(self@)
        &&& self.dirty_files.wf()
        &&& self.cx.build_plan.wf()
        &&& pending_wf(self.low)
        &&& pending_wf(self.high)
    }

    pub fn new(wait_to_build: u64) -> (r: BuildQueue)
        ensures
            r.wf(),
            r@.low is Empty,
            r@.high is Empty,
            !r@.building,
            r@.dirty == Map::<Seq<char>, u64>::empty(),
            r@.args.len() == 0,
            r@.envs.len() == 0,
            r@.build_dir is None,
            r@.plan.len() == 0,
            r@.wait_to_build == wait_to_build,
    {
        BuildQueue {
            low: Build::Empty,
            high: Build::Empty,
            building: false,
            dirty_files: DirtyFileMap::new(),
            cx: CompilationContext::new(),
            wait_to_build,
        }
    }

    /// The configured debounce interval for Normal-priority builds.
    pub fn wait_to_build(&self) -> (r: u64)
        ensures
            r == self@.wait_to_build,
    {
        self.wait_to_build
    }

    /// Marks a given versioned file as dirty since the last build. The entry
    /// is cleared by a build whose snapshot covers this or a more recent
    /// version of the file.
    pub fn mark_file_dirty(&mut self, file: String, version: u64)
        requires
            old(self).wf(),
        ensures
            final(self).wf(),
            final(self)@ == (QueueV { dirty: old(self)@.dirty.insert(file@, version), ..old(self)@ }),
    {
        self.dirty_files.insert(file, version);
    }

    /// The recorded dirty version of a file, if it is dirty.
    pub fn file_dirty_version(&self, file: &String) -> (r: Option<u64>)
        requires
            self.wf(),
        ensures
            r == if self@.dirty.contains_key(file@) {
                Some(self@.dirty[file@])
            } else {
                None::<u64>
            },
    {
        self.dirty_files.get_version(file)
    }

    /// Empties a slot in preparation for a newer request, handing back the
    /// token of a pending occupant so its waiter can be told `Squashed`.
    fn squash_build(build: &mut Build) -> (r: Option<u64>)
        ensures
            final(build)@ is Empty,
            r == match old(build)@ {
                BuildV::Pending(b) => Option::Some(b.token),
                _ => Option::<u64>::None,
            },
    {
        let r = match &*build {
            Build::Pending(b) => Some(b.token),
            _ => None,
        };
        *build = Build::Empty;
        r
    }

    /// Places an incoming build in the slots, per [`spec_push`].
    fn push_build(&mut self, build: PendingBuild) -> (sq: Vec<u64>)
        requires
            old(self).wf(),
            old(self)@.building,
            build.built_files.wf(),
        ensures
            final(self).wf(),
            ({
                let (low2, high2, sqs) = spec_push(old(self)@.low, old(self)@.high, build@);
                &&& final(self)@ == QueueV { low: low2, high: high2, ..old(self)@ }
                &&& sq@ == sqs
            }),
    {
        let mut sq: Vec<u64> = Vec::new();
        if matches!(build.priority, BuildPriority::Normal) {
            let both_empty = matches!(self.low, Build::Empty) && matches!(self.high, Build::Empty);
            if both_empty {
                let mut b = build;
                b.priority = BuildPriority::Immediate;
                self.high = Build::Pending(b);
            } else {
                if let Some(t) = Self::squash_build(&mut self.low) {
                    sq.push(t);
                }
                self.low = Build::Pending(build);
            }
        } else {
            if let Some(t) = Self::squash_build(&mut self.low) {
                sq.push(t);
            }
            if let Some(t) = Self::squash_build(&mut self.high) {
                sq.push(t);
            }
            self.high = Build::Pending(build);
        }
        proof {
            let (low2, high2, sqs) = spec_push(old(self)@.low, old(self)@.high, build@);
            assert(sq@ =~= sqs);
        }
        sq
    }

    /// Requests a build of `build_dir`. The request carries a snapshot of the
    /// dirty-file map; it is placed per the squashing rules, escalated to
    /// `Cargo` when no cached invocation exists yet, and the caller is told
    /// to spawn the worker exactly when it flipped the `building` flag from
    /// false to true. Enqueue and flag flip happen under one exclusive
    /// borrow, so a request can never arrive after a worker decided to exit.
    pub fn request_build(&mut self, build_dir: String, priority: BuildPriority, token: u64) -> (r:
        SubmitOutcome)
        requires
            old(self).wf(),
            !(priority is Immediate),
        ensures
            final(self).wf(),
            ({
                let (q2, sqs, spawn) = spec_request(old(self)@, build_dir@, priority, token);
                &&& final(self)@ == q2
                &&& r.squashed@ == sqs
                &&& r.spawn == spawn
            }),
    {
        let needs_cargo = self.cx.args.len() == 0 && self.cx.envs.len() == 0;
        let effective = if needs_cargo {
            BuildPriority::Cargo
        } else {
            priority
        };
        let build = PendingBuild {
            build_dir,
            priority: effective,
            built_files: self.dirty_files.snapshot(),
            token,
        };
        let spawn = !self.building;
        self.building = true;
        let squashed = self.push_build(build);
        SubmitOutcome { spawn, squashed }
    }
}

/// What the worker found when it asked for the next build.
pub enum NextBuild {
    /// Both slots are drained; the `building` flag has been released and the
    /// worker must exit.
    Idle,
    /// Run this request; its slot is marked in progress.
    Run(PendingBuild),
}

/// What a debounced build looks like after the wait.
pub enum Rechecked {
    /// A newer request arrived while sleeping: the woken request must not
    /// run; its waiter is told `Squashed` through this token.
    Stale(u64),
    /// Nothing newer arrived; run the build.
    Proceed(PendingBuild),
}

/// What a dequeued request requires of the embedding program.
pub enum BuildAction {
    /// Contract violation — the build directory changed under a non-`Cargo`
    /// priority; the attempt is abandoned and its waiter gets `Error`.
    Abort,
    /// Run the external build-system adapter's full resolution pass.
    FullResolution,
    /// Run these cached invocations through the compiler adapter, in order.
    RunJobs(Vec<crate::plan::Job>),
}

/// The list holds exactly the dirty map's file names.
pub open spec fn changed_matches_dirty(changed: Seq<String>, dirty: Map<Seq<char>, u64>) -> bool {
    &&& forall|i: int| 0 <= i < changed.len() ==> dirty.contains_key(#[trigger] changed[i]@)
    &&& forall|k: Seq<char>|
        #[trigger] dirty.contains_key(k) ==> exists|i: int| 0 <= i < changed.len() && changed[i]@
            == k
}

impl BuildQueue {
    /// Under the queue lock, picks the next build to run: the priority slot
    /// first, then the Normal slot, marking the chosen slot in progress; with
    /// both drained, releases the `building` flag and sends the worker back
    /// to idle. Priority-class work is always served before Normal-class
    /// work, whatever the arrival order.
    pub fn next_build(&mut self) -> (r: NextBuild)
        requires
            old(self).wf(),
            !(old(self)@.low is InProgress),
            !(old(self)@.high is InProgress),
        ensures
            final(self).wf(),
            old(self)@.high matches BuildV::Pending(b) ==> ({
                &&& r matches NextBuild::Run(x) && x@ == b && x.built_files.wf()
                &&& final(self)@ == (QueueV { high: BuildV::InProgress, ..old(self)@ })
            }),
            old(self)@.high is Empty ==> (old(self)@.low matches BuildV::Pending(b) ==> ({
                &&& r matches NextBuild::Run(x) && x@ == b && x.built_files.wf()
                &&& final(self)@ == (QueueV { low: BuildV::InProgress, ..old(self)@ })
            })),
            (old(self)@.high is Empty && old(self)@.low is Empty) ==> ({
                &&& r is Idle
                &&& final(self)@ == (QueueV { building: false, ..old(self)@ })
            }),
    {
        if self.high.is_pending_fresh() {
            let mut slot = Build::InProgress;
            core::mem::swap(&mut self.high, &mut slot);
            return NextBuild::Run(slot.as_pending());
        }
        if self.low.is_pending_fresh() {
            let mut slot = Build::InProgress;
            core::mem::swap(&mut self.low, &mut slot);
            return NextBuild::Run(slot.as_pending());
        }
        self.building = false;
        NextBuild::Idle
    }

    /// After sleeping out the debounce interval, the worker re-checks the
    /// slots: if any request arrived meanwhile, the woken request is stale —
    /// its waiter is told `Squashed` and the newer work is picked up instead
    /// (last-write-wins batching). Otherwise the build proceeds.
    pub fn recheck_after_wait(&mut self, build: PendingBuild) -> (r: Rechecked)
        requires
            old(self).wf(),
        ensures
            final(self).wf(),
            *final(self) == *old(self),
            (old(self)@.low is Pending || old(self)@.high is Pending) ==> (r matches
                Rechecked::Stale(t) && t == build.token),
            !(old(self)@.low is Pending || old(self)@.high is Pending) ==> (r matches
                Rechecked::Proceed(x) && x == build),
    {
        if self.low.is_pending() || self.high.is_pending() {
            Rechecked::Stale(build.token)
        } else {
            Rechecked::Proceed(build)
        }
    }

    /// Removes the in-progress marker once a build's result has been
    /// delivered; if a newer request already overwrote the marker, the slot
    /// is left as that request.
    pub fn finish_build(&mut self)
        requires
            old(self).wf(),
        ensures
            final(self).wf(),
            old(self)@.high is InProgress ==> final(self)@ == (QueueV {
                high: BuildV::Empty,
                ..old(self)@
            }),
            (!(old(self)@.high is InProgress) && old(self)@.low is InProgress) ==> final(self)@
                == (QueueV { low: BuildV::Empty, ..old(self)@ }),
            (!(old(self)@.high is InProgress) && !(old(self)@.low is InProgress)) ==> final(self)@
                == old(self)@,
    {
        if matches!(self.high, Build::InProgress) {
            self.high = Build::Empty;
        } else if matches!(self.low, Build::InProgress) {
            self.low = Build::Empty;
        }
    }

    /// Entry point for executing a dequeued request: reconciles the build
    /// directory (a change demands `Cargo` priority — otherwise the attempt
    /// is a contract violation and is abandoned), clears the cached
    /// invocation on a `Cargo` build to force a full resolution pass, and
    /// decides between the full pass and direct execution of the plan's
    /// cached invocations for the currently dirty files.
    pub fn run_build(&mut self, new_build_dir: String, priority: BuildPriority) -> (r: BuildAction)
        requires
            old(self).wf(),
        ensures
            final(self).wf(),
            ({
                let dir_changed = !(old(self)@.build_dir matches Some(d) && d == new_build_dir@);
                let aborted = dir_changed && !(priority is Cargo);
                let args2: Seq<Seq<char>> = if priority is Cargo {
                    Seq::empty()
                } else {
                    old(self)@.args
                };
                let envs2: Seq<(Seq<char>, Option<Seq<char>>)> = if priority is Cargo {
                    Seq::empty()
                } else {
                    old(self)@.envs
                };
                let dir2 = if dir_changed {
                    Option::Some(new_build_dir@)
                } else {
                    old(self)@.build_dir
                };
                &&& (r is Abort <==> aborted)
                &&& (aborted ==> final(self)@ == old(self)@)
                &&& (!aborted ==> final(self)@ == (QueueV {
                    build_dir: dir2,
                    args: args2,
                    envs: envs2,
                    ..old(self)@
                }))
                &&& (!aborted && args2.len() == 0 && envs2.len() == 0 ==> r is FullResolution)
                &&& (!aborted && !(args2.len() == 0 && envs2.len() == 0) ==> exists|
                    changed: Seq<String>,
                |
                    {
                        &&& #[trigger] changed_matches_dirty(changed, old(self)@.dirty)
                        &&& (r is FullResolution <==> !crate::plan::can_execute(
                            old(self)@.plan,
                            changed,
                        ))
                        &&& (r matches BuildAction::RunJobs(jobs) ==> ({
                            let js = crate::plan::spec_jobs(
                                old(self)@.plan,
                                crate::plan::spec_marks(
                                    old(self)@.plan,
                                    changed,
                                    old(self)@.plan.len() as int,
                                ),
                                old(self)@.plan.len() as int,
                            );
                            &&& jobs@.len() == js.len()
                            &&& forall|k: int|
                                0 <= k < js.len() ==> (#[trigger] jobs@[k]).unit == js[k].0
                                    && jobs@[k].invocation@ == js[k].1
                        }))
                    })
            }),
    {
        let dir_changed = match &self.cx.build_dir {
            Option::Some(d) => !(*d == new_build_dir),
            Option::None => true,
        };
        if dir_changed {
            if !matches!(priority, BuildPriority::Cargo) {
                return BuildAction::Abort;
            }
            self.cx.build_dir = Option::Some(new_build_dir);
        }
        if matches!(priority, BuildPriority::Cargo) {
            self.cx.args = Vec::new();
            self.cx.envs = Vec::new();
            proof {
                assert(self.cx.args.deep_view() =~= Seq::<Seq<char>>::empty());
                assert(self.cx.envs.deep_view() =~= Seq::<
                    (Seq<char>, Option<Seq<char>>),
                >::empty());
            }
        }
        if self.cx.args.len() == 0 && self.cx.envs.len() == 0 {
            return BuildAction::FullResolution;
        }
        let changed = self.dirty_files.keys();
        let r = match self.cx.build_plan.prepare_work(&changed) {
            crate::plan::WorkStatus::NeedsFullResolution => BuildAction::FullResolution,
            crate::plan::WorkStatus::Execute(jobs) => BuildAction::RunJobs(jobs),
        };
        proof {
            assert(changed_matches_dirty(changed@, old(self)@.dirty));
        }
        r
    }

    /// Discards the plan's graph before the full resolution pass regenerates
    /// it.
    pub fn begin_full_resolution(&mut self)
        requires
            old(self).wf(),
        ensures
            final(self).wf(),
            final(self)@ == (QueueV { plan: Seq::empty(), ..old(self)@ }),
    {
        self.cx.build_plan.clear();
    }

    /// Registers a unit the resolution pass encountered; see
    /// [`crate::plan::Plan::emplace_unit`].
    pub fn plan_emplace_unit(&mut self, unit: u64, primary: bool, files: Vec<String>)
        requires
            old(self).wf(),
        ensures
            final(self).wf(),
            final(self)@ == (QueueV { plan: final(self)@.plan, ..old(self)@ }),
            (exists|i: int| 0 <= i < old(self)@.plan.len() && old(self)@.plan[i].unit == unit)
                ==> final(self)@.plan == old(self)@.plan,
            (forall|i: int| 0 <= i < old(self)@.plan.len() ==> old(self)@.plan[i].unit != unit)
                ==> ({
                &&& final(self)@.plan.len() == old(self)@.plan.len() + 1
                &&& forall|j: int|
                    0 <= j < old(self)@.plan.len() ==> final(self)@.plan[j] == old(self)@.plan[j]
                &&& final(self)@.plan.last().unit == unit
                &&& final(self)@.plan.last().invocation is None
                &&& final(self)@.plan.last().deps@ =~= Seq::<u64>::empty()
                &&& final(self)@.plan.last().primary == primary
                &&& final(self)@.plan.last().files == files
            }),
    {
        self.cx.build_plan.emplace_unit(unit, primary, files);
    }

    /// Records a dependency edge the resolution pass reported; see
    /// [`crate::plan::Plan::record_dependency`].
    pub fn plan_record_dependency(&mut self, unit: u64, depends_on: u64, accepted: bool)
        requires
            old(self).wf(),
        ensures
            final(self).wf(),
            final(self)@ == (QueueV { plan: final(self)@.plan, ..old(self)@ }),
            final(self)@.plan.len() == old(self)@.plan.len(),
            forall|j: int|
                0 <= j < old(self)@.plan.len() && old(self)@.plan[j].unit != unit ==> final(self)@.plan[j] == old(self)@.plan[j],
            forall|j: int|
                0 <= j < old(self)@.plan.len() && old(self)@.plan[j].unit == unit ==> ({
                    let n0 = old(self)@.plan[j];
                    let n1 = final(self)@.plan[j];
                    &&& n1.unit == n0.unit
                    &&& n1.invocation == n0.invocation
                    &&& n1.primary == n0.primary
                    &&& n1.files == n0.files
                    &&& if crate::plan::edge_added(old(self)@.plan, unit, depends_on, accepted) {
                        n1.deps@ == n0.deps@.push(depends_on)
                    } else {
                        n1 == n0
                    }
                }),
    {
        self.cx.build_plan.record_dependency(unit, depends_on, accepted);
    }

    /// Caches a unit's compiler invocation for later direct execution; see
    /// [`crate::plan::Plan::cache_invocation`].
    pub fn plan_cache_invocation(&mut self, unit: u64, invocation: String)
        requires
            old(self).wf(),
        ensures
            final(self).wf(),
            final(self)@ == (QueueV { plan: final(self)@.plan, ..old(self)@ }),
            final(self)@.plan.len() == old(self)@.plan.len(),
            forall|j: int|
                0 <= j < old(self)@.plan.len() && old(self)@.plan[j].unit != unit ==> final(self)@.plan[j] == old(self)@.plan[j],
            forall|j: int|
                0 <= j < old(self)@.plan.len() && old(self)@.plan[j].unit == unit ==> ({
                    let n0 = old(self)@.plan[j];
                    let n1 = final(self)@.plan[j];
                    &&& n1.unit == n0.unit
                    &&& n1.invocation == Option::Some(invocation)
                    &&& n1.deps == n0.deps
                    &&& n1.primary == n0.primary
                    &&& n1.files == n0.files
                }),
    {
        self.cx.build_plan.cache_invocation(unit, invocation);
    }

    /// Stores the top-level arguments and environment the resolution pass
    /// captured, so future requests can skip the full pass.
    pub fn cache_invocation_context(
        &mut self,
        args: Vec<String>,
        envs: Vec<(String, Option<String>)>,
    )
        requires
            old(self).wf(),
        ensures
            final(self).wf(),
            final(self)@ == (QueueV {
                args: args.deep_view(),
                envs: envs.deep_view(),
                ..old(self)@
            }),
    {
        self.cx.args = args;
        self.cx.envs = envs;
    }

    /// After a build attempt that produced diagnostics (success or failure),
    /// clears the dirty entries its snapshot covered; a `Squashed` outcome
    /// must never reach this point, and an `Error` outcome leaves every file
    /// dirty for a future build.
    pub fn complete_build<A>(&mut self, built_files: &DirtyFileMap, result: &BuildResult<A>)
        requires
            old(self).wf(),
            built_files.wf(),
            !(result is Squashed),
        ensures
            final(self).wf(),
            (result is Success || result is Failure) ==> final(self)@ == (QueueV {
                dirty: spec_reconcile(old(self)@.dirty, built_files@),
                ..old(self)@
            }),
            !(result is Success || result is Failure) ==> final(self)@ == old(self)@,
    {
        match result {
            BuildResult::Success(_, _) | BuildResult::Failure(_, _) => {
                self.dirty_files.reconcile(built_files);
            },
            _ => {},
        }
    }
}

/// The diagnostics and artifacts one unit's invocation produced.
pub struct JobOutcome<A> {
    /// Whether the invocation reported success.
    pub success: bool,
    /// Diagnostics the invocation emitted.
    pub messages: Vec<String>,
    /// Analysis artifacts the invocation emitted.
    pub analyses: Vec<A>,
}

pub open spec fn all_succeeded<A>(rs: Seq<JobOutcome<A>>) -> bool {
    forall|i: int| 0 <= i < rs.len() ==> (#[trigger] rs[i]).success
}

pub open spec fn cat_messages<A>(rs: Seq<JobOutcome<A>>, n: int) -> Seq<String>
    decreases n,
{
    if n <= 0 {
        Seq::empty()
    } else {
        cat_messages(rs, n - 1) + rs[n - 1].messages@
    }
}

pub open spec fn cat_analyses<A>(rs: Seq<JobOutcome<A>>, n: int) -> Seq<A>
    decreases n,
{
    if n <= 0 {
        Seq::empty()
    } else {
        cat_analyses(rs, n - 1) + rs[n - 1].analyses@
    }
}

/// Folds the per-unit outcomes of the incremental path into the one result a
/// callback sees: `Success` exactly when every unit succeeded, else
/// `Failure`, with diagnostics and artifacts aggregated in execution order.
/// This can never produce `Squashed` — a build that ran always reports its
/// outcome.
#[verifier::loop_isolation(false)]
pub fn aggregate_job_results<A>(results: Vec<JobOutcome<A>>) -> (r: BuildResult<A>)
    ensures
        !(r is Squashed),
        !(r is Error),
        r is Success <==> all_succeeded(results@),
        r matches BuildResult::Success(m, a) ==> m@ == cat_messages(results@, results@.len() as int)
            && a@ == cat_analyses(results@, results@.len() as int),
        r matches BuildResult::Failure(m, a) ==> m@ == cat_messages(results@, results@.len() as int)
            && a@ == cat_analyses(results@, results@.len() as int),
{
    let ghost rs = results@;
    let mut rest = results;
    let mut ok = true;
    let mut msgs: Vec<String> = Vec::new();
    let mut ana: Vec<A> = Vec::new();
    let ghost mut i: int = 0;
    while rest.len() > 0
        invariant
            0 <= i <= rs.len(),
            rest@ =~= rs.skip(i),
            ok == all_succeeded(rs.take(i)),
            msgs@ == cat_messages(rs, i),
            ana@ == cat_analyses(rs, i),
        decreases rest@.len(),
    {
        let mut oc = rest.remove(0);
        proof {
            assert(rs.skip(i)[0] == rs[i]);
            assert(rs.skip(i).drop_first() =~= rs.skip(i + 1));
        }
        ok = ok && oc.success;
        msgs.append(&mut oc.messages);
        ana.append(&mut oc.analyses);
        proof {
            i = i + 1;
            assert(rs.take(i).drop_last() =~= rs.take(i - 1));
            assert(rs.take(i).last() == rs[i - 1]);
            assert(all_succeeded(rs.take(i)) == (all_succeeded(rs.take(i - 1)) && rs[i
                - 1].success)) by {
                if all_succeeded(rs.take(i - 1)) && rs[i - 1].success {
                    assert forall|k: int| 0 <= k < i implies (#[trigger] rs.take(i)[k]).success by {
                        if k < i - 1 {
                            assert(rs.take(i - 1)[k] == rs.take(i)[k]);
                        }
                    }
                } else {
                    if !rs[i - 1].success {
                        assert(!(rs.take(i)[i - 1]).success);
                    } else {
                        let k = choose|k: int|
                            0 <= k < i - 1 && !(#[trigger] rs.take(i - 1)[k]).success;
                        assert(!(rs.take(i)[k]).success);
                    }
                }
            }
        }
    }
    proof {
        assert(rs.take(rs.len() as int) =~= rs);
    }
    if ok {
        BuildResult::Success(msgs, ana)
    } else {
        BuildResult::Failure(msgs, ana)
    }
}

/// Maps the outcome of a full resolution pass to the one result a callback
/// sees: the pass's aggregated diagnostics and artifacts on success, `Error`
/// when the build-system adapter failed to resolve the project. This can
/// never produce `Squashed`.
pub fn resolution_result<A>(outcome: Option<(Vec<String>, Vec<A>)>) -> (r: BuildResult<A>)
    ensures
        !(r is Squashed),
        outcome matches Some(p) ==> r == BuildResult::<A>::Success(p.0, p.1),
        outcome is None ==> r is Error,
{
    match outcome {
        Option::Some(p) => BuildResult::Success(p.0, p.1),
        Option::None => BuildResult::Error,
    }
}

/// Law: a priority-class submission — `Cargo`/full priority, or any request
/// escalated because no invocation is cached yet — squashes whatever was
/// pending in either slot and atomically occupies the priority slot itself.
pub proof fn lemma_priority_submission_squashes_all(
    q: QueueV,
    dir: Seq<char>,
    p: BuildPriority,
    token: u64,
)
    requires
        !(p is Normal) || !has_invocation(q),
    ensures
        ({
            let (q2, sq, _spawn) = spec_request(q, dir, p, token);
            &&& q2.high matches BuildV::Pending(b) && b.token == token
            &&& q2.low is Empty
            &&& sq == slot_tokens(q.low) + slot_tokens(q.high)
        }),
{
}

/// One burst: a sequence of Normal-priority submissions with no worker step
/// in between, folded over [`spec_request`]; the result is the final queue
/// and every squashed token, in order.
pub open spec fn spec_normal_burst(q: QueueV, dir: Seq<char>, toks: Seq<u64>) -> (QueueV, Seq<u64>)
    decreases toks.len(),
{
    if toks.len() == 0 {
        (q, Seq::empty())
    } else {
        let (q1, sq1, _spawn) = spec_request(q, dir, BuildPriority::Normal, toks[0]);
        let (q2, sq2) = spec_normal_burst(q1, dir, toks.drop_first());
        (q2, sq1 + sq2)
    }
}

/// Law: in a burst of Normal-priority submissions arriving while the queue
/// is busy (so none is promoted past the debounce), every submission but the
/// last is squashed — together with whatever Normal-class request was
/// pending before the burst — and the last stands in the Normal slot,
/// awaiting its debounce. The priority slot is untouched.
pub proof fn lemma_normal_burst_squashes_predecessors(q: QueueV, dir: Seq<char>, toks: Seq<u64>)
    requires
        has_invocation(q),
        !(q.low is Empty && q.high is Empty),
        toks.len() > 0,
    ensures
        ({
            let (q2, sq) = spec_normal_burst(q, dir, toks);
            &&& q2.low matches BuildV::Pending(b) && b.token == toks.last() && b.priority
                is Normal
            &&& sq =~= slot_tokens(q.low) + toks.drop_last()
            &&& q2.high == q.high
            &&& q2.building
        }),
    decreases toks.len(),
{
    let (q1, sq1, _spawn) = spec_request(q, dir, BuildPriority::Normal, toks[0]);
    assert(sq1 == slot_tokens(q.low));
    assert(q1.low matches BuildV::Pending(b) && b.token == toks[0]);
    if toks.len() == 1 {
        assert(toks.drop_last() =~= Seq::<u64>::empty());
        assert(toks.drop_first() =~= Seq::<u64>::empty());
        assert(spec_normal_burst(q1, dir, toks.drop_first()).1 =~= Seq::<u64>::empty());
        assert(sq1 + spec_normal_burst(q1, dir, toks.drop_first()).1 =~= slot_tokens(q.low)
            + toks.drop_last());
    } else {
        let rest = toks.drop_first();
        lemma_normal_burst_squashes_predecessors(q1, dir, rest);
        let (q2, sq2) = spec_normal_burst(q1, dir, rest);
        assert(toks.last() == rest.last());
        assert(sq2 =~= slot_tokens(q1.low) + rest.drop_last());
        assert(slot_tokens(q1.low) =~= seq![toks[0]]);
        assert(sq1 + sq2 =~= slot_tokens(q.low) + (seq![toks[0]] + rest.drop_last()));
        assert(seq![toks[0]] + rest.drop_last() =~= toks.drop_last());
    }
}

/// A sequence of submissions folded over [`spec_request`], keeping each
/// caller's spawn decision.
pub open spec fn spec_submission_spawns(
    q: QueueV,
    reqs: Seq<(Seq<char>, BuildPriority, u64)>,
) -> Seq<bool>
    decreases reqs.len(),
{
    if reqs.len() == 0 {
        Seq::empty()
    } else {
        let (q1, _sq, spawn) = spec_request(q, reqs[0].0, reqs[0].1, reqs[0].2);
        seq![spawn] + spec_submission_spawns(q1, reqs.drop_first())
    }
}

/// Law: across any burst of submissions from any number of callers, the
/// `building` flag rises exactly once per busy period — only the caller that
/// found it clear is told to spawn the worker, and no later caller is, until
/// the worker itself has drained both slots and released the flag
/// ([`BuildQueue::next_build`] returning `Idle`). Two workers can therefore
/// never run at once.
pub proof fn lemma_worker_spawned_once(q: QueueV, reqs: Seq<(Seq<char>, BuildPriority, u64)>)
    ensures
        ({
            let sp = spec_submission_spawns(q, reqs);
            &&& sp.len() == reqs.len()
            &&& forall|i: int| 0 <= i < sp.len() ==> (sp[i] <==> (i == 0 && !q.building))
        }),
    decreases reqs.len(),
{
    if reqs.len() > 0 {
        let (q1, _sq, _spawn) = spec_request(q, reqs[0].0, reqs[0].1, reqs[0].2);
        assert(q1.building);
        lemma_worker_spawned_once(q1, reqs.drop_first());
        let sp = spec_submission_spawns(q, reqs);
        let sp1 = spec_submission_spawns(q1, reqs.drop_first());
        assert forall|i: int| 0 <= i < sp.len() implies (sp[i] <==> (i == 0 && !q.building)) by {
            if i > 0 {
                assert(sp[i] == sp1[i - 1]);
            }
        }
    }
}

/// A pending slot's snapshot is well-formed.
pub open spec fn pending_wf(s: Build) -> bool {
    match s {
        Build::Pending(b) => b.built_files.wf(),
        _ => true,
    }
}

} // verus!
