//! The build plan: a dependency graph of compilation units with a per-unit
//! cached invocation, enabling rebuilds that skip a full resolution pass.
//!
//! Units are registered in resolution order, and an edge may only point at an
//! already-registered unit; the registration order is therefore a topological
//! order of the dependency graph, and emitting work in that order runs every
//! unit after all of its dependencies.

use vstd::prelude::*;

verus! {

/// One compilation unit of the plan.
pub struct PlanUnit {
    /// Identifier the build-system adapter assigned to the unit.
    pub unit: u64,
    /// The compiler invocation cached for the unit during the last full
    /// resolution pass, if one was recorded.
    pub invocation: Option<String>,
    /// Identifiers of units this one depends on; each is registered earlier.
    pub deps: Vec<u64>,
    /// Whether the unit belongs to the project under direct edit (a tracked,
    /// primary unit), as opposed to an external dependency.
    pub primary: bool,
    /// Source files the unit owns, for mapping changed files to units.
    pub files: Vec<String>,
}

/// One entry of the incremental work list: a unit and its cached invocation.
pub struct Job {
    pub unit: u64,
    pub invocation: String,
}

/// What `prepare_work` decided.
pub enum WorkStatus {
    /// The plan cannot answer incrementally; a full resolution pass through
    /// the external build-system adapter is required.
    NeedsFullResolution,
    /// Run these cached invocations directly, in order.
    Execute(Vec<Job>),
}

/// Some primary unit of the plan owns this file.
pub open spec fn file_owned_primary(units: Seq<PlanUnit>, f: Seq<char>) -> bool {
    exists|i: int, j: int|
        0 <= i < units.len() && units[i].primary && 0 <= j < units[i].files@.len()
            && units[i].files@[j]@ == f
}

/// The unit owns one of the changed files.
pub open spec fn unit_hit(u: PlanUnit, changed: Seq<String>) -> bool {
    exists|j: int, c: int|
        0 <= j < u.files@.len() && 0 <= c < changed.len() && u.files@[j]@ == changed[c]@
}

/// Some dependency of `units[i]` is already marked affected.
pub open spec fn dep_marked(units: Seq<PlanUnit>, marks: Seq<bool>, i: int) -> bool {
    exists|d: int, j: int|
        0 <= d < units[i].deps@.len() && 0 <= j < i && units[j].unit == units[i].deps@[d]
            && marks[j]
}

/// Affected-unit marks for the first `n` units: a unit is affected when it
/// owns a changed file or depends on an affected unit.
pub open spec fn spec_marks(units: Seq<PlanUnit>, changed: Seq<String>, n: int) -> Seq<bool>
    decreases n,
{
    if n <= 0 {
        Seq::empty()
    } else {
        let m = spec_marks(units, changed, n - 1);
        m.push(unit_hit(units[n - 1], changed) || dep_marked(units, m, n - 1))
    }
}

/// The work list built from the marks: affected primary units in registration
/// order, each with its cached invocation's text.
pub open spec fn spec_jobs(units: Seq<PlanUnit>, marks: Seq<bool>, n: int) -> Seq<(u64, Seq<char>)>
    decreases n,
{
    if n <= 0 {
        Seq::empty()
    } else {
        let js = spec_jobs(units, marks, n - 1);
        if marks[n - 1] && units[n - 1].primary {
            js.push((units[n - 1].unit, units[n - 1].invocation->0@))
        } else {
            js
        }
    }
}

/// A changed file that no primary unit owns forces a full resolution pass.
pub open spec fn changed_outside_plan(units: Seq<PlanUnit>, changed: Seq<String>) -> bool {
    exists|c: int| 0 <= c < changed.len() && !file_owned_primary(units, changed[c]@)
}

/// An affected primary unit without a cached invocation forces a full
/// resolution pass.
pub open spec fn missing_invocation(units: Seq<PlanUnit>, marks: Seq<bool>) -> bool {
    exists|i: int|
        0 <= i < units.len() && marks[i] && units[i].primary && units[i].invocation is None
}

/// `prepare_work` answers incrementally only when the plan is populated,
/// every changed file is owned by a primary unit, and every affected primary
/// unit still has its cached invocation.
pub open spec fn can_execute(units: Seq<PlanUnit>, changed: Seq<String>) -> bool {
    &&& units.len() > 0
    &&& !changed_outside_plan(units, changed)
    &&& !missing_invocation(units, spec_marks(units, changed, units.len() as int))
}

/// The edge `unit -> depends_on` is recorded: the filter accepted it and both
/// ends are registered, the dependency first.
pub open spec fn edge_added(
    units: Seq<PlanUnit>,
    unit: u64,
    depends_on: u64,
    accepted: bool,
) -> bool {
    &&& accepted
    &&& exists|iu: int, id: int|
        0 <= id < iu < units.len() && units[iu].unit == unit && units[id].unit == depends_on
}

/// Some unit among the first `k` has this identifier.
pub open spec fn unit_before(units: Seq<PlanUnit>, k: int, u: u64) -> bool {
    exists|j: int| 0 <= j < k && units[j].unit == u
}

/// Unit identifiers are distinct, and every edge points at an earlier unit:
/// registration order is a topological order of the dependency graph.
pub open spec fn plan_wf(units: Seq<PlanUnit>) -> bool {
    &&& forall|i: int, j: int| 0 <= i < j < units.len() ==> units[i].unit != units[j].unit
    &&& forall|i: int, d: int|
        0 <= i < units.len() && 0 <= d < units[i].deps@.len() ==> unit_before(
            units,
            i,
            #[trigger] units[i].deps@[d],
        )
}

proof fn lemma_unit_before_prefix(a: Seq<PlanUnit>, b: Seq<PlanUnit>, k: int, u: u64)
    requires
        0 <= k <= a.len(),
        k <= b.len(),
        forall|j: int| 0 <= j < k ==> a[j].unit == #[trigger] b[j].unit,
        unit_before(a, k, u),
    ensures
        unit_before(b, k, u),
{
    let j = choose|j: int| 0 <= j < k && a[j].unit == u;
    assert(b[j].unit == u);
}

pub struct Plan {
    units: Vec<PlanUnit>,
}

impl View for Plan {
    type V = Seq<PlanUnit>;

    closed spec fn view(&self) -> Seq<PlanUnit> {
        self.units@
    }
}

impl Plan {
    /// The plan's graph invariant; see [`plan_wf`].
    pub open spec fn wf(&self) -> bool {
        plan_wf(self@)
    }

    pub fn new() -> (r: Plan)
        ensures
            r.wf(),
            r@ =~= Seq::<PlanUnit>::empty(),
    {
        Plan { units: Vec::new() }
    }

    /// Discards the graph before a new full resolution pass repopulates it.
    pub fn clear(&mut self)
        ensures
            final(self).wf(),
            final(self)@ =~= Seq::<PlanUnit>::empty(),
    {
        self.units = Vec::new();
    }

    pub fn is_empty(&self) -> (r: bool)
        ensures
            r == (self@.len() == 0),
    {
        self.units.len() == 0
    }

    /// The index of a unit, if it is registered.
    fn find_unit(&self, unit: u64) -> (r: Option<usize>)
        ensures
            r matches Some(i) ==> i < self@.len() && self@[i as int].unit == unit,
            r is None ==> forall|i: int| 0 <= i < self@.len() ==> self@[i].unit != unit,
    {
        let mut i: usize = 0;
        while i < self.units.len()
            invariant
                0 <= i <= self@.len(),
                forall|j: int| 0 <= j < i ==> self@[j].unit != unit,
            decreases self@.len() - i,
        {
            if self.units[i].unit == unit {
                return Some(i);
            }
            i += 1;
        }
        None
    }

    /// Registers a unit encountered during a full resolution pass, with the
    /// files it owns; a unit already registered is left as it is.
    pub fn emplace_unit(&mut self, unit: u64, primary: bool, files: Vec<String>)
        requires
            old(self).wf(),
        ensures
            final(self).wf(),
            (exists|i: int| 0 <= i < old(self)@.len() && old(self)@[i].unit == unit) ==> final(self)@ == old(self)@,
            (forall|i: int| 0 <= i < old(self)@.len() ==> old(self)@[i].unit != unit) ==> ({
                &&& final(self)@.len() == old(self)@.len() + 1
                &&& forall|j: int| 0 <= j < old(self)@.len() ==> final(self)@[j] == old(self)@[j]
                &&& final(self)@.last().unit == unit
                &&& final(self)@.last().invocation is None
                &&& final(self)@.last().deps@ =~= Seq::<u64>::empty()
                &&& final(self)@.last().primary == primary
                &&& final(self)@.last().files == files
            }),
    {
        let ghost pre = self@;
        match self.find_unit(unit) {
            Option::Some(_) => {},
            Option::None => {
                self.units.push(
                    PlanUnit { unit, invocation: Option::None, deps: Vec::new(), primary, files },
                );
                proof {
                    assert forall|a: int, b: int| 0 <= a < b < self@.len() implies self@[a].unit
                        != self@[b].unit by {
                        if b == self@.len() - 1 {
                            assert(self@[a] == pre[a]);
                            assert(pre[a].unit != unit);
                        } else {
                            assert(self@[a] == pre[a] && self@[b] == pre[b]);
                        }
                    }
                    assert forall|i: int, d: int|
                        0 <= i < self@.len() && 0 <= d < self@[i].deps@.len() implies unit_before(
                        self@,
                        i,
                        #[trigger] self@[i].deps@[d],
                    ) by {
                        if i < pre.len() {
                            assert(self@[i] == pre[i]);
                            assert(unit_before(pre, i, pre[i].deps@[d]));
                            lemma_unit_before_prefix(pre, self@, i, pre[i].deps@[d]);
                        } else {
                            assert(self@[i].deps@.len() == 0);
                        }
                    }
                }
            },
        }
    }

    /// Adds the edge `unit -> depends_on`, but only when the caller's filter
    /// accepted the dependency and both units are already registered with the
    /// dependency first — the filter keeps the graph bounded to primary,
    /// first-party code, and the order keeps registration topological.
    pub fn record_dependency(&mut self, unit: u64, depends_on: u64, accepted: bool)
        requires
            old(self).wf(),
        ensures
            final(self).wf(),
            final(self)@.len() == old(self)@.len(),
            forall|j: int|
                0 <= j < old(self)@.len() && old(self)@[j].unit != unit ==> final(self)@[j] == old(
                    self,
                )@[j],
            forall|j: int|
                0 <= j < old(self)@.len() && old(self)@[j].unit == unit ==> ({
                    let n0 = old(self)@[j];
                    let n1 = final(self)@[j];
                    &&& n1.unit == n0.unit
                    &&& n1.invocation == n0.invocation
                    &&& n1.primary == n0.primary
                    &&& n1.files == n0.files
                    &&& if edge_added(old(self)@, unit, depends_on, accepted) {
                        n1.deps@ == n0.deps@.push(depends_on)
                    } else {
                        n1 == n0
                    }
                }),
    {
        if !accepted {
            return ;
        }
        let iu = match self.find_unit(unit) {
            Option::Some(i) => i,
            Option::None => {
                return ;
            },
        };
        let id = match self.find_unit(depends_on) {
            Option::Some(i) => i,
            Option::None => {
                return ;
            },
        };
        if id >= iu {
            proof {
                if edge_added(self@, unit, depends_on, accepted) {
                    let (iu_w, id_w) = choose|iu_w: int, id_w: int|
                        0 <= id_w < iu_w < self@.len() && self@[iu_w].unit == unit
                            && self@[id_w].unit == depends_on;
                    assert(iu_w == iu as int);
                    assert(id_w == id as int);
                    assert(false);
                }
            }
            return ;
        }
        let ghost pre = self@;
        let mut node = self.units.remove(iu);
        node.deps.push(depends_on);
        self.units.insert(iu, node);
        proof {
            assert(self@.len() == pre.len());
            assert(forall|j: int| 0 <= j < pre.len() && j != iu as int ==> self@[j] == pre[j]);
            assert(forall|j: int| 0 <= j < pre.len() && pre[j].unit == unit ==> j == iu as int);
            assert(edge_added(pre, unit, depends_on, accepted));
            assert(forall|x: int| #![auto] 0 <= x < pre.len() ==> self@[x].unit == pre[x].unit);
            assert(self@[iu as int].deps@ == pre[iu as int].deps@.push(depends_on));
            assert forall|i: int, d: int|
                0 <= i < self@.len() && 0 <= d < self@[i].deps@.len() implies unit_before(
                self@,
                i,
                #[trigger] self@[i].deps@[d],
            ) by {
                if i == iu as int && d == pre[iu as int].deps@.len() {
                    assert(self@[i].deps@[d] == depends_on);
                    assert(self@[id as int].unit == depends_on);
                    assert(unit_before(self@, i, depends_on));
                } else {
                    assert(self@[i].deps@[d] == pre[i].deps@[d]);
                    assert(unit_before(pre, i, pre[i].deps@[d]));
                    lemma_unit_before_prefix(pre, self@, i, pre[i].deps@[d]);
                }
            }
        }
    }

    /// Stores or overwrites a unit's invocation, captured during a full
    /// resolution pass; unknown units are ignored.
    pub fn cache_invocation(&mut self, unit: u64, invocation: String)
        requires
            old(self).wf(),
        ensures
            final(self).wf(),
            final(self)@.len() == old(self)@.len(),
            forall|j: int|
                0 <= j < old(self)@.len() && old(self)@[j].unit != unit ==> final(self)@[j] == old(
                    self,
                )@[j],
            forall|j: int|
                0 <= j < old(self)@.len() && old(self)@[j].unit == unit ==> ({
                    let n0 = old(self)@[j];
                    let n1 = final(self)@[j];
                    &&& n1.unit == n0.unit
                    &&& n1.invocation == Option::Some(invocation)
                    &&& n1.deps == n0.deps
                    &&& n1.primary == n0.primary
                    &&& n1.files == n0.files
                }),
    {
        let i = match self.find_unit(unit) {
            Option::Some(i) => i,
            Option::None => {
                return ;
            },
        };
        let ghost pre = self@;
        let mut node = self.units.remove(i);
        node.invocation = Some(invocation);
        self.units.insert(i, node);
        proof {
            assert(self@.len() == pre.len());
            assert(forall|j: int| 0 <= j < pre.len() && j != i as int ==> self@[j] == pre[j]);
            assert(forall|j: int| 0 <= j < pre.len() && pre[j].unit == unit ==> j == i as int);
            assert(forall|x: int| #![auto] 0 <= x < pre.len() ==> self@[x].unit == pre[x].unit);
            assert(self@[i as int].deps@ == pre[i as int].deps@);
            assert forall|a: int, d: int|
                0 <= a < self@.len() && 0 <= d < self@[a].deps@.len() implies unit_before(
                self@,
                a,
                #[trigger] self@[a].deps@[d],
            ) by {
                assert(self@[a].deps@[d] == pre[a].deps@[d]);
                assert(unit_before(pre, a, pre[a].deps@[d]));
                lemma_unit_before_prefix(pre, self@, a, pre[a].deps@[d]);
            }
        }
    }

    /// Whether some primary unit of the plan owns `f`.
    fn file_has_primary_owner(&self, f: &String) -> (r: bool)
        ensures
            r == file_owned_primary(self@, f@),
    {
        let mut i: usize = 0;
        while i < self.units.len()
            invariant
                0 <= i <= self@.len(),
                forall|i0: int, j0: int|
                    0 <= i0 < i && self@[i0].primary && 0 <= j0 < self@[i0].files@.len()
                        ==> self@[i0].files@[j0]@ != f@,
            decreases self@.len() - i,
        {
            if self.units[i].primary {
                let mut j: usize = 0;
                while j < self.units[i].files.len()
                    invariant
                        0 <= i < self@.len(),
                        0 <= j <= self@[i as int].files@.len(),
                        self@[i as int].primary,
                        forall|j0: int|
                            0 <= j0 < j ==> self@[i as int].files@[j0]@ != f@,
                    decreases self@[i as int].files@.len() - j,
                {
                    if self.units[i].files[j] == *f {
                        proof {
                            assert(self@[i as int].files@[j as int]@ == f@);
                        }
                        return true;
                    }
                    j += 1;
                }
            }
            i += 1;
        }
        proof {
            assert(!file_owned_primary(self@, f@));
        }
        false
    }

    /// Whether the unit at `i` owns one of the changed files.
    fn unit_owns_changed(&self, i: usize, changed: &Vec<String>) -> (r: bool)
        requires
            i < self@.len(),
        ensures
            r == unit_hit(self@[i as int], changed@),
    {
        let mut j: usize = 0;
        while j < self.units[i].files.len()
            invariant
                0 <= i < self@.len(),
                0 <= j <= self@[i as int].files@.len(),
                forall|j0: int, c0: int|
                    0 <= j0 < j && 0 <= c0 < changed@.len() ==> self@[i as int].files@[j0]@
                        != changed@[c0]@,
            decreases self@[i as int].files@.len() - j,
        {
            let mut c: usize = 0;
            while c < changed.len()
                invariant
                    0 <= i < self@.len(),
                    0 <= j < self@[i as int].files@.len(),
                    0 <= c <= changed@.len(),
                    forall|c0: int|
                        0 <= c0 < c ==> self@[i as int].files@[j as int]@ != changed@[c0]@,
                decreases changed@.len() - c,
            {
                if self.units[i].files[j] == changed[c] {
                    proof {
                        assert(self@[i as int].files@[j as int]@ == changed@[c as int]@);
                    }
                    return true;
                }
                c += 1;
            }
            j += 1;
        }
        proof {
            assert(!unit_hit(self@[i as int], changed@));
        }
        false
    }

    /// Whether some dependency of the unit at `i` is already marked.
    fn unit_dep_marked(&self, marks: &Vec<bool>, i: usize) -> (r: bool)
        requires
            i < self@.len(),
            i <= marks@.len(),
        ensures
            r == dep_marked(self@, marks@, i as int),
    {
        let mut d: usize = 0;
        while d < self.units[i].deps.len()
            invariant
                0 <= i < self@.len(),
                i <= marks@.len(),
                0 <= d <= self@[i as int].deps@.len(),
                forall|d0: int, j0: int|
                    0 <= d0 < d && 0 <= j0 < i ==> !(self@[j0].unit == self@[i as int].deps@[d0]
                        && marks@[j0]),
            decreases self@[i as int].deps@.len() - d,
        {
            let mut j: usize = 0;
            while j < i
                invariant
                    0 <= i < self@.len(),
                    i <= marks@.len(),
                    0 <= d < self@[i as int].deps@.len(),
                    0 <= j <= i,
                    forall|j0: int|
                        0 <= j0 < j ==> !(self@[j0].unit == self@[i as int].deps@[d as int]
                            && marks@[j0]),
                decreases i - j,
            {
                if self.units[j].unit == self.units[i].deps[d] && marks[j] {
                    proof {
                        assert(self@[j as int].unit == self@[i as int].deps@[d as int]
                            && marks@[j as int]);
                    }
                    return true;
                }
                j += 1;
            }
            d += 1;
        }
        proof {
            assert(!dep_marked(self@, marks@, i as int));
        }
        false
    }

    /// Maps the changed files to the units that own them and decides what a
    /// build must do: a full resolution pass when the plan is empty, a
    /// changed file falls outside the primary units, or an affected unit's
    /// invocation is missing; otherwise the affected primary units'
    /// cached invocations, in dependency order.
    #[verifier::loop_isolation(false)]
    pub fn prepare_work(&self, changed: &Vec<String>) -> (r: WorkStatus)
        requires
            self.wf(),
        ensures
            self@.len() == 0 ==> r is NeedsFullResolution,
            r is NeedsFullResolution <==> !can_execute(self@, changed@),
            r matches WorkStatus::Execute(jobs) ==> ({
                let js = spec_jobs(
                    self@,
                    spec_marks(self@, changed@, self@.len() as int),
                    self@.len() as int,
                );
                &&& jobs@.len() == js.len()
                &&& forall|k: int|
                    0 <= k < js.len() ==> (#[trigger] jobs@[k]).unit == js[k].0
                        && jobs@[k].invocation@ == js[k].1
            }),
    {
        let n = self.units.len();
        if n == 0 {
            return WorkStatus::NeedsFullResolution;
        }
        let mut c: usize = 0;
        while c < changed.len()
            invariant
                0 <= c <= changed@.len(),
                forall|c0: int| 0 <= c0 < c ==> file_owned_primary(self@, #[trigger] changed@[c0]@),
            decreases changed@.len() - c,
        {
            if !self.file_has_primary_owner(&changed[c]) {
                proof {
                    assert(!file_owned_primary(self@, changed@[c as int]@));
                    assert(changed_outside_plan(self@, changed@));
                }
                return WorkStatus::NeedsFullResolution;
            }
            c += 1;
        }
        proof {
            assert(!changed_outside_plan(self@, changed@));
        }
        let mut marks: Vec<bool> = Vec::new();
        let mut i: usize = 0;
        while i < n
            invariant
                0 <= i <= self@.len(),
                n == self@.len(),
                marks@ == spec_marks(self@, changed@, i as int),
                marks@.len() == i,
            decreases n - i,
        {
            let hit = self.unit_owns_changed(i, changed);
            let dep = self.unit_dep_marked(&marks, i);
            marks.push(hit || dep);
            i += 1;
        }
        let ghost mfull = spec_marks(self@, changed@, self@.len() as int);
        let mut jobs: Vec<Job> = Vec::new();
        let mut i2: usize = 0;
        while i2 < n
            invariant
                0 <= i2 <= self@.len(),
                n == self@.len(),
                marks@ == mfull,
                marks@.len() == n,
                self.wf(),
                forall|i0: int|
                    0 <= i0 < i2 && mfull[i0] && self@[i0].primary ==> self@[i0].invocation is Some,
                ({
                    let js = spec_jobs(self@, mfull, i2 as int);
                    &&& jobs@.len() == js.len()
                    &&& forall|k: int|
                        0 <= k < js.len() ==> (#[trigger] jobs@[k]).unit == js[k].0
                            && jobs@[k].invocation@ == js[k].1
                }),
            decreases n - i2,
        {
            if marks[i2] && self.units[i2].primary {
                match &self.units[i2].invocation {
                    Option::Some(inv) => {
                        jobs.push(Job { unit: self.units[i2].unit, invocation: inv.clone() });
                        proof {
                            assert(jobs@.last().unit == self@[i2 as int].unit);
                            assert(jobs@.last().invocation@ == self@[i2 as int].invocation->0@);
                            assert(forall|k: int|
                                0 <= k < jobs@.len() - 1 ==> jobs@[k]
                                    == #[trigger] jobs@.drop_last()[k]);
                        }
                    },
                    Option::None => {
                        proof {
                            assert(missing_invocation(self@, mfull));
                        }
                        return WorkStatus::NeedsFullResolution;
                    },
                }
            }
            i2 += 1;
            proof {
                let js_prev = spec_jobs(self@, mfull, i2 - 1);
                assert(spec_jobs(self@, mfull, i2 as int) == if mfull[i2 - 1] && self@[i2
                    - 1].primary {
                    js_prev.push((self@[i2 - 1].unit, self@[i2 - 1].invocation->0@))
                } else {
                    js_prev
                });
            }
        }
        proof {
            assert(!missing_invocation(self@, mfull));
            assert(can_execute(self@, changed@));
        }
        WorkStatus::Execute(jobs)
    }
}

/// Unit `a` of the plan names unit `b` among its dependencies.
pub open spec fn unit_depends(units: Seq<PlanUnit>, a: u64, b: u64) -> bool {
    exists|i: int, d: int|
        0 <= i < units.len() && units[i].unit == a && 0 <= d < units[i].deps@.len()
            && units[i].deps@[d] == b
}

proof fn lemma_jobs_sources(units: Seq<PlanUnit>, marks: Seq<bool>, n: int)
    requires
        plan_wf(units),
        0 <= n <= units.len(),
    ensures
        ({
            let js = spec_jobs(units, marks, n);
            &&& (forall|k: int|
                0 <= k < js.len() ==> exists|i: int|
                    0 <= i < n && units[i].unit == (#[trigger] js[k]).0)
            &&& (forall|k1: int, k2: int, i1: int, i2: int|
                #![trigger js[k1], js[k2], units[i1], units[i2]]
                0 <= k1 < k2 < js.len() && 0 <= i1 < units.len() && 0 <= i2 < units.len()
                    && units[i1].unit == js[k1].0 && units[i2].unit == js[k2].0 ==> i1 < i2)
        }),
    decreases n,
{
    if n > 0 {
        lemma_jobs_sources(units, marks, n - 1);
        let js0 = spec_jobs(units, marks, n - 1);
        let js = spec_jobs(units, marks, n);
        if marks[n - 1] && units[n - 1].primary {
            assert(js == js0.push((units[n - 1].unit, units[n - 1].invocation->0@)));
            assert forall|k: int| 0 <= k < js.len() implies exists|i: int|
                0 <= i < n && units[i].unit == (#[trigger] js[k]).0 by {
                if k < js0.len() {
                    assert(js[k] == js0[k]);
                    let i = choose|i: int| 0 <= i < n - 1 && units[i].unit == js0[k].0;
                    assert(0 <= i < n && units[i].unit == js[k].0);
                } else {
                    assert(units[n - 1].unit == js[k].0);
                }
            }
            assert forall|k1: int, k2: int, i1: int, i2: int|
                #![trigger js[k1], js[k2], units[i1], units[i2]]
                0 <= k1 < k2 < js.len() && 0 <= i1 < units.len() && 0 <= i2 < units.len()
                    && units[i1].unit == js[k1].0 && units[i2].unit == js[k2].0 implies i1
                < i2 by {
                assert(js[k1] == js0[k1]);
                if k2 < js0.len() {
                    assert(js[k2] == js0[k2]);
                } else {
                    assert(js[k2].0 == units[n - 1].unit);
                    assert(i2 == n - 1);
                    let s1 = choose|s1: int| 0 <= s1 < n - 1 && units[s1].unit == js0[k1].0;
                    assert(i1 == s1);
                }
            }
        } else {
            assert(js == js0);
        }
    }
}

/// Law: the work list respects dependency order — whenever one emitted
/// unit depends on another emitted unit, the dependency's cached invocation
/// comes earlier in the list, so a unit never runs before any of its
/// dependencies.
pub proof fn lemma_jobs_dependency_order(units: Seq<PlanUnit>, marks: Seq<bool>, n: int)
    requires
        plan_wf(units),
        0 <= n <= units.len(),
    ensures
        ({
            let js = spec_jobs(units, marks, n);
            forall|p: int, q: int|
                0 <= p < js.len() && 0 <= q < js.len() && #[trigger] unit_depends(
                    units,
                    js[p].0,
                    js[q].0,
                ) ==> q < p
        }),
{
    lemma_jobs_sources(units, marks, n);
    let js = spec_jobs(units, marks, n);
    assert forall|p: int, q: int|
        0 <= p < js.len() && 0 <= q < js.len() && #[trigger] unit_depends(units, js[p].0, js[q].0)
        implies q < p by {
        let (i, d) = choose|i: int, d: int|
            0 <= i < units.len() && units[i].unit == js[p].0 && 0 <= d < units[i].deps@.len()
                && units[i].deps@[d] == js[q].0;
        assert(unit_before(units, i, units[i].deps@[d]));
        let jdep = choose|j: int| 0 <= j < i && units[j].unit == units[i].deps@[d];
        let ip = choose|ip: int| 0 <= ip < n && units[ip].unit == js[p].0;
        let iq = choose|iq: int| 0 <= iq < n && units[iq].unit == js[q].0;
        assert(ip == i);
        assert(iq == jdep);
        if q > p {
            assert(ip < iq);
            assert(false);
        }
        if q == p {
            assert(iq == ip);
            assert(false);
        }
    }
}

} // verus!
