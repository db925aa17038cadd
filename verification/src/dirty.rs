//! Dirty-file tracking: a version-stamped record of files edited since they
//! were last successfully built.

use crate::assoc::{assoc_map, keys_unique, lemma_assoc_map_props, lemma_assoc_map_update};
use vstd::prelude::*;

verus! {

/// The dirty map a build leaves behind: an entry survives exactly when the
/// snapshot that triggered the build did not cover its version, i.e. an edit
/// landed after the snapshot was taken or the file was never in it.
pub open spec fn spec_reconcile(
    dirty: Map<Seq<char>, u64>,
    snapshot: Map<Seq<char>, u64>,
) -> Map<Seq<char>, u64> {
    Map::new(
        |f: Seq<char>| dirty.contains_key(f) && !covered(snapshot, f, dirty[f]),
        |f: Seq<char>| dirty[f],
    )
}

/// The snapshot recorded this file at a version at least as new as the dirty
/// entry: the build that used the snapshot covered the edit.
pub open spec fn covered(snapshot: Map<Seq<char>, u64>, f: Seq<char>, v: u64) -> bool {
    snapshot.contains_key(f) && snapshot[f] >= v
}

/// The entries surviving a reconciliation, in their original order.
pub open spec fn filter_entries(
    s: Seq<(String, u64)>,
    snapshot: Map<Seq<char>, u64>,
) -> Seq<(String, u64)>
    decreases s.len(),
{
    if s.len() == 0 {
        Seq::empty()
    } else {
        let t = filter_entries(s.drop_last(), snapshot);
        if !covered(snapshot, s.last().0@, s.last().1) {
            t.push(s.last())
        } else {
            t
        }
    }
}

/// The surviving entries keep distinct keys and denote exactly the
/// reconciled map.
pub proof fn lemma_filter_entries(s: Seq<(String, u64)>, snapshot: Map<Seq<char>, u64>)
    requires
        keys_unique(s),
    ensures
        keys_unique(filter_entries(s, snapshot)),
        assoc_map(filter_entries(s, snapshot)) == spec_reconcile(assoc_map(s), snapshot),
        forall|j: int|
            0 <= j < filter_entries(s, snapshot).len() ==> exists|a: int|
                0 <= a < s.len() && #[trigger] filter_entries(s, snapshot)[j] == s[a],
    decreases s.len(),
{
    let f = filter_entries(s, snapshot);
    if s.len() == 0 {
        assert(assoc_map(f) =~= spec_reconcile(assoc_map(s), snapshot));
    } else {
        let t = s.drop_last();
        let last = s.last();
        assert(keys_unique(t)) by {
            assert(forall|a: int| 0 <= a < t.len() ==> t[a] == s[a]);
        }
        lemma_filter_entries(t, snapshot);
        lemma_assoc_map_props(t);
        let ft = filter_entries(t, snapshot);
        assert(!assoc_map(t).contains_key(last.0@)) by {
            if assoc_map(t).contains_key(last.0@) {
                let a = choose|a: int| 0 <= a < t.len() && t[a].0@ == last.0@;
                assert(s[a].0@ == s[s.len() - 1].0@);
                assert(false);
            }
        }
        assert(forall|a: int| 0 <= a < t.len() ==> t[a] == s[a]);
        if !covered(snapshot, last.0@, last.1) {
            assert(f == ft.push(last));
            assert forall|j: int| 0 <= j < f.len() implies exists|a: int|
                0 <= a < s.len() && #[trigger] f[j] == s[a] by {
                if j < f.len() - 1 {
                    let a = choose|a: int| 0 <= a < t.len() && ft[j] == t[a];
                    assert(f[j] == s[a]);
                } else {
                    assert(f[j] == s[s.len() - 1]);
                }
            }
            assert(keys_unique(f)) by {
                assert forall|x: int, y: int| 0 <= x < y < f.len() implies f[x].0@ != f[y].0@ by {
                    if y == f.len() - 1 {
                        let a = choose|a: int| 0 <= a < t.len() && ft[x] == t[a];
                        assert(s[a].0@ != s[s.len() - 1].0@);
                    }
                }
            }
            assert(assoc_map(f) == assoc_map(ft).insert(last.0@, last.1)) by {
                assert(f.drop_last() =~= ft);
            }
            assert(assoc_map(f) =~= spec_reconcile(assoc_map(s), snapshot));
        } else {
            assert(f == ft);
            assert(assoc_map(f) =~= spec_reconcile(assoc_map(s), snapshot));
        }
    }
}

/// Set of files that were modified since the last build, each stamped with a
/// monotonically increasing edit version.
pub struct DirtyFileMap {
    entries: Vec<(String, u64)>,
}

impl View for DirtyFileMap {
    type V = Map<Seq<char>, u64>;

    closed spec fn view(&self) -> Map<Seq<char>, u64> {
        assoc_map(self.entries@)
    }
}

impl DirtyFileMap {
    pub closed spec fn wf(&self) -> bool {
        keys_unique(self.entries@)
    }

    pub fn new() -> (r: DirtyFileMap)
        ensures
            r@ == Map::<Seq<char>, u64>::empty(),
            r.wf(),
    {
        DirtyFileMap { entries: Vec::new() }
    }

    /// Records or overwrites the version at which `file` was last edited.
    #[verifier::loop_isolation(false)]
    pub fn insert(&mut self, file: String, version: u64)
        requires
            old(self).wf(),
        ensures
            final(self).wf(),
            final(self)@ == old(self)@.insert(file@, version),
    {
        let ghost s0 = self.entries@;
        let mut i: usize = 0;
        while i < self.entries.len()
            invariant
                self.entries@ == s0,
                0 <= i <= s0.len(),
                keys_unique(s0),
                forall|j: int| 0 <= j < i ==> s0[j].0@ != file@,
            decreases s0.len() - i,
        {
            if self.entries[i].0 == file {
                proof {
                    lemma_assoc_map_update(s0, i as int, file, version);
                }
                self.entries[i] = (file, version);
                return ;
            }
            i += 1;
        }
        self.entries.push((file, version));
        proof {
            assert(self.entries@.drop_last() =~= s0);
        }
    }

    /// The stored edit version of `file`, if it is dirty.
    pub fn get_version(&self, file: &String) -> (r: Option<u64>)
        requires
            self.wf(),
        ensures
            r == if self@.contains_key(file@) {
                Some(self@[file@])
            } else {
                None::<u64>
            },
    {
        proof {
            lemma_assoc_map_props(self.entries@);
        }
        let mut i: usize = 0;
        while i < self.entries.len()
            invariant
                self.wf(),
                0 <= i <= self.entries@.len(),
                forall|j: int| 0 <= j < i ==> self.entries@[j].0@ != file@,
            decreases self.entries@.len() - i,
        {
            let e = &self.entries[i];
            if e.0 == *file {
                proof {
                    lemma_assoc_map_props(self.entries@);
                }
                return Some(e.1);
            }
            i += 1;
        }
        proof {
            lemma_assoc_map_props(self.entries@);
        }
        None
    }

    /// An independent copy of the map, taken when a build request is enqueued.
    pub fn snapshot(&self) -> (r: DirtyFileMap)
        requires
            self.wf(),
        ensures
            r.wf(),
            r@ == self@,
    {
        let mut acc: Vec<(String, u64)> = Vec::new();
        let mut i: usize = 0;
        while i < self.entries.len()
            invariant
                self.wf(),
                0 <= i <= self.entries@.len(),
                acc@ =~= self.entries@.take(i as int),
            decreases self.entries@.len() - i,
        {
            let e = &self.entries[i];
            acc.push((e.0.clone(), e.1));
            i += 1;
            proof {
                assert(acc@ =~= self.entries@.take(i as int));
            }
        }
        proof {
            assert(acc@ =~= self.entries@);
        }
        DirtyFileMap { entries: acc }
    }

    /// The dirty file paths, for deciding what a build must cover.
    pub fn keys(&self) -> (r: Vec<String>)
        requires
            self.wf(),
        ensures
            forall|j: int| 0 <= j < r@.len() ==> self@.contains_key(#[trigger] r@[j]@),
            forall|k: Seq<char>|
                #[trigger] self@.contains_key(k) ==> exists|j: int| 0 <= j < r@.len() && r@[j]@ == k,
    {
        proof {
            lemma_assoc_map_props(self.entries@);
        }
        let mut r: Vec<String> = Vec::new();
        let mut i: usize = 0;
        while i < self.entries.len()
            invariant
                self.wf(),
                0 <= i <= self.entries@.len(),
                r@.len() == i,
                forall|j: int| 0 <= j < i ==> #[trigger] r@[j]@ == self.entries@[j].0@,
            decreases self.entries@.len() - i,
        {
            let e = &self.entries[i];
            r.push(e.0.clone());
            i += 1;
        }
        proof {
            lemma_assoc_map_props(self.entries@);
            assert forall|k: Seq<char>| #[trigger] self@.contains_key(k) implies exists|j: int|
                0 <= j < r@.len() && r@[j]@ == k by {
                let i0 = choose|i0: int| 0 <= i0 < self.entries@.len() && self.entries@[i0].0@ == k;
                assert(r@[i0]@ == k);
            }
        }
        r
    }

    /// After a build that produced diagnostics, drops every entry whose
    /// version the build's snapshot covered; an edit that landed after the
    /// snapshot keeps its file dirty.
    #[verifier::loop_isolation(false)]
    pub fn reconcile(&mut self, snapshot: &DirtyFileMap)
        requires
            old(self).wf(),
            snapshot.wf(),
        ensures
            final(self).wf(),
            final(self)@ == spec_reconcile(old(self)@, snapshot@),
    {
        let ghost s0 = self.entries@;
        let mut acc: Vec<(String, u64)> = Vec::new();
        let mut i: usize = 0;
        while i < self.entries.len()
            invariant
                0 <= i <= s0.len(),
                acc@ == filter_entries(s0.take(i as int), snapshot@),
            decreases s0.len() - i,
        {
            let e = &self.entries[i];
            let keep = match snapshot.get_version(&e.0) {
                Option::Some(sv) => sv < e.1,
                Option::None => true,
            };
            if keep {
                acc.push((e.0.clone(), e.1));
            }
            i += 1;
            proof {
                assert(s0.take(i as int).drop_last() =~= s0.take(i - 1));
                assert(s0.take(i as int).last() == s0[i - 1]);
            }
        }
        proof {
            assert(s0.take(s0.len() as int) =~= s0);
            lemma_filter_entries(s0, snapshot@);
        }
        self.entries = acc;
    }
}

/// The dirty-tracking law: a build whose snapshot covered a file's version
/// clears that file, while a file edited after the snapshot was taken (so its
/// stored version exceeds the snapshot's) stays dirty with that newer version.
pub proof fn lemma_dirty_tracking(
    dirty: Map<Seq<char>, u64>,
    snapshot: Map<Seq<char>, u64>,
    f: Seq<char>,
)
    requires
        dirty.contains_key(f),
    ensures
        snapshot.contains_key(f) && snapshot[f] >= dirty[f] ==> !spec_reconcile(
            dirty,
            snapshot,
        ).contains_key(f),
        !(snapshot.contains_key(f) && snapshot[f] >= dirty[f]) ==> spec_reconcile(
            dirty,
            snapshot,
        ).contains_key(f) && spec_reconcile(dirty, snapshot)[f] == dirty[f],
{
}

} // verus!
