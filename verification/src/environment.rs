//! The environment table and its override bookkeeping.
//!
//! Process environment variables are global, shared by every concurrent
//! external invocation. All access for external invocations is funnelled
//! through one [`EnvironmentLock`], whose exclusive borrow stands for the
//! process-wide guard: while one invocation holds `&mut` access, no other can
//! read or write the table, and any override it installs is undone — the
//! prior value or absence restored — before the access is given up.

use crate::assoc::{assoc_map, keys_unique, lemma_assoc_map_props, lemma_assoc_map_remove,
    lemma_assoc_map_update};
use vstd::prelude::*;

verus! {

/// One override applied to the table: `Some` sets the variable, `None`
/// removes it.
pub open spec fn apply_one(
    m: Map<Seq<char>, String>,
    k: Seq<char>,
    v: Option<String>,
) -> Map<Seq<char>, String> {
    match v {
        Option::Some(s) => m.insert(k, s),
        Option::None => m.remove(k),
    }
}

/// A list of overrides applied first to last.
pub open spec fn apply_all(
    m: Map<Seq<char>, String>,
    cs: Seq<(String, Option<String>)>,
) -> Map<Seq<char>, String>
    decreases cs.len(),
{
    if cs.len() == 0 {
        m
    } else {
        apply_all(apply_one(m, cs[0].0@, cs[0].1), cs.drop_first())
    }
}

/// The prior bindings a list of overrides displaces, in application order;
/// each keeps the override's own key string.
pub open spec fn saved_values(
    m: Map<Seq<char>, String>,
    cs: Seq<(String, Option<String>)>,
) -> Seq<(String, Option<String>)>
    decreases cs.len(),
{
    if cs.len() == 0 {
        Seq::empty()
    } else {
        seq![
            (
                cs[0].0,
                if m.contains_key(cs[0].0@) {
                    Option::Some(m[cs[0].0@])
                } else {
                    Option::None
                },
            ),
        ] + saved_values(apply_one(m, cs[0].0@, cs[0].1), cs.drop_first())
    }
}

/// Saved bindings put back, last to first.
pub open spec fn restore_all(
    m: Map<Seq<char>, String>,
    saved: Seq<(String, Option<String>)>,
) -> Map<Seq<char>, String>
    decreases saved.len(),
{
    if saved.len() == 0 {
        m
    } else {
        restore_all(apply_one(m, saved.last().0@, saved.last().1), saved.drop_last())
    }
}

proof fn lemma_restore_unsnoc(
    m: Map<Seq<char>, String>,
    x: (String, Option<String>),
    s: Seq<(String, Option<String>)>,
)
    ensures
        restore_all(m, seq![x] + s) == apply_one(restore_all(m, s), x.0@, x.1),
    decreases s.len(),
{
    let w = seq![x] + s;
    if s.len() == 0 {
        assert(w.drop_last() =~= Seq::<(String, Option<String>)>::empty());
        assert(w.last() == x);
        let m1 = apply_one(m, x.0@, x.1);
        assert(restore_all(m1, Seq::<(String, Option<String>)>::empty()) == m1);
        assert(restore_all(m, w) == restore_all(m1, w.drop_last()));
        assert(restore_all(m, s) == m);
    } else {
        assert(w.last() == s.last());
        assert(w.drop_last() =~= seq![x] + s.drop_last());
        let m2 = apply_one(m, s.last().0@, s.last().1);
        lemma_restore_unsnoc(m2, x, s.drop_last());
        assert(restore_all(m, w) == restore_all(m2, seq![x] + s.drop_last()));
        assert(restore_all(m, s) == restore_all(m2, s.drop_last()));
    }
}

/// Restoration law: applying a list of overrides and then putting the saved
/// bindings back, last to first, leaves the table exactly as it was — on
/// every exit path an invocation restores what it overrode.
pub proof fn lemma_overrides_restored(
    m: Map<Seq<char>, String>,
    cs: Seq<(String, Option<String>)>,
)
    ensures
        restore_all(apply_all(m, cs), saved_values(m, cs)) == m,
    decreases cs.len(),
{
    if cs.len() > 0 {
        let k = cs[0].0@;
        let m1 = apply_one(m, k, cs[0].1);
        let rest = cs.drop_first();
        lemma_overrides_restored(m1, rest);
        let s0 = (
            cs[0].0,
            if m.contains_key(k) {
                Option::Some(m[k])
            } else {
                Option::<String>::None
            },
        );
        lemma_restore_unsnoc(apply_all(m1, rest), s0, saved_values(m1, rest));
        assert(restore_all(apply_all(m, cs), saved_values(m, cs)) == apply_one(
            restore_all(apply_all(m1, rest), saved_values(m1, rest)),
            s0.0@,
            s0.1,
        ));
        assert(apply_one(m1, s0.0@, s0.1) =~= m);
    }
}

/// The process environment, modelled as the finite map of set variables.
pub struct EnvironmentLock {
    entries: Vec<(String, String)>,
}

impl View for EnvironmentLock {
    type V = Map<Seq<char>, String>;

    closed spec fn view(&self) -> Map<Seq<char>, String> {
        assoc_map(self.entries@)
    }
}

impl EnvironmentLock {
    pub closed spec fn wf(&self) -> bool {
        keys_unique(self.entries@)
    }

    pub fn new() -> (r: EnvironmentLock)
        ensures
            r.wf(),
            r@ == Map::<Seq<char>, String>::empty(),
    {
        EnvironmentLock { entries: Vec::new() }
    }

    /// Reads one variable under the lock.
    pub fn get_var(&self, name: &String) -> (r: Option<String>)
        requires
            self.wf(),
        ensures
            r == if self@.contains_key(name@) {
                Option::Some(self@[name@])
            } else {
                Option::<String>::None
            },
    {
        proof {
            lemma_assoc_map_props(self.entries@);
        }
        let mut i: usize = 0;
        while i < self.entries.len()
            invariant
                self.wf(),
                0 <= i <= self.entries@.len(),
                forall|j: int| 0 <= j < i ==> self.entries@[j].0@ != name@,
            decreases self.entries@.len() - i,
        {
            let e = &self.entries[i];
            if e.0 == *name {
                proof {
                    lemma_assoc_map_props(self.entries@);
                }
                return Some(e.1.clone());
            }
            i += 1;
        }
        proof {
            lemma_assoc_map_props(self.entries@);
        }
        None
    }

    /// Writes or removes one variable under the lock.
    #[verifier::loop_isolation(false)]
    pub fn set_var(&mut self, name: String, value: Option<String>)
        requires
            old(self).wf(),
        ensures
            final(self).wf(),
            final(self)@ == apply_one(old(self)@, name@, value),
    {
        let ghost s0 = self.entries@;
        proof {
            lemma_assoc_map_props(s0);
        }
        let mut i: usize = 0;
        while i < self.entries.len()
            invariant
                self.entries@ == s0,
                0 <= i <= s0.len(),
                forall|j: int| 0 <= j < i ==> s0[j].0@ != name@,
            decreases s0.len() - i,
        {
            let e = &self.entries[i];
            if e.0 == name {
                match value {
                    Option::Some(v) => {
                        proof {
                            lemma_assoc_map_update(s0, i as int, name, v);
                        }
                        self.entries[i] = (name, v);
                    },
                    Option::None => {
                        proof {
                            lemma_assoc_map_remove(s0, i as int);
                        }
                        self.entries.remove(i);
                    },
                }
                return ;
            }
            i += 1;
        }
        match value {
            Option::Some(v) => {
                self.entries.push((name, v));
                proof {
                    assert(self.entries@.drop_last() =~= s0);
                }
            },
            Option::None => {
                proof {
                    assert(!self@.contains_key(name@));
                    assert(assoc_map(s0).remove(name@) =~= assoc_map(s0));
                }
            },
        }
    }

    /// Installs a set of overrides for one external invocation and hands back
    /// the displaced bindings, to be restored when the invocation ends.
    #[verifier::loop_isolation(false)]
    pub fn push_overrides(&mut self, changes: &Vec<(String, Option<String>)>) -> (saved: Vec<
        (String, Option<String>),
    >)
        requires
            old(self).wf(),
        ensures
            final(self).wf(),
            final(self)@ == apply_all(old(self)@, changes@),
            saved@ == saved_values(old(self)@, changes@),
    {
        let ghost cs = changes@;
        let mut saved: Vec<(String, Option<String>)> = Vec::new();
        let mut i: usize = 0;
        proof {
            assert(cs.skip(0) =~= cs);
            assert(saved@ + saved_values(self@, cs) =~= saved_values(self@, cs));
        }
        while i < changes.len()
            invariant
                0 <= i <= cs.len(),
                self.wf(),
                apply_all(old(self)@, cs) == apply_all(self@, cs.skip(i as int)),
                saved_values(old(self)@, cs) =~= saved@ + saved_values(self@, cs.skip(i as int)),
            decreases cs.len() - i,
        {
            let e = &changes[i];
            let prior = self.get_var(&e.0);
            let ghost pre = self@;
            saved.push((e.0.clone(), prior));
            self.set_var(e.0.clone(), match &e.1 {
                Option::Some(v) => Option::Some(v.clone()),
                Option::None => Option::None,
            });
            i += 1;
            proof {
                let tail = cs.skip(i - 1);
                assert(tail[0] == cs[i - 1]);
                assert(tail.drop_first() =~= cs.skip(i as int));
                assert(cs[i - 1] == *e);
                assert(self@ == apply_one(pre, cs[i - 1].0@, cs[i - 1].1));
                assert(saved_values(pre, tail) == seq![
                    (
                        cs[i - 1].0,
                        if pre.contains_key(cs[i - 1].0@) {
                            Option::Some(pre[cs[i - 1].0@])
                        } else {
                            Option::<String>::None
                        },
                    ),
                ] + saved_values(self@, cs.skip(i as int)));
                assert(saved@.last() == (
                    cs[i - 1].0,
                    if pre.contains_key(cs[i - 1].0@) {
                        Option::Some(pre[cs[i - 1].0@])
                    } else {
                        Option::<String>::None
                    },
                ));
            }
        }
        proof {
            assert(cs.skip(cs.len() as int) =~= Seq::<(String, Option<String>)>::empty());
            assert(saved@ + saved_values(self@, Seq::empty()) =~= saved@);
        }
        saved
    }

    /// Puts the displaced bindings back, last to first; with the matching
    /// `push_overrides` this restores the table exactly (see
    /// [`lemma_overrides_restored`]).
    #[verifier::loop_isolation(false)]
    pub fn restore_overrides(&mut self, saved: Vec<(String, Option<String>)>)
        requires
            old(self).wf(),
        ensures
            final(self).wf(),
            final(self)@ == restore_all(old(self)@, saved@),
    {
        let ghost sv = saved@;
        let mut j: usize = saved.len();
        proof {
            assert(sv.take(sv.len() as int) =~= sv);
        }
        while j > 0
            invariant
                0 <= j <= sv.len(),
                self.wf(),
                restore_all(old(self)@, sv) == restore_all(self@, sv.take(j as int)),
            decreases j,
        {
            let e = &saved[j - 1];
            let ghost pre = self@;
            self.set_var(e.0.clone(), match &e.1 {
                Option::Some(v) => Option::Some(v.clone()),
                Option::None => Option::None,
            });
            j -= 1;
            proof {
                let w = sv.take(j + 1);
                assert(w.last() == sv[j as int]);
                assert(w.drop_last() =~= sv.take(j as int));
                assert(sv[j as int] == *e);
                assert(self@ == apply_one(pre, sv[j as int].0@, sv[j as int].1));
            }
        }
        proof {
            assert(sv.take(0) =~= Seq::<(String, Option<String>)>::empty());
        }
    }
}

} // verus!
