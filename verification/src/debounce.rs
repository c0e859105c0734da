//! Debounce coalescer: collapses bursts of change events per path and
//! releases a path only after it has been quiet for a full stabilization
//! window. Each path is in one of two states: idle (unknown to the
//! coalescer) or watching (present in the last-seen map with exactly one
//! outstanding timer). Time is carried as milliseconds on some monotonic
//! clock chosen by the caller.

use vstd::prelude::*;

use crate::seq_set::{
    distinct, lemma_insert_member, lemma_remove_absent, lemma_to_set_push, lemma_to_set_remove,
};

verus! {

/// What a woken stabilization timer must do next.
#[derive(Clone, Copy, PartialEq, Eq, Structural, Debug)]
pub enum TimerVerdict {
    /// The path vanished from the last-seen map: abandon silently, no upload.
    Abandoned,
    /// A newer event arrived during the wait: sleep again for the given
    /// number of milliseconds, then ask again.
    Wait(u64),
    /// The path has been quiet for the whole window: hand it on.
    Stable,
}

/// Mathematical value of a [`Debouncer`].
pub ghost struct DebounceView {
    /// Most recent observed event time per watched path.
    pub last_seen: Map<Seq<char>, u64>,
    /// Paths that currently have an outstanding stabilization timer.
    pub active: Set<Seq<char>>,
}

/// Per-path debounce state: the last-seen map and the set of paths with an
/// outstanding timer.
pub struct Debouncer {
    last_seen: Vec<(String, u64)>,
    active: Vec<String>,
}

spec fn uniq_keys(s: Seq<(String, u64)>) -> bool {
    forall|i: int, j: int| #![trigger s[i], s[j]] 0 <= i < j < s.len() ==> s[i].0@ != s[j].0@
}

spec fn has_key(s: Seq<(String, u64)>, k: Seq<char>) -> bool {
    exists|i: int| 0 <= i < s.len() && (#[trigger] s[i]).0@ == k
}

spec fn idx_of(s: Seq<(String, u64)>, k: Seq<char>) -> int {
    choose|i: int| 0 <= i < s.len() && (#[trigger] s[i]).0@ == k
}

spec fn map_of(s: Seq<(String, u64)>) -> Map<Seq<char>, u64> {
    Map::new(|k: Seq<char>| has_key(s, k), |k: Seq<char>| s[idx_of(s, k)].1)
}

/// With unique keys, the entry at `i` is what the map yields for its key.
proof fn lemma_map_of_lookup(s: Seq<(String, u64)>, i: int)
    requires
        uniq_keys(s),
        0 <= i < s.len(),
    ensures
        map_of(s).contains_key(s[i].0@),
        map_of(s)[s[i].0@] == s[i].1,
{
    assert(has_key(s, s[i].0@));
    let w = idx_of(s, s[i].0@);
    assert(0 <= w < s.len() && s[w].0@ == s[i].0@);
    assert(w == i);
}

/// Removing the entry at `i` removes exactly its key from the map.
proof fn lemma_map_of_remove(s: Seq<(String, u64)>, i: int)
    requires
        uniq_keys(s),
        0 <= i < s.len(),
    ensures
        map_of(s.remove(i)) == map_of(s).remove(s[i].0@),
        uniq_keys(s.remove(i)),
        !has_key(s.remove(i), s[i].0@),
{
    let t = s.remove(i);
    let k = s[i].0@;
    assert forall|p: int, q: int| #![trigger t[p], t[q]] 0 <= p < q < t.len() implies t[p].0@
        != t[q].0@ by {
        if q < i {
            assert(t[p] == s[p] && t[q] == s[q]);
        } else if p < i {
            assert(t[p] == s[p] && t[q] == s[q + 1]);
        } else {
            assert(t[p] == s[p + 1] && t[q] == s[q + 1]);
        }
    }
    assert forall|w: int| 0 <= w < t.len() implies (#[trigger] t[w]).0@ != k by {
        if w < i {
            assert(t[w] == s[w]);
        } else {
            assert(t[w] == s[w + 1]);
        }
    }
    assert forall|k2: Seq<char>| #[trigger] map_of(t).contains_key(k2) implies map_of(s).remove(
        k,
    ).contains_key(k2) && map_of(t)[k2] == map_of(s).remove(k)[k2] by {
        let w = choose|w: int| 0 <= w < t.len() && (#[trigger] t[w]).0@ == k2;
        lemma_map_of_lookup(t, w);
        if w < i {
            assert(t[w] == s[w]);
            lemma_map_of_lookup(s, w);
        } else {
            assert(t[w] == s[w + 1]);
            lemma_map_of_lookup(s, w + 1);
        }
    }
    assert forall|k2: Seq<char>| #[trigger] map_of(s).remove(k).contains_key(k2) implies map_of(
        t,
    ).contains_key(k2) by {
        let u = choose|u: int| 0 <= u < s.len() && (#[trigger] s[u]).0@ == k2;
        assert(u != i);
        if u < i {
            assert(t[u] == s[u]);
            assert(has_key(t, k2));
        } else {
            assert(t[u - 1] == s[u]);
            assert(has_key(t, k2));
        }
    }
    assert(map_of(t) =~= map_of(s).remove(k));
}

/// Appending an entry with a fresh key inserts exactly that binding.
proof fn lemma_map_of_push(s: Seq<(String, u64)>, p: (String, u64))
    requires
        uniq_keys(s),
        !has_key(s, p.0@),
    ensures
        map_of(s.push(p)) == map_of(s).insert(p.0@, p.1),
        uniq_keys(s.push(p)),
{
    let t = s.push(p);
    assert forall|i: int, j: int| #![trigger t[i], t[j]] 0 <= i < j < t.len() implies t[i].0@
        != t[j].0@ by {
        if j < s.len() {
            assert(t[i] == s[i] && t[j] == s[j]);
        } else {
            assert(t[i] == s[i] && t[j] == p);
        }
    }
    assert forall|k2: Seq<char>| #[trigger] map_of(t).contains_key(k2) implies map_of(s).insert(
        p.0@,
        p.1,
    ).contains_key(k2) && map_of(t)[k2] == map_of(s).insert(p.0@, p.1)[k2] by {
        let w = choose|w: int| 0 <= w < t.len() && (#[trigger] t[w]).0@ == k2;
        lemma_map_of_lookup(t, w);
        if w < s.len() {
            assert(t[w] == s[w]);
            lemma_map_of_lookup(s, w);
        } else {
            assert(t[w] == p);
        }
    }
    assert forall|k2: Seq<char>| #[trigger] map_of(s).insert(p.0@, p.1).contains_key(
        k2,
    ) implies map_of(t).contains_key(k2) by {
        if k2 == p.0@ {
            assert(t[s.len() as int].0@ == k2);
            assert(has_key(t, k2));
        } else {
            let u = choose|u: int| 0 <= u < s.len() && (#[trigger] s[u]).0@ == k2;
            assert(t[u] == s[u]);
            assert(has_key(t, k2));
        }
    }
    assert(map_of(t) =~= map_of(s).insert(p.0@, p.1));
}

/// The additional wait owed when the path was seen too recently: the rest of
/// the window, counted from the last observed event.
pub open spec fn remaining_wait(last: u64, now: u64, window: u64) -> u64 {
    if now >= last {
        (window - (now - last)) as u64
    } else {
        window
    }
}

impl View for Debouncer {
    type V = DebounceView;

    closed spec fn view(&self) -> DebounceView {
        DebounceView {
            last_seen: map_of(self.last_seen@),
            active: self.active@.map_values(|p: String| p@).to_set(),
        }
    }
}

impl Debouncer {
    /// Internal well-formedness: keys of the last-seen vector are unique and
    /// the active vector holds no duplicate paths.
    pub closed spec fn wf(&self) -> bool {
        &&& uniq_keys(self.last_seen@)
        &&& distinct(self.active@.map_values(|p: String| p@))
    }

    /// A fresh coalescer: every path idle.
    pub fn new() -> (d: Debouncer)
        ensures
            d.wf(),
            d@.last_seen == Map::<Seq<char>, u64>::empty(),
            d@.active == Set::<Seq<char>>::empty(),
    {
        let d = Debouncer { last_seen: Vec::new(), active: Vec::new() };
        proof {
            assert(d@.last_seen =~= Map::<Seq<char>, u64>::empty());
            assert(d@.active =~= Set::<Seq<char>>::empty());
        }
        d
    }

    /// Scans the last-seen vector for a path.
    fn find_key(v: &Vec<(String, u64)>, path: &String) -> (r: Option<usize>)
        ensures
            match r {
                Some(i) => i < v@.len() && v@[i as int].0@ == path@,
                None => !has_key(v@, path@),
            },
    {
        let mut i: usize = 0;
        while i < v.len()
            invariant
                i <= v@.len(),
                forall|j: int| 0 <= j < i ==> (#[trigger] v@[j]).0@ != path@,
            decreases v@.len() - i,
        {
            if v[i].0 == *path {
                return Some(i);
            }
            i = i + 1;
        }
        None
    }

    /// Scans the active vector for a path.
    fn contains_path(v: &Vec<String>, path: &String) -> (r: bool)
        ensures
            r == v@.map_values(|p: String| p@).to_set().contains(path@),
    {
        let ghost m = v@.map_values(|p: String| p@);
        let mut i: usize = 0;
        while i < v.len()
            invariant
                i <= v@.len(),
                m == v@.map_values(|p: String| p@),
                forall|j: int| 0 <= j < i ==> (#[trigger] v@[j])@ != path@,
            decreases v@.len() - i,
        {
            if v[i] == *path {
                proof {
                    assert(m[i as int] == path@);
                    assert(m.contains(path@));
                }
                return true;
            }
            i = i + 1;
        }
        proof {
            assert forall|j: int| 0 <= j < m.len() implies m[j] != path@ by {
                assert(v@[j]@ != path@);
            }
            assert(!m.contains(path@));
        }
        false
    }

    /// Drops `path` from the active set; the last-seen map is untouched.
    fn remove_active(&mut self, path: &String)
        requires
            old(self).wf(),
        ensures
            final(self).wf(),
            final(self)@.active == old(self)@.active.remove(path@),
            final(self)@.last_seen == old(self)@.last_seen,
    {
        let ghost m0 = self.active@.map_values(|p: String| p@);
        let mut i: usize = 0;
        while i < self.active.len()
            invariant
                i <= self.active@.len(),
                m0 == self.active@.map_values(|p: String| p@),
                distinct(m0),
                uniq_keys(self.last_seen@),
                forall|j: int| 0 <= j < i ==> (#[trigger] self.active@[j])@ != path@,
                self == old(self),
            decreases self.active@.len() - i,
        {
            if self.active[i] == *path {
                self.active.remove(i);
                proof {
                    let m1 = self.active@.map_values(|p: String| p@);
                    assert(m1 =~= m0.remove(i as int));
                    assert(m0[i as int] == path@);
                    lemma_to_set_remove(m0, i as int);
                    assert forall|p2: int, q: int| 0 <= p2 < q < m1.len() implies m1[p2]
                        != m1[q] by {
                        if q < i {
                            assert(m1[p2] == m0[p2] && m1[q] == m0[q]);
                        } else if p2 < i {
                            assert(m1[p2] == m0[p2] && m1[q] == m0[q + 1]);
                        } else {
                            assert(m1[p2] == m0[p2 + 1] && m1[q] == m0[q + 1]);
                        }
                    }
                }
                return ;
            }
            i = i + 1;
        }
        proof {
            assert forall|j: int| 0 <= j < m0.len() implies m0[j] != path@ by {
                assert(self.active@[j]@ != path@);
            }
            assert(!m0.contains(path@));
            lemma_remove_absent(m0.to_set(), path@);
        }
    }

    /// Handles one raw create/modify event observed at `now`: records the
    /// event time and reports whether a stabilization timer must be started.
    /// While a timer is outstanding, further events only refresh the
    /// last-seen time — at most one timer per path ever runs.
    pub fn on_event(&mut self, path: String, now: u64) -> (start_timer: bool)
        requires
            old(self).wf(),
        ensures
            final(self).wf(),
            final(self)@.last_seen == old(self)@.last_seen.insert(path@, now),
            start_timer == !old(self)@.active.contains(path@),
            final(self)@.active == old(self)@.active.insert(path@),
    {
        let ghost s0 = self.last_seen@;
        let ghost k = path@;
        match Self::find_key(&self.last_seen, &path) {
            Some(i) => {
                self.last_seen.remove(i);
                proof {
                    lemma_map_of_remove(s0, i as int);
                }
            },
            None => {},
        }
        let ghost s1 = self.last_seen@;
        self.last_seen.push((path.clone(), now));
        proof {
            lemma_map_of_push(s1, (path, now));
            assert(map_of(s1.push((path, now))) == map_of(s1).insert(k, now));
            assert(map_of(s0).remove(k).insert(k, now) =~= map_of(s0).insert(k, now));
            assert(map_of(s0).insert(k, now) =~= map_of(s0).insert(k, now));
        }
        let ghost a0 = self.active@.map_values(|p: String| p@);
        let start = !Self::contains_path(&self.active, &path);
        if start {
            self.active.push(path);
            proof {
                let a1 = self.active@.map_values(|p: String| p@);
                assert(a1 =~= a0.push(k));
                lemma_to_set_push(a0, k);
                assert forall|p2: int, q: int| 0 <= p2 < q < a1.len() implies a1[p2] != a1[q] by {
                    if q < a0.len() {
                        assert(a1[p2] == a0[p2] && a1[q] == a0[q]);
                    } else {
                        assert(a1[p2] == a0[p2] && a1[q] == k);
                        assert(a0.contains(a0[p2]));
                    }
                }
            }
        } else {
            proof {
                lemma_insert_member(a0.to_set(), k);
            }
        }
        start
    }

    /// Decision for a stabilization timer for `path` that wakes at `now`
    /// after a window of `window` milliseconds: abandon when the path is no
    /// longer known, declare it stable when the last observed event is at
    /// least a full window old, and otherwise wait out the rest of the
    /// window. On a stable or abandoned exit the path returns to idle.
    pub fn on_timer_fire(&mut self, path: &String, now: u64, window: u64) -> (v: TimerVerdict)
        requires
            old(self).wf(),
        ensures
            final(self).wf(),
            ({
                let seen = old(self)@.last_seen;
                if !seen.contains_key(path@) {
                    &&& v == TimerVerdict::Abandoned
                    &&& final(self)@.last_seen == seen
                    &&& final(self)@.active == old(self)@.active.remove(path@)
                } else if now >= seen[path@] && now - seen[path@] >= window {
                    &&& v == TimerVerdict::Stable
                    &&& final(self)@.last_seen == seen.remove(path@)
                    &&& final(self)@.active == old(self)@.active.remove(path@)
                } else {
                    &&& v == TimerVerdict::Wait(remaining_wait(seen[path@], now, window))
                    &&& final(self)@.last_seen == seen
                    &&& final(self)@.active == old(self)@.active
                }
            }),
    {
        let ghost s0 = self.last_seen@;
        match Self::find_key(&self.last_seen, path) {
            None => {
                proof {
                    if map_of(s0).contains_key(path@) {
                        assert(has_key(s0, path@));
                    }
                }
                self.remove_active(path);
                TimerVerdict::Abandoned
            },
            Some(i) => {
                let last = self.last_seen[i].1;
                proof {
                    lemma_map_of_lookup(s0, i as int);
                }
                if now >= last && now - last >= window {
                    self.last_seen.remove(i);
                    proof {
                        lemma_map_of_remove(s0, i as int);
                    }
                    self.remove_active(path);
                    TimerVerdict::Stable
                } else {
                    let w = if now >= last {
                        window - (now - last)
                    } else {
                        window
                    };
                    TimerVerdict::Wait(w)
                }
            },
        }
    }

    /// Forgets a path whose file was removed or renamed: it leaves the
    /// last-seen map, so an outstanding timer for it will abandon.
    pub fn forget_path(&mut self, path: &String)
        requires
            old(self).wf(),
        ensures
            final(self).wf(),
            final(self)@.last_seen == old(self)@.last_seen.remove(path@),
            final(self)@.active == old(self)@.active,
    {
        let ghost s0 = self.last_seen@;
        match Self::find_key(&self.last_seen, path) {
            Some(i) => {
                self.last_seen.remove(i);
                proof {
                    lemma_map_of_remove(s0, i as int);
                }
            },
            None => {
                proof {
                    if map_of(s0).contains_key(path@) {
                        assert(has_key(s0, path@));
                    }
                    assert(map_of(s0).remove(path@) =~= map_of(s0));
                }
            },
        }
    }
}

} // verus!
