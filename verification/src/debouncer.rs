//! Per-path time gate: a path is admitted at most once per debounce window.
//!
//! The state is a mapping from path to the instant of its last admission,
//! together with an admission-ordered queue used to prune stale records
//! lazily on every call.  Pruning only evicts a record when the queued
//! instant still equals the record's current instant, so a stale queue entry
//! can never erase a path's current timestamp.

use vstd::prelude::*;

verus! {

/// Whether some entry of `s` carries the key `k`.
pub open spec fn has_key(s: Seq<(String, u128)>, k: Seq<char>) -> bool {
    exists|i: int| 0 <= i < s.len() && s[i].0@ == k
}

/// Whether the exact pair `(k, v)` stands somewhere in `s`.
pub open spec fn has_pair(s: Seq<(String, u128)>, k: Seq<char>, v: u128) -> bool {
    exists|i: int| 0 <= i < s.len() && s[i].0@ == k && s[i].1 == v
}

/// An index of `s` whose entry carries the key `k` (meaningful when `has_key`).
pub open spec fn key_index(s: Seq<(String, u128)>, k: Seq<char>) -> int {
    choose|i: int| 0 <= i < s.len() && s[i].0@ == k
}

proof fn pair_index(s: Seq<(String, u128)>, k: Seq<char>, v: u128) -> (b: int)
    requires
        has_pair(s, k, v),
    ensures
        0 <= b < s.len() && s[b].0@ == k && s[b].1 == v,
{
    choose|i: int| 0 <= i < s.len() && #[trigger] s[i].0@ == k && s[i].1 == v
}

/// Per-path debounce gate with lazy, value-checked pruning of old records.
pub struct Debouncer {
    debounce_duration: u128,
    clock: u128,
    index_times: Vec<(String, u128)>,
    order: Vec<(String, u128)>,
}

/// How one admission decision at instant `n` relates the state before the
/// call to the state after it.
pub open spec fn debounce_step(
    pre: Debouncer,
    post: Debouncer,
    p: Seq<char>,
    admitted: bool,
    n: int,
) -> bool {
    &&& n >= pre.spec_clock()
    &&& post.spec_clock() == n
    &&& post.window() == pre.window()
    &&& admitted == pre.admits(p, n)
    &&& post.times() == if admitted {
        pre.pruned_times(n).insert(p, n)
    } else {
        pre.pruned_times(n)
    }
}

/// What a reading of `time_left` at instant `n` reports.
pub open spec fn time_left_reading(d: Debouncer, p: Seq<char>, r: int, n: int) -> bool {
    n >= d.spec_clock() && r == d.spec_time_left(p, n)
}

impl Debouncer {
    /// The debounce window, in nanoseconds.
    pub closed spec fn window(self) -> int {
        self.debounce_duration as int
    }

    /// The largest instant this debouncer has been consulted at.
    pub closed spec fn spec_clock(self) -> int {
        self.clock as int
    }

    /// The recorded last-admission instant of each path.
    pub closed spec fn times(self) -> Map<Seq<char>, int> {
        Map::new(
            |k: Seq<char>| has_key(self.index_times@, k),
            |k: Seq<char>| self.index_times@[key_index(self.index_times@, k)].1 as int,
        )
    }

    /// Internal well-formedness: unique keys, instants bounded by the clock,
    /// the queue ordered by instant, every record's current pair still
    /// queued, and no queued pair newer than its path's current record.
    pub closed spec fn wf(self) -> bool {
        let m = self.index_times@;
        let q = self.order@;
        &&& (forall|i: int, j: int| 0 <= i < j < m.len() ==> m[i].0@ != m[j].0@)
        &&& (forall|i: int| 0 <= i < m.len() ==> m[i].1 <= self.clock)
        &&& (forall|i: int| 0 <= i < q.len() ==> q[i].1 <= self.clock)
        &&& (forall|i: int, j: int| 0 <= i <= j < q.len() ==> q[i].1 <= q[j].1)
        &&& (forall|i: int| 0 <= i < m.len() ==> has_pair(q, m[i].0@, m[i].1))
        &&& (forall|i: int, j: int|
            0 <= i < m.len() && 0 <= j < q.len() && q[j].0@ == m[i].0@ ==> q[j].1 <= m[i].1)
    }

    /// Whether a call at instant `now` would admit `p`: either `p` has no
    /// record, or a full window has elapsed since its last admission.
    pub open spec fn admits(self, p: Seq<char>, now: int) -> bool {
        ||| !self.times().contains_key(p)
        ||| now - self.times()[p] >= self.window()
    }

    /// The records that survive pruning at instant `now`: those whose last
    /// admission is at most one window old.
    pub open spec fn pruned_times(self, now: int) -> Map<Seq<char>, int> {
        Map::new(
            |k: Seq<char>| self.times().contains_key(k) && now - self.times()[k]
                <= self.window(),
            |k: Seq<char>| self.times()[k],
        )
    }

    /// The wait `time_left` reports at instant `now`: zero once eligible,
    /// the remaining part of the window while not, the full window for a
    /// path with no record.
    pub open spec fn spec_time_left(self, p: Seq<char>, now: int) -> int {
        if self.times().contains_key(p) {
            if now - self.times()[p] >= self.window() {
                0
            } else {
                self.window() - (now - self.times()[p])
            }
        } else {
            self.window()
        }
    }

    proof fn lemma_times_at(self, i: int)
        requires
            self.wf(),
            0 <= i < self.index_times@.len(),
        ensures
            self.times().contains_key(self.index_times@[i].0@),
            self.times()[self.index_times@[i].0@] == self.index_times@[i].1 as int,
    {
        let m = self.index_times@;
        let k = m[i].0@;
        assert(has_key(m, k));
        let j = key_index(m, k);
        if j < i {
            assert(m[j].0@ != m[i].0@);
        } else if i < j {
            assert(m[i].0@ != m[j].0@);
        }
    }

    pub fn new(duration_secs: u64, duration_nanos: u32) -> (r: Debouncer)
        ensures
            r.wf(),
            r.window() == duration_secs * 1_000_000_000 + duration_nanos,
            r.times() == Map::<Seq<char>, int>::empty(),
            r.spec_clock() == 0,
    {
        let r = Debouncer {
            debounce_duration: duration_secs as u128 * 1_000_000_000 + duration_nanos as u128,
            clock: 0,
            index_times: Vec::new(),
            order: Vec::new(),
        };
        proof {
            assert(r.times() =~= Map::<Seq<char>, int>::empty());
        }
        r
    }

    fn find_entry(&self, path: &String) -> (r: Option<usize>)
        ensures
            match r {
                Some(i) => 0 <= i < self.index_times@.len() && self.index_times@[i as int].0@
                    == path@,
                None => !has_key(self.index_times@, path@),
            },
    {
        let mut i: usize = 0;
        while i < self.index_times.len()
            invariant
                i <= self.index_times@.len(),
                forall|j: int| 0 <= j < i ==> self.index_times@[j].0@ != path@,
            decreases self.index_times@.len() - i,
        {
            if self.index_times[i].0 == *path {
                return Some(i);
            }
            i += 1;
        }
        None
    }

    /// Drop every record whose last admission lies strictly more than one
    /// window before `now`.  A record is only deleted when the queued pair
    /// being expired still equals the record's current instant.
    fn cleanup(&mut self, now: u128)
        requires
            old(self).wf(),
            now >= old(self).clock,
        ensures
            final(self).wf(),
            final(self).debounce_duration == old(self).debounce_duration,
            final(self).clock == old(self).clock,
            final(self).times() == old(self).pruned_times(now as int),
    {
        let ghost m0 = old(self).index_times@;
        let ghost q0 = old(self).order@;
        let ghost mut popped: int = 0;
        while self.order.len() > 0 && now - self.order[0].1 > self.debounce_duration
            invariant
                self.wf(),
                self.debounce_duration == old(self).debounce_duration,
                self.clock == old(self).clock,
                now >= self.clock,
                0 <= popped <= q0.len(),
                self.order@ == q0.skip(popped),
                forall|i: int|
                    0 <= i < self.index_times@.len() ==> has_pair(
                        m0,
                        self.index_times@[i].0@,
                        self.index_times@[i].1,
                    ),
                forall|i: int|
                    0 <= i < m0.len() && now - m0[i].1 <= self.debounce_duration ==> has_pair(
                        self.index_times@,
                        m0[i].0@,
                        m0[i].1,
                    ),
            decreases self.order@.len(),
        {
            let ghost m_pre = self.index_times@;
            let entry = self.order.remove(0);
            proof {
                popped = popped + 1;
                assert(self.order@ =~= q0.skip(popped));
            }
            match self.find_entry(&entry.0) {
                Some(i) => {
                    if self.index_times[i].1 == entry.1 {
                        let _ = self.index_times.remove(i);
                        proof {
                            let m_new = self.index_times@;
                            assert forall|a: int|
                                0 <= a < m_new.len() implies has_pair(m0, m_new[a].0@, m_new[a].1)
                            by {
                                if a < i {
                                    assert(m_new[a] == m_pre[a]);
                                } else {
                                    assert(m_new[a] == m_pre[a + 1]);
                                }
                            }
                            assert forall|a: int|
                                0 <= a < m0.len() && now - m0[a].1 <= self.debounce_duration
                                implies has_pair(m_new, m0[a].0@, m0[a].1) by {
                                assert(has_pair(m_pre, m0[a].0@, m0[a].1));
                                let b = pair_index(m_pre, m0[a].0@, m0[a].1);
                                // The removed entry carried the expired queued
                                // instant, while this one is recent enough.
                                assert(b != i);
                                if b < i {
                                    assert(m_new[b] == m_pre[b]);
                                } else {
                                    assert(m_new[b - 1] == m_pre[b]);
                                }
                            }
                            assert forall|a: int, b: int|
                                0 <= a < m_new.len() && 0 <= b < self.order@.len()
                                    && self.order@[b].0@ == m_new[a].0@ implies self.order@[b].1
                                <= m_new[a].1 by {
                                if a < i {
                                    assert(m_new[a] == m_pre[a]);
                                } else {
                                    assert(m_new[a] == m_pre[a + 1]);
                                }
                            }
                            assert forall|a: int|
                                0 <= a < m_new.len() implies has_pair(
                                self.order@,
                                m_new[a].0@,
                                m_new[a].1,
                            ) by {
                                let prev = if a < i {
                                    a
                                } else {
                                    a + 1
                                };
                                assert(m_new[a] == m_pre[prev]);
                                assert(has_pair(q0.skip(popped - 1), m_pre[prev].0@, m_pre[prev].1));
                                let b = pair_index(q0.skip(popped - 1), m_pre[prev].0@, m_pre[prev].1);
                                // The popped front pair equals the removed
                                // record, which differs from this entry's key.
                                assert(b != 0);
                                assert(self.order@[b - 1] == q0.skip(popped - 1)[b]);
                            }
                        }
                    } else {
                        proof {
                            let m_new = self.index_times@;
                            assert forall|a: int|
                                0 <= a < m_new.len() implies has_pair(
                                self.order@,
                                m_new[a].0@,
                                m_new[a].1,
                            ) by {
                                assert(has_pair(q0.skip(popped - 1), m_new[a].0@, m_new[a].1));
                                let b = pair_index(q0.skip(popped - 1), m_new[a].0@, m_new[a].1);
                                if b == 0 {
                                    // The front pair matches this record's key
                                    // but not its instant, so the record's own
                                    // pair lies further back in the queue.
                                    assert(m_new[a].0@ == entry.0@ && m_new[a].1 == entry.1);
                                    assert(false);
                                }
                                assert(self.order@[b - 1] == q0.skip(popped - 1)[b]);
                            }
                        }
                    }
                },
                None => {
                    proof {
                        let m_new = self.index_times@;
                        assert forall|a: int|
                            0 <= a < m_new.len() implies has_pair(
                            self.order@,
                            m_new[a].0@,
                            m_new[a].1,
                        ) by {
                            assert(has_pair(q0.skip(popped - 1), m_new[a].0@, m_new[a].1));
                            let b = pair_index(q0.skip(popped - 1), m_new[a].0@, m_new[a].1);
                            assert(b != 0);
                            assert(self.order@[b - 1] == q0.skip(popped - 1)[b]);
                        }
                    }
                },
            }
        }
        proof {
            let m = self.index_times@;
            let q = self.order@;
            // At exit every surviving record is recent enough: its current
            // pair is still queued, and the queue's front is not expired.
            assert forall|i: int|
                0 <= i < m.len() implies now - m[i].1 <= self.debounce_duration by {
                assert(has_pair(q, m[i].0@, m[i].1));
                let b = pair_index(q, m[i].0@, m[i].1);
                assert(q[0].1 <= q[b].1);
            }
            let lhs = self.times();
            let rhs = old(self).pruned_times(now as int);
            assert forall|k: Seq<char>| lhs.contains_key(k) implies rhs.contains_key(k)
                && lhs[k] == rhs[k] by {
                let i = key_index(m, k);
                self.lemma_times_at(i);
                assert(has_pair(m0, m[i].0@, m[i].1));
                let a = pair_index(m0, k, m[i].1);
                old(self).lemma_times_at(a);
            }
            assert forall|k: Seq<char>| rhs.contains_key(k) implies lhs.contains_key(k) by {
                let a = key_index(m0, k);
                old(self).lemma_times_at(a);
                assert(has_pair(m, m0[a].0@, m0[a].1));
                let i = pair_index(m, k, m0[a].1);
                self.lemma_times_at(i);
            }
            assert(lhs =~= rhs);
        }
    }

    /// Decide, at instant `now`, whether `path` may be indexed again; an
    /// admission records `now` as the path's new last-admission instant.
    /// Records older than one window are pruned along the way.
    pub fn should_index_at(&mut self, path: &str, now: u128) -> (r: bool)
        requires
            old(self).wf(),
            now as int >= old(self).spec_clock(),
        ensures
            final(self).wf(),
            final(self).window() == old(self).window(),
            debounce_step(*old(self), *final(self), path@, r, now as int),
    {
        self.cleanup(now);
        self.clock = now;
        proof {
            assert(self.wf());
        }
        let ghost mid = *self;
        let ghost pruned = mid.times();
        let ghost m_pre = mid.index_times@;
        let ghost q_pre = mid.order@;
        proof {
            // Raising the clock leaves the recorded instants untouched.
            assert(pruned =~= old(self).pruned_times(now as int));
        }
        let owned: String = path.to_owned();
        let admitted: bool;
        match self.find_entry(&owned) {
            Some(i) => {
                let t: u128 = self.index_times[i].1;
                proof {
                    mid.lemma_times_at(i as int);
                }
                if now - t >= self.debounce_duration {
                    let owned2: String = owned.clone();
                    self.index_times[i] = (owned, now);
                    self.order.push((owned2, now));
                    admitted = true;
                    proof {
                        let m = self.index_times@;
                        let q = self.order@;
                        assert(q.drop_last() =~= q_pre);
                        assert forall|a: int|
                            0 <= a < m.len() implies has_pair(q, m[a].0@, m[a].1) by {
                            if a == i {
                                assert(q[q.len() - 1].0@ == m[a].0@ && q[q.len() - 1].1 == m[a].1);
                            } else {
                                assert(m[a] == m_pre[a]);
                                assert(has_pair(q_pre, m_pre[a].0@, m_pre[a].1));
                                let b = pair_index(q_pre, m_pre[a].0@, m_pre[a].1);
                                assert(q[b] == q_pre[b]);
                            }
                        }
                        assert forall|a: int, b: int|
                            0 <= a < m.len() && 0 <= b < q.len() && q[b].0@ == m[a].0@ implies q[b].1
                            <= m[a].1 by {
                            if a != i && b < q.len() - 1 {
                                assert(m[a] == m_pre[a]);
                                assert(q[b] == q_pre[b]);
                            }
                        }
                        assert(self.wf());
                        let lhs = self.times();
                        let rhs = pruned.insert(path@, now as int);
                        assert forall|k: Seq<char>| lhs.contains_key(k) implies rhs.contains_key(k)
                            && lhs[k] == rhs[k] by {
                            let j = key_index(m, k);
                            self.lemma_times_at(j);
                            if j == i as int {
                                assert(k == path@);
                            } else {
                                if j < i as int {
                                    assert(m[j].0@ != m[i as int].0@);
                                } else {
                                    assert(m[i as int].0@ != m[j].0@);
                                }
                                assert(k != path@);
                                assert(m[j] == m_pre[j]);
                                assert(has_key(m_pre, k));
                                mid.lemma_times_at(j);
                            }
                        }
                        assert forall|k: Seq<char>| rhs.contains_key(k) implies lhs.contains_key(k)
                        by {
                            if k == path@ {
                                assert(m[i as int].0@ == k);
                                assert(has_key(m, k));
                            } else {
                                let j = key_index(m_pre, k);
                                assert(m[j].0@ == k);
                                assert(has_key(m, k));
                            }
                        }
                        assert(lhs =~= rhs);
                    }
                } else {
                    admitted = false;
                    proof {
                        assert(old(self).times().contains_key(path@));
                    }
                }
            },
            None => {
                let owned2: String = owned.clone();
                self.index_times.push((owned, now));
                self.order.push((owned2, now));
                admitted = true;
                proof {
                    assert(!has_key(m_pre, path@));
                    assert(!pruned.contains_key(path@));
                    if old(self).times().contains_key(path@) {
                        assert(now as int - old(self).times()[path@] > old(self).window());
                    }
                    let m = self.index_times@;
                    let q = self.order@;
                    assert(q.drop_last() =~= q_pre);
                    assert(m.drop_last() =~= m_pre);
                    assert forall|a: int| 0 <= a < m.len() implies has_pair(q, m[a].0@, m[a].1) by {
                        if a == m.len() - 1 {
                            assert(q[q.len() - 1].0@ == m[a].0@ && q[q.len() - 1].1 == m[a].1);
                        } else {
                            assert(m[a] == m_pre[a]);
                            assert(has_pair(q_pre, m_pre[a].0@, m_pre[a].1));
                            let b = pair_index(q_pre, m_pre[a].0@, m_pre[a].1);
                            assert(q[b] == q_pre[b]);
                        }
                    }
                    assert forall|a: int, b: int|
                        0 <= a < m.len() && 0 <= b < q.len() && q[b].0@ == m[a].0@ implies q[b].1
                        <= m[a].1 by {
                        if a < m.len() - 1 && b < q.len() - 1 {
                            assert(m[a] == m_pre[a]);
                            assert(q[b] == q_pre[b]);
                        }
                    }
                    assert(self.wf());
                    let lhs = self.times();
                    let rhs = pruned.insert(path@, now as int);
                    assert forall|k: Seq<char>| lhs.contains_key(k) implies rhs.contains_key(k)
                        && lhs[k] == rhs[k] by {
                        let j = key_index(m, k);
                        self.lemma_times_at(j);
                        if j == m.len() - 1 {
                            assert(k == path@);
                        } else {
                            assert(m[j].0@ != m[m.len() - 1].0@);
                            assert(k != path@);
                            assert(m[j] == m_pre[j]);
                            assert(has_key(m_pre, k));
                            mid.lemma_times_at(j);
                        }
                    }
                    assert forall|k: Seq<char>| rhs.contains_key(k) implies lhs.contains_key(k) by {
                        if k == path@ {
                            assert(m[m.len() - 1].0@ == k);
                            assert(has_key(m, k));
                        } else {
                            let j = key_index(m_pre, k);
                            assert(m[j].0@ == k);
                            assert(has_key(m, k));
                        }
                    }
                    assert(lhs =~= rhs);
                }
            },
        }
        proof {
            assert(debounce_step(*old(self), *self, path@, admitted, now as int));
        }
        admitted
    }

    /// The remaining wait before `path` would be admitted again, read at
    /// instant `now`; zero once eligible, the full window with no record.
    pub fn time_left_at(&self, path: &str, now: u128) -> (r: u128)
        requires
            self.wf(),
            now as int >= self.spec_clock(),
        ensures
            r as int == self.spec_time_left(path@, now as int),
    {
        let owned: String = path.to_owned();
        match self.find_entry(&owned) {
            Some(i) => {
                let t: u128 = self.index_times[i].1;
                proof {
                    self.lemma_times_at(i as int);
                }
                if now - t >= self.debounce_duration {
                    0
                } else {
                    self.debounce_duration - (now - t)
                }
            },
            None => self.debounce_duration,
        }
    }

    /// The largest instant this debouncer has been consulted at.
    pub fn clock_value(&self) -> (r: u128)
        ensures
            r as int == self.spec_clock(),
    {
        self.clock
    }

    /// `should_index_at` against the system clock, never run backwards.
    pub fn should_index(&mut self, path: &str) -> (r: bool)
        requires
            old(self).wf(),
        ensures
            final(self).wf(),
            final(self).window() == old(self).window(),
            exists|n: int| #[trigger] debounce_step(*old(self), *final(self), path@, r, n),
    {
        let reading: u128 = crate::clock::now_nanos();
        let now: u128 = if reading >= self.clock {
            reading
        } else {
            self.clock
        };
        let r = self.should_index_at(path, now);
        proof {
            assert(debounce_step(*old(self), *self, path@, r, now as int));
        }
        r
    }

    /// `time_left_at` against the system clock, never run backwards.
    pub fn time_left(&self, path: &str) -> (r: u128)
        requires
            self.wf(),
        ensures
            exists|n: int| #[trigger] time_left_reading(*self, path@, r as int, n),
    {
        let reading: u128 = crate::clock::now_nanos();
        let now: u128 = if reading >= self.clock {
            reading
        } else {
            self.clock
        };
        let r = self.time_left_at(path, now);
        proof {
            assert(time_left_reading(*self, path@, r as int, now as int));
        }
        r
    }
}

/// The debounce window is never negative, so right after an admission the
/// full window remains, whatever its configured length.
pub proof fn lemma_window_nonnegative(d: Debouncer)
    ensures
        d.window() >= 0,
{
}

/// After an admission at instant `n`, the path is denied at every instant
/// strictly within the window and admitted once the window has elapsed.
pub proof fn lemma_admit_window(pre: Debouncer, post: Debouncer, p: Seq<char>, n: int, later: int)
    requires
        debounce_step(pre, post, p, true, n),
    ensures
        later - n < post.window() ==> !post.admits(p, later),
        later - n >= post.window() ==> post.admits(p, later),
{
    assert(post.times().contains_key(p) && post.times()[p] == n);
}

} // verus!
