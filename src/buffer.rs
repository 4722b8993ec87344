use vstd::prelude::*;
use crate::telemetry::Telemetry;

verus! {

/// Latest and previous report of one unit, and when it was last updated
/// (milliseconds of a monotonic clock).
pub struct UAVState {
    pub current: Telemetry,
    pub previous: Option<Telemetry>,
    pub last_seen: u64,
}

pub open spec fn key(s: UAVState) -> Seq<char> {
    s.current.sn@
}

/// No two states of `s` belong to the same unit.
pub open spec fn keys_unique(s: Seq<UAVState>) -> bool {
    forall|i: int, j: int| 0 <= i < j < s.len() ==> key(#[trigger] s[i]) != key(#[trigger] s[j])
}

/// Position of the state of unit `k` in `s`, or -1 if it has none.
pub open spec fn index_of(s: Seq<UAVState>, k: Seq<char>) -> int
    decreases s.len(),
{
    if s.len() == 0 {
        -1
    } else if key(s.last()) == k {
        s.len() - 1
    } else {
        index_of(s.drop_last(), k)
    }
}

/// The state of unit `k` in `s`, if any.
pub open spec fn unit_state(s: Seq<UAVState>, k: Seq<char>) -> Option<UAVState> {
    let i = index_of(s, k);
    if i >= 0 {
        Some(s[i])
    } else {
        None
    }
}

/// The states after report `t` arrived at `now`: a known unit shifts its
/// current report to previous; an unknown one is appended.
pub open spec fn apply_update(s: Seq<UAVState>, t: Telemetry, now: u64) -> Seq<UAVState> {
    let i = index_of(s, t.sn@);
    if i >= 0 {
        s.update(i, UAVState { current: t, previous: Some(s[i].current), last_seen: now })
    } else {
        s.push(UAVState { current: t, previous: None, last_seen: now })
    }
}

/// A state is stale at `now` once `max_age` or more has passed since it was
/// last updated.
pub open spec fn is_stale(s: UAVState, now: u64, max_age: u64) -> bool {
    now as int - s.last_seen as int >= max_age as int
}

/// The states of `s` that are not stale, in their order.
pub open spec fn fresh_states(s: Seq<UAVState>, now: u64, max_age: u64) -> Seq<UAVState>
    decreases s.len(),
{
    if s.len() == 0 {
        s
    } else {
        let r = fresh_states(s.drop_last(), now, max_age);
        if is_stale(s.last(), now, max_age) {
            r
        } else {
            r.push(s.last())
        }
    }
}

pub proof fn lemma_index_of(s: Seq<UAVState>, k: Seq<char>)
    ensures
        -1 <= index_of(s, k) < s.len(),
        index_of(s, k) >= 0 ==> key(s[index_of(s, k)]) == k,
        index_of(s, k) == -1 <==> forall|j: int| 0 <= j < s.len() ==> key(#[trigger] s[j]) != k,
        keys_unique(s) ==> forall|j: int|
            0 <= j < s.len() && key(#[trigger] s[j]) == k ==> index_of(s, k) == j,
    decreases s.len(),
{
    if s.len() > 0 {
        let d = s.drop_last();
        assert forall|j: int| 0 <= j < d.len() implies #[trigger] d[j] == s[j] by {}
        assert(s.last() == s[s.len() - 1]);
        if keys_unique(s) {
            assert forall|a: int, b: int| 0 <= a < b < d.len() implies key(#[trigger] d[a]) != key(
                #[trigger] d[b],
            ) by {
                assert(d[a] == s[a] && d[b] == s[b]);
            }
        }
        lemma_index_of(d, k);
        if key(s.last()) != k {
            assert(index_of(s, k) == index_of(d, k));
            assert forall|j: int| 0 <= j < s.len() && key(#[trigger] s[j]) == k implies j < d.len()
                && key(d[j]) == k by {}
            if index_of(s, k) == -1 {
                assert forall|j: int| 0 <= j < s.len() implies key(#[trigger] s[j]) != k by {
                    if j < d.len() {
                        assert(key(d[j]) != k);
                    }
                }
            }
        } else {
            assert(index_of(s, k) == s.len() - 1);
            assert(key(s[s.len() - 1]) == k);
            if keys_unique(s) {
                assert forall|j: int| 0 <= j < s.len() && key(#[trigger] s[j]) == k implies j == s.len()
                    - 1 by {
                    if j < s.len() - 1 {
                        assert(key(s[j]) != key(s[s.len() - 1]));
                    }
                }
            }
        }
    }
}

proof fn lemma_fresh_states_members(s: Seq<UAVState>, now: u64, max_age: u64)
    ensures
        forall|x: UAVState|
            fresh_states(s, now, max_age).contains(x) <==> (s.contains(x) && !is_stale(
                x,
                now,
                max_age,
            )),
        forall|i: int|
            0 <= i < fresh_states(s, now, max_age).len() ==> exists|j: int|
                0 <= j < s.len() && s[j] == #[trigger] fresh_states(s, now, max_age)[i],
    decreases s.len(),
{
    if s.len() > 0 {
        let d = s.drop_last();
        lemma_fresh_states_members(d, now, max_age);
        let r = fresh_states(d, now, max_age);
        assert forall|x: UAVState| s.contains(x) <==> (d.contains(x) || x == s.last()) by {
            if s.contains(x) {
                let j = choose|j: int| 0 <= j < s.len() && s[j] == x;
                if j < d.len() {
                    assert(d[j] == x);
                }
            }
            if d.contains(x) {
                let j = choose|j: int| 0 <= j < d.len() && d[j] == x;
                assert(s[j] == x);
            }
            if x == s.last() {
                assert(s[s.len() - 1] == x);
            }
        }
        let f = fresh_states(s, now, max_age);
        if !is_stale(s.last(), now, max_age) {
            assert forall|x: UAVState| f.contains(x) <==> (r.contains(x) || x == s.last()) by {
                if f.contains(x) {
                    let i = choose|i: int| 0 <= i < f.len() && f[i] == x;
                    if i < r.len() {
                        assert(r[i] == x);
                    }
                }
                if r.contains(x) {
                    let i = choose|i: int| 0 <= i < r.len() && r[i] == x;
                    assert(f[i] == x);
                }
                if x == s.last() {
                    assert(f[f.len() - 1] == x);
                }
            }
        }
        assert forall|i: int| 0 <= i < f.len() implies exists|j: int|
            0 <= j < s.len() && s[j] == #[trigger] f[i] by {
            if i < r.len() {
                assert(f[i] == r[i]);
                let j = choose|j: int| 0 <= j < d.len() && d[j] == r[i];
                assert(s[j] == d[j]);
            } else {
                assert(s[s.len() - 1] == f[i]);
            }
        }
    }
}

/// Latest known state of every unit that reports, at most one per unit.
pub struct TelemetryBuffer {
    uavs: Vec<UAVState>,
}

impl View for TelemetryBuffer {
    type V = Seq<UAVState>;

    closed spec fn view(&self) -> Seq<UAVState> {
        self.uavs@
    }
}

impl TelemetryBuffer {
    pub open spec fn wf(&self) -> bool {
        keys_unique(self@)
    }

    pub fn new() -> (r: TelemetryBuffer)
        ensures
            r.wf(),
            r@ == Seq::<UAVState>::empty(),
    {
        TelemetryBuffer { uavs: Vec::new() }
    }

    fn find(&self, sn: &String) -> (r: Option<usize>)
        requires
            self.wf(),
        ensures
            match r {
                Some(i) => index_of(self@, sn@) == i,
                None => index_of(self@, sn@) == -1,
            },
    {
        proof {
            lemma_index_of(self@, sn@);
        }
        let mut i: usize = 0;
        while i < self.uavs.len()
            invariant
                i <= self.uavs@.len(),
                self.wf(),
                forall|j: int| 0 <= j < i ==> key(#[trigger] self.uavs@[j]) != sn@,
            decreases self.uavs@.len() - i,
        {
            if self.uavs[i].current.sn == *sn {
                proof {
                    lemma_index_of(self@, sn@);
                }
                assert(key(self@[i as int]) == sn@);
                return Some(i);
            }
            i = i + 1;
        }
        None
    }

    /// Records report `telemetry`, received at `now`: a known unit's current
    /// report becomes its previous one; an unknown unit is added.
    pub fn update(&mut self, telemetry: Telemetry, now: u64)
        requires
            old(self).wf(),
        ensures
            final(self).wf(),
            final(self)@ == apply_update(old(self)@, telemetry, now),
    {
        proof {
            lemma_index_of(self@, telemetry.sn@);
        }
        let found = self.find(&telemetry.sn);
        match found {
            Some(i) => {
                let old_state = self.uavs.remove(i);
                let state = UAVState {
                    current: telemetry,
                    previous: Some(old_state.current),
                    last_seen: now,
                };
                self.uavs.insert(i, state);
                assert(self.uavs@ =~= apply_update(old(self)@, telemetry, now));
            },
            None => {
                self.uavs.push(UAVState { current: telemetry, previous: None, last_seen: now });
            },
        }
    }

    /// Removes every unit whose last update is `max_age` or more before `now`.
    pub fn cleanup_stale_uavs(&mut self, max_age: u64, now: u64)
        requires
            old(self).wf(),
        ensures
            final(self).wf(),
            final(self)@ == fresh_states(old(self)@, now, max_age),
    {
        let ghost s = self@;
        let mut i: usize = 0;
        let ghost mut j: int = 0;
        while i < self.uavs.len()
            invariant
                0 <= i <= j <= s.len(),
                self.uavs@.len() == i + (s.len() - j),
                self.uavs@.subrange(0, i as int) == fresh_states(s.subrange(0, j), now, max_age),
                forall|k: int| 0 <= k < s.len() - j ==> #[trigger] self.uavs@[i + k] == s[j + k],
                keys_unique(s),
            decreases self.uavs@.len() - i,
        {
            assert(s.subrange(0, j + 1).drop_last() =~= s.subrange(0, j));
            assert(self.uavs@[i + 0] == s[j + 0]);
            let ghost prev = self.uavs@;
            let st = &self.uavs[i];
            let stale = now >= st.last_seen && now - st.last_seen >= max_age;
            if stale {
                self.uavs.remove(i);
                assert forall|k: int| 0 <= k < s.len() - (j + 1) implies #[trigger] self.uavs@[i + k] == s[(j + 1) + k] by {
                    assert(self.uavs@[i + k] == prev[i + k + 1]);
                    assert(prev[i + (k + 1)] == s[j + (k + 1)]);
                }
                assert(self.uavs@.subrange(0, i as int) =~= prev.subrange(0, i as int));
            } else {
                assert(self.uavs@.subrange(0, i + 1) =~= prev.subrange(0, i as int).push(prev[i as int]));
                i = i + 1;
                assert forall|k: int| 0 <= k < s.len() - (j + 1) implies #[trigger] self.uavs@[i + k] == s[(j + 1) + k] by {
                    assert(prev[(i - 1) + (k + 1)] == s[j + (k + 1)]);
                }
            }
            proof {
                j = j + 1;
            }
        }
        assert(s.subrange(0, s.len() as int) =~= s);
        assert(self.uavs@ =~= self.uavs@.subrange(0, i as int));
        proof {
            lemma_fresh_keys_unique(s, now, max_age);
        }
    }

    /// The states of all tracked units, one per unit.
    pub fn get_all_uavs(&self) -> (r: &[UAVState])
        ensures
            r@ == self@,
    {
        self.uavs.as_slice()
    }
}

proof fn lemma_fresh_keys_unique(s: Seq<UAVState>, now: u64, max_age: u64)
    requires
        keys_unique(s),
    ensures
        keys_unique(fresh_states(s, now, max_age)),
    decreases s.len(),
{
    if s.len() > 0 {
        let d = s.drop_last();
        assert(keys_unique(d)) by {
            assert forall|a: int, b: int| 0 <= a < b < d.len() implies key(#[trigger] d[a]) != key(#[trigger] d[b]) by {
                assert(d[a] == s[a] && d[b] == s[b]);
            }
        }
        lemma_fresh_keys_unique(d, now, max_age);
        lemma_fresh_states_members(d, now, max_age);
        let r = fresh_states(d, now, max_age);
        if !is_stale(s.last(), now, max_age) {
            let f = r.push(s.last());
            assert forall|a: int, b: int| 0 <= a < b < f.len() implies key(#[trigger] f[a]) != key(#[trigger] f[b]) by {
                if b == f.len() - 1 {
                    let j = choose|j: int| 0 <= j < d.len() && d[j] == #[trigger] r[a];
                    assert(s[j] == d[j]);
                    assert(s[s.len() - 1] == s.last());
                } else {
                    assert(f[a] == r[a] && f[b] == r[b]);
                }
            }
        }
    }
}

/// An update keeps at most one state per unit.
pub proof fn lemma_update_keys_unique(s: Seq<UAVState>, t: Telemetry, now: u64)
    requires
        keys_unique(s),
    ensures
        keys_unique(apply_update(s, t, now)),
{
    lemma_index_of(s, t.sn@);
    let u = apply_update(s, t, now);
    let i = index_of(s, t.sn@);
    assert forall|a: int, b: int| 0 <= a < b < u.len() implies key(#[trigger] u[a]) != key(
        #[trigger] u[b],
    ) by {
        if i >= 0 {
            assert(key(u[a]) == key(s[a]) && key(u[b]) == key(s[b]));
        } else if b == s.len() {
            assert(key(u[a]) == key(s[a]));
        } else {
            assert(u[a] == s[a] && u[b] == s[b]);
        }
    }
}

/// After report `t` is applied, the unit's current report is `t`, its
/// previous report is the one that was current before (none for a unit seen
/// for the first time), and its last update is `now`.
pub proof fn lemma_update_shifts(s: Seq<UAVState>, t: Telemetry, now: u64)
    requires
        keys_unique(s),
    ensures
        unit_state(apply_update(s, t, now), t.sn@) == Some(
            UAVState {
                current: t,
                previous: match unit_state(s, t.sn@) {
                    Some(st) => Some(st.current),
                    None => None,
                },
                last_seen: now,
            },
        ),
        forall|k: Seq<char>|
            k != t.sn@ ==> #[trigger] unit_state(apply_update(s, t, now), k) == unit_state(s, k),
{
    let u = apply_update(s, t, now);
    lemma_index_of(s, t.sn@);
    lemma_update_keys_unique(s, t, now);
    lemma_index_of(u, t.sn@);
    let i = index_of(s, t.sn@);
    if i >= 0 {
        assert(key(u[i]) == t.sn@);
    } else {
        assert(key(u[s.len() as int]) == t.sn@);
    }
    assert forall|k: Seq<char>| k != t.sn@ implies #[trigger] unit_state(u, k) == unit_state(s, k) by {
        lemma_index_of(s, k);
        lemma_index_of(u, k);
        let j = index_of(s, k);
        if j >= 0 {
            assert(key(u[j]) == k);
        } else {
            assert forall|m: int| 0 <= m < u.len() implies key(#[trigger] u[m]) != k by {
                if m < s.len() && m != i {
                    assert(u[m] == s[m]);
                }
            }
        }
    }
}

/// Two reports of one unit applied in turn: the unit's current report is the
/// second and its previous report the first, whatever came before.
pub proof fn lemma_update_twice(s: Seq<UAVState>, t1: Telemetry, t2: Telemetry, now1: u64, now2: u64)
    requires
        keys_unique(s),
        t1.sn@ == t2.sn@,
    ensures
        unit_state(apply_update(apply_update(s, t1, now1), t2, now2), t2.sn@) == Some(
            UAVState { current: t2, previous: Some(t1), last_seen: now2 },
        ),
{
    lemma_update_shifts(s, t1, now1);
    lemma_update_keys_unique(s, t1, now1);
    lemma_update_shifts(apply_update(s, t1, now1), t2, now2);
}

/// Eviction removes a state exactly when it is stale and adds none; in
/// particular a state updated at `now` or later survives any positive
/// `max_age`.
pub proof fn lemma_evict_exactly_stale(s: Seq<UAVState>, now: u64, max_age: u64)
    ensures
        forall|x: UAVState|
            s.contains(x) ==> (#[trigger] fresh_states(s, now, max_age).contains(x) <==> !is_stale(
                x,
                now,
                max_age,
            )),
        forall|x: UAVState| #[trigger]
            fresh_states(s, now, max_age).contains(x) ==> s.contains(x),
        forall|x: UAVState|
            s.contains(x) && x.last_seen >= now && max_age > 0 ==> #[trigger] fresh_states(
                s,
                now,
                max_age,
            ).contains(x),
{
    lemma_fresh_states_members(s, now, max_age);
}

} // verus!
