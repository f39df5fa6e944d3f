//! Login rate limiting: failed logins are remembered per client address for
//! a window of time, and an address with too many recent failures is
//! refused until they age out.
use vstd::prelude::*;

verus! {

/// How long a failed login counts, in milliseconds (15 minutes).
pub const FAIL_WINDOW_MS: u64 = 900000;

/// Failures within the window after which an address is refused.
pub const FAIL_LIMIT: usize = 5;

/// Addresses remembered at most; beyond this one is forgotten to make room.
pub const MAX_TRACKED_IPS: usize = 2048;

/// Failure times by client address, in order of first failure.
pub type FailsView = Seq<(Seq<char>, Seq<u64>)>;

/// The failed logins per client address; times are milliseconds on a
/// monotonic clock.
pub struct LoginLimiter {
    fails: Vec<(String, Vec<u64>)>,
}

/// The times still within the window at `now`.
pub open spec fn recent(ts: Seq<u64>, now: u64) -> Seq<u64>
    decreases ts.len(),
{
    if ts.len() == 0 {
        Seq::empty()
    } else {
        let r = recent(ts.drop_last(), now);
        let t = ts.last();
        if (if now >= t { now - t } else { 0 }) < FAIL_WINDOW_MS {
            r.push(t)
        } else {
            r
        }
    }
}

/// Old failures dropped, and addresses with none left forgotten.
pub open spec fn sweep(fails: FailsView, now: u64) -> FailsView
    decreases fails.len(),
{
    if fails.len() == 0 {
        Seq::empty()
    } else {
        let s = sweep(fails.drop_last(), now);
        let e = fails.last();
        let kept = recent(e.1, now);
        if kept.len() > 0 {
            s.push((e.0, kept))
        } else {
            s
        }
    }
}

/// The recent failures of `ip`.
pub open spec fn count_of(fails: FailsView, ip: Seq<char>) -> nat
    decreases fails.len(),
{
    if fails.len() == 0 {
        0
    } else if fails[0].0 == ip {
        fails[0].1.len()
    } else {
        count_of(fails.drop_first(), ip)
    }
}

pub open spec fn has_entry(fails: FailsView, ip: Seq<char>) -> bool {
    exists|i: int| 0 <= i < fails.len() && (#[trigger] fails[i]).0 == ip
}

/// The entry to forget when the table is full: among those with fewer
/// failures than the limit (else among all), the one whose last failure is
/// oldest, the first such in the table.
pub open spec fn evict_pick(fails: FailsView, open_only: bool, k: int) -> Option<int>
    decreases k,
{
    if k <= 0 {
        None
    } else {
        let best = evict_pick(fails, open_only, k - 1);
        let i = k - 1;
        let ok = !open_only || fails[i].1.len() < FAIL_LIMIT;
        if ok && (best is None || fails[i].1.last() < fails[best->Some_0].1.last()) {
            Some(i)
        } else {
            best
        }
    }
}

pub open spec fn evict_spec(fails: FailsView) -> FailsView {
    let pick = match evict_pick(fails, true, fails.len() as int) {
        Some(i) => Some(i),
        None => evict_pick(fails, false, fails.len() as int),
    };
    match pick {
        Some(i) => fails.remove(i),
        None => fails,
    }
}

/// `now` added to the failures of `ip` (a new entry at the end when it has none).
pub open spec fn add_fail(fails: FailsView, ip: Seq<char>, now: u64) -> FailsView
    decreases fails.len(),
{
    if fails.len() == 0 {
        seq![(ip, seq![now])]
    } else if fails[0].0 == ip {
        fails.update(0, (ip, fails[0].1.push(now)))
    } else {
        seq![fails[0]] + add_fail(fails.drop_first(), ip, now)
    }
}

/// What recording a failure does: old failures are swept; when `ip` is new
/// and the table is full, one entry is forgotten; then the failure is added.
pub open spec fn record_spec(fails: FailsView, ip: Seq<char>, now: u64) -> FailsView {
    let s = sweep(fails, now);
    let t = if !has_entry(s, ip) && s.len() >= MAX_TRACKED_IPS {
        evict_spec(s)
    } else {
        s
    };
    add_fail(t, ip, now)
}

/// `ip` forgotten.
pub open spec fn clear_spec(fails: FailsView, ip: Seq<char>) -> FailsView
    decreases fails.len(),
{
    if fails.len() == 0 {
        Seq::empty()
    } else if fails[0].0 == ip {
        fails.drop_first()
    } else {
        seq![fails[0]] + clear_spec(fails.drop_first(), ip)
    }
}

impl LoginLimiter {
    pub closed spec fn view(&self) -> FailsView {
        Seq::new(self.fails@.len(), |i: int| (self.fails@[i].0@, self.fails@[i].1@))
    }

    /// Each address appears once.
    pub closed spec fn wf(&self) -> bool {
        &&& forall|a: int, b: int|
            0 <= a < b < self.fails@.len() ==> (#[trigger] self.fails@[a]).0@ != (#[trigger] self.fails@[b]).0@
        &&& forall|a: int| 0 <= a < self.fails@.len() ==> (#[trigger] self.fails@[a]).1@.len() > 0
    }

    pub fn new() -> (r: LoginLimiter)
        ensures
            r.wf(),
            r.view() == Seq::<(Seq<char>, Seq<u64>)>::empty(),
    {
        let r = LoginLimiter { fails: Vec::new() };
        proof {
            assert(r.view() =~= Seq::<(Seq<char>, Seq<u64>)>::empty());
        }
        r
    }
}


proof fn lemma_first_idx(fs: FailsView, ip: Seq<char>, now: u64, i: int)
    requires
        0 <= i <= fs.len(),
        forall|j: int| 0 <= j < i ==> (#[trigger] fs[j]).0 != ip,
        i < fs.len() ==> fs[i].0 == ip,
    ensures
        add_fail(fs, ip, now) == (if i < fs.len() {
            fs.update(i, (ip, fs[i].1.push(now)))
        } else {
            fs.push((ip, seq![now]))
        }),
        clear_spec(fs, ip) == (if i < fs.len() {
            fs.remove(i)
        } else {
            fs
        }),
        count_of(fs, ip) == (if i < fs.len() {
            fs[i].1.len()
        } else {
            0
        }),
        has_entry(fs, ip) == (i < fs.len()),
    decreases i,
{
    if i > 0 {
        lemma_first_idx(fs.drop_first(), ip, now, i - 1);
        if i < fs.len() {
            assert(seq![fs[0]] + fs.drop_first().update(i - 1, (ip, fs[i].1.push(now))) =~= fs.update(
                i,
                (ip, fs[i].1.push(now)),
            ));
            assert(seq![fs[0]] + fs.drop_first().remove(i - 1) =~= fs.remove(i));
        } else {
            assert(seq![fs[0]] + fs.drop_first().push((ip, seq![now])) =~= fs.push((ip, seq![now])));
            assert(seq![fs[0]] + fs.drop_first() =~= fs);
            assert(!has_entry(fs, ip)) by {
                assert forall|j: int| 0 <= j < fs.len() implies (#[trigger] fs[j]).0 != ip by {}
            }
        }
        if i < fs.len() {
            assert(fs[i].0 == ip);
        }
    } else {
        if fs.len() == 0 {
            assert(seq![(ip, seq![now])] =~= fs.push((ip, seq![now])));
        } else {
            assert(fs.remove(0) =~= fs.drop_first());
            assert(fs[0].0 == ip);
        }
    }
}

impl LoginLimiter {
    fn first_idx(&self, ip: &str) -> (r: usize)
        ensures
            r <= self.fails@.len(),
            forall|j: int| 0 <= j < r ==> (#[trigger] self.view()[j]).0 != ip@,
            r < self.fails@.len() ==> self.view()[r as int].0 == ip@,
    {
        let mut i: usize = 0;
        while i < self.fails.len()
            invariant
                i <= self.fails@.len(),
                forall|j: int| 0 <= j < i ==> (#[trigger] self.view()[j]).0 != ip@,
            decreases self.fails.len() - i,
        {
            if crate::text::str_eq(self.fails[i].0.as_str(), ip) {
                return i;
            }
            i += 1;
        }
        i
    }

    fn sweep_now(&mut self, now: u64)
        requires
            old(self).wf(),
        ensures
            final(self).wf(),
            final(self).view() == sweep(old(self).view(), now),
    {
        let mut all: Vec<(String, Vec<u64>)> = Vec::new();
        std::mem::swap(&mut all, &mut self.fails);
        let ghost av = Seq::new(all@.len(), |i: int| (all@[i].0@, all@[i].1@));
        proof {
            assert(av == old(self).view());
            assert(av.take(0) =~= Seq::<(Seq<char>, Seq<u64>)>::empty());
            assert(self.view() =~= Seq::<(Seq<char>, Seq<u64>)>::empty());
        }
        let mut i: usize = 0;
        while i < all.len()
            invariant
                i <= all.len(),
                av == Seq::new(all@.len(), |k: int| (all@[k].0@, all@[k].1@)),
                forall|a: int, b: int|
                    0 <= a < b < all@.len() ==> (#[trigger] all@[a]).0@ != (#[trigger] all@[b]).0@,
                self.wf(),
                self.view() == sweep(av.take(i as int), now),
                forall|a: int| 0 <= a < self.fails@.len() ==> exists|j: int| 0 <= j < i && (#[trigger] self.fails@[a]).0@ == all@[j].0@,
            decreases all.len() - i,
        {
            let ts = &all[i].1;
            let mut kept: Vec<u64> = Vec::new();
            let mut k: usize = 0;
            proof {
                assert(ts@.take(0) =~= Seq::<u64>::empty());
            }
            while k < ts.len()
                invariant
                    k <= ts.len(),
                    kept@ == recent(ts@.take(k as int), now),
                decreases ts.len() - k,
            {
                proof {
                    assert(ts@.take(k + 1).drop_last() =~= ts@.take(k as int));
                    assert(ts@.take(k + 1).last() == ts@[k as int]);
                }
                let t = ts[k];
                if now.saturating_sub(t) < FAIL_WINDOW_MS {
                    kept.push(t);
                }
                k += 1;
            }
            proof {
                assert(ts@.take(k as int) =~= ts@);
                assert(av.take(i + 1).drop_last() =~= av.take(i as int));
                assert(av.take(i + 1).last() == (all@[i as int].0@, all@[i as int].1@));
            }
            if kept.len() > 0 {
                let ghost before = self.view();
                let ghost old_fails = self.fails@;
                let key = all[i].0.clone();
                self.fails.push((key, kept));
                proof {
                    assert(self.view() =~= before.push((all@[i as int].0@, kept@)));
                    assert forall|a: int, b: int|
                        0 <= a < b < self.fails@.len() implies (#[trigger] self.fails@[a]).0@
                        != (#[trigger] self.fails@[b]).0@ by {
                        if b == self.fails@.len() - 1 {
                            assert(self.fails@[a] == old_fails[a]);
                            let j = choose|j: int| 0 <= j < i && old_fails[a].0@ == all@[j].0@;
                            assert(all@[j].0@ != all@[i as int].0@);
                        } else {
                            assert(self.fails@[a] == old_fails[a]);
                            assert(self.fails@[b] == old_fails[b]);
                        }
                    }
                    assert forall|a: int| 0 <= a < self.fails@.len() implies exists|j: int|
                        0 <= j < i + 1 && (#[trigger] self.fails@[a]).0@ == all@[j].0@ by {
                        if a == self.fails@.len() - 1 {
                            assert(self.fails@[a].0@ == all@[i as int].0@);
                        } else {
                            assert(self.fails@[a] == old_fails[a]);
                            let j = choose|j: int| 0 <= j < i && old_fails[a].0@ == all@[j].0@;
                            assert(0 <= j < i + 1 && self.fails@[a].0@ == all@[j].0@);
                        }
                    }
                }
            }
            i += 1;
        }
        proof {
            assert(av.take(i as int) =~= av);
        }
    }

    /// Whether `ip` is refused at `now`: it has at least [`FAIL_LIMIT`]
    /// failures within the window. Old failures are forgotten on the way.
    pub fn blocked(&mut self, ip: &str, now: u64) -> (r: bool)
        requires
            old(self).wf(),
        ensures
            final(self).wf(),
            final(self).view() == sweep(old(self).view(), now),
            r == (count_of(sweep(old(self).view(), now), ip@) >= FAIL_LIMIT),
    {
        self.sweep_now(now);
        let i = self.first_idx(ip);
        proof {
            lemma_first_idx(self.view(), ip@, now, i as int);
        }
        if i < self.fails.len() {
            self.fails[i].1.len() >= FAIL_LIMIT
        } else {
            false
        }
    }

    fn last_of(&self, i: usize) -> (r: u64)
        requires
            self.wf(),
            i < self.fails@.len(),
        ensures
            self.view()[i as int].1.len() > 0,
            r == self.view()[i as int].1.last(),
    {
        let ts = &self.fails[i].1;
        proof {
            assert(self.view()[i as int].1 == ts@);
        }
        ts[ts.len() - 1]
    }

    fn evict_one(&mut self)
        requires
            old(self).wf(),
        ensures
            final(self).wf(),
            final(self).view() == evict_spec(old(self).view()),
    {
        let ghost v = self.view();
        let mut best_open: Option<usize> = None;
        let mut best_any: Option<usize> = None;
        let mut k: usize = 0;
        while k < self.fails.len()
            invariant
                k <= self.fails@.len(),
                self.wf(),
                v == self.view(),
                best_open == (match evict_pick(v, true, k as int) {
                    Some(i) => Some(i as usize),
                    None => None::<usize>,
                }),
                best_any == (match evict_pick(v, false, k as int) {
                    Some(i) => Some(i as usize),
                    None => None::<usize>,
                }),
                evict_pick(v, true, k as int) matches Some(i) ==> 0 <= i < k,
                evict_pick(v, false, k as int) matches Some(i) ==> 0 <= i < k,
            decreases self.fails.len() - k,
        {
            let l = self.last_of(k);
            let open = self.fails[k].1.len() < FAIL_LIMIT;
            proof {
                assert(v[k as int].1 == self.fails@[k as int].1@);
            }
            let better_open = match best_open {
                None => true,
                Some(b) => l < self.last_of(b),
            };
            if open && better_open {
                best_open = Some(k);
            }
            let better_any = match best_any {
                None => true,
                Some(b) => l < self.last_of(b),
            };
            if better_any {
                best_any = Some(k);
            }
            k += 1;
        }
        let pick = match best_open {
            Some(i) => Some(i),
            None => best_any,
        };
        match pick {
            Some(i) => {
                let ghost before = self.fails@;
                let _ = self.fails.remove(i);
                proof {
                    assert(self.view() =~= v.remove(i as int));
                    assert forall|a: int, b: int|
                        0 <= a < b < self.fails@.len() implies (#[trigger] self.fails@[a]).0@
                        != (#[trigger] self.fails@[b]).0@ by {
                        let a0 = if a < i { a } else { a + 1 };
                        let b0 = if b < i { b } else { b + 1 };
                        assert(self.fails@[a] == before[a0]);
                        assert(self.fails@[b] == before[b0]);
                    }
                    assert forall|a: int| 0 <= a < self.fails@.len() implies (#[trigger] self.fails@[a]).1@.len() > 0 by {
                        let a0 = if a < i { a } else { a + 1 };
                        assert(self.fails@[a] == before[a0]);
                    }
                }
            },
            None => {},
        }
    }


    /// Records a failed login of `ip` at `now`.
    pub fn record_fail(&mut self, ip: &str, now: u64)
        requires
            old(self).wf(),
        ensures
            final(self).wf(),
            final(self).view() == record_spec(old(self).view(), ip@, now),
    {
        self.sweep_now(now);
        let i = self.first_idx(ip);
        proof {
            lemma_first_idx(self.view(), ip@, now, i as int);
        }
        if i == self.fails.len() && self.fails.len() >= MAX_TRACKED_IPS {
            self.evict_one();
        }
        let ghost t = self.view();
        let j = self.first_idx(ip);
        proof {
            lemma_first_idx(t, ip@, now, j as int);
        }
        let ghost before = self.fails@;
        if j < self.fails.len() {
            let (k, mut ts) = self.fails.remove(j);
            ts.push(now);
            self.fails.insert(j, (k, ts));
            proof {
                assert(self.view() =~= t.update(j as int, (ip@, t[j as int].1.push(now))));
                assert forall|a: int, b: int|
                    0 <= a < b < self.fails@.len() implies (#[trigger] self.fails@[a]).0@
                    != (#[trigger] self.fails@[b]).0@ by {
                    assert(self.fails@[a].0@ == before[a].0@);
                    assert(self.fails@[b].0@ == before[b].0@);
                }
                assert forall|a: int| 0 <= a < self.fails@.len() implies (#[trigger] self.fails@[a]).1@.len() > 0 by {
                    if a != j {
                        assert(self.fails@[a] == before[a]);
                    }
                }
            }
        } else {
            let mut ts: Vec<u64> = Vec::new();
            ts.push(now);
            self.fails.push((ip.to_string(), ts));
            proof {
                assert(self.view() =~= t.push((ip@, seq![now])));
                assert forall|a: int, b: int|
                    0 <= a < b < self.fails@.len() implies (#[trigger] self.fails@[a]).0@
                    != (#[trigger] self.fails@[b]).0@ by {
                    if b == self.fails@.len() - 1 {
                        assert(self.fails@[a] == before[a]);
                        assert(t[a].0 == before[a].0@);
                    } else {
                        assert(self.fails@[a] == before[a]);
                        assert(self.fails@[b] == before[b]);
                    }
                }
                assert forall|a: int| 0 <= a < self.fails@.len() implies (#[trigger] self.fails@[a]).1@.len() > 0 by {
                    if a < self.fails@.len() - 1 {
                        assert(self.fails@[a] == before[a]);
                    }
                }
            }
        }
    }

    /// Forgets the failures of `ip` (after a successful login).
    pub fn clear(&mut self, ip: &str)
        requires
            old(self).wf(),
        ensures
            final(self).wf(),
            final(self).view() == clear_spec(old(self).view(), ip@),
    {
        let i = self.first_idx(ip);
        proof {
            lemma_first_idx(self.view(), ip@, 0, i as int);
        }
        if i < self.fails.len() {
            let ghost before = self.fails@;
            let ghost v = self.view();
            let _ = self.fails.remove(i);
            proof {
                assert(self.view() =~= v.remove(i as int));
                assert forall|a: int, b: int|
                    0 <= a < b < self.fails@.len() implies (#[trigger] self.fails@[a]).0@
                    != (#[trigger] self.fails@[b]).0@ by {
                    let a0 = if a < i { a } else { a + 1 };
                    let b0 = if b < i { b } else { b + 1 };
                    assert(self.fails@[a] == before[a0]);
                    assert(self.fails@[b] == before[b0]);
                }
                assert forall|a: int| 0 <= a < self.fails@.len() implies (#[trigger] self.fails@[a]).1@.len() > 0 by {
                    let a0 = if a < i { a } else { a + 1 };
                    assert(self.fails@[a] == before[a0]);
                }
            }
        }
    }
}


/// The first position of `ip`, or the length when it has none.
pub open spec fn first_index(fs: FailsView, ip: Seq<char>) -> int
    decreases fs.len(),
{
    if fs.len() == 0 {
        0
    } else if fs[0].0 == ip {
        0
    } else {
        1 + first_index(fs.drop_first(), ip)
    }
}

proof fn lemma_first_index(fs: FailsView, ip: Seq<char>)
    ensures
        0 <= first_index(fs, ip) <= fs.len(),
        forall|j: int| 0 <= j < first_index(fs, ip) ==> (#[trigger] fs[j]).0 != ip,
        first_index(fs, ip) < fs.len() ==> fs[first_index(fs, ip)].0 == ip,
    decreases fs.len(),
{
    if fs.len() > 0 && fs[0].0 != ip {
        lemma_first_index(fs.drop_first(), ip);
        assert forall|j: int| 0 <= j < first_index(fs, ip) implies (#[trigger] fs[j]).0 != ip by {
            if j > 0 {
                assert(fs[j] == fs.drop_first()[j - 1]);
            }
        }
    }
}

proof fn lemma_sweep_absent(fs: FailsView, ip: Seq<char>, now: u64)
    requires
        !has_entry(fs, ip),
    ensures
        !has_entry(sweep(fs, now), ip),
    decreases fs.len(),
{
    if fs.len() > 0 {
        assert(!has_entry(fs.drop_last(), ip)) by {
            if has_entry(fs.drop_last(), ip) {
                let j = choose|j: int| 0 <= j < fs.drop_last().len() && (#[trigger] fs.drop_last()[j]).0 == ip;
                assert(fs[j] == fs.drop_last()[j]);
            }
        }
        lemma_sweep_absent(fs.drop_last(), ip, now);
        let s = sweep(fs.drop_last(), now);
        let r = sweep(fs, now);
        assert(fs.last() == fs[fs.len() - 1]);
        if has_entry(r, ip) {
            let j = choose|j: int| 0 <= j < r.len() && (#[trigger] r[j]).0 == ip;
            if j < s.len() {
                assert(r[j] == s[j]);
            }
        }
    }
}

proof fn lemma_remove_absent(fs: FailsView, ip: Seq<char>, i: int)
    requires
        0 <= i < fs.len(),
        !has_entry(fs, ip),
    ensures
        !has_entry(fs.remove(i), ip),
{
    let r = fs.remove(i);
    if has_entry(r, ip) {
        let j = choose|j: int| 0 <= j < r.len() && (#[trigger] r[j]).0 == ip;
        let j0 = if j < i { j } else { j + 1 };
        assert(r[j] == fs[j0]);
    }
}

proof fn lemma_count_first(fs: FailsView, ip: Seq<char>, now: u64)
    ensures
        count_of(fs, ip) == (if has_entry(fs, ip) {
            fs[first_index(fs, ip)].1.len()
        } else {
            0
        }),
        count_of(add_fail(fs, ip, now), ip) == count_of(fs, ip) + 1,
{
    lemma_first_index(fs, ip);
    let i = first_index(fs, ip);
    lemma_first_idx(fs, ip, now, i);
    let a = add_fail(fs, ip, now);
    if i < fs.len() {
        assert forall|j: int| 0 <= j < i implies (#[trigger] a[j]).0 != ip by {
            assert(a[j] == fs[j]);
        }
        lemma_first_idx(a, ip, now, i);
    } else {
        assert forall|j: int| 0 <= j < i implies (#[trigger] a[j]).0 != ip by {
            assert(a[j] == fs[j]);
        }
        lemma_first_idx(a, ip, now, i);
    }
}

/// Each recorded failure counts: after a failure of `ip` is recorded at
/// `now`, `ip` has one failure more than the ones still within the window.
pub proof fn law_record_counts_one_more(v: FailsView, ip: Seq<char>, now: u64)
    ensures
        count_of(record_spec(v, ip, now), ip) == count_of(sweep(v, now), ip) + 1,
{
    let s = sweep(v, now);
    let t = if !has_entry(s, ip) && s.len() >= MAX_TRACKED_IPS {
        evict_spec(s)
    } else {
        s
    };
    lemma_count_first(s, ip, now);
    if !has_entry(s, ip) && s.len() >= MAX_TRACKED_IPS {
        let pick = match evict_pick(s, true, s.len() as int) {
            Some(i) => Some(i),
            None => evict_pick(s, false, s.len() as int),
        };
        match pick {
            Some(i) => {
                lemma_evict_pick_range(s, true, s.len() as int);
                lemma_evict_pick_range(s, false, s.len() as int);
                lemma_remove_absent(s, ip, i);
            },
            None => {},
        }
        assert(!has_entry(t, ip));
    }
    lemma_count_first(t, ip, now);
}

proof fn lemma_evict_pick_range(fs: FailsView, open_only: bool, k: int)
    requires
        k <= fs.len(),
    ensures
        evict_pick(fs, open_only, k) matches Some(i) ==> 0 <= i < k,
    decreases k,
{
    if k > 0 {
        lemma_evict_pick_range(fs, open_only, k - 1);
    }
}

pub open spec fn keys_unique(v: FailsView) -> bool {
    forall|a: int, b: int| 0 <= a < b < v.len() ==> (#[trigger] v[a]).0 != (#[trigger] v[b]).0
}

/// An address whose failures were cleared is not refused, whenever asked.
pub proof fn law_cleared_not_blocked(v: FailsView, ip: Seq<char>, now: u64)
    requires
        keys_unique(v),
    ensures
        count_of(sweep(clear_spec(v, ip), now), ip) < FAIL_LIMIT,
{
    lemma_first_index(v, ip);
    let i = first_index(v, ip);
    lemma_first_idx(v, ip, now, i);
    let c = clear_spec(v, ip);
    if i < v.len() {
        assert(!has_entry(c, ip)) by {
            if has_entry(c, ip) {
                let j = choose|j: int| 0 <= j < c.len() && (#[trigger] c[j]).0 == ip;
                let j0 = if j < i { j } else { j + 1 };
                assert(c[j] == v[j0]);
                if j0 < i {
                    assert(v[j0].0 != ip);
                } else {
                    assert(v[i].0 != v[j0].0);
                }
            }
        }
    }
    lemma_sweep_absent(c, ip, now);
    lemma_count_first(sweep(c, now), ip, now);
}

} // verus!
