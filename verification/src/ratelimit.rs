//! Per-client request counting over a fixed (tumbling, non-sliding) window.
//!
//! For each key the limiter keeps one window: a start timestamp and a count.
//! An observation either increments the count of a live window or, when the
//! window has expired (or none exists yet), starts a fresh window whose count
//! is the observation's weight. Bursts that straddle a window boundary can
//! momentarily exceed the intended rate; that boundary behaviour is part of
//! the design, not an accident. The limiter has no notion of a limit: it
//! only counts, and the caller compares the count against its maximum.
//!
//! Time is handed in by the caller as a millisecond timestamp, so the
//! limiter itself is deterministic and never consults a clock.

use vstd::prelude::*;

verus! {

/// Window state for one key: when the window started and how many
/// observation weights have accumulated since.
#[derive(Clone, Copy, Debug, PartialEq, Eq, Structural)]
pub struct RateWindow {
    /// Timestamp (milliseconds) at which this window was started.
    pub start_ms: u64,
    /// Sum of the weights observed since `start_ms`.
    pub count: u64,
}

/// One key together with its current window.
pub struct RateEntry {
    /// The client key.
    pub key: String,
    /// Its window.
    pub window: RateWindow,
}

/// Addition on counts that pegs at `u64::MAX` instead of wrapping.
pub open spec fn sat_add(a: u64, b: u64) -> u64 {
    if a + b > u64::MAX {
        u64::MAX
    } else {
        (a + b) as u64
    }
}

/// A window that started at `w.start_ms` admits no further increments once
/// `window_ms` milliseconds have passed.
pub open spec fn window_expired(w: RateWindow, window_ms: u64, now_ms: u64) -> bool {
    now_ms >= w.start_ms + window_ms
}

/// The window one observation leaves behind: increment a live window,
/// otherwise (no window yet, or expired) start afresh with the weight.
pub open spec fn observe_step(
    prev: Option<RateWindow>,
    window_ms: u64,
    weight: u64,
    now_ms: u64,
) -> RateWindow {
    match prev {
        Some(w) => {
            if window_expired(w, window_ms, now_ms) {
                RateWindow { start_ms: now_ms, count: weight }
            } else {
                RateWindow { start_ms: w.start_ms, count: sat_add(w.count, weight) }
            }
        },
        None => RateWindow { start_ms: now_ms, count: weight },
    }
}

/// The window stored for key `k`, if any: the entry list seen as a map.
pub open spec fn find_window(s: Seq<RateEntry>, k: Seq<char>) -> Option<RateWindow>
    decreases s.len(),
{
    if s.len() == 0 {
        None
    } else if s[0].key@ == k {
        Some(s[0].window)
    } else {
        find_window(s.drop_first(), k)
    }
}

/// Pairwise-distinct keys.
pub open spec fn keys_unique(s: Seq<RateEntry>) -> bool {
    forall|p: int, q: int| 0 <= p < q < s.len() ==> s[p].key@ != s[q].key@
}

/// Under unique keys, the stored window of the entry at `i` is what lookup
/// of its key returns.
proof fn lemma_find_at_index(s: Seq<RateEntry>, i: int)
    requires
        keys_unique(s),
        0 <= i < s.len(),
    ensures
        find_window(s, s[i].key@) == Some(s[i].window),
    decreases s.len(),
{
    if i > 0 {
        assert(s[0].key@ != s[i].key@);
        assert(keys_unique(s.drop_first())) by {
            assert(forall|p: int, q: int|
                0 <= p < q < s.drop_first().len() ==> s.drop_first()[p].key@
                    != s.drop_first()[q].key@) by {
                assert(forall|p: int|
                    0 <= p < s.drop_first().len() ==> s.drop_first()[p] == s[p + 1]);
            }
        }
        lemma_find_at_index(s.drop_first(), i - 1);
    }
}

/// A key held by no entry has no window.
proof fn lemma_find_absent(s: Seq<RateEntry>, k: Seq<char>)
    requires
        forall|j: int| 0 <= j < s.len() ==> s[j].key@ != k,
    ensures
        find_window(s, k) is None,
    decreases s.len(),
{
    if s.len() > 0 {
        assert(forall|j: int|
            0 <= j < s.drop_first().len() ==> s.drop_first()[j] == s[j + 1]);
        lemma_find_absent(s.drop_first(), k);
    }
}

/// A lookup that succeeds names an entry that is really there.
proof fn lemma_find_witness(s: Seq<RateEntry>, k: Seq<char>)
    requires
        find_window(s, k) is Some,
    ensures
        exists|i: int|
            0 <= i < s.len() && (#[trigger] s[i]).key@ == k && Some(s[i].window) == find_window(
                s,
                k,
            ),
    decreases s.len(),
{
    if s.len() > 0 && s[0].key@ != k {
        lemma_find_witness(s.drop_first(), k);
        let i = choose|i: int|
            0 <= i < s.drop_first().len() && (#[trigger] s.drop_first()[i]).key@ == k && Some(
                s.drop_first()[i].window,
            ) == find_window(s.drop_first(), k);
        assert(s[i + 1] == s.drop_first()[i]);
    }
}

/// Tracks one window per key. Windows are created lazily on the first
/// observation of a key and reset in place when they expire; stale entries
/// linger until an explicit sweep drops them.
pub struct RateLimiter {
    /// Duration of a window, milliseconds.
    pub window_ms: u64,
    /// One entry per key ever observed; keys are pairwise distinct.
    pub entries: Vec<RateEntry>,
}

impl RateLimiter {
    /// Structural invariant: no key appears twice.
    pub open spec fn wf(self) -> bool {
        keys_unique(self.entries@)
    }

    /// The window currently stored for key `k`, if any.
    pub open spec fn spec_window(self, k: Seq<char>) -> Option<RateWindow> {
        find_window(self.entries@, k)
    }

    /// A limiter with the given window duration and no keys yet.
    pub fn new(window_ms: u64) -> (l: RateLimiter)
        ensures
            l.wf(),
            l.window_ms == window_ms,
            l.entries@.len() == 0,
    {
        RateLimiter { window_ms, entries: Vec::new() }
    }

    /// Records `weight` observations for `key` at time `now_ms` and returns
    /// the count accumulated in the key's current window, the new
    /// observation included.
    ///
    /// Exactly one key's window changes, and it changes to
    /// `observe_step(previous window, window_ms, weight, now_ms)`: a fresh
    /// window holding `weight` when none existed or the old one had expired,
    /// the old window with `weight` more (pegged at `u64::MAX`) otherwise.
    pub fn observe(&mut self, key: &String, weight: u64, now_ms: u64) -> (count: u64)
        requires
            old(self).wf(),
        ensures
            final(self).wf(),
            final(self).window_ms == old(self).window_ms,
            final(self).spec_window(key@) == Some(
                observe_step(old(self).spec_window(key@), old(self).window_ms, weight, now_ms),
            ),
            count == observe_step(
                old(self).spec_window(key@),
                old(self).window_ms,
                weight,
                now_ms,
            ).count,
            forall|k2: Seq<char>|
                k2 != key@ ==> final(self).spec_window(k2) == old(self).spec_window(k2),
    {
        let ghost s0 = self.entries@;
        let n = self.entries.len();
        let mut i: usize = 0;
        while i < n
            invariant
                *self == *old(self),
                s0 == self.entries@,
                n == s0.len(),
                i <= n,
                old(self).wf(),
                forall|j: int| 0 <= j < i ==> s0[j].key@ != key@,
            decreases n - i,
        {
            if self.entries[i].key == *key {
                let w = self.entries[i].window;
                let expired = now_ms >= w.start_ms && now_ms - w.start_ms >= self.window_ms;
                let neww = if expired {
                    RateWindow { start_ms: now_ms, count: weight }
                } else {
                    let c = if w.count <= u64::MAX - weight {
                        w.count + weight
                    } else {
                        u64::MAX
                    };
                    RateWindow { start_ms: w.start_ms, count: c }
                };
                self.entries[i].window = neww;
                proof {
                    let s1 = self.entries@;
                    lemma_find_at_index(s0, i as int);
                    assert(s1 == s0.update(i as int, s1[i as int]));
                    assert(s1[i as int].key@ == key@);
                    assert forall|p: int, q: int| 0 <= p < q < s1.len() implies s1[p].key@
                        != s1[q].key@ by {
                        assert(s0[p].key@ != s0[q].key@);
                    }
                    lemma_find_at_index(s1, i as int);
                    assert forall|k2: Seq<char>| k2 != key@ implies find_window(s1, k2)
                        == find_window(s0, k2) by {
                        lemma_find_other_keys(s0, s1, i as int, k2);
                    }
                }
                return neww.count;
            }
            i = i + 1;
        }
        // No window for this key yet: start one.
        let entry = RateEntry {
            key: key.clone(),
            window: RateWindow { start_ms: now_ms, count: weight },
        };
        self.entries.push(entry);
        proof {
            let s1 = self.entries@;
            lemma_find_absent(s0, key@);
            assert(forall|j: int| 0 <= j < s0.len() ==> s1[j] == s0[j]);
            assert(s1[s0.len() as int].key@ == key@);
            assert forall|p: int, q: int| 0 <= p < q < s1.len() implies s1[p].key@
                != s1[q].key@ by {
                if q == s0.len() {
                    assert(s1[p] == s0[p]);
                    assert(s0[p].key@ != key@);
                } else {
                    assert(s1[p] == s0[p]);
                    assert(s1[q] == s0[q]);
                }
            }
            lemma_find_at_index(s1, s0.len() as int);
            assert forall|k2: Seq<char>| k2 != key@ implies find_window(s1, k2) == find_window(
                s0,
                k2,
            ) by {
                lemma_find_push_other_keys(s0, s1, k2);
            }
        }
        weight
    }

    /// Opportunistic garbage collection: drops every entry whose window has
    /// expired by `now_ms` and keeps the rest, windows untouched. Only the
    /// dropped keys' lookups change, to "no window" — exactly what a fresh
    /// observation of such a key would have found anyway, so observable
    /// counting behaviour is unaffected.
    pub fn sweep(&mut self, now_ms: u64)
        requires
            old(self).wf(),
        ensures
            final(self).wf(),
            final(self).window_ms == old(self).window_ms,
            forall|k: Seq<char>| #![trigger final(self).spec_window(k)]
                final(self).spec_window(k) == (match old(self).spec_window(k) {
                    Some(w) => {
                        if window_expired(w, old(self).window_ms, now_ms) {
                            None
                        } else {
                            Some(w)
                        }
                    },
                    None => None::<RateWindow>,
                }),
    {
        let ghost s0 = self.entries@;
        let ghost wms = self.window_ms;
        let mut kept: Vec<RateEntry> = Vec::new();
        let ghost mut src: Seq<int> = Seq::empty();
        let n = self.entries.len();
        let mut i: usize = 0;
        while i < n
            invariant
                *self == *old(self),
                s0 == self.entries@,
                wms == self.window_ms,
                n == s0.len(),
                i <= n,
                old(self).wf(),
                src.len() == kept@.len(),
                forall|j: int|
                    0 <= j < src.len() ==> 0 <= #[trigger] src[j] < i && kept@[j] == s0[src[j]]
                        && !window_expired(s0[src[j]].window, wms, now_ms),
                forall|j1: int, j2: int| 0 <= j1 < j2 < src.len() ==> src[j1] < src[j2],
                forall|p: int|
                    0 <= p < i && !window_expired((#[trigger] s0[p]).window, wms, now_ms)
                        ==> exists|j: int| 0 <= j < src.len() && src[j] == p,
            decreases n - i,
        {
            let w = self.entries[i].window;
            let expired = now_ms >= w.start_ms && now_ms - w.start_ms >= self.window_ms;
            if !expired {
                kept.push(RateEntry { key: self.entries[i].key.clone(), window: w });
                proof {
                    let src_old = src;
                    src = src.push(i as int);
                    assert forall|p: int|
                        0 <= p < i + 1 && !window_expired(
                            (#[trigger] s0[p]).window,
                            wms,
                            now_ms,
                        ) implies exists|j: int| 0 <= j < src.len() && src[j] == p by {
                        if p < i {
                            let j = choose|j: int| 0 <= j < src_old.len() && src_old[j] == p;
                            assert(src[j] == p);
                        } else {
                            assert(src[src.len() - 1] == p);
                        }
                    }
                }
            } else {
                proof {
                    assert(window_expired(s0[i as int].window, wms, now_ms));
                }
            }
            i = i + 1;
        }
        self.entries = kept;
        proof {
            let s1 = self.entries@;
            assert forall|j1: int, j2: int| 0 <= j1 < j2 < s1.len() implies s1[j1].key@
                != s1[j2].key@ by {
                assert(s0[src[j1]].key@ != s0[src[j2]].key@);
            }
            assert forall|k: Seq<char>| #![trigger find_window(s1, k)]
                find_window(s1, k) == (match find_window(s0, k) {
                    Some(w) => {
                        if window_expired(w, wms, now_ms) {
                            None
                        } else {
                            Some(w)
                        }
                    },
                    None => None::<RateWindow>,
                }) by {
                match find_window(s0, k) {
                    Some(w) => {
                        lemma_find_witness(s0, k);
                        let p = choose|p: int|
                            0 <= p < s0.len() && (#[trigger] s0[p]).key@ == k && Some(
                                s0[p].window,
                            ) == find_window(s0, k);
                        if window_expired(w, wms, now_ms) {
                            assert forall|j: int| 0 <= j < s1.len() implies s1[j].key@
                                != k by {
                                if s1[j].key@ == k {
                                    assert(s0[src[j]].key@ == s0[p].key@);
                                    assert(src[j] == p);
                                }
                            }
                            lemma_find_absent(s1, k);
                        } else {
                            let j = choose|j: int| 0 <= j < src.len() && src[j] == p;
                            assert(s1[j] == s0[p]);
                            lemma_find_at_index(s1, j);
                        }
                    },
                    None => {
                        assert forall|j: int| 0 <= j < s1.len() implies s1[j].key@ != k by {
                            if s1[j].key@ == k {
                                lemma_find_at_index(s0, src[j]);
                            }
                        }
                        lemma_find_absent(s1, k);
                    },
                }
            }
        }
    }
}

/// Updating the entry at `i` without touching its key leaves every other
/// key's lookup unchanged.
proof fn lemma_find_other_keys(s0: Seq<RateEntry>, s1: Seq<RateEntry>, i: int, k2: Seq<char>)
    requires
        keys_unique(s0),
        0 <= i < s0.len(),
        s1 == s0.update(i, s1[i]),
        s1[i].key@ == s0[i].key@,
        k2 != s0[i].key@,
    ensures
        find_window(s1, k2) == find_window(s0, k2),
{
    assert forall|p: int, q: int| 0 <= p < q < s1.len() implies s1[p].key@ != s1[q].key@ by {
        assert(s0[p].key@ != s0[q].key@);
    }
    if exists|j: int| 0 <= j < s0.len() && s0[j].key@ == k2 {
        let j = choose|j: int| 0 <= j < s0.len() && s0[j].key@ == k2;
        assert(j != i);
        assert(s1[j] == s0[j]);
        lemma_find_at_index(s0, j);
        lemma_find_at_index(s1, j);
    } else {
        assert(forall|j: int| 0 <= j < s0.len() ==> s0[j].key@ != k2);
        assert(forall|j: int| 0 <= j < s1.len() ==> s1[j].key@ != k2);
        lemma_find_absent(s0, k2);
        lemma_find_absent(s1, k2);
    }
}

/// Appending an entry with a fresh key leaves every other key's lookup
/// unchanged.
proof fn lemma_find_push_other_keys(s0: Seq<RateEntry>, s1: Seq<RateEntry>, k2: Seq<char>)
    requires
        keys_unique(s0),
        s1.len() == s0.len() + 1,
        forall|j: int| 0 <= j < s0.len() ==> s1[j] == s0[j],
        forall|j: int| 0 <= j < s0.len() ==> s0[j].key@ != s1[s0.len() as int].key@,
        k2 != s1[s0.len() as int].key@,
    ensures
        find_window(s1, k2) == find_window(s0, k2),
{
    assert forall|p: int, q: int| 0 <= p < q < s1.len() implies s1[p].key@ != s1[q].key@ by {
        if q == s0.len() {
            assert(s1[p] == s0[p]);
        } else {
            assert(s1[p] == s0[p]);
            assert(s1[q] == s0[q]);
        }
    }
    if exists|j: int| 0 <= j < s0.len() && s0[j].key@ == k2 {
        let j = choose|j: int| 0 <= j < s0.len() && s0[j].key@ == k2;
        lemma_find_at_index(s0, j);
        lemma_find_at_index(s1, j);
    } else {
        assert(forall|j: int| 0 <= j < s0.len() ==> s0[j].key@ != k2);
        assert(forall|j: int| 0 <= j < s1.len() ==> s1[j].key@ != k2);
        lemma_find_absent(s0, k2);
        lemma_find_absent(s1, k2);
    }
}

/// The windows a run of observations of one key leaves behind, oldest call
/// first, starting from no window at all.
pub open spec fn observe_run(window_ms: u64, weight: u64, times: Seq<u64>) -> Option<RateWindow>
    decreases times.len(),
{
    if times.len() == 0 {
        None
    } else {
        Some(
            observe_step(
                observe_run(window_ms, weight, times.drop_last()),
                window_ms,
                weight,
                times.last(),
            ),
        )
    }
}

/// Counting law of the tumbling window: a run of single-weight observations
/// of one key, all made before the first one's window expires, yields the
/// counts 1, 2, 3, ... — the k-th call returns exactly k, and after m calls
/// the stored window still starts at the first call's time and holds m.
pub proof fn lemma_window_counts(window_ms: u64, times: Seq<u64>)
    requires
        times.len() >= 1,
        times.len() <= u64::MAX,
        forall|j: int| 0 < j < times.len() ==> #[trigger] times[j] < times[0] + window_ms,
    ensures
        observe_run(window_ms, 1, times) == Some(
            RateWindow { start_ms: times[0], count: times.len() as u64 },
        ),
        forall|k: int|
            1 <= k <= times.len() ==> #[trigger] observe_run(window_ms, 1, times.take(k))
                == Some(RateWindow { start_ms: times[0], count: k as u64 }),
    decreases times.len(),
{
    if times.len() == 1 {
        assert(observe_run(window_ms, 1, times.drop_last()) == None::<RateWindow>);
        assert(times.last() == times[0]);
        assert(times.take(1) =~= times);
    } else {
        lemma_window_counts(window_ms, times.drop_last());
        assert(times.drop_last()[0] == times[0]);
        assert(times.last() < times[0] + window_ms);
        assert forall|k: int|
            1 <= k <= times.len() implies #[trigger] observe_run(window_ms, 1, times.take(k))
            == Some(RateWindow { start_ms: times[0], count: k as u64 }) by {
            if k < times.len() {
                assert(times.take(k) =~= times.drop_last().take(k));
            } else {
                assert(times.take(k) =~= times);
            }
        }
    }
}

/// Reset law of the tumbling window: once the stored window has expired (or
/// none exists), the next observation starts a fresh window at its own time
/// whose count is just that observation's weight.
pub proof fn lemma_window_reset(
    prev: Option<RateWindow>,
    window_ms: u64,
    weight: u64,
    now_ms: u64,
)
    requires
        (prev matches Some(w) ==> window_expired(w, window_ms, now_ms)),
    ensures
        observe_step(prev, window_ms, weight, now_ms) == (RateWindow {
            start_ms: now_ms,
            count: weight,
        }),
{
}

} // verus!
