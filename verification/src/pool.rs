//! The backend pool: a fixed, ordered set of backends whose only mutable
//! state is a per-backend health flag, plus the round-robin selection cursor.
//!
//! Selection scans forward from the cursor, wrapping, for at most
//! `attempt_bound` steps, and returns the first healthy backend it meets;
//! the cursor then moves past the returned backend so consecutive calls
//! rotate across the healthy backends. The scan itself never blocks and
//! never performs I/O; probing is the caller's business and only its result
//! (`apply_probe`) is applied here.

use vstd::prelude::*;

verus! {

use vstd::arithmetic::div_mod::{
    lemma_add_mod_noop,
    lemma_add_mod_noop_right,
    lemma_fundamental_div_mod,
    lemma_fundamental_div_mod_converse,
    lemma_mod_bound,
    lemma_mod_equivalence,
    lemma_mod_multiples_vanish,
    lemma_mod_self_0,
    lemma_small_mod,
};

/// Liveness of one backend, as last reported by its probe.
#[derive(Clone, Copy, Debug, PartialEq, Eq, Structural)]
pub enum HealthStatus {
    /// The last probe reached the backend.
    Healthy,
    /// The last probe failed or timed out.
    Unhealthy,
}

/// One upstream server: an immutable address and a mutable health flag.
#[derive(Debug)]
pub struct Backend {
    /// Host part of the address (an IP literal or a name).
    pub host: String,
    /// TCP port of the backend.
    pub port: u16,
    /// Current health flag; the only field that ever changes.
    pub status: HealthStatus,
}

/// Why selection can fail.
#[derive(Clone, Copy, Debug, PartialEq, Eq, Structural)]
pub enum SelectError {
    /// The bounded scan met no healthy backend.
    NoHealthyBackend,
}

/// The next index after `i` in cyclic order over `0..len`.
pub open spec fn wrap_next(i: int, len: int) -> int {
    if i + 1 == len {
        0
    } else {
        i + 1
    }
}

/// Steps from `start` to `j` when walking forward cyclically over `0..len`.
pub open spec fn cyclic_distance(start: int, j: int, len: int) -> int {
    if j >= start {
        j - start
    } else {
        j - start + len
    }
}

/// The index the bounded scan returns: starting at `start`, walk forward
/// (wrapping) for at most `attempts` steps and stop at the first healthy
/// backend; `None` when the budget runs out first.
pub open spec fn scan_from(s: Seq<Backend>, start: int, attempts: nat) -> Option<int>
    recommends
        s.len() >= 1,
        0 <= start < s.len(),
    decreases attempts,
{
    if attempts == 0 {
        None
    } else if 0 <= start < s.len() && s[start].status is Healthy {
        Some(start)
    } else {
        scan_from(s, wrap_next(start, s.len() as int), (attempts - 1) as nat)
    }
}

/// Whatever the scan returns is in range and healthy.
pub proof fn lemma_scan_some_healthy(s: Seq<Backend>, start: int, attempts: nat)
    ensures
        scan_from(s, start, attempts) matches Some(j) ==> 0 <= j < s.len() && s[j].status
            is Healthy,
    decreases attempts,
{
    if attempts > 0 && !(0 <= start < s.len() && s[start].status is Healthy) {
        lemma_scan_some_healthy(s, wrap_next(start, s.len() as int), (attempts - 1) as nat);
    }
}

/// A healthy backend within the attempt budget is never missed: if backend
/// `j` is healthy and the budget covers the cyclic distance to it, the scan
/// returns some healthy backend.
pub proof fn lemma_scan_finds(s: Seq<Backend>, start: int, attempts: nat, j: int)
    requires
        s.len() >= 1,
        0 <= start < s.len(),
        0 <= j < s.len(),
        s[j].status is Healthy,
        attempts > cyclic_distance(start, j, s.len() as int),
    ensures
        scan_from(s, start, attempts) is Some,
    decreases attempts,
{
    if !(s[start].status is Healthy) {
        lemma_scan_finds(s, wrap_next(start, s.len() as int), (attempts - 1) as nat, j);
    }
}

/// The index the k-th selection of a run returns when every backend of a
/// pool of `n` is healthy and the run starts with the cursor at `c0`:
/// pure rotation.
pub open spec fn rotation_pick(c0: int, k: int, n: int) -> int {
    (c0 + k) % n
}

/// How many of the first `m` selections of such a run return index `i`.
pub open spec fn rotation_hits(c0: int, m: nat, n: int, i: int) -> nat
    decreases m,
{
    if m == 0 {
        0
    } else {
        rotation_hits(c0, (m - 1) as nat, n, i) + (if rotation_pick(c0, m - 1, n) == i {
            1nat
        } else {
            0nat
        })
    }
}

/// With every backend healthy, one selection returns exactly the backend
/// under the cursor (the scan stops on its first step).
pub proof fn lemma_select_all_healthy(s: Seq<Backend>, c0: int, bound: nat)
    requires
        s.len() >= 1,
        0 <= c0 < s.len(),
        bound >= 1,
        forall|j: int| 0 <= j < s.len() ==> s[j].status is Healthy,
    ensures
        scan_from(s, c0, bound) == Some(c0),
{
    assert(s[c0].status is Healthy);
}

/// One step of the rotation model: the pick stays in range, and the cursor
/// `select` leaves behind (`wrap_next` of the pick) is the next pick. This
/// chains `select`'s contract across a run of calls on an all-healthy pool:
/// the k-th call returns `rotation_pick(c0, k, n)`.
pub proof fn lemma_rotation_step(c0: int, k: int, n: int)
    requires
        n >= 1,
        0 <= c0 < n,
        k >= 0,
    ensures
        0 <= rotation_pick(c0, k, n) < n,
        rotation_pick(c0, k + 1, n) == wrap_next(rotation_pick(c0, k, n), n),
{
    lemma_mod_bound(c0 + k, n);
    lemma_mod_bound(c0 + k + 1, n);
    let p = (c0 + k) % n;
    if n == 1 {
        assert(rotation_pick(c0, k + 1, n) == 0);
        assert(wrap_next(p, n) == 0);
    } else {
        lemma_add_mod_noop(c0 + k, 1, n);
        lemma_small_mod(1nat, n as nat);
        assert((c0 + k + 1) % n == (p + 1) % n);
        if p + 1 < n {
            lemma_small_mod((p + 1) as nat, n as nat);
        } else {
            lemma_mod_self_0(n);
        }
    }
}

/// Round-robin fairness. When all `n` backends are healthy, a run of `m`
/// consecutive selections returns the indices `rotation_pick(c0, 0, n)`,
/// ..., `rotation_pick(c0, m-1, n)` (see `lemma_select_all_healthy` and
/// `lemma_rotation_step`), and `rotation_hits` counts how often index `i`
/// occurs among them. That count is exactly `m / n`, plus one for the first
/// `m % n` indices in cyclic order from the starting cursor — so every
/// backend is returned either `floor(m / n)` or `ceil(m / n)` times.
pub proof fn lemma_round_robin_fair(c0: int, m: nat, n: int, i: int)
    requires
        n >= 1,
        0 <= c0 < n,
        0 <= i < n,
    ensures
        rotation_hits(c0, m, n, i) == m as int / n + (if (i - c0) % n < m as int % n {
            1int
        } else {
            0int
        }),
        m as int / n <= rotation_hits(c0, m, n, i) <= m as int / n + 1,
        m as int % n == 0 ==> rotation_hits(c0, m, n, i) == m as int / n,
    decreases m,
{
    let d = (i - c0) % n;
    lemma_mod_bound(i - c0, n);
    if m == 0 {
        lemma_small_mod(0nat, n as nat);
        assert(0int / n == 0) by {
            lemma_fundamental_div_mod_converse(0, n, 0, 0);
        }
    } else {
        lemma_round_robin_fair(c0, (m - 1) as nat, n, i);
        let mm = m - 1;
        let q = mm / n;
        let r = mm % n;
        lemma_fundamental_div_mod(mm, n);
        lemma_mod_bound(mm, n);
        // The (m-1)-th pick is i exactly when r == d.
        assert((c0 + mm) % n == (c0 + r) % n) by {
            lemma_mod_multiples_vanish(q, c0 + r, n);
            assert(c0 + mm == n * q + (c0 + r));
        }
        assert((c0 + d) % n == i) by {
            lemma_add_mod_noop_right(c0, i - c0, n);
            lemma_small_mod(i as nat, n as nat);
        }
        if r != d {
            // Distinct residues stay distinct after adding c0.
            assert((c0 + r) % n != (c0 + d) % n) by {
                lemma_mod_equivalence(c0 + r, c0 + d, n);
                lemma_mod_equivalence(c0 + d, c0 + r, n);
                if r > d {
                    lemma_small_mod((r - d) as nat, n as nat);
                } else {
                    lemma_small_mod((d - r) as nat, n as nat);
                }
            }
        }
        // m / n and m % n, from m == q * n + (r + 1).
        if r + 1 < n {
            lemma_fundamental_div_mod_converse(m as int, n, q, r + 1);
        } else {
            assert(m as int == (q + 1) * n + 0) by {
                assert((q + 1) * n == q * n + n) by (nonlinear_arith);
            }
            lemma_fundamental_div_mod_converse(m as int, n, q + 1, 0);
        }
    }
}

/// A backend that has just turned healthy (one successful probe) is eligible
/// for selection on the very next call: the scan now succeeds whenever the
/// attempt budget covers the pool, and when every other backend is unhealthy
/// the selection returns exactly the recovered backend.
pub proof fn lemma_recovered_backend_selectable(p: BackendPool, i: int)
    requires
        p.wf(),
        0 <= i < p.backends@.len(),
        p.spec_healthy(i),
        p.attempt_bound >= p.backends@.len(),
    ensures
        scan_from(p.backends@, p.cursor as int, p.attempt_bound as nat) is Some,
        (forall|j: int| 0 <= j < p.backends@.len() && j != i ==> !p.spec_healthy(j))
            ==> scan_from(p.backends@, p.cursor as int, p.attempt_bound as nat) == Some(i),
{
    lemma_scan_finds(p.backends@, p.cursor as int, p.attempt_bound as nat, i);
    lemma_scan_some_healthy(p.backends@, p.cursor as int, p.attempt_bound as nat);
    if forall|j: int| 0 <= j < p.backends@.len() && j != i ==> !p.spec_healthy(j) {
        let picked = scan_from(p.backends@, p.cursor as int, p.attempt_bound as nat);
        match picked {
            Some(j) => {
                assert(p.spec_healthy(j));
                assert(j == i);
            },
            None => {
                assert(false);
            },
        }
    }
}

/// The ordered collection of backends shared by every connection, together
/// with the rotation cursor. The set never grows or shrinks after
/// construction; only health flags flip.
pub struct BackendPool {
    /// The backends, in configuration order. Nonempty (see [`BackendPool::wf`]).
    pub backends: Vec<Backend>,
    /// Where the next selection scan starts.
    pub cursor: usize,
    /// Upper bound on the number of backends one selection may examine.
    pub attempt_bound: usize,
}

impl BackendPool {
    /// Structural invariant: the pool is nonempty and the cursor points at
    /// a backend. Constructors establish it and every method preserves it.
    pub open spec fn wf(self) -> bool {
        &&& self.backends@.len() >= 1
        &&& self.cursor < self.backends@.len()
    }

    /// True when backend `i` is flagged healthy.
    pub open spec fn spec_healthy(self, i: int) -> bool {
        self.backends@[i].status is Healthy
    }

    /// True when at least one backend is flagged healthy.
    pub open spec fn some_healthy(self) -> bool {
        exists|i: int| 0 <= i < self.backends@.len() && self.spec_healthy(i)
    }

    /// Builds a pool over the given backends, rotation starting at the first.
    pub fn new(backends: Vec<Backend>, attempt_bound: usize) -> (p: BackendPool)
        requires
            backends@.len() >= 1,
        ensures
            p.wf(),
            p.backends@ == backends@,
            p.cursor == 0,
            p.attempt_bound == attempt_bound,
    {
        BackendPool { backends, cursor: 0, attempt_bound }
    }

    /// Number of backends; fixed for the life of the pool.
    pub fn len(&self) -> (n: usize)
        ensures
            n == self.backends@.len(),
    {
        self.backends.len()
    }

    /// The backend at index `i`.
    pub fn backend(&self, i: usize) -> (b: &Backend)
        requires
            i < self.backends@.len(),
        ensures
            *b == self.backends@[i as int],
    {
        &self.backends[i]
    }

    /// Applies one probe outcome: a successful probe marks the backend
    /// healthy, a failed or timed-out one marks it unhealthy. Nothing else
    /// changes: not the address, not the other backends, not the cursor.
    pub fn apply_probe(&mut self, i: usize, success: bool)
        requires
            old(self).wf(),
            i < old(self).backends@.len(),
        ensures
            final(self).wf(),
            final(self).backends@.len() == old(self).backends@.len(),
            final(self).backends@[i as int].status == (if success {
                HealthStatus::Healthy
            } else {
                HealthStatus::Unhealthy
            }),
            final(self).backends@[i as int].host == old(self).backends@[i as int].host,
            final(self).backends@[i as int].port == old(self).backends@[i as int].port,
            forall|j: int|
                0 <= j < final(self).backends@.len() && j != i ==> final(self).backends@[j]
                    == old(self).backends@[j],
            final(self).cursor == old(self).cursor,
            final(self).attempt_bound == old(self).attempt_bound,
    {
        self.backends[i].status = if success {
            HealthStatus::Healthy
        } else {
            HealthStatus::Unhealthy
        };
    }

    /// Picks the next backend to forward to.
    ///
    /// Starting at the cursor, the first healthy backend within
    /// `attempt_bound` steps of the wrapping scan is returned and the cursor
    /// moves just past it; when the budget is exhausted first, the call
    /// fails with `NoHealthyBackend` and the pool is untouched. An unhealthy
    /// backend is never returned, and whenever any backend at all is healthy
    /// and the budget covers the whole pool, the call succeeds.
    pub fn select(&mut self) -> (r: Result<usize, SelectError>)
        requires
            old(self).wf(),
        ensures
            final(self).wf(),
            final(self).backends@ == old(self).backends@,
            final(self).attempt_bound == old(self).attempt_bound,
            match r {
                Ok(i) => {
                    &&& Some(i as int) == scan_from(
                        old(self).backends@,
                        old(self).cursor as int,
                        old(self).attempt_bound as nat,
                    )
                    &&& i < final(self).backends@.len()
                    &&& final(self).spec_healthy(i as int)
                    &&& final(self).cursor == wrap_next(i as int, final(self).backends@.len() as int)
                },
                Err(e) => {
                    &&& e == SelectError::NoHealthyBackend
                    &&& scan_from(
                        old(self).backends@,
                        old(self).cursor as int,
                        old(self).attempt_bound as nat,
                    ) is None
                    &&& final(self).cursor == old(self).cursor
                },
            },
            !old(self).some_healthy() ==> r is Err,
            old(self).some_healthy() && old(self).attempt_bound >= old(self).backends@.len()
                ==> r is Ok,
    {
        let ghost s = self.backends@;
        let ghost c0 = self.cursor as int;
        let ghost bound = self.attempt_bound as nat;
        let len = self.backends.len();
        let mut cur = self.cursor;
        let mut remaining = self.attempt_bound;
        loop
            invariant
                *self == *old(self),
                s == self.backends@,
                c0 == self.cursor as int,
                bound == self.attempt_bound as nat,
                len == s.len(),
                len >= 1,
                cur < len,
                remaining <= bound,
                scan_from(s, cur as int, remaining as nat) == scan_from(s, c0, bound),
            ensures
                scan_from(s, c0, bound) is None,
                *self == *old(self),
            decreases remaining,
        {
            if remaining == 0 {
                break ;
            }
            if matches!(self.backends[cur].status, HealthStatus::Healthy) {
                let picked = cur;
                self.cursor = if picked + 1 == len {
                    0
                } else {
                    picked + 1
                };
                proof {
                    lemma_scan_some_healthy(s, c0, bound);
                    assert(old(self).spec_healthy(picked as int));
                }
                return Ok(picked);
            }
            cur = if cur + 1 == len {
                0
            } else {
                cur + 1
            };
            remaining = remaining - 1;
        }
        proof {
            if self.some_healthy() && self.attempt_bound >= self.backends@.len() {
                let j = choose|j: int|
                    0 <= j < self.backends@.len() && self.spec_healthy(j);
                lemma_scan_finds(s, c0, bound, j);
            }
        }
        Err(SelectError::NoHealthyBackend)
    }
}

} // verus!
