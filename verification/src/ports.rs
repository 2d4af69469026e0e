//! Partitioning of the 16-bit port space across scan workers.
//!
//! A scan with `k` workers gives worker `i` the strided subsequence
//! `i + 1, i + 1 + k, i + 1 + 2k, ...` of `1 ..= 65535`. The spec function
//! [`assigned`] says which worker owns which port; the lemmas below show that
//! the `k` assignments partition the port space exactly.

use vstd::prelude::*;
use vstd::arithmetic::div_mod::{
    lemma_fundamental_div_mod, lemma_fundamental_div_mod_converse, lemma_mod_pos_bound,
    lemma_small_mod,
};

verus! {

/// The highest valid TCP port.
pub const MAX_PORT: u16 = 65535;

/// The worker with starting offset `offset` out of `stride` workers owns
/// port `p`: `p` is a real port and lies on the arithmetic progression
/// `offset + 1, offset + 1 + stride, ...`.
pub open spec fn assigned(offset: int, stride: int, p: int) -> bool {
    &&& 1 <= p <= MAX_PORT
    &&& (p - 1) % stride == offset
}

/// The strided subset of the port space that one worker probes:
/// ports `start_offset + 1, start_offset + 1 + stride, ...`, capped at
/// [`MAX_PORT`].
pub struct WorkerAssignment {
    pub start_offset: u16,
    pub stride: u16,
}

impl WorkerAssignment {
    /// A meaningful assignment: the stride is the worker count (at least 1)
    /// and the offset picks one of the `stride` residue classes.
    pub open spec fn wf(self) -> bool {
        &&& 1 <= self.stride
        &&& self.start_offset < self.stride
    }

    /// The set of ports this assignment covers.
    pub open spec fn covers(self, p: int) -> bool {
        assigned(self.start_offset as int, self.stride as int, p)
    }

    pub fn new(start_offset: u16, stride: u16) -> (r: WorkerAssignment)
        requires
            1 <= stride,
            start_offset < stride,
        ensures
            r.wf(),
            r.start_offset == start_offset,
            r.stride == stride,
    {
        WorkerAssignment { start_offset, stride }
    }

    /// The first port this assignment probes. Every assignment has one,
    /// since the offset is below the stride and so below [`MAX_PORT`].
    pub fn first_port(&self) -> (r: u16)
        requires
            self.wf(),
        ensures
            r == self.start_offset + 1,
            self.covers(r as int),
    {
        proof {
            lemma_small_mod(self.start_offset as nat, self.stride as nat);
        }
        self.start_offset + 1
    }

    /// The port probed after `port`, or `None` once the next step would
    /// leave the port space. The bound is checked before stepping, so the
    /// probe sequence can never reach port 0 or pass [`MAX_PORT`].
    pub fn next_port(&self, port: u16) -> (r: Option<u16>)
        requires
            self.wf(),
            1 <= port <= MAX_PORT,
        ensures
            match r {
                Some(p) => p == port + self.stride && p <= MAX_PORT,
                None => port + self.stride > MAX_PORT,
            },
            self.covers(port as int) ==> match r {
                Some(p) => self.covers(p as int),
                None => forall|q: int| port < q <= MAX_PORT ==> !self.covers(q),
            },
    {
        let r = if MAX_PORT - port < self.stride {
            None
        } else {
            Some(port + self.stride)
        };
        proof {
            if self.covers(port as int) {
                self.lemma_covers_step(port as int, r);
            }
        }
        r
    }

    /// If this assignment covers `port`, the next covered port is exactly
    /// `port + stride`; when that passes the top of the port space, nothing
    /// above `port` is covered any more.
    proof fn lemma_covers_step(self, port: int, r: Option<u16>)
        requires
            self.wf(),
            1 <= port <= MAX_PORT,
            self.covers(port),
            match r {
                Some(p) => p == port + self.stride && p <= MAX_PORT,
                None => port + self.stride > MAX_PORT,
            },
        ensures
            match r {
                Some(p) => self.covers(p as int),
                None => forall|q: int| port < q <= MAX_PORT ==> !self.covers(q),
            },
    {
        let offset = self.start_offset as int;
        let stride = self.stride as int;
        match r {
            Some(p) => {
                let d = (port - 1) / stride;
                lemma_fundamental_div_mod(port - 1, stride);
                assert((d + 1) * stride == d * stride + stride) by (nonlinear_arith);
                lemma_fundamental_div_mod_converse(p as int - 1, stride, d + 1, offset);
            },
            None => {
                assert forall|q: int| port < q <= MAX_PORT implies !self.covers(q) by {
                    if self.covers(q) {
                        let d = (port - 1) / stride;
                        let e = (q - 1) / stride;
                        lemma_fundamental_div_mod(port - 1, stride);
                        lemma_fundamental_div_mod(q - 1, stride);
                        assert(d * stride < e * stride);
                        assert(d < e) by (nonlinear_arith)
                            requires
                                stride > 0,
                                d * stride < e * stride,
                        ;
                        assert((d + 1) * stride <= e * stride) by (nonlinear_arith)
                            requires
                                stride > 0,
                                d < e,
                        ;
                        assert((d + 1) * stride == d * stride + stride) by (nonlinear_arith);
                    }
                }
            },
        }
    }

    /// All ports this assignment covers, in ascending order: the full probe
    /// sequence of one worker. The result is exactly the covered set — no
    /// port outside `1 ..= 65535` is ever produced, none is skipped, and
    /// none appears twice.
    pub fn ports(&self) -> (r: Vec<u16>)
        requires
            self.wf(),
        ensures
            r@.len() >= 1,
            forall|m: int| 0 <= m < r@.len()
                ==> #[trigger] r@[m] as int == self.start_offset + 1 + m * self.stride,
            forall|m: int| 0 <= m < r@.len() ==> self.covers(#[trigger] r@[m] as int),
            forall|p: u16| self.covers(p as int) ==> r@.contains(p),
            forall|m: int, n: int| 0 <= m < n < r@.len() ==> r@[m] < r@[n],
    {
        let offset = self.start_offset;
        let stride = self.stride;
        let mut r: Vec<u16> = Vec::new();
        let mut cur: u16 = offset + 1;
        proof {
            assert(r@.len() == 0);
            assert(r@.len() as int * (stride as int) == 0) by (nonlinear_arith)
                requires
                    r@.len() == 0,
            ;
        }
        loop
            invariant_except_break
                1 <= stride,
                offset < stride,
                1 <= cur <= MAX_PORT,
                cur as int == offset + 1 + r@.len() as int * (stride as int),
                forall|m: int| 0 <= m < r@.len()
                    ==> #[trigger] r@[m] as int == offset + 1 + m * stride,
            ensures
                r@.len() >= 1,
                forall|m: int| 0 <= m < r@.len()
                    ==> #[trigger] r@[m] as int == offset + 1 + m * stride,
                r@[r@.len() - 1] as int + stride > MAX_PORT,
                r@[r@.len() - 1] <= MAX_PORT,
            decreases MAX_PORT - cur,
        {
            r.push(cur);
            proof {
                assert(r@.len() as int * (stride as int) == (r@.len() - 1) * (stride as int) + stride) by (nonlinear_arith);
            }
            if MAX_PORT - cur < stride {
                break;
            }
            cur = cur + stride;
        }
        proof {
            self.lemma_progression_is_covered_set(r@);
        }
        r
    }

    /// A maximal ascending arithmetic progression starting at
    /// `start_offset + 1` with step `stride` holds exactly the covered
    /// ports.
    proof fn lemma_progression_is_covered_set(self, s: Seq<u16>)
        requires
            self.wf(),
            s.len() >= 1,
            forall|m: int| 0 <= m < s.len()
                ==> #[trigger] s[m] as int == self.start_offset + 1 + m * self.stride,
            s[s.len() - 1] as int + self.stride > MAX_PORT,
            s[s.len() - 1] <= MAX_PORT,
        ensures
            forall|m: int| 0 <= m < s.len() ==> self.covers(#[trigger] s[m] as int),
            forall|p: u16| self.covers(p as int) ==> s.contains(p),
            forall|m: int, n: int| 0 <= m < n < s.len() ==> s[m] < s[n],
    {
        let offset = self.start_offset as int;
        let stride = self.stride as int;
        assert forall|m: int| 0 <= m < s.len() implies self.covers(#[trigger] s[m] as int) by {
            assert(s[m] as int - 1 == m * stride + offset);
            lemma_fundamental_div_mod_converse(s[m] as int - 1, stride, m, offset);
            assert(0 <= m * stride) by (nonlinear_arith)
                requires
                    m >= 0,
                    stride > 0,
            ;
            assert(m * stride <= (s.len() - 1) * stride) by (nonlinear_arith)
                requires
                    m <= s.len() - 1,
                    stride > 0,
            ;
        }
        assert forall|p: u16| self.covers(p as int) implies s.contains(p) by {
            let d = (p as int - 1) / stride;
            lemma_fundamental_div_mod(p as int - 1, stride);
            lemma_mod_pos_bound(p as int - 1, stride);
            assert(0 <= d) by (nonlinear_arith)
                requires
                    stride > 0,
                    d * stride + offset >= 0,
                    0 <= offset < stride,
            ;
            let last = s.len() - 1;
            assert(d * stride <= last * stride) by (nonlinear_arith)
                requires
                    stride > 0,
                    offset + 1 + d * stride <= MAX_PORT,
                    offset + 1 + last * stride + stride > MAX_PORT,
            ;
            assert(d <= last) by (nonlinear_arith)
                requires
                    stride > 0,
                    d * stride <= last * stride,
            ;
            assert(s[d] as int == offset + 1 + d * stride);
            assert(s[d] == p);
        }
        assert forall|m: int, n: int| 0 <= m < n < s.len() implies s[m] < s[n] by {
            assert(m * stride < n * stride) by (nonlinear_arith)
                requires
                    m < n,
                    stride > 0,
            ;
        }
    }
}

/// The assignments the dispatcher hands to its workers: one per worker,
/// worker `i` starting at offset `i`, all with stride `worker_count`.
pub fn make_assignments(worker_count: u16) -> (r: Vec<WorkerAssignment>)
    requires
        1 <= worker_count,
    ensures
        r@.len() == worker_count,
        forall|i: int| 0 <= i < r@.len() ==> (#[trigger] r@[i]).wf(),
        forall|i: int| 0 <= i < r@.len() ==> (#[trigger] r@[i]).start_offset == i,
        forall|i: int| 0 <= i < r@.len() ==> (#[trigger] r@[i]).stride == worker_count,
{
    let mut r: Vec<WorkerAssignment> = Vec::new();
    let mut i: u16 = 0;
    while i < worker_count
        invariant
            i <= worker_count,
            r@.len() == i,
            forall|j: int| 0 <= j < r@.len() ==> (#[trigger] r@[j]).wf(),
            forall|j: int| 0 <= j < r@.len() ==> (#[trigger] r@[j]).start_offset == j,
            forall|j: int| 0 <= j < r@.len() ==> (#[trigger] r@[j]).stride == worker_count,
        decreases worker_count - i,
    {
        r.push(WorkerAssignment { start_offset: i, stride: worker_count });
        i = i + 1;
    }
    r
}

/// Partition completeness: with `k` workers, every port of `1 ..= 65535`
/// is assigned to exactly one worker — no gaps and no overlaps.
pub proof fn lemma_ports_partitioned(k: int, p: int)
    requires
        1 <= k,
        1 <= p <= MAX_PORT,
    ensures
        exists|i: int| 0 <= i < k && assigned(i, k, p),
        forall|i: int, j: int| assigned(i, k, p) && assigned(j, k, p) ==> i == j,
{
    lemma_mod_pos_bound(p - 1, k);
    assert(assigned((p - 1) % k, k, p));
}

/// Bounded probing: an assigned port is always a real port — never 0,
/// never above [`MAX_PORT`] — whatever the worker count.
pub proof fn lemma_assigned_in_bounds(offset: int, stride: int, p: int)
    requires
        assigned(offset, stride, p),
    ensures
        1 <= p <= MAX_PORT,
{
}

/// What the workers collectively report does not depend on the worker
/// count: for any set of open ports, a port is emitted by some worker out
/// of `k1` exactly when it is emitted by some worker out of `k2` — namely
/// exactly when it is an open port of the space.
pub proof fn lemma_results_independent_of_worker_count(open: Set<int>, k1: int, k2: int, p: int)
    requires
        1 <= k1,
        1 <= k2,
    ensures
        (exists|i: int| 0 <= i < k1 && assigned(i, k1, p) && open.contains(p)) <==> (1 <= p
            <= MAX_PORT && open.contains(p)),
        (exists|i: int| 0 <= i < k1 && assigned(i, k1, p) && open.contains(p)) <==> (exists|j: int|
            0 <= j < k2 && assigned(j, k2, p) && open.contains(p)),
{
    if 1 <= p <= MAX_PORT {
        lemma_ports_partitioned(k1, p);
        lemma_ports_partitioned(k2, p);
        if open.contains(p) {
            let i = choose|i: int| 0 <= i < k1 && assigned(i, k1, p);
            assert(0 <= i < k1 && assigned(i, k1, p) && open.contains(p));
            let j = choose|j: int| 0 <= j < k2 && assigned(j, k2, p);
            assert(0 <= j < k2 && assigned(j, k2, p) && open.contains(p));
        }
    }
}

/// Single-worker equivalence: one worker with stride 1 is assigned every
/// port of the space.
pub proof fn lemma_single_worker_assigned_all(p: int)
    ensures
        assigned(0, 1, p) <==> 1 <= p <= MAX_PORT,
{
    if 1 <= p <= MAX_PORT {
        lemma_small_mod(0, 1);
        lemma_fundamental_div_mod_converse(p - 1, 1, p - 1, 0);
    }
}

} // verus!
