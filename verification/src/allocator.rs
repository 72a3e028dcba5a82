//! Connection ids: small integers handed out to open connections and taken
//! back when they close.
//!
//! Ids come from the range `[0, limit)`. A cursor walks the range and wraps
//! to 0 behind the last id; an id that is still held is stepped over, so no
//! two open connections ever share one.

use vstd::arithmetic::div_mod::{lemma_mod_add_multiples_vanish, lemma_small_mod};
use vstd::prelude::*;

use crate::error::ProxyError;

verus! {

/// What an allocator is, as mathematics: the size of its range, the place
/// where the next search starts, and the ids that are held.
pub struct AllocModel {
    pub limit: nat,
    pub cursor: nat,
    pub held: Set<u64>,
}

impl AllocModel {
    /// The cursor lies in the range (or is 0 when the range is empty), and
    /// so does every held id; the ids of the range fit in 64 bits.
    pub open spec fn wf(self) -> bool {
        &&& self.limit <= u64::MAX
        &&& self.limit == 0 ==> self.cursor == 0
        &&& self.limit > 0 ==> self.cursor < self.limit
        &&& forall|id: u64| self.held.contains(id) ==> id < self.limit
    }

    /// An allocator over `[0, limit)` that has handed out nothing yet.
    pub open spec fn empty(limit: nat) -> AllocModel {
        AllocModel { limit, cursor: 0, held: Set::empty() }
    }

    /// The id that the search looks at in its step `k`: `k` places behind
    /// the cursor, wrapping round.
    pub open spec fn probe(self, k: nat) -> u64 {
        ((self.cursor + k) % self.limit) as u64
    }

    /// The first step from `k` on whose id is free, or `limit` if there is
    /// none.
    pub open spec fn first_free(self, k: nat) -> nat
        decreases self.limit - k,
    {
        if k >= self.limit {
            self.limit
        } else if !self.held.contains(self.probe(k)) {
            k
        } else {
            self.first_free(k + 1)
        }
    }

    /// Every id of the range is held.
    pub open spec fn full(self) -> bool {
        forall|id: u64| id < self.limit ==> self.held.contains(id)
    }

    /// One allocation: the allocator afterwards, and the id handed out. The
    /// id is the first free one from the cursor on; the cursor moves behind
    /// it. With no free id nothing changes.
    pub open spec fn allocate(self) -> (AllocModel, Option<u64>) {
        let k = self.first_free(0);
        if k >= self.limit {
            (self, None)
        } else {
            let id = self.probe(k);
            (
                AllocModel {
                    limit: self.limit,
                    cursor: ((id + 1) % (self.limit as int)) as nat,
                    held: self.held.insert(id),
                },
                Some(id),
            )
        }
    }

    /// One release: `id` is held no longer.
    pub open spec fn release(self, id: u64) -> AllocModel {
        AllocModel { limit: self.limit, cursor: self.cursor, held: self.held.remove(id) }
    }
}

/// A number below twice the modulus is reduced by at most one subtraction.
proof fn lemma_wrap(x: int, n: int)
    requires
        0 <= x < 2 * n,
    ensures
        x % n == if x < n {
            x
        } else {
            x - n
        },
{
    if x < n {
        lemma_small_mod(x as nat, n as nat);
    } else {
        lemma_small_mod((x - n) as nat, n as nat);
        lemma_mod_add_multiples_vanish(x - n, n);
    }
}

/// The search from step `k` stops at the first free id: every id it passed
/// is held, and the id it stops at, if any, is free.
pub proof fn lemma_first_free(m: AllocModel, k: nat)
    requires
        k <= m.limit,
    ensures
        k <= m.first_free(k) <= m.limit,
        forall|j: nat| k <= j < m.first_free(k) ==> m.held.contains(#[trigger] m.probe(j)),
        m.first_free(k) < m.limit ==> !m.held.contains(m.probe(m.first_free(k))),
    decreases m.limit - k,
{
    if k < m.limit && m.held.contains(m.probe(k)) {
        lemma_first_free(m, k + 1);
    }
}

/// Every id of the range is looked at in one of the `limit` steps.
pub proof fn lemma_probe_reaches(m: AllocModel, id: u64)
    requires
        m.wf(),
        id < m.limit,
    ensures
        exists|k: nat| k < m.limit && #[trigger] m.probe(k) == id,
{
    let k: nat = if id >= m.cursor {
        (id - m.cursor) as nat
    } else {
        (id + m.limit - m.cursor) as nat
    };
    lemma_wrap((m.cursor + k) as int, m.limit as int);
    assert(m.probe(k) == id);
}

/// Every step of the search looks at an id of the range.
pub proof fn lemma_probe_in_range(m: AllocModel, k: nat)
    requires
        m.wf(),
        k < m.limit,
    ensures
        m.probe(k) < m.limit,
        m.probe(k) == (m.cursor + k) % m.limit,
{
    lemma_wrap((m.cursor + k) as int, m.limit as int);
}

/// An allocation fails exactly when every id is held. When it succeeds, the
/// id lies in the range and was free, and the allocator stays well formed.
pub proof fn lemma_allocate(m: AllocModel)
    requires
        m.wf(),
    ensures
        m.allocate().1 is None <==> m.full(),
        m.allocate().0.wf(),
        m.allocate().1 matches Some(id) ==> id < m.limit && !m.held.contains(id),
{
    lemma_first_free(m, 0);
    let k = m.first_free(0);
    if k >= m.limit {
        assert forall|id: u64| id < m.limit implies m.held.contains(id) by {
            lemma_probe_reaches(m, id);
        }
    } else {
        lemma_probe_in_range(m, k);
        let id = m.probe(k);
        lemma_wrap((id + 1) as int, m.limit as int);
    }
}

/// One call on an allocator.
pub enum AllocOp {
    /// Ask for an id.
    Allocate,
    /// Give the id back.
    Release(u64),
}

/// The allocator after the calls `ops`, made in this order on `m`.
pub open spec fn run(m: AllocModel, ops: Seq<AllocOp>) -> AllocModel
    decreases ops.len(),
{
    if ops.len() == 0 {
        m
    } else {
        let before = run(m, ops.drop_last());
        match ops.last() {
            AllocOp::Allocate => before.allocate().0,
            AllocOp::Release(id) => before.release(id),
        }
    }
}

/// The id that call number `i` of `ops` handed out, if it is an allocation
/// that succeeded.
pub open spec fn issued(m: AllocModel, ops: Seq<AllocOp>, i: int) -> Option<u64>
    recommends
        0 <= i < ops.len(),
{
    match ops[i] {
        AllocOp::Allocate => run(m, ops.take(i)).allocate().1,
        AllocOp::Release(_) => None,
    }
}

/// Calls on a well-formed allocator leave it well formed.
pub proof fn lemma_run_wf(m: AllocModel, ops: Seq<AllocOp>)
    requires
        m.wf(),
    ensures
        run(m, ops).wf(),
    decreases ops.len(),
{
    if ops.len() > 0 {
        lemma_run_wf(m, ops.drop_last());
        lemma_allocate(run(m, ops.drop_last()));
    }
}

/// An id handed out by call `j` is held before call `t`, if none of the
/// calls between the two released it.
proof fn lemma_held_until_released(m: AllocModel, ops: Seq<AllocOp>, j: int, t: int, id: u64)
    requires
        m.wf(),
        0 <= j < t <= ops.len(),
        issued(m, ops, j) == Some(id),
        forall|k: int| j < k < t ==> ops[k] != AllocOp::Release(id),
    ensures
        run(m, ops.take(t)).held.contains(id),
    decreases t,
{
    assert(ops.take(t).drop_last() =~= ops.take(t - 1));
    if t - 1 > j {
        lemma_held_until_released(m, ops, j, t - 1, id);
    }
}

/// No id is handed out twice while it is held: in every sequence of calls
/// on a well-formed allocator, if call `j` and a later call `i` hand out the
/// same id, then a call between them released it.
pub proof fn lemma_no_reissue_while_held(m: AllocModel, ops: Seq<AllocOp>, j: int, i: int)
    requires
        m.wf(),
        0 <= j < i < ops.len(),
        issued(m, ops, j) is Some,
        issued(m, ops, j) == issued(m, ops, i),
    ensures
        exists|k: int| j < k < i && ops[k] == AllocOp::Release(issued(m, ops, j)->Some_0),
{
    let id = issued(m, ops, j)->Some_0;
    if forall|k: int| j < k < i ==> ops[k] != AllocOp::Release(id) {
        lemma_held_until_released(m, ops, j, i, id);
        lemma_run_wf(m, ops.take(i));
        lemma_allocate(run(m, ops.take(i)));
    }
}

/// The ids of an open range, held by open connections or free.
pub struct IdAllocator {
    in_use: Vec<bool>,
    next: usize,
}

impl View for IdAllocator {
    type V = AllocModel;

    closed spec fn view(&self) -> AllocModel {
        AllocModel {
            limit: self.in_use@.len(),
            cursor: self.next as nat,
            held: Set::new(|id: u64| id < self.in_use@.len() && self.in_use@[id as int]),
        }
    }
}

impl IdAllocator {
    #[verifier::type_invariant]
    spec fn inv(self) -> bool {
        &&& self.in_use@.len() == 0 ==> self.next == 0
        &&& self.in_use@.len() > 0 ==> self.next < self.in_use@.len()
    }

    /// An allocator over the ids `[0, limit)`, all of them free.
    pub fn new(limit: usize) -> (r: IdAllocator)
        ensures
            r@ == AllocModel::empty(limit as nat),
            r@.wf(),
    {
        let mut in_use: Vec<bool> = Vec::new();
        let mut i: usize = 0;
        while i < limit
            invariant
                i <= limit,
                in_use@.len() == i,
                forall|j: int| 0 <= j < i ==> !in_use@[j],
            decreases limit - i,
        {
            in_use.push(false);
            i += 1;
        }
        let r = IdAllocator { in_use, next: 0 };
        assert(r@.held =~= Set::<u64>::empty());
        r
    }

    /// The number of ids in the range.
    pub fn limit(&self) -> (r: usize)
        ensures
            r == self@.limit,
    {
        self.in_use.len()
    }

    /// Whether `id` is held by an open connection.
    pub fn is_held(&self, id: u64) -> (r: bool)
        ensures
            r == self@.held.contains(id),
            self@.wf(),
    {
        proof {
            use_type_invariant(self);
        }
        if id < self.in_use.len() as u64 {
            self.in_use[id as usize]
        } else {
            false
        }
    }

    /// Hands out the first free id from the cursor on and moves the cursor
    /// behind it.
    ///
    /// Fails with `IdSpaceExhausted`, and changes nothing, exactly when every
    /// id of the range is held: an id that is still held is never handed out
    /// again.
    pub fn allocate(&mut self) -> (r: Result<u64, ProxyError>)
        ensures
            old(self)@.wf(),
            final(self)@.wf(),
            match r {
                Ok(id) => {
                    &&& old(self)@.allocate() == (final(self)@, Some(id))
                    &&& !old(self)@.full()
                    &&& id < old(self)@.limit
                    &&& !old(self)@.held.contains(id)
                    &&& final(self)@.held == old(self)@.held.insert(id)
                },
                Err(e) => {
                    &&& e == ProxyError::IdSpaceExhausted
                    &&& old(self)@.full()
                    &&& final(self)@ == old(self)@
                },
            },
    {
        let ghost m = self@;
        let n = self.in_use.len();
        proof {
            use_type_invariant(&*self);
            lemma_allocate(m);
        }
        let mut k: usize = 0;
        while k < n
            invariant
                k <= n,
                n == self.in_use@.len(),
                n > 0 ==> self.next < n,
                self@ == m,
                m == old(self)@,
                m.wf(),
                m.first_free(0) == m.first_free(k as nat),
            decreases n - k,
        {
            let idx = if k < n - self.next {
                self.next + k
            } else {
                k - (n - self.next)
            };
            proof {
                lemma_wrap((m.cursor + k) as int, n as int);
                assert(m.probe(k as nat) == idx);
            }
            if !self.in_use[idx] {
                self.in_use[idx] = true;
                self.next = if idx + 1 == n {
                    0
                } else {
                    idx + 1
                };
                proof {
                    lemma_wrap((idx + 1) as int, n as int);
                    assert(self@.held =~= m.held.insert(idx as u64));
                    assert(self@ == m.allocate().0);
                }
                return Ok(idx as u64);
            }
            k += 1;
        }
        Err(ProxyError::IdSpaceExhausted)
    }

    /// Takes `id` back: it is free again. Releasing an id that is not held
    /// changes nothing.
    pub fn release(&mut self, id: u64)
        ensures
            old(self)@.wf(),
            final(self)@.wf(),
            final(self)@ == old(self)@.release(id),
    {
        proof {
            use_type_invariant(&*self);
        }
        let ghost m = self@;
        if id < self.in_use.len() as u64 {
            self.in_use[id as usize] = false;
        }
        assert(self@.held =~= m.held.remove(id));
    }
}

} // verus!
