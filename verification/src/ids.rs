//! The source of record identifiers.

use vstd::prelude::*;

verus! {

/// Hands out the identifiers 0, 1, 2, ... in order, each once.
///
/// A generator is used through `&mut`, so two users never hold it at once:
/// to share one between threads, keep it behind a lock.
#[derive(Debug)]
pub struct IdGenerator {
    counter: u64,
}

/// The identifier issued after `id`. The counter wraps at the end of its
/// range.
pub open spec fn following(id: u64) -> u64 {
    if id == u64::MAX {
        0
    } else {
        (id + 1) as u64
    }
}

/// The identifier issued `k` calls after `start` was.
pub open spec fn nth_id(start: u64, k: nat) -> u64 {
    ((start + k) % 0x1_0000_0000_0000_0000) as u64
}

impl IdGenerator {
    /// The identifier that the next call of `next_id` returns.
    pub closed spec fn upcoming(&self) -> u64 {
        self.counter
    }

    /// A generator whose first identifier is 0.
    pub fn new() -> (generator: Self)
        ensures
            generator.upcoming() == 0,
    {
        IdGenerator { counter: 0 }
    }

    /// Returns the current identifier and moves on to the next.
    pub fn next_id(&mut self) -> (id: u64)
        ensures
            id == old(self).upcoming(),
            final(self).upcoming() == following(old(self).upcoming()),
    {
        let id: u64 = self.counter;
        self.counter = if id == u64::MAX {
            0
        } else {
            id + 1
        };
        id
    }

    /// Returns the identifier that the next call of `next_id` returns, and
    /// leaves it to that call.
    pub fn peek(&self) -> (id: u64)
        ensures
            id == self.upcoming(),
    {
        self.counter
    }
}

/// Counting on from `start`: no call in, `start` itself is issued; one call
/// later, the identifier that follows.
pub proof fn lemma_nth_id_steps(start: u64, k: nat)
    ensures
        nth_id(start, 0) == start,
        nth_id(start, k + 1) == following(nth_id(start, k)),
        nth_id(nth_id(start, k), 1) == nth_id(start, k + 1),
{
    let m: int = 0x1_0000_0000_0000_0000;
    let here: int = (start + k) % m;
    assert((start + k + 1) % m == if here == m - 1 { 0 } else { here + 1 }) by {
        assert(start + k == m * ((start + k) / m) + here) by {
            vstd::arithmetic::div_mod::lemma_fundamental_div_mod(start + k, m);
        }
        if here == m - 1 {
            vstd::arithmetic::div_mod::lemma_fundamental_div_mod_converse(
                start + k + 1,
                m,
                (start + k) / m + 1,
                0,
            );
        } else {
            vstd::arithmetic::div_mod::lemma_fundamental_div_mod_converse(
                start + k + 1,
                m,
                (start + k) / m,
                here + 1,
            );
        }
    }
}

/// Counting on in two runs is counting on in one.
pub proof fn lemma_nth_id_adds(start: u64, a: nat, b: nat)
    ensures
        nth_id(nth_id(start, a), b) == nth_id(start, a + b),
    decreases b,
{
    if b == 0 {
        lemma_nth_id_steps(nth_id(start, a), 0);
    } else {
        lemma_nth_id_adds(start, a, (b - 1) as nat);
        lemma_nth_id_steps(nth_id(start, a), (b - 1) as nat);
        lemma_nth_id_steps(start, (a + b - 1) as nat);
    }
}

/// From a new generator the `k`-th identifier is `k` itself.
pub proof fn lemma_ids_count_from_zero(k: nat)
    requires
        k <= u64::MAX,
    ensures
        nth_id(0, k) == k,
{
}

/// Two identifiers issued less than a full range of the counter apart
/// differ.
pub proof fn lemma_ids_distinct(start: u64, i: nat, j: nat)
    requires
        i < j,
        j - i <= u64::MAX,
    ensures
        nth_id(start, i) != nth_id(start, j),
{
    let m: int = 0x1_0000_0000_0000_0000;
    let a: int = start + i;
    let b: int = start + j;
    vstd::arithmetic::div_mod::lemma_fundamental_div_mod(a, m);
    vstd::arithmetic::div_mod::lemma_fundamental_div_mod(b, m);
    if a % m == b % m {
        let qa = a / m;
        let qb = b / m;
        assert(b - a == m * qb - m * qa);
        assert(m * qb - m * qa == m * (qb - qa)) by (nonlinear_arith);
        assert(0 < m * (qb - qa) < m);
        assert(false) by (nonlinear_arith)
            requires
                0 < m * (qb - qa) < m,
                m > 0,
        ;
    }
}

} // verus!
