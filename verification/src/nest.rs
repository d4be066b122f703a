use vstd::prelude::*;
use vstd::arithmetic::div_mod::{lemma_fundamental_div_mod, lemma_fundamental_div_mod_converse};
use vstd::arithmetic::mul::{lemma_mul_inequality, lemma_mul_is_commutative};

verus! {

/// Three counted loops, one inside the other.
///
/// The outer loop runs `outer` times; each of its rounds runs the middle loop
/// `middle` times; each of those runs the inner loop `inner` times. A nest
/// with a level of size zero has no round at all.
#[derive(Clone, Copy, Debug, PartialEq, Eq, Structural)]
pub struct LoopNest {
    pub outer: u128,
    pub middle: usize,
    pub inner: usize,
}

/// The three loop counters at one round of a `LoopNest`.
#[derive(Clone, Copy, Debug, PartialEq, Eq, Structural)]
pub struct Position {
    pub outer: u128,
    pub middle: usize,
    pub inner: usize,
}

impl LoopNest {
    /// Number of rounds of the innermost loop body.
    pub open spec fn count(self) -> nat {
        (self.outer * self.middle * self.inner) as nat
    }

    /// Whether every counter of `p` lies below the size of its level.
    pub open spec fn contains(self, p: Position) -> bool {
        p.outer < self.outer && p.middle < self.middle && p.inner < self.inner
    }

    /// Number of rounds that run before the round at `p`.
    pub open spec fn rank(self, p: Position) -> nat {
        ((p.outer * self.middle + p.middle) * self.inner + p.inner) as nat
    }

    /// The counters of the round that `r` rounds precede.
    pub open spec fn at(self, r: nat) -> Position {
        Position {
            outer: ((r / self.inner as nat) / self.middle as nat) as u128,
            middle: ((r / self.inner as nat) % self.middle as nat) as usize,
            inner: (r % self.inner as nat) as usize,
        }
    }

    /// Counting the rounds before a position and looking that number up
    /// again gives the position back: no two positions share a rank, and
    /// every rank of a position is below `count`.
    pub proof fn lemma_at_rank(self, p: Position)
        requires
            self.contains(p),
        ensures
            self.rank(p) < self.count(),
            self.at(self.rank(p)) == p,
    {
        let m = self.middle as int;
        let i = self.inner as int;
        let q = p.outer * m + p.middle;
        let r = q * i + p.inner;
        lemma_fundamental_div_mod_converse(r, i, q, p.inner as int);
        lemma_fundamental_div_mod_converse(q, m, p.outer as int, p.middle as int);
        // q <= outer * m - 1 and r <= (q + 1) * i - 1
        lemma_mul_inequality(p.outer + 1, self.outer as int, m);
        assert((p.outer + 1) * m == p.outer * m + m) by (nonlinear_arith);
        lemma_mul_inequality(q + 1, self.outer * m, i);
        assert((q + 1) * i == q * i + i) by (nonlinear_arith);
    }

    /// Every number below `count` is the rank of exactly the position that
    /// `at` names, and that position lies in the nest.
    pub proof fn lemma_rank_at(self, r: nat)
        requires
            r < self.count(),
        ensures
            self.contains(self.at(r)),
            self.rank(self.at(r)) == r,
            (r / self.inner as nat) / self.middle as nat == self.at(r).outer,
            (r / self.inner as nat) % self.middle as nat == self.at(r).middle,
            r % self.inner as nat == self.at(r).inner,
    {
        let o = self.outer as int;
        let m = self.middle as int;
        let i = self.inner as int;
        assert(i > 0 && m > 0 && o > 0) by (nonlinear_arith)
            requires
                0 <= r < o * m * i,
                0 <= o,
                0 <= m,
                0 <= i,
        ;
        let q = r as int / i;
        lemma_fundamental_div_mod(r as int, i);
        lemma_fundamental_div_mod(q, m);
        lemma_mul_is_commutative(i, q);
        lemma_mul_is_commutative(m, q / m);
        assert(q < o * m) by (nonlinear_arith)
            requires
                r == q * i + r as int % i,
                0 <= r as int % i < i,
                r < o * m * i,
        ;
        assert(0 <= q) by (nonlinear_arith)
            requires
                r == q * i + r as int % i,
                0 <= r as int % i < i,
                0 <= r,
        ;
        assert(q / m < o) by (nonlinear_arith)
            requires
                q == (q / m) * m + q % m,
                0 <= q % m < m,
                q < o * m,
        ;
        assert(0 <= q / m) by (nonlinear_arith)
            requires
                q == (q / m) * m + q % m,
                0 <= q % m < m,
                0 <= q,
        ;
    }

    /// Rounds run in dictionary order of their counters: the outer counter
    /// decides first, then the middle one, then the inner one.
    pub proof fn lemma_rank_order(self, p: Position, q: Position)
        requires
            self.contains(p),
            self.contains(q),
        ensures
            self.rank(p) < self.rank(q) <==> (p.outer < q.outer || (p.outer == q.outer && (p.middle
                < q.middle || (p.middle == q.middle && p.inner < q.inner)))),
    {
        let m = self.middle as int;
        let i = self.inner as int;
        let a = p.outer * m + p.middle;
        let b = q.outer * m + q.middle;
        if p.outer < q.outer {
            lemma_mul_inequality(p.outer + 1, q.outer as int, m);
            assert((p.outer + 1) * m == p.outer * m + m) by (nonlinear_arith);
            assert(a < b);
        } else if q.outer < p.outer {
            lemma_mul_inequality(q.outer + 1, p.outer as int, m);
            assert((q.outer + 1) * m == q.outer * m + m) by (nonlinear_arith);
            assert(b < a);
        }
        if a < b {
            lemma_mul_inequality(a + 1, b, i);
            assert((a + 1) * i == a * i + i) by (nonlinear_arith);
        } else if b < a {
            lemma_mul_inequality(b + 1, a, i);
            assert((b + 1) * i == b * i + i) by (nonlinear_arith);
        }
    }

    /// The first round, if the nest has any.
    pub fn first(&self) -> (start: Option<Position>)
        ensures
            start == if self.count() > 0 {
                Some(self.at(0))
            } else {
                None::<Position>
            },
    {
        if self.outer > 0 && self.middle > 0 && self.inner > 0 {
            let p = Position { outer: 0, middle: 0, inner: 0 };
            proof {
                assert(self.rank(p) == 0) by (nonlinear_arith)
                    requires
                        self.rank(p) == (p.outer * self.middle + p.middle) * self.inner + p.inner,
                        p.outer == 0 && p.middle == 0 && p.inner == 0,
                ;
                self.lemma_at_rank(p);
            }
            Some(p)
        } else {
            proof {
                assert(self.outer * self.middle * self.inner == 0) by (nonlinear_arith)
                    requires
                        self.outer == 0 || self.middle == 0 || self.inner == 0,
                ;
            }
            None
        }
    }

    /// The round that follows the one at `p`, if there is one.
    ///
    /// The inner counter moves fastest. A position outside the nest has no
    /// successor.
    pub fn next(&self, p: Position) -> (following: Option<Position>)
        ensures
            following == if self.contains(p) && self.rank(p) + 1 < self.count() {
                Some(self.at(self.rank(p) + 1))
            } else {
                None::<Position>
            },
    {
        if !(p.outer < self.outer && p.middle < self.middle && p.inner < self.inner) {
            return None;
        }
        proof {
            self.lemma_at_rank(p);
        }
        let s = if p.inner + 1 < self.inner {
            Position { outer: p.outer, middle: p.middle, inner: p.inner + 1 }
        } else if p.middle + 1 < self.middle {
            Position { outer: p.outer, middle: p.middle + 1, inner: 0 }
        } else if p.outer + 1 < self.outer {
            Position { outer: p.outer + 1, middle: 0, inner: 0 }
        } else {
            proof {
                assert(self.rank(p) + 1 == self.count()) by (nonlinear_arith)
                    requires
                        p.inner + 1 == self.inner,
                        p.middle + 1 == self.middle,
                        p.outer + 1 == self.outer,
                        self.rank(p) == (p.outer * self.middle + p.middle) * self.inner + p.inner,
                        self.count() == self.outer * self.middle * self.inner,
                ;
            }
            return None;
        };
        proof {
            assert(self.rank(s) == self.rank(p) + 1) by (nonlinear_arith)
                requires
                    self.rank(p) == (p.outer * self.middle + p.middle) * self.inner + p.inner,
                    self.rank(s) == (s.outer * self.middle + s.middle) * self.inner + s.inner,
                    (s.outer == p.outer && s.middle == p.middle && s.inner == p.inner + 1) || (
                    s.outer == p.outer && s.middle == p.middle + 1 && s.inner == 0 && p.inner + 1
                        == self.inner) || (s.outer == p.outer + 1 && s.middle == 0 && s.inner == 0
                        && p.inner + 1 == self.inner && p.middle + 1 == self.middle),
            ;
            self.lemma_at_rank(s);
        }
        Some(s)
    }
}

} // verus!
