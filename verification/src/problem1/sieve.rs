//! The primality cache: a growable boolean sieve over the integers
//! `1..=len`, position `i` recording whether `i + 1` is prime.  The one
//! deliberate quirk is that position 0 (the integer 1) is never cleared,
//! so the cache reports 1 as prime.

use vstd::prelude::*;
use vstd::arithmetic::div_mod::{
    lemma_div_by_self, lemma_div_is_ordered, lemma_div_is_strictly_smaller,
    lemma_div_multiples_vanish, lemma_fundamental_div_mod, lemma_mod_bound,
    lemma_mod_multiples_basic,
};
use vstd::arithmetic::mul::lemma_mul_inequality;
use vstd::pervasive::VecAdditionalExecFns;

verus! {

/// Trial-division primality: `n` is at least 2 and no smaller integer
/// from 2 up divides it.
pub open spec fn spec_is_prime(n: int) -> bool {
    n >= 2 && forall|d: int| 2 <= d < n ==> #[trigger] (n % d) != 0
}

/// The flag the sieve stores for the integer `v`: its primality, except
/// that 1 is left marked as a prime candidate.
pub open spec fn spec_flag(v: int) -> bool {
    v == 1 || spec_is_prime(v)
}

/// Some integer in `2..bound` properly divides `v`.  This is exactly the
/// set of positions the elimination pass has cleared once every factor
/// below `bound` has been processed.
pub open spec fn spec_has_factor_below(v: int, bound: int) -> bool {
    exists|d: int| 2 <= d < bound && d < v && #[trigger] (v % d) == 0
}

/// The length the sieve has after `expand` is asked to cover `n` from
/// length `len`: unchanged when the (capacity-padded) target is already
/// covered, otherwise the target itself.
pub open spec fn spec_grown_len(len: nat, n: nat) -> nat {
    let target: nat = if n >= PrimeSieve::MIN_CAPACITY as nat {
        n
    } else {
        PrimeSieve::MIN_CAPACITY as nat
    };
    if 1 <= n <= len {
        len
    } else if target <= len {
        len
    } else {
        target
    }
}

/// Having a proper factor below any bound at least `v` is the same as not
/// being prime (the integer 1 having none, it keeps its candidate flag).
proof fn lemma_factor_below_is_nonprime(v: int, bound: int)
    requires
        1 <= v <= bound,
    ensures
        spec_has_factor_below(v, bound) == !spec_flag(v),
{
    if spec_has_factor_below(v, bound) {
        let d = choose|d: int| 2 <= d < bound && d < v && #[trigger] (v % d) == 0;
        assert(!spec_is_prime(v));
    }
    if v >= 2 && !spec_is_prime(v) {
        let d = choose|d: int| 2 <= d < v && #[trigger] (v % d) == 0;
        assert(2 <= d < bound && d < v && v % d == 0);
        assert(spec_has_factor_below(v, bound));
    }
}

/// The flag for the minimum capacity itself is clear: that value is even
/// and larger than 2, so it is composite.
proof fn lemma_min_capacity_flag_clear()
    ensures
        !spec_flag(PrimeSieve::MIN_CAPACITY as int),
{
    assert(PrimeSieve::MIN_CAPACITY as int % 2 == 0);
}

/// Correctness of the cache: from 2 up, the flag a well-formed sieve
/// holds for a covered integer is exactly its trial-division primality;
/// the boundary quirk touches nothing but the integer 1.
pub proof fn lemma_flag_agrees_with_trial_division(s: &PrimeSieve, n: int)
    requires
        s.wf(),
        2 <= n <= s.spec_len(),
    ensures
        s@[n - 1] == spec_is_prime(n),
{
    assert(s@[n - 1] == spec_flag(n));
}

/// The length the sieve has after `expand` is asked, in order, to cover
/// each target in `targets`, starting from length `len`.
pub open spec fn spec_len_after(len: nat, targets: Seq<usize>) -> nat
    decreases targets.len(),
{
    if targets.len() == 0 {
        len
    } else {
        spec_len_after(spec_grown_len(len, targets[0] as nat), targets.drop_first())
    }
}

/// Monotonicity of growth: after any sequence of `expand` calls the
/// cache is at least as long as it started, at least as long as every
/// target it was asked to cover, and — when it started empty and was
/// asked anything at all — at least the minimum capacity.
pub proof fn lemma_expand_monotonic(len: nat, targets: Seq<usize>)
    ensures
        spec_len_after(len, targets) >= len,
        forall|i: int| 0 <= i < targets.len() ==> spec_len_after(len, targets) >= targets[i],
        len == 0 && targets.len() > 0 ==> spec_len_after(len, targets)
            >= PrimeSieve::MIN_CAPACITY,
    decreases targets.len(),
{
    if targets.len() > 0 {
        let len1 = spec_grown_len(len, targets[0] as nat);
        lemma_expand_monotonic(len1, targets.drop_first());
        assert forall|i: int| 0 <= i < targets.len() implies spec_len_after(len, targets)
            >= targets[i] by {
            if i > 0 {
                assert(targets.drop_first()[i - 1] == targets[i]);
            }
        };
    }
}

/// An append-only-growth sieve of primality flags.
#[derive(Debug)]
pub struct PrimeSieve(Vec<bool>);

impl View for PrimeSieve {
    type V = Seq<bool>;

    /// The sieve is modelled as the sequence of its flags.
    closed spec fn view(&self) -> Seq<bool> {
        self.0@
    }
}

impl PrimeSieve {
    /// Smallest length the first growth allocates, however small the
    /// first query is.
    pub const MIN_CAPACITY: usize = 10;

    /// Every populated position holds the flag for its integer.
    pub open spec fn wf(&self) -> bool {
        forall|v: int| 1 <= v <= self@.len() ==> self@[v - 1] == spec_flag(v)
    }

    /// How many integers the sieve currently covers.
    pub open spec fn spec_len(&self) -> nat {
        self@.len()
    }

    /// A fresh, empty sieve; the capacity is only an allocation hint.
    pub fn with_capacity(capacity: usize) -> (s: Self)
        ensures
            s.spec_len() == 0,
            s.wf(),
    {
        Self(Vec::with_capacity(capacity))
    }

    /// Is `target` inside the populated range `1..=len`?
    pub fn contains(&self, target: usize) -> (r: bool)
        ensures
            r == (1 <= target && target <= self.spec_len()),
    {
        1 <= target && target - 1 < self.0.len()
    }

    /// Make the populated range cover at least `new_limit` and return the
    /// flag the sieve then holds for it (`false` for the query 0, which no
    /// position represents).  A covered target changes nothing; growth
    /// rebuilds the whole range from scratch and never shrinks it.
    pub fn expand(&mut self, new_limit: usize) -> (r: bool)
        requires
            old(self).wf(),
        ensures
            final(self).wf(),
            final(self).spec_len() == spec_grown_len(old(self).spec_len(), new_limit as nat),
            old(self).spec_len() == spec_grown_len(old(self).spec_len(), new_limit as nat)
                ==> final(self)@ == old(self)@,
            r == (new_limit >= 1 && spec_flag(new_limit as int)),
    {
        if self.contains(new_limit) {
            return self.0[new_limit - 1];
        }
        let target = if new_limit < Self::MIN_CAPACITY {
            Self::MIN_CAPACITY
        } else {
            new_limit
        };
        if target <= self.0.len() {
            // only reachable for the query 0 once the sieve has grown
            proof {
                lemma_min_capacity_flag_clear();
            }
            return self.0[target - 1];
        }

        // rebuild from scratch: every position starts as a prime candidate
        let mut flags: Vec<bool> = Vec::with_capacity(target);
        let mut i: usize = 0;
        while i < target
            invariant
                i <= target,
                flags@.len() == i,
                forall|j: int| 0 <= j < i ==> flags@[j],
            decreases target - i,
        {
            flags.push(true);
            i += 1;
        }

        // eliminate: clear every proper multiple of every factor
        let mut mult: usize = 2;
        while mult < target
            invariant
                2 <= mult <= target,
                10 <= target,
                flags@.len() == target,
                forall|v: int|
                    1 <= v <= target ==> flags@[v - 1] == !spec_has_factor_below(
                        v,
                        mult as int,
                    ),
            decreases target - mult,
        {
            let bound = target / mult;
            proof {
                lemma_div_is_strictly_smaller(target as int, mult as int);
                lemma_div_is_ordered(mult as int, target as int, mult as int);
                lemma_div_by_self(mult as int);
            }
            let mut k: usize = 2;
            while k <= bound
                invariant
                    2 <= mult < target,
                    bound == target as int / mult as int,
                    bound < target,
                    2 <= k <= bound + 1,
                    flags@.len() == target,
                    forall|v: int|
                        1 <= v <= target ==> flags@[v - 1] == !(spec_has_factor_below(
                            v,
                            mult as int,
                        ) || (v % (mult as int) == 0 && 2 <= v / (mult as int) < k)),
                decreases bound + 1 - k,
            {
                proof {
                    lemma_fundamental_div_mod(target as int, mult as int);
                    lemma_mod_bound(target as int, mult as int);
                    lemma_mul_inequality(k as int, bound as int, mult as int);
                    lemma_mul_inequality(2, k as int, mult as int);
                }
                let idx = k * mult;
                let ghost flags0 = flags@;
                flags.set(idx - 1, false);
                proof {
                    lemma_div_multiples_vanish(k as int, mult as int);
                    lemma_mod_multiples_basic(k as int, mult as int);
                    assert(idx as int % (mult as int) == 0 && idx as int / (mult as int)
                        == k as int);
                    assert forall|v: int| 1 <= v <= target implies #[trigger] flags@[v - 1]
                        == !(spec_has_factor_below(v, mult as int) || (v % (mult as int) == 0
                        && 2 <= v / (mult as int) < k + 1)) by {
                        if v == idx {
                            assert(!flags@[v - 1]);
                            assert(v % (mult as int) == 0 && 2 <= v / (mult as int) < k + 1);
                        } else {
                            assert(flags@[v - 1] == flags0[v - 1]);
                            assert(flags0[v - 1] == !(spec_has_factor_below(v, mult as int)
                                || (v % (mult as int) == 0 && 2 <= v / (mult as int) < k)));
                            if v % (mult as int) == 0 && v / (mult as int) == k as int {
                                lemma_fundamental_div_mod(v, mult as int);
                                assert(v == (mult as int) * (k as int));
                                assert(v == idx);
                            }
                        }
                    };
                }
                k += 1;
            }
            proof {
                assert forall|v: int| 1 <= v <= target implies #[trigger] flags@[v - 1]
                    == !spec_has_factor_below(v, mult as int + 1) by {
                    let m = mult as int;
                    let q = v / m;
                    assert(flags@[v - 1] == !(spec_has_factor_below(v, m) || (v % m == 0 && 2
                        <= q <= bound as int)));
                    lemma_fundamental_div_mod(v, m);
                    if v % m == 0 && 2 <= q <= bound as int {
                        assert(v == m * q);
                        assert(v > m) by (nonlinear_arith)
                            requires
                                v == m * q,
                                q >= 2,
                                m >= 2,
                        ;
                        assert(2 <= m < m + 1 && m < v && v % m == 0);
                        assert(spec_has_factor_below(v, m + 1));
                    }
                    if spec_has_factor_below(v, m) {
                        let d = choose|d: int| 2 <= d < m && d < v && #[trigger] (v % d) == 0;
                        assert(2 <= d < m + 1 && d < v && v % d == 0);
                        assert(spec_has_factor_below(v, m + 1));
                    }
                    if spec_has_factor_below(v, m + 1) {
                        let d = choose|d: int| 2 <= d < m + 1 && d < v && #[trigger] (v % d)
                            == 0;
                        if d < m {
                            assert(spec_has_factor_below(v, m));
                        } else {
                            assert(d == m && v % m == 0 && m < v);
                            assert(v == m * q);
                            assert(q >= 2) by (nonlinear_arith)
                                requires
                                    v == m * q,
                                    v > m,
                                    m >= 2,
                            ;
                            lemma_div_is_ordered(v, target as int, m);
                            assert(q <= bound as int);
                        }
                    }
                };
            }
            mult += 1;
        }
        proof {
            assert forall|v: int| 1 <= v <= target implies flags@[v - 1] == spec_flag(v) by {
                lemma_factor_below_is_nonprime(v, target as int);
            };
        }
        self.0 = flags;
        if new_limit >= 1 {
            self.0[new_limit - 1]
        } else {
            proof {
                lemma_min_capacity_flag_clear();
            }
            self.0[target - 1]
        }
    }

    /// Look the integer up; `None` means the sieve does not cover it yet.
    pub fn get(&self, num: usize) -> (r: Option<bool>)
        requires
            self.wf(),
        ensures
            1 <= num <= self.spec_len() ==> r == Some(spec_flag(num as int)),
            !(1 <= num <= self.spec_len()) ==> r is None,
    {
        if self.contains(num) {
            Some(self.0[num - 1])
        } else {
            None
        }
    }
}

} // verus!
