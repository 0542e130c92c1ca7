use vstd::prelude::*;
use crate::types::Word;

verus! {

/// 2^64, the base of an amount's limbs.
pub open spec fn base() -> nat {
    0x1_0000_0000_0000_0000
}

pub open spec fn pow64(n: nat) -> nat
    decreases n,
{
    if n == 0 {
        1
    } else {
        base() * pow64((n - 1) as nat)
    }
}

/// Limb `i` of `s`, zero past its end.
pub open spec fn limb(s: Seq<u64>, i: int) -> nat {
    if 0 <= i < s.len() {
        s[i] as nat
    } else {
        0
    }
}

/// The value of the first `n` little-endian base-2^64 limbs of `s`.
pub open spec fn limbs_value(s: Seq<u64>, n: nat) -> nat
    decreases n,
{
    if n == 0 {
        0
    } else {
        limbs_value(s, (n - 1) as nat) + limb(s, n - 1) * pow64((n - 1) as nat)
    }
}

proof fn lemma_pow64_pos(n: nat)
    ensures
        pow64(n) >= 1,
    decreases n,
{
    if n > 0 {
        lemma_pow64_pos((n - 1) as nat);
        assert(base() * pow64((n - 1) as nat) >= 1) by (nonlinear_arith)
            requires pow64((n - 1) as nat) >= 1;
    }
}

/// Limbs past the end add nothing.
proof fn lemma_value_past_end(s: Seq<u64>, n: nat)
    requires
        n >= s.len(),
    ensures
        limbs_value(s, n) == limbs_value(s, s.len()),
    decreases n,
{
    if n > s.len() {
        lemma_value_past_end(s, (n - 1) as nat);
        assert(limb(s, n - 1) == 0);
        assert(limb(s, n - 1) * pow64((n - 1) as nat) == 0);
    }
}

/// The value of the first `n` limbs depends on those limbs alone.
proof fn lemma_value_prefix(s: Seq<u64>, t: Seq<u64>, n: nat)
    requires
        forall|j: int| 0 <= j < n ==> limb(s, j) == limb(t, j),
    ensures
        limbs_value(s, n) == limbs_value(t, n),
    decreases n,
{
    if n > 0 {
        lemma_value_prefix(s, t, (n - 1) as nat);
    }
}

/// `n` limbs hold less than 2^(64n).
proof fn lemma_value_bound(s: Seq<u64>, n: nat)
    ensures
        limbs_value(s, n) < pow64(n),
    decreases n,
{
    if n > 0 {
        let m = (n - 1) as nat;
        lemma_value_bound(s, m);
        lemma_pow64_pos(m);
        let v = limbs_value(s, m);
        let l = limb(s, m as int);
        let p = pow64(m);
        assert(l < base());
        assert(v + l * p < base() * p) by (nonlinear_arith)
            requires v < p, l < base(), l >= 0, p >= 1;
    }
}

/// A non-negative integer without upper bound, as little-endian 64-bit limbs.
#[derive(Debug)]
pub struct Amount {
    limbs: Vec<u64>,
}

impl View for Amount {
    type V = nat;

    closed spec fn view(&self) -> nat {
        limbs_value(self.limbs@, self.limbs@.len())
    }
}

impl Amount {
    pub fn zero() -> (r: Amount)
        ensures
            r@ == 0,
    {
        Amount { limbs: Vec::new() }
    }

    pub fn from_u128(x: u128) -> (r: Amount)
        ensures
            r@ == x as nat,
    {
        let lo = #[verifier::truncate] (x as u64);
        let hi = #[verifier::truncate] ((x >> 64u128) as u64);
        let mut limbs: Vec<u64> = Vec::new();
        limbs.push(lo);
        limbs.push(hi);
        proof {
            assert(x == lo as u128 + (hi as u128) * 0x1_0000_0000_0000_0000u128) by (bit_vector)
                requires lo == x as u64, hi == (x >> 64u128) as u64;
            reveal_with_fuel(limbs_value, 3);
            reveal_with_fuel(pow64, 2);
        }
        Amount { limbs }
    }

    /// The value of a 256-bit word.
    pub fn from_word(w: Word) -> (r: Amount)
        ensures
            r@ == w.value(),
    {
        let l0 = #[verifier::truncate] (w.lo as u64);
        let l1 = #[verifier::truncate] ((w.lo >> 64u128) as u64);
        let l2 = #[verifier::truncate] (w.hi as u64);
        let l3 = #[verifier::truncate] ((w.hi >> 64u128) as u64);
        let mut limbs: Vec<u64> = Vec::new();
        limbs.push(l0);
        limbs.push(l1);
        limbs.push(l2);
        limbs.push(l3);
        proof {
            let lo = w.lo;
            let hi = w.hi;
            assert(lo == l0 as u128 + (l1 as u128) * 0x1_0000_0000_0000_0000u128) by (bit_vector)
                requires l0 == lo as u64, l1 == (lo >> 64u128) as u64;
            assert(hi == l2 as u128 + (l3 as u128) * 0x1_0000_0000_0000_0000u128) by (bit_vector)
                requires l2 == hi as u64, l3 == (hi >> 64u128) as u64;
            reveal_with_fuel(limbs_value, 5);
            reveal_with_fuel(pow64, 4);
            let b = base();
            assert(pow64(1) == b);
            assert(pow64(2) == b * b);
            assert(pow64(3) == b * (b * b));
            let s = limbs@;
            assert(s[0] == l0 && s[1] == l1 && s[2] == l2 && s[3] == l3 && s.len() == 4);
            assert(limb(s, 0) == l0 as nat && limb(s, 1) == l1 as nat && limb(s, 2) == l2 as nat && limb(s, 3) == l3 as nat);
            assert(pow64(0) == 1);
            assert(limbs_value(s, 0) == 0);
            assert(limbs_value(s, 1) == limbs_value(s, 0) + limb(s, 0) * pow64(0));
            assert(limbs_value(s, 1) == l0 as nat);
            assert(limbs_value(s, 2) == limbs_value(s, 1) + limb(s, 1) * pow64(1));
            assert(limbs_value(s, 3) == limbs_value(s, 2) + limb(s, 2) * pow64(2));
            assert(limbs_value(s, 4) == limbs_value(s, 3) + limb(s, 3) * pow64(3));
            assert(limbs_value(s, 2) == l0 as nat + (l1 as nat) * b);
            assert(limbs_value(s, 3) == l0 as nat + (l1 as nat) * b + (l2 as nat) * (b * b));
            assert(limbs_value(limbs@, 4) == l0 as nat + (l1 as nat) * b + (l2 as nat) * (b * b) + (l3 as nat) * (b * (b * b)));
            assert(w.value() == (l2 as nat + (l3 as nat) * b) * (b * b) + (l0 as nat + (l1 as nat) * b)) by {
                assert(b * b == 0x1_0000_0000_0000_0000_0000_0000_0000_0000nat) by (nonlinear_arith)
                    requires b == 0x1_0000_0000_0000_0000nat;
            }
            assert((l2 as nat + (l3 as nat) * b) * (b * b) == (l2 as nat) * (b * b) + (l3 as nat) * (b * (b * b))) by (nonlinear_arith);
        }
        Amount { limbs }
    }

    /// A copy of this amount.
    pub fn copy(&self) -> (r: Amount)
        ensures
            r@ == self@,
    {
        let mut limbs: Vec<u64> = Vec::new();
        let mut i: usize = 0;
        while i < self.limbs.len()
            invariant
                0 <= i <= self.limbs@.len(),
                limbs@ == self.limbs@.take(i as int),
            decreases self.limbs.len() - i,
        {
            limbs.push(self.limbs[i]);
            assert(self.limbs@.take(i + 1) =~= self.limbs@.take(i as int).push(self.limbs@[i as int]));
            i = i + 1;
        }
        assert(self.limbs@.take(self.limbs@.len() as int) =~= self.limbs@);
        Amount { limbs }
    }

    /// The sum of two amounts.
    pub fn add(&self, other: &Amount) -> (r: Amount)
        ensures
            r@ == self@ + other@,
    {
        let a = &self.limbs;
        let b = &other.limbs;
        let n: usize = if a.len() >= b.len() { a.len() } else { b.len() };
        let mut out: Vec<u64> = Vec::new();
        let mut carry: u64 = 0;
        let mut i: usize = 0;
        while i < n
            invariant
                n == a@.len() || n == b@.len(),
                a@.len() <= n && b@.len() <= n,
                0 <= i <= n,
                out@.len() == i,
                carry <= 1,
                limbs_value(out@, i as nat) + carry * pow64(i as nat) == limbs_value(a@, i as nat) + limbs_value(
                    b@,
                    i as nat,
                ),
            decreases n - i,
        {
            let x: u128 = if i < a.len() { a[i] as u128 } else { 0 };
            let y: u128 = if i < b.len() { b[i] as u128 } else { 0 };
            let d: u128 = x + y + carry as u128;
            let digit: u64;
            let next: u64;
            if d >= 0x1_0000_0000_0000_0000u128 {
                digit = (d - 0x1_0000_0000_0000_0000u128) as u64;
                next = 1;
            } else {
                digit = d as u64;
                next = 0;
            }
            proof {
                let o2 = out@.push(digit);
                lemma_value_prefix(out@, o2, i as nat);
                assert(limb(a@, i as int) == x);
                assert(limb(b@, i as int) == y);
                assert(limb(o2, i as int) == digit);
                let p = pow64(i as nat);
                assert(pow64((i + 1) as nat) == base() * p);
                assert((next as nat) * (base() * p) + (digit as nat) * p == (d as nat) * p) by (nonlinear_arith)
                    requires d as nat == digit as nat + (next as nat) * base();
                assert((d as nat) * p == (x as nat) * p + (y as nat) * p + (carry as nat) * p) by (nonlinear_arith)
                    requires d as nat == x as nat + y as nat + carry as nat;
            }
            out.push(digit);
            carry = next;
            i = i + 1;
        }
        proof {
            lemma_value_past_end(a@, n as nat);
            lemma_value_past_end(b@, n as nat);
        }
        if carry > 0 {
            proof {
                let o2 = out@.push(carry);
                lemma_value_prefix(out@, o2, n as nat);
                assert(limb(o2, n as int) == 1);
                assert(limbs_value(o2, (n + 1) as nat) == limbs_value(o2, n as nat) + limb(o2, n as int) * pow64(n as nat));
            }
            out.push(carry);
        } else {
            assert(carry * pow64(n as nat) == 0);
        }
        Amount { limbs: out }
    }

    /// `self - other` and whether it went below zero: when it did, the
    /// limbs hold `self - other + 2^(64n)` for the longer length `n`.
    fn sub_borrow(&self, other: &Amount) -> (r: (Amount, bool))
        ensures
            r.1 <==> self@ < other@,
            !r.1 ==> r.0@ == self@ - other@,
    {
        let a = &self.limbs;
        let b = &other.limbs;
        let n: usize = if a.len() >= b.len() { a.len() } else { b.len() };
        let mut out: Vec<u64> = Vec::new();
        let mut borrow: u64 = 0;
        let mut i: usize = 0;
        while i < n
            invariant
                n == a@.len() || n == b@.len(),
                a@.len() <= n && b@.len() <= n,
                0 <= i <= n,
                out@.len() == i,
                borrow <= 1,
                limbs_value(out@, i as nat) + limbs_value(b@, i as nat) == limbs_value(a@, i as nat) + borrow
                    * pow64(i as nat),
            decreases n - i,
        {
            let x: u64 = if i < a.len() { a[i] } else { 0 };
            let y: u64 = if i < b.len() { b[i] } else { 0 };
            let digit: u64;
            let next: u64;
            if (x as u128) >= (y as u128) + (borrow as u128) {
                digit = x - y - borrow;
                next = 0;
            } else {
                digit = ((x as u128 + 0x1_0000_0000_0000_0000u128) - y as u128 - borrow as u128) as u64;
                next = 1;
            }
            proof {
                assert(digit as nat + y as nat + borrow as nat == x as nat + next as nat * base());
                let o2 = out@.push(digit);
                lemma_value_prefix(out@, o2, i as nat);
                assert(limb(a@, i as int) == x);
                assert(limb(b@, i as int) == y);
                assert(limb(o2, i as int) == digit);
                let p = pow64(i as nat);
                assert(pow64((i + 1) as nat) == base() * p);
                assert((digit as nat) * p + (y as nat) * p + (borrow as nat) * p == (x as nat) * p + (next as nat) * (
                base() * p)) by (nonlinear_arith)
                    requires digit as nat + y as nat + borrow as nat == x as nat + next as nat * base();
            }
            out.push(digit);
            borrow = next;
            i = i + 1;
        }
        proof {
            lemma_value_past_end(a@, n as nat);
            lemma_value_past_end(b@, n as nat);
            lemma_value_bound(out@, n as nat);
            lemma_value_bound(a@, n as nat);
            lemma_value_bound(b@, n as nat);
            lemma_value_past_end(out@, n as nat);
        }
        (Amount { limbs: out }, borrow == 1)
    }

    /// `self - other`, where `other` is not larger.
    pub fn sub(&self, other: &Amount) -> (r: Amount)
        requires
            other@ <= self@,
        ensures
            r@ == self@ - other@,
    {
        self.sub_borrow(other).0
    }

    /// Whether `self < other`.
    pub fn lt(&self, other: &Amount) -> (r: bool)
        ensures
            r == (self@ < other@),
    {
        self.sub_borrow(other).1
    }

    /// Whether the two amounts have the same value.
    pub fn eq_value(&self, other: &Amount) -> (r: bool)
        ensures
            r == (self@ == other@),
    {
        !self.lt(other) && !other.lt(self)
    }
}

} // verus!
