//! Element-wise vector arithmetic over any value domain.

use vstd::prelude::*;

use crate::math::number::Number;

verus! {

/// The sum of the squares of the elements, folded left to right from zero
/// (the value whose 32-bit float pattern is all zeros).
pub open spec fn spec_squared_mag<A: Number>(s: Seq<A>) -> A
    decreases s.len(),
{
    if s.len() == 0 {
        A::spec_from_bits(0)
    } else {
        spec_squared_mag(s.drop_last()).spec_add(s.last().spec_mul(s.last()))
    }
}

/// Pointwise subtraction, truncated to the shorter argument.
pub open spec fn spec_sub<A: Number>(a: Seq<A>, b: Seq<A>) -> Seq<A> {
    Seq::new(vstd::math::min(a.len() as int, b.len() as int) as nat, |i: int| a[i].spec_sub(b[i]))
}

/// Pointwise scaling.
pub open spec fn spec_scale<A: Number>(a: Seq<A>, b: A) -> Seq<A> {
    Seq::new(a.len(), |i: int| a[i].spec_mul(b))
}

/// The squared magnitude of a vector.
pub fn squared_mag<A: Number>(vector: &[A]) -> (r: A)
    ensures
        r == spec_squared_mag(vector@),
{
    let n = vector.len();
    let mut acc = A::from_bits(0);
    let mut i: usize = 0;
    while i < n
        invariant
            0 <= i <= n,
            n == vector@.len(),
            acc == spec_squared_mag(vector@.take(i as int)),
        decreases n - i,
    {
        let square = vector[i].mul(&vector[i]);
        acc = acc.add(&square);
        proof {
            assert(vector@.take(i + 1 as int).drop_last() == vector@.take(i as int));
            assert(vector@.take(i + 1 as int).last() == vector@[i as int]);
        }
        i = i + 1;
    }
    proof {
        assert(vector@.take(n as int) == vector@);
    }
    acc
}

/// The difference of two vectors, truncated to the shorter.
pub fn sub<A: Number>(a: &[A], b: &[A]) -> (r: Vec<A>)
    ensures
        r@ == spec_sub(a@, b@),
{
    let n = if a.len() < b.len() {
        a.len()
    } else {
        b.len()
    };
    let mut out: Vec<A> = Vec::new();
    let mut i: usize = 0;
    while i < n
        invariant
            0 <= i <= n,
            n == vstd::math::min(a@.len() as int, b@.len() as int),
            out@.len() == i,
            forall|q: int| 0 <= q < i ==> #[trigger] out@[q] == a@[q].spec_sub(b@[q]),
        decreases n - i,
    {
        out.push(a[i].sub(&b[i]));
        i = i + 1;
    }
    proof {
        assert(out@ =~= spec_sub(a@, b@));
    }
    out
}

/// A vector scaled by a single value.
pub fn mul<A: Number>(a: &[A], b: A) -> (r: Vec<A>)
    ensures
        r@ == spec_scale(a@, b),
{
    let n = a.len();
    let mut out: Vec<A> = Vec::new();
    let mut i: usize = 0;
    while i < n
        invariant
            0 <= i <= n,
            n == a@.len(),
            out@.len() == i,
            forall|q: int| 0 <= q < i ==> #[trigger] out@[q] == a@[q].spec_mul(b),
        decreases n - i,
    {
        out.push(a[i].mul(&b));
        i = i + 1;
    }
    proof {
        assert(out@ =~= spec_scale(a@, b));
    }
    out
}

} // verus!
