//! The size model: how many bytes a value may take once it is encoded.
//!
//! Sizes form a commutative monoid under [`MaxSize::plus`], with
//! [`MaxSize::zero`] as its identity and [`MaxSize::Unbounded`] absorbing
//! everything that is added to it.

use vstd::prelude::*;
use vstd::seq_lib::lemma_fold_left_permutation;

verus! {

/// The mathematical size model: a byte count, or no bound at all.
pub enum MaxSize {
    Bytes(nat),
    Unbounded,
}

impl MaxSize {
    /// The size of a value that takes no bytes.
    pub open spec fn zero() -> MaxSize {
        MaxSize::Bytes(0)
    }

    /// The size of two values encoded one after the other.
    pub open spec fn plus(self, other: MaxSize) -> MaxSize {
        match (self, other) {
            (MaxSize::Bytes(a), MaxSize::Bytes(b)) => MaxSize::Bytes(a + b),
            _ => MaxSize::Unbounded,
        }
    }

    /// Whether a [`CdrEncodingMaxSize`] can hold this size.
    pub open spec fn fits(self) -> bool {
        match self {
            MaxSize::Bytes(n) => n <= usize::MAX,
            MaxSize::Unbounded => true,
        }
    }

    /// The size of a run of values encoded one after the other.
    pub open spec fn total(sizes: Seq<MaxSize>) -> MaxSize {
        sizes.fold_left(MaxSize::zero(), |acc: MaxSize, size: MaxSize| acc.plus(size))
    }
}

/// The largest number of bytes that a value of some type takes when encoded.
#[derive(Clone, Copy, Debug, PartialEq, Eq, Structural)]
pub enum CdrEncodingMaxSize {
    Bytes(usize),
    Unbounded,
}

impl View for CdrEncodingMaxSize {
    type V = MaxSize;

    open spec fn view(&self) -> MaxSize {
        match *self {
            CdrEncodingMaxSize::Bytes(n) => MaxSize::Bytes(n as nat),
            CdrEncodingMaxSize::Unbounded => MaxSize::Unbounded,
        }
    }
}

/// The mathematical sizes of a list of sizes, in order.
pub open spec fn size_views(sizes: Seq<CdrEncodingMaxSize>) -> Seq<MaxSize> {
    Seq::new(sizes.len(), |i: int| sizes[i]@)
}

impl CdrEncodingMaxSize {
    /// The size of a value that takes no bytes.
    pub fn zero() -> (r: CdrEncodingMaxSize)
        ensures
            r == CdrEncodingMaxSize::Bytes(0),
            r@ == MaxSize::zero(),
    {
        CdrEncodingMaxSize::Bytes(0)
    }

    /// The size of two values encoded one after the other, where it can be
    /// represented.
    pub fn add(self, other: CdrEncodingMaxSize) -> (r: CdrEncodingMaxSize)
        requires
            self@.plus(other@).fits(),
        ensures
            r@ == self@.plus(other@),
    {
        match (self, other) {
            (CdrEncodingMaxSize::Bytes(a), CdrEncodingMaxSize::Bytes(b)) => {
                CdrEncodingMaxSize::Bytes(a + b)
            },
            _ => CdrEncodingMaxSize::Unbounded,
        }
    }

    /// The size of two values encoded one after the other, or `None` where
    /// the byte count is too large to be represented.
    pub fn checked_add(self, other: CdrEncodingMaxSize) -> (r: Option<CdrEncodingMaxSize>)
        ensures
            match r {
                Some(sum) => sum@ == self@.plus(other@),
                None => !self@.plus(other@).fits(),
            },
    {
        match (self, other) {
            (CdrEncodingMaxSize::Bytes(a), CdrEncodingMaxSize::Bytes(b)) => {
                match a.checked_add(b) {
                    Some(n) => Some(CdrEncodingMaxSize::Bytes(n)),
                    None => None,
                }
            },
            _ => Some(CdrEncodingMaxSize::Unbounded),
        }
    }

    /// The size of a run of values encoded one after the other, or `None`
    /// where the byte count is too large to be represented.
    pub fn checked_total(sizes: &Vec<CdrEncodingMaxSize>) -> (r: Option<CdrEncodingMaxSize>)
        ensures
            match r {
                Some(sum) => sum@ == MaxSize::total(size_views(sizes@)),
                None => !MaxSize::total(size_views(sizes@)).fits(),
            },
    {
        let ghost all = size_views(sizes@);
        let mut bytes: usize = 0;
        let mut overflow = false;
        let mut i: usize = 0;
        while i < sizes.len()
            invariant
                i <= sizes.len(),
                all == size_views(sizes@),
                MaxSize::total(all.take(i as int)) is Bytes,
                overflow <==> !MaxSize::total(all.take(i as int)).fits(),
                !overflow ==> MaxSize::total(all.take(i as int)) == MaxSize::Bytes(bytes as nat),
            decreases sizes.len() - i,
        {
            proof {
                lemma_total_take(all, i as int);
            }
            match sizes[i] {
                CdrEncodingMaxSize::Unbounded => {
                    proof {
                        lemma_total_unbounded(all, i as int);
                    }
                    return Some(CdrEncodingMaxSize::Unbounded);
                },
                CdrEncodingMaxSize::Bytes(n) => {
                    if !overflow {
                        match bytes.checked_add(n) {
                            Some(sum) => {
                                bytes = sum;
                            },
                            None => {
                                overflow = true;
                            },
                        }
                    }
                },
            }
            i += 1;
        }
        assert(all.take(i as int) =~= all);
        if overflow {
            None
        } else {
            Some(CdrEncodingMaxSize::Bytes(bytes))
        }
    }
}

/// The total of the first `i + 1` sizes is the total of the first `i` plus
/// the size at index `i`.
pub proof fn lemma_total_take(sizes: Seq<MaxSize>, i: int)
    requires
        0 <= i < sizes.len(),
    ensures
        MaxSize::total(sizes.take(i + 1)) == MaxSize::total(sizes.take(i)).plus(sizes[i]),
{
    assert(sizes.take(i + 1).drop_last() =~= sizes.take(i));
}

/// A run of sizes that holds an unbounded one is unbounded as a whole.
pub proof fn lemma_total_unbounded(sizes: Seq<MaxSize>, i: int)
    requires
        0 <= i < sizes.len(),
        sizes[i] is Unbounded,
    ensures
        MaxSize::total(sizes) is Unbounded,
    decreases sizes.len(),
{
    if i < sizes.len() - 1 {
        lemma_total_unbounded(sizes.drop_last(), i);
    }
}

/// Addition of sizes is commutative.
pub proof fn lemma_plus_commutative(a: MaxSize, b: MaxSize)
    ensures
        a.plus(b) == b.plus(a),
{
}

/// Addition of sizes is associative.
pub proof fn lemma_plus_associative(a: MaxSize, b: MaxSize, c: MaxSize)
    ensures
        a.plus(b).plus(c) == a.plus(b.plus(c)),
{
}

/// Zero bytes is the identity of addition, on both sides.
pub proof fn lemma_plus_zero(a: MaxSize)
    ensures
        a.plus(MaxSize::zero()) == a,
        MaxSize::zero().plus(a) == a,
{
}

/// The total of no sizes is zero bytes.
pub proof fn lemma_total_empty()
    ensures
        MaxSize::total(Seq::<MaxSize>::empty()) == MaxSize::zero(),
{
}

/// Two runs that hold the same sizes, in whatever order, have the same total.
pub proof fn lemma_total_permutation(a: Seq<MaxSize>, b: Seq<MaxSize>)
    requires
        a.to_multiset() == b.to_multiset(),
    ensures
        MaxSize::total(a) == MaxSize::total(b),
{
    let f = |acc: MaxSize, size: MaxSize| acc.plus(size);
    lemma_fold_left_permutation(a, b, f, MaxSize::zero());
}

} // verus!
