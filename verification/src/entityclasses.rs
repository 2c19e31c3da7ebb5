//! The classes of entities, by id.

use vstd::prelude::*;

verus! {

/// What is known of a class.
#[derive(Debug, Clone, Copy, PartialEq, Eq, Structural)]
pub struct ClassInfo {
    pub network_name_hash: u64,
}

/// The least number of bits that can tell `n` values apart.
pub open spec fn ceil_log2(n: nat) -> nat
    decreases n,
{
    if n <= 1 {
        0
    } else {
        1 + ceil_log2((n + 1) / 2)
    }
}

/// Numbers up to two to the `k` can be told apart by `k` bits.
pub proof fn lemma_ceil_log2_bound(n: nat, k: nat)
    requires
        n <= vstd::arithmetic::power2::pow2(k),
    ensures
        ceil_log2(n) <= k,
    decreases k,
{
    if n > 1 {
        vstd::arithmetic::power2::lemma2_to64();
        if k > 0 {
            vstd::arithmetic::power2::lemma_pow2_unfold(k);
            lemma_ceil_log2_bound((n + 1) / 2, (k - 1) as nat);
        }
    }
}

/// The table of classes. The id of a class is its position in the table.
#[derive(Debug)]
pub struct EntityClasses {
    classes: Vec<ClassInfo>,
    bits: usize,
}

impl View for EntityClasses {
    type V = Seq<ClassInfo>;

    closed spec fn view(&self) -> Seq<ClassInfo> {
        self.classes@
    }
}

impl EntityClasses {
    #[verifier::type_invariant]
    spec fn inv(self) -> bool {
        self.bits == ceil_log2(self.classes@.len()) && self.bits <= 64
    }

    /// The class with the id `class_id`, if there is one.
    pub open spec fn spec_by_id(&self, class_id: int) -> Option<ClassInfo> {
        if 0 <= class_id < self@.len() {
            Some(self@[class_id])
        } else {
            None
        }
    }

    /// The table of the classes with the given hashes of their names, in the order of their
    /// ids.
    pub fn new(network_name_hashes: &[u64]) -> (r: Self)
        ensures
            r@.len() == network_name_hashes@.len(),
            forall|i: int|
                0 <= i < r@.len() ==> (#[trigger] r@[i]).network_name_hash
                    == network_name_hashes@[i],
    {
        let mut classes: Vec<ClassInfo> = Vec::new();
        let mut i: usize = 0;
        while i < network_name_hashes.len()
            invariant
                i <= network_name_hashes@.len(),
                classes@.len() == i,
                forall|j: int|
                    0 <= j < i ==> (#[trigger] classes@[j]).network_name_hash
                        == network_name_hashes@[j],
            decreases network_name_hashes@.len() - i,
        {
            classes.push(ClassInfo { network_name_hash: network_name_hashes[i] });
            i = i + 1;
        }
        let bits = bits_for(classes.len());
        EntityClasses { classes, bits }
    }

    /// The number of bits of a class id on the wire.
    pub fn bits(&self) -> (r: usize)
        ensures
            r == ceil_log2(self@.len()),
            r <= 64,
    {
        proof {
            use_type_invariant(self);
        }
        self.bits
    }

    /// The class with the id `class_id`, if there is one.
    pub fn by_id(&self, class_id: u64) -> (r: Option<ClassInfo>)
        ensures
            r == self.spec_by_id(class_id as int),
    {
        if class_id < self.classes.len() as u64 {
            Some(self.classes[class_id as usize])
        } else {
            None
        }
    }
}

/// Computes the least number of bits that can tell `n` values apart.
pub fn bits_for(n: usize) -> (r: usize)
    ensures
        r == ceil_log2(n as nat),
        r <= 64,
{
    let mut left: usize = n;
    let mut bits: usize = 0;
    proof {
        vstd::arithmetic::power2::lemma2_to64_rest();
        lemma_ceil_log2_bound(n as nat, 64);
    }
    while left > 1
        invariant
            ceil_log2(n as nat) == bits + ceil_log2(left as nat),
            bits + ceil_log2(left as nat) <= 64,
        decreases left,
    {
        left = left / 2 + left % 2;
        bits = bits + 1;
    }
    bits
}

} // verus!
