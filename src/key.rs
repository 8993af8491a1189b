//! The parameter key: a double identified by its exact bit pattern.
use vstd::prelude::*;

verus! {

/// A double used as a lookup key. Two keys are equal exactly when their bit
/// patterns are equal: no numeric tolerance, and `0.0` and `-0.0` are different
/// keys. A key rebuilt from the same literal is always the same key; values that
/// are numerically equal but were computed differently may not be.
#[derive(Clone, Copy, Debug, PartialEq, Eq, Hash, Structural)]
pub struct Key {
    pub bits: u64,
}

impl Key {
    /// The key of the double whose bit pattern is `bits` (`f64::to_bits`).
    pub fn from_bits(bits: u64) -> (k: Key)
        ensures
            k.bits == bits,
    {
        Key { bits }
    }

    /// The bit pattern of the keyed double (`f64::from_bits` restores it).
    pub fn to_bits(&self) -> (r: u64)
        ensures
            r == self.bits,
    {
        self.bits
    }

    /// Compares two keys bit for bit.
    pub fn same_as(&self, other: &Key) -> (r: bool)
        ensures
            r == (self.bits == other.bits),
    {
        self.bits == other.bits
    }
}

/// Position of the first entry of `keys` equal to `k`, if any.
pub open spec fn first_position(keys: Seq<Key>, k: Key) -> Option<int>
    decreases keys.len(),
{
    if keys.len() == 0 {
        None
    } else if keys[0] == k {
        Some(0)
    } else {
        match first_position(keys.drop_first(), k) {
            Some(i) => Some(i + 1),
            None => None,
        }
    }
}

pub proof fn lemma_first_position(keys: Seq<Key>, k: Key)
    ensures
        match first_position(keys, k) {
            Some(i) => 0 <= i < keys.len() && keys[i] == k && forall|j: int|
                0 <= j < i ==> keys[j] != k,
            None => forall|j: int| 0 <= j < keys.len() ==> keys[j] != k,
        },
    decreases keys.len(),
{
    if keys.len() > 0 && keys[0] != k {
        let rest = keys.drop_first();
        lemma_first_position(rest, k);
        assert forall|j: int| 1 <= j < keys.len() implies keys[j] == rest[j - 1] by {}
    }
}

proof fn lemma_first_position_prefix(keys: Seq<Key>, k: Key, n: int)
    requires
        0 <= n <= keys.len(),
        forall|j: int| 0 <= j < n ==> keys[j] != k,
        n < keys.len() ==> keys[n] == k,
    ensures
        first_position(keys, k) == (if n < keys.len() { Some(n) } else { None::<int> }),
{
    lemma_first_position(keys, k);
}

/// Finds the first entry of `keys` that is bit-identical to `k`.
pub fn find_key(keys: &Vec<Key>, k: Key) -> (r: Option<usize>)
    ensures
        r matches Some(i) ==> first_position(keys@, k) == Some(i as int),
        r is None ==> first_position(keys@, k) is None,
{
    let mut i: usize = 0;
    while i < keys.len()
        invariant
            i <= keys.len(),
            forall|j: int| 0 <= j < i ==> keys@[j] != k,
        decreases keys.len() - i,
    {
        if keys[i].same_as(&k) {
            proof {
                lemma_first_position_prefix(keys@, k, i as int);
            }
            return Some(i);
        }
        i = i + 1;
    }
    proof {
        lemma_first_position_prefix(keys@, k, i as int);
    }
    None
}

/// A key rebuilt from the bits of an entry always finds an entry with those very
/// bits, however many times it is rebuilt: lookups by the same literal never miss.
pub proof fn lemma_rebuilt_key_resolves(keys: Seq<Key>, i: int, bits: u64)
    requires
        0 <= i < keys.len(),
        keys[i].bits == bits,
    ensures
        first_position(keys, Key { bits }) matches Some(j) && j <= i && keys[j].bits == bits,
{
    lemma_first_position(keys, Key { bits });
    assert(keys[i] == Key { bits });
}

} // verus!
