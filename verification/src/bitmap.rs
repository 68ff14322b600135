use vstd::prelude::*;

use crate::crypto::hash_bytes;
use crate::crypto::sha256_of;
use crate::crypto::BitDigest;

verus! {

/// The byte image of a bit sequence: one byte per bit, one for set.
pub open spec fn bits_bytes(s: Seq<bool>) -> Seq<u8> {
    s.map_values(|b: bool| if b { 1u8 } else { 0u8 })
}

/// How many bits of `s` are set.
pub open spec fn count_set(s: Seq<bool>) -> int
    decreases s.len(),
{
    if s.len() == 0 {
        0
    } else {
        count_set(s.drop_last()) + if s.last() {
            1int
        } else {
            0int
        }
    }
}

/// A map of live output slots: bit `i` says whether slot `i` is unspent.
#[derive(Clone, Debug, PartialEq, Eq)]
pub struct BitMap {
    pub bits: Vec<bool>,
}

impl BitMap {
    /// An empty map.
    pub fn new() -> (r: BitMap)
        ensures
            r.bits@.len() == 0,
    {
        BitMap { bits: Vec::new() }
    }

    /// How many slots the map covers.
    pub fn num_bits(&self) -> (r: usize)
        ensures
            r == self.bits@.len(),
    {
        self.bits.len()
    }

    /// Whether slot `ix` is set.
    pub fn get(&self, ix: usize) -> (r: bool)
        requires
            ix < self.bits@.len(),
        ensures
            r == self.bits@[ix as int],
    {
        self.bits[ix]
    }

    /// Append one slot with the given value.
    pub fn append(&mut self, b: bool)
        ensures
            final(self).bits@ == old(self).bits@.push(b),
    {
        self.bits.push(b);
    }

    /// Set slot `ix`, extending the map with clear slots if it ends before
    /// `ix`.
    pub fn set(&mut self, ix: usize)
        requires
            ix < usize::MAX,
        ensures
            final(self).bits@.len() == if ix < old(self).bits@.len() {
                old(self).bits@.len() as int
            } else {
                ix + 1
            },
            forall|j: int|
                0 <= j < final(self).bits@.len() && j != ix ==> final(self).bits@[j] == (if j < old(
                    self,
                ).bits@.len() {
                    old(self).bits@[j]
                } else {
                    false
                }),
            final(self).bits@[ix as int] == true,
    {
        let n = self.bits.len();
        if ix < n {
            self.bits[ix] = true;
        } else {
            let ghost pre = self.bits@;
            let mut j = n;
            while j < ix
                invariant
                    n <= j <= ix,
                    self.bits@.len() == j,
                    self.bits@.take(n as int) == pre,
                    forall|k: int| n <= k < j ==> self.bits@[k] == false,
                decreases ix - j,
            {
                self.bits.push(false);
                proof {
                    assert(self.bits@.take(n as int) =~= pre);
                }
                j = j + 1;
            }
            self.bits.push(true);
            proof {
                assert(self.bits@.take(n as int) =~= pre);
                assert(forall|k: int| 0 <= k < n ==> self.bits@[k] == pre[k]);
            }
        }
    }

    /// Clear slot `ix`.
    pub fn clear(&mut self, ix: usize)
        requires
            ix < old(self).bits@.len(),
        ensures
            final(self).bits@ == old(self).bits@.update(ix as int, false),
    {
        self.bits[ix] = false;
    }

    /// How many slots are set.
    pub fn count_set_bits(&self) -> (r: usize)
        ensures
            r == count_set(self.bits@),
    {
        let mut c: usize = 0;
        let n = self.bits.len();
        for i in 0..n
            invariant
                n == self.bits@.len(),
                c == count_set(self.bits@.take(i as int)),
                c <= i,
        {
            proof {
                assert(self.bits@.take(i as int + 1).drop_last() =~= self.bits@.take(i as int));
            }
            if self.bits[i] {
                c = c + 1;
            }
        }
        proof {
            assert(self.bits@.take(n as int) =~= self.bits@);
        }
        c
    }

    /// The byte image of the map, as persisted and hashed.
    pub fn serialize(&self) -> (r: Vec<u8>)
        ensures
            r@ == bits_bytes(self.bits@),
    {
        let mut out: Vec<u8> = Vec::new();
        let n = self.bits.len();
        for i in 0..n
            invariant
                n == self.bits@.len(),
                out@ == bits_bytes(self.bits@.take(i as int)),
        {
            out.push(if self.bits[i] {
                1u8
            } else {
                0u8
            });
            proof {
                assert(out@ =~= bits_bytes(self.bits@.take(i as int + 1)));
            }
        }
        proof {
            assert(self.bits@.take(n as int) =~= self.bits@);
        }
        out
    }

    /// Rebuild a map from its byte image; any byte other than zero or one
    /// is rejected.
    pub fn deserialize(data: &Vec<u8>) -> (r: Option<BitMap>)
        ensures
            match r {
                Some(m) => bits_bytes(m.bits@) == data@,
                None => !(forall|i: int|
                    0 <= i < data@.len() ==> data@[i] == 0 || data@[i] == 1),
            },
    {
        let mut bits: Vec<bool> = Vec::new();
        let n = data.len();
        for i in 0..n
            invariant
                n == data@.len(),
                bits@.len() == i,
                bits_bytes(bits@) == data@.take(i as int),
        {
            let b = data[i];
            if b == 1 {
                bits.push(true);
            } else if b == 0 {
                bits.push(false);
            } else {
                return None;
            }
            proof {
                assert(bits_bytes(bits@) =~= data@.take(i as int + 1));
            }
        }
        proof {
            assert(data@.take(n as int) =~= data@);
        }
        Some(BitMap { bits })
    }

    /// The digest of the map's byte image.
    pub fn compute_checksum(&self) -> (r: BitDigest)
        ensures
            r.bytes() == sha256_of(bits_bytes(self.bits@)),
    {
        let data = self.serialize();
        hash_bytes(&data)
    }
}

} // verus!
