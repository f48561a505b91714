//! Color registers: the colors in the order they were registered, and a hash
//! map from each color, packed into one word, to its register id.
use crate::sixel::Pixel;
use std::collections::HashMap;
use vstd::prelude::*;

verus! {

broadcast use vstd::std_specs::hash::group_hash_axioms;

/// Four channels packed into one word, the first in the top byte.
pub open spec fn pack4(a: u8, b: u8, c: u8, d: u8) -> u32 {
    ((a as u32) << 24u32) | ((b as u32) << 16u32) | ((c as u32) << 8u32) | (d as u32)
}

/// The word under which a color is looked up.
pub open spec fn packed(p: Pixel) -> u32 {
    pack4(p.0, p.1, p.2, p.3)
}

/// Packing keeps every channel.
proof fn lemma_pack4_injective(a0: u8, a1: u8, a2: u8, a3: u8, b0: u8, b1: u8, b2: u8, b3: u8)
    by (bit_vector)
    ensures
        pack4(a0, a1, a2, a3) == pack4(b0, b1, b2, b3) ==> a0 == b0 && a1 == b1 && a2 == b2 && a3 == b3,
{
}

/// Two colors share a word only when they are the same.
pub proof fn lemma_packed_injective(a: Pixel, b: Pixel)
    ensures
        packed(a) == packed(b) ==> a == b,
{
    lemma_pack4_injective(a.0, a.1, a.2, a.3, b.0, b.1, b.2, b.3);
}

/// The word of a color.
fn pack(p: Pixel) -> (word: u32)
    ensures
        word == packed(p),
{
    ((p.0 as u32) << 24u32) | ((p.1 as u32) << 16u32) | ((p.2 as u32) << 8u32) | (p.3 as u32)
}

/// Distinct colors in the order they were registered, with their ids by word.
pub(crate) struct Registry {
    pub(crate) colors: Vec<Pixel>,
    pub(crate) ids: HashMap<u32, usize>,
}

impl Registry {
    /// The map holds exactly the word of each registered color, with its position.
    pub(crate) open spec fn wf(&self) -> bool {
        &&& self.colors@.no_duplicates()
        &&& forall|i: int|
            0 <= i < self.colors@.len() ==> #[trigger] self.ids@.contains_key(packed(self.colors@[i]))
                && self.ids@[packed(self.colors@[i])] == i
        &&& forall|k: u32|
            #[trigger] self.ids@.contains_key(k) ==> self.ids@[k] < self.colors@.len() && packed(
                self.colors@[self.ids@[k] as int],
            ) == k
    }

    /// No color registered.
    pub(crate) fn new() -> (registry: Self)
        ensures
            registry.wf(),
            registry.colors@ == Seq::<Pixel>::empty(),
    {
        Registry { colors: Vec::new(), ids: HashMap::new() }
    }

    /// The id of color `c`, if it is registered.
    pub(crate) fn lookup(&self, c: Pixel) -> (found: Option<usize>)
        requires
            self.wf(),
        ensures
            match found {
                Some(i) => i < self.colors@.len() && self.colors@[i as int] == c,
                None => !self.colors@.contains(c),
            },
    {
        let word = pack(c);
        match self.ids.get(&word) {
            Some(i) => {
                proof {
                    assert(self.ids@.contains_key(word));
                    lemma_packed_injective(self.colors@[*i as int], c);
                }
                Some(*i)
            },
            None => {
                proof {
                    if self.colors@.contains(c) {
                        let i = choose|i: int| 0 <= i < self.colors@.len() && self.colors@[i] == c;
                        assert(self.ids@.contains_key(packed(self.colors@[i])));
                    }
                }
                None
            },
        }
    }

    /// Registers a new color under the next id.
    pub(crate) fn add(&mut self, c: Pixel)
        requires
            old(self).wf(),
            !old(self).colors@.contains(c),
        ensures
            final(self).wf(),
            final(self).colors@ == old(self).colors@.push(c),
    {
        let ghost before = self.colors@;
        let id = self.colors.len();
        let word = pack(c);
        self.ids.insert(word, id);
        self.colors.push(c);
        proof {
            let after = self.colors@;
            assert forall|i: int| 0 <= i < before.len() implies packed(before[i]) != word by {
                lemma_packed_injective(before[i], c);
            }
            assert forall|i: int| 0 <= i < after.len() implies #[trigger] self.ids@.contains_key(
                packed(after[i]),
            ) && self.ids@[packed(after[i])] == i by {
                if i < before.len() {
                    assert(after[i] == before[i]);
                }
            }
            assert forall|k: u32| #[trigger] self.ids@.contains_key(k) implies self.ids@[k]
                < after.len() && packed(after[self.ids@[k] as int]) == k by {
                if k != word {
                    assert(after[self.ids@[k] as int] == before[self.ids@[k] as int]);
                }
            }
            assert forall|i: int, j: int|
                0 <= i < after.len() && 0 <= j < after.len() && i != j implies after[i] != after[j] by {
                if i == before.len() {
                    assert(before.contains(after[j]) || j == i);
                } else if j == before.len() {
                    assert(before.contains(after[i]));
                }
            }
        }
    }
}

} // verus!
