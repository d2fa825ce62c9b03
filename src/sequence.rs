//! The sequence layer: walks the tree of sequences one bit at a time.

use vstd::prelude::*;

use crate::bits::Bit;
use crate::code::{resolve, Symbol, MAP};

verus! {

/// Addresses at or above this bound are never reached: bits that would lead
/// there are dropped.
pub const ADDRESS_LIMIT: usize = 511;

/// Decodes sequences of bits into symbols.
pub struct SeqLayer {
    /// Address of the sequence read so far.
    pub state: usize,
}

impl SeqLayer {
    /// The address lies in the tree.
    pub open spec fn wf(self) -> bool {
        self.state < ADDRESS_LIMIT
    }

    /// The address after appending bit `b` (0 or 1) to the sequence, or the
    /// same address where the sequence cannot grow.
    pub open spec fn descend(self, b: int) -> SeqLayer {
        if 2 * self.state + b + 1 < ADDRESS_LIMIT {
            SeqLayer { state: (2 * self.state + b + 1) as usize }
        } else {
            self
        }
    }

    /// The layer after one bit, and the symbol emitted.
    pub open spec fn spec_step(self, bit: Bit) -> (SeqLayer, Option<Symbol>) {
        match bit {
            Bit::Zero => (self.descend(0), None),
            Bit::One => (self.descend(1), None),
            Bit::End => (SeqLayer { state: 0 }, Some(resolve(self.state as int))),
            Bit::Cancel => if self.state == 0 {
                (self, Some(Symbol::Cancel))
            } else {
                (SeqLayer { state: 0 }, None)
            },
        }
    }

    /// The layer after a sequence of bits; symbols emitted on the way are
    /// not kept.
    pub open spec fn run(self, bits: Seq<Bit>) -> SeqLayer
        decreases bits.len(),
    {
        if bits.len() == 0 {
            self
        } else {
            self.spec_step(bits[0]).0.run(bits.drop_first())
        }
    }

    /// A layer at the root.
    pub fn new() -> (r: SeqLayer)
        ensures
            r.state == 0,
    {
        SeqLayer { state: 0 }
    }

    /// Takes one bit; returns the symbol that an end or a cancellation
    /// resolves to, if any.
    pub fn step(&mut self, input: Bit) -> (r: Option<Symbol>)
        requires
            old(self).wf(),
        ensures
            (*final(self), r) == old(self).spec_step(input),
            final(self).wf(),
    {
        let bit: usize = match input {
            Bit::Zero => 0,
            Bit::One => 1,
            Bit::End => {
                let address = self.state;
                self.state = 0;
                if address < 127 && MAP[address] > 0 {
                    return Some(Symbol::from(MAP[address]));
                } else if address < 255 {
                    return Some(Symbol::Invalid);
                } else {
                    return Some(Symbol::from((address - 255) as u8));
                }
            },
            Bit::Cancel => {
                if self.state == 0 {
                    return Some(Symbol::Cancel);
                }
                self.state = 0;
                return None;
            },
        };
        let new_state = 2 * self.state + bit + 1;
        if new_state < ADDRESS_LIMIT {
            self.state = new_state;
        }
        None
    }
}

/// However many dots and dashes arrive without an end or a cancellation, the
/// address stays in the tree, and a following end or cancellation brings the
/// layer back to the root.
pub proof fn lemma_long_sequence_resets(layer: SeqLayer, bits: Seq<Bit>)
    requires
        layer.wf(),
        forall|i: int| 0 <= i < bits.len() ==> (bits[i] == Bit::Zero || bits[i] == Bit::One),
    ensures
        layer.run(bits).wf(),
        layer.run(bits).spec_step(Bit::End).0.state == 0,
        layer.run(bits).spec_step(Bit::Cancel).0.state == 0,
    decreases bits.len(),
{
    if bits.len() > 0 {
        let next = layer.spec_step(bits[0]).0;
        assert forall|i: int| 0 <= i < bits.drop_first().len() implies (bits.drop_first()[i] == Bit::Zero
            || bits.drop_first()[i] == Bit::One) by {
            assert(bits.drop_first()[i] == bits[i + 1]);
        }
        lemma_long_sequence_resets(next, bits.drop_first());
    }
}

} // verus!
