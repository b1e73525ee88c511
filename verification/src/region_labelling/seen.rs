//! Seen-color membership: the scan driver is written once against this
//! capability, and two interchangeable implementations back it — a generic
//! hash set of color values and a dense bit vector over small integer
//! labels.

use vstd::prelude::*;
use std::collections::HashSet;

verus! {

broadcast use vstd::std_specs::hash::group_hash_axioms;

/// The membership capability the scan driver needs: which colors have
/// already been traced.
pub trait SeenColors {
    spec fn colors(&self) -> Set<u32>;

    fn contains_color(&self, color: u32) -> (r: bool)
        ensures
            r == self.colors().contains(color),
    ;

    fn record_color(&mut self, color: u32)
        ensures
            final(self).colors() == old(self).colors().insert(color),
    ;
}

/// Generic strategy: a hash set of arbitrary color values.
impl SeenColors for HashSet<u32> {
    open spec fn colors(&self) -> Set<u32> {
        self@
    }

    fn contains_color(&self, color: u32) -> (r: bool) {
        self.contains(&color)
    }

    fn record_color(&mut self, color: u32) {
        self.insert(color);
    }
}

/// Label-optimized strategy: a dense bit vector indexed by label value.
/// The vector itself lives in the bit_set crate and is opaque here; the
/// labels it holds are named by `label_bits`, and the wrappers below state
/// what the crate's operations do to them.
#[verifier::external_body]
pub struct LabelBitSet {
    bits: bit_set::BitSet,
}

/// The set of labels a `LabelBitSet` holds.
pub uninterp spec fn label_bits(s: &LabelBitSet) -> Set<u32>;

/// Relies on bit_set::BitSet::new: a freshly created set holds no labels.
#[verifier::external_body]
pub(crate) fn label_bits_new() -> (s: LabelBitSet)
    ensures
        label_bits(&s) == Set::<u32>::empty(),
{
    LabelBitSet { bits: bit_set::BitSet::new() }
}

/// Relies on bit_set::BitSet::contains: whether the label's bit is set.
#[verifier::external_body]
fn label_bits_contains(s: &LabelBitSet, color: u32) -> (r: bool)
    ensures
        r == label_bits(s).contains(color),
{
    s.bits.contains(color as usize)
}

/// Relies on bit_set::BitSet::insert: sets the label's bit, growing the
/// vector up to the label's index when needed.
#[verifier::external_body]
fn label_bits_insert(s: &mut LabelBitSet, color: u32)
    ensures
        label_bits(final(s)) == label_bits(old(s)).insert(color),
{
    s.bits.insert(color as usize);
}

impl SeenColors for LabelBitSet {
    open spec fn colors(&self) -> Set<u32> {
        label_bits(self)
    }

    fn contains_color(&self, color: u32) -> (r: bool) {
        label_bits_contains(self, color)
    }

    fn record_color(&mut self, color: u32) {
        label_bits_insert(self, color);
    }
}

} // verus!
