//! The bit set that stores the cells, and what is taken on trust about it.
//!
//! `FixedBitSet` comes from the `fixedbitset` crate and is opaque to the
//! verifier. Every contract in this file is an assumption about that crate;
//! the rest of the library is proved from them.

use fixedbitset::FixedBitSet;
use vstd::prelude::*;

verus! {

#[verifier::external_type_specification]
#[verifier::external_body]
pub struct ExFixedBitSet(FixedBitSet);

/// The bits of a set by position, `true` for an enabled bit. Its length is
/// the set's length in bits.
pub uninterp spec fn bits(set: FixedBitSet) -> Seq<bool>;

/// A sequence of `len` disabled bits.
pub open spec fn all_clear(len: nat) -> Seq<bool> {
    Seq::new(len, |i: int| false)
}

/// Whether `words` packs `cells` thirty-two to a word, the cell at position
/// `i` in bit `i % 32` of word `i / 32`, with no word left over.
pub open spec fn packs(words: Seq<u32>, cells: Seq<bool>) -> bool {
    &&& words.len() == (cells.len() + 31) / 32
    &&& forall|i: int|
        0 <= i < cells.len() ==> cells[i] == (((#[trigger] words[i / 32]) >> ((i % 32) as u32)) & 1
            == 1)
}

/// Whether `out` lists the positions of the enabled bits of `cells`, each
/// once and in ascending order.
pub open spec fn lists_enabled(out: Seq<usize>, cells: Seq<bool>) -> bool {
    &&& forall|j: int, k: int| 0 <= j < k < out.len() ==> out[j] < out[k]
    &&& forall|k: int| 0 <= k < out.len() ==> out[k] < cells.len() && cells[#[trigger] out[k] as int]
    &&& forall|i: int|
        0 <= i < cells.len() && #[trigger] cells[i] ==> exists|k: int|
            0 <= k < out.len() && out[k] == i
}

/// `FixedBitSet::with_capacity`: a new set of `len` bits, none enabled.
pub assume_specification[ FixedBitSet::with_capacity ](len: usize) -> (set: FixedBitSet)
    ensures
        bits(set) == all_clear(len as nat),
;

/// `FixedBitSet::len`: the length in bits, enabled or not.
pub assume_specification[ FixedBitSet::len ](set: &FixedBitSet) -> (len: usize)
    ensures
        len == bits(*set).len(),
;

/// `FixedBitSet::grow`: a set shorter than `len` is extended to `len` bits,
/// the new ones disabled; a set at least that long is left as it is.
pub assume_specification[ FixedBitSet::grow ](set: &mut FixedBitSet, len: usize)
    ensures
        bits(*final(set)) == if len > bits(*old(set)).len() {
            bits(*old(set)) + all_clear((len - bits(*old(set)).len()) as nat)
        } else {
            bits(*old(set))
        },
;

/// `FixedBitSet::clear`: every bit is disabled; the length stays.
pub assume_specification[ FixedBitSet::clear ](set: &mut FixedBitSet)
    ensures
        bits(*final(set)) == all_clear(bits(*old(set)).len()),
;

/// `FixedBitSet::put`: enables the bit at `bit` and returns what it was
/// before. The crate panics on a position past the end, so that is ruled out.
pub assume_specification[ FixedBitSet::put ](set: &mut FixedBitSet, bit: usize) -> (prev: bool)
    requires
        bit < bits(*old(set)).len(),
    ensures
        prev == bits(*old(set))[bit as int],
        bits(*final(set)) == bits(*old(set)).update(bit as int, true),
;

/// `FixedBitSet::set`: the bit at `bit` becomes `enabled`, the others stay.
/// The crate panics on a position past the end, so that is ruled out.
pub assume_specification[ FixedBitSet::set ](set: &mut FixedBitSet, bit: usize, enabled: bool)
    requires
        bit < bits(*old(set)).len(),
    ensures
        bits(*final(set)) == bits(*old(set)).update(bit as int, enabled),
;

/// `FixedBitSet::toggle`: the bit at `bit` is inverted, the others stay.
/// The crate panics on a position past the end, so that is ruled out.
pub assume_specification[ FixedBitSet::toggle ](set: &mut FixedBitSet, bit: usize)
    requires
        bit < bits(*old(set)).len(),
    ensures
        bits(*final(set)) == bits(*old(set)).update(bit as int, !bits(*old(set))[bit as int]),
;

/// `FixedBitSet::as_slice`: the storage words, which pack the bits
/// thirty-two to a word from the lowest bit up.
pub assume_specification[ FixedBitSet::as_slice ](set: &FixedBitSet) -> (words: &[u32])
    ensures
        packs(words@, bits(*set)),
;

/// Indexing a `FixedBitSet`: the bit at `bit`, and `false` past the end (the
/// crate documents that indexing does not panic).
#[verifier::external_body]
pub(crate) fn bit_at(set: &FixedBitSet, bit: usize) -> (enabled: bool)
    ensures
        enabled == (bit < bits(*set).len() && bits(*set)[bit as int]),
{
    set[bit]
}

/// `Clone` for `FixedBitSet`: a set with the same bits.
#[verifier::external_body]
pub(crate) fn duplicate(set: &FixedBitSet) -> (copy: FixedBitSet)
    ensures
        bits(copy) == bits(*set),
{
    set.clone()
}

/// `FixedBitSet::ones`, collected: the positions of the enabled bits, in
/// ascending order.
#[verifier::external_body]
pub(crate) fn enabled_positions(set: &FixedBitSet) -> (out: Vec<usize>)
    ensures
        lists_enabled(out@, bits(*set)),
{
    set.ones().collect()
}

} // verus!
