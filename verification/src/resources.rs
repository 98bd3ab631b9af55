//! What a render is set up with, and the set of pixels that still wait for a
//! sample.

use hibitset::BitSet;
use hibitset::BitSetLike;
use vstd::prelude::*;

verus! {

/// How many samples per pixel are wanted before images stop being written.
#[derive(Debug, Default)]
pub struct Samples(pub usize);

/// The width of the image, in pixels.
#[derive(Debug, Default)]
pub struct Width(pub usize);

/// The height of the image, in pixels.
#[derive(Debug, Default)]
pub struct Height(pub usize);

/// How many frames have been rendered.
#[derive(Debug, Default)]
pub struct FrameCount(pub u32);

/// The image as it is shown: four bytes per pixel, row by row.
#[derive(Debug, Default)]
pub struct BufferOutput(pub Vec<u8>);

/// What the names of image files start with.
#[derive(Debug, Default)]
pub struct ImageFilePrefix(pub String);

/// The pixels that have not been sampled yet in the sweep under way.
///
/// The set inside is open to its owner. The methods here ask that its layers
/// agree, which holds of a set made by `new` and changed by these methods
/// alone, or by `add` below the limit and `remove`.
#[derive(Debug, Default)]
pub struct PixelsToProcess(pub BitSet);

/// `hibitset::BitSet`, taken as it is: a set of indices in four layers of
/// bits, of whose inside nothing is known here.
#[verifier::external_type_specification]
#[verifier::external_body]
pub struct ExBitSet(BitSet);

/// The indices that a `hibitset::BitSet` holds. What `new`, `add`, `remove`,
/// `contains` and the set's iterator do is stated over this name.
pub uninterp spec fn members(set: BitSet) -> Set<u32>;

/// The layers of a `hibitset::BitSet` agree: every bit of an upper layer
/// stands over a word of the layer below that is not zero, and every word
/// that is not zero has its bit in the layer above, up to the top. Only of
/// such a set does the iterator find every index. `new` makes such a set;
/// `add` of an index below the limit and `remove` keep it one. A set into
/// which an index at the limit was put is none, though `add` does not refuse
/// that index.
pub uninterp spec fn layered(set: BitSet) -> bool;

/// No index is in the set.
pub open spec fn holds_nothing(set: Set<u32>) -> bool {
    forall|id: u32| !set.contains(id)
}

/// The indices below `n`.
pub open spec fn all_below(n: nat) -> Set<u32> {
    Set::new(|id: u32| id < n)
}

/// `out` lists, in ascending order, the least indices of `from`, and `left`
/// is what remains of `from` without them.
pub open spec fn handed_out(from: Set<u32>, out: Seq<u32>, left: Set<u32>) -> bool {
    &&& forall|j: int, k: int| 0 <= j < k < out.len() ==> out[j] < out[k]
    &&& forall|k: int| 0 <= k < out.len() ==> from.contains(#[trigger] out[k])
    &&& forall|id: u32| #[trigger] left.contains(id) <==> from.contains(id) && !out.contains(id)
    &&& forall|id: u32, k: int| #[trigger]
        left.contains(id) && 0 <= k < out.len() ==> #[trigger] out[k] < id
}

/// A set takes indices below this limit: the fourth power of the number of
/// bits in a machine word.
pub open spec fn index_limit() -> int {
    if usize::BITS == 64 {
        0x100_0000
    } else {
        0x10_0000
    }
}

/// The limit below which a set takes indices.
pub fn max_index() -> (limit: u32)
    ensures
        limit == index_limit(),
{
    if usize::BITS == 64 {
        0x100_0000
    } else {
        0x10_0000
    }
}

/// `BitSet::new`: a set that holds nothing, its layers all empty.
#[verifier::external_body]
pub(crate) fn set_new() -> (set: BitSet)
    ensures
        holds_nothing(members(set)),
        layered(set),
{
    BitSet::new()
}

/// `BitSet::add`: puts an index below the limit into the set and tells
/// whether the set held it already. Above the limit the call panics, and at
/// the limit it sets a wrong bit in the top layer, so such an index is not
/// admitted. Where the index's word was empty the call sets the bits over it
/// in every layer; where it was not, they are set already in a set whose
/// layers agree.
#[verifier::external_body]
pub(crate) fn set_add(set: &mut BitSet, id: u32) -> (held: bool)
    requires
        id < index_limit(),
        layered(*old(set)),
    ensures
        members(*final(set)) == members(*old(set)).insert(id),
        held == members(*old(set)).contains(id),
        layered(*final(set)),
{
    set.add(id)
}

/// `BitSet::remove`: takes an index out of the set and tells whether the set
/// held it. Where that empties the index's word the call clears the bit over
/// it, and so on up the layers; on a set whose layers agree that leaves them
/// in agreement.
#[verifier::external_body]
pub(crate) fn set_remove(set: &mut BitSet, id: u32) -> (held: bool)
    requires
        layered(*old(set)),
    ensures
        members(*final(set)) == members(*old(set)).remove(id),
        held == members(*old(set)).contains(id),
        layered(*final(set)),
{
    set.remove(id)
}

/// `BitSetLike::iter` and the first `next` of the iterator: the least index
/// that the set holds, or `None` where it holds nothing. The iterator starts
/// at the top layer and goes down from the lowest bit of each word, so it
/// finds an index only through the bits over it: the claim is made of a set
/// whose layers agree, and of no other.
#[verifier::external_body]
pub(crate) fn set_first(set: &BitSet) -> (least: Option<u32>)
    requires
        layered(*set),
    ensures
        least is None <==> holds_nothing(members(*set)),
        least matches Some(m) ==> members(*set).contains(m) && forall|x: u32|
            members(*set).contains(x) ==> m <= x,
{
    set.iter().next()
}

impl PixelsToProcess {
    /// A set without pixels, its layers in agreement.
    pub fn new() -> (set: PixelsToProcess)
        ensures
            holds_nothing(members(set.0)),
            layered(set.0),
    {
        PixelsToProcess(set_new())
    }

    /// Whether the pixel with this index waits in the set.
    pub fn contains(&self, id: u32) -> (held: bool)
        ensures
            held == members(self.0).contains(id),
    {
        set_contains(&self.0, id)
    }

    /// Whether no pixel waits in the set.
    pub fn is_empty(&self) -> (empty: bool)
        requires
            layered(self.0),
        ensures
            empty == holds_nothing(members(self.0)),
    {
        set_first(&self.0).is_none()
    }

    /// Puts every index below `n` into the set.
    pub fn refill(&mut self, n: u32)
        requires
            n <= index_limit(),
            layered(old(self).0),
        ensures
            layered(final(self).0),
            forall|id: u32|
                members(final(self).0).contains(id) <==> members(old(self).0).contains(id) || id
                    < n,
    {
        let mut i: u32 = 0;
        while i < n
            invariant
                i <= n <= index_limit(),
                layered(self.0),
                forall|id: u32|
                    members(self.0).contains(id) <==> members(old(self).0).contains(id) || id < i,
            decreases n - i,
        {
            set_add(&mut self.0, i);
            i = i + 1;
        }
    }

    /// Takes the least indices out of the set, at most `limit` of them, and
    /// lists them in ascending order. Fewer than `limit` are listed only
    /// where the set is then empty.
    pub fn drain(&mut self, limit: u64) -> (out: Vec<u32>)
        requires
            layered(old(self).0),
        ensures
            layered(final(self).0),
            handed_out(members(old(self).0), out@, members(final(self).0)),
            out@.len() <= limit,
            out@.len() < limit ==> holds_nothing(members(final(self).0)),
    {
        let ghost from = members(self.0);
        let mut out: Vec<u32> = Vec::new();
        let mut left: u64 = limit;
        let mut least = set_first(&self.0);
        while left > 0 && least.is_some()
            invariant
                out@.len() + left == limit,
                layered(self.0),
                least is None <==> holds_nothing(members(self.0)),
                least matches Some(m) ==> members(self.0).contains(m) && forall|x: u32|
                    members(self.0).contains(x) ==> m <= x,
                handed_out(from, out@, members(self.0)),
            decreases left,
        {
            let id = least.unwrap();
            let ghost before = out@;
            let ghost held = members(self.0);
            set_remove(&mut self.0, id);
            out.push(id);
            left = left - 1;
            least = set_first(&self.0);
            proof {
                let now = members(self.0);
                assert forall|j: int, k: int| 0 <= j < k < out@.len() implies out@[j] < out@[k] by {
                    if k == before.len() {
                        assert(held.contains(id) && before[j] < id);
                    }
                }
                assert forall|x: u32| #[trigger] now.contains(x) <==> from.contains(x)
                    && !out@.contains(x) by {
                    if out@.contains(x) {
                        let k = choose|k: int| 0 <= k < out@.len() && out@[k] == x;
                        if k < before.len() {
                            assert(before[k] == x);
                            assert(before.contains(x));
                        }
                    }
                    if before.contains(x) {
                        let k = choose|k: int| 0 <= k < before.len() && before[k] == x;
                        assert(out@[k] == x);
                    }
                    if x == id {
                        assert(out@[before.len() as int] == id);
                    }
                }
                assert forall|x: u32, k: int| #[trigger]
                    now.contains(x) && 0 <= k < out@.len() implies #[trigger] out@[k] < x by {
                    assert(held.contains(x));
                    if k < before.len() {
                        assert(before[k] < x);
                    }
                }
            }
        }
        out
    }
}

/// `BitSet::contains`: whether the set holds the index.
#[verifier::external_body]
pub(crate) fn set_contains(set: &BitSet, id: u32) -> (held: bool)
    ensures
        held == members(*set).contains(id),
{
    set.contains(id)
}

} // verus!
