//! The address index: which object owns which range of addresses. No two
//! ranges of the index overlap.

use vstd::prelude::*;
use crate::ufo_objects::UfoId;

verus! {

/// A range of addresses, from `start` up to but without `end`, and the
/// object that owns it.
#[derive(Debug, Clone, Copy, PartialEq, Eq, Structural)]
pub struct Segment {
    pub start: usize,
    pub end: usize,
    pub id: UfoId,
}

impl Segment {
    pub open spec fn spec_contains(&self, addr: usize) -> bool {
        self.start <= addr < self.end
    }

    pub open spec fn spec_overlaps(&self, start: usize, end: usize) -> bool {
        self.start < end && start < self.end
    }

    /// Whether `addr` lies in the range.
    pub fn contains(&self, addr: usize) -> (r: bool)
        ensures
            r == self.spec_contains(addr),
    {
        self.start <= addr && addr < self.end
    }

    /// Whether the range shares an address with the range from `start` up
    /// to `end`.
    pub fn overlaps(&self, start: usize, end: usize) -> (r: bool)
        ensures
            r == self.spec_overlaps(start, end),
    {
        self.start < end && start < self.end
    }
}

/// The ranges of the live objects.
#[derive(Debug)]
pub struct SegmentMap {
    pub segments: Vec<Segment>,
}

/// No range is empty and no two ranges share an address.
pub open spec fn segments_are_disjoint(segments: Seq<Segment>) -> bool {
    &&& forall|i: int| 0 <= i < segments.len() ==> (#[trigger] segments[i]).start < segments[i].end
    &&& forall|i: int, j: int|
        0 <= i < segments.len() && 0 <= j < segments.len() && i != j ==> !(
        #[trigger] segments[i]).spec_overlaps((#[trigger] segments[j]).start, segments[j].end)
}

/// The range among `segments` that holds `addr`, if there is one.
pub open spec fn spec_entry(segments: Seq<Segment>, addr: usize) -> Option<Segment> {
    if exists|i: int| 0 <= i < segments.len() && (#[trigger] segments[i]).spec_contains(addr) {
        Some(
            segments[choose|i: int|
                0 <= i < segments.len() && (#[trigger] segments[i]).spec_contains(addr)],
        )
    } else {
        None
    }
}

/// The range among `segments` that begins at `start`, if there is one.
pub open spec fn spec_entry_at(segments: Seq<Segment>, start: usize) -> Option<Segment> {
    match spec_entry(segments, start) {
        Some(segment) => if segment.start == start {
            Some(segment)
        } else {
            None
        },
        None => None,
    }
}

/// Whether one of `segments` shares an address with the range from `start`
/// up to `end`.
pub open spec fn spec_any_overlap(segments: Seq<Segment>, start: usize, end: usize) -> bool {
    exists|i: int| 0 <= i < segments.len() && (#[trigger] segments[i]).spec_overlaps(start, end)
}

/// Among ranges that do not overlap, an address has one owner: a range that
/// holds it is the entry of the address.
pub proof fn lemma_entry_is_unique(segments: Seq<Segment>, addr: usize, i: int)
    requires
        segments_are_disjoint(segments),
        0 <= i < segments.len(),
        segments[i].spec_contains(addr),
    ensures
        spec_entry(segments, addr) == Some(segments[i]),
{
    let j = choose|j: int| 0 <= j < segments.len() && (#[trigger] segments[j]).spec_contains(addr);
    if i != j {
        assert(segments[i].spec_overlaps(segments[j].start, segments[j].end));
    }
}

impl SegmentMap {
    pub open spec fn view(&self) -> Seq<Segment> {
        self.segments@
    }

    pub open spec fn wf(&self) -> bool {
        segments_are_disjoint(self@)
    }

    /// An index without ranges.
    pub fn new() -> (r: SegmentMap)
        ensures
            r@ == Seq::<Segment>::empty(),
            r.wf(),
    {
        SegmentMap { segments: Vec::new() }
    }

    /// The number of ranges.
    pub fn len(&self) -> (r: usize)
        ensures
            r == self@.len(),
    {
        self.segments.len()
    }

    /// Where in the index the range lies that holds `addr`.
    fn position(&self, addr: usize) -> (r: Option<usize>)
        ensures
            r is Some ==> r->0 < self@.len() && self@[r->0 as int].spec_contains(addr),
            r is None ==> forall|i: int| 0 <= i < self@.len() ==> !(#[trigger] self@[i]).spec_contains(
                addr,
            ),
    {
        let mut i: usize = 0;
        while i < self.segments.len()
            invariant
                i <= self@.len(),
                forall|k: int| 0 <= k < i ==> !(#[trigger] self@[k]).spec_contains(addr),
            decreases self@.len() - i,
        {
            if self.segments[i].contains(addr) {
                return Some(i);
            }
            i += 1;
        }
        None
    }

    /// The range that holds `addr`, with its owner.
    pub fn get_entry(&self, addr: usize) -> (r: Option<Segment>)
        requires
            self.wf(),
        ensures
            r == spec_entry(self@, addr),
    {
        match self.position(addr) {
            Some(i) => {
                proof {
                    lemma_entry_is_unique(self@, addr, i as int);
                }
                Some(self.segments[i])
            },
            None => None,
        }
    }

    /// The owner of `addr`.
    pub fn get(&self, addr: usize) -> (r: Option<UfoId>)
        requires
            self.wf(),
        ensures
            r is Some <==> spec_entry(self@, addr) is Some,
            r is Some ==> r->0 == spec_entry(self@, addr)->0.id,
    {
        match self.get_entry(addr) {
            Some(segment) => Some(segment.id),
            None => None,
        }
    }

    /// Adds the range from `start` up to `end` for the object `id`. An
    /// empty range, and one that shares an address with a range of the
    /// index, is refused, and the index stays as it is.
    pub fn insert(&mut self, start: usize, end: usize, id: UfoId) -> (r: bool)
        requires
            old(self).wf(),
        ensures
            r == (start < end && !spec_any_overlap(old(self)@, start, end)),
            r ==> final(self)@ == old(self)@.push(Segment { start, end, id }),
            !r ==> final(self)@ == old(self)@,
            final(self).wf(),
    {
        if start >= end {
            return false;
        }
        let mut i: usize = 0;
        while i < self.segments.len()
            invariant
                i <= self@.len(),
                self@ == old(self)@,
                self.wf(),
                start < end,
                forall|k: int| 0 <= k < i ==> !(#[trigger] self@[k]).spec_overlaps(start, end),
            decreases self@.len() - i,
        {
            if self.segments[i].overlaps(start, end) {
                return false;
            }
            i += 1;
        }
        self.segments.push(Segment { start, end, id });
        true
    }

    /// Takes out the range that begins at `start`, and returns it.
    pub fn remove_by_start(&mut self, start: usize) -> (r: Option<Segment>)
        requires
            old(self).wf(),
        ensures
            final(self).wf(),
            r == spec_entry_at(old(self)@, start),
            r is None ==> final(self)@ == old(self)@,
            r is Some ==> exists|i: int|
                0 <= i < old(self)@.len() && old(self)@[i] == r->0 && final(self)@ == old(
                    self,
                )@.remove(i),
    {
        match self.position(start) {
            Some(i) => {
                proof {
                    lemma_entry_is_unique(self@, start, i as int);
                }
                if self.segments[i].start == start {
                    let removed = self.segments.remove(i);
                    Some(removed)
                } else {
                    None
                }
            },
            None => None,
        }
    }
}

/// The owner of an address stays what it was when a range is added that
/// does not hold the address.
pub proof fn lemma_insert_keeps_entries(segments: Seq<Segment>, added: Segment, addr: usize)
    requires
        segments_are_disjoint(segments.push(added)),
        !added.spec_contains(addr),
    ensures
        spec_entry(segments.push(added), addr) == spec_entry(segments, addr),
{
    let after = segments.push(added);
    assert(segments_are_disjoint(segments)) by {
        assert forall|i: int, j: int|
            0 <= i < segments.len() && 0 <= j < segments.len() && i != j implies !(
        #[trigger] segments[i]).spec_overlaps((#[trigger] segments[j]).start, segments[j].end) by {
            assert(after[i] == segments[i] && after[j] == segments[j]);
        }
        assert forall|i: int| 0 <= i < segments.len() implies (#[trigger] segments[i]).start
            < segments[i].end by {
            assert(after[i] == segments[i]);
        }
    }
    if exists|i: int| 0 <= i < segments.len() && (#[trigger] segments[i]).spec_contains(addr) {
        let i = choose|i: int| 0 <= i < segments.len() && (#[trigger] segments[i]).spec_contains(addr);
        assert(after[i] == segments[i]);
        lemma_entry_is_unique(segments, addr, i);
        lemma_entry_is_unique(after, addr, i);
    } else {
        if exists|i: int| 0 <= i < after.len() && (#[trigger] after[i]).spec_contains(addr) {
            let i = choose|i: int| 0 <= i < after.len() && (#[trigger] after[i]).spec_contains(addr);
            if i < segments.len() {
                assert(after[i] == segments[i]);
            }
        }
    }
}

/// Two objects never alias in the address index, and taking the range of
/// one out leaves the owner of every address of the other's range as it was.
pub proof fn lemma_remove_keeps_other_entries(segments: Seq<Segment>, gone: int, addr: usize)
    requires
        segments_are_disjoint(segments),
        0 <= gone < segments.len(),
        !segments[gone].spec_contains(addr),
    ensures
        segments_are_disjoint(segments.remove(gone)),
        spec_entry(segments.remove(gone), addr) == spec_entry(segments, addr),
{
    let after = segments.remove(gone);
    assert forall|i: int| 0 <= i < after.len() implies (#[trigger] after[i]).start
        < after[i].end by {
        let before = if i < gone { i } else { i + 1 };
        assert(after[i] == segments[before]);
    }
    assert forall|i: int, j: int|
        0 <= i < after.len() && 0 <= j < after.len() && i != j implies !(
    #[trigger] after[i]).spec_overlaps((#[trigger] after[j]).start, after[j].end) by {
        let bi = if i < gone { i } else { i + 1 };
        let bj = if j < gone { j } else { j + 1 };
        assert(after[i] == segments[bi] && after[j] == segments[bj]);
    }
    if exists|i: int| 0 <= i < segments.len() && (#[trigger] segments[i]).spec_contains(addr) {
        let i = choose|i: int| 0 <= i < segments.len() && (#[trigger] segments[i]).spec_contains(addr);
        let ai = if i < gone { i } else { i - 1 };
        assert(after[ai] == segments[i]);
        lemma_entry_is_unique(segments, addr, i);
        lemma_entry_is_unique(after, addr, ai);
    } else {
        if exists|i: int| 0 <= i < after.len() && (#[trigger] after[i]).spec_contains(addr) {
            let i = choose|i: int| 0 <= i < after.len() && (#[trigger] after[i]).spec_contains(addr);
            let bi = if i < gone { i } else { i + 1 };
            assert(after[i] == segments[bi]);
        }
    }
}

} // verus!
