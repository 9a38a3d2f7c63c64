use vstd::prelude::*;

verus! {

/// Identifier of a controller within an array, or of a strip within a controller.
pub type LEDAddress = u32;

/// One fan-out rule of a channel: the virtual offsets `[start, end)` of the
/// channel's buffer are delivered to strip `strip_id` of controller
/// `controller_id`.
#[derive(Debug, Copy, Clone, PartialEq, Eq, Structural)]
pub struct ChannelMapping {
    pub controller_id: LEDAddress,
    pub strip_id: LEDAddress,
    pub start: LEDAddress,
    pub end: LEDAddress,
}

/// Why a mapping is refused.
#[derive(Debug, Copy, Clone, PartialEq, Eq, Structural)]
pub enum TopologyErrorKind {
    /// The mapping does not satisfy `start <= end <= length` of its channel.
    OutOfRange,
    /// The mapping shares a virtual offset with an earlier mapping of its channel.
    Overlap,
}

/// The first refused mapping of a mapping list.
#[derive(Debug, Copy, Clone, PartialEq, Eq, Structural)]
pub struct MappingFault {
    /// Position of the refused mapping in its list.
    pub mapping: usize,
    pub kind: TopologyErrorKind,
}

impl ChannelMapping {
    /// The mapping delivers virtual offset `offset`.
    pub open spec fn covers(&self, offset: int) -> bool {
        self.start <= offset < self.end
    }

    /// The mapping lies inside a buffer of `length` pixels.
    pub open spec fn in_range(&self, length: int) -> bool {
        self.start <= self.end <= length
    }

    /// The two mappings deliver a common virtual offset.
    pub open spec fn overlaps(&self, other: &ChannelMapping) -> bool {
        exists|offset: int| self.covers(offset) && #[trigger] other.covers(offset)
    }

    /// Number of virtual offsets the mapping delivers.
    pub open spec fn span(&self) -> int {
        if self.start <= self.end {
            self.end - self.start
        } else {
            0
        }
    }

    pub fn fits(&self, length: usize) -> (ok: bool)
        ensures
            ok == self.in_range(length as int),
    {
        self.start <= self.end && self.end as usize <= length
    }

    pub fn intersects(&self, other: &ChannelMapping) -> (hit: bool)
        ensures
            hit == self.overlaps(other),
    {
        let hit = self.start < self.end && other.start < other.end && self.start < other.end
            && other.start < self.end;
        proof {
            if hit {
                let offset: int = if self.start >= other.start {
                    self.start as int
                } else {
                    other.start as int
                };
                assert(self.covers(offset) && other.covers(offset));
            }
        }
        hit
    }
}

/// Mapping `j` of `map` is refused for a buffer of `length` pixels: it is out
/// of range, or it overlaps a mapping that stands before it.
pub open spec fn faulty_at(map: Seq<ChannelMapping>, length: int, j: int) -> bool {
    ||| !map[j].in_range(length)
    ||| exists|i: int| 0 <= i < j && (#[trigger] map[i]).overlaps(&map[j])
}

/// Every mapping is in range and no two of them share a virtual offset.
pub open spec fn mappings_valid(map: Seq<ChannelMapping>, length: int) -> bool {
    &&& forall|i: int| 0 <= i < map.len() ==> (#[trigger] map[i]).in_range(length)
    &&& forall|i: int, j: int|
        #![trigger map[i], map[j]]
        0 <= i < j < map.len() ==> !map[i].overlaps(&map[j])
}

/// What `check_mappings` reports for a first refused mapping at position `j`.
pub open spec fn fault_at(map: Seq<ChannelMapping>, length: int, j: int) -> MappingFault {
    MappingFault {
        mapping: j as usize,
        kind: if map[j].in_range(length) {
            TopologyErrorKind::Overlap
        } else {
            TopologyErrorKind::OutOfRange
        },
    }
}

/// `fault` names the first refused mapping of `map`, and why it is refused.
pub open spec fn is_first_fault(map: Seq<ChannelMapping>, length: int, fault: MappingFault) -> bool {
    &&& fault.mapping < map.len()
    &&& faulty_at(map, length, fault.mapping as int)
    &&& forall|k: int| 0 <= k < fault.mapping ==> !faulty_at(map, length, k)
    &&& fault == fault_at(map, length, fault.mapping as int)
}

/// A list without a refused mapping is valid, and a valid list has none.
pub proof fn lemma_valid_iff_no_fault(map: Seq<ChannelMapping>, length: int)
    ensures
        mappings_valid(map, length) <==> forall|j: int|
            0 <= j < map.len() ==> !faulty_at(map, length, j),
{
    if mappings_valid(map, length) {
        assert forall|j: int| 0 <= j < map.len() implies !faulty_at(map, length, j) by {
            assert(map[j].in_range(length));
        }
    }
    if forall|j: int| 0 <= j < map.len() ==> !faulty_at(map, length, j) {
        assert forall|i: int| 0 <= i < map.len() implies (#[trigger] map[i]).in_range(length) by {
            assert(!faulty_at(map, length, i));
        }
        assert forall|i: int, j: int|
            #![trigger map[i], map[j]]
            0 <= i < j < map.len() implies !map[i].overlaps(&map[j]) by {
            assert(!faulty_at(map, length, j));
        }
    }
}

/// Validates a channel's mapping list against a buffer of `length` pixels.
/// Returns `None` where the list is valid, and otherwise the first mapping
/// that is out of range or overlaps an earlier one.
pub fn check_mappings(map: &Vec<ChannelMapping>, length: usize) -> (fault: Option<MappingFault>)
    ensures
        fault is None <==> mappings_valid(map@, length as int),
        fault matches Some(f) ==> is_first_fault(map@, length as int, f),
{
    let n = map.len();
    let mut j: usize = 0;
    while j < n
        invariant
            n == map@.len(),
            j <= n,
            forall|k: int| 0 <= k < j ==> !faulty_at(map@, length as int, k),
        decreases n - j,
    {
        if !map[j].fits(length) {
            proof {
                assert(faulty_at(map@, length as int, j as int));
                lemma_valid_iff_no_fault(map@, length as int);
            }
            return Some(MappingFault { mapping: j, kind: TopologyErrorKind::OutOfRange });
        }
        let mut i: usize = 0;
        while i < j
            invariant
                n == map@.len(),
                j < n,
                i <= j,
                map@[j as int].in_range(length as int),
                forall|k: int| 0 <= k < j ==> !faulty_at(map@, length as int, k),
                forall|k: int| 0 <= k < i ==> !(#[trigger] map@[k]).overlaps(&map@[j as int]),
            decreases j - i,
        {
            if map[i].intersects(&map[j]) {
                proof {
                    assert(map@[i as int].overlaps(&map@[j as int]));
                    assert(faulty_at(map@, length as int, j as int));
                    lemma_valid_iff_no_fault(map@, length as int);
                }
                return Some(MappingFault { mapping: j, kind: TopologyErrorKind::Overlap });
            }
            i += 1;
        }
        j += 1;
    }
    proof {
        lemma_valid_iff_no_fault(map@, length as int);
    }
    None
}

} // verus!
