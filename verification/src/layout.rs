//! Pointer-word layout: how a list value is named from inside a message.
//!
//! One 8-byte word encodes a typed pointer.  The all-zero word is the null
//! pointer.  Otherwise the low two bits give the pointer kind, and the rest
//! of the word names the target: the word offset of the list body within its
//! segment, the segment id, and the element count.  All fields are absolute,
//! so a pointer stays valid wherever it is read from.
//!
//! Bit layout of a non-null pointer word, low bits first: kind (2 bits),
//! body word offset (28 bits), segment id (12 bits), element count (22
//! bits).

use vstd::prelude::*;

use crate::Error;

verus! {

/// Kind bits of a pointer to a list of plain data words.
pub const PTR_KIND_DATA_LIST: u64 = 1;

/// Kind bits of a pointer to a list of pointers.
pub const PTR_KIND_POINTER_LIST: u64 = 2;

/// Exclusive upper bound on segment ids the pointer format can name.
pub const MAX_SEGMENTS: u64 = 0x1000;

/// Exclusive upper bound on body word offsets the pointer format can name.
pub const MAX_OFFSET: u64 = 0x10000000;

/// Exclusive upper bound on element counts the pointer format can name.
pub const MAX_ELEMENTS: u64 = 0x400000;

/// Kind bits of a pointer word.
pub open spec fn spec_ptr_kind(w: u64) -> u64 {
    w & 3
}

/// Body word offset named by a pointer word.
pub open spec fn spec_ptr_offset(w: u64) -> u64 {
    (w >> 2) & 0xFFFFFFF
}

/// Segment id named by a pointer word.
pub open spec fn spec_ptr_segment(w: u64) -> u64 {
    (w >> 30) & 0xFFF
}

/// Element count named by a pointer word.
pub open spec fn spec_ptr_count(w: u64) -> u64 {
    w >> 42
}

/// The pointer word naming a list of `count` elements whose body starts at
/// word `offset` of segment `segment`.
pub open spec fn spec_encode_ptr(kind: u64, segment: u64, offset: u64, count: u64) -> u64 {
    kind | (offset << 2) | (segment << 30) | (count << 42)
}

/// Decoding inverts encoding, field by field, and an encoded pointer is
/// never the null word.
pub proof fn lemma_ptr_round_trip(kind: u64, segment: u64, offset: u64, count: u64)
    requires
        1 <= kind <= 2,
        segment < MAX_SEGMENTS,
        offset < MAX_OFFSET,
        count < MAX_ELEMENTS,
    ensures
        spec_ptr_kind(spec_encode_ptr(kind, segment, offset, count)) == kind,
        spec_ptr_offset(spec_encode_ptr(kind, segment, offset, count)) == offset,
        spec_ptr_segment(spec_encode_ptr(kind, segment, offset, count)) == segment,
        spec_ptr_count(spec_encode_ptr(kind, segment, offset, count)) == count,
        spec_encode_ptr(kind, segment, offset, count) != 0,
{
    assert((kind | (offset << 2) | (segment << 30) | (count << 42)) & 3 == kind
        && ((kind | (offset << 2) | (segment << 30) | (count << 42)) >> 2) & 0xFFFFFFF == offset
        && ((kind | (offset << 2) | (segment << 30) | (count << 42)) >> 30) & 0xFFF == segment && (
    kind | (offset << 2) | (segment << 30) | (count << 42)) >> 42 == count && (kind | (offset << 2)
        | (segment << 30) | (count << 42)) != 0) by (bit_vector)
        requires
            1 <= kind <= 2,
            segment < 0x1000,
            offset < 0x10000000,
            count < 0x400000,
    ;
}

/// Every decoded field is within its format bound, whatever the word.
pub proof fn lemma_ptr_fields_bounded(w: u64)
    ensures
        spec_ptr_kind(w) < 4,
        spec_ptr_offset(w) < MAX_OFFSET,
        spec_ptr_segment(w) < MAX_SEGMENTS,
        spec_ptr_count(w) < MAX_ELEMENTS,
{
    assert(w & 3 < 4 && (w >> 2) & 0xFFFFFFF < 0x10000000 && (w >> 30) & 0xFFF < 0x1000 && w >> 42
        < 0x400000) by (bit_vector);
}

/// Kind bits of a pointer word.
pub fn ptr_kind(w: u64) -> (r: u64)
    ensures
        r == spec_ptr_kind(w),
        r < 4,
{
    proof {
        lemma_ptr_fields_bounded(w);
    }
    w & 3
}

/// Body word offset named by a pointer word.
pub fn ptr_offset(w: u64) -> (r: u64)
    ensures
        r == spec_ptr_offset(w),
        r < MAX_OFFSET,
{
    proof {
        lemma_ptr_fields_bounded(w);
    }
    (w >> 2) & 0xFFFFFFF
}

/// Segment id named by a pointer word.
pub fn ptr_segment(w: u64) -> (r: u64)
    ensures
        r == spec_ptr_segment(w),
        r < MAX_SEGMENTS,
{
    proof {
        lemma_ptr_fields_bounded(w);
    }
    (w >> 30) & 0xFFF
}

/// Element count named by a pointer word.
pub fn ptr_count(w: u64) -> (r: u64)
    ensures
        r == spec_ptr_count(w),
        r < MAX_ELEMENTS,
{
    proof {
        lemma_ptr_fields_bounded(w);
    }
    w >> 42
}

/// The pointer word naming a list of `count` elements whose body starts at
/// word `offset` of segment `segment`.
pub fn encode_ptr(kind: u64, segment: u64, offset: u64, count: u64) -> (r: u64)
    requires
        1 <= kind <= 2,
        segment < MAX_SEGMENTS,
        offset < MAX_OFFSET,
        count < MAX_ELEMENTS,
    ensures
        r == spec_encode_ptr(kind, segment, offset, count),
        spec_ptr_kind(r) == kind,
        spec_ptr_offset(r) == offset,
        spec_ptr_segment(r) == segment,
        spec_ptr_count(r) == count,
        r != 0,
{
    proof {
        lemma_ptr_round_trip(kind, segment, offset, count);
    }
    kind | (offset << 2) | (segment << 30) | (count << 42)
}

/// The location of one pointer word within a message being read, together
/// with the nesting allowance left for what it points to.
#[derive(Clone, Copy, Debug, PartialEq, Eq, Structural)]
pub struct PointerReader {
    /// Segment holding the pointer word.
    pub segment: usize,
    /// Word index of the pointer word within its segment.
    pub word: usize,
    /// How many more levels of pointers may be followed from here.
    pub nesting: i32,
}

/// A decoded, bounds-checked view of one list value in a message being
/// read.
#[derive(Clone, Copy, Debug, PartialEq, Eq, Structural)]
pub struct ListReader {
    /// Segment holding the list body.
    pub segment: usize,
    /// Word index of the first element within the segment.
    pub offset: usize,
    /// Number of elements.
    pub count: u32,
    /// Whether the elements are pointers rather than plain data words.
    pub pointer_elements: bool,
    /// Nesting allowance for values reached through the elements.
    pub nesting: i32,
}

/// The location of one pointer word within a message under construction.
#[derive(Clone, Copy, Debug, PartialEq, Eq, Structural)]
pub struct PointerBuilder {
    /// Segment holding the pointer word.
    pub segment: u32,
    /// Word index of the pointer word within its segment.
    pub word: usize,
}

/// A list value under construction: its allocated body and element type.
#[derive(Clone, Copy, Debug, PartialEq, Eq, Structural)]
pub struct ListBuilder {
    /// Segment holding the list body.
    pub segment: u32,
    /// Word index of the first element within the segment.
    pub offset: usize,
    /// Number of elements.
    pub count: u32,
    /// Whether the elements are pointers rather than plain data words.
    pub pointer_elements: bool,
}

/// The zero-length, always-valid list view that an absent or degraded
/// pointer yields.
pub open spec fn default_list(expect_pointers: bool) -> ListReader {
    ListReader { segment: 0, offset: 0, count: 0, pointer_elements: expect_pointers, nesting: 0 }
}

/// Whether `(segment, word)` names an existing word of the message.
pub open spec fn loc_in_bounds(segs: Seq<Seq<u64>>, segment: int, word: int) -> bool {
    0 <= segment < segs.len() && 0 <= word < segs[segment].len()
}

/// Whether a list view lies entirely within the message.
pub open spec fn list_in_bounds(segs: Seq<Seq<u64>>, l: ListReader) -> bool {
    l.segment < segs.len() && l.offset + l.count <= segs[l.segment as int].len()
}

/// What following the list pointer at `ptr` yields, given the message
/// segments, the remaining traversal budget, and the failure policy.  The
/// cases, in the order they are checked: a pointer location outside the
/// message is malformed; the null word is an absent value and yields the
/// default empty list; an exhausted nesting allowance violates the nesting
/// limit; a word whose kind bits do not name a list of the expected element
/// type is malformed, as is one whose body lies outside the message; a body
/// larger than the remaining budget violates the traversal limit.  Under
/// `fail_fast` a violation fails the read; otherwise it degrades to the
/// default empty list.  Only a fully valid pointer charges the budget.
pub open spec fn spec_follow_list(
    segs: Seq<Seq<u64>>,
    budget: u64,
    fail_fast: bool,
    ptr: PointerReader,
    expect_pointers: bool,
) -> Result<ListReader, Error> {
    if !loc_in_bounds(segs, ptr.segment as int, ptr.word as int) {
        if fail_fast {
            Err(Error::MalformedMessage)
        } else {
            Ok(default_list(expect_pointers))
        }
    } else {
        let w = segs[ptr.segment as int][ptr.word as int];
        if w == 0 {
            Ok(default_list(expect_pointers))
        } else if ptr.nesting <= 0 {
            if fail_fast {
                Err(Error::NestingLimitExceeded)
            } else {
                Ok(default_list(expect_pointers))
            }
        } else if spec_ptr_kind(w) != (if expect_pointers {
            PTR_KIND_POINTER_LIST
        } else {
            PTR_KIND_DATA_LIST
        }) {
            if fail_fast {
                Err(Error::MalformedMessage)
            } else {
                Ok(default_list(expect_pointers))
            }
        } else if !(spec_ptr_segment(w) < segs.len() && spec_ptr_offset(w) + spec_ptr_count(w)
            <= segs[spec_ptr_segment(w) as int].len()) {
            if fail_fast {
                Err(Error::MalformedMessage)
            } else {
                Ok(default_list(expect_pointers))
            }
        } else if spec_ptr_count(w) > budget {
            if fail_fast {
                Err(Error::TraversalLimitExceeded)
            } else {
                Ok(default_list(expect_pointers))
            }
        } else {
            Ok(
                ListReader {
                    segment: spec_ptr_segment(w) as usize,
                    offset: spec_ptr_offset(w) as usize,
                    count: spec_ptr_count(w) as u32,
                    pointer_elements: expect_pointers,
                    nesting: (ptr.nesting - 1) as i32,
                },
            )
        }
    }
}

/// The traversal budget left after following the list pointer at `ptr`:
/// unchanged unless the follow fully succeeded, in which case the element
/// count was charged.
pub open spec fn spec_follow_budget(
    segs: Seq<Seq<u64>>,
    budget: u64,
    fail_fast: bool,
    ptr: PointerReader,
    expect_pointers: bool,
) -> u64 {
    if spec_follow_list(segs, budget, fail_fast, ptr, expect_pointers) == Ok::<
        ListReader,
        Error,
    >(default_list(expect_pointers)) {
        budget
    } else if spec_follow_list(segs, budget, fail_fast, ptr, expect_pointers).is_ok() {
        (budget - spec_ptr_count(segs[ptr.segment as int][ptr.word as int])) as u64
    } else {
        budget
    }
}

impl ListReader {
    /// The location of element `index` of a list of pointers, carrying this
    /// list's nesting allowance.
    pub fn element_pointer(&self, index: u32) -> (r: PointerReader)
        requires
            self.pointer_elements,
            index < self.count,
            self.offset + self.count <= usize::MAX,
        ensures
            r.segment == self.segment,
            r.word == self.offset + index,
            r.nesting == self.nesting,
    {
        PointerReader { segment: self.segment, word: self.offset + index as usize, nesting: self.nesting }
    }
}

} // verus!
