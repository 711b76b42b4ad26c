//! Typed view over a list of word-sized primitive values: a thin overlay
//! that turns a decoded list region into bounds-checked get and set
//! operations.  A view over an absent pointer is a zero-length, always-valid
//! view.

use vstd::prelude::*;

use crate::arena::BuilderArena;
use crate::layout::{
    list_in_bounds, spec_encode_ptr, spec_follow_list, ListBuilder, ListReader, PointerBuilder,
    PointerReader, PTR_KIND_DATA_LIST,
};
use crate::message::{
    init_list, list_builder_in_bounds, read_built_ptr, spec_init_list_ok, spec_init_list_target,
    spec_read_built_ptr, SegmentArrayMessageReader,
};
use crate::Error;

verus! {

/// Read access to a list of word-sized primitives in a message being read.
#[derive(Clone, Copy, Debug, PartialEq, Eq, Structural)]
pub struct Reader {
    reader: ListReader,
}

impl Reader {
    /// The list region this view covers.
    pub closed spec fn view_list(&self) -> ListReader {
        self.reader
    }

    /// Wrap an already-decoded data-list region.
    pub fn new(reader: ListReader) -> (r: Reader)
        requires
            !reader.pointer_elements,
        ensures
            r.view_list() == reader,
    {
        Reader { reader }
    }

    /// Decode the pointer at `ptr` as a data list and wrap it; an absent
    /// pointer yields a zero-length view.
    pub fn get_from_pointer(message: &mut SegmentArrayMessageReader, ptr: PointerReader) -> (r:
        Result<Reader, Error>)
        requires
            old(message).inv(),
        ensures
            final(message).inv(),
            final(message).segments() == old(message).segments(),
            final(message).options_view() == old(message).options_view(),
            final(message).budget() <= old(message).budget(),
            match r {
                Ok(l) => Ok::<ListReader, Error>(l.view_list()) == spec_follow_list(
                    old(message).segments(),
                    old(message).budget(),
                    old(message).options_view().fail_fast,
                    ptr,
                    false,
                ) && list_in_bounds(final(message).segments(), l.view_list())
                    && !l.view_list().pointer_elements,
                Err(e) => Err::<ListReader, Error>(e) == spec_follow_list(
                    old(message).segments(),
                    old(message).budget(),
                    old(message).options_view().fail_fast,
                    ptr,
                    false,
                ),
            },
    {
        match message.follow_list_pointer(ptr, false) {
            Ok(l) => Ok(Reader { reader: l }),
            Err(e) => Err(e),
        }
    }

    /// Number of elements.
    pub fn len(&self) -> (r: u32)
        ensures
            r == self.view_list().count,
    {
        self.reader.count
    }

    /// The element at `index`: the word at the list body's `index`-th
    /// position.
    pub fn get(&self, message: &SegmentArrayMessageReader, index: u32) -> (r: u64)
        requires
            message.inv(),
            index < self.view_list().count,
            !self.view_list().pointer_elements,
            list_in_bounds(message.segments(), self.view_list()),
        ensures
            r == message.segments()[self.view_list().segment as int][self.view_list().offset
                + index],
    {
        let seg = message.get_segment(self.reader.segment);
        let seg_len = seg.len();
        proof {
            assert(self.reader.offset + self.reader.count <= seg_len);
        }
        seg[self.reader.offset + index as usize]
    }
}

/// Write access to a list of word-sized primitives in a message under
/// construction.
#[derive(Clone, Copy, Debug, PartialEq, Eq, Structural)]
pub struct Builder {
    builder: ListBuilder,
}

impl Builder {
    /// The list region this view covers.
    pub closed spec fn view_list(&self) -> ListBuilder {
        self.builder
    }

    /// Wrap an already-allocated data-list region.
    pub fn new(builder: ListBuilder) -> (r: Builder)
        requires
            !builder.pointer_elements,
        ensures
            r.view_list() == builder,
    {
        Builder { builder }
    }

    /// Allocate storage for a data list of `size` elements behind the
    /// pointer at `ptr` and wrap it: the pointer word now names the new
    /// list, every element reads as zero, and no other word of the message
    /// changes.
    pub fn init_pointer(arena: &mut BuilderArena, ptr: PointerBuilder, size: u32) -> (r: Result<
        Builder,
        Error,
    >)
        requires
            old(arena).inv(),
            ptr.segment < old(arena).num_segments(),
            ptr.word < old(arena).segment_fill(ptr.segment as int),
        ensures
            final(arena).inv(),
            r.is_ok() == spec_init_list_ok(old(arena), size),
            match r {
                Ok(l) => {
                    &&& l.view_list().count == size
                    &&& !l.view_list().pointer_elements
                    &&& list_builder_in_bounds(final(arena), l.view_list())
                    &&& (l.view_list().segment as int, l.view_list().offset as int)
                        == spec_init_list_target(old(arena), size)
                    &&& final(arena).segment_words(ptr.segment as int) == old(
                        arena,
                    ).segment_words(ptr.segment as int).update(
                        ptr.word as int,
                        spec_encode_ptr(
                            PTR_KIND_DATA_LIST,
                            l.view_list().segment as u64,
                            l.view_list().offset as u64,
                            l.view_list().count as u64,
                        ),
                    )
                    &&& forall|i: int|
                        0 <= i < old(arena).num_segments() && i != ptr.segment
                            ==> #[trigger] final(arena).segment_words(i)
                            == old(arena).segment_words(i)
                    &&& forall|j: int|
                        0 <= j < size && !(l.view_list().segment == ptr.segment
                            && l.view_list().offset + j == ptr.word)
                            ==> #[trigger] final(arena).segment_words(
                            l.view_list().segment as int,
                        )[l.view_list().offset + j] == 0
                },
                Err(e) => e == Error::AllocationLimitExceeded,
            },
    {
        match init_list(arena, ptr, size, false) {
            Ok(lb) => Ok(Builder { builder: lb }),
            Err(e) => Err(e),
        }
    }

    /// Decode the already-written pointer at `ptr` as a data list and wrap
    /// it; the null word yields a zero-length view.
    pub fn get_from_pointer(arena: &BuilderArena, ptr: PointerBuilder) -> (r: Result<
        Builder,
        Error,
    >)
        requires
            arena.inv(),
            ptr.segment < arena.num_segments(),
            ptr.word < arena.segment_fill(ptr.segment as int),
        ensures
            match r {
                Ok(l) => Ok::<ListBuilder, Error>(l.view_list()) == spec_read_built_ptr(
                    arena,
                    ptr.segment as int,
                    ptr.word as int,
                    false,
                ) && list_builder_in_bounds(arena, l.view_list())
                    && !l.view_list().pointer_elements,
                Err(e) => Err::<ListBuilder, Error>(e) == spec_read_built_ptr(
                    arena,
                    ptr.segment as int,
                    ptr.word as int,
                    false,
                ),
            },
    {
        match read_built_ptr(arena, ptr, false) {
            Ok(lb) => Ok(Builder { builder: lb }),
            Err(e) => Err(e),
        }
    }

    /// Number of elements.
    pub fn len(&self) -> (r: u32)
        ensures
            r == self.view_list().count,
    {
        self.builder.count
    }

    /// Store `value` as element `index`, changing nothing else in the
    /// message.
    pub fn set(&self, arena: &mut BuilderArena, index: u32, value: u64)
        requires
            old(arena).inv(),
            index < self.view_list().count,
            !self.view_list().pointer_elements,
            list_builder_in_bounds(old(arena), self.view_list()),
        ensures
            final(arena).inv(),
            final(arena).num_segments() == old(arena).num_segments(),
            final(arena).segment_words(self.view_list().segment as int) == old(
                arena,
            ).segment_words(self.view_list().segment as int).update(
                self.view_list().offset + index,
                value,
            ),
            forall|i: int|
                0 <= i < old(arena).num_segments() && i != self.view_list().segment
                    ==> #[trigger] final(arena).segment_words(i) == old(arena).segment_words(i),
            forall|i: int|
                0 <= i < old(arena).num_segments() ==> #[trigger] final(arena).segment_fill(i)
                    == old(arena).segment_fill(i),
            final(arena).cap_table_view() == old(arena).cap_table_view(),
    {
        proof {
            crate::arena::lemma_arena_shape(old(arena), self.builder.segment as int);
        }
        arena.set_word(self.builder.segment, self.builder.offset + index as usize, value);
    }

    /// The element at `index` as currently stored.
    pub fn get(&self, arena: &BuilderArena, index: u32) -> (r: u64)
        requires
            arena.inv(),
            index < self.view_list().count,
            !self.view_list().pointer_elements,
            list_builder_in_bounds(arena, self.view_list()),
        ensures
            r == arena.segment_words(self.view_list().segment as int)[self.view_list().offset
                + index],
    {
        proof {
            crate::arena::lemma_arena_shape(arena, self.builder.segment as int);
        }
        arena.get_word(self.builder.segment, self.builder.offset + index as usize)
    }
}

} // verus!
