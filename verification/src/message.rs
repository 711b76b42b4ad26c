//! Message reader and builder façades and their configuration.

use vstd::prelude::*;

use crate::arena::{new_segment_size, BuilderArena, ReaderArena, MAX_TOTAL_WORDS};
use crate::layout::{
    encode_ptr, list_in_bounds, ptr_count, ptr_kind, ptr_offset, ptr_segment, spec_encode_ptr,
    spec_follow_budget, spec_follow_list, spec_ptr_count, spec_ptr_kind, spec_ptr_offset,
    spec_ptr_segment, ListBuilder, ListReader, PointerBuilder, PointerReader, MAX_ELEMENTS,
    MAX_SEGMENTS, PTR_KIND_DATA_LIST, PTR_KIND_POINTER_LIST,
};
use crate::ClientHook;
use crate::Error;

verus! {

/// Policy for sizing a new segment when the active segment cannot satisfy an
/// allocation.
#[derive(Clone, Copy, Debug, PartialEq, Eq, Structural)]
pub enum AllocationStrategy {
    /// Every appended segment gets the configured first-segment size, or the
    /// request itself when that is larger.
    FixedSize,
    /// Every appended segment is at least as large as the sum of all prior
    /// segments' capacities, for amortized geometric growth.
    GrowHeuristically,
}

/// Configuration of a message reader: the traversal budget and nesting limit
/// that defend against malformed or adversarial input, and how violations
/// are treated.
#[derive(Clone, Copy, Debug, PartialEq, Eq, Structural)]
pub struct ReaderOptions {
    /// Budget on the total words dereferenced while reading this message.
    pub traversal_limit_in_words: u64,
    /// Bound on pointer-chasing depth.
    pub nesting_limit: i32,
    /// If true, structural violations fail the whole read; if false, the
    /// offending substructure degrades to a default value.
    pub fail_fast: bool,
}

impl ReaderOptions {
    /// The default configuration: an 8-mebiword traversal budget, nesting
    /// limited to 64 levels, and fail-fast error handling.
    pub fn new() -> (r: ReaderOptions)
        ensures
            r.traversal_limit_in_words == 8388608,
            r.nesting_limit == 64,
            r.fail_fast == true,
    {
        ReaderOptions { traversal_limit_in_words: 8388608, nesting_limit: 64, fail_fast: true }
    }

    /// Replace the nesting limit, chaining on the same options value.
    pub fn nesting_limit(&mut self, value: i32) -> (r: &mut ReaderOptions)
        ensures
            r.nesting_limit == value,
            r.traversal_limit_in_words == old(self).traversal_limit_in_words,
            r.fail_fast == old(self).fail_fast,
            *final(self) == *final(r),
    {
        self.nesting_limit = value;
        self
    }

    /// Replace the traversal budget, chaining on the same options value.
    pub fn traversal_limit_in_words(&mut self, value: u64) -> (r: &mut ReaderOptions)
        ensures
            r.traversal_limit_in_words == value,
            r.nesting_limit == old(self).nesting_limit,
            r.fail_fast == old(self).fail_fast,
            *final(self) == *final(r),
    {
        self.traversal_limit_in_words = value;
        self
    }

    /// Replace the failure policy, chaining on the same options value.
    pub fn fail_fast(&mut self, value: bool) -> (r: &mut ReaderOptions)
        ensures
            r.fail_fast == value,
            r.traversal_limit_in_words == old(self).traversal_limit_in_words,
            r.nesting_limit == old(self).nesting_limit,
            *final(self) == *final(r),
    {
        self.fail_fast = value;
        self
    }
}

/// Configuration of a message builder: how large the first segment is and
/// how further segments are sized.
#[derive(Clone, Copy, Debug, PartialEq, Eq, Structural)]
pub struct BuilderOptions {
    /// Capacity, in words, of the first segment.
    pub first_segment_words: u32,
    /// How a new segment is sized when the active one is full.
    pub allocation_strategy: AllocationStrategy,
    /// If true, malformed input fails the whole operation; if false, it
    /// degrades to default values.
    pub fail_fast: bool,
}

impl BuilderOptions {
    /// The default configuration: a first segment of 1024 words, heuristic
    /// growth, and fail-fast error handling.
    pub fn new() -> (r: BuilderOptions)
        ensures
            r.first_segment_words == 1024,
            r.allocation_strategy == AllocationStrategy::GrowHeuristically,
            r.fail_fast == true,
    {
        BuilderOptions {
            first_segment_words: 1024,
            allocation_strategy: AllocationStrategy::GrowHeuristically,
            fail_fast: true,
        }
    }

    /// Replace the first-segment size, chaining on the same options value.
    pub fn first_segment_words(&mut self, value: u32) -> (r: &mut BuilderOptions)
        ensures
            r.first_segment_words == value,
            r.allocation_strategy == old(self).allocation_strategy,
            r.fail_fast == old(self).fail_fast,
            *final(self) == *final(r),
    {
        self.first_segment_words = value;
        self
    }

    /// Replace the allocation strategy, chaining on the same options value.
    pub fn allocation_strategy(&mut self, value: AllocationStrategy) -> (r: &mut BuilderOptions)
        ensures
            r.allocation_strategy == value,
            r.first_segment_words == old(self).first_segment_words,
            r.fail_fast == old(self).fail_fast,
            *final(self) == *final(r),
    {
        self.allocation_strategy = value;
        self
    }

    /// Replace the failure policy, chaining on the same options value.
    pub fn fail_fast(&mut self, value: bool) -> (r: &mut BuilderOptions)
        ensures
            r.fail_fast == value,
            r.first_segment_words == old(self).first_segment_words,
            r.allocation_strategy == old(self).allocation_strategy,
            *final(self) == *final(r),
    {
        self.fail_fast = value;
        self
    }
}

/// Reads one message from a caller-supplied ordered sequence of segments,
/// under the limits of its `ReaderOptions`.  The root value lives at word
/// zero of segment zero.
pub struct SegmentArrayMessageReader {
    arena: ReaderArena,
    options: ReaderOptions,
}

impl SegmentArrayMessageReader {
    /// The arena is well formed and carries this reader's configuration.
    pub closed spec fn inv(&self) -> bool {
        &&& self.arena.inv()
        &&& self.arena.nesting_limit_cfg() == self.options.nesting_limit
        &&& self.arena.fail_fast_mode() == self.options.fail_fast
    }

    /// The segments of the message, as word sequences.
    pub closed spec fn segments(&self) -> Seq<Seq<u64>> {
        self.arena.segments_view()
    }

    /// Traversal budget still available, in words.
    pub closed spec fn budget(&self) -> u64 {
        self.arena.budget()
    }

    /// The configuration this reader was built with.
    pub closed spec fn options_view(&self) -> ReaderOptions {
        self.options
    }

    /// The installed capability table.
    pub closed spec fn cap_table_view(&self) -> Seq<Option<ClientHook>> {
        self.arena.cap_table_view()
    }

    /// The arena owned by this reader.
    pub closed spec fn arena_view(&self) -> ReaderArena {
        self.arena
    }

    /// Borrow the given segments as one message, with the full traversal
    /// budget of `options`.
    pub fn new(segments: Vec<Vec<u64>>, options: ReaderOptions) -> (r: SegmentArrayMessageReader)
        requires
            segments.len() >= 1,
        ensures
            r.inv(),
            r.segments() == segments@.map_values(|v: Vec<u64>| v@),
            r.budget() == options.traversal_limit_in_words,
            r.options_view() == options,
            r.cap_table_view() == Seq::<Option<ClientHook>>::empty(),
    {
        SegmentArrayMessageReader {
            arena: ReaderArena::new(
                segments,
                options.traversal_limit_in_words,
                options.nesting_limit,
                options.fail_fast,
            ),
            options,
        }
    }

    /// The segment with the given id.
    pub fn get_segment(&self, id: usize) -> (r: &Vec<u64>)
        requires
            self.inv(),
            id < self.segments().len(),
        ensures
            r@ == self.segments()[id as int],
    {
        self.arena.get_segment(id)
    }

    /// The arena holding this message's segments and limits.
    pub fn arena(&self) -> (r: &ReaderArena)
        requires
            self.inv(),
        ensures
            *r == self.arena_view(),
            r.inv(),
    {
        &self.arena
    }

    /// A well-formed reader owns a well-formed arena carrying the reader's
    /// configured limits.
    pub proof fn arena_inv(&self)
        requires
            self.inv(),
        ensures
            self.arena_view().inv(),
            self.arena_view().nesting_limit_cfg() == self.options_view().nesting_limit,
            self.arena_view().fail_fast_mode() == self.options_view().fail_fast,
    {
    }

    /// Mutable access to the arena, for charging the traversal budget.  The
    /// reader stays well formed as long as the arena does and keeps the
    /// reader's configured limits.
    pub fn mut_arena(&mut self) -> (r: &mut ReaderArena)
        requires
            old(self).inv(),
        ensures
            *r == old(self).arena_view(),
            r.inv(),
            final(self).arena_view() == *final(r),
            final(self).options_view() == old(self).options_view(),
            (*final(r)).inv() && (*final(r)).nesting_limit_cfg() == old(
                self,
            ).options_view().nesting_limit && (*final(r)).fail_fast_mode() == old(
                self,
            ).options_view().fail_fast ==> final(self).inv(),
    {
        &mut self.arena
    }

    /// The configuration this reader was built with.
    pub fn get_options(&self) -> (r: &ReaderOptions)
        requires
            self.inv(),
        ensures
            *r == self.options_view(),
    {
        &self.options
    }

    /// Install the capability table; before this, interface pointers
    /// resolve to absent.
    pub fn init_cap_table(&mut self, cap_table: Vec<Option<ClientHook>>)
        requires
            old(self).inv(),
        ensures
            final(self).inv(),
            final(self).cap_table_view() == cap_table@,
            final(self).segments() == old(self).segments(),
            final(self).budget() == old(self).budget(),
            final(self).options_view() == old(self).options_view(),
    {
        self.arena.init_cap_table(cap_table);
    }

    /// The location of the root pointer: word zero of segment zero, with
    /// the configured nesting allowance.
    pub fn get_root_internal(&self) -> (r: PointerReader)
        requires
            self.inv(),
        ensures
            r == (PointerReader {
                segment: 0,
                word: 0,
                nesting: self.options_view().nesting_limit,
            }),
    {
        PointerReader { segment: 0, word: 0, nesting: self.options.nesting_limit }
    }

    /// Follow the list pointer at `ptr`, charging the traversal budget and
    /// enforcing the nesting limit; see `spec_follow_list` for the exact
    /// outcome in every case.
    pub fn follow_list_pointer(&mut self, ptr: PointerReader, expect_pointers: bool) -> (r: Result<
        ListReader,
        Error,
    >)
        requires
            old(self).inv(),
        ensures
            final(self).inv(),
            final(self).segments() == old(self).segments(),
            final(self).options_view() == old(self).options_view(),
            final(self).cap_table_view() == old(self).cap_table_view(),
            r == spec_follow_list(
                old(self).segments(),
                old(self).budget(),
                old(self).options_view().fail_fast,
                ptr,
                expect_pointers,
            ),
            final(self).budget() == spec_follow_budget(
                old(self).segments(),
                old(self).budget(),
                old(self).options_view().fail_fast,
                ptr,
                expect_pointers,
            ),
            final(self).budget() <= old(self).budget(),
            match r {
                Ok(l) => list_in_bounds(final(self).segments(), l) && l.count
                    < MAX_ELEMENTS,
                Err(_) => true,
            },
    {
        let fail_fast = self.options.fail_fast;
        let default = ListReader {
            segment: 0,
            offset: 0,
            count: 0,
            pointer_elements: expect_pointers,
            nesting: 0,
        };
        let nsegs = self.arena.segment_count();
        if !(ptr.segment < nsegs && ptr.word < self.arena.get_segment(ptr.segment).len()) {
            return if fail_fast {
                Err(Error::MalformedMessage)
            } else {
                Ok(default)
            };
        }
        let w = self.arena.get_segment(ptr.segment)[ptr.word];
        if w == 0 {
            return Ok(default);
        }
        if ptr.nesting <= 0 {
            return if fail_fast {
                Err(Error::NestingLimitExceeded)
            } else {
                Ok(default)
            };
        }
        let expected_kind = if expect_pointers {
            PTR_KIND_POINTER_LIST
        } else {
            PTR_KIND_DATA_LIST
        };
        if ptr_kind(w) != expected_kind {
            return if fail_fast {
                Err(Error::MalformedMessage)
            } else {
                Ok(default)
            };
        }
        let target_segment = ptr_segment(w) as usize;
        let target_offset = ptr_offset(w) as usize;
        let target_count = ptr_count(w);
        let body_ok = target_segment < nsegs && {
            let seg_len = self.arena.get_segment(target_segment).len();
            target_offset <= seg_len && target_count as usize <= seg_len - target_offset
        };
        if !body_ok {
            return if fail_fast {
                Err(Error::MalformedMessage)
            } else {
                Ok(default)
            };
        }
        if !self.arena.try_consume(target_count) {
            return if fail_fast {
                Err(Error::TraversalLimitExceeded)
            } else {
                Ok(default)
            };
        }
        Ok(
            ListReader {
                segment: target_segment,
                offset: target_offset,
                count: target_count as u32,
                pointer_elements: expect_pointers,
                nesting: ptr.nesting - 1,
            },
        )
    }

    /// Locate and decode the root list under the configured limits.
    pub fn get_root(&mut self, expect_pointers: bool) -> (r: Result<ListReader, Error>)
        requires
            old(self).inv(),
        ensures
            final(self).inv(),
            final(self).segments() == old(self).segments(),
            final(self).options_view() == old(self).options_view(),
            final(self).cap_table_view() == old(self).cap_table_view(),
            r == spec_follow_list(
                old(self).segments(),
                old(self).budget(),
                old(self).options_view().fail_fast,
                PointerReader { segment: 0, word: 0, nesting: old(self).options_view().nesting_limit },
                expect_pointers,
            ),
            final(self).budget() == spec_follow_budget(
                old(self).segments(),
                old(self).budget(),
                old(self).options_view().fail_fast,
                PointerReader {
                    segment: 0,
                    word: 0,
                    nesting: old(self).options_view().nesting_limit,
                },
                expect_pointers,
            ),
            final(self).budget() <= old(self).budget(),
            match r {
                Ok(l) => list_in_bounds(final(self).segments(), l) && l.count < MAX_ELEMENTS,
                Err(_) => true,
            },
    {
        let root = self.get_root_internal();
        self.follow_list_pointer(root, expect_pointers)
    }
}

/// Whether a list under construction lies entirely in the allocated region
/// of its arena.
pub open spec fn list_builder_in_bounds(a: &BuilderArena, lb: ListBuilder) -> bool {
    lb.segment < a.num_segments() && lb.offset + lb.count <= a.segment_fill(lb.segment as int)
}

/// Whether an `init_list` for `element_count` elements must succeed on this
/// arena: the count fits the pointer format, and the body either fits the
/// active segment or a new segment may still be appended and named.
pub open spec fn spec_init_list_ok(a: &BuilderArena, element_count: u32) -> bool {
    if element_count == 0 {
        true
    } else if element_count >= MAX_ELEMENTS {
        false
    } else {
        let last = a.num_segments() - 1;
        let fits = element_count <= a.segment_capacity(last) - a.segment_fill(last);
        let target = if fits {
            last
        } else {
            a.num_segments()
        };
        target < MAX_SEGMENTS && (fits || a.total_words() + new_segment_size(
            a.strategy(),
            a.base_segment_words(),
            a.total_words(),
            element_count,
        ) <= MAX_TOTAL_WORDS)
    }
}

/// Where the body of an `init_list` for `element_count` elements lands:
/// segment and word offset.
pub open spec fn spec_init_list_target(a: &BuilderArena, element_count: u32) -> (int, int) {
    if element_count == 0 {
        (0, 0)
    } else {
        let last = a.num_segments() - 1;
        let fits = element_count <= a.segment_capacity(last) - a.segment_fill(last);
        if fits {
            (last, a.segment_fill(last))
        } else {
            (a.num_segments(), 0)
        }
    }
}

/// Allocate the body of a list of `element_count` elements and write the
/// pointer word at `ptr` to name it.  A zero-length list allocates nothing.
/// The body lands where `spec_init_list_target` says, is zeroed, and
/// succeeds exactly when `spec_init_list_ok` holds; on failure nothing in
/// the message changes.
pub fn init_list(
    arena: &mut BuilderArena,
    ptr: PointerBuilder,
    element_count: u32,
    pointer_elements: bool,
) -> (r: Result<ListBuilder, Error>)
    requires
        old(arena).inv(),
        ptr.segment < old(arena).num_segments(),
        ptr.word < old(arena).segment_fill(ptr.segment as int),
    ensures
        final(arena).inv(),
        final(arena).strategy() == old(arena).strategy(),
        final(arena).base_segment_words() == old(arena).base_segment_words(),
        final(arena).fail_fast_mode() == old(arena).fail_fast_mode(),
        final(arena).cap_table_view() == old(arena).cap_table_view(),
        forall|i: int|
            0 <= i < old(arena).num_segments() ==> #[trigger] final(arena).segment_capacity(i)
                == old(arena).segment_capacity(i),
        r.is_ok() == spec_init_list_ok(old(arena), element_count),
        match r {
            Ok(lb) => {
                &&& lb.count == element_count
                &&& lb.pointer_elements == pointer_elements
                &&& (lb.segment as int, lb.offset as int) == spec_init_list_target(
                    old(arena),
                    element_count,
                )
                &&& lb.segment as int == old(arena).num_segments() ==> final(arena).num_segments()
                    == old(arena).num_segments() + 1
                    && final(arena).segment_capacity(lb.segment as int) == new_segment_size(
                    old(arena).strategy(),
                    old(arena).base_segment_words(),
                    old(arena).total_words(),
                    element_count,
                ) && final(arena).total_words() == old(arena).total_words()
                    + final(arena).segment_capacity(lb.segment as int)
                &&& (lb.segment as int) < old(arena).num_segments() ==> final(arena).num_segments()
                    == old(arena).num_segments() && final(arena).total_words()
                    == old(arena).total_words()
                &&& element_count > 0 ==> final(arena).segment_fill(lb.segment as int) == lb.offset
                    + lb.count
                &&& element_count == 0 ==> final(arena).segment_fill(0)
                    == old(arena).segment_fill(0)
                &&& forall|i: int|
                    0 <= i < old(arena).num_segments() && i != lb.segment
                        ==> #[trigger] final(arena).segment_fill(i) == old(arena).segment_fill(i)
                &&& list_builder_in_bounds(final(arena), lb)
                &&& final(arena).segment_words(ptr.segment as int) == old(arena).segment_words(
                    ptr.segment as int,
                ).update(
                    ptr.word as int,
                    spec_encode_ptr(
                        if pointer_elements {
                            PTR_KIND_POINTER_LIST
                        } else {
                            PTR_KIND_DATA_LIST
                        },
                        lb.segment as u64,
                        lb.offset as u64,
                        lb.count as u64,
                    ),
                )
                &&& forall|i: int|
                    0 <= i < old(arena).num_segments() && i != ptr.segment
                        ==> #[trigger] final(arena).segment_words(i) == old(arena).segment_words(i)
                &&& forall|j: int|
                    0 <= j < lb.count && !(lb.segment == ptr.segment && lb.offset + j
                        == ptr.word) ==> #[trigger] final(arena).segment_words(lb.segment as int)[
                        lb.offset + j] == 0
                &&& old(arena).num_segments() <= final(arena).num_segments()
                    <= old(arena).num_segments() + 1
                &&& ptr.word < final(arena).segment_fill(ptr.segment as int)
            },
            Err(e) => {
                &&& e == Error::AllocationLimitExceeded
                &&& final(arena).num_segments() == old(arena).num_segments()
                &&& final(arena).total_words() == old(arena).total_words()
                &&& forall|i: int|
                    0 <= i < old(arena).num_segments() ==> #[trigger] final(arena).segment_words(i)
                        == old(arena).segment_words(i)
                &&& forall|i: int|
                    0 <= i < old(arena).num_segments() ==> #[trigger] final(arena).segment_fill(i)
                        == old(arena).segment_fill(i)
            },
        },
{
    let kind = if pointer_elements {
        PTR_KIND_POINTER_LIST
    } else {
        PTR_KIND_DATA_LIST
    };
    proof {
        crate::arena::lemma_arena_shape(old(arena), 0);
        crate::arena::lemma_arena_shape(old(arena), ptr.segment as int);
        crate::arena::lemma_arena_shape(old(arena), old(arena).num_segments() - 1);
    }
    if element_count == 0 {
        let w = encode_ptr(kind, 0, 0, 0);
        arena.set_word(ptr.segment, ptr.word, w);
        return Ok(ListBuilder { segment: 0, offset: 0, count: 0, pointer_elements });
    }
    if element_count as u64 >= MAX_ELEMENTS {
        return Err(Error::AllocationLimitExceeded);
    }
    let num = arena.segment_count();
    let remaining = arena.active_remaining();
    let fits = element_count as usize <= remaining;
    let target_segment = if fits {
        num - 1
    } else {
        num
    };
    if target_segment as u64 >= MAX_SEGMENTS {
        return Err(Error::AllocationLimitExceeded);
    }
    let loc = match arena.allocate(element_count) {
        Ok(l) => l,
        Err(e) => {
            return Err(e);
        },
    };
    proof {
        crate::arena::lemma_arena_shape(&*arena, loc.0 as int);
        crate::arena::lemma_arena_shape(&*arena, ptr.segment as int);
    }
    let w = encode_ptr(kind, loc.0 as u64, loc.1 as u64, element_count as u64);
    arena.set_word(ptr.segment, ptr.word, w);
    Ok(ListBuilder { segment: loc.0, offset: loc.1, count: element_count, pointer_elements })
}

/// What reinterpreting the pointer word at `(segment, word)` of a message
/// under construction yields: the empty list for the null word, the named
/// list when the word is a well-formed pointer of the expected kind whose
/// body lies in the allocated region, and a malformed-message failure
/// otherwise.
pub open spec fn spec_read_built_ptr(
    a: &BuilderArena,
    segment: int,
    word: int,
    expect_pointers: bool,
) -> Result<ListBuilder, Error> {
    let empty = ListBuilder { segment: 0, offset: 0, count: 0, pointer_elements: expect_pointers };
    let w = a.segment_words(segment)[word];
    if w == 0 {
        Ok(empty)
    } else if spec_ptr_kind(w) != (if expect_pointers {
        PTR_KIND_POINTER_LIST
    } else {
        PTR_KIND_DATA_LIST
    }) {
        Err(Error::MalformedMessage)
    } else if !(spec_ptr_segment(w) < a.num_segments() && spec_ptr_offset(w) + spec_ptr_count(w)
        <= a.segment_fill(spec_ptr_segment(w) as int)) {
        Err(Error::MalformedMessage)
    } else {
        Ok(
            ListBuilder {
                segment: spec_ptr_segment(w) as u32,
                offset: spec_ptr_offset(w) as usize,
                count: spec_ptr_count(w) as u32,
                pointer_elements: expect_pointers,
            },
        )
    }
}

/// What reinterpreting the root pointer of a message under construction
/// yields: the empty list when the root was never allocated, else whatever
/// the word at the root location decodes to.
pub open spec fn spec_read_built_root(a: &BuilderArena, expect_pointers: bool) -> Result<
    ListBuilder,
    Error,
> {
    if a.segment_fill(0) == 0 {
        Ok(ListBuilder { segment: 0, offset: 0, count: 0, pointer_elements: expect_pointers })
    } else {
        spec_read_built_ptr(a, 0, 0, expect_pointers)
    }
}

/// Reinterpret the allocated pointer word at `ptr`; see
/// `spec_read_built_ptr` for the exact outcome.
pub fn read_built_ptr(arena: &BuilderArena, ptr: PointerBuilder, expect_pointers: bool) -> (r:
    Result<ListBuilder, Error>)
    requires
        arena.inv(),
        ptr.segment < arena.num_segments(),
        ptr.word < arena.segment_fill(ptr.segment as int),
    ensures
        r == spec_read_built_ptr(arena, ptr.segment as int, ptr.word as int, expect_pointers),
        match r {
            Ok(lb) => list_builder_in_bounds(arena, lb) && lb.pointer_elements == expect_pointers,
            Err(_) => true,
        },
{
    proof {
        crate::arena::lemma_arena_nonempty(arena);
        crate::arena::lemma_arena_shape(arena, 0);
        crate::arena::lemma_arena_shape(arena, ptr.segment as int);
    }
    let empty = ListBuilder { segment: 0, offset: 0, count: 0, pointer_elements: expect_pointers };
    let w = arena.get_word(ptr.segment, ptr.word);
    if w == 0 {
        return Ok(empty);
    }
    let expected_kind = if expect_pointers {
        PTR_KIND_POINTER_LIST
    } else {
        PTR_KIND_DATA_LIST
    };
    if ptr_kind(w) != expected_kind {
        return Err(Error::MalformedMessage);
    }
    let target_segment = ptr_segment(w);
    let target_offset = ptr_offset(w) as usize;
    let target_count = ptr_count(w);
    let num = arena.segment_count();
    let body_ok = (target_segment as usize) < num && {
        let fill = arena.segment_size(target_segment as u32);
        target_offset <= fill && target_count as usize <= fill - target_offset
    };
    if !body_ok {
        return Err(Error::MalformedMessage);
    }
    Ok(
        ListBuilder {
            segment: target_segment as u32,
            offset: target_offset,
            count: target_count as u32,
            pointer_elements: expect_pointers,
        },
    )
}

/// Reinterpret the root pointer of a message under construction; see
/// `spec_read_built_root` for the exact outcome.
pub fn read_built_root(arena: &BuilderArena, expect_pointers: bool) -> (r: Result<
    ListBuilder,
    Error,
>)
    requires
        arena.inv(),
    ensures
        r == spec_read_built_root(arena, expect_pointers),
        match r {
            Ok(lb) => list_builder_in_bounds(arena, lb) && lb.pointer_elements == expect_pointers,
            Err(_) => true,
        },
{
    proof {
        crate::arena::lemma_arena_nonempty(arena);
        crate::arena::lemma_arena_shape(arena, 0);
    }
    if arena.segment_size(0) == 0 {
        return Ok(
            ListBuilder { segment: 0, offset: 0, count: 0, pointer_elements: expect_pointers },
        );
    }
    read_built_ptr(arena, PointerBuilder { segment: 0, word: 0 }, expect_pointers)
}

/// Round-trip: a root pointer word written by the builder re-parses, field
/// by field, to the very list it was built from, under any reader whose
/// traversal budget covers the list and whose nesting limit admits one
/// level.  Together with the builder's guarantee that the root word encodes
/// the list it placed and that output segments carry the allocated words
/// unchanged, this says that serializing a built message and re-reading it
/// through a segment-array reader yields a logically equal root.
pub proof fn lemma_root_round_trip(
    segs: Seq<Seq<u64>>,
    budget: u64,
    fail_fast: bool,
    nesting: i32,
    segment: u64,
    offset: u64,
    count: u64,
    pointer_elements: bool,
)
    requires
        segs.len() >= 1,
        segs[0].len() >= 1,
        segment < MAX_SEGMENTS,
        offset < crate::layout::MAX_OFFSET,
        count < MAX_ELEMENTS,
        segs[0][0] == spec_encode_ptr(
            if pointer_elements {
                PTR_KIND_POINTER_LIST
            } else {
                PTR_KIND_DATA_LIST
            },
            segment,
            offset,
            count,
        ),
        segment < segs.len(),
        offset + count <= segs[segment as int].len(),
        count <= budget,
        nesting >= 1,
    ensures
        spec_follow_list(
            segs,
            budget,
            fail_fast,
            PointerReader { segment: 0, word: 0, nesting },
            pointer_elements,
        ) == Ok::<ListReader, Error>(
            ListReader {
                segment: segment as usize,
                offset: offset as usize,
                count: count as u32,
                pointer_elements,
                nesting: (nesting - 1) as i32,
            },
        ),
        spec_follow_budget(
            segs,
            budget,
            fail_fast,
            PointerReader { segment: 0, word: 0, nesting },
            pointer_elements,
        ) == budget - count,
{
    let kind = if pointer_elements {
        PTR_KIND_POINTER_LIST
    } else {
        PTR_KIND_DATA_LIST
    };
    crate::layout::lemma_ptr_round_trip(kind, segment, offset, count);
}

/// Whether overwriting the root with a fresh list of `element_count`
/// elements must succeed on this arena: the root word can exist, and the
/// list body fits the format and the supported total size.
pub open spec fn spec_init_root_ok(a: &BuilderArena, element_count: u32) -> bool {
    if a.segment_fill(0) == 0 {
        if a.segment_capacity(0) == 0 {
            false
        } else if element_count == 0 {
            true
        } else if element_count >= MAX_ELEMENTS {
            false
        } else {
            let last = a.num_segments() - 1;
            let last_fill = if last == 0 {
                1int
            } else {
                a.segment_fill(last)
            };
            let fits = element_count <= a.segment_capacity(last) - last_fill;
            let target = if fits {
                last
            } else {
                a.num_segments()
            };
            target < MAX_SEGMENTS && (fits || a.total_words() + new_segment_size(
                a.strategy(),
                a.base_segment_words(),
                a.total_words(),
                element_count,
            ) <= MAX_TOTAL_WORDS)
        }
    } else {
        spec_init_list_ok(a, element_count)
    }
}

/// What a successful root initialization guarantees of the arena it leaves
/// behind: the returned list has the requested shape and lies in the
/// allocated region, the root word names it, its body is zeroed, it does
/// not alias the root word, and reinterpreting the root finds it again.
pub open spec fn init_root_result(
    a: &BuilderArena,
    lb: ListBuilder,
    element_count: u32,
    pointer_elements: bool,
) -> bool {
    &&& lb.count == element_count
    &&& lb.pointer_elements == pointer_elements
    &&& list_builder_in_bounds(a, lb)
    &&& a.segment_words(0)[0] == spec_encode_ptr(
        if pointer_elements {
            PTR_KIND_POINTER_LIST
        } else {
            PTR_KIND_DATA_LIST
        },
        lb.segment as u64,
        lb.offset as u64,
        lb.count as u64,
    )
    &&& lb.count > 0 ==> (lb.segment != 0 || lb.offset >= 1)
    &&& forall|j: int|
        0 <= j < lb.count ==> #[trigger] a.segment_words(lb.segment as int)[lb.offset + j] == 0
    &&& spec_read_built_root(a, pointer_elements) == Ok::<ListBuilder, Error>(lb)
}

/// Where the body of a root list of `element_count` elements lands, seen
/// from the arena before the root word itself is allocated: segment and
/// word offset.
pub open spec fn spec_init_root_target(a: &BuilderArena, element_count: u32) -> (int, int) {
    if element_count == 0 {
        (0, 0)
    } else {
        let last = a.num_segments() - 1;
        let last_fill = if last == 0 && a.segment_fill(0) == 0 {
            1int
        } else {
            a.segment_fill(last)
        };
        let fits = element_count <= a.segment_capacity(last) - last_fill;
        if fits {
            (last, last_fill)
        } else {
            (a.num_segments(), 0)
        }
    }
}

/// The full effect of a successful root initialization, relative to the
/// arena before the call: where the list landed, that at most one segment
/// was appended and sized by the allocation strategy, and that every
/// existing word, capacity and fill is untouched except the root word, the
/// fill of segment zero and of the segment holding the new body.
pub open spec fn init_root_transition(
    pre: &BuilderArena,
    post: &BuilderArena,
    lb: ListBuilder,
    element_count: u32,
    pointer_elements: bool,
) -> bool {
    &&& init_root_result(post, lb, element_count, pointer_elements)
    &&& (lb.segment as int, lb.offset as int) == spec_init_root_target(pre, element_count)
    &&& pre.num_segments() <= post.num_segments() <= pre.num_segments() + 1
    &&& forall|i: int|
        0 <= i < pre.num_segments() ==> #[trigger] post.segment_capacity(i)
            == pre.segment_capacity(i)
    &&& lb.segment as int == pre.num_segments() ==> post.num_segments() == pre.num_segments() + 1
        && post.segment_capacity(lb.segment as int) == new_segment_size(
        pre.strategy(),
        pre.base_segment_words(),
        pre.total_words(),
        element_count,
    ) && post.total_words() == pre.total_words() + post.segment_capacity(lb.segment as int)
    &&& (lb.segment as int) < pre.num_segments() ==> post.num_segments() == pre.num_segments()
        && post.total_words() == pre.total_words()
    &&& forall|i: int|
        0 <= i < pre.num_segments() && i != 0 ==> #[trigger] post.segment_words(i)
            == pre.segment_words(i)
    &&& post.segment_words(0) == pre.segment_words(0).update(
        0,
        spec_encode_ptr(
            if pointer_elements {
                PTR_KIND_POINTER_LIST
            } else {
                PTR_KIND_DATA_LIST
            },
            lb.segment as u64,
            lb.offset as u64,
            lb.count as u64,
        ),
    )
    &&& element_count > 0 ==> post.segment_fill(lb.segment as int) == lb.offset + lb.count
    &&& forall|i: int|
        1 <= i < pre.num_segments() && i != lb.segment ==> #[trigger] post.segment_fill(i)
            == pre.segment_fill(i)
    &&& post.segment_fill(0) == (if lb.segment == 0 && element_count > 0 {
        lb.offset + lb.count
    } else if pre.segment_fill(0) == 0 {
        1int
    } else {
        pre.segment_fill(0)
    })
}

/// What a failed root initialization leaves behind: every word, capacity
/// and fill untouched, except that the root word's storage may just have
/// been allocated (the fill of segment zero at most becomes one).
pub open spec fn root_init_failed_frame(pre: &BuilderArena, post: &BuilderArena) -> bool {
    &&& post.num_segments() == pre.num_segments()
    &&& post.total_words() == pre.total_words()
    &&& forall|i: int|
        0 <= i < pre.num_segments() ==> #[trigger] post.segment_words(i) == pre.segment_words(i)
    &&& forall|i: int|
        0 <= i < pre.num_segments() ==> #[trigger] post.segment_capacity(i)
            == pre.segment_capacity(i)
    &&& forall|i: int|
        1 <= i < pre.num_segments() ==> #[trigger] post.segment_fill(i) == pre.segment_fill(i)
    &&& (post.segment_fill(0) == pre.segment_fill(0) || post.segment_fill(0) == 1)
}

/// Overwrite the root of the message in `arena` with a freshly initialized,
/// zeroed list of `element_count` elements, allocating the root word first
/// if the message has none.  Succeeds exactly when `spec_init_root_ok`
/// holds of the arena.
pub fn init_root_list(
    arena: &mut BuilderArena,
    element_count: u32,
    pointer_elements: bool,
) -> (r: Result<ListBuilder, Error>)
    requires
        old(arena).inv(),
    ensures
        final(arena).inv(),
        root_pointer_frame(old(arena), final(arena)),
        r.is_ok() == spec_init_root_ok(old(arena), element_count),
        match r {
            Ok(lb) => init_root_transition(
                old(arena),
                final(arena),
                lb,
                element_count,
                pointer_elements,
            ),
            Err(e) => e == Error::AllocationLimitExceeded && root_init_failed_frame(
                old(arena),
                final(arena),
            ),
        },
{
    let ptr = match arena.allocate_root() {
        Ok(()) => PointerBuilder { segment: 0, word: 0 },
        Err(e) => {
            return Err(e);
        },
    };
    proof {
        crate::arena::lemma_arena_nonempty(&*arena);
    }
    let ghost mid = *arena;
    let r = init_list(arena, ptr, element_count, pointer_elements);
    proof {
        if r.is_ok() {
            crate::arena::lemma_arena_nonempty(&*arena);
            crate::arena::lemma_arena_shape(&*arena, 0);
            crate::arena::lemma_arena_shape(&mid, 0);
            let lb = r.unwrap();
            crate::arena::lemma_arena_shape(&*arena, lb.segment as int);
            crate::layout::lemma_ptr_round_trip(
                if pointer_elements {
                    PTR_KIND_POINTER_LIST
                } else {
                    PTR_KIND_DATA_LIST
                },
                lb.segment as u64,
                lb.offset as u64,
                lb.count as u64,
            );
            assert(arena.segment_words(0).len() >= 1);
            assert(arena.segment_words(0) == mid.segment_words(0).update(
                0,
                spec_encode_ptr(
                    if pointer_elements {
                        PTR_KIND_POINTER_LIST
                    } else {
                        PTR_KIND_DATA_LIST
                    },
                    lb.segment as u64,
                    lb.offset as u64,
                    lb.count as u64,
                ),
            ));
        }
    }
    r
}

/// Overwrite the root of the message in `arena` with a deep copy of a data
/// list read from another message: a fresh root list of the same length
/// whose words equal the source list's words.
pub fn set_root_list(
    arena: &mut BuilderArena,
    source: &SegmentArrayMessageReader,
    value: ListReader,
) -> (r: Result<ListBuilder, Error>)
    requires
        old(arena).inv(),
        source.inv(),
        !value.pointer_elements,
        list_in_bounds(source.segments(), value),
    ensures
        final(arena).inv(),
        root_pointer_frame(old(arena), final(arena)),
        old(arena).num_segments() <= final(arena).num_segments() <= old(arena).num_segments() + 1,
        forall|i: int|
            0 <= i < old(arena).num_segments() ==> #[trigger] final(arena).segment_capacity(i)
                == old(arena).segment_capacity(i),
        r.is_ok() == spec_init_root_ok(old(arena), value.count),
        match r {
            Ok(lb) => {
                &&& lb.count == value.count
                &&& !lb.pointer_elements
                &&& (lb.segment as int, lb.offset as int) == spec_init_root_target(
                    old(arena),
                    value.count,
                )
                &&& list_builder_in_bounds(final(arena), lb)
                &&& spec_read_built_root(final(arena), false) == Ok::<ListBuilder, Error>(lb)
                &&& forall|j: int|
                    0 <= j < lb.count ==> #[trigger] final(arena).segment_words(lb.segment as int)[
                        lb.offset + j] == source.segments()[value.segment as int][value.offset + j]
                &&& forall|i: int|
                    0 <= i < old(arena).num_segments() && i != 0 && i != lb.segment
                        ==> #[trigger] final(arena).segment_words(i) == old(arena).segment_words(i)
            },
            Err(e) => e == Error::AllocationLimitExceeded && root_init_failed_frame(
                old(arena),
                final(arena),
            ),
        },
{
    let lb = match init_root_list(arena, value.count, false) {
        Ok(lb) => lb,
        Err(e) => {
            return Err(e);
        },
    };
    let ghost start = *arena;
    let count = value.count;
    let mut i: u32 = 0;
    while i < count
        invariant
            arena.inv(),
            source.inv(),
            i <= count,
            count == lb.count == value.count,
            !value.pointer_elements,
            list_in_bounds(source.segments(), value),
            list_builder_in_bounds(&*arena, lb),
            count > 0 ==> (lb.segment != 0 || lb.offset >= 1),
            arena.num_segments() == start.num_segments(),
            arena.total_words() == start.total_words(),
            forall|k: int|
                0 <= k < arena.num_segments() ==> #[trigger] arena.segment_capacity(k)
                    == start.segment_capacity(k),
            arena.strategy() == start.strategy(),
            arena.base_segment_words() == start.base_segment_words(),
            arena.fail_fast_mode() == start.fail_fast_mode(),
            arena.cap_table_view() == start.cap_table_view(),
            forall|k: int|
                0 <= k < arena.num_segments() ==> #[trigger] arena.segment_fill(k)
                    == start.segment_fill(k),
            forall|k: int|
                0 <= k < arena.num_segments() && k != lb.segment ==> #[trigger] arena.segment_words(
                    k,
                ) == start.segment_words(k),
            arena.segment_words(lb.segment as int).len() == start.segment_words(
                lb.segment as int,
            ).len(),
            forall|j: int|
                0 <= j < i ==> #[trigger] arena.segment_words(lb.segment as int)[lb.offset + j]
                    == source.segments()[value.segment as int][value.offset + j],
            forall|j: int|
                !(lb.offset <= j < lb.offset + i) && 0 <= j < arena.segment_words(
                    lb.segment as int,
                ).len() ==> #[trigger] arena.segment_words(lb.segment as int)[j]
                    == start.segment_words(lb.segment as int)[j],
        decreases count - i,
    {
        proof {
            crate::arena::lemma_arena_shape(&*arena, lb.segment as int);
        }
        let seg = source.get_segment(value.segment);
        let seg_len = seg.len();
        proof {
            assert(value.offset + count <= seg_len);
        }
        let w = seg[value.offset + i as usize];
        arena.set_word(lb.segment, lb.offset + i as usize, w);
        i = i + 1;
    }
    proof {
        crate::arena::lemma_arena_nonempty(&*arena);
        crate::arena::lemma_arena_shape(&*arena, 0);
        if count > 0 && lb.segment == 0 {
            assert(arena.segment_words(0)[0] == start.segment_words(0)[0]);
        }
    }
    Ok(lb)
}

/// Everything allocating the root word leaves untouched: every word and
/// capacity, the fill of every segment but segment zero, the segment count,
/// the total, the configuration, and the capability table.
pub open spec fn root_alloc_frame(pre: &BuilderArena, post: &BuilderArena) -> bool {
    &&& post.num_segments() == pre.num_segments()
    &&& forall|i: int|
        0 <= i < pre.num_segments() ==> #[trigger] post.segment_words(i) == pre.segment_words(i)
    &&& forall|i: int|
        0 <= i < pre.num_segments() ==> #[trigger] post.segment_capacity(i)
            == pre.segment_capacity(i)
    &&& forall|i: int|
        1 <= i < pre.num_segments() ==> #[trigger] post.segment_fill(i) == pre.segment_fill(i)
    &&& post.total_words() == pre.total_words()
    &&& post.strategy() == pre.strategy()
    &&& post.base_segment_words() == pre.base_segment_words()
    &&& post.fail_fast_mode() == pre.fail_fast_mode()
    &&& post.cap_table_view() == pre.cap_table_view()
}

/// Builds one message in arena storage allocated on demand.
pub struct MallocMessageBuilder {
    arena: BuilderArena,
}

impl MallocMessageBuilder {
    /// The owned arena is well formed.
    pub closed spec fn inv(&self) -> bool {
        self.arena.inv()
    }

    /// The arena owned by this builder.
    pub closed spec fn arena_view(&self) -> BuilderArena {
        self.arena
    }

    /// A builder configured by `options`, with segment zero pre-sized to
    /// `options.first_segment_words`.
    pub fn new(options: BuilderOptions) -> (r: MallocMessageBuilder)
        requires
            options.first_segment_words <= MAX_TOTAL_WORDS,
        ensures
            r.inv(),
            r.arena_view().num_segments() == 1,
            r.arena_view().segment_fill(0) == 0,
            r.arena_view().segment_capacity(0) == options.first_segment_words,
            r.arena_view().total_words() == options.first_segment_words,
            r.arena_view().strategy() == options.allocation_strategy,
            r.arena_view().base_segment_words() == options.first_segment_words,
            r.arena_view().fail_fast_mode() == options.fail_fast,
            r.arena_view().cap_table_view() == Seq::<Option<ClientHook>>::empty(),
    {
        MallocMessageBuilder {
            arena: BuilderArena::new(
                options.allocation_strategy,
                options.first_segment_words,
                options.fail_fast,
            ),
        }
    }

    /// A builder with the default configuration.
    pub fn new_default() -> (r: MallocMessageBuilder)
        ensures
            r.inv(),
            r.arena_view().num_segments() == 1,
            r.arena_view().segment_fill(0) == 0,
            r.arena_view().segment_capacity(0) == 1024,
            r.arena_view().total_words() == 1024,
            r.arena_view().strategy() == AllocationStrategy::GrowHeuristically,
            r.arena_view().base_segment_words() == 1024,
            r.arena_view().fail_fast_mode() == true,
            r.arena_view().cap_table_view() == Seq::<Option<ClientHook>>::empty(),
    {
        MallocMessageBuilder::new(BuilderOptions::new())
    }

    /// A well-formed builder owns a well-formed arena.
    pub proof fn arena_inv(&self)
        requires
            self.inv(),
        ensures
            self.arena_view().inv(),
    {
    }

    /// The arena owned by this builder.
    pub fn arena(&self) -> (r: &BuilderArena)
        requires
            self.inv(),
        ensures
            *r == self.arena_view(),
            r.inv(),
    {
        &self.arena
    }

    /// Mutable access to the arena, for allocating and writing words.  The
    /// builder stays well formed as long as the arena does.
    pub fn mut_arena(&mut self) -> (r: &mut BuilderArena)
        requires
            old(self).inv(),
        ensures
            *r == old(self).arena_view(),
            r.inv(),
            final(self).arena_view() == *final(r),
            (*final(r)).inv() ==> final(self).inv(),
    {
        &mut self.arena
    }

    /// The location of the root pointer, allocating its word — the very
    /// first allocation of the arena, always at offset zero of segment
    /// zero — if this message has none yet.  Nothing else in the message
    /// changes, and a repeated call changes nothing at all.
    pub fn get_root_internal(&mut self) -> (r: Result<PointerBuilder, Error>)
        requires
            old(self).inv(),
        ensures
            final(self).inv(),
            root_alloc_frame(&old(self).arena_view(), &final(self).arena_view()),
            match r {
                Ok(ptr) => {
                    &&& ptr == (PointerBuilder { segment: 0 as u32, word: 0 as usize })
                    &&& final(self).arena_view().segment_fill(0) == (if old(
                        self,
                    ).arena_view().segment_fill(0) == 0 {
                        1int
                    } else {
                        old(self).arena_view().segment_fill(0)
                    })
                },
                Err(e) => {
                    &&& e == Error::AllocationLimitExceeded
                    &&& old(self).arena_view().segment_fill(0) == 0
                    &&& old(self).arena_view().segment_capacity(0) == 0
                    &&& final(self).arena_view().segment_fill(0) == old(
                        self,
                    ).arena_view().segment_fill(0)
                },
            },
            r.is_ok() == (old(self).arena_view().segment_fill(0) >= 1
                || old(self).arena_view().segment_capacity(0) >= 1),
    {
        match self.arena.allocate_root() {
            Ok(()) => Ok(PointerBuilder { segment: 0, word: 0 }),
            Err(e) => Err(e),
        }
    }

    /// Overwrite the root with a freshly initialized list of
    /// `element_count` elements, zeroed.
    pub fn init_root(&mut self, element_count: u32, pointer_elements: bool) -> (r: Result<
        ListBuilder,
        Error,
    >)
        requires
            old(self).inv(),
        ensures
            final(self).inv(),
            root_pointer_frame(&old(self).arena_view(), &final(self).arena_view()),
            r.is_ok() == spec_init_root_ok(&old(self).arena_view(), element_count),
            match r {
                Ok(lb) => init_root_transition(
                    &old(self).arena_view(),
                    &final(self).arena_view(),
                    lb,
                    element_count,
                    pointer_elements,
                ),
                Err(e) => e == Error::AllocationLimitExceeded && root_init_failed_frame(
                    &old(self).arena_view(),
                    &final(self).arena_view(),
                ),
            },
    {
        init_root_list(&mut self.arena, element_count, pointer_elements)
    }

    /// Reinterpret whatever is already at the root as a list of the given
    /// element type.
    pub fn get_root(&mut self, pointer_elements: bool) -> (r: Result<ListBuilder, Error>)
        requires
            old(self).inv(),
        ensures
            final(self).inv(),
            *final(self) == *old(self),
            r == spec_read_built_root(&old(self).arena_view(), pointer_elements),
            match r {
                Ok(lb) => list_builder_in_bounds(&final(self).arena_view(), lb),
                Err(_) => true,
            },
    {
        read_built_root(&self.arena, pointer_elements)
    }

    /// Overwrite the root with a deep copy of a data list read from
    /// another message.
    pub fn set_root(&mut self, source: &SegmentArrayMessageReader, value: ListReader) -> (r:
        Result<ListBuilder, Error>)
        requires
            old(self).inv(),
            source.inv(),
            !value.pointer_elements,
            list_in_bounds(source.segments(), value),
        ensures
            final(self).inv(),
            root_pointer_frame(&old(self).arena_view(), &final(self).arena_view()),
            old(self).arena_view().num_segments() <= final(self).arena_view().num_segments()
                <= old(self).arena_view().num_segments() + 1,
            forall|i: int|
                0 <= i < old(self).arena_view().num_segments()
                    ==> #[trigger] final(self).arena_view().segment_capacity(i)
                    == old(self).arena_view().segment_capacity(i),
            r.is_ok() == spec_init_root_ok(&old(self).arena_view(), value.count),
            match r {
                Ok(lb) => {
                    &&& lb.count == value.count
                    &&& (lb.segment as int, lb.offset as int) == spec_init_root_target(
                        &old(self).arena_view(),
                        value.count,
                    )
                    &&& list_builder_in_bounds(&final(self).arena_view(), lb)
                    &&& spec_read_built_root(&final(self).arena_view(), false) == Ok::<
                        ListBuilder,
                        Error,
                    >(lb)
                    &&& forall|j: int|
                        0 <= j < lb.count ==> #[trigger] final(self).arena_view().segment_words(
                            lb.segment as int,
                        )[lb.offset + j] == source.segments()[value.segment as int][value.offset
                            + j]
                    &&& forall|i: int|
                        0 <= i < old(self).arena_view().num_segments() && i != 0 && i != lb.segment
                            ==> #[trigger] final(self).arena_view().segment_words(i)
                            == old(self).arena_view().segment_words(i)
                },
                Err(e) => e == Error::AllocationLimitExceeded && root_init_failed_frame(
                    &old(self).arena_view(),
                    &final(self).arena_view(),
                ),
            },
    {
        set_root_list(&mut self.arena, source, value)
    }

    /// The final ordered byte views of the message, for serialization.
    pub fn get_segments_for_output(&self) -> (r: Vec<Vec<u64>>)
        requires
            self.inv(),
        ensures
            r.len() == self.arena_view().num_segments(),
            forall|i: int|
                0 <= i < r.len() ==> #[trigger] r@[i]@ == self.arena_view().segment_words(i).take(
                    self.arena_view().segment_fill(i),
                ),
            r.len() >= 1,
    {
        proof {
            crate::arena::lemma_arena_nonempty(&self.arena);
        }
        self.arena.get_segments_for_output()
    }

    /// The outgoing capability table.
    pub fn get_cap_table(&self) -> (r: &Vec<Option<ClientHook>>)
        requires
            self.inv(),
        ensures
            r@ == self.arena_view().cap_table_view(),
    {
        self.arena.get_cap_table()
    }
}

/// Builds one message whose segment zero is caller-supplied scratch memory
/// rather than freshly allocated; growth beyond the scratch region goes
/// through the ordinary allocation path.  Reclaiming the builder hands the
/// scratch memory back with every word zeroed.
pub struct ScratchSpaceMallocMessageBuilder {
    arena: BuilderArena,
}

impl ScratchSpaceMallocMessageBuilder {
    /// The owned arena is well formed.
    pub closed spec fn inv(&self) -> bool {
        self.arena.inv()
    }

    /// The arena owned by this builder.
    pub closed spec fn arena_view(&self) -> BuilderArena {
        self.arena
    }

    /// A builder over `scratch_space`, zeroed on entry, configured by
    /// `options`; appended segments use the scratch size as base.
    pub fn new(scratch_space: Vec<u64>, options: BuilderOptions) -> (r:
        ScratchSpaceMallocMessageBuilder)
        requires
            scratch_space.len() <= MAX_TOTAL_WORDS,
        ensures
            r.inv(),
            r.arena_view().num_segments() == 1,
            r.arena_view().segment_fill(0) == 0,
            r.arena_view().segment_capacity(0) == scratch_space.len(),
            r.arena_view().total_words() == scratch_space.len(),
            r.arena_view().strategy() == options.allocation_strategy,
            r.arena_view().base_segment_words() == scratch_space.len(),
            r.arena_view().fail_fast_mode() == options.fail_fast,
            r.arena_view().cap_table_view() == Seq::<Option<ClientHook>>::empty(),
    {
        ScratchSpaceMallocMessageBuilder {
            arena: BuilderArena::from_scratch(
                scratch_space,
                options.allocation_strategy,
                options.fail_fast,
            ),
        }
    }

    /// A builder over `scratch_space` with the default configuration.
    pub fn new_default(scratch_space: Vec<u64>) -> (r: ScratchSpaceMallocMessageBuilder)
        requires
            scratch_space.len() <= MAX_TOTAL_WORDS,
        ensures
            r.inv(),
            r.arena_view().num_segments() == 1,
            r.arena_view().segment_fill(0) == 0,
            r.arena_view().segment_capacity(0) == scratch_space.len(),
            r.arena_view().total_words() == scratch_space.len(),
            r.arena_view().strategy() == AllocationStrategy::GrowHeuristically,
            r.arena_view().base_segment_words() == scratch_space.len(),
            r.arena_view().fail_fast_mode() == true,
            r.arena_view().cap_table_view() == Seq::<Option<ClientHook>>::empty(),
    {
        ScratchSpaceMallocMessageBuilder::new(scratch_space, BuilderOptions::new())
    }

    /// A well-formed builder owns a well-formed arena.
    pub proof fn arena_inv(&self)
        requires
            self.inv(),
        ensures
            self.arena_view().inv(),
    {
    }

    /// The arena owned by this builder.
    pub fn arena(&self) -> (r: &BuilderArena)
        requires
            self.inv(),
        ensures
            *r == self.arena_view(),
            r.inv(),
    {
        &self.arena
    }

    /// Mutable access to the arena, for allocating and writing words.  The
    /// builder stays well formed as long as the arena does.
    pub fn mut_arena(&mut self) -> (r: &mut BuilderArena)
        requires
            old(self).inv(),
        ensures
            *r == old(self).arena_view(),
            r.inv(),
            final(self).arena_view() == *final(r),
            (*final(r)).inv() ==> final(self).inv(),
    {
        &mut self.arena
    }

    /// The location of the root pointer, allocating its word — always at
    /// offset zero of segment zero — if this message has none yet.  Nothing
    /// else in the message changes, and a repeated call changes nothing at
    /// all.
    pub fn get_root_internal(&mut self) -> (r: Result<PointerBuilder, Error>)
        requires
            old(self).inv(),
        ensures
            final(self).inv(),
            root_alloc_frame(&old(self).arena_view(), &final(self).arena_view()),
            match r {
                Ok(ptr) => {
                    &&& ptr == (PointerBuilder { segment: 0 as u32, word: 0 as usize })
                    &&& final(self).arena_view().segment_fill(0) == (if old(
                        self,
                    ).arena_view().segment_fill(0) == 0 {
                        1int
                    } else {
                        old(self).arena_view().segment_fill(0)
                    })
                },
                Err(e) => {
                    &&& e == Error::AllocationLimitExceeded
                    &&& old(self).arena_view().segment_fill(0) == 0
                    &&& old(self).arena_view().segment_capacity(0) == 0
                    &&& final(self).arena_view().segment_fill(0) == old(
                        self,
                    ).arena_view().segment_fill(0)
                },
            },
            r.is_ok() == (old(self).arena_view().segment_fill(0) >= 1
                || old(self).arena_view().segment_capacity(0) >= 1),
    {
        match self.arena.allocate_root() {
            Ok(()) => Ok(PointerBuilder { segment: 0, word: 0 }),
            Err(e) => Err(e),
        }
    }

    /// Overwrite the root with a freshly initialized list of
    /// `element_count` elements, zeroed.
    pub fn init_root(&mut self, element_count: u32, pointer_elements: bool) -> (r: Result<
        ListBuilder,
        Error,
    >)
        requires
            old(self).inv(),
        ensures
            final(self).inv(),
            root_pointer_frame(&old(self).arena_view(), &final(self).arena_view()),
            r.is_ok() == spec_init_root_ok(&old(self).arena_view(), element_count),
            match r {
                Ok(lb) => init_root_transition(
                    &old(self).arena_view(),
                    &final(self).arena_view(),
                    lb,
                    element_count,
                    pointer_elements,
                ),
                Err(e) => e == Error::AllocationLimitExceeded && root_init_failed_frame(
                    &old(self).arena_view(),
                    &final(self).arena_view(),
                ),
            },
    {
        init_root_list(&mut self.arena, element_count, pointer_elements)
    }

    /// Reinterpret whatever is already at the root as a list of the given
    /// element type.
    pub fn get_root(&mut self, pointer_elements: bool) -> (r: Result<ListBuilder, Error>)
        requires
            old(self).inv(),
        ensures
            final(self).inv(),
            *final(self) == *old(self),
            r == spec_read_built_root(&old(self).arena_view(), pointer_elements),
            match r {
                Ok(lb) => list_builder_in_bounds(&final(self).arena_view(), lb),
                Err(_) => true,
            },
    {
        read_built_root(&self.arena, pointer_elements)
    }

    /// Overwrite the root with a deep copy of a data list read from
    /// another message.
    pub fn set_root(&mut self, source: &SegmentArrayMessageReader, value: ListReader) -> (r:
        Result<ListBuilder, Error>)
        requires
            old(self).inv(),
            source.inv(),
            !value.pointer_elements,
            list_in_bounds(source.segments(), value),
        ensures
            final(self).inv(),
            root_pointer_frame(&old(self).arena_view(), &final(self).arena_view()),
            old(self).arena_view().num_segments() <= final(self).arena_view().num_segments()
                <= old(self).arena_view().num_segments() + 1,
            forall|i: int|
                0 <= i < old(self).arena_view().num_segments()
                    ==> #[trigger] final(self).arena_view().segment_capacity(i)
                    == old(self).arena_view().segment_capacity(i),
            r.is_ok() == spec_init_root_ok(&old(self).arena_view(), value.count),
            match r {
                Ok(lb) => {
                    &&& lb.count == value.count
                    &&& (lb.segment as int, lb.offset as int) == spec_init_root_target(
                        &old(self).arena_view(),
                        value.count,
                    )
                    &&& list_builder_in_bounds(&final(self).arena_view(), lb)
                    &&& spec_read_built_root(&final(self).arena_view(), false) == Ok::<
                        ListBuilder,
                        Error,
                    >(lb)
                    &&& forall|j: int|
                        0 <= j < lb.count ==> #[trigger] final(self).arena_view().segment_words(
                            lb.segment as int,
                        )[lb.offset + j] == source.segments()[value.segment as int][value.offset
                            + j]
                    &&& forall|i: int|
                        0 <= i < old(self).arena_view().num_segments() && i != 0 && i != lb.segment
                            ==> #[trigger] final(self).arena_view().segment_words(i)
                            == old(self).arena_view().segment_words(i)
                },
                Err(e) => e == Error::AllocationLimitExceeded && root_init_failed_frame(
                    &old(self).arena_view(),
                    &final(self).arena_view(),
                ),
            },
    {
        set_root_list(&mut self.arena, source, value)
    }

    /// The final ordered byte views of the message, for serialization.
    pub fn get_segments_for_output(&self) -> (r: Vec<Vec<u64>>)
        requires
            self.inv(),
        ensures
            r.len() == self.arena_view().num_segments(),
            forall|i: int|
                0 <= i < r.len() ==> #[trigger] r@[i]@ == self.arena_view().segment_words(i).take(
                    self.arena_view().segment_fill(i),
                ),
            r.len() >= 1,
    {
        proof {
            crate::arena::lemma_arena_nonempty(&self.arena);
        }
        self.arena.get_segments_for_output()
    }

    /// The outgoing capability table.
    pub fn get_cap_table(&self) -> (r: &Vec<Option<ClientHook>>)
        requires
            self.inv(),
        ensures
            r@ == self.arena_view().cap_table_view(),
    {
        self.arena.get_cap_table()
    }

    /// Consume the builder and hand the scratch memory back with every word
    /// explicitly zeroed, so a reused buffer cannot leak message contents.
    pub fn into_scratch(self) -> (r: Vec<u64>)
        requires
            self.inv(),
        ensures
            r.len() == self.arena_view().segment_capacity(0),
            forall|i: int| 0 <= i < r.len() ==> r@[i] == 0,
    {
        self.arena.reclaim_first_zeroed()
    }
}

/// Configuration facts every root-writing operation preserves: segments are
/// only ever added, and the allocation policy and capability table stay as
/// they were.
pub open spec fn root_pointer_frame(pre: &BuilderArena, post: &BuilderArena) -> bool {
    &&& pre.num_segments() <= post.num_segments()
    &&& post.strategy() == pre.strategy()
    &&& post.base_segment_words() == pre.base_segment_words()
    &&& post.fail_fast_mode() == pre.fail_fast_mode()
    &&& post.cap_table_view() == pre.cap_table_view()
}

} // verus!
