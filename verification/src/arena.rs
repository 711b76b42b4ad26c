//! Segments and arenas: the memory model of one message.
//!
//! A segment is one contiguous, word-addressable buffer.  A builder arena
//! owns a growing ordered sequence of segments and allocates words at the
//! fill boundary of the active (last) segment, appending a new segment when
//! it is full; words already allocated are never moved or resized, so
//! locations handed to a caller stay valid for the arena's whole lifetime.
//! A reader arena holds the segments of an incoming message together with
//! the shared traversal budget and the nesting limit.

use vstd::prelude::*;

use crate::io::filled;
use crate::message::AllocationStrategy;
use crate::ClientHook;
use crate::Error;

verus! {

/// Upper bound, in words, on the total capacity a builder arena may reach.
/// Every word offset inside a message therefore fits the pointer format.
pub const MAX_TOTAL_WORDS: u64 = 0x10000000;

/// One growable-then-frozen word buffer of a message under construction.
/// The capacity is fixed at creation; only the fill boundary moves, so the
/// words of a segment never relocate.
pub struct SegmentBuilder {
    words: Vec<u64>,
    used: usize,
}

impl SegmentBuilder {
    /// The fill boundary never passes the capacity, and every word beyond
    /// it still holds zero: only allocated words are ever written.
    pub closed spec fn inv(&self) -> bool {
        self.used <= self.words.len() && forall|i: int|
            self.used <= i < self.words.len() ==> self.words@[i] == 0
    }

    /// Total words this segment can hold.
    pub closed spec fn capacity(&self) -> int {
        self.words@.len() as int
    }

    /// Words allocated so far.
    pub closed spec fn fill(&self) -> int {
        self.used as int
    }

    /// Every word of the segment, allocated or not.
    pub closed spec fn contents(&self) -> Seq<u64> {
        self.words@
    }

    /// A fresh, zeroed segment of the given capacity.
    pub fn new(capacity: u32) -> (r: SegmentBuilder)
        ensures
            r.inv(),
            r.capacity() == capacity,
            r.fill() == 0,
            forall|i: int| 0 <= i < capacity ==> r.contents()[i] == 0,
    {
        SegmentBuilder { words: filled(0u64, capacity as usize), used: 0 }
    }

    /// A segment over caller-supplied scratch memory, zeroed defensively so
    /// prior contents of a reused buffer cannot leak into the message.
    pub fn from_scratch(scratch: Vec<u64>) -> (r: SegmentBuilder)
        ensures
            r.inv(),
            r.capacity() == scratch.len(),
            r.fill() == 0,
            forall|i: int| 0 <= i < scratch.len() ==> r.contents()[i] == 0,
    {
        let mut words = scratch;
        let n = words.len();
        let mut i: usize = 0;
        while i < n
            invariant
                i <= n,
                words.len() == n,
                forall|j: int| 0 <= j < i ==> words@[j] == 0,
            decreases n - i,
        {
            words.set(i, 0);
            i = i + 1;
        }
        SegmentBuilder { words, used: 0 }
    }

    /// Words allocated so far.
    pub fn current_size(&self) -> (r: usize)
        requires
            self.inv(),
        ensures
            r == self.fill(),
    {
        self.used
    }

    /// Words still free.
    pub fn remaining(&self) -> (r: usize)
        requires
            self.inv(),
        ensures
            r == self.capacity() - self.fill(),
    {
        self.words.len() - self.used
    }

    /// Reserve `amount` words at the fill boundary.  Returns the word offset
    /// of the reserved block, or nothing when the block does not fit; in
    /// either case no existing word moves or changes.
    pub fn allocate(&mut self, amount: u32) -> (r: Option<usize>)
        requires
            old(self).inv(),
        ensures
            final(self).inv(),
            final(self).capacity() == old(self).capacity(),
            final(self).contents() == old(self).contents(),
            match r {
                Some(offset) => {
                    &&& amount <= old(self).capacity() - old(self).fill()
                    &&& offset == old(self).fill()
                    &&& final(self).fill() == old(self).fill() + amount
                    &&& forall|i: int|
                        offset <= i < offset + amount ==> final(self).contents()[i] == 0
                },
                None => {
                    &&& old(self).capacity() - old(self).fill() < amount
                    &&& *final(self) == *old(self)
                },
            },
    {
        if amount as usize <= self.words.len() - self.used {
            let offset = self.used;
            self.used = self.used + amount as usize;
            Some(offset)
        } else {
            None
        }
    }

    /// Read the word at `idx`.
    pub fn get_word(&self, idx: usize) -> (r: u64)
        requires
            self.inv(),
            idx < self.capacity(),
        ensures
            r == self.contents()[idx as int],
    {
        self.words[idx]
    }

    /// Overwrite the already-allocated word at `idx`.
    pub fn set_word(&mut self, idx: usize, w: u64)
        requires
            old(self).inv(),
            idx < old(self).fill(),
        ensures
            final(self).inv(),
            final(self).capacity() == old(self).capacity(),
            final(self).fill() == old(self).fill(),
            final(self).contents() == old(self).contents().update(idx as int, w),
    {
        self.words.set(idx, w);
    }

    /// Copy of the allocated prefix, for output.
    pub fn extract_used(&self) -> (r: Vec<u64>)
        requires
            self.inv(),
        ensures
            r@ == self.contents().take(self.fill()),
    {
        let mut r: Vec<u64> = Vec::new();
        let mut i: usize = 0;
        while i < self.used
            invariant
                self.inv(),
                i <= self.used,
                r@ == self.contents().take(i as int),
            decreases self.used - i,
        {
            r.push(self.words[i]);
            assert(r@ =~= self.contents().take(i + 1));
            i = i + 1;
        }
        r
    }
}

/// Sum of the capacities of a sequence of segments.
pub closed spec fn sum_capacities(s: Seq<SegmentBuilder>) -> int
    decreases s.len(),
{
    if s.len() == 0 {
        0
    } else {
        sum_capacities(s.drop_last()) + s.last().capacity()
    }
}

proof fn lemma_sum_capacities_push(s: Seq<SegmentBuilder>, x: SegmentBuilder)
    ensures
        sum_capacities(s.push(x)) == sum_capacities(s) + x.capacity(),
{
    assert(s.push(x).drop_last() =~= s);
}

proof fn lemma_sum_capacities_nonneg(s: Seq<SegmentBuilder>)
    ensures
        sum_capacities(s) >= 0,
    decreases s.len(),
{
    if s.len() > 0 {
        lemma_sum_capacities_nonneg(s.drop_last());
    }
}

/// Capacity of the segment a builder arena appends when the active segment
/// cannot satisfy a request of `amount` words: the strategy's base size —
/// the configured first-segment size for `FixedSize`, the sum of all prior
/// segments' capacities for `GrowHeuristically` — or the request itself when
/// that is larger.
pub open spec fn new_segment_size(
    strategy: AllocationStrategy,
    first_segment_words: u32,
    total: int,
    amount: u32,
) -> int {
    let base = match strategy {
        AllocationStrategy::FixedSize => first_segment_words as int,
        AllocationStrategy::GrowHeuristically => total,
    };
    if amount as int > base {
        amount as int
    } else {
        base
    }
}

/// Heuristic growth is at least geometric: whatever is requested, a newly
/// appended segment is at least as large as the sum of all prior segments'
/// capacities.
pub proof fn lemma_grow_at_least_doubles(first_segment_words: u32, total: int, amount: u32)
    ensures
        new_segment_size(AllocationStrategy::GrowHeuristically, first_segment_words, total, amount)
            >= total,
{
}

/// The owning arena of a message under construction: an ordered, growing
/// sequence of segments, the allocation policy, and the outgoing capability
/// table.  Allocation appends at the fill boundary of the active (last)
/// segment or opens a new segment; it never moves or changes an existing
/// word.
pub struct BuilderArena {
    segments: Vec<SegmentBuilder>,
    strategy: AllocationStrategy,
    first_segment_words: u32,
    fail_fast: bool,
    total_capacity: u64,
    cap_table: Vec<Option<ClientHook>>,
}

impl BuilderArena {
    /// There is always a segment zero, every segment is well formed, and the
    /// tracked total matches the capacities on hand and stays under the
    /// supported bound.
    pub closed spec fn inv(&self) -> bool {
        &&& 1 <= self.segments@.len() <= self.total_capacity + 1
        &&& forall|i: int| 0 <= i < self.segments@.len() ==> (#[trigger] self.segments@[i]).inv()
        &&& self.total_capacity as int == sum_capacities(self.segments@)
        &&& self.total_capacity <= MAX_TOTAL_WORDS
    }

    /// How many segments the message has so far.
    pub closed spec fn num_segments(&self) -> int {
        self.segments@.len() as int
    }

    /// Words allocated so far in segment `i`.
    pub closed spec fn segment_fill(&self, i: int) -> int {
        self.segments@[i].fill()
    }

    /// Capacity of segment `i`.
    pub closed spec fn segment_capacity(&self, i: int) -> int {
        self.segments@[i].capacity()
    }

    /// Every word of segment `i`, allocated or not.
    pub closed spec fn segment_words(&self, i: int) -> Seq<u64> {
        self.segments@[i].contents()
    }

    /// Sum of all segments' capacities.
    pub closed spec fn total_words(&self) -> int {
        self.total_capacity as int
    }

    /// The configured allocation policy.
    pub closed spec fn strategy(&self) -> AllocationStrategy {
        self.strategy
    }

    /// The configured base size for appended segments.
    pub closed spec fn base_segment_words(&self) -> u32 {
        self.first_segment_words
    }

    /// The configured failure policy.
    pub closed spec fn fail_fast_mode(&self) -> bool {
        self.fail_fast
    }

    /// The outgoing capability table.
    pub closed spec fn cap_table_view(&self) -> Seq<Option<ClientHook>> {
        self.cap_table@
    }

    /// Everything allocate leaves untouched: existing words and capacities,
    /// the fill of every inactive segment, and the configuration.
    pub open spec fn allocate_frame(pre: &BuilderArena, post: &BuilderArena) -> bool {
        &&& pre.num_segments() <= post.num_segments() <= pre.num_segments() + 1
        &&& forall|i: int|
            0 <= i < pre.num_segments() ==> #[trigger] post.segment_words(i) == pre.segment_words(
                i,
            )
        &&& forall|i: int|
            0 <= i < pre.num_segments() ==> #[trigger] post.segment_capacity(i)
                == pre.segment_capacity(i)
        &&& forall|i: int|
            0 <= i < pre.num_segments() - 1 ==> #[trigger] post.segment_fill(i)
                == pre.segment_fill(i)
        &&& post.strategy() == pre.strategy()
        &&& post.base_segment_words() == pre.base_segment_words()
        &&& post.fail_fast_mode() == pre.fail_fast_mode()
        &&& post.cap_table_view() == pre.cap_table_view()
    }

    /// A fresh arena whose segment zero has the configured first-segment
    /// capacity, zeroed.
    pub fn new(strategy: AllocationStrategy, first_segment_words: u32, fail_fast: bool) -> (r:
        BuilderArena)
        requires
            first_segment_words <= MAX_TOTAL_WORDS,
        ensures
            r.inv(),
            r.num_segments() == 1,
            r.segment_fill(0) == 0,
            r.segment_capacity(0) == first_segment_words,
            forall|i: int| 0 <= i < first_segment_words ==> r.segment_words(0)[i] == 0,
            r.total_words() == first_segment_words,
            r.strategy() == strategy,
            r.base_segment_words() == first_segment_words,
            r.fail_fast_mode() == fail_fast,
            r.cap_table_view() == Seq::<Option<ClientHook>>::empty(),
    {
        let seg = SegmentBuilder::new(first_segment_words);
        let ghost gseg = seg;
        let mut segments: Vec<SegmentBuilder> = Vec::new();
        segments.push(seg);
        proof {
            lemma_sum_capacities_push(Seq::<SegmentBuilder>::empty(), gseg);
            assert(Seq::<SegmentBuilder>::empty().push(gseg) =~= segments@);
            assert(sum_capacities(Seq::<SegmentBuilder>::empty()) == 0);
        }
        BuilderArena {
            segments,
            strategy,
            first_segment_words,
            fail_fast,
            total_capacity: first_segment_words as u64,
            cap_table: Vec::new(),
        }
    }

    /// A fresh arena whose segment zero is caller-supplied scratch memory,
    /// zeroed on entry; appended segments use the scratch size as base.
    pub fn from_scratch(scratch: Vec<u64>, strategy: AllocationStrategy, fail_fast: bool) -> (r:
        BuilderArena)
        requires
            scratch.len() <= MAX_TOTAL_WORDS,
        ensures
            r.inv(),
            r.num_segments() == 1,
            r.segment_fill(0) == 0,
            r.segment_capacity(0) == scratch.len(),
            forall|i: int| 0 <= i < scratch.len() ==> r.segment_words(0)[i] == 0,
            r.total_words() == scratch.len(),
            r.strategy() == strategy,
            r.base_segment_words() == scratch.len(),
            r.fail_fast_mode() == fail_fast,
            r.cap_table_view() == Seq::<Option<ClientHook>>::empty(),
    {
        let first_segment_words = scratch.len() as u32;
        let seg = SegmentBuilder::from_scratch(scratch);
        let ghost gseg = seg;
        let mut segments: Vec<SegmentBuilder> = Vec::new();
        segments.push(seg);
        proof {
            lemma_sum_capacities_push(Seq::<SegmentBuilder>::empty(), gseg);
            assert(Seq::<SegmentBuilder>::empty().push(gseg) =~= segments@);
            assert(sum_capacities(Seq::<SegmentBuilder>::empty()) == 0);
        }
        BuilderArena {
            segments,
            strategy,
            first_segment_words,
            fail_fast,
            total_capacity: first_segment_words as u64,
            cap_table: Vec::new(),
        }
    }

    /// Reserve `amount` words: at the fill boundary of the active segment
    /// when they fit, else at offset zero of a newly appended segment sized
    /// by the allocation strategy.  Fails only when the new segment would
    /// push the arena past the supported total size.  Returns the segment id
    /// and word offset of the reserved block, which stays valid for the
    /// arena's lifetime.
    pub fn allocate(&mut self, amount: u32) -> (r: Result<(u32, usize), Error>)
        requires
            old(self).inv(),
        ensures
            final(self).inv(),
            BuilderArena::allocate_frame(old(self), final(self)),
            match r {
                Ok(loc) => {
                    &&& if amount <= old(self).segment_capacity(old(self).num_segments() - 1)
                        - old(self).segment_fill(old(self).num_segments() - 1) {
                        // The request fits the active segment.
                        &&& loc.0 == old(self).num_segments() - 1
                        &&& loc.1 == old(self).segment_fill(loc.0 as int)
                        &&& final(self).num_segments() == old(self).num_segments()
                        &&& final(self).segment_fill(loc.0 as int) == loc.1 + amount
                        &&& final(self).total_words() == old(self).total_words()
                    } else {
                        // Spill: a new segment is appended, never growing or
                        // moving an existing one.
                        &&& loc.0 == old(self).num_segments()
                        &&& loc.1 == 0
                        &&& final(self).num_segments() == old(self).num_segments() + 1
                        &&& final(self).segment_capacity(loc.0 as int) == new_segment_size(
                            old(self).strategy(),
                            old(self).base_segment_words(),
                            old(self).total_words(),
                            amount,
                        )
                        &&& final(self).segment_fill(loc.0 as int) == amount
                        &&& final(self).segment_fill(old(self).num_segments() - 1) == old(
                            self,
                        ).segment_fill(old(self).num_segments() - 1)
                        &&& forall|i: int|
                            0 <= i < final(self).segment_capacity(loc.0 as int)
                                ==> final(self).segment_words(loc.0 as int)[i] == 0
                        &&& final(self).total_words() == old(self).total_words()
                            + final(self).segment_capacity(loc.0 as int)
                    }
                    &&& loc.1 + amount <= final(self).segment_capacity(loc.0 as int)
                    &&& forall|j: int|
                        loc.1 <= j < loc.1 + amount ==> final(self).segment_words(loc.0 as int)[j]
                            == 0
                },
                Err(e) => {
                    &&& e == Error::AllocationLimitExceeded
                    &&& final(self).num_segments() == old(self).num_segments()
                    &&& forall|i: int|
                        0 <= i < old(self).num_segments() ==> #[trigger] final(self).segment_fill(
                            i,
                        ) == old(self).segment_fill(i)
                    &&& final(self).total_words() == old(self).total_words()
                    &&& amount > old(self).segment_capacity(old(self).num_segments() - 1)
                        - old(self).segment_fill(old(self).num_segments() - 1)
                    &&& old(self).total_words() + new_segment_size(
                        old(self).strategy(),
                        old(self).base_segment_words(),
                        old(self).total_words(),
                        amount,
                    ) > MAX_TOTAL_WORDS
                },
            },
    {
        let last_idx = self.segments.len() - 1;
        let mut last = match self.segments.pop() {
            Some(seg) => seg,
            None => {
                proof {
                    assert(false);
                }
                return Err(Error::AllocationLimitExceeded);
            },
        };
        let ghost popped = self.segments@;
        match last.allocate(amount) {
            Some(offset) => {
                self.segments.push(last);
                proof {
                    lemma_sum_capacities_push(popped, self.segments@.last());
                    assert(popped.push(self.segments@.last()) =~= self.segments@);
                }
                Ok((last_idx as u32, offset))
            },
            None => {
                self.segments.push(last);
                proof {
                    lemma_sum_capacities_push(popped, self.segments@.last());
                    assert(popped.push(self.segments@.last()) =~= self.segments@);
                    assert(self.segments@ =~= old(self).segments@);
                }
                let base: u64 = match self.strategy {
                    AllocationStrategy::FixedSize => self.first_segment_words as u64,
                    AllocationStrategy::GrowHeuristically => self.total_capacity,
                };
                let size: u64 = if (amount as u64) > base {
                    amount as u64
                } else {
                    base
                };
                if size > MAX_TOTAL_WORDS || self.total_capacity > MAX_TOTAL_WORDS - size {
                    return Err(Error::AllocationLimitExceeded);
                }
                proof {
                    assert(size <= MAX_TOTAL_WORDS);
                    assert(size as u32 == size);
                    assert(amount as u64 <= size);
                }
                let mut seg = SegmentBuilder::new(size as u32);
                let offset = match seg.allocate(amount) {
                    Some(offset) => offset,
                    None => {
                        proof {
                            assert(false);
                        }
                        return Err(Error::AllocationLimitExceeded);
                    },
                };
                let ghost before_push = self.segments@;
                self.segments.push(seg);
                self.total_capacity = self.total_capacity + size;
                proof {
                    lemma_sum_capacities_push(before_push, self.segments@.last());
                    assert(before_push.push(self.segments@.last()) =~= self.segments@);
                }
                Ok(((last_idx + 1) as u32, offset))
            },
        }
    }

    /// Make sure the root pointer's word exists: the very first allocation
    /// of the arena's lifetime, one word at offset zero of segment zero.
    /// Fails only when segment zero was created with no capacity at all.
    pub fn allocate_root(&mut self) -> (r: Result<(), Error>)
        requires
            old(self).inv(),
        ensures
            final(self).inv(),
            final(self).num_segments() == old(self).num_segments(),
            forall|i: int|
                0 <= i < old(self).num_segments() ==> #[trigger] final(self).segment_words(i)
                    == old(self).segment_words(i),
            forall|i: int|
                0 <= i < old(self).num_segments() ==> #[trigger] final(self).segment_capacity(i)
                    == old(self).segment_capacity(i),
            forall|i: int|
                1 <= i < old(self).num_segments() ==> #[trigger] final(self).segment_fill(i) == old(
                    self,
                ).segment_fill(i),
            final(self).total_words() == old(self).total_words(),
            final(self).strategy() == old(self).strategy(),
            final(self).base_segment_words() == old(self).base_segment_words(),
            final(self).fail_fast_mode() == old(self).fail_fast_mode(),
            final(self).cap_table_view() == old(self).cap_table_view(),
            match r {
                Ok(()) => {
                    &&& final(self).segment_fill(0) == (if old(self).segment_fill(0) == 0 {
                        1int
                    } else {
                        old(self).segment_fill(0)
                    })
                    &&& final(self).segment_fill(0) >= 1
                },
                Err(e) => {
                    &&& e == Error::AllocationLimitExceeded
                    &&& old(self).segment_fill(0) == 0 && old(self).segment_capacity(0) == 0
                    &&& final(self).segment_fill(0) == old(self).segment_fill(0)
                },
            },
            r.is_ok() == (old(self).segment_fill(0) >= 1 || old(self).segment_capacity(0) >= 1),
    {
        if self.segments[0].current_size() > 0 {
            return Ok(());
        }
        let first = &mut self.segments[0];
        let r = match first.allocate(1) {
            Some(offset) => {
                // The root pointer's storage is always the first word.
                proof {
                    assert(offset == 0);
                }
                Ok(())
            },
            None => Err(Error::AllocationLimitExceeded),
        };
        proof {
            lemma_sum_capacities_congruent(old(self).segments@, self.segments@);
        }
        r
    }

    /// Free words left in the active (last) segment.
    pub fn active_remaining(&self) -> (r: usize)
        requires
            self.inv(),
        ensures
            r == self.segment_capacity(self.num_segments() - 1) - self.segment_fill(
                self.num_segments() - 1,
            ),
    {
        self.segments[self.segments.len() - 1].remaining()
    }

    /// Read the word at `idx` of segment `seg`.
    pub fn get_word(&self, seg: u32, idx: usize) -> (r: u64)
        requires
            self.inv(),
            seg < self.num_segments(),
            idx < self.segment_capacity(seg as int),
        ensures
            r == self.segment_words(seg as int)[idx as int],
    {
        self.segments[seg as usize].get_word(idx)
    }

    /// Words allocated so far in segment `seg`.
    pub fn segment_size(&self, seg: u32) -> (r: usize)
        requires
            self.inv(),
            seg < self.num_segments(),
        ensures
            r == self.segment_fill(seg as int),
    {
        self.segments[seg as usize].current_size()
    }

    /// How many segments the message has so far; never zero.
    pub fn segment_count(&self) -> (r: usize)
        requires
            self.inv(),
        ensures
            r == self.num_segments(),
            r >= 1,
    {
        self.segments.len()
    }

    /// Capacity of segment `seg`, in words.
    pub fn capacity_of(&self, seg: u32) -> (r: usize)
        requires
            self.inv(),
            seg < self.num_segments(),
        ensures
            r == self.segment_capacity(seg as int),
    {
        self.segments[seg as usize].words.len()
    }

    /// Overwrite the already-allocated word at `idx` of segment `seg`,
    /// changing nothing else.
    pub fn set_word(&mut self, seg: u32, idx: usize, w: u64)
        requires
            old(self).inv(),
            seg < old(self).num_segments(),
            idx < old(self).segment_fill(seg as int),
        ensures
            final(self).inv(),
            final(self).num_segments() == old(self).num_segments(),
            final(self).segment_words(seg as int) == old(self).segment_words(seg as int).update(
                idx as int,
                w,
            ),
            forall|i: int|
                0 <= i < old(self).num_segments() && i != seg
                    ==> #[trigger] final(self).segment_words(i) == old(self).segment_words(i),
            forall|i: int|
                0 <= i < old(self).num_segments() ==> #[trigger] final(self).segment_fill(i)
                    == old(self).segment_fill(i),
            forall|i: int|
                0 <= i < old(self).num_segments() ==> #[trigger] final(self).segment_capacity(i)
                    == old(self).segment_capacity(i),
            final(self).total_words() == old(self).total_words(),
            final(self).strategy() == old(self).strategy(),
            final(self).base_segment_words() == old(self).base_segment_words(),
            final(self).fail_fast_mode() == old(self).fail_fast_mode(),
            final(self).cap_table_view() == old(self).cap_table_view(),
    {
        let segment = &mut self.segments[seg as usize];
        segment.set_word(idx, w);
        proof {
            lemma_sum_capacities_congruent(old(self).segments@, self.segments@);
        }
    }

    /// The final ordered byte views of the message: each segment's allocated
    /// prefix, in segment order.
    pub fn get_segments_for_output(&self) -> (r: Vec<Vec<u64>>)
        requires
            self.inv(),
        ensures
            r.len() == self.num_segments(),
            forall|i: int|
                0 <= i < r.len() ==> #[trigger] r@[i]@ == self.segment_words(i).take(
                    self.segment_fill(i),
                ),
    {
        let mut r: Vec<Vec<u64>> = Vec::new();
        let mut i: usize = 0;
        let n = self.segments.len();
        while i < n
            invariant
                self.inv(),
                i <= n,
                n == self.num_segments(),
                r.len() == i,
                forall|j: int|
                    0 <= j < i ==> #[trigger] r@[j]@ == self.segment_words(j).take(
                        self.segment_fill(j),
                    ),
            decreases n - i,
        {
            r.push(self.segments[i].extract_used());
            i = i + 1;
        }
        r
    }

    /// Install the outgoing capability table.
    pub fn init_cap_table(&mut self, cap_table: Vec<Option<ClientHook>>)
        requires
            old(self).inv(),
        ensures
            final(self).inv(),
            final(self).cap_table_view() == cap_table@,
            final(self).num_segments() == old(self).num_segments(),
            forall|i: int|
                0 <= i < old(self).num_segments() ==> #[trigger] final(self).segment_words(i)
                    == old(self).segment_words(i),
            forall|i: int|
                0 <= i < old(self).num_segments() ==> #[trigger] final(self).segment_fill(i)
                    == old(self).segment_fill(i),
            final(self).total_words() == old(self).total_words(),
    {
        self.cap_table = cap_table;
        proof {
            lemma_sum_capacities_congruent(old(self).segments@, self.segments@);
        }
    }

    /// The outgoing capability table.
    pub fn get_cap_table(&self) -> (r: &Vec<Option<ClientHook>>)
        requires
            self.inv(),
        ensures
            r@ == self.cap_table_view(),
    {
        &self.cap_table
    }

    /// Consume the arena and hand back segment zero's backing memory with
    /// every word zeroed, a defense against leaking message contents
    /// through a reused scratch buffer.
    pub fn reclaim_first_zeroed(self) -> (r: Vec<u64>)
        requires
            self.inv(),
        ensures
            r.len() == self.segment_capacity(0),
            forall|i: int| 0 <= i < r.len() ==> r@[i] == 0,
    {
        let mut segments = self.segments;
        let first = segments.remove(0);
        let mut words = first.words;
        let n = words.len();
        let mut i: usize = 0;
        while i < n
            invariant
                i <= n,
                words.len() == n,
                forall|j: int| 0 <= j < i ==> words@[j] == 0,
            decreases n - i,
        {
            words.set(i, 0);
            i = i + 1;
        }
        words
    }
}

/// Shape facts of a well-formed builder arena: each segment's fill stays
/// within its capacity, which is the length of its word buffer, no
/// capacity exceeds the arena's total, and the total stays under the
/// supported bound.
/// A well-formed builder arena always has a segment zero.
pub proof fn lemma_arena_nonempty(a: &BuilderArena)
    requires
        a.inv(),
    ensures
        a.num_segments() >= 1,
{
}

pub proof fn lemma_arena_shape(a: &BuilderArena, i: int)
    requires
        a.inv(),
        0 <= i < a.num_segments(),
    ensures
        0 <= a.segment_fill(i) <= a.segment_capacity(i),
        a.segment_words(i).len() == a.segment_capacity(i),
        a.segment_capacity(i) <= a.total_words(),
        a.total_words() <= MAX_TOTAL_WORDS,
        forall|j: int|
            a.segment_fill(i) <= j < a.segment_capacity(i) ==> a.segment_words(i)[j] == 0,
{
    lemma_capacity_le_sum(a.segments@, i);
}

proof fn lemma_capacity_le_sum(s: Seq<SegmentBuilder>, i: int)
    requires
        0 <= i < s.len(),
    ensures
        s[i].capacity() <= sum_capacities(s),
    decreases s.len(),
{
    lemma_sum_capacities_nonneg(s.drop_last());
    if i < s.len() - 1 {
        lemma_capacity_le_sum(s.drop_last(), i);
    }
}

proof fn lemma_sum_capacities_congruent(a: Seq<SegmentBuilder>, b: Seq<SegmentBuilder>)
    requires
        a.len() == b.len(),
        forall|i: int| 0 <= i < a.len() ==> #[trigger] a[i].capacity() == b[i].capacity(),
    ensures
        sum_capacities(a) == sum_capacities(b),
    decreases a.len(),
{
    if a.len() > 0 {
        assert(a.drop_last().len() == b.drop_last().len());
        assert(forall|i: int|
            0 <= i < a.drop_last().len() ==> #[trigger] a.drop_last()[i].capacity()
                == b.drop_last()[i].capacity());
        lemma_sum_capacities_congruent(a.drop_last(), b.drop_last());
    }
}

/// The borrowing arena of an incoming message: its ordered segments, the
/// shared traversal budget, the nesting limit, and the capability table once
/// installed.  The budget only ever decreases.
pub struct ReaderArena {
    segments: Vec<Vec<u64>>,
    limit_remaining: u64,
    nesting_limit: i32,
    fail_fast: bool,
    cap_table: Vec<Option<ClientHook>>,
}

impl ReaderArena {
    /// A message always has a segment zero.
    pub closed spec fn inv(&self) -> bool {
        self.segments@.len() >= 1
    }

    /// The segments of the message, as word sequences.
    pub closed spec fn segments_view(&self) -> Seq<Seq<u64>> {
        self.segments@.map_values(|v: Vec<u64>| v@)
    }

    /// Traversal budget still available, in words.
    pub closed spec fn budget(&self) -> u64 {
        self.limit_remaining
    }

    /// The configured nesting limit.
    pub closed spec fn nesting_limit_cfg(&self) -> i32 {
        self.nesting_limit
    }

    /// The configured failure policy.
    pub closed spec fn fail_fast_mode(&self) -> bool {
        self.fail_fast
    }

    /// The installed capability table.
    pub closed spec fn cap_table_view(&self) -> Seq<Option<ClientHook>> {
        self.cap_table@
    }

    /// Borrow the caller-supplied segments for the message's lifetime, with
    /// a full traversal budget.
    pub fn new(
        segments: Vec<Vec<u64>>,
        traversal_limit_in_words: u64,
        nesting_limit: i32,
        fail_fast: bool,
    ) -> (r: ReaderArena)
        requires
            segments.len() >= 1,
        ensures
            r.inv(),
            r.segments_view() == segments@.map_values(|v: Vec<u64>| v@),
            r.budget() == traversal_limit_in_words,
            r.nesting_limit_cfg() == nesting_limit,
            r.fail_fast_mode() == fail_fast,
            r.cap_table_view() == Seq::<Option<ClientHook>>::empty(),
    {
        ReaderArena {
            segments,
            limit_remaining: traversal_limit_in_words,
            nesting_limit,
            fail_fast,
            cap_table: Vec::new(),
        }
    }

    /// The segment with the given id.
    pub fn get_segment(&self, id: usize) -> (r: &Vec<u64>)
        requires
            self.inv(),
            id < self.segments_view().len(),
        ensures
            r@ == self.segments_view()[id as int],
    {
        &self.segments[id]
    }

    /// How many segments the message has; never zero.
    pub fn segment_count(&self) -> (r: usize)
        requires
            self.inv(),
        ensures
            r == self.segments_view().len(),
            r >= 1,
    {
        self.segments.len()
    }

    /// Charge `words` against the traversal budget.  Succeeds and decreases
    /// the budget exactly when it still covers the charge; the budget never
    /// increases.
    pub fn try_consume(&mut self, words: u64) -> (ok: bool)
        requires
            old(self).inv(),
        ensures
            final(self).inv(),
            final(self).segments_view() == old(self).segments_view(),
            final(self).nesting_limit_cfg() == old(self).nesting_limit_cfg(),
            final(self).fail_fast_mode() == old(self).fail_fast_mode(),
            final(self).cap_table_view() == old(self).cap_table_view(),
            if words <= old(self).budget() {
                ok && final(self).budget() == old(self).budget() - words
            } else {
                !ok && final(self).budget() == old(self).budget()
            },
    {
        if words <= self.limit_remaining {
            self.limit_remaining = self.limit_remaining - words;
            true
        } else {
            false
        }
    }

    /// Install the capability table for incoming interface pointers.
    pub fn init_cap_table(&mut self, cap_table: Vec<Option<ClientHook>>)
        requires
            old(self).inv(),
        ensures
            final(self).inv(),
            final(self).cap_table_view() == cap_table@,
            final(self).segments_view() == old(self).segments_view(),
            final(self).budget() == old(self).budget(),
            final(self).nesting_limit_cfg() == old(self).nesting_limit_cfg(),
            final(self).fail_fast_mode() == old(self).fail_fast_mode(),
    {
        self.cap_table = cap_table;
    }

    /// The installed capability table.
    pub fn get_cap_table(&self) -> (r: &Vec<Option<ClientHook>>)
        requires
            self.inv(),
        ensures
            r@ == self.cap_table_view(),
    {
        &self.cap_table
    }
}

} // verus!
