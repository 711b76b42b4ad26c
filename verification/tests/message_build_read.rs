use capnp::layout::{encode_ptr, ptr_count, ptr_kind, ptr_offset, ptr_segment, PointerBuilder};
use capnp::message::{
    init_list, AllocationStrategy, BuilderOptions, MallocMessageBuilder, ReaderOptions,
    ScratchSpaceMallocMessageBuilder, SegmentArrayMessageReader,
};
use capnp::primitive_list;
use capnp::{ClientHook, Error};

#[test]
fn reader_options_defaults() {
    let o = ReaderOptions::new();
    assert_eq!(o.traversal_limit_in_words, 8 * 1024 * 1024);
    assert_eq!(o.nesting_limit, 64);
    assert!(o.fail_fast);
}

#[test]
fn builder_options_defaults() {
    let o = BuilderOptions::new();
    assert_eq!(o.first_segment_words, 1024);
    assert!(matches!(o.allocation_strategy, AllocationStrategy::GrowHeuristically));
    assert!(o.fail_fast);
}

#[test]
fn options_fluent_setters_chain() {
    let mut o = ReaderOptions::new();
    o.traversal_limit_in_words(100).nesting_limit(5).fail_fast(false);
    assert_eq!(o.traversal_limit_in_words, 100);
    assert_eq!(o.nesting_limit, 5);
    assert!(!o.fail_fast);
    let mut b = BuilderOptions::new();
    b.first_segment_words(8).allocation_strategy(AllocationStrategy::FixedSize).fail_fast(false);
    assert_eq!(b.first_segment_words, 8);
    assert!(matches!(b.allocation_strategy, AllocationStrategy::FixedSize));
    assert!(!b.fail_fast);
}

#[test]
fn round_trip_primitive_list() {
    let mut mb = MallocMessageBuilder::new_default();
    let lb = mb.init_root(3, false).unwrap();
    let list = primitive_list::Builder::new(lb);
    list.set(mb.mut_arena(), 0, 10);
    list.set(mb.mut_arena(), 1, 20);
    list.set(mb.mut_arena(), 2, 30);
    assert_eq!(list.get(mb.arena(), 1), 20);

    let segments = mb.get_segments_for_output();
    let mut reader = SegmentArrayMessageReader::new(segments, ReaderOptions::new());
    let root = reader.get_root(false).unwrap();
    assert_eq!(root.count, 3);
    let view = primitive_list::Reader::new(root);
    assert_eq!(view.len(), 3);
    assert_eq!(view.get(&reader, 0), 10);
    assert_eq!(view.get(&reader, 1), 20);
    assert_eq!(view.get(&reader, 2), 30);
}

#[test]
fn round_trip_empty_list() {
    let mut mb = MallocMessageBuilder::new_default();
    mb.init_root(0, false).unwrap();
    let segments = mb.get_segments_for_output();
    let mut reader = SegmentArrayMessageReader::new(segments, ReaderOptions::new());
    let root = reader.get_root(false).unwrap();
    assert_eq!(root.count, 0);
}

#[test]
fn get_root_reinterprets_built_message() {
    let mut mb = MallocMessageBuilder::new_default();
    let lb = mb.init_root(2, false).unwrap();
    let list = primitive_list::Builder::new(lb);
    list.set(mb.mut_arena(), 0, 7);
    list.set(mb.mut_arena(), 1, 8);
    let again = mb.get_root(false).unwrap();
    assert_eq!(again.count, 2);
    let view = primitive_list::Builder::new(again);
    assert_eq!(view.get(mb.arena(), 0), 7);
    assert_eq!(view.get(mb.arena(), 1), 8);
}

#[test]
fn get_root_on_fresh_builder_is_empty() {
    let mut mb = MallocMessageBuilder::new_default();
    let root = mb.get_root(false).unwrap();
    assert_eq!(root.count, 0);
}

#[test]
fn null_root_reads_as_empty_list() {
    let segments = vec![vec![0u64]];
    let mut reader = SegmentArrayMessageReader::new(segments, ReaderOptions::new());
    let root = reader.get_root(false).unwrap();
    assert_eq!(root.count, 0);
}

#[test]
fn malformed_root_word_fails_fast() {
    // Kind bits that name no list: malformed under fail-fast.
    let segments = vec![vec![3u64]];
    let mut reader = SegmentArrayMessageReader::new(segments, ReaderOptions::new());
    assert_eq!(reader.get_root(false), Err(Error::MalformedMessage));
}

#[test]
fn malformed_root_degrades_without_fail_fast() {
    let segments = vec![vec![3u64]];
    let mut options = ReaderOptions::new();
    options.fail_fast(false);
    let mut reader = SegmentArrayMessageReader::new(segments, options);
    let root = reader.get_root(false).unwrap();
    assert_eq!(root.count, 0);
}

#[test]
fn empty_segment_zero_is_malformed() {
    let segments = vec![Vec::new()];
    let mut reader = SegmentArrayMessageReader::new(segments, ReaderOptions::new());
    assert_eq!(reader.get_root(false), Err(Error::MalformedMessage));
}

#[test]
fn fixed_size_allocation_spills_into_new_segment() {
    // Segment zero: 8 words, one taken by the root pointer.  A 10-word
    // list cannot fit, so it must land in a newly appended segment, never
    // growing segment zero.
    let mut options = BuilderOptions::new();
    options.first_segment_words(8).allocation_strategy(AllocationStrategy::FixedSize);
    let mut mb = MallocMessageBuilder::new(options);
    let lb = mb.init_root(10, false).unwrap();
    assert_eq!(lb.segment, 1);
    assert_eq!(lb.offset, 0);
    let list = primitive_list::Builder::new(lb);
    for i in 0..10u32 {
        list.set(mb.mut_arena(), i, 100 + i as u64);
    }
    let segments = mb.get_segments_for_output();
    assert_eq!(segments.len(), 2);
    // Segment zero holds exactly the root pointer word.
    assert_eq!(segments[0].len(), 1);
    assert_eq!(segments[1].len(), 10);
    // The pointer written before the spill still resolves afterward.
    let mut reader = SegmentArrayMessageReader::new(segments, ReaderOptions::new());
    let root = reader.get_root(false).unwrap();
    assert_eq!(root.count, 10);
    assert_eq!(root.segment, 1);
    let view = primitive_list::Reader::new(root);
    for i in 0..10u32 {
        assert_eq!(view.get(&reader, i), 100 + i as u64);
    }
}

#[test]
fn grow_heuristically_doubles_capacity() {
    let mut options = BuilderOptions::new();
    options.first_segment_words(4).allocation_strategy(AllocationStrategy::GrowHeuristically);
    let mut mb = MallocMessageBuilder::new(options);
    // Root pointer plus a 6-word list: the list spills into a segment of
    // capacity max(6, 4) = 6.
    mb.init_root(6, false).unwrap();
    assert_eq!(mb.arena().capacity_of(0), 4);
    assert_eq!(mb.arena().capacity_of(1), 6);
    // The next spill gets at least the sum of all prior capacities.
    let (seg, _) = mb.mut_arena().allocate(7).unwrap();
    assert_eq!(seg, 2);
    let c0 = mb.arena().capacity_of(0);
    let c1 = mb.arena().capacity_of(1);
    let c2 = mb.arena().capacity_of(2);
    assert!(c2 >= c0 + c1);
    assert_eq!(c2, 10);
}

#[test]
fn scratch_builder_round_trip_and_zeroed_reclaim() {
    let scratch = vec![0xDEADu64; 16];
    let mut mb = ScratchSpaceMallocMessageBuilder::new_default(scratch);
    let lb = mb.init_root(2, false).unwrap();
    assert_eq!(lb.segment, 0);
    let list = primitive_list::Builder::new(lb);
    list.set(mb.mut_arena(), 0, 11);
    list.set(mb.mut_arena(), 1, 22);
    let segments = mb.get_segments_for_output();
    assert_eq!(segments.len(), 1);
    let mut reader = SegmentArrayMessageReader::new(segments, ReaderOptions::new());
    let root = reader.get_root(false).unwrap();
    let view = primitive_list::Reader::new(root);
    assert_eq!(view.get(&reader, 0), 11);
    assert_eq!(view.get(&reader, 1), 22);
    // Reclaiming hands the scratch memory back fully zeroed.
    let reclaimed = mb.into_scratch();
    assert_eq!(reclaimed.len(), 16);
    assert!(reclaimed.iter().all(|w| *w == 0));
}

#[test]
fn set_root_deep_copies_a_read_list() {
    let mut src_builder = MallocMessageBuilder::new_default();
    let lb = src_builder.init_root(3, false).unwrap();
    let list = primitive_list::Builder::new(lb);
    list.set(src_builder.mut_arena(), 0, 5);
    list.set(src_builder.mut_arena(), 1, 6);
    list.set(src_builder.mut_arena(), 2, 7);
    let mut reader =
        SegmentArrayMessageReader::new(src_builder.get_segments_for_output(), ReaderOptions::new());
    let value = reader.get_root(false).unwrap();

    let mut dst = MallocMessageBuilder::new_default();
    dst.set_root(&reader, value).unwrap();
    let mut reader2 =
        SegmentArrayMessageReader::new(dst.get_segments_for_output(), ReaderOptions::new());
    let copied = reader2.get_root(false).unwrap();
    assert_eq!(copied.count, 3);
    let view = primitive_list::Reader::new(copied);
    assert_eq!(view.get(&reader2, 0), 5);
    assert_eq!(view.get(&reader2, 1), 6);
    assert_eq!(view.get(&reader2, 2), 7);
}

#[test]
fn list_too_long_for_the_format_is_rejected() {
    let mut mb = MallocMessageBuilder::new_default();
    assert_eq!(mb.init_root(0x400000, false), Err(Error::AllocationLimitExceeded));
}

#[test]
fn root_in_zero_capacity_arena_fails() {
    let mut options = BuilderOptions::new();
    options.first_segment_words(0);
    let mut mb = MallocMessageBuilder::new(options);
    assert_eq!(mb.get_root_internal(), Err(Error::AllocationLimitExceeded));
}

#[test]
fn nested_list_init_through_pointer() {
    let mut mb = MallocMessageBuilder::new_default();
    let root = mb.init_root(2, true).unwrap();
    let child0 = init_list(
        mb.mut_arena(),
        PointerBuilder { segment: root.segment, word: root.offset },
        1,
        false,
    )
    .unwrap();
    let child1 = init_list(
        mb.mut_arena(),
        PointerBuilder { segment: root.segment, word: root.offset + 1 },
        2,
        false,
    )
    .unwrap();
    primitive_list::Builder::new(child0).set(mb.mut_arena(), 0, 41);
    let c1 = primitive_list::Builder::new(child1);
    c1.set(mb.mut_arena(), 0, 42);
    c1.set(mb.mut_arena(), 1, 43);

    let mut reader =
        SegmentArrayMessageReader::new(mb.get_segments_for_output(), ReaderOptions::new());
    let root = reader.get_root(true).unwrap();
    assert_eq!(root.count, 2);
    let p0 = root.element_pointer(0);
    let l0 = reader.follow_list_pointer(p0, false).unwrap();
    assert_eq!(l0.count, 1);
    assert_eq!(primitive_list::Reader::new(l0).get(&reader, 0), 41);
    let p1 = root.element_pointer(1);
    let l1 = reader.follow_list_pointer(p1, false).unwrap();
    assert_eq!(l1.count, 2);
    let v1 = primitive_list::Reader::new(l1);
    assert_eq!(v1.get(&reader, 0), 42);
    assert_eq!(v1.get(&reader, 1), 43);
}

#[test]
fn capability_tables_store_and_return_handles() {
    let mut mb = MallocMessageBuilder::new_default();
    mb.init_root(1, false).unwrap();
    assert!(mb.get_cap_table().is_empty());
    let mut reader =
        SegmentArrayMessageReader::new(mb.get_segments_for_output(), ReaderOptions::new());
    reader.init_cap_table(vec![Some(ClientHook { token: 99 }), None]);
    let table = reader.arena().get_cap_table();
    assert_eq!(table.len(), 2);
    assert_eq!(table[0], Some(ClientHook { token: 99 }));
    assert_eq!(table[1], None);
}

#[test]
fn list_views_through_pointers() {
    let mut mb = MallocMessageBuilder::new_default();
    mb.get_root_internal().unwrap();
    let b = primitive_list::Builder::init_pointer(
        mb.mut_arena(),
        PointerBuilder { segment: 0, word: 0 },
        2,
    )
    .unwrap();
    b.set(mb.mut_arena(), 0, 3);
    b.set(mb.mut_arena(), 1, 4);
    // Re-decode the same pointer from the builder side.
    let again =
        primitive_list::Builder::get_from_pointer(mb.arena(), PointerBuilder { segment: 0, word: 0 })
            .unwrap();
    assert_eq!(again.len(), 2);
    assert_eq!(again.get(mb.arena(), 0), 3);
    assert_eq!(again.get(mb.arena(), 1), 4);
    // And from the reader side, through the typed view's own entry point.
    let mut reader =
        SegmentArrayMessageReader::new(mb.get_segments_for_output(), ReaderOptions::new());
    let root = reader.get_root_internal();
    let view = primitive_list::Reader::get_from_pointer(&mut reader, root).unwrap();
    assert_eq!(view.len(), 2);
    assert_eq!(view.get(&reader, 0), 3);
    assert_eq!(view.get(&reader, 1), 4);
}

#[test]
fn pointer_word_exact_encoding() {
    // kind 1, segment 0, offset 1, count 2:
    // 1 + (1 << 2) + (0 << 30) + (2 << 42).
    let w = encode_ptr(1, 0, 1, 2);
    assert_eq!(w, 1 + 4 + (2u64 << 42));
    assert_eq!(w, 8796093022213);
    assert_eq!(ptr_kind(w), 1);
    assert_eq!(ptr_segment(w), 0);
    assert_eq!(ptr_offset(w), 1);
    assert_eq!(ptr_count(w), 2);
    assert_ne!(w, 0);
}

#[test]
fn repeated_root_access_is_idempotent() {
    let mut mb = MallocMessageBuilder::new_default();
    let first = mb.get_root_internal().unwrap();
    let before = mb.get_segments_for_output();
    let again = mb.get_root_internal().unwrap();
    assert_eq!(first, again);
    let after = mb.get_segments_for_output();
    assert_eq!(before, after);
    assert_eq!(after.len(), 1);
    // Exactly the one root word was allocated, and it is still null.
    assert_eq!(after[0], vec![0u64]);
}
