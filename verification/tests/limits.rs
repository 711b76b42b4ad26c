use capnp::layout::PointerBuilder;
use capnp::message::{
    init_list, MallocMessageBuilder, ReaderOptions, SegmentArrayMessageReader,
};
use capnp::primitive_list;
use capnp::Error;

/// A message whose root is a list of two pointers, each naming a two-word
/// data list: reading everything dereferences 2 + 2 + 2 = 6 words.
fn two_child_message() -> Vec<Vec<u64>> {
    let mut mb = MallocMessageBuilder::new_default();
    let root = mb.init_root(2, true).unwrap();
    let child0 = init_list(
        mb.mut_arena(),
        PointerBuilder { segment: root.segment, word: root.offset },
        2,
        false,
    )
    .unwrap();
    let child1 = init_list(
        mb.mut_arena(),
        PointerBuilder { segment: root.segment, word: root.offset + 1 },
        2,
        false,
    )
    .unwrap();
    let c0 = primitive_list::Builder::new(child0);
    c0.set(mb.mut_arena(), 0, 100);
    c0.set(mb.mut_arena(), 1, 101);
    let c1 = primitive_list::Builder::new(child1);
    c1.set(mb.mut_arena(), 0, 200);
    c1.set(mb.mut_arena(), 1, 201);
    mb.get_segments_for_output()
}

/// A root list of one pointer, to a list of one pointer, to a two-word data
/// list: three levels of pointer chasing.
fn three_level_message() -> Vec<Vec<u64>> {
    let mut mb = MallocMessageBuilder::new_default();
    let root = mb.init_root(1, true).unwrap();
    let mid = init_list(
        mb.mut_arena(),
        PointerBuilder { segment: root.segment, word: root.offset },
        1,
        true,
    )
    .unwrap();
    let leaf = init_list(
        mb.mut_arena(),
        PointerBuilder { segment: mid.segment, word: mid.offset },
        2,
        false,
    )
    .unwrap();
    let l = primitive_list::Builder::new(leaf);
    l.set(mb.mut_arena(), 0, 7);
    l.set(mb.mut_arena(), 1, 9);
    mb.get_segments_for_output()
}

#[test]
fn traversal_budget_fails_whole_read_when_fail_fast() {
    let segments = two_child_message();
    let mut options = ReaderOptions::new();
    options.traversal_limit_in_words(3);
    let mut reader = SegmentArrayMessageReader::new(segments, options);
    // Root costs 2 of the 3 budgeted words.
    let root = reader.get_root(true).unwrap();
    assert_eq!(root.count, 2);
    // The first child needs 2 more: over budget, the read fails.
    let r = reader.follow_list_pointer(root.element_pointer(0), false);
    assert_eq!(r, Err(Error::TraversalLimitExceeded));
}

#[test]
fn traversal_budget_degrades_substructure_without_fail_fast() {
    let segments = two_child_message();
    let mut options = ReaderOptions::new();
    options.traversal_limit_in_words(4).fail_fast(false);
    let mut reader = SegmentArrayMessageReader::new(segments, options);
    let root = reader.get_root(true).unwrap();
    // The first child fits the remaining budget and reads normally.
    let l0 = reader.follow_list_pointer(root.element_pointer(0), false).unwrap();
    assert_eq!(l0.count, 2);
    let v0 = primitive_list::Reader::new(l0);
    assert_eq!(v0.get(&reader, 0), 100);
    assert_eq!(v0.get(&reader, 1), 101);
    // The second child is over budget: only it degrades to a default.
    let l1 = reader.follow_list_pointer(root.element_pointer(1), false).unwrap();
    assert_eq!(l1.count, 0);
    // Content read before the violation remains intact.
    assert_eq!(v0.get(&reader, 0), 100);
    assert_eq!(root.count, 2);
}

#[test]
fn whole_message_reads_within_budget() {
    let segments = two_child_message();
    let mut options = ReaderOptions::new();
    options.traversal_limit_in_words(6);
    let mut reader = SegmentArrayMessageReader::new(segments, options);
    let root = reader.get_root(true).unwrap();
    let l0 = reader.follow_list_pointer(root.element_pointer(0), false).unwrap();
    let l1 = reader.follow_list_pointer(root.element_pointer(1), false).unwrap();
    assert_eq!(primitive_list::Reader::new(l0).get(&reader, 1), 101);
    assert_eq!(primitive_list::Reader::new(l1).get(&reader, 0), 200);
}

#[test]
fn nesting_limit_fails_a_too_deep_chain() {
    let segments = three_level_message();
    let mut options = ReaderOptions::new();
    options.nesting_limit(2);
    let mut reader = SegmentArrayMessageReader::new(segments, options);
    let root = reader.get_root(true).unwrap();
    let mid = reader.follow_list_pointer(root.element_pointer(0), true).unwrap();
    // The third level exceeds the limit of two.
    let r = reader.follow_list_pointer(mid.element_pointer(0), false);
    assert_eq!(r, Err(Error::NestingLimitExceeded));
}

#[test]
fn nesting_limit_admits_a_chain_within_bound() {
    let segments = three_level_message();
    let mut options = ReaderOptions::new();
    options.nesting_limit(3);
    let mut reader = SegmentArrayMessageReader::new(segments, options);
    let root = reader.get_root(true).unwrap();
    let mid = reader.follow_list_pointer(root.element_pointer(0), true).unwrap();
    let leaf = reader.follow_list_pointer(mid.element_pointer(0), false).unwrap();
    let v = primitive_list::Reader::new(leaf);
    assert_eq!(v.get(&reader, 0), 7);
    assert_eq!(v.get(&reader, 1), 9);
}

#[test]
fn nesting_violation_degrades_without_fail_fast() {
    let segments = three_level_message();
    let mut options = ReaderOptions::new();
    options.nesting_limit(2).fail_fast(false);
    let mut reader = SegmentArrayMessageReader::new(segments, options);
    let root = reader.get_root(true).unwrap();
    let mid = reader.follow_list_pointer(root.element_pointer(0), true).unwrap();
    let leaf = reader.follow_list_pointer(mid.element_pointer(0), false).unwrap();
    assert_eq!(leaf.count, 0);
}

#[test]
fn element_kind_mismatch_is_malformed() {
    let segments = two_child_message();
    let mut reader = SegmentArrayMessageReader::new(segments, ReaderOptions::new());
    // The root is a pointer list; asking for a data list is malformed.
    assert_eq!(reader.get_root(false), Err(Error::MalformedMessage));
}
