//! Zero-copy binary message serialization core.
//!
//! A message is an ordered sequence of *segments*, each a contiguous buffer of
//! 8-byte words.  A builder allocates words out of a growing arena of segments
//! and never relocates data once an address has been handed out; a reader
//! walks caller-supplied segments under a traversal budget and a nesting
//! limit that defend against pointer-graph amplification and excessively deep
//! structures.  A buffered stream layer adapts arbitrary byte sources and
//! sinks to the word-oriented core.

use vstd::prelude::*;

pub mod arena;
pub mod io;
pub mod layout;
pub mod message;
pub mod primitive_list;

verus! {

/// Number of bytes in one word, the fixed addressing unit of the wire format.
pub const BYTES_PER_WORD: usize = 8;

/// An opaque, ownership-transferable handle to an external interface,
/// supplied by and handed back to an outer capability layer.  The core only
/// stores these in a message's capability table and resolves them by index;
/// what a handle means is the outer layer's business.
#[derive(Clone, Copy, Debug, PartialEq, Eq, Structural)]
pub struct ClientHook {
    /// Identity of the handle within the outer layer.
    pub token: u64,
}

/// Everything that can go wrong in the core, by category.
///
/// Ordinary stream failures (`EndOfData`) are recoverable and surfaced to the
/// caller.  `FixedCapacityOverflow` marks a caller usage error on an
/// array-backed stream; it is reported the same way on every call and does
/// not depend on any configuration.  The two limit errors guard against
/// adversarial input and are softened to default values when a reader is
/// configured with `fail_fast == false`, as is `MalformedMessage`.
/// `AllocationLimitExceeded` reports that a builder arena reached the fixed
/// bound this implementation places on total message size.
#[derive(Clone, Copy, Debug, PartialEq, Eq, Structural)]
pub enum Error {
    /// The byte source was exhausted before a minimum read was satisfied.
    EndOfData,
    /// An array-backed stream was asked to move past its fixed bound.
    FixedCapacityOverflow,
    /// The words dereferenced while reading exceeded the traversal budget.
    TraversalLimitExceeded,
    /// Pointer chasing went deeper than the configured nesting limit.
    NestingLimitExceeded,
    /// A pointer word did not decode to an in-bounds value of its kind.
    MalformedMessage,
    /// The builder arena would exceed the supported total message size.
    AllocationLimitExceeded,
}

} // verus!
