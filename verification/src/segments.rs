//! The segments of a message under construction.
//!
//! The segments are those of an arena of the `capnp` crate. Nothing in this
//! file is proved: each function here hands one request on to that crate,
//! and its contract says what the crate's source shows of the outcome.

use crate::objs::StructSize;
use capnp::message::HeapAllocator;
use capnp::private::arena::{BuilderArena, BuilderArenaImpl};
use capnp::private::layout::{PointerBuilder, StructBuilder};
use vstd::prelude::*;

verus! {

/// The arena of a message under construction: a
/// `capnp::private::arena::BuilderArenaImpl` over a
/// `capnp::message::HeapAllocator`.
#[verifier::external_body]
pub struct Segments {
    inner: BuilderArenaImpl<HeapAllocator>,
}

/// A struct of a message under construction, open for writing.
#[verifier::external_type_specification]
#[verifier::external_body]
pub struct ExStructBuilder<'a>(StructBuilder<'a>);

/// The bytes in use in each segment of the arena, in the order of the
/// segments.
pub uninterp spec fn segment_sizes(arena: Segments) -> Seq<nat>;

/// The message of the arena in the stream format: the table of its
/// segments, then the segments.
pub uninterp spec fn message_bytes(arena: Segments) -> Seq<u8>;

/// The number of pointers in the pointer section of the struct.
pub uninterp spec fn pointer_count(builder: StructBuilder) -> nat;

/// No segment of `before` is missing from `after`, and none has shrunk.
pub open spec fn grown(before: Seq<nat>, after: Seq<nat>) -> bool {
    &&& before.len() <= after.len()
    &&& forall|i: int| 0 <= i < before.len() ==> before[i] <= #[trigger] after[i]
}

/// The bytes that the given segments have in use, taken together.
pub open spec fn total(sizes: Seq<nat>) -> nat
    decreases sizes.len(),
{
    if sizes.len() == 0 {
        0
    } else {
        total(sizes.drop_last()) + sizes.last()
    }
}

/// `capnp::serialize::write_message_segments_to_words`, on what
/// `BuilderArenaImpl::get_segments_for_output` gives out: the message in the
/// stream format. The table of the segments takes one word for every two
/// segments, rounded down, and one more; after it comes what is in use of
/// each segment.
#[verifier::external_body]
pub(crate) fn framed(arena: &Segments) -> (bytes: Vec<u8>)
    requires
        segment_sizes(*arena).len() > 0,
    ensures
        bytes@ == message_bytes(*arena),
        bytes@.len() == 8 * (segment_sizes(*arena).len() / 2 + 1) + total(segment_sizes(*arena)),
{
    capnp::serialize::write_message_segments_to_words(&arena.inner.get_segments_for_output())
}

/// `BuilderArenaImpl::new`, over `HeapAllocator::new`: an arena that has no
/// segment yet.
#[verifier::external_body]
pub(crate) fn new_segments() -> (arena: Segments)
    ensures
        segment_sizes(arena).len() == 0,
{
    Segments { inner: BuilderArenaImpl::new(HeapAllocator::new()) }
}

/// `BuilderArenaImpl::len`: the number of segments.
#[verifier::external_body]
pub(crate) fn segment_count(arena: &Segments) -> (n: usize)
    ensures
        n == segment_sizes(*arena).len(),
{
    arena.inner.len()
}

/// `BuilderArenaImpl::get_segments_for_output`, for the length of one of the
/// segments that it gives out: each is the part in use of one segment.
#[verifier::external_body]
pub(crate) fn segment_size(arena: &Segments, i: usize) -> (n: usize)
    requires
        i < segment_sizes(*arena).len(),
    ensures
        n == segment_sizes(*arena)[i as int],
{
    arena.inner.get_segments_for_output()[i].len()
}

/// `BuilderArenaImpl::allocate_segment`: adds a segment with room for at
/// least `minimum_size` words, none of them in use.
#[verifier::external_body]
pub(crate) fn allocate_segment(arena: &mut Segments, minimum_size: u32) -> (r: Result<(), String>)
    requires
        minimum_size <= 0x0fff_ffff,
    ensures
        r is Ok ==> segment_sizes(*final(arena)) == segment_sizes(*old(arena)).push(0),
{
    match arena.inner.allocate_segment(minimum_size) {
        Ok(()) => Ok(()),
        Err(e) => Err(format!("{}", e)),
    }
}

/// `BuilderArena::allocate` of a `BuilderArenaImpl`: takes `amount` words
/// into use at the end of what is in use of the segment, and says at which
/// word they start; or, where the segment has not that much room left,
/// changes nothing.
#[verifier::external_body]
pub(crate) fn allocate(arena: &mut Segments, segment_id: u32, amount: u32) -> (at: Option<u32>)
    requires
        segment_id < segment_sizes(*old(arena)).len(),
    ensures
        match at {
            Some(word) => {
                &&& 8 * word == segment_sizes(*old(arena))[segment_id as int]
                &&& segment_sizes(*final(arena)) == segment_sizes(*old(arena)).update(
                    segment_id as int,
                    (segment_sizes(*old(arena))[segment_id as int] + 8 * amount) as nat,
                )
            },
            None => segment_sizes(*final(arena)) == segment_sizes(*old(arena)),
        },
{
    BuilderArena::allocate(&mut arena.inner, segment_id, amount)
}

/// `PointerBuilder::get_struct`, on the pointer that `PointerBuilder::get_root`
/// makes of the first word of the first segment
/// (`BuilderArena::get_segment_mut`): the struct that the root pointer
/// points to, made anew where the pointer is null, and moved to a larger
/// place where it is smaller than `size`. Its pointer section has at least
/// the pointers of `size`. What is in use of a segment stays in use.
#[verifier::external_body]
pub(crate) fn root_struct<'a>(arena: &'a mut Segments, size: StructSize) -> (r: Result<
    StructBuilder<'a>,
    String,
>)
    requires
        segment_sizes(*old(arena)).len() > 0,
        segment_sizes(*old(arena))[0] >= 8,
    ensures
        grown(segment_sizes(*old(arena)), segment_sizes(*final(arena))),
        r matches Ok(builder) ==> pointer_count(builder) >= size.pointers,
{
    let (start, _) = BuilderArena::get_segment_mut(&mut arena.inner, 0);
    let size = capnp::private::layout::StructSize { data: size.data, pointers: size.pointers };
    match PointerBuilder::get_root(&mut arena.inner, 0, start).get_struct(size, None) {
        Ok(builder) => Ok(builder),
        Err(e) => Err(format!("{}", e)),
    }
}

/// `PointerBuilder::init_struct`, on the pointer that
/// `PointerBuilder::get_root` makes of the first word of the first segment
/// (`BuilderArena::get_segment_mut`): a new struct of the size `size`, which
/// the root pointer is set to. What is in use of a segment stays in use.
#[verifier::external_body]
pub(crate) fn init_root<'a>(arena: &'a mut Segments, size: StructSize) -> (builder: StructBuilder<
    'a,
>)
    requires
        segment_sizes(*old(arena)).len() > 0,
        segment_sizes(*old(arena))[0] >= 8,
    ensures
        grown(segment_sizes(*old(arena)), segment_sizes(*final(arena))),
        pointer_count(builder) == size.pointers,
{
    let (start, _) = BuilderArena::get_segment_mut(&mut arena.inner, 0);
    let size = capnp::private::layout::StructSize { data: size.data, pointers: size.pointers };
    PointerBuilder::get_root(&mut arena.inner, 0, start).init_struct(size)
}

/// `PointerBuilder::get_struct`, on the pointer at place `index` of the
/// pointer section of `parent` (`StructBuilder::get_pointer_field`): the
/// struct that the pointer points to, made anew where the pointer is null,
/// and moved to a larger place where it is smaller than `size`. Its pointer
/// section has at least the pointers of `size`.
#[verifier::external_body]
pub(crate) fn child_struct<'a>(parent: StructBuilder<'a>, index: usize, size: StructSize) -> (r:
    Result<StructBuilder<'a>, String>)
    requires
        index < pointer_count(parent),
    ensures
        r matches Ok(builder) ==> pointer_count(builder) >= size.pointers,
{
    let size = capnp::private::layout::StructSize { data: size.data, pointers: size.pointers };
    match parent.get_pointer_field(index).get_struct(size, None) {
        Ok(builder) => Ok(builder),
        Err(e) => Err(format!("{}", e)),
    }
}

} // verus!
