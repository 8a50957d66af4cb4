//! The layouts of the values whose length is written before them.

use vstd::prelude::*;
use crate::net::packets::error::DecompressCauseView;
use crate::net::packets::gzip::{gunzip_of, gzip_of};
use crate::net::packets::scalar::{lemma_u32_round_trip, u32_from_le, u32_to_le};

verus! {

/// A payload behind the four bytes that give its length.
pub open spec fn prefixed(payload: Seq<u8>) -> Seq<u8> {
    u32_to_le(payload.len() as u32) + payload
}

/// Consecutive groups of three bytes, each one colour.
pub open spec fn triplets_of(raw: Seq<u8>) -> Seq<(u8, u8, u8)> {
    Seq::new((raw.len() / 3) as nat, |i: int| (raw[3 * i], raw[3 * i + 1], raw[3 * i + 2]))
}

/// The colours one after the other, three bytes each.
pub open spec fn bytes_of_triplets(colours: Seq<(u8, u8, u8)>) -> Seq<u8> {
    Seq::new(
        3 * colours.len(),
        |i: int|
            if i % 3 == 0 {
                colours[i / 3].0
            } else if i % 3 == 1 {
                colours[i / 3].1
            } else {
                colours[i / 3].2
            },
    )
}

/// The colours that a gzip stream holds; `None` where it cannot be unpacked
/// or unpacks to a length that is no multiple of three.
pub open spec fn rgb_decoding(blob: Seq<u8>) -> Option<Seq<(u8, u8, u8)>> {
    match gunzip_of(blob) {
        Some(raw) => if raw.len() % 3 == 0 {
            Some(triplets_of(raw))
        } else {
            None
        },
        None => None,
    }
}

/// Why a gzip stream holds no colours, where `rgb_decoding` gives none: it
/// cannot be unpacked, or it unpacks to a number of bytes that is no multiple
/// of three.
pub open spec fn rgb_failure(blob: Seq<u8>) -> DecompressCauseView {
    match gunzip_of(blob) {
        Some(raw) => DecompressCauseView::Ragged(raw.len()),
        None => DecompressCauseView::Gzip,
    }
}

/// Whether the colours can be written: the compressor gives a stream for
/// their flat bytes, and its length fits in four bytes.
pub open spec fn rgb_fits(colours: Seq<(u8, u8, u8)>) -> bool {
    gzip_of(bytes_of_triplets(colours)) matches Some(stream) && stream.len() <= u32::MAX
}

/// The gzip stream of the colours: what the compressor gives for their flat
/// bytes. Where it gives none, the colours cannot be written, and this is empty.
pub open spec fn rgb_encoding(colours: Seq<(u8, u8, u8)>) -> Seq<u8> {
    match gzip_of(bytes_of_triplets(colours)) {
        Some(stream) => stream,
        None => Seq::empty(),
    }
}

/// Grouping the flat bytes of colours gives the colours back.
pub proof fn lemma_triplets_round_trip(colours: Seq<(u8, u8, u8)>)
    ensures
        bytes_of_triplets(colours).len() == 3 * colours.len(),
        triplets_of(bytes_of_triplets(colours)) == colours,
{
    assert(triplets_of(bytes_of_triplets(colours)) =~= colours);
}

/// The views of the blocks of an array.
pub open spec fn blocks_of(blocks: Seq<Vec<u8>>) -> Seq<Seq<u8>> {
    Seq::new(blocks.len(), |i: int| blocks[i]@)
}

/// One block of an array behind the four bytes that give its length.
pub open spec fn arr_dyn_item(block: Seq<u8>) -> Seq<u8> {
    prefixed(block)
}

/// The blocks that `bytes` hold, each behind its own length; `None` where a
/// length or a block is cut short.
pub open spec fn arr_dyn_decoding(bytes: Seq<u8>) -> Option<Seq<Seq<u8>>>
    decreases bytes.len(),
{
    if bytes.len() == 0 {
        Some(Seq::empty())
    } else if bytes.len() < 4 {
        None
    } else {
        let size = u32_from_le(bytes.take(4)) as int;
        let rest = bytes.skip(4);
        if size > rest.len() {
            None
        } else {
            match arr_dyn_decoding(rest.skip(size)) {
                Some(tail) => Some(seq![rest.take(size)] + tail),
                None => None,
            }
        }
    }
}

/// The blocks one after the other, each behind its own length.
pub open spec fn arr_dyn_encoding(blocks: Seq<Seq<u8>>) -> Seq<u8>
    decreases blocks.len(),
{
    if blocks.len() == 0 {
        Seq::empty()
    } else {
        arr_dyn_item(blocks[0]) + arr_dyn_encoding(blocks.skip(1))
    }
}

/// Whether every block is short enough for its length to be written.
pub open spec fn blocks_fit(blocks: Seq<Seq<u8>>) -> bool {
    forall|i: int| 0 <= i < blocks.len() ==> (#[trigger] blocks[i]).len() <= u32::MAX
}

/// The blocks of `size` bytes each that `bytes` hold; `None` where the length
/// of `bytes` is no multiple of `size`.
pub open spec fn arr_fixed_decoding(bytes: Seq<u8>, size: nat) -> Option<Seq<Seq<u8>>>
    decreases bytes.len(),
{
    if bytes.len() == 0 {
        Some(Seq::empty())
    } else if size == 0 || bytes.len() < size {
        None
    } else {
        match arr_fixed_decoding(bytes.skip(size as int), size) {
            Some(tail) => Some(seq![bytes.take(size as int)] + tail),
            None => None,
        }
    }
}

/// The blocks one after the other, with nothing between them.
pub open spec fn arr_fixed_encoding(blocks: Seq<Seq<u8>>) -> Seq<u8>
    decreases blocks.len(),
{
    if blocks.len() == 0 {
        Seq::empty()
    } else {
        blocks[0] + arr_fixed_encoding(blocks.skip(1))
    }
}

/// Whether `n` is a multiple of `size`; only 0 is a multiple of 0.
pub open spec fn is_multiple(n: nat, size: nat) -> bool {
    if size == 0 {
        n == 0
    } else {
        n % size == 0
    }
}

/// A run of bytes splits into blocks of `size` exactly where its length is a
/// multiple of `size`.
pub proof fn lemma_arr_fixed_multiple(bytes: Seq<u8>, size: nat)
    ensures
        arr_fixed_decoding(bytes, size) is Some <==> is_multiple(bytes.len(), size),
    decreases bytes.len(),
{
    if bytes.len() != 0 && size != 0 {
        if bytes.len() >= size {
            lemma_arr_fixed_multiple(bytes.skip(size as int), size);
            assert(bytes.len() % size == (bytes.len() - size) % (size as int)) by {
                vstd::arithmetic::div_mod::lemma_mod_sub_multiples_vanish(
                    bytes.len() as int,
                    size as int,
                );
            }
        } else {
            assert(bytes.len() % size == bytes.len()) by {
                vstd::arithmetic::div_mod::lemma_small_mod(bytes.len(), size);
            }
        }
    }
}

/// Adding a block at the end of an array adds its item at the end of the layout.
pub proof fn lemma_arr_dyn_encoding_push(blocks: Seq<Seq<u8>>, block: Seq<u8>)
    ensures
        arr_dyn_encoding(blocks.push(block)) == arr_dyn_encoding(blocks) + arr_dyn_item(block),
    decreases blocks.len(),
{
    if blocks.len() == 0 {
        assert(blocks.push(block).skip(1) =~= Seq::<Seq<u8>>::empty());
        assert(arr_dyn_encoding(blocks.push(block).skip(1)) =~= Seq::<u8>::empty());
        assert(arr_dyn_encoding(blocks.push(block)) =~= arr_dyn_item(block));
        assert(arr_dyn_encoding(blocks) + arr_dyn_item(block) =~= arr_dyn_item(block));
    } else {
        lemma_arr_dyn_encoding_push(blocks.skip(1), block);
        assert(blocks.push(block).skip(1) =~= blocks.skip(1).push(block));
        assert(arr_dyn_encoding(blocks.push(block)) =~= arr_dyn_encoding(blocks) + arr_dyn_item(
            block,
        ));
    }
}

/// Adding a block at the end of an array adds it at the end of the layout.
pub proof fn lemma_arr_fixed_encoding_push(blocks: Seq<Seq<u8>>, block: Seq<u8>)
    ensures
        arr_fixed_encoding(blocks.push(block)) == arr_fixed_encoding(blocks) + block,
    decreases blocks.len(),
{
    if blocks.len() == 0 {
        assert(blocks.push(block).skip(1) =~= Seq::<Seq<u8>>::empty());
        assert(arr_fixed_encoding(blocks.push(block).skip(1)) =~= Seq::<u8>::empty());
        assert(arr_fixed_encoding(blocks.push(block)) =~= block);
        assert(arr_fixed_encoding(blocks) + block =~= block);
    } else {
        lemma_arr_fixed_encoding_push(blocks.skip(1), block);
        assert(blocks.push(block).skip(1) =~= blocks.skip(1).push(block));
        assert(arr_fixed_encoding(blocks.push(block)) =~= arr_fixed_encoding(blocks) + block);
    }
}

/// An array whose blocks fit is read back from its layout unchanged.
pub proof fn lemma_arr_dyn_round_trip(blocks: Seq<Seq<u8>>)
    requires
        blocks_fit(blocks),
    ensures
        arr_dyn_decoding(arr_dyn_encoding(blocks)) == Some(blocks),
    decreases blocks.len(),
{
    if blocks.len() == 0 {
        assert(blocks =~= Seq::<Seq<u8>>::empty());
    } else {
        let first = blocks[0];
        let tail = arr_dyn_encoding(blocks.skip(1));
        let bytes = arr_dyn_encoding(blocks);
        lemma_arr_dyn_round_trip(blocks.skip(1));
        lemma_u32_round_trip(first.len() as u32);
        assert(bytes.take(4) =~= u32_to_le(first.len() as u32));
        assert(bytes.skip(4) =~= first + tail);
        assert(bytes.skip(4).take(first.len() as int) =~= first);
        assert(bytes.skip(4).skip(first.len() as int) =~= tail);
        assert(seq![first] + blocks.skip(1) =~= blocks);
    }
}

/// An array of blocks of one size, none of them empty, is read back from its
/// layout unchanged.
pub proof fn lemma_arr_fixed_round_trip(blocks: Seq<Seq<u8>>, size: nat)
    requires
        size > 0,
        forall|i: int| 0 <= i < blocks.len() ==> (#[trigger] blocks[i]).len() == size,
    ensures
        arr_fixed_decoding(arr_fixed_encoding(blocks), size) == Some(blocks),
    decreases blocks.len(),
{
    if blocks.len() == 0 {
        assert(blocks =~= Seq::<Seq<u8>>::empty());
    } else {
        let first = blocks[0];
        let tail = arr_fixed_encoding(blocks.skip(1));
        let bytes = arr_fixed_encoding(blocks);
        lemma_arr_fixed_round_trip(blocks.skip(1), size);
        assert(bytes.take(size as int) =~= first);
        assert(bytes.skip(size as int) =~= tail);
        assert(seq![first] + blocks.skip(1) =~= blocks);
    }
}

} // verus!
