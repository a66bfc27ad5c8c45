//! The integer side of `Embedding`: the dimension check before a
//! comparison, and the packed little-endian float32 layout. The vector math
//! itself (norms, cosine similarity) is floating point and runs around these.
use vstd::prelude::*;
use crate::error::{InferError, inference_error, is_inference_error};
use crate::text::{decimal, push_decimal};

verus! {

/// Two embeddings can only be compared when their dimensions agree.
pub fn check_same_dimensions(left: usize, right: usize) -> (r: Result<(), InferError>)
    ensures
        left == right ==> r is Ok,
        left != right ==> (r matches Err(e) && is_inference_error(e,
            "cannot compare embeddings of different dimensions: "@ + decimal(left as nat) + " vs "@
                + decimal(right as nat))),
{
    if left != right {
        let mut m = String::from_str("cannot compare embeddings of different dimensions: ");
        push_decimal(&mut m, left as u64);
        m.append(" vs ");
        push_decimal(&mut m, right as u64);
        return Err(inference_error(m));
    }
    Ok(())
}

/// The four bytes of a 32-bit word, least significant first.
pub open spec fn le_bytes(word: u32) -> Seq<u8> {
    seq![
        (word % 256) as u8,
        ((word / 256) % 256) as u8,
        ((word / 65536) % 256) as u8,
        (word / 16777216) as u8,
    ]
}

/// The little-endian bytes of a sequence of 32-bit words, word after word.
pub open spec fn packed_words(words: Seq<u32>) -> Seq<u8>
    decreases words.len(),
{
    if words.len() == 0 {
        seq![]
    } else {
        packed_words(words.drop_last()) + le_bytes(words.last())
    }
}

/// Packs 32-bit words (the bit patterns of float32 coordinates) as
/// little-endian bytes, four per word — the layout of PHP's `pack('g*', ...)`.
pub fn pack_le(words: &Vec<u32>) -> (out: Vec<u8>)
    requires
        words@.len() * 4 <= usize::MAX,
    ensures
        out@ == packed_words(words@),
        out@.len() == 4 * words@.len(),
{
    let mut out: Vec<u8> = Vec::new();
    let mut i: usize = 0;
    while i < words.len()
        invariant
            i <= words@.len(),
            out@ == packed_words(words@.take(i as int)),
            out@.len() == 4 * i,
        decreases words@.len() - i,
    {
        let w = words[i];
        out.push((w % 256) as u8);
        out.push(((w / 256) % 256) as u8);
        out.push(((w / 65536) % 256) as u8);
        out.push((w / 16777216) as u8);
        proof {
            assert(words@.take(i + 1).drop_last() =~= words@.take(i as int));
        }
        i = i + 1;
        assert(out@ =~= packed_words(words@.take(i as int)));
    }
    assert(words@.take(i as int) =~= words@);
    out
}

} // verus!
