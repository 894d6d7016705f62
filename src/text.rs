//! Cutting a `&str` at byte offsets that the scanner can reach.
use vstd::prelude::*;
use vstd::string::*;
use vstd::utf8::*;

verus! {

/// An offset whose neighbourhood shows it is the start of a character:
/// either end of the bytes, or next to a one-byte (ASCII) character.
pub open spec fn ascii_edge(bytes: Seq<u8>, e: int) -> bool {
    ||| e == 0
    ||| e == bytes.len()
    ||| (0 <= e < bytes.len() && bytes[e] < 0x80)
    ||| (0 < e <= bytes.len() && bytes[e - 1] < 0x80)
}

proof fn lemma_after_ascii_is_boundary(bytes: Seq<u8>, k: int)
    requires
        valid_utf8(bytes),
        0 < k <= bytes.len(),
        bytes[k - 1] < 0x80,
    ensures
        is_char_boundary(bytes, k),
    decreases bytes.len(),
{
    let first = length_of_first_scalar(bytes);
    let rest = pop_first_scalar(bytes);
    assert(valid_first_scalar(bytes) && valid_utf8(rest));
    if k < first {
        assert(1 <= k - 1);
        assert(is_continuation_byte(bytes[k - 1]));
        assert(false);
    } else if k == first {
        assert(is_char_boundary(rest, 0));
    } else {
        assert(rest[k - first - 1] == bytes[k - 1]);
        lemma_after_ascii_is_boundary(rest, k - first);
    }
}

pub proof fn lemma_ascii_edge_is_boundary(bytes: Seq<u8>, e: int)
    requires
        valid_utf8(bytes),
        ascii_edge(bytes, e),
    ensures
        is_char_boundary(bytes, e),
{
    if e == 0 || e == bytes.len() {
        is_char_boundary_start_end_of_seq(bytes);
    } else if 0 <= e < bytes.len() && bytes[e] < 0x80 {
        is_char_boundary_iff_not_is_continuation_byte(bytes, e);
    } else {
        lemma_after_ascii_is_boundary(bytes, e);
    }
}

/// The bytes of `src` from `start` up to `end`, as a borrowed `&str`.
pub fn byte_range<'a>(src: &'a str, start: usize, end: usize) -> (r: &'a str)
    requires
        start <= end <= src.spec_bytes().len(),
        is_char_boundary(src.spec_bytes(), start as int),
        ascii_edge(src.spec_bytes(), end as int),
    ensures
        r.spec_bytes() == src.spec_bytes().subrange(start as int, end as int),
{
    let ghost bytes = src.spec_bytes();
    proof {
        encode_utf8_valid_utf8(src@);
    }
    let (_, tail) = src.split_at(start);
    let ghost tb = tail.spec_bytes();
    proof {
        encode_utf8_valid_utf8(tail@);
        assert(tb =~= bytes.subrange(start as int, bytes.len() as int));
        let k = (end - start) as int;
        if end < bytes.len() && bytes[end as int] < 0x80 {
            assert(tb[k] == bytes[end as int]);
        }
        if start < end <= bytes.len() && bytes[end - 1] < 0x80 {
            assert(tb[k - 1] == bytes[end - 1]);
        }
        lemma_ascii_edge_is_boundary(tb, k);
    }
    let (piece, _) = tail.split_at(end - start);
    proof {
        assert(piece.spec_bytes() =~= bytes.subrange(start as int, end as int));
    }
    piece
}

} // verus!
