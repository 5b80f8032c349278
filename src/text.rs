//! Borrowed slices of the input text, cut at byte positions.
use vstd::prelude::*;
use vstd::string::StringSliceAdditionalSpecFns;
use vstd::utf8::*;

verus! {

broadcast use vstd::utf8::encode_utf8_valid_utf8;

/// The UTF-8 bytes of a string slice.
pub open spec fn text(s: &str) -> Seq<u8> {
    s.spec_bytes()
}

/// A position directly after an ASCII byte starts a character.
proof fn lemma_boundary_after_ascii(bytes: Seq<u8>, i: int)
    requires
        valid_utf8(bytes),
        0 < i <= bytes.len(),
        bytes[i - 1] < 0x80,
    ensures
        is_char_boundary(bytes, i),
    decreases bytes.len(),
{
    reveal_with_fuel(is_char_boundary, 2);
    let n = length_of_first_scalar(bytes);
    let tail = pop_first_scalar(bytes);
    assert(valid_first_scalar(bytes) && valid_utf8(tail));
    assert(1 <= n <= bytes.len());
    if i - 1 < n {
        assert(i == 1);
    } else {
        assert(tail[i - n - 1] == bytes[i - 1]);
        lemma_boundary_after_ascii(tail, i - n);
    }
}

/// The slice of `s` between byte positions `start` and `end`; both must
/// border on an ASCII byte (or on an end of the text).
pub fn slice<'a>(s: &'a str, start: usize, end: usize) -> (r: &'a str)
    requires
        start <= end <= text(s).len(),
        start == 0 || text(s)[start - 1] < 0x80,
        end == text(s).len() || text(s)[end as int] < 0x80,
    ensures
        text(r) == text(s).subrange(start as int, end as int),
{
    proof {
        let b = text(s);
        is_char_boundary_start_end_of_seq(b);
        if end < b.len() {
            is_char_boundary_iff_not_is_continuation_byte(b, end as int);
        }
    }
    let (head, _) = s.split_at(end);
    proof {
        let h = text(head);
        is_char_boundary_start_end_of_seq(h);
        if start > 0 {
            assert(h[start - 1] == text(s)[start - 1]);
            lemma_boundary_after_ascii(h, start as int);
        }
    }
    let (_, r) = head.split_at(start);
    proof {
        assert(text(r) =~= text(s).subrange(start as int, end as int));
    }
    r
}

} // verus!
