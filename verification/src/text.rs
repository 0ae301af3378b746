//! UTF-8 text carved out of validated byte sequences.

use vstd::prelude::*;
use vstd::utf8::*;
use vstd::string::StringSliceAdditionalSpecFns;

verus! {

/// `core::str::from_utf8`: the bytes as a string exactly when they are valid
/// UTF-8. The claim rests on the documentation of `from_utf8`, with validity
/// stated by vstd's `valid_utf8`.
#[verifier::external_body]
pub(crate) fn str_from_utf8<'a>(bytes: &'a [u8]) -> (r: Option<&'a str>)
    ensures
        r is Some <==> valid_utf8(bytes@),
        r matches Some(s) ==> s.spec_bytes() == bytes@,
{
    core::str::from_utf8(bytes).ok()
}

/// Index `i` of `s` lies at an end of `s` or next to an ASCII byte.
pub open spec fn ascii_edge(s: Seq<u8>, i: int) -> bool {
    ||| i == 0
    ||| i == s.len()
    ||| (0 <= i < s.len() && s[i] < 0x80)
    ||| (0 < i <= s.len() && s[i - 1] < 0x80)
}

/// In valid UTF-8, the byte after an ASCII byte starts a character.
proof fn lemma_after_ascii(s: Seq<u8>, i: int)
    requires
        valid_utf8(s),
        0 <= i,
        i + 1 < s.len(),
        s[i] < 0x80,
    ensures
        !is_continuation_byte(s[i + 1]),
{
    is_char_boundary_iff_not_is_continuation_byte(s, i);
    valid_utf8_split(s, i);
    let t = s.subrange(i, s.len() as int);
    assert(valid_utf8(t));
    assert(t[0] == s[i]);
    let r = pop_first_scalar(t);
    assert(r =~= s.subrange(i + 1, s.len() as int));
    assert(valid_utf8(r));
    assert(r[0] == s[i + 1]);
}

proof fn lemma_ascii_edge_is_boundary(s: Seq<u8>, i: int)
    requires
        valid_utf8(s),
        0 <= i <= s.len(),
        ascii_edge(s, i),
    ensures
        is_char_boundary(s, i),
{
    is_char_boundary_start_end_of_seq(s);
    if 0 < i < s.len() {
        if s[i] >= 0x80 {
            lemma_after_ascii(s, i - 1);
        }
        is_char_boundary_iff_not_is_continuation_byte(s, i);
    }
}

/// `text[start..end]`, for ends that lie next to ASCII bytes or at the ends.
pub fn substring<'a>(text: &'a str, start: usize, end: usize) -> (r: &'a str)
    requires
        start <= end <= text.spec_bytes().len(),
        ascii_edge(text.spec_bytes(), start as int),
        ascii_edge(text.spec_bytes(), end as int),
    ensures
        r.spec_bytes() == text.spec_bytes().subrange(start as int, end as int),
{
    let ghost s = text.spec_bytes();
    proof {
        encode_utf8_valid_utf8(text@);
        lemma_ascii_edge_is_boundary(s, start as int);
        valid_utf8_split(s, start as int);
    }
    let (_, rest) = text.split_at(start);
    let ghost t = rest.spec_bytes();
    proof {
        assert(t =~= s.subrange(start as int, s.len() as int));
        assert(valid_utf8(t));
        let k = end - start;
        if k > 0 && k < t.len() {
            if s[end as int] < 0x80 {
                assert(t[k] == s[end as int]);
            } else {
                assert(t[k - 1] == s[end - 1]);
            }
        }
        assert(ascii_edge(t, k));
        lemma_ascii_edge_is_boundary(t, k);
    }
    let (piece, _) = rest.split_at(end - start);
    proof {
        assert(piece.spec_bytes() =~= s.subrange(start as int, end as int));
    }
    piece
}

/// Bytes that are all ASCII are valid UTF-8.
pub proof fn lemma_ascii_valid_utf8(s: Seq<u8>)
    requires
        forall|i: int| 0 <= i < s.len() ==> #[trigger] s[i] < 0x80,
    ensures
        valid_utf8(s),
    decreases s.len(),
{
    if s.len() > 0 {
        let b = s[0];
        assert(b & 0x7f == b) by (bit_vector)
            requires
                b < 0x80,
        ;
        let rest = s.drop_first();
        assert(pop_first_scalar(s) =~= rest);
        lemma_ascii_valid_utf8(rest);
    }
}

} // verus!
