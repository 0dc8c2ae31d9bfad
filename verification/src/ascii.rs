//! Pieces of a `str` whose bytes are ASCII, and the character boundaries
//! that positions of the SMD grammar fall on.

use vstd::prelude::*;
use vstd::string::*;
use vstd::utf8::*;
use crate::smd::{ascii_span, span_text, Span};
use crate::text::on_char_start;

verus! {

/// The characters that ASCII bytes stand for, one for one.
pub open spec fn ascii_chars(b: Seq<u8>) -> Seq<char> {
    b.map_values(|x: u8| x as char)
}

/// Characters whose UTF-8 encoding is all ASCII bytes are those bytes.
pub proof fn lemma_encoded_ascii(cs: Seq<char>, b: Seq<u8>)
    requires
        encode_utf8(cs) == b,
        forall|k: int| 0 <= k < b.len() ==> #[trigger] b[k] < 128,
    ensures
        cs == ascii_chars(b),
    decreases cs.len(),
{
    if cs.len() == 0 {
        assert(ascii_chars(b) =~= cs);
    } else {
        let c = cs[0] as u32;
        char_is_scalar(cs[0]);
        let first = encode_scalar(c);
        assert(b == first + encode_utf8(cs.drop_first()));
        assert(b[0] == first[0]);
        if has_width_1_encoding(c) {
            assert((c & 0x7F) as u8 == c as u8 && (c as u8) as u32 == c) by (bit_vector)
                requires
                    c <= 0x7F,
            ;
            char_u32_cast(cs[0], c);
            assert(b.drop_first() =~= encode_utf8(cs.drop_first()));
            assert forall|k: int| 0 <= k < b.drop_first().len() implies #[trigger] b.drop_first()[k] < 128 by {
                assert(b.drop_first()[k] == b[k + 1]);
            }
            lemma_encoded_ascii(cs.drop_first(), b.drop_first());
            assert(cs =~= ascii_chars(b)) by {
                assert forall|k: int| 0 <= k < cs.len() implies cs[k] == ascii_chars(b)[k] by {
                    if k > 0 {
                        assert(cs[k] == cs.drop_first()[k - 1]);
                        assert(b[k] == b.drop_first()[k - 1]);
                    }
                }
            }
        } else if has_width_2_encoding(c) {
            assert(leading_byte_width_2(c) >= 0xC0) by (bit_vector);
        } else if has_width_3_encoding(c) {
            assert(leading_byte_width_3(c) >= 0xE0) by (bit_vector);
        } else {
            assert(leading_byte_width_4(c) >= 0xF0) by (bit_vector);
        }
    }
}

/// In valid UTF-8, the position after an ASCII byte starts a character.
pub proof fn lemma_boundary_after_ascii(b: Seq<u8>, k: int)
    requires
        valid_utf8(b),
        0 < k <= b.len(),
        b[k - 1] < 128,
    ensures
        is_char_boundary(b, k),
    decreases b.len(),
{
    if k == b.len() {
        is_char_boundary_start_end_of_seq(b);
    } else {
        let l = length_of_first_scalar(b);
        let rest = pop_first_scalar(b);
        assert(valid_first_scalar(b) && valid_utf8(rest));
        if k - 1 == 0 {
            assert(l == 1);
            is_char_boundary_start_end_of_seq(rest);
            assert(is_char_boundary(rest, 0));
        } else if k - 1 < l {
            assert(is_continuation_byte(b[k - 1]));
        } else {
            assert(rest[k - l - 1] == b[k - 1]);
            lemma_boundary_after_ascii(rest, k - l);
        }
    }
}

/// Every character start of the grammar is a character boundary of valid
/// UTF-8.
pub proof fn lemma_char_start_boundary(b: Seq<u8>, p: int)
    requires
        valid_utf8(b),
        on_char_start(b, p),
    ensures
        is_char_boundary(b, p),
{
    is_char_boundary_start_end_of_seq(b);
    if p == 0 || p == b.len() {
    } else if 0 < p <= b.len() && b[p - 1] < 128 {
        lemma_boundary_after_ascii(b, p);
    } else {
        is_char_boundary_iff_not_is_continuation_byte(b, p);
    }
}

/// The text of an ASCII span of `file`, as a `String`.
pub fn span_string(file: &str, sp: Span) -> (r: String)
    requires
        ascii_span(file.spec_bytes(), sp),
    ensures
        r@ == ascii_chars(span_text(file.spec_bytes(), sp)),
{
    let ghost b = file.spec_bytes();
    proof {
        encode_utf8_valid_utf8(file@);
        is_char_boundary_iff_not_is_continuation_byte(b, sp.start as int);
    }
    let (_, tail) = file.split_at(sp.start);
    proof {
        let tb = tail.spec_bytes();
        encode_utf8_valid_utf8(tail@);
        assert(tb[sp.end - sp.start - 1] == b[sp.end - 1]);
        lemma_boundary_after_ascii(tb, sp.end - sp.start);
    }
    let (mid, _) = tail.split_at(sp.end - sp.start);
    proof {
        let mb = mid.spec_bytes();
        assert(mb =~= span_text(b, sp));
        assert forall|k: int| 0 <= k < mb.len() implies #[trigger] mb[k] < 128 by {
            assert(mb[k] == b[sp.start + k]);
        }
        lemma_encoded_ascii(mid@, mb);
    }
    mid.to_owned()
}

} // verus!
