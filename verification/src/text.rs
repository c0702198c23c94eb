//! Values that travel as text, and the messages that echo them.

use crate::decimal::{parse_decimal, parse_decimal_u128};
use crate::response::ErrorResponse;
use vstd::prelude::*;
use vstd::string::StringSliceAdditionalSpecFns;
use vstd::utf8::{decode_utf8, encode_utf8, is_char_boundary};

verus! {

/// The rejected value is echoed back to help debugging, but it ends up in the
/// `grpc-message` header, which the peer's header-list limit applies to.
pub const MAX_ECHOED_VALUE_LENGTH: usize = 64;

/// The greatest character boundary of `bytes` at or below `i`.
pub open spec fn boundary_at_or_below(bytes: Seq<u8>, i: int) -> int
    decreases i,
{
    if i <= 0 {
        0
    } else if is_char_boundary(bytes, i) {
        i
    } else {
        boundary_at_or_below(bytes, i - 1)
    }
}

/// `value` as it is echoed: whole if its UTF-8 encoding takes at most
/// `MAX_ECHOED_VALUE_LENGTH` bytes, else the longest run of whole characters
/// from its start that fits in them, followed by an ellipsis.
pub open spec fn truncated(value: Seq<char>) -> Seq<char> {
    let bytes = encode_utf8(value);
    if bytes.len() <= MAX_ECHOED_VALUE_LENGTH {
        value
    } else {
        decode_utf8(bytes.take(boundary_at_or_below(bytes, MAX_ECHOED_VALUE_LENGTH as int))) + seq![
            '\u{2026}',
        ]
    }
}

/// The boundary found below `i` is a character boundary between 0 and `i`.
proof fn lemma_boundary_at_or_below(bytes: Seq<u8>, i: int)
    requires
        vstd::utf8::valid_utf8(bytes),
        0 <= i,
    ensures
        0 <= boundary_at_or_below(bytes, i) <= i,
        is_char_boundary(bytes, boundary_at_or_below(bytes, i)),
    decreases i,
{
    vstd::utf8::is_char_boundary_start_end_of_seq(bytes);
    if i > 0 && !is_char_boundary(bytes, i) {
        lemma_boundary_at_or_below(bytes, i - 1);
    }
}

/// Encoding a concatenation encodes each part in turn.
proof fn lemma_encode_utf8_concat(a: Seq<char>, b: Seq<char>)
    ensures
        encode_utf8(a + b) == encode_utf8(a) + encode_utf8(b),
    decreases a.len(),
{
    if a.len() == 0 {
        assert(a + b =~= b);
        assert(encode_utf8(a) + encode_utf8(b) =~= encode_utf8(b));
    } else {
        lemma_encode_utf8_concat(a.drop_first(), b);
        assert((a + b).drop_first() =~= a.drop_first() + b);
        assert((a + b)[0] == a[0]);
        assert(encode_utf8(a + b) =~= encode_utf8(a) + encode_utf8(b));
    }
}

/// An echoed value takes at most `MAX_ECHOED_VALUE_LENGTH` bytes, and three
/// more for the ellipsis, however long the value is.
pub proof fn lemma_truncated_is_short(value: Seq<char>)
    ensures
        encode_utf8(truncated(value)).len() <= MAX_ECHOED_VALUE_LENGTH + 3,
{
    let bytes = encode_utf8(value);
    if bytes.len() > MAX_ECHOED_VALUE_LENGTH {
        vstd::utf8::encode_utf8_valid_utf8(value);
        let b = boundary_at_or_below(bytes, MAX_ECHOED_VALUE_LENGTH as int);
        lemma_boundary_at_or_below(bytes, MAX_ECHOED_VALUE_LENGTH as int);
        vstd::utf8::valid_utf8_split(bytes, b);
        let head = bytes.take(b);
        assert(head =~= bytes.subrange(0, b));
        vstd::utf8::decode_utf8_encode_utf8(head);
        let ellipsis = seq!['\u{2026}'];
        lemma_encode_utf8_concat(decode_utf8(head), ellipsis);
        assert(ellipsis.drop_first() =~= Seq::<char>::empty());
        assert(ellipsis[0] as u32 == 0x2026u32);
        assert(encode_utf8(ellipsis.drop_first()) =~= Seq::<u8>::empty());
        assert(encode_utf8(ellipsis).len() == 3);
    }
}

/// The message that refuses `value` for the field `field`.
pub open spec fn invalid_value_message(field: Seq<char>, value: Seq<char>) -> Seq<char> {
    "Invalid value for `"@ + field + "`: `"@ + truncated(value)
        + "` is not an unsigned 128-bit integer"@
}

/// Characters below 0x80 take one byte each.
proof fn lemma_encode_utf8_ascii(s: Seq<char>)
    requires
        forall|i: int| 0 <= i < s.len() ==> (#[trigger] s[i] as u32) < 0x80,
    ensures
        encode_utf8(s).len() == s.len(),
    decreases s.len(),
{
    if s.len() > 0 {
        assert((s[0] as u32) < 0x80);
        assert forall|i: int| 0 <= i < s.drop_first().len() implies (#[trigger] s.drop_first()[i]
            as u32) < 0x80 by {
            assert(s.drop_first()[i] == s[i + 1]);
        }
        lemma_encode_utf8_ascii(s.drop_first());
    }
}

/// The message refusing a value is short however long the value is: at most
/// 126 bytes beyond the field's name.
pub proof fn lemma_invalid_value_message_is_short(field: Seq<char>, value: Seq<char>)
    ensures
        encode_utf8(invalid_value_message(field, value)).len() <= encode_utf8(field).len() + 126,
{
    let opening = "Invalid value for `"@;
    let between = "`: `"@;
    let closing = "` is not an unsigned 128-bit integer"@;
    reveal_strlit("Invalid value for `");
    reveal_strlit("`: `");
    reveal_strlit("` is not an unsigned 128-bit integer");
    assert forall|i: int| 0 <= i < opening.len() implies (#[trigger] opening[i] as u32) < 0x80 by {}
    assert forall|i: int| 0 <= i < between.len() implies (#[trigger] between[i] as u32) < 0x80 by {}
    assert forall|i: int| 0 <= i < closing.len() implies (#[trigger] closing[i] as u32) < 0x80 by {}
    lemma_encode_utf8_ascii(opening);
    lemma_encode_utf8_ascii(between);
    lemma_encode_utf8_ascii(closing);
    lemma_truncated_is_short(value);
    let t = truncated(value);
    lemma_encode_utf8_concat(opening, field);
    lemma_encode_utf8_concat(opening + field, between);
    lemma_encode_utf8_concat(opening + field + between, t);
    lemma_encode_utf8_concat(opening + field + between + t, closing);
}

/// Cuts `value` down for echoing, never in the middle of a character.
pub fn truncate(value: &str) -> (r: String)
    ensures
        r@ == truncated(value@),
{
    let ghost bytes = value.spec_bytes();
    proof {
        vstd::utf8::encode_utf8_valid_utf8(value@);
    }
    if value.as_bytes().len() <= MAX_ECHOED_VALUE_LENGTH {
        return value.to_owned();
    }
    let mut end = MAX_ECHOED_VALUE_LENGTH;
    while end > 0 && !value.is_char_boundary(end)
        invariant
            end <= MAX_ECHOED_VALUE_LENGTH,
            end < bytes.len(),
            bytes == value.spec_bytes(),
            bytes == encode_utf8(value@),
            vstd::utf8::valid_utf8(bytes),
            boundary_at_or_below(bytes, MAX_ECHOED_VALUE_LENGTH as int) == boundary_at_or_below(
                bytes,
                end as int,
            ),
        decreases end,
    {
        end = end - 1;
    }
    proof {
        vstd::utf8::is_char_boundary_start_end_of_seq(bytes);
    }
    let (head, _) = value.split_at(end);
    proof {
        vstd::utf8::encode_utf8_decode_utf8(head@);
        assert(bytes.subrange(0, end as int) =~= bytes.take(end as int));
        reveal_strlit("\u{2026}");
    }
    let mut r = head.to_owned();
    r.append("\u{2026}");
    r
}

/// A column value, which travels as a decimal string; `field` names the
/// offending field in the rejection.
pub fn parse_u128(value: &str, field: &str) -> (r: Result<u128, ErrorResponse>)
    ensures
        match r {
            Ok(v) => parse_decimal(value@) == Some(v),
            Err(e) => parse_decimal(value@) is None && (e matches ErrorResponse::BadRequest(m)
                && m@ == invalid_value_message(field@, value@)),
        },
{
    match parse_decimal_u128(value) {
        Some(v) => Ok(v),
        None => {
            let mut m = "Invalid value for `".to_owned();
            m.append(field);
            m.append("`: `");
            let t = truncate(value);
            m.append(t.as_str());
            m.append("` is not an unsigned 128-bit integer");
            Err(ErrorResponse::BadRequest(m))
        },
    }
}

} // verus!
