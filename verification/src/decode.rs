//! The mathematical model of one decode step and of whole-input decoding,
//! together with the laws the decoder obeys.
//!
//! The model is stated over byte sequences and builds on `vstd::utf8`, whose
//! `valid_first_scalar` / `decode_first_scalar` describe well-formed
//! encodings. What this module adds is the behaviour of a decoder on
//! *malformed* input: exactly which bytes one attempt consumes, which byte is
//! replayed for resynchronization, and what error is reported.

use vstd::prelude::*;
use vstd::utf8::*;

verus! {

/// Total length in bytes of a well-formed encoding whose lead byte is `lead`,
/// for lead bytes that open a multi-byte sequence.
pub open spec fn needed_len(lead: u8) -> int
    recommends
        0xC2 <= lead <= 0xF4,
{
    if lead <= 0xDF {
        2
    } else if lead <= 0xEF {
        3
    } else {
        4
    }
}

/// The range admitted for the first continuation byte, tightened per lead
/// byte (RFC 3629) to exclude overlong encodings and surrogate code points.
pub open spec fn first_cont_ok(lead: u8, b: u8) -> bool {
    if lead == 0xE0 {
        0xA0 <= b <= 0xBF
    } else if lead == 0xED {
        0x80 <= b <= 0x9F
    } else if lead == 0xF0 {
        0x90 <= b <= 0xBF
    } else if lead == 0xF4 {
        0x80 <= b <= 0x8F
    } else {
        is_continuation_byte(b)
    }
}

/// Whether `b` is acceptable as the `i`-th continuation byte (1-based) of a
/// sequence opened by `lead`.
pub open spec fn cont_ok(lead: u8, i: int, b: u8) -> bool {
    if i == 1 {
        first_cont_ok(lead, b)
    } else {
        is_continuation_byte(b)
    }
}

/// What one decode step yields: a Unicode scalar value, or the bytes of one
/// malformed attempt.
pub enum Decoded {
    Scalar(char),
    Malformed(Seq<u8>),
}

/// Scans continuation bytes of `s` from position `i` up to the required
/// length `n`, yielding the decoded unit of this attempt and the bytes left
/// for later steps. A byte that is present but out of range is *not*
/// consumed: it stays at the front of the leftover, to be replayed as a
/// fresh lead byte.
pub open spec fn scan_conts(s: Seq<u8>, n: int, i: int) -> (Decoded, Seq<u8>)
    recommends
        s.len() >= 1,
        1 <= i <= n <= 4,
        n == needed_len(s[0]),
    decreases n - i,
{
    if i >= n {
        (Decoded::Scalar(decode_first_codepoint(s) as char), s.skip(n))
    } else if i >= s.len() {
        (Decoded::Malformed(s), Seq::<u8>::empty())
    } else if !cont_ok(s[0], i, s[i]) {
        (Decoded::Malformed(s.take(i)), s.skip(i))
    } else {
        scan_conts(s, n, i + 1)
    }
}

/// One decode step on a non-empty byte sequence: the decoded unit and the
/// bytes left over for the following steps.
pub open spec fn decode_step(s: Seq<u8>) -> (Decoded, Seq<u8>)
    recommends
        s.len() >= 1,
{
    let lead = s[0];
    if lead <= 0x7F {
        (Decoded::Scalar(lead as char), s.drop_first())
    } else if lead < 0xC2 || 0xF4 < lead {
        (Decoded::Malformed(seq![lead]), s.drop_first())
    } else {
        scan_conts(s, needed_len(lead), 1)
    }
}

/// The whole sequence of decoded units that an input yields, step by step.
pub open spec fn decode_all(s: Seq<u8>) -> Seq<Decoded>
    decreases s.len(),
        via decode_all_decreases
{
    if s.len() == 0 {
        seq![]
    } else {
        seq![decode_step(s).0] + decode_all(decode_step(s).1)
    }
}

#[via_fn]
proof fn decode_all_decreases(s: Seq<u8>) {
    if s.len() != 0 {
        lemma_step_consumes(s);
    }
}

proof fn lemma_scan_consumes(s: Seq<u8>, n: int, i: int)
    requires
        1 <= i <= n <= 4,
        i <= s.len(),
    ensures
        scan_conts(s, n, i).1.len() < s.len(),
    decreases n - i,
{
    if i >= n {
    } else if i >= s.len() {
    } else if !cont_ok(s[0], i, s[i]) {
    } else {
        lemma_scan_consumes(s, n, i + 1);
    }
}

/// Every decode step consumes at least one byte: forward progress.
pub proof fn lemma_step_consumes(s: Seq<u8>)
    requires
        s.len() >= 1,
    ensures
        decode_step(s).1.len() < s.len(),
{
    let lead = s[0];
    if lead <= 0x7F || lead < 0xC2 || 0xF4 < lead {
    } else {
        lemma_scan_consumes(s, needed_len(lead), 1);
    }
}

/// The payload bits of a multi-byte lead byte, masked per its class.
pub open spec fn lead_payload(lead: u8) -> u32
    recommends
        0xC2 <= lead <= 0xF4,
{
    if lead <= 0xDF {
        (lead & 0x1F) as u32
    } else if lead <= 0xEF {
        (lead & 0x0F) as u32
    } else {
        (lead & 0x07) as u32
    }
}

/// The running code point after consuming the first `i` bytes of a
/// multi-byte sequence: the lead byte's payload bits, then shift left six
/// and OR in the low six bits of each continuation byte.
pub open spec fn acc_value(s: Seq<u8>, i: int) -> u32
    recommends
        1 <= i <= s.len(),
        0xC2 <= s[0] <= 0xF4,
    decreases i,
{
    if i <= 1 {
        lead_payload(s[0])
    } else {
        (acc_value(s, i - 1) << 6) | ((s[i - 1] & 0x3F) as u32)
    }
}

/// Shifting the accumulator left twice lays the fields out side by side.
proof fn bv_acc_layout(a: u32, b: u32, c: u32, d: u32)
    by (bit_vector)
    ensures
        (((a << 6) | b) << 6) | c == (a << 12) | (b << 6) | c,
        (((((a << 6) | b) << 6) | c) << 6) | d == (a << 18) | (b << 12) | (c << 6) | d,
{
}

/// After the full sequence is consumed, the running value is exactly the
/// codepoint the bytes encode.
pub proof fn lemma_acc_is_codepoint(s: Seq<u8>)
    requires
        s.len() >= 1,
        0xC2 <= s[0] <= 0xF4,
        needed_len(s[0]) <= s.len(),
    ensures
        acc_value(s, needed_len(s[0])) == decode_first_codepoint(s),
{
    reveal_with_fuel(acc_value, 5);
    let x = s[0];
    if x <= 0xDF {
        assert(is_leading_byte_width_2(x));
    } else if x <= 0xEF {
        assert(!is_leading_byte_width_2(x)) by (bit_vector)
            requires 0xE0 <= x <= 0xEF;
        bv_acc_layout(lead_payload(x), (s[1] & 0x3F) as u32, (s[2] & 0x3F) as u32, 0);
    } else {
        assert(!is_leading_byte_width_2(x) && !is_leading_byte_width_3(x)) by (bit_vector)
            requires 0xF0 <= x <= 0xF4;
        bv_acc_layout(
            lead_payload(x),
            (s[1] & 0x3F) as u32,
            (s[2] & 0x3F) as u32,
            (s[3] & 0x3F) as u32,
        );
    }
}

/// Grammar fact, two-byte class: a lead in `0xC2..=0xDF` with one
/// continuation byte encodes a codepoint in `0x80..=0x7FF`.
proof fn bv_scalar_width2(x: u8, y: u8)
    by (bit_vector)
    requires
        0xC2 <= x,
        x <= 0xDF,
        0x80 <= y,
        y <= 0xBF,
    ensures
        0x80 <= ((((x & 0x1F) as u32) << 6) | ((y & 0x3F) as u32)),
        ((((x & 0x1F) as u32) << 6) | ((y & 0x3F) as u32)) <= 0x7FF,
{
}

/// Grammar fact, three-byte class: a lead in `0xE0..=0xEF` whose first
/// continuation byte passes the tightened range encodes a codepoint in
/// `0x800..=0xFFFF` outside the surrogate range.
proof fn bv_scalar_width3(x: u8, y: u8, z: u8)
    by (bit_vector)
    requires
        0xE0 <= x,
        x <= 0xEF,
        0x80 <= y,
        y <= 0xBF,
        x == 0xE0 ==> 0xA0 <= y,
        x == 0xED ==> y <= 0x9F,
        0x80 <= z,
        z <= 0xBF,
    ensures
        0x800 <= ((((x & 0x0F) as u32) << 12) | (((y & 0x3F) as u32) << 6) | ((z & 0x3F) as u32)),
        ((((x & 0x0F) as u32) << 12) | (((y & 0x3F) as u32) << 6) | ((z & 0x3F) as u32)) <= 0xFFFF,
        !(0xD800 <= ((((x & 0x0F) as u32) << 12) | (((y & 0x3F) as u32) << 6) | ((z
            & 0x3F) as u32)) <= 0xDFFF),
{
}

/// Grammar fact, four-byte class: a lead in `0xF0..=0xF4` whose first
/// continuation byte passes the tightened range encodes a codepoint in
/// `0x10000..=0x10FFFF`.
proof fn bv_scalar_width4(x: u8, y: u8, z: u8, w: u8)
    by (bit_vector)
    requires
        0xF0 <= x,
        x <= 0xF4,
        0x80 <= y,
        y <= 0xBF,
        x == 0xF0 ==> 0x90 <= y,
        x == 0xF4 ==> y <= 0x8F,
        0x80 <= z,
        z <= 0xBF,
        0x80 <= w,
        w <= 0xBF,
    ensures
        0x10000 <= ((((x & 0x07) as u32) << 18) | (((y & 0x3F) as u32) << 12) | (((z
            & 0x3F) as u32) << 6) | ((w & 0x3F) as u32)),
        ((((x & 0x07) as u32) << 18) | (((y & 0x3F) as u32) << 12) | (((z & 0x3F) as u32) << 6) | ((
        w & 0x3F) as u32)) <= 0x10FFFF,
{
}

/// Converse grammar fact, two-byte class: if the encoded codepoint is not
/// overlong, the lead byte is at least `0xC2`.
proof fn bv_valid_width2_back(x: u8, y: u8)
    by (bit_vector)
    requires
        0xC0 <= x,
        x <= 0xDF,
        0x80 <= y,
        y <= 0xBF,
        0x80 <= ((((x & 0x1F) as u32) << 6) | ((y & 0x3F) as u32)),
    ensures
        0xC2 <= x,
{
}

/// Converse grammar fact, three-byte class: a codepoint that is neither
/// overlong nor a surrogate forces the tightened first-continuation range.
proof fn bv_valid_width3_back(x: u8, y: u8, z: u8)
    by (bit_vector)
    requires
        0xE0 <= x,
        x <= 0xEF,
        0x80 <= y,
        y <= 0xBF,
        0x80 <= z,
        z <= 0xBF,
        0x800 <= ((((x & 0x0F) as u32) << 12) | (((y & 0x3F) as u32) << 6) | ((z & 0x3F) as u32)),
        !(0xD800 <= ((((x & 0x0F) as u32) << 12) | (((y & 0x3F) as u32) << 6) | ((z
            & 0x3F) as u32)) <= 0xDFFF),
    ensures
        x == 0xE0 ==> 0xA0 <= y,
        x == 0xED ==> y <= 0x9F,
{
}

/// Converse grammar fact, four-byte class: a codepoint within the Unicode
/// range forces a lead of at most `0xF4` and the tightened
/// first-continuation range.
proof fn bv_valid_width4_back(x: u8, y: u8, z: u8, w: u8)
    by (bit_vector)
    requires
        0xF0 <= x,
        x <= 0xF7,
        0x80 <= y,
        y <= 0xBF,
        0x80 <= z,
        z <= 0xBF,
        0x80 <= w,
        w <= 0xBF,
        0x10000 <= ((((x & 0x07) as u32) << 18) | (((y & 0x3F) as u32) << 12) | (((z
            & 0x3F) as u32) << 6) | ((w & 0x3F) as u32)),
        ((((x & 0x07) as u32) << 18) | (((y & 0x3F) as u32) << 12) | (((z & 0x3F) as u32) << 6) | ((
        w & 0x3F) as u32)) <= 0x10FFFF,
    ensures
        x <= 0xF4,
        x == 0xF0 ==> 0x90 <= y,
        x == 0xF4 ==> y <= 0x8F,
{
}

/// The tightened first-continuation ranges all lie inside the generic
/// continuation range.
proof fn lemma_first_cont_is_cont(lead: u8, b: u8)
    requires
        first_cont_ok(lead, b),
    ensures
        is_continuation_byte(b),
{
}

proof fn lemma_scan_all_ok(s: Seq<u8>, n: int, i: int)
    requires
        1 <= i <= n <= 4,
        n <= s.len(),
        n == needed_len(s[0]),
        0xC2 <= s[0] <= 0xF4,
        forall|j: int| i <= j < n ==> cont_ok(s[0], j, s[j]),
    ensures
        scan_conts(s, n, i) == (Decoded::Scalar(decode_first_codepoint(s) as char), s.skip(n)),
    decreases n - i,
{
    if i >= n {
    } else {
        assert(cont_ok(s[0], i, s[i]));
        lemma_scan_all_ok(s, n, i + 1);
    }
}

proof fn lemma_scan_scalar_all_ok(s: Seq<u8>, n: int, i: int)
    requires
        1 <= i <= n <= 4,
        i <= s.len(),
        scan_conts(s, n, i).0 is Scalar,
    ensures
        n <= s.len(),
        forall|j: int| i <= j < n ==> cont_ok(s[0], j, s[j]),
        scan_conts(s, n, i) == (Decoded::Scalar(decode_first_codepoint(s) as char), s.skip(n)),
    decreases n - i,
{
    if i >= n {
    } else if i >= s.len() {
        assert(false);
    } else if !cont_ok(s[0], i, s[i]) {
        assert(false);
    } else {
        lemma_scan_scalar_all_ok(s, n, i + 1);
    }
}

/// Whenever the input begins with a well-formed encoding of a scalar, one
/// decode step consumes exactly that encoding and yields exactly its scalar.
pub proof fn lemma_step_of_valid(s: Seq<u8>)
    requires
        valid_first_scalar(s),
    ensures
        s.len() >= 1,
        decode_step(s).0 == Decoded::Scalar(decode_first_scalar(s) as char),
        decode_step(s).1 == pop_first_scalar(s),
{
    let x = s[0];
    if is_leading_byte_width_1(x) {
        assert(x & 0x7F == x) by (bit_vector)
            requires x <= 0x7F;
        assert(pop_first_scalar(s) =~= s.drop_first());
    } else if is_leading_byte_width_2(x) {
        assert(length_of_first_codepoint(s) == 2);
        bv_valid_width2_back(x, s[1]);
        assert(first_cont_ok(x, s[1]));
        lemma_scan_all_ok(s, 2, 1);
        assert(pop_first_scalar(s) =~= s.skip(2));
    } else if is_leading_byte_width_3(x) {
        assert(length_of_first_codepoint(s) == 3);
        bv_valid_width3_back(x, s[1], s[2]);
        assert(first_cont_ok(x, s[1]));
        lemma_scan_all_ok(s, 3, 1);
        assert(pop_first_scalar(s) =~= s.skip(3));
    } else {
        assert(is_leading_byte_width_4(x));
        assert(length_of_first_codepoint(s) == 4);
        bv_valid_width4_back(x, s[1], s[2], s[3]);
        assert(first_cont_ok(x, s[1]));
        lemma_scan_all_ok(s, 4, 1);
        assert(pop_first_scalar(s) =~= s.skip(4));
    }
}

/// One decode step yields a scalar only where the input begins with a
/// well-formed encoding; the step then consumes exactly that encoding.
pub proof fn lemma_step_scalar_valid(s: Seq<u8>)
    requires
        s.len() >= 1,
        decode_step(s).0 is Scalar,
    ensures
        valid_first_scalar(s),
        is_scalar(decode_first_scalar(s)),
        decode_step(s).0 == Decoded::Scalar(decode_first_scalar(s) as char),
        decode_step(s).1 == pop_first_scalar(s),
{
    let x = s[0];
    if x <= 0x7F {
        assert(x & 0x7F == x) by (bit_vector)
            requires x <= 0x7F;
        assert(pop_first_scalar(s) =~= s.drop_first());
    } else if x < 0xC2 || 0xF4 < x {
        assert(false);
    } else {
        let n = needed_len(x);
        lemma_scan_scalar_all_ok(s, n, 1);
        assert(first_cont_ok(x, s[1]));
        lemma_first_cont_is_cont(x, s[1]);
        if x <= 0xDF {
            bv_scalar_width2(x, s[1]);
        } else if x <= 0xEF {
            assert(cont_ok(x, 2, s[2]));
            bv_scalar_width3(x, s[1], s[2]);
        } else {
            assert(is_leading_byte_width_4(x)) by (bit_vector)
                requires 0xF0 <= x <= 0xF4;
            assert(cont_ok(x, 2, s[2]) && cont_ok(x, 3, s[3]));
            bv_scalar_width4(x, s[1], s[2], s[3]);
        }
        assert(pop_first_scalar(s) =~= s.skip(n));
    }
}

/// LAW: an input consisting solely of ASCII bytes decodes to exactly those
/// bytes as characters, one decoded unit per input byte, with no errors.
pub proof fn lemma_ascii_passthrough(s: Seq<u8>)
    requires
        forall|i: int| 0 <= i < s.len() ==> s[i] <= 0x7F,
    ensures
        decode_all(s).len() == s.len(),
        forall|i: int| 0 <= i < s.len() ==> decode_all(s)[i] == Decoded::Scalar(s[i] as char),
    decreases s.len(),
{
    if s.len() == 0 {
    } else {
        let rest = s.drop_first();
        lemma_ascii_passthrough(rest);
        assert forall|i: int| 0 <= i < s.len() implies decode_all(s)[i] == Decoded::Scalar(
            s[i] as char,
        ) by {
            if i > 0 {
                assert(decode_all(s)[i] == decode_all(rest)[i - 1]);
                assert(rest[i - 1] == s[i]);
            }
        }
    }
}

/// Decoding a valid UTF-8 byte sequence yields one scalar unit per encoded
/// character, each the character itself, and no errors.
pub proof fn lemma_decode_valid_utf8(s: Seq<u8>)
    requires
        valid_utf8(s),
    ensures
        decode_all(s).len() == decode_utf8(s).len(),
        forall|i: int|
            0 <= i < decode_all(s).len() ==> decode_all(s)[i] == Decoded::Scalar(decode_utf8(s)[i]),
    decreases s.len(),
{
    if s.len() == 0 {
    } else {
        lemma_step_of_valid(s);
        lemma_step_consumes(s);
        let rest = pop_first_scalar(s);
        lemma_decode_valid_utf8(rest);
        assert forall|i: int| 0 <= i < decode_all(s).len() implies decode_all(s)[i]
            == Decoded::Scalar(decode_utf8(s)[i]) by {
            if i > 0 {
                assert(decode_all(s)[i] == decode_all(rest)[i - 1]);
                assert(decode_utf8(s)[i] == decode_utf8(rest)[i - 1]);
            }
        }
    }
}

/// LAW (round trip): decoding the UTF-8 encoding of any character sequence
/// yields exactly those characters, one decoded unit per character, with no
/// errors.
pub proof fn lemma_round_trip(chars: Seq<char>)
    ensures
        decode_all(encode_utf8(chars)).len() == chars.len(),
        forall|i: int|
            0 <= i < chars.len() ==> decode_all(encode_utf8(chars))[i] == Decoded::Scalar(chars[i]),
{
    encode_utf8_valid_utf8(chars);
    encode_utf8_decode_utf8(chars);
    lemma_decode_valid_utf8(encode_utf8(chars));
}

proof fn lemma_scan_truncated(s: Seq<u8>, n: int, i: int)
    requires
        1 <= i <= n <= 4,
        i <= s.len(),
        s.len() < n,
        forall|j: int| i <= j < s.len() ==> cont_ok(s[0], j, s[j]),
    ensures
        scan_conts(s, n, i) == (Decoded::Malformed(s), Seq::<u8>::empty()),
    decreases n - i,
{
    if i >= s.len() {
    } else {
        lemma_scan_truncated(s, n, i + 1);
    }
}

/// LAW (truncated input): when the input ends inside a multi-byte sequence
/// whose bytes read so far are well-formed, decoding yields exactly one
/// error holding every byte of the input, and nothing after it.
pub proof fn lemma_truncated(s: Seq<u8>)
    requires
        s.len() >= 1,
        0xC2 <= s[0] <= 0xF4,
        s.len() < needed_len(s[0]),
        forall|j: int| 1 <= j < s.len() ==> cont_ok(s[0], j, s[j]),
    ensures
        decode_step(s) == (Decoded::Malformed(s), Seq::<u8>::empty()),
        decode_all(s) == seq![Decoded::Malformed(s)],
{
    lemma_scan_truncated(s, needed_len(s[0]), 1);
    assert(decode_all(Seq::<u8>::empty()) == Seq::<Decoded>::empty());
    assert(decode_all(s) =~= seq![Decoded::Malformed(s)]);
}

proof fn lemma_scan_bad(s: Seq<u8>, n: int, i: int, bad: int)
    requires
        1 <= i <= bad < n <= 4,
        bad < s.len(),
        forall|j: int| i <= j < bad ==> cont_ok(s[0], j, s[j]),
        !cont_ok(s[0], bad, s[bad]),
    ensures
        scan_conts(s, n, i) == (Decoded::Malformed(s.take(bad)), s.skip(bad)),
    decreases n - i,
{
    if i == bad {
    } else {
        lemma_scan_bad(s, n, i + 1, bad);
    }
}

/// LAW (resynchronization): when the `bad`-th continuation byte of an
/// attempt is present but outside its required range, the step reports
/// exactly the bytes consumed before it, and the offending byte is not
/// consumed: the decoding continues with it as a fresh lead byte, losing and
/// duplicating nothing.
pub proof fn lemma_resync(s: Seq<u8>, bad: int)
    requires
        s.len() >= 1,
        0xC2 <= s[0] <= 0xF4,
        1 <= bad < needed_len(s[0]),
        bad < s.len(),
        forall|j: int| 1 <= j < bad ==> cont_ok(s[0], j, s[j]),
        !cont_ok(s[0], bad, s[bad]),
    ensures
        decode_step(s) == (Decoded::Malformed(s.take(bad)), s.skip(bad)),
        decode_all(s) == seq![Decoded::Malformed(s.take(bad))] + decode_all(s.skip(bad)),
{
    lemma_scan_bad(s, needed_len(s[0]), 1, bad);
}

/// LAW (invalid lead bytes): a byte in `0x80..=0xC1` or `0xF5..=0xFF` at the
/// front of the input yields immediately a one-byte error holding just that
/// byte; no lookahead is consumed, and decoding continues right after it.
pub proof fn lemma_invalid_lead(s: Seq<u8>)
    requires
        s.len() >= 1,
        (0x80 <= s[0] <= 0xC1) || 0xF5 <= s[0],
    ensures
        decode_step(s) == (Decoded::Malformed(seq![s[0]]), s.drop_first()),
        decode_all(s) == seq![Decoded::Malformed(seq![s[0]])] + decode_all(s.drop_first()),
{
}

} // verus!

