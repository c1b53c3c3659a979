//! Small text utilities: NUL-terminated field extraction and hex parsing.
#![allow(unused_imports)]
use vstd::prelude::*;
use vstd::string::StringSliceAdditionalSpecFns;

verus! {

/// What `String::from_utf8_lossy` returns for a byte sequence; a fixed
/// function of the bytes alone.
pub uninterp spec fn spec_utf8_lossy(bytes: Seq<u8>) -> Seq<char>;

/// Relies on String::from_utf8_lossy: the result depends on the bytes
/// alone, and bytes that are valid UTF-8 decode to exactly their
/// characters.
#[verifier::external_body]
fn utf8_lossy_string(bytes: &[u8]) -> (r: String)
    ensures
        r@ == spec_utf8_lossy(bytes@),
        vstd::utf8::valid_utf8(bytes@) ==> r@ == vstd::utf8::decode_utf8(bytes@),
{
    String::from_utf8_lossy(bytes).to_string()
}

/// The position of the first NUL byte, or the length when there is none.
pub open spec fn spec_nul_pos(s: Seq<u8>) -> int
    decreases s.len(),
{
    if s.len() == 0 {
        0
    } else if s[0] == 0 {
        0
    } else {
        1 + spec_nul_pos(s.drop_first())
    }
}

/// The text content of a fixed-width field: everything before the first
/// NUL byte, or the whole field if it holds none.
pub open spec fn spec_text_bytes(s: Seq<u8>) -> Seq<u8> {
    s.take(spec_nul_pos(s))
}

pub proof fn lemma_nul_pos(s: Seq<u8>)
    ensures
        0 <= spec_nul_pos(s) <= s.len(),
        forall|j: int| 0 <= j < spec_nul_pos(s) ==> s[j] != 0,
        spec_nul_pos(s) < s.len() ==> s[spec_nul_pos(s)] == 0,
    decreases s.len(),
{
    if s.len() == 0 {
    } else if s[0] == 0 {
    } else {
        lemma_nul_pos(s.drop_first());
        assert forall|j: int| 0 <= j < spec_nul_pos(s) implies s[j] != 0 by {
            if j > 0 {
                assert(s.drop_first()[j - 1] != 0);
            }
        }
    }
}

/// Decode the text value of one fixed-width field: the bytes before the
/// first NUL, read as UTF-8 (invalid sequences replaced).
pub fn extract_string(input: &[u8]) -> (r: String)
    ensures
        r@ == spec_utf8_lossy(spec_text_bytes(input@)),
        vstd::utf8::valid_utf8(spec_text_bytes(input@)) ==> r@ == vstd::utf8::decode_utf8(
            spec_text_bytes(input@),
        ),
{
    proof {
        lemma_nul_pos(input@);
    }
    let mut null_end: usize = input.len();
    let mut i: usize = 0;
    while i < input.len()
        invariant_except_break
            null_end == input@.len(),
        invariant
            0 <= i <= input@.len(),
            forall|j: int| 0 <= j < i ==> input@[j] != 0,
        ensures
            0 <= null_end <= input@.len(),
            forall|j: int| 0 <= j < null_end ==> input@[j] != 0,
            null_end < input@.len() ==> input@[null_end as int] == 0,
        decreases input@.len() - i,
    {
        if input[i] == 0 {
            null_end = i;
            break ;
        }
        i += 1;
    }
    proof {
        assert(null_end == spec_nul_pos(input@));
    }
    utf8_lossy_string(&input[0..null_end])
}

/// An ASCII hexadecimal digit.
pub open spec fn spec_is_hex_digit(b: u8) -> bool {
    (48 <= b <= 57) || (65 <= b <= 70) || (97 <= b <= 102)
}

/// The value of an ASCII hexadecimal digit.
pub open spec fn spec_hex_val(b: u8) -> u8 {
    if 48 <= b <= 57 {
        (b - 48) as u8
    } else if 65 <= b <= 70 {
        (b - 55) as u8
    } else if 97 <= b <= 102 {
        (b - 87) as u8
    } else {
        0
    }
}

/// Where the hexadecimal digits begin: after a leading `0x` or `0X`,
/// otherwise at the start.
pub open spec fn spec_hex_start(b: Seq<u8>) -> int {
    if b.len() >= 2 && b[0] == 48 && (b[1] == 120 || b[1] == 88) {
        2
    } else {
        0
    }
}

/// A two-character group that radix-16 byte parsing accepts: two hex
/// digits, or a `+` sign followed by one hex digit.
pub open spec fn spec_hex_pair_ok(hi: u8, lo: u8) -> bool {
    ||| (spec_is_hex_digit(hi) && spec_is_hex_digit(lo))
    ||| (hi == 43 && spec_is_hex_digit(lo))
}

/// The byte value of one two-character group.
pub open spec fn spec_hex_pair_val(hi: u8, lo: u8) -> u8 {
    if spec_is_hex_digit(hi) && spec_is_hex_digit(lo) {
        (16 * spec_hex_val(hi) + spec_hex_val(lo)) as u8
    } else {
        spec_hex_val(lo)
    }
}

/// A parseable hexadecimal string: even byte length, at least two
/// bytes, and every two-character group after the optional `0x` prefix
/// parses as a radix-16 byte.
pub open spec fn spec_hex_ok(b: Seq<u8>) -> bool {
    &&& b.len() % 2 == 0
    &&& b.len() >= 2
    &&& forall|i: int|
        0 <= i < (b.len() - spec_hex_start(b)) / 2 ==> #[trigger] spec_hex_pair_ok(
            b[spec_hex_start(b) + 2 * i],
            b[spec_hex_start(b) + 2 * i + 1],
        )
}

/// The bytes a hexadecimal string denotes, one byte per group.
pub open spec fn spec_hex_decoded(b: Seq<u8>) -> Seq<u8> {
    Seq::new(
        ((b.len() - spec_hex_start(b)) / 2) as nat,
        |i: int| spec_hex_pair_val(b[spec_hex_start(b) + 2 * i], b[spec_hex_start(b) + 2 * i + 1]),
    )
}

fn is_hex_digit(b: u8) -> (r: bool)
    ensures
        r == spec_is_hex_digit(b),
{
    (48 <= b && b <= 57) || (65 <= b && b <= 70) || (97 <= b && b <= 102)
}

fn hex_val(b: u8) -> (r: u8)
    requires
        spec_is_hex_digit(b),
    ensures
        r == spec_hex_val(b),
        r < 16,
{
    if 48 <= b && b <= 57 {
        b - 48
    } else if 65 <= b && b <= 70 {
        b - 55
    } else {
        b - 87
    }
}

/// Parse one two-character group as a radix-16 byte.
fn hex_pair(hi: u8, lo: u8) -> (r: Option<u8>)
    ensures
        r is Some <==> spec_hex_pair_ok(hi, lo),
        r matches Some(v) ==> v == spec_hex_pair_val(hi, lo),
{
    if is_hex_digit(hi) && is_hex_digit(lo) {
        Some(16 * hex_val(hi) + hex_val(lo))
    } else if hi == 43 && is_hex_digit(lo) {
        Some(hex_val(lo))
    } else {
        None
    }
}

/// Parse a hexadecimal string (optionally prefixed with `0x` or `0X`)
/// into its bytes, one byte per two-character group.  A group is read
/// as a radix-16 byte, so it may also carry a leading `+` sign.
/// Returns `None` when the byte length is odd or under two, or when
/// any group fails to parse.
pub fn hex_to_bytes(s: &str) -> (r: Option<Vec<u8>>)
    ensures
        r is Some <==> spec_hex_ok(s.spec_bytes()),
        r matches Some(v) ==> v@ == spec_hex_decoded(s.spec_bytes()),
{
    let bs: &[u8] = s.as_bytes();
    if !(bs.len() % 2 == 0 && bs.len() >= 2) {
        return None;
    }
    let start: usize = if bs[0] == 48 && (bs[1] == 120 || bs[1] == 88) {
        2
    } else {
        0
    };
    proof {
        assert(start == spec_hex_start(bs@));
    }
    let ghost decoded = spec_hex_decoded(bs@);
    let mut out: Vec<u8> = Vec::new();
    let mut i: usize = start;
    while i < bs.len()
        invariant
            bs@ == s.spec_bytes(),
            bs@.len() % 2 == 0,
            bs@.len() >= 2,
            start == spec_hex_start(bs@),
            decoded == spec_hex_decoded(bs@),
            start <= i <= bs@.len(),
            (i - start) % 2 == 0,
            out@.len() == (i - start) / 2,
            out@ == decoded.take((i - start) / 2),
            forall|t: int|
                0 <= t < (i - start) / 2 ==> #[trigger] spec_hex_pair_ok(
                    bs@[start + 2 * t],
                    bs@[start + 2 * t + 1],
                ),
        decreases bs@.len() - i,
    {
        let hi: u8 = bs[i];
        let lo: u8 = bs[i + 1];
        let ghost m = (i - start) / 2;
        proof {
            assert(start + 2 * m == i);
        }
        match hex_pair(hi, lo) {
            Some(v) => {
                out.push(v);
                proof {
                    assert(decoded[m] == spec_hex_pair_val(bs@[start + 2 * m], bs@[start + 2 * m
                        + 1]));
                    assert(decoded.take(m + 1) =~= decoded.take(m).push(decoded[m]));
                }
            },
            None => {
                proof {
                    assert(!spec_hex_pair_ok(bs@[start + 2 * m], bs@[start + 2 * m + 1]));
                    assert(0 <= m < (bs@.len() - spec_hex_start(bs@)) / 2);
                }
                return None;
            },
        }
        i += 2;
    }
    proof {
        assert(out@ =~= decoded);
    }
    Some(out)
}

} // verus!
