//! Classification of a decoded record into a display-ready entry: type
//! label, compact unique timestamp code, best-effort address recovery.
#![allow(unused_imports)]
use vstd::prelude::*;
use vstd::bytes::*;
use crate::ulity::{extract_string, spec_text_bytes, spec_utf8_lossy};
use crate::utmp::{spec_valid_type, Utmp};

verus! {

/// The one structural failure the format admits: a record type tag
/// outside the twelve known values.
#[derive(Debug, Clone, Copy, PartialEq, Eq, Structural)]
pub enum UtmpError {
    InvalidRecordType(i32),
}

/// The character for one decimal digit.
pub open spec fn spec_digit_char(d: int) -> char {
    ((48 + d) as u8) as char
}

/// The base-62 alphabet: digits, then upper-case, then lower-case
/// letters.
pub open spec fn spec_b62_digit(d: int) -> char {
    if d < 10 {
        spec_digit_char(d)
    } else if d < 36 {
        ((55 + d) as u8) as char  // 'A' for 10
    } else {
        ((61 + d) as u8) as char  // 'a' for 36
    }
}

/// Base-62 digits of `n`, most significant first, no padding; zero is a
/// single digit.
pub open spec fn spec_base62(n: nat) -> Seq<char>
    decreases n,
{
    if n < 62 {
        seq![spec_b62_digit(n as int)]
    } else {
        spec_base62(n / 62).push(spec_b62_digit((n % 62) as int))
    }
}

/// Decimal digits of `n`, most significant first.
pub open spec fn spec_dec_digits(n: nat) -> Seq<char>
    decreases n,
{
    if n < 10 {
        seq![spec_digit_char(n as int)]
    } else {
        spec_dec_digits(n / 10).push(spec_digit_char((n % 10) as int))
    }
}

/// The decimal rendering of a signed 32-bit value.
pub open spec fn spec_i32_dec(x: i32) -> Seq<char> {
    if x < 0 {
        seq!['-'] + spec_dec_digits((-(x as int)) as nat)
    } else {
        spec_dec_digits(x as nat)
    }
}

/// Relies on base62::encode with its standard alphabet (digits, then
/// upper-case, then lower-case letters), most significant digit first,
/// no padding, and a lone zero digit for zero.
#[verifier::external_body]
fn base62_encode(n: u64) -> (r: String)
    ensures
        r@ == spec_base62(n as nat),
{
    base62::encode(n)
}

/// The decimal digits of `ds`, read back to front (`ds` holds digit
/// values least significant first).
pub open spec fn spec_digits_rev(ds: Seq<u8>) -> Seq<char> {
    Seq::new(ds.len(), |i: int| spec_digit_char(ds[ds.len() - 1 - i] as int))
}

fn digit_str(d: u8) -> (r: &'static str)
    requires
        d < 10,
    ensures
        r@ == seq![spec_digit_char(d as int)],
{
    proof {
        reveal_strlit("0");
        reveal_strlit("1");
        reveal_strlit("2");
        reveal_strlit("3");
        reveal_strlit("4");
        reveal_strlit("5");
        reveal_strlit("6");
        reveal_strlit("7");
        reveal_strlit("8");
        reveal_strlit("9");
    }
    match d {
        0 => "0",
        1 => "1",
        2 => "2",
        3 => "3",
        4 => "4",
        5 => "5",
        6 => "6",
        7 => "7",
        8 => "8",
        _ => "9",
    }
}

/// Append the decimal digits of `n`, most significant first.
fn append_dec(s: &mut String, n: u32)
    ensures
        final(s)@ == old(s)@ + spec_dec_digits(n as nat),
{
    let mut digits: Vec<u8> = Vec::new();
    let mut m: u32 = n;
    while m >= 10
        invariant
            spec_dec_digits(n as nat) == spec_dec_digits(m as nat) + spec_digits_rev(digits@),
            forall|i: int| 0 <= i < digits@.len() ==> digits@[i] < 10,
        decreases m,
    {
        let d: u8 = (m % 10) as u8;
        let ghost pre = digits@;
        digits.push(d);
        proof {
            assert(spec_digits_rev(pre.push(d)) =~= seq![spec_digit_char(d as int)]
                + spec_digits_rev(pre));
            assert(spec_dec_digits(m as nat) == spec_dec_digits((m / 10) as nat).push(
                spec_digit_char((m % 10) as int),
            ));
            assert(spec_dec_digits((m / 10) as nat).push(spec_digit_char(d as int))
                + spec_digits_rev(pre) =~= spec_dec_digits((m / 10) as nat) + (seq![
                spec_digit_char(d as int),
            ] + spec_digits_rev(pre)));
        }
        m = m / 10;
    }
    let ghost pre = digits@;
    digits.push(m as u8);
    proof {
        assert(spec_digits_rev(pre.push(m as u8)) =~= seq![spec_digit_char(m as int)]
            + spec_digits_rev(pre));
        assert(spec_dec_digits(m as nat) == seq![spec_digit_char(m as int)]);
        assert(spec_dec_digits(m as nat) + spec_digits_rev(pre) =~= spec_digits_rev(digits@));
        assert(spec_digits_rev(digits@) == spec_dec_digits(n as nat));
    }
    let ghost whole = spec_dec_digits(n as nat);
    let mut t: usize = digits.len();
    while t > 0
        invariant
            t <= digits@.len(),
            forall|i: int| 0 <= i < digits@.len() ==> digits@[i] < 10,
            spec_digits_rev(digits@) == whole,
            whole == spec_dec_digits(n as nat),
            s@ == old(s)@ + whole.take(digits@.len() - t),
        decreases t,
    {
        t -= 1;
        let piece: &str = digit_str(digits[t]);
        s.append(piece);
        proof {
            let l = digits@.len() as int;
            assert(whole[l - 1 - t] == spec_digit_char(digits@[t as int] as int));
            assert(whole.take(l - t) =~= whole.take(l - t - 1).push(whole[l - t - 1]));
        }
    }
    proof {
        assert(whole.take(digits@.len() as int) =~= whole);
    }
}

/// The decimal rendering of a signed 32-bit value: digits with a
/// leading minus sign for a negative value.
pub(crate) fn i32_to_string(x: i32) -> (r: String)
    ensures
        r@ == spec_i32_dec(x),
{
    let mut s: String = String::new();
    if x < 0 {
        s.append("-");
        proof {
            reveal_strlit("-");
            assert(s@ =~= seq!['-']);
        }
        let mag64: i64 = -(x as i64);
        let mag: u32 = mag64 as u32;
        append_dec(&mut s, mag);
        proof {
            assert((mag as nat) == (-(x as int)) as nat);
            assert(seq!['-'] + spec_dec_digits(mag as nat) == spec_i32_dec(x));
        }
    } else {
        append_dec(&mut s, x as u32);
    }
    s
}

/// The value the unique code is computed from: seconds times the largest
/// 32-bit value, plus the microseconds.
pub open spec fn spec_union_val(sec: u32, usec: u32) -> nat {
    (sec as nat) * 0xffff_ffff + (usec as nat)
}

fn union_val(sec: u32, usec: u32) -> (r: u64)
    ensures
        r as nat == spec_union_val(sec, usec),
{
    proof {
        assert((sec as int) * 0xffff_ffff <= 0xffff_ffff * 0xffff_ffff) by (nonlinear_arith)
            requires
                sec <= 0xffff_ffff,
        ;
    }
    (sec as u64) * 0xffff_ffff + (usec as u64)
}

/// A timestamp as stored in a record: seconds of the Unix epoch plus a
/// sub-second microsecond part, naive UTC.
#[derive(Debug, Clone, Copy, PartialEq, Eq, Structural)]
pub struct UtmpTime {
    pub seconds: u32,
    pub micros: u32,
}

/// A recovered internet address.  The octets are the address words laid
/// out byte for byte in their stored (little-endian) order.
#[derive(Debug, Clone, Copy, PartialEq, Eq)]
#[allow(inconsistent_fields)]
pub enum Address {
    V4 { octets: [u8; 4] },
    V6 { octets: [u8; 16] },
}

/// How an optional address relates to the four stored address words:
/// IPv6 from all sixteen bytes when any of words 1..3 is non-zero, else
/// IPv4 from word 0 when it is non-zero, else no address.
pub open spec fn spec_addr_matches(a: Option<Address>, words: Seq<u32>) -> bool
    recommends
        words.len() == 4,
{
    if words[1] != 0 || words[2] != 0 || words[3] != 0 {
        match a {
            Some(Address::V6 { octets }) => octets@ == spec_u32_to_le_bytes(words[0])
                + spec_u32_to_le_bytes(words[1]) + spec_u32_to_le_bytes(words[2])
                + spec_u32_to_le_bytes(words[3]),
            _ => false,
        }
    } else if words[0] != 0 {
        match a {
            Some(Address::V4 { octets }) => octets@ == spec_u32_to_le_bytes(words[0]),
            _ => false,
        }
    } else {
        a is None
    }
}

/// Recover the internet address stored in the four address words.
pub fn derive_address(words: &[u32; 4]) -> (r: Option<Address>)
    ensures
        spec_addr_matches(r, words@),
{
    if words[1] != 0 || words[2] != 0 || words[3] != 0 {
        let b0: Vec<u8> = u32_to_le_bytes(words[0]);
        let b1: Vec<u8> = u32_to_le_bytes(words[1]);
        let b2: Vec<u8> = u32_to_le_bytes(words[2]);
        let b3: Vec<u8> = u32_to_le_bytes(words[3]);
        let octets: [u8; 16] = [
            b0[0],
            b0[1],
            b0[2],
            b0[3],
            b1[0],
            b1[1],
            b1[2],
            b1[3],
            b2[0],
            b2[1],
            b2[2],
            b2[3],
            b3[0],
            b3[1],
            b3[2],
            b3[3],
        ];
        proof {
            assert(octets@ =~= spec_u32_to_le_bytes(words@[0]) + spec_u32_to_le_bytes(words@[1])
                + spec_u32_to_le_bytes(words@[2]) + spec_u32_to_le_bytes(words@[3]));
        }
        Some(Address::V6 { octets })
    } else if words[0] != 0 {
        let b: Vec<u8> = u32_to_le_bytes(words[0]);
        let octets: [u8; 4] = [b[0], b[1], b[2], b[3]];
        proof {
            assert(octets@ =~= spec_u32_to_le_bytes(words@[0]));
        }
        Some(Address::V4 { octets })
    } else {
        None
    }
}

/// The display label of a record type: the two-digit tag and its name.
pub open spec fn spec_type_label(t: i32) -> Seq<char> {
    if t == 0 {
        " 0 - EMPTY"@
    } else if t == 1 {
        " 1 - RUN_LVL"@
    } else if t == 2 {
        " 2 - BOOT_TIME"@
    } else if t == 3 {
        " 3 - NEW_TIME"@
    } else if t == 4 {
        " 4 - OLD_TIME"@
    } else if t == 5 {
        " 5 - INIT_PROCESS"@
    } else if t == 6 {
        " 6 - LOGIN_PROCESS"@
    } else if t == 7 {
        " 7 - USER_PROCESS"@
    } else if t == 8 {
        " 8 - DEAD_PROCESS"@
    } else if t == 9 {
        " 9 - ACCOUNTING"@
    } else if t == 10 {
        "10 - SIGNATURE"@
    } else if t == 11 {
        "11 - SHUTDOWN_TIME"@
    } else {
        Seq::<char>::empty()
    }
}

fn type_label(t: i32) -> (r: String)
    requires
        spec_valid_type(t),
    ensures
        r@ == spec_type_label(t),
{
    if t == 0 {
        " 0 - EMPTY".to_owned()
    } else if t == 1 {
        " 1 - RUN_LVL".to_owned()
    } else if t == 2 {
        " 2 - BOOT_TIME".to_owned()
    } else if t == 3 {
        " 3 - NEW_TIME".to_owned()
    } else if t == 4 {
        " 4 - OLD_TIME".to_owned()
    } else if t == 5 {
        " 5 - INIT_PROCESS".to_owned()
    } else if t == 6 {
        " 6 - LOGIN_PROCESS".to_owned()
    } else if t == 7 {
        " 7 - USER_PROCESS".to_owned()
    } else if t == 8 {
        " 8 - DEAD_PROCESS".to_owned()
    } else if t == 9 {
        " 9 - ACCOUNTING".to_owned()
    } else if t == 10 {
        "10 - SIGNATURE".to_owned()
    } else {
        "11 - SHUTDOWN_TIME".to_owned()
    }
}

/// A display/match-ready view of one record.
#[derive(Debug)]
pub struct UtmpEntry {
    pub typeid: i32,
    pub unioncode: String,
    pub typestr: String,
    pub pid: Option<i32>,
    pub line: Option<String>,
    pub terminalid: Option<String>,
    pub username: Option<String>,
    pub hostname: Option<String>,
    pub terminationstatus: Option<i16>,
    pub exitstatus: Option<i16>,
    pub sessionid: Option<i32>,
    pub time: Option<UtmpTime>,
    pub ipaddr: Option<Address>,
}

/// The entry `e` is exactly the classification of the record `u`.
pub open spec fn spec_classifies_to(u: Utmp, e: UtmpEntry) -> bool {
    &&& e.typeid == u.ut_type
    &&& e.unioncode@ == spec_base62(spec_union_val(u.ut_time_sec, u.ut_time_usec))
    &&& e.typestr@ == spec_type_label(u.ut_type)
    &&& e.pid == Some(u.ut_pid)
    &&& e.line matches Some(l) && l@ == spec_utf8_lossy(spec_text_bytes(u.ut_line@))
    &&& e.terminalid matches Some(t) && t@ == spec_utf8_lossy(spec_text_bytes(u.ut_id@))
    &&& e.username matches Some(n) && n@ == spec_utf8_lossy(spec_text_bytes(u.ut_user@))
    &&& e.hostname matches Some(h) && h@ == spec_utf8_lossy(spec_text_bytes(u.ut_host@))
    &&& e.terminationstatus == Some(u.ut_termination)
    &&& e.exitstatus == Some(u.ut_exit)
    &&& e.sessionid == Some(u.ut_session)
    &&& e.time == Some(UtmpTime { seconds: u.ut_time_sec, micros: u.ut_time_usec })
    &&& spec_addr_matches(e.ipaddr, u.ut_addr_v6@)
}

impl Clone for UtmpEntry {
    fn clone(&self) -> (r: Self)
        ensures
            r == *self,
    {
        UtmpEntry {
            typeid: self.typeid,
            unioncode: self.unioncode.clone(),
            typestr: self.typestr.clone(),
            pid: self.pid,
            line: self.line.clone(),
            terminalid: self.terminalid.clone(),
            username: self.username.clone(),
            hostname: self.hostname.clone(),
            terminationstatus: self.terminationstatus,
            exitstatus: self.exitstatus,
            sessionid: self.sessionid,
            time: self.time,
            ipaddr: self.ipaddr,
        }
    }
}

impl UtmpEntry {
    /// Classify one decoded record.  Fails exactly when the record type
    /// tag is invalid, mirroring the decoder's validation (not reachable
    /// for records the decoder accepted).
    pub fn try_from(from: Utmp) -> (r: Result<UtmpEntry, UtmpError>)
        ensures
            r is Ok <==> spec_valid_type(from.ut_type),
            r matches Ok(e) ==> spec_classifies_to(from, e),
            r matches Err(er) ==> er == UtmpError::InvalidRecordType(from.ut_type),
    {
        if !(0 <= from.ut_type && from.ut_type <= 11) {
            return Err(UtmpError::InvalidRecordType(from.ut_type));
        }
        let unioncode: String = base62_encode(union_val(from.ut_time_sec, from.ut_time_usec));
        let typestr: String = type_label(from.ut_type);
        let ipaddr: Option<Address> = derive_address(&from.ut_addr_v6);
        Ok(
            UtmpEntry {
                typeid: from.ut_type,
                unioncode,
                typestr,
                pid: Some(from.ut_pid),
                line: Some(extract_string(from.ut_line.as_slice())),
                terminalid: Some(extract_string(from.ut_id.as_slice())),
                username: Some(extract_string(from.ut_user.as_slice())),
                hostname: Some(extract_string(from.ut_host.as_slice())),
                terminationstatus: Some(from.ut_termination),
                exitstatus: Some(from.ut_exit),
                sessionid: Some(from.ut_session),
                time: Some(UtmpTime { seconds: from.ut_time_sec, micros: from.ut_time_usec }),
                ipaddr,
            },
        )
    }
}

} // verus!
