//! Fixed-size binary record layout: one login record is 384 contiguous
//! bytes, holding integers in little-endian order and NUL-padded text
//! fields at fixed offsets.
#![allow(unused_imports)]
use vstd::prelude::*;
use vstd::bytes::*;
use vstd::slice::slice_to_vec;

verus! {

/// The unsigned 32-bit value with the same two's-complement bit pattern
/// as the given signed value.
pub open spec fn spec_i32_as_u32(x: i32) -> u32 {
    if x >= 0 {
        x as u32
    } else {
        ((x as int) + 0x1_0000_0000) as u32
    }
}

/// The signed 32-bit value with the same two's-complement bit pattern
/// as the given unsigned value.
pub open spec fn spec_u32_as_i32(x: u32) -> i32 {
    if x <= 0x7fff_ffff {
        x as i32
    } else {
        ((x as int) - 0x1_0000_0000) as i32
    }
}

/// The unsigned 16-bit value with the same bit pattern as the given
/// signed value.
pub open spec fn spec_i16_as_u16(x: i16) -> u16 {
    if x >= 0 {
        x as u16
    } else {
        ((x as int) + 0x1_0000) as u16
    }
}

/// The signed 16-bit value with the same bit pattern as the given
/// unsigned value.
pub open spec fn spec_u16_as_i16(x: u16) -> i16 {
    if x <= 0x7fff {
        x as i16
    } else {
        ((x as int) - 0x1_0000) as i16
    }
}

pub fn i32_as_u32(x: i32) -> (r: u32)
    ensures
        r == spec_i32_as_u32(x),
{
    if x >= 0 {
        x as u32
    } else {
        let big: i64 = (x as i64) + 0x1_0000_0000i64;
        big as u32
    }
}

pub fn u32_as_i32(x: u32) -> (r: i32)
    ensures
        r == spec_u32_as_i32(x),
{
    if x <= 0x7fff_ffff {
        x as i32
    } else {
        let big: i64 = (x as i64) - 0x1_0000_0000i64;
        big as i32
    }
}

pub fn i16_as_u16(x: i16) -> (r: u16)
    ensures
        r == spec_i16_as_u16(x),
{
    if x >= 0 {
        x as u16
    } else {
        let big: i32 = (x as i32) + 0x1_0000i32;
        big as u16
    }
}

pub fn u16_as_i16(x: u16) -> (r: i16)
    ensures
        r == spec_u16_as_i16(x),
{
    if x <= 0x7fff {
        x as i16
    } else {
        let big: i32 = (x as i32) - 0x1_0000i32;
        big as i16
    }
}

pub proof fn lemma_i32_u32_roundtrip(x: i32)
    ensures
        spec_u32_as_i32(spec_i32_as_u32(x)) == x,
{
}

pub proof fn lemma_u32_i32_roundtrip(x: u32)
    ensures
        spec_i32_as_u32(spec_u32_as_i32(x)) == x,
{
}

pub proof fn lemma_i16_u16_roundtrip(x: i16)
    ensures
        spec_u16_as_i16(spec_i16_as_u16(x)) == x,
{
}

pub proof fn lemma_u16_i16_roundtrip(x: u16)
    ensures
        spec_i16_as_u16(spec_u16_as_i16(x)) == x,
{
}

/// A text field as laid out on disk: the value truncated to the field
/// width, then padded with zero bytes up to that width.
pub open spec fn spec_pad_field(s: Seq<u8>, width: nat) -> Seq<u8> {
    Seq::new(width, |i: int| if i < s.len() { s[i] } else { 0u8 })
}

/// One decoded login record.  Text fields hold the full on-disk field
/// (including NUL padding); see `wf` for the fixed field widths.
#[derive(Debug)]
pub struct Utmp {
    /// Type of record.
    pub ut_type: i32,
    /// Process identifier (PID).
    pub ut_pid: i32,
    /// Terminal; NUL-terminated text, 32 bytes on disk.
    pub ut_line: Vec<u8>,
    /// Terminal identifier; NUL-terminated text, 4 bytes on disk.
    pub ut_id: Vec<u8>,
    /// Username; NUL-terminated text, 32 bytes on disk.
    pub ut_user: Vec<u8>,
    /// Hostname for remote login, or kernel version; 256 bytes on disk.
    pub ut_host: Vec<u8>,
    /// Termination status.
    pub ut_termination: i16,
    /// Exit status.
    pub ut_exit: i16,
    /// Session ID used for windowing.
    pub ut_session: i32,
    /// Timestamp, seconds part.
    pub ut_time_sec: u32,
    /// Timestamp, microseconds part.
    pub ut_time_usec: u32,
    /// Internet address of remote host; an IPv4 address uses just
    /// `ut_addr_v6[0]`.
    pub ut_addr_v6: [u32; 4],
    /// Reserved bytes; the encoder always writes these as zero.
    pub __unused: Vec<u8>,
}

impl Utmp {
    /// Every text field holds exactly its on-disk width.
    pub open spec fn wf(self) -> bool {
        &&& self.ut_line@.len() == 32
        &&& self.ut_id@.len() == 4
        &&& self.ut_user@.len() == 32
        &&& self.ut_host@.len() == 256
        &&& self.__unused@.len() == 20
    }

    /// The 384 bytes this record occupies on disk, field by field at the
    /// fixed offsets; the reserved tail is always zero.
    pub open spec fn spec_encoded(self) -> Seq<u8> {
        spec_u32_to_le_bytes(spec_i32_as_u32(self.ut_type))
            + spec_u32_to_le_bytes(spec_i32_as_u32(self.ut_pid)) + spec_pad_field(self.ut_line@, 32)
            + spec_pad_field(self.ut_id@, 4) + spec_pad_field(self.ut_user@, 32) + spec_pad_field(
            self.ut_host@,
            256,
        ) + spec_u16_to_le_bytes(spec_i16_as_u16(self.ut_termination)) + spec_u16_to_le_bytes(
            spec_i16_as_u16(self.ut_exit),
        ) + spec_u32_to_le_bytes(spec_i32_as_u32(self.ut_session)) + spec_u32_to_le_bytes(
            self.ut_time_sec,
        ) + spec_u32_to_le_bytes(self.ut_time_usec) + spec_u32_to_le_bytes(self.ut_addr_v6@[0])
            + spec_u32_to_le_bytes(self.ut_addr_v6@[1]) + spec_u32_to_le_bytes(self.ut_addr_v6@[2])
            + spec_u32_to_le_bytes(self.ut_addr_v6@[3]) + spec_pad_field(Seq::<u8>::empty(), 20)
    }
}

pub proof fn lemma_encoded_len(r: Utmp)
    ensures
        r.spec_encoded().len() == 384,
{
    lemma_auto_spec_u32_to_from_le_bytes();
    lemma_auto_spec_u16_to_from_le_bytes();
}

/// Append the on-disk form of one text field: the field truncated to
/// `width` bytes, zero-padded up to `width`.
fn push_field(out: &mut Vec<u8>, field: &Vec<u8>, width: usize)
    ensures
        final(out)@ == old(out)@ + spec_pad_field(field@, width as nat),
{
    let ghost pad = spec_pad_field(field@, width as nat);
    let mut i: usize = 0;
    while i < width
        invariant
            i <= width,
            pad == spec_pad_field(field@, width as nat),
            out@ == old(out)@ + pad.take(i as int),
        decreases width - i,
    {
        if i < field.len() {
            out.push(field[i]);
        } else {
            out.push(0u8);
        }
        proof {
            assert(pad.take(i + 1) =~= pad.take(i as int).push(pad[i as int]));
        }
        i += 1;
    }
    proof {
        assert(pad.take(width as int) =~= pad);
    }
}

/// The record type stored in the first four bytes of a block.
pub open spec fn spec_block_type(b: Seq<u8>) -> i32 {
    spec_u32_as_i32(spec_u32_from_le_bytes(b.subrange(0, 4)))
}

/// The twelve known record types.
pub open spec fn spec_valid_type(t: i32) -> bool {
    0 <= t <= 11
}

/// The record `r` holds exactly the fields stored in the 384-byte block
/// `b`, each read at its fixed offset.
pub open spec fn spec_decodes_to(b: Seq<u8>, r: Utmp) -> bool
    recommends
        b.len() == 384,
{
    &&& r.ut_type == spec_block_type(b)
    &&& r.ut_pid == spec_u32_as_i32(spec_u32_from_le_bytes(b.subrange(4, 8)))
    &&& r.ut_line@ == b.subrange(8, 40)
    &&& r.ut_id@ == b.subrange(40, 44)
    &&& r.ut_user@ == b.subrange(44, 76)
    &&& r.ut_host@ == b.subrange(76, 332)
    &&& r.ut_termination == spec_u16_as_i16(spec_u16_from_le_bytes(b.subrange(332, 334)))
    &&& r.ut_exit == spec_u16_as_i16(spec_u16_from_le_bytes(b.subrange(334, 336)))
    &&& r.ut_session == spec_u32_as_i32(spec_u32_from_le_bytes(b.subrange(336, 340)))
    &&& r.ut_time_sec == spec_u32_from_le_bytes(b.subrange(340, 344))
    &&& r.ut_time_usec == spec_u32_from_le_bytes(b.subrange(344, 348))
    &&& r.ut_addr_v6@[0] == spec_u32_from_le_bytes(b.subrange(348, 352))
    &&& r.ut_addr_v6@[1] == spec_u32_from_le_bytes(b.subrange(352, 356))
    &&& r.ut_addr_v6@[2] == spec_u32_from_le_bytes(b.subrange(356, 360))
    &&& r.ut_addr_v6@[3] == spec_u32_from_le_bytes(b.subrange(360, 364))
    &&& r.__unused@ == b.subrange(364, 384)
}

/// Read every field of one 384-byte block, without validating the type.
pub(crate) fn record_from_block(b: &[u8]) -> (r: Utmp)
    requires
        b@.len() == 384,
    ensures
        r.wf(),
        spec_decodes_to(b@, r),
{
    let ut_type: i32 = u32_as_i32(u32_from_le_bytes(&b[0..4]));
    let ut_pid: i32 = u32_as_i32(u32_from_le_bytes(&b[4..8]));
    let ut_line: Vec<u8> = slice_to_vec(&b[8..40]);
    let ut_id: Vec<u8> = slice_to_vec(&b[40..44]);
    let ut_user: Vec<u8> = slice_to_vec(&b[44..76]);
    let ut_host: Vec<u8> = slice_to_vec(&b[76..332]);
    let ut_termination: i16 = u16_as_i16(u16_from_le_bytes(&b[332..334]));
    let ut_exit: i16 = u16_as_i16(u16_from_le_bytes(&b[334..336]));
    let ut_session: i32 = u32_as_i32(u32_from_le_bytes(&b[336..340]));
    let ut_time_sec: u32 = u32_from_le_bytes(&b[340..344]);
    let ut_time_usec: u32 = u32_from_le_bytes(&b[344..348]);
    let w0: u32 = u32_from_le_bytes(&b[348..352]);
    let w1: u32 = u32_from_le_bytes(&b[352..356]);
    let w2: u32 = u32_from_le_bytes(&b[356..360]);
    let w3: u32 = u32_from_le_bytes(&b[360..364]);
    let unused: Vec<u8> = slice_to_vec(&b[364..384]);
    Utmp {
        ut_type,
        ut_pid,
        ut_line,
        ut_id,
        ut_user,
        ut_host,
        ut_termination,
        ut_exit,
        ut_session,
        ut_time_sec,
        ut_time_usec,
        ut_addr_v6: [w0, w1, w2, w3],
        __unused: unused,
    }
}

impl Utmp {
    /// Encode this record into its 384-byte on-disk form.
    pub fn as_bytes_vec(&self) -> (out: Vec<u8>)
        ensures
            out@ == self.spec_encoded(),
            out@.len() == 384,
    {
        let mut out: Vec<u8> = Vec::new();
        let mut piece: Vec<u8> = u32_to_le_bytes(i32_as_u32(self.ut_type));
        out.append(&mut piece);
        let mut piece: Vec<u8> = u32_to_le_bytes(i32_as_u32(self.ut_pid));
        out.append(&mut piece);
        push_field(&mut out, &self.ut_line, 32);
        push_field(&mut out, &self.ut_id, 4);
        push_field(&mut out, &self.ut_user, 32);
        push_field(&mut out, &self.ut_host, 256);
        let mut piece: Vec<u8> = u16_to_le_bytes(i16_as_u16(self.ut_termination));
        out.append(&mut piece);
        let mut piece: Vec<u8> = u16_to_le_bytes(i16_as_u16(self.ut_exit));
        out.append(&mut piece);
        let mut piece: Vec<u8> = u32_to_le_bytes(i32_as_u32(self.ut_session));
        out.append(&mut piece);
        let mut piece: Vec<u8> = u32_to_le_bytes(self.ut_time_sec);
        out.append(&mut piece);
        let mut piece: Vec<u8> = u32_to_le_bytes(self.ut_time_usec);
        out.append(&mut piece);
        let mut piece: Vec<u8> = u32_to_le_bytes(self.ut_addr_v6[0]);
        out.append(&mut piece);
        let mut piece: Vec<u8> = u32_to_le_bytes(self.ut_addr_v6[1]);
        out.append(&mut piece);
        let mut piece: Vec<u8> = u32_to_le_bytes(self.ut_addr_v6[2]);
        out.append(&mut piece);
        let mut piece: Vec<u8> = u32_to_le_bytes(self.ut_addr_v6[3]);
        out.append(&mut piece);
        let empty: Vec<u8> = Vec::new();
        push_field(&mut out, &empty, 20);
        proof {
            lemma_encoded_len(*self);
        }
        out
    }
}

/// Decoding an encoded record recovers every field unchanged, except the
/// reserved bytes, which come back as all zero.
pub proof fn lemma_round_trip(r: Utmp, r2: Utmp)
    requires
        r.wf(),
        spec_decodes_to(r.spec_encoded(), r2),
    ensures
        r2.ut_type == r.ut_type,
        r2.ut_pid == r.ut_pid,
        r2.ut_line@ == r.ut_line@,
        r2.ut_id@ == r.ut_id@,
        r2.ut_user@ == r.ut_user@,
        r2.ut_host@ == r.ut_host@,
        r2.ut_termination == r.ut_termination,
        r2.ut_exit == r.ut_exit,
        r2.ut_session == r.ut_session,
        r2.ut_time_sec == r.ut_time_sec,
        r2.ut_time_usec == r.ut_time_usec,
        r2.ut_addr_v6@ == r.ut_addr_v6@,
        r2.__unused@ == Seq::new(20, |i: int| 0u8),
{
    lemma_auto_spec_u32_to_from_le_bytes();
    lemma_auto_spec_u16_to_from_le_bytes();
    lemma_encoded_len(r);
    let e = r.spec_encoded();
    assert(e.subrange(0, 4) =~= spec_u32_to_le_bytes(spec_i32_as_u32(r.ut_type)));
    assert(e.subrange(4, 8) =~= spec_u32_to_le_bytes(spec_i32_as_u32(r.ut_pid)));
    assert(e.subrange(8, 40) =~= spec_pad_field(r.ut_line@, 32));
    assert(e.subrange(40, 44) =~= spec_pad_field(r.ut_id@, 4));
    assert(e.subrange(44, 76) =~= spec_pad_field(r.ut_user@, 32));
    assert(e.subrange(76, 332) =~= spec_pad_field(r.ut_host@, 256));
    assert(e.subrange(332, 334) =~= spec_u16_to_le_bytes(spec_i16_as_u16(r.ut_termination)));
    assert(e.subrange(334, 336) =~= spec_u16_to_le_bytes(spec_i16_as_u16(r.ut_exit)));
    assert(e.subrange(336, 340) =~= spec_u32_to_le_bytes(spec_i32_as_u32(r.ut_session)));
    assert(e.subrange(340, 344) =~= spec_u32_to_le_bytes(r.ut_time_sec));
    assert(e.subrange(344, 348) =~= spec_u32_to_le_bytes(r.ut_time_usec));
    assert(e.subrange(348, 352) =~= spec_u32_to_le_bytes(r.ut_addr_v6@[0]));
    assert(e.subrange(352, 356) =~= spec_u32_to_le_bytes(r.ut_addr_v6@[1]));
    assert(e.subrange(356, 360) =~= spec_u32_to_le_bytes(r.ut_addr_v6@[2]));
    assert(e.subrange(360, 364) =~= spec_u32_to_le_bytes(r.ut_addr_v6@[3]));
    assert(e.subrange(364, 384) =~= spec_pad_field(Seq::<u8>::empty(), 20));
    assert(spec_pad_field(r.ut_line@, 32) =~= r.ut_line@);
    assert(spec_pad_field(r.ut_id@, 4) =~= r.ut_id@);
    assert(spec_pad_field(r.ut_user@, 32) =~= r.ut_user@);
    assert(spec_pad_field(r.ut_host@, 256) =~= r.ut_host@);
    assert(spec_pad_field(Seq::<u8>::empty(), 20) =~= Seq::new(20, |i: int| 0u8));
    lemma_i32_u32_roundtrip(r.ut_type);
    lemma_i32_u32_roundtrip(r.ut_pid);
    lemma_i32_u32_roundtrip(r.ut_session);
    lemma_i16_u16_roundtrip(r.ut_termination);
    lemma_i16_u16_roundtrip(r.ut_exit);
    assert(r2.ut_addr_v6@ =~= r.ut_addr_v6@);
}

/// Re-encoding a decoded block reproduces the block byte for byte, except
/// the reserved tail, which is written as zero.
pub proof fn lemma_reencode(b: Seq<u8>, r: Utmp)
    requires
        b.len() == 384,
        spec_decodes_to(b, r),
    ensures
        r.spec_encoded().subrange(0, 364) == b.subrange(0, 364),
        r.spec_encoded().subrange(364, 384) == Seq::new(20, |i: int| 0u8),
{
    lemma_auto_spec_u32_to_from_le_bytes();
    lemma_auto_spec_u16_to_from_le_bytes();
    lemma_encoded_len(r);
    lemma_u32_i32_roundtrip(spec_u32_from_le_bytes(b.subrange(0, 4)));
    lemma_u32_i32_roundtrip(spec_u32_from_le_bytes(b.subrange(4, 8)));
    lemma_u32_i32_roundtrip(spec_u32_from_le_bytes(b.subrange(336, 340)));
    lemma_u16_i16_roundtrip(spec_u16_from_le_bytes(b.subrange(332, 334)));
    lemma_u16_i16_roundtrip(spec_u16_from_le_bytes(b.subrange(334, 336)));
    let e = r.spec_encoded();
    assert(spec_pad_field(r.ut_line@, 32) =~= r.ut_line@);
    assert(spec_pad_field(r.ut_id@, 4) =~= r.ut_id@);
    assert(spec_pad_field(r.ut_user@, 32) =~= r.ut_user@);
    assert(spec_pad_field(r.ut_host@, 256) =~= r.ut_host@);
    assert(e.subrange(0, 364) =~= b.subrange(0, 364));
    assert(e.subrange(364, 384) =~= Seq::new(20, |i: int| 0u8));
}

impl Utmp {
    /// Encode this record into its 384-byte on-disk form, as a fixed
    /// array.
    pub fn as_bytes(&self) -> (out: [u8; 384])
        ensures
            out@ == self.spec_encoded(),
            out@.len() == 384,
    {
        let v: Vec<u8> = self.as_bytes_vec();
        let mut out: [u8; 384] = [0u8; 384];
        let mut i: usize = 0;
        while i < 384
            invariant
                i <= 384,
                v@ == self.spec_encoded(),
                v@.len() == 384,
                out@.len() == 384,
                forall|j: int| 0 <= j < i ==> out@[j] == v@[j],
            decreases 384 - i,
        {
            out[i] = v[i];
            i += 1;
        }
        proof {
            assert(out@ =~= self.spec_encoded());
        }
        out
    }
}

} // verus!
