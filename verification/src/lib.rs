#![allow(unused_imports)]
use vstd::prelude::*;

pub mod engine;
pub mod entry;
pub mod ulity;
pub mod utmp;

use crate::entry::UtmpError;
use crate::utmp::{
    record_from_block, spec_block_type, spec_decodes_to, spec_valid_type, Utmp,
};
use vstd::slice::slice_to_vec;

verus! {

/// Record does not contain valid info (formerly known as `UT_UNKNOWN` on Linux)
pub const EMPTY: i32 = 0;

pub const UT_UNKNOWN: i32 = 0;

/// Change in system run-level (see `init(8)`)
pub const RUN_LVL: i32 = 1;

/// Time of system boot (in `ut_tv`)
pub const BOOT_TIME: i32 = 2;

/// Time after system clock change (in `ut_tv`)
pub const NEW_TIME: i32 = 3;

/// Time before system clock change (in `ut_tv`)
pub const OLD_TIME: i32 = 4;

/// Process spawned by `init(8)`
pub const INIT_PROCESS: i32 = 5;

/// Session leader process for user login
pub const LOGIN_PROCESS: i32 = 6;

/// Normal process
pub const USER_PROCESS: i32 = 7;

/// Terminated process
pub const DEAD_PROCESS: i32 = 8;

/// Not implemented
pub const ACCOUNTING: i32 = 9;

/// Signature, value used in file header
pub const SIGNATURE: i32 = 10;

/// Time of system shutdown
pub const SHUTDOWN_TIME: i32 = 11;

pub const UT_LINESIZE: usize = 32;

pub const UT_NAMESIZE: usize = 32;

pub const UT_HOSTSIZE: usize = 256;

pub const UT_RECORDSIZE: usize = 384;

/// The `k`-th 384-byte block of a buffer.
pub open spec fn spec_chunk(data: Seq<u8>, k: int) -> Seq<u8> {
    data.subrange(384 * k, 384 * k + 384)
}

/// Decode the record stored in the first 384 bytes of `i`.  Fails exactly
/// when the record type tag lies outside the twelve known values; any
/// byte pattern in the remaining fields is structurally acceptable.
pub fn take_one_record(i: &[u8]) -> (r: Result<Utmp, UtmpError>)
    requires
        i@.len() >= 384,
    ensures
        ({
            let b = i@.subrange(0, 384);
            &&& (r is Ok <==> spec_valid_type(spec_block_type(b)))
            &&& (r matches Ok(rec) ==> rec.wf() && spec_decodes_to(b, rec))
            &&& (r matches Err(e) ==> e == UtmpError::InvalidRecordType(spec_block_type(b)))
        }),
{
    let block: &[u8] = &i[0..384];
    let rec = record_from_block(block);
    if 0 <= rec.ut_type && rec.ut_type <= 11 {
        Ok(rec)
    } else {
        Err(UtmpError::InvalidRecordType(rec.ut_type))
    }
}

/// Decode the record stored in the first 384 bytes of `i`, returning the
/// raw block alongside it.
pub fn take_one_record_with_original_data(i: &[u8]) -> (r: Result<(Vec<u8>, Utmp), UtmpError>)
    requires
        i@.len() >= 384,
    ensures
        ({
            let b = i@.subrange(0, 384);
            &&& (r is Ok <==> spec_valid_type(spec_block_type(b)))
            &&& (r matches Ok(p) ==> p.0@ == b && p.1.wf() && spec_decodes_to(b, p.1))
            &&& (r matches Err(e) ==> e == UtmpError::InvalidRecordType(spec_block_type(b)))
        }),
{
    let block: &[u8] = &i[0..384];
    let data: Vec<u8> = slice_to_vec(block);
    let rec = record_from_block(block);
    if 0 <= rec.ut_type && rec.ut_type <= 11 {
        Ok((data, rec))
    } else {
        Err(UtmpError::InvalidRecordType(rec.ut_type))
    }
}

/// Split the buffer into consecutive 384-byte blocks and decode them in
/// order, stopping at the first invalid record or at the last full block;
/// a trailing partial block is never decoded.
pub fn take_all_records(i: &[u8]) -> (r: Vec<Utmp>)
    ensures
        r@.len() <= i@.len() as int / 384,
        forall|k: int|
            0 <= k < r@.len() ==> {
                &&& (#[trigger] r@[k]).wf()
                &&& spec_decodes_to(spec_chunk(i@, k), r@[k])
                &&& spec_valid_type(spec_block_type(spec_chunk(i@, k)))
            },
        r@.len() < i@.len() as int / 384 ==> !spec_valid_type(
            spec_block_type(spec_chunk(i@, r@.len() as int)),
        ),
{
    let n: usize = i.len() / 384;
    let mut out: Vec<Utmp> = Vec::new();
    let mut k: usize = 0;
    while k < n
        invariant
            k <= n,
            n == i@.len() as int / 384,
            i@.len() <= usize::MAX,
            i@.len() >= 384 * n,
            out@.len() == k,
            forall|j: int|
                0 <= j < k ==> {
                    &&& (#[trigger] out@[j]).wf()
                    &&& spec_decodes_to(spec_chunk(i@, j), out@[j])
                    &&& spec_valid_type(spec_block_type(spec_chunk(i@, j)))
                },
        decreases n - k,
    {
        let start: usize = k * 384;
        let chunk: &[u8] = &i[start..start + 384];
        proof {
            assert(chunk@.subrange(0, 384) =~= spec_chunk(i@, k as int));
        }
        match take_one_record(chunk) {
            Ok(rec) => {
                let ghost prev = out@;
                out.push(rec);
                proof {
                    assert forall|j: int| 0 <= j < out@.len() implies {
                        &&& (#[trigger] out@[j]).wf()
                        &&& spec_decodes_to(spec_chunk(i@, j), out@[j])
                        &&& spec_valid_type(spec_block_type(spec_chunk(i@, j)))
                    } by {
                        if j < prev.len() {
                            assert(out@[j] == prev[j]);
                        } else {
                            assert(out@[j] == rec);
                            assert(spec_chunk(i@, j) =~= chunk@.subrange(0, 384));
                        }
                    }
                }
            },
            Err(_) => {
                return out;
            },
        }
        k += 1;
    }
    out
}

/// As `take_all_records`, but each decoded record is paired with its raw
/// 384-byte block, so that a caller can write blocks back unchanged.
pub fn take_all_records_with_original_data(i: &[u8]) -> (r: Vec<(Vec<u8>, Utmp)>)
    ensures
        r@.len() <= i@.len() as int / 384,
        forall|k: int|
            0 <= k < r@.len() ==> {
                &&& (#[trigger] r@[k]).0@ == spec_chunk(i@, k)
                &&& r@[k].1.wf()
                &&& spec_decodes_to(spec_chunk(i@, k), r@[k].1)
                &&& spec_valid_type(spec_block_type(spec_chunk(i@, k)))
            },
        r@.len() < i@.len() as int / 384 ==> !spec_valid_type(
            spec_block_type(spec_chunk(i@, r@.len() as int)),
        ),
{
    let n: usize = i.len() / 384;
    let mut out: Vec<(Vec<u8>, Utmp)> = Vec::new();
    let mut k: usize = 0;
    while k < n
        invariant
            k <= n,
            n == i@.len() as int / 384,
            i@.len() <= usize::MAX,
            i@.len() >= 384 * n,
            out@.len() == k,
            forall|j: int|
                0 <= j < k ==> {
                    &&& (#[trigger] out@[j]).0@ == spec_chunk(i@, j)
                    &&& out@[j].1.wf()
                    &&& spec_decodes_to(spec_chunk(i@, j), out@[j].1)
                    &&& spec_valid_type(spec_block_type(spec_chunk(i@, j)))
                },
        decreases n - k,
    {
        let start: usize = k * 384;
        let chunk: &[u8] = &i[start..start + 384];
        proof {
            assert(chunk@.subrange(0, 384) =~= spec_chunk(i@, k as int));
        }
        match take_one_record_with_original_data(chunk) {
            Ok(p) => {
                let ghost prev = out@;
                out.push(p);
                proof {
                    assert forall|j: int| 0 <= j < out@.len() implies {
                        &&& (#[trigger] out@[j]).0@ == spec_chunk(i@, j)
                        &&& out@[j].1.wf()
                        &&& spec_decodes_to(spec_chunk(i@, j), out@[j].1)
                        &&& spec_valid_type(spec_block_type(spec_chunk(i@, j)))
                    } by {
                        if j < prev.len() {
                            assert(out@[j] == prev[j]);
                        } else {
                            assert(spec_chunk(i@, j) =~= chunk@.subrange(0, 384));
                        }
                    }
                }
            },
            Err(_) => {
                return out;
            },
        }
        k += 1;
    }
    out
}

} // verus!
