//! The selection and retention engine: scans classified entries in file
//! order, reports a recency-bounded list of matches (newest first), and
//! decides for every record position whether its raw block survives a
//! rewrite.  Only matched entries are ever marked for removal, and a
//! match that ages out of the bounded window is restored.
#![allow(unused_imports)]
use vstd::prelude::*;
use crate::entry::{i32_to_string, spec_classifies_to, spec_i32_dec, UtmpEntry};
use crate::utmp::{spec_decodes_to, spec_valid_type, spec_block_type, Utmp};
use crate::{spec_chunk, take_all_records_with_original_data};
use vstd::pervasive::unreached;

verus! {

/// One condition string matches an entry when it equals the entry's
/// decimal pid, its hostname, or its (non-empty) unique code.
pub open spec fn spec_cond_matches(c: Seq<char>, e: UtmpEntry) -> bool {
    ||| (e.pid matches Some(p) && c == spec_i32_dec(p))
    ||| (e.hostname matches Some(h) && c == h@)
    ||| (e.unioncode@.len() > 0 && c == e.unioncode@)
}

/// Whether some condition string in the list matches the entry.
pub open spec fn spec_any_cond(cs: Seq<String>, e: UtmpEntry) -> bool {
    exists|j: int| 0 <= j < cs.len() && #[trigger] spec_cond_matches(cs[j]@, e)
}

/// Whether an entry is selected: with no condition list every entry
/// matches; otherwise some condition string must match it.
pub open spec fn spec_is_match(e: UtmpEntry, conds: Option<Seq<String>>) -> bool {
    match conds {
        None => true,
        Some(cs) => spec_any_cond(cs, e),
    }
}

/// The condition list as a ghost value.
pub open spec fn spec_conds(c: Option<Vec<String>>) -> Option<Seq<String>> {
    match c {
        None => None,
        Some(v) => Some(v@),
    }
}

/// The positions of the matching entries among the first `n`, in
/// ascending order.
pub open spec fn spec_matched_upto(es: Seq<UtmpEntry>, conds: Option<Seq<String>>, n: int) -> Seq<
    int,
>
    decreases n,
{
    if n <= 0 {
        Seq::empty()
    } else if spec_is_match(es[n - 1], conds) {
        spec_matched_upto(es, conds, n - 1).push(n - 1)
    } else {
        spec_matched_upto(es, conds, n - 1)
    }
}

/// How many of the matches are reported: all of them when `max_count` is
/// zero (unbounded), at most `max_count` otherwise.
pub open spec fn spec_cap(len: nat, max_count: u32) -> int {
    if max_count == 0 || len <= max_count {
        len as int
    } else {
        max_count as int
    }
}

/// Whether `p` stands among the last `k` elements of `m`.
pub open spec fn spec_in_last(m: Seq<int>, k: int, p: int) -> bool {
    exists|t: int| m.len() - k <= t < m.len() && m[t] == p
}

pub proof fn lemma_matched_props(es: Seq<UtmpEntry>, conds: Option<Seq<String>>, n: int)
    requires
        0 <= n <= es.len(),
    ensures
        spec_matched_upto(es, conds, n).len() <= n,
        forall|t: int|
            0 <= t < spec_matched_upto(es, conds, n).len() ==> 0 <= #[trigger] spec_matched_upto(
                es,
                conds,
                n,
            )[t] < n,
        forall|t1: int, t2: int|
            0 <= t1 < t2 < spec_matched_upto(es, conds, n).len() ==> spec_matched_upto(
                es,
                conds,
                n,
            )[t1] < spec_matched_upto(es, conds, n)[t2],
        forall|t: int|
            0 <= t < spec_matched_upto(es, conds, n).len() ==> spec_is_match(
                es[spec_matched_upto(es, conds, n)[t]],
                conds,
            ),
        forall|p: int|
            0 <= p < n && spec_is_match(es[p], conds) ==> spec_matched_upto(
                es,
                conds,
                n,
            ).contains(p),
    decreases n,
{
    if n > 0 {
        lemma_matched_props(es, conds, n - 1);
        let m0 = spec_matched_upto(es, conds, n - 1);
        let m = spec_matched_upto(es, conds, n);
        assert forall|p: int| 0 <= p < n && spec_is_match(es[p], conds) implies m.contains(p) by {
            if p < n - 1 {
                assert(m0.contains(p));
                let t = choose|t: int| 0 <= t < m0.len() && m0[t] == p;
                assert(0 <= t < m.len());
                assert(m[t] == p);
            } else {
                assert(m[m.len() - 1] == p);
            }
        }
    }
}

fn cond_matches(c: &String, e: &UtmpEntry) -> (r: bool)
    ensures
        r == spec_cond_matches(c@, *e),
{
    let pid_match: bool = match &e.pid {
        Some(p) => {
            let ps: String = i32_to_string(*p);
            c.eq(&ps)
        },
        None => false,
    };
    if pid_match {
        return true;
    }
    let host_match: bool = match &e.hostname {
        Some(h) => c.eq(h),
        None => false,
    };
    if host_match {
        return true;
    }
    if !e.unioncode.as_str().is_empty() {
        c.eq(&e.unioncode)
    } else {
        false
    }
}

/// Whether any of the condition strings matches the entry.
pub fn entry_matches(e: &UtmpEntry, conds: &Vec<String>) -> (r: bool)
    ensures
        r == spec_is_match(*e, Some(conds@)),
{
    let mut j: usize = 0;
    while j < conds.len()
        invariant
            0 <= j <= conds@.len(),
            forall|t: int| 0 <= t < j ==> !spec_cond_matches(#[trigger] conds@[t]@, *e),
        decreases conds@.len() - j,
    {
        if cond_matches(&conds[j], e) {
            proof {
                assert(spec_is_match(*e, Some(conds@))) by {
                    assert(0 <= (j as int) < conds@.len());
                    assert(spec_cond_matches(conds@[j as int]@, *e));
                }
            }
            return true;
        }
        j += 1;
    }
    false
}

/// The reported list and the retention decisions are exactly those of
/// the recency-bounded selection over `es`: with `m` the ascending
/// positions of the matching entries and `k` their number capped by
/// `max_count` (zero meaning unbounded), the report holds the last `k`
/// matched positions newest first, each with its entry, and a position
/// is retained on disk if and only if it is not one of those last `k`
/// matches.
pub open spec fn spec_selection_ok(
    es: Seq<UtmpEntry>,
    conds: Option<Seq<String>>,
    max_count: u32,
    report: Seq<(usize, UtmpEntry)>,
    retain: Seq<bool>,
) -> bool {
    let m = spec_matched_upto(es, conds, es.len() as int);
    let k = spec_cap(m.len(), max_count);
    &&& report.len() == k
    &&& (forall|q: int| 0 <= q < k ==> (#[trigger] report[q]).0 as int == m[m.len() - 1 - q])
    &&& (forall|q: int| 0 <= q < k ==> (#[trigger] report[q]).1 == es[m[m.len() - 1 - q]])
    &&& retain.len() == es.len()
    &&& (forall|p: int| 0 <= p < es.len() ==> (#[trigger] retain[p]) == !spec_in_last(m, k, p))
}

/// Scan the classified entries in ascending position order and decide
/// which are reported and which raw blocks survive a rewrite.  Returns
/// the reported `(position, entry)` list, newest first and bounded by
/// `max_count` (zero meaning unbounded), and one retention decision per
/// scanned position.  An entry that fails the conditions is always
/// retained; a match that ages out of the bounded window is retained
/// again.
pub fn select_records(
    entries: Vec<UtmpEntry>,
    conditions: &Option<Vec<String>>,
    max_count: u32,
) -> (r: (Vec<(usize, UtmpEntry)>, Vec<bool>))
    ensures
        spec_selection_ok(entries@, spec_conds(*conditions), max_count, r.0@, r.1@),
        max_count != 0 ==> r.0@.len() <= max_count,
        forall|p: int|
            0 <= p < entries@.len() && !spec_is_match(entries@[p], spec_conds(*conditions))
                ==> r.1@[p],
{
    let ghost cv = spec_conds(*conditions);
    let ghost es = entries@;
    let n: usize = entries.len();
    let mut retain: Vec<bool> = Vec::new();
    let mut window: Vec<usize> = Vec::new();
    let mut i: usize = 0;
    while i < n
        invariant
            i <= n,
            n == es.len(),
            es == entries@,
            cv == spec_conds(*conditions),
            retain@.len() == i,
            ({
                let m = spec_matched_upto(es, cv, i as int);
                let k = window@.len() as int;
                &&& k == spec_cap(m.len(), max_count)
                &&& (forall|t: int|
                    0 <= t < k ==> (#[trigger] window@[t]) as int == m[m.len() - k + t])
                &&& (forall|p: int|
                    0 <= p < i ==> (#[trigger] retain@[p]) == !spec_in_last(m, k, p))
            }),
        decreases n - i,
    {
        let ghost m = spec_matched_upto(es, cv, i as int);
        let ghost k = window@.len() as int;
        proof {
            lemma_matched_props(es, cv, i as int);
            lemma_matched_props(es, cv, i as int + 1);
        }
        let matched: bool = match conditions {
            Some(cs) => entry_matches(&entries[i], cs),
            None => true,
        };
        let ghost m2 = spec_matched_upto(es, cv, i as int + 1);
        if matched {
            proof {
                assert(m2 == m.push(i as int));
            }
            retain.push(false);
            window.push(i);
            if max_count != 0 && window.len() > max_count as usize {
                let ghost win_pushed = window@;
                let oldest: usize = window.remove(0);
                proof {
                    assert(k == max_count as int);
                    assert(oldest as int == m[m.len() - k]);
                    assert(0 <= m[m.len() - k] < i as int);
                }
                retain[oldest] = true;
                proof {
                    let k2 = window@.len() as int;
                    assert(k2 == k);
                    assert(k2 == spec_cap(m2.len(), max_count));
                    win_pushed.remove_ensures(0);
                    assert forall|t: int| 0 <= t < k2 implies (#[trigger] window@[t]) as int
                        == m2[m2.len() - k2 + t] by {
                        assert(window@[t] == win_pushed[t + 1]);
                        if t + 1 < k {
                            assert(win_pushed[t + 1] as int == m[m.len() - k + t + 1]);
                            assert(m2[m2.len() - k2 + t] == m[m.len() - k + t + 1]);
                        } else {
                            assert(win_pushed[t + 1] == i);
                            assert(m2[m2.len() - 1] == i as int);
                        }
                    }
                    assert forall|p: int| 0 <= p < i as int + 1 implies (#[trigger] retain@[p])
                        == !spec_in_last(m2, k2, p) by {
                        if p == i as int {
                            assert(retain@[p] == false);
                            assert(m2[m2.len() - 1] == p);
                            assert(spec_in_last(m2, k2, p));
                        } else if p == oldest as int {
                            assert(retain@[p] == true);
                            assert forall|t: int| m2.len() - k2 <= t < m2.len() implies m2[t]
                                != p by {
                                if t == m2.len() - 1 {
                                    assert(m2[t] == i as int);
                                } else {
                                    assert(m2[t] == m[t]);
                                    assert(t > m.len() - k);
                                    assert(m[m.len() - k] < m[t]);
                                }
                            }
                            assert(!spec_in_last(m2, k2, p));
                        } else {
                            if spec_in_last(m, k, p) {
                                let t = choose|t: int|
                                    m.len() - k <= t < m.len() && m[t] == p;
                                assert(t != m.len() - k);
                                assert(m2[t] == p);
                                assert(m2.len() - k2 <= t < m2.len());
                                assert(spec_in_last(m2, k2, p));
                            }
                            if spec_in_last(m2, k2, p) {
                                let t = choose|t: int|
                                    m2.len() - k2 <= t < m2.len() && m2[t] == p;
                                assert(t != m2.len() - 1);
                                assert(m2[t] == m[t]);
                                assert(m.len() - k <= t < m.len());
                                assert(spec_in_last(m, k, p));
                            }
                        }
                    }
                }
            } else {
                proof {
                    let k2 = window@.len() as int;
                    assert(k2 == k + 1);
                    assert(k2 == spec_cap(m2.len(), max_count));
                    assert forall|t: int| 0 <= t < k2 implies (#[trigger] window@[t]) as int
                        == m2[m2.len() - k2 + t] by {
                        if t < k {
                            assert(m2[m2.len() - k2 + t] == m[m.len() - k + t]);
                        } else {
                            assert(window@[t] == i);
                            assert(m2[m2.len() - 1] == i as int);
                        }
                    }
                    assert forall|p: int| 0 <= p < i as int + 1 implies (#[trigger] retain@[p])
                        == !spec_in_last(m2, k2, p) by {
                        if p == i as int {
                            assert(retain@[p] == false);
                            assert(m2[m2.len() - 1] == p);
                            assert(spec_in_last(m2, k2, p));
                        } else {
                            if spec_in_last(m, k, p) {
                                let t = choose|t: int|
                                    m.len() - k <= t < m.len() && m[t] == p;
                                assert(m2[t] == p);
                                assert(m2.len() - k2 <= t < m2.len());
                                assert(spec_in_last(m2, k2, p));
                            }
                            if spec_in_last(m2, k2, p) {
                                let t = choose|t: int|
                                    m2.len() - k2 <= t < m2.len() && m2[t] == p;
                                assert(t != m2.len() - 1);
                                assert(m2[t] == m[t]);
                                assert(spec_in_last(m, k, p));
                            }
                        }
                    }
                }
            }
        } else {
            retain.push(true);
            proof {
                assert(m2 == m);
                assert forall|p: int| 0 <= p < i as int + 1 implies (#[trigger] retain@[p])
                    == !spec_in_last(m2, k, p) by {
                    if p == i as int {
                        assert forall|t: int| m2.len() - k <= t < m2.len() implies m2[t]
                            != p by {
                            assert(m2[t] < i as int);
                        }
                        assert(!spec_in_last(m2, k, p));
                    }
                }
            }
        }
        i += 1;
    }
    let ghost m = spec_matched_upto(es, cv, n as int);
    let ghost k = window@.len() as int;
    proof {
        lemma_matched_props(es, cv, n as int);
    }
    let mut report: Vec<(usize, UtmpEntry)> = Vec::new();
    let mut t: usize = window.len();
    while t > 0
        invariant
            t <= window@.len(),
            n == es.len(),
            es == entries@,
            k == window@.len() as int,
            m == spec_matched_upto(es, cv, n as int),
            k == spec_cap(m.len(), max_count),
            forall|u: int| 0 <= u < k ==> (#[trigger] window@[u]) as int == m[m.len() - k + u],
            forall|u: int| 0 <= u < k ==> 0 <= #[trigger] m[m.len() - k + u] < n,
            report@.len() == k - t,
            forall|q: int|
                0 <= q < report@.len() ==> (#[trigger] report@[q]).0 as int == m[m.len() - 1 - q]
                    && report@[q].1 == es[m[m.len() - 1 - q]],
        decreases t,
    {
        t -= 1;
        let pos: usize = window[t];
        let e: UtmpEntry = entries[pos].clone();
        report.push((pos, e));
        proof {
            let q = report@.len() - 1;
            assert(q == k - 1 - t);
            assert(m.len() - 1 - q == m.len() - k + t);
        }
    }
    (report, retain)
}

/// The concatenation of the retained blocks among the first `n`.
pub open spec fn spec_retained_concat(blocks: Seq<Vec<u8>>, retain: Seq<bool>, n: int) -> Seq<u8>
    decreases n,
{
    if n <= 0 {
        Seq::empty()
    } else {
        spec_retained_concat(blocks, retain, n - 1) + (if retain[n - 1] {
            blocks[n - 1]@
        } else {
            Seq::empty()
        })
    }
}

/// The concatenation of the retained 384-byte chunks of a buffer.
pub open spec fn spec_retained_chunks(data: Seq<u8>, retain: Seq<bool>, n: int) -> Seq<u8>
    decreases n,
{
    if n <= 0 {
        Seq::empty()
    } else {
        spec_retained_chunks(data, retain, n - 1) + (if retain[n - 1] {
            spec_chunk(data, n - 1)
        } else {
            Seq::empty()
        })
    }
}

proof fn lemma_retained_eq(blocks: Seq<Vec<u8>>, data: Seq<u8>, retain: Seq<bool>, n: int)
    requires
        0 <= n <= blocks.len(),
        n <= retain.len(),
        forall|k: int| 0 <= k < n ==> (#[trigger] blocks[k])@ == spec_chunk(data, k),
    ensures
        spec_retained_concat(blocks, retain, n) == spec_retained_chunks(data, retain, n),
    decreases n,
{
    if n > 0 {
        lemma_retained_eq(blocks, data, retain, n - 1);
    }
}

/// Concatenate, in original order, the raw blocks whose retention
/// decision is true; blocks marked for deletion contribute nothing.
pub fn concat_retained(blocks: &Vec<Vec<u8>>, retain: &Vec<bool>) -> (out: Vec<u8>)
    requires
        blocks@.len() == retain@.len(),
    ensures
        out@ == spec_retained_concat(blocks@, retain@, blocks@.len() as int),
{
    let mut out: Vec<u8> = Vec::new();
    let mut idx: usize = 0;
    while idx < blocks.len()
        invariant
            idx <= blocks@.len(),
            retain@.len() == blocks@.len(),
            out@ == spec_retained_concat(blocks@, retain@, idx as int),
        decreases blocks@.len() - idx,
    {
        let ghost base = out@;
        if retain[idx] {
            let b: &Vec<u8> = &blocks[idx];
            let mut j: usize = 0;
            while j < b.len()
                invariant
                    j <= b@.len(),
                    b@ == blocks@[idx as int]@,
                    idx < blocks@.len(),
                    out@ == base + b@.take(j as int),
                decreases b@.len() - j,
            {
                out.push(b[j]);
                proof {
                    assert(b@.take(j + 1) =~= b@.take(j as int).push(b@[j as int]));
                }
                j += 1;
            }
            proof {
                assert(b@.take(b@.len() as int) =~= b@);
            }
        } else {
            proof {
                assert(base + Seq::<u8>::empty() =~= base);
            }
        }
        idx += 1;
    }
    out
}

/// The entry `e` is the classification of the record stored in block
/// `b`.
pub open spec fn spec_block_entry(b: Seq<u8>, e: UtmpEntry) -> bool {
    exists|u: Utmp| u.wf() && spec_decodes_to(b, u) && #[trigger] spec_classifies_to(u, e)
}

/// There is a sequence of entries, one per decoded block, classified
/// from those blocks, for which the report and the retention decisions
/// are exactly the recency-bounded selection.
pub open spec fn spec_outcome_entries_ok(
    data: Seq<u8>,
    dc: int,
    conds: Option<Seq<String>>,
    max_count: u32,
    report: Seq<(usize, UtmpEntry)>,
    retain: Seq<bool>,
) -> bool {
    exists|es: Seq<UtmpEntry>|
        {
            &&& es.len() == dc
            &&& (forall|k: int|
                0 <= k < dc ==> spec_block_entry(spec_chunk(data, k), #[trigger] es[k]))
            &&& spec_selection_ok(es, conds, max_count, report, retain)
        }
}

/// What one pass over a file buffer produces.
pub struct ProcessOutcome {
    /// Reported `(position, entry)` pairs, newest first, bounded by the
    /// requested count.
    pub entries: Vec<(usize, UtmpEntry)>,
    /// Per decoded position: whether its raw block survives a rewrite.
    pub retain: Vec<bool>,
    /// The surviving bytes, in original order; present exactly when
    /// deletion was requested.  Bytes after the decoded prefix (a
    /// trailing partial block, or anything following an invalid record)
    /// are preserved verbatim rather than silently dropped.
    pub retained_bytes: Option<Vec<u8>>,
    /// How many leading blocks decoded cleanly.
    pub decoded_count: usize,
    /// Whether every full block decoded cleanly.
    pub well_formed: bool,
}

/// One full pass of the core over a file buffer: decode the leading
/// well-formed blocks, classify them, select and bound the reported
/// matches, and, when deletion is requested, produce the bytes the file
/// should be rewritten with.
pub fn process_buffer(
    data: &[u8],
    conditions: &Option<Vec<String>>,
    max_count: u32,
    delete_requested: bool,
) -> (r: ProcessOutcome)
    ensures
        (r.decoded_count as int) <= data@.len() as int / 384,
        forall|k: int|
            0 <= k < r.decoded_count as int ==> spec_valid_type(
                spec_block_type(#[trigger] spec_chunk(data@, k)),
            ),
        (r.decoded_count as int) < data@.len() as int / 384 ==> !spec_valid_type(
            spec_block_type(spec_chunk(data@, r.decoded_count as int)),
        ),
        r.well_formed <==> r.decoded_count as int == data@.len() as int / 384,
        r.retain@.len() == r.decoded_count,
        spec_outcome_entries_ok(
            data@,
            r.decoded_count as int,
            spec_conds(*conditions),
            max_count,
            r.entries@,
            r.retain@,
        ),
        delete_requested ==> (r.retained_bytes matches Some(out) && out@ == spec_retained_chunks(
            data@,
            r.retain@,
            r.decoded_count as int,
        ) + data@.skip(384 * r.decoded_count as int)),
        !delete_requested ==> r.retained_bytes is None,
{
    let ghost data_v = data@;
    let ghost cv = spec_conds(*conditions);
    let mut items: Vec<(Vec<u8>, Utmp)> = take_all_records_with_original_data(data);
    let dc: usize = items.len();
    let ghost items_v = items@;
    let mut blocks: Vec<Vec<u8>> = Vec::new();
    let mut entries: Vec<UtmpEntry> = Vec::new();
    while items.len() > 0
        invariant
            blocks@.len() == entries@.len(),
            blocks@.len() + items@.len() == dc,
            forall|j: int|
                0 <= j < items@.len() ==> #[trigger] items@[j]
                    == items_v[dc - items@.len() + j],
            forall|j: int|
                0 <= j < dc ==> {
                    &&& (#[trigger] items_v[j]).0@ == spec_chunk(data_v, j)
                    &&& items_v[j].1.wf()
                    &&& spec_decodes_to(spec_chunk(data_v, j), items_v[j].1)
                    &&& spec_valid_type(spec_block_type(spec_chunk(data_v, j)))
                },
            forall|k: int|
                0 <= k < blocks@.len() ==> (#[trigger] blocks@[k])@ == spec_chunk(data_v, k),
            forall|k: int|
                0 <= k < entries@.len() ==> spec_block_entry(
                    spec_chunk(data_v, k),
                    #[trigger] entries@[k],
                ),
        decreases items@.len(),
    {
        let ghost consumed = blocks@.len() as int;
        let p: (Vec<u8>, Utmp) = items.remove(0);
        let ghost u = p.1;
        let e: UtmpEntry = match UtmpEntry::try_from(p.1) {
            Ok(e) => e,
            Err(_) => unreached(),
        };
        blocks.push(p.0);
        entries.push(e);
        proof {
            assert(spec_classifies_to(u, e));
            assert(spec_block_entry(spec_chunk(data_v, consumed), e));
        }
    }
    proof {
        assert forall|k: int| 0 <= k < dc as int implies spec_valid_type(
            spec_block_type(#[trigger] spec_chunk(data_v, k)),
        ) by {
            assert(items_v[k].1.wf());
        }
    }
    let ghost es_full = entries@;
    let sel: (Vec<(usize, UtmpEntry)>, Vec<bool>) = select_records(entries, conditions, max_count);
    let report: Vec<(usize, UtmpEntry)> = sel.0;
    let retain: Vec<bool> = sel.1;
    proof {
        assert(spec_outcome_entries_ok(data_v, dc as int, cv, max_count, report@, retain@)) by {
            assert({
                &&& es_full.len() == dc as int
                &&& (forall|k: int|
                    0 <= k < dc as int ==> spec_block_entry(
                        spec_chunk(data_v, k),
                        #[trigger] es_full[k],
                    ))
                &&& spec_selection_ok(es_full, cv, max_count, report@, retain@)
            });
        }
    }
    let dlen: usize = data.len();
    let retained_bytes: Option<Vec<u8>> = if delete_requested {
        let mut out: Vec<u8> = concat_retained(&blocks, &retain);
        proof {
            lemma_retained_eq(blocks@, data_v, retain@, dc as int);
        }
        proof {
            assert((dc as int) * 384 <= dlen as int);
        }
        let tail_start: usize = dc * 384;
        let ghost base = out@;
        let mut j: usize = tail_start;
        while j < data.len()
            invariant
                tail_start <= j <= data_v.len(),
                data_v == data@,
                tail_start == 384 * (dc as int),
                out@ == base + data_v.subrange(tail_start as int, j as int),
            decreases data_v.len() - j,
        {
            out.push(data[j]);
            proof {
                assert(data_v.subrange(tail_start as int, j + 1) =~= data_v.subrange(
                    tail_start as int,
                    j as int,
                ).push(data_v[j as int]));
            }
            j += 1;
        }
        proof {
            assert(out@ == base + data_v.skip(384 * dc as int)) by {
                assert(data_v.subrange(tail_start as int, data_v.len() as int) =~= data_v.skip(
                    384 * dc as int,
                ));
            }
        }
        Some(out)
    } else {
        None
    };
    let well_formed: bool = dc == dlen / 384;
    ProcessOutcome { entries: report, retain, retained_bytes, decoded_count: dc, well_formed }
}

} // verus!
