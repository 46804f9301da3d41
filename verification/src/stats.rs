//! Benchmark accounting: per-payload-size running totals of exchanges,
//! bytes moved and wall-clock nanoseconds, and the aggregate throughput
//! in whole bytes per second. Totals saturate instead of wrapping, and
//! the quotient is computed exactly in wide arithmetic.

use vstd::prelude::*;

verus! {

/// `a + b`, stuck at the top of the counter's range.
pub open spec fn sat_add(a: u64, b: u64) -> u64 {
    if a + b <= 0xffff_ffff_ffff_ffff {
        (a + b) as u64
    } else {
        0xffff_ffff_ffff_ffff
    }
}

/// Running totals for all exchanges of one payload size. A report is
/// read off the totals only after the size's exchanges are done, so
/// measurements are never interleaved mid-aggregate.
#[derive(Clone, Copy, PartialEq, Eq, Structural, Debug)]
pub struct SizeStats {
    pub payload_size: u64,
    pub exchanges: u64,
    pub total_bytes: u64,
    pub total_nanos: u64,
}

impl SizeStats {
    /// Fresh totals for one payload size.
    pub fn new(payload_size: u64) -> (s: SizeStats)
        ensures
            s.payload_size == payload_size,
            s.exchanges == 0,
            s.total_bytes == 0,
            s.total_nanos == 0,
    {
        SizeStats { payload_size, exchanges: 0, total_bytes: 0, total_nanos: 0 }
    }

    /// Record one finished exchange: `bytes` moved in `nanos` of wall
    /// clock. Every total saturates instead of wrapping.
    pub fn record_exchange(&mut self, bytes: u64, nanos: u64)
        ensures
            final(self).payload_size == old(self).payload_size,
            final(self).exchanges == sat_add(old(self).exchanges, 1),
            final(self).total_bytes == sat_add(old(self).total_bytes, bytes),
            final(self).total_nanos == sat_add(old(self).total_nanos, nanos),
    {
        self.exchanges = sat_add_exec(self.exchanges, 1);
        self.total_bytes = sat_add_exec(self.total_bytes, bytes);
        self.total_nanos = sat_add_exec(self.total_nanos, nanos);
    }

    /// The aggregate throughput this size saw, in whole bytes per
    /// second, or nothing before any time has been recorded.
    pub fn bytes_per_sec(&self) -> (r: Option<u64>)
        ensures
            self.total_nanos == 0 ==> r is None,
            self.total_nanos > 0 ==> r == Some(
                throughput_bytes_per_sec(self.total_bytes, self.total_nanos),
            ),
    {
        if self.total_nanos == 0 {
            None
        } else {
            Some(compute_throughput(self.total_bytes, self.total_nanos))
        }
    }
}

fn sat_add_exec(a: u64, b: u64) -> (r: u64)
    ensures
        r == sat_add(a, b),
{
    if a <= 0xffff_ffff_ffff_ffff - b {
        a + b
    } else {
        0xffff_ffff_ffff_ffff
    }
}

/// Throughput in whole bytes per second: total bytes scaled to a
/// second's worth of nanoseconds, divided by the nanoseconds spent,
/// stuck at the top of the range when it cannot be represented.
pub open spec fn throughput_bytes_per_sec(total_bytes: u64, total_nanos: u64) -> u64
    recommends
        total_nanos > 0,
{
    if total_bytes * 1_000_000_000 / (total_nanos as int) > 0xffff_ffff_ffff_ffff {
        0xffff_ffff_ffff_ffff
    } else {
        (total_bytes * 1_000_000_000 / (total_nanos as int)) as u64
    }
}

/// One finished exchange, as the driver recorded it: the payload size
/// it belongs to, the bytes moved, and the wall-clock nanoseconds spent.
#[derive(Clone, Copy, PartialEq, Eq, Structural, Debug)]
pub struct ExchangeRecord {
    pub payload_size: u64,
    pub bytes: u64,
    pub nanos: u64,
}

/// Whether some record in `rs` belongs to payload size `size`.
pub open spec fn has_size(rs: Seq<ExchangeRecord>, size: u64) -> bool {
    exists|i: int| 0 <= i < rs.len() && (#[trigger] rs[i]).payload_size == size
}

/// How many of the records belong to payload size `size`, saturating.
pub open spec fn count_for_size(rs: Seq<ExchangeRecord>, size: u64) -> u64
    decreases rs.len(),
{
    if rs.len() == 0 {
        0
    } else if rs.last().payload_size == size {
        sat_add(count_for_size(rs.drop_last(), size), 1)
    } else {
        count_for_size(rs.drop_last(), size)
    }
}

/// The total bytes the records of payload size `size` moved, saturating.
pub open spec fn bytes_for_size(rs: Seq<ExchangeRecord>, size: u64) -> u64
    decreases rs.len(),
{
    if rs.len() == 0 {
        0
    } else if rs.last().payload_size == size {
        sat_add(bytes_for_size(rs.drop_last(), size), rs.last().bytes)
    } else {
        bytes_for_size(rs.drop_last(), size)
    }
}

/// The total nanoseconds the records of payload size `size` spent,
/// saturating.
pub open spec fn nanos_for_size(rs: Seq<ExchangeRecord>, size: u64) -> u64
    decreases rs.len(),
{
    if rs.len() == 0 {
        0
    } else if rs.last().payload_size == size {
        sat_add(nanos_for_size(rs.drop_last(), size), rs.last().nanos)
    } else {
        nanos_for_size(rs.drop_last(), size)
    }
}

/// The distinct payload sizes of `rs`, each at its first appearance.
pub open spec fn sizes_in_first_order(rs: Seq<ExchangeRecord>) -> Seq<u64>
    decreases rs.len(),
{
    if rs.len() == 0 {
        Seq::empty()
    } else if sizes_in_first_order(rs.drop_last()).contains(rs.last().payload_size) {
        sizes_in_first_order(rs.drop_last())
    } else {
        sizes_in_first_order(rs.drop_last()).push(rs.last().payload_size)
    }
}

/// The payload sizes of a report list, in report order.
pub open spec fn report_sizes(stats: Seq<SizeStats>) -> Seq<u64> {
    Seq::new(stats.len(), |i: int| stats[i].payload_size)
}

/// Whether `st` holds exactly the totals `rs` has for `st`'s size.
pub open spec fn entry_matches(rs: Seq<ExchangeRecord>, st: SizeStats) -> bool {
    &&& st.exchanges == count_for_size(rs, st.payload_size)
    &&& st.total_bytes == bytes_for_size(rs, st.payload_size)
    &&& st.total_nanos == nanos_for_size(rs, st.payload_size)
}

proof fn lemma_sizes_track_has(rs: Seq<ExchangeRecord>, size: u64)
    ensures
        sizes_in_first_order(rs).contains(size) <==> has_size(rs, size),
    decreases rs.len(),
{
    if rs.len() > 0 {
        let butlast = rs.drop_last();
        lemma_sizes_track_has(butlast, size);
        let prev = sizes_in_first_order(butlast);
        let lastsz = rs.last().payload_size;
        assert(has_size(butlast, size) ==> has_size(rs, size)) by {
            if has_size(butlast, size) {
                let i = choose|i: int|
                    0 <= i < butlast.len() && (#[trigger] butlast[i]).payload_size == size;
                assert(rs[i].payload_size == size);
            }
        }
        if lastsz == size {
            assert(rs[rs.len() - 1].payload_size == size);
            assert(has_size(rs, size));
            if !prev.contains(size) {
                assert(prev.push(size)[prev.len() as int] == size);
                assert(prev.push(size).contains(size));
            }
        } else {
            assert(has_size(rs, size) ==> has_size(butlast, size)) by {
                if has_size(rs, size) {
                    let i = choose|i: int|
                        0 <= i < rs.len() && (#[trigger] rs[i]).payload_size == size;
                    assert(i < rs.len() - 1);
                    assert(butlast[i] == rs[i]);
                }
            }
            if !prev.contains(lastsz) {
                assert(prev.push(lastsz).contains(size) ==> prev.contains(size)) by {
                    if prev.push(lastsz).contains(size) {
                        let j = choose|j: int|
                            0 <= j < prev.push(lastsz).len() && prev.push(lastsz)[j] == size;
                        assert(j < prev.len());
                        assert(prev[j] == size);
                    }
                }
                assert(prev.contains(size) ==> prev.push(lastsz).contains(size)) by {
                    if prev.contains(size) {
                        let j = choose|j: int| 0 <= j < prev.len() && prev[j] == size;
                        assert(prev.push(lastsz)[j] == size);
                    }
                }
            }
        }
    }
}

proof fn lemma_absent_size_zero(rs: Seq<ExchangeRecord>, size: u64)
    requires
        !has_size(rs, size),
    ensures
        count_for_size(rs, size) == 0,
        bytes_for_size(rs, size) == 0,
        nanos_for_size(rs, size) == 0,
    decreases rs.len(),
{
    if rs.len() > 0 {
        assert(rs[rs.len() - 1].payload_size != size);
        assert(!has_size(rs.drop_last(), size)) by {
            if has_size(rs.drop_last(), size) {
                let i = choose|i: int|
                    0 <= i < rs.drop_last().len() && (#[trigger] rs.drop_last()[i]).payload_size
                        == size;
                assert(rs[i].payload_size == size);
            }
        }
        lemma_absent_size_zero(rs.drop_last(), size);
    }
}

/// The first report whose payload size is `size`, if any.
fn find_report(out: &Vec<SizeStats>, size: u64) -> (r: Option<usize>)
    ensures
        (match r {
            Some(k) => k < out@.len() && out@[k as int].payload_size == size,
            None => forall|j: int| 0 <= j < out@.len() ==> out@[j].payload_size != size,
        }),
{
    let mut k: usize = 0;
    while k < out.len()
        invariant
            k <= out@.len(),
            forall|j: int| 0 <= j < k ==> out@[j].payload_size != size,
        decreases out@.len() - k,
    {
        if out[k].payload_size == size {
            return Some(k);
        }
        k = k + 1;
    }
    None
}

/// Fold the finished exchanges into one report per payload size: the
/// sizes appear in first-appearance order, each with exactly its own
/// totals, so a report is read only after its size's exchanges are done
/// and never mixes two sizes.
pub fn aggregate_reports(records: &Vec<ExchangeRecord>) -> (out: Vec<SizeStats>)
    ensures
        report_sizes(out@) == sizes_in_first_order(records@),
        forall|k: int| 0 <= k < out@.len() ==> entry_matches(records@, #[trigger] out@[k]),
        forall|k1: int, k2: int|
            0 <= k1 < k2 < out@.len() ==> out@[k1].payload_size != out@[k2].payload_size,
{
    let mut out: Vec<SizeStats> = Vec::new();
    let n: usize = records.len();
    let mut i: usize = 0;
    proof {
        assert(records@.take(0) =~= Seq::<ExchangeRecord>::empty());
        assert(report_sizes(out@) =~= sizes_in_first_order(records@.take(0)));
    }
    while i < n
        invariant
            i <= n,
            n == records@.len(),
            report_sizes(out@) == sizes_in_first_order(records@.take(i as int)),
            forall|k: int|
                0 <= k < out@.len() ==> entry_matches(
                    records@.take(i as int),
                    #[trigger] out@[k],
                ),
            forall|k1: int, k2: int|
                0 <= k1 < k2 < out@.len() ==> out@[k1].payload_size != out@[k2].payload_size,
        decreases n - i,
    {
        let r = records[i];
        let ghost pre = records@.take(i as int);
        let ghost post = records@.take(i as int + 1);
        let ghost out0 = out@;
        proof {
            assert(post.drop_last() =~= pre);
            assert(post.last() == records@[i as int]);
        }
        match find_report(&out, r.payload_size) {
            Some(k) => {
                let mut st = out[k];
                st.record_exchange(r.bytes, r.nanos);
                out[k] = st;
                proof {
                    assert(report_sizes(out0)[k as int] == r.payload_size);
                    assert(sizes_in_first_order(pre).contains(r.payload_size));
                    assert(sizes_in_first_order(post) == sizes_in_first_order(pre));
                    assert(report_sizes(out@) =~= report_sizes(out0));
                    assert forall|kk: int| 0 <= kk < out@.len() implies entry_matches(
                        post,
                        #[trigger] out@[kk],
                    ) by {
                        if kk == k {
                            assert(out@[kk] == st);
                        } else {
                            assert(out@[kk] == out0[kk]);
                            assert(out@[kk].payload_size != r.payload_size);
                        }
                    }
                }
            },
            None => {
                let st = SizeStats {
                    payload_size: r.payload_size,
                    exchanges: 1,
                    total_bytes: r.bytes,
                    total_nanos: r.nanos,
                };
                out.push(st);
                proof {
                    assert(!sizes_in_first_order(pre).contains(r.payload_size)) by {
                        if sizes_in_first_order(pre).contains(r.payload_size) {
                            let j = choose|j: int|
                                0 <= j < sizes_in_first_order(pre).len() && sizes_in_first_order(
                                    pre,
                                )[j] == r.payload_size;
                            assert(report_sizes(out0)[j] == r.payload_size);
                            assert(out0[j].payload_size == r.payload_size);
                        }
                    }
                    lemma_sizes_track_has(pre, r.payload_size);
                    lemma_absent_size_zero(pre, r.payload_size);
                    assert(sizes_in_first_order(post) == sizes_in_first_order(pre).push(
                        r.payload_size,
                    ));
                    assert(report_sizes(out@) =~= sizes_in_first_order(pre).push(r.payload_size));
                    assert forall|kk: int| 0 <= kk < out@.len() implies entry_matches(
                        post,
                        #[trigger] out@[kk],
                    ) by {
                        if kk == out@.len() - 1 {
                            assert(out@[kk] == st);
                            assert(count_for_size(post, r.payload_size) == sat_add(0, 1));
                            assert(bytes_for_size(post, r.payload_size) == sat_add(0, r.bytes));
                            assert(nanos_for_size(post, r.payload_size) == sat_add(0, r.nanos));
                        } else {
                            assert(out@[kk] == out0[kk]);
                            assert(out@[kk].payload_size != r.payload_size);
                        }
                    }
                }
            },
        }
        i = i + 1;
    }
    proof {
        assert(records@.take(n as int) =~= records@);
    }
    out
}

/// Compute the aggregate throughput exactly, in wide arithmetic.
pub fn compute_throughput(total_bytes: u64, total_nanos: u64) -> (r: u64)
    requires
        total_nanos > 0,
    ensures
        r == throughput_bytes_per_sec(total_bytes, total_nanos),
{
    let prod: u128 = (total_bytes as u128) * 1_000_000_000;
    proof {
        assert(total_bytes * 1_000_000_000 <= 0xffff_ffff_ffff_ffff * 1_000_000_000) by (nonlinear_arith)
            requires
                total_bytes <= 0xffff_ffff_ffff_ffff,
        ;
    }
    let q: u128 = prod / (total_nanos as u128);
    if q > 0xffff_ffff_ffff_ffff {
        0xffff_ffff_ffff_ffff
    } else {
        q as u64
    }
}

} // verus!
