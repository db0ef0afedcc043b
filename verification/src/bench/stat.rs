//! The measurements of a run, and the median of repeated runs.

use vstd::prelude::*;
use vstd::relations::{sorted_by, total_ordering};
use vstd::seq_lib::{lemma_sorted_unique, to_multiset_build, to_multiset_insert};

verus! {

/// A span of time in whole nanoseconds.
pub type Nanos = u128;

/// What one run of a codec on a dataset measured.
#[derive(Clone, Copy, Debug, PartialEq, Eq, Structural)]
pub struct BenchStat {
    pub compress_dt: Nanos,
    pub decompress_dt: Nanos,
    pub compressed_size: usize,
    pub uncompressed_size: usize,
}

/// The order of spans of time.
pub open spec fn spec_leq() -> spec_fn(Nanos, Nanos) -> bool {
    |a: Nanos, b: Nanos| a <= b
}

/// The spans in ascending order.
pub open spec fn spec_sorted(durations: Seq<Nanos>) -> Seq<Nanos> {
    durations.sort_by(spec_leq())
}

/// The median of spans of time: the middle one in ascending order, or the
/// mean of the two middle ones, rounded down to a whole nanosecond.
pub open spec fn spec_median(durations: Seq<Nanos>) -> Nanos {
    let sorted = spec_sorted(durations);
    let lo = sorted[(durations.len() - 1) / 2];
    let hi = sorted[durations.len() as int / 2];
    ((lo + hi) / 2) as Nanos
}

/// In ascending order, the spans are those of `spec_sorted`: as many, each no
/// longer than the next.
pub proof fn lemma_sorted(durations: Seq<Nanos>)
    ensures
        spec_sorted(durations).len() == durations.len(),
        spec_sorted(durations).to_multiset() == durations.to_multiset(),
        forall|i: int, j: int|
            0 <= i <= j < durations.len() ==> spec_sorted(durations)[i] <= spec_sorted(
                durations,
            )[j],
{
    lemma_leq_total();
    durations.lemma_sort_by_ensures(spec_leq());
    let sorted = spec_sorted(durations);
    vstd::seq_lib::to_multiset_len(durations);
    vstd::seq_lib::to_multiset_len(sorted);
    assert forall|i: int, j: int| 0 <= i <= j < durations.len() implies sorted[i]
        <= sorted[j] by {
        if i < j {
            assert(spec_leq()(sorted[i], sorted[j]));
        }
    }
}

proof fn lemma_leq_total()
    ensures
        total_ordering(spec_leq()),
{
    let leq = spec_leq();
    assert(vstd::relations::reflexive(leq));
    assert(vstd::relations::antisymmetric(leq));
    assert(vstd::relations::transitive(leq));
    assert(vstd::relations::strongly_connected(leq));
}

/// Puts the spans in ascending order.
pub fn sort_durations(durations: &Vec<Nanos>) -> (r: Vec<Nanos>)
    ensures
        r@ == spec_sorted(durations@),
{
    let mut sorted: Vec<Nanos> = Vec::new();
    let mut k: usize = 0;
    assert(sorted@ =~= durations@.take(0));
    while k < durations.len()
        invariant
            k <= durations.len(),
            sorted@.len() == k,
            sorted@.to_multiset() == durations@.take(k as int).to_multiset(),
            sorted_by(sorted@, spec_leq()),
        decreases durations.len() - k,
    {
        let x = durations[k];
        let mut p: usize = 0;
        while p < sorted.len() && sorted[p] <= x
            invariant
                p <= sorted.len(),
                forall|i: int| 0 <= i < p ==> sorted@[i] <= x,
            decreases sorted.len() - p,
        {
            p += 1;
        }
        let ghost before = sorted@;
        sorted.insert(p, x);
        proof {
            to_multiset_insert(before, p as int, x);
            let front = durations@.take(k as int);
            assert(durations@.take(k + 1) =~= front.push(x));
            to_multiset_build(front, x);
            assert forall|i: int, j: int| 0 <= i < j < sorted@.len() implies spec_leq()(
                sorted@[i],
                sorted@[j],
            ) by {
                if j < p {
                    assert(spec_leq()(before[i], before[j]));
                } else if j == p {
                } else if i < p {
                    assert(spec_leq()(before[i], before[j - 1]));
                } else if i == p {
                    if p < j - 1 {
                        assert(spec_leq()(before[p as int], before[j - 1]));
                    }
                } else {
                    assert(spec_leq()(before[i - 1], before[j - 1]));
                }
            }
        }
        k += 1;
    }
    proof {
        assert(durations@.take(k as int) =~= durations@);
        lemma_leq_total();
        durations@.lemma_sort_by_ensures(spec_leq());
        lemma_sorted_unique(sorted@, spec_sorted(durations@), spec_leq());
    }
    sorted
}

/// The median of spans of time, of which there is at least one.
pub fn median_duration(durations: Vec<Nanos>) -> (r: Nanos)
    requires
        durations@.len() > 0,
    ensures
        r == spec_median(durations@),
{
    let sorted = sort_durations(&durations);
    proof {
        lemma_sorted(durations@);
    }
    let lo = sorted[(sorted.len() - 1) / 2];
    let hi = sorted[sorted.len() / 2];
    lo + (hi - lo) / 2
}

impl BenchStat {
    /// Whether two measurements can be added without leaving the range of
    /// their fields.
    pub open spec fn spec_can_add(self, rhs: BenchStat) -> bool {
        &&& self.compressed_size + rhs.compressed_size <= usize::MAX
        &&& self.uncompressed_size + rhs.uncompressed_size <= usize::MAX
        &&& self.compress_dt + rhs.compress_dt <= u128::MAX
        &&& self.decompress_dt + rhs.decompress_dt <= u128::MAX
    }

    /// The sum of two measurements, field by field.
    pub open spec fn spec_add(self, rhs: BenchStat) -> BenchStat {
        BenchStat {
            compress_dt: (self.compress_dt + rhs.compress_dt) as Nanos,
            decompress_dt: (self.decompress_dt + rhs.decompress_dt) as Nanos,
            compressed_size: (self.compressed_size + rhs.compressed_size) as usize,
            uncompressed_size: (self.uncompressed_size + rhs.uncompressed_size) as usize,
        }
    }

    /// Adds another measurement to this one, field by field.
    pub fn add_assign(&mut self, rhs: BenchStat)
        requires
            old(self).spec_can_add(rhs),
        ensures
            *final(self) == old(self).spec_add(rhs),
    {
        self.compressed_size += rhs.compressed_size;
        self.compress_dt += rhs.compress_dt;
        self.decompress_dt += rhs.decompress_dt;
        self.uncompressed_size += rhs.uncompressed_size;
    }

    /// The sum of two measurements, or nothing where a field would leave its
    /// range.
    pub fn checked_add(self, rhs: BenchStat) -> (r: Option<BenchStat>)
        ensures
            self.spec_can_add(rhs) ==> r == Some(self.spec_add(rhs)),
            !self.spec_can_add(rhs) ==> r is None,
    {
        let compress_dt = self.compress_dt.checked_add(rhs.compress_dt);
        let decompress_dt = self.decompress_dt.checked_add(rhs.decompress_dt);
        let compressed_size = self.compressed_size.checked_add(rhs.compressed_size);
        let uncompressed_size = self.uncompressed_size.checked_add(rhs.uncompressed_size);
        match (compress_dt, decompress_dt, compressed_size, uncompressed_size) {
            (
                Some(compress_dt),
                Some(decompress_dt),
                Some(compressed_size),
                Some(uncompressed_size),
            ) => Some(BenchStat { compress_dt, decompress_dt, compressed_size, uncompressed_size }),
            _ => None,
        }
    }

    /// The compression times of a sequence of measurements.
    pub open spec fn spec_compress_dts(benches: Seq<BenchStat>) -> Seq<Nanos> {
        Seq::new(benches.len(), |i: int| benches[i].compress_dt)
    }

    /// The decompression times of a sequence of measurements.
    pub open spec fn spec_decompress_dts(benches: Seq<BenchStat>) -> Seq<Nanos> {
        Seq::new(benches.len(), |i: int| benches[i].decompress_dt)
    }

    /// Sums up repeated runs of one codec on one dataset, of which there is
    /// at least one: the sizes of the first run, which are those of every run,
    /// and the medians of the times.
    pub fn aggregate_median(benches: &[BenchStat]) -> (r: BenchStat)
        requires
            benches@.len() > 0,
        ensures
            r == (BenchStat {
                compress_dt: spec_median(Self::spec_compress_dts(benches@)),
                decompress_dt: spec_median(Self::spec_decompress_dts(benches@)),
                compressed_size: benches@[0].compressed_size,
                uncompressed_size: benches@[0].uncompressed_size,
            }),
    {
        let first = benches[0];
        let mut compress_dts: Vec<Nanos> = Vec::new();
        let mut decompress_dts: Vec<Nanos> = Vec::new();
        let mut i: usize = 0;
        while i < benches.len()
            invariant
                i <= benches@.len(),
                compress_dts@ == Self::spec_compress_dts(benches@.take(i as int)),
                decompress_dts@ == Self::spec_decompress_dts(benches@.take(i as int)),
            decreases benches.len() - i,
        {
            compress_dts.push(benches[i].compress_dt);
            decompress_dts.push(benches[i].decompress_dt);
            i += 1;
            assert(compress_dts@ =~= Self::spec_compress_dts(benches@.take(i as int)));
            assert(decompress_dts@ =~= Self::spec_decompress_dts(benches@.take(i as int)));
        }
        assert(benches@.take(i as int) =~= benches@);
        BenchStat {
            compress_dt: median_duration(compress_dts),
            decompress_dt: median_duration(decompress_dts),
            compressed_size: first.compressed_size,
            uncompressed_size: first.uncompressed_size,
        }
    }
}

impl Default for BenchStat {
    fn default() -> (r: BenchStat)
        ensures
            r == (BenchStat {
                compress_dt: 0,
                decompress_dt: 0,
                compressed_size: 0,
                uncompressed_size: 0,
            }),
    {
        BenchStat { compress_dt: 0, decompress_dt: 0, compressed_size: 0, uncompressed_size: 0 }
    }
}

} // verus!
