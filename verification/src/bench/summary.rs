//! The rows of the table of results, and the sums that close it.

use crate::bench::opt::BenchError;
use crate::bench::stat::BenchStat;
use vstd::prelude::*;
use vstd::string::*;

verus! {

/// A row of the table of results: what a codec measured on a dataset.
#[derive(Clone, Debug)]
pub struct PrintStat {
    pub dataset: String,
    pub codec: String,
    pub bench_stat: BenchStat,
}

/// The sums of measurements, field by field, as the integers they are.
pub ghost struct Total {
    pub compress_dt: int,
    pub decompress_dt: int,
    pub compressed_size: int,
    pub uncompressed_size: int,
    /// How many measurements were summed.
    pub count: int,
}

/// Why there is no sum for a codec.
#[derive(Clone, Copy, Debug, PartialEq, Eq, Structural)]
pub enum SumError {
    /// No row is of the codec.
    Missing,
    /// A sum leaves the range of its field.
    Overflow,
}

impl Total {
    /// The sum of no measurements.
    pub open spec fn zero() -> Total {
        Total {
            compress_dt: 0,
            decompress_dt: 0,
            compressed_size: 0,
            uncompressed_size: 0,
            count: 0,
        }
    }

    /// The sums with one more measurement.
    pub open spec fn plus(self, stat: BenchStat) -> Total {
        Total {
            compress_dt: self.compress_dt + stat.compress_dt,
            decompress_dt: self.decompress_dt + stat.decompress_dt,
            compressed_size: self.compressed_size + stat.compressed_size,
            uncompressed_size: self.uncompressed_size + stat.uncompressed_size,
            count: self.count + 1,
        }
    }

    /// Whether every sum is in the range of its field.
    pub open spec fn fits(self) -> bool {
        &&& self.compress_dt <= u128::MAX
        &&& self.decompress_dt <= u128::MAX
        &&& self.compressed_size <= usize::MAX
        &&& self.uncompressed_size <= usize::MAX
    }

    /// Whether a measurement holds these sums.
    pub open spec fn is_stat(self, stat: BenchStat) -> bool {
        &&& self.compress_dt == stat.compress_dt
        &&& self.decompress_dt == stat.decompress_dt
        &&& self.compressed_size == stat.compressed_size
        &&& self.uncompressed_size == stat.uncompressed_size
    }

    /// Sums never shrink as measurements are added.
    pub open spec fn le(self, other: Total) -> bool {
        &&& 0 <= self.compress_dt <= other.compress_dt
        &&& 0 <= self.decompress_dt <= other.decompress_dt
        &&& 0 <= self.compressed_size <= other.compressed_size
        &&& 0 <= self.uncompressed_size <= other.uncompressed_size
        &&& 0 <= self.count <= other.count
    }
}

/// The sums of the measurements of one codec over all rows.
pub open spec fn spec_codec_total(stats: Seq<PrintStat>, codec: Seq<char>) -> Total
    decreases stats.len(),
{
    if stats.len() == 0 {
        Total::zero()
    } else {
        let front = spec_codec_total(stats.drop_last(), codec);
        if stats.last().codec@ == codec {
            front.plus(stats.last().bench_stat)
        } else {
            front
        }
    }
}

/// The sums over the first rows are no more than the sums over all rows.
pub proof fn lemma_codec_total_grows(stats: Seq<PrintStat>, codec: Seq<char>, k: int)
    requires
        0 <= k <= stats.len(),
    ensures
        spec_codec_total(stats.take(k), codec).le(spec_codec_total(stats, codec)),
    decreases stats.len(),
{
    if k == stats.len() {
        assert(stats.take(k) =~= stats);
        lemma_codec_total_nonnegative(stats, codec);
    } else {
        lemma_codec_total_grows(stats.drop_last(), codec, k);
        assert(stats.drop_last().take(k) =~= stats.take(k));
    }
}

proof fn lemma_codec_total_nonnegative(stats: Seq<PrintStat>, codec: Seq<char>)
    ensures
        Total::zero().le(spec_codec_total(stats, codec)),
    decreases stats.len(),
{
    if stats.len() > 0 {
        lemma_codec_total_nonnegative(stats.drop_last(), codec);
    }
}

impl PrintStat {
    pub fn new(dataset: String, codec: String, bench_stat: BenchStat) -> (r: PrintStat)
        ensures
            r == (PrintStat { dataset, codec, bench_stat }),
    {
        PrintStat { dataset, codec, bench_stat }
    }
}

/// Sums up the measurements of one codec over all rows, field by field.
/// There is no sum where no row is of the codec, and none where a sum leaves
/// the range of its field.
pub fn sum_for_codec(stats: &Vec<PrintStat>, codec: &String) -> (r: Result<BenchStat, SumError>)
    ensures
        match r {
            Ok(sum) => {
                &&& spec_codec_total(stats@, codec@).count > 0
                &&& spec_codec_total(stats@, codec@).is_stat(sum)
            },
            Err(SumError::Missing) => spec_codec_total(stats@, codec@).count == 0,
            Err(SumError::Overflow) => !spec_codec_total(stats@, codec@).fits(),
        },
{
    let mut sum = BenchStat::default();
    let mut found = false;
    let mut i: usize = 0;
    assert(stats@.take(0) =~= Seq::<PrintStat>::empty());
    while i < stats.len()
        invariant
            i <= stats@.len(),
            spec_codec_total(stats@.take(i as int), codec@).is_stat(sum),
            found <==> spec_codec_total(stats@.take(i as int), codec@).count > 0,
            spec_codec_total(stats@.take(i as int), codec@).count >= 0,
        decreases stats.len() - i,
    {
        proof {
            assert(stats@.take(i + 1).drop_last() =~= stats@.take(i as int));
        }
        if stats[i].codec == *codec {
            match sum.checked_add(stats[i].bench_stat) {
                Some(next) => {
                    sum = next;
                    found = true;
                },
                None => {
                    proof {
                        lemma_codec_total_grows(stats@, codec@, i + 1);
                    }
                    return Err(SumError::Overflow);
                },
            }
        }
        i += 1;
    }
    assert(stats@.take(i as int) =~= stats@);
    if found {
        Ok(sum)
    } else {
        Err(SumError::Missing)
    }
}

/// The name of the dataset of a row of sums.
pub open spec fn spec_sum_name() -> Seq<char> {
    "<sum>"@
}

/// Whether `rows` are the rows of sums for `codecs` in order: one row for each
/// codec, with the sums of the codec's measurements over `stats`.
pub open spec fn spec_sum_rows(
    stats: Seq<PrintStat>,
    codecs: Seq<String>,
    rows: Seq<PrintStat>,
) -> bool {
    &&& rows.len() == codecs.len()
    &&& forall|k: int|
        0 <= k < codecs.len() ==> {
            &&& (#[trigger] rows[k]).dataset@ == spec_sum_name()
            &&& rows[k].codec@ == codecs[k]@
            &&& spec_codec_total(stats, codecs[k]@).count > 0
            &&& spec_codec_total(stats, codecs[k]@).is_stat(rows[k].bench_stat)
        }
}

/// Whether the codec at `k` is the first for which there is no sum, for the
/// reason `e`.
pub open spec fn spec_first_without_sum(
    stats: Seq<PrintStat>,
    codecs: Seq<String>,
    k: int,
    e: SumError,
) -> bool {
    &&& 0 <= k < codecs.len()
    &&& forall|j: int|
        0 <= j < k ==> {
            &&& spec_codec_total(stats, (#[trigger] codecs[j])@).count > 0
            &&& spec_codec_total(stats, codecs[j]@).fits()
        }
    &&& match e {
        SumError::Missing => spec_codec_total(stats, codecs[k]@).count == 0,
        SumError::Overflow => !spec_codec_total(stats, codecs[k]@).fits(),
    }
}

/// The rows of sums that close the table of results: one for each codec that
/// was asked for, in the order asked. Fails at the first codec for which
/// there is no sum, and says which it is.
pub fn sum_rows(stats: &Vec<PrintStat>, codecs: &Vec<String>) -> (r: Result<
    Vec<PrintStat>,
    (usize, SumError),
>)
    ensures
        match r {
            Ok(rows) => spec_sum_rows(stats@, codecs@, rows@),
            Err((k, e)) => spec_first_without_sum(stats@, codecs@, k as int, e),
        },
{
    let mut rows: Vec<PrintStat> = Vec::new();
    let mut k: usize = 0;
    while k < codecs.len()
        invariant
            k <= codecs@.len(),
            spec_sum_rows(stats@, codecs@.take(k as int), rows@),
            forall|j: int|
                0 <= j < k ==> spec_codec_total(stats@, (#[trigger] codecs@[j])@).fits(),
        decreases codecs.len() - k,
    {
        match sum_for_codec(stats, &codecs[k]) {
            Err(e) => {
                assert forall|j: int| 0 <= j < k implies spec_codec_total(
                    stats@,
                    (#[trigger] codecs@[j])@,
                ).count > 0 by {
                    assert(codecs@.take(k as int)[j] == codecs@[j]);
                    assert(rows@[j].codec@ == codecs@[j]@);
                }
                return Err((k, e));
            },
            Ok(sum) => {
                let ghost before = rows@;
                rows.push(PrintStat::new(String::from_str("<sum>"), codecs[k].clone(), sum));
                assert forall|j: int| 0 <= j < k + 1 implies {
                    &&& (#[trigger] rows@[j]).dataset@ == spec_sum_name()
                    &&& rows@[j].codec@ == codecs@.take(k + 1)[j]@
                    &&& spec_codec_total(stats@, codecs@.take(k + 1)[j]@).count > 0
                    &&& spec_codec_total(stats@, codecs@.take(k + 1)[j]@).is_stat(
                        rows@[j].bench_stat,
                    )
                } by {
                    if j < k {
                        assert(rows@[j] == before[j]);
                        assert(codecs@.take(k as int)[j] == codecs@[j]);
                    }
                }
            },
        }
        k += 1;
    }
    assert(codecs@.take(k as int) =~= codecs@);
    Ok(rows)
}

/// The table of results: the rows that were measured, then the rows of sums.
/// Without a measured row there is nothing to show.
pub fn print_rows(stats: Vec<PrintStat>, codecs: &Vec<String>) -> (r: Result<
    Vec<PrintStat>,
    BenchError,
>)
    ensures
        stats@.len() == 0 ==> r == Err::<Vec<PrintStat>, BenchError>(BenchError::NoDatasets),
        stats@.len() > 0 ==> match r {
            Ok(rows) => {
                &&& rows@.len() == stats@.len() + codecs@.len()
                &&& rows@.take(stats@.len() as int) == stats@
                &&& spec_sum_rows(stats@, codecs@, rows@.skip(stats@.len() as int))
            },
            Err(BenchError::SumMissing { codec }) => spec_first_without_sum(
                stats@,
                codecs@,
                codec as int,
                SumError::Missing,
            ),
            Err(BenchError::SumOverflow { codec }) => spec_first_without_sum(
                stats@,
                codecs@,
                codec as int,
                SumError::Overflow,
            ),
            Err(_) => false,
        },
{
    if stats.len() == 0 {
        return Err(BenchError::NoDatasets);
    }
    let mut rows = stats;
    let ghost measured = rows@;
    match sum_rows(&rows, codecs) {
        Err((codec, SumError::Missing)) => Err(BenchError::SumMissing { codec }),
        Err((codec, SumError::Overflow)) => Err(BenchError::SumOverflow { codec }),
        Ok(sums) => {
            let mut sums = sums;
            let ghost added = sums@;
            rows.append(&mut sums);
            assert(rows@.take(measured.len() as int) =~= measured);
            assert(rows@.skip(measured.len() as int) =~= added);
            Ok(rows)
        },
    }
}

} // verus!
