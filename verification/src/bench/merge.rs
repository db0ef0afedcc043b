//! The table of results that is kept in a file: one entry for each input and
//! codec, in the order of their names, and how the sums of a run enter it.

use crate::bench::stat::BenchStat;
use vstd::prelude::*;
use vstd::slice::slice_to_vec;

verus! {

/// An entry of the table: the names of the input and of the codec, and what
/// was measured.
#[derive(Clone, Debug)]
pub struct ResultRow {
    pub dataset: Vec<u8>,
    pub codec: Vec<u8>,
    pub stat: BenchStat,
}

/// The sums of one codec over a run.
#[derive(Clone, Debug)]
pub struct CodecStat {
    pub codec: Vec<u8>,
    pub stat: BenchStat,
}

/// How two names stand to each other.
#[derive(Clone, Copy, Debug, PartialEq, Eq, Structural)]
pub enum Order {
    Less,
    Equal,
    Greater,
}

/// The names of input and codec by which an entry is found.
pub type Key = (Seq<u8>, Seq<u8>);

/// Whether `a` comes before `b` in the order of names: byte by byte, a name
/// before every longer name that begins with it.
pub open spec fn spec_bytes_lt(a: Seq<u8>, b: Seq<u8>) -> bool {
    exists|k: int| spec_differ_at(a, b, k)
}

/// Whether `a` and `b` agree on their first `k` bytes and `a` comes first by
/// what follows: `a` ends there and `b` does not, or `a` has the lower byte.
pub open spec fn spec_differ_at(a: Seq<u8>, b: Seq<u8>, k: int) -> bool {
    &&& 0 <= k <= a.len()
    &&& k < b.len()
    &&& forall|j: int| 0 <= j < k ==> a[j] == b[j]
    &&& (k < a.len() ==> a[k] < b[k])
}

/// Whether the key `a` comes before the key `b`: by the input's name, and by
/// the codec's name where the inputs are the same.
pub open spec fn spec_key_lt(a: Key, b: Key) -> bool {
    spec_bytes_lt(a.0, b.0) || (a.0 == b.0 && spec_bytes_lt(a.1, b.1))
}

/// The key of an entry.
pub open spec fn spec_key(row: ResultRow) -> Key {
    (row.dataset@, row.codec@)
}

/// Whether the entries are in the order of their keys, each key once.
pub open spec fn spec_sorted(rows: Seq<ResultRow>) -> bool {
    forall|i: int, j: int|
        0 <= i < j < rows.len() ==> spec_key_lt(
            spec_key(#[trigger] rows[i]),
            spec_key(#[trigger] rows[j]),
        )
}

/// What the entries say of each key, the later entry counting where two have
/// the same key.
pub open spec fn spec_table(rows: Seq<ResultRow>) -> Map<Key, BenchStat>
    decreases rows.len(),
{
    if rows.len() == 0 {
        Map::empty()
    } else {
        spec_table(rows.drop_last()).insert(spec_key(rows.last()), rows.last().stat)
    }
}

/// What a table says of a key, if anything.
pub open spec fn spec_get(table: Map<Key, BenchStat>, key: Key) -> Option<BenchStat> {
    if table.dom().contains(key) {
        Some(table[key])
    } else {
        None
    }
}

/// What enters the table for the sums of a run: the sums themselves, but with
/// the time of compression, or of decompression, that the table had before
/// where the run did not measure it.
pub open spec fn spec_adjust(
    stat: BenchStat,
    existing: Option<BenchStat>,
    no_compress: bool,
    no_decompress: bool,
) -> BenchStat {
    match existing {
        None => stat,
        Some(existing) => BenchStat {
            compress_dt: if no_compress {
                existing.compress_dt
            } else {
                stat.compress_dt
            },
            decompress_dt: if no_decompress {
                existing.decompress_dt
            } else {
                stat.decompress_dt
            },
            compressed_size: stat.compressed_size,
            uncompressed_size: stat.uncompressed_size,
        },
    }
}

/// The table after the sums of a run have entered it under the name of the
/// run's input, one codec after the other.
pub open spec fn spec_updated(
    table: Map<Key, BenchStat>,
    input_name: Seq<u8>,
    aggregate: Seq<CodecStat>,
    no_compress: bool,
    no_decompress: bool,
) -> Map<Key, BenchStat>
    decreases aggregate.len(),
{
    if aggregate.len() == 0 {
        table
    } else {
        let before = spec_updated(
            table,
            input_name,
            aggregate.drop_last(),
            no_compress,
            no_decompress,
        );
        let key = (input_name, aggregate.last().codec@);
        before.insert(
            key,
            spec_adjust(aggregate.last().stat, spec_get(before, key), no_compress, no_decompress),
        )
    }
}

/// No name comes before itself, and of two names at most one comes before the
/// other.
pub proof fn lemma_bytes_lt_asymmetric(a: Seq<u8>, b: Seq<u8>)
    requires
        spec_bytes_lt(a, b),
    ensures
        a != b,
        !spec_bytes_lt(b, a),
{
    let k = choose|k: int| spec_differ_at(a, b, k);
    if spec_bytes_lt(b, a) {
        let l = choose|l: int| spec_differ_at(b, a, l);
        if k < l {
            assert(b[k] == a[k]);
        } else if l < k {
            assert(a[l] == b[l]);
        }
    }
}

/// What comes before a name comes before all that the name comes before.
pub proof fn lemma_bytes_lt_transitive(a: Seq<u8>, b: Seq<u8>, c: Seq<u8>)
    requires
        spec_bytes_lt(a, b),
        spec_bytes_lt(b, c),
    ensures
        spec_bytes_lt(a, c),
{
    let k = choose|k: int| spec_differ_at(a, b, k);
    let l = choose|l: int| spec_differ_at(b, c, l);
    if k <= l {
        assert forall|j: int| 0 <= j < k implies a[j] == c[j] by {
            assert(a[j] == b[j]);
        }
        assert(spec_differ_at(a, c, k));
    } else {
        assert forall|j: int| 0 <= j < l implies a[j] == c[j] by {
            assert(a[j] == b[j]);
        }
        assert(a[l] == b[l]);
        assert(spec_differ_at(a, c, l));
    }
}

/// The order of keys is an order as well.
pub proof fn lemma_key_lt_transitive(a: Key, b: Key, c: Key)
    requires
        spec_key_lt(a, b),
        spec_key_lt(b, c),
    ensures
        spec_key_lt(a, c),
{
    if spec_bytes_lt(a.0, b.0) && spec_bytes_lt(b.0, c.0) {
        lemma_bytes_lt_transitive(a.0, b.0, c.0);
    } else if a.0 == b.0 && b.0 == c.0 {
        lemma_bytes_lt_transitive(a.1, b.1, c.1);
    }
}

pub proof fn lemma_key_lt_asymmetric(a: Key, b: Key)
    requires
        spec_key_lt(a, b),
    ensures
        a != b,
        !spec_key_lt(b, a),
{
    if spec_bytes_lt(a.0, b.0) {
        lemma_bytes_lt_asymmetric(a.0, b.0);
    } else {
        lemma_bytes_lt_asymmetric(a.1, b.1);
        if spec_bytes_lt(b.0, a.0) {
            lemma_bytes_lt_asymmetric(b.0, a.0);
        }
    }
}

/// A table knows exactly the keys of its entries.
pub proof fn lemma_table_dom(rows: Seq<ResultRow>, key: Key)
    ensures
        spec_table(rows).dom().contains(key) <==> exists|i: int|
            0 <= i < rows.len() && spec_key(#[trigger] rows[i]) == key,
    decreases rows.len(),
{
    if rows.len() > 0 {
        let front = rows.drop_last();
        lemma_table_dom(front, key);
        if spec_table(rows).dom().contains(key) {
            if spec_key(rows.last()) == key {
                assert(spec_key(rows[rows.len() - 1]) == key);
            } else {
                let i = choose|i: int| 0 <= i < front.len() && spec_key(#[trigger] front[i]) == key;
                assert(spec_key(rows[i]) == key);
            }
        }
        if exists|i: int| 0 <= i < rows.len() && spec_key(#[trigger] rows[i]) == key {
            let i = choose|i: int| 0 <= i < rows.len() && spec_key(#[trigger] rows[i]) == key;
            if i < rows.len() - 1 {
                assert(spec_key(front[i]) == key);
            }
        }
    }
}

/// Of entries in order, the table says of each key what its one entry says.
pub proof fn lemma_table_value(rows: Seq<ResultRow>, i: int)
    requires
        spec_sorted(rows),
        0 <= i < rows.len(),
    ensures
        spec_table(rows).dom().contains(spec_key(rows[i])),
        spec_table(rows)[spec_key(rows[i])] == rows[i].stat,
    decreases rows.len(),
{
    let front = rows.drop_last();
    let last = rows.len() - 1;
    if i < last {
        assert forall|a: int, b: int| 0 <= a < b < front.len() implies spec_key_lt(
            spec_key(#[trigger] front[a]),
            spec_key(#[trigger] front[b]),
        ) by {
            assert(spec_key_lt(spec_key(rows[a]), spec_key(rows[b])));
        }
        lemma_table_value(front, i);
        assert(spec_key_lt(spec_key(rows[i]), spec_key(rows[last])));
        lemma_key_lt_asymmetric(spec_key(rows[i]), spec_key(rows[last]));
    }
}

/// Compares two names.
pub fn order_bytes(a: &[u8], b: &[u8]) -> (r: Order)
    ensures
        match r {
            Order::Less => spec_bytes_lt(a@, b@),
            Order::Equal => a@ == b@,
            Order::Greater => spec_bytes_lt(b@, a@),
        },
{
    let mut k: usize = 0;
    while k < a.len() && k < b.len()
        invariant
            k <= a@.len(),
            k <= b@.len(),
            forall|j: int| 0 <= j < k ==> a@[j] == b@[j],
        decreases a.len() - k,
    {
        if a[k] < b[k] {
            assert(spec_differ_at(a@, b@, k as int));
            return Order::Less;
        }
        if a[k] > b[k] {
            assert(spec_differ_at(b@, a@, k as int));
            return Order::Greater;
        }
        k += 1;
    }
    if k < b.len() {
        assert(spec_differ_at(a@, b@, k as int));
        Order::Less
    } else if k < a.len() {
        assert(spec_differ_at(b@, a@, k as int));
        Order::Greater
    } else {
        assert(a@ =~= b@);
        Order::Equal
    }
}

/// Compares the key of an entry with a key.
pub fn order_key(row: &ResultRow, dataset: &[u8], codec: &[u8]) -> (r: Order)
    ensures
        match r {
            Order::Less => spec_key_lt(spec_key(*row), (dataset@, codec@)),
            Order::Equal => spec_key(*row) == (dataset@, codec@),
            Order::Greater => spec_key_lt((dataset@, codec@), spec_key(*row)),
        },
{
    match order_bytes(row.dataset.as_slice(), dataset) {
        Order::Less => Order::Less,
        Order::Greater => Order::Greater,
        Order::Equal => order_bytes(row.codec.as_slice(), codec),
    }
}

/// The place of a key among entries in order: where its entry is, or where
/// it would have to be put.
fn position(rows: &Vec<ResultRow>, dataset: &[u8], codec: &[u8]) -> (r: (usize, bool))
    requires
        spec_sorted(rows@),
    ensures
        r.0 <= rows@.len(),
        forall|i: int|
            0 <= i < r.0 ==> spec_key_lt(spec_key(#[trigger] rows@[i]), (dataset@, codec@)),
        r.1 ==> r.0 < rows@.len() && spec_key(rows@[r.0 as int]) == (dataset@, codec@),
        !r.1 ==> forall|i: int|
            r.0 <= i < rows@.len() ==> spec_key_lt(
                (dataset@, codec@),
                spec_key(#[trigger] rows@[i]),
            ),
{
    let mut p: usize = 0;
    while p < rows.len()
        invariant
            p <= rows@.len(),
            spec_sorted(rows@),
            forall|i: int|
                0 <= i < p ==> spec_key_lt(spec_key(#[trigger] rows@[i]), (dataset@, codec@)),
        decreases rows.len() - p,
    {
        match order_key(&rows[p], dataset, codec) {
            Order::Less => {},
            Order::Equal => {
                return (p, true);
            },
            Order::Greater => {
                assert forall|i: int| p <= i < rows@.len() implies spec_key_lt(
                    (dataset@, codec@),
                    spec_key(#[trigger] rows@[i]),
                ) by {
                    if p < i {
                        assert(spec_key_lt(spec_key(rows@[p as int]), spec_key(rows@[i])));
                        lemma_key_lt_transitive(
                            (dataset@, codec@),
                            spec_key(rows@[p as int]),
                            spec_key(rows@[i]),
                        );
                    }
                }
                return (p, false);
            },
        }
        p += 1;
    }
    (p, false)
}

/// What entries in order say of a key.
fn find_in(rows: &Vec<ResultRow>, dataset: &[u8], codec: &[u8]) -> (r: Option<BenchStat>)
    requires
        spec_sorted(rows@),
    ensures
        r == spec_get(spec_table(rows@), (dataset@, codec@)),
{
    let (p, found) = position(rows, dataset, codec);
    let ghost key = (dataset@, codec@);
    proof {
        lemma_table_dom(rows@, key);
    }
    if found {
        proof {
            lemma_table_value(rows@, p as int);
        }
        Some(rows[p].stat)
    } else {
        proof {
            if spec_table(rows@).dom().contains(key) {
                let i = choose|i: int| 0 <= i < rows@.len() && spec_key(#[trigger] rows@[i]) == key;
                if i < p {
                    lemma_key_lt_asymmetric(spec_key(rows@[i]), key);
                } else {
                    lemma_key_lt_asymmetric(key, spec_key(rows@[i]));
                }
            }
        }
        None
    }
}

/// Puts an entry into entries in order: in place of the entry with its key,
/// or where its key belongs.
fn upsert_in(rows: &mut Vec<ResultRow>, row: ResultRow)
    requires
        spec_sorted(old(rows)@),
    ensures
        spec_sorted(final(rows)@),
        spec_table(final(rows)@) == spec_table(old(rows)@).insert(spec_key(row), row.stat),
{
    let (p, found) = position(rows, row.dataset.as_slice(), row.codec.as_slice());
    let ghost before = rows@;
    let ghost key = spec_key(row);
    if found {
        rows.set(p, row);
    } else {
        rows.insert(p, row);
    }
    let ghost after = rows@;
    proof {
        let shift = if found {
            0int
        } else {
            1int
        };
        // where the entries of before stand in after, but for the one replaced
        assert forall|i: int, j: int| 0 <= i < j < after.len() implies spec_key_lt(
            spec_key(#[trigger] after[i]),
            spec_key(#[trigger] after[j]),
        ) by {
            if j < p {
                assert(spec_key_lt(spec_key(before[i]), spec_key(before[j])));
            } else if j == p {
                assert(spec_key_lt(spec_key(before[i]), key));
            } else if i < p {
                assert(spec_key_lt(spec_key(before[i]), spec_key(before[j - shift])));
            } else if i == p {
                if found {
                    assert(spec_key_lt(spec_key(before[p as int]), spec_key(before[j])));
                } else {
                    assert(spec_key_lt(key, spec_key(before[j - 1])));
                }
            } else {
                assert(spec_key_lt(spec_key(before[i - shift]), spec_key(before[j - shift])));
            }
        }
        let wanted = spec_table(before).insert(key, row.stat);
        assert forall|k: Key| spec_table(after).dom().contains(k) == wanted.dom().contains(
            k,
        ) by {
            lemma_table_dom(after, k);
            lemma_table_dom(before, k);
            if spec_table(after).dom().contains(k) && k != key {
                let i = choose|i: int| 0 <= i < after.len() && spec_key(#[trigger] after[i]) == k;
                if i < p {
                    assert(spec_key(before[i]) == k);
                } else {
                    assert(spec_key(before[i - shift]) == k);
                }
            }
            if wanted.dom().contains(k) {
                if k == key {
                    assert(spec_key(after[p as int]) == k);
                } else {
                    let i = choose|i: int|
                        0 <= i < before.len() && spec_key(#[trigger] before[i]) == k;
                    if i < p {
                        assert(spec_key(after[i]) == k);
                    } else {
                        assert(spec_key(after[i + shift]) == k);
                    }
                }
            }
        }
        assert forall|k: Key| spec_table(after).dom().contains(k) implies spec_table(after)[k]
            == wanted[k] by {
            lemma_table_dom(after, k);
            let i = choose|i: int| 0 <= i < after.len() && spec_key(#[trigger] after[i]) == k;
            lemma_table_value(after, i);
            if i == p {
            } else if i < p {
                lemma_table_value(before, i);
                lemma_key_lt_asymmetric(spec_key(after[i]), spec_key(after[p as int]));
            } else {
                lemma_table_value(before, i - shift);
                lemma_key_lt_asymmetric(spec_key(after[p as int]), spec_key(after[i]));
            }
        }
        assert(spec_table(after) =~= wanted);
    }
}

/// A table of results: entries in the order of their keys, each key once.
#[derive(Debug)]
pub struct ResultTable {
    rows: Vec<ResultRow>,
}

impl ResultTable {
    #[verifier::type_invariant]
    spec fn well_formed(self) -> bool {
        spec_sorted(self.rows@)
    }

    /// What the table says of each key.
    pub closed spec fn view(&self) -> Map<Key, BenchStat> {
        spec_table(self.rows@)
    }

    /// A table without entries.
    pub fn new() -> (r: ResultTable)
        ensures
            r@ == Map::<Key, BenchStat>::empty(),
    {
        ResultTable { rows: Vec::new() }
    }

    /// What the table says of a key, if anything.
    pub fn find(&self, dataset: &[u8], codec: &[u8]) -> (r: Option<BenchStat>)
        ensures
            r == spec_get(self@, (dataset@, codec@)),
    {
        proof {
            use_type_invariant(self);
        }
        find_in(&self.rows, dataset, codec)
    }

    /// Puts an entry into the table. It takes the place of an entry with the
    /// same key.
    pub fn upsert(&mut self, row: ResultRow)
        ensures
            final(self)@ == old(self)@.insert(spec_key(row), row.stat),
    {
        proof {
            use_type_invariant(&*self);
        }
        let mut rows: Vec<ResultRow> = Vec::new();
        core::mem::swap(&mut rows, &mut self.rows);
        upsert_in(&mut rows, row);
        self.rows = rows;
    }

    /// The entries of the table, in the order of their keys.
    pub fn into_rows(self) -> (r: Vec<ResultRow>)
        ensures
            spec_sorted(r@),
            spec_table(r@) == self@,
    {
        proof {
            use_type_invariant(&self);
        }
        self.rows
    }
}

/// What enters the table for the sums of a run.
pub fn adjust(
    stat: BenchStat,
    existing: Option<BenchStat>,
    no_compress: bool,
    no_decompress: bool,
) -> (r: BenchStat)
    ensures
        r == spec_adjust(stat, existing, no_compress, no_decompress),
{
    let mut stat = stat;
    match existing {
        None => {},
        Some(existing_stat) => {
            if no_compress {
                stat.compress_dt = existing_stat.compress_dt;
            }
            if no_decompress {
                stat.decompress_dt = existing_stat.decompress_dt;
            }
        },
    }
    stat
}

/// The table of results after a run: what the file held, with the sums of the
/// run entered under the name of the run's input, in the order of the keys and
/// with each key once.
pub fn merge_results(
    existing: &Vec<ResultRow>,
    input_name: &[u8],
    aggregate: &Vec<CodecStat>,
    no_compress: bool,
    no_decompress: bool,
) -> (r: Vec<ResultRow>)
    ensures
        spec_sorted(r@),
        spec_table(r@) == spec_updated(
            spec_table(existing@),
            input_name@,
            aggregate@,
            no_compress,
            no_decompress,
        ),
{
    let mut lines = ResultTable::new();
    let mut i: usize = 0;
    assert(existing@.take(0) =~= Seq::<ResultRow>::empty());
    while i < existing.len()
        invariant
            i <= existing@.len(),
            lines@ == spec_table(existing@.take(i as int)),
        decreases existing.len() - i,
    {
        let row = ResultRow {
            dataset: slice_to_vec(existing[i].dataset.as_slice()),
            codec: slice_to_vec(existing[i].codec.as_slice()),
            stat: existing[i].stat,
        };
        proof {
            assert(existing@.take(i + 1).drop_last() =~= existing@.take(i as int));
            assert(spec_key(row) == spec_key(existing@[i as int]));
        }
        lines.upsert(row);
        i += 1;
    }
    assert(existing@.take(i as int) =~= existing@);
    let mut j: usize = 0;
    assert(aggregate@.take(0) =~= Seq::<CodecStat>::empty());
    while j < aggregate.len()
        invariant
            j <= aggregate@.len(),
            lines@ == spec_updated(
                spec_table(existing@),
                input_name@,
                aggregate@.take(j as int),
                no_compress,
                no_decompress,
            ),
        decreases aggregate.len() - j,
    {
        let codec = aggregate[j].codec.as_slice();
        let existing_stat = lines.find(input_name, codec);
        let row = ResultRow {
            dataset: slice_to_vec(input_name),
            codec: slice_to_vec(codec),
            stat: adjust(aggregate[j].stat, existing_stat, no_compress, no_decompress),
        };
        proof {
            assert(aggregate@.take(j + 1).drop_last() =~= aggregate@.take(j as int));
        }
        lines.upsert(row);
        j += 1;
    }
    assert(aggregate@.take(j as int) =~= aggregate@);
    lines.into_rows()
}

} // verus!
