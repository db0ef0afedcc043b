//! The options of a benchmark and what follows from them before anything is
//! measured.

use crate::data_types::NumberType;
use vstd::prelude::*;
use vstd::string::*;
use vstd::utf8::encode_utf8;

verus! {

/// The units in which results are shown.
#[derive(Clone, Copy, Debug, PartialEq, Eq, Structural)]
pub enum Units {
    /// Times and sizes.
    Linear,
    /// Speeds and ratios.
    Inverse,
    /// Both.
    All,
}

/// What each iteration of a benchmark does.
#[derive(Clone, Debug)]
pub struct IterOpt {
    pub no_compress: bool,
    pub no_decompress: bool,
    /// Do not check that the numbers came back the same.
    pub no_assertions: bool,
    /// A directory to save the compressed data to.
    pub save_dir: Option<String>,
}

/// The options of a benchmark.
#[derive(Clone, Debug)]
pub struct BenchOpt {
    /// The codecs to run, each as it was written with its settings.
    pub codecs: Vec<String>,
    /// Parts of names: only datasets whose name holds one of them are run. All
    /// are run if there is none.
    pub datasets: Vec<String>,
    /// Names of data types: only datasets of one of them are run. All are run
    /// if there is none.
    pub dtypes: Vec<String>,
    /// How often each codec is run on each dataset.
    pub iters: usize,
    /// How many threads run each iteration at once.
    pub threads: Option<usize>,
    /// How many numbers of each dataset to take at most.
    pub limit: Option<usize>,
    /// The file of comma-separated values to which results are written.
    pub results_csv: Option<String>,
    pub units: Units,
    /// The name under which results are written to that file.
    pub input_name: Option<String>,
    pub iter_opt: IterOpt,
}

/// A column of the input: its name, the name of its data type, and the kind
/// of number that the codec takes it as, if any.
#[derive(Clone, Debug)]
pub struct Column {
    pub name: String,
    pub dtype: String,
    pub number_type: Option<NumberType>,
}

/// Why a benchmark cannot run or has nothing to show.
#[derive(Clone, Copy, Debug, PartialEq, Eq, Structural)]
pub enum BenchError {
    /// Results are to be written to a file, but no name is given to write them
    /// under.
    InputNameMissing,
    /// Threads are asked for, but the program was built without them.
    ThreadsUnavailable,
    /// No dataset passed the filters.
    NoDatasets,
    /// The codec at this place among those asked for measured nothing, so there
    /// is nothing to sum up for it.
    SumMissing { codec: usize },
    /// The sums for the codec at this place among those asked for leave the
    /// range of their fields.
    SumOverflow { codec: usize },
}

impl BenchError {
    pub open spec fn spec_message(self) -> Seq<char> {
        match self {
            BenchError::InputNameMissing => "input-name must be specified when results-csv is"@,
            BenchError::ThreadsUnavailable =>
                "threads can only be specified when built with the full_bench feature"@,
            BenchError::NoDatasets => "No datasets found that match filters"@,
            BenchError::SumMissing { .. } => "a codec measured nothing"@,
            BenchError::SumOverflow { .. } => "the sums of a codec are out of range"@,
        }
    }

    /// What to tell the user.
    pub fn message(self) -> (r: &'static str)
        ensures
            r@ == self.spec_message(),
    {
        match self {
            BenchError::InputNameMissing => "input-name must be specified when results-csv is",
            BenchError::ThreadsUnavailable =>
                "threads can only be specified when built with the full_bench feature",
            BenchError::NoDatasets => "No datasets found that match filters",
            BenchError::SumMissing { .. } => "a codec measured nothing",
            BenchError::SumOverflow { .. } => "the sums of a codec are out of range",
        }
    }
}

/// Whether `needle` stands in `hay` at the place `at`.
pub open spec fn spec_occurs_at(hay: Seq<u8>, needle: Seq<u8>, at: int) -> bool {
    &&& 0 <= at
    &&& at + needle.len() <= hay.len()
    &&& hay.subrange(at, at + needle.len()) == needle
}

/// Whether `needle` stands somewhere in `hay`.
pub open spec fn spec_contains(hay: Seq<u8>, needle: Seq<u8>) -> bool {
    exists|at: int| spec_occurs_at(hay, needle, at)
}

/// Whether one text stands somewhere in another. Texts are compared by their
/// bytes.
pub open spec fn spec_str_contains(hay: Seq<char>, needle: Seq<char>) -> bool {
    spec_contains(encode_utf8(hay), encode_utf8(needle))
}

/// Whether `needle` stands in `hay` at the place `at`.
fn occurs_at(hay: &[u8], needle: &[u8], at: usize) -> (r: bool)
    requires
        at + needle@.len() <= hay@.len(),
    ensures
        r == spec_occurs_at(hay@, needle@, at as int),
{
    let mut k: usize = 0;
    let hay_len = hay.len();
    while k < needle.len()
        invariant
            k <= needle@.len(),
            at + needle@.len() <= hay@.len() == hay_len,
            forall|j: int| 0 <= j < k ==> hay@[at + j] == needle@[j],
        decreases needle.len() - k,
    {
        if hay[at + k] != needle[k] {
            assert(hay@.subrange(at as int, at + needle@.len())[k as int] != needle@[k as int]);
            return false;
        }
        k += 1;
    }
    assert(hay@.subrange(at as int, at + needle@.len()) =~= needle@);
    true
}

/// Whether `needle` stands somewhere in `hay`.
pub fn contains(hay: &[u8], needle: &[u8]) -> (r: bool)
    ensures
        r == spec_contains(hay@, needle@),
{
    if needle.len() > hay.len() {
        return false;
    }
    let last = hay.len() - needle.len();
    let mut at: usize = 0;
    loop
        invariant
            last == hay@.len() - needle@.len(),
            at <= last,
            forall|i: int| 0 <= i < at ==> !spec_occurs_at(hay@, needle@, i),
        decreases last - at,
    {
        if occurs_at(hay, needle, at) {
            return true;
        }
        if at == last {
            return false;
        }
        at += 1;
    }
}

impl BenchOpt {
    /// Whether a name holds one of the parts of names asked for, or none is
    /// asked for.
    pub open spec fn spec_name_selected(&self, name: Seq<char>) -> bool {
        self.datasets@.len() == 0 || exists|i: int|
            0 <= i < self.datasets@.len() && spec_str_contains(name, #[trigger] self.datasets@[i]@)
    }

    /// Whether a data type is one of those asked for, or none is asked for.
    pub open spec fn spec_dtype_selected(&self, dtype: Seq<char>) -> bool {
        self.dtypes@.len() == 0 || exists|i: int|
            0 <= i < self.dtypes@.len() && (#[trigger] self.dtypes@[i])@ == dtype
    }

    /// Whether a column is to be run: the codec takes its data type, the data
    /// type passes the filter of data types, and the name passes the filter of
    /// names.
    pub open spec fn spec_includes_dataset(&self, column: Column) -> bool {
        &&& column.number_type is Some
        &&& self.spec_dtype_selected(column.dtype@)
        &&& self.spec_name_selected(column.name@)
    }

    /// Whether a column is to be run.
    pub fn includes_dataset(&self, column: &Column) -> (r: bool)
        ensures
            r == self.spec_includes_dataset(*column),
    {
        if column.number_type.is_none() {
            return false;
        }
        if self.dtypes.len() > 0 {
            let mut found = false;
            let mut i: usize = 0;
            while i < self.dtypes.len()
                invariant
                    i <= self.dtypes@.len(),
                    found <==> exists|j: int|
                        0 <= j < i && (#[trigger] self.dtypes@[j])@ == column.dtype@,
                decreases self.dtypes.len() - i,
            {
                if self.dtypes[i] == column.dtype {
                    found = true;
                }
                i += 1;
            }
            if !found {
                return false;
            }
        }
        if self.datasets.len() == 0 {
            return true;
        }
        let name = column.name.as_str().as_bytes();
        let mut i: usize = 0;
        while i < self.datasets.len()
            invariant
                i <= self.datasets@.len(),
                column.number_type is Some,
                self.spec_dtype_selected(column.dtype@),
                name@ == encode_utf8(column.name@),
                forall|j: int|
                    0 <= j < i ==> !spec_str_contains(column.name@, #[trigger] self.datasets@[j]@),
            decreases self.datasets.len() - i,
        {
            if contains(name, self.datasets[i].as_str().as_bytes()) {
                assert(spec_str_contains(column.name@, self.datasets@[i as int]@));
                return true;
            }
            i += 1;
        }
        false
    }

    /// The places of the columns that are to be run, in order.
    pub fn select_columns(&self, columns: &Vec<Column>) -> (r: Vec<usize>)
        ensures
            forall|k: int|
                0 <= k < r@.len() ==> (#[trigger] r@[k]) < columns@.len()
                    && self.spec_includes_dataset(columns@[r@[k] as int]),
            forall|k: int, l: int| 0 <= k < l < r@.len() ==> r@[k] < r@[l],
            forall|i: int|
                0 <= i < columns@.len() && self.spec_includes_dataset(#[trigger] columns@[i])
                    ==> r@.contains(i as usize),
    {
        let mut col_idxs: Vec<usize> = Vec::new();
        let mut i: usize = 0;
        while i < columns.len()
            invariant
                i <= columns@.len(),
                forall|k: int|
                    0 <= k < col_idxs@.len() ==> (#[trigger] col_idxs@[k]) < i
                        && self.spec_includes_dataset(columns@[col_idxs@[k] as int]),
                forall|k: int, l: int| 0 <= k < l < col_idxs@.len() ==> col_idxs@[k] < col_idxs@[l],
                forall|j: int|
                    0 <= j < i && self.spec_includes_dataset(#[trigger] columns@[j])
                        ==> col_idxs@.contains(j as usize),
            decreases columns.len() - i,
        {
            if self.includes_dataset(&columns[i]) {
                let ghost before = col_idxs@;
                col_idxs.push(i);
                assert(col_idxs@[before.len() as int] == i);
                assert forall|j: int|
                    0 <= j < i && self.spec_includes_dataset(
                        #[trigger] columns@[j],
                    ) implies col_idxs@.contains(j as usize) by {
                    let k = choose|k: int| 0 <= k < before.len() && before[k] == j as usize;
                    assert(col_idxs@[k] == j as usize);
                }
            }
            i += 1;
        }
        col_idxs
    }

    /// Whether the options can be run at all, in a program built with or
    /// without threads.
    pub open spec fn spec_check(&self, full_bench: bool) -> Result<(), BenchError> {
        if self.results_csv is Some && self.input_name is None {
            Err(BenchError::InputNameMissing)
        } else if self.threads is Some && !full_bench {
            Err(BenchError::ThreadsUnavailable)
        } else {
            Ok(())
        }
    }

    /// Refuses options that cannot be run: results to be written under no
    /// name, and threads where the program was built without them.
    pub fn check(&self, full_bench: bool) -> (r: Result<(), BenchError>)
        ensures
            r == self.spec_check(full_bench),
    {
        if self.results_csv.is_some() && self.input_name.is_none() {
            return Err(BenchError::InputNameMissing);
        }
        if self.threads.is_some() && !full_bench {
            return Err(BenchError::ThreadsUnavailable);
        }
        Ok(())
    }

    /// How many steps the progress of a benchmark over `n_columns` columns
    /// has: one for each codec, column, thread and iteration, with one more
    /// iteration to warm up. The product is taken factor by factor, and is
    /// nothing where it leaves the range of `usize` on the way.
    pub open spec fn spec_progress_len(&self, n_columns: usize) -> Option<u64> {
        let threads = match self.threads {
            Some(threads) => threads,
            None => 1,
        };
        let by_column = self.codecs@.len() * n_columns;
        let by_thread = by_column * threads;
        let runs = self.iters + 1;
        let all = by_thread * runs;
        if by_column <= usize::MAX && by_thread <= usize::MAX && runs <= usize::MAX && all
            <= usize::MAX {
            Some(all as u64)
        } else {
            None
        }
    }

    /// How many steps the progress of a benchmark over `n_columns` columns
    /// has.
    pub fn progress_len(&self, n_columns: usize) -> (r: Option<u64>)
        ensures
            r == self.spec_progress_len(n_columns),
    {
        let threads = match self.threads {
            Some(threads) => threads,
            None => 1,
        };
        let by_column = match self.codecs.len().checked_mul(n_columns) {
            Some(x) => x,
            None => {
                return None;
            },
        };
        let by_thread = match by_column.checked_mul(threads) {
            Some(x) => x,
            None => {
                return None;
            },
        };
        let runs = match self.iters.checked_add(1) {
            Some(x) => x,
            None => {
                return None;
            },
        };
        match by_thread.checked_mul(runs) {
            Some(all) => Some(all as u64),
            None => None,
        }
    }
}

/// The columns of the table of results that are not shown: the place of the
/// first and how many, if any. The table has the dataset, the codec, three
/// columns in linear units and three in inverse units.
pub fn hidden_columns(units: Units) -> (r: Option<(usize, usize)>)
    ensures
        r == (match units {
            Units::All => None::<(usize, usize)>,
            Units::Linear => Some((5usize, 3usize)),
            Units::Inverse => Some((2usize, 3usize)),
        }),
{
    match units {
        Units::All => None,
        Units::Linear => Some((5, 3)),
        Units::Inverse => Some((2, 3)),
    }
}

/// The name of a kind of number, as results show it.
pub fn core_dtype_to_str(dtype: NumberType) -> (r: String)
    ensures
        r@ == dtype.spec_name(),
{
    String::from_str(dtype.name())
}

} // verus!
