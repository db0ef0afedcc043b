use pco_core::bench::codecs::{Precomputed, VortexConfig};
use pco_core::bench::merge::{
    adjust, merge_results, order_bytes, order_key, CodecStat, Order, ResultRow, ResultTable,
};
use pco_core::bench::opt::{
    contains, core_dtype_to_str, hidden_columns, BenchError, BenchOpt, Column, IterOpt, Units,
};
use pco_core::bench::results::{parse_results, split, CsvError, RawRow};
use pco_core::bench::stat::{median_duration, sort_durations, BenchStat};
use pco_core::bench::summary::{print_rows, sum_for_codec, sum_rows, PrintStat, SumError};
use pco_core::data_types::NumberType;

fn stat(compress_dt: u128, decompress_dt: u128, compressed_size: usize) -> BenchStat {
    BenchStat { compress_dt, decompress_dt, compressed_size, uncompressed_size: 1000 }
}

fn opt() -> BenchOpt {
    BenchOpt {
        codecs: vec!["pco".to_string()],
        datasets: vec![],
        dtypes: vec![],
        iters: 10,
        threads: None,
        limit: None,
        results_csv: None,
        units: Units::Linear,
        input_name: None,
        iter_opt: IterOpt {
            no_compress: false,
            no_decompress: false,
            no_assertions: false,
            save_dir: None,
        },
    }
}

fn column(name: &str, dtype: &str, number_type: Option<NumberType>) -> Column {
    Column { name: name.to_string(), dtype: dtype.to_string(), number_type }
}

fn print_stat(dataset: &str, codec: &str, bench_stat: BenchStat) -> PrintStat {
    PrintStat::new(dataset.to_string(), codec.to_string(), bench_stat)
}

fn row(dataset: &str, codec: &str, stat: BenchStat) -> ResultRow {
    ResultRow { dataset: dataset.as_bytes().to_vec(), codec: codec.as_bytes().to_vec(), stat }
}

fn keys(rows: &[ResultRow]) -> Vec<(String, String)> {
    rows.iter()
        .map(|row| {
            (
                String::from_utf8(row.dataset.clone()).unwrap(),
                String::from_utf8(row.codec.clone()).unwrap(),
            )
        })
        .collect()
}

#[test]
fn test_median_of_an_odd_count() {
    assert_eq!(median_duration(vec![5]), 5);
    assert_eq!(median_duration(vec![30, 10, 20]), 20);
    assert_eq!(median_duration(vec![9, 1, 8, 2, 7]), 7);
}

#[test]
fn test_median_of_an_even_count() {
    assert_eq!(median_duration(vec![10, 20]), 15);
    assert_eq!(median_duration(vec![4, 1, 3, 2]), 2);
    assert_eq!(median_duration(vec![1, 2]), 1);
    assert_eq!(median_duration(vec![7, 7, 7, 7]), 7);
}

#[test]
fn test_median_of_the_longest_spans() {
    assert_eq!(median_duration(vec![u128::MAX, u128::MAX]), u128::MAX);
    assert_eq!(median_duration(vec![u128::MAX, u128::MAX - 2]), u128::MAX - 1);
    assert_eq!(median_duration(vec![0, u128::MAX]), u128::MAX / 2);
}

#[test]
fn test_sort_durations() {
    assert_eq!(sort_durations(&vec![3, 1, 2, 1, 0]), vec![0, 1, 1, 2, 3]);
    assert_eq!(sort_durations(&vec![]), Vec::<u128>::new());
    assert_eq!(sort_durations(&vec![2, 2]), vec![2, 2]);
}

#[test]
fn test_aggregate_median() {
    let benches = [stat(30, 5, 100), stat(10, 7, 100), stat(20, 6, 100)];
    assert_eq!(
        BenchStat::aggregate_median(&benches),
        BenchStat { compress_dt: 20, decompress_dt: 6, compressed_size: 100, uncompressed_size: 1000 }
    );
    let benches = [stat(4, 100, 64), stat(8, 300, 64)];
    assert_eq!(BenchStat::aggregate_median(&benches), stat(6, 200, 64));
    assert_eq!(BenchStat::aggregate_median(&[stat(1, 2, 3)]), stat(1, 2, 3));
}

#[test]
fn test_add_assign() {
    let mut sum = BenchStat::default();
    assert_eq!(
        sum,
        BenchStat { compress_dt: 0, decompress_dt: 0, compressed_size: 0, uncompressed_size: 0 }
    );
    sum.add_assign(stat(1, 2, 3));
    sum.add_assign(stat(10, 20, 30));
    assert_eq!(
        sum,
        BenchStat { compress_dt: 11, decompress_dt: 22, compressed_size: 33, uncompressed_size: 2000 }
    );
}

#[test]
fn test_checked_add() {
    assert_eq!(stat(1, 2, 3).checked_add(stat(4, 5, 6)), Some(BenchStat {
        compress_dt: 5,
        decompress_dt: 7,
        compressed_size: 9,
        uncompressed_size: 2000,
    }));
    assert_eq!(stat(u128::MAX, 0, 0).checked_add(stat(1, 0, 0)), None);
    assert_eq!(stat(0, u128::MAX, 0).checked_add(stat(0, 1, 0)), None);
    assert_eq!(stat(0, 0, usize::MAX).checked_add(stat(0, 0, 1)), None);
    let big = BenchStat { uncompressed_size: usize::MAX, ..stat(0, 0, 0) };
    assert_eq!(big.checked_add(stat(0, 0, 0)), None);
    assert_eq!(stat(u128::MAX, 0, 0).checked_add(BenchStat::default()), Some(BenchStat {
        compress_dt: u128::MAX,
        decompress_dt: 0,
        compressed_size: 0,
        uncompressed_size: 1000,
    }));
}

#[test]
fn test_contains() {
    assert!(contains(b"taxi_fares", b"taxi"));
    assert!(contains(b"taxi_fares", b"fares"));
    assert!(contains(b"taxi_fares", b"i_f"));
    assert!(contains(b"taxi_fares", b""));
    assert!(contains(b"", b""));
    assert!(contains(b"aab", b"ab"));
    assert!(!contains(b"taxi_fares", b"fare_"));
    assert!(!contains(b"taxi", b"taxis"));
    assert!(!contains(b"", b"a"));
}

#[test]
fn test_includes_dataset() {
    let i32_column = column("taxi_fares", "Int32", Some(NumberType::I32));
    let text_column = column("taxi_names", "Utf8", None);
    let all = opt();
    assert!(all.includes_dataset(&i32_column));
    assert!(!all.includes_dataset(&text_column));

    let by_name = BenchOpt { datasets: vec!["air".to_string(), "fares".to_string()], ..opt() };
    assert!(by_name.includes_dataset(&i32_column));
    assert!(!by_name.includes_dataset(&column("taxi_tips", "Int32", Some(NumberType::I32))));
    assert!(!by_name.includes_dataset(&column("fares", "Utf8", None)));

    let by_dtype = BenchOpt { dtypes: vec!["Float32".to_string(), "Int32".to_string()], ..opt() };
    assert!(by_dtype.includes_dataset(&i32_column));
    assert!(!by_dtype.includes_dataset(&column("taxi_fares", "Int64", Some(NumberType::I64))));

    let by_both = BenchOpt {
        datasets: vec!["taxi".to_string()],
        dtypes: vec!["Int64".to_string()],
        ..opt()
    };
    assert!(!by_both.includes_dataset(&i32_column));
    assert!(by_both.includes_dataset(&column("taxi_ids", "Int64", Some(NumberType::I64))));
    assert!(!by_both.includes_dataset(&column("air_ids", "Int64", Some(NumberType::I64))));
}

#[test]
fn test_select_columns() {
    let columns = vec![
        column("a_fares", "Int32", Some(NumberType::I32)),
        column("a_names", "Utf8", None),
        column("b_tips", "Float64", Some(NumberType::F64)),
        column("b_fares", "Float32", Some(NumberType::F32)),
    ];
    assert_eq!(opt().select_columns(&columns), vec![0, 2, 3]);
    let by_name = BenchOpt { datasets: vec!["fares".to_string()], ..opt() };
    assert_eq!(by_name.select_columns(&columns), vec![0, 3]);
    let by_dtype = BenchOpt { dtypes: vec!["Utf8".to_string()], ..opt() };
    assert_eq!(by_dtype.select_columns(&columns), Vec::<usize>::new());
    assert_eq!(opt().select_columns(&vec![]), Vec::<usize>::new());
}

#[test]
fn test_check_of_options() {
    assert_eq!(opt().check(false), Ok(()));
    assert_eq!(opt().check(true), Ok(()));
    let with_file = BenchOpt { results_csv: Some("results.csv".to_string()), ..opt() };
    assert_eq!(with_file.check(true), Err(BenchError::InputNameMissing));
    let with_name = BenchOpt { input_name: Some("taxi".to_string()), ..with_file.clone() };
    assert_eq!(with_name.check(false), Ok(()));
    let with_threads = BenchOpt { threads: Some(4), ..opt() };
    assert_eq!(with_threads.check(false), Err(BenchError::ThreadsUnavailable));
    assert_eq!(with_threads.check(true), Ok(()));
    let with_both = BenchOpt { threads: Some(4), ..with_file };
    assert_eq!(with_both.check(false), Err(BenchError::InputNameMissing));
}

#[test]
fn test_messages_of_bench_errors() {
    assert_eq!(
        BenchError::InputNameMissing.message(),
        "input-name must be specified when results-csv is"
    );
    assert_eq!(
        BenchError::ThreadsUnavailable.message(),
        "threads can only be specified when built with the full_bench feature"
    );
    assert_eq!(BenchError::NoDatasets.message(), "No datasets found that match filters");
    assert_eq!(BenchError::SumMissing { codec: 0 }.message(), "a codec measured nothing");
    assert_eq!(
        BenchError::SumOverflow { codec: 0 }.message(),
        "the sums of a codec are out of range"
    );
}

#[test]
fn test_progress_len() {
    assert_eq!(opt().progress_len(3), Some(33));
    let more = BenchOpt {
        codecs: vec!["pco".to_string(), "zstd".to_string()],
        threads: Some(4),
        iters: 9,
        ..opt()
    };
    assert_eq!(more.progress_len(5), Some(400));
    assert_eq!(more.progress_len(0), Some(0));
    assert_eq!(more.progress_len(usize::MAX), None);
    let no_threads = BenchOpt { threads: Some(0), ..opt() };
    assert_eq!(no_threads.progress_len(7), Some(0));
    let endless = BenchOpt { iters: usize::MAX, ..opt() };
    assert_eq!(endless.progress_len(1), None);
    let no_codecs = BenchOpt { codecs: vec![], iters: usize::MAX, ..opt() };
    assert_eq!(no_codecs.progress_len(1), None);
}

#[test]
fn test_hidden_columns() {
    assert_eq!(hidden_columns(Units::All), None);
    assert_eq!(hidden_columns(Units::Linear), Some((5, 3)));
    assert_eq!(hidden_columns(Units::Inverse), Some((2, 3)));
}

#[test]
fn test_core_dtype_to_str() {
    assert_eq!(core_dtype_to_str(NumberType::U16), "u16");
    assert_eq!(core_dtype_to_str(NumberType::F16), "f16");
    assert_eq!(core_dtype_to_str(NumberType::I64), "i64");
    assert_eq!(core_dtype_to_str(NumberType::F64), "f64");
}

#[test]
fn test_sum_for_codec() {
    let stats = vec![
        print_stat("a", "pco", stat(1, 2, 3)),
        print_stat("a", "zstd", stat(100, 200, 300)),
        print_stat("b", "pco", stat(10, 20, 30)),
    ];
    assert_eq!(
        sum_for_codec(&stats, &"pco".to_string()),
        Ok(BenchStat { compress_dt: 11, decompress_dt: 22, compressed_size: 33, uncompressed_size: 2000 })
    );
    assert_eq!(sum_for_codec(&stats, &"zstd".to_string()), Ok(stat(100, 200, 300)));
    assert_eq!(sum_for_codec(&stats, &"snappy".to_string()), Err(SumError::Missing));
    assert_eq!(sum_for_codec(&vec![], &"pco".to_string()), Err(SumError::Missing));
    let too_much = vec![
        print_stat("a", "pco", stat(1, 2, usize::MAX)),
        print_stat("b", "pco", stat(1, 2, 1)),
        print_stat("c", "pco", stat(1, 2, 1)),
    ];
    assert_eq!(sum_for_codec(&too_much, &"pco".to_string()), Err(SumError::Overflow));
}

#[test]
fn test_sum_rows() {
    let stats = vec![
        print_stat("a", "pco", stat(1, 2, 3)),
        print_stat("a", "zstd", stat(100, 200, 300)),
        print_stat("b", "pco", stat(10, 20, 30)),
        print_stat("b", "zstd", stat(1000, 2000, 3000)),
    ];
    let codecs = vec!["zstd".to_string(), "pco".to_string()];
    let rows = sum_rows(&stats, &codecs).unwrap();
    assert_eq!(rows.len(), 2);
    assert_eq!(rows[0].dataset, "<sum>");
    assert_eq!(rows[0].codec, "zstd");
    assert_eq!(rows[0].bench_stat, BenchStat {
        compress_dt: 1100,
        decompress_dt: 2200,
        compressed_size: 3300,
        uncompressed_size: 2000,
    });
    assert_eq!(rows[1].dataset, "<sum>");
    assert_eq!(rows[1].codec, "pco");
    assert_eq!(rows[1].bench_stat.compress_dt, 11);
    let codecs = vec!["pco".to_string(), "snappy".to_string(), "lz4".to_string()];
    assert_eq!(sum_rows(&stats, &codecs).unwrap_err(), (1, SumError::Missing));
}

#[test]
fn test_print_rows() {
    let codecs = vec!["pco".to_string()];
    assert_eq!(print_rows(vec![], &codecs).unwrap_err(), BenchError::NoDatasets);
    let stats = vec![print_stat("a", "pco", stat(1, 2, 3)), print_stat("b", "pco", stat(4, 5, 6))];
    let rows = print_rows(stats, &codecs).unwrap();
    let names: Vec<&str> = rows.iter().map(|row| row.dataset.as_str()).collect();
    assert_eq!(names, vec!["a", "b", "<sum>"]);
    assert_eq!(rows[2].bench_stat.compressed_size, 9);
    assert_eq!(rows[2].bench_stat.compress_dt, 5);
    assert_eq!(rows[2].bench_stat.decompress_dt, 7);
    let stats = vec![print_stat("a", "pco", stat(1, 2, 3))];
    let codecs = vec!["pco".to_string(), "zstd".to_string()];
    assert_eq!(print_rows(stats, &codecs).unwrap_err(), BenchError::SumMissing { codec: 1 });
    let stats =
        vec![print_stat("a", "pco", stat(u128::MAX, 2, 3)), print_stat("b", "pco", stat(1, 2, 3))];
    assert_eq!(print_rows(stats, &codecs).unwrap_err(), BenchError::SumOverflow { codec: 0 });
}

#[test]
fn test_split() {
    assert_eq!(split(b"a,bc,,d", b','), vec![b"a".to_vec(), b"bc".to_vec(), vec![], b"d".to_vec()]);
    assert_eq!(split(b"", b','), vec![Vec::<u8>::new()]);
    assert_eq!(split(b",", b','), vec![Vec::<u8>::new(), vec![]]);
    assert_eq!(split(b"abc", b','), vec![b"abc".to_vec()]);
    assert_eq!(split(b"a\nb\n", b'\n'), vec![b"a".to_vec(), b"b".to_vec(), vec![]]);
}

fn fields(row: &RawRow) -> Vec<String> {
    [&row.dataset, &row.codec, &row.compress_dt, &row.decompress_dt, &row.compressed_size]
        .iter()
        .map(|field| String::from_utf8((*field).clone()).unwrap())
        .collect()
}

#[test]
fn test_parse_results() {
    let contents = b"input,codec,compress_dt,decompress_dt,compressed_size\n\
        taxi,pco,0.5,0.25,1000\n\
        \n\
        taxi,zstd:level=3,1.5,0.75,2000,and,more\n";
    let rows = parse_results(contents).unwrap();
    assert_eq!(rows.len(), 2);
    assert_eq!(fields(&rows[0]), vec!["taxi", "pco", "0.5", "0.25", "1000"]);
    assert_eq!(fields(&rows[1]), vec!["taxi", "zstd:level=3", "1.5", "0.75", "2000"]);
    assert!(parse_results(b"").unwrap().is_empty());
    assert!(parse_results(b"anything at all").unwrap().is_empty());
    assert!(parse_results(b"heading\n\n\n").unwrap().is_empty());
}

#[test]
fn test_parse_results_with_a_short_line() {
    let contents = b"heading\na,b,1,2,3\na,b,1,2\nx\n";
    assert_eq!(parse_results(contents).unwrap_err(), CsvError { line: 2, n_fields: 4 });
    let contents = b"heading\n\nx\n,,,,\n";
    assert_eq!(parse_results(contents).unwrap_err(), CsvError { line: 2, n_fields: 1 });
    let rows = parse_results(b"heading\n,,,,").unwrap();
    assert_eq!(fields(&rows[0]), vec!["", "", "", "", ""]);
}

#[test]
fn test_order_of_names() {
    assert_eq!(order_bytes(b"abc", b"abd"), Order::Less);
    assert_eq!(order_bytes(b"abd", b"abc"), Order::Greater);
    assert_eq!(order_bytes(b"abc", b"abc"), Order::Equal);
    assert_eq!(order_bytes(b"ab", b"abc"), Order::Less);
    assert_eq!(order_bytes(b"abc", b"ab"), Order::Greater);
    assert_eq!(order_bytes(b"", b""), Order::Equal);
    assert_eq!(order_bytes(b"", b"a"), Order::Less);
    assert_eq!(order_bytes(b"b", b"abc"), Order::Greater);
    assert_eq!(order_bytes("é".as_bytes(), b"z"), Order::Greater);
    for (a, b) in [("abc", "abd"), ("ab", "abc"), ("", "a"), ("b", "abc"), ("é", "z"), ("q", "q")] {
        let expected = match a.cmp(b) {
            std::cmp::Ordering::Less => Order::Less,
            std::cmp::Ordering::Equal => Order::Equal,
            std::cmp::Ordering::Greater => Order::Greater,
        };
        assert_eq!(order_bytes(a.as_bytes(), b.as_bytes()), expected);
    }
    let entry = row("taxi", "pco", stat(1, 2, 3));
    assert_eq!(order_key(&entry, b"taxi", b"pco"), Order::Equal);
    assert_eq!(order_key(&entry, b"taxi", b"zstd"), Order::Less);
    assert_eq!(order_key(&entry, b"air", b"zstd"), Order::Greater);
    assert_eq!(order_key(&entry, b"taxis", b"a"), Order::Less);
}

#[test]
fn test_upsert_and_find() {
    let mut table = ResultTable::new();
    assert_eq!(table.find(b"air", b"pco"), None);
    table.upsert(row("taxi", "zstd", stat(1, 1, 1)));
    table.upsert(row("air", "pco", stat(2, 2, 2)));
    table.upsert(row("taxi", "pco", stat(3, 3, 3)));
    table.upsert(row("taxi", "zstd", stat(4, 4, 4)));
    assert_eq!(table.find(b"taxi", b"zstd"), Some(stat(4, 4, 4)));
    assert_eq!(table.find(b"air", b"pco"), Some(stat(2, 2, 2)));
    assert_eq!(table.find(b"air", b"zstd"), None);
    assert_eq!(table.find(b"", b""), None);
    assert_eq!(
        keys(&table.into_rows()),
        vec![
            ("air".to_string(), "pco".to_string()),
            ("taxi".to_string(), "pco".to_string()),
            ("taxi".to_string(), "zstd".to_string()),
        ]
    );
}

#[test]
fn test_adjust() {
    let new = stat(10, 20, 30);
    let old = BenchStat { uncompressed_size: 0, ..stat(1, 2, 3) };
    assert_eq!(adjust(new, None, true, true), new);
    assert_eq!(adjust(new, Some(old), false, false), new);
    assert_eq!(adjust(new, Some(old), true, false), stat(1, 20, 30));
    assert_eq!(adjust(new, Some(old), false, true), stat(10, 2, 30));
    assert_eq!(adjust(new, Some(old), true, true), stat(1, 2, 30));
}

#[test]
fn test_merge_results() {
    let loaded = BenchStat { uncompressed_size: 0, ..stat(5, 6, 7) };
    let existing = vec![
        row("taxi", "zstd", loaded),
        row("air", "pco", loaded),
        row("taxi", "pco", loaded),
        row("air", "pco", BenchStat { compressed_size: 8, ..loaded }),
    ];
    let aggregate = vec![
        CodecStat { codec: b"pco".to_vec(), stat: stat(50, 60, 70) },
        CodecStat { codec: b"lz4".to_vec(), stat: stat(51, 61, 71) },
    ];
    let merged = merge_results(&existing, b"taxi", &aggregate, false, true);
    assert_eq!(
        keys(&merged),
        vec![
            ("air".to_string(), "pco".to_string()),
            ("taxi".to_string(), "lz4".to_string()),
            ("taxi".to_string(), "pco".to_string()),
            ("taxi".to_string(), "zstd".to_string()),
        ]
    );
    assert_eq!(merged[0].stat, BenchStat { compressed_size: 8, ..loaded });
    assert_eq!(merged[1].stat, stat(51, 61, 71));
    assert_eq!(merged[2].stat, stat(50, 6, 70));
    assert_eq!(merged[3].stat, loaded);

    let merged = merge_results(&existing, b"bus", &aggregate, true, true);
    assert_eq!(merged.len(), 5);
    assert_eq!(
        keys(&merged)[..2],
        [("air".to_string(), "pco".to_string()), ("bus".to_string(), "lz4".to_string())]
    );
    assert_eq!(merged[1].stat, stat(51, 61, 71));
    assert_eq!(merged[2].stat, stat(50, 60, 70));
    assert_eq!(merged[3].stat, loaded);

    let merged = merge_results(&Vec::new(), b"bus", &Vec::new(), false, false);
    assert!(merged.is_empty());
}

#[test]
fn test_vortex_config() {
    let config = VortexConfig {};
    assert_eq!(config.name(), "vortex");
    assert!(config.get_confs().is_empty());
}

#[test]
fn test_precomputed() {
    let precomputed = Precomputed::new(vec![1, 2, 3]);
    assert_eq!(precomputed.compressed(), &vec![1, 2, 3]);
}
