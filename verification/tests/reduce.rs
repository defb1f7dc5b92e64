use csvsc::adjacent_reduce::AdjacentReduce;
use csvsc::aggregate::source_field;
use csvsc::aggregate::Aggregate;
use csvsc::aggregate::Count;
use csvsc::aggregate::Last;
use csvsc::error::AggregateError;
use csvsc::error::ColBuildError;
use csvsc::error::ReducerBuildError;
use csvsc::reduce::AggregateKind;
use csvsc::reduce::AggregatedCol;
use csvsc::reduce::ColumnSpec;
use csvsc::reduce::Reduce;
use csvsc::row_stream::collect;
use csvsc::Error;
use csvsc::Headers;
use csvsc::MockStream;
use csvsc::Row;
use csvsc::RowResult;
use csvsc::RowStream;

/// The aggregates over numbers, on 64-bit floats.
#[derive(Debug)]
enum Numeric {
    Sum { source: String, total: f64 },
    Avg { source: String, sum: f64, count: u64 },
    Min { source: String, current: f64 },
    Max { source: String, current: f64 },
    DefaultMin { source: String, current: f64 },
    DefaultMax { source: String, current: f64 },
    Last(Last),
    Count(Count),
}

impl Numeric {
    fn sum(source: &str) -> Numeric {
        Numeric::Sum { source: source.to_string(), total: 0.0 }
    }

    fn avg(source: &str) -> Numeric {
        Numeric::Avg { source: source.to_string(), sum: 0.0, count: 0 }
    }

    fn min(source: &str) -> Numeric {
        Numeric::Min { source: source.to_string(), current: f64::INFINITY }
    }

    fn max(source: &str) -> Numeric {
        Numeric::Max { source: source.to_string(), current: f64::NEG_INFINITY }
    }

    fn default_min(source: &str) -> Numeric {
        Numeric::DefaultMin { source: source.to_string(), current: f64::INFINITY }
    }

    fn default_max(source: &str) -> Numeric {
        Numeric::DefaultMax { source: source.to_string(), current: f64::NEG_INFINITY }
    }

    fn of(spec: &ColumnSpec) -> Numeric {
        let source = spec.source().unwrap_or("");
        match spec.kind() {
            AggregateKind::Sum => Numeric::sum(source),
            AggregateKind::Avg => Numeric::avg(source),
            AggregateKind::Min => Numeric::min(source),
            AggregateKind::Max => Numeric::max(source),
            AggregateKind::DefaultMin => Numeric::default_min(source),
            AggregateKind::DefaultMax => Numeric::default_max(source),
            AggregateKind::Last => Numeric::Last(Last::new(source)),
            AggregateKind::Count => Numeric::Count(Count::new()),
        }
    }
}

fn number(headers: &Headers, row: &Row, source: &str) -> Result<f64, AggregateError> {
    let data = source_field(headers, row, source)?;

    match data.parse::<f64>() {
        Ok(num) => Ok(num),
        Err(_) => Err(AggregateError::ValueError(data.to_string())),
    }
}

impl Aggregate for Numeric {
    type Model = ();

    fn fresh(&self) -> Numeric {
        match self {
            Numeric::Sum { source, .. } => Numeric::sum(source),
            Numeric::Avg { source, .. } => Numeric::avg(source),
            Numeric::Min { source, .. } => Numeric::min(source),
            Numeric::Max { source, .. } => Numeric::max(source),
            Numeric::DefaultMin { source, .. } => Numeric::default_min(source),
            Numeric::DefaultMax { source, .. } => Numeric::default_max(source),
            Numeric::Last(last) => Numeric::Last(last.fresh()),
            Numeric::Count(count) => Numeric::Count(count.fresh()),
        }
    }

    fn source(&self) -> Option<String> {
        match self {
            Numeric::Sum { source, .. }
            | Numeric::Avg { source, .. }
            | Numeric::Min { source, .. }
            | Numeric::Max { source, .. }
            | Numeric::DefaultMin { source, .. }
            | Numeric::DefaultMax { source, .. } => Some(source.clone()),
            Numeric::Last(last) => last.source(),
            Numeric::Count(count) => count.source(),
        }
    }

    fn update(&mut self, headers: &Headers, row: &Row) -> Result<(), AggregateError> {
        match self {
            Numeric::Sum { source, total } => {
                *total += number(headers, row, source)?;
                Ok(())
            }
            Numeric::Avg { source, sum, count } => {
                *sum += number(headers, row, source)?;
                *count += 1;
                Ok(())
            }
            Numeric::Min { source, current } => {
                let num = number(headers, row, source)?;
                if num < *current {
                    *current = num;
                }
                Ok(())
            }
            Numeric::Max { source, current } => {
                let num = number(headers, row, source)?;
                if num > *current {
                    *current = num;
                }
                Ok(())
            }
            Numeric::DefaultMin { source, current } => {
                if let Ok(num) = number(headers, row, source) {
                    if num < *current {
                        *current = num;
                    }
                }
                Ok(())
            }
            Numeric::DefaultMax { source, current } => {
                if let Ok(num) = number(headers, row, source) {
                    if num > *current {
                        *current = num;
                    }
                }
                Ok(())
            }
            Numeric::Last(last) => last.update(headers, row),
            Numeric::Count(count) => count.update(headers, row),
        }
    }

    fn value(&self) -> String {
        match self {
            Numeric::Sum { total, .. } => total.to_string(),
            Numeric::Avg { sum, count, .. } => {
                if *count != 0 {
                    (*sum / *count as f64).to_string()
                } else {
                    "NaN".to_string()
                }
            }
            Numeric::Min { current, .. }
            | Numeric::Max { current, .. }
            | Numeric::DefaultMin { current, .. }
            | Numeric::DefaultMax { current, .. } => current.to_string(),
            Numeric::Last(last) => last.value(),
            Numeric::Count(count) => count.value(),
        }
    }
}

fn column(def: &str) -> AggregatedCol<Numeric> {
    let spec = ColumnSpec::from_str(def).unwrap();
    let aggregate = Numeric::of(&spec);
    spec.bind(aggregate)
}

fn rows(items: Vec<RowResult>) -> Vec<Row> {
    items.into_iter().map(|i| i.unwrap()).collect()
}

fn sorted(items: Vec<RowResult>) -> Vec<Row> {
    let mut results = rows(items);
    results.sort_by(|a, b| a.as_slice().cmp(b.as_slice()));
    results
}

fn names_and_targets() -> MockStream {
    MockStream::from_rows(vec![
        Ok(Row::from(vec!["name", "_target"])),
        Ok(Row::from(vec!["a", "a"])),
        Ok(Row::from(vec!["b", "a"])),
        Ok(Row::from(vec!["c", "a"])),
    ])
    .unwrap()
}

fn four_rows() -> MockStream {
    MockStream::from_rows(vec![
        Ok(Row::from(vec!["a", "b"])),
        Ok(Row::from(vec!["1", "2"])),
        Ok(Row::from(vec!["1", "4"])),
        Ok(Row::from(vec!["2", "7"])),
        Ok(Row::from(vec!["2", "9"])),
    ])
    .unwrap()
}

fn five_rows() -> MockStream {
    MockStream::from_rows(vec![
        Ok(Row::from(vec!["a", "b"])),
        Ok(Row::from(vec!["1", "2"])),
        Ok(Row::from(vec!["1", "4"])),
        Ok(Row::from(vec!["2", "7"])),
        Ok(Row::from(vec!["2", "9"])),
        Ok(Row::from(vec!["1", "4"])),
    ])
    .unwrap()
}

#[test]
fn reduce_test_reduce_id_function() {
    let none: Vec<AggregatedCol<Numeric>> = Vec::new();
    let mut re = Reduce::new(names_and_targets(), &[], none).unwrap();

    assert_eq!(
        sorted(collect(&mut re)),
        vec![
            Row::from(vec!["a", "a"]),
            Row::from(vec!["b", "a"]),
            Row::from(vec!["c", "a"]),
        ]
    );
}

#[test]
fn test_reducer_id_function() {
    let none: Vec<AggregatedCol<Count>> = Vec::new();
    let mut re = Reduce::new(names_and_targets(), &[], none).unwrap();

    assert_eq!(
        rows(collect(&mut re)),
        vec![
            Row::from(vec!["a", "a"]),
            Row::from(vec!["b", "a"]),
            Row::from(vec!["c", "a"]),
        ]
    );
}

#[test]
fn reduce_test_reduce_avg() {
    let mut r = Reduce::new(four_rows(), &["a"], vec![column("new:avg:b")]).unwrap();

    assert_eq!(
        sorted(collect(&mut r)),
        vec![Row::from(vec!["1", "4", "3"]), Row::from(vec!["2", "9", "8"])]
    );
}

#[test]
fn reduce_test_reduce_min() {
    let mut r = Reduce::new(four_rows(), &["a"], vec![column("new:min:b")]).unwrap();

    assert_eq!(
        sorted(collect(&mut r)),
        vec![Row::from(vec!["1", "4", "2"]), Row::from(vec!["2", "9", "7"])]
    );
}

#[test]
fn reduce_test_reduce_max() {
    let mut r = Reduce::new(four_rows(), &["a"], vec![column("new:max:b")]).unwrap();

    assert_eq!(
        sorted(collect(&mut r)),
        vec![Row::from(vec!["1", "4", "4"]), Row::from(vec!["2", "9", "9"])]
    );
}

#[test]
fn reduce_test_reduce_sum() {
    let mut r = Reduce::new(four_rows(), &["a"], vec![column("new:sum:b")]).unwrap();

    assert_eq!(
        sorted(collect(&mut r)),
        vec![Row::from(vec!["1", "4", "6"]), Row::from(vec!["2", "9", "16"])]
    );
}

#[test]
fn test_reducer_avg() {
    let mut r = Reduce::new(four_rows(), &["a"], vec![column("new:avg:b")]).unwrap();

    assert_eq!(
        rows(collect(&mut r)),
        vec![Row::from(vec!["1", "4", "3"]), Row::from(vec!["2", "9", "8"])]
    );
}

#[test]
fn test_reducer_min() {
    let mut r = Reduce::new(four_rows(), &["a"], vec![column("new:min:b")]).unwrap();

    assert_eq!(
        rows(collect(&mut r)),
        vec![Row::from(vec!["1", "4", "2"]), Row::from(vec!["2", "9", "7"])]
    );
}

#[test]
fn test_reducer_max() {
    let mut r = Reduce::new(four_rows(), &["a"], vec![column("new:max:b")]).unwrap();

    assert_eq!(
        rows(collect(&mut r)),
        vec![Row::from(vec!["1", "4", "4"]), Row::from(vec!["2", "9", "9"])]
    );
}

#[test]
fn test_reducer_sum() {
    let mut r = Reduce::new(four_rows(), &["a"], vec![column("new:sum:b")]).unwrap();

    assert_eq!(
        rows(collect(&mut r)),
        vec![Row::from(vec!["1", "4", "6"]), Row::from(vec!["2", "9", "16"])]
    );
}

#[test]
fn test_reduce_error() {
    let iter = MockStream::from_rows(vec![
        Ok(Row::from(vec!["a", "b"])),
        Err(Error::ColBuildError(ColBuildError::InvalidFormat)),
        Ok(Row::from(vec!["1", "2"])),
        Ok(Row::from(vec!["1", "4"])),
        Ok(Row::from(vec!["2", "7"])),
        Ok(Row::from(vec!["2", "9"])),
    ])
    .unwrap();

    let mut r = Reduce::new(iter, &["a"], vec![column("new:sum:b")]).unwrap();

    match r.next().unwrap().unwrap_err() {
        Error::ColBuildError(ColBuildError::InvalidFormat) => {}
        _ => panic!("didn't expect this"),
    }

    assert_eq!(
        sorted(collect(&mut r)),
        vec![Row::from(vec!["1", "4", "6"]), Row::from(vec!["2", "9", "16"])]
    );
}

#[test]
fn reduce_merges_rows_that_are_apart() {
    let mut r = Reduce::new(five_rows(), &["a"], vec![column("new:avg:b")]).unwrap();

    assert_eq!(
        *r.headers(),
        Headers::from_row(Row::from(vec!["a", "b", "new"]))
    );
    let expected = (10.0_f64 / 3.0).to_string();
    assert_eq!(
        rows(collect(&mut r)),
        vec![
            Row::from(vec!["1", "4", expected.as_str()]),
            Row::from(vec!["2", "9", "8"]),
        ]
    );
}

#[test]
fn reduce_hands_out_errors_first_and_keys_as_first_seen() {
    let iter = MockStream::from_rows(vec![
        Ok(Row::from(vec!["a", "b"])),
        Ok(Row::from(vec!["2", "7"])),
        Err(Error::InconsistentHeaders),
        Ok(Row::from(vec!["1", "2"])),
        Ok(Row::from(vec!["short"])),
        Ok(Row::from(vec!["2", "9"])),
    ])
    .unwrap();

    let mut r = Reduce::new(iter, &["b"], vec![AggregatedCol::new("n", Count::new())]).unwrap();
    let items = collect(&mut r);

    assert_eq!(items.len(), 5);
    assert!(matches!(items[0], Err(Error::InconsistentHeaders)));
    match &items[1] {
        Err(Error::HashError(name)) => assert_eq!(name, "b"),
        _ => panic!("the short row was grouped"),
    }
    assert_eq!(*items[2].as_ref().unwrap(), Row::from(vec!["2", "7", "1"]));
    assert_eq!(*items[3].as_ref().unwrap(), Row::from(vec!["1", "2", "1"]));
    assert_eq!(*items[4].as_ref().unwrap(), Row::from(vec!["2", "9", "1"]));
    assert!(r.next().is_none());
}

#[test]
fn reduce_rejects_what_the_schema_lacks() {
    match Reduce::new(four_rows(), &["a", "nope"], vec![column("new:sum:b")]) {
        Err(ReducerBuildError::GroupingKeyError(name)) => assert_eq!(name, "nope"),
        _ => panic!("built"),
    }
    match Reduce::new(four_rows(), &["a"], vec![column("new:sum:c")]) {
        Err(ReducerBuildError::AggregateSourceError(name)) => assert_eq!(name, "c"),
        _ => panic!("built"),
    }
    match Reduce::new(four_rows(), &["a"], vec![column("b:sum:b")]) {
        Err(ReducerBuildError::DuplicatedHeader(name)) => assert_eq!(name, "b"),
        _ => panic!("built"),
    }
    match AdjacentReduce::new(
        four_rows(),
        &["a"],
        vec![column("x:sum:b"), column("x:max:b")],
    ) {
        Err(ReducerBuildError::DuplicatedHeader(name)) => assert_eq!(name, "x"),
        _ => panic!("built"),
    }
}

#[test]
fn a_failed_build_reads_nothing() {
    let mut upstream = four_rows();
    let none: Vec<AggregatedCol<Count>> = Vec::new();

    match csvsc::reduce::check(upstream.headers(), &["missing"], &none) {
        Err(ReducerBuildError::GroupingKeyError(name)) => assert_eq!(name, "missing"),
        _ => panic!("accepted"),
    }

    assert_eq!(
        rows(collect(&mut upstream)),
        vec![
            Row::from(vec!["1", "2"]),
            Row::from(vec!["1", "4"]),
            Row::from(vec!["2", "7"]),
            Row::from(vec!["2", "9"]),
        ]
    );
}

#[test]
fn adjacent_reduce_test_reduce_id_function() {
    let none: Vec<AggregatedCol<Numeric>> = Vec::new();
    let mut re = AdjacentReduce::new(names_and_targets(), &[], none).unwrap();

    assert_eq!(
        rows(collect(&mut re)),
        vec![
            Row::from(vec!["a", "a"]),
            Row::from(vec!["b", "a"]),
            Row::from(vec!["c", "a"]),
        ]
    );
}

#[test]
fn adjacent_reduce_test_reduce_avg() {
    let mut r = AdjacentReduce::new(five_rows(), &["a"], vec![column("new:avg:b")]).unwrap();

    assert_eq!(
        rows(collect(&mut r)),
        vec![
            Row::from(vec!["1", "4", "3"]),
            Row::from(vec!["2", "9", "8"]),
            Row::from(vec!["1", "4", "4"]),
        ]
    );
}

#[test]
fn adjacent_reduce_test_reduce_min() {
    let mut r = AdjacentReduce::new(five_rows(), &["a"], vec![column("new:min:b")]).unwrap();

    assert_eq!(
        rows(collect(&mut r)),
        vec![
            Row::from(vec!["1", "4", "2"]),
            Row::from(vec!["2", "9", "7"]),
            Row::from(vec!["1", "4", "4"]),
        ]
    );
}

#[test]
fn adjacent_reduce_test_reduce_max() {
    let mut r = AdjacentReduce::new(five_rows(), &["a"], vec![column("new:max:b")]).unwrap();

    assert_eq!(
        rows(collect(&mut r)),
        vec![
            Row::from(vec!["1", "4", "4"]),
            Row::from(vec!["2", "9", "9"]),
            Row::from(vec!["1", "4", "4"]),
        ]
    );
}

#[test]
fn adjacent_reduce_test_reduce_sum() {
    let mut r = AdjacentReduce::new(five_rows(), &["a"], vec![column("new:sum:b")]).unwrap();

    assert_eq!(
        rows(collect(&mut r)),
        vec![
            Row::from(vec!["1", "4", "6"]),
            Row::from(vec!["2", "9", "16"]),
            Row::from(vec!["1", "4", "4"]),
        ]
    );
}

#[test]
fn test_reduce_errors() {
    let iter = MockStream::from_rows(vec![
        Ok(Row::from(vec!["a", "b"])),
        Ok(Row::from(vec!["1", "2"])),
        Err(Error::ColBuildError(ColBuildError::InvalidFormat)),
        Err(Error::ColBuildError(ColBuildError::UnknownSource)),
        Ok(Row::from(vec!["1", "4"])),
        Ok(Row::from(vec!["2", "7"])),
        Ok(Row::from(vec!["2", "9"])),
        Ok(Row::from(vec!["1", "4"])),
    ])
    .unwrap();

    let none: Vec<AggregatedCol<Numeric>> = vec![];
    let mut r = AdjacentReduce::new(iter, &["a"], none).unwrap();

    assert_eq!(r.next().unwrap().unwrap(), Row::from(vec!["1", "2"]));

    match r.next().unwrap().unwrap_err() {
        Error::ColBuildError(ColBuildError::InvalidFormat) => {}
        _ => panic!("failed"),
    }

    match r.next().unwrap().unwrap_err() {
        Error::ColBuildError(ColBuildError::UnknownSource) => {}
        _ => panic!("failed"),
    }

    assert_eq!(r.next().unwrap().unwrap(), Row::from(vec!["1", "4"]));
    assert_eq!(r.next().unwrap().unwrap(), Row::from(vec!["2", "9"]));
    assert_eq!(r.next().unwrap().unwrap(), Row::from(vec!["1", "4"]));

    assert!(r.next().is_none());
}

#[test]
fn a_refused_row_fails_its_run_and_no_other() {
    let iter = MockStream::from_rows(vec![
        Ok(Row::from(vec!["a", "b"])),
        Ok(Row::from(vec!["1", "2"])),
        Ok(Row::from(vec!["1", "chicken"])),
        Ok(Row::from(vec!["1", "3"])),
        Ok(Row::from(vec!["2", "7"])),
    ])
    .unwrap();

    let mut r = AdjacentReduce::new(iter, &["a"], vec![column("new:sum:b")]).unwrap();

    match r.next().unwrap().unwrap_err() {
        Error::AggregateError(AggregateError::ValueError(text)) => assert_eq!(text, "chicken"),
        _ => panic!("failed"),
    }
    assert_eq!(r.next().unwrap().unwrap(), Row::from(vec!["2", "7", "7"]));
    assert!(r.next().is_none());
}

#[test]
fn avg_test_avg() {
    let mut avg = Numeric::avg("a");
    let h = Headers::from_row(Row::from(vec!["a"]));

    avg.update(&h, &Row::from(vec!["3.0"])).unwrap();
    avg.update(&h, &Row::from(vec!["2"])).unwrap();
    avg.update(&h, &Row::from(vec![".5"])).unwrap();
    avg.update(&h, &Row::from(vec![".5"])).unwrap();

    assert_eq!(avg.value(), "1.5");
}

#[test]
fn golden_values() {
    let h = Headers::from_row(Row::from(vec!["a"]));
    let columns = vec![
        column("sum:sum:a"),
        column("min:min:a"),
        column("max:max:a"),
        column("count:count"),
        column("last:last:a"),
    ];
    let given = vec![
        Row::from(vec!["3.0"]),
        Row::from(vec!["2"]),
        Row::from(vec![".5"]),
    ];

    assert_eq!(
        csvsc::reduce::group::fold(&h, &columns, &given).unwrap(),
        Row::from(vec![".5", "5.5", "0.5", "3", "3", ".5"])
    );
}

#[test]
fn default_extrema_ignore_what_strict_ones_report() {
    let h = Headers::from_row(Row::from(vec!["b"]));
    let given = vec![Row::from(vec!["3.0"]), Row::from(vec!["1"])];

    let lenient = vec![column("lo:defaultmin:a"), column("hi:defaultmax:a")];
    assert_eq!(
        csvsc::reduce::group::fold(&h, &lenient, &given).unwrap(),
        Row::from(vec!["1", "inf", "-inf"])
    );

    for def in ["lo:min:a", "hi:max:a"] {
        match csvsc::reduce::group::fold(&h, &vec![column(def)], &given) {
            Err(Error::AggregateError(AggregateError::MissingColumn(name))) => {
                assert_eq!(name, "a")
            }
            _ => panic!("no error"),
        }
    }
}

#[test]
fn test_parse_avg() {
    let col = AggregatedCol::new("newcol", Numeric::avg("prev"));

    assert_eq!(col.colname(), "newcol");
    assert_eq!(col.aggregate().value(), "NaN");
}

#[test]
fn test_parse_max() {
    let col = AggregatedCol::new("newcol", Numeric::max("prev"));

    assert_eq!(col.colname(), "newcol");
    assert_eq!(col.aggregate().value(), "-inf");
}

#[test]
fn test_parse_min() {
    let col = AggregatedCol::new("newcol", Numeric::min("prev"));

    assert_eq!(col.colname(), "newcol");
    assert_eq!(col.aggregate().value(), "inf");
}

#[test]
fn test_parse_sum() {
    let col = AggregatedCol::new("newcol", Numeric::sum("prev"));

    assert_eq!(col.colname(), "newcol");
    assert_eq!(col.aggregate().value(), "0");
}

#[test]
fn test_parse_defaultmax() {
    let col = AggregatedCol::new("newcol", Numeric::default_max("prev"));

    assert_eq!(col.colname(), "newcol");
    assert_eq!(col.aggregate().value(), "-inf");
}

#[test]
fn test_parse_defaultmin() {
    let col = AggregatedCol::new("newcol", Numeric::default_min("prev"));

    assert_eq!(col.colname(), "newcol");
    assert_eq!(col.aggregate().value(), "inf");
}

#[test]
fn avg_test_missing_column() {
    let mut avg = Numeric::avg("a");
    let h = Headers::from_row(Row::from(vec!["b"]));

    let r = Row::from(vec!["3.0"]);

    match avg.update(&h, &r) {
        Err(AggregateError::MissingColumn(val)) => assert_eq!(val, "a"),
        Err(AggregateError::ValueError(_)) => panic!("wrong error"),
        Ok(_) => panic!("Test failed"),
    }
}

#[test]
fn avg_test_value_error() {
    let mut avg = Numeric::avg("a");
    let h = Headers::from_row(Row::from(vec!["a"]));

    let r = Row::from(vec!["chicken"]);

    match avg.update(&h, &r) {
        Err(AggregateError::ValueError(val)) => assert_eq!(val, "chicken"),
        Err(AggregateError::MissingColumn(_)) => panic!("wrong error"),
        Ok(_) => panic!("Test failed"),
    }
}

fn fed(mut aggregate: Numeric) -> String {
    let h = Headers::from_row(Row::from(vec!["a"]));

    let r = Row::from(vec!["3.0"]);
    aggregate.update(&h, &r).unwrap();
    let r = Row::from(vec!["2"]);
    aggregate.update(&h, &r).unwrap();
    let r = Row::from(vec![".5"]);
    aggregate.update(&h, &r).unwrap();

    aggregate.value()
}

fn missing(mut aggregate: Numeric) -> (Result<(), AggregateError>, String) {
    let h = Headers::from_row(Row::from(vec!["b"]));
    let r = Row::from(vec!["3.0"]);
    let done = aggregate.update(&h, &r);

    (done, aggregate.value())
}

fn unreadable(mut aggregate: Numeric) -> (Result<(), AggregateError>, String) {
    let h = Headers::from_row(Row::from(vec!["a"]));
    let r = Row::from(vec!["chicken"]);
    let done = aggregate.update(&h, &r);

    (done, aggregate.value())
}

#[test]
fn sum_test_sum() {
    assert_eq!(fed(Numeric::sum("a")), "5.5");
}

#[test]
fn sum_test_missing_column() {
    match missing(Numeric::sum("a")) {
        (Err(AggregateError::MissingColumn(val)), total) => {
            assert_eq!(val, "a");
            assert_eq!(total, "0");
        }
        (Err(AggregateError::ValueError(_)), _) => panic!("wrong error"),
        (Ok(_), _) => panic!("Test failed"),
    }
}

#[test]
fn sum_test_value_error() {
    match unreadable(Numeric::sum("a")) {
        (Err(AggregateError::ValueError(val)), total) => {
            assert_eq!(val, "chicken");
            assert_eq!(total, "0");
        }
        (Err(AggregateError::MissingColumn(_)), _) => panic!("wrong error"),
        (Ok(_), _) => panic!("Test failed"),
    }
}

#[test]
fn max_test_max() {
    assert_eq!(fed(Numeric::max("a")), "3");
}

#[test]
fn max_test_missing_column() {
    match missing(Numeric::max("a")).0 {
        Err(AggregateError::MissingColumn(val)) => assert_eq!(val, "a"),
        Err(AggregateError::ValueError(_)) => panic!("wrong error"),
        Ok(_) => panic!("Test failed"),
    }
}

#[test]
fn max_test_value_error() {
    match unreadable(Numeric::max("a")).0 {
        Err(AggregateError::ValueError(val)) => assert_eq!(val, "chicken"),
        Err(AggregateError::MissingColumn(_)) => panic!("wrong error"),
        Ok(_) => panic!("Test failed"),
    }
}

#[test]
fn min_test_min() {
    assert_eq!(fed(Numeric::min("a")), "0.5");
}

#[test]
fn min_test_missing_column() {
    match missing(Numeric::min("a")).0 {
        Err(AggregateError::MissingColumn(val)) => assert_eq!(val, "a"),
        Err(AggregateError::ValueError(_)) => panic!("wrong error"),
        Ok(_) => panic!("Test failed"),
    }
}

#[test]
fn min_test_value_error() {
    match unreadable(Numeric::min("a")).0 {
        Err(AggregateError::ValueError(val)) => assert_eq!(val, "chicken"),
        Err(AggregateError::MissingColumn(_)) => panic!("wrong error"),
        Ok(_) => panic!("Test failed"),
    }
}

#[test]
fn default_max_test_max() {
    assert_eq!(fed(Numeric::default_max("a")), "3");
}

#[test]
fn default_max_test_missing_column() {
    let (done, value) = missing(Numeric::default_max("a"));
    done.unwrap();

    assert_eq!(value, "-inf");
}

#[test]
fn default_max_test_value_error() {
    let (done, value) = unreadable(Numeric::default_max("a"));
    done.unwrap();

    assert_eq!(value, "-inf");
}

#[test]
fn default_min_test_min() {
    assert_eq!(fed(Numeric::default_min("a")), "0.5");
}

#[test]
fn default_min_test_missing_column() {
    let (done, value) = missing(Numeric::default_min("a"));
    done.unwrap();

    assert_eq!(value, "inf");
}

#[test]
fn default_min_test_value_error() {
    let (done, value) = unreadable(Numeric::default_min("a"));
    done.unwrap();

    assert_eq!(value, "inf");
}
