use csvsc::adjacent_group::AdjacentGroup;
use csvsc::adjacent_reduce::AdjacentReduce;
use csvsc::adjacent_sort::AdjacentSort;
use csvsc::aggregate::Count;
use csvsc::error::AdjacentSortBuildError;
use csvsc::error::GroupBuildError;
use csvsc::group::Group;
use csvsc::inspect::Inspect;
use csvsc::mock::BuildError;
use csvsc::reduce::AggregatedCol;
use csvsc::reduce::Reduce;
use csvsc::row_stream::collect;
use csvsc::Error;
use csvsc::Headers;
use csvsc::MockStream;
use csvsc::Row;
use csvsc::RowResult;
use csvsc::RowStream;
use std::cell::Cell;

fn rows(items: Vec<RowResult>) -> Vec<Row> {
    items.into_iter().map(|i| i.unwrap()).collect()
}

/// The rows of a group, each with the sum of the group's values at its end.
fn with_sum(mut group: MockStream) -> MockStream {
    let mut headers = group.headers().clone();
    let given = rows(collect(&mut group));
    let mut sum = 0.0;

    for row in given.iter() {
        let value: f64 = headers.get_field(row, "value").unwrap().parse().unwrap();
        sum += value;
    }

    headers.add("sum").unwrap();
    let text = sum.to_string();
    let made = given
        .into_iter()
        .map(|mut row| {
            row.push_field(&text);
            Ok(row)
        })
        .collect();
    MockStream::new(made, headers)
}

/// The rows of a group with a column that the stage did not declare.
fn with_surprise(mut group: MockStream) -> MockStream {
    let mut headers = group.headers().clone();
    headers.add("sum").unwrap();
    let made = collect(&mut group)
        .into_iter()
        .map(|item| {
            item.map(|mut row| {
                row.push_field("2");
                row
            })
        })
        .collect();
    MockStream::new(made, headers)
}

fn add_sum(mut headers: Headers) -> Headers {
    headers.add("sum").unwrap();
    headers
}

fn clustered() -> MockStream {
    MockStream::from_rows(vec![
        Ok(Row::from(vec!["name", "value"])),
        Ok(Row::from(vec!["a", "1"])),
        Ok(Row::from(vec!["a", "2"])),
        Ok(Row::from(vec!["a", "3"])),
        Ok(Row::from(vec!["b", "1"])),
        Ok(Row::from(vec!["b", "1"])),
        Ok(Row::from(vec!["b", "1"])),
    ])
    .unwrap()
}

fn with_an_error() -> MockStream {
    MockStream::from_rows(vec![
        Ok(Row::from(vec!["name", "value"])),
        Ok(Row::from(vec!["a", "1"])),
        Err(Error::InconsistentHeaders),
        Ok(Row::from(vec!["b", "1"])),
    ])
    .unwrap()
}

#[test]
fn test_mock_stream() {
    let mut m = MockStream::from_rows(vec![
        Ok(Row::from(vec!["id", "num"])),
        Ok(Row::from(vec!["1", "40"])),
        Ok(Row::from(vec!["2", "39"])),
    ])
    .unwrap();

    assert_eq!(*m.headers(), Headers::from_row(Row::from(vec!["id", "num"])));

    assert_eq!(m.next().unwrap().unwrap(), Row::from(vec!["1", "40"]));
    assert_eq!(m.next().unwrap().unwrap(), Row::from(vec!["2", "39"]));
    assert!(m.next().is_none());
    assert!(m.next().is_none());
}

#[test]
fn a_mock_stream_needs_a_header() {
    assert_eq!(
        MockStream::from_rows(vec![]).err(),
        Some(BuildError::EmptyIterator)
    );
    assert_eq!(
        MockStream::from_rows(vec![Err(Error::InconsistentHeaders)]).err(),
        Some(BuildError::FailedHeader)
    );
}

#[test]
fn test_adjacent_group() {
    let mut re = AdjacentGroup::new(clustered(), add_sum, with_sum, &["name"]).unwrap();

    assert_eq!(
        *re.headers(),
        Headers::from_row(Row::from(vec!["name", "value", "sum"])),
    );

    assert_eq!(
        rows(collect(&mut re)),
        vec![
            Row::from(vec!["a", "1", "6"]),
            Row::from(vec!["a", "2", "6"]),
            Row::from(vec!["a", "3", "6"]),
            Row::from(vec!["b", "1", "3"]),
            Row::from(vec!["b", "1", "3"]),
            Row::from(vec!["b", "1", "3"]),
        ]
    );
}

#[test]
fn adjacent_group_test_nonmatching_headers() {
    let mut re = AdjacentGroup::new(clustered(), |headers| headers, with_surprise, &["name"])
        .unwrap();

    assert_eq!(
        *re.headers(),
        Headers::from_row(Row::from(vec!["name", "value"])),
    );

    match re.next() {
        Some(Err(Error::InconsistentHeaders)) => {}
        _ => unreachable!(),
    }
    match re.next() {
        Some(Err(Error::InconsistentHeaders)) => {}
        _ => unreachable!(),
    }
    assert!(re.next().is_none());
}

#[test]
fn adjacent_group_test_some_errs_in_stream() {
    let mut r = AdjacentGroup::new(
        with_an_error(),
        |headers| headers,
        |row_stream| row_stream,
        &["name"],
    )
    .unwrap();

    assert_eq!(
        *r.headers(),
        Headers::from_row(Row::from(vec!["name", "value"])),
    );

    match r.next() {
        Some(Ok(ref r)) if *r == Row::from(vec!["a", "1"]) => {}
        _ => unreachable!(),
    }
    match r.next() {
        Some(Err(Error::InconsistentHeaders)) => {}
        _ => unreachable!(),
    }
    match r.next() {
        Some(Ok(ref r)) if *r == Row::from(vec!["b", "1"]) => {}
        _ => unreachable!(),
    }
    if let Some(_) = r.next() {
        unreachable!()
    }
}

#[test]
fn an_error_cuts_a_run_in_two() {
    let iter = MockStream::from_rows(vec![
        Ok(Row::from(vec!["a", "n"])),
        Ok(Row::from(vec!["a", "1"])),
        Err(Error::InconsistentHeaders),
        Ok(Row::from(vec!["a", "1"])),
    ])
    .unwrap();

    let mut r = AdjacentGroup::new(
        iter,
        |mut headers: Headers| {
            headers.add("size").unwrap();
            headers
        },
        |mut group: MockStream| {
            let mut headers = group.headers().clone();
            headers.add("size").unwrap();
            let given = collect(&mut group);
            let size = given.len().to_string();
            let made = given
                .into_iter()
                .map(|item| {
                    item.map(|mut row| {
                        row.push_field(&size);
                        row
                    })
                })
                .collect();
            MockStream::new(made, headers)
        },
        &["a"],
    )
    .unwrap();

    assert_eq!(r.next().unwrap().unwrap(), Row::from(vec!["a", "1", "1"]));
    assert!(matches!(r.next(), Some(Err(Error::InconsistentHeaders))));
    assert_eq!(r.next().unwrap().unwrap(), Row::from(vec!["a", "1", "1"]));
    assert!(r.next().is_none());
}

#[test]
fn test_group() {
    let mut re = Group::new(clustered(), add_sum, with_sum, &["name"]).unwrap();

    let headers = Headers::from_row(Row::from(vec!["name", "value", "sum"]));

    assert_eq!(*re.headers(), headers);

    let mut results = rows(collect(&mut re));

    results.sort_by(|a, b| {
        headers
            .get_field(a, "sum")
            .unwrap()
            .cmp(headers.get_field(b, "sum").unwrap())
    });

    assert_eq!(
        results,
        vec![
            Row::from(vec!["b", "1", "3"]),
            Row::from(vec!["b", "1", "3"]),
            Row::from(vec!["b", "1", "3"]),
            Row::from(vec!["a", "1", "6"]),
            Row::from(vec!["a", "2", "6"]),
            Row::from(vec!["a", "3", "6"]),
        ]
    );
}

#[test]
fn test_group_noadjacent() {
    let iter = MockStream::from_rows(vec![
        Ok(Row::from(vec!["name", "value"])),
        Ok(Row::from(vec!["a", "1"])),
        Ok(Row::from(vec!["a", "2"])),
        Ok(Row::from(vec!["b", "1"])),
        Ok(Row::from(vec!["a", "3"])),
        Ok(Row::from(vec!["b", "1"])),
        Ok(Row::from(vec!["b", "1"])),
    ])
    .unwrap();

    let mut re = Group::new(iter, add_sum, with_sum, &["name"]).unwrap();

    let headers = Headers::from_row(Row::from(vec!["name", "value", "sum"]));

    assert_eq!(*re.headers(), headers);

    let mut results = rows(collect(&mut re));

    results.sort_by(|a, b| {
        headers
            .get_field(a, "sum")
            .unwrap()
            .cmp(headers.get_field(b, "sum").unwrap())
    });

    assert_eq!(
        results,
        vec![
            Row::from(vec!["b", "1", "3"]),
            Row::from(vec!["b", "1", "3"]),
            Row::from(vec!["b", "1", "3"]),
            Row::from(vec!["a", "1", "6"]),
            Row::from(vec!["a", "2", "6"]),
            Row::from(vec!["a", "3", "6"]),
        ]
    );
}

#[test]
fn groups_come_in_the_order_of_their_first_rows() {
    let iter = MockStream::from_rows(vec![
        Ok(Row::from(vec!["name", "value"])),
        Ok(Row::from(vec!["a", "1"])),
        Ok(Row::from(vec!["b", "1"])),
        Ok(Row::from(vec!["a", "3"])),
        Ok(Row::from(vec!["b", "2"])),
    ])
    .unwrap();

    let mut re = Group::new(iter, add_sum, with_sum, &["name"]).unwrap();

    assert_eq!(
        rows(collect(&mut re)),
        vec![
            Row::from(vec!["a", "1", "4"]),
            Row::from(vec!["a", "3", "4"]),
            Row::from(vec!["b", "1", "3"]),
            Row::from(vec!["b", "2", "3"]),
        ]
    );
}

#[test]
fn group_test_nonmatching_headers() {
    let mut re = Group::new(clustered(), |headers| headers, with_surprise, &["name"]).unwrap();

    assert_eq!(
        *re.headers(),
        Headers::from_row(Row::from(vec!["name", "value"])),
    );

    match re.next() {
        Some(Err(Error::InconsistentHeaders)) => {}
        _ => unreachable!(),
    }
}

#[test]
fn group_test_some_errs_in_stream() {
    let mut re = Group::new(
        with_an_error(),
        |headers| headers,
        |row_stream| row_stream,
        &["name"],
    )
    .unwrap();

    assert_eq!(
        *re.headers(),
        Headers::from_row(Row::from(vec!["name", "value"])),
    );

    let items = collect(&mut re);
    assert_eq!(items.len(), 3);
    let err = items
        .into_iter()
        .filter(|item| match item {
            Err(Error::InconsistentHeaders) => true,
            _ => false,
        })
        .next()
        .unwrap();

    match err {
        Err(Error::InconsistentHeaders) => {}
        _ => unreachable!(),
    }
}

#[test]
fn a_group_needs_its_columns() {
    match Group::new(clustered(), |h| h, |g| g, &["name", "nope"]) {
        Err(GroupBuildError::GroupingKeyError(name)) => assert_eq!(name, "nope"),
        _ => panic!("built"),
    }
    match AdjacentGroup::new(clustered(), |h| h, |g| g, &["nope", "name"]) {
        Err(GroupBuildError::GroupingKeyError(name)) => assert_eq!(name, "nope"),
        _ => panic!("built"),
    }
}

#[test]
fn without_grouping_columns_every_row_is_a_group() {
    let mut re = AdjacentGroup::new(clustered(), add_sum, with_sum, &[]).unwrap();

    assert_eq!(
        rows(collect(&mut re)),
        vec![
            Row::from(vec!["a", "1", "1"]),
            Row::from(vec!["a", "2", "2"]),
            Row::from(vec!["a", "3", "3"]),
            Row::from(vec!["b", "1", "1"]),
            Row::from(vec!["b", "1", "1"]),
            Row::from(vec!["b", "1", "1"]),
        ]
    );
}

fn unsorted() -> MockStream {
    MockStream::from_rows(vec![
        Ok(Row::from(vec!["a", "b"])),
        Ok(Row::from(vec!["1", "2"])),
        Ok(Row::from(vec!["1", "1"])),
        Ok(Row::from(vec!["1", "3"])),
        Ok(Row::from(vec!["2", "3"])),
        Ok(Row::from(vec!["2", "2"])),
        Ok(Row::from(vec!["2", "1"])),
    ])
    .unwrap()
}

#[test]
fn test_sort() {
    let mut add = AdjacentSort::new(unsorted(), &["a"], "b").unwrap();

    assert_eq!(*add.headers(), Headers::from_row(Row::from(vec!["a", "b"])),);

    assert_eq!(add.next().unwrap().unwrap(), Row::from(vec!["1", "1"]));
    assert_eq!(add.next().unwrap().unwrap(), Row::from(vec!["1", "2"]));
    assert_eq!(add.next().unwrap().unwrap(), Row::from(vec!["1", "3"]));
    assert_eq!(add.next().unwrap().unwrap(), Row::from(vec!["2", "1"]));
    assert_eq!(add.next().unwrap().unwrap(), Row::from(vec!["2", "2"]));
    assert_eq!(add.next().unwrap().unwrap(), Row::from(vec!["2", "3"]));
    assert!(add.next().is_none());
}

#[test]
fn test_sort_with_error() {
    let mut add = AdjacentSort::new(unsorted(), &["a"], "b").unwrap();

    assert_eq!(*add.headers(), Headers::from_row(Row::from(vec!["a", "b"])),);

    assert_eq!(add.next().unwrap().unwrap(), Row::from(vec!["1", "1"]));
    assert_eq!(add.next().unwrap().unwrap(), Row::from(vec!["1", "2"]));
    assert_eq!(add.next().unwrap().unwrap(), Row::from(vec!["1", "3"]));
    assert_eq!(add.next().unwrap().unwrap(), Row::from(vec!["2", "1"]));
    assert_eq!(add.next().unwrap().unwrap(), Row::from(vec!["2", "2"]));
    assert_eq!(add.next().unwrap().unwrap(), Row::from(vec!["2", "3"]));
}

#[test]
fn a_sort_does_not_reach_across_an_error() {
    let iter = MockStream::from_rows(vec![
        Ok(Row::from(vec!["a", "b"])),
        Ok(Row::from(vec!["1", "2"])),
        Ok(Row::from(vec!["1", "1"])),
        Err(Error::InconsistentHeaders),
        Ok(Row::from(vec!["1", "3"])),
        Ok(Row::from(vec!["1"])),
        Ok(Row::from(vec!["2", "3"])),
        Ok(Row::from(vec!["2", "2"])),
        Ok(Row::from(vec!["2", "1"])),
    ])
    .unwrap();

    let mut add = AdjacentSort::new(iter, &["a"], "b").unwrap();

    assert_eq!(add.next().unwrap().unwrap(), Row::from(vec!["1", "1"]));
    assert_eq!(add.next().unwrap().unwrap(), Row::from(vec!["1", "2"]));
    assert!(matches!(add.next(), Some(Err(Error::InconsistentHeaders))));
    assert_eq!(add.next().unwrap().unwrap(), Row::from(vec!["1", "3"]));
    match add.next() {
        Some(Err(Error::HashError(name))) => assert_eq!(name, "b"),
        _ => panic!("the short row was sorted"),
    }
    assert_eq!(add.next().unwrap().unwrap(), Row::from(vec!["2", "1"]));
    assert_eq!(add.next().unwrap().unwrap(), Row::from(vec!["2", "2"]));
    assert_eq!(add.next().unwrap().unwrap(), Row::from(vec!["2", "3"]));
    assert!(add.next().is_none());
}

#[test]
fn sorting_what_is_sorted_changes_nothing() {
    let given = vec![
        Row::from(vec!["1", "1", "x"]),
        Row::from(vec!["1", "1", "a"]),
        Row::from(vec!["1", "10", "m"]),
        Row::from(vec!["1", "2", "b"]),
        Row::from(vec!["2", "", "z"]),
        Row::from(vec!["2", "a", "y"]),
        Row::from(vec!["2", "ab", "y"]),
        Row::from(vec!["2", "b", "y"]),
        Row::from(vec!["1", "0", "q"]),
    ];
    let headers = Headers::from_row(Row::from(vec!["a", "b", "c"]));
    let iter = MockStream::of_rows(given.clone(), headers);

    let mut sort = AdjacentSort::new(iter, &["a"], "b").unwrap();

    assert_eq!(rows(collect(&mut sort)), given);
}

#[test]
fn rows_with_equal_sort_keys_keep_their_order() {
    let headers = Headers::from_row(Row::from(vec!["a", "b", "c"]));
    let iter = MockStream::of_rows(
        vec![
            Row::from(vec!["1", "z", "first"]),
            Row::from(vec!["1", "é", "second"]),
            Row::from(vec!["1", "z", "third"]),
            Row::from(vec!["1", "Z", "fourth"]),
        ],
        headers,
    );

    let mut sort = AdjacentSort::new(iter, &["a"], "b").unwrap();

    assert_eq!(
        rows(collect(&mut sort)),
        vec![
            Row::from(vec!["1", "Z", "fourth"]),
            Row::from(vec!["1", "z", "first"]),
            Row::from(vec!["1", "z", "third"]),
            Row::from(vec!["1", "é", "second"]),
        ]
    );
}

#[test]
fn a_sort_needs_its_columns() {
    match AdjacentSort::new(unsorted(), &["x"], "b") {
        Err(AdjacentSortBuildError::GroupingKeyError(name)) => assert_eq!(name, "x"),
        _ => panic!("built"),
    }
    match AdjacentSort::new(unsorted(), &["a"], "y") {
        Err(AdjacentSortBuildError::SortKeyError(name)) => assert_eq!(name, "y"),
        _ => panic!("built"),
    }
}

#[test]
fn nothing_is_pulled_before_it_is_asked_for() {
    let pulled = Cell::new(0);
    let watched = Inspect::new(clustered(), |_: &Headers, _: &RowResult| {
        pulled.set(pulled.get() + 1);
    });
    let mut runs =
        AdjacentReduce::new(watched, &["name"], vec![AggregatedCol::new("n", Count::new())])
            .unwrap();
    assert_eq!(pulled.get(), 0);

    assert_eq!(runs.next().unwrap().unwrap(), Row::from(vec!["a", "3", "3"]));
    assert_eq!(pulled.get(), 4);
    assert_eq!(runs.next().unwrap().unwrap(), Row::from(vec!["b", "1", "3"]));
    assert_eq!(pulled.get(), 6);
    assert!(runs.next().is_none());

    let pulled = Cell::new(0);
    let watched = Inspect::new(clustered(), |_: &Headers, _: &RowResult| {
        pulled.set(pulled.get() + 1);
    });
    let none: Vec<AggregatedCol<Count>> = Vec::new();
    let mut each = AdjacentReduce::new(watched, &[], none).unwrap();
    assert_eq!(each.next().unwrap().unwrap(), Row::from(vec!["a", "1"]));
    assert_eq!(pulled.get(), 1);

    let pulled = Cell::new(0);
    let watched = Inspect::new(clustered(), |_: &Headers, _: &RowResult| {
        pulled.set(pulled.get() + 1);
    });
    let mut all = Reduce::new(watched, &["name"], vec![AggregatedCol::new("n", Count::new())])
        .unwrap();
    assert_eq!(pulled.get(), 0);
    assert_eq!(all.next().unwrap().unwrap(), Row::from(vec!["a", "3", "3"]));
    assert_eq!(pulled.get(), 6);
}

#[test]
fn a_stage_that_cannot_be_built_pulls_nothing() {
    let pulled = Cell::new(0);
    let watch = |_: &Headers, _: &RowResult| {
        pulled.set(pulled.get() + 1);
    };

    let columns = vec![AggregatedCol::new("n", Count::new())];
    assert!(Reduce::new(Inspect::new(clustered(), watch), &["nope"], columns).is_err());
    let columns = vec![AggregatedCol::new("n", Count::new())];
    assert!(AdjacentReduce::new(Inspect::new(clustered(), watch), &["nope"], columns).is_err());
    assert!(Group::new(Inspect::new(clustered(), watch), |h| h, |g| g, &["nope"]).is_err());
    assert!(
        AdjacentGroup::new(Inspect::new(clustered(), watch), |h| h, |g| g, &["nope"]).is_err()
    );
    assert!(AdjacentSort::new(Inspect::new(clustered(), watch), &["name"], "nope").is_err());

    assert_eq!(pulled.get(), 0);
}
