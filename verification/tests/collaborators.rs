use csvsc::add_with::AddWith;
use csvsc::aggregate::Count;
use csvsc::add_with::AddWithBuildError;
use csvsc::colspec::ColSpecParseError;
use csvsc::colspec::ColSpecParts;
use csvsc::del::Del;
use csvsc::error::ColBuildError;
use csvsc::flush::Destination;
use csvsc::flush::Flush;
use csvsc::flush::FlushTarget;
use csvsc::inspect::Inspect;
use csvsc::reduce::AggregatedCol;
use csvsc::rename::Rename;
use csvsc::row_stream::collect;
use csvsc::Chain;
use csvsc::Error;
use csvsc::Headers;
use csvsc::MockStream;
use csvsc::Row;
use csvsc::RowStream;
use std::cell::RefCell;
use std::path::PathBuf;

fn with_paths() -> MockStream {
    MockStream::from_rows(vec![
        Ok(Row::from(vec!["id", "val", "path"])),
        Ok(Row::from(vec!["1", "40", "/tmp/a1m.csv"])),
        Ok(Row::from(vec!["2", "39", "/tmp/a1m.csv"])),
        Ok(Row::from(vec!["3", "38", "/tmp/a2m.csv"])),
        Ok(Row::from(vec!["4", "37", "/tmp/a2m.csv"])),
    ])
    .unwrap()
}

#[test]
fn test_del() {
    let mut del = Del::new(with_paths(), vec!["path"]);

    assert_eq!(*del.headers(), Headers::from_row(Row::from(vec!["id", "val"])),);

    assert_eq!(del.next().unwrap().unwrap(), Row::from(vec!["1", "40"]));
    assert_eq!(del.next().unwrap().unwrap(), Row::from(vec!["2", "39"]));
    assert_eq!(del.next().unwrap().unwrap(), Row::from(vec!["3", "38"]));
    assert_eq!(del.next().unwrap().unwrap(), Row::from(vec!["4", "37"]));
    assert!(del.next().is_none());
}

#[test]
fn del_drops_what_lies_beyond_the_schema() {
    let iter = MockStream::from_rows(vec![
        Ok(Row::from(vec!["a", "b", "c"])),
        Ok(Row::from(vec!["1", "2", "3", "4"])),
        Err(Error::InconsistentHeaders),
        Ok(Row::from(vec!["1", "2"])),
    ])
    .unwrap();
    let mut del = Del::new(iter, vec!["b", "zzz"]);

    assert_eq!(*del.headers(), Headers::from_row(Row::from(vec!["a", "c"])));
    assert_eq!(del.next().unwrap().unwrap(), Row::from(vec!["1", "3"]));
    assert!(matches!(del.next(), Some(Err(Error::InconsistentHeaders))));
    assert_eq!(del.next().unwrap().unwrap(), Row::from(vec!["1"]));
    assert!(del.next().is_none());
}

#[test]
fn test_rename() {
    let iter = MockStream::from_rows(vec![
        Ok(Row::from(vec!["id", "val"])),
        Ok(Row::from(vec!["1", "40"])),
        Ok(Row::from(vec!["2", "39"])),
        Ok(Row::from(vec!["3", "38"])),
        Ok(Row::from(vec!["4", "37"])),
    ])
    .unwrap();

    let mut ren = Rename::new(iter, &[("val", "value")]);

    assert_eq!(
        *ren.headers(),
        Headers::from_row(Row::from(vec!["id", "value"])),
    );

    assert_eq!(ren.next().unwrap().unwrap(), Row::from(vec!["1", "40"]));
    assert_eq!(ren.next().unwrap().unwrap(), Row::from(vec!["2", "39"]));
    assert_eq!(ren.next().unwrap().unwrap(), Row::from(vec!["3", "38"]));
    assert_eq!(ren.next().unwrap().unwrap(), Row::from(vec!["4", "37"]));
}

#[test]
fn the_last_pair_for_a_column_counts() {
    let ren = Rename::new(with_paths(), &[("val", "x"), ("id", "key"), ("val", "y")]);

    assert_eq!(
        *ren.headers(),
        Headers::from_row(Row::from(vec!["key", "y", "path"])),
    );
}

#[test]
fn add_with_test_add() {
    let iter = MockStream::from_rows(vec![
        Ok(Row::from(vec!["id"])),
        Ok(Row::from(vec!["1"])),
        Ok(Row::from(vec!["2"])),
        Ok(Row::from(vec!["3"])),
        Ok(Row::from(vec!["4"])),
    ])
    .unwrap();

    let mut add = AddWith::new(iter, "col", |headers: &Headers, row: &Row| {
        let v: i32 = headers.get_field(row, "id").unwrap().parse().unwrap();

        Ok((v * v).to_string())
    })
    .unwrap();

    assert_eq!(*add.headers(), Headers::from_row(Row::from(vec!["id", "col"])),);

    assert_eq!(add.next().unwrap().unwrap(), Row::from(vec!["1", "1"]));
    assert_eq!(add.next().unwrap().unwrap(), Row::from(vec!["2", "4"]));
    assert_eq!(add.next().unwrap().unwrap(), Row::from(vec!["3", "9"]));
    assert_eq!(add.next().unwrap().unwrap(), Row::from(vec!["4", "16"]));
}

#[test]
fn test_add_doesnt_swallow_errors() {
    let iter = MockStream::from_rows(vec![
        Ok(Row::from(vec!["a"])),
        Ok(Row::from(vec!["1"])),
        Err(Error::InconsistentHeaders),
        Ok(Row::from(vec!["3"])),
        Ok(Row::from(vec!["bad"])),
    ])
    .unwrap();

    let mut add = AddWith::new(iter, "b", |headers: &Headers, row: &Row| {
        if headers.get_field(row, "a") == Some("bad") {
            Err(ColBuildError::InvalidFormat)
        } else {
            Ok("1".to_string())
        }
    })
    .unwrap();

    assert_eq!(*add.headers(), Headers::from_row(Row::from(vec!["a", "b"])),);

    assert_eq!(add.next().unwrap().unwrap(), Row::from(vec!["1", "1"]));

    match add.next() {
        Some(Err(Error::InconsistentHeaders)) => {}
        _ => unreachable!(),
    }

    assert_eq!(add.next().unwrap().unwrap(), Row::from(vec!["3", "1"]));
    assert!(matches!(
        add.next(),
        Some(Err(Error::ColBuildError(ColBuildError::InvalidFormat)))
    ));
    assert!(add.next().is_none());
}

#[test]
fn a_column_is_not_added_twice() {
    match AddWith::new(with_paths(), "val", |_: &Headers, _: &Row| Ok(String::new())) {
        Err(AddWithBuildError::DuplicatedHeader(name)) => assert_eq!(name, "val"),
        _ => panic!("built"),
    }
}

#[test]
fn inspect_sees_everything_and_changes_nothing() {
    let seen = RefCell::new(Vec::new());
    let iter = MockStream::from_rows(vec![
        Ok(Row::from(vec!["a"])),
        Ok(Row::from(vec!["1"])),
        Err(Error::InconsistentHeaders),
        Ok(Row::from(vec!["3"])),
    ])
    .unwrap();

    let mut look = Inspect::new(iter, |headers: &Headers, item: &csvsc::RowResult| {
        seen.borrow_mut().push((headers.len(), item.is_ok()));
    });

    assert_eq!(*look.headers(), Headers::from_row(Row::from(vec!["a"])));
    let items = collect(&mut look);
    assert_eq!(items.len(), 3);
    assert_eq!(*items[0].as_ref().unwrap(), Row::from(vec!["1"]));
    assert!(matches!(items[1], Err(Error::InconsistentHeaders)));
    assert_eq!(*items[2].as_ref().unwrap(), Row::from(vec!["3"]));
    assert_eq!(*seen.borrow(), vec![(1, true), (1, false), (1, true)]);
}

#[test]
fn build_errors_have_their_markers() {
    assert_eq!(ColBuildError::UnknownSource.to_csv(), "#NO_SOURCE");
    assert_eq!(ColBuildError::ReNoMatch.to_csv(), "#RE_NO_MATCH");
    assert_eq!(ColBuildError::InvalidFormat.to_csv(), "#FORMAT");
    assert_eq!(ColBuildError::KeyError.to_csv(), "#KEY_ERROR");
}

#[test]
fn a_value_spec_has_a_name_and_a_template() {
    match ColSpecParts::from_str("value:new:{a}-{b}").unwrap() {
        ColSpecParts::Mix { colname, coldef } => {
            assert_eq!(colname, "new");
            assert_eq!(coldef, "{a}-{b}");
        }
        _ => panic!("not a mix"),
    }
    match ColSpecParts::from_str("value:new:value").unwrap() {
        ColSpecParts::Mix { colname, coldef } => {
            assert_eq!(colname, "new");
            assert_eq!(coldef, "value");
        }
        _ => panic!("not a mix"),
    }
}

#[test]
fn a_regex_spec_has_four_parts() {
    match ColSpecParts::from_str("regex:_source:new:${number}:a(?P<number>[0-9]+)m").unwrap() {
        ColSpecParts::Regex {
            source,
            colname,
            coldef,
            regex,
        } => {
            assert_eq!(source, "_source");
            assert_eq!(colname, "new");
            assert_eq!(coldef, "${number}");
            assert_eq!(regex, "a(?P<number>[0-9]+)m");
        }
        _ => panic!("not a regex"),
    }
}

#[test]
fn a_spec_that_lacks_parts_says_which() {
    assert_eq!(
        ColSpecParts::from_str("regex:a").err(),
        Some(ColSpecParseError::MissingColname)
    );
    assert_eq!(
        ColSpecParts::from_str("regex:a:b").err(),
        Some(ColSpecParseError::MissingColDef)
    );
    assert_eq!(
        ColSpecParts::from_str("regex:a:b:c").err(),
        Some(ColSpecParseError::MissingRegex)
    );
    assert_eq!(
        ColSpecParts::from_str("value:a").err(),
        Some(ColSpecParseError::MissingColDef)
    );
    assert_eq!(
        ColSpecParts::from_str("values:a:b").err(),
        Some(ColSpecParseError::InvalidSpec)
    );
    assert_eq!(
        ColSpecParts::from_str("regex").err(),
        Some(ColSpecParseError::InvalidSpec)
    );
    assert_eq!(
        ColSpecParts::from_str("").err(),
        Some(ColSpecParseError::InvalidSpec)
    );
}

#[test]
fn hidden_columns_are_not_written() {
    let headers = Headers::from_row(Row::from(vec!["a", "_target", "b", "_"]));

    assert_eq!(
        csvsc::flush::trim_underscores(&headers, &Row::from(vec!["1", "out.csv", "2", "3"])),
        Row::from(vec!["1", "2"])
    );
    assert_eq!(
        csvsc::flush::trim_underscores(&headers, &Row::from(vec!["1", "out.csv"])),
        Row::from(vec!["1"])
    );
    assert_eq!(
        csvsc::flush::trim_header_underscores(headers.as_row()),
        Row::from(vec!["a", "b"])
    );
    assert!(csvsc::flush::is_hidden("_x"));
    assert!(!csvsc::flush::is_hidden("x_"));
    assert!(!csvsc::flush::is_hidden(""));
}

#[test]
fn a_flush_knows_where_rows_go() {
    let iter = MockStream::from_rows(vec![
        Ok(Row::from(vec!["a", "_target"])),
        Ok(Row::from(vec!["1", "out/1.csv"])),
        Ok(Row::from(vec!["2"])),
    ])
    .unwrap();
    let mut flush = Flush::new(iter, FlushTarget::Column("_target".to_string())).unwrap();

    assert_eq!(flush.header_record(), Row::from(vec!["a"]));

    let row = flush.pull().unwrap().unwrap();
    match flush.destination(&row) {
        Some(Destination::Named(file)) => assert_eq!(file, "out/1.csv"),
        _ => panic!("no destination"),
    }
    assert_eq!(flush.record(&row), Row::from(vec!["1"]));

    let row = flush.pull().unwrap().unwrap();
    assert!(flush.destination(&row).is_none());
    assert!(flush.pull().is_none());
}

#[test]
fn a_flush_needs_its_column() {
    match Flush::new(with_paths(), FlushTarget::Column("nope".to_string())) {
        Err(Error::ColumnNotFound(name)) => assert_eq!(name, "nope"),
        _ => panic!("built"),
    }
    let flush = Flush::new(with_paths(), FlushTarget::Path(PathBuf::from("all.csv"))).unwrap();
    let row = Row::from(vec!["1", "2", "3"]);
    match flush.destination(&row) {
        Some(Destination::Fixed(path)) => assert_eq!(*path, PathBuf::from("all.csv")),
        _ => panic!("no destination"),
    };
}

#[test]
fn stages_chain() {
    let mut chain = with_paths()
        .del(vec!["path"])
        .rename(&[("val", "value")])
        .add_with("double", |headers: &Headers, row: &Row| {
            let v: i32 = headers.get_field(row, "value").unwrap().parse().unwrap();
            Ok((2 * v).to_string())
        })
        .unwrap()
        .adjacent_sort(&[], "id")
        .unwrap()
        .adjacent_reduce(&["double"], vec![AggregatedCol::new("n", Count::new())])
        .unwrap()
        .inspect(|_: &Headers, _: &csvsc::RowResult| {});

    assert_eq!(
        *chain.headers(),
        Headers::from_row(Row::from(vec!["id", "value", "double", "n"]))
    );
    assert_eq!(
        chain.next().unwrap().unwrap(),
        Row::from(vec!["1", "40", "80", "1"])
    );
    assert_eq!(collect(&mut chain).len(), 3);

    let grouped = with_paths()
        .group(|h| h, |g| g, &["path"])
        .unwrap()
        .adjacent_group(|h| h, |g| g, &["path"])
        .unwrap()
        .reduce(&["path"], vec![AggregatedCol::new("n", Count::new())])
        .unwrap()
        .flush(FlushTarget::Column("path".to_string()));
    let mut grouped = grouped.unwrap();
    assert_eq!(
        grouped.pull().unwrap().unwrap(),
        Row::from(vec!["2", "39", "/tmp/a1m.csv", "2"])
    );
}
