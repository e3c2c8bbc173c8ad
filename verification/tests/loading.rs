use pricing::catalog::Item;
use pricing::category::Category;
use pricing::loader::{load_items, load_rows, Column, HeaderFault, LoadError};

fn record(fields: &[&str]) -> Option<Vec<String>> {
    Some(fields.iter().map(|f| f.to_string()).collect())
}

fn summary(items: &[Item]) -> Vec<(usize, Category, String, i64)> {
    items.iter().map(|i| (i.id, i.category, i.name.clone(), i.price)).collect()
}

#[test]
fn a_catalog_is_loaded_in_the_order_of_its_rows() {
    let data = b"category,name,price\nmonthly,Plan A,20.0\nad-hoc,Setup Fee,100.0\nSUB,Plan B,7.5\n";
    let items = load_items(data).unwrap();
    assert_eq!(
        summary(&items),
        vec![
            (0, Category::Subscription, "Plan A".to_string(), 20_000_000),
            (1, Category::OneShot, "Setup Fee".to_string(), 100_000_000),
            (2, Category::Subscription, "Plan B".to_string(), 7_500_000),
        ]
    );
}

#[test]
fn an_unknown_category_stops_loading_with_its_row() {
    let data = b"category,name,price\nmonthly,Plan A,20.0\nweekly,Plan W,5\nsub,Plan B,1\n";
    match load_items(data) {
        Err(LoadError::UnknownCategory { row, label }) => {
            assert_eq!(row, 3);
            assert_eq!(label, "weekly");
        }
        other => panic!("{other:?}"),
    }
}

#[test]
fn an_unknown_category_in_the_first_row_is_row_two() {
    match load_items(b"category,name,price\n Weekly ,Plan W,5\n") {
        Err(LoadError::UnknownCategory { row, label }) => {
            assert_eq!(row, 2);
            assert_eq!(label, " Weekly ");
        }
        other => panic!("{other:?}"),
    }
}

#[test]
fn names_lose_the_white_space_around_them() {
    let items = load_items("category,name,price\nsub,\"  Plan,\u{a0}A \t\",1\n".as_bytes()).unwrap();
    assert_eq!(items[0].name, "Plan,\u{a0}A");
    let items = load_items(b"category,name,price\nsub,   ,1\n").unwrap();
    assert_eq!(items[0].name, "");
}

#[test]
fn columns_are_found_by_their_names() {
    let data = b"price,note,name,category\n3.25,ignored,Plan A,monthly\n";
    let items = load_items(data).unwrap();
    assert_eq!(summary(&items), vec![(0, Category::Subscription, "Plan A".to_string(), 3_250_000)]);
}

#[test]
fn quoted_fields_and_empty_lines_are_read_as_csv() {
    let data = b"category,name,price\r\n\r\n\"one-shot\",\"Fee \"\"X\"\"\",\"1e2\"\r\n\nsub,\"two\nlines\",2";
    let items = load_items(data).unwrap();
    assert_eq!(
        summary(&items),
        vec![
            (0, Category::OneShot, "Fee \"X\"".to_string(), 100_000_000),
            (1, Category::Subscription, "two\nlines".to_string(), 2_000_000),
        ]
    );
}

#[test]
fn no_records_make_an_empty_catalog() {
    assert!(load_items(b"").unwrap().is_empty());
    assert!(load_items(b"category,name,price\n").unwrap().is_empty());
    assert!(load_items(b"some,other,header\n").unwrap().is_empty());
    assert!(load_rows(&vec![]).unwrap().is_empty());
    assert!(load_rows(&vec![None]).unwrap().is_empty());
}

#[test]
fn a_price_that_is_no_price_stops_loading() {
    match load_items(b"category,name,price\nsub,A,1\nsub,B,cheap\n") {
        Err(LoadError::BadPrice { row, text }) => {
            assert_eq!(row, 3);
            assert_eq!(text, "cheap");
        }
        other => panic!("{other:?}"),
    }
    match load_items(b"category,name,price\nsub,A, 1\n") {
        Err(LoadError::BadPrice { row, text }) => {
            assert_eq!(row, 2);
            assert_eq!(text, " 1");
        }
        other => panic!("{other:?}"),
    }
    match load_items(b"category,name,price\nsub,A,\n") {
        Err(LoadError::BadPrice { row, text }) => {
            assert_eq!(row, 2);
            assert_eq!(text, "");
        }
        other => panic!("{other:?}"),
    }
}

#[test]
fn a_bad_price_is_told_before_an_unknown_category() {
    match load_items(b"category,name,price\nweekly,A,cheap\n") {
        Err(LoadError::BadPrice { row, .. }) => assert_eq!(row, 2),
        other => panic!("{other:?}"),
    }
}

#[test]
fn a_negative_price_is_taken_as_written() {
    let items = load_items(b"category,name,price\nsub,Rebate,-2.5\n").unwrap();
    assert_eq!(items[0].price, -2_500_000);
}

#[test]
fn a_record_of_another_length_stops_loading() {
    match load_items(b"category,name,price\nsub,A,1\nsub,B\nsub,C,3\n") {
        Err(LoadError::Unreadable { row }) => assert_eq!(row, 3),
        other => panic!("{other:?}"),
    }
    match load_items(b"category,name,price\nsub,A,1,extra\n") {
        Err(LoadError::Unreadable { row }) => assert_eq!(row, 2),
        other => panic!("{other:?}"),
    }
}

#[test]
fn a_record_that_is_no_text_stops_loading() {
    match load_items(b"category,name,price\nsub,\xff\xfe,1\n") {
        Err(LoadError::Unreadable { row }) => assert_eq!(row, 2),
        other => panic!("{other:?}"),
    }
}

#[test]
fn a_header_that_is_no_text_stops_loading_at_row_one() {
    match load_items(b"category,na\xffme,price\nsub,A,1\n") {
        Err(LoadError::Unreadable { row }) => assert_eq!(row, 1),
        other => panic!("{other:?}"),
    }
    assert!(load_items(b"category,na\xffme,price\n").unwrap().is_empty());
}

#[test]
fn a_missing_column_stops_loading_at_the_first_item() {
    match load_items(b"category,name,cost\nsub,A,1\n") {
        Err(LoadError::Header { row, fault }) => {
            assert_eq!(row, 2);
            assert_eq!(fault, HeaderFault::Missing(Column::Price));
        }
        other => panic!("{other:?}"),
    }
    match load_items(b"Category,name,price\nsub,A,1\n") {
        Err(LoadError::Header { row, fault }) => {
            assert_eq!(row, 2);
            assert_eq!(fault, HeaderFault::Missing(Column::Category));
        }
        other => panic!("{other:?}"),
    }
    match load_items(b"category, name,price\nsub,A,1\n") {
        Err(LoadError::Header { fault, .. }) => {
            assert_eq!(fault, HeaderFault::Missing(Column::Name));
        }
        other => panic!("{other:?}"),
    }
}

#[test]
fn a_repeated_column_stops_loading_at_the_first_item() {
    match load_items(b"category,name,price,name\nsub,A,1,B\n") {
        Err(LoadError::Header { row, fault }) => {
            assert_eq!(row, 2);
            assert_eq!(fault, HeaderFault::Repeated(Column::Name));
        }
        other => panic!("{other:?}"),
    }
    match load_items(b"price,price,price\n1,2,3\n") {
        Err(LoadError::Header { fault, .. }) => {
            assert_eq!(fault, HeaderFault::Missing(Column::Category));
        }
        other => panic!("{other:?}"),
    }
}

#[test]
fn an_unreadable_record_is_told_before_a_faulty_header() {
    match load_items(b"category,name\nsub\n") {
        Err(LoadError::Unreadable { row }) => assert_eq!(row, 2),
        other => panic!("{other:?}"),
    }
}

#[test]
fn rows_are_loaded_as_records_are() {
    let rows = vec![
        record(&["name", "price", "category"]),
        record(&[" A ", "1", "sub"]),
        record(&["B", "2.5", "ONEOFF"]),
    ];
    let items = load_rows(&rows).unwrap();
    assert_eq!(
        summary(&items),
        vec![
            (0, Category::Subscription, "A".to_string(), 1_000_000),
            (1, Category::OneShot, "B".to_string(), 2_500_000),
        ]
    );
}

#[test]
fn the_first_row_that_fails_decides() {
    let rows = vec![
        record(&["category", "name", "price"]),
        record(&["sub", "A", "1"]),
        None,
        record(&["weekly", "B", "x"]),
    ];
    match load_rows(&rows) {
        Err(LoadError::Unreadable { row }) => assert_eq!(row, 3),
        other => panic!("{other:?}"),
    }
    let rows = vec![
        record(&["category", "name", "price"]),
        record(&["sub", "A", "1", "more"]),
    ];
    match load_rows(&rows) {
        Err(LoadError::Unreadable { row }) => assert_eq!(row, 2),
        other => panic!("{other:?}"),
    }
    let rows = vec![None, record(&["sub", "A", "1"])];
    match load_rows(&rows) {
        Err(LoadError::Unreadable { row }) => assert_eq!(row, 1),
        other => panic!("{other:?}"),
    }
}

#[test]
fn ids_are_places_also_past_nine() {
    let mut data = String::from("category,name,price\n");
    for i in 0..25 {
        data.push_str(&format!("sub,Plan {i},{i}\n"));
    }
    let items = load_items(data.as_bytes()).unwrap();
    assert_eq!(items.len(), 25);
    for (i, item) in items.iter().enumerate() {
        assert_eq!(item.id, i);
        assert_eq!(item.name, format!("Plan {i}"));
    }
}
