use rabbithole::error::ErrorKind;
use rabbithole::query::fields::FieldSet;
use rabbithole::query::filter::{Comparison, Constraint, Expr, FilterItem, FilterQuery, RsqlFilterData};
use rabbithole::query::page::{CursorBasedData, OffsetBasedData, PageQuery};
use rabbithole::query::parse::{
    find_last, name_in_brackets, read_count, read_fields, read_list, read_page, split_on,
    QueryParam,
};
use rabbithole::query::sort::{OrderType, SortQuery};
use rabbithole::query::Query;
use rabbithole::text::parse_usize;

fn plain(key: &str, value: &str) -> QueryParam {
    QueryParam { key: key.into(), value: value.into(), parsed: None }
}

fn strings(items: &[&str]) -> Vec<String> {
    items.iter().map(|s| s.to_string()).collect()
}

fn age_above(n: &str) -> Expr {
    Expr::Item(Constraint {
        selector: "age".into(),
        comparison: Comparison::GreaterThan,
        arguments: vec![n.into()],
    })
}

#[test]
fn splitting() {
    assert_eq!(split_on("a,b,c", ','), strings(&["a", "b", "c"]));
    assert_eq!(split_on("", ','), strings(&[""]));
    assert_eq!(split_on(",", ','), strings(&["", ""]));
    assert_eq!(split_on("a,", ','), strings(&["a", ""]));
    assert_eq!(split_on(",a", ','), strings(&["", "a"]));
    assert_eq!(split_on("a,,b", ','), strings(&["a", "", "b"]));
    assert_eq!(split_on("añ,b", ','), strings(&["añ", "b"]));
    assert_eq!(split_on("a b", ','), strings(&["a b"]));
    for s in ["a,b", "", ",,", "x", "é,é,", ",a,"] {
        let expected: Vec<String> = s.split(',').map(|p| p.to_string()).collect();
        assert_eq!(split_on(s, ','), expected);
    }
}

#[test]
fn lists() {
    assert_eq!(read_list("a,b"), strings(&["a", "b"]));
    assert_eq!(read_list("a"), strings(&["a"]));
    assert_eq!(read_list(""), strings(&[]));
    assert_eq!(read_list(","), strings(&["", ""]));
}

#[test]
fn names_in_brackets() {
    assert_eq!(name_in_brackets("fields[dogs]", "fields"), Some("dogs".to_string()));
    assert_eq!(name_in_brackets("filter[a.b]", "filter"), Some("a.b".to_string()));
    assert_eq!(name_in_brackets("page[number]", "page"), Some("number".to_string()));
    assert_eq!(name_in_brackets("fields[a]b]", "fields"), Some("a]b".to_string()));
    assert_eq!(name_in_brackets("[x]", ""), Some("x".to_string()));
    for key in ["fields", "fields[]", "fields[dogs", "fieldsdogs]", "field[dogs]", "Fields[dogs]",
        "fields[dogs] ", "xfields[dogs]", "", "[]", "fields(dogs)", "filter[dogs]"]
    {
        assert_eq!(name_in_brackets(key, "fields"), None, "{:?}", key);
    }
}

#[test]
fn counts() {
    assert_eq!(parse_usize("0"), Some(0));
    assert_eq!(parse_usize("25"), Some(25));
    assert_eq!(parse_usize("007"), Some(7));
    assert_eq!(parse_usize(&usize::MAX.to_string()), Some(usize::MAX));
    assert_eq!(parse_usize("18446744073709551616"), None);
    assert_eq!(parse_usize("99999999999999999999999"), None);
    for bad in ["", "-1", "+1", "1.5", "a", " 1", "1 "] {
        assert_eq!(parse_usize(bad), None, "{:?}", bad);
    }
}

#[test]
fn sort_parameter() {
    assert_eq!(
        SortQuery::parse("-name,age"),
        Ok(SortQuery(vec![("name".into(), OrderType::Desc), ("age".into(), OrderType::Asc)]))
    );
    assert_eq!(SortQuery::parse("age"), Ok(SortQuery(vec![("age".into(), OrderType::Asc)])));
    assert_eq!(SortQuery::parse("--age"), Ok(SortQuery(vec![("-age".into(), OrderType::Desc)])));
    assert_eq!(SortQuery::parse(""), Ok(SortQuery(vec![])));
    for bad in ["-", "a,", ",a", "a,,b", "a,-"] {
        let e = SortQuery::parse(bad).unwrap_err();
        assert_eq!(e.kind, ErrorKind::MalformedQuery);
        assert_eq!(e.subject, "sort");
        assert_eq!(e.detail, bad);
    }
}

#[test]
fn last_parameter_counts() {
    let params = vec![plain("a", "1"), plain("b", "2"), plain("a", "3")];
    assert_eq!(find_last(&params, "a"), Some(&"3".to_string()));
    assert_eq!(find_last(&params, "b"), Some(&"2".to_string()));
    assert_eq!(find_last(&params, "c"), None);
    assert_eq!(read_count(&params, "a"), Ok(3));
    let e = read_count(&params, "c").unwrap_err();
    assert_eq!((e.kind, e.subject.as_str(), e.detail.as_str()), (ErrorKind::MalformedQuery, "c", ""));
    let e = read_count(&vec![plain("n", "x")], "n").unwrap_err();
    assert_eq!((e.kind, e.subject.as_str(), e.detail.as_str()), (ErrorKind::MalformedQuery, "n", "x"));
}

#[test]
fn fieldsets() {
    let params = vec![
        plain("fields[dogs]", "name,age"),
        plain("sort", "name"),
        plain("fields[humans]", ""),
        plain("fields[dogs]", "age"),
    ];
    assert_eq!(
        read_fields(&params),
        vec![
            FieldSet { ty: "dogs".into(), names: strings(&["name", "age"]) },
            FieldSet { ty: "humans".into(), names: vec![] },
            FieldSet { ty: "dogs".into(), names: strings(&["age"]) },
        ]
    );
}

#[test]
fn pages() {
    assert_eq!(read_page(&vec![plain("sort", "a")]), Ok(None));
    assert_eq!(
        read_page(&vec![plain("page[number]", "3"), plain("page[size]", "20")]),
        Ok(Some(PageQuery::OffsetBased(OffsetBasedData { number: 3, size: 20 })))
    );
    assert_eq!(
        read_page(&vec![plain("page[cursor]", "b"), plain("page[limit]", "2")]),
        Ok(Some(PageQuery::CursorBased(CursorBasedData {
            target_id: "b".into(),
            is_look_after: true,
            limit: 2,
        })))
    );
    assert_eq!(
        read_page(&vec![
            plain("page[after]", "false"),
            plain("page[cursor]", "b"),
            plain("page[limit]", "2"),
            plain("page[number]", "x"),
        ]),
        Ok(Some(PageQuery::CursorBased(CursorBasedData {
            target_id: "b".into(),
            is_look_after: false,
            limit: 2,
        })))
    );
    let bad = |params: Vec<QueryParam>, subject: &str, detail: &str| {
        let e = read_page(&params).unwrap_err();
        assert_eq!(e.kind, ErrorKind::MalformedQuery);
        assert_eq!(e.subject, subject);
        assert_eq!(e.detail, detail);
    };
    bad(vec![plain("page[number]", "3")], "page[size]", "");
    bad(vec![plain("page[size]", "3")], "page[number]", "");
    bad(vec![plain("page[size]", "3"), plain("page[number]", "-1")], "page[number]", "-1");
    bad(vec![plain("page[size]", "x"), plain("page[number]", "y")], "page[number]", "y");
    bad(vec![plain("page[cursor]", "b")], "page[limit]", "");
    bad(vec![plain("page[cursor]", "b"), plain("page[limit]", "two")], "page[limit]", "two");
    bad(
        vec![plain("page[cursor]", "b"), plain("page[limit]", "2"), plain("page[after]", "no")],
        "page[after]",
        "no",
    );
}

#[test]
fn query_of_no_parameters() {
    let query = Query::from_params(vec![]).unwrap();
    assert_eq!(query, Query {
        includes: None,
        fields: vec![],
        sort: SortQuery(vec![]),
        page: None,
        filter: None,
    });
}

#[test]
fn query_of_all_parameters() {
    let query = Query::from_params(vec![
        plain("include", "dogs,friend"),
        plain("fields[dogs]", "name"),
        plain("sort", "-name,-age"),
        QueryParam { key: "filter[dogs]".into(), value: "age>1".into(), parsed: Some(age_above("1")) },
        plain("page[number]", "2"),
        plain("page[size]", "10"),
        plain("unknown", "whatever"),
        plain("filter", "Rsql"),
    ])
    .unwrap();
    assert_eq!(query, Query {
        includes: Some(strings(&["dogs", "friend"])),
        fields: vec![FieldSet { ty: "dogs".into(), names: strings(&["name"]) }],
        sort: SortQuery(vec![("name".into(), OrderType::Desc), ("age".into(), OrderType::Desc)]),
        page: Some(PageQuery::OffsetBased(OffsetBasedData { number: 2, size: 10 })),
        filter: Some(FilterQuery::Rsql(RsqlFilterData(vec![FilterItem {
            key: "dogs".into(),
            expr: age_above("1"),
        }]))),
    });
}

#[test]
fn empty_include_walks_nothing() {
    let query = Query::from_params(vec![plain("include", "")]).unwrap();
    assert_eq!(query.includes, Some(vec![]));
}

#[test]
fn query_failures_in_their_order() {
    let unread = || QueryParam { key: "filter[dogs]".into(), value: "age>".into(), parsed: None };
    let e = Query::from_params(vec![unread(), plain("page[size]", "1"), plain("sort", "-")])
        .unwrap_err();
    assert_eq!(e.subject, "sort");
    let e = Query::from_params(vec![unread(), plain("page[size]", "1")]).unwrap_err();
    assert_eq!(e.subject, "page[number]");
    let e = Query::from_params(vec![unread()]).unwrap_err();
    assert_eq!((e.kind, e.subject.as_str(), e.detail.as_str()), (ErrorKind::MalformedQuery, "dogs", "age>"));
    let e = Query::from_params(vec![plain("filter", "Fiql")]).unwrap_err();
    assert_eq!((e.kind, e.subject.as_str(), e.detail.as_str()), (ErrorKind::MalformedQuery, "filter", "Fiql"));
    let e = Query::from_params(vec![QueryParam {
        key: "filter[owner.name]".into(),
        value: "name==x".into(),
        parsed: Some(age_above("1")),
    }])
    .unwrap_err();
    assert_eq!(e.kind, ErrorKind::RelationshipPathNotSupported);
    assert_eq!(e.subject, "owner.name");
}
