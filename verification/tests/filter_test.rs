use rabbithole::entity::Entity;
use rabbithole::error::ErrorKind;
use rabbithole::model::resource::{Attribute, AttributeValue, Attributes};
use rabbithole::query::filter::{
    Comparison, Constraint, Expr, FilterData, FilterItem, FilterParam, FilterQuery, Operator,
    RsqlFilterData,
};

fn dog(id: &str, name: &str, age: i64) -> Entity {
    Entity {
        ty: "dogs".into(),
        id: id.into(),
        attributes: Attributes(vec![
            Attribute { name: "name".into(), value: AttributeValue::Text(name.into()) },
            Attribute { name: "age".into(), value: AttributeValue::Integer(age) },
            Attribute { name: "good".into(), value: AttributeValue::Bool(age > 1) },
            Attribute { name: "owner".into(), value: AttributeValue::Null },
        ]),
        relations: vec![],
    }
}

fn dogs() -> Vec<Entity> {
    vec![dog("a", "123", 3), dog("b", "124", 2), dog("c", "321", 1)]
}

fn leaf(selector: &str, comparison: Comparison, arguments: &[&str]) -> Expr {
    Expr::Item(Constraint {
        selector: selector.into(),
        comparison,
        arguments: arguments.iter().map(|a| a.to_string()).collect(),
    })
}

fn param(key: &str, raw: &str, parsed: Expr) -> FilterParam {
    FilterParam { key: key.into(), raw: raw.into(), parsed: Some(parsed) }
}

fn ids(entities: &[Entity]) -> Vec<String> {
    entities.iter().map(|e| e.id.clone()).collect()
}

fn kept_by(expr: Expr) -> Vec<String> {
    let data = RsqlFilterData(vec![FilterItem { key: "dogs".into(), expr }]);
    ids(&data.filter(dogs()).unwrap())
}

fn failure_of(expr: Expr) -> rabbithole::error::Error {
    let data = RsqlFilterData(vec![FilterItem { key: "dogs".into(), expr }]);
    data.filter(dogs()).unwrap_err()
}

#[test]
fn rsql_test() {
    let rsql_data = RsqlFilterData::new(vec![param(
        "dogs",
        "name==123",
        leaf("name", Comparison::Equal, &["123"]),
    )])
    .unwrap()
    .unwrap();
    assert_eq!(rsql_data.filter(dogs()).unwrap().len(), 1);

    let rsql_data = RsqlFilterData::new(vec![param(
        "dogs",
        "name!=123",
        leaf("name", Comparison::NotEqual, &["123"]),
    )])
    .unwrap()
    .unwrap();
    assert_eq!(rsql_data.filter(dogs()).unwrap().len(), 2);

    let rsql_data = RsqlFilterData::new(vec![param(
        "dogs",
        "name==12*",
        leaf("name", Comparison::Equal, &["12*"]),
    )])
    .unwrap()
    .unwrap();
    assert_eq!(rsql_data.filter(dogs()).unwrap().len(), 2);
}

#[test]
fn filter_keeps_the_order_of_the_collection() {
    assert_eq!(kept_by(leaf("name", Comparison::Equal, &["12*"])), vec!["a", "b"]);
    assert_eq!(kept_by(leaf("name", Comparison::NotEqual, &["123"])), vec!["b", "c"]);
}

#[test]
fn or_keeps_the_union() {
    let a = || leaf("name", Comparison::Equal, &["123"]);
    let b = || leaf("age", Comparison::Equal, &["1"]);
    let either = Expr::Node(Operator::Or, Box::new(a()), Box::new(b()));
    assert_eq!(kept_by(a()), vec!["a"]);
    assert_eq!(kept_by(b()), vec!["c"]);
    assert_eq!(kept_by(either), vec!["a", "c"]);
}

#[test]
fn and_keeps_what_both_keep() {
    let both = Expr::Node(
        Operator::And,
        Box::new(leaf("name", Comparison::Equal, &["12*"])),
        Box::new(leaf("age", Comparison::LessThan, &["3"])),
    );
    assert_eq!(kept_by(both), vec!["b"]);
}

#[test]
fn equal_and_not_equal_divide_the_collection() {
    for x in ["123", "124", "321", "nothing", "*", "1*"] {
        let yes = kept_by(leaf("name", Comparison::Equal, &[x]));
        let no = kept_by(leaf("name", Comparison::NotEqual, &[x]));
        assert_eq!(yes.len() + no.len(), 3);
        for id in ["a", "b", "c"] {
            assert_ne!(yes.contains(&id.to_string()), no.contains(&id.to_string()));
        }
    }
}

#[test]
fn numbers_compare_as_numbers() {
    assert_eq!(kept_by(leaf("age", Comparison::Equal, &["2"])), vec!["b"]);
    assert_eq!(kept_by(leaf("age", Comparison::Equal, &["02"])), vec!["b"]);
    assert_eq!(kept_by(leaf("age", Comparison::GreaterThan, &["1"])), vec!["a", "b"]);
    assert_eq!(kept_by(leaf("age", Comparison::GreaterThanOrEqual, &["3"])), vec!["a"]);
    assert_eq!(kept_by(leaf("age", Comparison::LessThan, &["3"])), vec!["b", "c"]);
    assert_eq!(kept_by(leaf("age", Comparison::LessThanOrEqual, &["1"])), vec!["c"]);
    assert_eq!(kept_by(leaf("age", Comparison::LessThan, &["-1"])), Vec::<String>::new());
    // as text "10" comes before "3"; as a number it does not
    assert_eq!(kept_by(leaf("age", Comparison::LessThan, &["10"])), vec!["a", "b", "c"]);
}

#[test]
fn text_compares_lexically() {
    assert_eq!(kept_by(leaf("name", Comparison::GreaterThan, &["123"])), vec!["b", "c"]);
    assert_eq!(kept_by(leaf("name", Comparison::GreaterThanOrEqual, &["124"])), vec!["b", "c"]);
    assert_eq!(kept_by(leaf("name", Comparison::LessThan, &["2"])), vec!["a", "b"]);
    assert_eq!(kept_by(leaf("name", Comparison::LessThanOrEqual, &["123"])), vec!["a"]);
    // a wildcard is a wildcard for equality only: `*` comes before the digits
    assert_eq!(kept_by(leaf("name", Comparison::GreaterThan, &["12*"])), vec!["a", "b", "c"]);
    assert_eq!(kept_by(leaf("name", Comparison::LessThanOrEqual, &["12*"])), Vec::<String>::new());
    assert_eq!(kept_by(leaf("name", Comparison::LessThan, &["12z"])), vec!["a", "b"]);
}

#[test]
fn truth_values_compare() {
    assert_eq!(kept_by(leaf("good", Comparison::Equal, &["true"])), vec!["a", "b"]);
    assert_eq!(kept_by(leaf("good", Comparison::NotEqual, &["true"])), vec!["c"]);
    assert_eq!(kept_by(leaf("good", Comparison::LessThan, &["true"])), vec!["c"]);
}

#[test]
fn in_and_out_test_membership() {
    assert_eq!(kept_by(leaf("age", Comparison::In, &["1", "3"])), vec!["a", "c"]);
    assert_eq!(kept_by(leaf("age", Comparison::Out, &["1", "3"])), vec!["b"]);
    assert_eq!(kept_by(leaf("name", Comparison::In, &["32*", "124"])), vec!["b", "c"]);
    assert_eq!(kept_by(leaf("age", Comparison::In, &[])), Vec::<String>::new());
    assert_eq!(kept_by(leaf("age", Comparison::Out, &[])), vec!["a", "b", "c"]);
    // an argument that is no number equals no number
    assert_eq!(kept_by(leaf("age", Comparison::In, &["x", "2"])), vec!["b"]);
    assert_eq!(kept_by(leaf("age", Comparison::Out, &["x"])), vec!["a", "b", "c"]);
}

#[test]
fn absent_attribute_is_field_not_exist() {
    for comparison in [
        Comparison::Equal,
        Comparison::NotEqual,
        Comparison::GreaterThan,
        Comparison::LessThanOrEqual,
        Comparison::In,
        Comparison::Out,
    ] {
        let e = failure_of(leaf("colour", comparison, &["1"]));
        assert_eq!(e.kind, ErrorKind::FieldNotExist);
        assert_eq!(e.subject, "colour");
        assert_eq!(e.status_code(), 400);
    }
    // also next to a side that holds, and with the wrong number of arguments
    let either = Expr::Node(
        Operator::Or,
        Box::new(leaf("name", Comparison::Equal, &["*"])),
        Box::new(leaf("colour", Comparison::Equal, &["1"])),
    );
    assert_eq!(failure_of(either).kind, ErrorKind::FieldNotExist);
    assert_eq!(
        failure_of(leaf("colour", Comparison::Equal, &["1", "2"])).kind,
        ErrorKind::FieldNotExist
    );
}

#[test]
fn the_left_side_fails_first() {
    let both = Expr::Node(
        Operator::And,
        Box::new(leaf("age", Comparison::Equal, &["x"])),
        Box::new(leaf("colour", Comparison::Equal, &["1"])),
    );
    assert_eq!(failure_of(both).kind, ErrorKind::WrongFieldType);
}

#[test]
fn wrong_number_of_arguments_is_unsupported() {
    let e = failure_of(leaf("name", Comparison::Equal, &["1", "2"]));
    assert_eq!(e.kind, ErrorKind::UnsupportedComparison);
    assert_eq!(e.subject, "name");
    assert_eq!(e.detail, "==");
    let e = failure_of(leaf("age", Comparison::GreaterThanOrEqual, &[]));
    assert_eq!(e.kind, ErrorKind::UnsupportedComparison);
    assert_eq!(e.detail, ">=");
}

#[test]
fn argument_of_another_type_is_wrong_field_type() {
    let e = failure_of(leaf("age", Comparison::Equal, &["three"]));
    assert_eq!(e.kind, ErrorKind::WrongFieldType);
    assert_eq!(e.subject, "age");
    assert_eq!(e.detail, "three");
    assert_eq!(
        failure_of(leaf("age", Comparison::LessThan, &["9223372036854775808"])).kind,
        ErrorKind::WrongFieldType
    );
    assert_eq!(
        failure_of(leaf("good", Comparison::Equal, &["yes"])).kind,
        ErrorKind::WrongFieldType
    );
    assert_eq!(
        failure_of(leaf("owner", Comparison::Equal, &["null"])).kind,
        ErrorKind::WrongFieldType
    );
}

#[test]
fn filter_for_another_type_is_refused() {
    let data = RsqlFilterData(vec![FilterItem {
        key: "humans".into(),
        expr: leaf("name", Comparison::Equal, &["123"]),
    }]);
    let e = data.filter(dogs()).unwrap_err();
    assert_eq!(e.kind, ErrorKind::UnsupportedCrossEntityFilter);
    assert_eq!(e.subject, "humans");
    assert_eq!(e.detail, "dogs");
    assert_eq!(e.status_code(), 501);
    // nothing is refused where there is nothing to filter
    assert_eq!(data.filter(vec![]).unwrap().len(), 0);
}

#[test]
fn filters_are_applied_one_after_the_other() {
    let data = RsqlFilterData(vec![
        FilterItem { key: "dogs".into(), expr: leaf("name", Comparison::Equal, &["12*"]) },
        FilterItem { key: "dogs".into(), expr: leaf("age", Comparison::LessThan, &["3"]) },
    ]);
    assert_eq!(ids(&data.filter(dogs()).unwrap()), vec!["b"]);
    // a later filter sees only what an earlier one has kept
    let data = RsqlFilterData(vec![
        FilterItem { key: "dogs".into(), expr: leaf("name", Comparison::Equal, &["none"]) },
        FilterItem { key: "humans".into(), expr: leaf("name", Comparison::Equal, &["x"]) },
    ]);
    assert_eq!(data.filter(dogs()).unwrap().len(), 0);
}

#[test]
fn filter_on_attributes_of_one_entity() {
    let rex = dog("a", "rex", 3);
    let is_rex = leaf("name", Comparison::Equal, &["r*x"]);
    assert_eq!(RsqlFilterData::filter_on_attributes(&is_rex, &rex), Ok(true));
    let is_old = leaf("age", Comparison::GreaterThan, &["10"]);
    assert_eq!(RsqlFilterData::filter_on_attributes(&is_old, &rex), Ok(false));
}

#[test]
fn no_parameters_no_filter() {
    assert_eq!(RsqlFilterData::new(vec![]), Ok(None));
    assert_eq!(FilterQuery::new("Rsql", vec![]), Ok(None));
}

#[test]
fn relationship_path_is_not_supported() {
    let e = RsqlFilterData::new(vec![
        param("dogs", "name==1", leaf("name", Comparison::Equal, &["1"])),
        param("owner.name", "name==1", leaf("name", Comparison::Equal, &["1"])),
    ])
    .unwrap_err();
    assert_eq!(e.kind, ErrorKind::RelationshipPathNotSupported);
    assert_eq!(e.subject, "owner.name");
    assert_eq!(e.status_code(), 501);
}

#[test]
fn unread_expression_is_malformed() {
    let e = RsqlFilterData::new(vec![FilterParam {
        key: "dogs".into(),
        raw: "name=123".into(),
        parsed: None,
    }])
    .unwrap_err();
    assert_eq!(e.kind, ErrorKind::MalformedQuery);
    assert_eq!(e.subject, "dogs");
    assert_eq!(e.detail, "name=123");
    // the path is looked at before the expression
    let e = RsqlFilterData::new(vec![FilterParam {
        key: "a.b".into(),
        raw: "name=123".into(),
        parsed: None,
    }])
    .unwrap_err();
    assert_eq!(e.kind, ErrorKind::RelationshipPathNotSupported);
}

#[test]
fn filter_query_knows_one_grammar() {
    let rsql = FilterQuery::new(
        "Rsql",
        vec![param("dogs", "age>1", leaf("age", Comparison::GreaterThan, &["1"]))],
    )
    .unwrap()
    .unwrap();
    assert_eq!(ids(&rsql.filter(dogs()).unwrap()), vec!["a", "b"]);
    let e = FilterQuery::new("Fiql", vec![]).unwrap_err();
    assert_eq!(e.kind, ErrorKind::MalformedQuery);
    assert_eq!(e.subject, "filter");
    assert_eq!(e.detail, "Fiql");
}

#[test]
fn a_copy_of_an_expression_is_alike() {
    let expr = Expr::Node(
        Operator::Or,
        Box::new(leaf("name", Comparison::Equal, &["12*"])),
        Box::new(Expr::Node(
            Operator::And,
            Box::new(leaf("age", Comparison::In, &["1", "2"])),
            Box::new(leaf("good", Comparison::NotEqual, &["true"])),
        )),
    );
    let copy = expr.clone();
    assert_eq!(copy, expr);
    assert_eq!(kept_by(copy), kept_by(expr));
}

