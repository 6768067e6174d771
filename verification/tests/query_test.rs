use percent_encoding::{percent_encode, NON_ALPHANUMERIC};
use rabbithole::assembler::to_document_automatically;
use rabbithole::entity::Entity;
use rabbithole::error::ErrorKind;
use rabbithole::model::document::DocumentItem;
use rabbithole::model::resource::{Attribute, AttributeValue, Attributes};
use rabbithole::query::page::{CursorBasedData, OffsetBasedData, PageQuery};
use rabbithole::query::sort::{OrderType, SortQuery};
use rabbithole::query::Query;

fn dog(id: &str, name: &str, age: i64) -> Entity {
    Entity {
        ty: "dogs".into(),
        id: id.into(),
        attributes: Attributes(vec![
            Attribute { name: "name".into(), value: AttributeValue::Text(name.into()) },
            Attribute { name: "age".into(), value: AttributeValue::Integer(age) },
        ]),
        relations: vec![],
    }
}

fn dogs() -> Vec<Entity> {
    vec![dog("a", "1", 3), dog("b", "2", 2), dog("c", "2", 1)]
}

fn four() -> Vec<Entity> {
    vec![dog("a", "1", 3), dog("b", "2", 2), dog("c", "2", 1), dog("d", "3", 0)]
}

fn ids(entities: &[Entity]) -> Vec<String> {
    entities.iter().map(|e| e.id.clone()).collect()
}

fn sort_by(keys: &[(&str, OrderType)]) -> SortQuery {
    SortQuery::new(keys.iter().map(|(name, order)| (name.to_string(), *order)).collect()).unwrap()
}

#[test]
fn sort_and_page_test() {
    let dogs: Vec<Entity> = dogs();
    let query = Query {
        includes: None,
        fields: Default::default(),
        sort: SortQuery::new(vec![("name".into(), OrderType::Desc), ("age".into(), OrderType::Desc)])
            .unwrap(),
        page: Some(PageQuery::CursorBased(CursorBasedData {
            target_id: "b".to_string(),
            is_look_after: true,
            limit: 2,
        })),
        filter: None,
    };

    let uri = "sort=-name,-age&page[cursor]=<some-base64>";
    let uri = percent_encode(uri.as_bytes(), NON_ALPHANUMERIC);
    let uri = format!("/dogs?{}", uri.to_string());

    let doc = to_document_automatically(dogs, "http://example.com", &query, &uri).unwrap();
    if let DocumentItem::PrimaryData(Some((data, _))) = doc.item {
        let data = data.data();
        assert_eq!(data.len(), 2);
        assert_eq!(data[0].id.id, "c");
        assert_eq!(data[1].id.id, "a");
    } else {
        panic!("the document holds no primary data");
    }
    assert_eq!(doc.links.len(), 1);
    assert_eq!(doc.links[0].name, "self");
    assert_eq!(doc.links[0].href, uri);
}

#[test]
fn sort_by_one_key() {
    assert_eq!(ids(&sort_by(&[("age", OrderType::Asc)]).sort(dogs()).unwrap()), vec!["c", "b", "a"]);
    assert_eq!(ids(&sort_by(&[("age", OrderType::Desc)]).sort(dogs()).unwrap()), vec!["a", "b", "c"]);
}

#[test]
fn sort_by_two_keys() {
    let by = sort_by(&[("name", OrderType::Desc), ("age", OrderType::Desc)]);
    assert_eq!(ids(&by.sort(dogs()).unwrap()), vec!["b", "c", "a"]);
    let by = sort_by(&[("name", OrderType::Desc), ("age", OrderType::Asc)]);
    assert_eq!(ids(&by.sort(dogs()).unwrap()), vec!["c", "b", "a"]);
    let by = sort_by(&[("name", OrderType::Asc), ("age", OrderType::Asc)]);
    assert_eq!(ids(&by.sort(dogs()).unwrap()), vec!["a", "c", "b"]);
}

#[test]
fn ties_keep_the_order_in_which_they_came() {
    let by = sort_by(&[("name", OrderType::Asc)]);
    assert_eq!(ids(&by.sort(dogs()).unwrap()), vec!["a", "b", "c"]);
    let by = sort_by(&[("name", OrderType::Desc)]);
    assert_eq!(ids(&by.sort(dogs()).unwrap()), vec!["b", "c", "a"]);
    let twins = vec![dog("z", "x", 1), dog("y", "x", 1), dog("x", "x", 1)];
    let by = sort_by(&[("name", OrderType::Desc), ("age", OrderType::Asc)]);
    assert_eq!(ids(&by.sort(twins).unwrap()), vec!["z", "y", "x"]);
}

#[test]
fn no_keys_no_change() {
    assert_eq!(ids(&sort_by(&[]).sort(dogs()).unwrap()), vec!["a", "b", "c"]);
}

#[test]
fn numbers_sort_as_numbers() {
    let some = vec![dog("a", "x", 10), dog("b", "x", 9), dog("c", "x", -1)];
    assert_eq!(ids(&sort_by(&[("age", OrderType::Asc)]).sort(some).unwrap()), vec!["c", "b", "a"]);
    let some = vec![dog("a", "10", 0), dog("b", "9", 0), dog("c", "", 0)];
    assert_eq!(ids(&sort_by(&[("name", OrderType::Asc)]).sort(some).unwrap()), vec!["c", "a", "b"]);
}

#[test]
fn sort_by_an_absent_attribute_is_field_not_exist() {
    let by = sort_by(&[("name", OrderType::Asc), ("colour", OrderType::Asc)]);
    let e = by.sort(dogs()).unwrap_err();
    assert_eq!(e.kind, ErrorKind::FieldNotExist);
    assert_eq!(e.subject, "colour");
    assert_eq!(by.sort(vec![]).unwrap().len(), 0);
}

#[test]
fn sort_key_needs_a_name() {
    let e = SortQuery::new(vec![("name".into(), OrderType::Asc), ("".into(), OrderType::Asc)])
        .unwrap_err();
    assert_eq!(e.kind, ErrorKind::MalformedQuery);
    assert_eq!(e.subject, "sort");
}

fn page(number: usize, size: usize) -> PageQuery {
    PageQuery::OffsetBased(OffsetBasedData { number, size })
}

#[test]
fn page_past_the_end_is_empty() {
    assert_eq!(page(3, 2).page(four()), Ok(vec![]));
}

#[test]
fn pages_by_number() {
    assert_eq!(ids(&page(1, 2).page(four()).unwrap()), vec!["a", "b"]);
    assert_eq!(ids(&page(2, 2).page(four()).unwrap()), vec!["c", "d"]);
    assert_eq!(ids(&page(2, 3).page(four()).unwrap()), vec!["d"]);
    assert_eq!(ids(&page(1, 10).page(four()).unwrap()), vec!["a", "b", "c", "d"]);
    assert_eq!(ids(&page(1, 0).page(four()).unwrap()), Vec::<String>::new());
    assert_eq!(ids(&page(usize::MAX, usize::MAX).page(four()).unwrap()), Vec::<String>::new());
    assert_eq!(ids(&page(2, usize::MAX).page(four()).unwrap()), Vec::<String>::new());
    assert_eq!(ids(&page(1, usize::MAX).page(four()).unwrap()), vec!["a", "b", "c", "d"]);
}

#[test]
fn there_is_no_page_zero() {
    let e = page(0, 2).page(four()).unwrap_err();
    assert_eq!(e.kind, ErrorKind::MalformedQuery);
    assert_eq!(e.subject, "page[number]");
    assert_eq!(e.detail, "0");
}

fn cursor(target_id: &str, is_look_after: bool, limit: usize) -> PageQuery {
    PageQuery::CursorBased(CursorBasedData { target_id: target_id.into(), is_look_after, limit })
}

#[test]
fn pages_by_cursor() {
    assert_eq!(ids(&cursor("b", true, 2).page(four()).unwrap()), vec!["c", "d"]);
    assert_eq!(ids(&cursor("b", true, 1).page(four()).unwrap()), vec!["c"]);
    assert_eq!(ids(&cursor("c", true, 5).page(four()).unwrap()), vec!["d"]);
    assert_eq!(ids(&cursor("d", true, 5).page(four()).unwrap()), Vec::<String>::new());
    assert_eq!(ids(&cursor("a", true, usize::MAX).page(four()).unwrap()), vec!["b", "c", "d"]);
    assert_eq!(ids(&cursor("d", false, 2).page(four()).unwrap()), vec!["b", "c"]);
    assert_eq!(ids(&cursor("c", false, 5).page(four()).unwrap()), vec!["a", "b"]);
    assert_eq!(ids(&cursor("a", false, 5).page(four()).unwrap()), Vec::<String>::new());
    assert_eq!(ids(&cursor("b", false, 0).page(four()).unwrap()), Vec::<String>::new());
}

#[test]
fn cursor_anchors_at_the_first_entity_of_that_id() {
    let twice = vec![dog("a", "1", 3), dog("b", "2", 2), dog("a", "3", 1), dog("c", "4", 0)];
    assert_eq!(ids(&cursor("a", true, 1).page(twice).unwrap()), vec!["b"]);
}

#[test]
fn cursor_that_points_nowhere_is_refused() {
    let e = cursor("x", true, 2).page(four()).unwrap_err();
    assert_eq!(e.kind, ErrorKind::CursorTargetNotFound);
    assert_eq!(e.subject, "x");
    assert_eq!(cursor("x", false, 2).page(vec![]).unwrap_err().kind, ErrorKind::CursorTargetNotFound);
}
