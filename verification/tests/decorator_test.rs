use rabbithole::decorator::{
    get_entity_type, get_fields, EntityDecoratorError, FieldBundle, FieldDecl, FieldType, MetaItem,
};

fn field(ty: FieldType, name: &str) -> FieldDecl {
    FieldDecl { ty, name: Some(name.to_string()) }
}

fn nameless(ty: FieldType) -> FieldDecl {
    FieldDecl { ty, name: None }
}

fn strings(items: &[&str]) -> Vec<String> {
    items.iter().map(|s| s.to_string()).collect()
}

fn item(name: Option<&str>, value: Option<&str>) -> MetaItem {
    MetaItem { name: name.map(|s| s.to_string()), value: value.map(|s| s.to_string()) }
}

#[test]
fn fields_by_what_they_are() {
    let bundle = get_fields(vec![
        field(FieldType::Plain, "name"),
        field(FieldType::ToMany, "dogs"),
        field(FieldType::Id, "id"),
        field(FieldType::ToOne, "friend"),
        field(FieldType::Plain, "age"),
        field(FieldType::ToMany, "cats"),
    ]);
    assert_eq!(
        bundle,
        Ok(FieldBundle {
            id: "id".into(),
            attrs: strings(&["name", "age"]),
            to_ones: strings(&["friend"]),
            to_manys: strings(&["dogs", "cats"]),
        })
    );
    assert_eq!(
        get_fields(vec![field(FieldType::Id, "key")]),
        Ok(FieldBundle { id: "key".into(), attrs: vec![], to_ones: vec![], to_manys: vec![] })
    );
}

#[test]
fn a_type_needs_an_id() {
    assert_eq!(get_fields(vec![]), Err(EntityDecoratorError::InvalidEntityType));
    assert_eq!(
        get_fields(vec![field(FieldType::Plain, "name"), field(FieldType::ToOne, "friend")]),
        Err(EntityDecoratorError::InvalidEntityType)
    );
}

#[test]
fn a_type_has_one_id() {
    assert_eq!(
        get_fields(vec![field(FieldType::Id, "id"), field(FieldType::Id, "key")]),
        Err(EntityDecoratorError::DuplicatedId)
    );
    assert_eq!(get_fields(vec![nameless(FieldType::Id)]), Err(EntityDecoratorError::DuplicatedId));
}

#[test]
fn a_field_needs_a_name() {
    for ty in [FieldType::Plain, FieldType::ToOne, FieldType::ToMany] {
        assert_eq!(
            get_fields(vec![field(FieldType::Id, "id"), nameless(ty)]),
            Err(EntityDecoratorError::FieldWithoutName)
        );
    }
}

#[test]
fn the_first_wrong_field_decides() {
    assert_eq!(
        get_fields(vec![
            field(FieldType::Id, "id"),
            nameless(FieldType::Plain),
            field(FieldType::Id, "key"),
        ]),
        Err(EntityDecoratorError::FieldWithoutName)
    );
    assert_eq!(
        get_fields(vec![
            field(FieldType::Id, "id"),
            field(FieldType::Id, "key"),
            nameless(FieldType::Plain),
        ]),
        Err(EntityDecoratorError::DuplicatedId)
    );
    // a field without a name weighs more than the want of an id
    assert_eq!(get_fields(vec![nameless(FieldType::ToOne)]), Err(EntityDecoratorError::FieldWithoutName));
}

#[test]
fn entity_type_of_a_description() {
    let dogs = vec![vec![item(Some("type"), Some("dogs"))]];
    assert_eq!(get_entity_type(&dogs), Ok("dogs".to_string()));
    // the last item of a description counts, and the first description that names a type
    let lists = vec![
        vec![],
        vec![item(Some("type"), Some("cats")), item(None, None)],
        vec![item(Some("kind"), Some("x")), item(Some("type"), Some("dogs"))],
        vec![item(Some("type"), Some("birds"))],
    ];
    assert_eq!(get_entity_type(&lists), Ok("dogs".to_string()));
}

#[test]
fn a_type_without_entity_type() {
    assert_eq!(get_entity_type(&vec![]), Err(EntityDecoratorError::InvalidEntityType));
    for last in [
        item(None, None),
        item(Some("type"), None),
        item(None, Some("dogs")),
        item(Some("Type"), Some("dogs")),
        item(Some("ty"), Some("dogs")),
    ] {
        let lists = vec![vec![item(Some("type"), Some("dogs")), last]];
        assert_eq!(get_entity_type(&lists), Err(EntityDecoratorError::InvalidEntityType));
    }
}
