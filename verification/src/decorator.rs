//! The description of a domain type: under which type name its objects are
//! entities, which of its fields is the id, which are attributes and which
//! lead to other entities.

use crate::model::resource::names_of;
use vstd::prelude::*;
use vstd::string::*;

verus! {

/// What a field of a domain type is to its entity.
#[derive(Clone, Copy, Debug, PartialEq, Eq, Structural)]
pub enum FieldType {
    Id,
    ToOne,
    ToMany,
    Plain,
}

/// A field as a domain type declares it. A field may be without a name.
#[derive(Clone, Debug, PartialEq, Eq)]
pub struct FieldDecl {
    pub ty: FieldType,
    pub name: Option<String>,
}

/// The fields of a domain type by what they are: the one id, and in their
/// order the attributes, the to-one and the to-many relationship fields.
#[derive(Clone, Debug, PartialEq, Eq)]
pub struct FieldBundle {
    pub id: String,
    pub attrs: Vec<String>,
    pub to_ones: Vec<String>,
    pub to_manys: Vec<String>,
}

/// Why a domain type does not describe an entity.
#[derive(Clone, Copy, Debug, PartialEq, Eq, Structural)]
pub enum EntityDecoratorError {
    /// The type names no entity type, or has no id.
    InvalidEntityType,
    /// The type has a second id, or an id without a name.
    DuplicatedId,
    /// A field that is no id has no name.
    FieldWithoutName,
}

/// A field declaration as a plain value.
pub struct DeclView {
    pub ty: FieldType,
    pub name: Option<Seq<char>>,
}

impl View for FieldDecl {
    type V = DeclView;

    open spec fn view(&self) -> DeclView {
        DeclView {
            ty: self.ty,
            name: match self.name {
                Some(n) => Some(n@),
                None => None,
            },
        }
    }
}

/// The declarations of `fields` as plain values.
pub open spec fn decl_views(fields: Seq<FieldDecl>) -> Seq<DeclView> {
    Seq::new(fields.len(), |i: int| fields[i]@)
}

/// The fields that were sorted so far; the id may not have come yet.
pub struct Sorted {
    pub id: Option<Seq<char>>,
    pub attrs: Seq<Seq<char>>,
    pub to_ones: Seq<Seq<char>>,
    pub to_manys: Seq<Seq<char>>,
}

/// The fields sorted so far, with one field more.
pub open spec fn with_field(sorted: Sorted, field: DeclView) -> Result<
    Sorted,
    EntityDecoratorError,
> {
    match (field.ty, field.name) {
        (FieldType::Id, Some(name)) => if sorted.id is None {
            Ok(Sorted { id: Some(name), ..sorted })
        } else {
            Err(EntityDecoratorError::DuplicatedId)
        },
        (FieldType::Id, None) => Err(EntityDecoratorError::DuplicatedId),
        (FieldType::ToOne, Some(name)) => Ok(
            Sorted { to_ones: sorted.to_ones.push(name), ..sorted },
        ),
        (FieldType::ToMany, Some(name)) => Ok(
            Sorted { to_manys: sorted.to_manys.push(name), ..sorted },
        ),
        (FieldType::Plain, Some(name)) => Ok(Sorted { attrs: sorted.attrs.push(name), ..sorted }),
        (_, None) => Err(EntityDecoratorError::FieldWithoutName),
    }
}

/// The fields of a type, sorted by what they are; or what is wrong with
/// the first field with which something is wrong.
pub open spec fn sorted_fields(fields: Seq<DeclView>) -> Result<Sorted, EntityDecoratorError>
    decreases fields.len(),
{
    if fields.len() == 0 {
        Ok(
            Sorted {
                id: None,
                attrs: Seq::empty(),
                to_ones: Seq::empty(),
                to_manys: Seq::empty(),
            },
        )
    } else {
        match sorted_fields(fields.drop_last()) {
            Err(e) => Err(e),
            Ok(sorted) => with_field(sorted, fields.last()),
        }
    }
}

/// What is wrong with one field is wrong with the whole type, whatever
/// fields come after it.
proof fn lemma_field_failure_stays(fields: Seq<DeclView>, n: int)
    requires
        0 <= n <= fields.len(),
        sorted_fields(fields.take(n)) is Err,
    ensures
        sorted_fields(fields) == sorted_fields(fields.take(n)),
    decreases fields.len() - n,
{
    if n < fields.len() {
        assert(fields.take(n + 1).drop_last() =~= fields.take(n));
        lemma_field_failure_stays(fields, n + 1);
    } else {
        assert(fields.take(n) =~= fields);
    }
}

/// The fields of a domain type by what they are. A type must have one id,
/// and one only, and each of its fields a name.
pub fn get_fields(fields: Vec<FieldDecl>) -> (r: Result<FieldBundle, EntityDecoratorError>)
    ensures
        match r {
            Ok(bundle) => sorted_fields(decl_views(fields@)) == Ok::<Sorted, EntityDecoratorError>(
                Sorted {
                    id: Some(bundle.id@),
                    attrs: names_of(bundle.attrs@),
                    to_ones: names_of(bundle.to_ones@),
                    to_manys: names_of(bundle.to_manys@),
                },
            ),
            Err(e) => match sorted_fields(decl_views(fields@)) {
                Ok(sorted) => sorted.id is None && e == EntityDecoratorError::InvalidEntityType,
                Err(wrong) => e == wrong,
            },
        },
{
    let ghost all = decl_views(fields@);
    let mut id: Option<String> = None;
    let mut attrs: Vec<String> = Vec::new();
    let mut to_ones: Vec<String> = Vec::new();
    let mut to_manys: Vec<String> = Vec::new();
    proof {
        assert(names_of(to_manys@) =~= Seq::<Seq<char>>::empty());
    }
    for field in it: fields
        invariant
            it.seq() == fields@,
            all == decl_views(fields@),
            sorted_fields(all.take(it.index() as int)) == Ok::<Sorted, EntityDecoratorError>(
                Sorted {
                    id: match id {
                        Some(n) => Some(n@),
                        None => None,
                    },
                    attrs: names_of(attrs@),
                    to_ones: names_of(to_ones@),
                    to_manys: names_of(to_manys@),
                },
            ),
    {
        let ghost n = it.index() as int;
        let ghost old_attrs = names_of(attrs@);
        let ghost old_ones = names_of(to_ones@);
        let ghost old_manys = names_of(to_manys@);
        proof {
            assert(all.take(n + 1).drop_last() =~= all.take(n));
        }
        let FieldDecl { ty, name } = field;
        match (ty, name) {
            (FieldType::Id, Some(name)) => {
                if id.is_none() {
                    id = Some(name);
                } else {
                    proof {
                        lemma_field_failure_stays(all, n + 1);
                    }
                    return Err(EntityDecoratorError::DuplicatedId);
                }
            },
            (FieldType::Id, None) => {
                proof {
                    lemma_field_failure_stays(all, n + 1);
                }
                return Err(EntityDecoratorError::DuplicatedId);
            },
            (FieldType::ToOne, Some(name)) => {
                let ghost added = name@;
                to_ones.push(name);
                assert(names_of(to_ones@) =~= old_ones.push(added));
            },
            (FieldType::ToMany, Some(name)) => {
                let ghost added = name@;
                to_manys.push(name);
                assert(names_of(to_manys@) =~= old_manys.push(added));
            },
            (FieldType::Plain, Some(name)) => {
                let ghost added = name@;
                attrs.push(name);
                assert(names_of(attrs@) =~= old_attrs.push(added));
            },
            (_, None) => {
                proof {
                    lemma_field_failure_stays(all, n + 1);
                }
                return Err(EntityDecoratorError::FieldWithoutName);
            },
        }
    }
    assert(all.take(fields@.len() as int) =~= all);
    match id {
        Some(id) => Ok(FieldBundle { id, attrs, to_ones, to_manys }),
        None => Err(EntityDecoratorError::InvalidEntityType),
    }
}

/// An item of the description that a domain type carries: a name, where
/// the item gives a value to a name, and the value, where it is text.
#[derive(Clone, Debug, PartialEq, Eq)]
pub struct MetaItem {
    pub name: Option<String>,
    pub value: Option<String>,
}

/// The type name that a list of items gives: the text that its last item
/// gives to the name `type`.
pub open spec fn type_given(items: Seq<MetaItem>) -> Option<Seq<char>> {
    if items.len() == 0 {
        None
    } else {
        match (items.last().name, items.last().value) {
            (Some(name), Some(text)) => if name@ == "type"@ {
                Some(text@)
            } else {
                None
            },
            _ => None,
        }
    }
}

/// The entity type that the descriptions of a domain type give: that of
/// the first description that gives one.
pub open spec fn entity_type_of(lists: Seq<Vec<MetaItem>>) -> Option<Seq<char>>
    decreases lists.len(),
{
    if lists.len() == 0 {
        None
    } else {
        match type_given(lists[0]@) {
            Some(text) => Some(text),
            None => entity_type_of(lists.drop_first()),
        }
    }
}

/// The entity type of a domain type, from the descriptions that it
/// carries. A type that names none is no entity.
pub fn get_entity_type(lists: &Vec<Vec<MetaItem>>) -> (r: Result<String, EntityDecoratorError>)
    ensures
        match r {
            Ok(text) => entity_type_of(lists@) == Some(text@),
            Err(e) => entity_type_of(lists@) is None && e
                == EntityDecoratorError::InvalidEntityType,
        },
{
    let wanted = String::from_str("type");
    let mut i: usize = 0;
    assert(lists@.skip(0) =~= lists@);
    while i < lists.len()
        invariant
            i <= lists.len(),
            wanted@ == "type"@,
            entity_type_of(lists@) == entity_type_of(lists@.skip(i as int)),
        decreases lists.len() - i,
    {
        proof {
            assert(lists@.skip(i as int).drop_first() =~= lists@.skip(i + 1));
        }
        let items = &lists[i];
        if items.len() > 0 {
            let last = &items[items.len() - 1];
            match (&last.name, &last.value) {
                (Some(name), Some(text)) => {
                    if *name == wanted {
                        return Ok(text.clone());
                    }
                },
                _ => {},
            }
        }
        i = i + 1;
    }
    Err(EntityDecoratorError::InvalidEntityType)
}

} // verus!
