//! Resources: what identifies them and the attributes they carry.

use crate::error::{failure, Error, ErrorKind};
use crate::model::link::{link_views, Link, LinkView};
use crate::model::relationship::{relationship_views, Relationship, RelationshipView};
use vstd::prelude::*;
use vstd::string::*;

verus! {

/// The pair of type and id by which a resource is known.
#[derive(Debug, PartialEq, Eq)]
pub struct ResourceIdentifier {
    pub ty: String,
    pub id: String,
}

/// A resource identifier as a plain value.
pub struct IdentifierView {
    pub ty: Seq<char>,
    pub id: Seq<char>,
}

impl View for ResourceIdentifier {
    type V = IdentifierView;

    open spec fn view(&self) -> IdentifierView {
        IdentifierView { ty: self.ty@, id: self.id@ }
    }
}

impl Clone for ResourceIdentifier {
    fn clone(&self) -> (out: Self)
        ensures
            out@ == self@,
    {
        ResourceIdentifier { ty: self.ty.clone(), id: self.id.clone() }
    }
}

impl ResourceIdentifier {
    /// The identifier of the resource `id` of the type `ty`.
    pub fn new(ty: &str, id: &str) -> (out: Self)
        ensures
            out@ == (IdentifierView { ty: ty@, id: id@ }),
    {
        ResourceIdentifier { ty: String::from_str(ty), id: String::from_str(id) }
    }

    /// Whether two identifiers name the same resource.
    pub fn same(&self, other: &ResourceIdentifier) -> (r: bool)
        ensures
            r == (self@ == other@),
    {
        self.ty == other.ty && self.id == other.id
    }
}

/// The value of an attribute. Integers, truth values and text are compared
/// by the engine; whatever else a domain object holds is carried along as
/// the text that writes it.
#[derive(Debug, PartialEq, Eq)]
pub enum AttributeValue {
    Null,
    Bool(bool),
    Integer(i64),
    Text(String),
    Other(String),
}

/// An attribute value as a plain value.
pub enum ValueView {
    Null,
    Bool(bool),
    Integer(i64),
    Text(Seq<char>),
    Other(Seq<char>),
}

impl View for AttributeValue {
    type V = ValueView;

    open spec fn view(&self) -> ValueView {
        match self {
            AttributeValue::Null => ValueView::Null,
            AttributeValue::Bool(b) => ValueView::Bool(*b),
            AttributeValue::Integer(n) => ValueView::Integer(*n),
            AttributeValue::Text(s) => ValueView::Text(s@),
            AttributeValue::Other(s) => ValueView::Other(s@),
        }
    }
}

impl Clone for AttributeValue {
    fn clone(&self) -> (out: Self)
        ensures
            out@ == self@,
    {
        match self {
            AttributeValue::Null => AttributeValue::Null,
            AttributeValue::Bool(b) => AttributeValue::Bool(*b),
            AttributeValue::Integer(n) => AttributeValue::Integer(*n),
            AttributeValue::Text(s) => AttributeValue::Text(s.clone()),
            AttributeValue::Other(s) => AttributeValue::Other(s.clone()),
        }
    }
}

/// A named value.
#[derive(Debug, PartialEq, Eq)]
pub struct Attribute {
    pub name: String,
    pub value: AttributeValue,
}

/// An attribute as a plain value.
pub struct AttributeView {
    pub name: Seq<char>,
    pub value: ValueView,
}

impl View for Attribute {
    type V = AttributeView;

    open spec fn view(&self) -> AttributeView {
        AttributeView { name: self.name@, value: self.value@ }
    }
}

impl Clone for Attribute {
    fn clone(&self) -> (out: Self)
        ensures
            out@ == self@,
    {
        Attribute { name: self.name.clone(), value: self.value.clone() }
    }
}

impl Attribute {
    /// The attribute `name` with the value `value`.
    pub fn new(name: &str, value: AttributeValue) -> (out: Self)
        ensures
            out@ == (AttributeView { name: name@, value: value@ }),
    {
        Attribute { name: String::from_str(name), value }
    }
}

/// The attributes of an entity or a resource, in the order in which they
/// were given. Where a name occurs twice, the first occurrence counts.
#[derive(Debug, PartialEq, Eq)]
pub struct Attributes(pub Vec<Attribute>);

impl View for Attributes {
    type V = Seq<AttributeView>;

    open spec fn view(&self) -> Seq<AttributeView> {
        attribute_views(self.0@)
    }
}

/// The attributes of `items` as plain values.
pub open spec fn attribute_views(items: Seq<Attribute>) -> Seq<AttributeView> {
    Seq::new(items.len(), |i: int| items[i]@)
}

/// The value that `attrs` gives to `name`: that of the first attribute of
/// that name.
pub open spec fn lookup(attrs: Seq<AttributeView>, name: Seq<char>) -> Option<ValueView>
    decreases attrs.len(),
{
    if attrs.len() == 0 {
        None
    } else if attrs[0].name == name {
        Some(attrs[0].value)
    } else {
        lookup(attrs.drop_first(), name)
    }
}

/// The attributes of `attrs` whose names are among `names`, in their order.
pub open spec fn projected(attrs: Seq<AttributeView>, names: Seq<Seq<char>>) -> Seq<AttributeView> {
    attrs.filter(|a: AttributeView| names.contains(a.name))
}

/// The names that `names` holds, as plain values.
pub open spec fn names_of(names: Seq<String>) -> Seq<Seq<char>> {
    Seq::new(names.len(), |i: int| names[i]@)
}

/// Whether `name` is one of `names`.
pub fn is_among(names: &Vec<String>, name: &String) -> (r: bool)
    ensures
        r == names_of(names@).contains(name@),
{
    let mut i: usize = 0;
    while i < names.len()
        invariant
            i <= names.len(),
            forall|j: int| 0 <= j < i ==> names_of(names@)[j] != name@,
        decreases names.len() - i,
    {
        if names[i] == *name {
            assert(names_of(names@)[i as int] == name@);
            return true;
        }
        i = i + 1;
    }
    false
}

impl Clone for Attributes {
    fn clone(&self) -> (out: Self)
        ensures
            out@ == self@,
    {
        let items = self.0.clone();
        Attributes(items)
    }
}

impl Attributes {
    /// No attributes.
    pub fn new() -> (out: Self)
        ensures
            out@ == Seq::<AttributeView>::empty(),
    {
        let out = Attributes(Vec::new());
        out
    }

    /// The value of the attribute `name`, or `FieldNotExist` where the
    /// entity has no such attribute.
    pub fn get_field(&self, name: &str) -> (r: Result<&AttributeValue, Error>)
        ensures
            match r {
                Ok(value) => lookup(self@, name@) == Some(value@),
                Err(e) => lookup(self@, name@) is None && e@ == failure(
                    ErrorKind::FieldNotExist,
                    name@,
                    Seq::empty(),
                ),
            },
    {
        let wanted = String::from_str(name);
        let mut i: usize = 0;
        assert(self@.skip(0) =~= self@);
        while i < self.0.len()
            invariant
                i <= self.0.len(),
                wanted@ == name@,
                lookup(self@, name@) == lookup(self@.skip(i as int), name@),
            decreases self.0.len() - i,
        {
            assert(self@.skip(i as int).drop_first() =~= self@.skip(i + 1));
            if self.0[i].name == wanted {
                return Ok(&self.0[i].value);
            }
            i = i + 1;
        }
        Err(Error::about(ErrorKind::FieldNotExist, name))
    }

    /// The sparse fieldset: the attributes whose names are among `names`.
    pub fn project(&self, names: &Vec<String>) -> (out: Attributes)
        ensures
            out@ == projected(self@, names_of(names@)),
    {
        let ghost keep = |a: AttributeView| names_of(names@).contains(a.name);
        let mut items: Vec<Attribute> = Vec::new();
        let mut i: usize = 0;
        while i < self.0.len()
            invariant
                i <= self.0.len(),
                keep == |a: AttributeView| names_of(names@).contains(a.name),
                attribute_views(items@) == self@.take(i as int).filter(keep),
            decreases self.0.len() - i,
        {
            proof {
                assert(self@.take(i + 1).drop_last() =~= self@.take(i as int));
                reveal(Seq::filter);
            }
            if is_among(names, &self.0[i].name) {
                items.push(self.0[i].clone());
            }
            i = i + 1;
        }
        assert(self@.take(self.0.len() as int) =~= self@);
        Attributes(items)
    }
}

/// A resource: an entity as a document shows it.
#[derive(Debug, PartialEq, Eq)]
pub struct Resource {
    pub id: ResourceIdentifier,
    pub attributes: Attributes,
    pub relationships: Vec<Relationship>,
    pub links: Vec<Link>,
}

/// A resource as a plain value.
pub struct ResourceView {
    pub id: IdentifierView,
    pub attributes: Seq<AttributeView>,
    pub relationships: Seq<RelationshipView>,
    pub links: Seq<LinkView>,
}

impl View for Resource {
    type V = ResourceView;

    open spec fn view(&self) -> ResourceView {
        ResourceView {
            id: self.id@,
            attributes: self.attributes@,
            relationships: relationship_views(self.relationships@),
            links: link_views(self.links@),
        }
    }
}

impl Clone for Resource {
    fn clone(&self) -> (out: Self)
        ensures
            out@ == self@,
    {
        let relationships = self.relationships.clone();
        assert(relationship_views(relationships@) =~= relationship_views(self.relationships@));
        let links = self.links.clone();
        assert(link_views(links@) =~= link_views(self.links@));
        Resource {
            id: self.id.clone(),
            attributes: self.attributes.clone(),
            relationships,
            links,
        }
    }
}

/// The resources of `items` as plain values.
pub open spec fn resource_views(items: Seq<Resource>) -> Seq<ResourceView> {
    Seq::new(items.len(), |i: int| items[i]@)
}

/// The relationship that `items` holds under `name`: the first of that name.
pub open spec fn relationship_named(items: Seq<RelationshipView>, name: Seq<char>) -> Option<
    RelationshipView,
>
    decreases items.len(),
{
    if items.len() == 0 {
        None
    } else if items[0].name == name {
        Some(items[0])
    } else {
        relationship_named(items.drop_first(), name)
    }
}

impl Resource {
    /// The relationship of the resource that is called `name`.
    pub fn relationship(&self, name: &str) -> (r: Option<&Relationship>)
        ensures
            match r {
                Some(found) => relationship_named(self@.relationships, name@) == Some(found@),
                None => relationship_named(self@.relationships, name@) is None,
            },
    {
        let wanted = String::from_str(name);
        let ghost all = self@.relationships;
        let mut i: usize = 0;
        assert(all.skip(0) =~= all);
        while i < self.relationships.len()
            invariant
                i <= self.relationships.len(),
                wanted@ == name@,
                all == relationship_views(self.relationships@),
                relationship_named(all, name@) == relationship_named(all.skip(i as int), name@),
            decreases self.relationships.len() - i,
        {
            assert(all.skip(i as int).drop_first() =~= all.skip(i + 1));
            if self.relationships[i].name == wanted {
                return Some(&self.relationships[i]);
            }
            i = i + 1;
        }
        None
    }
}

} // verus!
