//! Relationships: what a resource says of the resources it is linked to.

use crate::model::link::{link_views, Link, LinkView};
use crate::model::resource::{IdentifierView, ResourceIdentifier};
use vstd::prelude::*;

verus! {

/// The resources that a relationship leads to, by their identifiers: one at
/// most for a to-one relationship, a list for a to-many relationship.
#[derive(Debug, PartialEq, Eq)]
pub enum IdentifierData {
    Single(Option<ResourceIdentifier>),
    Multiple(Vec<ResourceIdentifier>),
}

/// Identifier data as a plain value.
pub enum IdentifierDataView {
    Single(Option<IdentifierView>),
    Multiple(Seq<IdentifierView>),
}

/// The identifiers of `items` as plain values.
pub open spec fn identifier_views(items: Seq<ResourceIdentifier>) -> Seq<IdentifierView> {
    Seq::new(items.len(), |i: int| items[i]@)
}

impl View for IdentifierData {
    type V = IdentifierDataView;

    open spec fn view(&self) -> IdentifierDataView {
        match self {
            IdentifierData::Single(Some(id)) => IdentifierDataView::Single(Some(id@)),
            IdentifierData::Single(None) => IdentifierDataView::Single(None),
            IdentifierData::Multiple(ids) => IdentifierDataView::Multiple(identifier_views(ids@)),
        }
    }
}

impl IdentifierDataView {
    /// The identifiers that the data holds, as a list.
    pub open spec fn list(self) -> Seq<IdentifierView> {
        match self {
            IdentifierDataView::Single(Some(id)) => seq![id],
            IdentifierDataView::Single(None) => Seq::empty(),
            IdentifierDataView::Multiple(ids) => ids,
        }
    }
}

impl Clone for IdentifierData {
    fn clone(&self) -> (out: Self)
        ensures
            out@ == self@,
    {
        match self {
            IdentifierData::Single(Some(id)) => IdentifierData::Single(Some(id.clone())),
            IdentifierData::Single(None) => IdentifierData::Single(None),
            IdentifierData::Multiple(ids) => {
                let out = ids.clone();
                assert(identifier_views(out@) =~= identifier_views(ids@));
                IdentifierData::Multiple(out)
            },
        }
    }
}

impl IdentifierData {
    /// The identifiers that the data holds, as a list.
    pub fn data(&self) -> (out: Vec<ResourceIdentifier>)
        ensures
            identifier_views(out@) == self@.list(),
    {
        let mut out: Vec<ResourceIdentifier> = Vec::new();
        match self {
            IdentifierData::Single(Some(id)) => {
                out.push(id.clone());
            },
            IdentifierData::Single(None) => {},
            IdentifierData::Multiple(ids) => {
                let mut i: usize = 0;
                while i < ids.len()
                    invariant
                        i <= ids.len(),
                        out.len() == i,
                        forall|j: int| 0 <= j < i ==> out@[j]@ == ids@[j]@,
                    decreases ids.len() - i,
                {
                    out.push(ids[i].clone());
                    i = i + 1;
                }
            },
        }
        out
    }
}

/// A relationship of a resource, under the name of the field that holds it.
#[derive(Debug, PartialEq, Eq)]
pub struct Relationship {
    pub name: String,
    pub data: IdentifierData,
    pub links: Vec<Link>,
}

/// A relationship as a plain value.
pub struct RelationshipView {
    pub name: Seq<char>,
    pub data: IdentifierDataView,
    pub links: Seq<LinkView>,
}

impl View for Relationship {
    type V = RelationshipView;

    open spec fn view(&self) -> RelationshipView {
        RelationshipView { name: self.name@, data: self.data@, links: link_views(self.links@) }
    }
}

impl Clone for Relationship {
    fn clone(&self) -> (out: Self)
        ensures
            out@ == self@,
    {
        let links = self.links.clone();
        assert(link_views(links@) =~= link_views(self.links@));
        Relationship { name: self.name.clone(), data: self.data.clone(), links }
    }
}

/// The relationships of `items` as plain values.
pub open spec fn relationship_views(items: Seq<Relationship>) -> Seq<RelationshipView> {
    Seq::new(items.len(), |i: int| items[i]@)
}

} // verus!
