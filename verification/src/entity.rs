//! Entities: what a domain object hands to the engine, and how a resource
//! is made of it.

use crate::error::{failure, Error, ErrorKind};
use crate::model::document::{with_resources, Included};
use crate::model::link::{
    links_of_relationship, links_of_resource, relationship_links, resource_links,
};
use crate::model::relationship::{
    identifier_views, relationship_views, IdentifierData, IdentifierDataView, Relationship,
    RelationshipView,
};
use crate::model::resource::{
    is_among, projected, relationship_named, AttributeView, Attributes, IdentifierView, Resource,
    ResourceIdentifier, ResourceView,
};
use crate::query::fields::{fieldset_for, find_fieldset, is_included, FieldSet};
use vstd::prelude::*;
use vstd::string::*;

verus! {

/// A domain object as the engine sees it: its type, its id, its attributes
/// and the entities that its relationship fields lead to.
#[derive(Debug, PartialEq, Eq)]
pub struct Entity {
    pub ty: String,
    pub id: String,
    pub attributes: Attributes,
    pub relations: Vec<Relation>,
}

/// A relationship field of an entity.
#[derive(Clone, Debug, PartialEq, Eq)]
pub struct Relation {
    pub name: String,
    pub targets: Targets,
}

/// What a relationship field leads to: one entity at most, or a list.
#[derive(Clone, Debug, PartialEq, Eq)]
pub enum Targets {
    ToOne(Option<Entity>),
    ToMany(Vec<Entity>),
}

/// Whether two entities are alike: they have the same type, id and
/// attributes, and relationship fields that are alike.
pub open spec fn alike(a: Entity, b: Entity) -> bool
    decreases a, 1int,
{
    &&& a.ty@ == b.ty@
    &&& a.id@ == b.id@
    &&& a.attributes@ == b.attributes@
    &&& a.relations@.len() == b.relations@.len()
    &&& forall|i: int|
        0 <= i < a.relations@.len() ==> alike_fields(#[trigger] a.relations@[i], b.relations@[i])
}

/// Whether two relationship fields are alike: they have the same name, and
/// lead, both to one or both to many, to entities that are alike.
pub open spec fn alike_fields(a: Relation, b: Relation) -> bool
    decreases a, 0int,
{
    &&& a.name@ == b.name@
    &&& (a.targets is ToOne) == (b.targets is ToOne)
    &&& a.targets.list().len() == b.targets.list().len()
    &&& forall|k: int|
        0 <= k < a.targets.list().len() ==> alike(
            #[trigger] a.targets.list()[k],
            b.targets.list()[k],
        )
}

impl Clone for Entity {
    /// A copy of the entity and of everything that it leads to.
    fn clone(&self) -> (out: Self)
        ensures
            alike(*self, out),
        decreases self,
    {
        let mut relations: Vec<Relation> = Vec::new();
        let mut i: usize = 0;
        while i < self.relations.len()
            invariant
                i <= self.relations.len(),
                relations.len() == i,
                forall|j: int|
                    0 <= j < i ==> alike_fields(self.relations@[j], #[trigger] relations@[j]),
            decreases self.relations.len() - i,
        {
            let field = &self.relations[i];
            let targets = match &field.targets {
                Targets::ToOne(Some(e)) => {
                    let copy = e.clone();
                    Targets::ToOne(Some(copy))
                },
                Targets::ToOne(None) => Targets::ToOne(None),
                Targets::ToMany(es) => {
                    let mut copies: Vec<Entity> = Vec::new();
                    let mut k: usize = 0;
                    while k < es.len()
                        invariant
                            k <= es.len(),
                            i < self.relations.len(),
                            self.relations@[i as int].targets == Targets::ToMany(*es),
                            copies.len() == k,
                            forall|j: int| 0 <= j < k ==> alike(es@[j], #[trigger] copies@[j]),
                        decreases es.len() - k,
                    {
                        // the entity holds what the field leads to
                        assert(decreases_to!(self.relations@[i as int].targets => self.relations@[i as int].targets->ToMany_0));
                        copies.push(es[k].clone());
                        k = k + 1;
                    }
                    Targets::ToMany(copies)
                },
            };
            let copy = Relation { name: field.name.clone(), targets };
            relations.push(copy);
            i = i + 1;
        }
        let out = Entity {
            ty: self.ty.clone(),
            id: self.id.clone(),
            attributes: self.attributes.clone(),
            relations,
        };
        out
    }
}

impl Targets {
    /// The entities that the field leads to, as a list.
    pub open spec fn list(&self) -> Seq<Entity> {
        match self {
            Targets::ToOne(Some(e)) => seq![*e],
            Targets::ToOne(None) => Seq::empty(),
            Targets::ToMany(es) => es@,
        }
    }

    /// The identifier data of the field. A to-one field that leads nowhere
    /// has data all the same: it holds no identifier.
    pub open spec fn identifiers(&self) -> IdentifierDataView {
        match self {
            Targets::ToOne(Some(e)) => IdentifierDataView::Single(Some(e.identifier())),
            Targets::ToOne(None) => IdentifierDataView::Single(None),
            Targets::ToMany(es) => IdentifierDataView::Multiple(
                Seq::new(es@.len(), |k: int| es@[k].identifier()),
            ),
        }
    }
}

impl Targets {
    /// The identifier data of the field.
    pub fn identifier_data(&self) -> (out: IdentifierData)
        ensures
            out@ == self.identifiers(),
    {
        match self {
            Targets::ToOne(Some(e)) => IdentifierData::Single(Some(e.to_resource_identifier())),
            Targets::ToOne(None) => IdentifierData::Single(None),
            Targets::ToMany(es) => {
                let mut ids: Vec<ResourceIdentifier> = Vec::new();
                let mut k: usize = 0;
                while k < es.len()
                    invariant
                        k <= es.len(),
                        ids.len() == k,
                        forall|j: int| 0 <= j < k ==> ids@[j]@ == es@[j].identifier(),
                    decreases es.len() - k,
                {
                    ids.push(es[k].to_resource_identifier());
                    k = k + 1;
                }
                assert(identifier_views(ids@) =~= Seq::new(
                    es@.len(),
                    |k: int| es@[k].identifier(),
                ));
                IdentifierData::Multiple(ids)
            },
        }
    }
}

/// The resources that are made of `entities`.
pub open spec fn resources_of(entities: Seq<Entity>, uri: Seq<char>, fields: Seq<FieldSet>) -> Seq<
    ResourceView,
> {
    Seq::new(entities.len(), |k: int| entities[k].resource(uri, fields))
}

impl Entity {
    /// The type and id of the entity.
    pub open spec fn identifier(&self) -> IdentifierView {
        IdentifierView { ty: self.ty@, id: self.id@ }
    }

    /// The attributes that a resource of the entity shows: those that the
    /// fieldset of its type names, or all where there is no such fieldset.
    pub open spec fn shown_attributes(&self, fields: Seq<FieldSet>) -> Seq<AttributeView> {
        match fieldset_for(fields, self.ty@) {
            Some(names) => projected(self.attributes@, names),
            None => self.attributes@,
        }
    }

    /// The relationship that is made of the `i`th relationship field.
    pub open spec fn relationship_at(&self, uri: Seq<char>, i: int) -> RelationshipView {
        RelationshipView {
            name: self.relations@[i].name@,
            data: self.relations@[i].targets.identifiers(),
            links: relationship_links(uri, self.identifier(), self.relations@[i].name@),
        }
    }

    /// The relationships of the entity, one for each relationship field.
    pub open spec fn relationship_list(&self, uri: Seq<char>) -> Seq<RelationshipView> {
        Seq::new(self.relations@.len(), |i: int| self.relationship_at(uri, i))
    }

    /// The resource that is made of the entity.
    pub open spec fn resource(&self, uri: Seq<char>, fields: Seq<FieldSet>) -> ResourceView {
        ResourceView {
            id: self.identifier(),
            attributes: self.shown_attributes(fields),
            relationships: self.relationship_list(uri),
            links: resource_links(uri, self.identifier()),
        }
    }

    /// The resources of the entities that the first `n` relationship fields
    /// lead to, field by field, leaving out the fields that are not walked.
    pub open spec fn related_upto(
        &self,
        n: int,
        uri: Seq<char>,
        includes: Option<Vec<String>>,
        fields: Seq<FieldSet>,
    ) -> Seq<ResourceView>
        decreases n,
    {
        if n <= 0 {
            Seq::empty()
        } else {
            self.related_upto(n - 1, uri, includes, fields) + if is_included(
                includes,
                self.relations@[n - 1].name@,
            ) {
                resources_of(self.relations@[n - 1].targets.list(), uri, fields)
            } else {
                Seq::empty()
            }
        }
    }

    /// The resources of all entities that the walked fields lead to.
    pub open spec fn related(
        &self,
        uri: Seq<char>,
        includes: Option<Vec<String>>,
        fields: Seq<FieldSet>,
    ) -> Seq<ResourceView> {
        self.related_upto(self.relations@.len() as int, uri, includes, fields)
    }

    /// The identifier of the entity.
    pub fn to_resource_identifier(&self) -> (out: ResourceIdentifier)
        ensures
            out@ == self.identifier(),
    {
        ResourceIdentifier { ty: self.ty.clone(), id: self.id.clone() }
    }

    /// The relationships of the entity: for each relationship field the
    /// identifiers of what it leads to and the links of the relationship.
    pub fn relationships(&self, uri: &str) -> (out: Vec<Relationship>)
        ensures
            relationship_views(out@) == self.relationship_list(uri@),
    {
        let mut out: Vec<Relationship> = Vec::new();
        let mut i: usize = 0;
        while i < self.relations.len()
            invariant
                i <= self.relations.len(),
                out.len() == i,
                forall|j: int| 0 <= j < i ==> out@[j]@ == self.relationship_at(uri@, j),
            decreases self.relations.len() - i,
        {
            let field = &self.relations[i];
            out.push(
                Relationship {
                    name: field.name.clone(),
                    data: field.targets.identifier_data(),
                    links: links_of_relationship(
                        uri,
                        self.ty.as_str(),
                        self.id.as_str(),
                        field.name.as_str(),
                    ),
                },
            );
            i = i + 1;
        }
        out
    }

    /// The relationship `name` of the entity, with the identifiers of what
    /// it leads to and nothing more of them. An entity that has no
    /// relationship of that name answers `FieldNotExist`.
    pub fn relationship(&self, name: &str, uri: &str) -> (r: Result<Relationship, Error>)
        ensures
            match r {
                Ok(found) => relationship_named(self.relationship_list(uri@), name@) == Some(
                    found@,
                ),
                Err(e) => relationship_named(self.relationship_list(uri@), name@) is None && e@
                    == failure(ErrorKind::FieldNotExist, name@, Seq::empty()),
            },
    {
        let wanted = String::from_str(name);
        let ghost all = self.relationship_list(uri@);
        let mut i: usize = 0;
        assert(all.skip(0) =~= all);
        while i < self.relations.len()
            invariant
                i <= self.relations.len(),
                wanted@ == name@,
                all == self.relationship_list(uri@),
                relationship_named(all, name@) == relationship_named(all.skip(i as int), name@),
            decreases self.relations.len() - i,
        {
            let field = &self.relations[i];
            proof {
                assert(all.skip(i as int).drop_first() =~= all.skip(i + 1));
            }
            if field.name == wanted {
                return Ok(
                    Relationship {
                        name: field.name.clone(),
                        data: field.targets.identifier_data(),
                        links: links_of_relationship(
                            uri,
                            self.ty.as_str(),
                            self.id.as_str(),
                            field.name.as_str(),
                        ),
                    },
                );
            }
            i = i + 1;
        }
        Err(Error::about(ErrorKind::FieldNotExist, name))
    }

    /// The resource of the entity: its identifier, the attributes that the
    /// fieldset of its type lets through, its relationships and its link.
    pub fn to_resource(&self, uri: &str, fields: &Vec<FieldSet>) -> (out: Resource)
        ensures
            out@ == self.resource(uri@, fields@),
    {
        let attributes = match find_fieldset(fields, &self.ty) {
            Some(names) => self.attributes.project(names),
            None => self.attributes.clone(),
        };
        Resource {
            id: self.to_resource_identifier(),
            attributes,
            relationships: self.relationships(uri),
            links: links_of_resource(uri, self.ty.as_str(), self.id.as_str()),
        }
    }

    /// Adds to `set` the resources of the entities that the relationship
    /// fields lead to, one level deep. Where `includes` is absent every
    /// field is walked, else the fields that it names.
    pub fn include_into(
        &self,
        set: &mut Included,
        uri: &str,
        includes: &Option<Vec<String>>,
        fields: &Vec<FieldSet>,
    )
        ensures
            final(set)@ == with_resources(old(set)@, self.related(uri@, *includes, fields@)),
    {
        let mut i: usize = 0;
        while i < self.relations.len()
            invariant
                i <= self.relations.len(),
                set@ == with_resources(
                    old(set)@,
                    self.related_upto(i as int, uri@, *includes, fields@),
                ),
            decreases self.relations.len() - i,
        {
            let field = &self.relations[i];
            let walked: bool = match includes {
                None => true,
                Some(names) => is_among(names, &field.name),
            };
            let ghost before = self.related_upto(i as int, uri@, *includes, fields@);
            if walked {
                match &field.targets {
                    Targets::ToOne(Some(e)) => {
                        set.insert(e.to_resource(uri, fields));
                        proof {
                            let more = resources_of(field.targets.list(), uri@, fields@);
                            assert((before + more).drop_last() =~= before);
                        }
                    },
                    Targets::ToOne(None) => {},
                    Targets::ToMany(es) => {
                        let mut k: usize = 0;
                        while k < es.len()
                            invariant
                                k <= es.len(),
                                set@ == with_resources(
                                    old(set)@,
                                    before + resources_of(es@.take(k as int), uri@, fields@),
                                ),
                            decreases es.len() - k,
                        {
                            set.insert(es[k].to_resource(uri, fields));
                            proof {
                                let shorter = before + resources_of(
                                    es@.take(k as int),
                                    uri@,
                                    fields@,
                                );
                                let longer = before + resources_of(
                                    es@.take(k + 1),
                                    uri@,
                                    fields@,
                                );
                                assert(longer.drop_last() =~= shorter);
                            }
                            k = k + 1;
                        }
                        assert(es@.take(es.len() as int) =~= es@);
                    },
                }
            }
            i = i + 1;
        }
    }

    /// The related resources of the entity, each of them once.
    pub fn included(&self, uri: &str, includes: &Option<Vec<String>>, fields: &Vec<FieldSet>) -> (out:
        Included)
        ensures
            out@ == with_resources(Seq::empty(), self.related(uri@, *includes, fields@)),
    {
        let mut out = Included::new();
        self.include_into(&mut out, uri, includes, fields);
        out
    }
}

/// The identifier under which a relationship lists a related entity is
/// the identifier of the resource that is made of that entity, whatever
/// the base address and the fieldsets.
pub proof fn lemma_identifier_agrees_with_resource(
    entity: Entity,
    i: int,
    k: int,
    uri: Seq<char>,
    other_uri: Seq<char>,
    fields: Seq<FieldSet>,
)
    requires
        0 <= i < entity.relations@.len(),
        0 <= k < entity.relations@[i].targets.list().len(),
    ensures
        entity.relationship_list(uri)[i].data.list().len()
            == entity.relations@[i].targets.list().len(),
        entity.relationship_list(uri)[i].data.list()[k]
            == entity.relations@[i].targets.list()[k].resource(other_uri, fields).id,
        entity.resource(uri, fields).id == entity.identifier(),
{
}

/// Entities that are alike have relationships that are alike in what they
/// hold.
proof fn lemma_alike_same_relationships(a: Entity, b: Entity, uri: Seq<char>)
    requires
        alike(a, b),
    ensures
        a.relationship_list(uri) == b.relationship_list(uri),
{
    assert forall|i: int| 0 <= i < a.relations@.len() implies a.relationship_at(uri, i)
        == b.relationship_at(uri, i) by {
        let x = a.relations@[i];
        let y = b.relations@[i];
        match (x.targets, y.targets) {
            (Targets::ToOne(Some(e)), Targets::ToOne(Some(f))) => {
                assert(alike(x.targets.list()[0], y.targets.list()[0]));
            },
            (Targets::ToMany(es), Targets::ToMany(fs)) => {
                assert forall|k: int| 0 <= k < es@.len() implies es@[k].identifier()
                    == fs@[k].identifier() by {
                    assert(alike(x.targets.list()[k], y.targets.list()[k]));
                }
                assert(Seq::new(es@.len(), |k: int| es@[k].identifier()) =~= Seq::new(
                    fs@.len(),
                    |k: int| fs@[k].identifier(),
                ));
            },
            _ => {},
        }
    }
}

/// Entities that are alike are the same to the engine: they make the same
/// resource, and lead to the same related resources.
pub proof fn lemma_alike_same_resource(
    a: Entity,
    b: Entity,
    uri: Seq<char>,
    includes: Option<Vec<String>>,
    fields: Seq<FieldSet>,
)
    requires
        alike(a, b),
    ensures
        a.resource(uri, fields) == b.resource(uri, fields),
        a.related(uri, includes, fields) == b.related(uri, includes, fields),
    decreases a,
{
    lemma_alike_same_relationships(a, b, uri);
    lemma_alike_same_related(a, b, a.relations@.len() as int, uri, includes, fields);
}

/// Entities that are alike lead, by their first `n` fields, to the same
/// related resources.
proof fn lemma_alike_same_related(
    a: Entity,
    b: Entity,
    n: int,
    uri: Seq<char>,
    includes: Option<Vec<String>>,
    fields: Seq<FieldSet>,
)
    requires
        alike(a, b),
        0 <= n <= a.relations@.len(),
    ensures
        a.related_upto(n, uri, includes, fields) == b.related_upto(n, uri, includes, fields),
    decreases a, n,
{
    if n > 0 {
        lemma_alike_same_related(a, b, n - 1, uri, includes, fields);
        let x = a.relations@[n - 1];
        let y = b.relations@[n - 1];
        assert forall|k: int| 0 <= k < x.targets.list().len() implies x.targets.list()[k].resource(
            uri,
            fields,
        ) == y.targets.list()[k].resource(uri, fields) by {
            lemma_alike_same_resource(
                x.targets.list()[k],
                y.targets.list()[k],
                uri,
                includes,
                fields,
            );
        }
    }
}

} // verus!
