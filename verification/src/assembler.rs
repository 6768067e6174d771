//! The assembly of compound documents: the resources of the entities that
//! a query selects, and with them, each once, the resources that they are
//! related to.

use crate::entity::{resources_of, Entity};
use crate::error::Error;
use crate::model::document::{
    distinct_ids, lemma_with_resources_concat, lemma_with_resources_distinct,
    lemma_with_resources_holds, with_resources, Document, DocumentItem, Included,
    PrimaryDataItem,
};
use crate::model::link::{link_views, Link, LinkView};
use crate::model::resource::{resource_views, Resource, ResourceView};
use crate::query::fields::FieldSet;
use crate::query::Query;
use vstd::prelude::*;
use vstd::string::*;

verus! {

/// The resources of everything that the entities of a collection are
/// related to, entity by entity, through the relationships that are walked.
pub open spec fn related_of_all(
    entities: Seq<Entity>,
    uri: Seq<char>,
    includes: Option<Vec<String>>,
    fields: Seq<FieldSet>,
) -> Seq<ResourceView>
    decreases entities.len(),
{
    if entities.len() == 0 {
        Seq::empty()
    } else {
        related_of_all(entities.drop_last(), uri, includes, fields) + entities.last().related(
            uri,
            includes,
            fields,
        )
    }
}

/// The related resources that go with a collection: each resource once,
/// the first that was met.
pub open spec fn included_of(
    entities: Seq<Entity>,
    uri: Seq<char>,
    includes: Option<Vec<String>>,
    fields: Seq<FieldSet>,
) -> Seq<ResourceView> {
    with_resources(Seq::empty(), related_of_all(entities, uri, includes, fields))
}

/// The links of a document: to the request that it answers.
pub open spec fn document_links(request_path: Seq<char>) -> Seq<LinkView> {
    seq![LinkView { name: "self"@, href: request_path }]
}

/// Whether `document` shows the collection `chosen`: its primary data are
/// the resources of `chosen`, in their order, and with them come the
/// related resources.
pub open spec fn shows_collection(
    document: Document,
    chosen: Seq<Entity>,
    uri: Seq<char>,
    query: Query,
    request_path: Seq<char>,
) -> bool {
    &&& document.item matches DocumentItem::PrimaryData(
        Some((PrimaryDataItem::Multiple(resources), included)),
    )
    &&& resource_views(resources@) == resources_of(chosen, uri, query.fields@)
    &&& included@ == included_of(chosen, uri, query.includes, query.fields@)
    &&& link_views(document.links@) == document_links(request_path)
}

/// Whether `document` shows the one entity `entity`.
pub open spec fn shows_single(
    document: Document,
    entity: Entity,
    uri: Seq<char>,
    query: Query,
    request_path: Seq<char>,
) -> bool {
    &&& document.item matches DocumentItem::PrimaryData(
        Some((PrimaryDataItem::Single(resource), included)),
    )
    &&& resource@ == entity.resource(uri, query.fields@)
    &&& included@ == included_of(seq![entity], uri, query.includes, query.fields@)
    &&& link_views(document.links@) == document_links(request_path)
}

fn links_to(request_path: &str) -> (out: Vec<Link>)
    ensures
        link_views(out@) == document_links(request_path@),
{
    let mut out: Vec<Link> = Vec::new();
    out.push(Link::new("self", String::from_str(request_path)));
    out
}

/// The document of a collection: the entities that the query selects, as
/// resources, with everything that they are related to. No document is
/// built where the query refuses the collection.
pub fn to_document_automatically(
    entities: Vec<Entity>,
    uri: &str,
    query: &Query,
    request_path: &str,
) -> (r: Result<Document, Error>)
    ensures
        match r {
            Ok(document) => exists|chosen: Seq<Entity>|
                #[trigger] query.selects(entities@, chosen) && shows_collection(
                    document,
                    chosen,
                    uri@,
                    *query,
                    request_path@,
                ),
            Err(e) => query.refuses(entities@, e@),
        },
{
    let chosen = query.apply(entities)?;
    let mut resources: Vec<Resource> = Vec::new();
    let mut included = Included::new();
    let mut i: usize = 0;
    while i < chosen.len()
        invariant
            i <= chosen.len(),
            resources.len() == i,
            forall|k: int|
                0 <= k < i ==> (#[trigger] resources@[k])@ == chosen@[k].resource(
                    uri@,
                    query.fields@,
                ),
            included@ == included_of(
                chosen@.take(i as int),
                uri@,
                query.includes,
                query.fields@,
            ),
        decreases chosen.len() - i,
    {
        let entity = &chosen[i];
        resources.push(entity.to_resource(uri, &query.fields));
        entity.include_into(&mut included, uri, &query.includes, &query.fields);
        proof {
            assert(chosen@.take(i + 1).drop_last() =~= chosen@.take(i as int));
            lemma_with_resources_concat(
                Seq::empty(),
                related_of_all(chosen@.take(i as int), uri@, query.includes, query.fields@),
                entity.related(uri@, query.includes, query.fields@),
            );
        }
        i = i + 1;
    }
    assert(chosen@.take(chosen.len() as int) =~= chosen@);
    assert(resource_views(resources@) =~= resources_of(chosen@, uri@, query.fields@));
    Ok(
        Document {
            item: DocumentItem::PrimaryData(Some((PrimaryDataItem::Multiple(resources), included))),
            links: links_to(request_path),
        },
    )
}

impl Entity {
    /// The document of one entity: its resource, with everything that it is
    /// related to. Filter, sort and page of the query play no part.
    pub fn to_document_automatically(&self, uri: &str, query: &Query, request_path: &str) -> (document:
        Document)
        ensures
            shows_single(document, *self, uri@, *query, request_path@),
    {
        let resource = self.to_resource(uri, &query.fields);
        let included = self.included(uri, &query.includes, &query.fields);
        proof {
            reveal_with_fuel(related_of_all, 2);
        }
        Document {
            item: DocumentItem::PrimaryData(Some((PrimaryDataItem::Single(resource), included))),
            links: links_to(request_path),
        }
    }
}

/// The document of a fetch that found nothing: no primary data, and no
/// related resources.
pub fn empty_document(request_path: &str) -> (document: Document)
    ensures
        document.item == DocumentItem::PrimaryData(None),
        link_views(document.links@) == document_links(request_path@),
{
    Document { item: DocumentItem::PrimaryData(None), links: links_to(request_path) }
}

/// However many entities of a collection lead to a related entity, and by
/// however many relationships, the related resources that go with the
/// collection hold exactly one resource of its type and id.
pub proof fn lemma_included_once(
    entities: Seq<Entity>,
    uri: Seq<char>,
    includes: Option<Vec<String>>,
    fields: Seq<FieldSet>,
    k: int,
)
    requires
        0 <= k < related_of_all(entities, uri, includes, fields).len(),
    ensures
        distinct_ids(included_of(entities, uri, includes, fields)),
        exists|at: int|
            {
                &&& 0 <= at < included_of(entities, uri, includes, fields).len()
                &&& (#[trigger] included_of(entities, uri, includes, fields)[at]).id
                    == related_of_all(entities, uri, includes, fields)[k].id
                &&& forall|other: int|
                    0 <= other < included_of(entities, uri, includes, fields).len() && (
                    #[trigger] included_of(entities, uri, includes, fields)[other]).id
                        == related_of_all(entities, uri, includes, fields)[k].id ==> other == at
            },
{
    let all = related_of_all(entities, uri, includes, fields);
    let set = included_of(entities, uri, includes, fields);
    lemma_with_resources_distinct(Seq::empty(), all);
    lemma_with_resources_holds(Seq::empty(), all, k);
    let at = choose|at: int| 0 <= at < set.len() && (#[trigger] set[at]).id == all[k].id;
    assert forall|other: int| 0 <= other < set.len() && (#[trigger] set[other]).id
        == all[k].id implies other == at by {
        if other < at {
            assert(set[other].id != set[at].id);
        } else if at < other {
            assert(set[at].id != set[other].id);
        }
    }
}

} // verus!
