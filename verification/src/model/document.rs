//! Documents: the primary data of a response, the related resources that
//! come with it, and errors.

use crate::error::Error;
use crate::model::link::Link;
use crate::model::resource::{
    resource_views, IdentifierView, Resource, ResourceIdentifier, ResourceView,
};
use vstd::prelude::*;

verus! {

/// Whether one of `items` is the resource `id`.
pub open spec fn has_id(items: Seq<ResourceView>, id: IdentifierView) -> bool {
    exists|k: int| 0 <= k < items.len() && (#[trigger] items[k]).id == id
}

/// No two of `items` are the same resource.
pub open spec fn distinct_ids(items: Seq<ResourceView>) -> bool {
    forall|i: int, j: int|
        0 <= i < j < items.len() ==> (#[trigger] items[i]).id != (#[trigger] items[j]).id
}

/// `items` with `resource` behind them, unless they hold that resource
/// already: what came first stays.
pub open spec fn with_resource(items: Seq<ResourceView>, resource: ResourceView) -> Seq<
    ResourceView,
> {
    if has_id(items, resource.id) {
        items
    } else {
        items.push(resource)
    }
}

/// `items` with each of `more` added in turn.
pub open spec fn with_resources(items: Seq<ResourceView>, more: Seq<ResourceView>) -> Seq<
    ResourceView,
>
    decreases more.len(),
{
    if more.len() == 0 {
        items
    } else {
        with_resource(with_resources(items, more.drop_last()), more.last())
    }
}

/// Adding resources in two goes is adding them in one.
pub proof fn lemma_with_resources_concat(
    items: Seq<ResourceView>,
    first: Seq<ResourceView>,
    second: Seq<ResourceView>,
)
    ensures
        with_resources(with_resources(items, first), second) == with_resources(
            items,
            first + second,
        ),
    decreases second.len(),
{
    if second.len() > 0 {
        lemma_with_resources_concat(items, first, second.drop_last());
        assert((first + second).drop_last() =~= first + second.drop_last());
    }
}

/// Adding resources to a set in which each resource is once gives such a
/// set again.
pub proof fn lemma_with_resources_distinct(items: Seq<ResourceView>, more: Seq<ResourceView>)
    requires
        distinct_ids(items),
    ensures
        distinct_ids(with_resources(items, more)),
    decreases more.len(),
{
    if more.len() > 0 {
        lemma_with_resources_distinct(items, more.drop_last());
    }
}

/// What a set holds it still holds, at the same place, after resources
/// were added.
pub proof fn lemma_with_resources_keeps(
    items: Seq<ResourceView>,
    more: Seq<ResourceView>,
    k: int,
)
    requires
        0 <= k < items.len(),
    ensures
        k < with_resources(items, more).len(),
        with_resources(items, more)[k] == items[k],
    decreases more.len(),
{
    if more.len() > 0 {
        lemma_with_resources_keeps(items, more.drop_last(), k);
    }
}

/// After resources were added, the set holds each of them by its type and
/// id: the resource itself, or one that was there before it.
pub proof fn lemma_with_resources_holds(
    items: Seq<ResourceView>,
    more: Seq<ResourceView>,
    k: int,
)
    requires
        0 <= k < more.len(),
    ensures
        has_id(with_resources(items, more), more[k].id),
    decreases more.len(),
{
    let front = with_resources(items, more.drop_last());
    if k < more.len() - 1 {
        lemma_with_resources_holds(items, more.drop_last(), k);
        let at = choose|at: int| 0 <= at < front.len() && (#[trigger] front[at]).id == more[k].id;
        assert(with_resources(items, more)[at].id == more[k].id);
    } else if !has_id(front, more[k].id) {
        assert(with_resources(items, more)[front.len() as int].id == more[k].id);
    }
}

/// The related resources of a compound document. Each resource is in it
/// once, however many relationships lead to it.
#[derive(Debug, PartialEq, Eq)]
pub struct Included {
    items: Vec<Resource>,
}

impl View for Included {
    type V = Seq<ResourceView>;

    closed spec fn view(&self) -> Seq<ResourceView> {
        resource_views(self.items@)
    }
}

impl Clone for Included {
    fn clone(&self) -> (out: Self)
        ensures
            out@ == self@,
    {
        proof {
            use_type_invariant(self);
        }
        let items = self.items.clone();
        assert(resource_views(items@) =~= resource_views(self.items@));
        Included { items }
    }
}

impl Included {
    #[verifier::type_invariant]
    spec fn well_formed(&self) -> bool {
        distinct_ids(resource_views(self.items@))
    }

    /// The empty set.
    pub fn new() -> (out: Included)
        ensures
            out@ == Seq::<ResourceView>::empty(),
    {
        let out = Included { items: Vec::new() };
        out
    }

    /// How many resources the set holds.
    pub fn len(&self) -> (n: usize)
        ensures
            n == self@.len(),
    {
        self.items.len()
    }

    /// Whether the set holds the resource `id`.
    pub fn contains(&self, id: &ResourceIdentifier) -> (r: bool)
        ensures
            r == has_id(self@, id@),
    {
        let mut i: usize = 0;
        while i < self.items.len()
            invariant
                i <= self.items.len(),
                forall|k: int| 0 <= k < i ==> (#[trigger] self@[k]).id != id@,
            decreases self.items.len() - i,
        {
            if self.items[i].id.same(id) {
                assert(self@[i as int].id == id@);
                return true;
            }
            i = i + 1;
        }
        false
    }

    /// Adds `resource`, unless the set holds a resource of its type and id
    /// already: then the set stays as it is.
    pub fn insert(&mut self, resource: Resource)
        ensures
            final(self)@ == with_resource(old(self)@, resource@),
    {
        proof {
            use_type_invariant(&*self);
        }
        if !self.contains(&resource.id) {
            let mut items: Vec<Resource> = Vec::new();
            std::mem::swap(&mut items, &mut self.items);
            items.push(resource);
            assert(resource_views(items@) =~= old(self)@.push(resource@));
            self.items = items;
        }
    }

    /// The resources of the set, in the order in which they came. No two of
    /// them have the same type and id.
    pub fn resources(&self) -> (out: &Vec<Resource>)
        ensures
            resource_views(out@) == self@,
            distinct_ids(self@),
    {
        proof {
            use_type_invariant(self);
        }
        &self.items
    }
}

/// The primary data of a document: one resource or a collection.
#[derive(Clone, Debug, PartialEq, Eq)]
pub enum PrimaryDataItem {
    Single(Resource),
    Multiple(Vec<Resource>),
}

impl PrimaryDataItem {
    /// The resources of the primary data, as a list.
    pub open spec fn list(&self) -> Seq<ResourceView> {
        match self {
            PrimaryDataItem::Single(r) => seq![r@],
            PrimaryDataItem::Multiple(rs) => resource_views(rs@),
        }
    }

    /// The resources of the primary data, as a list.
    pub fn data(&self) -> (out: Vec<&Resource>)
        ensures
            out@.len() == self.list().len(),
            forall|i: int| 0 <= i < out@.len() ==> (#[trigger] out@[i])@ == self.list()[i],
    {
        let mut out: Vec<&Resource> = Vec::new();
        match self {
            PrimaryDataItem::Single(r) => {
                out.push(r);
            },
            PrimaryDataItem::Multiple(rs) => {
                let mut i: usize = 0;
                while i < rs.len()
                    invariant
                        i <= rs.len(),
                        out.len() == i,
                        forall|j: int| 0 <= j < i ==> *out@[j] == rs@[j],
                    decreases rs.len() - i,
                {
                    out.push(&rs[i]);
                    i = i + 1;
                }
            },
        }
        out
    }
}

/// What a document holds: primary data, which may be empty, together with
/// the related resources, or errors.
#[derive(Clone, Debug, PartialEq, Eq)]
pub enum DocumentItem {
    PrimaryData(Option<(PrimaryDataItem, Included)>),
    Errors(Vec<Error>),
}

/// A document.
#[derive(Clone, Debug, PartialEq, Eq)]
pub struct Document {
    pub item: DocumentItem,
    pub links: Vec<Link>,
}

} // verus!
