//! What a request asks of a collection: which related resources to
//! include, which attributes to show, and how to filter, sort and page.

pub mod fields;
pub mod filter;
pub mod page;
pub mod parse;
pub mod sort;

use crate::entity::Entity;
use crate::error::{failure, Error, ErrorKind, ErrorView};
use crate::query::fields::FieldSet;
use crate::query::filter::{filtered, FilterQuery};
use crate::query::page::{paged, PageQuery};
use crate::query::sort::{first_unsortable, lemma_stable_sort_unique, stably_sorted, SortQuery};
use vstd::prelude::*;

verus! {

/// The query of a request.
#[derive(Clone, Debug, PartialEq, Eq)]
pub struct Query {
    /// The relationships to walk for related resources. Where it is absent,
    /// every relationship is walked, one level deep.
    pub includes: Option<Vec<String>>,
    /// The attributes to show, type by type.
    pub fields: Vec<FieldSet>,
    pub sort: SortQuery,
    pub page: Option<PageQuery>,
    pub filter: Option<FilterQuery>,
}

impl Query {
    /// What the filter of the query keeps of `entities`: all of them where
    /// the query has no filter.
    pub open spec fn kept(&self, entities: Seq<Entity>) -> Result<Seq<Entity>, ErrorView> {
        match self.filter {
            Some(filter) => filtered(filter.items(), entities),
            None => Ok(entities),
        }
    }

    /// The page of `entities` that the query asks for: all of them where
    /// the query asks for no page.
    pub open spec fn page_of(&self, entities: Seq<Entity>) -> Result<Seq<Entity>, ErrorView> {
        match self.page {
            Some(page) => paged(page, entities),
            None => Ok(entities),
        }
    }

    /// Whether `chosen` is what the query selects of `entities`: they are
    /// filtered, what is kept is sorted, and of that the page is taken.
    pub open spec fn selects(&self, entities: Seq<Entity>, chosen: Seq<Entity>) -> bool {
        exists|kept: Seq<Entity>, sorted: Seq<Entity>|
            {
                &&& self.kept(entities) == Ok::<Seq<Entity>, ErrorView>(kept)
                &&& first_unsortable(self.sort.0@, kept) is None
                &&& #[trigger] stably_sorted(self.sort.0@, kept, sorted)
                &&& self.page_of(sorted) == Ok::<Seq<Entity>, ErrorView>(chosen)
            }
    }

    /// Whether the query refuses `entities` with `error`: the failure of
    /// the filter, or else that of sorting what was kept, or else that of
    /// paging what was sorted.
    pub open spec fn refuses(&self, entities: Seq<Entity>, error: ErrorView) -> bool {
        match self.kept(entities) {
            Err(e) => error == e,
            Ok(kept) => match first_unsortable(self.sort.0@, kept) {
                Some(name) => error == failure(ErrorKind::FieldNotExist, name, Seq::empty()),
                None => exists|sorted: Seq<Entity>|
                    #[trigger] stably_sorted(self.sort.0@, kept, sorted) && self.page_of(sorted)
                        == Err::<Seq<Entity>, ErrorView>(error),
            },
        }
    }

    /// The entities of a collection that the query selects, in the order in
    /// which a document shows them.
    pub fn apply(&self, entities: Vec<Entity>) -> (r: Result<Vec<Entity>, Error>)
        ensures
            match r {
                Ok(chosen) => self.selects(entities@, chosen@),
                Err(e) => self.refuses(entities@, e@),
            },
    {
        let kept = match &self.filter {
            Some(filter) => filter.filter(entities)?,
            None => entities,
        };
        let sorted = self.sort.sort(kept)?;
        match &self.page {
            Some(page) => page.page(sorted),
            None => Ok(sorted),
        }
    }
}

/// What a query selects of a collection is one sequence of entities, and
/// a query that selects refuses nothing.
pub proof fn lemma_selection_is_one(
    query: Query,
    entities: Seq<Entity>,
    a: Seq<Entity>,
    b: Seq<Entity>,
    error: ErrorView,
)
    requires
        query.selects(entities, a),
    ensures
        query.selects(entities, b) ==> a == b,
        !query.refuses(entities, error),
{
    let (kept, sorted) = choose|kept: Seq<Entity>, sorted: Seq<Entity>|
        {
            &&& query.kept(entities) == Ok::<Seq<Entity>, ErrorView>(kept)
            &&& first_unsortable(query.sort.0@, kept) is None
            &&& #[trigger] stably_sorted(query.sort.0@, kept, sorted)
            &&& query.page_of(sorted) == Ok::<Seq<Entity>, ErrorView>(a)
        };
    if query.selects(entities, b) {
        let (kept2, sorted2) = choose|kept2: Seq<Entity>, sorted2: Seq<Entity>|
            {
                &&& query.kept(entities) == Ok::<Seq<Entity>, ErrorView>(kept2)
                &&& first_unsortable(query.sort.0@, kept2) is None
                &&& #[trigger] stably_sorted(query.sort.0@, kept2, sorted2)
                &&& query.page_of(sorted2) == Ok::<Seq<Entity>, ErrorView>(b)
            };
        lemma_stable_sort_unique(query.sort.0@, kept, sorted, sorted2);
    }
    if query.refuses(entities, error) {
        let other = choose|other: Seq<Entity>|
            #[trigger] stably_sorted(query.sort.0@, kept, other) && query.page_of(other) == Err::<
                Seq<Entity>,
                ErrorView,
            >(error);
        lemma_stable_sort_unique(query.sort.0@, kept, sorted, other);
    }
}

} // verus!
