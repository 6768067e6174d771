//! Paging: the part of a collection that a request asks for, by page number
//! or relative to one of its entities.

use crate::entity::Entity;
use crate::error::{failure, Error, ErrorKind, ErrorView};
use vstd::prelude::*;
use vstd::string::*;

verus! {

/// A page by its number, the first page being page 1, and its size.
#[derive(Clone, Debug, PartialEq, Eq)]
pub struct OffsetBasedData {
    pub number: usize,
    pub size: usize,
}

/// A page by the entity next to which it lies: up to `limit` entities
/// directly after the entity `target_id`, or directly before it.
#[derive(Clone, Debug, PartialEq, Eq)]
pub struct CursorBasedData {
    pub target_id: String,
    pub is_look_after: bool,
    pub limit: usize,
}

/// The page that a request asks for.
#[derive(Clone, Debug, PartialEq, Eq)]
pub enum PageQuery {
    OffsetBased(OffsetBasedData),
    CursorBased(CursorBasedData),
}

/// The page that a request asks for, as a plain value.
pub enum PageView {
    OffsetBased { number: usize, size: usize },
    CursorBased { target_id: Seq<char>, is_look_after: bool, limit: usize },
}

impl View for PageQuery {
    type V = PageView;

    open spec fn view(&self) -> PageView {
        match self {
            PageQuery::OffsetBased(data) => PageView::OffsetBased {
                number: data.number,
                size: data.size,
            },
            PageQuery::CursorBased(data) => PageView::CursorBased {
                target_id: data.target_id@,
                is_look_after: data.is_look_after,
                limit: data.limit,
            },
        }
    }
}

/// The entities of `entities` from place `from` up to, not including, place
/// `to`, as far as the collection reaches.
pub open spec fn window(entities: Seq<Entity>, from: int, to: int) -> Seq<Entity> {
    let first = if from < 0 {
        0
    } else if from > entities.len() {
        entities.len() as int
    } else {
        from
    };
    let end = if to < first {
        first
    } else if to > entities.len() {
        entities.len() as int
    } else {
        to
    };
    entities.subrange(first, end)
}

/// The place of the first entity of `entities` whose id is `id`.
pub open spec fn index_of_id(entities: Seq<Entity>, id: Seq<char>) -> Option<int>
    decreases entities.len(),
{
    if entities.len() == 0 {
        None
    } else {
        match index_of_id(entities.drop_last(), id) {
            Some(i) => Some(i),
            None => if entities.last().id@ == id {
                Some(entities.len() - 1)
            } else {
                None
            },
        }
    }
}

/// The page of `entities` that `page` asks for.
///
/// Page `number` of size `size` holds the entities from place
/// `(number - 1) * size` up to place `number * size`; a page beyond the end
/// of the collection is empty. There is no page 0: it is `MalformedQuery`.
/// A page by cursor holds the `limit` entities next to the first entity with
/// the id `target_id`, that entity left out, and is `CursorTargetNotFound`
/// where no entity has that id.
pub open spec fn paged(page: PageQuery, entities: Seq<Entity>) -> Result<Seq<Entity>, ErrorView> {
    match page {
        PageQuery::OffsetBased(data) => if data.number == 0 {
            Err(failure(ErrorKind::MalformedQuery, "page[number]"@, "0"@))
        } else {
            Ok(window(entities, (data.number - 1) * data.size, data.number * data.size))
        },
        PageQuery::CursorBased(data) => match index_of_id(entities, data.target_id@) {
            None => Err(failure(ErrorKind::CursorTargetNotFound, data.target_id@, Seq::empty())),
            Some(at) => Ok(
                if data.is_look_after {
                    window(entities, at + 1, at + 1 + data.limit)
                } else {
                    window(entities, at - data.limit, at)
                },
            ),
        },
    }
}

/// A page beyond the end of a collection is empty: it is no failure.
pub proof fn lemma_page_past_the_end(data: OffsetBasedData, entities: Seq<Entity>)
    requires
        data.number >= 1,
        (data.number - 1) * data.size >= entities.len(),
    ensures
        paged(PageQuery::OffsetBased(data), entities) == Ok::<Seq<Entity>, ErrorView>(
            Seq::empty(),
        ),
{
    assert(window(entities, (data.number - 1) * data.size, data.number * data.size)
        =~= Seq::<Entity>::empty());
}

/// The place of the first entity whose id is `id`.
pub fn find_by_id(entities: &Vec<Entity>, id: &String) -> (r: Option<usize>)
    ensures
        match r {
            Some(at) => index_of_id(entities@, id@) == Some(at as int) && at < entities.len(),
            None => index_of_id(entities@, id@) is None,
        },
{
    let mut i: usize = 0;
    while i < entities.len()
        invariant
            i <= entities.len(),
            index_of_id(entities@.take(i as int), id@) is None,
        decreases entities.len() - i,
    {
        proof {
            assert(entities@.take(i + 1).drop_last() =~= entities@.take(i as int));
        }
        if entities[i].id == *id {
            proof {
                lemma_index_found_stays(entities@, id@, i + 1);
            }
            return Some(i);
        }
        i = i + 1;
    }
    assert(entities@.take(entities.len() as int) =~= entities@);
    None
}

/// An entity that is found in a part of a collection, from its start, is
/// found at the same place in the whole collection.
pub proof fn lemma_index_found_stays(entities: Seq<Entity>, id: Seq<char>, n: int)
    requires
        0 <= n <= entities.len(),
        index_of_id(entities.take(n), id) is Some,
    ensures
        index_of_id(entities, id) == index_of_id(entities.take(n), id),
    decreases entities.len() - n,
{
    if n < entities.len() {
        assert(entities.take(n + 1).drop_last() =~= entities.take(n));
        lemma_index_found_stays(entities, id, n + 1);
    } else {
        assert(entities.take(n) =~= entities);
    }
}

/// The entities from place `from` up to place `to`.
fn cut(entities: Vec<Entity>, from: usize, to: usize) -> (out: Vec<Entity>)
    requires
        from <= to <= entities.len(),
    ensures
        out@ == entities@.subrange(from as int, to as int),
{
    let mut rest = entities;
    rest.truncate(to);
    let out = rest.split_off(from);
    out
}

impl PageQuery {
    /// The page of `entities` that the query asks for.
    pub fn page(&self, entities: Vec<Entity>) -> (r: Result<Vec<Entity>, Error>)
        ensures
            match r {
                Ok(page) => paged(*self, entities@) == Ok::<Seq<Entity>, ErrorView>(page@),
                Err(e) => paged(*self, entities@) == Err::<Seq<Entity>, ErrorView>(e@),
            },
    {
        let len: usize = entities.len();
        match self {
            PageQuery::OffsetBased(data) => {
                if data.number == 0 {
                    return Err(Error::new(ErrorKind::MalformedQuery, "page[number]", "0"));
                }
                let from: usize = match (data.number - 1).checked_mul(data.size) {
                    Some(start) => if start > len {
                        len
                    } else {
                        start
                    },
                    None => len,
                };
                let to: usize = match data.number.checked_mul(data.size) {
                    Some(end) => if end > len {
                        len
                    } else {
                        end
                    },
                    None => len,
                };
                proof {
                    assert((data.number - 1) * data.size <= data.number * data.size)
                        by (nonlinear_arith)
                        requires
                            data.number >= 1,
                            data.size >= 0,
                    ;
                }
                Ok(cut(entities, from, to))
            },
            PageQuery::CursorBased(data) => {
                match find_by_id(&entities, &data.target_id) {
                    None => Err(
                        Error::about(ErrorKind::CursorTargetNotFound, data.target_id.as_str()),
                    ),
                    Some(at) => {
                        if data.is_look_after {
                            let from: usize = at + 1;
                            let to: usize = match from.checked_add(data.limit) {
                                Some(end) => if end > len {
                                    len
                                } else {
                                    end
                                },
                                None => len,
                            };
                            Ok(cut(entities, from, to))
                        } else {
                            let from: usize = if data.limit > at {
                                0
                            } else {
                                at - data.limit
                            };
                            Ok(cut(entities, from, at))
                        }
                    },
                }
            },
        }
    }
}

} // verus!
