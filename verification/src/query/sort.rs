//! Sorting: a stable order of a collection by a list of attributes.

use crate::compare::{lemma_rank_chains, lemma_rank_reverses, rank_of_values, Rank};
use crate::entity::Entity;
use crate::error::{failure, Error, ErrorKind};
use crate::model::resource::{lookup, AttributeValue, AttributeView, ValueView};
use vstd::prelude::*;
use vstd::string::*;

verus! {

/// The direction of a sort key.
#[derive(Clone, Copy, Debug, PartialEq, Eq, Structural)]
pub enum OrderType {
    Asc,
    Desc,
}

/// The attributes to sort by, the most significant first, each with its
/// direction.
#[derive(Clone, Debug, PartialEq, Eq)]
pub struct SortQuery(pub Vec<(String, OrderType)>);

/// The value of an attribute, or null for an attribute that is not there.
pub open spec fn value_or_null(value: Option<ValueView>) -> ValueView {
    match value {
        Some(v) => v,
        None => ValueView::Null,
    }
}

/// A rank in the given direction.
pub open spec fn directed(rank: Rank, order: OrderType) -> Rank {
    match order {
        OrderType::Asc => rank,
        OrderType::Desc => rank.reversed(),
    }
}

/// Where the attributes `a` stand relative to `b` by one sort key.
pub open spec fn rank_by_key(key: (String, OrderType), a: Seq<AttributeView>, b: Seq<AttributeView>)
    -> Rank {
    directed(
        rank_of_values(value_or_null(lookup(a, key.0@)), value_or_null(lookup(b, key.0@))),
        key.1,
    )
}

/// Where the attributes `a` stand relative to `b` by a list of sort keys:
/// the first key by which they differ decides.
pub open spec fn rank_by_keys(
    keys: Seq<(String, OrderType)>,
    a: Seq<AttributeView>,
    b: Seq<AttributeView>,
) -> Rank
    decreases keys.len(),
{
    if keys.len() == 0 {
        Rank::Same
    } else if rank_by_key(keys[0], a, b) != Rank::Same {
        rank_by_key(keys[0], a, b)
    } else {
        rank_by_keys(keys.drop_first(), a, b)
    }
}

/// Whether `v` is one of the numbers that `p` lists.
pub open spec fn occurs(p: Seq<int>, v: int) -> bool {
    exists|i: int| 0 <= i < p.len() && #[trigger] p[i] == v
}

/// Whether `p` lists each of the numbers below `n`, and each of them once.
pub open spec fn is_permutation(p: Seq<int>, n: int) -> bool {
    &&& p.len() == n
    &&& forall|i: int| 0 <= i < p.len() ==> 0 <= #[trigger] p[i] < n
    &&& forall|i: int, j: int| 0 <= i < j < p.len() ==> #[trigger] p[i] != #[trigger] p[j]
    &&& forall|v: int| 0 <= v < n ==> #[trigger] occurs(p, v)
}

/// Whether `output` is `input` in the order of `keys`, with `p` telling for
/// each place of `output` the place in `input` that its entity comes from.
/// Entities that rank the same stand as they stood in `input`.
pub open spec fn sorted_by(
    keys: Seq<(String, OrderType)>,
    input: Seq<Entity>,
    output: Seq<Entity>,
    p: Seq<int>,
) -> bool {
    &&& is_permutation(p, input.len() as int)
    &&& output.len() == input.len()
    &&& forall|i: int| 0 <= i < output.len() ==> #[trigger] output[i] == input[p[i]]
    &&& forall|i: int, j: int|
        0 <= i < j < output.len() ==> {
            let rank = rank_by_keys(
                keys,
                (#[trigger] output[i]).attributes@,
                (#[trigger] output[j]).attributes@,
            );
            rank == Rank::Before || (rank == Rank::Same && p[i] < p[j])
        }
}

/// Whether `output` is the stable sort of `input` by `keys`.
pub open spec fn stably_sorted(
    keys: Seq<(String, OrderType)>,
    input: Seq<Entity>,
    output: Seq<Entity>,
) -> bool {
    exists|p: Seq<int>| sorted_by(keys, input, output, p)
}

/// The first of `keys` that names an attribute which is not among `attrs`.
pub open spec fn first_missing(keys: Seq<(String, OrderType)>, attrs: Seq<AttributeView>) -> Option<
    Seq<char>,
>
    decreases keys.len(),
{
    if keys.len() == 0 {
        None
    } else if lookup(attrs, keys[0].0@) is None {
        Some(keys[0].0@)
    } else {
        first_missing(keys.drop_first(), attrs)
    }
}

/// The sort key that stands in the way of sorting `entities`: the first key
/// that the first entity lacking one lacks. A collection can be sorted only
/// by attributes that all its entities have.
pub open spec fn first_unsortable(keys: Seq<(String, OrderType)>, entities: Seq<Entity>) -> Option<
    Seq<char>,
>
    decreases entities.len(),
{
    if entities.len() == 0 {
        None
    } else {
        match first_missing(keys, entities[0].attributes@) {
            Some(name) => Some(name),
            None => first_unsortable(keys, entities.drop_first()),
        }
    }
}

/// Seen from the other side the rank by a list of keys is reversed.
pub proof fn lemma_rank_by_keys_reverses(
    keys: Seq<(String, OrderType)>,
    a: Seq<AttributeView>,
    b: Seq<AttributeView>,
)
    ensures
        rank_by_keys(keys, b, a) == rank_by_keys(keys, a, b).reversed(),
    decreases keys.len(),
{
    if keys.len() > 0 {
        lemma_rank_reverses(
            value_or_null(lookup(a, keys[0].0@)),
            value_or_null(lookup(b, keys[0].0@)),
        );
        lemma_rank_by_keys_reverses(keys.drop_first(), a, b);
    }
}

/// Ranks by a list of keys chain as ranks of values do.
pub proof fn lemma_rank_by_keys_chains(
    keys: Seq<(String, OrderType)>,
    a: Seq<AttributeView>,
    b: Seq<AttributeView>,
    c: Seq<AttributeView>,
)
    ensures
        rank_by_keys(keys, a, b) == Rank::Same ==> rank_by_keys(keys, a, c) == rank_by_keys(
            keys,
            b,
            c,
        ),
        rank_by_keys(keys, b, c) == Rank::Same ==> rank_by_keys(keys, a, c) == rank_by_keys(
            keys,
            a,
            b,
        ),
        rank_by_keys(keys, a, b) == Rank::Before && rank_by_keys(keys, b, c) == Rank::Before
            ==> rank_by_keys(keys, a, c) == Rank::Before,
        rank_by_keys(keys, a, b) == Rank::After && rank_by_keys(keys, b, c) == Rank::After
            ==> rank_by_keys(keys, a, c) == Rank::After,
    decreases keys.len(),
{
    if keys.len() > 0 {
        lemma_rank_chains(
            value_or_null(lookup(a, keys[0].0@)),
            value_or_null(lookup(b, keys[0].0@)),
            value_or_null(lookup(c, keys[0].0@)),
        );
        lemma_rank_by_keys_chains(keys.drop_first(), a, b, c);
    }
}

/// Putting the next entity of `input` behind the last entity of `output`
/// that does not rank after it keeps `output` sorted.
proof fn lemma_insert_keeps_sorted(
    keys: Seq<(String, OrderType)>,
    input: Seq<Entity>,
    output: Seq<Entity>,
    p: Seq<int>,
    n: int,
    pos: int,
)
    requires
        0 <= n < input.len(),
        sorted_by(keys, input.take(n), output, p),
        0 <= pos <= output.len(),
        pos > 0 ==> rank_by_keys(keys, output[pos - 1].attributes@, input[n].attributes@)
            != Rank::After,
        forall|j: int|
            pos <= j < output.len() ==> rank_by_keys(
                keys,
                (#[trigger] output[j]).attributes@,
                input[n].attributes@,
            ) == Rank::After,
    ensures
        sorted_by(keys, input.take(n + 1), output.insert(pos, input[n]), p.insert(pos, n)),
{
    let x = input[n];
    let longer = output.insert(pos, x);
    let q = p.insert(pos, n);
    // the places before `pos` stay, those from `pos` on move up by one
    assert forall|i: int| 0 <= i < q.len() implies 0 <= #[trigger] q[i] < n + 1 by {
        assert(q[i] == if i < pos { p[i] } else if i == pos { n } else { p[i - 1] });
    }
    assert forall|i: int, j: int| 0 <= i < j < q.len() implies #[trigger] q[i] != #[trigger] q[j] by {
        assert(q[i] == if i < pos { p[i] } else if i == pos { n } else { p[i - 1] });
        assert(q[j] == if j < pos { p[j] } else if j == pos { n } else { p[j - 1] });
    }
    assert forall|v: int| 0 <= v < n + 1 implies #[trigger] occurs(q, v) by {
        if v < n {
            assert(occurs(p, v));
            let i = choose|i: int| 0 <= i < p.len() && #[trigger] p[i] == v;
            if i < pos {
                assert(q[i] == v);
            } else {
                assert(q[i + 1] == v);
            }
        } else {
            assert(q[pos] == v);
        }
    }
    assert forall|i: int| 0 <= i < longer.len() implies #[trigger] longer[i] == input.take(n + 1)[q[
        i
    ]] by {
        assert(longer[i] == if i < pos { output[i] } else if i == pos { x } else { output[i - 1] });
    }
    assert forall|i: int, j: int| 0 <= i < j < longer.len() implies ({
        let rank = rank_by_keys(
            keys,
            (#[trigger] longer[i]).attributes@,
            (#[trigger] longer[j]).attributes@,
        );
        rank == Rank::Before || (rank == Rank::Same && q[i] < q[j])
    }) by {
        assert(longer[i] == if i < pos { output[i] } else if i == pos { x } else { output[i - 1] });
        assert(longer[j] == if j < pos { output[j] } else if j == pos { x } else { output[j - 1] });
        if j == pos {
            // an entity that stood before the place, then the new entity
            if i < pos - 1 {
                lemma_rank_by_keys_chains(
                    keys,
                    output[i].attributes@,
                    output[pos - 1].attributes@,
                    x.attributes@,
                );
            }
        } else if i == pos {
            // the new entity, then an entity that ranks after it
            lemma_rank_by_keys_reverses(keys, output[j - 1].attributes@, x.attributes@);
        }
    }
}

/// Two orders of one collection by the same keys agree place by place on
/// where their entities come from.
proof fn lemma_sorted_agree(
    keys: Seq<(String, OrderType)>,
    input: Seq<Entity>,
    a: Seq<Entity>,
    p: Seq<int>,
    b: Seq<Entity>,
    q: Seq<int>,
    k: int,
)
    requires
        sorted_by(keys, input, a, p),
        sorted_by(keys, input, b, q),
        0 <= k <= input.len(),
    ensures
        forall|j: int| 0 <= j < k ==> #[trigger] p[j] == q[j],
    decreases k,
{
    if k > 0 {
        lemma_sorted_agree(keys, input, a, p, b, q, k - 1);
        let at = k - 1;
        let x = p[at];
        let y = q[at];
        if x != y {
            // each of the two comes later in the other order
            assert(occurs(q, x));
            let m = choose|m: int| 0 <= m < q.len() && #[trigger] q[m] == x;
            if m < at {
                assert(p[m] == q[m]);
            }
            assert(occurs(p, y));
            let w = choose|w: int| 0 <= w < p.len() && #[trigger] p[w] == y;
            if w < at {
                assert(p[w] == q[w]);
            }
            assert(b[at] == input[y] && b[m] == input[x]);
            assert(a[at] == input[x] && a[w] == input[y]);
            lemma_rank_by_keys_reverses(keys, input[x].attributes@, input[y].attributes@);
        }
    }
}

/// The stable order of a collection by a list of keys is one: whatever is
/// that order of the collection is the same sequence of entities.
pub proof fn lemma_stable_sort_unique(
    keys: Seq<(String, OrderType)>,
    input: Seq<Entity>,
    a: Seq<Entity>,
    b: Seq<Entity>,
)
    requires
        stably_sorted(keys, input, a),
        stably_sorted(keys, input, b),
    ensures
        a == b,
{
    let p = choose|p: Seq<int>| sorted_by(keys, input, a, p);
    let q = choose|q: Seq<int>| sorted_by(keys, input, b, q);
    lemma_sorted_agree(keys, input, a, p, b, q, input.len() as int);
    assert forall|i: int| 0 <= i < a.len() implies a[i] == b[i] by {
        assert(a[i] == input[p[i]] && b[i] == input[q[i]]);
    }
}

impl SortQuery {
    /// A sort query of the given keys. A key without a name is
    /// `MalformedQuery`.
    pub fn new(keys: Vec<(String, OrderType)>) -> (r: Result<SortQuery, Error>)
        ensures
            match r {
                Ok(query) => query.0@ == keys@ && forall|i: int|
                    0 <= i < keys@.len() ==> (#[trigger] keys@[i]).0@.len() > 0,
                Err(e) => e@ == failure(ErrorKind::MalformedQuery, "sort"@, Seq::empty())
                    && exists|i: int| 0 <= i < keys@.len() && (#[trigger] keys@[i]).0@.len() == 0,
            },
    {
        let mut i: usize = 0;
        while i < keys.len()
            invariant
                i <= keys.len(),
                forall|j: int| 0 <= j < i ==> (#[trigger] keys@[j]).0@.len() > 0,
            decreases keys.len() - i,
        {
            if keys[i].0.as_str().unicode_len() == 0 {
                return Err(Error::about(ErrorKind::MalformedQuery, "sort"));
            }
            i = i + 1;
        }
        Ok(SortQuery(keys))
    }

    /// Where `a` stands relative to `b` in the order of the query.
    pub fn rank(&self, a: &Entity, b: &Entity) -> (r: Rank)
        ensures
            r == rank_by_keys(self.0@, a.attributes@, b.attributes@),
    {
        let null = AttributeValue::Null;
        let mut i: usize = 0;
        assert(self.0@.skip(0) =~= self.0@);
        while i < self.0.len()
            invariant
                i <= self.0.len(),
                null@ == ValueView::Null,
                rank_by_keys(self.0@, a.attributes@, b.attributes@) == rank_by_keys(
                    self.0@.skip(i as int),
                    a.attributes@,
                    b.attributes@,
                ),
            decreases self.0.len() - i,
        {
            proof {
                assert(self.0@.skip(i as int).drop_first() =~= self.0@.skip(i + 1));
            }
            let name = self.0[i].0.as_str();
            let x: &AttributeValue = match a.attributes.get_field(name) {
                Ok(v) => v,
                Err(_) => &null,
            };
            let y: &AttributeValue = match b.attributes.get_field(name) {
                Ok(v) => v,
                Err(_) => &null,
            };
            let rank = match self.0[i].1 {
                OrderType::Asc => x.rank(y),
                OrderType::Desc => x.rank(y).reverse(),
            };
            if rank != Rank::Same {
                return rank;
            }
            i = i + 1;
        }
        Rank::Same
    }

    /// The first key of the query that names an attribute which `entity`
    /// does not have.
    pub fn missing_key(&self, entity: &Entity) -> (r: Option<&String>)
        ensures
            match r {
                Some(name) => first_missing(self.0@, entity.attributes@) == Some(name@),
                None => first_missing(self.0@, entity.attributes@) is None,
            },
    {
        let mut i: usize = 0;
        assert(self.0@.skip(0) =~= self.0@);
        while i < self.0.len()
            invariant
                i <= self.0.len(),
                first_missing(self.0@, entity.attributes@) == first_missing(
                    self.0@.skip(i as int),
                    entity.attributes@,
                ),
            decreases self.0.len() - i,
        {
            proof {
                assert(self.0@.skip(i as int).drop_first() =~= self.0@.skip(i + 1));
            }
            if entity.attributes.get_field(self.0[i].0.as_str()).is_err() {
                return Some(&self.0[i].0);
            }
            i = i + 1;
        }
        None
    }

    /// The collection in the order of the query: entities are ordered by
    /// the first key by which they differ, and those that differ by none
    /// keep the order in which they came. A key that names an attribute
    /// which an entity of the collection does not have is `FieldNotExist`.
    pub fn sort(&self, entities: Vec<Entity>) -> (r: Result<Vec<Entity>, Error>)
        ensures
            match r {
                Ok(sorted) => first_unsortable(self.0@, entities@) is None && stably_sorted(
                    self.0@,
                    entities@,
                    sorted@,
                ),
                Err(e) => first_unsortable(self.0@, entities@) matches Some(name) && e@ == failure(
                    ErrorKind::FieldNotExist,
                    name,
                    Seq::empty(),
                ),
            },
    {
        let mut i: usize = 0;
        assert(entities@.skip(0) =~= entities@);
        while i < entities.len()
            invariant
                i <= entities.len(),
                first_unsortable(self.0@, entities@) == first_unsortable(
                    self.0@,
                    entities@.skip(i as int),
                ),
            decreases entities.len() - i,
        {
            proof {
                assert(entities@.skip(i as int).drop_first() =~= entities@.skip(i + 1));
            }
            if let Some(name) = self.missing_key(&entities[i]) {
                return Err(Error::about(ErrorKind::FieldNotExist, name.as_str()));
            }
            i = i + 1;
        }
        let mut sorted: Vec<Entity> = Vec::new();
        let ghost mut p: Seq<int> = Seq::empty();
        for entity in it: entities
            invariant
                it.seq() == entities@,
                sorted_by(self.0@, entities@.take(it.index() as int), sorted@, p),
        {
            let ghost n = it.index() as int;
            let mut pos: usize = sorted.len();
            while pos > 0 && self.rank(&sorted[pos - 1], &entity) == Rank::After
                invariant
                    pos <= sorted.len(),
                    forall|j: int|
                        pos <= j < sorted.len() ==> rank_by_keys(
                            self.0@,
                            (#[trigger] sorted@[j]).attributes@,
                            entity.attributes@,
                        ) == Rank::After,
                decreases pos,
            {
                pos = pos - 1;
            }
            proof {
                lemma_insert_keeps_sorted(self.0@, entities@, sorted@, p, n, pos as int);
                p = p.insert(pos as int, n);
            }
            sorted.insert(pos, entity);
        }
        Ok(sorted)
    }
}

} // verus!
