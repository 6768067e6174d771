//! Filters: boolean expressions over the attributes of an entity, and the
//! filtering of a collection by them.

use crate::compare::{equals_text, rank_against_text, Rank};
use crate::entity::Entity;
use crate::error::{failure, Error, ErrorKind, ErrorView};
use crate::model::resource::{lookup, names_of, AttributeValue, AttributeView, ValueView};
use crate::text::has_char;
use vstd::prelude::*;
use vstd::string::*;

verus! {

/// The comparisons that a constraint can make.
#[derive(Clone, Copy, Debug, PartialEq, Eq, Structural)]
pub enum Comparison {
    Equal,
    NotEqual,
    GreaterThan,
    GreaterThanOrEqual,
    LessThan,
    LessThanOrEqual,
    In,
    Out,
}

impl Comparison {
    /// The comparison as a filter writes it.
    pub open spec fn symbol_text(self) -> Seq<char> {
        match self {
            Comparison::Equal => "=="@,
            Comparison::NotEqual => "!="@,
            Comparison::GreaterThan => ">"@,
            Comparison::GreaterThanOrEqual => ">="@,
            Comparison::LessThan => "<"@,
            Comparison::LessThanOrEqual => "<="@,
            Comparison::In => "=in="@,
            Comparison::Out => "=out="@,
        }
    }

    /// The comparison as a filter writes it.
    pub fn symbol(self) -> (text: &'static str)
        ensures
            text@ == self.symbol_text(),
    {
        match self {
            Comparison::Equal => "==",
            Comparison::NotEqual => "!=",
            Comparison::GreaterThan => ">",
            Comparison::GreaterThanOrEqual => ">=",
            Comparison::LessThan => "<",
            Comparison::LessThanOrEqual => "<=",
            Comparison::In => "=in=",
            Comparison::Out => "=out=",
        }
    }

    /// What an ordering comparison makes of a rank. The other comparisons
    /// are not decided by rank.
    pub open spec fn accepts(self, rank: Rank) -> bool {
        match self {
            Comparison::GreaterThan => rank == Rank::After,
            Comparison::GreaterThanOrEqual => rank != Rank::Before,
            Comparison::LessThan => rank == Rank::Before,
            Comparison::LessThanOrEqual => rank != Rank::After,
            _ => false,
        }
    }
}

/// How the two sides of a composite expression are combined.
#[derive(Clone, Copy, Debug, PartialEq, Eq, Structural)]
pub enum Operator {
    And,
    Or,
}

/// A leaf of a filter: the attribute `selector` compared with `arguments`.
#[derive(Debug, PartialEq, Eq)]
pub struct Constraint {
    pub selector: String,
    pub comparison: Comparison,
    pub arguments: Vec<String>,
}

/// A filter expression.
#[derive(Debug, PartialEq, Eq)]
pub enum Expr {
    Item(Constraint),
    Node(Operator, Box<Expr>, Box<Expr>),
}

/// Whether two expressions are alike: they are built alike of constraints
/// that name the same attribute, comparison and arguments.
pub open spec fn alike_exprs(a: Expr, b: Expr) -> bool
    decreases a,
{
    match (a, b) {
        (Expr::Item(c), Expr::Item(d)) => {
            &&& c.selector@ == d.selector@
            &&& c.comparison == d.comparison
            &&& names_of(c.arguments@) == names_of(d.arguments@)
        },
        (Expr::Node(op, l, r), Expr::Node(other, m, s)) => {
            &&& op == other
            &&& alike_exprs(*l, *m)
            &&& alike_exprs(*r, *s)
        },
        _ => false,
    }
}

impl Clone for Constraint {
    fn clone(&self) -> (out: Self)
        ensures
            alike_exprs(Expr::Item(*self), Expr::Item(out)),
    {
        let arguments = self.arguments.clone();
        Constraint { selector: self.selector.clone(), comparison: self.comparison, arguments }
    }
}

impl Clone for Expr {
    /// A copy of the expression.
    fn clone(&self) -> (out: Self)
        ensures
            alike_exprs(*self, out),
        decreases self,
    {
        match self {
            Expr::Item(c) => Expr::Item(c.clone()),
            Expr::Node(op, left, right) => {
                let a: Expr = (&**left).clone();
                let b: Expr = (&**right).clone();
                Expr::Node(*op, Box::new(a), Box::new(b))
            },
        }
    }
}

/// Whether `value` equals one of `arguments`. An argument that cannot be
/// read as a value of the type is not equal to it.
pub open spec fn among(value: ValueView, arguments: Seq<String>) -> bool {
    exists|k: int|
        0 <= k < arguments.len() && equals_text(value, (#[trigger] arguments[k])@) == Some(true)
}

/// What a constraint makes of the value of its attribute.
///
/// `In` and `Out` test whether the value is among the arguments. Every
/// other comparison takes exactly one argument, and is `UnsupportedComparison`
/// with any other number; where the argument cannot be read as a value of
/// the attribute's type, it is `WrongFieldType`.
pub open spec fn judged(c: Constraint, value: ValueView) -> Result<bool, ErrorView> {
    match c.comparison {
        Comparison::In => Ok(among(value, c.arguments@)),
        Comparison::Out => Ok(!among(value, c.arguments@)),
        _ => if c.arguments@.len() != 1 {
            Err(failure(ErrorKind::UnsupportedComparison, c.selector@, c.comparison.symbol_text()))
        } else {
            let arg = c.arguments@[0]@;
            let wrong = failure(ErrorKind::WrongFieldType, c.selector@, arg);
            match c.comparison {
                Comparison::Equal => match equals_text(value, arg) {
                    Some(b) => Ok(b),
                    None => Err(wrong),
                },
                Comparison::NotEqual => match equals_text(value, arg) {
                    Some(b) => Ok(!b),
                    None => Err(wrong),
                },
                _ => match rank_against_text(value, arg) {
                    Some(rank) => Ok(c.comparison.accepts(rank)),
                    None => Err(wrong),
                },
            }
        },
    }
}

/// Whether a constraint holds of the attributes `attrs`. An attribute that
/// is not there is `FieldNotExist`, whatever the comparison.
pub open spec fn constraint_holds(c: Constraint, attrs: Seq<AttributeView>) -> Result<
    bool,
    ErrorView,
> {
    match lookup(attrs, c.selector@) {
        None => Err(failure(ErrorKind::FieldNotExist, c.selector@, Seq::empty())),
        Some(value) => judged(c, value),
    }
}

/// Whether an expression holds of the attributes `attrs`. Both sides of a
/// composite expression are evaluated: a failure of the left side comes
/// first, then one of the right side, and only then are the two combined.
pub open spec fn holds(expr: Expr, attrs: Seq<AttributeView>) -> Result<bool, ErrorView>
    decreases expr,
{
    match expr {
        Expr::Item(c) => constraint_holds(c, attrs),
        Expr::Node(op, left, right) => match holds(*left, attrs) {
            Err(e) => Err(e),
            Ok(a) => match holds(*right, attrs) {
                Err(e) => Err(e),
                Ok(b) => Ok(
                    match op {
                        Operator::And => a && b,
                        Operator::Or => a || b,
                    },
                ),
            },
        },
    }
}

impl Constraint {
    fn any_equal(&self, value: &AttributeValue) -> (r: bool)
        ensures
            r == among(value@, self.arguments@),
    {
        let mut k: usize = 0;
        while k < self.arguments.len()
            invariant
                k <= self.arguments.len(),
                forall|j: int|
                    0 <= j < k ==> equals_text(value@, (#[trigger] self.arguments@[j])@) != Some(
                        true,
                    ),
            decreases self.arguments.len() - k,
        {
            match value.equals(self.arguments[k].as_str()) {
                Some(true) => {
                    return true;
                },
                _ => {},
            }
            k = k + 1;
        }
        false
    }

    /// What the constraint makes of `value`, the value of its attribute.
    pub fn judge(&self, value: &AttributeValue) -> (r: Result<bool, Error>)
        ensures
            match r {
                Ok(b) => judged(*self, value@) == Ok::<bool, ErrorView>(b),
                Err(e) => judged(*self, value@) == Err::<bool, ErrorView>(e@),
            },
    {
        match self.comparison {
            Comparison::In => Ok(self.any_equal(value)),
            Comparison::Out => Ok(!self.any_equal(value)),
            _ => {
                if self.arguments.len() != 1 {
                    return Err(
                        Error::new(
                            ErrorKind::UnsupportedComparison,
                            self.selector.as_str(),
                            self.comparison.symbol(),
                        ),
                    );
                }
                let arg = self.arguments[0].as_str();
                let field = self.selector.as_str();
                match self.comparison {
                    Comparison::Equal => value.eq_with_str(arg, field),
                    Comparison::NotEqual => match value.eq_with_str(arg, field) {
                        Ok(b) => Ok(!b),
                        Err(e) => Err(e),
                    },
                    Comparison::GreaterThan => match value.rank_with_str(arg, field) {
                        Ok(rank) => Ok(rank == Rank::After),
                        Err(e) => Err(e),
                    },
                    Comparison::GreaterThanOrEqual => match value.rank_with_str(arg, field) {
                        Ok(rank) => Ok(rank != Rank::Before),
                        Err(e) => Err(e),
                    },
                    Comparison::LessThan => match value.rank_with_str(arg, field) {
                        Ok(rank) => Ok(rank == Rank::Before),
                        Err(e) => Err(e),
                    },
                    _ => match value.rank_with_str(arg, field) {
                        Ok(rank) => Ok(rank != Rank::After),
                        Err(e) => Err(e),
                    },
                }
            },
        }
    }
}

/// A filter for the entities of one type.
#[derive(Clone, Debug, PartialEq, Eq)]
pub struct FilterItem {
    /// The type of the entities that the filter is for.
    pub key: String,
    pub expr: Expr,
}

/// A filter as a plain value.
pub struct ItemView {
    pub key: Seq<char>,
    pub expr: Expr,
}

impl View for FilterItem {
    type V = ItemView;

    open spec fn view(&self) -> ItemView {
        ItemView { key: self.key@, expr: self.expr }
    }
}

/// The filters of `items` as plain values.
pub open spec fn item_views(items: Seq<FilterItem>) -> Seq<ItemView> {
    Seq::new(items.len(), |i: int| items[i]@)
}

/// Whether a filter keeps an entity. A filter whose key is not the type of
/// the entity does not apply to it: filtering by what an entity is related
/// to is `UnsupportedCrossEntityFilter`.
pub open spec fn keeps(item: ItemView, entity: Entity) -> Result<bool, ErrorView> {
    if entity.ty@ != item.key {
        Err(failure(ErrorKind::UnsupportedCrossEntityFilter, item.key, entity.ty@))
    } else {
        holds(item.expr, entity.attributes@)
    }
}

/// The entities that one filter keeps, in their order; or the failure of
/// the first entity on which the filter fails.
pub open spec fn sieved(item: ItemView, entities: Seq<Entity>) -> Result<Seq<Entity>, ErrorView>
    decreases entities.len(),
{
    if entities.len() == 0 {
        Ok(Seq::empty())
    } else {
        match sieved(item, entities.drop_last()) {
            Err(e) => Err(e),
            Ok(kept) => match keeps(item, entities.last()) {
                Err(e) => Err(e),
                Ok(true) => Ok(kept.push(entities.last())),
                Ok(false) => Ok(kept),
            },
        }
    }
}

/// The entities that all of `items` keep, the filters applied one after
/// the other, each to what the one before has kept.
pub open spec fn filtered(items: Seq<ItemView>, entities: Seq<Entity>) -> Result<
    Seq<Entity>,
    ErrorView,
>
    decreases items.len(),
{
    if items.len() == 0 {
        Ok(entities)
    } else {
        match sieved(items[0], entities) {
            Err(e) => Err(e),
            Ok(kept) => filtered(items.drop_first(), kept),
        }
    }
}

/// A filter as a request hands it in: the key under which it stands, the
/// expression as the request writes it, and what a grammar has read in it,
/// if it could read it.
#[derive(Clone, Debug, PartialEq, Eq)]
pub struct FilterParam {
    pub key: String,
    pub raw: String,
    pub parsed: Option<Expr>,
}

/// A filter parameter as a plain value.
pub struct ParamView {
    pub key: Seq<char>,
    pub raw: Seq<char>,
    pub parsed: Option<Expr>,
}

impl View for FilterParam {
    type V = ParamView;

    open spec fn view(&self) -> ParamView {
        ParamView { key: self.key@, raw: self.raw@, parsed: self.parsed }
    }
}

/// The filter parameters of `params` as plain values.
pub open spec fn param_views(params: Seq<FilterParam>) -> Seq<ParamView> {
    Seq::new(params.len(), |i: int| params[i]@)
}

/// The filters that are made of the parameters of a request, in their
/// order; or the failure of the first parameter that is refused. A key that
/// names a path through relationships is `RelationshipPathNotSupported`; an
/// expression that the grammar could not read is `MalformedQuery`.
pub open spec fn items_of(params: Seq<ParamView>) -> Result<Seq<ItemView>, ErrorView>
    decreases params.len(),
{
    if params.len() == 0 {
        Ok(Seq::empty())
    } else {
        let p = params.last();
        match items_of(params.drop_last()) {
            Err(e) => Err(e),
            Ok(items) => if p.key.contains('.') {
                Err(failure(ErrorKind::RelationshipPathNotSupported, p.key, Seq::empty()))
            } else {
                match p.parsed {
                    None => Err(failure(ErrorKind::MalformedQuery, p.key, p.raw)),
                    Some(expr) => Ok(items.push(ItemView { key: p.key, expr })),
                }
            },
        }
    }
}

/// What every kind of filter data offers: it is made of the filter
/// parameters of a request, and it filters a collection.
pub trait FilterData: Sized {
    /// The filters that the data holds.
    spec fn items(&self) -> Seq<ItemView>;

    /// The filter data of a request, or `None` where the request has no
    /// filter.
    fn new(params: Vec<FilterParam>) -> (r: Result<Option<Self>, Error>)
        ensures
            match r {
                Ok(Some(data)) => items_of(param_views(params@)) == Ok::<Seq<ItemView>, ErrorView>(
                    data.items(),
                ) && data.items().len() > 0,
                Ok(None) => items_of(param_views(params@)) == Ok::<Seq<ItemView>, ErrorView>(
                    Seq::empty(),
                ),
                Err(e) => items_of(param_views(params@)) == Err::<Seq<ItemView>, ErrorView>(e@),
            },
    ;

    /// The entities that the filters keep, or the first failure.
    fn filter(&self, entities: Vec<Entity>) -> (r: Result<Vec<Entity>, Error>)
        ensures
            match r {
                Ok(kept) => filtered(self.items(), entities@) == Ok::<Seq<Entity>, ErrorView>(
                    kept@,
                ),
                Err(e) => filtered(self.items(), entities@) == Err::<Seq<Entity>, ErrorView>(e@),
            },
    ;
}

/// Filters in the RSQL form: one expression for each type of entity.
#[derive(Clone, Debug, PartialEq, Eq)]
pub struct RsqlFilterData(pub Vec<FilterItem>);

impl RsqlFilterData {
    /// Whether `expr` holds of `entity`, by its attributes.
    pub fn filter_on_attributes(expr: &Expr, entity: &Entity) -> (r: Result<bool, Error>)
        ensures
            match r {
                Ok(b) => holds(*expr, entity.attributes@) == Ok::<bool, ErrorView>(b),
                Err(e) => holds(*expr, entity.attributes@) == Err::<bool, ErrorView>(e@),
            },
        decreases *expr,
    {
        match expr {
            Expr::Item(c) => match entity.attributes.get_field(c.selector.as_str()) {
                Ok(value) => c.judge(value),
                Err(e) => Err(e),
            },
            Expr::Node(op, left, right) => {
                let a = Self::filter_on_attributes(left, entity)?;
                let b = Self::filter_on_attributes(right, entity)?;
                Ok(
                    match op {
                        Operator::And => a && b,
                        Operator::Or => a || b,
                    },
                )
            },
        }
    }

    /// Whether one filter keeps `entity`.
    pub fn keep(item: &FilterItem, entity: &Entity) -> (r: Result<bool, Error>)
        ensures
            match r {
                Ok(b) => keeps(item@, *entity) == Ok::<bool, ErrorView>(b),
                Err(e) => keeps(item@, *entity) == Err::<bool, ErrorView>(e@),
            },
    {
        if entity.ty != item.key {
            Err(
                Error::new(
                    ErrorKind::UnsupportedCrossEntityFilter,
                    item.key.as_str(),
                    entity.ty.as_str(),
                ),
            )
        } else {
            Self::filter_on_attributes(&item.expr, entity)
        }
    }

    /// The entities that one filter keeps.
    pub fn sieve(item: &FilterItem, entities: Vec<Entity>) -> (r: Result<Vec<Entity>, Error>)
        ensures
            match r {
                Ok(kept) => sieved(item@, entities@) == Ok::<Seq<Entity>, ErrorView>(kept@),
                Err(e) => sieved(item@, entities@) == Err::<Seq<Entity>, ErrorView>(e@),
            },
    {
        let mut kept: Vec<Entity> = Vec::new();
        for entity in it: entities
            invariant
                it.seq() == entities@,
                sieved(item@, entities@.take(it.index() as int)) == Ok::<Seq<Entity>, ErrorView>(
                    kept@,
                ),
        {
            let ghost n = it.index() as int;
            proof {
                assert(entities@.take(n + 1).drop_last() =~= entities@.take(n));
            }
            match Self::keep(item, &entity) {
                Ok(true) => {
                    kept.push(entity);
                },
                Ok(false) => {},
                Err(e) => {
                    proof {
                        lemma_sieved_failure_stays(item@, entities@, n + 1);
                    }
                    return Err(e);
                },
            }
        }
        assert(entities@.take(entities@.len() as int) =~= entities@);
        Ok(kept)
    }
}

/// A failure on a part of a collection, from its start, is the failure on
/// the whole collection.
pub proof fn lemma_sieved_failure_stays(item: ItemView, entities: Seq<Entity>, n: int)
    requires
        0 <= n <= entities.len(),
        sieved(item, entities.take(n)) is Err,
    ensures
        sieved(item, entities) == sieved(item, entities.take(n)),
    decreases entities.len() - n,
{
    if n < entities.len() {
        assert(entities.take(n + 1).drop_last() =~= entities.take(n));
        lemma_sieved_failure_stays(item, entities, n + 1);
    } else {
        assert(entities.take(n) =~= entities);
    }
}

impl FilterData for RsqlFilterData {
    open spec fn items(&self) -> Seq<ItemView> {
        item_views(self.0@)
    }

    fn new(params: Vec<FilterParam>) -> (r: Result<Option<Self>, Error>) {
        let mut items: Vec<FilterItem> = Vec::new();
        let ghost all = param_views(params@);
        assert(item_views(items@) =~= Seq::<ItemView>::empty());
        for param in it: params
            invariant
                it.seq() == params@,
                all == param_views(params@),
                items_of(all.take(it.index() as int)) == Ok::<Seq<ItemView>, ErrorView>(
                    item_views(items@),
                ),
        {
            let ghost n = it.index() as int;
            let ghost before = item_views(items@);
            proof {
                assert(all.take(n + 1).drop_last() =~= all.take(n));
            }
            if has_char(param.key.as_str(), '.') {
                proof {
                    lemma_items_failure_stays(all, n + 1);
                }
                return Err(
                    Error::about(ErrorKind::RelationshipPathNotSupported, param.key.as_str()),
                );
            }
            let FilterParam { key, raw, parsed } = param;
            match parsed {
                Some(expr) => {
                    items.push(FilterItem { key, expr });
                    assert(item_views(items@) =~= before.push(ItemView { key: key@, expr }));
                },
                None => {
                    proof {
                        lemma_items_failure_stays(all, n + 1);
                    }
                    return Err(Error::new(ErrorKind::MalformedQuery, key.as_str(), raw.as_str()));
                },
            }
        }
        assert(all.take(params@.len() as int) =~= all);
        if items.len() == 0 {
            assert(item_views(items@) =~= Seq::<ItemView>::empty());
            Ok(None)
        } else {
            Ok(Some(RsqlFilterData(items)))
        }
    }

    fn filter(&self, entities: Vec<Entity>) -> (r: Result<Vec<Entity>, Error>) {
        let mut rest: Vec<Entity> = entities;
        let ghost all = item_views(self.0@);
        let mut i: usize = 0;
        assert(all.skip(0) =~= all);
        while i < self.0.len()
            invariant
                i <= self.0.len(),
                all == item_views(self.0@),
                filtered(all, entities@) == filtered(all.skip(i as int), rest@),
            decreases self.0.len() - i,
        {
            proof {
                assert(all.skip(i as int).drop_first() =~= all.skip(i + 1));
            }
            rest = Self::sieve(&self.0[i], rest)?;
            i = i + 1;
        }
        Ok(rest)
    }
}

/// The failure of a parameter is the failure of the whole list, whatever
/// comes after it.
pub proof fn lemma_items_failure_stays(params: Seq<ParamView>, n: int)
    requires
        0 <= n <= params.len(),
        items_of(params.take(n)) is Err,
    ensures
        items_of(params) == items_of(params.take(n)),
    decreases params.len() - n,
{
    if n < params.len() {
        assert(params.take(n + 1).drop_last() =~= params.take(n));
        lemma_items_failure_stays(params, n + 1);
    } else {
        assert(params.take(n) =~= params);
    }
}

/// The filter of a request, by the grammar that wrote it.
#[derive(Clone, Debug, PartialEq, Eq)]
pub enum FilterQuery {
    Rsql(RsqlFilterData),
}

impl FilterQuery {
    /// The filters of the query.
    pub open spec fn items(&self) -> Seq<ItemView> {
        match self {
            FilterQuery::Rsql(data) => data.items(),
        }
    }

    /// The filter of a request whose filter parameters are in the grammar
    /// `ty`. The one grammar is `Rsql`: any other is `MalformedQuery`.
    pub fn new(ty: &str, params: Vec<FilterParam>) -> (r: Result<Option<FilterQuery>, Error>)
        ensures
            match r {
                Ok(Some(query)) => ty@ == "Rsql"@ && items_of(param_views(params@)) == Ok::<
                    Seq<ItemView>,
                    ErrorView,
                >(query.items()) && query.items().len() > 0,
                Ok(None) => ty@ == "Rsql"@ && items_of(param_views(params@)) == Ok::<
                    Seq<ItemView>,
                    ErrorView,
                >(Seq::empty()),
                Err(e) => if ty@ == "Rsql"@ {
                    items_of(param_views(params@)) == Err::<Seq<ItemView>, ErrorView>(e@)
                } else {
                    e@ == failure(ErrorKind::MalformedQuery, "filter"@, ty@)
                },
            },
    {
        if String::from_str(ty) == String::from_str("Rsql") {
            match RsqlFilterData::new(params) {
                Ok(Some(data)) => Ok(Some(FilterQuery::Rsql(data))),
                Ok(None) => Ok(None),
                Err(e) => Err(e),
            }
        } else {
            Err(Error::new(ErrorKind::MalformedQuery, "filter", ty))
        }
    }

    /// The entities that the filters keep, or the first failure.
    pub fn filter(&self, entities: Vec<Entity>) -> (r: Result<Vec<Entity>, Error>)
        ensures
            match r {
                Ok(kept) => filtered(self.items(), entities@) == Ok::<Seq<Entity>, ErrorView>(
                    kept@,
                ),
                Err(e) => filtered(self.items(), entities@) == Err::<Seq<Entity>, ErrorView>(e@),
            },
    {
        match self {
            FilterQuery::Rsql(data) => data.filter(entities),
        }
    }
}

/// Expressions that are alike hold of the same attributes, and fail on the
/// same with the same failure.
pub proof fn lemma_alike_exprs_hold_alike(a: Expr, b: Expr, attrs: Seq<AttributeView>)
    requires
        alike_exprs(a, b),
    ensures
        holds(a, attrs) == holds(b, attrs),
    decreases a,
{
    match (a, b) {
        (Expr::Item(c), Expr::Item(d)) => {
            assert(c.arguments@.len() == d.arguments@.len()) by {
                assert(names_of(c.arguments@).len() == names_of(d.arguments@).len());
            }
            assert forall|k: int| 0 <= k < c.arguments@.len() implies (#[trigger] c.arguments@[k])@
                == d.arguments@[k]@ by {
                assert(names_of(c.arguments@)[k] == names_of(d.arguments@)[k]);
            }
            match lookup(attrs, c.selector@) {
                Some(value) => {
                    if among(value, c.arguments@) {
                        let k = choose|k: int|
                            0 <= k < c.arguments@.len() && equals_text(
                                value,
                                (#[trigger] c.arguments@[k])@,
                            ) == Some(true);
                    }
                    if among(value, d.arguments@) {
                        let k = choose|k: int|
                            0 <= k < d.arguments@.len() && equals_text(
                                value,
                                (#[trigger] d.arguments@[k])@,
                            ) == Some(true);
                        assert(equals_text(value, c.arguments@[k]@) == Some(true));
                    }
                },
                None => {},
            }
        },
        (Expr::Node(_, l, r), Expr::Node(_, m, s)) => {
            lemma_alike_exprs_hold_alike(*l, *m, attrs);
            lemma_alike_exprs_hold_alike(*r, *s, attrs);
        },
        _ => {},
    }
}

/// Whether a filter keeps an entity, as a predicate.
pub open spec fn passes(item: ItemView) -> spec_fn(Entity) -> bool {
    |entity: Entity| keeps(item, entity) == Ok::<bool, ErrorView>(true)
}

/// A filter succeeds on a collection exactly if it fails on none of its
/// entities, and then it keeps those of which it holds, in their order.
pub proof fn lemma_sieved_is_filter(item: ItemView, entities: Seq<Entity>)
    ensures
        sieved(item, entities) is Ok <==> (forall|i: int|
            0 <= i < entities.len() ==> keeps(item, #[trigger] entities[i]) is Ok),
        sieved(item, entities) is Ok ==> sieved(item, entities)->Ok_0 == entities.filter(
            passes(item),
        ),
    decreases entities.len(),
{
    reveal(Seq::filter);
    if entities.len() > 0 {
        let front = entities.drop_last();
        lemma_sieved_is_filter(item, front);
        if sieved(item, entities) is Ok {
            assert forall|i: int| 0 <= i < entities.len() implies keeps(
                item,
                #[trigger] entities[i],
            ) is Ok by {
                if i < front.len() {
                    assert(front[i] == entities[i]);
                }
            }
        } else if sieved(item, front) is Err {
            // the filter fails on an entity before the last one
            let i = choose|i: int| 0 <= i < front.len() && !(keeps(item, #[trigger] front[i]) is Ok);
            assert(front[i] == entities[i]);
        }
    }
}

/// With one filter, filtering is what that filter keeps.
pub proof fn lemma_filtered_single(item: ItemView, entities: Seq<Entity>)
    ensures
        filtered(seq![item], entities) == sieved(item, entities),
{
    reveal_with_fuel(filtered, 2);
}

/// What a filter keeps are entities of the collection of which it holds.
pub proof fn lemma_kept_entities(item: ItemView, entities: Seq<Entity>, entity: Entity)
    requires
        sieved(item, entities) is Ok,
    ensures
        sieved(item, entities)->Ok_0.contains(entity) <==> entities.contains(entity) && keeps(
            item,
            entity,
        ) == Ok::<bool, ErrorView>(true),
{
    lemma_sieved_is_filter(item, entities);
    let kept = entities.filter(passes(item));
    if kept.contains(entity) {
        entities.lemma_filter_contains_rev(passes(item), entity);
        let i = choose|i: int| 0 <= i < kept.len() && kept[i] == entity;
        entities.lemma_filter_pred(passes(item), i);
    }
    if entities.contains(entity) && passes(item)(entity) {
        let i = choose|i: int| 0 <= i < entities.len() && entities[i] == entity;
        entities.lemma_filter_contains(passes(item), i);
    }
}

/// The filter `a or b` keeps the union of what `a` keeps and what `b`
/// keeps, where each of the two succeeds on the collection.
pub proof fn lemma_or_keeps_union(key: Seq<char>, a: Expr, b: Expr, entities: Seq<Entity>)
    requires
        filtered(seq![ItemView { key, expr: a }], entities) is Ok,
        filtered(seq![ItemView { key, expr: b }], entities) is Ok,
    ensures
        filtered(
            seq![ItemView { key, expr: Expr::Node(Operator::Or, Box::new(a), Box::new(b)) }],
            entities,
        ) is Ok,
        forall|entity: Entity|
            #![trigger filtered(seq![ItemView { key, expr: a }], entities)->Ok_0.contains(entity)]
            filtered(
                seq![ItemView { key, expr: Expr::Node(Operator::Or, Box::new(a), Box::new(b)) }],
                entities,
            )->Ok_0.contains(entity) <==> filtered(
                seq![ItemView { key, expr: a }],
                entities,
            )->Ok_0.contains(entity) || filtered(
                seq![ItemView { key, expr: b }],
                entities,
            )->Ok_0.contains(entity),
{
    let left = ItemView { key, expr: a };
    let right = ItemView { key, expr: b };
    let both = ItemView { key, expr: Expr::Node(Operator::Or, Box::new(a), Box::new(b)) };
    lemma_filtered_single(left, entities);
    lemma_filtered_single(right, entities);
    lemma_filtered_single(both, entities);
    lemma_sieved_is_filter(left, entities);
    lemma_sieved_is_filter(right, entities);
    lemma_sieved_is_filter(both, entities);
    assert forall|i: int| 0 <= i < entities.len() implies keeps(both, #[trigger] entities[i]) is Ok by {}
    assert forall|entity: Entity|
        sieved(both, entities)->Ok_0.contains(entity) <==> sieved(left, entities)->Ok_0.contains(
            entity,
        ) || sieved(right, entities)->Ok_0.contains(entity) by {
        lemma_kept_entities(left, entities, entity);
        lemma_kept_entities(right, entities, entity);
        lemma_kept_entities(both, entities, entity);
        if entities.contains(entity) {
            let i = choose|i: int| 0 <= i < entities.len() && entities[i] == entity;
            assert(keeps(left, entities[i]) is Ok && keeps(right, entities[i]) is Ok);
        }
    }
}

/// The filter `a and b` keeps what both `a` and `b` keep, where each of
/// the two succeeds on the collection.
pub proof fn lemma_and_keeps_intersection(key: Seq<char>, a: Expr, b: Expr, entities: Seq<Entity>)
    requires
        filtered(seq![ItemView { key, expr: a }], entities) is Ok,
        filtered(seq![ItemView { key, expr: b }], entities) is Ok,
    ensures
        filtered(
            seq![ItemView { key, expr: Expr::Node(Operator::And, Box::new(a), Box::new(b)) }],
            entities,
        ) is Ok,
        forall|entity: Entity|
            #![trigger filtered(seq![ItemView { key, expr: a }], entities)->Ok_0.contains(entity)]
            filtered(
                seq![ItemView { key, expr: Expr::Node(Operator::And, Box::new(a), Box::new(b)) }],
                entities,
            )->Ok_0.contains(entity) <==> filtered(
                seq![ItemView { key, expr: a }],
                entities,
            )->Ok_0.contains(entity) && filtered(
                seq![ItemView { key, expr: b }],
                entities,
            )->Ok_0.contains(entity),
{
    let left = ItemView { key, expr: a };
    let right = ItemView { key, expr: b };
    let both = ItemView { key, expr: Expr::Node(Operator::And, Box::new(a), Box::new(b)) };
    lemma_filtered_single(left, entities);
    lemma_filtered_single(right, entities);
    lemma_filtered_single(both, entities);
    lemma_sieved_is_filter(left, entities);
    lemma_sieved_is_filter(right, entities);
    lemma_sieved_is_filter(both, entities);
    assert forall|i: int| 0 <= i < entities.len() implies keeps(both, #[trigger] entities[i]) is Ok by {}
    assert forall|entity: Entity|
        sieved(both, entities)->Ok_0.contains(entity) <==> sieved(left, entities)->Ok_0.contains(
            entity,
        ) && sieved(right, entities)->Ok_0.contains(entity) by {
        lemma_kept_entities(left, entities, entity);
        lemma_kept_entities(right, entities, entity);
        lemma_kept_entities(both, entities, entity);
        if entities.contains(entity) {
            let i = choose|i: int| 0 <= i < entities.len() && entities[i] == entity;
            assert(keeps(left, entities[i]) is Ok && keeps(right, entities[i]) is Ok);
        }
    }
}

/// Filters that decide oppositely on every entity of a collection keep,
/// between them, each entity once.
proof fn lemma_opposite_filters_partition(yes: ItemView, no: ItemView, entities: Seq<Entity>)
    requires
        forall|i: int|
            0 <= i < entities.len() ==> passes(yes)(#[trigger] entities[i]) != passes(no)(
                entities[i],
            ),
    ensures
        entities.filter(passes(yes)).len() + entities.filter(passes(no)).len() == entities.len(),
    decreases entities.len(),
{
    reveal(Seq::filter);
    if entities.len() > 0 {
        let front = entities.drop_last();
        assert forall|i: int| 0 <= i < front.len() implies passes(yes)(#[trigger] front[i])
            != passes(no)(front[i]) by {}
        lemma_opposite_filters_partition(yes, no, front);
    }
}

/// The filters `selector == x` and `selector != x` succeed on the same
/// collections, and divide each of them: every entity is kept by one of the
/// two and by one only, and nothing else is kept.
pub proof fn lemma_equal_and_not_equal_partition(
    key: Seq<char>,
    selector: String,
    arguments: Vec<String>,
    entities: Seq<Entity>,
)
    ensures
        ({
            let equal = filtered(
                seq![
                    ItemView {
                        key,
                        expr: Expr::Item(
                            Constraint { selector, comparison: Comparison::Equal, arguments },
                        ),
                    },
                ],
                entities,
            );
            let unequal = filtered(
                seq![
                    ItemView {
                        key,
                        expr: Expr::Item(
                            Constraint { selector, comparison: Comparison::NotEqual, arguments },
                        ),
                    },
                ],
                entities,
            );
            &&& equal is Ok <==> unequal is Ok
            &&& equal is Ok ==> {
                &&& equal->Ok_0.len() + unequal->Ok_0.len() == entities.len()
                &&& forall|entity: Entity|
                    #![trigger equal->Ok_0.contains(entity)]
                    #![trigger unequal->Ok_0.contains(entity)]
                    entities.contains(entity) ==> (equal->Ok_0.contains(entity)
                        != unequal->Ok_0.contains(entity))
                &&& forall|entity: Entity|
                    #![trigger equal->Ok_0.contains(entity)]
                    #![trigger unequal->Ok_0.contains(entity)]
                    (equal->Ok_0.contains(entity) || unequal->Ok_0.contains(entity))
                        ==> entities.contains(entity)
            }
        }),
{
    let yes = ItemView {
        key,
        expr: Expr::Item(Constraint { selector, comparison: Comparison::Equal, arguments }),
    };
    let no = ItemView {
        key,
        expr: Expr::Item(Constraint { selector, comparison: Comparison::NotEqual, arguments }),
    };
    lemma_filtered_single(yes, entities);
    lemma_filtered_single(no, entities);
    lemma_sieved_is_filter(yes, entities);
    lemma_sieved_is_filter(no, entities);
    assert forall|entity: Entity| keeps(yes, entity) is Ok <==> keeps(no, entity) is Ok by {}
    if sieved(yes, entities) is Ok {
        assert forall|i: int| 0 <= i < entities.len() implies keeps(no, #[trigger] entities[i]) is Ok by {}
        assert forall|i: int| 0 <= i < entities.len() implies passes(yes)(#[trigger] entities[i])
            != passes(no)(entities[i]) by {}
        lemma_opposite_filters_partition(yes, no, entities);
        assert forall|entity: Entity|
            entities.contains(entity) implies (sieved(yes, entities)->Ok_0.contains(entity)
            != sieved(no, entities)->Ok_0.contains(entity)) by {
            lemma_kept_entities(yes, entities, entity);
            lemma_kept_entities(no, entities, entity);
            let i = choose|i: int| 0 <= i < entities.len() && entities[i] == entity;
            assert(keeps(yes, entities[i]) is Ok);
        }
        assert forall|entity: Entity|
            (sieved(yes, entities)->Ok_0.contains(entity) || sieved(no, entities)->Ok_0.contains(
                entity,
            )) implies entities.contains(entity) by {
            lemma_kept_entities(yes, entities, entity);
            lemma_kept_entities(no, entities, entity);
        }
    } else if sieved(no, entities) is Ok {
        let i = choose|i: int| 0 <= i < entities.len() && !(keeps(yes, #[trigger] entities[i]) is Ok);
        assert(keeps(no, entities[i]) is Ok);
    }
}

/// Whether an expression names the attribute `selector`.
pub open spec fn names(expr: Expr, selector: Seq<char>) -> bool
    decreases expr,
{
    match expr {
        Expr::Item(c) => c.selector@ == selector,
        Expr::Node(_, left, right) => names(*left, selector) || names(*right, selector),
    }
}

/// An expression that names an attribute which is not there holds of
/// nothing and fails to hold of nothing: it fails.
pub proof fn lemma_absent_attribute_fails(
    expr: Expr,
    attrs: Seq<AttributeView>,
    selector: Seq<char>,
)
    requires
        names(expr, selector),
        lookup(attrs, selector) is None,
    ensures
        holds(expr, attrs) is Err,
    decreases expr,
{
    match expr {
        Expr::Item(c) => {},
        Expr::Node(_, left, right) => {
            if names(*left, selector) {
                lemma_absent_attribute_fails(*left, attrs, selector);
            } else {
                lemma_absent_attribute_fails(*right, attrs, selector);
            }
        },
    }
}

/// Filtering a collection on an attribute that its first entity does not
/// have is `FieldNotExist`, whatever the comparison and its arguments.
pub proof fn lemma_filter_on_absent_attribute(key: Seq<char>, c: Constraint, entities: Seq<Entity>)
    requires
        entities.len() > 0,
        entities[0].ty@ == key,
        lookup(entities[0].attributes@, c.selector@) is None,
    ensures
        filtered(seq![ItemView { key, expr: Expr::Item(c) }], entities) == Err::<
            Seq<Entity>,
            ErrorView,
        >(failure(ErrorKind::FieldNotExist, c.selector@, Seq::empty())),
{
    let item = ItemView { key, expr: Expr::Item(c) };
    lemma_filtered_single(item, entities);
    assert(sieved(item, entities.take(1)) is Err) by {
        reveal_with_fuel(sieved, 2);
    }
    lemma_sieved_failure_stays(item, entities, 1);
    reveal_with_fuel(sieved, 2);
}

} // verus!
