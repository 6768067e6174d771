//! The reading of a request's query parameters.

use crate::error::{failure, Error, ErrorKind, ErrorView};
use crate::model::resource::names_of;
use crate::query::fields::{fieldset_views, FieldSet};
use crate::query::filter::{
    items_of, param_views, Expr, FilterParam, FilterQuery, ItemView, ParamView,
};
use crate::query::page::{CursorBasedData, OffsetBasedData, PageQuery, PageView};
use crate::query::sort::{OrderType, SortQuery};
use crate::query::Query;
use crate::text::{bool_of_text, parse_bool, parse_usize, usize_of_text};
use vstd::prelude::*;
use vstd::string::*;

verus! {

/// The pieces of `s` that lie between the occurrences of `sep`. There is
/// one piece more than there are occurrences; a piece may be empty.
pub open spec fn split(s: Seq<char>, sep: char) -> Seq<Seq<char>>
    decreases s.len(),
{
    if s.len() == 0 {
        seq![Seq::empty()]
    } else {
        let before = split(s.drop_last(), sep);
        if s.last() == sep {
            before.push(Seq::empty())
        } else {
            before.drop_last().push(before.last().push(s.last()))
        }
    }
}

/// A list of names as a parameter writes it: separated by commas. The
/// empty value writes the empty list.
pub open spec fn list_of(value: Seq<char>) -> Seq<Seq<char>> {
    if value.len() == 0 {
        Seq::empty()
    } else {
        split(value, ',')
    }
}

/// The key `prefix[name]`.
pub open spec fn bracketed(prefix: Seq<char>, name: Seq<char>) -> Seq<char> {
    prefix + seq!['['] + name + seq![']']
}

/// The name in a key of the form `prefix[name]`, where the key is of that
/// form and the name is not empty.
pub open spec fn bracket_name(key: Seq<char>, prefix: Seq<char>) -> Option<Seq<char>> {
    let name = key.subrange(prefix.len() as int + 1, key.len() as int - 1);
    if key.len() > prefix.len() + 2 && key == bracketed(prefix, name) {
        Some(name)
    } else {
        None
    }
}

/// The sort key that one piece of a `sort` parameter writes: the name of
/// an attribute, with `-` before it for the descending direction.
pub open spec fn sort_key_of(piece: Seq<char>) -> (Seq<char>, OrderType) {
    if piece.len() > 0 && piece[0] == '-' {
        (piece.drop_first(), OrderType::Desc)
    } else {
        (piece, OrderType::Asc)
    }
}

/// The sort keys of `keys` as plain values.
pub open spec fn sort_views(keys: Seq<(String, OrderType)>) -> Seq<(Seq<char>, OrderType)> {
    Seq::new(keys.len(), |i: int| (keys[i].0@, keys[i].1))
}

/// The sort keys that a `sort` parameter writes, or `None` where one of
/// them has no name.
pub open spec fn sort_keys_of(value: Seq<char>) -> Option<Seq<(Seq<char>, OrderType)>> {
    let keys = Seq::new(list_of(value).len(), |i: int| sort_key_of(list_of(value)[i]));
    if forall|i: int| 0 <= i < keys.len() ==> (#[trigger] keys[i]).0.len() > 0 {
        Some(keys)
    } else {
        None
    }
}

/// The pieces of `s` between the occurrences of `sep`.
pub fn split_on(s: &str, sep: char) -> (out: Vec<String>)
    ensures
        names_of(out@) == split(s@, sep),
{
    let n: usize = s.unicode_len();
    let mut out: Vec<String> = Vec::new();
    let mut start: usize = 0;
    let mut i: usize = 0;
    assert(names_of(out@).push(s@.subrange(0, 0)) =~~= split(s@.take(0), sep));
    while i < n
        invariant
            n == s@.len(),
            start <= i <= n,
            split(s@.take(i as int), sep) == names_of(out@).push(
                s@.subrange(start as int, i as int),
            ),
        decreases n - i,
    {
        assert(s@.take(i + 1).drop_last() =~= s@.take(i as int));
        if s.get_char(i) == sep {
            out.push(String::from_str(s.substring_char(start, i)));
            start = i + 1;
            assert(split(s@.take(i + 1), sep) =~~= names_of(out@).push(
                s@.subrange(start as int, i + 1),
            ));
        } else {
            assert(s@.subrange(start as int, i as int).push(s@[i as int]) =~= s@.subrange(
                start as int,
                i + 1,
            ));
        }
        i = i + 1;
    }
    out.push(String::from_str(s.substring_char(start, n)));
    assert(s@.take(n as int) =~= s@);
    out
}

/// The name in a key of the form `prefix[name]`.
pub fn name_in_brackets(key: &str, prefix: &str) -> (r: Option<String>)
    ensures
        match r {
            Some(name) => bracket_name(key@, prefix@) == Some(name@),
            None => bracket_name(key@, prefix@) is None,
        },
{
    let k: usize = key.unicode_len();
    let p: usize = prefix.unicode_len();
    if k < 3 || k - 2 <= p {
        return None;
    }
    let name = key.substring_char(p + 1, k - 1);
    proof {
        reveal_strlit("[");
        reveal_strlit("]");
        assert("["@ =~= seq!['[']);
        assert("]"@ =~= seq![']']);
    }
    let rebuilt = String::from_str(prefix).concat("[").concat(name).concat("]");
    if rebuilt == String::from_str(key) {
        Some(String::from_str(name))
    } else {
        None
    }
}

/// The list of names that a parameter writes.
pub fn read_list(value: &str) -> (out: Vec<String>)
    ensures
        names_of(out@) == list_of(value@),
{
    if value.unicode_len() == 0 {
        Vec::new()
    } else {
        split_on(value, ',')
    }
}

impl SortQuery {
    /// The sort query that a `sort` parameter writes: attribute names
    /// separated by commas, `-` before a name for the descending direction.
    /// A key without a name is `MalformedQuery`.
    pub fn parse(value: &str) -> (r: Result<SortQuery, Error>)
        ensures
            match r {
                Ok(query) => sort_keys_of(value@) == Some(sort_views(query.0@)),
                Err(e) => sort_keys_of(value@) is None && e@ == failure(
                    ErrorKind::MalformedQuery,
                    "sort"@,
                    value@,
                ),
            },
    {
        let pieces = read_list(value);
        let ghost wanted = Seq::new(
            list_of(value@).len(),
            |i: int| sort_key_of(list_of(value@)[i]),
        );
        let mut keys: Vec<(String, OrderType)> = Vec::new();
        let mut i: usize = 0;
        while i < pieces.len()
            invariant
                i <= pieces.len(),
                names_of(pieces@) == list_of(value@),
                wanted == Seq::new(list_of(value@).len(), |i: int| sort_key_of(list_of(value@)[i])),
                keys.len() == i,
                forall|j: int|
                    0 <= j < i ==> (#[trigger] keys@[j]).0@ == wanted[j].0 && keys@[j].1
                        == wanted[j].1 && wanted[j].0.len() > 0,
            decreases pieces.len() - i,
        {
            let piece = pieces[i].as_str();
            assert(piece@ == list_of(value@)[i as int]);
            let n: usize = piece.unicode_len();
            let key: (String, OrderType) = if n > 0 && piece.get_char(0) == '-' {
                (String::from_str(piece.substring_char(1, n)), OrderType::Desc)
            } else {
                (String::from_str(piece), OrderType::Asc)
            };
            assert(key.0@ =~= wanted[i as int].0 && key.1 == wanted[i as int].1);
            if key.0.as_str().unicode_len() == 0 {
                return Err(Error::new(ErrorKind::MalformedQuery, "sort", value));
            }
            let ghost name = key.0@;
            let ghost order = key.1;
            keys.push(key);
            assert forall|j: int| 0 <= j < i + 1 implies (#[trigger] keys@[j]).0@ == wanted[j].0
                && keys@[j].1 == wanted[j].1 && wanted[j].0.len() > 0 by {
                if j == i {
                    assert(keys@[j].0@ == name && keys@[j].1 == order);
                }
            }
            i = i + 1;
        }
        assert(sort_views(keys@) =~= wanted);
        Ok(SortQuery(keys))
    }
}

/// One parameter of the query of a request.
#[derive(Clone, Debug, PartialEq, Eq)]
pub struct QueryParam {
    pub key: String,
    pub value: String,
    /// For the value of a filter: the expression that the grammar of the
    /// request has read in it, if it could read it.
    pub parsed: Option<Expr>,
}

impl View for QueryParam {
    type V = ParamView;

    open spec fn view(&self) -> ParamView {
        ParamView { key: self.key@, raw: self.value@, parsed: self.parsed }
    }
}

/// The parameters of `params` as plain values.
pub open spec fn query_views(params: Seq<QueryParam>) -> Seq<ParamView> {
    Seq::new(params.len(), |i: int| params[i]@)
}

/// The value of the last parameter with the key `key`.
pub open spec fn last_value(params: Seq<ParamView>, key: Seq<char>) -> Option<Seq<char>>
    decreases params.len(),
{
    if params.len() == 0 {
        None
    } else if params.last().key == key {
        Some(params.last().raw)
    } else {
        last_value(params.drop_last(), key)
    }
}

/// The relationships that a request asks to be walked: the names that its
/// `include` parameter lists.
pub open spec fn includes_of(params: Seq<ParamView>) -> Option<Seq<Seq<char>>> {
    match last_value(params, "include"@) {
        Some(value) => Some(list_of(value)),
        None => None,
    }
}

/// The fieldsets of a request: one for each parameter `fields[TYPE]`, with
/// the names that it lists.
pub open spec fn fields_of(params: Seq<ParamView>) -> Seq<(Seq<char>, Seq<Seq<char>>)>
    decreases params.len(),
{
    if params.len() == 0 {
        Seq::empty()
    } else {
        let before = fields_of(params.drop_last());
        match bracket_name(params.last().key, "fields"@) {
            Some(ty) => before.push((ty, list_of(params.last().raw))),
            None => before,
        }
    }
}

/// The sort keys of a request: those that its `sort` parameter writes.
pub open spec fn sort_of(params: Seq<ParamView>) -> Result<
    Seq<(Seq<char>, OrderType)>,
    ErrorView,
> {
    match last_value(params, "sort"@) {
        None => Ok(Seq::empty()),
        Some(value) => match sort_keys_of(value) {
            Some(keys) => Ok(keys),
            None => Err(failure(ErrorKind::MalformedQuery, "sort"@, value)),
        },
    }
}

/// The count that the parameter `key` writes. A parameter that is not
/// there, or writes no count, is `MalformedQuery`.
pub open spec fn count_of(params: Seq<ParamView>, key: Seq<char>) -> Result<usize, ErrorView> {
    match last_value(params, key) {
        None => Err(failure(ErrorKind::MalformedQuery, key, Seq::empty())),
        Some(value) => match usize_of_text(value) {
            Some(n) => Ok(n),
            None => Err(failure(ErrorKind::MalformedQuery, key, value)),
        },
    }
}

/// The page that a request asks for.
///
/// With `page[cursor]` it is a page by cursor: next to the entity that the
/// cursor names, up to `page[limit]` entities, after it unless
/// `page[after]` is `false`. Else, with `page[number]` or `page[size]`, it
/// is page `page[number]` of size `page[size]`. Else there is no page.
pub open spec fn page_of(params: Seq<ParamView>) -> Result<Option<PageView>, ErrorView> {
    match last_value(params, "page[cursor]"@) {
        Some(target_id) => match count_of(params, "page[limit]"@) {
            Err(e) => Err(e),
            Ok(limit) => match last_value(params, "page[after]"@) {
                None => Ok(Some(PageView::CursorBased { target_id, is_look_after: true, limit })),
                Some(flag) => match bool_of_text(flag) {
                    Some(is_look_after) => Ok(
                        Some(PageView::CursorBased { target_id, is_look_after, limit }),
                    ),
                    None => Err(failure(ErrorKind::MalformedQuery, "page[after]"@, flag)),
                },
            },
        },
        None => if last_value(params, "page[number]"@) is None && last_value(
            params,
            "page[size]"@,
        ) is None {
            Ok(None)
        } else {
            match count_of(params, "page[number]"@) {
                Err(e) => Err(e),
                Ok(number) => match count_of(params, "page[size]"@) {
                    Err(e) => Err(e),
                    Ok(size) => Ok(Some(PageView::OffsetBased { number, size })),
                },
            }
        },
    }
}

/// The filter parameters of a request: for each parameter `filter[KEY]`
/// the key, the expression as written and as read.
pub open spec fn filter_params_of(params: Seq<ParamView>) -> Seq<ParamView>
    decreases params.len(),
{
    if params.len() == 0 {
        Seq::empty()
    } else {
        let before = filter_params_of(params.drop_last());
        match bracket_name(params.last().key, "filter"@) {
            Some(key) => before.push(
                ParamView { key, raw: params.last().raw, parsed: params.last().parsed },
            ),
            None => before,
        }
    }
}

/// The grammar of the filters of a request: what its `filter` parameter
/// names, or `Rsql`.
pub open spec fn grammar_of(params: Seq<ParamView>) -> Seq<char> {
    match last_value(params, "filter"@) {
        Some(name) => name,
        None => "Rsql"@,
    }
}

/// The filters of a request.
pub open spec fn filter_of(params: Seq<ParamView>) -> Result<Seq<ItemView>, ErrorView> {
    if grammar_of(params) == "Rsql"@ {
        items_of(filter_params_of(params))
    } else {
        Err(failure(ErrorKind::MalformedQuery, "filter"@, grammar_of(params)))
    }
}

/// The value of the last parameter with the key `key`.
pub fn find_last<'a>(params: &'a Vec<QueryParam>, key: &str) -> (r: Option<&'a String>)
    ensures
        match r {
            Some(value) => last_value(query_views(params@), key@) == Some(value@),
            None => last_value(query_views(params@), key@) is None,
        },
{
    let wanted = String::from_str(key);
    let ghost all = query_views(params@);
    let mut i: usize = params.len();
    assert(all.take(i as int) =~= all);
    while i > 0
        invariant
            i <= params.len(),
            wanted@ == key@,
            all == query_views(params@),
            last_value(all, key@) == last_value(all.take(i as int), key@),
        decreases i,
    {
        proof {
            assert(all.take(i as int).drop_last() =~= all.take(i - 1));
        }
        if params[i - 1].key == wanted {
            return Some(&params[i - 1].value);
        }
        i = i - 1;
    }
    None
}

/// The fieldsets of a request.
pub fn read_fields(params: &Vec<QueryParam>) -> (out: Vec<FieldSet>)
    ensures
        fieldset_views(out@) == fields_of(query_views(params@)),
{
    let ghost all = query_views(params@);
    let mut out: Vec<FieldSet> = Vec::new();
    let mut i: usize = 0;
    while i < params.len()
        invariant
            i <= params.len(),
            all == query_views(params@),
            fieldset_views(out@) == fields_of(all.take(i as int)),
        decreases params.len() - i,
    {
        proof {
            assert(all.take(i + 1).drop_last() =~= all.take(i as int));
        }
        match name_in_brackets(params[i].key.as_str(), "fields") {
            Some(ty) => {
                let names = read_list(params[i].value.as_str());
                out.push(FieldSet { ty, names });
            },
            None => {},
        }
        i = i + 1;
    }
    assert(all.take(params.len() as int) =~= all);
    out
}

/// The count that the parameter `key` writes.
pub fn read_count(params: &Vec<QueryParam>, key: &str) -> (r: Result<usize, Error>)
    ensures
        match r {
            Ok(n) => count_of(query_views(params@), key@) == Ok::<usize, ErrorView>(n),
            Err(e) => count_of(query_views(params@), key@) == Err::<usize, ErrorView>(e@),
        },
{
    match find_last(params, key) {
        None => Err(Error::about(ErrorKind::MalformedQuery, key)),
        Some(value) => match parse_usize(value.as_str()) {
            Some(n) => Ok(n),
            None => Err(Error::new(ErrorKind::MalformedQuery, key, value.as_str())),
        },
    }
}

/// The page that a request asks for.
pub fn read_page(params: &Vec<QueryParam>) -> (r: Result<Option<PageQuery>, Error>)
    ensures
        match r {
            Ok(Some(page)) => page_of(query_views(params@)) == Ok::<Option<PageView>, ErrorView>(
                Some(page@),
            ),
            Ok(None) => page_of(query_views(params@)) == Ok::<Option<PageView>, ErrorView>(None),
            Err(e) => page_of(query_views(params@)) == Err::<Option<PageView>, ErrorView>(e@),
        },
{
    match find_last(params, "page[cursor]") {
        Some(target) => {
            let limit = read_count(params, "page[limit]")?;
            let is_look_after: bool = match find_last(params, "page[after]") {
                None => true,
                Some(flag) => match parse_bool(flag.as_str()) {
                    Some(after) => after,
                    None => {
                        return Err(
                            Error::new(ErrorKind::MalformedQuery, "page[after]", flag.as_str()),
                        );
                    },
                },
            };
            Ok(
                Some(
                    PageQuery::CursorBased(
                        CursorBasedData { target_id: target.clone(), is_look_after, limit },
                    ),
                ),
            )
        },
        None => {
            if find_last(params, "page[number]").is_none() && find_last(
                params,
                "page[size]",
            ).is_none() {
                Ok(None)
            } else {
                let number = read_count(params, "page[number]")?;
                let size = read_count(params, "page[size]")?;
                Ok(Some(PageQuery::OffsetBased(OffsetBasedData { number, size })))
            }
        },
    }
}

/// The filter parameters of a request.
pub fn read_filter_params(params: Vec<QueryParam>) -> (out: Vec<FilterParam>)
    ensures
        param_views(out@) == filter_params_of(query_views(params@)),
{
    let ghost all = query_views(params@);
    let mut out: Vec<FilterParam> = Vec::new();
    for param in it: params
        invariant
            it.seq() == params@,
            all == query_views(params@),
            param_views(out@) == filter_params_of(all.take(it.index() as int)),
    {
        let ghost n = it.index() as int;
        proof {
            assert(all.take(n + 1).drop_last() =~= all.take(n));
        }
        match name_in_brackets(param.key.as_str(), "filter") {
            Some(key) => {
                let QueryParam { key: _, value, parsed } = param;
                out.push(FilterParam { key, raw: value, parsed });
            },
            None => {},
        }
    }
    assert(all.take(params@.len() as int) =~= all);
    out
}

/// The relationships to walk, as plain values.
pub open spec fn includes_view(includes: Option<Vec<String>>) -> Option<Seq<Seq<char>>> {
    match includes {
        Some(names) => Some(names_of(names@)),
        None => None,
    }
}

/// The page of a query, as a plain value.
pub open spec fn page_view(page: Option<PageQuery>) -> Option<PageView> {
    match page {
        Some(p) => Some(p@),
        None => None,
    }
}

/// The filters of a query, as plain values.
pub open spec fn filter_view(filter: Option<FilterQuery>) -> Seq<ItemView> {
    match filter {
        Some(f) => f.items(),
        None => Seq::empty(),
    }
}

/// Whether `query` is the query that the parameters write.
pub open spec fn reads_as(params: Seq<ParamView>, query: Query) -> bool {
    &&& includes_view(query.includes) == includes_of(params)
    &&& fieldset_views(query.fields@) == fields_of(params)
    &&& sort_of(params) == Ok::<Seq<(Seq<char>, OrderType)>, ErrorView>(sort_views(query.sort.0@))
    &&& page_of(params) == Ok::<Option<PageView>, ErrorView>(page_view(query.page))
    &&& filter_of(params) == Ok::<Seq<ItemView>, ErrorView>(filter_view(query.filter))
    &&& query.filter matches Some(f) ==> f.items().len() > 0
}

/// The failure of the parameters of a request: that of its sort keys, or
/// else that of its page, or else that of its filters.
pub open spec fn misread(params: Seq<ParamView>) -> Option<ErrorView> {
    match sort_of(params) {
        Err(e) => Some(e),
        Ok(_) => match page_of(params) {
            Err(e) => Some(e),
            Ok(_) => match filter_of(params) {
                Err(e) => Some(e),
                Ok(_) => None,
            },
        },
    }
}

impl Query {
    /// The query that the parameters of a request write. Parameters that
    /// the engine does not know are passed over; of parameters that can
    /// stand once, the last one counts.
    pub fn from_params(params: Vec<QueryParam>) -> (r: Result<Query, Error>)
        ensures
            match r {
                Ok(query) => reads_as(query_views(params@), query),
                Err(e) => misread(query_views(params@)) == Some(e@),
            },
    {
        let includes: Option<Vec<String>> = match find_last(&params, "include") {
            Some(value) => Some(read_list(value.as_str())),
            None => None,
        };
        let fields = read_fields(&params);
        let sort = match find_last(&params, "sort") {
            Some(value) => SortQuery::parse(value.as_str())?,
            None => {
                let none = SortQuery(Vec::new());
                assert(sort_views(none.0@) =~= Seq::<(Seq<char>, OrderType)>::empty());
                none
            },
        };
        let page = read_page(&params)?;
        let grammar: String = match find_last(&params, "filter") {
            Some(name) => name.clone(),
            None => String::from_str("Rsql"),
        };
        let filter = FilterQuery::new(grammar.as_str(), read_filter_params(params))?;
        Ok(Query { includes, fields, sort, page, filter })
    }
}

} // verus!
