//! Links: where a resource, or a relationship of it, can be fetched.

use crate::model::resource::IdentifierView;
use vstd::prelude::*;
use vstd::string::*;

verus! {

/// A named address.
#[derive(Debug, PartialEq, Eq)]
pub struct Link {
    pub name: String,
    pub href: String,
}

/// A link as a plain value.
pub struct LinkView {
    pub name: Seq<char>,
    pub href: Seq<char>,
}

impl View for Link {
    type V = LinkView;

    open spec fn view(&self) -> LinkView {
        LinkView { name: self.name@, href: self.href@ }
    }
}

/// The links of `items` as plain values.
pub open spec fn link_views(items: Seq<Link>) -> Seq<LinkView> {
    Seq::new(items.len(), |i: int| items[i]@)
}

/// The address of a resource below the base address `uri`.
pub open spec fn resource_path(uri: Seq<char>, id: IdentifierView) -> Seq<char> {
    uri + "/"@ + id.ty + "/"@ + id.id
}

/// The one link of a resource: to itself.
pub open spec fn resource_links(uri: Seq<char>, id: IdentifierView) -> Seq<LinkView> {
    seq![LinkView { name: "self"@, href: resource_path(uri, id) }]
}

/// The two links of the relationship `name` of a resource: to the
/// relationship itself and to what it leads to.
pub open spec fn relationship_links(uri: Seq<char>, id: IdentifierView, name: Seq<char>) -> Seq<
    LinkView,
> {
    seq![
        LinkView { name: "self"@, href: resource_path(uri, id) + "/relationships/"@ + name },
        LinkView { name: "related"@, href: resource_path(uri, id) + "/"@ + name },
    ]
}

impl Clone for Link {
    fn clone(&self) -> (out: Self)
        ensures
            out@ == self@,
    {
        Link { name: self.name.clone(), href: self.href.clone() }
    }
}

impl Link {
    /// The link `name` to the address `href`.
    pub fn new(name: &str, href: String) -> (out: Link)
        ensures
            out@ == (LinkView { name: name@, href: href@ }),
    {
        Link { name: String::from_str(name), href }
    }
}

/// The address of the resource `ty`/`id` below `uri`.
pub fn path_to(uri: &str, ty: &str, id: &str) -> (out: String)
    ensures
        out@ == resource_path(uri@, IdentifierView { ty: ty@, id: id@ }),
{
    String::from_str(uri).concat("/").concat(ty).concat("/").concat(id)
}

/// The links of the resource `ty`/`id`.
pub fn links_of_resource(uri: &str, ty: &str, id: &str) -> (out: Vec<Link>)
    ensures
        link_views(out@) == resource_links(uri@, IdentifierView { ty: ty@, id: id@ }),
{
    let mut out: Vec<Link> = Vec::new();
    out.push(Link::new("self", path_to(uri, ty, id)));
    out
}

/// The links of the relationship `name` of the resource `ty`/`id`.
pub fn links_of_relationship(uri: &str, ty: &str, id: &str, name: &str) -> (out: Vec<Link>)
    ensures
        link_views(out@) == relationship_links(uri@, IdentifierView { ty: ty@, id: id@ }, name@),
{
    let mut out: Vec<Link> = Vec::new();
    out.push(Link::new("self", path_to(uri, ty, id).concat("/relationships/").concat(name)));
    out.push(Link::new("related", path_to(uri, ty, id).concat("/").concat(name)));
    out
}

} // verus!
