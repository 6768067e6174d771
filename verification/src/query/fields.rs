//! Sparse fieldsets and the choice of relationships to include.

use crate::model::resource::names_of;
use vstd::prelude::*;
use vstd::string::*;

verus! {

/// The attributes to show of the resources of one type.
#[derive(Clone, Debug, PartialEq, Eq)]
pub struct FieldSet {
    pub ty: String,
    pub names: Vec<String>,
}

/// The fieldsets of `fields` as plain values: a type, and names.
pub open spec fn fieldset_views(fields: Seq<FieldSet>) -> Seq<(Seq<char>, Seq<Seq<char>>)> {
    Seq::new(fields.len(), |i: int| (fields[i].ty@, names_of(fields[i].names@)))
}

/// The names that `fields` lists for the type `ty`: those of the first
/// fieldset for that type. Where there is none, nothing is left out.
pub open spec fn fieldset_for(fields: Seq<FieldSet>, ty: Seq<char>) -> Option<Seq<Seq<char>>>
    decreases fields.len(),
{
    if fields.len() == 0 {
        None
    } else if fields[0].ty@ == ty {
        Some(names_of(fields[0].names@))
    } else {
        fieldset_for(fields.drop_first(), ty)
    }
}

/// Whether the relationship `name` is walked for inclusion: all are where
/// the request names none, else those that it names, by their exact names.
pub open spec fn is_included(includes: Option<Vec<String>>, name: Seq<char>) -> bool {
    match includes {
        None => true,
        Some(names) => names_of(names@).contains(name),
    }
}

/// The fieldset for `ty`, where the request has one.
pub fn find_fieldset<'a>(fields: &'a Vec<FieldSet>, ty: &String) -> (r: Option<&'a Vec<String>>)
    ensures
        match r {
            Some(names) => fieldset_for(fields@, ty@) == Some(names_of(names@)),
            None => fieldset_for(fields@, ty@) is None,
        },
{
    let mut i: usize = 0;
    assert(fields@.skip(0) =~= fields@);
    while i < fields.len()
        invariant
            i <= fields.len(),
            fieldset_for(fields@, ty@) == fieldset_for(fields@.skip(i as int), ty@),
        decreases fields.len() - i,
    {
        assert(fields@.skip(i as int).drop_first() =~= fields@.skip(i + 1));
        if fields[i].ty == *ty {
            return Some(&fields[i].names);
        }
        i = i + 1;
    }
    None
}

} // verus!
