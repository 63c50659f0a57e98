//! The entities a directory service reports: each a name and a bag of
//! attributes, each attribute a list of strings.
use vstd::prelude::*;
use crate::error::SyncError;
use crate::text::same_text;

verus! {

/// The three kinds of entity the directory holds.
#[derive(Clone, Copy, Debug, PartialEq, Eq, Structural)]
pub enum Kind {
    Group,
    Person,
    Oauth2,
}

/// One attribute of a remote entity. `values` is `None` when the service
/// reported something other than a list.
#[derive(Debug)]
pub struct Attr {
    pub name: String,
    pub values: Option<Vec<String>>,
}

/// One remote entity.
#[derive(Debug)]
pub struct Entity {
    pub name: String,
    pub attrs: Vec<Attr>,
}

/// What reading one attribute of one entity gives.
pub enum Lookup {
    NoEntity,
    Malformed,
    Values(Seq<Seq<char>>),
}

/// The first index at or after `i` of an entity named `name`, or `es.len()`.
pub open spec fn entity_from(es: Seq<Entity>, name: Seq<char>, i: int) -> int
    decreases es.len() - i,
{
    if i < 0 || i >= es.len() {
        es.len() as int
    } else if es[i].name@ == name {
        i
    } else {
        entity_from(es, name, i + 1)
    }
}

/// The entity named `name` (the first, should there be several).
pub open spec fn lookup_entity(es: Seq<Entity>, name: Seq<char>) -> Option<Entity> {
    let i = entity_from(es, name, 0);
    if i < es.len() {
        Some(es[i])
    } else {
        None
    }
}

/// The snapshot holds an entity named `name`.
pub open spec fn has_entity(es: Seq<Entity>, name: Seq<char>) -> bool {
    lookup_entity(es, name) is Some
}

/// The first index at or after `i` of an attribute named `key`, or `a.len()`.
pub open spec fn attr_from(a: Seq<Attr>, key: Seq<char>, i: int) -> int
    decreases a.len() - i,
{
    if i < 0 || i >= a.len() {
        a.len() as int
    } else if a[i].name@ == key {
        i
    } else {
        attr_from(a, key, i + 1)
    }
}

/// The attribute named `key` of `e`.
pub open spec fn lookup_attr(e: Entity, key: Seq<char>) -> Option<Attr> {
    let i = attr_from(e.attrs@, key, 0);
    if i < e.attrs@.len() {
        Some(e.attrs@[i])
    } else {
        None
    }
}

/// Reading attribute `key` of entity `name`: a missing attribute reads as no
/// values.
pub open spec fn value_lookup(es: Seq<Entity>, name: Seq<char>, key: Seq<char>) -> Lookup {
    match lookup_entity(es, name) {
        None => Lookup::NoEntity,
        Some(e) => match lookup_attr(e, key) {
            None => Lookup::Values(Seq::empty()),
            Some(a) => match a.values {
                None => Lookup::Malformed,
                Some(v) => Lookup::Values(v.deep_view()),
            },
        },
    }
}

/// The values of attribute `key` of `e`, with a missing or malformed attribute
/// read as no values.
pub open spec fn values_or_empty(e: Entity, key: Seq<char>) -> Seq<Seq<char>> {
    match lookup_attr(e, key) {
        Some(a) => match a.values {
            Some(v) => v.deep_view(),
            None => Seq::empty(),
        },
        None => Seq::empty(),
    }
}

pub fn find_entity(es: &Vec<Entity>, name: &str) -> (r: Option<usize>)
    ensures
        match r {
            Some(i) => i < es@.len() && i == entity_from(es@, name@, 0),
            None => entity_from(es@, name@, 0) == es@.len(),
        },
{
    let mut i: usize = 0;
    while i < es.len()
        invariant
            i <= es.len(),
            entity_from(es@, name@, i as int) == entity_from(es@, name@, 0),
        decreases es.len() - i,
    {
        if same_text(es[i].name.as_str(), name) {
            return Some(i);
        }
        i = i + 1;
    }
    None
}

pub fn contains_entity(es: &Vec<Entity>, name: &str) -> (r: bool)
    ensures
        r == has_entity(es@, name@),
{
    find_entity(es, name).is_some()
}

pub fn find_attr(e: &Entity, key: &str) -> (r: Option<usize>)
    ensures
        match r {
            Some(i) => i < e.attrs@.len() && i == attr_from(e.attrs@, key@, 0),
            None => attr_from(e.attrs@, key@, 0) == e.attrs@.len(),
        },
{
    let mut i: usize = 0;
    while i < e.attrs.len()
        invariant
            i <= e.attrs.len(),
            attr_from(e.attrs@, key@, i as int) == attr_from(e.attrs@, key@, 0),
        decreases e.attrs.len() - i,
    {
        if same_text(e.attrs[i].name.as_str(), key) {
            return Some(i);
        }
        i = i + 1;
    }
    None
}

/// The values of attribute `key` of `e`; missing or malformed reads as empty.
pub fn entity_values(e: &Entity, key: &str) -> (r: Vec<String>)
    ensures
        r.deep_view() == values_or_empty(*e, key@),
{
    match find_attr(e, key) {
        Some(i) => match &e.attrs[i].values {
            Some(v) => v.clone(),
            None => Vec::new(),
        },
        None => Vec::new(),
    }
}

/// The string values of attribute `attr` of the entity `name` in `existing`.
pub fn get_value_array(attr: &str, existing: &Vec<Entity>, name: &str) -> (r: Result<
    Vec<String>,
    SyncError,
>)
    ensures
        match value_lookup(existing@, name@, attr@) {
            Lookup::NoEntity => match r {
                Err(SyncError::UnknownEntity { name: n }) => n@ == name@,
                _ => false,
            },
            Lookup::Malformed => match r {
                Err(SyncError::InvalidAttr { name: n, attr: a }) => n@ == name@ && a@ == attr@,
                _ => false,
            },
            Lookup::Values(v) => r is Ok && r->Ok_0.deep_view() == v,
        },
{
    match find_entity(existing, name) {
        None => Err(SyncError::UnknownEntity { name: name.to_owned() }),
        Some(i) => {
            let e = &existing[i];
            match find_attr(e, attr) {
                None => Ok(Vec::new()),
                Some(j) => match &e.attrs[j].values {
                    None => Err(SyncError::InvalidAttr { name: name.to_owned(), attr: attr.to_owned() }),
                    Some(v) => Ok(v.clone()),
                },
            }
        },
    }
}

} // verus!
