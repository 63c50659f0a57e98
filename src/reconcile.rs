//! Per-attribute change detection: each function reads the current value from
//! a snapshot, normalizes both sides, and yields the one call that makes the
//! service hold the declared value, or none when it already does.
use vstd::prelude::*;
use crate::call::{Call, CallView, MapKind, step_view};
use crate::codec::{
    claim_entry_fields, claim_entry_is_for, claim_entry_join, claim_entry_matches,
    claim_entry_values, decode_claim_join, decode_claim_values, decode_scope_entry, same_list,
    same_value_set, same_values, scope_entry_group, sorted_form, sorted_values, contains_name, scope_entry_values, strip_realm,
    strip_realm_all, unqualified_all, JoinType,
};
use crate::error::{ErrorView, SyncError};
use crate::remote::Kind;
use crate::remote::{get_value_array, value_lookup, Entity, Lookup};
use crate::text::same_text;

verus! {

/// The error that reading an attribute gives when the read fails as `l` says.
pub open spec fn lookup_failure(l: Lookup, name: Seq<char>, attr: Seq<char>) -> ErrorView {
    match l {
        Lookup::Malformed => ErrorView::InvalidAttr { name, attr },
        _ => ErrorView::UnknownEntity { name },
    }
}

/// The attribute holds the declared values once both sides are normalized:
/// members are compared without their realm and in any order, every other
/// attribute as an exact list.
pub open spec fn attr_in_sync(attr: Seq<char>, cur: Seq<Seq<char>>, desired: Seq<Seq<char>>) -> bool {
    if attr == "member"@ {
        same_values(unqualified_all(cur), desired)
    } else {
        cur == desired
    }
}

/// The current values as compared: members without their realm.
pub open spec fn normalized(attr: Seq<char>, cur: Seq<Seq<char>>) -> Seq<Seq<char>> {
    if attr == "member"@ {
        unqualified_all(cur)
    } else {
        cur
    }
}

/// The values as sent: members in ascending text order.
pub open spec fn payload(attr: Seq<char>, v: Seq<Seq<char>>) -> Seq<Seq<char>> {
    if attr == "member"@ {
        sorted_form(v)
    } else {
        v
    }
}

/// The first `k` desired values that `have` lacks, in order.
pub open spec fn missing_values(have: Seq<Seq<char>>, desired: Seq<Seq<char>>, k: int) -> Seq<
    Seq<char>,
>
    decreases k,
{
    if k <= 0 {
        Seq::empty()
    } else {
        missing_values(have, desired, k - 1) + if have.contains(desired[k - 1]) {
            Seq::empty()
        } else {
            seq![desired[k - 1]]
        }
    }
}

/// The call that brings an attribute from `cur` to `desired`. With `append`
/// the attribute only grows: when it lacks any desired value, the desired
/// values are appended, and nothing is written when it lacks none.
pub open spec fn attr_change(
    kind: Kind,
    name: Seq<char>,
    attr: Seq<char>,
    cur: Seq<Seq<char>>,
    desired: Seq<Seq<char>>,
    append: bool,
) -> Option<CallView> {
    if append {
        let missing = missing_values(normalized(attr, cur), desired, desired.len() as int);
        if missing.len() == 0 {
            None
        } else {
            Some(CallView::AppendAttr { kind, name, attr, values: payload(attr, desired) })
        }
    } else if attr_in_sync(attr, cur, desired) {
        None
    } else if desired.len() == 0 {
        Some(CallView::DeleteAttr { kind, name, attr })
    } else {
        Some(CallView::ReplaceAttr { kind, name, attr, values: payload(attr, desired) })
    }
}

/// The values of `desired` that `have` lacks, in order.
fn missing_from(have: &Vec<String>, desired: &Vec<String>) -> (r: Vec<String>)
    ensures
        r.deep_view() == missing_values(have.deep_view(), desired.deep_view(), desired.len() as int),
{
    let mut out: Vec<String> = Vec::new();
    let mut i: usize = 0;
    while i < desired.len()
        invariant
            i <= desired.len(),
            out.deep_view() =~= missing_values(have.deep_view(), desired.deep_view(), i as int),
        decreases desired.len() - i,
    {
        if !contains_name(have, desired[i].as_str()) {
            let ghost prev = out.deep_view();
            out.push(desired[i].clone());
            assert(out.deep_view() =~= prev.push(desired[i as int]@));
        }
        i = i + 1;
    }
    out
}

fn payload_values(attr: &str, v: Vec<String>) -> (r: Vec<String>)
    ensures
        r.deep_view() == payload(attr@, v.deep_view()),
{
    if same_text(attr, "member") {
        sorted_values(v)
    } else {
        v
    }
}

/// The outcome of `update_entity_attrs`: an error when it fails.
pub open spec fn entity_attr_step(
    es: Seq<Entity>,
    kind: Kind,
    name: Seq<char>,
    attr: Seq<char>,
    desired: Seq<Seq<char>>,
    append: bool,
) -> Result<Option<CallView>, ErrorView> {
    match value_lookup(es, name, attr) {
        Lookup::Values(cur) => Ok(attr_change(kind, name, attr, cur, desired, append)),
        l => Err(lookup_failure(l, name, attr)),
    }
}

/// Decides the write, if any, that makes attribute `attr` of entity `name`
/// hold `values`.
pub fn update_entity_attrs(
    kind: Kind,
    existing: &Vec<Entity>,
    name: &str,
    attr: &str,
    values: Vec<String>,
    append: bool,
) -> (r: Result<Option<Call>, SyncError>)
    ensures
        step_view(r) == entity_attr_step(existing@, kind, name@, attr@, values.deep_view(), append),
{
    let current = match get_value_array(attr, existing, name) {
        Ok(v) => v,
        Err(e) => return Err(e),
    };
    let have = if same_text(attr, "member") {
        strip_realm_all(&current)
    } else {
        current
    };
    if append {
        let missing = missing_from(&have, &values);
        if missing.len() == 0 {
            return Ok(None);
        }
        let sent = payload_values(attr, values);
        return Ok(
            Some(Call::AppendAttr { kind, name: name.to_owned(), attr: attr.to_owned(), values: sent }),
        );
    }
    let in_sync = if same_text(attr, "member") {
        same_value_set(&have, &values)
    } else {
        same_list(&have, &values)
    };
    if in_sync {
        Ok(None)
    } else if values.len() == 0 {
        Ok(Some(Call::DeleteAttr { kind, name: name.to_owned(), attr: attr.to_owned() }))
    } else {
        let sent = payload_values(attr, values);
        Ok(Some(Call::ReplaceAttr { kind, name: name.to_owned(), attr: attr.to_owned(), values: sent }))
    }
}

/// The outcome of `update_oauth2_attrs`: an error when it fails.
pub open spec fn oauth2_attr_step(
    es: Seq<Entity>,
    name: Seq<char>,
    attr: Seq<char>,
    desired: Seq<Seq<char>>,
) -> Result<Option<CallView>, ErrorView> {
    match value_lookup(es, name, attr) {
        Lookup::Values(cur) => Ok(
            if cur == desired {
                None
            } else {
                Some(CallView::PatchOauth2Attr { name, attr, values: desired })
            },
        ),
        l => Err(lookup_failure(l, name, attr)),
    }
}

/// Decides whether attribute `attr` of OAuth2 client `name` must be patched to
/// `values` (compared as an exact list).
pub fn update_oauth2_attrs(existing: &Vec<Entity>, name: &str, attr: &str, values: Vec<String>) -> (r:
    Result<Option<Call>, SyncError>)
    ensures
        step_view(r) == oauth2_attr_step(existing@, name@, attr@, values.deep_view()),
{
    let current = match get_value_array(attr, existing, name) {
        Ok(v) => v,
        Err(e) => return Err(e),
    };
    if same_list(&current, &values) {
        Ok(None)
    } else {
        Ok(Some(Call::PatchOauth2Attr { name: name.to_owned(), attr: attr.to_owned(), values }))
    }
}

/// The first index at or after `i` of a scope-map entry for `group`.
pub open spec fn scope_entry_from(entries: Seq<Seq<char>>, group: Seq<char>, i: int) -> int
    decreases entries.len() - i,
{
    if i < 0 || i >= entries.len() {
        entries.len() as int
    } else if scope_entry_group(entries[i]) == group {
        i
    } else {
        scope_entry_from(entries, group, i + 1)
    }
}

/// The scopes currently mapped for `group` (none without an entry).
pub open spec fn current_scopes(entries: Seq<Seq<char>>, group: Seq<char>) -> Seq<Seq<char>> {
    let i = scope_entry_from(entries, group, 0);
    if i < entries.len() {
        scope_entry_values(entries[i])
    } else {
        Seq::empty()
    }
}

/// The call that maps `group` to `desired` when it maps to `cur`.
pub open spec fn scope_change(
    name: Seq<char>,
    map: MapKind,
    group: Seq<char>,
    cur: Seq<Seq<char>>,
    desired: Seq<Seq<char>>,
) -> Option<CallView> {
    if same_values(cur, desired) {
        None
    } else if desired.len() == 0 {
        Some(CallView::RemoveScopeMap { name, map, group })
    } else {
        Some(CallView::SetScopeMap { name, map, group, scopes: sorted_form(desired) })
    }
}

/// The outcome of `update_oauth2_map`: an error when it fails.
pub open spec fn scope_step(
    es: Seq<Entity>,
    name: Seq<char>,
    map: MapKind,
    group: Seq<char>,
    desired: Seq<Seq<char>>,
) -> Result<Option<CallView>, ErrorView> {
    match value_lookup(es, name, map.spec_attr()) {
        Lookup::Values(entries) => Ok(
            scope_change(name, map, group, current_scopes(entries, group), desired),
        ),
        l => Err(lookup_failure(l, name, map.spec_attr())),
    }
}

fn find_scope_entry(entries: &Vec<String>, group: &str) -> (r: usize)
    ensures
        r == scope_entry_from(entries.deep_view(), group@, 0),
        r <= entries.len(),
{
    let mut i: usize = 0;
    while i < entries.len()
        invariant
            i <= entries.len(),
            scope_entry_from(entries.deep_view(), group@, i as int) == scope_entry_from(
                entries.deep_view(),
                group@,
                0,
            ),
        decreases entries.len() - i,
    {
        let key = strip_realm(entries[i].as_str());
        if same_text(key.as_str(), group) {
            return i;
        }
        i = i + 1;
    }
    i
}

/// Decides the change, if any, that makes scope map `map` of OAuth2 client
/// `name` give `group` exactly `scopes` (in any order).
pub fn update_oauth2_map(
    map: MapKind,
    existing: &Vec<Entity>,
    name: &str,
    group: &str,
    scopes: Vec<String>,
) -> (r: Result<Option<Call>, SyncError>)
    ensures
        step_view(r) == scope_step(existing@, name@, map, group@, scopes.deep_view()),
{
    let entries = match get_value_array(map.attr(), existing, name) {
        Ok(v) => v,
        Err(e) => return Err(e),
    };
    let i = find_scope_entry(&entries, group);
    let current = if i < entries.len() {
        decode_scope_entry(entries[i].as_str())
    } else {
        Vec::new()
    };
    assert(current.deep_view() =~= current_scopes(entries.deep_view(), group@));
    if same_value_set(&current, &scopes) {
        Ok(None)
    } else if scopes.len() == 0 {
        Ok(Some(Call::RemoveScopeMap { name: name.to_owned(), map, group: group.to_owned() }))
    } else {
        let scopes = sorted_values(scopes);
        Ok(Some(Call::SetScopeMap { name: name.to_owned(), map, group: group.to_owned(), scopes }))
    }
}

/// The attribute that holds an OAuth2 client's claim maps.
pub open spec fn claim_attr() -> Seq<char> {
    "oauth2_rs_claim_map"@
}

/// The first index at or after `i` of a claim-map entry for `claim` and
/// `group`.
pub open spec fn claim_entry_from(
    entries: Seq<Seq<char>>,
    claim: Seq<char>,
    group: Seq<char>,
    i: int,
) -> int
    decreases entries.len() - i,
{
    if i < 0 || i >= entries.len() {
        entries.len() as int
    } else if claim_entry_matches(entries[i], claim, group) {
        i
    } else {
        claim_entry_from(entries, claim, group, i + 1)
    }
}

/// The values `claim` currently has for `group` (none without an entry).
pub open spec fn current_claim_values(entries: Seq<Seq<char>>, claim: Seq<char>, group: Seq<char>) -> Seq<
    Seq<char>,
> {
    let i = claim_entry_from(entries, claim, group, 0);
    if i < entries.len() {
        claim_entry_values(entries[i])
    } else {
        Seq::empty()
    }
}

/// The call that gives `claim` the values `desired` for `group`.
pub open spec fn claim_change(
    name: Seq<char>,
    claim: Seq<char>,
    group: Seq<char>,
    cur: Seq<Seq<char>>,
    desired: Seq<Seq<char>>,
) -> Option<CallView> {
    if same_values(cur, desired) {
        None
    } else if desired.len() == 0 {
        Some(CallView::RemoveClaimMap { name, claim, group })
    } else {
        Some(CallView::SetClaimMap { name, claim, group, values: sorted_form(desired) })
    }
}

/// The outcome of `update_oauth2_claim_map`: an error when it fails.
pub open spec fn claim_step(
    es: Seq<Entity>,
    name: Seq<char>,
    claim: Seq<char>,
    group: Seq<char>,
    desired: Seq<Seq<char>>,
) -> Result<Option<CallView>, ErrorView> {
    match value_lookup(es, name, claim_attr()) {
        Lookup::Values(entries) => Ok(
            claim_change(name, claim, group, current_claim_values(entries, claim, group), desired),
        ),
        l => Err(lookup_failure(l, name, claim_attr())),
    }
}

/// Whether a claim-map entry belongs to `claim` and `group`.
pub fn entry_matches_claim(e: &str, claim: &str, group: &str) -> (r: bool)
    ensures
        r == claim_entry_matches(e@, claim@, group@),
{
    let fields = claim_entry_fields(e);
    if fields.len() < 2 {
        return false;
    }
    if !same_text(fields[0].as_str(), claim) {
        return false;
    }
    let g = strip_realm(fields[1].as_str());
    same_text(g.as_str(), group)
}

fn find_claim_entry(entries: &Vec<String>, claim: &str, group: &str) -> (r: usize)
    ensures
        r == claim_entry_from(entries.deep_view(), claim@, group@, 0),
        r <= entries.len(),
{
    let mut i: usize = 0;
    while i < entries.len()
        invariant
            i <= entries.len(),
            claim_entry_from(entries.deep_view(), claim@, group@, i as int) == claim_entry_from(
                entries.deep_view(),
                claim@,
                group@,
                0,
            ),
        decreases entries.len() - i,
    {
        if entry_matches_claim(entries[i].as_str(), claim, group) {
            return i;
        }
        i = i + 1;
    }
    i
}

/// Decides the change, if any, that makes `claim` of OAuth2 client `name`
/// hold exactly `values` (in any order) for `group`.
pub fn update_oauth2_claim_map(
    existing: &Vec<Entity>,
    name: &str,
    claim: &str,
    group: &str,
    values: Vec<String>,
) -> (r: Result<Option<Call>, SyncError>)
    ensures
        step_view(r) == claim_step(existing@, name@, claim@, group@, values.deep_view()),
{
    let entries = match get_value_array("oauth2_rs_claim_map", existing, name) {
        Ok(v) => v,
        Err(e) => return Err(e),
    };
    let i = find_claim_entry(&entries, claim, group);
    let current = if i < entries.len() {
        decode_claim_values(entries[i].as_str())
    } else {
        Vec::new()
    };
    assert(current.deep_view() =~= current_claim_values(entries.deep_view(), claim@, group@));
    if same_value_set(&current, &values) {
        Ok(None)
    } else if values.len() == 0 {
        Ok(
            Some(
                Call::RemoveClaimMap {
                    name: name.to_owned(),
                    claim: claim.to_owned(),
                    group: group.to_owned(),
                },
            ),
        )
    } else {
        let values = sorted_values(values);
        Ok(
            Some(
                Call::SetClaimMap {
                    name: name.to_owned(),
                    claim: claim.to_owned(),
                    group: group.to_owned(),
                    values,
                },
            ),
        )
    }
}

/// The first index at or after `i` of an entry that belongs to `claim`.
pub open spec fn claim_join_from(entries: Seq<Seq<char>>, claim: Seq<char>, i: int) -> int
    decreases entries.len() - i,
{
    if i < 0 || i >= entries.len() {
        entries.len() as int
    } else if claim_entry_is_for(entries[i], claim) {
        i
    } else {
        claim_join_from(entries, claim, i + 1)
    }
}

/// The join type the service records for `claim`: that of its first entry, an
/// array when it has none.
pub open spec fn current_join(entries: Seq<Seq<char>>, claim: Seq<char>) -> JoinType {
    let i = claim_join_from(entries, claim, 0);
    if i < entries.len() {
        claim_entry_join(entries[i])
    } else {
        JoinType::Array
    }
}

/// The outcome of `update_oauth2_claim_map_join`: an error when it fails.
pub open spec fn join_step(es: Seq<Entity>, name: Seq<char>, claim: Seq<char>, literal: Seq<char>) -> Result<
    Option<CallView>,
    ErrorView,
> {
    match value_lookup(es, name, claim_attr()) {
        Lookup::Values(entries) => match JoinType::spec_parse(literal) {
            None => Err(ErrorView::InvalidJoinType { name, claim, join_type: literal }),
            Some(j) => Ok(
                if current_join(entries, claim) == j {
                    None
                } else {
                    Some(CallView::SetClaimJoin { name, claim, join: j })
                },
            ),
        },
        l => Err(lookup_failure(l, name, claim_attr())),
    }
}

fn find_claim_join(entries: &Vec<String>, claim: &str) -> (r: usize)
    ensures
        r == claim_join_from(entries.deep_view(), claim@, 0),
        r <= entries.len(),
{
    let mut i: usize = 0;
    while i < entries.len()
        invariant
            i <= entries.len(),
            claim_join_from(entries.deep_view(), claim@, i as int) == claim_join_from(
                entries.deep_view(),
                claim@,
                0,
            ),
        decreases entries.len() - i,
    {
        let fields = claim_entry_fields(entries[i].as_str());
        if fields.len() > 0 && same_text(fields[0].as_str(), claim) {
            return i;
        }
        i = i + 1;
    }
    i
}

/// Decides whether the join type of `claim` of OAuth2 client `name` must be
/// set to the declared literal `join_type`, which must name a join type.
pub fn update_oauth2_claim_map_join(
    existing: &Vec<Entity>,
    name: &str,
    claim: &str,
    join_type: &str,
) -> (r: Result<Option<Call>, SyncError>)
    ensures
        step_view(r) == join_step(existing@, name@, claim@, join_type@),
{
    let entries = match get_value_array("oauth2_rs_claim_map", existing, name) {
        Ok(v) => v,
        Err(e) => return Err(e),
    };
    let i = find_claim_join(&entries, claim);
    let current = if i < entries.len() {
        decode_claim_join(entries[i].as_str())
    } else {
        JoinType::Array
    };
    let wanted = match JoinType::parse(join_type) {
        Some(j) => j,
        None => {
            return Err(
                SyncError::InvalidJoinType {
                    name: name.to_owned(),
                    claim: claim.to_owned(),
                    join_type: join_type.to_owned(),
                },
            );
        },
    };
    if current == wanted {
        Ok(None)
    } else {
        Ok(Some(Call::SetClaimJoin { name: name.to_owned(), claim: claim.to_owned(), join: wanted }))
    }
}

} // verus!
