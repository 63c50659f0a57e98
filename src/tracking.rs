//! Provenance tracking: a reserved group whose members are every name this
//! tool has provisioned, the removal of provisioned entities no longer
//! declared, and the check that declared names are unique across kinds.
use vstd::prelude::*;
use crate::call::{Call, CallView, push_call, step_view, view_calls};
use crate::codec::{strip_realm_all, unqualified_all};
use crate::error::{NameUse, SyncError};
use crate::remote::Kind;
use crate::reconcile::{entity_attr_step, lookup_failure, update_entity_attrs};
use crate::remote::{contains_entity, get_value_array, has_entity, value_lookup, Entity, Lookup};
use crate::state::State;
use crate::codec::contains_name;
use crate::text::same_text;

verus! {

/// The name of the group that records every provisioned name.
pub open spec fn tracking_group() -> Seq<char> {
    "ext_idm_provisioned_entities"@
}

pub fn tracking_group_name() -> (r: &'static str)
    ensures
        r@ == tracking_group(),
{
    "ext_idm_provisioned_entities"
}

/// Creates the tracking group when the snapshot of groups lacks it.
pub fn setup_provision_tracking(groups: &Vec<Entity>) -> (r: Vec<Call>)
    ensures
        view_calls(r@) == if has_entity(groups@, tracking_group()) {
            Seq::<CallView>::empty()
        } else {
            seq![
                CallView::CreateGroup { name: tracking_group() },
                CallView::Refresh { kind: Kind::Group },
            ]
        },
{
    let mut out: Vec<Call> = Vec::new();
    let name = tracking_group_name();
    if !contains_entity(groups, name) {
        push_call(&mut out, Call::CreateGroup { name: name.to_owned() });
        push_call(&mut out, Call::Refresh { kind: Kind::Group });
    }
    proof {
        if has_entity(groups@, tracking_group()) {
            assert(view_calls(out@) =~= Seq::<CallView>::empty());
        }
    }
    out
}

/// The names the tracking group records, without their realm.
pub fn provisioned_entities(groups: &Vec<Entity>) -> (r: Result<Vec<String>, SyncError>)
    ensures
        match value_lookup(groups@, tracking_group(), "member"@) {
            Lookup::NoEntity => r matches Err(SyncError::MissingTrackingGroup),
            Lookup::Values(v) => r is Ok && r->Ok_0.deep_view() == unqualified_all(v),
            l => r is Err && r->Err_0@ == lookup_failure(l, tracking_group(), "member"@),
        },
{
    let name = tracking_group_name();
    if !contains_entity(groups, name) {
        return Err(SyncError::MissingTrackingGroup);
    }
    match get_value_array("member", groups, name) {
        Ok(v) => Ok(strip_realm_all(&v)),
        Err(e) => Err(e),
    }
}

/// Adds every declared name to the tracking group's members. It only ever
/// appends, so no name is lost should a run fail part way.
pub fn track_provisioned(groups: &Vec<Entity>, declared: &Vec<String>) -> (r: Result<Option<Call>, SyncError>)
    ensures
        step_view(r) == entity_attr_step(
            groups@,
            Kind::Group,
            tracking_group(),
            "member"@,
            declared.deep_view(),
            true,
        ),
{
    update_entity_attrs(Kind::Group, groups, tracking_group_name(), "member", declared.clone(), true)
}

/// The deletion that removes the entity `name` from whichever kind holds it,
/// looking at groups, then persons, then OAuth2 clients.
pub open spec fn orphan_delete(
    name: Seq<char>,
    groups: Seq<Entity>,
    persons: Seq<Entity>,
    oauth2s: Seq<Entity>,
) -> Seq<CallView> {
    if has_entity(groups, name) {
        seq![CallView::DeleteEntity { kind: Kind::Group, name }]
    } else if has_entity(persons, name) {
        seq![CallView::DeleteEntity { kind: Kind::Person, name }]
    } else if has_entity(oauth2s, name) {
        seq![CallView::DeleteEntity { kind: Kind::Oauth2, name }]
    } else {
        Seq::empty()
    }
}

/// Position `i` holds an orphan not already met earlier in the list.
pub open spec fn new_orphan_at(prov: Seq<Seq<char>>, i: int, declared: Seq<Seq<char>>) -> bool {
    !declared.contains(prov[i]) && !prov.subrange(0, i).contains(prov[i])
}

/// The deletions for the first `k` provisioned names.
pub open spec fn orphan_plan(
    prov: Seq<Seq<char>>,
    declared: Seq<Seq<char>>,
    groups: Seq<Entity>,
    persons: Seq<Entity>,
    oauth2s: Seq<Entity>,
    k: int,
) -> Seq<CallView>
    decreases k,
{
    if k <= 0 {
        Seq::empty()
    } else {
        orphan_plan(prov, declared, groups, persons, oauth2s, k - 1) + if new_orphan_at(
            prov,
            k - 1,
            declared,
        ) {
            orphan_delete(prov[k - 1], groups, persons, oauth2s)
        } else {
            Seq::empty()
        }
    }
}

fn seen_before(v: &Vec<String>, i: usize) -> (r: bool)
    requires
        i < v.len(),
    ensures
        r == v.deep_view().subrange(0, i as int).contains(v.deep_view()[i as int]),
{
    let mut j: usize = 0;
    while j < i
        invariant
            i < v.len(),
            j <= i,
            forall|t: int| 0 <= t < j ==> v.deep_view()[t] != v.deep_view()[i as int],
        decreases i - j,
    {
        if same_text(v[j].as_str(), v[i].as_str()) {
            assert(v.deep_view().subrange(0, i as int)[j as int] == v.deep_view()[i as int]);
            return true;
        }
        j = j + 1;
    }
    assert forall|t: int| 0 <= t < i implies v.deep_view().subrange(0, i as int)[t] != v.deep_view()[i as int] by {}
    false
}

/// Deletes every provisioned entity that is no longer declared: once per
/// name, from the first kind that holds it; names no kind holds are skipped.
pub fn remove_orphaned_entities(
    provisioned: &Vec<String>,
    groups: &Vec<Entity>,
    persons: &Vec<Entity>,
    oauth2s: &Vec<Entity>,
    declared: &Vec<String>,
) -> (r: Vec<Call>)
    ensures
        view_calls(r@) == orphan_plan(
            provisioned.deep_view(),
            declared.deep_view(),
            groups@,
            persons@,
            oauth2s@,
            provisioned.len() as int,
        ),
{
    let ghost prov = provisioned.deep_view();
    let mut out: Vec<Call> = Vec::new();
    let mut i: usize = 0;
    assert(view_calls(out@) =~= Seq::empty());
    while i < provisioned.len()
        invariant
            i <= provisioned.len(),
            prov == provisioned.deep_view(),
            view_calls(out@) == orphan_plan(
                prov,
                declared.deep_view(),
                groups@,
                persons@,
                oauth2s@,
                i as int,
            ),
        decreases provisioned.len() - i,
    {
        let ghost before = view_calls(out@);
        let name = provisioned[i].as_str();
        if !contains_name(declared, name) && !seen_before(provisioned, i) {
            if contains_entity(groups, name) {
                push_call(&mut out, Call::DeleteEntity { kind: Kind::Group, name: name.to_owned() });
            } else if contains_entity(persons, name) {
                push_call(&mut out, Call::DeleteEntity { kind: Kind::Person, name: name.to_owned() });
            } else if contains_entity(oauth2s, name) {
                push_call(&mut out, Call::DeleteEntity { kind: Kind::Oauth2, name: name.to_owned() });
            }
            proof {
                assert(view_calls(out@) =~= before + orphan_delete(
                    prov[i as int],
                    groups@,
                    persons@,
                    oauth2s@,
                ));
            }
        } else {
            assert(view_calls(out@) =~= before + Seq::<CallView>::empty());
        }
        i = i + 1;
    }
    out
}

/// Every declared name with its kind: groups, then persons, then OAuth2
/// clients.
pub open spec fn declared_uses(s: State) -> Seq<(Seq<char>, Kind)> {
    s.groups@.map_values(|e: (String, crate::state::Group)| (e.0@, Kind::Group))
        + s.persons@.map_values(|e: (String, crate::state::Person)| (e.0@, Kind::Person))
        + s.systems.oauth2@.map_values(
        |e: (String, crate::state::Oauth2System)| (e.0@, Kind::Oauth2),
    )
}

/// The names of a list of uses.
pub open spec fn use_names(uses: Seq<(Seq<char>, Kind)>) -> Seq<Seq<char>> {
    uses.map_values(|u: (Seq<char>, Kind)| u.0)
}

/// The kinds under which `n` is declared among the first `k` uses.
pub open spec fn kinds_of(uses: Seq<(Seq<char>, Kind)>, n: Seq<char>, k: int) -> Seq<Kind>
    decreases k,
{
    if k <= 0 {
        Seq::empty()
    } else {
        kinds_of(uses, n, k - 1) + if uses[k - 1].0 == n {
            seq![uses[k - 1].1]
        } else {
            Seq::empty()
        }
    }
}

/// Position `i` is the first use of its name.
pub open spec fn first_use(uses: Seq<(Seq<char>, Kind)>, i: int) -> bool {
    forall|j: int| 0 <= j < i ==> uses[j].0 != uses[i].0
}

/// Among the first `k` uses, each name declared more than once, at its first
/// use, with all its kinds.
pub open spec fn dup_report(uses: Seq<(Seq<char>, Kind)>, k: int) -> Seq<(Seq<char>, Seq<Kind>)>
    decreases k,
{
    if k <= 0 {
        Seq::empty()
    } else {
        let n = uses[k - 1].0;
        let kinds = kinds_of(uses, n, uses.len() as int);
        dup_report(uses, k - 1) + if first_use(uses, k - 1) && kinds.len() > 1 {
            seq![(n, kinds)]
        } else {
            Seq::empty()
        }
    }
}

/// A list of name uses, viewed.
pub open spec fn view_name_uses(d: Seq<NameUse>) -> Seq<(Seq<char>, Seq<Kind>)> {
    d.map_values(|u: NameUse| (u.name@, u.kinds@))
}

proof fn lemma_report_empty_prefix(uses: Seq<(Seq<char>, Kind)>, k: int, f: int)
    requires
        0 <= f < k <= uses.len(),
        dup_report(uses, k).len() == 0,
    ensures
        !(first_use(uses, f) && kinds_of(uses, uses[f].0, uses.len() as int).len() > 1),
    decreases k,
{
    if f < k - 1 {
        lemma_report_empty_prefix(uses, k - 1, f);
    }
}

proof fn lemma_kinds_grow(uses: Seq<(Seq<char>, Kind)>, n: Seq<char>, m: int, k: int)
    requires
        0 <= m <= k,
    ensures
        kinds_of(uses, n, m).len() <= kinds_of(uses, n, k).len(),
    decreases k,
{
    if m < k {
        lemma_kinds_grow(uses, n, m, k - 1);
    }
}

proof fn lemma_first_use_exists(uses: Seq<(Seq<char>, Kind)>, i: int) -> (f: int)
    requires
        0 <= i < uses.len(),
    ensures
        0 <= f <= i,
        first_use(uses, f),
        uses[f].0 == uses[i].0,
    decreases i,
{
    if first_use(uses, i) {
        i
    } else {
        let j = choose|j: int| 0 <= j < i && uses[j].0 == uses[i].0;
        lemma_first_use_exists(uses, j)
    }
}

/// When no name is reported, the declared names are pairwise distinct.
pub proof fn lemma_no_report_means_unique(uses: Seq<(Seq<char>, Kind)>)
    requires
        dup_report(uses, uses.len() as int).len() == 0,
    ensures
        use_names(uses).no_duplicates(),
{
    let names = use_names(uses);
    assert forall|i: int, j: int| 0 <= i < names.len() && 0 <= j < names.len() && i != j implies names[i]
        != names[j] by {
        if names[i] == names[j] {
            let (a, b) = if i < j {
                (i, j)
            } else {
                (j, i)
            };
            let n = uses[a].0;
            lemma_kinds_grow(uses, n, a + 1, b);
            lemma_kinds_grow(uses, n, b + 1, uses.len() as int);
            let f = lemma_first_use_exists(uses, a);
            lemma_report_empty_prefix(uses, uses.len() as int, f);
        }
    }
}

proof fn lemma_kinds_of_single(uses: Seq<(Seq<char>, Kind)>, p: int, m: int)
    requires
        0 <= p < uses.len(),
        0 <= m <= uses.len(),
        forall|j: int| 0 <= j < uses.len() && j != p ==> uses[j].0 != uses[p].0,
    ensures
        kinds_of(uses, uses[p].0, m).len() == if m > p {
            1int
        } else {
            0int
        },
    decreases m,
{
    if m > 0 {
        lemma_kinds_of_single(uses, p, m - 1);
    }
}

proof fn lemma_unique_report_prefix(uses: Seq<(Seq<char>, Kind)>, k: int)
    requires
        0 <= k <= uses.len(),
        use_names(uses).no_duplicates(),
    ensures
        dup_report(uses, k).len() == 0,
    decreases k,
{
    if k > 0 {
        lemma_unique_report_prefix(uses, k - 1);
        let p = k - 1;
        assert forall|j: int| 0 <= j < uses.len() && j != p implies uses[j].0 != uses[p].0 by {
            assert(use_names(uses)[j] != use_names(uses)[p]);
        }
        lemma_kinds_of_single(uses, p, uses.len() as int);
    }
}

/// The declared names are pairwise distinct exactly when no name is reported.
pub proof fn lemma_unique_iff_no_report(uses: Seq<(Seq<char>, Kind)>)
    ensures
        use_names(uses).no_duplicates() <==> dup_report(uses, uses.len() as int).len() == 0,
{
    if use_names(uses).no_duplicates() {
        lemma_unique_report_prefix(uses, uses.len() as int);
    }
    if dup_report(uses, uses.len() as int).len() == 0 {
        lemma_no_report_means_unique(uses);
    }
}

fn push_uses<T>(out: &mut Vec<(String, Kind)>, entries: &Vec<(String, T)>, kind: Kind)
    ensures
        final(out)@.map_values(|u: (String, Kind)| (u.0@, u.1)) == old(out)@.map_values(
            |u: (String, Kind)| (u.0@, u.1),
        ) + entries@.map_values(|e: (String, T)| (e.0@, kind)),
{
    let ghost start = out@.map_values(|u: (String, Kind)| (u.0@, u.1));
    let mut i: usize = 0;
    while i < entries.len()
        invariant
            i <= entries.len(),
            out@.map_values(|u: (String, Kind)| (u.0@, u.1)) =~= start + entries@.subrange(
                0,
                i as int,
            ).map_values(|e: (String, T)| (e.0@, kind)),
        decreases entries.len() - i,
    {
        let ghost prev = out@.map_values(|u: (String, Kind)| (u.0@, u.1));
        out.push((entries[i].0.clone(), kind));
        assert(out@.map_values(|u: (String, Kind)| (u.0@, u.1)) =~= prev.push(
            (entries@[i as int].0@, kind),
        ));
        i = i + 1;
        assert(entries@.subrange(0, i as int) =~= entries@.subrange(0, i - 1).push(
            entries@[i - 1],
        ));
    }
    assert(entries@.subrange(0, i as int) =~= entries@);
}

fn is_first_use(uses: &Vec<(String, Kind)>, i: usize) -> (r: bool)
    requires
        i < uses.len(),
    ensures
        r == first_use(uses@.map_values(|u: (String, Kind)| (u.0@, u.1)), i as int),
{
    let ghost uv = uses@.map_values(|u: (String, Kind)| (u.0@, u.1));
    let mut j: usize = 0;
    while j < i
        invariant
            i < uses.len(),
            j <= i,
            uv == uses@.map_values(|u: (String, Kind)| (u.0@, u.1)),
            forall|t: int| 0 <= t < j ==> uv[t].0 != uv[i as int].0,
        decreases i - j,
    {
        if same_text(uses[j].0.as_str(), uses[i].0.as_str()) {
            assert(uv[j as int].0 == uv[i as int].0);
            return false;
        }
        j = j + 1;
    }
    true
}

fn kinds_for(uses: &Vec<(String, Kind)>, name: &str) -> (r: Vec<Kind>)
    ensures
        r@ == kinds_of(uses@.map_values(|u: (String, Kind)| (u.0@, u.1)), name@, uses.len() as int),
{
    let ghost uv = uses@.map_values(|u: (String, Kind)| (u.0@, u.1));
    let mut out: Vec<Kind> = Vec::new();
    let mut j: usize = 0;
    while j < uses.len()
        invariant
            j <= uses.len(),
            uv == uses@.map_values(|u: (String, Kind)| (u.0@, u.1)),
            out@ =~= kinds_of(uv, name@, j as int),
        decreases uses.len() - j,
    {
        if same_text(uses[j].0.as_str(), name) {
            out.push(uses[j].1);
        }
        j = j + 1;
    }
    out
}

/// Every declared name, once the names are known to be unique across all
/// three kinds; otherwise an error listing each name declared more than once
/// with all its kinds.
pub fn all_tracked_entities(state: &State) -> (r: Result<Vec<String>, SyncError>)
    ensures
        ({
            let uses = declared_uses(*state);
            let report = dup_report(uses, uses.len() as int);
            &&& (r is Ok <==> use_names(uses).no_duplicates())
            &&& if report.len() == 0 {
                r is Ok && r->Ok_0.deep_view() == use_names(uses)
                    && r->Ok_0.deep_view().no_duplicates()
            } else {
                match r {
                    Err(SyncError::DuplicateNames { uses: d }) => view_name_uses(d@) == report,
                    _ => false,
                }
            }
        }),
{
    let mut uses: Vec<(String, Kind)> = Vec::new();
    push_uses(&mut uses, &state.groups, Kind::Group);
    push_uses(&mut uses, &state.persons, Kind::Person);
    push_uses(&mut uses, &state.systems.oauth2, Kind::Oauth2);
    let ghost uv = uses@.map_values(|u: (String, Kind)| (u.0@, u.1));
    assert(uv =~= declared_uses(*state));
    proof {
        lemma_unique_iff_no_report(uv);
    }
    let mut report: Vec<NameUse> = Vec::new();
    let mut i: usize = 0;
    while i < uses.len()
        invariant
            i <= uses.len(),
            uv == uses@.map_values(|u: (String, Kind)| (u.0@, u.1)),
            view_name_uses(report@) =~= dup_report(uv, i as int),
        decreases uses.len() - i,
    {
        if is_first_use(&uses, i) {
            let kinds = kinds_for(&uses, uses[i].0.as_str());
            if kinds.len() > 1 {
                report.push(NameUse { name: uses[i].0.clone(), kinds });
            }
        }
        i = i + 1;
    }
    if report.len() > 0 {
        return Err(SyncError::DuplicateNames { uses: report });
    }
    let mut names: Vec<String> = Vec::new();
    let mut k: usize = 0;
    while k < uses.len()
        invariant
            k <= uses.len(),
            uv == uses@.map_values(|u: (String, Kind)| (u.0@, u.1)),
            names.deep_view() =~= use_names(uv.subrange(0, k as int)),
        decreases uses.len() - k,
    {
        let ghost prev = names.deep_view();
        names.push(uses[k].0.clone());
        assert(names.deep_view() =~= prev.push(uv[k as int].0));
        k = k + 1;
        assert(uv.subrange(0, k as int) =~= uv.subrange(0, k - 1).push(uv[k - 1]));
    }
    assert(uv.subrange(0, k as int) =~= uv);
    proof {
        lemma_no_report_means_unique(uv);
    }
    Ok(names)
}

} // verus!
