//! Reconciliation of OAuth2 clients: existence and client type, plain
//! attributes, scope maps, claim maps with their join types, orphaned claim
//! maps, the basic secret and the image.
use vstd::prelude::*;
use crate::call::{plan_view, 
    Call, CallView, ImageType, MapKind, append_calls, join, lemma_join_assoc, lemma_join_empty,
    lift, opt_seq, push_call, push_opt, view_calls, view_opt,
};
use crate::codec::{claim_fields, unqualified};
use crate::error::{ErrorView, SyncError};
use crate::remote::Kind;
use crate::reconcile::{
    claim_attr, claim_step, lookup_failure, join_step, oauth2_attr_step, scope_step, update_oauth2_attrs,
    update_oauth2_claim_map, update_oauth2_claim_map_join, update_oauth2_map,
};
use crate::codec::{claim_entry_fields, strip_realm};
use crate::remote::{
    Entity, Lookup, entity_values, find_entity, get_value_array, has_entity, lookup_entity,
    value_lookup, values_or_empty,
};
use crate::state::{ClaimMap, Oauth2System, lower_of, lowercase};
use crate::codec::contains_name;
use crate::sync::{existence_plan, is_name_in_use, name_taken, steps_view};
use crate::text::{same_text, trim_white};

verus! {

/// The remote client is a public one.
pub open spec fn is_public_entity(e: Entity) -> bool {
    values_or_empty(e, "class"@).contains("oauth2_resource_server_public"@)
}

/// The call that creates the client as declared.
pub open spec fn oauth2_create(name: Seq<char>, o: Oauth2System) -> CallView {
    CallView::CreateOauth2 {
        name,
        public: o.public,
        origins: o.origin_url.spec_strings(),
        landing: o.origin_landing@,
        display_name: o.display_name@,
    }
}

/// What existence of a client requires. A client of the wrong type (public
/// or confidential) is deleted and created again, since the type cannot
/// change in place.
pub open spec fn oauth2_existence_plan(es: Seq<Entity>, name: Seq<char>, o: Oauth2System) -> Seq<CallView> {
    match lookup_entity(es, name) {
        Some(e) => if o.present && is_public_entity(e) != o.public {
            seq![
                CallView::DeleteEntity { kind: Kind::Oauth2, name },
                oauth2_create(name, o),
                CallView::Refresh { kind: Kind::Oauth2 },
            ]
        } else {
            existence_plan(Kind::Oauth2, oauth2_create(name, o), name, o.present, true)
        },
        None => existence_plan(Kind::Oauth2, oauth2_create(name, o), name, o.present, false),
    }
}

/// Creates, recreates (on a type mismatch) or deletes an OAuth2 client.
pub fn sync_oauth2(name: &str, oauth2: &Oauth2System, existing: &Vec<Entity>, preexisting: &Vec<String>) -> (r:
    Result<Vec<Call>, SyncError>)
    ensures
        ({
            let exists = has_entity(existing@, name@);
            if name_taken(oauth2.present, exists, name@, preexisting.deep_view()) {
                r is Err && is_name_in_use(r->Err_0, Kind::Oauth2, name@)
            } else {
                r is Ok && view_calls(r->Ok_0@) == oauth2_existence_plan(existing@, name@, *oauth2)
            }
        }),
{
    let mut out: Vec<Call> = Vec::new();
    let found = find_entity(existing, name);
    let create = Call::CreateOauth2 {
        name: name.to_owned(),
        public: oauth2.public,
        origins: oauth2.origin_url.to_strings(),
        landing: oauth2.origin_landing.clone(),
        display_name: oauth2.display_name.clone(),
    };
    match found {
        Some(i) => {
            if oauth2.present {
                let class = entity_values(&existing[i as usize], "class");
                let is_public = contains_name(&class, "oauth2_resource_server_public");
                if is_public != oauth2.public {
                    push_call(&mut out, Call::DeleteEntity { kind: Kind::Oauth2, name: name.to_owned() });
                    push_call(&mut out, create);
                    push_call(&mut out, Call::Refresh { kind: Kind::Oauth2 });
                }
            } else {
                push_call(&mut out, Call::DeleteEntity { kind: Kind::Oauth2, name: name.to_owned() });
            }
        },
        None => {
            if oauth2.present {
                if contains_name(preexisting, name) {
                    return Err(SyncError::NameInUse { kind: Kind::Oauth2, name: name.to_owned() });
                }
                push_call(&mut out, create);
                push_call(&mut out, Call::Refresh { kind: Kind::Oauth2 });
            }
        },
    }
    proof {
        assert(view_calls(out@) =~= oauth2_existence_plan(existing@, name@, *oauth2));
    }
    Ok(out)
}

/// How a flag is written as an attribute value.
pub open spec fn bool_text(b: bool) -> Seq<char> {
    if b {
        "true"@
    } else {
        "false"@
    }
}

fn flag_text(b: bool) -> (r: String)
    ensures
        r@ == bool_text(b),
{
    if b {
        "true".to_owned()
    } else {
        "false".to_owned()
    }
}

/// The plain attributes of a client, each with the value it should hold. The
/// third differs by client type: localhost redirects apply to public clients,
/// the PKCE exemption to confidential ones.
pub open spec fn oauth2_patch_list(o: Oauth2System) -> Seq<(Seq<char>, Seq<Seq<char>>)> {
    seq![
        ("displayname"@, seq![o.display_name@]),
        ("oauth2_rs_origin_landing"@, seq![o.origin_landing@]),
        if o.public {
            ("oauth2_allow_localhost_redirect"@, seq![bool_text(o.enable_localhost_redirects)])
        } else {
            (
                "oauth2_allow_insecure_client_disable_pkce"@,
                seq![bool_text(o.allow_insecure_client_disable_pkce)],
            )
        },
        ("oauth2_jwt_legacy_crypto_enable"@, seq![bool_text(o.enable_legacy_crypto)]),
        ("oauth2_prefer_short_username"@, seq![bool_text(o.prefer_short_username)]),
        ("oauth2_rs_origin"@, o.origin_url.spec_strings()),
    ]
}

/// Patching each attribute of `steps` in turn, stopping at the first failure.
pub open spec fn patch_fold(es: Seq<Entity>, name: Seq<char>, steps: Seq<(Seq<char>, Seq<Seq<char>>)>) -> Result<Seq<CallView>, ErrorView>
    decreases steps.len(),
{
    if steps.len() == 0 {
        Ok(Seq::empty())
    } else {
        join(
            lift(oauth2_attr_step(es, name, steps[0].0, steps[0].1)),
            patch_fold(es, name, steps.drop_first()),
        )
    }
}

fn patch_attrs(existing: &Vec<Entity>, name: &str, steps: &Vec<(String, Vec<String>)>) -> (r: Result<
    Vec<Call>,
    SyncError,
>)
    ensures
        plan_view(r) == patch_fold(existing@, name@, steps_view(steps@)),
{
    let ghost sv = steps_view(steps@);
    let mut out: Vec<Call> = Vec::new();
    let mut i: usize = 0;
    proof {
        assert(sv.subrange(0, sv.len() as int) =~= sv);
        assert(view_calls(out@) =~= Seq::empty());
        lemma_join_empty(patch_fold(existing@, name@, sv));
    }
    while i < steps.len()
        invariant
            i <= steps.len(),
            sv == steps_view(steps@),
            join(Ok(view_calls(out@)), patch_fold(existing@, name@, sv.subrange(i as int, sv.len() as int)))
                == patch_fold(existing@, name@, sv),
        decreases steps.len() - i,
    {
        let ghost t = sv.subrange(i as int, sv.len() as int);
        let ghost before = view_calls(out@);
        assert(t.drop_first() =~= sv.subrange(i + 1, sv.len() as int));
        assert(t[0] == (steps@[i as int].0@, steps@[i as int].1.deep_view()));
        match update_oauth2_attrs(existing, name, steps[i].0.as_str(), steps[i].1.clone()) {
            Err(e) => {
                return Err(e);
            },
            Ok(c) => {
                proof {
                    lemma_join_assoc(
                        Ok(before),
                        Ok(opt_seq(view_opt(c))),
                        patch_fold(existing@, name@, t.drop_first()),
                    );
                }
                push_opt(&mut out, c);
            },
        }
        i = i + 1;
    }
    proof {
        assert(sv.subrange(i as int, sv.len() as int) =~= Seq::<(Seq<char>, Seq<Seq<char>>)>::empty());
        assert(view_calls(out@) + Seq::<CallView>::empty() =~= view_calls(out@));
    }
    Ok(out)
}

/// Mapping each group of `maps` to its scopes in turn, stopping at the first
/// failure.
pub open spec fn scope_fold(es: Seq<Entity>, name: Seq<char>, map: MapKind, maps: Seq<(String, Vec<String>)>) -> Result<Seq<CallView>, ErrorView>
    decreases maps.len(),
{
    if maps.len() == 0 {
        Ok(Seq::empty())
    } else {
        join(
            lift(scope_step(es, name, map, maps[0].0@, maps[0].1.deep_view())),
            scope_fold(es, name, map, maps.drop_first()),
        )
    }
}

fn sync_scope_maps(map: MapKind, existing: &Vec<Entity>, name: &str, maps: &Vec<(String, Vec<String>)>) -> (r:
    Result<Vec<Call>, SyncError>)
    ensures
        plan_view(r) == scope_fold(existing@, name@, map, maps@),
{
    let ghost sv = maps@;
    let mut out: Vec<Call> = Vec::new();
    let mut i: usize = 0;
    proof {
        assert(sv.subrange(0, sv.len() as int) =~= sv);
        assert(view_calls(out@) =~= Seq::empty());
        lemma_join_empty(scope_fold(existing@, name@, map, sv));
    }
    while i < maps.len()
        invariant
            i <= maps.len(),
            sv == maps@,
            join(Ok(view_calls(out@)), scope_fold(existing@, name@, map, sv.subrange(i as int, sv.len() as int)))
                == scope_fold(existing@, name@, map, sv),
        decreases maps.len() - i,
    {
        let ghost t = sv.subrange(i as int, sv.len() as int);
        let ghost before = view_calls(out@);
        assert(t.drop_first() =~= sv.subrange(i + 1, sv.len() as int));
        match update_oauth2_map(map, existing, name, maps[i].0.as_str(), maps[i].1.clone()) {
            Err(e) => {
                return Err(e);
            },
            Ok(c) => {
                proof {
                    lemma_join_assoc(
                        Ok(before),
                        Ok(opt_seq(view_opt(c))),
                        scope_fold(existing@, name@, map, t.drop_first()),
                    );
                }
                push_opt(&mut out, c);
            },
        }
        i = i + 1;
    }
    proof {
        assert(sv.subrange(i as int, sv.len() as int) =~= Seq::<(String, Vec<String>)>::empty());
        assert(view_calls(out@) + Seq::<CallView>::empty() =~= view_calls(out@));
    }
    Ok(out)
}

/// Giving `claim` its values for each group of `groups` in turn.
pub open spec fn claim_group_fold(
    es: Seq<Entity>,
    name: Seq<char>,
    claim: Seq<char>,
    groups: Seq<(String, Vec<String>)>,
) -> Result<Seq<CallView>, ErrorView>
    decreases groups.len(),
{
    if groups.len() == 0 {
        Ok(Seq::empty())
    } else {
        join(
            lift(claim_step(es, name, claim, groups[0].0@, groups[0].1.deep_view())),
            claim_group_fold(es, name, claim, groups.drop_first()),
        )
    }
}

/// One declared claim: its values per group, then its join type.
pub open spec fn claim_plan(es: Seq<Entity>, name: Seq<char>, claim: Seq<char>, cm: ClaimMap) -> Result<Seq<CallView>, ErrorView> {
    join(
        claim_group_fold(es, name, claim, cm.values_by_group@),
        lift(join_step(es, name, claim, cm.join_type@)),
    )
}

/// Every declared claim in turn.
pub open spec fn claim_fold(es: Seq<Entity>, name: Seq<char>, claims: Seq<(String, ClaimMap)>) -> Result<Seq<CallView>, ErrorView>
    decreases claims.len(),
{
    if claims.len() == 0 {
        Ok(Seq::empty())
    } else {
        join(claim_plan(es, name, claims[0].0@, claims[0].1), claim_fold(es, name, claims.drop_first()))
    }
}

fn sync_claim(existing: &Vec<Entity>, name: &str, claim: &str, cm: &ClaimMap) -> (r: Result<
    Vec<Call>,
    SyncError,
>)
    ensures
        plan_view(r) == claim_plan(existing@, name@, claim@, *cm),
{
    let groups = &cm.values_by_group;
    let ghost sv = groups@;
    let mut out: Vec<Call> = Vec::new();
    let mut i: usize = 0;
    proof {
        assert(sv.subrange(0, sv.len() as int) =~= sv);
        assert(view_calls(out@) =~= Seq::empty());
        lemma_join_empty(claim_group_fold(existing@, name@, claim@, sv));
    }
    while i < groups.len()
        invariant
            i <= groups.len(),
            sv == groups@,
            join(
                Ok(view_calls(out@)),
                claim_group_fold(existing@, name@, claim@, sv.subrange(i as int, sv.len() as int)),
            ) == claim_group_fold(existing@, name@, claim@, sv),
        decreases groups.len() - i,
    {
        let ghost t = sv.subrange(i as int, sv.len() as int);
        let ghost before = view_calls(out@);
        assert(t.drop_first() =~= sv.subrange(i + 1, sv.len() as int));
        match update_oauth2_claim_map(existing, name, claim, groups[i].0.as_str(), groups[i].1.clone()) {
            Err(e) => {
                return Err(e);
            },
            Ok(c) => {
                proof {
                    lemma_join_assoc(
                        Ok(before),
                        Ok(opt_seq(view_opt(c))),
                        claim_group_fold(existing@, name@, claim@, t.drop_first()),
                    );
                }
                push_opt(&mut out, c);
            },
        }
        i = i + 1;
    }
    proof {
        assert(sv.subrange(i as int, sv.len() as int) =~= Seq::<(String, Vec<String>)>::empty());
        assert(view_calls(out@) + Seq::<CallView>::empty() =~= view_calls(out@));
    }
    match update_oauth2_claim_map_join(existing, name, claim, cm.join_type.as_str()) {
        Err(e) => {
            return Err(e);
        },
        Ok(c) => {
            push_opt(&mut out, c);
        },
    }
    Ok(out)
}

fn sync_claims(existing: &Vec<Entity>, name: &str, claims: &Vec<(String, ClaimMap)>) -> (r: Result<
    Vec<Call>,
    SyncError,
>)
    ensures
        plan_view(r) == claim_fold(existing@, name@, claims@),
{
    let ghost sv = claims@;
    let mut out: Vec<Call> = Vec::new();
    let mut i: usize = 0;
    proof {
        assert(sv.subrange(0, sv.len() as int) =~= sv);
        assert(view_calls(out@) =~= Seq::empty());
        lemma_join_empty(claim_fold(existing@, name@, sv));
    }
    while i < claims.len()
        invariant
            i <= claims.len(),
            sv == claims@,
            join(Ok(view_calls(out@)), claim_fold(existing@, name@, sv.subrange(i as int, sv.len() as int)))
                == claim_fold(existing@, name@, sv),
        decreases claims.len() - i,
    {
        let ghost t = sv.subrange(i as int, sv.len() as int);
        let ghost before = view_calls(out@);
        assert(t.drop_first() =~= sv.subrange(i + 1, sv.len() as int));
        match sync_claim(existing, name, claims[i].0.as_str(), &claims[i].1) {
            Err(e) => {
                return Err(e);
            },
            Ok(more) => {
                proof {
                    lemma_join_assoc(
                        Ok(before),
                        Ok(view_calls(more@)),
                        claim_fold(existing@, name@, t.drop_first()),
                    );
                }
                append_calls(&mut out, more);
            },
        }
        i = i + 1;
    }
    proof {
        assert(sv.subrange(i as int, sv.len() as int) =~= Seq::<(String, ClaimMap)>::empty());
        assert(view_calls(out@) + Seq::<CallView>::empty() =~= view_calls(out@));
    }
    Ok(out)
}

/// `claim` is declared with a value list for `group`.
pub open spec fn claim_declared(claims: Seq<(String, ClaimMap)>, claim: Seq<char>, group: Seq<char>) -> bool {
    exists|i: int, j: int|
        0 <= i < claims.len() && claims[i].0@ == claim && 0 <= j
            < claims[i].1.values_by_group@.len() && #[trigger] claims[i].1.values_by_group@[j].0@
            == group
}

fn is_claim_declared(claims: &Vec<(String, ClaimMap)>, claim: &str, group: &str) -> (r: bool)
    ensures
        r == claim_declared(claims@, claim@, group@),
{
    let mut i: usize = 0;
    while i < claims.len()
        invariant
            i <= claims.len(),
            forall|a: int, b: int|
                0 <= a < i && claims@[a].0@ == claim@ && 0 <= b
                    < claims@[a].1.values_by_group@.len() ==> #[trigger] claims@[a].1.values_by_group@[b].0@
                    != group@,
        decreases claims.len() - i,
    {
        if same_text(claims[i].0.as_str(), claim) {
            let groups = &claims[i].1.values_by_group;
            let mut j: usize = 0;
            while j < groups.len()
                invariant
                    j <= groups.len(),
                    i < claims.len(),
                    groups == claims@[i as int].1.values_by_group,
                    claims@[i as int].0@ == claim@,
                    forall|b: int| 0 <= b < j ==> #[trigger] groups@[b].0@ != group@,
                decreases groups.len() - j,
            {
                if same_text(groups[j].0.as_str(), group) {
                    assert(claims@[i as int].1.values_by_group@[j as int].0@ == group@);
                    assert(claims@[i as int].0@ == claim@);
                    assert(claim_declared(claims@, claim@, group@));
                    return true;
                }
                j = j + 1;
            }
        }
        i = i + 1;
    }
    false
}

/// For one claim-map entry of the service: nothing when its claim and group
/// are declared, otherwise the removal of that mapping. An entry without a
/// group field fails.
pub open spec fn orphan_claim_step(
    es: Seq<Entity>,
    name: Seq<char>,
    claims: Seq<(String, ClaimMap)>,
    e: Seq<char>,
) -> Result<Seq<CallView>, ErrorView> {
    let f = claim_fields(e);
    if f.len() < 2 {
        Err(ErrorView::MalformedClaimEntry { name, entry: e })
    } else if claim_declared(claims, f[0], unqualified(f[1])) {
        Ok(Seq::empty())
    } else {
        lift(claim_step(es, name, f[0], unqualified(f[1]), Seq::empty()))
    }
}

/// Every claim-map entry of the service in turn.
pub open spec fn orphan_claim_fold(
    es: Seq<Entity>,
    name: Seq<char>,
    claims: Seq<(String, ClaimMap)>,
    entries: Seq<Seq<char>>,
) -> Result<Seq<CallView>, ErrorView>
    decreases entries.len(),
{
    if entries.len() == 0 {
        Ok(Seq::empty())
    } else {
        join(
            orphan_claim_step(es, name, claims, entries[0]),
            orphan_claim_fold(es, name, claims, entries.drop_first()),
        )
    }
}

/// Removing every claim mapping of the service that the declaration lacks.
pub open spec fn orphan_claims_plan(es: Seq<Entity>, name: Seq<char>, claims: Seq<(String, ClaimMap)>) -> Result<Seq<CallView>, ErrorView> {
    match value_lookup(es, name, claim_attr()) {
        Lookup::Values(entries) => orphan_claim_fold(es, name, claims, entries),
        l => Err(lookup_failure(l, name, claim_attr())),
    }
}

fn remove_orphaned_claims(existing: &Vec<Entity>, name: &str, claims: &Vec<(String, ClaimMap)>) -> (r:
    Result<Vec<Call>, SyncError>)
    ensures
        plan_view(r) == orphan_claims_plan(existing@, name@, claims@),
{
    let entries = match get_value_array("oauth2_rs_claim_map", existing, name) {
        Ok(v) => v,
        Err(e) => return Err(e),
    };
    let ghost sv = entries.deep_view();
    let mut out: Vec<Call> = Vec::new();
    let mut i: usize = 0;
    proof {
        assert(sv.subrange(0, sv.len() as int) =~= sv);
        assert(view_calls(out@) =~= Seq::empty());
        lemma_join_empty(orphan_claim_fold(existing@, name@, claims@, sv));
    }
    while i < entries.len()
        invariant
            i <= entries.len(),
            sv == entries.deep_view(),
            value_lookup(existing@, name@, claim_attr()) == Lookup::Values(sv),
            join(
                Ok(view_calls(out@)),
                orphan_claim_fold(existing@, name@, claims@, sv.subrange(i as int, sv.len() as int)),
            ) == orphan_claim_fold(existing@, name@, claims@, sv),
        decreases entries.len() - i,
    {
        let ghost t = sv.subrange(i as int, sv.len() as int);
        let ghost before = view_calls(out@);
        assert(t.drop_first() =~= sv.subrange(i + 1, sv.len() as int));
        let fields = claim_entry_fields(entries[i].as_str());
        assert(t[0] == entries[i as int]@);
        assert(fields.deep_view().len() == fields.len());
        if fields.len() < 2 {
            assert(claim_fields(t[0]).len() < 2);
            assert(orphan_claim_fold(existing@, name@, claims@, t) is Err);
            return Err(
                SyncError::MalformedClaimEntry { name: name.to_owned(), entry: entries[i].clone() },
            );
        }
        let group = strip_realm(fields[1].as_str());
        if !is_claim_declared(claims, fields[0].as_str(), group.as_str()) {
            let none: Vec<String> = Vec::new();
            assert(none.deep_view() =~= Seq::<Seq<char>>::empty());
            match update_oauth2_claim_map(existing, name, fields[0].as_str(), group.as_str(), none) {
                Err(e) => {
                    return Err(e);
                },
                Ok(c) => {
                    proof {
                        lemma_join_assoc(
                            Ok(before),
                            Ok(opt_seq(view_opt(c))),
                            orphan_claim_fold(existing@, name@, claims@, t.drop_first()),
                        );
                    }
                    push_opt(&mut out, c);
                },
            }
        } else {
            proof {
                lemma_join_assoc(
                    Ok(before),
                    Ok(Seq::empty()),
                    orphan_claim_fold(existing@, name@, claims@, t.drop_first()),
                );
                assert(before + Seq::<CallView>::empty() =~= before);
            }
        }
        i = i + 1;
    }
    proof {
        assert(sv.subrange(i as int, sv.len() as int) =~= Seq::<Seq<char>>::empty());
        assert(view_calls(out@) + Seq::<CallView>::empty() =~= view_calls(out@));
    }
    Ok(out)
}

/// Every attribute write a client needs, in order: plain attributes, scope
/// maps, supplementary scope maps, claim maps with their join types, then the
/// removal of undeclared claim mappings when asked for. None unless declared
/// present.
pub open spec fn oauth2_attrs_plan(es: Seq<Entity>, name: Seq<char>, o: Oauth2System) -> Result<Seq<CallView>, ErrorView> {
    if !o.present {
        Ok(Seq::empty())
    } else {
        join(
            patch_fold(es, name, oauth2_patch_list(o)),
            join(
                scope_fold(es, name, MapKind::Scope, o.scope_maps@),
                join(
                    scope_fold(es, name, MapKind::Supplementary, o.supplementary_scope_maps@),
                    join(
                        claim_fold(es, name, o.claim_maps@),
                        if o.remove_orphaned_claim_maps {
                            orphan_claims_plan(es, name, o.claim_maps@)
                        } else {
                            Ok(Seq::empty())
                        },
                    ),
                ),
            ),
        )
    }
}

/// Reconciles every attribute of a present OAuth2 client.
pub fn sync_oauth2_attrs(name: &str, oauth2: &Oauth2System, existing: &Vec<Entity>) -> (r: Result<
    Vec<Call>,
    SyncError,
>)
    requires
        oauth2.well_formed(),
    ensures
        plan_view(r) == oauth2_attrs_plan(existing@, name@, *oauth2),
{
    if !oauth2.present {
        let out: Vec<Call> = Vec::new();
        assert(view_calls(out@) =~= Seq::empty());
        return Ok(out);
    }
    let third = if oauth2.public {
        ("oauth2_allow_localhost_redirect".to_owned(), vec![flag_text(oauth2.enable_localhost_redirects)])
    } else {
        (
            "oauth2_allow_insecure_client_disable_pkce".to_owned(),
            vec![flag_text(oauth2.allow_insecure_client_disable_pkce)],
        )
    };
    let steps = vec![
        ("displayname".to_owned(), vec![oauth2.display_name.clone()]),
        ("oauth2_rs_origin_landing".to_owned(), vec![oauth2.origin_landing.clone()]),
        third,
        ("oauth2_jwt_legacy_crypto_enable".to_owned(), vec![flag_text(oauth2.enable_legacy_crypto)]),
        ("oauth2_prefer_short_username".to_owned(), vec![flag_text(oauth2.prefer_short_username)]),
        ("oauth2_rs_origin".to_owned(), oauth2.origin_url.to_strings()),
    ];
    proof {
        let l = oauth2_patch_list(*oauth2);
        assert(steps@[0].1.deep_view() =~= l[0].1);
        assert(steps@[1].1.deep_view() =~= l[1].1);
        assert(steps@[2].1.deep_view() =~= l[2].1);
        assert(steps@[3].1.deep_view() =~= l[3].1);
        assert(steps@[4].1.deep_view() =~= l[4].1);
        assert(steps_view(steps@) =~= l);
    }
    let ghost plan_plain = patch_fold(existing@, name@, oauth2_patch_list(*oauth2));
    let ghost plan_scopes = scope_fold(existing@, name@, MapKind::Scope, oauth2.scope_maps@);
    let ghost plan_sup = scope_fold(existing@, name@, MapKind::Supplementary, oauth2.supplementary_scope_maps@);
    let ghost plan_claims = claim_fold(existing@, name@, oauth2.claim_maps@);
    let ghost plan_orphans = if oauth2.remove_orphaned_claim_maps {
        orphan_claims_plan(existing@, name@, oauth2.claim_maps@)
    } else {
        Ok(Seq::empty())
    };
    let mut out = match patch_attrs(existing, name, &steps) {
        Ok(v) => v,
        Err(e) => return Err(e),
    };
    proof {
        lemma_join_assoc(plan_plain, plan_scopes, join(plan_sup, join(plan_claims, plan_orphans)));
    }
    match sync_scope_maps(MapKind::Scope, existing, name, &oauth2.scope_maps) {
        Ok(v) => append_calls(&mut out, v),
        Err(e) => return Err(e),
    }
    proof {
        lemma_join_assoc(join(plan_plain, plan_scopes), plan_sup, join(plan_claims, plan_orphans));
    }
    match sync_scope_maps(MapKind::Supplementary, existing, name, &oauth2.supplementary_scope_maps) {
        Ok(v) => append_calls(&mut out, v),
        Err(e) => return Err(e),
    }
    proof {
        lemma_join_assoc(join(join(plan_plain, plan_scopes), plan_sup), plan_claims, plan_orphans);
    }
    match sync_claims(existing, name, &oauth2.claim_maps) {
        Ok(v) => append_calls(&mut out, v),
        Err(e) => return Err(e),
    }
    if oauth2.remove_orphaned_claim_maps {
        match remove_orphaned_claims(existing, name, &oauth2.claim_maps) {
            Ok(v) => append_calls(&mut out, v),
            Err(e) => return Err(e),
        }
    } else {
        assert(view_calls(out@) + Seq::<CallView>::empty() =~= view_calls(out@));
    }
    Ok(out)
}

/// Relies on `str::trim`: the text without its leading and trailing
/// characters of the Unicode White_Space property.
#[verifier::external_body]
fn trim_whitespace(s: &str) -> (r: String)
    ensures
        r@ == trim_white(s@),
{
    s.trim().to_owned()
}

/// The secret file to reconcile: only a present, confidential client has one.
pub fn secret_file_to_sync(oauth2: &Oauth2System) -> (r: Option<String>)
    ensures
        match r {
            Some(p) => oauth2.present && !oauth2.public && oauth2.basic_secret_file is Some
                && oauth2.basic_secret_file->Some_0@ == p@,
            None => !oauth2.present || oauth2.public || oauth2.basic_secret_file is None,
        },
{
    if oauth2.present && !oauth2.public {
        match &oauth2.basic_secret_file {
            Some(f) => Some(f.clone()),
            None => None,
        }
    } else {
        None
    }
}

/// The secret write a client needs when the service holds `current` and the
/// declaration asks for `desired`.
pub open spec fn secret_change(name: Seq<char>, current: Seq<char>, desired: Seq<char>) -> Option<CallView> {
    if current == desired {
        None
    } else {
        Some(CallView::SetBasicSecret { name, secret: desired })
    }
}

/// Decides whether the basic secret must be set to `desired` (already trimmed).
pub fn secret_update(name: &str, current: &str, desired: &str) -> (r: Option<Call>)
    ensures
        view_opt(r) == secret_change(name@, current@, desired@),
{
    if same_text(current, desired) {
        None
    } else {
        Some(Call::SetBasicSecret { name: name.to_owned(), secret: desired.to_owned() })
    }
}

/// Decides whether the basic secret must change, given the secret the service
/// holds and the contents of the declared secret file (compared trimmed).
pub fn update_oauth2_basic_secret(name: &str, current: &str, file_contents: &str) -> (r: Option<Call>)
    ensures
        view_opt(r) == secret_change(name@, current@, trim_white(file_contents@)),
{
    let desired = trim_whitespace(file_contents);
    secret_update(name, current, desired.as_str())
}

/// What `Path::extension` gives for a path, as text.
pub uninterp spec fn extension_of(p: Seq<char>) -> Option<Seq<char>>;

/// Relies on `Path::extension`: the extension of the final component of the
/// path, which depends on the characters alone (under the target's path
/// syntax).
#[verifier::external_body]
fn path_extension(p: &str) -> (r: Option<String>)
    ensures
        match r {
            Some(e) => extension_of(p@) == Some(e@),
            None => extension_of(p@) is None,
        },
{
    std::path::Path::new(p).extension().and_then(|e| e.to_str()).map(|e| e.to_owned())
}

/// The image type a lower-case file extension names.
pub open spec fn image_type_of(ext: Seq<char>) -> Option<ImageType> {
    if ext == "png"@ {
        Some(ImageType::Png)
    } else if ext == "jpg"@ || ext == "jpeg"@ {
        Some(ImageType::Jpeg)
    } else if ext == "gif"@ {
        Some(ImageType::Gif)
    } else if ext == "svg"@ {
        Some(ImageType::Svg)
    } else if ext == "webp"@ {
        Some(ImageType::Webp)
    } else {
        None
    }
}

/// The image type for a lower-case extension; a missing or unknown extension
/// is an error.
pub fn image_type_for_extension(ext: Option<&str>, path: &str) -> (r: Result<ImageType, SyncError>)
    ensures
        match ext {
            None => match r {
                Err(SyncError::MissingImageExtension { path: p }) => p@ == path@,
                _ => false,
            },
            Some(e) => match image_type_of(e@) {
                Some(t) => r == Ok::<ImageType, SyncError>(t),
                None => match r {
                    Err(SyncError::UnsupportedImageExtension { extension: x }) => x@ == e@,
                    _ => false,
                },
            },
        },
{
    match ext {
        None => Err(SyncError::MissingImageExtension { path: path.to_owned() }),
        Some(e) => {
            if same_text(e, "png") {
                Ok(ImageType::Png)
            } else if same_text(e, "jpg") || same_text(e, "jpeg") {
                Ok(ImageType::Jpeg)
            } else if same_text(e, "gif") {
                Ok(ImageType::Gif)
            } else if same_text(e, "svg") {
                Ok(ImageType::Svg)
            } else if same_text(e, "webp") {
                Ok(ImageType::Webp)
            } else {
                Err(SyncError::UnsupportedImageExtension { extension: e.to_owned() })
            }
        },
    }
}

/// The lower-cased extension of a path.
pub open spec fn lowered_extension(p: Seq<char>) -> Option<Seq<char>> {
    match extension_of(p) {
        Some(e) => Some(lower_of(e)),
        None => None,
    }
}

/// The image type of a file, by its extension in any case, or why it has none.
pub open spec fn image_outcome(path: Seq<char>) -> Result<ImageType, ErrorView> {
    match lowered_extension(path) {
        None => Err(ErrorView::MissingImageExtension { path }),
        Some(e) => match image_type_of(e) {
            Some(t) => Ok(t),
            None => Err(ErrorView::UnsupportedImageExtension { extension: e }),
        },
    }
}

/// An image type outcome, viewed.
pub open spec fn image_view(r: Result<ImageType, SyncError>) -> Result<ImageType, ErrorView> {
    match r {
        Ok(t) => Ok(t),
        Err(e) => Err(e@),
    }
}

pub fn image_type_for(path: &str) -> (r: Result<ImageType, SyncError>)
    ensures
        image_view(r) == image_outcome(path@),
{
    match path_extension(path) {
        None => image_type_for_extension(None, path),
        Some(e) => {
            let lower = lowercase(e.as_str());
            image_type_for_extension(Some(lower.as_str()), path)
        },
    }
}

/// The image upload a present client with an image file needs: always made,
/// since the service's copy is not compared.
pub fn sync_oauth2_image(name: &str, oauth2: &Oauth2System) -> (r: Result<Option<Call>, SyncError>)
    ensures
        !oauth2.present || oauth2.image_file is None ==> r matches Ok(None),
        oauth2.present && oauth2.image_file is Some ==> {
            let p = oauth2.image_file->Some_0@;
            match image_outcome(p) {
                Err(e) => r is Err && r->Err_0@ == e,
                Ok(t) => r is Ok && view_opt(r->Ok_0) == Some(
                    CallView::UploadImage { name: name@, path: p, image: t },
                ),
            }
        },
{
    if !oauth2.present {
        return Ok(None);
    }
    match &oauth2.image_file {
        None => Ok(None),
        Some(p) => match image_type_for(p.as_str()) {
            Ok(t) => Ok(Some(Call::UploadImage { name: name.to_owned(), path: p.clone(), image: t })),
            Err(e) => Err(e),
        },
    }
}

} // verus!
