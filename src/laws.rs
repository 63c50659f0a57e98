//! Properties that hold across the engine's decisions.
use vstd::prelude::*;
use crate::call::{CallView, is_write};
use crate::codec::{JoinType, same_values, unqualified, unqualified_all};
use crate::remote::Kind;
use crate::error::ErrorView;
use crate::reconcile::{attr_change, attr_in_sync, missing_values, normalized, claim_attr, claim_join_from, join_step};
use crate::codec::claim_fields;
use crate::call::MapKind;
use crate::reconcile::{current_claim_values, current_join, current_scopes};
use crate::oauth2::{
    claim_declared, claim_fold, claim_group_fold, oauth2_attrs_plan, oauth2_patch_list,
    orphan_claim_fold, patch_fold, scope_fold,
};
use crate::state::{ClaimMap, Oauth2System};
use crate::remote::{value_lookup, Lookup};
use crate::remote::{has_entity, Entity};
use crate::sync::existence_plan;
use crate::text::{find_from, occurs_at};
use crate::tracking::{new_orphan_at, orphan_delete, orphan_plan};

verus! {

/// A join type survives being stored as its delimiter and read back, and being
/// written as its declaration literal and parsed back.
pub proof fn lemma_join_type_round_trip(j: JoinType)
    ensures
        JoinType::spec_from_delimiter(seq![j.spec_delimiter()]) == j,
        JoinType::spec_parse(j.spec_literal()) == Some(j),
{
    reveal_strlit("ssv");
    reveal_strlit("csv");
    reveal_strlit("array");
    match j {
        JoinType::Ssv => {},
        JoinType::Csv => {
            assert(seq![','] != seq![' ']) by {
                assert(seq![','][0] != seq![' '][0]);
            }
            assert("csv"@ != "ssv"@) by {
                assert("csv"@[0] != "ssv"@[0]);
            }
        },
        JoinType::Array => {
            assert(seq![';'] != seq![' ']) by {
                assert(seq![';'][0] != seq![' '][0]);
            }
            assert(seq![';'] != seq![',']) by {
                assert(seq![';'][0] != seq![','][0]);
            }
            assert("array"@ != "ssv"@) by {
                assert("array"@.len() != "ssv"@.len());
            }
            assert("array"@ != "csv"@) by {
                assert("array"@.len() != "csv"@.len());
            }
        },
    }
}

proof fn lemma_find_char_at(s: Seq<char>, c: char, i: int, j: int)
    requires
        0 <= i <= j < s.len(),
        s[j] == c,
        forall|t: int| i <= t < j ==> s[t] != c,
    ensures
        find_from(s, seq![c], i) == j,
    decreases j - i,
{
    if i == j {
        assert(s.subrange(i, i + 1) =~= seq![c]);
    } else {
        assert(s.subrange(i, i + 1)[0] == s[i]);
        assert(!occurs_at(s, seq![c], i));
        lemma_find_char_at(s, c, i + 1, j);
    }
}

/// A name without `@`, qualified with a realm by the service, reads back as
/// the name.
pub proof fn lemma_unqualified_of_qualified(n: Seq<char>, realm: Seq<char>)
    requires
        !n.contains('@'),
    ensures
        unqualified(n + seq!['@'] + realm) == n,
{
    let s = n + seq!['@'] + realm;
    assert forall|t: int| 0 <= t < n.len() implies s[t] != '@' by {
        assert(s[t] == n[t]);
        if s[t] == '@' {
            assert(n.contains('@'));
        }
    }
    lemma_find_char_at(s, '@', 0, n.len() as int);
    assert(s.subrange(0, n.len() as int) =~= n);
}

proof fn lemma_nothing_missing(have: Seq<Seq<char>>, desired: Seq<Seq<char>>, k: int)
    requires
        k <= desired.len(),
        forall|i: int| 0 <= i < desired.len() ==> have.contains(#[trigger] desired[i]),
    ensures
        missing_values(have, desired, k).len() == 0,
    decreases k,
{
    if k > 0 {
        lemma_nothing_missing(have, desired, k - 1);
    }
}

/// Appending writes nothing once the attribute (members without their realm)
/// already holds every declared value, whatever else it holds.
pub proof fn lemma_append_settles(
    kind: Kind,
    name: Seq<char>,
    attr: Seq<char>,
    cur: Seq<Seq<char>>,
    desired: Seq<Seq<char>>,
)
    requires
        forall|i: int| 0 <= i < desired.len() ==> normalized(attr, cur).contains(#[trigger] desired[i]),
    ensures
        attr_change(kind, name, attr, cur, desired, true) is None,
{
    lemma_nothing_missing(normalized(attr, cur), desired, desired.len() as int);
}

/// An attribute whose normalized current values equal the declared ones
/// (members without their realm and in any order, other attributes as exact
/// lists) gets no write, whether the write would replace or append.
pub proof fn lemma_in_sync_writes_nothing(
    kind: Kind,
    name: Seq<char>,
    attr: Seq<char>,
    cur: Seq<Seq<char>>,
    desired: Seq<Seq<char>>,
    append: bool,
)
    requires
        attr_in_sync(attr, cur, desired),
    ensures
        attr_change(kind, name, attr, cur, desired, append) is None,
{
    broadcast use vstd::seq_lib::group_to_multiset_ensures;

    assert forall|i: int| 0 <= i < desired.len() implies normalized(attr, cur).contains(
        #[trigger] desired[i],
    ) by {
        assert(desired.contains(desired[i]));
        assert(desired.to_multiset().count(desired[i]) > 0);
    }
    lemma_append_settles(kind, name, attr, cur, desired);
}

/// Once the service holds the declared members, qualified with its realm, a
/// second run writes nothing to them, whether it replaces or appends.
pub proof fn lemma_member_write_settles(
    kind: Kind,
    name: Seq<char>,
    stored: Seq<Seq<char>>,
    desired: Seq<Seq<char>>,
    realm: Seq<char>,
)
    requires
        stored.len() == desired.len(),
        forall|i: int| 0 <= i < desired.len() ==> !(#[trigger] desired[i]).contains('@'),
        forall|i: int| 0 <= i < stored.len() ==> #[trigger] stored[i] == desired[i] + seq!['@'] + realm,
    ensures
        attr_change(kind, name, "member"@, stored, desired, false) is None,
        attr_change(kind, name, "member"@, stored, desired, true) is None,
{
    assert forall|i: int| 0 <= i < stored.len() implies #[trigger] unqualified_all(stored)[i]
        == desired[i] by {
        lemma_unqualified_of_qualified(desired[i], realm);
    }
    assert(unqualified_all(stored) =~= desired);
    assert(same_values(unqualified_all(stored), desired));
    assert forall|i: int| 0 <= i < desired.len() implies normalized("member"@, stored).contains(
        #[trigger] desired[i],
    ) by {
        assert(normalized("member"@, stored)[i] == desired[i]);
    }
    lemma_append_settles(kind, name, "member"@, stored, desired);
}

/// Once any other attribute holds the declared list, a second run writes
/// nothing to it.
pub proof fn lemma_attr_write_settles(
    kind: Kind,
    name: Seq<char>,
    attr: Seq<char>,
    desired: Seq<Seq<char>>,
    append: bool,
)
    requires
        attr != "member"@,
    ensures
        attr_change(kind, name, attr, desired, desired, append) is None,
{
    assert forall|i: int| 0 <= i < desired.len() implies normalized(attr, desired).contains(
        #[trigger] desired[i],
    ) by {
        assert(normalized(attr, desired)[i] == desired[i]);
    }
    lemma_append_settles(kind, name, attr, desired, desired);
}

/// Once a declared entity exists, and an entity declared absent is gone, a
/// second run neither creates nor deletes it.
pub proof fn lemma_existence_settles(kind: Kind, create: CallView, name: Seq<char>, present: bool)
    ensures
        existence_plan(kind, create, name, present, present) == Seq::<CallView>::empty(),
{
}

/// The call deletes the entity `name`.
pub open spec fn deletes(c: CallView, name: Seq<char>) -> bool {
    match c {
        CallView::DeleteEntity { kind: _, name: n } => n == name,
        _ => false,
    }
}

/// An entity declared absent that exists is deleted by exactly one call of its
/// existence step, and orphan removal, which skips declared names, never
/// deletes it again.
pub proof fn lemma_absent_entity_deleted_once(
    kind: Kind,
    create: CallView,
    name: Seq<char>,
    prov: Seq<Seq<char>>,
    declared: Seq<Seq<char>>,
    groups: Seq<Entity>,
    persons: Seq<Entity>,
    oauth2s: Seq<Entity>,
)
    requires
        declared.contains(name),
    ensures
        existence_plan(kind, create, name, false, true) == seq![
            CallView::DeleteEntity { kind, name },
        ],
        forall|i: int|
            0 <= i < orphan_plan(prov, declared, groups, persons, oauth2s, prov.len() as int).len()
                ==> !deletes(
                #[trigger] orphan_plan(prov, declared, groups, persons, oauth2s, prov.len() as int)[i],
                name,
            ),
{
    lemma_orphans_spare_declared(prov, declared, groups, persons, oauth2s, name, prov.len() as int);
}

/// Orphan removal deletes no declared name.
pub proof fn lemma_orphans_spare_declared(
    prov: Seq<Seq<char>>,
    declared: Seq<Seq<char>>,
    groups: Seq<Entity>,
    persons: Seq<Entity>,
    oauth2s: Seq<Entity>,
    name: Seq<char>,
    k: int,
)
    requires
        declared.contains(name),
        k <= prov.len(),
    ensures
        forall|i: int|
            0 <= i < orphan_plan(prov, declared, groups, persons, oauth2s, k).len() ==> !deletes(
                #[trigger] orphan_plan(prov, declared, groups, persons, oauth2s, k)[i],
                name,
            ),
    decreases k,
{
    if k > 0 {
        lemma_orphans_spare_declared(prov, declared, groups, persons, oauth2s, name, k - 1);
        let before = orphan_plan(prov, declared, groups, persons, oauth2s, k - 1);
        let step = if new_orphan_at(prov, k - 1, declared) {
            orphan_delete(prov[k - 1], groups, persons, oauth2s)
        } else {
            Seq::<CallView>::empty()
        };
        assert(orphan_plan(prov, declared, groups, persons, oauth2s, k) == before + step);
        if new_orphan_at(prov, k - 1, declared) {
            assert(prov[k - 1] != name);
        }
        assert forall|i: int| 0 <= i < step.len() implies !deletes(#[trigger] step[i], name) by {}
        assert forall|i: int| 0 <= i < (before + step).len() implies !deletes(
            #[trigger] (before + step)[i],
            name,
        ) by {
            if i < before.len() {
                assert((before + step)[i] == before[i]);
            } else {
                assert((before + step)[i] == step[i - before.len()]);
            }
        }
    }
}

/// No call of a plan writes: only refreshes remain.
pub open spec fn writes_nothing(p: Seq<CallView>) -> bool {
    forall|i: int| 0 <= i < p.len() ==> !is_write(#[trigger] p[i])
}

/// A group that exists as declared, with its members held (qualified by the
/// service's realm), needs no write on a second run.
pub proof fn lemma_settled_group_run(
    name: Seq<char>,
    members: Seq<Seq<char>>,
    stored: Seq<Seq<char>>,
    realm: Seq<char>,
    groups: Seq<Entity>,
)
    requires
        has_entity(groups, name),
        stored.len() == members.len(),
        forall|i: int| 0 <= i < members.len() ==> !(#[trigger] members[i]).contains('@'),
        forall|i: int| 0 <= i < stored.len() ==> #[trigger] stored[i] == members[i] + seq!['@'] + realm,
    ensures
        writes_nothing(
            existence_plan(
                Kind::Group,
                CallView::CreateGroup { name },
                name,
                true,
                has_entity(groups, name),
            ),
        ),
        attr_change(Kind::Group, name, "member"@, stored, members, false) is None,
{
    lemma_member_write_settles(Kind::Group, name, stored, members, realm);
}

/// Once the first entry the service holds for a claim records the delimiter
/// of the declared join type, a second run does not set the join type again.
pub proof fn lemma_join_write_settles(
    es: Seq<Entity>,
    name: Seq<char>,
    claim: Seq<char>,
    j: JoinType,
    entries: Seq<Seq<char>>,
)
    requires
        value_lookup(es, name, claim_attr()) == Lookup::Values(entries),
        claim_join_from(entries, claim, 0) < entries.len(),
        claim_fields(entries[claim_join_from(entries, claim, 0)]).len() > 2,
        claim_fields(entries[claim_join_from(entries, claim, 0)])[2] == seq![j.spec_delimiter()],
    ensures
        join_step(es, name, claim, j.spec_literal()) == Ok::<Option<CallView>, ErrorView>(None),
{
    lemma_join_type_round_trip(j);
}


/// Every plain attribute of `steps` already holds its declared list.
pub open spec fn patches_settled(es: Seq<Entity>, name: Seq<char>, steps: Seq<(Seq<char>, Seq<Seq<char>>)>) -> bool {
    forall|i: int| 0 <= i < steps.len() ==> value_lookup(es, name, (#[trigger] steps[i]).0) == Lookup::Values(steps[i].1)
}

/// Every declared group of `maps` already maps to its scopes (in any order).
pub open spec fn scopes_settled(es: Seq<Entity>, name: Seq<char>, map: MapKind, maps: Seq<(String, Vec<String>)>) -> bool {
    value_lookup(es, name, map.spec_attr()) is Values && forall|i: int|
        0 <= i < maps.len() ==> same_values(
            current_scopes(value_lookup(es, name, map.spec_attr())->Values_0, (#[trigger] maps[i]).0@),
            maps[i].1.deep_view(),
        )
}

/// Every declared claim already has its join type and, for each of its
/// groups, its values (in any order).
pub open spec fn claims_settled(es: Seq<Entity>, name: Seq<char>, claims: Seq<(String, ClaimMap)>) -> bool {
    value_lookup(es, name, claim_attr()) is Values && forall|i: int|
        0 <= i < claims.len() ==> {
            let entries = value_lookup(es, name, claim_attr())->Values_0;
            let c = #[trigger] claims[i];
            &&& JoinType::spec_parse(c.1.join_type@) == Some(current_join(entries, c.0@))
            &&& forall|j: int|
                0 <= j < c.1.values_by_group@.len() ==> same_values(
                    current_claim_values(entries, c.0@, (#[trigger] c.1.values_by_group@[j]).0@),
                    c.1.values_by_group@[j].1.deep_view(),
                )
        }
}

/// Every claim mapping the service holds is well formed and declared.
pub open spec fn no_orphan_claims(es: Seq<Entity>, name: Seq<char>, claims: Seq<(String, ClaimMap)>) -> bool {
    value_lookup(es, name, claim_attr()) is Values && forall|k: int|
        0 <= k < value_lookup(es, name, claim_attr())->Values_0.len() ==> {
            let f = claim_fields(#[trigger] value_lookup(es, name, claim_attr())->Values_0[k]);
            f.len() >= 2 && claim_declared(claims, f[0], unqualified(f[1]))
        }
}

proof fn lemma_patch_fold_settled(es: Seq<Entity>, name: Seq<char>, steps: Seq<(Seq<char>, Seq<Seq<char>>)>)
    requires
        patches_settled(es, name, steps),
    ensures
        patch_fold(es, name, steps) == Ok::<Seq<CallView>, ErrorView>(Seq::empty()),
    decreases steps.len(),
{
    if steps.len() > 0 {
        let rest = steps.drop_first();
        assert forall|i: int| 0 <= i < rest.len() implies value_lookup(es, name, (#[trigger] rest[i]).0)
            == Lookup::Values(rest[i].1) by {
            assert(rest[i] == steps[i + 1]);
        }
        lemma_patch_fold_settled(es, name, rest);
        assert(steps[0] == steps[0]);
        assert(Seq::<CallView>::empty() + Seq::<CallView>::empty() =~= Seq::<CallView>::empty());
    }
}

proof fn lemma_scope_fold_settled(es: Seq<Entity>, name: Seq<char>, map: MapKind, maps: Seq<(String, Vec<String>)>)
    requires
        scopes_settled(es, name, map, maps),
    ensures
        scope_fold(es, name, map, maps) == Ok::<Seq<CallView>, ErrorView>(Seq::empty()),
    decreases maps.len(),
{
    if maps.len() > 0 {
        let rest = maps.drop_first();
        assert forall|i: int| 0 <= i < rest.len() implies same_values(
            current_scopes(value_lookup(es, name, map.spec_attr())->Values_0, (#[trigger] rest[i]).0@),
            rest[i].1.deep_view(),
        ) by {
            assert(rest[i] == maps[i + 1]);
        }
        lemma_scope_fold_settled(es, name, map, rest);
        assert(maps[0] == maps[0]);
        assert(Seq::<CallView>::empty() + Seq::<CallView>::empty() =~= Seq::<CallView>::empty());
    }
}

proof fn lemma_claim_group_fold_settled(
    es: Seq<Entity>,
    name: Seq<char>,
    claim: Seq<char>,
    groups: Seq<(String, Vec<String>)>,
)
    requires
        value_lookup(es, name, claim_attr()) is Values,
        forall|j: int|
            0 <= j < groups.len() ==> same_values(
                current_claim_values(
                    value_lookup(es, name, claim_attr())->Values_0,
                    claim,
                    (#[trigger] groups[j]).0@,
                ),
                groups[j].1.deep_view(),
            ),
    ensures
        claim_group_fold(es, name, claim, groups) == Ok::<Seq<CallView>, ErrorView>(Seq::empty()),
    decreases groups.len(),
{
    if groups.len() > 0 {
        let rest = groups.drop_first();
        assert forall|j: int| 0 <= j < rest.len() implies same_values(
            current_claim_values(value_lookup(es, name, claim_attr())->Values_0, claim, (#[trigger] rest[j]).0@),
            rest[j].1.deep_view(),
        ) by {
            assert(rest[j] == groups[j + 1]);
        }
        lemma_claim_group_fold_settled(es, name, claim, rest);
        assert(groups[0] == groups[0]);
        assert(Seq::<CallView>::empty() + Seq::<CallView>::empty() =~= Seq::<CallView>::empty());
    }
}

proof fn lemma_claim_fold_settled(es: Seq<Entity>, name: Seq<char>, claims: Seq<(String, ClaimMap)>)
    requires
        claims_settled(es, name, claims),
    ensures
        claim_fold(es, name, claims) == Ok::<Seq<CallView>, ErrorView>(Seq::empty()),
    decreases claims.len(),
{
    if claims.len() > 0 {
        let rest = claims.drop_first();
        assert forall|i: int| 0 <= i < rest.len() implies {
            let entries = value_lookup(es, name, claim_attr())->Values_0;
            let c = #[trigger] rest[i];
            &&& JoinType::spec_parse(c.1.join_type@) == Some(current_join(entries, c.0@))
            &&& forall|j: int|
                0 <= j < c.1.values_by_group@.len() ==> same_values(
                    current_claim_values(entries, c.0@, (#[trigger] c.1.values_by_group@[j]).0@),
                    c.1.values_by_group@[j].1.deep_view(),
                )
        } by {
            assert(rest[i] == claims[i + 1]);
        }
        lemma_claim_fold_settled(es, name, rest);
        let c = claims[0];
        lemma_claim_group_fold_settled(es, name, c.0@, c.1.values_by_group@);
        assert(Seq::<CallView>::empty() + Seq::<CallView>::empty() =~= Seq::<CallView>::empty());
    }
}

proof fn lemma_orphan_fold_settled(
    es: Seq<Entity>,
    name: Seq<char>,
    claims: Seq<(String, ClaimMap)>,
    entries: Seq<Seq<char>>,
)
    requires
        forall|k: int|
            0 <= k < entries.len() ==> {
                let f = claim_fields(#[trigger] entries[k]);
                f.len() >= 2 && claim_declared(claims, f[0], unqualified(f[1]))
            },
    ensures
        orphan_claim_fold(es, name, claims, entries) == Ok::<Seq<CallView>, ErrorView>(Seq::empty()),
    decreases entries.len(),
{
    if entries.len() > 0 {
        let rest = entries.drop_first();
        assert forall|k: int| 0 <= k < rest.len() implies {
            let f = claim_fields(#[trigger] rest[k]);
            f.len() >= 2 && claim_declared(claims, f[0], unqualified(f[1]))
        } by {
            assert(rest[k] == entries[k + 1]);
        }
        lemma_orphan_fold_settled(es, name, claims, rest);
        assert(entries[0] == entries[0]);
        assert(Seq::<CallView>::empty() + Seq::<CallView>::empty() =~= Seq::<CallView>::empty());
    }
}

/// A present OAuth2 client whose plain attributes, scope maps, supplementary
/// scope maps, claim values and join types already match the declaration,
/// and (when cleanup is on) whose service holds no undeclared claim mapping,
/// gets no attribute write on a second run.
pub proof fn lemma_settled_client_attrs(es: Seq<Entity>, name: Seq<char>, o: Oauth2System)
    requires
        o.present,
        patches_settled(es, name, oauth2_patch_list(o)),
        scopes_settled(es, name, MapKind::Scope, o.scope_maps@),
        scopes_settled(es, name, MapKind::Supplementary, o.supplementary_scope_maps@),
        claims_settled(es, name, o.claim_maps@),
        o.remove_orphaned_claim_maps ==> no_orphan_claims(es, name, o.claim_maps@),
    ensures
        oauth2_attrs_plan(es, name, o) == Ok::<Seq<CallView>, ErrorView>(Seq::empty()),
{
    lemma_patch_fold_settled(es, name, oauth2_patch_list(o));
    lemma_scope_fold_settled(es, name, MapKind::Scope, o.scope_maps@);
    lemma_scope_fold_settled(es, name, MapKind::Supplementary, o.supplementary_scope_maps@);
    lemma_claim_fold_settled(es, name, o.claim_maps@);
    if o.remove_orphaned_claim_maps {
        lemma_orphan_fold_settled(es, name, o.claim_maps@, value_lookup(es, name, claim_attr())->Values_0);
    }
    assert(Seq::<CallView>::empty() + Seq::<CallView>::empty() =~= Seq::<CallView>::empty());
}

} // verus!
