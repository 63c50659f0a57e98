use kanidm_provision::call::{Call, ImageType, MapKind};
use kanidm_provision::codec::JoinType;
use kanidm_provision::error::SyncError;
use kanidm_provision::remote::Kind;
use kanidm_provision::oauth2::{
    image_type_for, image_type_for_extension, secret_file_to_sync, secret_update, sync_oauth2,
    sync_oauth2_attrs, sync_oauth2_image, update_oauth2_basic_secret,
};
use kanidm_provision::reconcile::{
    update_entity_attrs, update_oauth2_attrs, update_oauth2_claim_map,
    update_oauth2_claim_map_join, update_oauth2_map,
};
use kanidm_provision::remote::{get_value_array, Attr, Entity};
use kanidm_provision::state::{
    default_false, default_true, ClaimMap, Group, Oauth2System, Person, State, StringOrStrings,
    Systems,
};
use kanidm_provision::run::{first_phase, next_phase, refresh_all, Phase};
use kanidm_provision::sync::{sync_group, sync_group_members, sync_person, sync_person_attrs};
use kanidm_provision::tracking::{
    all_tracked_entities, provisioned_entities, remove_orphaned_entities, setup_provision_tracking,
    track_provisioned, tracking_group_name,
};

fn strings(v: &[&str]) -> Vec<String> {
    v.iter().map(|s| s.to_string()).collect()
}

fn entity(name: &str, attrs: &[(&str, &[&str])]) -> Entity {
    Entity {
        name: name.to_string(),
        attrs: attrs
            .iter()
            .map(|(k, v)| Attr { name: k.to_string(), values: Some(strings(v)) })
            .collect(),
    }
}

fn group(members: &[&str]) -> Group {
    Group { present: true, members: strings(members), overwrite_members: true }
}

fn client(public: bool) -> Oauth2System {
    Oauth2System {
        present: true,
        public,
        display_name: "Grafana".to_string(),
        basic_secret_file: None,
        image_file: None,
        origin_url: StringOrStrings::String("https://grafana.example.org/".to_string()),
        origin_landing: "https://grafana.example.org/login".to_string(),
        enable_localhost_redirects: false,
        enable_legacy_crypto: false,
        allow_insecure_client_disable_pkce: false,
        prefer_short_username: false,
        scope_maps: vec![],
        supplementary_scope_maps: vec![],
        remove_orphaned_claim_maps: true,
        claim_maps: vec![],
    }
}

/// The remote form of `client(public)` once every attribute has been written.
fn settled_client(name: &str, public: bool) -> Entity {
    let class: &[&str] = if public {
        &["oauth2_resource_server", "oauth2_resource_server_public"]
    } else {
        &["oauth2_resource_server", "oauth2_resource_server_basic"]
    };
    let third = if public {
        "oauth2_allow_localhost_redirect"
    } else {
        "oauth2_allow_insecure_client_disable_pkce"
    };
    entity(
        name,
        &[
            ("class", class),
            ("displayname", &["Grafana"]),
            ("oauth2_rs_origin_landing", &["https://grafana.example.org/login"]),
            (third, &["false"]),
            ("oauth2_jwt_legacy_crypto_enable", &["false"]),
            ("oauth2_prefer_short_username", &["false"]),
            ("oauth2_rs_origin", &["https://grafana.example.org/"]),
        ],
    )
}

#[test]
fn defaults_and_string_lists() {
    assert!(!default_false());
    assert!(default_true());
    assert_eq!(StringOrStrings::String("a".to_string()).strings(), strings(&["a"]));
    assert_eq!(StringOrStrings::Strings(strings(&["a", "b"])).strings(), strings(&["a", "b"]));
    assert_eq!(StringOrStrings::Strings(vec![]).to_strings(), Vec::<String>::new());
}

#[test]
fn value_array_reads_missing_malformed_and_unknown() {
    let mut e = entity("g", &[("member", &["a@r"])]);
    e.attrs.push(Attr { name: "bad".to_string(), values: None });
    let es = vec![e];
    assert_eq!(get_value_array("member", &es, "g").unwrap(), strings(&["a@r"]));
    assert_eq!(get_value_array("mail", &es, "g").unwrap(), Vec::<String>::new());
    assert!(matches!(
        get_value_array("bad", &es, "g"),
        Err(SyncError::InvalidAttr { name, attr }) if name == "g" && attr == "bad"
    ));
    assert!(matches!(
        get_value_array("member", &es, "x"),
        Err(SyncError::UnknownEntity { name }) if name == "x"
    ));
}

#[test]
fn member_attribute_compares_without_realm_and_order() {
    let es = vec![entity("eng", &[("member", &["alice@example.org", "bob@example.org"])])];
    let r = update_entity_attrs(Kind::Group, &es, "eng", "member", strings(&["alice", "bob"]), false);
    assert!(matches!(r, Ok(None)));
    let r = update_entity_attrs(Kind::Group, &es, "eng", "member", strings(&["bob", "alice"]), false);
    assert!(matches!(r, Ok(None)));
    let r = update_entity_attrs(Kind::Group, &es, "eng", "member", strings(&["alice"]), false);
    assert!(matches!(
        r,
        Ok(Some(Call::ReplaceAttr { kind: Kind::Group, ref name, ref attr, ref values }))
            if name == "eng" && attr == "member" && *values == strings(&["alice"])
    ));
}

#[test]
fn other_attributes_compare_as_exact_lists() {
    let es = vec![entity("p", &[("mail", &["a@x", "b@x"])])];
    assert!(matches!(
        update_entity_attrs(Kind::Person, &es, "p", "mail", strings(&["a@x", "b@x"]), false),
        Ok(None)
    ));
    assert!(matches!(
        update_entity_attrs(Kind::Person, &es, "p", "mail", strings(&["b@x", "a@x"]), false),
        Ok(Some(Call::ReplaceAttr { .. }))
    ));
    assert!(matches!(
        update_entity_attrs(Kind::Person, &es, "p", "mail", vec![], false),
        Ok(Some(Call::DeleteAttr { kind: Kind::Person, ref attr, .. })) if attr == "mail"
    ));
    assert!(matches!(
        update_entity_attrs(Kind::Person, &es, "p", "mail", vec![], true),
        Ok(None)
    ));
    assert!(matches!(
        update_entity_attrs(Kind::Person, &es, "p", "mail", strings(&["c@x"]), true),
        Ok(Some(Call::AppendAttr { ref values, .. })) if *values == strings(&["c@x"])
    ));
    assert!(matches!(
        update_entity_attrs(Kind::Person, &es, "q", "mail", vec![], false),
        Err(SyncError::UnknownEntity { .. })
    ));
}

#[test]
fn new_group_is_created_then_given_its_members() {
    let eng = group(&["alice", "bob"]);
    let before: Vec<Entity> = vec![entity(tracking_group_name(), &[("member", &["eng@r"])])];
    let plan = sync_group("eng", &eng, &before, &vec![]).unwrap();
    assert_eq!(plan.len(), 2);
    assert!(matches!(&plan[0], Call::CreateGroup { name } if name == "eng"));
    assert!(matches!(&plan[1], Call::Refresh { kind: Kind::Group }));

    // After the refresh the group exists, without members.
    let after = vec![
        entity(tracking_group_name(), &[("member", &["eng@r"])]),
        entity("eng", &[("name", &["eng"])]),
    ];
    let members = sync_group_members("eng", &eng, &after).unwrap();
    assert!(matches!(
        members,
        Some(Call::ReplaceAttr { kind: Kind::Group, ref name, ref attr, ref values })
            if name == "eng" && attr == "member" && *values == strings(&["alice", "bob"])
    ));
    assert!(setup_provision_tracking(&after).is_empty());
    assert!(matches!(track_provisioned(&after, &strings(&["eng"])), Ok(None)));
}

#[test]
fn absent_entities_are_deleted_once() {
    let groups = vec![entity("old", &[])];
    let g = Group { present: false, members: vec![], overwrite_members: true };
    let plan = sync_group("old", &g, &groups, &vec![]).unwrap();
    assert_eq!(plan.len(), 1);
    assert!(matches!(&plan[0], Call::DeleteEntity { kind: Kind::Group, name } if name == "old"));
    assert!(matches!(sync_group_members("old", &g, &groups), Ok(None)));
    assert!(sync_group("gone", &g, &groups, &vec![]).unwrap().is_empty());

    let persons = vec![entity("carol", &[])];
    let p = Person { present: false, display_name: "C".to_string(), legal_name: None, mail_addresses: None };
    let plan = sync_person("carol", &p, &persons, &vec![]).unwrap();
    assert_eq!(plan.len(), 1);
    assert!(matches!(&plan[0], Call::DeleteEntity { kind: Kind::Person, name } if name == "carol"));
    assert!(sync_person_attrs("carol", &p, &persons).unwrap().is_empty());

    let mut o = client(false);
    o.present = false;
    let oauth2s = vec![settled_client("grafana", false)];
    let plan = sync_oauth2("grafana", &o, &oauth2s, &vec![]).unwrap();
    assert_eq!(plan.len(), 1);
    assert!(matches!(&plan[0], Call::DeleteEntity { kind: Kind::Oauth2, name } if name == "grafana"));
    assert!(sync_oauth2_attrs("grafana", &o, &oauth2s).unwrap().is_empty());

    // A declared name is never an orphan.
    let orphans = remove_orphaned_entities(&strings(&["old"]), &groups, &vec![], &vec![], &strings(&["old"]));
    assert!(orphans.is_empty());
}

#[test]
fn taken_name_is_not_created() {
    let r = sync_group("ops", &group(&[]), &vec![], &strings(&["ops"]));
    assert!(matches!(r, Err(SyncError::NameInUse { kind: Kind::Group, ref name }) if name == "ops"));
    let p = Person { present: true, display_name: "Ops".to_string(), legal_name: None, mail_addresses: None };
    let r = sync_person("ops", &p, &vec![], &strings(&["ops"]));
    assert!(matches!(r, Err(SyncError::NameInUse { kind: Kind::Person, .. })));
    let r = sync_oauth2("ops", &client(true), &vec![], &strings(&["ops"]));
    assert!(matches!(r, Err(SyncError::NameInUse { kind: Kind::Oauth2, .. })));
}

#[test]
fn new_person_is_created_then_given_attributes() {
    let p = Person {
        present: true,
        display_name: "Alice".to_string(),
        legal_name: Some("Alice A".to_string()),
        mail_addresses: Some(strings(&["alice@example.org"])),
    };
    let plan = sync_person("alice", &p, &vec![], &vec![]).unwrap();
    assert_eq!(plan.len(), 2);
    assert!(matches!(&plan[0], Call::CreatePerson { name, display_name } if name == "alice" && display_name == "Alice"));
    let persons = vec![entity("alice", &[("displayname", &["Alice"])])];
    let plan = sync_person_attrs("alice", &p, &persons).unwrap();
    assert_eq!(plan.len(), 2);
    assert!(matches!(&plan[0], Call::ReplaceAttr { attr, values, .. } if attr == "legalname" && *values == strings(&["Alice A"])));
    assert!(matches!(&plan[1], Call::ReplaceAttr { attr, .. } if attr == "mail"));
    assert!(matches!(sync_person_attrs("bob", &p, &persons), Err(SyncError::UnknownEntity { .. })));
}

#[test]
fn client_of_wrong_type_is_recreated_before_attribute_sync() {
    let o = client(true);
    let oauth2s = vec![settled_client("grafana", false)];
    let plan = sync_oauth2("grafana", &o, &oauth2s, &vec![]).unwrap();
    assert_eq!(plan.len(), 3);
    assert!(matches!(&plan[0], Call::DeleteEntity { kind: Kind::Oauth2, name } if name == "grafana"));
    assert!(matches!(&plan[1], Call::CreateOauth2 { name, public: true, origins, .. }
        if name == "grafana" && *origins == strings(&["https://grafana.example.org/"])));
    assert!(matches!(&plan[2], Call::Refresh { kind: Kind::Oauth2 }));

    let same = sync_oauth2("grafana", &client(false), &oauth2s, &vec![]).unwrap();
    assert!(same.is_empty());
}

#[test]
fn settled_client_needs_no_write() {
    for public in [true, false] {
        let oauth2s = vec![settled_client("grafana", public)];
        let o = client(public);
        assert!(sync_oauth2("grafana", &o, &oauth2s, &vec![]).unwrap().is_empty());
        assert!(sync_oauth2_attrs("grafana", &o, &oauth2s).unwrap().is_empty());
    }
}

#[test]
fn client_attributes_are_patched_when_they_differ() {
    let mut o = client(false);
    o.enable_legacy_crypto = true;
    o.display_name = "Grafana 2".to_string();
    let oauth2s = vec![settled_client("grafana", false)];
    let plan = sync_oauth2_attrs("grafana", &o, &oauth2s).unwrap();
    assert_eq!(plan.len(), 2);
    assert!(matches!(&plan[0], Call::PatchOauth2Attr { attr, values, .. } if attr == "displayname" && *values == strings(&["Grafana 2"])));
    assert!(matches!(&plan[1], Call::PatchOauth2Attr { attr, values, .. } if attr == "oauth2_jwt_legacy_crypto_enable" && *values == strings(&["true"])));
    assert!(matches!(
        update_oauth2_attrs(&oauth2s, "grafana", "oauth2_rs_origin", strings(&["https://grafana.example.org/"])),
        Ok(None)
    ));
}

#[test]
fn scope_maps_are_set_and_removed() {
    let es = vec![entity(
        "c",
        &[("oauth2_rs_scope_map", &["users@r: {\"openid\", \"email\"}", "usersx@r: {\"profile\"}"])],
    )];
    assert!(matches!(
        update_oauth2_map(MapKind::Scope, &es, "c", "users", strings(&["email", "openid"])),
        Ok(None)
    ));
    assert!(matches!(
        update_oauth2_map(MapKind::Scope, &es, "c", "users", strings(&["openid"])),
        Ok(Some(Call::SetScopeMap { map: MapKind::Scope, ref group, ref scopes, .. }))
            if group == "users" && *scopes == strings(&["openid"])
    ));
    assert!(matches!(
        update_oauth2_map(MapKind::Scope, &es, "c", "users", vec![]),
        Ok(Some(Call::RemoveScopeMap { ref group, .. })) if group == "users"
    ));
    assert!(matches!(
        update_oauth2_map(MapKind::Supplementary, &es, "c", "users", vec![]),
        Ok(None)
    ));
    assert!(matches!(
        update_oauth2_map(MapKind::Scope, &es, "c", "admins", strings(&["openid"])),
        Ok(Some(Call::SetScopeMap { .. }))
    ));
}

#[test]
fn claim_maps_and_join_types() {
    let es = vec![entity(
        "c",
        &[("oauth2_rs_claim_map", &["groups:admins@r:,:\"Admin,Editor\"", "role:users@r: :\"viewer\""])],
    )];
    assert!(matches!(
        update_oauth2_claim_map(&es, "c", "groups", "admins", strings(&["Editor", "Admin"])),
        Ok(None)
    ));
    assert!(matches!(
        update_oauth2_claim_map(&es, "c", "groups", "admins", strings(&["Admin"])),
        Ok(Some(Call::SetClaimMap { ref claim, ref group, ref values, .. }))
            if claim == "groups" && group == "admins" && *values == strings(&["Admin"])
    ));
    assert!(matches!(
        update_oauth2_claim_map(&es, "c", "groups", "admins", vec![]),
        Ok(Some(Call::RemoveClaimMap { .. }))
    ));
    assert!(matches!(update_oauth2_claim_map_join(&es, "c", "groups", "csv"), Ok(None)));
    assert!(matches!(update_oauth2_claim_map_join(&es, "c", "role", "ssv"), Ok(None)));
    assert!(matches!(
        update_oauth2_claim_map_join(&es, "c", "groups", "array"),
        Ok(Some(Call::SetClaimJoin { join: JoinType::Array, .. }))
    ));
    assert!(matches!(update_oauth2_claim_map_join(&es, "c", "new", "array"), Ok(None)));
    assert!(matches!(
        update_oauth2_claim_map_join(&es, "c", "groups", "tsv"),
        Err(SyncError::InvalidJoinType { ref join_type, .. }) if join_type == "tsv"
    ));
}

#[test]
fn undeclared_claim_mappings_are_removed() {
    let mut o = client(false);
    o.claim_maps = vec![(
        "groups".to_string(),
        ClaimMap {
            join_type: "csv".to_string(),
            values_by_group: vec![("admins".to_string(), strings(&["Admin", "Editor"]))],
        },
    )];
    let mut e = settled_client("grafana", false);
    e.attrs.push(Attr {
        name: "oauth2_rs_claim_map".to_string(),
        values: Some(strings(&["groups:admins@r:,:\"Admin,Editor\"", "role:users@r: :\"viewer\""])),
    });
    let plan = sync_oauth2_attrs("grafana", &o, &vec![e]).unwrap();
    assert_eq!(plan.len(), 1);
    assert!(matches!(&plan[0], Call::RemoveClaimMap { claim, group, .. } if claim == "role" && group == "users"));

    o.remove_orphaned_claim_maps = false;
    let mut e = settled_client("grafana", false);
    e.attrs.push(Attr {
        name: "oauth2_rs_claim_map".to_string(),
        values: Some(strings(&["groups:admins@r:,:\"Admin,Editor\"", "role:users@r: :\"viewer\""])),
    });
    assert!(sync_oauth2_attrs("grafana", &o, &vec![e]).unwrap().is_empty());

    o.remove_orphaned_claim_maps = true;
    let mut e = settled_client("grafana", false);
    e.attrs.push(Attr { name: "oauth2_rs_claim_map".to_string(), values: Some(strings(&["broken"])) });
    assert!(matches!(
        sync_oauth2_attrs("grafana", &o, &vec![e]),
        Err(SyncError::MalformedClaimEntry { .. })
    ));
}

#[test]
fn basic_secret_is_compared_trimmed() {
    assert!(update_oauth2_basic_secret("c", "s3cret", "  s3cret\n").is_none());
    let c = update_oauth2_basic_secret("c", "old", "new\n");
    assert!(matches!(c, Some(Call::SetBasicSecret { ref secret, .. }) if secret == "new"));
    assert!(secret_update("c", "a", "a").is_none());
    let mut o = client(false);
    o.basic_secret_file = Some("/run/secret".to_string());
    assert_eq!(secret_file_to_sync(&o), Some("/run/secret".to_string()));
    o.public = true;
    assert_eq!(secret_file_to_sync(&o), None);
}

#[test]
fn image_type_follows_extension() {
    assert_eq!(image_type_for("/img/logo.png").unwrap(), ImageType::Png);
    assert_eq!(image_type_for("/img/logo.JPG").unwrap(), ImageType::Jpeg);
    assert_eq!(image_type_for("logo.jpeg").unwrap(), ImageType::Jpeg);
    assert_eq!(image_type_for("logo.gif").unwrap(), ImageType::Gif);
    assert_eq!(image_type_for("logo.svg").unwrap(), ImageType::Svg);
    assert_eq!(image_type_for("logo.webp").unwrap(), ImageType::Webp);
    assert!(matches!(image_type_for("logo.bmp"), Err(SyncError::UnsupportedImageExtension { ref extension }) if extension == "bmp"));
    assert!(matches!(image_type_for("logo"), Err(SyncError::MissingImageExtension { .. })));
    assert!(matches!(image_type_for_extension(Some("png"), "x"), Ok(ImageType::Png)));
    assert_eq!(ImageType::Svg.mime(), "image/svg+xml");
    let mut o = client(false);
    o.image_file = Some("a.PNG".to_string());
    assert!(matches!(
        sync_oauth2_image("c", &o),
        Ok(Some(Call::UploadImage { image: ImageType::Png, ref path, .. })) if path == "a.PNG"
    ));
    o.image_file = None;
    assert!(matches!(sync_oauth2_image("c", &o), Ok(None)));
}

#[test]
fn tracking_group_records_and_orphans_are_removed() {
    let groups = vec![entity("eng", &[])];
    let plan = setup_provision_tracking(&groups);
    assert_eq!(plan.len(), 2);
    assert!(matches!(&plan[0], Call::CreateGroup { name } if name == "ext_idm_provisioned_entities"));
    assert!(matches!(provisioned_entities(&groups), Err(SyncError::MissingTrackingGroup)));

    let groups = vec![
        entity("eng", &[]),
        entity(tracking_group_name(), &[("member", &["eng@r", "grafana@r", "wiki@r"])]),
    ];
    let oauth2s = vec![settled_client("grafana", false), settled_client("wiki", false)];
    let prov = provisioned_entities(&groups).unwrap();
    assert_eq!(prov, strings(&["eng", "grafana", "wiki"]));
    let declared = strings(&["eng", "wiki"]);
    let plan = remove_orphaned_entities(&prov, &groups, &vec![], &oauth2s, &declared);
    assert_eq!(plan.len(), 1);
    assert!(matches!(&plan[0], Call::DeleteEntity { kind: Kind::Oauth2, name } if name == "grafana"));

    // Appending keeps what is there; declared names already present need no write.
    assert!(matches!(track_provisioned(&groups, &strings(&["eng", "grafana", "wiki"])), Ok(None)));
    assert!(matches!(
        track_provisioned(&groups, &strings(&["eng", "new"])),
        Ok(Some(Call::AppendAttr { ref values, .. })) if *values == strings(&["eng", "new"])
    ));
    // Names the group holds beyond the declared ones cause no write.
    assert!(matches!(track_provisioned(&groups, &strings(&["eng"])), Ok(None)));
}

#[test]
fn duplicate_names_across_kinds_abort() {
    let state = State::new(
        vec![("ops".to_string(), group(&[]))],
        vec![(
            "ops".to_string(),
            Person { present: true, display_name: "Ops".to_string(), legal_name: None, mail_addresses: None },
        )],
        Systems { oauth2: vec![] },
    )
    .unwrap();
    match all_tracked_entities(&state) {
        Err(SyncError::DuplicateNames { uses }) => {
            assert_eq!(uses.len(), 1);
            assert_eq!(uses[0].name, "ops");
            assert_eq!(uses[0].kinds, vec![Kind::Group, Kind::Person]);
        }
        _ => panic!("duplicate names were accepted"),
    }

    let state = State::new(
        vec![("eng".to_string(), group(&[]))],
        vec![],
        Systems { oauth2: vec![("grafana".to_string(), client(false))] },
    )
    .unwrap();
    assert_eq!(all_tracked_entities(&state).unwrap(), strings(&["eng", "grafana"]));
}

#[test]
fn upper_case_names_are_refused() {
    let r = State::new(vec![("Eng".to_string(), group(&[]))], vec![], Systems { oauth2: vec![] });
    assert!(matches!(r, Err(SyncError::NotLowercase { ref key }) if key == "Eng"));
    assert!(State::new(vec![("eng".to_string(), group(&[]))], vec![], Systems { oauth2: vec![] }).is_ok());
}

#[test]
fn removed_client_is_deleted_once_as_orphan() {
    let groups = vec![
        entity("eng", &[]),
        entity(tracking_group_name(), &[("member", &["eng@r", "grafana@r", "grafana@other", "ghost@r"])]),
    ];
    let persons = vec![entity("alice", &[])];
    let oauth2s = vec![settled_client("grafana", false)];
    let prov = provisioned_entities(&groups).unwrap();
    let declared = strings(&["eng", "alice"]);
    let plan = remove_orphaned_entities(&prov, &groups, &persons, &oauth2s, &declared);
    assert_eq!(plan.len(), 1);
    assert!(matches!(&plan[0], Call::DeleteEntity { kind: Kind::Oauth2, name } if name == "grafana"));
}

#[test]
fn settled_groups_and_persons_need_no_write() {
    let eng = group(&["alice", "bob"]);
    let groups = vec![
        entity(tracking_group_name(), &[("member", &["eng@r", "alice@r"])]),
        entity("eng", &[("member", &["bob@example.org", "alice@example.org"])]),
    ];
    let alice = Person {
        present: true,
        display_name: "Alice".to_string(),
        legal_name: None,
        mail_addresses: Some(strings(&["alice@example.org"])),
    };
    let persons = vec![entity("alice", &[("displayname", &["Alice"]), ("mail", &["alice@example.org"])])];
    let pre = strings(&["eng", "alice", "ext_idm_provisioned_entities"]);
    assert!(setup_provision_tracking(&groups).is_empty());
    assert!(sync_group("eng", &eng, &groups, &pre).unwrap().is_empty());
    assert!(sync_person("alice", &alice, &persons, &pre).unwrap().is_empty());
    assert!(sync_person_attrs("alice", &alice, &persons).unwrap().is_empty());
    assert!(matches!(sync_group_members("eng", &eng, &groups), Ok(None)));
    assert!(matches!(track_provisioned(&groups, &strings(&["eng", "alice"])), Ok(None)));
    let prov = provisioned_entities(&groups).unwrap();
    assert!(remove_orphaned_entities(&prov, &groups, &persons, &vec![], &strings(&["eng", "alice"])).is_empty());
}

#[test]
fn append_sends_declared_values_sorted_when_some_are_missing() {
    let es = vec![entity("t", &[("member", &["a@r", "b@r"])])];
    assert!(matches!(
        update_entity_attrs(Kind::Group, &es, "t", "member", strings(&["a"]), true),
        Ok(None)
    ));
    assert!(matches!(
        update_entity_attrs(Kind::Group, &es, "t", "member", strings(&["d", "a", "c"]), true),
        Ok(Some(Call::AppendAttr { ref values, .. })) if *values == strings(&["a", "c", "d"])
    ));
}

#[test]
fn written_value_sets_are_sorted() {
    let es = vec![entity("eng", &[]), entity("c", &[])];
    assert!(matches!(
        update_entity_attrs(Kind::Group, &es, "eng", "member", strings(&["bob", "alice"]), false),
        Ok(Some(Call::ReplaceAttr { ref values, .. })) if *values == strings(&["alice", "bob"])
    ));
    assert!(matches!(
        update_oauth2_map(MapKind::Scope, &es, "c", "eng", strings(&["openid", "email"])),
        Ok(Some(Call::SetScopeMap { ref scopes, .. })) if *scopes == strings(&["email", "openid"])
    ));
    assert!(matches!(
        update_oauth2_map(MapKind::Supplementary, &es, "c", "eng", strings(&["profile", "email"])),
        Ok(Some(Call::SetScopeMap { ref scopes, .. })) if *scopes == strings(&["email", "profile"])
    ));
    assert!(matches!(
        update_oauth2_claim_map(&es, "c", "groups", "eng", strings(&["b", "a"])),
        Ok(Some(Call::SetClaimMap { ref values, .. })) if *values == strings(&["a", "b"])
    ));
    // Other attributes keep their declared order.
    assert!(matches!(
        update_entity_attrs(Kind::Person, &es, "eng", "mail", strings(&["b@x", "a@x"]), false),
        Ok(Some(Call::ReplaceAttr { ref values, .. })) if *values == strings(&["b@x", "a@x"])
    ));
}

#[test]
fn group_token_is_matched_exactly() {
    let es = vec![entity("c", &[("oauth2_rs_scope_map", &["engineering@example.org: {\"openid\"}"])])];
    assert!(matches!(update_oauth2_map(MapKind::Scope, &es, "c", "eng", vec![]), Ok(None)));
    assert!(matches!(
        update_oauth2_map(MapKind::Scope, &es, "c", "eng", strings(&["openid"])),
        Ok(Some(Call::SetScopeMap { ref group, .. })) if group == "eng"
    ));
}

#[test]
fn repeated_map_keys_are_refused() {
    let mut o = client(false);
    o.scope_maps = vec![("users".to_string(), strings(&["openid"])), ("users".to_string(), strings(&["email"]))];
    assert!(!o.has_distinct_keys());
    let r = State::new(vec![], vec![], Systems { oauth2: vec![("grafana".to_string(), o)] });
    assert!(matches!(r, Err(SyncError::DuplicateKey { ref client }) if client == "grafana"));
    assert!(client(true).has_distinct_keys());
    let r = State::new(
        vec![("eng".to_string(), group(&[])), ("eng".to_string(), group(&["a"]))],
        vec![],
        Systems { oauth2: vec![] },
    );
    assert!(matches!(r, Err(SyncError::RepeatedName { kind: Kind::Group })));
}

#[test]
fn invalid_join_type_stops_client_sync() {
    let mut o = client(false);
    o.claim_maps = vec![(
        "groups".to_string(),
        ClaimMap { join_type: "tsv".to_string(), values_by_group: vec![] },
    )];
    let oauth2s = vec![settled_client("grafana", false)];
    assert!(matches!(
        sync_oauth2_attrs("grafana", &o, &oauth2s),
        Err(SyncError::InvalidJoinType { ref claim, ref join_type, .. }) if claim == "groups" && join_type == "tsv"
    ));
    assert!(matches!(
        sync_oauth2_attrs("other", &o, &oauth2s),
        Err(SyncError::UnknownEntity { ref name }) if name == "other"
    ));
}

#[test]
fn run_phases_follow_the_fixed_order() {
    let mut seen = vec![first_phase()];
    while *seen.last().unwrap() != Phase::Done {
        let p = next_phase(*seen.last().unwrap(), true);
        seen.push(p);
    }
    assert_eq!(
        seen,
        vec![
            Phase::SetUpTracking,
            Phase::Groups,
            Phase::Persons,
            Phase::Oauth2s,
            Phase::Members,
            Phase::FinalRefresh,
            Phase::Track,
            Phase::RemoveOrphans,
            Phase::Done,
        ]
    );
    assert_eq!(next_phase(Phase::Track, false), Phase::Done);
    assert_eq!(refresh_all().len(), 3);
}
